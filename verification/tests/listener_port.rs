use loopback_oauth::flow::{LoginError, LoginStage, Session};

#[test]
fn second_bind_fails_while_first_is_held() {
    let first = tiny_http::Server::http("127.0.0.1:5000");
    assert!(first.is_ok());
    let second = tiny_http::Server::http("127.0.0.1:5000");
    assert!(second.is_err());

    let mut a = Session::new();
    assert_eq!(a.on_bind(first.is_ok()), None);
    assert_eq!(a.stage, LoginStage::Bound);
    let mut b = Session::new();
    assert_eq!(b.on_bind(second.is_ok()), Some(LoginError::PortInUse));
    assert_eq!(b.stage, LoginStage::Failed);
}

/// Binds the port, retrying briefly: the dropped listener's accept thread
/// releases the socket asynchronously.
fn bind_with_retry(port: &str) -> Result<tiny_http::Server, Box<dyn std::error::Error + Send + Sync>> {
    let mut attempt = tiny_http::Server::http(port);
    let mut tries: u32 = 0;
    while attempt.is_err() && tries < 2_000_000 {
        attempt = tiny_http::Server::http(port);
        tries += 1;
    }
    attempt
}

#[test]
fn port_can_be_rebound_after_an_attempt_ends() {
    let port = "127.0.0.1:5001";
    {
        let held = tiny_http::Server::http(port);
        assert!(held.is_ok());
    }
    let again = bind_with_retry(port);
    assert!(again.is_ok());
    drop(again);
    let fresh = bind_with_retry(port);
    assert!(fresh.is_ok());
}
