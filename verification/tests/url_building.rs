use loopback_oauth::authorize::{build_authorization_url, join_scopes, AuthorizationRequest};
use loopback_oauth::encoding::percent_encode;
use loopback_oauth::exchange::build_token_form;

fn bytes(s: &str) -> Vec<u8> {
    s.as_bytes().to_vec()
}

#[test]
fn percent_encode_keeps_unreserved_bytes() {
    let out = percent_encode(b"AZaz09-._~");
    assert_eq!(out, bytes("AZaz09-._~"));
}

#[test]
fn percent_encode_escapes_reserved_bytes() {
    let out = percent_encode(b"http://127.0.0.1:5000/auth/callback");
    assert_eq!(out, bytes("http%3A%2F%2F127.0.0.1%3A5000%2Fauth%2Fcallback"));
}

#[test]
fn percent_encode_escapes_spaces_and_high_bytes() {
    let out = percent_encode(b"a b\xFF");
    assert_eq!(out, bytes("a%20b%FF"));
}

#[test]
fn join_scopes_uses_single_spaces() {
    let scopes = vec![bytes("streaming"), bytes("user-read-email")];
    assert_eq!(join_scopes(&scopes), bytes("streaming user-read-email"));
    let one = vec![bytes("streaming")];
    assert_eq!(join_scopes(&one), bytes("streaming"));
    let none: Vec<Vec<u8>> = vec![];
    assert_eq!(join_scopes(&none), bytes(""));
}

#[test]
fn authorization_url_encodes_every_value() {
    let req = AuthorizationRequest {
        client_id: bytes("my client&id"),
        scopes: vec![bytes("streaming"), bytes("user-read-email")],
        redirect_uri: bytes("http://127.0.0.1:5000/auth/callback"),
    };
    let url = build_authorization_url(&req);
    assert_eq!(
        url,
        bytes(
            "https://accounts.spotify.com/authorize?response_type=code&client_id=my%20client%26id\
             &scope=streaming%20user-read-email\
             &redirect_uri=http%3A%2F%2F127.0.0.1%3A5000%2Fauth%2Fcallback"
        )
    );
}

#[test]
fn authorization_url_with_plain_client_id() {
    let req = AuthorizationRequest {
        client_id: bytes("abc123"),
        scopes: vec![bytes("streaming")],
        redirect_uri: bytes("http://127.0.0.1:5000/auth/callback"),
    };
    let url = build_authorization_url(&req);
    assert_eq!(
        url,
        bytes(
            "https://accounts.spotify.com/authorize?response_type=code&client_id=abc123\
             &scope=streaming\
             &redirect_uri=http%3A%2F%2F127.0.0.1%3A5000%2Fauth%2Fcallback"
        )
    );
}

#[test]
fn token_form_encodes_code_and_redirect() {
    let form = build_token_form(b"AQDx/3+code", b"http://127.0.0.1:5000/auth/callback");
    assert_eq!(
        form,
        bytes(
            "code=AQDx%2F3%2Bcode&redirect_uri=http%3A%2F%2F127.0.0.1%3A5000%2Fauth%2Fcallback\
             &grant_type=authorization_code"
        )
    );
}
