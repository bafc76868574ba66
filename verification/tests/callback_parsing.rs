use loopback_oauth::callback::{lookup_param, parse_callback_target, parse_query};

fn bytes(s: &str) -> Vec<u8> {
    s.as_bytes().to_vec()
}

#[test]
fn callback_with_code_yields_the_code() {
    let cb = parse_callback_target(b"/auth/callback?code=ABC123").unwrap();
    assert_eq!(cb.code, Some(bytes("ABC123")));
}

#[test]
fn callback_without_code_yields_none() {
    let cb = parse_callback_target(b"/auth/callback?error=access_denied").unwrap();
    assert_eq!(cb.code, None);
    let denied = lookup_param(&cb.params, b"error");
    assert_eq!(denied, Some(bytes("access_denied")));
}

#[test]
fn callback_without_query_yields_none() {
    let cb = parse_callback_target(b"/auth/callback").unwrap();
    assert_eq!(cb.code, None);
    assert_eq!(cb.params.len(), 0);
}

#[test]
fn malformed_target_is_rejected_not_a_crash() {
    assert!(parse_callback_target(b"no-leading-slash").is_none());
    assert!(parse_callback_target(b"").is_none());
    assert!(parse_callback_target(b"/auth/call back").is_none());
    assert!(parse_callback_target(b"/auth/\x00callback").is_none());
    assert!(parse_callback_target(b"/auth/callback\x7F").is_none());
}

#[test]
fn query_values_are_percent_decoded() {
    let cb = parse_callback_target(b"/cb?code=A%42C%2b+d").unwrap();
    assert_eq!(cb.code, Some(bytes("ABC+ d")));
}

#[test]
fn malformed_percent_sequences_pass_through() {
    let pairs = parse_query(b"k=%GG%2");
    assert_eq!(lookup_param(&pairs, b"k"), Some(bytes("%GG%2")));
}

#[test]
fn duplicate_keys_take_the_last_value() {
    let cb = parse_callback_target(b"/cb?code=first&code=second").unwrap();
    assert_eq!(cb.code, Some(bytes("second")));
}

#[test]
fn empty_segments_and_missing_values_parse() {
    let pairs = parse_query(b"a=1&&b&c=");
    assert_eq!(pairs.len(), 3);
    assert_eq!(lookup_param(&pairs, b"a"), Some(bytes("1")));
    assert_eq!(lookup_param(&pairs, b"b"), Some(bytes("")));
    assert_eq!(lookup_param(&pairs, b"c"), Some(bytes("")));
    assert_eq!(lookup_param(&pairs, b"d"), None);
}
