use loopback_oauth::token::parse_token_response;

fn bytes(s: &str) -> Vec<u8> {
    s.as_bytes().to_vec()
}

const WELL_FORMED: &[u8] = b"{\"access_token\":\"tok_1\",\"token_type\":\"Bearer\",\"scope\":\"streaming\",\"expires_in\":3600,\"refresh_token\":\"r1\"}";

#[test]
fn well_formed_body_decodes() {
    let t = parse_token_response(WELL_FORMED).unwrap();
    assert_eq!(t.access_token, bytes("tok_1"));
    assert_eq!(t.token_type, bytes("Bearer"));
    assert_eq!(t.scope, bytes("streaming"));
    assert_eq!(t.expires_in, 3600);
    assert_eq!(t.refresh_token, bytes("r1"));
}

#[test]
fn fields_decode_in_any_order_with_whitespace() {
    let body = b" { \"refresh_token\" : \"r1\" , \"expires_in\" : 3600 , \"scope\" : \"streaming\" , \"token_type\" : \"Bearer\" , \"access_token\" : \"tok_1\" } ";
    let t = parse_token_response(body).unwrap();
    assert_eq!(t.access_token, bytes("tok_1"));
    assert_eq!(t.expires_in, 3600);
}

#[test]
fn unknown_members_are_passed_over() {
    let body = b"{\"access_token\":\"tok_1\",\"extra\":true,\"other\":null,\"n\":-12,\"token_type\":\"Bearer\",\"scope\":\"streaming\",\"expires_in\":3600,\"refresh_token\":\"r1\"}";
    let t = parse_token_response(body).unwrap();
    assert_eq!(t.access_token, bytes("tok_1"));
}

#[test]
fn string_escapes_decode() {
    let body = b"{\"access_token\":\"a\\\"b\\\\c\\nd\",\"token_type\":\"Bearer\",\"scope\":\"s\",\"expires_in\":1,\"refresh_token\":\"r\"}";
    let t = parse_token_response(body).unwrap();
    assert_eq!(t.access_token, bytes("a\"b\\c\nd"));
}

#[test]
fn missing_field_is_malformed() {
    let body = b"{\"access_token\":\"tok_1\",\"token_type\":\"Bearer\",\"scope\":\"streaming\",\"expires_in\":3600}";
    assert!(parse_token_response(body).is_none());
}

#[test]
fn duplicate_field_is_malformed() {
    let body = b"{\"access_token\":\"tok_1\",\"access_token\":\"tok_2\",\"token_type\":\"Bearer\",\"scope\":\"s\",\"expires_in\":1,\"refresh_token\":\"r\"}";
    assert!(parse_token_response(body).is_none());
}

#[test]
fn wrong_field_type_is_malformed() {
    let body = b"{\"access_token\":3600,\"token_type\":\"Bearer\",\"scope\":\"s\",\"expires_in\":1,\"refresh_token\":\"r\"}";
    assert!(parse_token_response(body).is_none());
}

#[test]
fn truncated_or_empty_bodies_are_malformed() {
    assert!(parse_token_response(b"").is_none());
    assert!(parse_token_response(b"{").is_none());
    assert!(parse_token_response(b"{}").is_none());
    assert!(parse_token_response(b"not json at all").is_none());
    assert!(parse_token_response(b"{\"access_token\":\"tok_1\"").is_none());
}

#[test]
fn trailing_text_is_malformed() {
    let mut body = WELL_FORMED.to_vec();
    body.extend_from_slice(b"x");
    assert!(parse_token_response(&body).is_none());
}

#[test]
fn expires_in_bounds_are_enforced() {
    let ok = b"{\"access_token\":\"t\",\"token_type\":\"B\",\"scope\":\"s\",\"expires_in\":2147483647,\"refresh_token\":\"r\"}";
    assert_eq!(parse_token_response(ok).unwrap().expires_in, 2147483647);
    let neg = b"{\"access_token\":\"t\",\"token_type\":\"B\",\"scope\":\"s\",\"expires_in\":-2147483648,\"refresh_token\":\"r\"}";
    assert_eq!(parse_token_response(neg).unwrap().expires_in, -2147483648);
    let too_big = b"{\"access_token\":\"t\",\"token_type\":\"B\",\"scope\":\"s\",\"expires_in\":2147483648,\"refresh_token\":\"r\"}";
    assert!(parse_token_response(too_big).is_none());
    let far_too_big = b"{\"access_token\":\"t\",\"token_type\":\"B\",\"scope\":\"s\",\"expires_in\":123456789012345,\"refresh_token\":\"r\"}";
    assert!(parse_token_response(far_too_big).is_none());
    let zero = b"{\"access_token\":\"t\",\"token_type\":\"B\",\"scope\":\"s\",\"expires_in\":0,\"refresh_token\":\"r\"}";
    assert_eq!(parse_token_response(zero).unwrap().expires_in, 0);
    let leading_zero = b"{\"access_token\":\"t\",\"token_type\":\"B\",\"scope\":\"s\",\"expires_in\":01,\"refresh_token\":\"r\"}";
    assert!(parse_token_response(leading_zero).is_none());
}
