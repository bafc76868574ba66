use vstd::prelude::*;

use crate::ascii::{ascii_bytes, lit_bytes, push_all};
use crate::encoding::{percent_encode, percent_encoded};

verus! {

/// The form body of the token exchange: the code and redirect URI
/// percent-encoded, and the fixed grant type.
pub open spec fn token_form_body(code: Seq<u8>, redirect_uri: Seq<u8>) -> Seq<u8> {
    lit_bytes("code="@) + percent_encoded(code) + lit_bytes("&redirect_uri="@) + percent_encoded(
        redirect_uri,
    ) + lit_bytes("&grant_type=authorization_code"@)
}

/// Builds the form body posted to the provider's token endpoint.
pub fn build_token_form(code: &[u8], redirect_uri: &[u8]) -> (r: Vec<u8>)
    ensures
        r@ == token_form_body(code@, redirect_uri@),
{
    proof {
        reveal_strlit("code=");
        reveal_strlit("&redirect_uri=");
        reveal_strlit("&grant_type=authorization_code");
    }
    let mut r = ascii_bytes("code=");
    let enc_code = percent_encode(code);
    push_all(&mut r, enc_code.as_slice());
    let sep_uri = ascii_bytes("&redirect_uri=");
    push_all(&mut r, sep_uri.as_slice());
    let enc_uri = percent_encode(redirect_uri);
    push_all(&mut r, enc_uri.as_slice());
    let tail = ascii_bytes("&grant_type=authorization_code");
    push_all(&mut r, tail.as_slice());
    proof {
        assert(r@ =~= token_form_body(code@, redirect_uri@));
    }
    r
}

/// What the one token-exchange call came back with, as plain values: a
/// transport failure, or an HTTP status with the response body.
pub enum ExchangeOutcome {
    TransportFailure,
    Response { status: u16, body: Vec<u8> },
}

/// An HTTP status that counts as success.
pub open spec fn is_success_status(status: u16) -> bool {
    200 <= status < 300
}

} // verus!
