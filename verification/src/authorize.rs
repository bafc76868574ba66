use vstd::prelude::*;

use crate::ascii::{ascii_bytes, lit_bytes, push_all, SPACE};
use crate::encoding::{percent_encode, percent_encoded};

verus! {

/// What a login attempt asks the identity provider for: the registered
/// client, the scopes wanted, and the loopback address the provider must
/// redirect the browser back to.
pub struct AuthorizationRequest {
    pub client_id: Vec<u8>,
    pub scopes: Vec<Vec<u8>>,
    pub redirect_uri: Vec<u8>,
}

/// The scopes joined into one string with a single space between them.
pub open spec fn space_joined(scopes: Seq<Seq<u8>>) -> Seq<u8>
    decreases scopes.len(),
{
    if scopes.len() == 0 {
        Seq::empty()
    } else if scopes.len() == 1 {
        scopes[0]
    } else {
        scopes[0] + seq![SPACE] + space_joined(scopes.skip(1))
    }
}

/// Joining distributes over appending one scope at the end.
pub proof fn lemma_space_joined_push(scopes: Seq<Seq<u8>>, s: Seq<u8>)
    ensures
        space_joined(scopes.push(s)) == if scopes.len() == 0 {
            s
        } else {
            space_joined(scopes) + seq![SPACE] + s
        },
    decreases scopes.len(),
{
    let sp = scopes.push(s);
    if scopes.len() == 0 {
        assert(sp.len() == 1);
        assert(sp[0] == s);
    } else if scopes.len() == 1 {
        reveal_with_fuel(space_joined, 2);
        assert(sp.len() == 2);
        assert(sp[0] == scopes[0]);
        assert(sp.skip(1) =~= Seq::<Seq<u8>>::empty().push(s));
        assert(sp.skip(1)[0] == s);
        assert(space_joined(sp.skip(1)) == s);
        assert(space_joined(sp) == scopes[0] + seq![SPACE] + s);
    } else {
        lemma_space_joined_push(scopes.skip(1), s);
        assert(sp[0] == scopes[0]);
        assert(sp.skip(1) =~= scopes.skip(1).push(s));
        assert(space_joined(sp) == scopes[0] + seq![SPACE] + (space_joined(scopes.skip(1))
            + seq![SPACE] + s));
        assert(scopes[0] + seq![SPACE] + (space_joined(scopes.skip(1)) + seq![SPACE] + s)
            =~= space_joined(scopes) + seq![SPACE] + s);
    }
}

/// Joins the scopes of a request with single spaces.
pub fn join_scopes(scopes: &Vec<Vec<u8>>) -> (r: Vec<u8>)
    ensures
        r@ == space_joined(scopes.deep_view()),
{
    let mut r: Vec<u8> = Vec::new();
    let mut i: usize = 0;
    while i < scopes.len()
        invariant
            i <= scopes@.len(),
            scopes.deep_view().len() == scopes@.len(),
            r@ == space_joined(scopes.deep_view().take(i as int)),
        decreases scopes@.len() - i,
    {
        proof {
            lemma_space_joined_push(scopes.deep_view().take(i as int), scopes@[i as int]@);
            assert(scopes.deep_view()[i as int] == scopes@[i as int]@);
            assert(scopes.deep_view().take(i as int).push(scopes@[i as int]@) =~= scopes.deep_view()
                .take(i as int + 1));
        }
        if i > 0 {
            r.push(SPACE);
        }
        push_all(&mut r, scopes[i].as_slice());
        proof {
            assert(r@ =~= space_joined(scopes.deep_view().take(i as int + 1)));
        }
        i += 1;
    }
    proof {
        assert(scopes.deep_view().take(scopes@.len() as int) =~= scopes.deep_view());
    }
    r
}

/// The provider's authorization endpoint with the fixed `response_type=code`
/// query, up to and including `client_id=`.
pub open spec fn auth_url_prefix() -> Seq<u8> {
    lit_bytes("https://accounts.spotify.com/authorize?response_type=code&client_id="@)
}

/// The `&scope=` separator of the authorization URL.
pub open spec fn scope_separator() -> Seq<u8> {
    lit_bytes("&scope="@)
}

/// The `&redirect_uri=` separator of the authorization URL.
pub open spec fn redirect_separator() -> Seq<u8> {
    lit_bytes("&redirect_uri="@)
}

/// The authorization URL for a request: the fixed endpoint and response
/// type followed by the percent-encoded client id, space-joined scopes,
/// and redirect URI.
pub open spec fn authorization_url(
    client_id: Seq<u8>,
    scopes: Seq<Seq<u8>>,
    redirect_uri: Seq<u8>,
) -> Seq<u8> {
    auth_url_prefix() + percent_encoded(client_id) + scope_separator() + percent_encoded(
        space_joined(scopes),
    ) + redirect_separator() + percent_encoded(redirect_uri)
}

/// Builds the browser-facing authorization URL for one login attempt.
pub fn build_authorization_url(req: &AuthorizationRequest) -> (r: Vec<u8>)
    ensures
        r@ == authorization_url(req.client_id@, req.scopes.deep_view(), req.redirect_uri@),
{
    proof {
        reveal_strlit("https://accounts.spotify.com/authorize?response_type=code&client_id=");
        reveal_strlit("&scope=");
        reveal_strlit("&redirect_uri=");
    }
    let mut r = ascii_bytes("https://accounts.spotify.com/authorize?response_type=code&client_id=");
    let enc_id = percent_encode(req.client_id.as_slice());
    push_all(&mut r, enc_id.as_slice());
    let sep_scope = ascii_bytes("&scope=");
    push_all(&mut r, sep_scope.as_slice());
    let joined = join_scopes(&req.scopes);
    let enc_scope = percent_encode(joined.as_slice());
    push_all(&mut r, enc_scope.as_slice());
    let sep_redirect = ascii_bytes("&redirect_uri=");
    push_all(&mut r, sep_redirect.as_slice());
    let enc_uri = percent_encode(req.redirect_uri.as_slice());
    push_all(&mut r, enc_uri.as_slice());
    proof {
        assert(r@ =~= authorization_url(
            req.client_id@,
            req.scopes.deep_view(),
            req.redirect_uri@,
        ));
    }
    r
}

/// The authorization URL carries the percent-encoded client id, scopes and
/// redirect URI as contiguous segments at fixed offsets: whatever the
/// request holds, each value appears in the URL exactly in encoded form.
pub proof fn lemma_authorization_url_segments(
    client_id: Seq<u8>,
    scopes: Seq<Seq<u8>>,
    redirect_uri: Seq<u8>,
)
    ensures
        ({
            let u = authorization_url(client_id, scopes, redirect_uri);
            let id_at = auth_url_prefix().len() as int;
            let id_end = id_at + percent_encoded(client_id).len();
            let sc_at = id_end + scope_separator().len();
            let sc_end = sc_at + percent_encoded(space_joined(scopes)).len();
            let ru_at = sc_end + redirect_separator().len();
            let ru_end = ru_at + percent_encoded(redirect_uri).len();
            &&& u.subrange(id_at, id_end) == percent_encoded(client_id)
            &&& u.subrange(sc_at, sc_end) == percent_encoded(space_joined(scopes))
            &&& u.subrange(ru_at, ru_end) == percent_encoded(redirect_uri)
            &&& ru_end == u.len()
        }),
{
    let u = authorization_url(client_id, scopes, redirect_uri);
    let id_at = auth_url_prefix().len() as int;
    let id_end = id_at + percent_encoded(client_id).len();
    let sc_at = id_end + scope_separator().len();
    let sc_end = sc_at + percent_encoded(space_joined(scopes)).len();
    let ru_at = sc_end + redirect_separator().len();
    let ru_end = ru_at + percent_encoded(redirect_uri).len();
    assert(u.subrange(id_at, id_end) =~= percent_encoded(client_id));
    assert(u.subrange(sc_at, sc_end) =~= percent_encoded(space_joined(scopes)));
    assert(u.subrange(ru_at, ru_end) =~= percent_encoded(redirect_uri));
}

} // verus!
