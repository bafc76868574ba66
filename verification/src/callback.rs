use vstd::prelude::*;

use crate::ascii::{ascii_bytes, bytes_eq, lit_bytes, AMPERSAND, DELETE, EQUALS_SIGN, QUESTION_MARK,
    SLASH, SPACE};
use crate::encoding::{percent_decode, percent_decoded};

verus! {

/// First position of `b` in `s`, if any.
pub open spec fn find_byte(s: Seq<u8>, b: u8) -> Option<int>
    decreases s.len(),
{
    if s.len() == 0 {
        None
    } else if s[0] == b {
        Some(0int)
    } else {
        match find_byte(s.skip(1), b) {
            None => None,
            Some(i) => Some(i + 1),
        }
    }
}

/// `find_byte` returns the first position of `b`, and `None` exactly when
/// `b` does not occur.
pub proof fn lemma_find_byte(s: Seq<u8>, b: u8)
    ensures
        match find_byte(s, b) {
            Some(i) => 0 <= i < s.len() && s[i] == b && forall|j: int| 0 <= j < i ==> s[j] != b,
            None => forall|j: int| 0 <= j < s.len() ==> s[j] != b,
        },
    decreases s.len(),
{
    if s.len() == 0 {
    } else if s[0] == b {
    } else {
        lemma_find_byte(s.skip(1), b);
        assert forall|j: int| 0 <= j < s.len() && s[j] == b implies (find_byte(s, b) matches Some(i)
            && j >= i) by {
            if j > 0 {
                assert(s.skip(1)[j - 1] == s[j]);
            }
        }
    }
}

/// Finds the first position of `b` in a byte slice.
pub fn find_in(s: &[u8], b: u8) -> (r: Option<usize>)
    ensures
        match r {
            Some(i) => find_byte(s@, b) == Some(i as int),
            None => find_byte(s@, b) is None,
        },
{
    proof {
        lemma_find_byte(s@, b);
    }
    let mut i: usize = 0;
    while i < s.len()
        invariant
            i <= s@.len(),
            forall|j: int| 0 <= j < i ==> s@[j] != b,
            match find_byte(s@, b) {
                Some(k) => 0 <= k < s@.len() && s@[k] == b && forall|j: int|
                    0 <= j < k ==> s@[j] != b,
                None => forall|j: int| 0 <= j < s@.len() ==> s@[j] != b,
            },
        decreases s@.len() - i,
    {
        if s[i] == b {
            return Some(i);
        }
        i += 1;
    }
    None
}

/// Splits `q` at every occurrence of `sep`; an empty input gives one empty
/// segment, a separator at either end gives an empty segment there.
pub open spec fn split_on(q: Seq<u8>, sep: u8) -> Seq<Seq<u8>>
    decreases q.len(),
{
    if q.len() == 0 {
        seq![Seq::<u8>::empty()]
    } else if q[0] == sep {
        seq![Seq::<u8>::empty()] + split_on(q.skip(1), sep)
    } else {
        let rest = split_on(q.skip(1), sep);
        seq![seq![q[0]] + rest[0]] + rest.skip(1)
    }
}

/// A split never yields an empty list of segments.
pub proof fn lemma_split_on_len(q: Seq<u8>, sep: u8)
    ensures
        split_on(q, sep).len() >= 1,
    decreases q.len(),
{
    if q.len() == 0 {
    } else {
        lemma_split_on_len(q.skip(1), sep);
    }
}

/// If the first separator stands at `k`, the split is the prefix before it
/// followed by the split of what comes after it.
pub proof fn lemma_split_on_at(q: Seq<u8>, sep: u8, k: int)
    requires
        0 <= k < q.len(),
        q[k] == sep,
        forall|j: int| 0 <= j < k ==> q[j] != sep,
    ensures
        split_on(q, sep) == seq![q.take(k)] + split_on(q.skip(k + 1), sep),
    decreases q.len(),
{
    if k == 0 {
        assert(q.take(0) =~= Seq::<u8>::empty());
        assert(split_on(q, sep) =~= seq![q.take(0)] + split_on(q.skip(1), sep));
    } else {
        assert(q.skip(1)[k - 1] == q[k]);
        assert forall|j: int| 0 <= j < k - 1 implies q.skip(1)[j] != sep by {
            assert(q.skip(1)[j] == q[j + 1]);
        }
        lemma_split_on_at(q.skip(1), sep, k - 1);
        lemma_split_on_len(q.skip(1).skip(k), sep);
        let rest = split_on(q.skip(1), sep);
        assert(rest[0] == q.skip(1).take(k - 1));
        assert(seq![q[0]] + q.skip(1).take(k - 1) =~= q.take(k));
        assert(q.skip(1).skip(k) =~= q.skip(k + 1));
        assert(rest.skip(1) =~= split_on(q.skip(k + 1), sep));
        assert(split_on(q, sep) =~= seq![q.take(k)] + split_on(q.skip(k + 1), sep));
    }
}

/// If `sep` does not occur, the split is the whole input as one segment.
pub proof fn lemma_split_on_none(q: Seq<u8>, sep: u8)
    requires
        forall|j: int| 0 <= j < q.len() ==> q[j] != sep,
    ensures
        split_on(q, sep) == seq![q],
    decreases q.len(),
{
    if q.len() == 0 {
        assert(q =~= Seq::<u8>::empty());
        assert(split_on(q, sep) =~= seq![q]);
    } else {
        assert forall|j: int| 0 <= j < q.skip(1).len() implies q.skip(1)[j] != sep by {
            assert(q.skip(1)[j] == q[j + 1]);
        }
        lemma_split_on_none(q.skip(1), sep);
        assert(seq![q[0]] + q.skip(1) =~= q);
        assert(split_on(q, sep) =~= seq![q]);
    }
}

/// Splits a byte slice at every ampersand.
fn split_segments(q: &[u8]) -> (r: Vec<Vec<u8>>)
    ensures
        r.deep_view() == split_on(q@, AMPERSAND),
{
    let mut r: Vec<Vec<u8>> = Vec::new();
    let mut i: usize = 0;
    proof {
        assert(q@.skip(0) =~= q@);
        assert(r.deep_view() =~= Seq::<Seq<u8>>::empty());
        assert(r.deep_view() + split_on(q@, AMPERSAND) =~= split_on(q@, AMPERSAND));
    }
    loop
        invariant
            i <= q@.len(),
            split_on(q@, AMPERSAND) == r.deep_view() + split_on(q@.skip(i as int), AMPERSAND),
        decreases q@.len() - i,
    {
        let suffix = vstd::slice::slice_subrange(q, i, q.len());
        proof {
            assert(suffix@ =~= q@.skip(i as int));
        }
        let ghost r_old = r.deep_view();
        match find_in(suffix, AMPERSAND) {
            Some(k) => {
                proof {
                    lemma_find_byte(suffix@, AMPERSAND);
                    lemma_split_on_at(q@.skip(i as int), AMPERSAND, k as int);
                }
                let seg = vstd::slice::slice_to_vec(vstd::slice::slice_subrange(q, i, i + k));
                r.push(seg);
                proof {
                    assert(seg@ =~= q@.skip(i as int).take(k as int));
                    assert(seg.deep_view() =~= seg@);
                    assert(r.deep_view() =~= r_old.push(q@.skip(i as int).take(k as int)));
                    assert(q@.skip(i as int).skip(k as int + 1) =~= q@.skip(i as int + k + 1));
                    assert(r.deep_view() + split_on(q@.skip(i as int + k + 1), AMPERSAND) =~= r_old
                        + split_on(q@.skip(i as int), AMPERSAND));
                }
                i = i + k + 1;
            },
            None => {
                proof {
                    lemma_find_byte(suffix@, AMPERSAND);
                    lemma_split_on_none(q@.skip(i as int), AMPERSAND);
                }
                let seg = vstd::slice::slice_to_vec(suffix);
                r.push(seg);
                proof {
                    assert(seg@ =~= q@.skip(i as int));
                    assert(seg.deep_view() =~= seg@);
                    assert(r.deep_view() =~= r_old.push(q@.skip(i as int)));
                    assert(r.deep_view() =~= r_old + split_on(q@.skip(i as int), AMPERSAND));
                }
                return r;
            },
        }
    }
}

/// One `key=value` segment: the key is what stands before the first `=`,
/// the value what stands after it (empty when there is no `=`), both
/// percent-decoded.
pub open spec fn parse_pair(p: Seq<u8>) -> (Seq<u8>, Seq<u8>) {
    match find_byte(p, EQUALS_SIGN) {
        Some(i) => (percent_decoded(p.take(i)), percent_decoded(p.skip(i + 1))),
        None => (percent_decoded(p), Seq::<u8>::empty()),
    }
}

/// Parses one `key=value` segment.
fn parse_pair_bytes(p: &[u8]) -> (r: (Vec<u8>, Vec<u8>))
    ensures
        (r.0@, r.1@) == parse_pair(p@),
{
    match find_in(p, EQUALS_SIGN) {
        Some(i) => {
            let n = p.len();
            proof {
                lemma_find_byte(p@, EQUALS_SIGN);
                assert(i < n);
            }
            let key = percent_decode(vstd::slice::slice_subrange(p, 0, i));
            let value = percent_decode(vstd::slice::slice_subrange(p, i + 1, p.len()));
            proof {
                assert(p@.subrange(0, i as int) =~= p@.take(i as int));
                assert(p@.subrange(i as int + 1, p@.len() as int) =~= p@.skip(i as int + 1));
            }
            (key, value)
        },
        None => (percent_decode(p), Vec::new()),
    }
}

/// The `key=value` pairs of a query string, in order of appearance, with
/// empty segments between ampersands passed over.
pub open spec fn pairs_of_segments(segs: Seq<Seq<u8>>) -> Seq<(Seq<u8>, Seq<u8>)>
    decreases segs.len(),
{
    if segs.len() == 0 {
        Seq::empty()
    } else {
        let rest = pairs_of_segments(segs.drop_last());
        if segs.last().len() == 0 {
            rest
        } else {
            rest.push(parse_pair(segs.last()))
        }
    }
}

/// The decoded `key=value` pairs of a query string, in order of appearance.
pub open spec fn pairs_of(q: Seq<u8>) -> Seq<(Seq<u8>, Seq<u8>)> {
    pairs_of_segments(split_on(q, AMPERSAND))
}

/// The views of a list of byte-pair values.
pub open spec fn pairs_view(ps: Seq<(Vec<u8>, Vec<u8>)>) -> Seq<(Seq<u8>, Seq<u8>)> {
    ps.map_values(|p: (Vec<u8>, Vec<u8>)| (p.0@, p.1@))
}

/// Parses a query string into its decoded `key=value` pairs.
pub fn parse_query(q: &[u8]) -> (r: Vec<(Vec<u8>, Vec<u8>)>)
    ensures
        pairs_view(r@) == pairs_of(q@),
{
    let segments = split_segments(q);
    let mut r: Vec<(Vec<u8>, Vec<u8>)> = Vec::new();
    let mut i: usize = 0;
    proof {
        assert(pairs_view(r@) =~= pairs_of_segments(segments.deep_view().take(0)));
    }
    while i < segments.len()
        invariant
            i <= segments@.len(),
            segments.deep_view() == split_on(q@, AMPERSAND),
            segments.deep_view().len() == segments@.len(),
            pairs_view(r@) == pairs_of_segments(segments.deep_view().take(i as int)),
        decreases segments@.len() - i,
    {
        let ghost taken = segments.deep_view().take(i as int + 1);
        proof {
            assert(taken.drop_last() =~= segments.deep_view().take(i as int));
            assert(taken.last() == segments@[i as int]@);
        }
        if segments[i].len() > 0 {
            let pair = parse_pair_bytes(segments[i].as_slice());
            r.push(pair);
            proof {
                assert(pairs_view(r@) =~= pairs_of_segments(taken));
            }
        } else {
            proof {
                assert(pairs_view(r@) =~= pairs_of_segments(taken));
            }
        }
        i += 1;
    }
    proof {
        assert(segments.deep_view().take(segments@.len() as int) =~= segments.deep_view());
    }
    r
}

/// Last-value-wins lookup in a pair list.
pub open spec fn lookup(ps: Seq<(Seq<u8>, Seq<u8>)>, k: Seq<u8>) -> Option<Seq<u8>>
    decreases ps.len(),
{
    if ps.len() == 0 {
        None
    } else if ps.last().0 == k {
        Some(ps.last().1)
    } else {
        lookup(ps.drop_last(), k)
    }
}

/// The mapping that a pair list stands for, later values overriding
/// earlier ones for the same key.
pub open spec fn pairs_map(ps: Seq<(Seq<u8>, Seq<u8>)>) -> Map<Seq<u8>, Seq<u8>>
    decreases ps.len(),
{
    if ps.len() == 0 {
        Map::empty()
    } else {
        pairs_map(ps.drop_last()).insert(ps.last().0, ps.last().1)
    }
}

/// Last-value-wins lookup agrees with the mapping a pair list stands for:
/// a key is found exactly when the mapping holds it, with the same value.
pub proof fn lemma_lookup_is_map(ps: Seq<(Seq<u8>, Seq<u8>)>, k: Seq<u8>)
    ensures
        match lookup(ps, k) {
            Some(v) => pairs_map(ps).contains_key(k) && pairs_map(ps)[k] == v,
            None => !pairs_map(ps).contains_key(k),
        },
    decreases ps.len(),
{
    if ps.len() == 0 {
    } else {
        lemma_lookup_is_map(ps.drop_last(), k);
    }
}

/// Last-wins lookup of a key in a parsed pair list.
pub fn lookup_param(params: &Vec<(Vec<u8>, Vec<u8>)>, key: &[u8]) -> (r: Option<Vec<u8>>)
    ensures
        match r {
            Some(v) => lookup(pairs_view(params@), key@) == Some(v@),
            None => lookup(pairs_view(params@), key@) is None,
        },
{
    let mut i: usize = params.len();
    proof {
        assert(pairs_view(params@).take(params@.len() as int) =~= pairs_view(params@));
    }
    while i > 0
        invariant
            i <= params@.len(),
            lookup(pairs_view(params@), key@) == lookup(
                pairs_view(params@).take(i as int),
                key@,
            ),
        decreases i,
    {
        i -= 1;
        let ghost taken = pairs_view(params@).take(i as int + 1);
        proof {
            assert(taken.drop_last() =~= pairs_view(params@).take(i as int));
            assert(taken.last() == (params@[i as int].0@, params@[i as int].1@));
        }
        if bytes_eq(params[i].0.as_slice(), key) {
            let v = vstd::slice::slice_to_vec(params[i].1.as_slice());
            return Some(v);
        }
    }
    None
}

/// What one intercepted callback request said: the authorization code, if
/// the provider sent one, and every decoded query parameter.
pub struct CallbackResult {
    pub code: Option<Vec<u8>>,
    pub params: Vec<(Vec<u8>, Vec<u8>)>,
}

impl CallbackResult {
    /// The mapping of decoded query parameters, last value winning.
    pub open spec fn query_map(&self) -> Map<Seq<u8>, Seq<u8>> {
        pairs_map(pairs_view(self.params@))
    }
}

/// A request target is well formed when it is an origin-form target: it
/// starts with `/` and holds only visible ASCII bytes.
pub open spec fn well_formed_target(t: Seq<u8>) -> bool {
    t.len() >= 1 && t[0] == SLASH && forall|i: int|
        0 <= i < t.len() ==> SPACE < #[trigger] t[i] < DELETE
}

/// The query part of a request target: what follows the first `?`, or
/// nothing when there is none.
pub open spec fn target_query(t: Seq<u8>) -> Seq<u8> {
    match find_byte(t, QUESTION_MARK) {
        Some(i) => t.skip(i + 1),
        None => Seq::empty(),
    }
}

/// The authorization code a callback target carries: the last `code`
/// parameter of its query, if any.
pub open spec fn target_code(t: Seq<u8>) -> Option<Seq<u8>> {
    lookup(pairs_of(target_query(t)), lit_bytes("code"@))
}

/// Parses the target of the one intercepted callback request. Returns
/// `None` exactly on a malformed target; otherwise the result carries the
/// decoded query parameters and the `code` parameter, if the provider sent
/// one.
pub fn parse_callback_target(t: &[u8]) -> (r: Option<CallbackResult>)
    ensures
        r is Some <==> well_formed_target(t@),
        match r {
            Some(cb) => {
                &&& pairs_view(cb.params@) == pairs_of(target_query(t@))
                &&& match cb.code {
                    Some(c) => target_code(t@) == Some(c@),
                    None => target_code(t@) is None,
                }
            },
            None => true,
        },
{
    if t.len() == 0 || t[0] != SLASH {
        return None;
    }
    let mut i: usize = 0;
    while i < t.len()
        invariant
            i <= t@.len(),
            forall|j: int| 0 <= j < i ==> SPACE < #[trigger] t@[j] < DELETE,
        decreases t@.len() - i,
    {
        if t[i] <= SPACE || t[i] >= DELETE {
            return None;
        }
        i += 1;
    }
    let query: &[u8] = match find_in(t, QUESTION_MARK) {
        Some(k) => {
            proof {
                lemma_find_byte(t@, QUESTION_MARK);
            }
            let q = vstd::slice::slice_subrange(t, k + 1, t.len());
            proof {
                assert(q@ =~= target_query(t@));
            }
            q
        },
        None => {
            let q = vstd::slice::slice_subrange(t, 0, 0);
            proof {
                assert(q@ =~= target_query(t@));
            }
            q
        },
    };
    let params = parse_query(query);
    proof {
        reveal_strlit("code");
    }
    let key = ascii_bytes("code");
    let code = lookup_param(&params, key.as_slice());
    Some(CallbackResult { code, params })
}

} // verus!
