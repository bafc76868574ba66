use vstd::prelude::*;

use crate::ascii::{ascii_bytes, bytes_eq, lit_bytes, push_all, BACKSLASH, BACKSPACE,
    CARRIAGE_RETURN, COLON, COMMA, DIGIT_0, DIGIT_9, FORM_FEED, HYPHEN, LEFT_BRACE, LINE_FEED,
    LOWER_B, LOWER_F, LOWER_N, LOWER_R, LOWER_T, QUOTE, RIGHT_BRACE, SLASH, SPACE, TAB};

verus! {

/// The provider's token payload, as decoded from the exchange response.
pub struct TokenResponse {
    pub access_token: Vec<u8>,
    pub token_type: Vec<u8>,
    pub scope: Vec<u8>,
    pub expires_in: i32,
    pub refresh_token: Vec<u8>,
}

/// The five fields of the token schema while a body is being read; a field
/// is `None` until its member has been seen.
pub struct TokenFields {
    pub access_token: Option<Seq<u8>>,
    pub token_type: Option<Seq<u8>>,
    pub scope: Option<Seq<u8>>,
    pub expires_in: Option<int>,
    pub refresh_token: Option<Seq<u8>>,
}

/// No field seen yet.
pub open spec fn no_fields() -> TokenFields {
    TokenFields {
        access_token: None,
        token_type: None,
        scope: None,
        expires_in: None,
        refresh_token: None,
    }
}

/// JSON whitespace.
pub open spec fn is_ws(b: u8) -> bool {
    b == SPACE || b == TAB || b == LINE_FEED || b == CARRIAGE_RETURN
}

/// First position at or after `i` that does not hold whitespace.
pub open spec fn skip_ws(s: Seq<u8>, i: int) -> int
    decreases s.len() - i,
{
    if 0 <= i < s.len() && is_ws(s[i]) {
        skip_ws(s, i + 1)
    } else {
        i
    }
}

/// `skip_ws` stays between its start and the end of the text.
pub proof fn lemma_skip_ws(s: Seq<u8>, i: int)
    requires
        0 <= i <= s.len(),
    ensures
        i <= skip_ws(s, i) <= s.len(),
    decreases s.len() - i,
{
    if i < s.len() && is_ws(s[i]) {
        lemma_skip_ws(s, i + 1);
    }
}

/// What a backslash escape in a JSON string stands for, if it is one of
/// the single-character escapes.
pub open spec fn unescape(b: u8) -> Option<u8> {
    if b == QUOTE {
        Some(QUOTE)
    } else if b == BACKSLASH {
        Some(BACKSLASH)
    } else if b == SLASH {
        Some(SLASH)
    } else if b == LOWER_B {
        Some(BACKSPACE)
    } else if b == LOWER_F {
        Some(FORM_FEED)
    } else if b == LOWER_N {
        Some(LINE_FEED)
    } else if b == LOWER_R {
        Some(CARRIAGE_RETURN)
    } else if b == LOWER_T {
        Some(TAB)
    } else {
        None
    }
}

/// The rest of a JSON string after its opening quote: the decoded bytes
/// and the position after the closing quote. Control bytes and escapes
/// other than the single-character ones make the string malformed.
pub open spec fn string_body(s: Seq<u8>, i: int) -> Option<(Seq<u8>, int)>
    decreases s.len() - i,
{
    if i < 0 || i >= s.len() {
        None
    } else if s[i] == QUOTE {
        Some((Seq::empty(), i + 1))
    } else if s[i] == BACKSLASH {
        if i + 1 < s.len() {
            match unescape(s[i + 1]) {
                Some(c) => match string_body(s, i + 2) {
                    Some(p) => Some((seq![c] + p.0, p.1)),
                    None => None,
                },
                None => None,
            }
        } else {
            None
        }
    } else if s[i] >= SPACE {
        match string_body(s, i + 1) {
            Some(p) => Some((seq![s[i]] + p.0, p.1)),
            None => None,
        }
    } else {
        None
    }
}

/// A parsed string ends after where it began and within the text.
pub proof fn lemma_string_body(s: Seq<u8>, i: int)
    ensures
        string_body(s, i) matches Some(p) ==> i < p.1 <= s.len(),
    decreases s.len() - i,
{
    if 0 <= i < s.len() {
        if s[i] == BACKSLASH {
            if i + 2 <= s.len() {
                lemma_string_body(s, i + 2);
            }
        } else {
            lemma_string_body(s, i + 1);
        }
    }
}

/// Decimal digit.
pub open spec fn is_digit(b: u8) -> bool {
    DIGIT_0 <= b && b <= DIGIT_9
}

/// First position at or after `i` that does not hold a digit.
pub open spec fn digits_end(s: Seq<u8>, i: int) -> int
    decreases s.len() - i,
{
    if 0 <= i < s.len() && is_digit(s[i]) {
        digits_end(s, i + 1)
    } else {
        i
    }
}

/// `digits_end` stays between its start and the end of the text, and all
/// bytes before it are digits.
pub proof fn lemma_digits_end(s: Seq<u8>, i: int)
    requires
        0 <= i <= s.len(),
    ensures
        i <= digits_end(s, i) <= s.len(),
        forall|j: int| i <= j < digits_end(s, i) ==> is_digit(#[trigger] s[j]),
        digits_end(s, i) < s.len() ==> !is_digit(s[digits_end(s, i)]),
    decreases s.len() - i,
{
    if i < s.len() && is_digit(s[i]) {
        lemma_digits_end(s, i + 1);
    }
}

/// Value of the decimal digits `s[i..j)`.
pub open spec fn digits_val(s: Seq<u8>, i: int, j: int) -> int
    decreases j - i,
{
    if i >= j {
        0
    } else {
        digits_val(s, i, j - 1) * 10 + (s[j - 1] - DIGIT_0)
    }
}

/// Powers of ten.
pub open spec fn ten_pow(n: nat) -> int
    decreases n,
{
    if n == 0 {
        1
    } else {
        10 * ten_pow((n - 1) as nat)
    }
}

/// A digit run without a leading zero is at least ten to the power of its
/// length less one, and any digit run is below ten to the power of its
/// length.
pub proof fn lemma_digits_val_bounds(s: Seq<u8>, i: int, j: int)
    requires
        i <= j,
        forall|k: int| i <= k < j ==> is_digit(#[trigger] s[k]),
    ensures
        0 <= digits_val(s, i, j) < ten_pow((j - i) as nat),
        i < j && s[i] != DIGIT_0 ==> digits_val(s, i, j) >= ten_pow((j - i - 1) as nat),
    decreases j - i,
{
    if i < j {
        lemma_digits_val_bounds(s, i, j - 1);
    }
}

/// A JSON integer at `i`: an optional minus sign, then a single `0` or a
/// run of digits without a leading zero. Yields the value and the position
/// after the digits.
pub open spec fn parse_int(s: Seq<u8>, i: int) -> Option<(int, int)> {
    let neg = 0 <= i < s.len() && s[i] == HYPHEN;
    let d0 = if neg {
        i + 1
    } else {
        i
    };
    if 0 <= d0 < s.len() && is_digit(s[d0]) {
        let e = if s[d0] == DIGIT_0 {
            d0 + 1
        } else {
            digits_end(s, d0)
        };
        let v = digits_val(s, d0, e);
        Some(
            (
                if neg {
                    -v
                } else {
                    v
                },
                e,
            ),
        )
    } else {
        None
    }
}

/// A parsed integer ends after where it began and within the text.
pub proof fn lemma_parse_int(s: Seq<u8>, i: int)
    requires
        0 <= i <= s.len(),
    ensures
        parse_int(s, i) matches Some(p) ==> i < p.1 <= s.len(),
{
    let neg = 0 <= i < s.len() && s[i] == HYPHEN;
    let d0 = if neg {
        i + 1
    } else {
        i
    };
    if 0 <= d0 < s.len() && is_digit(s[d0]) {
        lemma_digits_end(s, d0);
    }
}

/// Whether the bytes `w` stand at position `i` of `s`.
pub open spec fn has_bytes(s: Seq<u8>, i: int, w: Seq<u8>) -> bool {
    0 <= i && i + w.len() <= s.len() && s.subrange(i, i + w.len() as int) == w
}

/// A flat JSON value at `i`: a string, an integer, `true`, `false` or
/// `null`. Yields the position after it. Nested objects and arrays are
/// outside the schema.
pub open spec fn skip_value(s: Seq<u8>, i: int) -> Option<int> {
    if 0 <= i < s.len() {
        if s[i] == QUOTE {
            match string_body(s, i + 1) {
                Some(p) => Some(p.1),
                None => None,
            }
        } else if s[i] == HYPHEN || is_digit(s[i]) {
            match parse_int(s, i) {
                Some(p) => Some(p.1),
                None => None,
            }
        } else if has_bytes(s, i, lit_bytes("true"@)) {
            Some(i + 4)
        } else if has_bytes(s, i, lit_bytes("false"@)) {
            Some(i + 5)
        } else if has_bytes(s, i, lit_bytes("null"@)) {
            Some(i + 4)
        } else {
            None
        }
    } else {
        None
    }
}

/// A skipped value ends after where it began and within the text.
pub proof fn lemma_skip_value(s: Seq<u8>, i: int)
    requires
        0 <= i <= s.len(),
    ensures
        skip_value(s, i) matches Some(j) ==> i < j <= s.len(),
{
    reveal_strlit("true");
    reveal_strlit("false");
    reveal_strlit("null");
    if 0 <= i < s.len() {
        if s[i] == QUOTE {
            lemma_string_body(s, i + 1);
        } else if s[i] == HYPHEN || is_digit(s[i]) {
            lemma_parse_int(s, i);
        }
    }
}

/// A string at `i`: an opening quote, then a string body.
pub open spec fn parse_string(s: Seq<u8>, i: int) -> Option<(Seq<u8>, int)> {
    if 0 <= i < s.len() && s[i] == QUOTE {
        string_body(s, i + 1)
    } else {
        None
    }
}

/// One member applied to the fields read so far. The five known keys take
/// a value of their type and may appear once; any other key takes any flat
/// value and is passed over.
pub open spec fn apply_member(s: Seq<u8>, v: int, key: Seq<u8>, f: TokenFields) -> Option<
    (TokenFields, int),
> {
    if key == lit_bytes("access_token"@) {
        if f.access_token is Some {
            None
        } else {
            match parse_string(s, v) {
                Some(p) => Some((TokenFields { access_token: Some(p.0), ..f }, p.1)),
                None => None,
            }
        }
    } else if key == lit_bytes("token_type"@) {
        if f.token_type is Some {
            None
        } else {
            match parse_string(s, v) {
                Some(p) => Some((TokenFields { token_type: Some(p.0), ..f }, p.1)),
                None => None,
            }
        }
    } else if key == lit_bytes("scope"@) {
        if f.scope is Some {
            None
        } else {
            match parse_string(s, v) {
                Some(p) => Some((TokenFields { scope: Some(p.0), ..f }, p.1)),
                None => None,
            }
        }
    } else if key == lit_bytes("expires_in"@) {
        if f.expires_in is Some {
            None
        } else {
            match parse_int(s, v) {
                Some(p) => Some((TokenFields { expires_in: Some(p.0), ..f }, p.1)),
                None => None,
            }
        }
    } else if key == lit_bytes("refresh_token"@) {
        if f.refresh_token is Some {
            None
        } else {
            match parse_string(s, v) {
                Some(p) => Some((TokenFields { refresh_token: Some(p.0), ..f }, p.1)),
                None => None,
            }
        }
    } else {
        match skip_value(s, v) {
            Some(j) => Some((f, j)),
            None => None,
        }
    }
}

/// One `"key": value` member at `i` (whitespace allowed around the colon),
/// applied to the fields read so far.
pub open spec fn parse_member(s: Seq<u8>, i: int, f: TokenFields) -> Option<(TokenFields, int)> {
    match parse_string(s, i) {
        Some(kp) => {
            let k = skip_ws(s, kp.1);
            if k < s.len() && s[k] == COLON {
                apply_member(s, skip_ws(s, k + 1), kp.0, f)
            } else {
                None
            }
        },
        None => None,
    }
}

/// A parsed member ends after where it began and within the text.
pub proof fn lemma_parse_member(s: Seq<u8>, i: int, f: TokenFields)
    requires
        0 <= i <= s.len(),
    ensures
        parse_member(s, i, f) matches Some(p) ==> i < p.1 <= s.len(),
{
    lemma_string_body(s, i + 1);
    if let Some(kp) = parse_string(s, i) {
        lemma_skip_ws(s, kp.1);
        let k = skip_ws(s, kp.1);
        if k < s.len() && s[k] == COLON {
            lemma_skip_ws(s, k + 1);
            let v = skip_ws(s, k + 1);
            lemma_string_body(s, v + 1);
            lemma_parse_int(s, v);
            lemma_skip_value(s, v);
        }
    }
}

/// The members of the object from `i` on, applied in order to `f`:
/// members separated by commas, ending before the byte that is neither a
/// comma nor part of a member. Yields the fields and that position.
pub open spec fn parse_members(s: Seq<u8>, i: int, f: TokenFields) -> Option<(TokenFields, int)>
    decreases s.len() - i,
    when 0 <= i <= s.len()
    via parse_members_decreases
{
    match parse_member(s, i, f) {
        Some(p) => {
            let k = skip_ws(s, p.1);
            if k < s.len() && s[k] == COMMA {
                parse_members(s, skip_ws(s, k + 1), p.0)
            } else {
                Some((p.0, k))
            }
        },
        None => None,
    }
}

#[via_fn]
proof fn parse_members_decreases(s: Seq<u8>, i: int, f: TokenFields) {
    lemma_parse_member(s, i, f);
    if let Some(p) = parse_member(s, i, f) {
        lemma_skip_ws(s, p.1);
        let k = skip_ws(s, p.1);
        if k < s.len() && s[k] == COMMA {
            lemma_skip_ws(s, k + 1);
        }
    }
}

/// Parsed members end within the text.
pub proof fn lemma_parse_members(s: Seq<u8>, i: int, f: TokenFields)
    requires
        0 <= i <= s.len(),
    ensures
        parse_members(s, i, f) matches Some(p) ==> i < p.1 <= s.len(),
    decreases s.len() - i,
{
    lemma_parse_member(s, i, f);
    if let Some(p) = parse_member(s, i, f) {
        lemma_skip_ws(s, p.1);
        let k = skip_ws(s, p.1);
        if k < s.len() && s[k] == COMMA {
            lemma_skip_ws(s, k + 1);
            lemma_parse_members(s, skip_ws(s, k + 1), p.0);
        }
    }
}

/// The fields of a whole token body: one JSON object, nothing but
/// whitespace around it.
pub open spec fn token_fields_of(body: Seq<u8>) -> Option<TokenFields> {
    let i = skip_ws(body, 0);
    if 0 <= i < body.len() && body[i] == LEFT_BRACE {
        let j = skip_ws(body, i + 1);
        if 0 <= j < body.len() && body[j] == RIGHT_BRACE {
            if skip_ws(body, j + 1) == body.len() {
                Some(no_fields())
            } else {
                None
            }
        } else {
            match parse_members(body, j, no_fields()) {
                Some(p) => {
                    if 0 <= p.1 < body.len() && body[p.1] == RIGHT_BRACE && skip_ws(body, p.1 + 1)
                        == body.len() {
                        Some(p.0)
                    } else {
                        None
                    }
                },
                None => None,
            }
        }
    } else {
        None
    }
}

/// Powers of ten are positive and grow with the exponent.
pub proof fn lemma_ten_pow_mono(m: nat, n: nat)
    requires
        m <= n,
    ensures
        1 <= ten_pow(m) <= ten_pow(n),
    decreases n,
{
    if n == 0 {
    } else if m == n {
        lemma_ten_pow_mono(0, (n - 1) as nat);
    } else {
        lemma_ten_pow_mono(m, (n - 1) as nat);
    }
}

/// First position at or after `i` without whitespace.
fn skip_ws_from(s: &[u8], i: usize) -> (r: usize)
    requires
        i <= s@.len(),
    ensures
        r as int == skip_ws(s@, i as int),
        i <= r <= s@.len(),
{
    proof {
        lemma_skip_ws(s@, i as int);
    }
    let mut j = i;
    while j < s.len() && (s[j] == SPACE || s[j] == TAB || s[j] == LINE_FEED || s[j]
        == CARRIAGE_RETURN)
        invariant
            i <= j <= s@.len(),
            skip_ws(s@, i as int) == skip_ws(s@, j as int),
        decreases s@.len() - j,
    {
        proof {
            assert(skip_ws(s@, j as int) == skip_ws(s@, j as int + 1));
        }
        j += 1;
    }
    proof {
        assert(skip_ws(s@, j as int) == j as int);
        lemma_skip_ws(s@, i as int);
    }
    j
}

/// First position at or after `i` without a digit.
fn digits_end_from(s: &[u8], i: usize) -> (r: usize)
    requires
        i <= s@.len(),
    ensures
        r as int == digits_end(s@, i as int),
        i <= r <= s@.len(),
{
    proof {
        lemma_digits_end(s@, i as int);
    }
    let mut j = i;
    while j < s.len() && DIGIT_0 <= s[j] && s[j] <= DIGIT_9
        invariant
            i <= j <= s@.len(),
            digits_end(s@, i as int) == digits_end(s@, j as int),
        decreases s@.len() - j,
    {
        proof {
            assert(digits_end(s@, j as int) == digits_end(s@, j as int + 1));
        }
        j += 1;
    }
    proof {
        assert(digits_end(s@, j as int) == j as int);
    }
    j
}

/// What a backslash escape stands for.
fn unescape_byte(b: u8) -> (r: Option<u8>)
    ensures
        r == unescape(b),
{
    if b == QUOTE {
        Some(QUOTE)
    } else if b == BACKSLASH {
        Some(BACKSLASH)
    } else if b == SLASH {
        Some(SLASH)
    } else if b == LOWER_B {
        Some(BACKSPACE)
    } else if b == LOWER_F {
        Some(FORM_FEED)
    } else if b == LOWER_N {
        Some(LINE_FEED)
    } else if b == LOWER_R {
        Some(CARRIAGE_RETURN)
    } else if b == LOWER_T {
        Some(TAB)
    } else {
        None
    }
}

/// Reads a string body from after its opening quote.
fn read_string_body(s: &[u8], i: usize) -> (r: Option<(Vec<u8>, usize)>)
    requires
        i <= s@.len(),
    ensures
        match r {
            Some(p) => string_body(s@, i as int) == Some((p.0@, p.1 as int)),
            None => string_body(s@, i as int) is None,
        },
    decreases s@.len() - i,
{
    if i == s.len() {
        return None;
    }
    let b = s[i];
    if b == QUOTE {
        let v: Vec<u8> = Vec::new();
        proof {
            assert(v@ =~= Seq::<u8>::empty());
        }
        return Some((v, i + 1));
    }
    if b == BACKSLASH {
        if i + 1 < s.len() {
            match unescape_byte(s[i + 1]) {
                Some(c) => match read_string_body(s, i + 2) {
                    Some(p) => {
                        let mut v: Vec<u8> = Vec::new();
                        v.push(c);
                        push_all(&mut v, p.0.as_slice());
                        proof {
                            assert(v@ =~= seq![c] + p.0@);
                        }
                        Some((v, p.1))
                    },
                    None => None,
                },
                None => None,
            }
        } else {
            None
        }
    } else if b >= SPACE {
        match read_string_body(s, i + 1) {
            Some(p) => {
                let mut v: Vec<u8> = Vec::new();
                v.push(b);
                push_all(&mut v, p.0.as_slice());
                proof {
                    assert(v@ =~= seq![b] + p.0@);
                }
                Some((v, p.1))
            },
            None => None,
        }
    } else {
        None
    }
}

/// Reads a JSON integer. The inner option is `None` when the value lies
/// outside the range of an `i32`.
fn read_int(s: &[u8], i: usize) -> (r: Option<(Option<i32>, usize)>)
    requires
        i <= s@.len(),
    ensures
        match r {
            Some(p) => parse_int(s@, i as int) matches Some(q) && q.1 == p.1 as int && (match p.0 {
                Some(v) => q.0 == v as int,
                None => q.0 < -0x8000_0000 || q.0 > 0x7fff_ffff,
            }),
            None => parse_int(s@, i as int) is None,
        },
{
    let neg = i < s.len() && s[i] == HYPHEN;
    let d0 = if neg {
        i + 1
    } else {
        i
    };
    if d0 >= s.len() {
        return None;
    }
    let b = s[d0];
    if !(DIGIT_0 <= b && b <= DIGIT_9) {
        return None;
    }
    let e = if b == DIGIT_0 {
        d0 + 1
    } else {
        digits_end_from(s, d0)
    };
    proof {
        lemma_digits_end(s@, d0 as int);
        assert(forall|k: int| d0 <= k < e ==> is_digit(#[trigger] s@[k]));
        lemma_digits_val_bounds(s@, d0 as int, e as int);
    }
    if e - d0 > 10 {
        proof {
            lemma_ten_pow_mono(10, (e - d0 - 1) as nat);
            assert(ten_pow(10) == 10_000_000_000) by {
                reveal_with_fuel(ten_pow, 11);
            }
        }
        return Some((None, e));
    }
    let mut acc: i64 = 0;
    let mut j = d0;
    proof {
        lemma_ten_pow_mono(0, 10);
        assert(ten_pow(10) == 10_000_000_000) by {
            reveal_with_fuel(ten_pow, 11);
        }
    }
    while j < e
        invariant
            d0 <= j <= e,
            e <= s@.len(),
            e - d0 <= 10,
            forall|k: int| d0 <= k < e ==> is_digit(#[trigger] s@[k]),
            acc == digits_val(s@, d0 as int, j as int),
            0 <= acc < ten_pow((j - d0) as nat),
        decreases e - j,
    {
        proof {
            lemma_ten_pow_mono((j - d0 + 1) as nat, 10);
            assert(ten_pow(10) == 10_000_000_000) by {
                reveal_with_fuel(ten_pow, 11);
            }
            assert(ten_pow(((j + 1) - d0) as nat) == 10 * ten_pow((j - d0) as nat));
            assert(is_digit(s@[j as int]));
        }
        acc = acc * 10 + (s[j] - DIGIT_0) as i64;
        j += 1;
    }
    if neg {
        if acc <= 2_147_483_648 {
            let v: i32 = (-acc) as i32;
            Some((Some(v), e))
        } else {
            Some((None, e))
        }
    } else {
        if acc <= 2_147_483_647 {
            Some((Some(acc as i32), e))
        } else {
            Some((None, e))
        }
    }
}

/// Whether the bytes `w` stand at position `i` of `s`.
fn has_bytes_at(s: &[u8], i: usize, w: &[u8]) -> (r: bool)
    ensures
        r == has_bytes(s@, i as int, w@),
{
    if i > s.len() || s.len() - i < w.len() {
        return false;
    }
    let part = vstd::slice::slice_subrange(s, i, i + w.len());
    bytes_eq(part, w)
}

/// Passes over one flat JSON value.
fn skip_value_at(s: &[u8], i: usize) -> (r: Option<usize>)
    requires
        i <= s@.len(),
    ensures
        match r {
            Some(j) => skip_value(s@, i as int) == Some(j as int),
            None => skip_value(s@, i as int) is None,
        },
{
    proof {
        reveal_strlit("true");
        reveal_strlit("false");
        reveal_strlit("null");
    }
    if i >= s.len() {
        return None;
    }
    let b = s[i];
    if b == QUOTE {
        match read_string_body(s, i + 1) {
            Some(p) => Some(p.1),
            None => None,
        }
    } else if b == HYPHEN || (DIGIT_0 <= b && b <= DIGIT_9) {
        match read_int(s, i) {
            Some(p) => Some(p.1),
            None => None,
        }
    } else {
        let lit_true = ascii_bytes("true");
        if has_bytes_at(s, i, lit_true.as_slice()) {
            return Some(i + 4);
        }
        let lit_false = ascii_bytes("false");
        if has_bytes_at(s, i, lit_false.as_slice()) {
            return Some(i + 5);
        }
        let lit_null = ascii_bytes("null");
        if has_bytes_at(s, i, lit_null.as_slice()) {
            return Some(i + 4);
        }
        None
    }
}

/// The fields read so far, with `expires_in` kept as `Some(None)` when its
/// member was present but out of range.
struct FieldsAcc {
    access_token: Option<Vec<u8>>,
    token_type: Option<Vec<u8>>,
    scope: Option<Vec<u8>>,
    expires_in: Option<Option<i32>>,
    refresh_token: Option<Vec<u8>>,
}

/// Whether the fields read agree with the fields of the grammar.
spec fn acc_matches(a: FieldsAcc, f: TokenFields) -> bool {
    &&& (match a.access_token {
        Some(v) => f.access_token == Some(v@),
        None => f.access_token is None,
    })
    &&& (match a.token_type {
        Some(v) => f.token_type == Some(v@),
        None => f.token_type is None,
    })
    &&& (match a.scope {
        Some(v) => f.scope == Some(v@),
        None => f.scope is None,
    })
    &&& (match a.refresh_token {
        Some(v) => f.refresh_token == Some(v@),
        None => f.refresh_token is None,
    })
    &&& (match a.expires_in {
        Some(o) => f.expires_in is Some && (match o {
            Some(v) => f.expires_in == Some(v as int),
            None => f.expires_in.unwrap() < -0x8000_0000 || f.expires_in.unwrap() > 0x7fff_ffff,
        }),
        None => f.expires_in is None,
    })
}

/// Reads one `"key": value` member.
fn read_member(s: &[u8], i: usize, acc: FieldsAcc, Ghost(f): Ghost<TokenFields>) -> (r: Option<
    (FieldsAcc, usize),
>)
    requires
        i <= s@.len(),
        acc_matches(acc, f),
    ensures
        match r {
            Some(p) => parse_member(s@, i as int, f) matches Some(q) && acc_matches(p.0, q.0)
                && q.1 == p.1 as int,
            None => parse_member(s@, i as int, f) is None,
        },
{
    if i >= s.len() || s[i] != QUOTE {
        return None;
    }
    let key = match read_string_body(s, i + 1) {
        Some(p) => p,
        None => {
            return None;
        },
    };
    proof {
        lemma_string_body(s@, i as int + 1);
    }
    let k = skip_ws_from(s, key.1);
    if !(k < s.len() && s[k] == COLON) {
        return None;
    }
    let v = skip_ws_from(s, k + 1);
    proof {
        reveal_strlit("access_token");
        reveal_strlit("token_type");
        reveal_strlit("scope");
        reveal_strlit("expires_in");
        reveal_strlit("refresh_token");
    }
    let name_access = ascii_bytes("access_token");
    let name_type = ascii_bytes("token_type");
    let name_scope = ascii_bytes("scope");
    let name_expires = ascii_bytes("expires_in");
    let name_refresh = ascii_bytes("refresh_token");
    if bytes_eq(key.0.as_slice(), name_access.as_slice()) {
        if acc.access_token.is_some() {
            return None;
        }
        if !(v < s.len() && s[v] == QUOTE) {
            return None;
        }
        match read_string_body(s, v + 1) {
            Some(p) => Some((FieldsAcc { access_token: Some(p.0), ..acc }, p.1)),
            None => None,
        }
    } else if bytes_eq(key.0.as_slice(), name_type.as_slice()) {
        if acc.token_type.is_some() {
            return None;
        }
        if !(v < s.len() && s[v] == QUOTE) {
            return None;
        }
        match read_string_body(s, v + 1) {
            Some(p) => Some((FieldsAcc { token_type: Some(p.0), ..acc }, p.1)),
            None => None,
        }
    } else if bytes_eq(key.0.as_slice(), name_scope.as_slice()) {
        if acc.scope.is_some() {
            return None;
        }
        if !(v < s.len() && s[v] == QUOTE) {
            return None;
        }
        match read_string_body(s, v + 1) {
            Some(p) => Some((FieldsAcc { scope: Some(p.0), ..acc }, p.1)),
            None => None,
        }
    } else if bytes_eq(key.0.as_slice(), name_expires.as_slice()) {
        if acc.expires_in.is_some() {
            return None;
        }
        match read_int(s, v) {
            Some(p) => Some((FieldsAcc { expires_in: Some(p.0), ..acc }, p.1)),
            None => None,
        }
    } else if bytes_eq(key.0.as_slice(), name_refresh.as_slice()) {
        if acc.refresh_token.is_some() {
            return None;
        }
        if !(v < s.len() && s[v] == QUOTE) {
            return None;
        }
        match read_string_body(s, v + 1) {
            Some(p) => Some((FieldsAcc { refresh_token: Some(p.0), ..acc }, p.1)),
            None => None,
        }
    } else {
        match skip_value_at(s, v) {
            Some(j) => Some((acc, j)),
            None => None,
        }
    }
}

/// Reads the members of the object from `i` on.
fn read_members(s: &[u8], i: usize, acc: FieldsAcc, Ghost(f): Ghost<TokenFields>) -> (r: Option<
    (FieldsAcc, usize),
>)
    requires
        i <= s@.len(),
        acc_matches(acc, f),
    ensures
        match r {
            Some(p) => parse_members(s@, i as int, f) matches Some(q) && acc_matches(p.0, q.0)
                && q.1 == p.1 as int,
            None => parse_members(s@, i as int, f) is None,
        },
{
    let mut pos = i;
    let mut cur = acc;
    let ghost mut fcur = f;
    loop
        invariant
            pos <= s@.len(),
            acc_matches(cur, fcur),
            parse_members(s@, i as int, f) == parse_members(s@, pos as int, fcur),
        decreases s@.len() - pos,
    {
        match read_member(s, pos, cur, Ghost(fcur)) {
            Some(p) => {
                proof {
                    lemma_parse_member(s@, pos as int, fcur);
                }
                let ghost f2 = parse_member(s@, pos as int, fcur).unwrap().0;
                let k = skip_ws_from(s, p.1);
                if k < s.len() && s[k] == COMMA {
                    let m = skip_ws_from(s, k + 1);
                    proof {
                        assert(parse_members(s@, pos as int, fcur) == parse_members(
                            s@,
                            m as int,
                            f2,
                        ));
                    }
                    pos = m;
                    cur = p.0;
                    proof {
                        fcur = f2;
                    }
                } else {
                    proof {
                        assert(parse_members(s@, pos as int, fcur) matches Some(q) && q.0 == f2
                            && q.1 == k as int);
                    }
                    return Some((p.0, k));
                }
            },
            None => {
                return None;
            },
        }
    }
}

/// Decodes the provider's token payload from an exchange response body.
/// Returns `None` exactly when the body does not decode under the token
/// schema; otherwise every field of the result is the decoded field.
pub fn parse_token_response(body: &[u8]) -> (r: Option<TokenResponse>)
    ensures
        match r {
            Some(t) => token_response_of(body@) == Some(
                (t.access_token@, t.token_type@, t.scope@, t.expires_in as int, t.refresh_token@),
            ),
            None => token_response_of(body@) is None,
        },
{
    let i = skip_ws_from(body, 0);
    if i >= body.len() || body[i] != LEFT_BRACE {
        return None;
    }
    let j = skip_ws_from(body, i + 1);
    if j < body.len() && body[j] == RIGHT_BRACE {
        return None;
    }
    let empty = FieldsAcc {
        access_token: None,
        token_type: None,
        scope: None,
        expires_in: None,
        refresh_token: None,
    };
    match read_members(body, j, empty, Ghost(no_fields())) {
        Some(p) => {
            proof {
                lemma_parse_members(body@, j as int, no_fields());
            }
            if p.1 < body.len() && body[p.1] == RIGHT_BRACE {
                if skip_ws_from(body, p.1 + 1) == body.len() {
                    match (p.0.access_token, p.0.token_type, p.0.scope, p.0.expires_in,
                        p.0.refresh_token) {
                        (Some(at), Some(tt), Some(sc), Some(Some(ex)), Some(rt)) => {
                            Some(
                                TokenResponse {
                                    access_token: at,
                                    token_type: tt,
                                    scope: sc,
                                    expires_in: ex,
                                    refresh_token: rt,
                                },
                            )
                        },
                        _ => None,
                    }
                } else {
                    None
                }
            } else {
                None
            }
        },
        None => None,
    }
}

/// What a well-formed token body decodes to: the five fields, each present
/// exactly once, with `expires_in` within the range of its field.
pub open spec fn token_response_of(body: Seq<u8>) -> Option<
    (Seq<u8>, Seq<u8>, Seq<u8>, int, Seq<u8>),
> {
    match token_fields_of(body) {
        Some(f) => {
            if f.access_token is Some && f.token_type is Some && f.scope is Some
                && f.expires_in is Some && f.refresh_token is Some && -0x8000_0000
                <= f.expires_in.unwrap() <= 0x7fff_ffff {
                Some(
                    (
                        f.access_token.unwrap(),
                        f.token_type.unwrap(),
                        f.scope.unwrap(),
                        f.expires_in.unwrap(),
                        f.refresh_token.unwrap(),
                    ),
                )
            } else {
                None
            }
        },
        None => None,
    }
}

} // verus!
