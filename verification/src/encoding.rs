use vstd::prelude::*;

use crate::ascii::{LOWER_A, LOWER_F, LOWER_Z, UPPER_A, UPPER_F, UPPER_Z, DIGIT_0, DIGIT_9, HYPHEN,
    DOT, UNDERSCORE, TILDE, PERCENT, PLUS, SPACE};

verus! {

/// Bytes that percent-encoding leaves as they stand: ASCII letters,
/// digits, and `- . _ ~` (the unreserved set of URI syntax).
pub open spec fn is_unreserved(b: u8) -> bool {
    (LOWER_A <= b && b <= LOWER_Z) || (UPPER_A <= b && b <= UPPER_Z) || (DIGIT_0 <= b && b <= DIGIT_9) || b == HYPHEN
        || b == DOT || b == UNDERSCORE || b == TILDE
}

/// Upper-case hexadecimal digit for a value below 16.
pub open spec fn hex_digit(v: u8) -> u8
    recommends
        v < 16,
{
    if v < 10 {
        (DIGIT_0 + v) as u8
    } else {
        (UPPER_A + (v - 10)) as u8
    }
}

/// Percent-encoding of a single byte: unreserved bytes stand as they are,
/// every other byte becomes `%` followed by two upper-case hex digits.
pub open spec fn encode_byte(b: u8) -> Seq<u8> {
    if is_unreserved(b) {
        seq![b]
    } else {
        seq![PERCENT, hex_digit(b / 16), hex_digit(b % 16)]
    }
}

/// Percent-encoding of a byte sequence.
pub open spec fn percent_encoded(s: Seq<u8>) -> Seq<u8>
    decreases s.len(),
{
    if s.len() == 0 {
        Seq::empty()
    } else {
        encode_byte(s[0]) + percent_encoded(s.skip(1))
    }
}

/// Percent-encoding distributes over appending one byte at the end.
pub proof fn lemma_percent_encoded_push(s: Seq<u8>, b: u8)
    ensures
        percent_encoded(s.push(b)) == percent_encoded(s) + encode_byte(b),
    decreases s.len(),
{
    if s.len() == 0 {
        reveal_with_fuel(percent_encoded, 2);
        assert(s.push(b)[0] == b);
        assert(s.push(b).skip(1) =~= Seq::<u8>::empty());
        assert(percent_encoded(s) =~= Seq::<u8>::empty());
        assert(percent_encoded(s.push(b)) =~= percent_encoded(s) + encode_byte(b));
    } else {
        assert(s.push(b)[0] == s[0]);
        assert(s.push(b).skip(1) =~= s.skip(1).push(b));
        lemma_percent_encoded_push(s.skip(1), b);
        assert(percent_encoded(s.push(b)) =~= percent_encoded(s) + encode_byte(b));
    }
}

/// Hexadecimal digit of either case.
pub open spec fn is_hex_digit(b: u8) -> bool {
    (DIGIT_0 <= b && b <= DIGIT_9) || (UPPER_A <= b && b <= UPPER_F) || (LOWER_A <= b && b
        <= LOWER_F)
}

/// Value of a hexadecimal digit.
pub open spec fn hex_val(b: u8) -> u8
    recommends
        is_hex_digit(b),
{
    if DIGIT_0 <= b && b <= DIGIT_9 {
        (b - DIGIT_0) as u8
    } else if UPPER_A <= b && b <= UPPER_F {
        (b - UPPER_A + 10) as u8
    } else {
        (b - LOWER_A + 10) as u8
    }
}

/// Decoding of query text: `%XX` with two hexadecimal digits becomes one
/// byte, `+` becomes a space, and every other byte stands for itself
/// (a malformed `%` sequence is passed through literally).
pub open spec fn percent_decoded(s: Seq<u8>) -> Seq<u8>
    decreases s.len(),
{
    if s.len() == 0 {
        Seq::empty()
    } else if s[0] == PERCENT && s.len() >= 3 && is_hex_digit(s[1]) && is_hex_digit(s[2]) {
        seq![((hex_val(s[1]) * 16 + hex_val(s[2])) as u8)] + percent_decoded(s.skip(3))
    } else if s[0] == PLUS {
        seq![SPACE] + percent_decoded(s.skip(1))
    } else {
        seq![s[0]] + percent_decoded(s.skip(1))
    }
}

/// Whether a byte is a hexadecimal digit.
fn hex_digit_check(b: u8) -> (r: bool)
    ensures
        r == is_hex_digit(b),
{
    (DIGIT_0 <= b && b <= DIGIT_9) || (UPPER_A <= b && b <= UPPER_F) || (LOWER_A <= b && b
        <= LOWER_F)
}

/// The value of a hexadecimal digit.
fn hex_value(b: u8) -> (r: u8)
    requires
        is_hex_digit(b),
    ensures
        r == hex_val(b),
{
    if DIGIT_0 <= b && b <= DIGIT_9 {
        b - DIGIT_0
    } else if UPPER_A <= b && b <= UPPER_F {
        b - UPPER_A + 10
    } else {
        b - LOWER_A + 10
    }
}

/// Percent-decodes query text.
pub fn percent_decode(s: &[u8]) -> (r: Vec<u8>)
    ensures
        r@ == percent_decoded(s@),
{
    let mut r: Vec<u8> = Vec::new();
    let mut i: usize = 0;
    proof {
        assert(s@.skip(0) =~= s@);
        assert(r@ + percent_decoded(s@) =~= percent_decoded(s@));
    }
    while i < s.len()
        invariant
            i <= s@.len(),
            percent_decoded(s@) == r@ + percent_decoded(s@.skip(i as int)),
        decreases s@.len() - i,
    {
        let ghost pre = s@.skip(i as int);
        let ghost r_old = r@;
        if s[i] == PERCENT && s.len() - i >= 3 && hex_digit_check(s[i + 1]) && hex_digit_check(
            s[i + 2],
        ) {
            proof {
                assert(pre[0] == s@[i as int]);
                assert(pre[1] == s@[i as int + 1]);
                assert(pre[2] == s@[i as int + 2]);
                assert(pre.skip(3) =~= s@.skip(i as int + 3));
            }
            let d = hex_value(s[i + 1]) * 16 + hex_value(s[i + 2]);
            r.push(d);
            proof {
                assert(r@ + percent_decoded(s@.skip(i as int + 3)) =~= r_old + percent_decoded(
                    pre,
                ));
            }
            i += 3;
        } else {
            proof {
                assert(pre[0] == s@[i as int]);
                assert(pre.skip(1) =~= s@.skip(i as int + 1));
            }
            if s[i] == PLUS {
                r.push(SPACE);
            } else {
                r.push(s[i]);
            }
            proof {
                assert(r@ + percent_decoded(s@.skip(i as int + 1)) =~= r_old + percent_decoded(
                    pre,
                ));
            }
            i += 1;
        }
    }
    proof {
        assert(s@.skip(s@.len() as int) =~= Seq::<u8>::empty());
        assert(r@ =~= r@ + percent_decoded(s@.skip(s@.len() as int)));
    }
    r
}

/// Percent-encodes a byte slice.
pub fn percent_encode(s: &[u8]) -> (r: Vec<u8>)
    ensures
        r@ == percent_encoded(s@),
{
    let mut r: Vec<u8> = Vec::new();
    let mut i: usize = 0;
    while i < s.len()
        invariant
            i <= s@.len(),
            r@ == percent_encoded(s@.take(i as int)),
        decreases s@.len() - i,
    {
        let b = s[i];
        proof {
            lemma_percent_encoded_push(s@.take(i as int), b);
            assert(s@.take(i as int).push(b) =~= s@.take(i as int + 1));
        }
        if (LOWER_A <= b && b <= LOWER_Z) || (UPPER_A <= b && b <= UPPER_Z) || (DIGIT_0 <= b && b <= DIGIT_9)
            || b == HYPHEN || b == DOT || b == UNDERSCORE || b == TILDE {
            r.push(b);
        } else {
            let hi = b / 16;
            let lo = b % 16;
            r.push(PERCENT);
            r.push(if hi < 10 { DIGIT_0 + hi } else { UPPER_A + (hi - 10) });
            r.push(if lo < 10 { DIGIT_0 + lo } else { UPPER_A + (lo - 10) });
        }
        i += 1;
    }
    proof {
        assert(s@.take(s@.len() as int) =~= s@);
    }
    r
}

} // verus!
