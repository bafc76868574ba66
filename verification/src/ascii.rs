use vstd::prelude::*;

verus! {

/// Named ASCII byte values, since byte character literals are not available.
pub const LOWER_A: u8 = 97;
pub const LOWER_Z: u8 = 122;
pub const UPPER_A: u8 = 65;
pub const UPPER_F: u8 = 70;
pub const UPPER_Z: u8 = 90;
pub const LOWER_F: u8 = 102;
pub const DIGIT_0: u8 = 48;
pub const DIGIT_9: u8 = 57;
pub const HYPHEN: u8 = 45;
pub const DOT: u8 = 46;
pub const UNDERSCORE: u8 = 95;
pub const TILDE: u8 = 126;
pub const PERCENT: u8 = 37;
pub const SPACE: u8 = 32;
pub const PLUS: u8 = 43;
pub const AMPERSAND: u8 = 38;
pub const EQUALS_SIGN: u8 = 61;
pub const QUESTION_MARK: u8 = 63;
pub const SLASH: u8 = 47;
pub const QUOTE: u8 = 34;
pub const BACKSLASH: u8 = 92;
pub const COLON: u8 = 58;
pub const LEFT_BRACE: u8 = 123;
pub const RIGHT_BRACE: u8 = 125;
pub const COMMA: u8 = 44;
pub const DELETE: u8 = 127;
pub const LOWER_B: u8 = 98;
pub const LOWER_N: u8 = 110;
pub const LOWER_R: u8 = 114;
pub const LOWER_T: u8 = 116;
pub const BACKSPACE: u8 = 8;
pub const TAB: u8 = 9;
pub const LINE_FEED: u8 = 10;
pub const FORM_FEED: u8 = 12;
pub const CARRIAGE_RETURN: u8 = 13;

/// The bytes of an ASCII character sequence, one byte per character.
pub open spec fn lit_bytes(s: Seq<char>) -> Seq<u8> {
    Seq::new(s.len(), |i: int| s[i] as u8)
}

/// Turns an ASCII string into its bytes, one byte per character.
/// Used to obtain byte constants from string literals.
pub fn ascii_bytes(s: &str) -> (r: Vec<u8>)
    requires
        vstd::string::is_ascii(s),
    ensures
        r@ == lit_bytes(s@),
{
    broadcast use vstd::string::is_ascii_spec_bytes;

    let v = vstd::slice::slice_to_vec(s.as_bytes());
    proof {
        assert(v@ =~= lit_bytes(s@));
    }
    v
}

/// Appends every byte of `src` to `dst`.
pub fn push_all(dst: &mut Vec<u8>, src: &[u8])
    ensures
        final(dst)@ == old(dst)@ + src@,
{
    let mut i: usize = 0;
    while i < src.len()
        invariant
            i <= src@.len(),
            dst@ == old(dst)@ + src@.take(i as int),
        decreases src@.len() - i,
    {
        dst.push(src[i]);
        proof {
            assert(old(dst)@ + src@.take(i as int) + seq![src@[i as int]] =~= old(dst)@ + src@.take(
                i as int + 1,
            ));
        }
        i += 1;
    }
    proof {
        assert(old(dst)@ + src@.take(src@.len() as int) =~= old(dst)@ + src@);
    }
}

/// Byte-for-byte equality of two byte slices.
pub fn bytes_eq(a: &[u8], b: &[u8]) -> (r: bool)
    ensures
        r == (a@ == b@),
{
    if a.len() != b.len() {
        return false;
    }
    let mut i: usize = 0;
    while i < a.len()
        invariant
            a@.len() == b@.len(),
            i <= a@.len(),
            forall|j: int| 0 <= j < i ==> a@[j] == b@[j],
        decreases a@.len() - i,
    {
        if a[i] != b[i] {
            return false;
        }
        i += 1;
    }
    proof {
        assert(a@ =~= b@);
    }
    true
}

} // verus!
