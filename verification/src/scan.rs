//! Byte classes of the source text, the runs they form, and pieces of text cut at ASCII bytes.

use vstd::prelude::*;
use vstd::string::*;
use vstd::utf8::*;

verus! {

// The ASCII codes of the bytes that the lexers tell apart.
pub const TAB: u8 = 9;
pub const LINE_FEED: u8 = 10;
pub const CARRIAGE_RETURN: u8 = 13;
pub const SPACE: u8 = 32;
pub const BANG: u8 = 33;
pub const LEFT_PAREN: u8 = 40;
pub const RIGHT_PAREN: u8 = 41;
pub const ASTERISK: u8 = 42;
pub const PLUS: u8 = 43;
pub const COMMA: u8 = 44;
pub const MINUS: u8 = 45;
pub const SLASH: u8 = 47;
pub const DIGIT_ZERO: u8 = 48;
pub const DIGIT_NINE: u8 = 57;
pub const SEMICOLON: u8 = 59;
pub const LESS_THAN: u8 = 60;
pub const EQUALS_SIGN: u8 = 61;
pub const GREATER_THAN: u8 = 62;
pub const UPPER_A: u8 = 65;
pub const UPPER_Z: u8 = 90;
pub const UNDERSCORE: u8 = 95;
pub const LOWER_A: u8 = 97;
pub const LOWER_Z: u8 = 122;
pub const LEFT_BRACE: u8 = 123;
pub const RIGHT_BRACE: u8 = 125;

/// Space, tab, line feed or carriage return.
#[verifier::allow_in_spec]
pub fn is_space(b: u8) -> bool
    returns
        b == SPACE || b == TAB || b == LINE_FEED || b == CARRIAGE_RETURN,
{
    b == SPACE || b == TAB || b == LINE_FEED || b == CARRIAGE_RETURN
}

/// An ASCII letter or the underscore.
#[verifier::allow_in_spec]
pub fn is_letter(b: u8) -> bool
    returns
        (LOWER_A <= b && b <= LOWER_Z) || (UPPER_A <= b && b <= UPPER_Z) || b == UNDERSCORE,
{
    (LOWER_A <= b && b <= LOWER_Z) || (UPPER_A <= b && b <= UPPER_Z) || b == UNDERSCORE
}

/// An ASCII decimal digit.
#[verifier::allow_in_spec]
pub fn is_digit(b: u8) -> bool
    returns
        DIGIT_ZERO <= b && b <= DIGIT_NINE,
{
    DIGIT_ZERO <= b && b <= DIGIT_NINE
}

/// The kinds of byte that are read in runs.
pub enum ByteClass {
    Space,
    Letter,
    Digit,
}

impl ByteClass {
    /// Whether `b` belongs to the class.
    pub open spec fn holds(self, b: u8) -> bool {
        match self {
            ByteClass::Space => is_space(b),
            ByteClass::Letter => is_letter(b),
            ByteClass::Digit => is_digit(b),
        }
    }
}

/// The end of the longest run of bytes of `class` that starts at `from`.
pub open spec fn run_end(s: Seq<u8>, class: ByteClass, from: int) -> int
    decreases s.len() - from,
{
    if 0 <= from < s.len() && class.holds(s[from]) {
        run_end(s, class, from + 1)
    } else {
        from
    }
}

/// The byte at `i`, and zero where the text has none.
pub open spec fn byte_at(s: Seq<u8>, i: int) -> u8 {
    if 0 <= i < s.len() {
        s[i]
    } else {
        0
    }
}

/// A run ends inside the text, and no earlier than it starts.
pub proof fn lemma_run_end_bounds(s: Seq<u8>, class: ByteClass, from: int)
    requires
        0 <= from <= s.len(),
    ensures
        from <= run_end(s, class, from) <= s.len(),
    decreases s.len() - from,
{
    if from < s.len() && class.holds(s[from]) {
        lemma_run_end_bounds(s, class, from + 1);
    }
}

/// A stretch of bytes of the class that cannot be extended is the run.
pub proof fn lemma_run_end_is(s: Seq<u8>, class: ByteClass, from: int, to: int)
    requires
        0 <= from <= to <= s.len(),
        forall|k: int| from <= k < to ==> class.holds(#[trigger] s[k]),
        to < s.len() ==> !class.holds(s[to]),
    ensures
        run_end(s, class, from) == to,
    decreases to - from,
{
    if from < to {
        lemma_run_end_is(s, class, from + 1, to);
    }
}

/// The characters that a stretch of ASCII bytes spells.
pub open spec fn ascii_text(bytes: Seq<u8>) -> Seq<char> {
    Seq::new(bytes.len(), |i: int| bytes[i] as char)
}

/// Whether every byte from `from` up to `to` is an ASCII byte.
pub open spec fn ascii_between(s: Seq<u8>, from: int, to: int) -> bool {
    forall|k: int| from <= k < to ==> #[trigger] s[k] < 128
}

/// Text whose encoding is a stretch of ASCII bytes spells those bytes.
proof fn lemma_ascii_bytes_spell(chars: Seq<char>, bytes: Seq<u8>)
    requires
        encode_utf8(chars) == bytes,
        ascii_between(bytes, 0, bytes.len() as int),
    ensures
        chars == ascii_text(bytes),
{
    let spelled = ascii_text(bytes);
    assert(is_ascii_chars(spelled));
    is_ascii_chars_encode_utf8(spelled);
    assert(encode_utf8(spelled) =~= bytes) by {
        assert forall|i: int| 0 <= i < bytes.len() implies encode_utf8(spelled)[i] == bytes[i] by {
            assert(spelled[i] as u8 == encode_utf8(spelled)[i]);
            assert((bytes[i] as char) as u8 == bytes[i]);
        }
    }
    encode_utf8_decode_utf8(chars);
    encode_utf8_decode_utf8(spelled);
}

/// In well-formed text, the end of a stretch of ASCII bytes at the front is a character boundary.
proof fn lemma_boundary_after_ascii(bytes: Seq<u8>, n: int)
    requires
        valid_utf8(bytes),
        0 <= n <= bytes.len(),
        ascii_between(bytes, 0, n),
    ensures
        is_char_boundary(bytes, n),
    decreases n,
{
    if n > 0 {
        assert(bytes[0] < 128);
        assert(is_leading_byte_width_1(bytes[0]));
        assert(length_of_first_scalar(bytes) == 1);
        let rest = pop_first_scalar(bytes);
        assert(rest == bytes.subrange(1, bytes.len() as int));
        assert forall|k: int| 0 <= k < n - 1 implies #[trigger] rest[k] < 128 by {
            assert(rest[k] == bytes[k + 1]);
        }
        lemma_boundary_after_ascii(rest, n - 1);
    }
}

/// Whether two texts spell the same characters.
pub fn same_text(a: &str, b: &str) -> (same: bool)
    ensures
        same == (a@ == b@),
{
    let x = a.as_bytes();
    let y = b.as_bytes();
    proof {
        encode_utf8_decode_utf8(a@);
        encode_utf8_decode_utf8(b@);
    }
    if x.len() != y.len() {
        return false;
    }
    let mut i: usize = 0;
    while i < x.len()
        invariant
            x@ == a.spec_bytes(),
            y@ == b.spec_bytes(),
            x.len() == y.len(),
            i <= x.len(),
            x@.subrange(0, i as int) == y@.subrange(0, i as int),
        decreases x.len() - i,
    {
        if x[i] != y[i] {
            return false;
        }
        i += 1;
        assert(x@.subrange(0, i as int) =~= x@.subrange(0, i - 1).push(x@[i - 1]));
        assert(y@.subrange(0, i as int) =~= y@.subrange(0, i - 1).push(y@[i - 1]));
    }
    assert(x@ =~= x@.subrange(0, i as int));
    assert(y@ =~= y@.subrange(0, i as int));
    true
}

/// The piece of `text` between two byte offsets that enclose a non-empty stretch of ASCII bytes.
pub(crate) fn ascii_piece<'a>(text: &'a str, from: usize, to: usize) -> (piece: &'a str)
    requires
        from < to <= text.spec_bytes().len(),
        ascii_between(text.spec_bytes(), from as int, to as int),
    ensures
        piece@ == ascii_text(text.spec_bytes().subrange(from as int, to as int)),
{
    let ghost bytes = text.spec_bytes();
    proof {
        encode_utf8_valid_utf8(text@);
        assert(bytes[from as int] < 128);
        is_char_boundary_iff_not_is_continuation_byte(bytes, from as int);
    }
    let (_, tail) = text.split_at(from);
    let ghost rest = tail.spec_bytes();
    proof {
        encode_utf8_valid_utf8(tail@);
        assert(rest == bytes.subrange(from as int, bytes.len() as int));
        assert forall|k: int| 0 <= k < to - from implies #[trigger] rest[k] < 128 by {
            assert(rest[k] == bytes[from + k]);
        }
        lemma_boundary_after_ascii(rest, to - from);
    }
    let (piece, _) = tail.split_at(to - from);
    proof {
        let cut = bytes.subrange(from as int, to as int);
        assert(piece.spec_bytes() =~= cut);
        lemma_ascii_bytes_spell(piece@, cut);
    }
    piece
}

} // verus!
