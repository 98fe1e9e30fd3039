//! Text as commands print it: decoding, trimming and comparing.

use vstd::prelude::*;
use vstd::string::*;
use vstd::utf8::{decode_utf8, encode_utf8_decode_utf8, valid_utf8};

verus! {

/// The text that a lossy UTF-8 decoding makes of `bytes`.
pub uninterp spec fn lossy_text(bytes: Seq<u8>) -> Seq<char>;

/// Whether `c` is white space as Unicode defines it (`White_Space`).
pub open spec fn is_white_space(c: char) -> bool {
    let u = c as u32;
    ||| 0x09 <= u <= 0x0D
    ||| u == 0x20
    ||| u == 0x85
    ||| u == 0xA0
    ||| u == 0x1680
    ||| 0x2000 <= u <= 0x200A
    ||| u == 0x2028
    ||| u == 0x2029
    ||| u == 0x202F
    ||| u == 0x205F
    ||| u == 0x3000
}

/// Number of white-space characters that `text` starts with.
pub open spec fn leading_white_space(text: Seq<char>) -> nat
    decreases text.len(),
{
    if text.len() > 0 && is_white_space(text[0]) {
        1 + leading_white_space(text.drop_first())
    } else {
        0
    }
}

/// Number of white-space characters that `text` ends with.
pub open spec fn trailing_white_space(text: Seq<char>) -> nat
    decreases text.len(),
{
    if text.len() > 0 && is_white_space(text.last()) {
        1 + trailing_white_space(text.drop_last())
    } else {
        0
    }
}

/// `text` without the white space at its start and at its end.
pub open spec fn trimmed(text: Seq<char>) -> Seq<char> {
    let start = leading_white_space(text);
    if start >= text.len() {
        Seq::empty()
    } else {
        text.subrange(start as int, text.len() - trailing_white_space(text))
    }
}

/// Index of the first `mark` in `text`, or the length of `text` where it has
/// none.
pub open spec fn first_index(text: Seq<char>, mark: char) -> int
    decreases text.len(),
{
    if text.len() == 0 {
        0
    } else if text[0] == mark {
        0
    } else {
        1 + first_index(text.drop_first(), mark)
    }
}

/// The first `mark` of a text lies within it, and nothing before it is one.
pub proof fn lemma_first_index(text: Seq<char>, mark: char)
    ensures
        0 <= first_index(text, mark) <= text.len(),
        first_index(text, mark) < text.len() ==> text[first_index(text, mark)] == mark,
        forall|j: int| 0 <= j < first_index(text, mark) ==> #[trigger] text[j] != mark,
    decreases text.len(),
{
    if text.len() > 0 && text[0] != mark {
        let rest = text.drop_first();
        lemma_first_index(rest, mark);
        assert forall|j: int| 0 <= j < first_index(text, mark) implies #[trigger] text[j]
            != mark by {
            if j > 0 {
                assert(text[j] == rest[j - 1]);
            }
        }
    }
}

/// A position with no `mark` before it, which holds one or is the end of the
/// text, is the index of the first `mark`.
pub proof fn lemma_first_index_at(text: Seq<char>, mark: char, p: int)
    requires
        0 <= p <= text.len(),
        forall|j: int| 0 <= j < p ==> #[trigger] text[j] != mark,
        p < text.len() ==> text[p] == mark,
    ensures
        first_index(text, mark) == p,
    decreases text.len(),
{
    if text.len() > 0 && p > 0 {
        let rest = text.drop_first();
        assert(text[0] != mark);
        assert forall|j: int| 0 <= j < p - 1 implies #[trigger] rest[j] != mark by {
            assert(rest[j] == text[j + 1]);
        }
        lemma_first_index_at(rest, mark, p - 1);
    }
}

/// Decodes bytes as UTF-8 with `String::from_utf8_lossy`.
///
/// Trusted: the result depends on the bytes alone, and bytes that are valid
/// UTF-8 decode to the text they encode. What becomes of invalid sequences is
/// left to the standard library.
#[verifier::external_body]
pub(crate) fn decode_lossy(bytes: &[u8]) -> (text: String)
    ensures
        text@ == lossy_text(bytes@),
        valid_utf8(bytes@) ==> text@ == decode_utf8(bytes@),
{
    String::from_utf8_lossy(bytes).into_owned()
}

/// Removes white space at both ends with `str::trim`.
///
/// Trusted: the result is the text between the leading and the trailing run of
/// characters that Unicode counts as white space.
#[verifier::external_body]
pub(crate) fn trim_text(text: &str) -> (inner: &str)
    ensures
        inner@ == trimmed(text@),
{
    text.trim()
}

/// Whether two texts hold the same characters.
pub fn same_text(a: &str, b: &str) -> (same: bool)
    ensures
        same == (a@ == b@),
{
    let x = a.as_bytes();
    let y = b.as_bytes();
    proof {
        encode_utf8_decode_utf8(a@);
        encode_utf8_decode_utf8(b@);
    }
    if x.len() != y.len() {
        return false;
    }
    let mut i: usize = 0;
    while i < x.len()
        invariant
            i <= x@.len(),
            x@.len() == y@.len(),
            x@ == a.spec_bytes(),
            y@ == b.spec_bytes(),
            forall|k: int| 0 <= k < i ==> x@[k] == y@[k],
        decreases x@.len() - i,
    {
        if x[i] != y[i] {
            return false;
        }
        i += 1;
    }
    assert(x@ =~= y@);
    true
}

} // verus!
