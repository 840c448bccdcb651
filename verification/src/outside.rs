//! The calls into the standard library and into `fastrand` that have no contract of their own.

use vstd::prelude::*;
use vstd::utf8::{decode_utf8, encode_utf8, is_ascii_chars, valid_utf8};

verus! {

/// The text that `String::from_utf8_lossy` reads out of bytes.
pub uninterp spec fn lossy_text(bytes: Seq<u8>) -> Seq<char>;

/// The text that `str::to_lowercase` makes of a text.
pub uninterp spec fn lower_text(text: Seq<char>) -> Seq<char>;

/// An ASCII character with `A` to `Z` turned into `a` to `z`.
pub open spec fn ascii_lower(c: char) -> char {
    if 'A' <= c <= 'Z' {
        (c as u32 + 32) as char
    } else {
        c
    }
}

/// The text that bytes are read as: the one that they encode where they are valid UTF-8, else
/// what `String::from_utf8_lossy` makes of them.
pub open spec fn read_text(bytes: Seq<u8>) -> Seq<char> {
    if valid_utf8(bytes) {
        decode_utf8(bytes)
    } else {
        lossy_text(bytes)
    }
}

/// Calls `String::from_utf8_lossy`. The result depends on the bytes alone, and where they are
/// valid UTF-8 it is the text that they encode. What stands in place of invalid bytes is not
/// said.
#[verifier::external_body]
pub(crate) fn decode_lossy(bytes: &[u8]) -> (r: String)
    ensures
        r@ == lossy_text(bytes@),
        valid_utf8(bytes@) ==> r@ == decode_utf8(bytes@),
{
    String::from_utf8_lossy(bytes).into_owned()
}

/// Calls `str::to_lowercase`. The result depends on the text alone, and in a text of ASCII
/// characters it turns `A` to `Z` into `a` to `z` and keeps the rest. What becomes of other
/// letters is not said.
#[verifier::external_body]
pub(crate) fn lowercase(text: &str) -> (r: String)
    ensures
        r@ == lower_text(text@),
        is_ascii_chars(text@) ==> r@ == text@.map_values(|c: char| ascii_lower(c)),
{
    text.to_lowercase()
}

/// Calls `fastrand::usize` on the range from 0 up to `bound`, which it panics on when empty.
/// Which number of the range comes back is left to chance.
#[verifier::external_body]
fn random_below(bound: usize) -> (r: usize)
    requires
        bound > 0,
    ensures
        r < bound,
{
    fastrand::usize(0..bound)
}

/// `r` is a number that was drawn by chance from those below `bound`. It is closed, so that
/// elsewhere only `draw_below` establishes it.
pub closed spec fn drawn(bound: usize, r: usize) -> bool {
    call_ensures(random_below, (bound,), r)
}

/// A number that is drawn lies below its bound.
pub proof fn law_draw_is_below(bound: usize, r: usize)
    requires
        drawn(bound, r),
    ensures
        r < bound,
{
}

/// Draws a number below `bound` by chance.
pub(crate) fn draw_below(bound: usize) -> (r: usize)
    requires
        bound > 0,
    ensures
        drawn(bound, r),
        r < bound,
{
    random_below(bound)
}

proof fn lemma_drawn_came_from_a_draw(bound: usize, r: usize)
    requires
        drawn(bound, r),
    ensures
        call_ensures(random_below, (bound,), r),
{
}

/// Text that was encoded in UTF-8 is read back; of bytes that encode no text it is said only that
/// `String::from_utf8_lossy` reads them.
pub proof fn law_encoded_text_is_read_back(text: Seq<char>, bytes: Seq<u8>)
    ensures
        read_text(encode_utf8(text)) == text,
        !valid_utf8(bytes) ==> read_text(bytes) == lossy_text(bytes),
{
    broadcast use {
        vstd::utf8::encode_utf8_valid_utf8,
        vstd::utf8::encode_utf8_decode_utf8,
    };

}

/// The small letter of each of the 26 ASCII capitals stands 32 code points behind it, and no
/// other character changes.
pub proof fn law_ascii_capitals_become_small(c: char)
    ensures
        65 <= c as int <= 90 ==> ascii_lower(c) as int == c as int + 32,
        !(65 <= c as int <= 90) ==> ascii_lower(c) == c,
{
}

} // verus!
