//! Trusted boundary to Unicode facilities: UTF-8 decoding, grapheme cluster
//! segmentation and display width. Each result is a function of its argument
//! alone, so it is given a name that contracts elsewhere build on.

use vstd::prelude::*;
use unicode_segmentation::UnicodeSegmentation;
use unicode_width::UnicodeWidthStr;

verus! {

/// The characters that a byte sequence decodes to, invalid sequences replaced.
pub uninterp spec fn utf8_of(bytes: Seq<u8>) -> Seq<char>;

/// The extended grapheme clusters of a character sequence, in order.
pub uninterp spec fn graphemes_of(s: Seq<char>) -> Seq<Seq<char>>;

/// The number of terminal columns a character sequence occupies.
pub uninterp spec fn width_of(s: Seq<char>) -> nat;

/// Relies on `String::from_utf8_lossy`: decodes UTF-8, replacing invalid
/// sequences with U+FFFD; the result depends on the bytes alone, and no
/// bytes yield no characters.
#[verifier::external_body]
pub fn utf8_lossy(bytes: &[u8]) -> (r: String)
    ensures
        r@ == utf8_of(bytes@),
        bytes@.len() == 0 ==> r@.len() == 0,
{
    String::from_utf8_lossy(bytes).into_owned()
}

/// Relies on `UnicodeSegmentation::graphemes` with extended clusters: splits
/// a string into its grapheme clusters, in order; the clusters partition the
/// string, so each is non-empty and an empty string has none.
#[verifier::external_body]
pub fn graphemes(s: &str) -> (r: Vec<String>)
    ensures
        r@.map_values(|t: String| t@) == graphemes_of(s@),
        s@.len() == 0 ==> r@.len() == 0,
        forall|i: int| 0 <= i < r@.len() ==> (#[trigger] r@[i]@).len() >= 1,
{
    s.graphemes(true).map(|g| g.to_string()).collect()
}

/// Relies on `UnicodeWidthStr::width`: the display width of a string, a
/// function of its characters alone.
#[verifier::external_body]
pub fn str_width(s: &str) -> (r: usize)
    ensures
        r == width_of(s@),
{
    UnicodeWidthStr::width(s)
}

/// The UTF-8 encoding of a character sequence.
pub uninterp spec fn bytes_of(s: Seq<char>) -> Seq<u8>;

/// Relies on `str::as_bytes`: the UTF-8 encoding of the string, a function
/// of its characters alone; an empty string encodes to no bytes.
#[verifier::external_body]
pub fn str_bytes(s: &str) -> (r: Vec<u8>)
    ensures
        r@ == bytes_of(s@),
        s@.len() == 0 ==> r@.len() == 0,
{
    s.as_bytes().to_vec()
}

} // verus!
