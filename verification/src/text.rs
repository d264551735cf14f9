//! Text plumbing for the search: trimming, justification-glyph
//! placement, line-break segmentation, and the byte-level checks the
//! paragraph layout makes itself.
//!
//! Text is carried as UTF-8 bytes and all offsets are byte offsets, as
//! in the shaping world. The three outside collaborators (whitespace
//! trimming, the kashida locator, the line segmenter) are pure functions
//! of the text, so their results are named and the rest of the engine is
//! verified against those names.

use vstd::prelude::*;

verus! {

/// True when byte position `p` may split the UTF-8 text `s` without
/// separating a code point from its continuation bytes: the ends of the
/// text, and any position not holding a continuation byte.
pub open spec fn is_char_boundary(s: Seq<u8>, p: int) -> bool {
    ||| p == 0
    ||| p == s.len()
    ||| (0 <= p < s.len() && (s[p] & 0xc0) != 0x80)
}

/// What trimming leaves of the text.
pub uninterp spec fn trimmed(s: Seq<u8>) -> Seq<u8>;

/// True when `r` is a contiguous subrange of `s`.
pub open spec fn is_subrange_of(r: Seq<u8>, s: Seq<u8>) -> bool {
    exists|i: int, j: int| 0 <= i <= j <= s.len() && r == #[trigger] s.subrange(i, j)
}

/// Relies on `str::trim`: removes leading and trailing whitespace, so
/// the result is a contiguous subrange of the input. Text that is not
/// valid UTF-8 is kept as it stands.
#[verifier::external_body]
pub(crate) fn trim_bytes(s: &[u8]) -> (r: Vec<u8>)
    ensures
        r@ == trimmed(s@),
        r@.len() <= s@.len(),
        is_subrange_of(r@, s@),
{
    match core::str::from_utf8(s) {
        Ok(t) => t.trim().as_bytes().to_vec(),
        Err(_) => s.to_vec(),
    }
}

/// The justification-insertion offsets the locator finds in `s`.
pub uninterp spec fn kashida_points_of(s: Seq<u8>) -> Seq<usize>;

/// Relies on `kashida::find_kashidas` under the Arabic rules: returns
/// insertion offsets ordered best first, every one a valid character
/// boundary of the text; there is at most one per word, so never more
/// offsets than bytes. Text that is not valid UTF-8 yields no offsets.
#[verifier::external_body]
pub(crate) fn find_kashida_points(s: &[u8]) -> (r: Vec<usize>)
    ensures
        r@ == kashida_points_of(s@),
        r@.len() <= s@.len(),
        forall|k: int| 0 <= k < r@.len() ==> is_char_boundary(s@, #[trigger] r@[k] as int),
{
    match core::str::from_utf8(s) {
        Ok(t) => kashida::find_kashidas(t, kashida::Script::Arabic).into_vec(),
        Err(_) => Vec::new(),
    }
}

/// The text with `count` elongation glyphs inserted at the located
/// offsets.
pub uninterp spec fn kashidas_placed(s: Seq<u8>, locs: Seq<usize>, count: usize) -> Seq<u8>;

/// Relies on `kashida::place_kashidas`: inserts `count` tatweel glyphs
/// at the located offsets (cycling through them when `count` exceeds
/// their number); with no offsets or a zero count the text comes back
/// unchanged. The offsets must be valid character boundaries, which is
/// what the locator returns.
#[verifier::external_body]
pub(crate) fn place_kashida_points(s: &[u8], locs: &Vec<usize>, count: usize) -> (r: Vec<u8>)
    requires
        forall|k: int| 0 <= k < locs@.len() ==> is_char_boundary(s@, #[trigger] locs@[k] as int),
    ensures
        r@ == kashidas_placed(s@, locs@, count),
        (count == 0 || locs@.len() == 0) ==> r@ == s@,
{
    match core::str::from_utf8(s) {
        Ok(t) => kashida::place_kashidas(t, locs.as_slice(), count).into_owned().into_bytes(),
        Err(_) => s.to_vec(),
    }
}

/// The candidate line-break offsets of `s`.
pub uninterp spec fn line_breaks_of(s: Seq<u8>) -> Seq<usize>;

/// Relies on `icu_segmenter::LineSegmenter` (`new_auto`, `segment_str`):
/// yields candidate break offsets in ascending order, always starting at
/// zero and, for non-empty text, always ending at the text length. Text
/// that is not valid UTF-8 gets only those two trivial breakpoints.
#[verifier::external_body]
pub(crate) fn segment_line_breaks(s: &[u8]) -> (r: Vec<usize>)
    ensures
        r@ == line_breaks_of(s@),
        r@.len() >= 1,
        r@[0] == 0,
        s@.len() > 0 ==> r@[r@.len() - 1] == s@.len(),
        forall|k: int| 0 <= k < r@.len() ==> #[trigger] r@[k] <= s@.len(),
        forall|k: int| 0 < k < r@.len() ==> r@[k - 1] < #[trigger] r@[k],
{
    match core::str::from_utf8(s) {
        Ok(t) => icu_segmenter::LineSegmenter::new_auto(Default::default())
            .segment_str(t)
            .collect(),
        Err(_) => {
            if s.is_empty() {
                vec![0]
            } else {
                vec![0, s.len()]
            }
        },
    }
}

/// True when the text at `off` begins with the verse-end marker (U+06DD,
/// bytes `0xdb 0x9d`); a line must not start with this orphaned mark.
pub open spec fn spec_aya_marker_at(s: Seq<u8>, off: int) -> bool {
    0 <= off && off + 1 < s.len() && s[off] == 0xdb && s[off + 1] == 0x9d
}

/// Byte-level check for the verse-end marker at `off`.
pub fn aya_marker_at(s: &[u8], off: usize) -> (r: bool)
    ensures
        r == spec_aya_marker_at(s@, off as int),
{
    if off < s.len() && off + 1 < s.len() {
        s[off] == 0xdb && s[off + 1] == 0x9d
    } else {
        false
    }
}

/// True when a blank-line paragraph separator (`\n\n`) stands at `p`.
pub open spec fn spec_separator_at(s: Seq<u8>, p: int) -> bool {
    0 <= p && p + 1 < s.len() && s[p] == 10 && s[p + 1] == 10
}

/// Where the paragraph that begins at `from` ends: the first separator
/// at or after `from`, or the end of the text.
pub open spec fn spec_para_end(text: Seq<u8>, from: int) -> int
    decreases text.len() - from,
{
    if !(0 <= from < text.len()) {
        text.len() as int
    } else if spec_separator_at(text, from) {
        from
    } else {
        spec_para_end(text, from + 1)
    }
}

/// A paragraph ends at or after its start, and within the text.
pub proof fn lemma_para_end_bounds(text: Seq<u8>, from: int)
    requires
        0 <= from <= text.len(),
    ensures
        from <= spec_para_end(text, from) <= text.len(),
    decreases text.len() - from,
{
    if from < text.len() && !spec_separator_at(text, from) {
        lemma_para_end_bounds(text, from + 1);
    }
}

/// The first separator at or after `from` is where the paragraph ends.
pub proof fn lemma_para_end_found(text: Seq<u8>, from: int, p: int)
    requires
        0 <= from <= p,
        spec_separator_at(text, p),
        forall|q: int| from <= q < p ==> !spec_separator_at(text, q),
    ensures
        spec_para_end(text, from) == p,
    decreases p - from,
{
    if from < p {
        lemma_para_end_found(text, from + 1, p);
    }
}

/// Without a separator at or after `from`, the paragraph runs to the
/// end of the text.
pub proof fn lemma_para_end_none(text: Seq<u8>, from: int)
    requires
        0 <= from <= text.len(),
        forall|q: int| from <= q ==> !spec_separator_at(text, q),
    ensures
        spec_para_end(text, from) == text.len(),
    decreases text.len() - from,
{
    if from < text.len() {
        lemma_para_end_none(text, from + 1);
    }
}

/// The first paragraph separator at or after `from`, if any.
pub fn find_separator(text: &[u8], from: usize) -> (r: Option<usize>)
    requires
        from <= text@.len(),
    ensures
        match r {
            Some(p) => {
                &&& from <= p
                &&& spec_separator_at(text@, p as int)
                &&& forall|q: int| from <= q < p ==> !spec_separator_at(text@, q)
            },
            None => forall|q: int| from <= q ==> !spec_separator_at(text@, q),
        },
{
    let mut p: usize = from;
    while p < text.len()
        invariant
            from <= p <= text@.len(),
            forall|q: int| from <= q < p ==> !spec_separator_at(text@, q),
        decreases text@.len() - p,
    {
        if p + 1 < text.len() && text[p] == 10 && text[p + 1] == 10 {
            return Some(p);
        }
        p = p + 1;
    }
    None
}

} // verus!
