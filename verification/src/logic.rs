//! Core data model: variation axes, line candidates, and the outcome
//! taxonomy of a width fit.

use vstd::prelude::*;

verus! {

/// Largest magnitude an axis value (in fixed-point units) may take.
/// Keeps every intermediate of the search and of the cost formula inside
/// `i64`/`u64` range.
pub const VAL_LIMIT: i64 = 1_000_000_000;

/// One tunable justification dimension: a named font axis, or the
/// abstract spacing multiplier applied to the space glyph's advance.
#[derive(Clone, Copy, Debug)]
pub enum VariationKind {
    /// A four-byte variable-font axis tag.
    Axis([u8; 4]),
    /// A multiplier (fixed-point, one thousand = neutral) on the space
    /// glyph's advance.
    Spacing,
}

/// A variation axis with its allowed range, its rest (ideal) value, and
/// the value the search has currently settled on.
#[derive(Clone, Copy, Debug)]
pub struct Variation {
    pub kind: VariationKind,
    pub current_value: i64,
    pub min: i64,
    pub max: i64,
    pub best: i64,
}

impl Variation {
    /// A variation is well formed when its range is non-degenerate,
    /// bounded, and contains both the rest value and the current value.
    pub open spec fn wf(self) -> bool {
        &&& -VAL_LIMIT <= self.min
        &&& self.min < self.max
        &&& self.max <= VAL_LIMIT
        &&& self.min <= self.best <= self.max
        &&& self.min <= self.current_value <= self.max
    }

    /// The same axis, settled at `val`.
    pub open spec fn with_current(self, val: i64) -> Variation {
        Variation { current_value: val, ..self }
    }

    /// The spacing pseudo-axis: the space advance may shrink to a
    /// quarter or grow to five quarters of its designed width, and is
    /// ideally left untouched.
    pub fn new_spacing() -> (v: Variation)
        ensures
            v.kind is Spacing,
            v.min == 250,
            v.max == 1250,
            v.best == 1000,
            v.current_value == 1000,
            v.wf(),
    {
        Variation {
            kind: VariationKind::Spacing,
            min: 250,
            max: 1250,
            best: 1000,
            current_value: 1000,
        }
    }

    /// A named font axis with the given range and rest value, starting
    /// at rest.
    pub fn new_axis(tag: [u8; 4], min: i64, max: i64, best: i64) -> (v: Variation)
        requires
            -VAL_LIMIT <= min,
            min < max,
            max <= VAL_LIMIT,
            min <= best <= max,
        ensures
            v == (Variation {
                kind: VariationKind::Axis(tag),
                min,
                max,
                best,
                current_value: best,
            }),
            v.wf(),
    {
        Variation { kind: VariationKind::Axis(tag), min, max, best, current_value: best }
    }

    /// Move the axis to a new settled value.
    pub fn change_current_val(&mut self, new_val: i64)
        ensures
            *final(self) == old(self).with_current(new_val),
    {
        self.current_value = new_val;
    }
}

/// True of a settled variation list: every axis well formed.
pub open spec fn vars_wf(vars: Seq<Variation>) -> bool {
    forall|i: int| 0 <= i < vars.len() ==> #[trigger] vars[i].wf()
}

/// A line produced or attempted during the search: a byte span of the
/// original text (end exclusive), the settled variation values, how many
/// justification glyphs were inserted, and whether the line ends its
/// paragraph (which affects downstream trimming and centering).
#[derive(Clone, Debug)]
pub struct LineData {
    pub start_bp: usize,
    pub end_bp: usize,
    pub variations: Vec<Variation>,
    pub kashida_count: usize,
    pub last_line: bool,
}

impl LineData {
    /// A fresh candidate; the last-line flag is set later by the
    /// paragraph layout.
    pub fn new(start_bp: usize, end_bp: usize, variations: Vec<Variation>, kashida_count: usize) -> (
        l: LineData)
        ensures
            l.start_bp == start_bp,
            l.end_bp == end_bp,
            l.variations == variations,
            l.kashida_count == kashida_count,
            l.last_line == false,
    {
        LineData { start_bp, end_bp, variations, kashida_count, last_line: false }
    }
}

/// Two line candidates with the same content.
pub open spec fn line_matches(a: LineData, b: LineData) -> bool {
    &&& a.start_bp == b.start_bp
    &&& a.end_bp == b.end_bp
    &&& a.variations@ == b.variations@
    &&& a.kashida_count == b.kashida_count
    &&& a.last_line == b.last_line
}

/// Why a span refused a width fit: its widest achievable shape is still
/// narrower than the goal, or its narrowest is still wider.
#[derive(Clone, Copy, Debug)]
pub enum LineErrorKind {
    TooLoose,
    TooTight,
}

/// A failed width fit, carrying the boundary values the search reached
/// so that a later attempt can start from them.
#[derive(Clone, Debug)]
pub struct LineError {
    pub kind: LineErrorKind,
    pub variations: Vec<Variation>,
    pub kashida_count: usize,
}

impl LineError {
    pub fn new(kind: LineErrorKind, variations: Vec<Variation>, kashida_count: usize) -> (e:
        LineError)
        ensures
            e.kind == kind,
            e.variations == variations,
            e.kashida_count == kashida_count,
    {
        LineError { kind, variations, kashida_count }
    }

    /// A short human-readable description.
    pub fn message(&self) -> (r: &'static str)
        ensures
            self.kind is TooLoose ==> r@ == "Line is too loose."@,
            self.kind is TooTight ==> r@ == "Line is too tight."@,
    {
        match self.kind {
            LineErrorKind::TooLoose => "Line is too loose.",
            LineErrorKind::TooTight => "Line is too tight.",
        }
    }
}

/// Paragraph-level failure: no sequence of fitting lines covers the
/// paragraph.
#[derive(Clone, Copy, Debug, PartialEq, Eq, Structural)]
pub enum ParagraphError {
    UnableToLayout,
}

impl ParagraphError {
    /// A short human-readable description.
    pub fn message(&self) -> (r: &'static str)
        ensures
            r@ == "Unable to layout paragraph."@,
    {
        "Unable to layout paragraph."
    }
}

/// Copy a settled variation list (all elements are `Copy`).
pub fn copy_variations(vars: &Vec<Variation>) -> (r: Vec<Variation>)
    ensures
        r@ == vars@,
{
    let mut out: Vec<Variation> = Vec::new();
    let mut i: usize = 0;
    while i < vars.len()
        invariant
            i <= vars@.len(),
            out@ == vars@.subrange(0, i as int),
        decreases vars@.len() - i,
    {
        out.push(vars[i]);
        i = i + 1;
    }
    proof {
        assert(out@ == vars@.subrange(0, vars@.len() as int));
        assert(vars@.subrange(0, vars@.len() as int) =~= vars@);
    }
    out
}

} // verus!
