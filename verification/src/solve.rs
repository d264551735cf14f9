//! The width-fit solver: a bounded bisection over one variation axis,
//! and the multi-axis fallback chain with optional kashida augmentation.
//!
//! Every trial re-shapes the span and compares the measured width with
//! the goal. The whole search is a mathematical function of the shaper
//! state and the inputs — the contracts below pin each result down to
//! that function, so solving is deterministic by construction.

use vstd::prelude::*;

use crate::logic::{
    LineData, LineError, LineErrorKind, Variation, copy_variations, vars_wf,
};
use crate::shaper::Shaper;
use crate::text::{
    find_kashida_points, is_char_boundary, kashida_points_of, kashidas_placed,
    place_kashida_points, trim_bytes, trimmed,
};

verus! {

/// Half-width of the tolerance band around the goal, in device units.
pub const TOLERANCE: u32 = 5;

/// How a measured width compares with the goal.
#[derive(Clone, Copy, Debug, PartialEq, Eq, Structural)]
pub enum WidthClass {
    /// Narrower than the band.
    Under,
    /// Inside the tolerance band.
    Within,
    /// Wider than the band.
    Over,
}

/// The band is `[goal - TOLERANCE, goal + TOLERANCE)` with saturating
/// ends; an exact hit counts as within even when saturation has emptied
/// the band.
pub open spec fn spec_width_class(w: u32, goal: u32) -> WidthClass {
    let lo = if goal >= TOLERANCE {
        (goal - TOLERANCE) as u32
    } else {
        0u32
    };
    let in_band = lo <= w && (goal + TOLERANCE > u32::MAX || w < goal + TOLERANCE);
    if in_band || w == goal {
        WidthClass::Within
    } else if w < goal {
        WidthClass::Under
    } else {
        WidthClass::Over
    }
}

/// Compare a measured width with the goal.
pub fn classify_width(w: u32, goal: u32) -> (c: WidthClass)
    ensures
        c == spec_width_class(w, goal),
{
    let lo = if goal >= TOLERANCE {
        goal - TOLERANCE
    } else {
        0
    };
    let in_band = lo <= w && (goal > u32::MAX - TOLERANCE || w < goal + TOLERANCE);
    if in_band || w == goal {
        WidthClass::Within
    } else if w < goal {
        WidthClass::Under
    } else {
        WidthClass::Over
    }
}

/// The byte sequence a trial of span `[start, end)` actually measures:
/// the span, trimmed, with the justification glyphs placed.
pub open spec fn spec_line_slice(
    text: Seq<u8>,
    start: int,
    end: int,
    locs: Seq<usize>,
    count: usize,
) -> Seq<u8> {
    kashidas_placed(trimmed(text.subrange(start, end)), locs, count)
}

/// The width a trial measures with axis `vv` settled at `val`.
pub open spec fn spec_trial_width<S: Shaper>(
    s: S,
    slice: Seq<u8>,
    vars: Seq<Variation>,
    vv: int,
    val: i64,
) -> u32 {
    s.spec_width(slice, vars.update(vv, vars[vv].with_current(val)))
}

/// The settled variation list after axis `vv` moves to `val`.
pub open spec fn updated_at(vars: Seq<Variation>, vv: int, val: i64) -> Seq<Variation> {
    vars.update(vv, vars[vv].with_current(val))
}

/// What one axis's search settles on.
#[derive(Clone, Copy, Debug)]
pub enum AxisOutcome {
    /// The span is accepted at `value`; `exact` says the final trial
    /// landed inside the tolerance band (as opposed to a plateau or the
    /// trial budget ending the search at the best midpoint).
    Fit { value: i64, exact: bool },
    /// Even the most compressing end of the range is too wide.
    TooTight { value: i64 },
    /// Even the loosest end of the range is too narrow.
    TooLoose { value: i64 },
}

/// Number of bisection trials after the two endpoint trials.
pub const BISECT_TRIALS: usize = 30;

/// One step of the bounded bisection: try the midpoint; stop on a band
/// hit, on a plateau (the width did not move since the previous trial),
/// or when the trial budget runs out — in the latter two cases the
/// midpoint is accepted as the best available value.
pub open spec fn spec_bisect<S: Shaper>(
    s: S,
    slice: Seq<u8>,
    vars: Seq<Variation>,
    vv: int,
    goal: u32,
    lo: i64,
    hi: i64,
    prev: u32,
    fuel: nat,
) -> (i64, bool)
    decreases fuel,
{
    let mid = (lo + (hi - lo) / 2) as i64;
    let w = spec_trial_width(s, slice, vars, vv, mid);
    if spec_width_class(w, goal) is Within {
        (mid, true)
    } else if w == prev {
        (mid, false)
    } else if fuel <= 1 {
        (mid, false)
    } else if w < goal {
        spec_bisect(s, slice, vars, vv, goal, mid, hi, w, (fuel - 1) as nat)
    } else {
        spec_bisect(s, slice, vars, vv, goal, lo, mid, w, (fuel - 1) as nat)
    }
}

/// The outcome of searching one axis over its whole range: classify the
/// compressing end, then the loose end, then bisect between them.
pub open spec fn spec_one_axis<S: Shaper>(
    s: S,
    slice: Seq<u8>,
    vars: Seq<Variation>,
    vv: int,
    goal: u32,
) -> AxisOutcome {
    let lo = vars[vv].min;
    let hi = vars[vv].max;
    let w_lo = spec_trial_width(s, slice, vars, vv, lo);
    if spec_width_class(w_lo, goal) is Over {
        AxisOutcome::TooTight { value: lo }
    } else if spec_width_class(w_lo, goal) is Within {
        AxisOutcome::Fit { value: lo, exact: true }
    } else {
        let w_hi = spec_trial_width(s, slice, vars, vv, hi);
        if spec_width_class(w_hi, goal) is Under {
            AxisOutcome::TooLoose { value: hi }
        } else if spec_width_class(w_hi, goal) is Within {
            AxisOutcome::Fit { value: hi, exact: true }
        } else {
            let r = spec_bisect(s, slice, vars, vv, goal, lo, hi, w_hi, BISECT_TRIALS as nat);
            AxisOutcome::Fit { value: r.0, exact: r.1 }
        }
    }
}

/// The settled value an axis outcome carries.
pub open spec fn outcome_value(o: AxisOutcome) -> i64 {
    match o {
        AxisOutcome::Fit { value, .. } => value,
        AxisOutcome::TooTight { value } => value,
        AxisOutcome::TooLoose { value } => value,
    }
}

/// The bisection never leaves the range it was given.
pub proof fn lemma_bisect_in_range<S: Shaper>(
    s: S,
    slice: Seq<u8>,
    vars: Seq<Variation>,
    vv: int,
    goal: u32,
    lo: i64,
    hi: i64,
    prev: u32,
    fuel: nat,
)
    requires
        lo <= hi,
    ensures
        lo <= spec_bisect(s, slice, vars, vv, goal, lo, hi, prev, fuel).0 <= hi,
    decreases fuel,
{
    let mid = (lo + (hi - lo) / 2) as i64;
    assert(lo <= mid <= hi);
    let w = spec_trial_width(s, slice, vars, vv, mid);
    if !(spec_width_class(w, goal) is Within) && w != prev && fuel > 1 {
        if w < goal {
            lemma_bisect_in_range(s, slice, vars, vv, goal, mid, hi, w, (fuel - 1) as nat);
        } else {
            lemma_bisect_in_range(s, slice, vars, vv, goal, lo, mid, w, (fuel - 1) as nat);
        }
    }
}

/// Whatever one axis's search settles on lies inside that axis's range.
pub proof fn lemma_one_axis_in_range<S: Shaper>(
    s: S,
    slice: Seq<u8>,
    vars: Seq<Variation>,
    vv: int,
    goal: u32,
)
    requires
        0 <= vv < vars.len(),
        vars[vv].wf(),
    ensures
        vars[vv].min <= outcome_value(spec_one_axis(s, slice, vars, vv, goal)) <= vars[vv].max,
{
    let lo = vars[vv].min;
    let hi = vars[vv].max;
    let w_lo = spec_trial_width(s, slice, vars, vv, lo);
    if !(spec_width_class(w_lo, goal) is Over) && !(spec_width_class(w_lo, goal) is Within) {
        let w_hi = spec_trial_width(s, slice, vars, vv, hi);
        if !(spec_width_class(w_hi, goal) is Under) && !(spec_width_class(w_hi, goal) is Within) {
            lemma_bisect_in_range(s, slice, vars, vv, goal, lo, hi, w_hi, BISECT_TRIALS as nat);
        }
    }
}

/// What `find_optimal_line_1_axis` must return: the line or error that
/// `spec_one_axis` dictates for the trimmed, kashida-augmented span.
pub open spec fn one_axis_result_matches<S: Shaper>(
    r: Result<LineData, LineError>,
    s: S,
    text: Seq<u8>,
    start: int,
    end: int,
    goal: u32,
    vv: int,
    vars: Seq<Variation>,
    locs: Seq<usize>,
    count: usize,
) -> bool {
    let slice = spec_line_slice(text, start, end, locs, count);
    let outcome = spec_one_axis(s, slice, vars, vv, goal);
    match r {
        Ok(ld) => {
            &&& outcome is Fit
            &&& ld.start_bp == start
            &&& ld.end_bp == end
            &&& ld.variations@ == updated_at(vars, vv, outcome_value(outcome))
            &&& ld.kashida_count == count
            &&& ld.last_line == false
        },
        Err(e) => {
            &&& !(outcome is Fit)
            &&& (e.kind is TooTight <==> outcome is TooTight)
            &&& (e.kind is TooLoose <==> outcome is TooLoose)
            &&& e.variations@ == updated_at(vars, vv, outcome_value(outcome))
            &&& e.kashida_count == count
        },
    }
}

/// Updating one axis to a value inside its range keeps the whole list
/// well formed.
pub proof fn lemma_updated_wf(vars: Seq<Variation>, vv: int, val: i64)
    requires
        vars_wf(vars),
        0 <= vv < vars.len(),
        vars[vv].min <= val <= vars[vv].max,
    ensures
        vars_wf(updated_at(vars, vv, val)),
        updated_at(vars, vv, val).len() == vars.len(),
{
    let u = updated_at(vars, vv, val);
    assert forall|j: int| 0 <= j < u.len() implies #[trigger] u[j].wf() by {
        if j != vv {
            assert(vars[j].wf());
            assert(u[j] == vars[j]);
        } else {
            assert(vars[vv].wf());
            assert(u[j] == vars[vv].with_current(val));
        }
    }
}

/// Settle axis `i` of `vars` at `val`.
fn set_current(vars: &mut Vec<Variation>, i: usize, val: i64)
    requires
        i < old(vars)@.len(),
    ensures
        final(vars)@ == old(vars)@.update(i as int, old(vars)@[i as int].with_current(val)),
{
    let mut v = vars[i];
    v.change_current_val(val);
    vars[i] = v;
}

/// Fit one span to the goal width by searching a single axis, all other
/// axes held at the values they carry in `variations`.
///
/// The result is exactly what the bounded bisection of `spec_one_axis`
/// settles on; in particular the settled value never leaves the axis's
/// range, and a repeated call with the same inputs returns the same
/// result.
pub fn find_optimal_line_1_axis<S: Shaper>(
    shaper: &mut S,
    text: &[u8],
    start_bp: usize,
    end_bp: usize,
    goal_width: u32,
    vv_idx: usize,
    variations: &Vec<Variation>,
    kashida_locs: &Vec<usize>,
    kashida_count: usize,
) -> (r: Result<LineData, LineError>)
    requires
        old(shaper).wf(),
        vars_wf(variations@),
        vv_idx < variations@.len(),
        start_bp <= end_bp <= text@.len(),
        forall|k: int|
            0 <= k < kashida_locs@.len() ==> is_char_boundary(
                trimmed(text@.subrange(start_bp as int, end_bp as int)),
                #[trigger] kashida_locs@[k] as int,
            ),
    ensures
        *final(shaper) == *old(shaper),
        one_axis_result_matches(
            r,
            *old(shaper),
            text@,
            start_bp as int,
            end_bp as int,
            goal_width,
            vv_idx as int,
            variations@,
            kashida_locs@,
            kashida_count,
        ),
        r matches Ok(ld) ==> vars_wf(ld.variations@) && ld.variations@.len()
            == variations@.len(),
        r matches Err(e) ==> vars_wf(e.variations@) && e.variations@.len() == variations@.len(),
{
    let ghost s0 = *shaper;
    let ghost vv = vv_idx as int;

    let span = vstd::slice::slice_subrange(text, start_bp, end_bp);
    let trimmed_span = trim_bytes(span);
    let slice = place_kashida_points(trimmed_span.as_slice(), kashida_locs, kashida_count);
    let ghost sl = spec_line_slice(
        text@,
        start_bp as int,
        end_bp as int,
        kashida_locs@,
        kashida_count,
    );
    assert(slice@ == sl);

    let ghost outcome = spec_one_axis(s0, sl, variations@, vv, goal_width);
    proof {
        lemma_one_axis_in_range(s0, sl, variations@, vv, goal_width);
    }

    let axis = variations[vv_idx];
    let lo = axis.min;
    let hi = axis.max;

    let mut vs = copy_variations(variations);

    // Trial at the most compressing end of the range.
    set_current(&mut vs, vv_idx, lo);
    proof {
        assert(vs@ =~= updated_at(variations@, vv, lo));
        lemma_updated_wf(variations@, vv, lo);
    }
    let w_lo = shaper.shape_width(slice.as_slice(), &vs);
    match classify_width(w_lo, goal_width) {
        WidthClass::Over => {
            return Err(LineError::new(LineErrorKind::TooTight, vs, kashida_count));
        },
        WidthClass::Within => {
            return Ok(LineData::new(start_bp, end_bp, vs, kashida_count));
        },
        WidthClass::Under => {},
    }

    // Trial at the loosest end.
    set_current(&mut vs, vv_idx, hi);
    proof {
        assert(vs@ =~= updated_at(variations@, vv, hi));
        lemma_updated_wf(variations@, vv, hi);
    }
    let w_hi = shaper.shape_width(slice.as_slice(), &vs);
    match classify_width(w_hi, goal_width) {
        WidthClass::Under => {
            return Err(LineError::new(LineErrorKind::TooLoose, vs, kashida_count));
        },
        WidthClass::Within => {
            return Ok(LineData::new(start_bp, end_bp, vs, kashida_count));
        },
        WidthClass::Over => {},
    }

    // Bounded bisection between the two ends.
    let mut lo_v = lo;
    let mut hi_v = hi;
    let mut prev = w_hi;
    let mut i: usize = 0;
    loop
        invariant
            shaper.wf(),
            *shaper == s0,
            s0 == *old(shaper),
            vars_wf(variations@),
            vv == vv_idx as int,
            0 <= vv < variations@.len(),
            i < BISECT_TRIALS,
            lo <= lo_v <= hi_v <= hi,
            lo == variations@[vv].min,
            hi == variations@[vv].max,
            variations@[vv].wf(),
            start_bp <= end_bp <= text@.len(),
            vs@ == updated_at(variations@, vv, vs@[vv].current_value),
            slice@ == sl,
            sl == spec_line_slice(
                text@,
                start_bp as int,
                end_bp as int,
                kashida_locs@,
                kashida_count,
            ),
            outcome == spec_one_axis(s0, sl, variations@, vv, goal_width),
            outcome matches AxisOutcome::Fit { value, exact } && (value, exact) == spec_bisect(
                s0,
                sl,
                variations@,
                vv,
                goal_width,
                lo_v,
                hi_v,
                prev,
                (BISECT_TRIALS - i) as nat,
            ),
        decreases BISECT_TRIALS - i,
    {
        let mid = lo_v + (hi_v - lo_v) / 2;
        set_current(&mut vs, vv_idx, mid);
        proof {
            assert(vs@ =~= updated_at(variations@, vv, mid));
            lemma_updated_wf(variations@, vv, mid);
        }
        let w = shaper.shape_width(slice.as_slice(), &vs);
        let cls = classify_width(w, goal_width);
        if matches!(cls, WidthClass::Within) {
            return Ok(LineData::new(start_bp, end_bp, vs, kashida_count));
        }
        if w == prev {
            return Ok(LineData::new(start_bp, end_bp, vs, kashida_count));
        }
        if i >= BISECT_TRIALS - 1 {
            return Ok(LineData::new(start_bp, end_bp, vs, kashida_count));
        }
        if matches!(cls, WidthClass::Under) {
            lo_v = mid;
        } else {
            hi_v = mid;
        }
        prev = w;
        i = i + 1;
    }
}

/// The multi-axis fallback chain: search axis `idx`; a fit ends the
/// chain, a failure on the last axis is the chain's failure, and any
/// other failure pins the axis at the boundary value it reached and
/// hands the search to the next axis. Returns the settled variation
/// list and the failure kind, if any.
pub open spec fn spec_chain<S: Shaper>(
    s: S,
    slice: Seq<u8>,
    goal: u32,
    vars: Seq<Variation>,
    idx: nat,
) -> (Seq<Variation>, Option<LineErrorKind>)
    decreases vars.len() - idx,
{
    let outcome = spec_one_axis(s, slice, vars, idx as int, goal);
    let nv = updated_at(vars, idx as int, outcome_value(outcome));
    match outcome {
        AxisOutcome::Fit { .. } => (nv, None),
        AxisOutcome::TooTight { .. } => if idx + 1 < vars.len() {
            spec_chain(s, slice, goal, nv, idx + 1)
        } else {
            (nv, Some(LineErrorKind::TooTight))
        },
        AxisOutcome::TooLoose { .. } => if idx + 1 < vars.len() {
            spec_chain(s, slice, goal, nv, idx + 1)
        } else {
            (nv, Some(LineErrorKind::TooLoose))
        },
    }
}

/// The kashida search: try `k` inserted glyphs, preferring more; a fit
/// ends the search, and at zero the plain chain result stands. Returns
/// the settled variation list, the failure kind if any, and the glyph
/// count that produced the result.
pub open spec fn spec_kashida_search<S: Shaper>(
    s: S,
    text: Seq<u8>,
    start: int,
    end: int,
    goal: u32,
    vars: Seq<Variation>,
    locs: Seq<usize>,
    k: usize,
) -> (Seq<Variation>, Option<LineErrorKind>, usize)
    decreases k,
{
    let slice = spec_line_slice(text, start, end, locs, k);
    let r = spec_chain(s, slice, goal, vars, 0);
    if r.1 is None {
        (r.0, None, k)
    } else if k == 0 {
        (r.0, r.1, 0)
    } else {
        spec_kashida_search(s, text, start, end, goal, vars, locs, (k - 1) as usize)
    }
}

/// The full span solve: with kashida enabled, locate the insertion
/// offsets in the trimmed span and run the kashida search from their
/// number down; without it, one plain chain.
pub open spec fn spec_optimal_line<S: Shaper>(
    s: S,
    text: Seq<u8>,
    start: int,
    end: int,
    goal: u32,
    vars: Seq<Variation>,
    kashida: bool,
) -> (Seq<Variation>, Option<LineErrorKind>, usize) {
    if kashida {
        let locs = kashida_points_of(trimmed(text.subrange(start, end)));
        spec_kashida_search(s, text, start, end, goal, vars, locs, locs.len() as usize)
    } else {
        let slice = spec_line_slice(text, start, end, Seq::<usize>::empty(), 0);
        let r = spec_chain(s, slice, goal, vars, 0);
        (r.0, r.1, 0)
    }
}

/// What `find_optimal_line` must return: the line or error that
/// `spec_optimal_line` dictates.
pub open spec fn optimal_line_result_matches<S: Shaper>(
    r: Result<LineData, LineError>,
    s: S,
    text: Seq<u8>,
    start: int,
    end: int,
    goal: u32,
    vars: Seq<Variation>,
    kashida: bool,
) -> bool {
    let o = spec_optimal_line(s, text, start, end, goal, vars, kashida);
    match r {
        Ok(ld) => {
            &&& o.1 is None
            &&& ld.start_bp == start
            &&& ld.end_bp == end
            &&& ld.variations@ == o.0
            &&& ld.kashida_count == o.2
            &&& ld.last_line == false
        },
        Err(e) => {
            &&& o.1 == Some(e.kind)
            &&& e.variations@ == o.0
            &&& e.kashida_count == o.2
        },
    }
}

/// `out` is `orig` with some axes re-settled: every axis keeps its
/// identity, range and rest value, and holds a current value inside its
/// range.
pub open spec fn settled_from(orig: Seq<Variation>, out: Seq<Variation>) -> bool {
    &&& out.len() == orig.len()
    &&& forall|j: int|
        0 <= j < out.len() ==> {
            let o = #[trigger] out[j];
            &&& o.kind == orig[j].kind
            &&& o.min == orig[j].min
            &&& o.max == orig[j].max
            &&& o.best == orig[j].best
            &&& o.min <= o.current_value <= o.max
        }
}

/// The fallback chain only re-settles axes inside their ranges.
proof fn lemma_chain_settled<S: Shaper>(
    s: S,
    slice: Seq<u8>,
    goal: u32,
    vars: Seq<Variation>,
    idx: nat,
)
    requires
        vars_wf(vars),
        0 <= idx < vars.len(),
    ensures
        settled_from(vars, spec_chain(s, slice, goal, vars, idx).0),
        vars_wf(spec_chain(s, slice, goal, vars, idx).0),
    decreases vars.len() - idx,
{
    let outcome = spec_one_axis(s, slice, vars, idx as int, goal);
    let v = outcome_value(outcome);
    assert(vars[idx as int].wf());
    lemma_one_axis_in_range(s, slice, vars, idx as int, goal);
    lemma_updated_wf(vars, idx as int, v);
    let nv = updated_at(vars, idx as int, v);
    assert forall|j: int| 0 <= j < nv.len() implies {
        let o = #[trigger] nv[j];
        &&& o.kind == vars[j].kind
        &&& o.min == vars[j].min
        &&& o.max == vars[j].max
        &&& o.best == vars[j].best
        &&& o.min <= o.current_value <= o.max
    } by {
        assert(vars[j].wf());
        if j != idx {
            assert(nv[j] == vars[j]);
        } else {
            assert(nv[j] == vars[j].with_current(v));
        }
    }
    assert(settled_from(vars, nv));
    if !(outcome is Fit) && idx + 1 < vars.len() {
        lemma_chain_settled(s, slice, goal, nv, idx + 1);
        let out = spec_chain(s, slice, goal, nv, idx + 1).0;
        assert forall|j: int| 0 <= j < out.len() implies {
            let o = #[trigger] out[j];
            &&& o.kind == vars[j].kind
            &&& o.min == vars[j].min
            &&& o.max == vars[j].max
            &&& o.best == vars[j].best
            &&& o.min <= o.current_value <= o.max
        } by {
            assert(nv[j].kind == vars[j].kind && nv[j].min == vars[j].min && nv[j].max == vars[
                j].max && nv[j].best == vars[j].best);
        }
    }
}

/// The kashida search only re-settles axes inside their ranges.
proof fn lemma_kashida_settled<S: Shaper>(
    s: S,
    text: Seq<u8>,
    start: int,
    end: int,
    goal: u32,
    vars: Seq<Variation>,
    locs: Seq<usize>,
    k: usize,
)
    requires
        vars_wf(vars),
        vars.len() >= 1,
    ensures
        settled_from(vars, spec_kashida_search(s, text, start, end, goal, vars, locs, k).0),
        vars_wf(spec_kashida_search(s, text, start, end, goal, vars, locs, k).0),
    decreases k,
{
    let slice = spec_line_slice(text, start, end, locs, k);
    lemma_chain_settled(s, slice, goal, vars, 0);
    let r = spec_chain(s, slice, goal, vars, 0);
    if !(r.1 is None) && k != 0 {
        lemma_kashida_settled(s, text, start, end, goal, vars, locs, (k - 1) as usize);
    }
}

/// Every value the solver settles lies within its axis's `[min, max]`
/// range, and no axis changes its identity, range or rest value.
pub proof fn lemma_solved_values_in_range<S: Shaper>(
    s: S,
    text: Seq<u8>,
    start: int,
    end: int,
    goal: u32,
    vars: Seq<Variation>,
    kashida: bool,
)
    requires
        vars_wf(vars),
        vars.len() >= 1,
    ensures
        settled_from(vars, spec_optimal_line(s, text, start, end, goal, vars, kashida).0),
        vars_wf(spec_optimal_line(s, text, start, end, goal, vars, kashida).0),
{
    if kashida {
        let locs = kashida_points_of(trimmed(text.subrange(start, end)));
        lemma_kashida_settled(s, text, start, end, goal, vars, locs, locs.len() as usize);
    } else {
        let slice = spec_line_slice(text, start, end, Seq::<usize>::empty(), 0);
        lemma_chain_settled(s, slice, goal, vars, 0);
    }
}

/// Solving is deterministic: any two results the solver's contract
/// admits for the same shaper state and the same inputs are the same
/// line, or the same error with the same boundary values.
pub proof fn lemma_solving_deterministic<S: Shaper>(
    r1: Result<LineData, LineError>,
    r2: Result<LineData, LineError>,
    s: S,
    text: Seq<u8>,
    start: int,
    end: int,
    goal: u32,
    vars: Seq<Variation>,
    kashida: bool,
)
    requires
        optimal_line_result_matches(r1, s, text, start, end, goal, vars, kashida),
        optimal_line_result_matches(r2, s, text, start, end, goal, vars, kashida),
    ensures
        r1 is Ok <==> r2 is Ok,
        r1 matches Ok(a) ==> r2 matches Ok(b) && crate::logic::line_matches(a, b),
        r1 matches Err(a) ==> r2 matches Err(b) && a.kind == b.kind && a.variations@
            == b.variations@ && a.kashida_count == b.kashida_count,
{
}

/// A bisection that stops on a band hit really is inside the band.
proof fn lemma_bisect_exact_within<S: Shaper>(
    s: S,
    slice: Seq<u8>,
    vars: Seq<Variation>,
    vv: int,
    goal: u32,
    lo: i64,
    hi: i64,
    prev: u32,
    fuel: nat,
)
    ensures
        ({
            let r = spec_bisect(s, slice, vars, vv, goal, lo, hi, prev, fuel);
            r.1 ==> spec_width_class(spec_trial_width(s, slice, vars, vv, r.0), goal) is Within
        }),
    decreases fuel,
{
    let mid = (lo + (hi - lo) / 2) as i64;
    let w = spec_trial_width(s, slice, vars, vv, mid);
    if !(spec_width_class(w, goal) is Within) && w != prev && fuel > 1 {
        if w < goal {
            lemma_bisect_exact_within(s, slice, vars, vv, goal, mid, hi, w, (fuel - 1) as nat);
        } else {
            lemma_bisect_exact_within(s, slice, vars, vv, goal, lo, mid, w, (fuel - 1) as nat);
        }
    }
}

/// Whenever one axis's search reports an exact fit (the last trial
/// landed inside the tolerance band, as opposed to a plateau or the
/// trial budget ending the search), the width measured at the settled
/// value differs from the goal by at most the tolerance.
pub proof fn lemma_fit_within_tolerance<S: Shaper>(
    s: S,
    slice: Seq<u8>,
    vars: Seq<Variation>,
    vv: int,
    goal: u32,
)
    requires
        spec_one_axis(s, slice, vars, vv, goal) matches AxisOutcome::Fit { exact: true, .. },
    ensures
        ({
            let o = spec_one_axis(s, slice, vars, vv, goal);
            o matches AxisOutcome::Fit { value, exact } ==> {
                let w = spec_trial_width(s, slice, vars, vv, value);
                &&& spec_width_class(w, goal) is Within
                &&& -(TOLERANCE as int) <= w - goal <= TOLERANCE as int
            }
        }),
{
    let lo = vars[vv].min;
    let hi = vars[vv].max;
    let w_lo = spec_trial_width(s, slice, vars, vv, lo);
    if !(spec_width_class(w_lo, goal) is Over) && !(spec_width_class(w_lo, goal) is Within) {
        let w_hi = spec_trial_width(s, slice, vars, vv, hi);
        if !(spec_width_class(w_hi, goal) is Under) && !(spec_width_class(w_hi, goal) is Within) {
            lemma_bisect_exact_within(s, slice, vars, vv, goal, lo, hi, w_hi, BISECT_TRIALS as nat);
        }
    }
}

/// Whether the fallback chain's success ended on an exact fit: the
/// final trial landed inside the tolerance band, as opposed to a
/// plateau or the trial budget ending the search. False when the chain
/// failed.
pub open spec fn spec_chain_exact<S: Shaper>(
    s: S,
    slice: Seq<u8>,
    goal: u32,
    vars: Seq<Variation>,
    idx: nat,
) -> bool
    decreases vars.len() - idx,
{
    let outcome = spec_one_axis(s, slice, vars, idx as int, goal);
    let nv = updated_at(vars, idx as int, outcome_value(outcome));
    match outcome {
        AxisOutcome::Fit { exact, .. } => exact,
        AxisOutcome::TooTight { .. } => idx + 1 < vars.len() && spec_chain_exact(
            s,
            slice,
            goal,
            nv,
            idx + 1,
        ),
        AxisOutcome::TooLoose { .. } => idx + 1 < vars.len() && spec_chain_exact(
            s,
            slice,
            goal,
            nv,
            idx + 1,
        ),
    }
}

/// Whether the kashida search's success ended on an exact fit.
pub open spec fn spec_kashida_exact<S: Shaper>(
    s: S,
    text: Seq<u8>,
    start: int,
    end: int,
    goal: u32,
    vars: Seq<Variation>,
    locs: Seq<usize>,
    k: usize,
) -> bool
    decreases k,
{
    let slice = spec_line_slice(text, start, end, locs, k);
    let r = spec_chain(s, slice, goal, vars, 0);
    if r.1 is None {
        spec_chain_exact(s, slice, goal, vars, 0)
    } else if k == 0 {
        false
    } else {
        spec_kashida_exact(s, text, start, end, goal, vars, locs, (k - 1) as usize)
    }
}

/// Whether the whole span solve's success ended on an exact fit.
pub open spec fn spec_optimal_line_exact<S: Shaper>(
    s: S,
    text: Seq<u8>,
    start: int,
    end: int,
    goal: u32,
    vars: Seq<Variation>,
    kashida: bool,
) -> bool {
    if kashida {
        let locs = kashida_points_of(trimmed(text.subrange(start, end)));
        spec_kashida_exact(s, text, start, end, goal, vars, locs, locs.len() as usize)
    } else {
        let slice = spec_line_slice(text, start, end, Seq::<usize>::empty(), 0);
        spec_chain_exact(s, slice, goal, vars, 0)
    }
}

/// A chain that succeeds with an exact fit leaves the slice, measured
/// under the settled values, inside the tolerance band.
proof fn lemma_chain_fit_width<S: Shaper>(
    s: S,
    slice: Seq<u8>,
    goal: u32,
    vars: Seq<Variation>,
    idx: nat,
)
    requires
        0 <= idx < vars.len(),
        spec_chain(s, slice, goal, vars, idx).1 is None,
        spec_chain_exact(s, slice, goal, vars, idx),
    ensures
        ({
            let w = s.spec_width(slice, spec_chain(s, slice, goal, vars, idx).0);
            &&& spec_width_class(w, goal) is Within
            &&& -(TOLERANCE as int) <= w - goal <= TOLERANCE as int
        }),
    decreases vars.len() - idx,
{
    let outcome = spec_one_axis(s, slice, vars, idx as int, goal);
    let nv = updated_at(vars, idx as int, outcome_value(outcome));
    match outcome {
        AxisOutcome::Fit { value, exact } => {
            lemma_fit_within_tolerance(s, slice, vars, idx as int, goal);
            assert(s.spec_width(slice, nv) == spec_trial_width(s, slice, vars, idx as int, value));
        },
        AxisOutcome::TooTight { .. } => {
            lemma_chain_fit_width(s, slice, goal, nv, idx + 1);
        },
        AxisOutcome::TooLoose { .. } => {
            lemma_chain_fit_width(s, slice, goal, nv, idx + 1);
        },
    }
}

/// A kashida search that succeeds with an exact fit leaves the
/// augmented slice, measured under the settled values, inside the
/// tolerance band.
proof fn lemma_kashida_fit_width<S: Shaper>(
    s: S,
    text: Seq<u8>,
    start: int,
    end: int,
    goal: u32,
    vars: Seq<Variation>,
    locs: Seq<usize>,
    k: usize,
)
    requires
        vars.len() >= 1,
        spec_kashida_search(s, text, start, end, goal, vars, locs, k).1 is None,
        spec_kashida_exact(s, text, start, end, goal, vars, locs, k),
    ensures
        ({
            let o = spec_kashida_search(s, text, start, end, goal, vars, locs, k);
            let w = s.spec_width(spec_line_slice(text, start, end, locs, o.2), o.0);
            &&& spec_width_class(w, goal) is Within
            &&& -(TOLERANCE as int) <= w - goal <= TOLERANCE as int
        }),
    decreases k,
{
    let slice = spec_line_slice(text, start, end, locs, k);
    let r = spec_chain(s, slice, goal, vars, 0);
    if r.1 is None {
        lemma_chain_fit_width(s, slice, goal, vars, 0);
    } else {
        lemma_kashida_fit_width(s, text, start, end, goal, vars, locs, (k - 1) as usize);
    }
}

/// Whenever the span solve reports a fit whose final trial landed
/// inside the tolerance band, the span — trimmed, with the solve's own
/// glyph count placed — measures within the tolerance of the goal under
/// the settled values.
pub proof fn lemma_span_fit_within_tolerance<S: Shaper>(
    s: S,
    text: Seq<u8>,
    start: int,
    end: int,
    goal: u32,
    vars: Seq<Variation>,
    kashida: bool,
)
    requires
        vars.len() >= 1,
        spec_optimal_line(s, text, start, end, goal, vars, kashida).1 is None,
        spec_optimal_line_exact(s, text, start, end, goal, vars, kashida),
    ensures
        ({
            let o = spec_optimal_line(s, text, start, end, goal, vars, kashida);
            let locs = if kashida {
                kashida_points_of(trimmed(text.subrange(start, end)))
            } else {
                Seq::<usize>::empty()
            };
            let w = s.spec_width(spec_line_slice(text, start, end, locs, o.2), o.0);
            &&& spec_width_class(w, goal) is Within
            &&& -(TOLERANCE as int) <= w - goal <= TOLERANCE as int
        }),
{
    if kashida {
        let locs = kashida_points_of(trimmed(text.subrange(start, end)));
        lemma_kashida_fit_width(s, text, start, end, goal, vars, locs, locs.len() as usize);
    } else {
        lemma_chain_fit_width(
            s,
            spec_line_slice(text, start, end, Seq::<usize>::empty(), 0),
            goal,
            vars,
            0,
        );
    }
}

/// `ld` is a successful fit for its own span: the solver, run on
/// `[ld.start_bp, ld.end_bp)`, reports no error and settles exactly the
/// values and glyph count that `ld` carries. (The last-line flag plays
/// no part in the fit.) Opaque so that carrying a fit around does not
/// unfold the whole solver model.
#[verifier::opaque]
pub open spec fn spec_line_fit<S: Shaper>(
    s: S,
    text: Seq<u8>,
    goal: u32,
    vars: Seq<Variation>,
    kashida: bool,
    ld: LineData,
) -> bool {
    let o = spec_optimal_line(
        s,
        text,
        ld.start_bp as int,
        ld.end_bp as int,
        goal,
        vars,
        kashida,
    );
    &&& o.1 is None
    &&& ld.variations@ == o.0
    &&& ld.kashida_count == o.2
}

/// A fit belongs to the line's content: any candidate with the same
/// span, settled values and glyph count is the same fit.
pub proof fn lemma_fit_transfer<S: Shaper>(
    s: S,
    text: Seq<u8>,
    goal: u32,
    vars: Seq<Variation>,
    kashida: bool,
    a: LineData,
    b: LineData,
)
    requires
        spec_line_fit(s, text, goal, vars, kashida, a),
        b.start_bp == a.start_bp,
        b.end_bp == a.end_bp,
        b.variations@ == a.variations@,
        b.kashida_count == a.kashida_count,
    ensures
        spec_line_fit(s, text, goal, vars, kashida, b),
{
    reveal(spec_line_fit);
}

/// One run of the fallback chain at a fixed kashida count.
fn solve_chain<S: Shaper>(
    shaper: &mut S,
    text: &[u8],
    start_bp: usize,
    end_bp: usize,
    goal_width: u32,
    variations: &Vec<Variation>,
    kashida_locs: &Vec<usize>,
    kashida_count: usize,
) -> (r: Result<LineData, LineError>)
    requires
        old(shaper).wf(),
        vars_wf(variations@),
        variations@.len() >= 1,
        start_bp <= end_bp <= text@.len(),
        forall|k: int|
            0 <= k < kashida_locs@.len() ==> is_char_boundary(
                trimmed(text@.subrange(start_bp as int, end_bp as int)),
                #[trigger] kashida_locs@[k] as int,
            ),
    ensures
        *final(shaper) == *old(shaper),
        ({
            let o = spec_chain(
                *old(shaper),
                spec_line_slice(
                    text@,
                    start_bp as int,
                    end_bp as int,
                    kashida_locs@,
                    kashida_count,
                ),
                goal_width,
                variations@,
                0,
            );
            match r {
                Ok(ld) => {
                    &&& o.1 is None
                    &&& ld.start_bp == start_bp
                    &&& ld.end_bp == end_bp
                    &&& ld.variations@ == o.0
                    &&& ld.kashida_count == kashida_count
                    &&& ld.last_line == false
                },
                Err(e) => {
                    &&& o.1 == Some(e.kind)
                    &&& e.variations@ == o.0
                    &&& e.kashida_count == kashida_count
                },
            }
        }),
        r matches Ok(ld) ==> vars_wf(ld.variations@) && ld.variations@.len()
            == variations@.len(),
        r matches Err(e) ==> vars_wf(e.variations@) && e.variations@.len() == variations@.len(),
{
    let ghost s0 = *shaper;
    let ghost sl = spec_line_slice(
        text@,
        start_bp as int,
        end_bp as int,
        kashida_locs@,
        kashida_count,
    );
    let n = variations.len();
    let mut cur = copy_variations(variations);
    let mut idx: usize = 0;
    loop
        invariant
            shaper.wf(),
            *shaper == s0,
            s0 == *old(shaper),
            idx < n,
            n == variations@.len(),
            cur@.len() == n,
            vars_wf(cur@),
            start_bp <= end_bp <= text@.len(),
            sl == spec_line_slice(
                text@,
                start_bp as int,
                end_bp as int,
                kashida_locs@,
                kashida_count,
            ),
            forall|k: int|
                0 <= k < kashida_locs@.len() ==> is_char_boundary(
                    trimmed(text@.subrange(start_bp as int, end_bp as int)),
                    #[trigger] kashida_locs@[k] as int,
                ),
            spec_chain(s0, sl, goal_width, cur@, idx as nat) == spec_chain(
                s0,
                sl,
                goal_width,
                variations@,
                0,
            ),
        decreases n - idx,
    {
        let attempt = find_optimal_line_1_axis(
            shaper,
            text,
            start_bp,
            end_bp,
            goal_width,
            idx,
            &cur,
            kashida_locs,
            kashida_count,
        );
        match attempt {
            Ok(ld) => {
                return Ok(ld);
            },
            Err(e) => {
                if idx + 1 >= n {
                    return Err(e);
                }
                cur = e.variations;
                idx = idx + 1;
            },
        }
    }
}

/// Fit one span to the goal width with the full fallback chain and, when
/// `kashida` is set, the kashida search preferring the most elongation
/// that still fits.
///
/// The result is exactly `spec_optimal_line` of the inputs: solving is
/// deterministic, and every settled value lies inside its axis's range.
pub fn find_optimal_line<S: Shaper>(
    shaper: &mut S,
    text: &[u8],
    start_bp: usize,
    end_bp: usize,
    goal_width: u32,
    variations: &Vec<Variation>,
    kashida: bool,
) -> (r: Result<LineData, LineError>)
    requires
        old(shaper).wf(),
        vars_wf(variations@),
        variations@.len() >= 1,
        start_bp <= end_bp <= text@.len(),
    ensures
        *final(shaper) == *old(shaper),
        optimal_line_result_matches(
            r,
            *old(shaper),
            text@,
            start_bp as int,
            end_bp as int,
            goal_width,
            variations@,
            kashida,
        ),
        r matches Ok(ld) ==> vars_wf(ld.variations@) && ld.variations@.len()
            == variations@.len() && ld.start_bp == start_bp && ld.end_bp == end_bp
            && ld.last_line == false && ld.kashida_count <= end_bp - start_bp,
        r matches Err(e) ==> vars_wf(e.variations@) && e.variations@.len() == variations@.len()
            && e.kashida_count <= end_bp - start_bp,
{
    let ghost s0 = *shaper;
    if kashida {
        let span = vstd::slice::slice_subrange(text, start_bp, end_bp);
        let trimmed_span = trim_bytes(span);
        let locs = find_kashida_points(trimmed_span.as_slice());
        let mut k: usize = locs.len();
        loop
            invariant
                kashida,
                shaper.wf(),
                *shaper == s0,
                s0 == *old(shaper),
                vars_wf(variations@),
                variations@.len() >= 1,
                start_bp <= end_bp <= text@.len(),
                k <= locs@.len(),
                locs@.len() <= end_bp - start_bp,
                locs@ == kashida_points_of(
                    trimmed(text@.subrange(start_bp as int, end_bp as int)),
                ),
                forall|j: int|
                    0 <= j < locs@.len() ==> is_char_boundary(
                        trimmed(text@.subrange(start_bp as int, end_bp as int)),
                        #[trigger] locs@[j] as int,
                    ),
                spec_kashida_search(
                    s0,
                    text@,
                    start_bp as int,
                    end_bp as int,
                    goal_width,
                    variations@,
                    locs@,
                    k,
                ) == spec_optimal_line(
                    s0,
                    text@,
                    start_bp as int,
                    end_bp as int,
                    goal_width,
                    variations@,
                    true,
                ),
            decreases k,
        {
            let attempt = solve_chain(
                shaper,
                text,
                start_bp,
                end_bp,
                goal_width,
                variations,
                &locs,
                k,
            );
            match attempt {
                Ok(ld) => {
                    return Ok(ld);
                },
                Err(e) => {
                    if k == 0 {
                        return Err(e);
                    }
                },
            }
            k = k - 1;
        }
    } else {
        let locs: Vec<usize> = Vec::new();
        proof {
            assert(locs@ =~= Seq::<usize>::empty());
        }
        solve_chain(shaper, text, start_bp, end_bp, goal_width, variations, &locs, 0)
    }
}

} // verus!
