//! The shaping capability consumed by the width-fit search.
//!
//! Shaping proper (font parsing, glyph substitution and positioning) is
//! an external collaborator; the search only needs the total advance
//! width a span takes under a given set of settled variation values.
//! The trait pins down the two facts every search step relies on: the
//! measured width is a pure function of the shaper's state and the
//! arguments, and measuring leaves the state as it was, so repeated
//! trials are reproducible.

use vstd::prelude::*;

use crate::logic::Variation;

verus! {

/// Turns a byte span of text plus active variation values into a total
/// advance width in device units.
///
/// The two spec functions default to the weakest model (every state
/// usable, an arbitrary width function), so an unverified implementation
/// outside this crate may provide the executable method alone; a
/// verified implementation overrides them with its real model.
pub trait Shaper: Sized {
    /// Which states of the shaper are usable.
    open spec fn wf(&self) -> bool {
        true
    }

    /// The width this shaper assigns to `text` under `vars`.
    open spec fn spec_width(&self, text: Seq<u8>, vars: Seq<Variation>) -> u32 {
        arbitrary()
    }

    /// Shape `text` with the settled values in `variations` and return
    /// the total horizontal advance.
    fn shape_width(&mut self, text: &[u8], variations: &Vec<Variation>) -> (w: u32)
        requires
            old(self).wf(),
        ensures
            *final(self) == *old(self),
            w == old(self).spec_width(text@, variations@),
    ;
}

/// A synthetic shaper with a linear width response: every byte advances
/// by `base` device units plus `gain` units per thousand of the summed
/// (non-negative) variation values. It exercises the search exactly like
/// a real font whose axes stretch every glyph, and doubles as a
/// reference model: the width is monotone in each variation value, and
/// constant when `gain` is zero.
#[derive(Clone, Copy, Debug)]
pub struct LinearShaper {
    pub base: u32,
    pub gain: u32,
}

/// The non-negative part of a settled value.
pub open spec fn spec_pos(v: i64) -> int {
    if v >= 0 {
        v as int
    } else {
        0
    }
}

/// Sum of the non-negative settled values of `vars[idx..]`.
pub open spec fn spec_stretch_from(vars: Seq<Variation>, idx: nat) -> int
    decreases vars.len() - idx,
{
    if idx >= vars.len() {
        0
    } else {
        spec_pos(vars[idx as int].current_value) + spec_stretch_from(vars, idx + 1)
    }
}

/// The linear model's width: `len(text) * (base + gain * stretch /
/// 1000)`, with the stretch and the per-byte advance clamped so the
/// computation stays exact, and the result saturating at `u32::MAX`.
pub open spec fn spec_linear_width(base: u32, gain: u32, text: Seq<u8>, vars: Seq<Variation>) -> u32 {
    let stretch = spec_stretch_from(vars, 0);
    let s = if stretch > 1_000_000_000_000 {
        1_000_000_000_000 as int
    } else {
        stretch
    };
    let advance0 = base + (gain as int) * s / 1000;
    let advance = if advance0 > 0x1_0000_0000 {
        0x1_0000_0000 as int
    } else {
        advance0
    };
    let raw = (text.len() as int) * advance;
    if raw > u32::MAX {
        u32::MAX
    } else {
        raw as u32
    }
}

impl LinearShaper {
    pub fn new(base: u32, gain: u32) -> (s: LinearShaper)
        ensures
            s == (LinearShaper { base, gain }),
    {
        LinearShaper { base, gain }
    }
}

impl Shaper for LinearShaper {
    open spec fn wf(&self) -> bool {
        true
    }

    open spec fn spec_width(&self, text: Seq<u8>, vars: Seq<Variation>) -> u32 {
        spec_linear_width(self.base, self.gain, text, vars)
    }

    fn shape_width(&mut self, text: &[u8], variations: &Vec<Variation>) -> (w: u32)
        ensures
            *final(self) == *old(self),
            w == old(self).spec_width(text@, variations@),
    {
        let n = variations.len();
        let mut acc: u128 = 0;
        let mut i: usize = n;
        while i > 0
            invariant
                i <= n,
                n == variations@.len(),
                acc == spec_stretch_from(variations@, i as nat),
                acc <= (n - i) * (i64::MAX as int),
            decreases i,
        {
            i = i - 1;
            let cv = variations[i].current_value;
            if cv > 0 {
                acc = acc + (cv as u128);
            }
        }
        let s: u128 = if acc > 1_000_000_000_000 {
            1_000_000_000_000
        } else {
            acc
        };
        let g: u128 = self.gain as u128;
        assert(g * s <= 0x1_0000_0000 * 1_000_000_000_000) by (nonlinear_arith)
            requires
                g <= 0x1_0000_0000,
                s <= 1_000_000_000_000,
        ;
        let advance0: u128 = (self.base as u128) + (g * s) / 1000;
        let advance: u128 = if advance0 > 0x1_0000_0000 {
            0x1_0000_0000
        } else {
            advance0
        };
        let len: u128 = text.len() as u128;
        assert(len * advance <= (u128::MAX as int)) by (nonlinear_arith)
            requires
                len <= u64::MAX,
                advance <= 0x1_0000_0000,
        ;
        let raw: u128 = len * advance;
        if raw > (u32::MAX as u128) {
            u32::MAX
        } else {
            raw as u32
        }
    }
}

} // verus!
