//! The aesthetic-deviation cost of a line candidate.
//!
//! The historical code base carried several near-variants of this
//! formula, so the formula is a configurable policy rather than a fixed
//! constant: a deviation is normalized against the axis range, scaled,
//! and raised to a power that grows with the axis's priority; an
//! inserted-justification-glyph count is penalized the same way. All
//! arithmetic saturates at `u64::MAX` instead of overflowing.

use vstd::prelude::*;

use crate::logic::{LineData, Variation, vars_wf};

verus! {

/// Upper bound used by graph edge weights so that path sums stay far
/// from `u64::MAX` (see the path selector).
pub const COST_CAP: u64 = 0x1_0000_0000;

/// The configurable cost formula.
///
/// An axis at priority `p` (lower is more important) whose settled value
/// deviates from its rest value by `d` over a range of width `r`
/// contributes `sat_pow(d * deviation_scale / r, p + exponent_offset)`.
/// A justification-glyph count `k` contributes
/// `sat_pow(k * kashida_weight / 100, n + exponent_offset)` where `n` is
/// the number of axes, so elongation is penalized like a lowest-priority
/// pseudo-axis.
#[derive(Clone, Copy, Debug)]
pub struct CostPolicy {
    pub deviation_scale: u64,
    pub exponent_offset: usize,
    pub kashida_weight: u64,
}

impl CostPolicy {
    /// Bounds that keep the cost arithmetic inside `u64`; the exponent
    /// offset must be at least one, or the highest-priority axis would
    /// cost a constant one whatever its deviation.
    pub open spec fn wf(self) -> bool {
        &&& 1 <= self.deviation_scale <= 1000
        &&& 1 <= self.exponent_offset <= 8
        &&& self.kashida_weight <= 1000
    }

    /// The classic formula: deviations normalized to a 0..100 scale and
    /// raised to the power `priority + 2`; a kashida count penalized
    /// unscaled at the lowest priority.
    pub fn standard() -> (p: CostPolicy)
        ensures
            p == (CostPolicy { deviation_scale: 100, exponent_offset: 2, kashida_weight: 100 }),
            p.wf(),
    {
        CostPolicy { deviation_scale: 100, exponent_offset: 2, kashida_weight: 100 }
    }
}

impl Default for CostPolicy {
    /// The standard policy.
    fn default() -> (p: CostPolicy)
        ensures
            p == (CostPolicy { deviation_scale: 100, exponent_offset: 2, kashida_weight: 100 }),
            p.wf(),
    {
        CostPolicy { deviation_scale: 100, exponent_offset: 2, kashida_weight: 100 }
    }
}

/// `a * b`, saturating at `u64::MAX`.
pub open spec fn spec_sat_mul(a: u64, b: u64) -> u64 {
    if a * b > u64::MAX {
        u64::MAX
    } else {
        (a * b) as u64
    }
}

pub fn sat_mul(a: u64, b: u64) -> (r: u64)
    ensures
        r == spec_sat_mul(a, b),
{
    match a.checked_mul(b) {
        Some(x) => x,
        None => u64::MAX,
    }
}

/// `a + b`, saturating at `u64::MAX`.
pub open spec fn spec_sat_add(a: u64, b: u64) -> u64 {
    if a + b > u64::MAX {
        u64::MAX
    } else {
        (a + b) as u64
    }
}

pub fn sat_add(a: u64, b: u64) -> (r: u64)
    ensures
        r == spec_sat_add(a, b),
{
    a.saturating_add(b)
}

/// `b` to the power `e`, saturating at `u64::MAX` after each multiply.
pub open spec fn spec_sat_pow(b: u64, e: nat) -> u64
    decreases e,
{
    if e == 0 {
        1
    } else {
        spec_sat_mul(spec_sat_pow(b, (e - 1) as nat), b)
    }
}

pub fn sat_pow(b: u64, e: usize) -> (r: u64)
    ensures
        r == spec_sat_pow(b, e as nat),
{
    let mut acc: u64 = 1;
    let mut i: usize = 0;
    while i < e
        invariant
            i <= e,
            acc == spec_sat_pow(b, i as nat),
        decreases e - i,
    {
        acc = sat_mul(acc, b);
        i = i + 1;
    }
    acc
}

/// The normalized deviation of a settled axis from its rest value:
/// `|current - best| * scale / (max - min)`.
pub open spec fn spec_deviation(v: Variation, scale: u64) -> u64
    recommends
        v.wf(),
        scale <= 1000,
{
    let d = if v.current_value >= v.best {
        v.current_value - v.best
    } else {
        v.best - v.current_value
    };
    (((d as int) * (scale as int)) / ((v.max - v.min) as int)) as u64
}

/// The cost contribution of one settled axis at a given priority.
pub open spec fn spec_variation_cost(v: Variation, priority: nat, policy: CostPolicy) -> u64 {
    spec_sat_pow(spec_deviation(v, policy.deviation_scale), (priority + policy.exponent_offset) as nat)
}

impl Variation {
    /// Cost of this axis's deviation from rest; lower priority numbers
    /// make deviations costlier.
    pub fn cost(&self, priority: usize, policy: &CostPolicy) -> (r: u64)
        requires
            self.wf(),
            policy.wf(),
            priority <= 0x1000_0000,
        ensures
            r == spec_variation_cost(*self, priority as nat, *policy),
    {
        let d: i64 = if self.current_value >= self.best {
            self.current_value - self.best
        } else {
            self.best - self.current_value
        };
        let du: u64 = d as u64;
        assert(du * policy.deviation_scale <= 2_000_000_000 * 1000) by (nonlinear_arith)
            requires
                du <= 2_000_000_000,
                policy.deviation_scale <= 1000,
        ;
        let dev: u64 = (du * policy.deviation_scale) / ((self.max - self.min) as u64);
        assert(dev == spec_deviation(*self, policy.deviation_scale));
        sat_pow(dev, priority + policy.exponent_offset)
    }
}

/// Sum of the axis costs from index `idx` on, priorities equal to
/// indices, saturating.
pub open spec fn spec_vars_cost_from(vars: Seq<Variation>, idx: nat, policy: CostPolicy) -> u64
    decreases vars.len() - idx,
{
    if idx >= vars.len() {
        0
    } else {
        spec_sat_add(
            spec_variation_cost(vars[idx as int], idx, policy),
            spec_vars_cost_from(vars, idx + 1, policy),
        )
    }
}

/// The kashida-count penalty term of a line with `n` axes.
pub open spec fn spec_kashida_cost(count: nat, n: nat, policy: CostPolicy) -> u64
    recommends
        count <= 0x1000_0000,
        policy.wf(),
{
    spec_sat_pow(((count * (policy.kashida_weight as nat) / 100) as u64), (n + policy.exponent_offset) as nat)
}

/// The full cost of a line's content under a policy: the kashida
/// penalty plus every axis's deviation cost.
pub open spec fn spec_line_cost_parts(vars: Seq<Variation>, count: usize, policy: CostPolicy) -> u64 {
    spec_sat_add(
        spec_kashida_cost(count as nat, vars.len(), policy),
        spec_vars_cost_from(vars, 0, policy),
    )
}

/// The full cost of a line candidate under a policy.
pub open spec fn spec_line_cost(line: LineData, policy: CostPolicy) -> u64 {
    spec_line_cost_parts(line.variations@, line.kashida_count, policy)
}

impl LineData {
    /// The aesthetic cost of this candidate: the kashida penalty plus
    /// each axis's deviation cost, lower is better.
    pub fn cost(&self, policy: &CostPolicy) -> (r: u64)
        requires
            vars_wf(self.variations@),
            self.variations@.len() <= 0x1000_0000,
            self.kashida_count <= 0x1000_0000,
            policy.wf(),
        ensures
            r == spec_line_cost(*self, *policy),
    {
        let n = self.variations.len();
        let ku: u64 = self.kashida_count as u64;
        assert(ku * policy.kashida_weight <= 0x1000_0000 * 1000) by (nonlinear_arith)
            requires
                ku <= 0x1000_0000,
                policy.kashida_weight <= 1000,
        ;
        let kd: u64 = (ku * policy.kashida_weight) / 100;
        let mut acc: u64 = sat_pow(kd, n + policy.exponent_offset);
        assert(acc == spec_kashida_cost(
            self.kashida_count as nat,
            self.variations@.len(),
            *policy,
        ));
        let ghost k_term = acc;
        let mut i: usize = n;
        while i > 0
            invariant
                i <= n,
                n == self.variations@.len(),
                n <= 0x1000_0000,
                vars_wf(self.variations@),
                policy.wf(),
                acc == fold_cost_partial(k_term, self.variations@, i as nat, *policy),
            decreases i,
        {
            i = i - 1;
            acc = sat_add(self.variations[i].cost(i, policy), acc);
        }
        proof {
            lemma_fold_cost_partial_zero(k_term, self.variations@, *policy);
        }
        acc
    }
}

/// Helper for summing axis costs back to front: the kashida term wrapped
/// by the costs of axes `idx..`.
pub open spec fn fold_cost_partial(
    k_term: u64,
    vars: Seq<Variation>,
    idx: nat,
    policy: CostPolicy,
) -> u64
    decreases vars.len() - idx,
{
    if idx >= vars.len() {
        k_term
    } else {
        spec_sat_add(
            spec_variation_cost(vars[idx as int], idx, policy),
            fold_cost_partial(k_term, vars, idx + 1, policy),
        )
    }
}

/// Folding the axis costs around the kashida term equals adding the
/// kashida term to the front-to-back sum; both saturate identically
/// because saturating addition is associative-compatible here.
proof fn lemma_fold_cost_partial_zero(k_term: u64, vars: Seq<Variation>, policy: CostPolicy)
    ensures
        fold_cost_partial(k_term, vars, 0, policy) == spec_sat_add(
            k_term,
            spec_vars_cost_from(vars, 0, policy),
        ),
{
    lemma_fold_cost_partial(k_term, vars, 0, policy);
}

proof fn lemma_fold_cost_partial(k_term: u64, vars: Seq<Variation>, idx: nat, policy: CostPolicy)
    ensures
        idx <= vars.len() ==> fold_cost_partial(k_term, vars, idx, policy) == spec_sat_add(
            k_term,
            spec_vars_cost_from(vars, idx, policy),
        ),
    decreases vars.len() - idx,
{
    if idx < vars.len() {
        lemma_fold_cost_partial(k_term, vars, idx + 1, policy);
    }
}

} // verus!
