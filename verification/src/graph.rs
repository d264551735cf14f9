//! The breakpoint graph and its least-cost path.
//!
//! Nodes are indices into an ascending list of legal break offsets;
//! an edge from `i` to `j` exists only when the width fit succeeded for
//! the span between those offsets, and carries the fitted line and its
//! cost. A non-negative-weight shortest-path search picks the globally
//! least-distorting line sequence.

use vstd::prelude::*;

use crate::cost::{COST_CAP, CostPolicy, spec_line_cost};
use crate::logic::{LineData, LineErrorKind, Variation, copy_variations, line_matches, vars_wf};
use crate::shaper::Shaper;
use crate::solve::{find_optimal_line, spec_line_fit, spec_optimal_line};
use crate::text::{aya_marker_at, spec_aya_marker_at};

verus! {

/// Cap on the node count, so that the cost of any simple path stays
/// far below `u64::MAX` (`NODE_CAP * COST_CAP < 2^60`).
pub const NODE_CAP: usize = 0x0800_0000;

/// An edge of the breakpoint graph: the span from node `from` to node
/// `to` fitted successfully, yielding `line` at cost `cost`.
#[derive(Clone, Debug)]
pub struct BreakEdge {
    pub from: usize,
    pub to: usize,
    pub cost: u64,
    pub line: LineData,
}

/// The breakpoint graph: nodes `0 .. n`, and the fitted edges.
#[derive(Clone, Debug)]
pub struct BreakGraph {
    pub n: usize,
    pub edges: Vec<BreakEdge>,
}

impl BreakGraph {
    /// Well-formed: bounded, every edge inside the node range with a
    /// capped cost, and no two edges over the same node pair.
    pub open spec fn wf(self) -> bool {
        &&& self.n <= NODE_CAP
        &&& forall|i: int|
            0 <= i < self.edges@.len() ==> (#[trigger] self.edges@[i]).from < self.n
                && self.edges@[i].to < self.n && self.edges@[i].cost <= COST_CAP
        &&& forall|i: int, j: int|
            0 <= i < j < self.edges@.len() ==> !((#[trigger] self.edges@[i]).from
                == (#[trigger] self.edges@[j]).from && self.edges@[i].to == self.edges@[j].to)
    }
}

/// Some edge joins `a` to `b`.
pub open spec fn edge_between(g: BreakGraph, a: usize, b: usize) -> bool {
    exists|i: int|
        #![trigger g.edges@[i]]
        0 <= i < g.edges@.len() && g.edges@[i].from == a && g.edges@[i].to == b
}

/// The index of the edge joining `a` to `b` (unique in a well-formed
/// graph).
pub open spec fn edge_index_of(g: BreakGraph, a: usize, b: usize) -> int {
    choose|i: int|
        #![trigger g.edges@[i]]
        0 <= i < g.edges@.len() && g.edges@[i].from == a && g.edges@[i].to == b
}

/// The cost of the edge joining `a` to `b`.
pub open spec fn edge_cost(g: BreakGraph, a: usize, b: usize) -> u64 {
    g.edges@[edge_index_of(g, a, b)].cost
}

/// The line of the edge joining `a` to `b`.
pub open spec fn edge_line(g: BreakGraph, a: usize, b: usize) -> LineData {
    g.edges@[edge_index_of(g, a, b)].line
}

/// In a well-formed graph, each edge is found at its own index.
pub proof fn lemma_edge_lookup(g: BreakGraph, i: int)
    requires
        g.wf(),
        0 <= i < g.edges@.len(),
    ensures
        edge_between(g, g.edges@[i].from, g.edges@[i].to),
        edge_index_of(g, g.edges@[i].from, g.edges@[i].to) == i,
{
    let a = g.edges@[i].from;
    let b = g.edges@[i].to;
    assert(0 <= i < g.edges@.len() && g.edges@[i].from == a && g.edges@[i].to == b);
    let j = edge_index_of(g, a, b);
    assert(0 <= j < g.edges@.len() && g.edges@[j].from == a && g.edges@[j].to == b);
    if i != j {
        assert(false);
    }
}

/// `p` walks existing edges from `start` to `goal`.
pub open spec fn valid_path(g: BreakGraph, p: Seq<usize>, start: usize, goal: usize) -> bool {
    &&& p.len() >= 1
    &&& p[0] == start
    &&& p[p.len() - 1] == goal
    &&& forall|i: int| #![trigger p[i]] 0 < i < p.len() ==> edge_between(g, p[i - 1], p[i])
}

/// The total cost of a walk, as an unbounded integer.
pub open spec fn path_cost(g: BreakGraph, p: Seq<usize>) -> int
    decreases p.len(),
{
    if p.len() <= 1 {
        0
    } else {
        edge_cost(g, p[0], p[1]) + path_cost(g, p.drop_first())
    }
}

/// Successor pairs `(target, cost)` of node `a`: exactly the edges that
/// leave `a`.
pub fn successors_of(g: &BreakGraph, a: usize) -> (r: Vec<(usize, u64)>)
    requires
        g.wf(),
    ensures
        forall|j: int|
            0 <= j < r@.len() ==> edge_between(*g, a, (#[trigger] r@[j]).0) && edge_cost(
                *g,
                a,
                r@[j].0,
            ) == r@[j].1,
        forall|b: usize| edge_between(*g, a, b) ==> exists|j: int|
            0 <= j < r@.len() && (#[trigger] r@[j]).0 == b,
{
    let mut r: Vec<(usize, u64)> = Vec::new();
    let mut i: usize = 0;
    while i < g.edges.len()
        invariant
            g.wf(),
            i <= g.edges@.len(),
            forall|j: int|
                0 <= j < r@.len() ==> edge_between(*g, a, (#[trigger] r@[j]).0) && edge_cost(
                    *g,
                    a,
                    r@[j].0,
                ) == r@[j].1,
            forall|k: int|
                0 <= k < i && (#[trigger] g.edges@[k]).from == a ==> exists|j: int|
                    0 <= j < r@.len() && (#[trigger] r@[j]).0 == g.edges@[k].to,
        decreases g.edges@.len() - i,
    {
        let ghost r0 = r@;
        let e = &g.edges[i];
        if e.from == a {
            proof {
                lemma_edge_lookup(*g, i as int);
            }
            r.push((e.to, e.cost));
        }
        proof {
            assert forall|k: int|
                0 <= k < i + 1 && (#[trigger] g.edges@[k]).from == a implies exists|j: int|
                0 <= j < r@.len() && (#[trigger] r@[j]).0 == g.edges@[k].to by {
                if k == i {
                    assert(g.edges@[k].from == a);
                    assert(r@[r@.len() - 1].0 == g.edges@[k].to);
                } else {
                    let j = choose|j: int|
                        0 <= j < r0.len() && (#[trigger] r0[j]).0 == g.edges@[k].to;
                    assert(r@[j].0 == g.edges@[k].to);
                }
            }
        }
        i = i + 1;
    }
    proof {
        assert forall|b: usize| edge_between(*g, a, b) implies exists|j: int|
            0 <= j < r@.len() && (#[trigger] r@[j]).0 == b by {
            let k = choose|k: int|
                #![trigger g.edges@[k]]
                0 <= k < g.edges@.len() && g.edges@[k].from == a && g.edges@[k].to == b;
            assert(0 <= k < i && g.edges@[k].from == a);
        }
    }
    r
}

/// The weighted edge list of a graph, in list order.
pub open spec fn edge_triples(edges: Seq<BreakEdge>) -> Seq<(int, int, u64)> {
    edges.map_values(|e: BreakEdge| (e.from as int, e.to as int, e.cost))
}

/// What the shortest-path search returns for a weighted edge list: the
/// search walks deterministic structures (a binary heap and ordered
/// maps, the successors enumerated in edge-list order), so its result
/// — tie-breaking among equal-cost paths included — is a function of
/// the edge list and the two endpoints.
pub uninterp spec fn dijkstra_found(edges: Seq<(int, int, u64)>, start: usize, goal: usize) -> Option<(Seq<usize>, u64)>;

/// Relies on `pathfinding::prelude::dijkstra`: with non-negative edge
/// costs it returns a minimum-cost path from `start` to the first node
/// satisfying the goal test, as the visited node list (start and end
/// included, no node twice) with its total cost, or `None` when no such
/// path exists; deterministic, so the result is also pinned to its name
/// `dijkstra_found`. The capped costs and node count keep every cost
/// sum the search forms far below `u64::MAX`.
#[verifier::external_body]
fn dijkstra_path(g: &BreakGraph, start: usize, goal: usize) -> (r: Option<(Vec<usize>, u64)>)
    requires
        g.wf(),
    ensures
        match r {
            Some(pc) => {
                &&& valid_path(*g, pc.0@, start, goal)
                &&& pc.1 as int == path_cost(*g, pc.0@)
                &&& forall|q: Seq<usize>|
                    valid_path(*g, q, start, goal) ==> path_cost(*g, q) >= pc.1 as int
                &&& forall|i: int, j: int| 0 <= i < j < pc.0@.len() ==> pc.0@[i] != pc.0@[j]
            },
            None => forall|q: Seq<usize>| !valid_path(*g, q, start, goal),
        },
        (match r {
            Some(pc) => Some((pc.0@, pc.1)),
            None => None::<(Seq<usize>, u64)>,
        }) == dijkstra_found(edge_triples(g.edges@), start, goal),
{
    pathfinding::prelude::dijkstra(
        &start,
        |p: &usize| successors_of(g, *p),
        |p: &usize| *p == goal,
    )
}

/// A copy of a line candidate.
pub fn clone_line(l: &LineData) -> (r: LineData)
    ensures
        line_matches(r, *l),
{
    LineData {
        start_bp: l.start_bp,
        end_bp: l.end_bp,
        variations: copy_variations(&l.variations),
        kashida_count: l.kashida_count,
        last_line: l.last_line,
    }
}

/// `lines` are exactly the edge lines along the node path `p`.
pub open spec fn path_lines(g: BreakGraph, p: Seq<usize>, lines: Seq<LineData>) -> bool {
    &&& lines.len() + 1 == p.len()
    &&& forall|i: int|
        #![trigger lines[i]]
        #![trigger p[i]]
        0 <= i < lines.len() ==> edge_between(g, p[i], p[i + 1]) && line_matches(
            lines[i],
            edge_line(g, p[i], p[i + 1]),
        )
}

/// The edge joining `a` to `b`, by scan.
fn find_edge(g: &BreakGraph, a: usize, b: usize) -> (r: Option<usize>)
    requires
        g.wf(),
    ensures
        match r {
            Some(j) => j < g.edges@.len() && g.edges@[j as int].from == a && g.edges@[j as int].to
                == b && edge_between(*g, a, b) && edge_index_of(*g, a, b) == j as int,
            None => !edge_between(*g, a, b),
        },
{
    let mut i: usize = 0;
    while i < g.edges.len()
        invariant
            g.wf(),
            i <= g.edges@.len(),
            forall|k: int|
                0 <= k < i ==> !((#[trigger] g.edges@[k]).from == a && g.edges@[k].to == b),
        decreases g.edges@.len() - i,
    {
        let e = &g.edges[i];
        if e.from == a && e.to == b {
            proof {
                lemma_edge_lookup(*g, i as int);
            }
            return Some(i);
        }
        i = i + 1;
    }
    None
}

/// A selected line sequence: the fitted lines along a least-cost node
/// path, the path itself, and its total cost.
pub struct SelectedPath {
    pub lines: Vec<LineData>,
    pub nodes: Vec<usize>,
    pub total: u64,
}

/// Select the least-cost line sequence across the graph, from node
/// `start` to node `goal`.
///
/// On success the returned lines are the edge lines along the returned
/// node path, whose total cost no other path from `start` to `goal`
/// beats; `None` means no path exists at all. The selection is
/// deterministic: the node path and total equal `dijkstra_found` of the
/// graph's weighted edge list, so equal-cost ties break the same way on
/// every run.
#[verifier::rlimit(60)]
pub fn select_path(g: &BreakGraph, start: usize, goal: usize) -> (r: Option<SelectedPath>)
    requires
        g.wf(),
    ensures
        r matches Some(sel) ==> valid_path(*g, sel.nodes@, start, goal) && path_lines(
            *g,
            sel.nodes@,
            sel.lines@,
        ) && sel.total as int == path_cost(*g, sel.nodes@),
        r matches Some(sel) ==> forall|q: Seq<usize>|
            valid_path(*g, q, start, goal) ==> path_cost(*g, q) >= sel.total as int,
        r is None ==> forall|q: Seq<usize>| !valid_path(*g, q, start, goal),
        r matches Some(sel) ==> Some((sel.nodes@, sel.total)) == dijkstra_found(
            edge_triples(g.edges@),
            start,
            goal,
        ),
        r is None ==> dijkstra_found(edge_triples(g.edges@), start, goal) is None,
{
    let found = dijkstra_path(g, start, goal);
    match found {
        None => {
            proof {
                assert(forall|q: Seq<usize>| !valid_path(*g, q, start, goal));
            }
            None
        },
        Some((path, total)) => {
            let mut lines: Vec<LineData> = Vec::new();
            let mut i: usize = 0;
            let m = path.len() - 1;
            while i < m
                invariant
                    g.wf(),
                    valid_path(*g, path@, start, goal),
                    path@.len() >= 1,
                    m == path@.len() - 1,
                    i <= m,
                    lines@.len() == i,
                    forall|k: int|
                        #![trigger lines@[k]]
                        0 <= k < i ==> edge_between(*g, path@[k], path@[k + 1]) && line_matches(
                            lines@[k],
                            edge_line(*g, path@[k], path@[k + 1]),
                        ),
                decreases path@.len() - i,
            {
                assert(edge_between(*g, path@[i as int], path@[i as int + 1]));
                let je = find_edge(g, path[i], path[i + 1]);
                match je {
                    Some(j) => {
                        lines.push(clone_line(&g.edges[j].line));
                    },
                    None => {
                        proof {
                            assert(false);
                        }
                    },
                }
                i = i + 1;
            }
            proof {
                assert(valid_path(*g, path@, start, goal));
                assert(total as int == path_cost(*g, path@));
                assert(path_lines(*g, path@, lines@));
            }
            Some(SelectedPath { lines, nodes: path, total })
        },
    }
}

/// In a list whose adjacent elements ascend, any earlier element is
/// smaller than any later one.
pub proof fn lemma_ascending(bps: Seq<usize>, i: int, j: int)
    requires
        forall|k: int| 0 < k < bps.len() ==> bps[k - 1] < #[trigger] bps[k],
        0 <= i < j < bps.len(),
    ensures
        bps[i] < bps[j],
    decreases j - i,
{
    if i + 1 < j {
        lemma_ascending(bps, i, j - 1);
    }
}

/// The cost a span between two breakpoints carries when it fits: its
/// solved line's cost, clamped at the edge-weight cap.
pub open spec fn spec_pair_cost<S: Shaper>(
    s: S,
    text: Seq<u8>,
    bps: Seq<usize>,
    goal: u32,
    vars: Seq<Variation>,
    policy: CostPolicy,
    kashida: bool,
    a: int,
    b: int,
) -> u64 {
    let o = spec_optimal_line(s, text, bps[a] as int, bps[b] as int, goal, vars, kashida);
    clamp_cost(crate::cost::spec_line_cost_parts(o.0, o.2, policy))
}

/// The total cost of a walk over breakpoint pairs, as an unbounded
/// integer.
pub open spec fn spec_pairs_path_cost<S: Shaper>(
    s: S,
    text: Seq<u8>,
    bps: Seq<usize>,
    goal: u32,
    vars: Seq<Variation>,
    policy: CostPolicy,
    kashida: bool,
    p: Seq<usize>,
) -> int
    decreases p.len(),
{
    if p.len() <= 1 {
        0
    } else {
        spec_pair_cost(s, text, bps, goal, vars, policy, kashida, p[0] as int, p[1] as int)
            + spec_pairs_path_cost(s, text, bps, goal, vars, policy, kashida, p.drop_first())
    }
}

/// In a graph whose edges are all sound, a walk's edge-cost total is
/// exactly its pair-cost total.
#[verifier::rlimit(60)]
pub proof fn lemma_path_cost_transfer<S: Shaper>(
    g: BreakGraph,
    s: S,
    text: Seq<u8>,
    bps: Seq<usize>,
    goal: u32,
    vars: Seq<Variation>,
    policy: CostPolicy,
    kashida: bool,
    p: Seq<usize>,
)
    requires
        g.wf(),
        forall|k: int|
            0 <= k < g.edges@.len() ==> edge_ok(
                #[trigger] g.edges@[k],
                s,
                text,
                bps,
                goal,
                vars,
                policy,
                kashida,
            ),
        forall|i: int| #![trigger p[i]] 0 < i < p.len() ==> edge_between(g, p[i - 1], p[i]),
    ensures
        path_cost(g, p) == spec_pairs_path_cost(s, text, bps, goal, vars, policy, kashida, p),
    decreases p.len(),
{
    if p.len() > 1 {
        assert(edge_between(g, p[0], p[1]));
        let k = edge_index_of(g, p[0], p[1]);
        assert(0 <= k < g.edges@.len() && g.edges@[k].from == p[0] && g.edges@[k].to == p[1]);
        assert(edge_ok(g.edges@[k], s, text, bps, goal, vars, policy, kashida));
        reveal(crate::solve::spec_line_fit);
        assert(edge_cost(g, p[0], p[1]) == spec_pair_cost(
            s,
            text,
            bps,
            goal,
            vars,
            policy,
            kashida,
            p[0] as int,
            p[1] as int,
        ));
        let dp = p.drop_first();
        assert forall|i: int| #![trigger dp[i]] 0 < i < dp.len() implies edge_between(
            g,
            dp[i - 1],
            dp[i],
        ) by {
            assert(dp[i - 1] == p[i] && dp[i] == p[i + 1]);
            assert(p[i + 1] == p[i + 1]);
        }
        lemma_path_cost_transfer(g, s, text, bps, goal, vars, policy, kashida, dp);
    }
}

/// The cost of a line list, each line's cost clamped at the edge cap.
pub open spec fn spec_lines_cost(lines: Seq<LineData>, policy: CostPolicy) -> int
    decreases lines.len(),
{
    if lines.len() == 0 {
        0
    } else {
        clamp_cost(
            crate::cost::spec_line_cost_parts(
                lines[0].variations@,
                lines[0].kashida_count,
                policy,
            ),
        ) + spec_lines_cost(lines.drop_first(), policy)
    }
}

/// Lines reconstructed along a path of a sound graph cost exactly what
/// the path costs.
#[verifier::rlimit(60)]
pub proof fn lemma_lines_cost_transfer<S: Shaper>(
    g: BreakGraph,
    s: S,
    text: Seq<u8>,
    bps: Seq<usize>,
    goal: u32,
    vars: Seq<Variation>,
    policy: CostPolicy,
    kashida: bool,
    p: Seq<usize>,
    lines: Seq<LineData>,
)
    requires
        g.wf(),
        forall|k: int|
            0 <= k < g.edges@.len() ==> edge_ok(
                #[trigger] g.edges@[k],
                s,
                text,
                bps,
                goal,
                vars,
                policy,
                kashida,
            ),
        path_lines(g, p, lines),
    ensures
        spec_lines_cost(lines, policy) == path_cost(g, p),
    decreases lines.len(),
{
    if lines.len() == 0 {
    } else {
        assert(edge_between(g, p[0], p[1]));
        let k = edge_index_of(g, p[0], p[1]);
        assert(0 <= k < g.edges@.len() && g.edges@[k].from == p[0] && g.edges@[k].to == p[1]);
        assert(edge_ok(g.edges@[k], s, text, bps, goal, vars, policy, kashida));
        assert(line_matches(lines[0], g.edges@[k].line));
        reveal(crate::solve::spec_line_fit);
        assert(clamp_cost(
            crate::cost::spec_line_cost_parts(lines[0].variations@, lines[0].kashida_count, policy),
        ) == edge_cost(g, p[0], p[1]));
        let dp = p.drop_first();
        let dl = lines.drop_first();
        assert forall|i: int|
            #![trigger dl[i]]
            #![trigger dp[i]]
            0 <= i < dl.len() implies edge_between(g, dp[i], dp[i + 1]) && line_matches(
            dl[i],
            edge_line(g, dp[i], dp[i + 1]),
        ) by {
            assert(lines[i + 1] == lines[i + 1]);
            assert(dp[i] == p[i + 1] && dp[i + 1] == p[i + 2] && dl[i] == lines[i + 1]);
        }
        assert(path_lines(g, dp, dl));
        lemma_lines_cost_transfer(g, s, text, bps, goal, vars, policy, kashida, dp, dl);
    }
}

/// A walk's pair-cost total is never negative.
pub proof fn lemma_pairs_cost_nonneg<S: Shaper>(
    s: S,
    text: Seq<u8>,
    bps: Seq<usize>,
    goal: u32,
    vars: Seq<Variation>,
    policy: CostPolicy,
    kashida: bool,
    p: Seq<usize>,
)
    ensures
        spec_pairs_path_cost(s, text, bps, goal, vars, policy, kashida, p) >= 0,
    decreases p.len(),
{
    if p.len() > 1 {
        lemma_pairs_cost_nonneg(s, text, bps, goal, vars, policy, kashida, p.drop_first());
    }
}

/// Two line lists with the same settled values and glyph counts cost
/// the same.
pub proof fn lemma_lines_cost_content(a: Seq<LineData>, b: Seq<LineData>, policy: CostPolicy)
    requires
        a.len() == b.len(),
        forall|i: int|
            0 <= i < a.len() ==> (#[trigger] b[i]).variations@ == a[i].variations@
                && b[i].kashida_count == a[i].kashida_count,
    ensures
        spec_lines_cost(a, policy) == spec_lines_cost(b, policy),
    decreases a.len(),
{
    if a.len() > 0 {
        let da = a.drop_first();
        let db = b.drop_first();
        assert forall|i: int| 0 <= i < da.len() implies (#[trigger] db[i]).variations@
            == da[i].variations@ && db[i].kashida_count == da[i].kashida_count by {
            assert(b[i + 1].variations@ == a[i + 1].variations@ && b[i + 1].kashida_count == a[i
                + 1].kashida_count);
        }
        lemma_lines_cost_content(da, db, policy);
    }
}

/// The cost of the lines a least-cost path yields never exceeds the
/// cost of any other walk of the recorded pairs: the selector's
/// optimality, restated over the paragraph's own spec-level graph.
#[verifier::rlimit(100)]
#[verifier::spinoff_prover]
pub proof fn lemma_paragraph_minimal_cost<S: Shaper>(
    g: BreakGraph,
    s: S,
    text: Seq<u8>,
    bps: Seq<usize>,
    goal: u32,
    vars: Seq<Variation>,
    policy: CostPolicy,
    kashida: bool,
    n: usize,
    p: Seq<usize>,
    lines0: Seq<LineData>,
    lf: Seq<LineData>,
    total: u64,
)
    requires
        g.wf(),
        n == bps.len(),
        n >= 1,
        forall|k: int|
            0 <= k < g.edges@.len() ==> edge_ok(
                #[trigger] g.edges@[k],
                s,
                text,
                bps,
                goal,
                vars,
                policy,
                kashida,
            ),
        edge_pairs(g.edges@) == spec_edge_pairs(s, text, bps, goal, vars, kashida),
        path_lines(g, p, lines0),
        total as int == path_cost(g, p),
        forall|q: Seq<usize>|
            valid_path(g, q, 0, (n - 1) as usize) ==> path_cost(g, q) >= total as int,
        lf.len() == lines0.len(),
        forall|i: int|
            0 <= i < lf.len() ==> (#[trigger] lf[i]).variations@ == lines0[i].variations@
                && lf[i].kashida_count == lines0[i].kashida_count,
    ensures
        forall|q: Seq<usize>|
            pairs_connect(spec_edge_pairs(s, text, bps, goal, vars, kashida), q, 0, bps.len() - 1)
                ==> spec_pairs_path_cost(s, text, bps, goal, vars, policy, kashida, q)
                >= spec_lines_cost(lf, policy),
{
    lemma_lines_cost_transfer(g, s, text, bps, goal, vars, policy, kashida, p, lines0);
    lemma_lines_cost_content(lines0, lf, policy);
    assert(spec_lines_cost(lf, policy) == total as int);
    let pairs = spec_edge_pairs(s, text, bps, goal, vars, kashida);
    assert forall|q: Seq<usize>|
        pairs_connect(pairs, q, 0, bps.len() - 1) implies spec_pairs_path_cost(
        s,
        text,
        bps,
        goal,
        vars,
        policy,
        kashida,
        q,
    ) >= spec_lines_cost(lf, policy) by {
        lemma_valid_path_iff_pairs(g, q, 0, (n - 1) as usize);
        assert(valid_path(g, q, 0, (n - 1) as usize));
        lemma_path_cost_transfer(g, s, text, bps, goal, vars, policy, kashida, q);
        assert(path_cost(g, q) >= total as int);
    }
}

/// The path selector never selects anything but fit-class edges: every
/// line reconstructed along any path of a graph whose edges are all
/// sound is itself a successful fit for its own span.
pub proof fn lemma_selected_lines_fit<S: Shaper>(
    g: BreakGraph,
    p: Seq<usize>,
    lines: Seq<LineData>,
    s: S,
    text: Seq<u8>,
    bps: Seq<usize>,
    goal: u32,
    vars: Seq<Variation>,
    policy: CostPolicy,
    kashida: bool,
)
    requires
        g.wf(),
        forall|k: int|
            0 <= k < g.edges@.len() ==> edge_ok(
                #[trigger] g.edges@[k],
                s,
                text,
                bps,
                goal,
                vars,
                policy,
                kashida,
            ),
        path_lines(g, p, lines),
    ensures
        forall|i: int|
            0 <= i < lines.len() ==> spec_line_fit(s, text, goal, vars, kashida, #[trigger] lines[i]),
{
    assert forall|i: int| 0 <= i < lines.len() implies spec_line_fit(
        s,
        text,
        goal,
        vars,
        kashida,
        #[trigger] lines[i],
    ) by {
        assert(edge_between(g, p[i], p[i + 1]));
        let k = edge_index_of(g, p[i], p[i + 1]);
        assert(0 <= k < g.edges@.len() && g.edges@[k].from == p[i] && g.edges@[k].to == p[i + 1]);
        assert(edge_ok(g.edges@[k], s, text, bps, goal, vars, policy, kashida));
        assert(line_matches(lines[i], g.edges@[k].line));
        crate::solve::lemma_fit_transfer(s, text, goal, vars, kashida, g.edges@[k].line, lines[i]);
    }
}

/// One row of the breakpoint scan, as the node pairs it records: from
/// start index `i`, targets `j` ascending; a verse-marker target is
/// skipped, a fitting span records the pair `(i, j)` and makes `j`
/// reachable, and a too-tight fit ends the row, since longer spans can
/// only be tighter. Returns the pairs and the updated reachability.
pub open spec fn spec_scan_row<S: Shaper>(
    s: S,
    text: Seq<u8>,
    bps: Seq<usize>,
    goal: u32,
    vars: Seq<Variation>,
    kashida: bool,
    i: int,
    j: int,
    reach: Seq<bool>,
) -> (Seq<(int, int)>, Seq<bool>)
    decreases bps.len() - j,
{
    if j >= bps.len() {
        (Seq::<(int, int)>::empty(), reach)
    } else if spec_aya_marker_at(text, bps[j] as int) {
        spec_scan_row(s, text, bps, goal, vars, kashida, i, j + 1, reach)
    } else {
        let o = spec_optimal_line(s, text, bps[i] as int, bps[j] as int, goal, vars, kashida);
        if o.1 is None {
            let rest = spec_scan_row(s, text, bps, goal, vars, kashida, i, j + 1, reach.update(j, true));
            (seq![(i, j)] + rest.0, rest.1)
        } else if o.1 == Some(LineErrorKind::TooTight) {
            (Seq::<(int, int)>::empty(), reach)
        } else {
            spec_scan_row(s, text, bps, goal, vars, kashida, i, j + 1, reach)
        }
    }
}

/// The whole scan from row `i` on: reachable rows contribute their
/// pairs and extend the reachability for the rows after them.
pub open spec fn spec_scan_rows<S: Shaper>(
    s: S,
    text: Seq<u8>,
    bps: Seq<usize>,
    goal: u32,
    vars: Seq<Variation>,
    kashida: bool,
    i: int,
    reach: Seq<bool>,
) -> Seq<(int, int)>
    decreases bps.len() - i,
{
    if i >= bps.len() {
        Seq::<(int, int)>::empty()
    } else if 0 <= i < reach.len() && reach[i] {
        let row = spec_scan_row(s, text, bps, goal, vars, kashida, i, i + 1, reach);
        row.0 + spec_scan_rows(s, text, bps, goal, vars, kashida, i + 1, row.1)
    } else {
        spec_scan_rows(s, text, bps, goal, vars, kashida, i + 1, reach)
    }
}

/// Every node pair the breakpoint scan records for this paragraph, in
/// scan order, the start node seeded reachable. Together with `edge_ok`
/// and the edge-pair uniqueness of `BreakGraph::wf`, this pins the
/// built graph completely. Opaque so that callers carry it atomically.
#[verifier::opaque]
pub open spec fn spec_edge_pairs<S: Shaper>(
    s: S,
    text: Seq<u8>,
    bps: Seq<usize>,
    goal: u32,
    vars: Seq<Variation>,
    kashida: bool,
) -> Seq<(int, int)> {
    spec_scan_rows(s, text, bps, goal, vars, kashida, 0, Seq::new(bps.len(), |t: int| t == 0))
}

/// The node pairs of an edge list.
pub open spec fn edge_pairs(edges: Seq<BreakEdge>) -> Seq<(int, int)> {
    edges.map_values(|e: BreakEdge| (e.from as int, e.to as int))
}

/// `p` walks the pair list from `start` to `goal`.
pub open spec fn pairs_connect(pairs: Seq<(int, int)>, p: Seq<usize>, start: int, goal: int) -> bool {
    &&& p.len() >= 1
    &&& p[0] == start
    &&& p[p.len() - 1] == goal
    &&& forall|i: int|
        #![trigger p[i]]
        0 < i < p.len() ==> pairs.contains((p[i - 1] as int, p[i] as int))
}

/// Some walk of the pair list joins `start` to `goal`.
pub open spec fn pairs_reach(pairs: Seq<(int, int)>, start: int, goal: int) -> bool {
    exists|p: Seq<usize>| #[trigger] pairs_connect(pairs, p, start, goal)
}

/// A graph holds an edge between two nodes exactly when its pair list
/// holds the pair.
pub proof fn lemma_edge_pair_equiv(g: BreakGraph, a: usize, b: usize)
    ensures
        edge_between(g, a, b) <==> edge_pairs(g.edges@).contains((a as int, b as int)),
{
    let pairs = edge_pairs(g.edges@);
    if edge_between(g, a, b) {
        let k = choose|k: int|
            #![trigger g.edges@[k]]
            0 <= k < g.edges@.len() && g.edges@[k].from == a && g.edges@[k].to == b;
        assert(pairs[k] == (a as int, b as int));
        assert(pairs.contains((a as int, b as int)));
    }
    if pairs.contains((a as int, b as int)) {
        let k = choose|k: int| 0 <= k < pairs.len() && pairs[k] == (a as int, b as int);
        assert(g.edges@[k].from == a && g.edges@[k].to == b);
        assert(edge_between(g, a, b));
    }
}

/// A graph admits exactly the walks its pair list admits.
pub proof fn lemma_valid_path_iff_pairs(g: BreakGraph, p: Seq<usize>, start: usize, goal: usize)
    ensures
        valid_path(g, p, start, goal) <==> pairs_connect(
            edge_pairs(g.edges@),
            p,
            start as int,
            goal as int,
        ),
{
    let pairs = edge_pairs(g.edges@);
    if valid_path(g, p, start, goal) {
        assert forall|i: int| #![trigger p[i]] 0 < i < p.len() implies pairs.contains(
            (p[i - 1] as int, p[i] as int),
        ) by {
            lemma_edge_pair_equiv(g, p[i - 1], p[i]);
        }
    }
    if pairs_connect(pairs, p, start as int, goal as int) {
        assert forall|i: int| #![trigger p[i]] 0 < i < p.len() implies edge_between(
            g,
            p[i - 1],
            p[i],
        ) by {
            lemma_edge_pair_equiv(g, p[i - 1], p[i]);
        }
    }
}

/// A cost clamped to the edge-weight cap.
pub open spec fn clamp_cost(c: u64) -> u64 {
    if c > COST_CAP {
        COST_CAP
    } else {
        c
    }
}

/// An edge is sound for its paragraph: its endpoints index the ascending
/// breakpoint list in order, the target offset does not begin with the
/// forbidden verse-end marker, its line is exactly the fit the solver
/// reports for that span, and its weight is that line's capped cost.
pub open spec fn edge_ok<S: Shaper>(
    e: BreakEdge,
    s: S,
    text: Seq<u8>,
    bps: Seq<usize>,
    goal: u32,
    vars: Seq<Variation>,
    policy: CostPolicy,
    kashida: bool,
) -> bool {
    &&& e.from < e.to < bps.len()
    &&& e.line.start_bp == bps[e.from as int]
    &&& e.line.end_bp == bps[e.to as int]
    &&& !spec_aya_marker_at(text, bps[e.to as int] as int)
    &&& spec_line_fit(s, text, goal, vars, kashida, e.line)
    &&& e.cost == clamp_cost(spec_line_cost(e.line, policy))
    &&& e.line.last_line == false
    &&& vars_wf(e.line.variations@)
    &&& e.line.variations@.len() == vars.len()
}

/// Enumerate the feasible spans between breakpoints and build the
/// graph: scanning from every reachable start offset, a fitting span
/// becomes an edge and makes its target reachable; a span whose fit is
/// too tight ends the scan from that start, since longer spans can only
/// be tighter; a target beginning with the verse-end marker is skipped.
/// Each edge weighs its line's cost clamped at `COST_CAP`, a deliberate
/// policy that keeps every path sum the selector forms inside `u64`.
pub fn build_break_graph<S: Shaper>(
    shaper: &mut S,
    text: &[u8],
    bps: &Vec<usize>,
    goal_width: u32,
    variations: &Vec<Variation>,
    policy: &CostPolicy,
    kashida: bool,
) -> (g: BreakGraph)
    requires
        old(shaper).wf(),
        vars_wf(variations@),
        1 <= variations@.len() <= 0x1000_0000,
        policy.wf(),
        text@.len() <= 0x1000_0000,
        bps@.len() <= NODE_CAP,
        forall|i: int| 0 <= i < bps@.len() ==> #[trigger] bps@[i] <= text@.len(),
        forall|i: int| 0 < i < bps@.len() ==> bps@[i - 1] < #[trigger] bps@[i],
    ensures
        *final(shaper) == *old(shaper),
        g.wf(),
        g.n == bps@.len(),
        forall|k: int|
            0 <= k < g.edges@.len() ==> edge_ok(
                #[trigger] g.edges@[k],
                *old(shaper),
                text@,
                bps@,
                goal_width,
                variations@,
                *policy,
                kashida,
            ),
        edge_pairs(g.edges@) == spec_edge_pairs(
            *old(shaper),
            text@,
            bps@,
            goal_width,
            variations@,
            kashida,
        ),
{
    let ghost s0 = *shaper;
    let ghost total = spec_edge_pairs(s0, text@, bps@, goal_width, variations@, kashida);
    let n = bps.len();
    let mut reachable: Vec<bool> = Vec::new();
    let mut t: usize = 0;
    while t < n
        invariant
            t <= n,
            reachable@.len() == t,
            forall|k: int| 0 <= k < t ==> #[trigger] reachable@[k] == (k == 0),
        decreases n - t,
    {
        reachable.push(t == 0);
        t = t + 1;
    }
    proof {
        assert(reachable@ =~= Seq::new(bps@.len(), |k: int| k == 0));
    }

    let mut edges: Vec<BreakEdge> = Vec::new();
    proof {
        reveal(spec_edge_pairs);
        assert(edge_pairs(edges@) =~= Seq::<(int, int)>::empty());
        assert(edge_pairs(edges@) + spec_scan_rows(
            s0,
            text@,
            bps@,
            goal_width,
            variations@,
            kashida,
            0,
            reachable@,
        ) =~= total);
    }
    let mut i: usize = 0;
    while i < n
        invariant
            shaper.wf(),
            *shaper == s0,
            s0 == *old(shaper),
            vars_wf(variations@),
            1 <= variations@.len() <= 0x1000_0000,
            policy.wf(),
            text@.len() <= 0x1000_0000,
            n == bps@.len(),
            n <= NODE_CAP,
            forall|k: int| 0 <= k < bps@.len() ==> #[trigger] bps@[k] <= text@.len(),
            forall|k: int| 0 < k < bps@.len() ==> bps@[k - 1] < #[trigger] bps@[k],
            i <= n,
            reachable@.len() == n,
            total == spec_edge_pairs(s0, text@, bps@, goal_width, variations@, kashida),
            edge_pairs(edges@) + spec_scan_rows(
                s0,
                text@,
                bps@,
                goal_width,
                variations@,
                kashida,
                i as int,
                reachable@,
            ) == total,
            forall|k: int|
                0 <= k < edges@.len() ==> edge_ok(
                    #[trigger] edges@[k],
                    s0,
                    text@,
                    bps@,
                    goal_width,
                    variations@,
                    *policy,
                    kashida,
                ),
            forall|k: int| 0 <= k < edges@.len() ==> (#[trigger] edges@[k]).from < i,
            forall|k: int, l: int|
                0 <= k < l < edges@.len() ==> !((#[trigger] edges@[k]).from
                    == (#[trigger] edges@[l]).from && edges@[k].to == edges@[l].to),
        decreases n - i,
    {
        if reachable[i] {
            let mut j: usize = i + 1;
            while j < n
                invariant
                    shaper.wf(),
                    *shaper == s0,
                    s0 == *old(shaper),
                    vars_wf(variations@),
                    1 <= variations@.len() <= 0x1000_0000,
                    policy.wf(),
                    text@.len() <= 0x1000_0000,
                    n == bps@.len(),
                    n <= NODE_CAP,
                    forall|k: int| 0 <= k < bps@.len() ==> #[trigger] bps@[k] <= text@.len(),
                    forall|k: int| 0 < k < bps@.len() ==> bps@[k - 1] < #[trigger] bps@[k],
                    i < n,
                    i < j <= n,
                    reachable@.len() == n,
                    total == spec_edge_pairs(s0, text@, bps@, goal_width, variations@, kashida),
                    ({
                        let row = spec_scan_row(
                            s0,
                            text@,
                            bps@,
                            goal_width,
                            variations@,
                            kashida,
                            i as int,
                            j as int,
                            reachable@,
                        );
                        edge_pairs(edges@) + row.0 + spec_scan_rows(
                            s0,
                            text@,
                            bps@,
                            goal_width,
                            variations@,
                            kashida,
                            i as int + 1,
                            row.1,
                        ) == total
                    }),
                    forall|k: int|
                        0 <= k < edges@.len() ==> edge_ok(
                            #[trigger] edges@[k],
                            s0,
                            text@,
                            bps@,
                            goal_width,
                            variations@,
                            *policy,
                            kashida,
                        ),
                    forall|k: int|
                        0 <= k < edges@.len() ==> (#[trigger] edges@[k]).from < i || (
                        edges@[k].from == i && edges@[k].to < j),
                    forall|k: int, l: int|
                        0 <= k < l < edges@.len() ==> !((#[trigger] edges@[k]).from
                            == (#[trigger] edges@[l]).from && edges@[k].to == edges@[l].to),
                ensures
                    shaper.wf(),
                    *shaper == s0,
                    reachable@.len() == n,
                    edge_pairs(edges@) + spec_scan_rows(
                        s0,
                        text@,
                        bps@,
                        goal_width,
                        variations@,
                        kashida,
                        i as int + 1,
                        reachable@,
                    ) == total,
                    forall|k: int|
                        0 <= k < edges@.len() ==> edge_ok(
                            #[trigger] edges@[k],
                            s0,
                            text@,
                            bps@,
                            goal_width,
                            variations@,
                            *policy,
                            kashida,
                        ),
                    forall|k: int| 0 <= k < edges@.len() ==> (#[trigger] edges@[k]).from <= i,
                    forall|k: int, l: int|
                        0 <= k < l < edges@.len() ==> !((#[trigger] edges@[k]).from
                            == (#[trigger] edges@[l]).from && edges@[k].to == edges@[l].to),
                decreases n - j,
            {
                let ghost edges0 = edges@;
                let ghost reach0 = reachable@;
                let ghost row0 = spec_scan_row(
                    s0,
                    text@,
                    bps@,
                    goal_width,
                    variations@,
                    kashida,
                    i as int,
                    j as int,
                    reach0,
                );
                let start = bps[i];
                let end = bps[j];
                proof {
                    lemma_ascending(bps@, i as int, j as int);
                }
                if !aya_marker_at(text, end) {
                    let attempt = find_optimal_line(
                        shaper,
                        text,
                        start,
                        end,
                        goal_width,
                        variations,
                        kashida,
                    );
                    match attempt {
                        Ok(ld) => {
                            let c = ld.cost(policy);
                            let w = if c > COST_CAP {
                                COST_CAP
                            } else {
                                c
                            };
                            reachable[j] = true;
                            edges.push(BreakEdge { from: i, to: j, cost: w, line: ld });
                            proof {
                                reveal(spec_line_fit);
                                assert(edge_ok(
                                    edges@[edges@.len() - 1],
                                    s0,
                                    text@,
                                    bps@,
                                    goal_width,
                                    variations@,
                                    *policy,
                                    kashida,
                                ));
                                assert(reachable@ == reach0.update(j as int, true));
                                assert(edge_pairs(edges@) =~= edge_pairs(edges0).push(
                                    (i as int, j as int),
                                ));
                                let rest = spec_scan_row(
                                    s0,
                                    text@,
                                    bps@,
                                    goal_width,
                                    variations@,
                                    kashida,
                                    i as int,
                                    j as int + 1,
                                    reachable@,
                                );
                                assert(row0.0 =~= seq![(i as int, j as int)] + rest.0);
                                assert(edge_pairs(edges@) + rest.0 =~= edge_pairs(edges0)
                                    + row0.0);
                            }
                        },
                        Err(e) => {
                            if matches!(e.kind, LineErrorKind::TooTight) {
                                proof {
                                    assert(row0.0 =~= Seq::<(int, int)>::empty());
                                    assert(edge_pairs(edges@) + row0.0 =~= edge_pairs(edges@));
                                }
                                break ;
                            }
                        },
                    }
                }
                j = j + 1;
            }
        }
        i = i + 1;
    }

    let g = BreakGraph { n, edges };
    proof {
        assert(g.wf());
        assert(spec_scan_rows(
            s0,
            text@,
            bps@,
            goal_width,
            variations@,
            kashida,
            n as int,
            reachable@,
        ) =~= Seq::<(int, int)>::empty());
        assert(edge_pairs(g.edges@) =~= edge_pairs(g.edges@) + Seq::<(int, int)>::empty());
    }
    g
}

} // verus!
