//! Paragraph and page layout: split the text into paragraphs on blank
//! lines, try each paragraph as a single (possibly under-filled) line,
//! and otherwise lay it out across the breakpoint graph; a paragraph
//! that cannot be laid out fails the whole page.

use vstd::prelude::*;

use crate::cost::CostPolicy;
use crate::graph::{
    BreakGraph, NODE_CAP, build_break_graph, edge_index_of, edge_ok, edge_pairs, lemma_ascending,
    lemma_pairs_cost_nonneg, lemma_paragraph_minimal_cost, lemma_valid_path_iff_pairs,
    pairs_connect, pairs_reach, path_lines, select_path, spec_edge_pairs, spec_lines_cost,
    spec_pairs_path_cost, valid_path,
};
use crate::logic::{LineData, LineErrorKind, ParagraphError, Variation, vars_wf};
use crate::shaper::Shaper;
use crate::solve::{find_optimal_line, lemma_fit_transfer, spec_line_fit, spec_optimal_line};
use crate::text::{
    find_separator, lemma_para_end_found, lemma_para_end_none, line_breaks_of,
    segment_line_breaks, spec_aya_marker_at, spec_para_end, spec_separator_at,
};

verus! {

/// The single-line policy of a paragraph: the whole paragraph is tried
/// as one line (elongation allowed); a fit, or an under-filled best
/// effort (too loose), is accepted as it stands, and only a too-tight
/// paragraph moves on to multi-line layout. Carries the accepted values
/// and glyph count. Opaque so that callers carry it atomically.
#[verifier::opaque]
pub open spec fn spec_single_line_accepts<S: Shaper>(
    s: S,
    text: Seq<u8>,
    ps: int,
    pe: int,
    goal: u32,
    vars: Seq<Variation>,
) -> Option<(Seq<Variation>, usize)> {
    let o = spec_optimal_line(s, text, ps, pe, goal, vars, true);
    if o.1 is None || o.1 == Some(LineErrorKind::TooLoose) {
        Some((o.0, o.2))
    } else {
        None
    }
}

/// The paragraph's breakpoint list, as absolute text offsets.
pub open spec fn spec_abs_breaks(text: Seq<u8>, ps: int, pe: int) -> Seq<usize> {
    Seq::new(
        line_breaks_of(text.subrange(ps, pe)).len(),
        |t: int| (line_breaks_of(text.subrange(ps, pe))[t] + ps) as usize,
    )
}

/// Some walk of recorded fitting spans joins the paragraph's first
/// breakpoint to its last: multi-line layout can succeed.
#[verifier::opaque]
pub open spec fn spec_multiline_reachable<S: Shaper>(
    s: S,
    text: Seq<u8>,
    ps: int,
    pe: int,
    goal: u32,
    vars: Seq<Variation>,
    kashida: bool,
) -> bool {
    let bps = spec_abs_breaks(text, ps, pe);
    pairs_reach(spec_edge_pairs(s, text, bps, goal, vars, kashida), 0, bps.len() - 1)
}

/// The paragraph can be laid out neither as a single line nor across
/// its breakpoint graph, with or without elongation.
#[verifier::opaque]
pub open spec fn spec_paragraph_fails_both<S: Shaper>(
    s: S,
    text: Seq<u8>,
    ps: int,
    pe: int,
    goal: u32,
    vars: Seq<Variation>,
) -> bool {
    &&& spec_single_line_accepts(s, text, ps, pe, goal, vars) is None
    &&& !spec_multiline_reachable(s, text, ps, pe, goal, vars, false)
    &&& !spec_multiline_reachable(s, text, ps, pe, goal, vars, true)
}

/// The layout a paragraph must receive: the plain one whenever the
/// plain attempt can succeed (elongation is a fallback, not a default),
/// the augmented one otherwise.
#[verifier::opaque]
pub open spec fn spec_paragraph_accepted<S: Shaper>(
    s: S,
    text: Seq<u8>,
    ps: int,
    pe: int,
    goal: u32,
    vars: Seq<Variation>,
    lines: Seq<LineData>,
) -> bool {
    if spec_single_line_accepts(s, text, ps, pe, goal, vars) is Some || spec_multiline_reachable(
        s,
        text,
        ps,
        pe,
        goal,
        vars,
        false,
    ) {
        paragraph_lines_ok(s, text, ps, pe, goal, vars, false, lines)
    } else {
        paragraph_lines_ok(s, text, ps, pe, goal, vars, true, lines)
    }
}

/// Some paragraph of the text, scanning from `from` in split order,
/// can be laid out neither plainly nor with elongation; such a
/// paragraph fails the whole page.
#[verifier::opaque]
pub open spec fn spec_some_paragraph_fails<S: Shaper>(
    s: S,
    text: Seq<u8>,
    from: int,
    goal: u32,
    vars: Seq<Variation>,
) -> bool
    decreases text.len() - from,
{
    let pe = spec_para_end(text, from);
    if spec_paragraph_fails_both(s, text, from, pe, goal, vars) {
        true
    } else if spec_separator_at(text, pe) && from <= pe {
        spec_some_paragraph_fails(s, text, pe + 2, goal, vars)
    } else {
        false
    }
}

/// The lines of a whole page, paragraph by paragraph in split order:
/// some prefix of the lines is the paragraph's accepted layout, and the
/// rest lays the remaining paragraphs out.
#[verifier::opaque]
pub open spec fn page_lines_ok<S: Shaper>(
    s: S,
    text: Seq<u8>,
    from: int,
    goal: u32,
    vars: Seq<Variation>,
    lines: Seq<LineData>,
) -> bool
    decreases text.len() - from,
{
    let pe = spec_para_end(text, from);
    exists|k: int|
        #![trigger lines.take(k)]
        0 <= k <= lines.len() && spec_paragraph_accepted(
            s,
            text,
            from,
            pe,
            goal,
            vars,
            lines.take(k),
        ) && if spec_separator_at(text, pe) && from <= pe {
            page_lines_ok(s, text, pe + 2, goal, vars, lines.skip(k))
        } else {
            k == lines.len()
        }
}

/// `off` is one of the paragraph's legal break offsets. Opaque so that
/// carrying the fact does not spawn quantifiers.
#[verifier::opaque]
pub open spec fn is_paragraph_break(text: Seq<u8>, ps: int, pe: int, off: int) -> bool {
    exists|t: int|
        #![trigger line_breaks_of(text.subrange(ps, pe))[t]]
        0 <= t < line_breaks_of(text.subrange(ps, pe)).len() && off == line_breaks_of(
            text.subrange(ps, pe),
        )[t] + ps
}

/// What a successful paragraph layout guarantees: the lines tile a
/// prefix-to-suffix span of the paragraph in order, exactly the final
/// line carries the last-line flag, and every line is well formed. A
/// paragraph accepted as a single line carries the single-line solve's
/// values; otherwise every line is a successful fit for its own span and
/// breaks only at legal break offsets.
#[verifier::opaque]
pub open spec fn paragraph_lines_ok<S: Shaper>(
    s: S,
    text: Seq<u8>,
    ps: int,
    pe: int,
    goal: u32,
    vars: Seq<Variation>,
    kashida: bool,
    lines: Seq<LineData>,
) -> bool {
    &&& forall|i: int|
        0 <= i < lines.len() ==> ps <= (#[trigger] lines[i]).start_bp <= lines[i].end_bp <= pe
    &&& forall|i: int| 0 < i < lines.len() ==> (#[trigger] lines[i]).start_bp == lines[i - 1].end_bp
    &&& forall|i: int|
        0 <= i < lines.len() ==> ((#[trigger] lines[i]).last_line <==> i == lines.len() - 1)
    &&& forall|i: int|
        0 <= i < lines.len() ==> vars_wf((#[trigger] lines[i]).variations@)
            && lines[i].variations@.len() == vars.len()
    &&& match spec_single_line_accepts(s, text, ps, pe, goal, vars) {
        Some(acc) => {
            &&& lines.len() == 1
            &&& lines[0].start_bp == ps
            &&& lines[0].end_bp == pe
            &&& lines[0].variations@ == acc.0
            &&& lines[0].kashida_count == acc.1
        },
        None => {
            &&& (lines.len() == 0 ==> ps == pe)
            &&& lines.len() >= 1 ==> lines[0].start_bp == ps && lines[lines.len() - 1].end_bp
                == pe
            &&& forall|i: int|
                0 <= i < lines.len() ==> spec_line_fit(
                    s,
                    text,
                    goal,
                    vars,
                    kashida,
                    #[trigger] lines[i],
                )
            &&& forall|i: int|
                0 <= i < lines.len() ==> is_paragraph_break(
                    text,
                    ps,
                    pe,
                    (#[trigger] lines[i]).start_bp as int,
                ) && is_paragraph_break(text, ps, pe, lines[i].end_bp as int)
            &&& forall|i: int|
                0 <= i < lines.len() ==> !spec_aya_marker_at(
                    text,
                    (#[trigger] lines[i]).end_bp as int,
                )
        },
    }
}

/// In a strictly ascending list each element is at least its index.
proof fn lemma_ascending_floor(bps: Seq<usize>, k: int)
    requires
        forall|t: int| 0 < t < bps.len() ==> bps[t - 1] < #[trigger] bps[t],
        bps.len() > 0,
        bps[0] == 0,
        0 <= k < bps.len(),
    ensures
        bps[k] >= k,
    decreases k,
{
    if k > 0 {
        lemma_ascending_floor(bps, k - 1);
    }
}

/// Lay one paragraph out: first the whole paragraph as a single line,
/// then, if that is too tight, across the breakpoint graph with the
/// least-cost path.
#[verifier::rlimit(100)]
pub fn paragraph_line_break<S: Shaper>(
    shaper: &mut S,
    text: &[u8],
    para_start: usize,
    para_end: usize,
    goal_width: u32,
    variations: &Vec<Variation>,
    policy: &CostPolicy,
    kashida: bool,
) -> (r: Result<Vec<LineData>, ParagraphError>)
    requires
        old(shaper).wf(),
        vars_wf(variations@),
        1 <= variations@.len() <= 0x1000_0000,
        policy.wf(),
        para_start <= para_end <= text@.len(),
        text@.len() < NODE_CAP,
    ensures
        *final(shaper) == *old(shaper),
        r matches Ok(lines) ==> paragraph_lines_ok(
            *old(shaper),
            text@,
            para_start as int,
            para_end as int,
            goal_width,
            variations@,
            kashida,
            lines@,
        ),
        r is Ok ==> spec_single_line_accepts(
            *old(shaper),
            text@,
            para_start as int,
            para_end as int,
            goal_width,
            variations@,
        ) is Some || spec_multiline_reachable(
            *old(shaper),
            text@,
            para_start as int,
            para_end as int,
            goal_width,
            variations@,
            kashida,
        ),
        r is Err ==> spec_single_line_accepts(
            *old(shaper),
            text@,
            para_start as int,
            para_end as int,
            goal_width,
            variations@,
        ) is None && !spec_multiline_reachable(
            *old(shaper),
            text@,
            para_start as int,
            para_end as int,
            goal_width,
            variations@,
            kashida,
        ),
        r matches Ok(lines) ==> spec_single_line_accepts(
            *old(shaper),
            text@,
            para_start as int,
            para_end as int,
            goal_width,
            variations@,
        ) is None ==> ({
            let abs = spec_abs_breaks(text@, para_start as int, para_end as int);
            forall|q: Seq<usize>|
                pairs_connect(
                    spec_edge_pairs(*old(shaper), text@, abs, goal_width, variations@, kashida),
                    q,
                    0,
                    abs.len() - 1,
                ) ==> spec_pairs_path_cost(
                    *old(shaper),
                    text@,
                    abs,
                    goal_width,
                    variations@,
                    *policy,
                    kashida,
                    q,
                ) >= spec_lines_cost(lines@, *policy)
        }),
{
    let ghost s0 = *shaper;
    let ghost ps = para_start as int;
    let ghost pe = para_end as int;
    let ghost single = spec_single_line_accepts(s0, text@, ps, pe, goal_width, variations@);
    proof {
        reveal(spec_single_line_accepts);
        reveal(spec_multiline_reachable);
        reveal(paragraph_lines_ok);
    }

    // First see if the whole paragraph fits in one line, for example a
    // short formulaic phrase; an under-filled short paragraph is
    // accepted at its best achievable values rather than forced tight.
    let first = find_optimal_line(
        shaper,
        text,
        para_start,
        para_end,
        goal_width,
        variations,
        true,
    );
    match first {
        Ok(ld) => {
            let mut ld = ld;
            ld.last_line = true;
            let mut out: Vec<LineData> = Vec::new();
            out.push(ld);
            return Ok(out);
        },
        Err(e) => {
            if matches!(e.kind, LineErrorKind::TooLoose) {
                let count = e.kashida_count;
                let mut ld = LineData::new(para_start, para_end, e.variations, count);
                ld.last_line = true;
                let mut out: Vec<LineData> = Vec::new();
                out.push(ld);
                return Ok(out);
            }
        },
    }
    proof {
        assert(single is None);
    }

    // Multi-line layout over the paragraph's breakpoint graph.
    let para = vstd::slice::slice_subrange(text, para_start, para_end);
    let rel = segment_line_breaks(para);
    let m = rel.len();
    proof {
        lemma_ascending_floor(rel@, m - 1);
        assert(m <= para@.len() + 1);
    }
    let mut bps: Vec<usize> = Vec::new();
    let mut t: usize = 0;
    while t < m
        invariant
            t <= m,
            m == rel@.len(),
            para_start <= para_end <= text@.len(),
            para@ == text@.subrange(para_start as int, para_end as int),
            rel@ == line_breaks_of(para@),
            forall|k: int| 0 <= k < rel@.len() ==> #[trigger] rel@[k] <= para@.len(),
            bps@.len() == t,
            forall|k: int| 0 <= k < t ==> #[trigger] bps@[k] == rel@[k] + para_start,
        decreases m - t,
    {
        bps.push(rel[t] + para_start);
        t = t + 1;
    }
    proof {
        assert forall|k: int| 0 <= k < bps@.len() implies #[trigger] bps@[k] <= text@.len() by {
            assert(rel@[k] <= para@.len());
        }
        assert forall|k: int| 0 < k < bps@.len() implies bps@[k - 1] < #[trigger] bps@[k] by {
            assert(rel@[k - 1] < rel@[k]);
        }
        assert(bps@ =~= spec_abs_breaks(text@, ps, pe));
    }

    let g = build_break_graph(shaper, text, &bps, goal_width, variations, policy, kashida);
    let n = bps.len();
    let ghost abs = spec_abs_breaks(text@, ps, pe);
    let ghost pairs = spec_edge_pairs(s0, text@, abs, goal_width, variations@, kashida);
    let sel = select_path(&g, 0, n - 1);
    match sel {
        None => {
            proof {
                let gl = abs.len() - 1;
                if pairs_reach(pairs, 0, gl) {
                    let p = choose|p: Seq<usize>| #[trigger] pairs_connect(pairs, p, 0, gl);
                    lemma_valid_path_iff_pairs(g, p, 0, (n - 1) as usize);
                    assert(valid_path(g, p, 0, (n - 1) as usize));
                    assert(false);
                }
                assert(!spec_multiline_reachable(
                    s0,
                    text@,
                    ps,
                    pe,
                    goal_width,
                    variations@,
                    kashida,
                ));
            }
            Err(ParagraphError::UnableToLayout)
        },
        Some(sp) => {
            proof {
                lemma_valid_path_iff_pairs(g, sp.nodes@, 0, (n - 1) as usize);
                assert(pairs_connect(pairs, sp.nodes@, 0, abs.len() - 1));
                assert(pairs_reach(pairs, 0, abs.len() - 1));
                assert(spec_multiline_reachable(
                    s0,
                    text@,
                    ps,
                    pe,
                    goal_width,
                    variations@,
                    kashida,
                ));
            }
            let mut lines = sp.lines;
            let ghost p = sp.nodes@;
            let ghost lines0 = lines@;

            if lines.len() == 0 {
                // A one-node path: the paragraph is empty.
                proof {
                    assert(p.len() == 1);
                    assert(p[0] == 0 && p[p.len() - 1] == n - 1);
                    assert(n == 1);
                    if para@.len() > 0 {
                        assert(rel@[rel@.len() - 1] == para@.len());
                        assert(rel@[0] == 0);
                        assert(rel@.len() == 1);
                        assert(false);
                    }
                    assert(ps == pe);
                    assert forall|q: Seq<usize>|
                        pairs_connect(pairs, q, 0, abs.len() - 1) implies spec_pairs_path_cost(
                        s0,
                        text@,
                        abs,
                        goal_width,
                        variations@,
                        *policy,
                        kashida,
                        q,
                    ) >= spec_lines_cost(lines@, *policy) by {
                        lemma_pairs_cost_nonneg(
                            s0,
                            text@,
                            abs,
                            goal_width,
                            variations@,
                            *policy,
                            kashida,
                            q,
                        );
                    }
                }
                return Ok(lines);
            }

            // Mark the final line as the paragraph's last.
            let tail = lines.pop();
            match tail {
                Some(mut last) => {
                    last.last_line = true;
                    lines.push(last);
                },
                None => {
                    proof {
                        assert(false);
                    }
                },
            }

            proof {
                let len = lines0.len() as int;
                let lf = lines@;
                assert(lf.len() == len);
                assert forall|i: int| 0 <= i < len - 1 implies #[trigger] lf[i] == lines0[i] by {}
                assert(lf[len - 1].start_bp == lines0[len - 1].start_bp && lf[len - 1].end_bp
                    == lines0[len - 1].end_bp && lf[len - 1].variations@ == lines0[len
                    - 1].variations@ && lf[len - 1].kashida_count == lines0[len - 1].kashida_count
                    && lf[len - 1].last_line == true);
                lemma_gather_edge_facts(
                    s0,
                    text@,
                    bps@,
                    n,
                    goal_width,
                    variations@,
                    *policy,
                    kashida,
                    g,
                    p,
                    lines0,
                );
                lemma_assemble_paragraph(
                    s0,
                    text@,
                    ps,
                    pe,
                    goal_width,
                    variations@,
                    kashida,
                    rel@,
                    bps@,
                    n,
                    p,
                    lines0,
                    lf,
                );
                assert forall|i: int| 0 <= i < lf.len() implies (#[trigger] lf[i]).variations@
                    == lines0[i].variations@ && lf[i].kashida_count
                    == lines0[i].kashida_count by {
                    if i < lines0.len() - 1 {
                        assert(lf[i] == lines0[i]);
                    }
                }
                lemma_paragraph_minimal_cost(
                    g,
                    s0,
                    text@,
                    bps@,
                    goal_width,
                    variations@,
                    *policy,
                    kashida,
                    n,
                    p,
                    lines0,
                    lf,
                    sp.total,
                );
            }
            Ok(lines)
        },
    }
}

/// The per-line facts each selected line inherits from its graph edge.
spec fn gathered_line_facts<S: Shaper>(
    s: S,
    text: Seq<u8>,
    bps: Seq<usize>,
    n: usize,
    goal: u32,
    vars: Seq<Variation>,
    kashida: bool,
    p: Seq<usize>,
    lines0: Seq<LineData>,
) -> bool {
    forall|i: int|
        0 <= i < lines0.len() ==> {
            &&& (#[trigger] lines0[i]).start_bp == bps[p[i] as int]
            &&& lines0[i].end_bp == bps[p[i + 1] as int]
            &&& lines0[i].last_line == false
            &&& vars_wf(lines0[i].variations@)
            &&& lines0[i].variations@.len() == vars.len()
            &&& spec_line_fit(s, text, goal, vars, kashida, lines0[i])
            &&& !spec_aya_marker_at(text, bps[p[i + 1] as int] as int)
            &&& p[i] < p[i + 1] < n
        }
}

/// Every line selected along a path of a sound graph inherits its
/// edge's guarantees.
#[verifier::rlimit(100)]
proof fn lemma_gather_edge_facts<S: Shaper>(
    s: S,
    text: Seq<u8>,
    bps: Seq<usize>,
    n: usize,
    goal: u32,
    vars: Seq<Variation>,
    policy: CostPolicy,
    kashida: bool,
    g: BreakGraph,
    p: Seq<usize>,
    lines0: Seq<LineData>,
)
    requires
        g.wf(),
        n == bps.len(),
        forall|k: int|
            0 <= k < g.edges@.len() ==> edge_ok(
                #[trigger] g.edges@[k],
                s,
                text,
                bps,
                goal,
                vars,
                policy,
                kashida,
            ),
        path_lines(g, p, lines0),
    ensures
        gathered_line_facts(s, text, bps, n, goal, vars, kashida, p, lines0),
{
    assert forall|i: int| 0 <= i < lines0.len() implies {
        &&& (#[trigger] lines0[i]).start_bp == bps[p[i] as int]
        &&& lines0[i].end_bp == bps[p[i + 1] as int]
        &&& lines0[i].last_line == false
        &&& vars_wf(lines0[i].variations@)
        &&& lines0[i].variations@.len() == vars.len()
        &&& spec_line_fit(s, text, goal, vars, kashida, lines0[i])
        &&& !spec_aya_marker_at(text, bps[p[i + 1] as int] as int)
        &&& p[i] < p[i + 1] < n
    } by {
        let k = edge_index_of(g, p[i], p[i + 1]);
        assert(0 <= k < g.edges@.len() && g.edges@[k].from == p[i] && g.edges@[k].to == p[i
            + 1]);
        assert(edge_ok(g.edges@[k], s, text, bps, goal, vars, policy, kashida));
        lemma_fit_transfer(s, text, goal, vars, kashida, g.edges@[k].line, lines0[i]);
    }
}

/// The selected lines tile the paragraph: ascending spans inside
/// `[ps, pe]`, the first starting at `ps`, the last ending at `pe`,
/// each line beginning where the one before it ended.
#[verifier::rlimit(100)]
#[verifier::spinoff_prover]
proof fn lemma_paragraph_spans<S: Shaper>(
    s: S,
    text: Seq<u8>,
    ps: int,
    pe: int,
    goal: u32,
    vars: Seq<Variation>,
    kashida: bool,
    rel: Seq<usize>,
    bps: Seq<usize>,
    n: usize,
    p: Seq<usize>,
    lines0: Seq<LineData>,
    lf: Seq<LineData>,
)
    requires
        0 <= ps <= pe <= text.len(),
        rel == line_breaks_of(text.subrange(ps, pe)),
        rel.len() >= 1,
        rel[0] == 0,
        text.subrange(ps, pe).len() > 0 ==> rel[rel.len() - 1] == text.subrange(ps, pe).len(),
        forall|k: int| 0 <= k < rel.len() ==> #[trigger] rel[k] <= pe - ps,
        forall|k: int| 0 < k < rel.len() ==> rel[k - 1] < #[trigger] rel[k],
        n == rel.len(),
        bps.len() == n,
        forall|k: int| 0 <= k < n ==> #[trigger] bps[k] == rel[k] + ps,
        gathered_line_facts(s, text, bps, n, goal, vars, kashida, p, lines0),
        p.len() == lines0.len() + 1,
        p[0] == 0,
        p[p.len() - 1] == n - 1,
        lines0.len() >= 1,
        lf.len() == lines0.len(),
        forall|i: int| 0 <= i < lines0.len() - 1 ==> #[trigger] lf[i] == lines0[i],
        ({
            let last = lines0.len() - 1;
            &&& lf[last].start_bp == lines0[last].start_bp
            &&& lf[last].end_bp == lines0[last].end_bp
            &&& lf[last].variations@ == lines0[last].variations@
            &&& lf[last].kashida_count == lines0[last].kashida_count
            &&& lf[last].last_line == true
        }),
    ensures
        forall|i: int|
            0 <= i < lf.len() ==> ps <= (#[trigger] lf[i]).start_bp <= lf[i].end_bp <= pe,
        forall|i: int| 0 < i < lf.len() ==> (#[trigger] lf[i]).start_bp == lf[i - 1].end_bp,
        lf[0].start_bp == ps,
        lf[lf.len() - 1].end_bp == pe,
{
    assert forall|k: int| 0 < k < bps.len() implies bps[k - 1] < #[trigger] bps[k] by {
        assert(rel[k - 1] < rel[k]);
    }
    assert(bps[0] == ps);
    assert(n >= 2);
    assert(rel[1] > rel[0]);
    assert(text.subrange(ps, pe).len() > 0);
    assert(rel[n - 1] == pe - ps);
    assert(bps[n - 1] == pe);
    assert forall|i: int| 0 <= i < lf.len() implies ps <= (#[trigger] lf[i]).start_bp
        <= lf[i].end_bp <= pe by {
        assert(lines0[i].start_bp == bps[p[i] as int]);
        if p[i] as int > 0 {
            lemma_ascending(bps, 0, p[i] as int);
        }
        lemma_ascending(bps, p[i] as int, p[i + 1] as int);
        if (p[i + 1] as int) < n - 1 {
            lemma_ascending(bps, p[i + 1] as int, n - 1);
        }
    }
    assert forall|i: int| 0 < i < lf.len() implies (#[trigger] lf[i]).start_bp == lf[i
        - 1].end_bp by {
        assert(lines0[i].start_bp == bps[p[i] as int]);
        assert(lines0[i - 1].start_bp == bps[p[i - 1] as int]);
        assert(lines0[i - 1].end_bp == bps[p[i] as int]);
    }
    assert(lines0[0].start_bp == bps[p[0] as int]);
    assert(lines0[lf.len() - 1].end_bp == bps[p[lf.len() as int] as int]);
}

/// Each selected line breaks at legal break offsets, is a successful
/// fit for its own span, and never ends at the verse-end marker.
#[verifier::rlimit(100)]
#[verifier::spinoff_prover]
proof fn lemma_paragraph_line_facts<S: Shaper>(
    s: S,
    text: Seq<u8>,
    ps: int,
    pe: int,
    goal: u32,
    vars: Seq<Variation>,
    kashida: bool,
    rel: Seq<usize>,
    bps: Seq<usize>,
    n: usize,
    p: Seq<usize>,
    lines0: Seq<LineData>,
    lf: Seq<LineData>,
)
    requires
        0 <= ps <= pe <= text.len(),
        rel == line_breaks_of(text.subrange(ps, pe)),
        rel.len() >= 1,
        rel[0] == 0,
        text.subrange(ps, pe).len() > 0 ==> rel[rel.len() - 1] == text.subrange(ps, pe).len(),
        forall|k: int| 0 <= k < rel.len() ==> #[trigger] rel[k] <= pe - ps,
        forall|k: int| 0 < k < rel.len() ==> rel[k - 1] < #[trigger] rel[k],
        n == rel.len(),
        bps.len() == n,
        forall|k: int| 0 <= k < n ==> #[trigger] bps[k] == rel[k] + ps,
        gathered_line_facts(s, text, bps, n, goal, vars, kashida, p, lines0),
        p.len() == lines0.len() + 1,
        p[0] == 0,
        p[p.len() - 1] == n - 1,
        lines0.len() >= 1,
        lf.len() == lines0.len(),
        forall|i: int| 0 <= i < lines0.len() - 1 ==> #[trigger] lf[i] == lines0[i],
        ({
            let last = lines0.len() - 1;
            &&& lf[last].start_bp == lines0[last].start_bp
            &&& lf[last].end_bp == lines0[last].end_bp
            &&& lf[last].variations@ == lines0[last].variations@
            &&& lf[last].kashida_count == lines0[last].kashida_count
            &&& lf[last].last_line == true
        }),
    ensures
        forall|i: int|
            0 <= i < lf.len() ==> is_paragraph_break(
                text,
                ps,
                pe,
                (#[trigger] lf[i]).start_bp as int,
            ) && is_paragraph_break(text, ps, pe, lf[i].end_bp as int),
        forall|i: int|
            0 <= i < lf.len() ==> spec_line_fit(s, text, goal, vars, kashida, #[trigger] lf[i]),
        forall|i: int|
            0 <= i < lf.len() ==> !spec_aya_marker_at(text, (#[trigger] lf[i]).end_bp as int),
        forall|i: int|
            0 <= i < lf.len() ==> vars_wf((#[trigger] lf[i]).variations@)
                && lf[i].variations@.len() == vars.len(),
        forall|i: int| 0 <= i < lf.len() ==> ((#[trigger] lf[i]).last_line <==> i == lf.len() - 1),
{
    assert forall|i: int| 0 <= i < lf.len() implies is_paragraph_break(
        text,
        ps,
        pe,
        (#[trigger] lf[i]).start_bp as int,
    ) && is_paragraph_break(text, ps, pe, lf[i].end_bp as int) by {
        reveal(is_paragraph_break);
        assert(lines0[i].start_bp == bps[p[i] as int]);
        assert(line_breaks_of(text.subrange(ps, pe))[p[i] as int] == rel[p[i] as int]);
        assert(lf[i].start_bp == rel[p[i] as int] + ps);
        assert(lf[i].end_bp == rel[p[i + 1] as int] + ps);
    }
    assert forall|i: int| 0 <= i < lf.len() implies spec_line_fit(
        s,
        text,
        goal,
        vars,
        kashida,
        #[trigger] lf[i],
    ) by {
        assert(lines0[i].start_bp == bps[p[i] as int]);
        assert(spec_line_fit(s, text, goal, vars, kashida, lines0[i]));
        lemma_fit_transfer(s, text, goal, vars, kashida, lines0[i], lf[i]);
    }
    assert forall|i: int| 0 <= i < lf.len() implies !spec_aya_marker_at(
        text,
        (#[trigger] lf[i]).end_bp as int,
    ) by {
        assert(lines0[i].start_bp == bps[p[i] as int]);
        assert(lf[i].end_bp == bps[p[i + 1] as int]);
    }
    assert forall|i: int| 0 <= i < lf.len() implies vars_wf((#[trigger] lf[i]).variations@)
        && lf[i].variations@.len() == vars.len() by {
        assert(vars_wf(lines0[i].variations@) && lines0[i].variations@.len() == vars.len());
    }
    assert forall|i: int| 0 <= i < lf.len() implies ((#[trigger] lf[i]).last_line <==> i
        == lf.len() - 1) by {
        assert(lines0[i].last_line == false);
    }
}

/// Lines reconstructed along a path of a sound paragraph graph, the
/// final flag raised, form a correct multi-line paragraph layout.
#[verifier::rlimit(100)]
#[verifier::spinoff_prover]
proof fn lemma_assemble_paragraph<S: Shaper>(
    s: S,
    text: Seq<u8>,
    ps: int,
    pe: int,
    goal: u32,
    vars: Seq<Variation>,
    kashida: bool,
    rel: Seq<usize>,
    bps: Seq<usize>,
    n: usize,
    p: Seq<usize>,
    lines0: Seq<LineData>,
    lf: Seq<LineData>,
)
    requires
        0 <= ps <= pe <= text.len(),
        rel == line_breaks_of(text.subrange(ps, pe)),
        rel.len() >= 1,
        rel[0] == 0,
        text.subrange(ps, pe).len() > 0 ==> rel[rel.len() - 1] == text.subrange(ps, pe).len(),
        forall|k: int| 0 <= k < rel.len() ==> #[trigger] rel[k] <= pe - ps,
        forall|k: int| 0 < k < rel.len() ==> rel[k - 1] < #[trigger] rel[k],
        n == rel.len(),
        bps.len() == n,
        forall|k: int| 0 <= k < n ==> #[trigger] bps[k] == rel[k] + ps,
        gathered_line_facts(s, text, bps, n, goal, vars, kashida, p, lines0),
        p.len() == lines0.len() + 1,
        p[0] == 0,
        p[p.len() - 1] == n - 1,
        lines0.len() >= 1,
        lf.len() == lines0.len(),
        forall|i: int| 0 <= i < lines0.len() - 1 ==> #[trigger] lf[i] == lines0[i],
        ({
            let last = lines0.len() - 1;
            &&& lf[last].start_bp == lines0[last].start_bp
            &&& lf[last].end_bp == lines0[last].end_bp
            &&& lf[last].variations@ == lines0[last].variations@
            &&& lf[last].kashida_count == lines0[last].kashida_count
            &&& lf[last].last_line == true
        }),
        spec_single_line_accepts(s, text, ps, pe, goal, vars) is None,
    ensures
        paragraph_lines_ok(s, text, ps, pe, goal, vars, kashida, lf),
{
    reveal(paragraph_lines_ok);
    lemma_paragraph_spans(s, text, ps, pe, goal, vars, kashida, rel, bps, n, p, lines0, lf);
    lemma_paragraph_line_facts(s, text, ps, pe, goal, vars, kashida, rel, bps, n, p, lines0, lf);
}

/// Lay one paragraph out, retrying with kashida augmentation when the
/// plain layout fails.
fn layout_paragraph<S: Shaper>(
    shaper: &mut S,
    text: &[u8],
    para_start: usize,
    para_end: usize,
    goal_width: u32,
    variations: &Vec<Variation>,
    policy: &CostPolicy,
) -> (r: Result<Vec<LineData>, ParagraphError>)
    requires
        old(shaper).wf(),
        vars_wf(variations@),
        1 <= variations@.len() <= 0x1000_0000,
        policy.wf(),
        para_start <= para_end <= text@.len(),
        text@.len() < NODE_CAP,
    ensures
        *final(shaper) == *old(shaper),
        r matches Ok(lines) ==> spec_paragraph_accepted(
            *old(shaper),
            text@,
            para_start as int,
            para_end as int,
            goal_width,
            variations@,
            lines@,
        ),
        r is Ok ==> !spec_paragraph_fails_both(
            *old(shaper),
            text@,
            para_start as int,
            para_end as int,
            goal_width,
            variations@,
        ),
        r is Err ==> spec_paragraph_fails_both(
            *old(shaper),
            text@,
            para_start as int,
            para_end as int,
            goal_width,
            variations@,
        ),
{
    proof {
        reveal(spec_paragraph_accepted);
        reveal(spec_paragraph_fails_both);
    }
    let first = paragraph_line_break(
        shaper,
        text,
        para_start,
        para_end,
        goal_width,
        variations,
        policy,
        false,
    );
    match first {
        Ok(lines) => Ok(lines),
        Err(_) => paragraph_line_break(
            shaper,
            text,
            para_start,
            para_end,
            goal_width,
            variations,
            policy,
            true,
        ),
    }
}

/// No blank-line paragraph separator begins inside the line's span: a
/// line never touches two paragraphs, nor a separator's first byte.
pub open spec fn line_within_one_paragraph(text: Seq<u8>, l: LineData) -> bool {
    forall|q: int| l.start_bp <= q < l.end_bp ==> !spec_separator_at(text, q)
}

/// Accepting one more paragraph extends a page continuation: whatever
/// lays the remaining text out, prefixed by this paragraph's lines,
/// lays the text from the old frontier out.
#[verifier::rlimit(100)]
#[verifier::spinoff_prover]
proof fn lemma_page_extend<S: Shaper>(
    s: S,
    text: Seq<u8>,
    cur: int,
    pe: int,
    goal: u32,
    vars: Seq<Variation>,
    out0: Seq<LineData>,
    ls: Seq<LineData>,
)
    requires
        spec_para_end(text, cur) == pe,
        spec_separator_at(text, pe),
        cur <= pe,
        spec_paragraph_accepted(s, text, cur, pe, goal, vars, ls),
        forall|rest: Seq<LineData>|
            #[trigger] page_lines_ok(s, text, cur, goal, vars, rest) ==> page_lines_ok(
                s,
                text,
                0,
                goal,
                vars,
                out0 + rest,
            ),
    ensures
        forall|rest: Seq<LineData>|
            #[trigger] page_lines_ok(s, text, pe + 2, goal, vars, rest) ==> page_lines_ok(
                s,
                text,
                0,
                goal,
                vars,
                (out0 + ls) + rest,
            ),
{
    reveal(page_lines_ok);
    assert forall|rest: Seq<LineData>|
        #[trigger] page_lines_ok(s, text, pe + 2, goal, vars, rest) implies page_lines_ok(
        s,
        text,
        0,
        goal,
        vars,
        (out0 + ls) + rest,
    ) by {
        let all = ls + rest;
        assert(all.take(ls.len() as int) =~= ls);
        assert(all.skip(ls.len() as int) =~= rest);
        assert(spec_paragraph_accepted(s, text, cur, pe, goal, vars, all.take(ls.len() as int)));
        assert(page_lines_ok(s, text, cur, goal, vars, all));
        assert(page_lines_ok(s, text, 0, goal, vars, out0 + all));
        assert((out0 + ls) + rest =~= out0 + all);
    }
}

/// Accepting the final paragraph closes the page: the accumulated lines
/// lay the whole text out.
#[verifier::rlimit(100)]
#[verifier::spinoff_prover]
proof fn lemma_page_close<S: Shaper>(
    s: S,
    text: Seq<u8>,
    cur: int,
    goal: u32,
    vars: Seq<Variation>,
    out0: Seq<LineData>,
    ls: Seq<LineData>,
)
    requires
        0 <= cur <= text.len(),
        spec_para_end(text, cur) == text.len(),
        !spec_separator_at(text, text.len() as int),
        spec_paragraph_accepted(s, text, cur, text.len() as int, goal, vars, ls),
        forall|rest: Seq<LineData>|
            #[trigger] page_lines_ok(s, text, cur, goal, vars, rest) ==> page_lines_ok(
                s,
                text,
                0,
                goal,
                vars,
                out0 + rest,
            ),
    ensures
        page_lines_ok(s, text, 0, goal, vars, out0 + ls),
{
    reveal(page_lines_ok);
    assert(ls.take(ls.len() as int) =~= ls);
    assert(page_lines_ok(s, text, cur, goal, vars, ls));
}

/// Lay a whole text out: paragraphs are split on blank-line separators
/// and laid out in order, each first without and then, on failure, with
/// kashida augmentation; one failing paragraph fails the whole call.
///
/// On success the returned lines appear in text order with
/// non-overlapping spans, each paragraph tiled exactly (see
/// `paragraph_lines_ok` and `page_lines_ok`), and the final line
/// flagged as a last line; failure comes exactly when some paragraph
/// can be laid out neither plainly nor with elongation.
#[verifier::rlimit(100)]
pub fn line_break<S: Shaper>(
    shaper: &mut S,
    text: &[u8],
    goal_width: u32,
    variations: &Vec<Variation>,
    policy: &CostPolicy,
) -> (r: Result<Vec<LineData>, ParagraphError>)
    requires
        old(shaper).wf(),
        vars_wf(variations@),
        1 <= variations@.len() <= 0x1000_0000,
        policy.wf(),
        text@.len() < NODE_CAP,
    ensures
        *final(shaper) == *old(shaper),
        r matches Ok(lines) ==> forall|i: int|
            0 <= i < lines@.len() ==> (#[trigger] lines@[i]).start_bp <= lines@[i].end_bp
                <= text@.len() && vars_wf(lines@[i].variations@) && lines@[i].variations@.len()
                == variations@.len(),
        r matches Ok(lines) ==> forall|i: int|
            0 < i < lines@.len() ==> lines@[i - 1].end_bp <= (#[trigger] lines@[i]).start_bp,
        r matches Ok(lines) ==> lines@.len() >= 1 ==> lines@[lines@.len() - 1].last_line,
        r matches Ok(lines) ==> forall|i: int|
            0 <= i < lines@.len() ==> line_within_one_paragraph(text@, #[trigger] lines@[i]),
        r matches Ok(lines) ==> page_lines_ok(
            *old(shaper),
            text@,
            0,
            goal_width,
            variations@,
            lines@,
        ),
        r is Err <==> spec_some_paragraph_fails(*old(shaper), text@, 0, goal_width, variations@),
{
    let ghost s0 = *shaper;
    let mut out: Vec<LineData> = Vec::new();
    let mut cur: usize = 0;
    proof {
        assert forall|rest: Seq<LineData>|
            #[trigger] page_lines_ok(s0, text@, 0, goal_width, variations@, rest) implies
            page_lines_ok(s0, text@, 0, goal_width, variations@, out@ + rest) by {
            assert(out@ + rest =~= rest);
        }
    }
    loop
        invariant
            shaper.wf(),
            *shaper == s0,
            s0 == *old(shaper),
            vars_wf(variations@),
            1 <= variations@.len() <= 0x1000_0000,
            policy.wf(),
            text@.len() < NODE_CAP,
            cur <= text@.len(),
            forall|i: int|
                0 <= i < out@.len() ==> (#[trigger] out@[i]).start_bp <= out@[i].end_bp <= cur
                    && vars_wf(out@[i].variations@) && out@[i].variations@.len()
                    == variations@.len(),
            forall|i: int|
                0 < i < out@.len() ==> out@[i - 1].end_bp <= (#[trigger] out@[i]).start_bp,
            out@.len() >= 1 ==> out@[out@.len() - 1].last_line,
            forall|i: int|
                0 <= i < out@.len() ==> line_within_one_paragraph(text@, #[trigger] out@[i]),
            spec_some_paragraph_fails(s0, text@, 0, goal_width, variations@)
                == spec_some_paragraph_fails(s0, text@, cur as int, goal_width, variations@),
            forall|rest: Seq<LineData>|
                #[trigger] page_lines_ok(s0, text@, cur as int, goal_width, variations@, rest)
                    ==> page_lines_ok(s0, text@, 0, goal_width, variations@, out@ + rest),
        decreases text@.len() - cur,
    {
        proof {
            reveal(spec_paragraph_accepted);
            reveal(paragraph_lines_ok);
        }
        let ghost out0 = out@;
        let sep = find_separator(text, cur);
        match sep {
            Some(p) => {
                proof {
                    lemma_para_end_found(text@, cur as int, p as int);
                }
                let attempt = layout_paragraph(
                    shaper,
                    text,
                    cur,
                    p,
                    goal_width,
                    variations,
                    policy,
                );
                let mut lines = match attempt {
                    Ok(l) => l,
                    Err(e) => {
                        proof {
                            reveal(spec_some_paragraph_fails);
                            assert(spec_some_paragraph_fails(
                                s0,
                                text@,
                                cur as int,
                                goal_width,
                                variations@,
                            ));
                        }
                        return Err(e);
                    },
                };
                let ghost ls = lines@;
                out.append(&mut lines);
                proof {
                    lemma_extend_lines(text@, out0, ls, cur as int, p as int, out@);
                    reveal(spec_some_paragraph_fails);
                    assert(spec_some_paragraph_fails(s0, text@, cur as int, goal_width, variations@)
                        == spec_some_paragraph_fails(
                        s0,
                        text@,
                        p as int + 2,
                        goal_width,
                        variations@,
                    ));
                    lemma_page_extend(
                        s0,
                        text@,
                        cur as int,
                        p as int,
                        goal_width,
                        variations@,
                        out0,
                        ls,
                    );
                    assert(out@ == out0 + ls);
                }
                cur = p + 2;
            },
            None => {
                let end = text.len();
                proof {
                    lemma_para_end_none(text@, cur as int);
                }
                let attempt = layout_paragraph(
                    shaper,
                    text,
                    cur,
                    end,
                    goal_width,
                    variations,
                    policy,
                );
                let mut lines = match attempt {
                    Ok(l) => l,
                    Err(e) => {
                        proof {
                            reveal(spec_some_paragraph_fails);
                            assert(spec_some_paragraph_fails(
                                s0,
                                text@,
                                cur as int,
                                goal_width,
                                variations@,
                            ));
                        }
                        return Err(e);
                    },
                };
                let ghost ls = lines@;
                out.append(&mut lines);
                proof {
                    lemma_extend_lines(text@, out0, ls, cur as int, end as int, out@);
                    reveal(spec_some_paragraph_fails);
                    assert(!spec_some_paragraph_fails(
                        s0,
                        text@,
                        cur as int,
                        goal_width,
                        variations@,
                    ));
                    lemma_page_close(s0, text@, cur as int, goal_width, variations@, out0, ls);
                    assert(out@ == out0 + ls);
                }
                return Ok(out);
            },
        }
    }
}

/// Lines that tile a paragraph starting at the old frontier extend an
/// ordered line list without breaking its ordering or flag shape.
proof fn lemma_extend_lines(
    text: Seq<u8>,
    out0: Seq<LineData>,
    ls: Seq<LineData>,
    ps: int,
    pe: int,
    joined: Seq<LineData>,
)
    requires
        joined == out0 + ls,
        ps <= pe,
        forall|q: int| ps <= q < pe ==> !spec_separator_at(text, q),
        forall|i: int| 0 <= i < out0.len() ==> line_within_one_paragraph(text, #[trigger] out0[i]),
        forall|i: int|
            0 <= i < out0.len() ==> (#[trigger] out0[i]).start_bp <= out0[i].end_bp <= ps,
        forall|i: int| 0 < i < out0.len() ==> out0[i - 1].end_bp <= (#[trigger] out0[i]).start_bp,
        out0.len() >= 1 ==> out0[out0.len() - 1].last_line,
        forall|i: int| 0 <= i < ls.len() ==> ps <= (#[trigger] ls[i]).start_bp <= ls[i].end_bp <= pe,
        forall|i: int| 0 < i < ls.len() ==> (#[trigger] ls[i]).start_bp == ls[i - 1].end_bp,
        forall|i: int| 0 <= i < ls.len() ==> ((#[trigger] ls[i]).last_line <==> i == ls.len() - 1),
    ensures
        forall|i: int|
            0 <= i < joined.len() ==> (#[trigger] joined[i]).start_bp <= joined[i].end_bp <= pe,
        forall|i: int|
            0 < i < joined.len() ==> joined[i - 1].end_bp <= (#[trigger] joined[i]).start_bp,
        joined.len() >= 1 ==> joined[joined.len() - 1].last_line,
        forall|i: int| 0 <= i < joined.len() ==> line_within_one_paragraph(text, #[trigger] joined[i]),
{
    assert forall|i: int| 0 <= i < joined.len() implies (#[trigger] joined[i]).start_bp
        <= joined[i].end_bp <= pe by {
        if i < out0.len() {
            assert(joined[i] == out0[i]);
        } else {
            assert(joined[i] == ls[i - out0.len()]);
        }
    }
    assert forall|i: int| 0 < i < joined.len() implies joined[i - 1].end_bp
        <= (#[trigger] joined[i]).start_bp by {
        if i < out0.len() {
            assert(joined[i] == out0[i] && joined[i - 1] == out0[i - 1]);
        } else if i == out0.len() {
            assert(joined[i] == ls[0]);
            assert(joined[i - 1] == out0[i - 1]);
        } else {
            assert(joined[i] == ls[i - out0.len()] && joined[i - 1] == ls[i - out0.len() - 1]);
        }
    }
    if joined.len() >= 1 {
        if ls.len() >= 1 {
            assert(joined[joined.len() - 1] == ls[ls.len() - 1]);
        } else {
            assert(joined =~= out0);
        }
    }
    assert forall|i: int| 0 <= i < joined.len() implies line_within_one_paragraph(
        text,
        #[trigger] joined[i],
    ) by {
        if i < out0.len() {
            assert(joined[i] == out0[i]);
            assert(line_within_one_paragraph(text, out0[i]));
        } else {
            let l = ls[i - out0.len()];
            assert(joined[i] == l);
            assert forall|q: int| l.start_bp <= q < l.end_bp implies !spec_separator_at(
                text,
                q,
            ) by {
                assert(ps <= q < pe);
            }
        }
    }
}

} // verus!
