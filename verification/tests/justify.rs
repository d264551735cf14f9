//! End-to-end tests of the justification engine over the linear model
//! shaper, and unit tests of the cost formula and width classifier.

use nun::cost::{COST_CAP, CostPolicy, sat_pow};
use nun::graph::{BreakEdge, BreakGraph, select_path};
use nun::logic::{LineData, LineErrorKind, ParagraphError, Variation, VariationKind};
use nun::para::line_break;
use nun::shaper::{LinearShaper, Shaper};
use nun::solve::{WidthClass, classify_width, find_optimal_line, find_optimal_line_1_axis};

fn axis(min: i64, max: i64, best: i64) -> Variation {
    Variation::new_axis(*b"wdth", min, max, best)
}

#[test]
fn solved_value_stays_in_range_and_hits_goal() {
    let mut shaper = LinearShaper::new(0, 1000);
    let text = b"abcdefgh";
    let vars = vec![axis(100, 900, 500)];
    let locs: Vec<usize> = Vec::new();
    let r = find_optimal_line_1_axis(&mut shaper, text, 0, 8, 4000, 0, &vars, &locs, 0);
    let ld = r.expect("span should fit");
    assert_eq!(ld.start_bp, 0);
    assert_eq!(ld.end_bp, 8);
    assert_eq!(ld.kashida_count, 0);
    assert!(!ld.last_line);
    let v = ld.variations[0];
    assert!(v.min <= v.current_value && v.current_value <= v.max);
    // 8 bytes at 500 units each is exactly the goal.
    assert_eq!(v.current_value, 500);
}

#[test]
fn solving_is_deterministic() {
    let text = b"abcdefgh";
    let vars = vec![axis(100, 900, 137)];
    let locs: Vec<usize> = Vec::new();
    let mut s1 = LinearShaper::new(3, 997);
    let mut s2 = LinearShaper::new(3, 997);
    let r1 = find_optimal_line_1_axis(&mut s1, text, 0, 8, 3333, 0, &vars, &locs, 0);
    let r2 = find_optimal_line_1_axis(&mut s2, text, 0, 8, 3333, 0, &vars, &locs, 0);
    match (r1, r2) {
        (Ok(a), Ok(b)) => {
            assert_eq!(a.start_bp, b.start_bp);
            assert_eq!(a.end_bp, b.end_bp);
            assert_eq!(a.kashida_count, b.kashida_count);
            assert_eq!(a.variations.len(), b.variations.len());
            for (x, y) in a.variations.iter().zip(b.variations.iter()) {
                assert_eq!(x.current_value, y.current_value);
            }
        }
        (Err(a), Err(b)) => {
            assert!(matches!(
                (a.kind, b.kind),
                (LineErrorKind::TooLoose, LineErrorKind::TooLoose)
                    | (LineErrorKind::TooTight, LineErrorKind::TooTight)
            ));
        }
        _ => panic!("the two solves disagree"),
    }
}

#[test]
fn fit_is_within_tolerance() {
    let mut shaper = LinearShaper::new(0, 1000);
    let text = b"abcdefgh";
    let vars = vec![axis(100, 900, 500)];
    let locs: Vec<usize> = Vec::new();
    let goal = 4003;
    let r = find_optimal_line_1_axis(&mut shaper, text, 0, 8, goal, 0, &vars, &locs, 0);
    let ld = r.expect("span should fit");
    let w = shaper.shape_width(text, &ld.variations);
    assert!((w as i64 - goal as i64).abs() <= 5, "width {w} is off goal {goal}");
}

#[test]
fn too_tight_reports_most_compressed_value() {
    let mut shaper = LinearShaper::new(0, 1000);
    let text = b"abcdefgh";
    let vars = vec![axis(100, 900, 500)];
    let locs: Vec<usize> = Vec::new();
    let e = find_optimal_line_1_axis(&mut shaper, text, 0, 8, 100, 0, &vars, &locs, 0)
        .expect_err("goal is narrower than the tightest shape");
    assert!(matches!(e.kind, LineErrorKind::TooTight));
    assert_eq!(e.message(), "Line is too tight.");
    assert_eq!(e.variations[0].current_value, 100);
}

#[test]
fn too_loose_reports_loosest_value() {
    let mut shaper = LinearShaper::new(0, 1000);
    let text = b"abcdefgh";
    let vars = vec![axis(100, 900, 500)];
    let locs: Vec<usize> = Vec::new();
    let e = find_optimal_line_1_axis(&mut shaper, text, 0, 8, 99_999, 0, &vars, &locs, 0)
        .expect_err("goal is wider than the loosest shape");
    assert!(matches!(e.kind, LineErrorKind::TooLoose));
    assert_eq!(e.message(), "Line is too loose.");
    assert_eq!(e.variations[0].current_value, 900);
}

#[test]
fn plateau_settles_on_best_effort() {
    // Advances quantize to multiples of 16, and the goal sits between
    // two of them, so the bisection stalls and accepts the nearest
    // achievable width instead of failing.
    let mut shaper = LinearShaper::new(100, 100);
    let text = b"abcdefghijklmnop";
    let vars = vec![axis(0, 1000, 0)];
    let locs: Vec<usize> = Vec::new();
    let goal = 2007;
    let r = find_optimal_line_1_axis(&mut shaper, text, 0, 16, goal, 0, &vars, &locs, 0);
    let ld = r.expect("a stalled bisection still settles");
    let v = ld.variations[0];
    assert!(v.min <= v.current_value && v.current_value <= v.max);
    let w = shaper.shape_width(text, &ld.variations);
    // The nearest representable widths are 2000 and 2016: best effort,
    // outside the tolerance band.
    assert!(w == 2000 || w == 2016);
}

#[test]
fn hand_built_graph_selects_known_optimum() {
    let line = |from: usize, to: usize| LineData::new(from, to, Vec::new(), 0);
    let g = BreakGraph {
        n: 4,
        edges: vec![
            BreakEdge { from: 0, to: 1, cost: 5, line: line(0, 1) },
            BreakEdge { from: 1, to: 3, cost: 1, line: line(1, 3) },
            BreakEdge { from: 0, to: 2, cost: 2, line: line(0, 2) },
            BreakEdge { from: 2, to: 3, cost: 2, line: line(2, 3) },
            BreakEdge { from: 0, to: 3, cost: 10, line: line(0, 3) },
        ],
    };
    let sel = select_path(&g, 0, 3).expect("a path exists");
    assert_eq!(sel.total, 4, "the optimum is 0 -> 2 -> 3");
    assert_eq!(sel.nodes, vec![0, 2, 3]);
    assert_eq!(sel.lines.len(), 2);
    assert_eq!((sel.lines[0].start_bp, sel.lines[0].end_bp), (0, 2));
    assert_eq!((sel.lines[1].start_bp, sel.lines[1].end_bp), (2, 3));
    // Any alternative path costs at least as much.
    assert!(5 + 1 >= sel.total);
    assert!(10 >= sel.total);
}

#[test]
fn hand_built_graph_without_path_yields_none() {
    let g = BreakGraph {
        n: 3,
        edges: vec![BreakEdge { from: 0, to: 1, cost: 1, line: LineData::new(0, 1, Vec::new(), 0) }],
    };
    assert!(select_path(&g, 0, 2).is_none());
}

#[test]
fn short_paragraph_accepted_as_loose_single_line() {
    // Scenario: a brief phrase with a generous goal width comes back as
    // one under-filled line at the loosest achievable values.
    let mut shaper = LinearShaper::new(10, 1000);
    let text = b"hi world";
    let vars = vec![axis(0, 1000, 500)];
    let policy = CostPolicy::standard();
    let lines = line_break(&mut shaper, text, 50_000, &vars, &policy).expect("accepted as-is");
    assert_eq!(lines.len(), 1);
    assert_eq!(lines[0].start_bp, 0);
    assert_eq!(lines[0].end_bp, 8);
    assert!(lines[0].last_line);
    assert_eq!(lines[0].kashida_count, 0);
    assert_eq!(lines[0].variations[0].current_value, 1000);
}

#[test]
fn long_paragraph_tiles_into_three_or_more_lines() {
    // Scenario: one paragraph, goal narrow enough that at least three
    // lines are needed; the line spans tile the paragraph exactly.
    let mut shaper = LinearShaper::new(0, 1000);
    let text = b"aaaa bbbb cccc dddd";
    let vars = vec![axis(100, 1000, 100)];
    let policy = CostPolicy::standard();
    let lines = line_break(&mut shaper, text, 600, &vars, &policy).expect("multi-line layout");
    assert!(lines.len() >= 3, "got {} lines", lines.len());
    assert_eq!(lines[0].start_bp, 0);
    assert_eq!(lines[lines.len() - 1].end_bp, text.len());
    for i in 1..lines.len() {
        assert_eq!(lines[i].start_bp, lines[i - 1].end_bp, "lines must tile");
    }
    for (i, l) in lines.iter().enumerate() {
        assert_eq!(l.last_line, i == lines.len() - 1);
        let v = l.variations[0];
        assert!(v.min <= v.current_value && v.current_value <= v.max);
    }
}

#[test]
fn every_selected_line_refits_identically() {
    // Each line the selector returns is a fit-class edge: re-running
    // the solver on the line's own span settles the same values.
    let mut shaper = LinearShaper::new(0, 1000);
    let text = b"aaaa bbbb cccc dddd";
    let vars = vec![axis(100, 1000, 100)];
    let policy = CostPolicy::standard();
    let lines = line_break(&mut shaper, text, 600, &vars, &policy).expect("multi-line layout");
    assert!(lines.len() >= 2);
    for l in &lines {
        let again = find_optimal_line(
            &mut shaper,
            text,
            l.start_bp,
            l.end_bp,
            600,
            &vars,
            false,
        )
        .expect("a selected line must refit");
        assert_eq!(again.kashida_count, l.kashida_count);
        for (x, y) in again.variations.iter().zip(l.variations.iter()) {
            assert_eq!(x.current_value, y.current_value);
        }
    }
}

#[test]
fn page_layout_is_deterministic() {
    let text = b"aaaa bbbb cccc dddd";
    let vars = vec![axis(100, 1000, 100)];
    let policy = CostPolicy::standard();
    let mut s1 = LinearShaper::new(0, 1000);
    let mut s2 = LinearShaper::new(0, 1000);
    let a = line_break(&mut s1, text, 600, &vars, &policy).expect("layout succeeds");
    let b = line_break(&mut s2, text, 600, &vars, &policy).expect("layout succeeds");
    assert_eq!(a.len(), b.len());
    for (x, y) in a.iter().zip(b.iter()) {
        assert_eq!((x.start_bp, x.end_bp, x.kashida_count, x.last_line), (
            y.start_bp,
            y.end_bp,
            y.kashida_count,
            y.last_line,
        ));
        for (u, v) in x.variations.iter().zip(y.variations.iter()) {
            assert_eq!(u.current_value, v.current_value);
        }
    }
}

#[test]
fn exact_fit_needs_no_kashidas_even_when_enabled() {
    // Scenario: the span fits at achievable values and the text offers
    // no insertion points, so the augmenter settles on zero glyphs.
    let mut shaper = LinearShaper::new(0, 1000);
    let text = b"abcd efgh";
    let vars = vec![axis(100, 1000, 500)];
    let r = find_optimal_line(&mut shaper, text, 0, 9, 4500, &vars, true);
    let ld = r.expect("span fits");
    assert_eq!(ld.kashida_count, 0);
}

#[test]
fn impossible_paragraph_fails_whole_layout() {
    // Scenario: every span of the paragraph is over-wide at its
    // tightest, so no line sequence exists and no partial output is
    // produced.
    let mut shaper = LinearShaper::new(1000, 0);
    let text = b"aa bb";
    let vars = vec![axis(0, 1000, 500)];
    let policy = CostPolicy::standard();
    let e = line_break(&mut shaper, text, 10, &vars, &policy)
        .expect_err("nothing can be laid out");
    assert!(matches!(e, ParagraphError::UnableToLayout));
    assert_eq!(e.message(), "Unable to layout paragraph.");
}

#[test]
fn elongation_rescues_an_underfilled_arabic_span() {
    // With a constant-advance shaper the span is too loose on its own;
    // inserted kashidas add bytes, hence width, until the goal fits.
    let text = "بسم".as_bytes();
    let vars = vec![axis(0, 1000, 500)];
    let mut shaper = LinearShaper::new(100, 0);
    let plain = find_optimal_line(&mut shaper, text, 0, text.len(), 800, &vars, false);
    let e = plain.expect_err("six bytes at 100 units cannot reach 800");
    assert!(matches!(e.kind, LineErrorKind::TooLoose));
    let augmented = find_optimal_line(&mut shaper, text, 0, text.len(), 800, &vars, true);
    let ld = augmented.expect("kashida insertion widens the span to the goal");
    assert_eq!(ld.kashida_count, 1, "one two-byte tatweel reaches 800 exactly");
}

#[test]
fn surrounding_whitespace_is_trimmed_before_measuring() {
    // The span includes whitespace padding; only the trimmed text is
    // measured, so a goal sized for the bare text fits.
    let mut shaper = LinearShaper::new(100, 0);
    let text = b"  ab  ";
    let vars = vec![axis(0, 1000, 500)];
    let locs: Vec<usize> = Vec::new();
    let r = find_optimal_line_1_axis(&mut shaper, text, 0, 6, 200, 0, &vars, &locs, 0);
    assert!(r.is_ok(), "two trimmed bytes at 100 units match the goal");
}

#[test]
fn verse_marker_cannot_start_a_line() {
    // Identical layouts except that in one text the only usable break
    // target begins with the verse-end marker, which suppresses the
    // edge and leaves no path.
    let vars = vec![axis(100, 1000, 100)];
    let policy = CostPolicy::standard();

    let plain = "aa mb".as_bytes();
    let mut s1 = LinearShaper::new(0, 1000);
    let ok = line_break(&mut s1, plain, 250, &vars, &policy);
    assert!(ok.is_ok(), "without the marker a two-line layout exists");

    let marked = "aa \u{06dd}b".as_bytes();
    let mut s2 = LinearShaper::new(0, 1000);
    let failed = line_break(&mut s2, marked, 250, &vars, &policy);
    assert!(failed.is_err(), "a line must not start with the verse-end marker");
}

#[test]
fn blank_line_splits_paragraphs() {
    let mut shaper = LinearShaper::new(10, 1000);
    let text = b"aaaa\n\nbbbb";
    let vars = vec![axis(0, 1000, 500)];
    let policy = CostPolicy::standard();
    let lines = line_break(&mut shaper, text, 50_000, &vars, &policy).expect("both accepted");
    assert_eq!(lines.len(), 2);
    assert_eq!((lines[0].start_bp, lines[0].end_bp), (0, 4));
    assert_eq!((lines[1].start_bp, lines[1].end_bp), (6, 10));
    assert!(lines[0].last_line && lines[1].last_line);
}

#[test]
fn cost_formula_matches_by_hand_values() {
    let policy = CostPolicy::standard();
    let v = Variation {
        kind: VariationKind::Axis(*b"wdth"),
        current_value: 700,
        min: 0,
        max: 1000,
        best: 500,
    };
    // Deviation 200 over a range of 1000, scaled by 100: 20; priority
    // zero raises it to the power two.
    assert_eq!(v.cost(0, &policy), 400);
    assert_eq!(v.cost(1, &policy), 8000);

    let line = LineData::new(0, 0, vec![v], 3);
    // Kashida term: three glyphs over one axis cost 3^(1+2) = 27.
    assert_eq!(line.cost(&policy), 27 + 400);

    let rest = LineData::new(0, 0, vec![axis(0, 1000, 500)], 0);
    assert_eq!(rest.cost(&policy), 0, "rest values and no kashidas cost nothing");

    // The formula is a policy: a different scale and exponent give a
    // different, predictable cost for the same deviation.
    let mild = CostPolicy { deviation_scale: 10, exponent_offset: 1, kashida_weight: 0 };
    assert_eq!(v.cost(0, &mild), 2, "deviation 200 over 1000 scaled by 10, power one");
}

#[test]
fn saturating_power_caps_at_max() {
    assert_eq!(sat_pow(2, 3), 8);
    assert_eq!(sat_pow(0, 0), 1);
    assert_eq!(sat_pow(7, 0), 1);
    assert_eq!(sat_pow(u64::MAX, 2), u64::MAX);
    assert_eq!(sat_pow(1 << 32, 2), u64::MAX);
    assert!(COST_CAP < u64::MAX);
}

#[test]
fn width_classifier_tolerance_band() {
    assert!(matches!(classify_width(100, 100), WidthClass::Within));
    assert!(matches!(classify_width(95, 100), WidthClass::Within));
    assert!(matches!(classify_width(104, 100), WidthClass::Within));
    assert!(matches!(classify_width(94, 100), WidthClass::Under));
    assert!(matches!(classify_width(105, 100), WidthClass::Over));
    // Saturated ends of the band.
    assert!(matches!(classify_width(3, 0), WidthClass::Within));
    assert!(matches!(classify_width(u32::MAX, u32::MAX), WidthClass::Within));
    assert!(matches!(classify_width(u32::MAX - 1, u32::MAX), WidthClass::Within));
}

#[test]
fn linear_shaper_is_monotone_and_repeatable() {
    let mut shaper = LinearShaper::new(5, 1000);
    let text = b"abcdef";
    let narrow = vec![axis(0, 1000, 200)];
    let mut wide_v = narrow.clone();
    wide_v[0].current_value = 900;
    let w1 = shaper.shape_width(text, &narrow);
    let w2 = shaper.shape_width(text, &narrow);
    let w3 = shaper.shape_width(text, &wide_v);
    assert_eq!(w1, w2);
    assert!(w3 > w1);
    assert_eq!(shaper.shape_width(&[], &narrow), 0);
}

#[test]
fn spacing_variation_has_designed_range() {
    let v = Variation::new_spacing();
    assert!(matches!(v.kind, VariationKind::Spacing));
    assert_eq!((v.min, v.max, v.best, v.current_value), (250, 1250, 1000, 1000));
}
