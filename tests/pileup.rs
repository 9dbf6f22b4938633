use bam_ambig::ambig::{category_series, report_positions, Ambig};
use bam_ambig::category::Category;
use bam_ambig::column::{Column, Observation, QueryBase};
use bam_ambig::config::{FilterConfig, Fraction};
use bam_ambig::depth::Depth;
use bam_ambig::filter::{ratio_outside, rounded_proportion, PositionRecord};
use bam_ambig::pileup::{Pileup, StrandCount};

fn base(b: u8, reverse: bool) -> Observation {
    Observation {
        reverse,
        has_sequence: true,
        is_del: false,
        is_refskip: false,
        query: Some(QueryBase { base: b, quality: 40 }),
        map_quality: 60,
        is_insertion: false,
    }
}

fn deletion(reverse: bool) -> Observation {
    Observation {
        reverse,
        has_sequence: true,
        is_del: true,
        is_refskip: false,
        query: None,
        map_quality: 60,
        is_insertion: false,
    }
}

fn with_insertion(mut o: Observation) -> Observation {
    o.is_insertion = true;
    o
}

fn frac(num: u32, den: u32) -> Fraction {
    Fraction { num, den }
}

fn config(ambiguity: Fraction, strand_bias: Fraction, include_indels: bool) -> FilterConfig {
    FilterConfig {
        ambiguity_threshold: ambiguity,
        strand_bias_threshold: strand_bias,
        base_quality_floor: 1,
        map_quality_floor: 1,
        depth_floor: 1,
        minor_depth_floor: 1,
        include_indels,
    }
}

fn column(pos: u32, observations: Vec<Observation>) -> Column {
    Column { pos, depth: observations.len() as u32, observations }
}

/// Six forward-strand reads over positions 4 to 13 (0-based), as columns 4, 5 and 13:
/// three reads show A at 4 and three G; at 13 one read has a deletion, two carry an
/// insertion after a G, and three show a plain G.
fn fixture() -> Vec<Column> {
    let mut c4 = vec![base(b'G', false), base(b'G', false), base(b'G', false)];
    c4.extend(vec![base(b'A', false), base(b'A', false), base(b'A', false)]);
    let c5 = vec![base(b'G', false); 6];
    let mut c13 = vec![deletion(false)];
    c13.push(with_insertion(base(b'G', false)));
    c13.push(with_insertion(base(b'G', false)));
    c13.extend(vec![base(b'G', false); 3]);
    vec![column(4, c4), column(5, c5), column(13, c13)]
}

fn run<'a>(start: u32, stop: u32, no_indel: bool, threshold: Fraction) -> Ambig<'a> {
    Ambig::new(
        "",
        Some("chr1"),
        Some(start),
        Some(stop),
        no_indel,
        threshold,
        false,
        "".to_string(),
        1,
        1,
        1,
        1,
        frac(0, 1),
        false,
    )
}

fn record(position: u32, proportions: Vec<(Category, u32)>) -> PositionRecord {
    PositionRecord { position, proportions }
}

fn tally(cfg: &FilterConfig, obs: Vec<Observation>) -> Pileup {
    cfg.accumulate(&column(0, obs))
}

#[test]
fn test_pileup_below_threshold() {
    let ambig = run(4, 6, true, frac(5, 10));
    assert_eq!(ambig.produce_pileup(&fixture()), vec![]);
}

#[test]
fn test_pileup_above_threshold() {
    let ambig = run(4, 6, true, frac(2, 10));
    let expected = vec![record(5, vec![(Category::A, 5000), (Category::G, 5000)])];
    assert_eq!(ambig.produce_pileup(&fixture()), expected);
}

#[test]
fn test_pileup_indel() {
    let ambig = run(13, 15, false, frac(1, 10));
    let expected = vec![record(
        14,
        vec![(Category::G, 6250), (Category::Deletion, 1250), (Category::Insertion, 2500)],
    )];
    assert_eq!(ambig.produce_pileup(&fixture()), expected);
}

#[test]
fn test_pileup_no_indels() {
    let ambig = run(13, 15, true, frac(1, 10));
    assert_eq!(ambig.produce_pileup(&fixture()), vec![]);
}

#[test]
fn test_process_pileup() {
    let depth = Depth::new(
        "testing/depth_test.bam",
        Some("chr1"),
        Some(1),
        Some(15),
        "testing/depth_test".to_string(),
    );
    let mut cols = Vec::new();
    for pos in 4u32..14 {
        cols.push((pos, if pos < 11 { 6 } else { 5 }));
    }
    cols.push((20, 3));
    let (x, y) = depth.process_pileup(&cols);
    assert_eq!(x, vec![5, 6, 7, 8, 9, 10, 11, 12, 13, 14]);
    assert_eq!(y, vec![6, 6, 6, 6, 6, 6, 6, 5, 5, 5]);
}

#[test]
fn depth_window_excludes_outside_columns() {
    let depth = Depth::new("", None, Some(3), Some(4), "".to_string());
    let (x, y) = depth.process_pileup(&vec![(1, 9), (2, 8), (3, 7), (4, 6)]);
    assert_eq!(x, vec![3, 4]);
    assert_eq!(y, vec![8, 7]);
}

#[test]
fn scenario_a_tie_accepted() {
    let cfg = config(frac(2, 10), frac(0, 1), true);
    let obs = vec![
        base(b'A', false),
        base(b'A', false),
        base(b'A', true),
        base(b'A', true),
        base(b'G', false),
        base(b'G', false),
        base(b'G', true),
        base(b'G', true),
    ];
    let p = tally(&cfg, obs);
    assert_eq!(p.get_major_variant(), Category::G);
    let r = cfg.filter_column(9, &p);
    assert_eq!(r, Some(record(10, vec![(Category::A, 5000), (Category::G, 5000)])));
}

#[test]
fn scenario_b_not_strictly_above() {
    let cfg = config(frac(5, 10), frac(0, 1), true);
    let obs = vec![
        base(b'A', false),
        base(b'A', false),
        base(b'A', true),
        base(b'A', true),
        base(b'G', false),
        base(b'G', false),
        base(b'G', true),
        base(b'G', true),
    ];
    let p = tally(&cfg, obs);
    assert_eq!(cfg.filter_column(9, &p), None);
}

fn scenario_c_observations() -> Vec<Observation> {
    let mut obs = vec![deletion(false)];
    obs.push(with_insertion(base(b'G', false)));
    obs.push(with_insertion(base(b'G', true)));
    obs.extend(vec![base(b'G', false), base(b'G', true), base(b'G', false)]);
    obs
}

#[test]
fn scenario_c_indels_counted() {
    let cfg = config(frac(1, 10), frac(0, 1), true);
    let p = tally(&cfg, scenario_c_observations());
    assert_eq!(p.get_total(), 8);
    assert_eq!(p.get_base_count(Category::Deletion), 1);
    assert_eq!(p.get_base_count(Category::Insertion), 2);
    assert_eq!(p.get_base_count(Category::G), 5);
    assert_eq!(p.get_major_variant(), Category::G);
    let expected = record(
        3,
        vec![(Category::G, 6250), (Category::Deletion, 1250), (Category::Insertion, 2500)],
    );
    assert_eq!(cfg.filter_column(2, &p), Some(expected));
}

#[test]
fn scenario_d_indels_excluded() {
    let cfg = config(frac(1, 10), frac(0, 1), false);
    let p = tally(&cfg, scenario_c_observations());
    assert_eq!(p.get_total(), 5);
    assert_eq!(p.get_base_count(Category::G), 5);
    assert!(!p.is_ambiguous());
    let ambig = Ambig::new(
        "", None, None, None, true, frac(1, 10), false, "".to_string(), 1, 1, 1, 1, frac(0, 1),
        false,
    );
    assert_eq!(ambig.process_column(&column(2, scenario_c_observations())), None);
}

#[test]
fn scenario_e_one_strand_minor_rejected() {
    let cfg = config(frac(1, 10), frac(1, 10), true);
    let mut obs = vec![base(b'C', true); 5];
    obs.extend(vec![base(b'T', false), base(b'T', true)].repeat(5));
    let p = tally(&cfg, obs);
    assert_eq!(p.get_major_variant(), Category::T);
    assert_eq!(p.get_slot(Category::C).forward, 0);
    assert_eq!(cfg.filter_column(0, &p), None);
}

#[test]
fn strand_bias_bounds() {
    let t = frac(1, 10);
    assert!(ratio_outside(0, 5, t));
    assert!(ratio_outside(5, 5, t));
    assert!(!ratio_outside(1, 10, t));
    assert!(!ratio_outside(9, 10, t));
    assert!(ratio_outside(1, 11, t));
    assert!(!ratio_outside(0, 0, frac(0, 1)));
    assert!(!ratio_outside(3, 3, frac(0, 1)));
}

#[test]
fn strand_ratio_is_absent_without_reads() {
    let cfg = config(frac(1, 10), frac(0, 1), true);
    let p = tally(&cfg, vec![base(b'A', false), base(b'A', true), base(b'A', false)]);
    assert_eq!(p.get_strand_ratio(Category::A), Some((2, 3)));
    assert_eq!(p.get_strand_ratio(Category::C), None);
    assert_eq!(p.get_slot(Category::A), StrandCount { total: 3, forward: 2, reverse: 1 });
}

#[test]
fn rounding_half_away_from_zero() {
    assert_eq!(rounded_proportion(1, 8), 1250);
    assert_eq!(rounded_proportion(1, 3), 3333);
    assert_eq!(rounded_proportion(2, 3), 6667);
    assert_eq!(rounded_proportion(1, 20000), 1);
    assert_eq!(rounded_proportion(1, 20001), 0);
    assert_eq!(rounded_proportion(7, 7), 10000);
}

#[test]
fn category_sum_matches_admitted_counts() {
    let mut cfg = config(frac(1, 10), frac(0, 1), true);
    cfg.base_quality_floor = 30;
    let mut low = base(b'A', false);
    low.query = Some(QueryBase { base: b'A', quality: 10 });
    let mut empty = base(b'C', false);
    empty.has_sequence = false;
    let obs = vec![low, empty, base(b'N', true), base(b't', true), with_insertion(base(b'g', false))];
    let p = tally(&cfg, obs);
    assert_eq!(p.get_total(), 3);
    assert_eq!(p.get_base_count(Category::T), 1);
    assert_eq!(p.get_base_count(Category::G), 1);
    assert_eq!(p.get_base_count(Category::Insertion), 1);
    assert_eq!(p.get_slot(Category::T).reverse, 1);
}

#[test]
fn depth_floor_rejects_whole_column() {
    let mut cfg = config(frac(1, 10), frac(0, 1), true);
    cfg.depth_floor = 100;
    let p = tally(&cfg, vec![base(b'A', false), base(b'C', true)]);
    assert_eq!(p.get_total(), 0);
}

#[test]
fn deletion_skips_quality_check() {
    let mut cfg = config(frac(1, 10), frac(0, 1), true);
    cfg.map_quality_floor = 60;
    let mut d = deletion(true);
    d.map_quality = 0;
    let mut b = base(b'A', false);
    b.map_quality = 0;
    let p = tally(&cfg, vec![d, b]);
    assert_eq!(p.get_base_count(Category::Deletion), 1);
    assert_eq!(p.get_base_count(Category::A), 0);
}

#[test]
fn proportions_sum_close_to_one() {
    let cfg = config(frac(1, 10), frac(0, 1), true);
    let obs = vec![base(b'A', false), base(b'C', false), base(b'G', false)];
    let p = tally(&cfg, obs);
    let r = cfg.filter_column(0, &p).unwrap();
    let sum: u32 = r.proportions.iter().map(|e| e.1).sum();
    assert_eq!(sum, 9999);
    assert!(2 * (10000 - sum) as usize <= r.proportions.len());
}

#[test]
fn filtering_twice_gives_same_record() {
    let cfg = config(frac(1, 10), frac(0, 1), true);
    let p = tally(&cfg, scenario_c_observations());
    assert_eq!(cfg.filter_column(7, &p), cfg.filter_column(7, &p));
}

#[test]
fn raising_minor_floor_only_rejects_more() {
    let mut cfg = config(frac(1, 10), frac(0, 1), true);
    let p = tally(&cfg, scenario_c_observations());
    assert!(cfg.filter_column(0, &p).is_some());
    cfg.minor_depth_floor = 3;
    assert!(cfg.filter_column(0, &p).is_some());
    cfg.minor_depth_floor = 4;
    assert!(cfg.filter_column(0, &p).is_none());
}

#[test]
fn tie_goes_to_later_category() {
    let cfg = config(frac(1, 10), frac(0, 1), true);
    let p = tally(&cfg, vec![base(b'T', false), base(b'C', false), base(b'A', false)]);
    assert_eq!(p.get_major_variant(), Category::C);
    let p = tally(&cfg, vec![deletion(false), with_insertion(base(b'A', false))]);
    assert_eq!(p.get_major_variant(), Category::Insertion);
}

#[test]
fn chart_series_fill_missing_with_zero() {
    let report = vec![
        record(5, vec![(Category::A, 5000), (Category::G, 5000)]),
        record(9, vec![(Category::C, 2500), (Category::G, 7500)]),
    ];
    assert_eq!(report_positions(&report), vec![5, 9]);
    assert_eq!(category_series(&report, Category::G), vec![5000, 7500]);
    assert_eq!(category_series(&report, Category::A), vec![5000, 0]);
    assert_eq!(category_series(&report, Category::Insertion), vec![0, 0]);
}

#[test]
fn base_letters_map_to_categories() {
    assert_eq!(Category::of_base(b'a'), Some(Category::A));
    assert_eq!(Category::of_base(b'T'), Some(Category::T));
    assert_eq!(Category::of_base(b'N'), None);
}

#[test]
fn new_pileup_is_empty() {
    let p = Pileup::new();
    assert_eq!(p.get_total(), 0);
    assert!(!p.is_ambiguous());
}
