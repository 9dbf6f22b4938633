use vstd::prelude::*;

use crate::category::Category;
use crate::column::{tallied, Column, Observation};
use crate::config::{FilterConfig, Fraction};
use crate::filter::{accepts, filter_outcome, proportions, record_view, PositionRecord};
use crate::pileup::Pileup;
use crate::region::get_start_stop;

verus! {

/// The ambiguity run over one alignment file: where to look and what to accept.
pub struct Ambig<'a> {
    pub input: &'a str,
    pub chrom: Option<&'a str>,
    /// First 0-based position of the window.
    pub start: u32,
    /// End of the window, exclusive.
    pub stop: u32,
    pub no_label: bool,
    pub output: String,
    pub bed: bool,
    pub config: FilterConfig,
}

/// What one column yields: its 1-based position and proportions, when it is accepted.
pub open spec fn column_record(
    cfg: FilterConfig,
    start: u32,
    stop: u32,
    col: Column,
) -> Option<(u32, Seq<(Category, u32)>)> {
    let p = tallied(cfg, col.depth, col.observations@);
    if col.pos < start || col.pos >= stop {
        None
    } else if p.nonzero_count() > 1 && accepts(cfg, p) {
        Some(((col.pos + 1) as u32, proportions(p)))
    } else {
        None
    }
}

/// The records of a sequence of columns, in column order.
pub open spec fn report(
    cfg: FilterConfig,
    start: u32,
    stop: u32,
    cols: Seq<Column>,
) -> Seq<(u32, Seq<(Category, u32)>)>
    decreases cols.len(),
{
    if cols.len() == 0 {
        Seq::empty()
    } else {
        let prev = report(cfg, start, stop, cols.drop_last());
        match column_record(cfg, start, stop, cols.last()) {
            Some(e) => prev.push(e),
            None => prev,
        }
    }
}

/// Columns in strictly ascending position order, as a column source yields them.
pub open spec fn positions_ascending(cols: Seq<Column>) -> bool {
    forall|i: int, j: int| 0 <= i < j < cols.len() ==> cols[i].pos < cols[j].pos
}

/// Over columns in ascending order, the report holds ascending, hence distinct, positions.
pub proof fn lemma_report_ascending(cfg: FilterConfig, start: u32, stop: u32, cols: Seq<Column>)
    requires
        positions_ascending(cols),
    ensures
        forall|i: int, j: int|
            0 <= i < j < report(cfg, start, stop, cols).len() ==> report(cfg, start, stop, cols)[i].0
                < report(cfg, start, stop, cols)[j].0,
        cols.len() > 0 ==> forall|i: int|
            0 <= i < report(cfg, start, stop, cols).len() ==> report(cfg, start, stop, cols)[i].0
                <= cols.last().pos + 1,
        cols.len() == 0 ==> report(cfg, start, stop, cols).len() == 0,
    decreases cols.len(),
{
    if cols.len() > 0 {
        let prev = cols.drop_last();
        assert(positions_ascending(prev));
        lemma_report_ascending(cfg, start, stop, prev);
        let rp = report(cfg, start, stop, prev);
        let r = report(cfg, start, stop, cols);
        let last = cols.last();
        if prev.len() > 0 {
            assert(prev.last().pos < last.pos);
        }
        assert(forall|i: int| 0 <= i < rp.len() ==> rp[i].0 < last.pos + 1);
        match column_record(cfg, start, stop, last) {
            Some(e) => {
                assert(r == rp.push(e));
                assert(e.0 == last.pos + 1);
                assert forall|i: int, j: int| 0 <= i < j < r.len() implies r[i].0 < r[j].0 by {
                    if j < rp.len() {
                        assert(r[i] == rp[i] && r[j] == rp[j]);
                    } else {
                        assert(r[i] == rp[i] && r[j] == e);
                    }
                }
                assert forall|i: int| 0 <= i < r.len() implies r[i].0 <= last.pos + 1 by {
                    if i < rp.len() {
                        assert(r[i] == rp[i]);
                    }
                }
            },
            None => {
                assert(r == rp);
            },
        }
    }
}

/// A column small enough that its counts fit a `u32`.
pub open spec fn column_fits(col: Column) -> bool {
    3 * col.observations.len() <= u32::MAX
}

/// The proportion that a record gives a category, `0` when it has none.
pub open spec fn proportion_in(props: Seq<(Category, u32)>, cat: Category) -> u32
    decreases props.len(),
{
    if props.len() == 0 {
        0
    } else if props.last().0 == cat {
        props.last().1
    } else {
        proportion_in(props.drop_last(), cat)
    }
}

/// The proportion of `cat` in one record, `0` when the record does not list it.
pub fn proportion_of(rec: &PositionRecord, cat: Category) -> (r: u32)
    ensures
        r == proportion_in(rec.proportions@, cat),
{
    let mut found: u32 = 0;
    let n = rec.proportions.len();
    let mut i: usize = 0;
    while i < n
        invariant
            n == rec.proportions@.len(),
            i <= n,
            found == proportion_in(rec.proportions@.take(i as int), cat),
        decreases n - i,
    {
        assert(rec.proportions@.take(i + 1).drop_last() =~= rec.proportions@.take(i as int));
        let (c, v) = rec.proportions[i];
        if c == cat {
            found = v;
        }
        i += 1;
    }
    assert(rec.proportions@.take(n as int) =~= rec.proportions@);
    found
}

/// The chart series of one category: its proportion at each record, in report order.
pub fn category_series(report: &Vec<PositionRecord>, cat: Category) -> (r: Vec<u32>)
    ensures
        r@.len() == report@.len(),
        forall|i: int|
            0 <= i < r@.len() ==> #[trigger] r@[i] == proportion_in(report@[i].proportions@, cat),
{
    let mut out: Vec<u32> = Vec::new();
    let n = report.len();
    let mut i: usize = 0;
    while i < n
        invariant
            n == report@.len(),
            i <= n,
            out@.len() == i,
            forall|j: int|
                0 <= j < i ==> #[trigger] out@[j] == proportion_in(report@[j].proportions@, cat),
        decreases n - i,
    {
        out.push(proportion_of(&report[i], cat));
        i += 1;
    }
    out
}

/// The 1-based positions of a report, in report order.
pub fn report_positions(report: &Vec<PositionRecord>) -> (r: Vec<u32>)
    ensures
        r@.len() == report@.len(),
        forall|i: int| 0 <= i < r@.len() ==> #[trigger] r@[i] == report@[i].position,
{
    let mut out: Vec<u32> = Vec::new();
    let n = report.len();
    let mut i: usize = 0;
    while i < n
        invariant
            n == report@.len(),
            i <= n,
            out@.len() == i,
            forall|j: int| 0 <= j < i ==> #[trigger] out@[j] == report@[j].position,
        decreases n - i,
    {
        out.push(report[i].position);
        i += 1;
    }
    out
}

impl<'a> Ambig<'a> {
    /// Builds a run from a 1-based inclusive start and an optional end.
    pub fn new(
        input: &'a str,
        chrom: Option<&'a str>,
        start: Option<u32>,
        stop: Option<u32>,
        no_indel: bool,
        threshold: Fraction,
        no_label: bool,
        output: String,
        base_quality_threshold: u8,
        map_quality_threshold: u8,
        depth_threshold: u32,
        minor_depth_threshold: u32,
        strand_bias_threshold: Fraction,
        bed: bool,
    ) -> (r: Self)
        requires
            start.is_some() || stop.is_none(),
            start.is_some() ==> start.unwrap() >= 1,
        ensures
            r.input == input,
            r.chrom == chrom,
            r.start == (if start.is_some() {
                start.unwrap() - 1
            } else {
                0
            }),
            r.stop == (if stop.is_some() {
                stop.unwrap()
            } else {
                u32::MAX
            }),
            r.no_label == no_label,
            r.output == output,
            r.bed == bed,
            r.config == (FilterConfig {
                ambiguity_threshold: threshold,
                strand_bias_threshold,
                base_quality_floor: base_quality_threshold,
                map_quality_floor: map_quality_threshold,
                depth_floor: depth_threshold,
                minor_depth_floor: minor_depth_threshold,
                include_indels: !no_indel,
            }),
    {
        let (start, stop) = get_start_stop(start, stop);
        Ambig {
            input,
            chrom,
            start,
            stop,
            no_label,
            output,
            bed,
            config: FilterConfig {
                ambiguity_threshold: threshold,
                strand_bias_threshold,
                base_quality_floor: base_quality_threshold,
                map_quality_floor: map_quality_threshold,
                depth_floor: depth_threshold,
                minor_depth_floor: minor_depth_threshold,
                include_indels: !no_indel,
            },
        }
    }

    /// Applies the quality gate of this run to one observation.
    pub fn is_qc_pass(&self, o: &Observation, depth: u32) -> (r: bool)
        ensures
            r == crate::column::admits(self.config, depth, *o),
    {
        self.config.is_qc_pass(o, depth)
    }

    /// The ambiguity filter of this run on the tally of the column at 0-based `pos`.
    pub fn filter_base_counts(&self, pos: u32, pileup: &Pileup) -> (r: Option<PositionRecord>)
        requires
            self.config.wf(),
            pileup.wf(),
            pos < u32::MAX,
        ensures
            record_view(r) == filter_outcome(self.config, pos, *pileup),
    {
        self.config.filter_column(pos, pileup)
    }

    /// Tallies one column and, when it lies in the window, holds more than one
    /// category and passes the filter, returns its record.
    pub fn process_column(&self, col: &Column) -> (r: Option<PositionRecord>)
        requires
            self.config.wf(),
            column_fits(*col),
        ensures
            match column_record(self.config, self.start, self.stop, *col) {
                Some(e) => r.is_some() && r.unwrap().position == e.0 && r.unwrap().proportions@
                    == e.1,
                None => r.is_none(),
            },
    {
        if col.pos < self.start || col.pos >= self.stop {
            return None;
        }
        let p = self.config.accumulate(col);
        if !p.is_ambiguous() {
            return None;
        }
        self.filter_base_counts(col.pos, &p)
    }

    /// The records of every accepted column of the window, in column order.
    pub fn produce_pileup(&self, columns: &Vec<Column>) -> (r: Vec<PositionRecord>)
        requires
            self.config.wf(),
            forall|i: int| 0 <= i < columns@.len() ==> column_fits(#[trigger] columns@[i]),
            positions_ascending(columns@),
        ensures
            r@.len() == report(self.config, self.start, self.stop, columns@).len(),
            forall|i: int, j: int| 0 <= i < j < r@.len() ==> r@[i].position < r@[j].position,
            forall|i: int|
                0 <= i < r@.len() ==> (#[trigger] r@[i]).position == report(
                    self.config,
                    self.start,
                    self.stop,
                    columns@,
                )[i].0 && r@[i].proportions@ == report(
                    self.config,
                    self.start,
                    self.stop,
                    columns@,
                )[i].1,
    {
        let mut out: Vec<PositionRecord> = Vec::new();
        let n = columns.len();
        let mut i: usize = 0;
        while i < n
            invariant
                n == columns@.len(),
                i <= n,
                self.config.wf(),
                forall|j: int| 0 <= j < columns@.len() ==> column_fits(#[trigger] columns@[j]),
                out@.len() == report(
                    self.config,
                    self.start,
                    self.stop,
                    columns@.subrange(0, i as int),
                ).len(),
                forall|j: int|
                    0 <= j < out@.len() ==> (#[trigger] out@[j]).position == report(
                        self.config,
                        self.start,
                        self.stop,
                        columns@.subrange(0, i as int),
                    )[j].0 && out@[j].proportions@ == report(
                        self.config,
                        self.start,
                        self.stop,
                        columns@.subrange(0, i as int),
                    )[j].1,
            decreases n - i,
        {
            let ghost before = columns@.subrange(0, i as int);
            let ghost after = columns@.subrange(0, i + 1);
            assert(after.drop_last() =~= before);
            let res = self.process_column(&columns[i]);
            match res {
                Some(rec) => {
                    out.push(rec);
                },
                None => {},
            }
            i += 1;
        }
        assert(columns@.subrange(0, n as int) =~= columns@);
        proof {
            lemma_report_ascending(self.config, self.start, self.stop, columns@);
        }
        out
    }
}

} // verus!
