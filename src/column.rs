use vstd::prelude::*;

use crate::category::Category;
use crate::config::FilterConfig;
use crate::pileup::{Pileup, StrandCount};

verus! {

/// The base a read shows at the column, with its base quality.
#[derive(Clone, Copy, Debug, PartialEq, Eq, Structural)]
pub struct QueryBase {
    pub base: u8,
    pub quality: u8,
}

/// What one read contributes to one pileup column.
#[derive(Clone, Copy, Debug, PartialEq, Eq, Structural)]
pub struct Observation {
    /// The read lies on the reverse strand.
    pub reverse: bool,
    /// The read carries a base sequence (secondary records may not).
    pub has_sequence: bool,
    /// The read has a deletion at this column.
    pub is_del: bool,
    /// The read skips this column of the reference.
    pub is_refskip: bool,
    /// The read's base at this column, where it has one.
    pub query: Option<QueryBase>,
    pub map_quality: u8,
    /// The read has an insertion right after this column.
    pub is_insertion: bool,
}

/// One pileup column: 0-based position, the raw depth reported for it, and its reads.
#[derive(Clone, Debug)]
pub struct Column {
    pub pos: u32,
    pub depth: u32,
    pub observations: Vec<Observation>,
}

/// The quality gate: whether an observation at a column of the given raw depth is admitted.
pub open spec fn admits(cfg: FilterConfig, depth: u32, o: Observation) -> bool {
    &&& o.has_sequence
    &&& depth >= cfg.depth_floor
    &&& match o.query {
        Some(q) => q.quality >= cfg.base_quality_floor && o.map_quality >= cfg.map_quality_floor,
        None => true,
    }
}

/// Whether an observation adds one to the count of `cat`.
pub open spec fn contributes(cfg: FilterConfig, depth: u32, o: Observation, cat: Category) -> bool {
    &&& admits(cfg, depth, o)
    &&& cfg.include_indels || !(o.is_refskip || o.is_del)
    &&& {
        ||| cat == Category::Deletion && o.is_del
        ||| (match o.query {
            Some(q) => Category::of_base_spec(q.base) == Some(cat),
            None => false,
        })
        ||| cat == Category::Insertion && o.is_insertion && cfg.include_indels
    }
}

/// How many of the observations add to `cat`; with `forward_only`, only forward-strand ones.
pub open spec fn tally(
    cfg: FilterConfig,
    depth: u32,
    obs: Seq<Observation>,
    cat: Category,
    forward_only: bool,
) -> nat
    decreases obs.len(),
{
    if obs.len() == 0 {
        0
    } else {
        let o = obs.last();
        tally(cfg, depth, obs.drop_last(), cat, forward_only) + if contributes(cfg, depth, o, cat)
            && !(forward_only && o.reverse) {
            1nat
        } else {
            0nat
        }
    }
}

/// The tally that the observations of a column make: what `accumulate` returns.
pub open spec fn tallied(cfg: FilterConfig, depth: u32, obs: Seq<Observation>) -> Pileup {
    Pileup {
        a: tallied_slot(cfg, depth, obs, Category::A),
        t: tallied_slot(cfg, depth, obs, Category::T),
        c: tallied_slot(cfg, depth, obs, Category::C),
        g: tallied_slot(cfg, depth, obs, Category::G),
        del: tallied_slot(cfg, depth, obs, Category::Deletion),
        ins: tallied_slot(cfg, depth, obs, Category::Insertion),
    }
}

pub open spec fn tallied_slot(
    cfg: FilterConfig,
    depth: u32,
    obs: Seq<Observation>,
    cat: Category,
) -> StrandCount {
    let total = tally(cfg, depth, obs, cat, false);
    let forward = tally(cfg, depth, obs, cat, true);
    StrandCount { total: total as u32, forward: forward as u32, reverse: (total - forward) as u32 }
}

/// Number of counts the admitted observations add over all six categories.
pub open spec fn admitted_total(cfg: FilterConfig, depth: u32, obs: Seq<Observation>) -> nat {
    tally(cfg, depth, obs, Category::A, false) + tally(cfg, depth, obs, Category::T, false)
        + tally(cfg, depth, obs, Category::C, false) + tally(cfg, depth, obs, Category::G, false)
        + tally(cfg, depth, obs, Category::Deletion, false) + tally(
        cfg,
        depth,
        obs,
        Category::Insertion,
        false,
    )
}

proof fn lemma_tally_bounds(cfg: FilterConfig, depth: u32, obs: Seq<Observation>)
    ensures
        admitted_total(cfg, depth, obs) <= 3 * obs.len(),
        forall|cat: Category|
            #[trigger] tally(cfg, depth, obs, cat, true) <= tally(cfg, depth, obs, cat, false),
    decreases obs.len(),
{
    if obs.len() > 0 {
        let prev = obs.drop_last();
        lemma_tally_bounds(cfg, depth, prev);
        assert forall|cat: Category|
            #[trigger] tally(cfg, depth, obs, cat, true) <= tally(cfg, depth, obs, cat, false) by {
            assert(tally(cfg, depth, prev, cat, true) <= tally(cfg, depth, prev, cat, false));
        }
    }
}

/// For any column the tally is consistent: each category's total is its forward plus
/// its reverse count, and the column total is exactly the number of counts that the
/// admitted observations add (at most three per observation).
pub proof fn lemma_category_sum(cfg: FilterConfig, depth: u32, obs: Seq<Observation>)
    requires
        3 * obs.len() <= u32::MAX,
    ensures
        tallied(cfg, depth, obs).wf(),
        tallied(cfg, depth, obs).total_spec() == admitted_total(cfg, depth, obs),
        admitted_total(cfg, depth, obs) <= 3 * obs.len(),
{
    lemma_tally_bounds(cfg, depth, obs);
    let p = tallied(cfg, depth, obs);
    assert forall|cat: Category| #[trigger] p.slot(cat).wf() by {
        assert(tally(cfg, depth, obs, cat, true) <= tally(cfg, depth, obs, cat, false));
        match cat {
            Category::A => {},
            Category::T => {},
            Category::C => {},
            Category::G => {},
            Category::Deletion => {},
            Category::Insertion => {},
        }
    }
}

impl FilterConfig {
    /// Applies the quality gate to one observation of a column of raw depth `depth`.
    pub fn is_qc_pass(&self, o: &Observation, depth: u32) -> (r: bool)
        ensures
            r == admits(*self, depth, *o),
    {
        if !o.has_sequence || depth < self.depth_floor {
            return false;
        }
        match o.query {
            Some(q) => {
                if q.quality < self.base_quality_floor {
                    return false;
                }
                if o.map_quality < self.map_quality_floor {
                    return false;
                }
                true
            },
            None => true,
        }
    }

    /// Adds one observation of a column of raw depth `depth` to the tally.
    pub fn add_observation(&self, p: &mut Pileup, o: &Observation, depth: u32)
        requires
            old(p).wf(),
            old(p).total_spec() + 3 <= u32::MAX,
        ensures
            final(p).wf(),
            final(p).total_spec() <= old(p).total_spec() + 3,
            forall|cat: Category|
                #[trigger] final(p).count(cat) == old(p).count(cat) + (if contributes(
                    *self,
                    depth,
                    *o,
                    cat,
                ) {
                    1nat
                } else {
                    0nat
                }),
            forall|cat: Category|
                #[trigger] final(p).slot(cat).forward == old(p).slot(cat).forward + (if contributes(
                    *self,
                    depth,
                    *o,
                    cat,
                ) && !o.reverse {
                    1nat
                } else {
                    0nat
                }),
    {
        if self.is_qc_pass(o, depth) && (self.include_indels || !(o.is_refskip || o.is_del)) {
            if o.is_del {
                p.add(Category::Deletion, o.reverse);
            }
            match o.query {
                Some(q) => match Category::of_base(q.base) {
                    Some(cat) => p.add(cat, o.reverse),
                    None => {},
                },
                None => {},
            }
            if o.is_insertion && self.include_indels {
                p.add(Category::Insertion, o.reverse);
            }
        }
    }

    /// Folds the admitted observations of a column into a tally per category and strand.
    pub fn accumulate(&self, column: &Column) -> (p: Pileup)
        requires
            3 * column.observations.len() <= u32::MAX,
        ensures
            p.wf(),
            p.total_spec() <= 3 * column.observations.len(),
            p == tallied(*self, column.depth, column.observations@),
            p.total_spec() == admitted_total(*self, column.depth, column.observations@),
            forall|cat: Category|
                #[trigger] p.count(cat) == tally(*self, column.depth, column.observations@, cat, false),
            forall|cat: Category|
                #[trigger] p.slot(cat).forward == tally(
                    *self,
                    column.depth,
                    column.observations@,
                    cat,
                    true,
                ),
    {
        let mut p = Pileup::new();
        let n = column.observations.len();
        let mut i: usize = 0;
        while i < n
            invariant
                n == column.observations.len(),
                3 * n <= u32::MAX,
                i <= n,
                p.wf(),
                p.total_spec() <= 3 * i,
                forall|cat: Category|
                    #[trigger] p.count(cat) == tally(
                        *self,
                        column.depth,
                        column.observations@.subrange(0, i as int),
                        cat,
                        false,
                    ),
                forall|cat: Category|
                    #[trigger] p.slot(cat).forward == tally(
                        *self,
                        column.depth,
                        column.observations@.subrange(0, i as int),
                        cat,
                        true,
                    ),
            decreases n - i,
        {
            let o = column.observations[i];
            self.add_observation(&mut p, &o, column.depth);
            proof {
                let s = column.observations@.subrange(0, i + 1);
                assert(s.drop_last() =~= column.observations@.subrange(0, i as int));
                assert(s.last() == o);
            }
            i += 1;
        }
        assert(column.observations@.subrange(0, n as int) =~= column.observations@);
        proof {
            let t = tallied(*self, column.depth, column.observations@);
            assert(p.slot(Category::A).wf() && p.slot(Category::T).wf() && p.slot(Category::C).wf()
                && p.slot(Category::G).wf() && p.slot(Category::Deletion).wf() && p.slot(
                Category::Insertion,
            ).wf());
            assert(p.count(Category::A) == tally(*self, column.depth, column.observations@, Category::A, false));
            assert(p.count(Category::T) == tally(*self, column.depth, column.observations@, Category::T, false));
            assert(p.count(Category::C) == tally(*self, column.depth, column.observations@, Category::C, false));
            assert(p.count(Category::G) == tally(*self, column.depth, column.observations@, Category::G, false));
            assert(p.count(Category::Deletion) == tally(*self, column.depth, column.observations@, Category::Deletion, false));
            assert(p.count(Category::Insertion) == tally(*self, column.depth, column.observations@, Category::Insertion, false));
            assert(p.slot(Category::A).forward == t.a.forward);
            assert(p.slot(Category::T).forward == t.t.forward);
            assert(p.slot(Category::C).forward == t.c.forward);
            assert(p.slot(Category::G).forward == t.g.forward);
            assert(p.slot(Category::Deletion).forward == t.del.forward);
            assert(p.slot(Category::Insertion).forward == t.ins.forward);
        }
        p
    }
}

} // verus!
