use vstd::prelude::*;

use crate::category::Category;
use crate::config::{FilterConfig, Fraction};
use crate::pileup::{Pileup, StrandCount};

verus! {

/// `count / total` rounded half away from zero to four decimals, in ten-thousandths.
pub open spec fn rounded(count: nat, total: nat) -> nat {
    if total == 0 {
        0
    } else {
        (20000 * count + total) / (2 * total)
    }
}

pub open spec fn proportion(p: Pileup, cat: Category) -> nat {
    rounded(p.count(cat), p.total_spec())
}

/// The record entry of one category: present only when its count is nonzero.
pub open spec fn entry(p: Pileup, cat: Category) -> Seq<(Category, u32)> {
    if p.count(cat) > 0 {
        seq![(cat, proportion(p, cat) as u32)]
    } else {
        seq![]
    }
}

/// The proportion map of a tally, in category order.
pub open spec fn proportions(p: Pileup) -> Seq<(Category, u32)> {
    entry(p, Category::A) + entry(p, Category::T) + entry(p, Category::C) + entry(p, Category::G)
        + entry(p, Category::Deletion) + entry(p, Category::Insertion)
}

pub open spec fn minor_part(p: Pileup, cat: Category) -> nat {
    if cat == p.major() {
        0
    } else {
        proportion(p, cat)
    }
}

/// Sum of the rounded proportions of every category but the major variant.
pub open spec fn minor_proportion_sum(p: Pileup) -> nat {
    minor_part(p, Category::A) + minor_part(p, Category::T) + minor_part(p, Category::C)
        + minor_part(p, Category::G) + minor_part(p, Category::Deletion) + minor_part(
        p,
        Category::Insertion,
    )
}

/// A category with reads whose forward fraction lies below `t` or above `1 - t`.
pub open spec fn strand_biased(s: StrandCount, t: Fraction) -> bool {
    s.total > 0 && (s.forward * t.den < t.num * s.total || s.forward * t.den > (t.den - t.num)
        * s.total)
}

pub open spec fn minor_depth_ok(cfg: FilterConfig, p: Pileup) -> bool {
    p.total_spec() - p.count(p.major()) >= cfg.minor_depth_floor
}

pub open spec fn strand_balanced(cfg: FilterConfig, p: Pileup) -> bool {
    forall|cat: Category|
        cat != p.major() ==> !strand_biased(#[trigger] p.slot(cat), cfg.strand_bias_threshold)
}

pub open spec fn above_ambiguity(cfg: FilterConfig, p: Pileup) -> bool {
    minor_proportion_sum(p) * cfg.ambiguity_threshold.den > cfg.ambiguity_threshold.num * 10000
}

/// Whether the ambiguity filter accepts a tally.
pub open spec fn accepts(cfg: FilterConfig, p: Pileup) -> bool {
    minor_depth_ok(cfg, p) && strand_balanced(cfg, p) && above_ambiguity(cfg, p)
}

/// An accepted column: its 1-based position and the proportion of each category seen,
/// in category order, each in ten-thousandths (`10000` stands for `1.0`).
#[derive(Clone, Debug, PartialEq, Eq)]
pub struct PositionRecord {
    pub position: u32,
    pub proportions: Vec<(Category, u32)>,
}

/// What the ambiguity filter yields for the tally of the column at 0-based `pos`:
/// the 1-based position and the proportions when it accepts, nothing otherwise.
pub open spec fn filter_outcome(cfg: FilterConfig, pos: u32, p: Pileup) -> Option<
    (u32, Seq<(Category, u32)>),
> {
    if accepts(cfg, p) {
        Some(((pos + 1) as u32, proportions(p)))
    } else {
        None
    }
}

pub open spec fn record_view(r: Option<PositionRecord>) -> Option<(u32, Seq<(Category, u32)>)> {
    match r {
        Some(rec) => Some((rec.position, rec.proportions@)),
        None => None,
    }
}

/// Filtering is a function of the tally and the configuration alone: two results
/// obtained from the same column and configuration are the same.
pub proof fn lemma_filter_idempotent(
    cfg: FilterConfig,
    pos: u32,
    p: Pileup,
    first: Option<PositionRecord>,
    second: Option<PositionRecord>,
)
    requires
        record_view(first) == filter_outcome(cfg, pos, p),
        record_view(second) == filter_outcome(cfg, pos, p),
    ensures
        record_view(first) == record_view(second),
        first.is_some() == second.is_some(),
{
}

pub proof fn lemma_rounding(c: nat, t: nat)
    requires
        t > 0,
        c <= t,
    ensures
        2 * t * rounded(c, t) <= 20000 * c + t,
        20000 * c + t < 2 * t * rounded(c, t) + 2 * t,
        c == 0 ==> rounded(c, t) == 0,
        rounded(c, t) <= 10000,
{
    let x = (20000 * c + t) as int;
    let d = (2 * t) as int;
    vstd::arithmetic::div_mod::lemma_fundamental_div_mod(x, d);
    vstd::arithmetic::div_mod::lemma_mod_pos_bound(x, d);
    let q = x / d;
    assert(d * q <= x < d * q + d);
    assert(q >= 0) by (nonlinear_arith)
        requires
            d * q <= x,
            x < d * q + d,
            d > 0,
            x >= 0,
    ;
    if c == 0 {
        assert(q == 0) by (nonlinear_arith)
            requires
                d * q <= x,
                x == d / 2,
                d > 0,
                q >= 0,
        ;
    }
    assert(q <= 10000) by (nonlinear_arith)
        requires
            d * q <= x,
            x <= 10000 * d + d / 2,
            d == 2 * t,
            t > 0,
    ;
}

proof fn lemma_product_fits(x: nat, y: nat)
    requires
        x <= 0x1_0000_0000,
        y <= u32::MAX,
    ensures
        x * y <= u64::MAX,
{
    assert(x * y <= 0x1_0000_0000 * 0xffff_ffff) by (nonlinear_arith)
        requires
            x <= 0x1_0000_0000,
            y <= 0xffff_ffff,
    ;
}

/// Sum of the proportions of a record, in ten-thousandths.
pub open spec fn value_sum(s: Seq<(Category, u32)>) -> int
    decreases s.len(),
{
    if s.len() == 0 {
        0
    } else {
        value_sum(s.drop_last()) + s.last().1
    }
}

proof fn lemma_value_sum_append(a: Seq<(Category, u32)>, b: Seq<(Category, u32)>)
    ensures
        value_sum(a + b) == value_sum(a) + value_sum(b),
    decreases b.len(),
{
    if b.len() == 0 {
        assert(a + b =~= a);
    } else {
        lemma_value_sum_append(a, b.drop_last());
        assert((a + b).drop_last() =~= a + b.drop_last());
    }
}

proof fn lemma_entry(p: Pileup, cat: Category)
    requires
        p.wf(),
        p.total_spec() > 0,
    ensures
        entry(p, cat).len() == p.nonzero(cat),
        value_sum(entry(p, cat)) == proportion(p, cat),
        2 * p.total_spec() * proportion(p, cat) <= 20000 * p.count(cat) + p.nonzero(cat)
            * p.total_spec(),
        20000 * p.count(cat) <= 2 * p.total_spec() * proportion(p, cat) + p.nonzero(cat)
            * p.total_spec(),
{
    let t = p.total_spec();
    let c = p.count(cat);
    assert(c <= t);
    lemma_rounding(c, t);
    let r = proportion(p, cat);
    let e = entry(p, cat);
    if c > 0 {
        assert(e.drop_last() =~= Seq::<(Category, u32)>::empty());
        assert(e.last().1 == r);
        assert(value_sum(e) == value_sum(e.drop_last()) + e.last().1);
        assert(p.nonzero(cat) * t == t) by (nonlinear_arith)
            requires
                p.nonzero(cat) == 1,
        ;
    } else {
        assert(p.nonzero(cat) * t == 0) by (nonlinear_arith)
            requires
                p.nonzero(cat) == 0,
        ;
        assert(r == 0);
        assert(2 * t * r == 0) by (nonlinear_arith)
            requires
                r == 0,
        ;
    }
}

/// The rounded proportions of an accepted record add up to `1.0` within half a unit of
/// the fourth decimal per category present: `|sum - 10000| <= n / 2` in ten-thousandths.
pub proof fn lemma_accepted_proportion_sum(cfg: FilterConfig, p: Pileup)
    requires
        cfg.wf(),
        p.wf(),
        accepts(cfg, p),
    ensures
        proportions(p).len() == p.nonzero_count(),
        2 * (value_sum(proportions(p)) - 10000) <= p.nonzero_count(),
        2 * (10000 - value_sum(proportions(p))) <= p.nonzero_count(),
{
    let t = p.total_spec();
    if t == 0 {
        assert(minor_proportion_sum(p) == 0);
        assert(minor_proportion_sum(p) * cfg.ambiguity_threshold.den == 0);
    }
    assert(t > 0);
    let ea = entry(p, Category::A);
    let et = entry(p, Category::T);
    let ec = entry(p, Category::C);
    let eg = entry(p, Category::G);
    let ed = entry(p, Category::Deletion);
    let ei = entry(p, Category::Insertion);
    lemma_entry(p, Category::A);
    lemma_entry(p, Category::T);
    lemma_entry(p, Category::C);
    lemma_entry(p, Category::G);
    lemma_entry(p, Category::Deletion);
    lemma_entry(p, Category::Insertion);
    lemma_value_sum_append(ea, et);
    lemma_value_sum_append(ea + et, ec);
    lemma_value_sum_append(ea + et + ec, eg);
    lemma_value_sum_append(ea + et + ec + eg, ed);
    lemma_value_sum_append(ea + et + ec + eg + ed, ei);
    let ra = proportion(p, Category::A) as int;
    let rt = proportion(p, Category::T) as int;
    let rc = proportion(p, Category::C) as int;
    let rg = proportion(p, Category::G) as int;
    let rd = proportion(p, Category::Deletion) as int;
    let ri = proportion(p, Category::Insertion) as int;
    let sum = value_sum(proportions(p));
    assert(sum == ra + rt + rc + rg + rd + ri);
    let n = p.nonzero_count() as int;
    let ti = t as int;
    assert(2 * ti * sum == 2 * ti * ra + 2 * ti * rt + 2 * ti * rc + 2 * ti * rg + 2 * ti * rd
        + 2 * ti * ri) by (nonlinear_arith)
        requires
            sum == ra + rt + rc + rg + rd + ri,
    ;
    let na = p.nonzero(Category::A) as int;
    let nt = p.nonzero(Category::T) as int;
    let nc = p.nonzero(Category::C) as int;
    let ng = p.nonzero(Category::G) as int;
    let nd = p.nonzero(Category::Deletion) as int;
    let ni = p.nonzero(Category::Insertion) as int;
    assert(n * ti == na * ti + nt * ti + nc * ti + ng * ti + nd * ti + ni * ti) by (nonlinear_arith)
        requires
            n == na + nt + nc + ng + nd + ni,
    ;
    assert(2 * ti * sum <= 20000 * ti + n * ti);
    assert(20000 * ti <= 2 * ti * sum + n * ti);
    assert(2 * (sum - 10000) <= n) by (nonlinear_arith)
        requires
            2 * ti * sum <= 20000 * ti + n * ti,
            ti > 0,
    ;
    assert(2 * (10000 - sum) <= n) by (nonlinear_arith)
        requires
            20000 * ti <= 2 * ti * sum + n * ti,
            ti > 0,
    ;
}

/// Raising the minor-allele depth floor, all else fixed, never turns a rejected
/// column into an accepted one.
pub proof fn lemma_minor_floor_monotone(cfg: FilterConfig, raised: FilterConfig, p: Pileup)
    requires
        raised.minor_depth_floor >= cfg.minor_depth_floor,
        raised.ambiguity_threshold == cfg.ambiguity_threshold,
        raised.strand_bias_threshold == cfg.strand_bias_threshold,
    ensures
        !accepts(cfg, p) ==> !accepts(raised, p),
{
}

/// Whether a forward fraction `forward / total` lies below `t` or above `1 - t`.
pub fn ratio_outside(forward: u32, total: u32, t: Fraction) -> (r: bool)
    requires
        t.wf(),
    ensures
        r == (forward * t.den < t.num * total || forward * t.den > (t.den - t.num) * total),
{
    proof {
        lemma_product_fits(forward as nat, t.den as nat);
        lemma_product_fits(t.num as nat, total as nat);
        lemma_product_fits((t.den - t.num) as nat, total as nat);
    }
    let fwd = forward as u64 * t.den as u64;
    fwd < t.num as u64 * total as u64 || fwd > (t.den - t.num) as u64 * total as u64
}

/// Whether a non-major category with reads fails the strand-balance test.
fn minor_biased(p: &Pileup, cat: Category, major: Category, t: Fraction) -> (r: bool)
    requires
        t.wf(),
    ensures
        r == (cat != major && strand_biased(p.slot(cat), t)),
{
    if cat == major {
        return false;
    }
    match p.get_strand_ratio(cat) {
        Some((forward, total)) => ratio_outside(forward, total, t),
        None => false,
    }
}

/// `count / total` rounded to four decimals, in ten-thousandths.
pub fn rounded_proportion(count: u32, total: u32) -> (r: u32)
    requires
        0 < total,
        count <= total,
    ensures
        r == rounded(count as nat, total as nat),
        r <= 10000,
{
    proof {
        lemma_rounding(count as nat, total as nat);
    }
    let x: u64 = 20000u64 * count as u64 + total as u64;
    (x / (2 * total as u64)) as u32
}

fn push_entry(p: &Pileup, cat: Category, v: &mut Vec<(Category, u32)>)
    requires
        p.wf(),
    ensures
        final(v)@ == old(v)@ + entry(*p, cat),
{
    let n = p.get_base_count(cat);
    if n > 0 {
        let total = p.get_total();
        v.push((cat, rounded_proportion(n, total)));
    }
}

fn minor_share(p: &Pileup, cat: Category, major: Category) -> (r: u32)
    requires
        p.wf(),
        major == p.major(),
    ensures
        r == minor_part(*p, cat),
        r <= 10000,
{
    let total = p.get_total();
    if cat == major || total == 0 {
        0
    } else {
        rounded_proportion(p.get_base_count(cat), total)
    }
}

impl FilterConfig {
    /// The ambiguity filter on the tally of the column at 0-based position `pos`.
    pub fn filter_column(&self, pos: u32, p: &Pileup) -> (r: Option<PositionRecord>)
        requires
            self.wf(),
            p.wf(),
            pos < u32::MAX,
        ensures
            record_view(r) == filter_outcome(*self, pos, *p),
    {
        let total = p.get_total();
        let major = p.get_major_variant();
        let major_n = p.get_base_count(major);
        if total - major_n < self.minor_depth_floor {
            return None;
        }
        let t = self.strand_bias_threshold;
        if minor_biased(p, Category::A, major, t) || minor_biased(p, Category::T, major, t)
            || minor_biased(p, Category::C, major, t) || minor_biased(p, Category::G, major, t)
            || minor_biased(p, Category::Deletion, major, t) || minor_biased(
            p,
            Category::Insertion,
            major,
            t,
        ) {
            return None;
        }
        assert(strand_balanced(*self, *p)) by {
            assert forall|cat: Category| cat != p.major() implies !strand_biased(
                #[trigger] p.slot(cat),
                t,
            ) by {
                match cat {
                    Category::A => {},
                    Category::T => {},
                    Category::C => {},
                    Category::G => {},
                    Category::Deletion => {},
                    Category::Insertion => {},
                }
            }
        }
        let minor_sum: u64 = minor_share(p, Category::A, major) as u64 + minor_share(
            p,
            Category::T,
            major,
        ) as u64 + minor_share(p, Category::C, major) as u64 + minor_share(p, Category::G, major)
            as u64 + minor_share(p, Category::Deletion, major) as u64 + minor_share(
            p,
            Category::Insertion,
            major,
        ) as u64;
        let a = self.ambiguity_threshold;
        proof {
            lemma_product_fits(minor_sum as nat, a.den as nat);
        }
        if minor_sum * (a.den as u64) <= (a.num as u64) * 10000 {
            return None;
        }
        let mut v: Vec<(Category, u32)> = Vec::new();
        push_entry(p, Category::A, &mut v);
        push_entry(p, Category::T, &mut v);
        push_entry(p, Category::C, &mut v);
        push_entry(p, Category::G, &mut v);
        push_entry(p, Category::Deletion, &mut v);
        push_entry(p, Category::Insertion, &mut v);
        Some(PositionRecord { position: pos + 1, proportions: v })
    }
}

} // verus!
