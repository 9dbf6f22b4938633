use vstd::prelude::*;

use crate::category::Category;

verus! {

/// Observations of one category, split by strand.
#[derive(Clone, Copy, Debug, PartialEq, Eq, Structural)]
pub struct StrandCount {
    pub total: u32,
    pub forward: u32,
    pub reverse: u32,
}

impl StrandCount {
    pub open spec fn wf(self) -> bool {
        self.total == self.forward + self.reverse
    }

    pub fn empty() -> (r: StrandCount)
        ensures
            r.wf(),
            r.total == 0 && r.forward == 0 && r.reverse == 0,
    {
        StrandCount { total: 0, forward: 0, reverse: 0 }
    }
}

/// The tally of one pileup column: a strand-split count for every category.
#[derive(Clone, Copy, Debug, PartialEq, Eq, Structural)]
pub struct Pileup {
    pub a: StrandCount,
    pub t: StrandCount,
    pub c: StrandCount,
    pub g: StrandCount,
    pub del: StrandCount,
    pub ins: StrandCount,
}

impl Pileup {
    pub open spec fn slot(self, cat: Category) -> StrandCount {
        match cat {
            Category::A => self.a,
            Category::T => self.t,
            Category::C => self.c,
            Category::G => self.g,
            Category::Deletion => self.del,
            Category::Insertion => self.ins,
        }
    }

    pub open spec fn count(self, cat: Category) -> nat {
        self.slot(cat).total as nat
    }

    /// Sum of the six category totals.
    pub open spec fn total_spec(self) -> nat {
        self.count(Category::A) + self.count(Category::T) + self.count(Category::C)
            + self.count(Category::G) + self.count(Category::Deletion) + self.count(
            Category::Insertion,
        )
    }

    /// Every category's total is the sum of its strands, and the column total fits a `u32`.
    pub open spec fn wf(self) -> bool {
        &&& forall|cat: Category| #[trigger] self.slot(cat).wf()
        &&& self.total_spec() <= u32::MAX
    }

    /// `cat` has the highest count, and every later category has strictly less.
    pub open spec fn is_major(self, cat: Category) -> bool {
        forall|d: Category|
            #![trigger self.count(d)]
            self.count(d) <= self.count(cat) && (d.rank() > cat.rank() ==> self.count(d)
                < self.count(cat))
    }

    /// The major variant: highest count, the later category winning a tie.
    pub open spec fn major(self) -> Category {
        choose|cat: Category| self.is_major(cat)
    }

    pub open spec fn nonzero(self, cat: Category) -> nat {
        if self.count(cat) > 0 {
            1
        } else {
            0
        }
    }

    /// Number of categories with a nonzero count.
    pub open spec fn nonzero_count(self) -> nat {
        self.nonzero(Category::A) + self.nonzero(Category::T) + self.nonzero(Category::C)
            + self.nonzero(Category::G) + self.nonzero(Category::Deletion) + self.nonzero(
            Category::Insertion,
        )
    }

    /// An empty tally.
    pub fn new() -> (r: Pileup)
        ensures
            r.wf(),
            forall|cat: Category| #[trigger] r.count(cat) == 0 && r.slot(cat).forward == 0,
    {
        Pileup {
            a: StrandCount::empty(),
            t: StrandCount::empty(),
            c: StrandCount::empty(),
            g: StrandCount::empty(),
            del: StrandCount::empty(),
            ins: StrandCount::empty(),
        }
    }

    pub fn get_total(&self) -> (r: u32)
        requires
            self.wf(),
        ensures
            r == self.total_spec(),
    {
        self.a.total + self.t.total + self.c.total + self.g.total + self.del.total + self.ins.total
    }

    /// The strand-split count of one category.
    pub fn get_slot(&self, cat: Category) -> (r: StrandCount)
        ensures
            r == self.slot(cat),
    {
        match cat {
            Category::A => self.a,
            Category::T => self.t,
            Category::C => self.c,
            Category::G => self.g,
            Category::Deletion => self.del,
            Category::Insertion => self.ins,
        }
    }

    /// The forward count and the total of a category, or `None` when it has no reads.
    pub fn get_strand_ratio(&self, cat: Category) -> (r: Option<(u32, u32)>)
        ensures
            r == (if self.count(cat) == 0 {
                None
            } else {
                Some((self.slot(cat).forward, self.slot(cat).total))
            }),
    {
        let s = self.get_slot(cat);
        if s.total == 0 {
            None
        } else {
            Some((s.forward, s.total))
        }
    }

    pub fn get_base_count(&self, cat: Category) -> (r: u32)
        ensures
            r == self.count(cat),
    {
        self.get_slot(cat).total
    }

    /// Records one observation of `cat` on the given strand.
    pub fn add(&mut self, cat: Category, reverse: bool)
        requires
            old(self).wf(),
            old(self).total_spec() < u32::MAX,
        ensures
            final(self).wf(),
            final(self).total_spec() == old(self).total_spec() + 1,
            final(self).slot(cat).total == old(self).slot(cat).total + 1,
            final(self).slot(cat).forward == old(self).slot(cat).forward + (if reverse {
                0int
            } else {
                1int
            }),
            final(self).slot(cat).reverse == old(self).slot(cat).reverse + (if reverse {
                1int
            } else {
                0int
            }),
            forall|d: Category| d != cat ==> #[trigger] final(self).slot(d) == old(self).slot(d),
    {
        let s = self.get_slot(cat);
        assert(s.wf());
        let n = if reverse {
            StrandCount { total: s.total + 1, forward: s.forward, reverse: s.reverse + 1 }
        } else {
            StrandCount { total: s.total + 1, forward: s.forward + 1, reverse: s.reverse }
        };
        match cat {
            Category::A => self.a = n,
            Category::T => self.t = n,
            Category::C => self.c = n,
            Category::G => self.g = n,
            Category::Deletion => self.del = n,
            Category::Insertion => self.ins = n,
        }
        assert forall|d: Category| #[trigger] final(self).slot(d).wf() by {
            if d != cat {
                assert(old(self).slot(d).wf());
            }
        }
    }

    /// The category with the highest count, scanning `A, T, C, G, deletion, insertion`
    /// and letting a later category take a tie.
    pub fn get_major_variant(&self) -> (r: Category)
        ensures
            self.is_major(r),
            r == self.major(),
    {
        let mut best = Category::A;
        let mut best_n = self.a.total;
        if self.t.total >= best_n {
            best = Category::T;
            best_n = self.t.total;
        }
        if self.c.total >= best_n {
            best = Category::C;
            best_n = self.c.total;
        }
        if self.g.total >= best_n {
            best = Category::G;
            best_n = self.g.total;
        }
        if self.del.total >= best_n {
            best = Category::Deletion;
            best_n = self.del.total;
        }
        if self.ins.total >= best_n {
            best = Category::Insertion;
            best_n = self.ins.total;
        }
        assert(self.is_major(best));
        proof {
            lemma_major_unique(*self, best, self.major());
        }
        best
    }

    /// Whether more than one category has a nonzero count.
    pub fn is_ambiguous(&self) -> (r: bool)
        ensures
            r == (self.nonzero_count() > 1),
    {
        let mut count: u32 = 0;
        if self.a.total > 0 {
            count += 1;
        }
        if self.t.total > 0 {
            count += 1;
        }
        if self.c.total > 0 {
            count += 1;
        }
        if self.g.total > 0 {
            count += 1;
        }
        if self.del.total > 0 {
            count += 1;
        }
        if self.ins.total > 0 {
            count += 1;
        }
        count > 1
    }
}

/// At most one category is the major variant of a tally.
pub proof fn lemma_major_unique(p: Pileup, c1: Category, c2: Category)
    requires
        p.is_major(c1),
    ensures
        p.is_major(c2) ==> c1 == c2,
        p.is_major(p.major()),
{
    if p.is_major(c2) && c1 != c2 {
        assert(p.count(c1) <= p.count(c2));
        assert(p.count(c2) <= p.count(c1));
        if c1.rank() < c2.rank() {
            assert(p.count(c2) < p.count(c1));
        } else {
            assert(p.count(c1) < p.count(c2));
        }
    }
}

/// When two categories share the highest count, the one later in the order
/// `A, T, C, G, deletion, insertion` is the major variant.
pub proof fn lemma_tie_goes_to_later(p: Pileup, earlier: Category, later: Category)
    requires
        earlier.rank() < later.rank(),
        p.count(earlier) == p.count(later),
        forall|d: Category|
            d != earlier && d != later ==> #[trigger] p.count(d) < p.count(later),
    ensures
        p.major() == later,
{
    assert(p.is_major(later));
    lemma_major_unique(p, later, p.major());
}

} // verus!
