use vstd::prelude::*;

verus! {

/// One of the six symbol categories a read observation can fall into.
/// The declaration order is the scan order used for the major-variant tie-break.
#[derive(Clone, Copy, Debug, PartialEq, Eq, Structural)]
pub enum Category {
    A,
    T,
    C,
    G,
    Deletion,
    Insertion,
}

impl Category {
    /// Position of the category in the fixed order `A, T, C, G, deletion, insertion`.
    pub open spec fn rank(self) -> nat {
        match self {
            Category::A => 0,
            Category::T => 1,
            Category::C => 2,
            Category::G => 3,
            Category::Deletion => 4,
            Category::Insertion => 5,
        }
    }

    /// The category that a nucleotide letter of either case denotes, if any.
    pub open spec fn of_base_spec(b: u8) -> Option<Category> {
        if b == 65u8 || b == 97u8 {
            Some(Category::A)
        } else if b == 84u8 || b == 116u8 {
            Some(Category::T)
        } else if b == 67u8 || b == 99u8 {
            Some(Category::C)
        } else if b == 71u8 || b == 103u8 {
            Some(Category::G)
        } else {
            None
        }
    }

    /// Maps a base character (either case) to its category; any other byte has none.
    pub fn of_base(b: u8) -> (r: Option<Category>)
        ensures
            r == Category::of_base_spec(b),
    {
        if b == 65u8 || b == 97u8 {
            Some(Category::A)
        } else if b == 84u8 || b == 116u8 {
            Some(Category::T)
        } else if b == 67u8 || b == 99u8 {
            Some(Category::C)
        } else if b == 71u8 || b == 103u8 {
            Some(Category::G)
        } else {
            None
        }
    }
}

} // verus!
