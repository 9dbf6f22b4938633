use vstd::prelude::*;

use crate::region::get_start_stop;

verus! {

/// The depth profile run over one alignment file.
pub struct Depth<'a> {
    pub input: &'a str,
    pub chrom: Option<&'a str>,
    /// First 0-based position of the window.
    pub start: u32,
    /// End of the window, exclusive.
    pub stop: u32,
    pub output: String,
}

/// The `(1-based position, raw depth)` samples of the columns that lie in `[start, stop)`,
/// each column given as `(0-based position, raw depth)`.
pub open spec fn depth_series(start: u32, stop: u32, cols: Seq<(u32, u32)>) -> Seq<(u32, u32)>
    decreases cols.len(),
{
    if cols.len() == 0 {
        Seq::empty()
    } else {
        let prev = depth_series(start, stop, cols.drop_last());
        let (pos, depth) = cols.last();
        if start <= pos && pos < stop {
            prev.push(((pos + 1) as u32, depth))
        } else {
            prev
        }
    }
}

impl<'a> Depth<'a> {
    /// Builds a run from a 1-based inclusive start and an optional end.
    pub fn new(
        input: &'a str,
        chrom: Option<&'a str>,
        start: Option<u32>,
        stop: Option<u32>,
        output: String,
    ) -> (r: Self)
        requires
            start.is_some() || stop.is_none(),
            start.is_some() ==> start.unwrap() >= 1,
        ensures
            r.input == input,
            r.chrom == chrom,
            r.start == (if start.is_some() {
                start.unwrap() - 1
            } else {
                0
            }),
            r.stop == (if stop.is_some() {
                stop.unwrap()
            } else {
                u32::MAX
            }),
            r.output == output,
    {
        let (start, stop) = get_start_stop(start, stop);
        Depth { input, chrom, start, stop, output }
    }

    /// Splits the in-window columns into aligned 1-based positions and raw depths.
    pub fn process_pileup(&self, columns: &Vec<(u32, u32)>) -> (r: (Vec<u32>, Vec<u32>))
        ensures
            r.0@.len() == depth_series(self.start, self.stop, columns@).len(),
            r.1@.len() == r.0@.len(),
            forall|i: int|
                0 <= i < r.0@.len() ==> (#[trigger] r.0@[i]) == depth_series(
                    self.start,
                    self.stop,
                    columns@,
                )[i].0 && r.1@[i] == depth_series(self.start, self.stop, columns@)[i].1,
    {
        let mut x: Vec<u32> = Vec::new();
        let mut y: Vec<u32> = Vec::new();
        let n = columns.len();
        let mut i: usize = 0;
        while i < n
            invariant
                n == columns@.len(),
                i <= n,
                x@.len() == depth_series(self.start, self.stop, columns@.subrange(0, i as int)).len(),
                y@.len() == x@.len(),
                forall|j: int|
                    0 <= j < x@.len() ==> (#[trigger] x@[j]) == depth_series(
                        self.start,
                        self.stop,
                        columns@.subrange(0, i as int),
                    )[j].0 && y@[j] == depth_series(
                        self.start,
                        self.stop,
                        columns@.subrange(0, i as int),
                    )[j].1,
            decreases n - i,
        {
            assert(columns@.subrange(0, i + 1).drop_last() =~= columns@.subrange(0, i as int));
            let (pos, depth) = columns[i];
            if pos >= self.start && pos < self.stop {
                x.push(pos + 1);
                y.push(depth);
            }
            i += 1;
        }
        assert(columns@.subrange(0, n as int) =~= columns@);
        (x, y)
    }
}

} // verus!
