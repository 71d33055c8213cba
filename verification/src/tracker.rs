//! The guess tracker: one "still available" flag per alphabet cell.
//!
//! A fresh tracker has every flag `true`.  The only mutation is marking a
//! cell guessed, which sets its flag to `false`; a flag is never flipped
//! back, so marking is idempotent.

use vstd::prelude::*;

verus! {

/// The flag grid after cell `(r, c)` is marked guessed.
pub open spec fn mark_spec(grid: Seq<Seq<bool>>, r: int, c: int) -> Seq<Seq<bool>> {
    grid.update(r, grid[r].update(c, false))
}

/// A fresh flag grid with the dimensions of the char grid `rows`, every
/// flag `true`.
pub open spec fn fresh_grid(rows: Seq<Seq<char>>) -> Seq<Seq<bool>> {
    Seq::new(rows.len(), |r: int| Seq::new(rows[r].len(), |c: int| true))
}

/// The flag grid has the dimensions of the char grid `rows`.
pub open spec fn dims_match(grid: Seq<Seq<bool>>, rows: Seq<Seq<char>>) -> bool {
    &&& grid.len() == rows.len()
    &&& forall|r: int| 0 <= r < rows.len() ==> (#[trigger] grid[r]).len() == rows[r].len()
}

/// Law: marking a cell guessed twice leaves the same grid as marking it once.
pub proof fn lemma_mark_idempotent(grid: Seq<Seq<bool>>, r: int, c: int)
    requires
        0 <= r < grid.len(),
        0 <= c < grid[r].len(),
    ensures
        mark_spec(mark_spec(grid, r, c), r, c) == mark_spec(grid, r, c),
{
    assert(mark_spec(mark_spec(grid, r, c), r, c) =~~= mark_spec(grid, r, c));
}

/// The guess tracker.
pub struct Tracker {
    avail: Vec<Vec<bool>>,
}

impl View for Tracker {
    type V = Seq<Seq<bool>>;

    closed spec fn view(&self) -> Seq<Seq<bool>> {
        self.avail@.map_values(|row: Vec<bool>| row@)
    }
}

impl Tracker {
    /// A fresh tracker with the dimensions of the char grid `rows`, every
    /// cell still available.
    pub fn new(rows: &crate::layout::Layout) -> (t: Tracker)
        ensures
            t@ == fresh_grid(rows@),
    {
        let mut avail: Vec<Vec<bool>> = Vec::new();
        let mut r: usize = 0;
        while r < rows.num_rows()
            invariant
                r <= rows@.len(),
                avail@.len() == r,
                forall|i: int| 0 <= i < r ==> (#[trigger] avail@[i])@ == fresh_grid(rows@)[i],
            decreases rows@.len() - r,
        {
            let len = rows.row_len(r);
            let mut row: Vec<bool> = Vec::new();
            let mut c: usize = 0;
            while c < len
                invariant
                    c <= len,
                    row@.len() == c,
                    forall|j: int| 0 <= j < c ==> row@[j] == true,
                decreases len - c,
            {
                row.push(true);
                c = c + 1;
            }
            proof {
                assert(row@ =~= Seq::new(rows@[r as int].len(), |c: int| true));
            }
            avail.push(row);
            r = r + 1;
        }
        let t = Tracker { avail };
        proof {
            assert(t@ =~~= fresh_grid(rows@));
        }
        t
    }

    /// Number of rows.
    pub fn num_rows(&self) -> (n: usize)
        ensures
            n == self@.len(),
    {
        self.avail.len()
    }

    /// Number of cells in row `r`.
    pub fn row_len(&self, r: usize) -> (n: usize)
        requires
            r < self@.len(),
        ensures
            n == self@[r as int].len(),
    {
        self.avail[r].len()
    }

    /// Whether cell `(r, c)` is still available (its letter not yet guessed).
    pub fn is_available(&self, r: usize, c: usize) -> (b: bool)
        requires
            r < self@.len(),
            c < self@[r as int].len(),
        ensures
            b == self@[r as int][c as int],
    {
        self.avail[r][c]
    }

    /// Marks cell `(r, c)` guessed.  Idempotent: an already-guessed cell
    /// stays guessed.  The caller supplies in-range coordinates, normally
    /// obtained from a successful layout lookup.
    pub fn mark_guessed(&mut self, r: usize, c: usize)
        requires
            r < old(self)@.len(),
            c < old(self)@[r as int].len(),
        ensures
            final(self)@ == mark_spec(old(self)@, r as int, c as int),
    {
        let row = &mut self.avail[r];
        let cell = &mut row[c];
        *cell = false;
        proof {
            assert(self@ =~~= mark_spec(old(self)@, r as int, c as int));
        }
    }
}

} // verus!
