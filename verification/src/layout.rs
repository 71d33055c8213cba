//! The alphabet layout: a fixed table of rows of characters.
//!
//! Each cell `(row, column)` holds one displayable character.  The layout
//! serves two purposes: it labels the on-screen keys, and it translates a
//! typed character into the `(row, column)` coordinate of its cell.  Lookup
//! is case-insensitive and resolves to the first matching cell in row-major
//! order.

use vstd::prelude::*;
use crate::chars::{chars_eq_ci, eq_ci};

verus! {

/// Number of cells in the rows of `rows` before row `r`.
pub open spec fn cells_before(rows: Seq<Seq<char>>, r: int) -> int
    decreases r,
{
    if r <= 0 {
        0
    } else {
        cells_before(rows, r - 1) + rows[r - 1].len()
    }
}

/// Total number of cells of the grid `rows`.
pub open spec fn total_cells(rows: Seq<Seq<char>>) -> int {
    cells_before(rows, rows.len() as int)
}

/// The partial cell counts grow with the row index.
pub proof fn lemma_cells_before_monotonic(rows: Seq<Seq<char>>, r1: int, r2: int)
    requires
        r1 <= r2,
    ensures
        cells_before(rows, r1) <= cells_before(rows, r2),
    decreases r2 - r1,
{
    if r1 < r2 {
        lemma_cells_before_monotonic(rows, r1, r2 - 1);
    }
}

/// Column of the first cell of `row` at or after column `i` whose character
/// matches `ch` ignoring case, if any.
pub open spec fn find_in_row(row: Seq<char>, ch: char, i: int) -> Option<int>
    decreases row.len() - i,
{
    if i < 0 || i >= row.len() {
        None
    } else if eq_ci(row[i], ch) {
        Some(i)
    } else {
        find_in_row(row, ch, i + 1)
    }
}

/// First cell matching `ch` ignoring case, in row-major order starting at
/// row `r`, if any.
pub open spec fn find_from_row(rows: Seq<Seq<char>>, ch: char, r: int) -> Option<(int, int)>
    decreases rows.len() - r,
{
    if r < 0 || r >= rows.len() {
        None
    } else {
        match find_in_row(rows[r], ch, 0) {
            Some(c) => Some((r, c)),
            None => find_from_row(rows, ch, r + 1),
        }
    }
}

/// The grid cell that character `ch` resolves to: the first cell, in
/// row-major order, holding `ch` up to case, or `None` when the layout has
/// no cell for `ch`.
pub open spec fn cell_of(rows: Seq<Seq<char>>, ch: char) -> Option<(int, int)> {
    find_from_row(rows, ch, 0)
}

/// A found column lies in range, matches `ch`, and nothing before it does.
pub proof fn lemma_find_in_row_props(row: Seq<char>, ch: char, i: int)
    requires
        0 <= i,
    ensures
        find_in_row(row, ch, i) matches Some(j) ==> {
            &&& i <= j < row.len()
            &&& eq_ci(row[j], ch)
            &&& forall|k: int| i <= k < j ==> !eq_ci(row[k], ch)
        },
        find_in_row(row, ch, i) is None ==> forall|k: int|
            i <= k < row.len() ==> !eq_ci(row[k], ch),
    decreases row.len() - i,
{
    if 0 <= i < row.len() && !eq_ci(row[i], ch) {
        lemma_find_in_row_props(row, ch, i + 1);
    }
}

/// A found cell lies in range and matches `ch` ignoring case.
pub proof fn lemma_find_from_row_props(rows: Seq<Seq<char>>, ch: char, r: int)
    ensures
        find_from_row(rows, ch, r) matches Some(cell) ==> {
            &&& r <= cell.0 < rows.len()
            &&& 0 <= cell.1 < rows[cell.0].len()
            &&& eq_ci(rows[cell.0][cell.1], ch)
        },
    decreases rows.len() - r,
{
    if 0 <= r < rows.len() {
        lemma_find_in_row_props(rows[r], ch, 0);
        if find_in_row(rows[r], ch, 0) is None {
            lemma_find_from_row_props(rows, ch, r + 1);
        }
    }
}

/// Characters equal up to case resolve to the same cell.
pub proof fn lemma_eq_ci_same_cell(rows: Seq<Seq<char>>, a: char, b: char)
    requires
        eq_ci(a, b),
    ensures
        cell_of(rows, a) == cell_of(rows, b),
{
    lemma_eq_ci_same_find_from(rows, a, b, 0);
}

proof fn lemma_eq_ci_same_find_in_row(row: Seq<char>, a: char, b: char, i: int)
    requires
        eq_ci(a, b),
    ensures
        find_in_row(row, a, i) == find_in_row(row, b, i),
    decreases row.len() - i,
{
    if 0 <= i < row.len() {
        lemma_eq_ci_same_find_in_row(row, a, b, i + 1);
    }
}

proof fn lemma_eq_ci_same_find_from(rows: Seq<Seq<char>>, a: char, b: char, r: int)
    requires
        eq_ci(a, b),
    ensures
        find_from_row(rows, a, r) == find_from_row(rows, b, r),
    decreases rows.len() - r,
{
    if 0 <= r < rows.len() {
        lemma_eq_ci_same_find_in_row(rows[r], a, b, 0);
        lemma_eq_ci_same_find_from(rows, a, b, r + 1);
    }
}

/// The alphabet layout.  Construction checks that the total cell count fits
/// in `usize`, so that a scan over all cells can count with a `usize`.
pub struct Layout {
    rows: Vec<Vec<char>>,
}

impl View for Layout {
    type V = Seq<Seq<char>>;

    closed spec fn view(&self) -> Seq<Seq<char>> {
        self.rows@.map_values(|row: Vec<char>| row@)
    }
}

impl Layout {
    /// The layout's cells are few enough to count with a `usize`.
    pub open spec fn wf(&self) -> bool {
        total_cells(self@) <= usize::MAX
    }

    /// Builds a layout from its rows of characters.  Returns `None` exactly
    /// when the rows hold more cells than a `usize` can count.
    pub fn new(rows: Vec<Vec<char>>) -> (res: Option<Layout>)
        ensures
            res matches Some(l) ==> l@ == rows@.map_values(|row: Vec<char>| row@) && l.wf(),
            res is None <==> total_cells(rows@.map_values(|row: Vec<char>| row@)) > usize::MAX,
    {
        let ghost grid: Seq<Seq<char>> = rows@.map_values(|row: Vec<char>| row@);
        let mut total: usize = 0;
        let mut r: usize = 0;
        while r < rows.len()
            invariant
                r <= rows.len(),
                grid == rows@.map_values(|row: Vec<char>| row@),
                total == cells_before(grid, r as int),
            decreases rows.len() - r,
        {
            let len = rows[r].len();
            if len > usize::MAX - total {
                proof {
                    lemma_cells_before_monotonic(grid, r + 1, grid.len() as int);
                }
                return None;
            }
            total = total + len;
            r = r + 1;
        }
        Some(Layout { rows })
    }

    /// Number of rows.
    pub fn num_rows(&self) -> (n: usize)
        ensures
            n == self@.len(),
    {
        self.rows.len()
    }

    /// Number of cells in row `r`.
    pub fn row_len(&self, r: usize) -> (n: usize)
        requires
            r < self@.len(),
        ensures
            n == self@[r as int].len(),
    {
        self.rows[r].len()
    }

    /// The character of cell `(r, c)`.
    pub fn char_at(&self, r: usize, c: usize) -> (ch: char)
        requires
            r < self@.len(),
            c < self@[r as int].len(),
        ensures
            ch == self@[r as int][c as int],
    {
        self.rows[r][c]
    }

    /// Finds the cell that `ch` resolves to: the first cell, in row-major
    /// order, holding `ch` up to case.
    pub fn find_cell(&self, ch: char) -> (res: Option<(usize, usize)>)
        ensures
            res matches Some(cell) ==> cell_of(self@, ch) == Some(
                (cell.0 as int, cell.1 as int),
            ),
            res is None <==> cell_of(self@, ch) is None,
    {
        let mut r: usize = 0;
        while r < self.rows.len()
            invariant
                r <= self@.len(),
                cell_of(self@, ch) == find_from_row(self@, ch, r as int),
            decreases self@.len() - r,
        {
            let row = &self.rows[r];
            let mut c: usize = 0;
            while c < row.len()
                invariant
                    r < self@.len(),
                    c <= row@.len(),
                    row@ == self@[r as int],
                    cell_of(self@, ch) == find_from_row(self@, ch, r as int),
                    find_in_row(self@[r as int], ch, 0) == find_in_row(
                        self@[r as int],
                        ch,
                        c as int,
                    ),
                decreases row@.len() - c,
            {
                if chars_eq_ci(row[c], ch) {
                    proof {
                        assert(find_in_row(self@[r as int], ch, c as int) == Some(c as int));
                        assert(find_from_row(self@, ch, r as int) == Some(
                            (r as int, c as int),
                        ));
                    }
                    return Some((r, c));
                }
                proof {
                    assert(find_in_row(self@[r as int], ch, c as int) == find_in_row(
                        self@[r as int],
                        ch,
                        c as int + 1,
                    ));
                }
                c = c + 1;
            }
            proof {
                assert(find_in_row(self@[r as int], ch, c as int) is None);
                assert(find_from_row(self@, ch, r as int) == find_from_row(
                    self@,
                    ch,
                    r as int + 1,
                ));
            }
            r = r + 1;
        }
        proof {
            assert(find_from_row(self@, ch, r as int) is None);
        }
        None
    }
}

} // verus!
