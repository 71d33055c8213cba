//! A game session: the alphabet layout, the secret word and the guess
//! tracker, with the three derived outputs of the game.
//!
//! Input events (a typed character, an activated key cell) flip tracker
//! flags; each frame the game derives the masked display word, the
//! wrong-guess count and the figure draw state afresh from the tracker.

use vstd::prelude::*;
use crate::chars::{chars_eq_ci, eq_ci};
use crate::figure::{state_of_mistakes, ManState};
use crate::layout::{
    cell_of, cells_before, lemma_cells_before_monotonic, lemma_eq_ci_same_cell,
    lemma_find_from_row_props, total_cells, Layout,
};
use crate::tracker::{dims_match, fresh_grid, lemma_mark_idempotent, mark_spec, Tracker};

verus! {

/// Does `ch` occur in `word`, ignoring case?
pub open spec fn occurs_ci(word: Seq<char>, ch: char) -> bool {
    exists|i: int| 0 <= i < word.len() && eq_ci(word[i], ch)
}

/// The display character for word character `ch`: `ch` itself once the cell
/// it resolves to has been guessed, the placeholder `'-'` while that cell is
/// still available.  A character with no cell in the layout is never
/// revealed.
pub open spec fn masked_char(rows: Seq<Seq<char>>, grid: Seq<Seq<bool>>, ch: char) -> char {
    match cell_of(rows, ch) {
        Some(cell) => if grid[cell.0][cell.1] {
            '-'
        } else {
            ch
        },
        None => '-',
    }
}

/// The masked display word: one display character per word character, case
/// of revealed characters preserved.
pub open spec fn masked_seq(rows: Seq<Seq<char>>, grid: Seq<Seq<bool>>, word: Seq<char>) -> Seq<
    char,
> {
    Seq::new(word.len(), |i: int| masked_char(rows, grid, word[i]))
}

/// Number of wrong guesses among the cells of row `row` from column `c` on:
/// cells already guessed whose character does not occur in the word.
pub open spec fn wrong_in_row_from(row: Seq<char>, avail: Seq<bool>, word: Seq<char>, c: int) -> nat
    decreases row.len() - c,
{
    if c < 0 || c >= row.len() {
        0
    } else {
        (if !avail[c] && !occurs_ci(word, row[c]) {
            1nat
        } else {
            0nat
        }) + wrong_in_row_from(row, avail, word, c + 1)
    }
}

/// Number of wrong guesses in the rows from `r` on.
pub open spec fn wrong_from_row(
    rows: Seq<Seq<char>>,
    grid: Seq<Seq<bool>>,
    word: Seq<char>,
    r: int,
) -> nat
    decreases rows.len() - r,
{
    if r < 0 || r >= rows.len() {
        0
    } else {
        wrong_in_row_from(rows[r], grid[r], word, 0) + wrong_from_row(rows, grid, word, r + 1)
    }
}

/// The wrong-guess count: guessed cells whose character does not occur,
/// ignoring case, in the secret word.
pub open spec fn wrong_count(rows: Seq<Seq<char>>, grid: Seq<Seq<bool>>, word: Seq<char>) -> nat {
    wrong_from_row(rows, grid, word, 0)
}

/// Decides whether `ch` occurs in `word`, ignoring case.
pub fn word_contains_ci(word: &Vec<char>, ch: char) -> (r: bool)
    ensures
        r == occurs_ci(word@, ch),
{
    let mut i: usize = 0;
    while i < word.len()
        invariant
            i <= word@.len(),
            forall|j: int| 0 <= j < i ==> !eq_ci(word@[j], ch),
        decreases word@.len() - i,
    {
        if chars_eq_ci(word[i], ch) {
            return true;
        }
        i = i + 1;
    }
    false
}

/// A game session.
pub struct Game {
    layout: Layout,
    word: Vec<char>,
    tracker: Tracker,
}

impl Game {
    /// The alphabet layout's character grid.
    pub closed spec fn alphabet(&self) -> Seq<Seq<char>> {
        self.layout@
    }

    /// The secret word.
    pub closed spec fn word(&self) -> Seq<char> {
        self.word@
    }

    /// The tracker's availability grid.
    pub closed spec fn grid(&self) -> Seq<Seq<bool>> {
        self.tracker@
    }

    /// Well-formed: the tracker grid has the layout's dimensions, and the
    /// layout's cells are few enough to count with a `usize`.
    pub open spec fn wf(&self) -> bool {
        &&& total_cells(self.alphabet()) <= usize::MAX
        &&& dims_match(self.grid(), self.alphabet())
    }

    /// Starts a game over `layout` with secret word `word`: every alphabet
    /// cell is still available.
    pub fn new(layout: Layout, word: Vec<char>) -> (g: Game)
        requires
            layout.wf(),
        ensures
            g.wf(),
            g.alphabet() == layout@,
            g.word() == word@,
            g.grid() == fresh_grid(layout@),
    {
        let tracker = Tracker::new(&layout);
        Game { layout, word, tracker }
    }

    /// Number of rows of the alphabet layout.
    pub fn num_rows(&self) -> (n: usize)
        ensures
            n == self.alphabet().len(),
    {
        self.layout.num_rows()
    }

    /// Number of cells in row `r` of the alphabet layout.
    pub fn row_len(&self, r: usize) -> (n: usize)
        requires
            r < self.alphabet().len(),
        ensures
            n == self.alphabet()[r as int].len(),
    {
        self.layout.row_len(r)
    }

    /// The character of alphabet cell `(r, c)`.
    pub fn char_at(&self, r: usize, c: usize) -> (ch: char)
        requires
            r < self.alphabet().len(),
            c < self.alphabet()[r as int].len(),
        ensures
            ch == self.alphabet()[r as int][c as int],
    {
        self.layout.char_at(r, c)
    }

    /// Whether alphabet cell `(r, c)` is still available, for rendering the
    /// on-screen keyboard.
    pub fn is_available(&self, r: usize, c: usize) -> (b: bool)
        requires
            self.wf(),
            r < self.alphabet().len(),
            c < self.alphabet()[r as int].len(),
        ensures
            b == self.grid()[r as int][c as int],
    {
        self.tracker.is_available(r, c)
    }

    /// Applies a typed character: the cell it resolves to, if any, is
    /// marked guessed; a character with no cell in the layout is silently
    /// ignored.
    pub fn key_pressed(&mut self, ch: char)
        requires
            old(self).wf(),
        ensures
            final(self).wf(),
            final(self).alphabet() == old(self).alphabet(),
            final(self).word() == old(self).word(),
            match cell_of(old(self).alphabet(), ch) {
                Some(cell) => final(self).grid() == mark_spec(old(self).grid(), cell.0, cell.1),
                None => final(self).grid() == old(self).grid(),
            },
    {
        match self.layout.find_cell(ch) {
            Some((r, c)) => {
                proof {
                    lemma_find_from_row_props(self.layout@, ch, 0);
                }
                self.tracker.mark_guessed(r, c);
            },
            None => {},
        }
    }

    /// Applies an activated key cell: an in-range cell is marked guessed; an
    /// out-of-range coordinate is silently ignored.
    pub fn toggle_cell(&mut self, r: usize, c: usize)
        requires
            old(self).wf(),
        ensures
            final(self).wf(),
            final(self).alphabet() == old(self).alphabet(),
            final(self).word() == old(self).word(),
            final(self).grid() == if r < old(self).alphabet().len() && c < old(self).alphabet()[
                r as int].len() {
                mark_spec(old(self).grid(), r as int, c as int)
            } else {
                old(self).grid()
            },
    {
        if r < self.tracker.num_rows() {
            if c < self.tracker.row_len(r) {
                self.tracker.mark_guessed(r, c);
            }
        }
    }

    /// The masked display word derived from the current tracker.
    pub fn masked_word(&self) -> (m: Vec<char>)
        requires
            self.wf(),
        ensures
            m@ == masked_seq(self.alphabet(), self.grid(), self.word()),
    {
        let mut m: Vec<char> = Vec::new();
        let mut i: usize = 0;
        while i < self.word.len()
            invariant
                self.wf(),
                i <= self.word().len(),
                m@.len() == i,
                forall|j: int| 0 <= j < i ==> m@[j] == masked_char(
                    self.alphabet(),
                    self.grid(),
                    self.word()[j],
                ),
            decreases self.word().len() - i,
        {
            let ch = self.word[i];
            match self.layout.find_cell(ch) {
                Some((r, c)) => {
                    proof {
                        lemma_find_from_row_props(self.alphabet(), ch, 0);
                    }
                    if self.tracker.is_available(r, c) {
                        m.push('-');
                    } else {
                        m.push(ch);
                    }
                },
                None => {
                    m.push('-');
                },
            }
            i = i + 1;
        }
        proof {
            assert(m@ =~= masked_seq(self.alphabet(), self.grid(), self.word()));
        }
        m
    }

    /// The wrong-guess count derived from the current tracker: guessed
    /// cells whose character does not occur, ignoring case, in the word.
    pub fn wrong_guesses(&self) -> (count: usize)
        requires
            self.wf(),
        ensures
            count == wrong_count(self.alphabet(), self.grid(), self.word()),
    {
        let ghost rows = self.alphabet();
        let ghost grid = self.grid();
        let ghost word = self.word();
        let mut count: usize = 0;
        let mut r: usize = 0;
        while r < self.layout.num_rows()
            invariant
                self.wf(),
                rows == self.alphabet(),
                grid == self.grid(),
                word == self.word(),
                r <= rows.len(),
                count + wrong_from_row(rows, grid, word, r as int) == wrong_count(
                    rows,
                    grid,
                    word,
                ),
                count <= cells_before(rows, r as int),
            decreases rows.len() - r,
        {
            let len = self.layout.row_len(r);
            let mut c: usize = 0;
            while c < len
                invariant
                    self.wf(),
                    rows == self.alphabet(),
                    grid == self.grid(),
                    word == self.word(),
                    r < rows.len(),
                    len == rows[r as int].len(),
                    c <= len,
                    count + wrong_in_row_from(rows[r as int], grid[r as int], word, c as int)
                        + wrong_from_row(rows, grid, word, r as int + 1) == wrong_count(
                        rows,
                        grid,
                        word,
                    ),
                    count <= cells_before(rows, r as int) + c,
                decreases len - c,
            {
                let guessed = !self.tracker.is_available(r, c);
                if guessed && !word_contains_ci(&self.word, self.layout.char_at(r, c)) {
                    proof {
                        assert(cells_before(rows, r as int + 1) == cells_before(rows, r as int)
                            + rows[r as int].len());
                        lemma_cells_before_monotonic(rows, r as int + 1, rows.len() as int);
                    }
                    count = count + 1;
                }
                c = c + 1;
            }
            r = r + 1;
        }
        count
    }

    /// The figure draw state derived from the current wrong-guess count.
    pub fn figure_state(&self) -> (s: ManState)
        requires
            self.wf(),
        ensures
            s == state_of_mistakes(wrong_count(self.alphabet(), self.grid(), self.word())),
    {
        let w = self.wrong_guesses();
        if w >= 6 {
            ManState::Dead
        } else {
            ManState::from_mistakes(w as u32)
        }
    }

    /// Whether every character of the word is shown: the win condition the
    /// caller may test after each guess.
    pub fn is_fully_revealed(&self) -> (b: bool)
        requires
            self.wf(),
        ensures
            b == (masked_seq(self.alphabet(), self.grid(), self.word()) == self.word()),
    {
        let m = self.masked_word();
        let mut i: usize = 0;
        while i < m.len()
            invariant
                i <= m@.len(),
                m@ == masked_seq(self.alphabet(), self.grid(), self.word()),
                m@.len() == self.word().len(),
                forall|j: int| 0 <= j < i ==> m@[j] == self.word()[j],
            decreases m@.len() - i,
        {
            if m[i] != self.word[i] {
                proof {
                    assert(masked_seq(self.alphabet(), self.grid(), self.word())[i as int]
                        != self.word()[i as int]);
                }
                return false;
            }
            i = i + 1;
        }
        proof {
            assert(m@ =~= self.word());
        }
        true
    }
}

/// `grid2` has guessed every cell that `grid1` has (and has the same shape).
pub open spec fn at_least_as_guessed(grid1: Seq<Seq<bool>>, grid2: Seq<Seq<bool>>) -> bool {
    &&& grid2.len() == grid1.len()
    &&& forall|r: int| 0 <= r < grid1.len() ==> (#[trigger] grid2[r]).len() == grid1[r].len()
    &&& forall|r: int, c: int|
        0 <= r < grid1.len() && 0 <= c < grid1[r].len() && !grid1[r][c] ==> !(
        #[trigger] grid2[r][c])
}

proof fn lemma_wrong_in_row_monotonic(
    row: Seq<char>,
    avail1: Seq<bool>,
    avail2: Seq<bool>,
    word: Seq<char>,
    c: int,
)
    requires
        avail1.len() == row.len(),
        avail2.len() == row.len(),
        forall|k: int| 0 <= k < row.len() && !avail1[k] ==> !(#[trigger] avail2[k]),
    ensures
        wrong_in_row_from(row, avail1, word, c) <= wrong_in_row_from(row, avail2, word, c),
    decreases row.len() - c,
{
    if 0 <= c < row.len() {
        lemma_wrong_in_row_monotonic(row, avail1, avail2, word, c + 1);
    }
}

proof fn lemma_wrong_from_row_monotonic(
    rows: Seq<Seq<char>>,
    grid1: Seq<Seq<bool>>,
    grid2: Seq<Seq<bool>>,
    word: Seq<char>,
    r: int,
)
    requires
        dims_match(grid1, rows),
        dims_match(grid2, rows),
        at_least_as_guessed(grid1, grid2),
    ensures
        wrong_from_row(rows, grid1, word, r) <= wrong_from_row(rows, grid2, word, r),
    decreases rows.len() - r,
{
    if 0 <= r < rows.len() {
        lemma_wrong_in_row_monotonic(rows[r], grid1[r], grid2[r], word, 0);
        lemma_wrong_from_row_monotonic(rows, grid1, grid2, word, r + 1);
    }
}

/// Law: guessing more cells never lowers the wrong-guess count, so over the
/// life of a game, whose tracker flags are only ever flipped to guessed, the
/// count — and with it the figure state — only advances.
pub proof fn lemma_wrong_count_monotonic(
    rows: Seq<Seq<char>>,
    grid1: Seq<Seq<bool>>,
    grid2: Seq<Seq<bool>>,
    word: Seq<char>,
)
    requires
        dims_match(grid1, rows),
        dims_match(grid2, rows),
        at_least_as_guessed(grid1, grid2),
    ensures
        wrong_count(rows, grid1, word) <= wrong_count(rows, grid2, word),
{
    lemma_wrong_from_row_monotonic(rows, grid1, grid2, word, 0);
}

/// Law: marking one more cell guessed never lowers the wrong-guess count.
pub proof fn lemma_mark_advances_wrong_count(
    rows: Seq<Seq<char>>,
    grid: Seq<Seq<bool>>,
    word: Seq<char>,
    r: int,
    c: int,
)
    requires
        dims_match(grid, rows),
        0 <= r < grid.len(),
        0 <= c < grid[r].len(),
    ensures
        wrong_count(rows, grid, word) <= wrong_count(rows, mark_spec(grid, r, c), word),
{
    lemma_wrong_count_monotonic(rows, grid, mark_spec(grid, r, c), word);
}

/// Law: marking the same cell guessed twice yields the same display word as
/// marking it once.
pub proof fn lemma_mask_idempotent(
    rows: Seq<Seq<char>>,
    grid: Seq<Seq<bool>>,
    word: Seq<char>,
    r: int,
    c: int,
)
    requires
        0 <= r < grid.len(),
        0 <= c < grid[r].len(),
    ensures
        masked_seq(rows, mark_spec(mark_spec(grid, r, c), r, c), word) == masked_seq(
            rows,
            mark_spec(grid, r, c),
            word,
        ),
{
    lemma_mark_idempotent(grid, r, c);
}

/// Law: starting from a fresh tracker, marking the cell that its character
/// resolves to and masking the word reveals exactly the occurrences of that
/// character, ignoring case, and nothing else.
pub proof fn lemma_reveal_round_trip(rows: Seq<Seq<char>>, word: Seq<char>, r: int, c: int)
    requires
        0 <= r < rows.len(),
        0 <= c < rows[r].len(),
        cell_of(rows, rows[r][c]) == Some((r, c)),
    ensures
        forall|i: int| 0 <= i < word.len() ==> #[trigger] masked_seq(
            rows,
            mark_spec(fresh_grid(rows), r, c),
            word,
        )[i] == (if eq_ci(word[i], rows[r][c]) {
            word[i]
        } else {
            '-'
        }),
{
    let x = rows[r][c];
    let grid = mark_spec(fresh_grid(rows), r, c);
    assert forall|i: int| 0 <= i < word.len() implies #[trigger] masked_seq(rows, grid, word)[i]
        == (if eq_ci(word[i], x) {
        word[i]
    } else {
        '-'
    }) by {
        if eq_ci(word[i], x) {
            lemma_eq_ci_same_cell(rows, word[i], x);
            assert(grid[r][c] == false);
        } else {
            match cell_of(rows, word[i]) {
                Some(cell) => {
                    lemma_find_from_row_props(rows, word[i], 0);
                    assert(!(cell.0 == r && cell.1 == c));
                    assert(grid[cell.0][cell.1] == true);
                },
                None => {},
            }
        }
    }
}

} // verus!
