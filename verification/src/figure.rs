//! Draw state of the hanged figure.
//!
//! The figure advances through seven stages: free (nothing drawn), five
//! intermediate stages adding one body part each (body, two arms, two legs),
//! and dead (all parts plus a dead-style head).  The stage is derived fresh
//! from the current wrong-guess count; nothing is stored.

use vstd::prelude::*;

verus! {

/// Number of body parts drawn while the figure is still alive.
pub const MAX_STAGES: u8 = 5;

/// Draw state of the figure.
#[derive(Clone, Copy, Debug, PartialEq, Eq, Structural)]
pub enum ManState {
    /// No mistakes yet: no figure is drawn.
    Free,
    /// `stage + 1` wrong guesses: the head plus `stage` body parts are drawn,
    /// with `stage` in `0..=4`.
    Alive(u8),
    /// Six or more wrong guesses: the whole figure with a dead-style head.
    Dead,
}

/// The draw state that `wrong` wrong guesses map to:
/// `Free` for 0, `Alive(wrong - 1)` for 1..=5, `Dead` from 6 on.
pub open spec fn state_of_mistakes(wrong: nat) -> ManState {
    if wrong == 0 {
        ManState::Free
    } else if wrong <= MAX_STAGES as nat {
        ManState::Alive((wrong - 1) as u8)
    } else {
        ManState::Dead
    }
}

/// Position of a state in the ordering
/// `Free < Alive(0) < ... < Alive(4) < Dead`.
pub open spec fn state_rank(s: ManState) -> int {
    match s {
        ManState::Free => 0,
        ManState::Alive(stage) => 1 + stage,
        ManState::Dead => 1 + MAX_STAGES as int,
    }
}

impl ManState {
    /// Converts a wrong-guess count into the figure's draw state.
    pub fn from_mistakes(nr: u32) -> (s: ManState)
        ensures
            s == state_of_mistakes(nr as nat),
    {
        if nr == 0 {
            ManState::Free
        } else if (nr - 1) < MAX_STAGES as u32 {
            ManState::Alive((nr - 1) as u8)
        } else {
            ManState::Dead
        }
    }
}

/// Law: the draw state classifies the wrong-guess count exactly.
/// `Free` iff no wrong guess, `Alive(wrong - 1)` iff 1..=5, `Dead` iff 6 or more.
pub proof fn lemma_figure_state_classification(wrong: nat)
    ensures
        state_of_mistakes(wrong) is Free <==> wrong == 0,
        state_of_mistakes(wrong) is Alive <==> 1 <= wrong <= 5,
        state_of_mistakes(wrong) matches ManState::Alive(stage) ==> stage == wrong - 1,
        state_of_mistakes(wrong) is Dead <==> wrong >= 6,
{
}

/// Law: the draw state is a non-decreasing function of the wrong-guess count
/// under the ordering `Free < Alive(0) < ... < Alive(4) < Dead`.
pub proof fn lemma_figure_state_monotonic(w1: nat, w2: nat)
    requires
        w1 <= w2,
    ensures
        state_rank(state_of_mistakes(w1)) <= state_rank(state_of_mistakes(w2)),
{
}

} // verus!
