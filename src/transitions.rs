//! Which positions each move of a game is judged between.
//!
//! A game's evaluation sequence holds one evaluation per ply, the starting
//! position first. The move that leads from ply `i - 1` to ply `i` is White's
//! where `i` is odd and Black's where it is even. A move is judged by how much
//! winning chance its side gave away: for White the drop from ply `i - 1` to
//! ply `i`, for Black the rise. Each move is described here by the pair
//! `(a, b)` of ply indices whose win chances `w` give that loss as `w[a] - w[b]`.
use vstd::prelude::*;

verus! {

/// The pair of plies between which the move into ply `i` is judged.
pub open spec fn loss_pair(i: nat) -> (usize, usize) {
    if i % 2 == 1 {
        ((i - 1) as usize, i as usize)
    } else {
        (i as usize, (i - 1) as usize)
    }
}

/// The moves of a game, split by the side that made them, each in order of play.
pub struct Transitions {
    pub white: Vec<(usize, usize)>,
    pub black: Vec<(usize, usize)>,
}

/// Splits the moves of a game of `plies` evaluated positions by the side that
/// made them: White's are the moves into the odd plies, Black's those into the
/// even plies after the start.
pub fn split_transitions(plies: usize) -> (r: Transitions)
    ensures
        r.white@.len() == plies / 2,
        r.black@.len() == if plies == 0 { 0 } else { (plies - 1) / 2 },
        forall|k: int| 0 <= k < r.white@.len() ==> #[trigger] r.white@[k] == loss_pair((2 * k + 1) as nat),
        forall|k: int| 0 <= k < r.black@.len() ==> #[trigger] r.black@[k] == loss_pair((2 * k + 2) as nat),
{
    let mut white: Vec<(usize, usize)> = Vec::new();
    let mut black: Vec<(usize, usize)> = Vec::new();
    let mut i: usize = 1;
    while i < plies
        invariant
            1 <= i,
            i <= plies || i == 1,
            white@.len() == i / 2,
            black@.len() == (i - 1) / 2,
            forall|k: int| 0 <= k < white@.len() ==> #[trigger] white@[k] == loss_pair((2 * k + 1) as nat),
            forall|k: int| 0 <= k < black@.len() ==> #[trigger] black@[k] == loss_pair((2 * k + 2) as nat),
        decreases plies - i,
    {
        if i % 2 == 1 {
            white.push((i - 1, i));
        } else {
            black.push((i, i - 1));
        }
        i = i + 1;
    }
    Transitions { white, black }
}

} // verus!
