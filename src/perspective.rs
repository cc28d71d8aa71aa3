//! Sides of the board and the normalisation of evaluations to one perspective.
use vstd::prelude::*;

verus! {

/// The side to move in a position.
#[derive(Clone, Copy, Debug, PartialEq, Eq, Structural)]
pub enum Side {
    White,
    Black,
}

/// The value of `eval`, produced from the point of view of `to_move`,
/// seen from White's side.
pub open spec fn white_view(eval: int, to_move: Side) -> int {
    match to_move {
        Side::White => eval,
        Side::Black => -eval,
    }
}

/// Turns an engine evaluation, which is relative to the side to move, into
/// one relative to White: it is negated when Black is to move.
pub fn white_relative(eval: i32, to_move: Side) -> (r: i64)
    ensures
        r == white_view(eval as int, to_move),
{
    match to_move {
        Side::White => eval as i64,
        Side::Black => -(eval as i64),
    }
}

} // verus!
