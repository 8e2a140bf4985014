//! The squares of the board.

use crate::piece::Piece;
use crate::utils::in_bounds;
use vstd::prelude::*;

verus! {

/// One square: the piece standing on it, if any, and a score kept for
/// evaluation heuristics, which the rules never read.
#[derive(Clone, Copy, Debug, PartialEq, Eq)]
pub struct Space {
    pub occupied: Option<Piece>,
    pub evaluated_value: i32,
}

/// The number of squares.
pub const SQUARES: usize = 64;

/// The place of a square in the board's list of squares.
pub open spec fn square_number(c: (i32, i32)) -> int {
    (c.0 - 1) * 8 + (c.1 - 1)
}

/// The place of a square of the board in the board's list of squares.
pub fn square_index(c: (i32, i32)) -> (r: usize)
    requires
        in_bounds(c),
    ensures
        r == square_number(c),
        r < SQUARES,
{
    ((c.0 - 1) * 8 + (c.1 - 1)) as usize
}

/// A board of empty squares, each with a score of zero.
pub fn empty_board() -> (board: Vec<Space>)
    ensures
        board@.len() == SQUARES,
        forall|i: int|
            0 <= i < SQUARES ==> #[trigger] board@[i] == (Space {
                occupied: None,
                evaluated_value: 0,
            }),
{
    let mut board: Vec<Space> = Vec::new();
    let mut i: usize = 0;
    while i < SQUARES
        invariant
            i <= SQUARES,
            board@.len() == i,
            forall|j: int|
                0 <= j < i ==> #[trigger] board@[j] == (Space {
                    occupied: None,
                    evaluated_value: 0,
                }),
        decreases SQUARES - i,
    {
        board.push(Space { occupied: None, evaluated_value: 0 });
        i += 1;
    }
    board
}

} // verus!
