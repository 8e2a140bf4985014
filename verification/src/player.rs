//! One side of the game.

use crate::piece::{copy_pieces, outcome_of, position_after, MoveOutcome, Piece};
use crate::position::Position;
use crate::state::State;
use crate::utils::{in_bounds, is_within_board_limits};
use vstd::prelude::*;

verus! {

/// A side: whether it is the first player, whether it is played by the
/// machine, its live pieces in the order in which they were placed, and the
/// square of its king.
#[derive(Debug)]
pub struct Player {
    pub first_player: bool,
    pub ai: bool,
    pub pieces: Vec<Piece>,
    pub king_coord: (i32, i32),
}

impl Clone for Player {
    fn clone(&self) -> (copy: Player)
        ensures
            copy.first_player == self.first_player,
            copy.ai == self.ai,
            copy.pieces@ == self.pieces@,
            copy.king_coord == self.king_coord,
    {
        Player {
            first_player: self.first_player,
            ai: self.ai,
            pieces: copy_pieces(&self.pieces),
            king_coord: self.king_coord,
        }
    }
}

/// The piece a side asks to move and the square it asks to move it to,
/// where the request names two squares of the board and a piece stands on
/// the first. A side played by the machine makes no request.
pub open spec fn requested_move(
    ai: bool,
    pos: Position,
    current_coords: Option<(i32, i32)>,
    destination: Option<(i32, i32)>,
) -> Option<(Piece, (i32, i32))> {
    if !ai && current_coords is Some && destination is Some && in_bounds(current_coords->0)
        && in_bounds(destination->0) && pos.occupant(current_coords->0) is Some {
        Some((pos.occupant(current_coords->0)->0, destination->0))
    } else {
        None
    }
}

impl Player {
    /// Asks, for this side, to move the piece on `current_coords` to
    /// `destination`. A request that names no square, a square off the board
    /// or an empty square is rejected, as is any request of a side played by
    /// the machine; every other is answered as `Piece::navigate` answers it.
    pub fn move_piece(
        &self,
        state: &mut State,
        current_coords: Option<(i32, i32)>,
        destination: Option<(i32, i32)>,
    ) -> (outcome: MoveOutcome)
        requires
            old(state).wf(),
        ensures
            final(state).wf(),
            match requested_move(self.ai, old(state)@, current_coords, destination) {
                Some((piece, to)) => final(state)@ == position_after(
                    old(state)@,
                    piece,
                    to,
                    self.first_player,
                ) && outcome == outcome_of(old(state)@, piece, to, self.first_player),
                None => final(state)@ == old(state)@ && outcome == MoveOutcome::Rejected,
            },
    {
        if self.ai {
            return MoveOutcome::Rejected;
        }
        match (current_coords, destination) {
            (Some(from), Some(to)) => {
                if is_within_board_limits(from.0, from.1) && is_within_board_limits(to.0, to.1) {
                    match state.piece_at(from) {
                        Some(piece) => piece.navigate(state, to, self.first_player),
                        None => MoveOutcome::Rejected,
                    }
                } else {
                    MoveOutcome::Rejected
                }
            },
            _ => MoveOutcome::Rejected,
        }
    }
}

} // verus!
