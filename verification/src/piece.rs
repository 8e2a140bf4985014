//! Pieces and the queries and commands a piece answers within a game.

use crate::check::{
    attacked_after_move, checking_pieces, in_check, is_slider, legal_move, single_check,
    the_checker,
};
use crate::moves::{is_between, possible_move, possible_moves_among};
use crate::position::{
    lemma_coords_contains, lemma_occupant_is_piece, lemma_occupant_of_piece, lemma_without_piece,
    Position,
};
use crate::state::{find_piece, State};
use crate::utils::{ascending, contains_coord, in_bounds, precedes, push_coord, same_coord};
use vstd::prelude::*;

verus! {

/// The six kinds of chess piece.
#[derive(Clone, Copy, Debug, PartialEq, Eq, Structural)]
pub enum PieceType {
    King,
    Queen,
    Rook,
    Knight,
    Bishop,
    Pawn,
}

/// A piece: its kind and the square it stands on, as `(file, rank)`.
#[derive(Clone, Copy, Debug, PartialEq, Eq)]
pub struct Piece {
    pub piece_type: PieceType,
    pub current_coords: (i32, i32),
}

/// A copy of a list of pieces.
pub fn copy_pieces(pieces: &Vec<Piece>) -> (copy: Vec<Piece>)
    ensures
        copy@ == pieces@,
{
    let mut copy: Vec<Piece> = Vec::new();
    let mut i: usize = 0;
    while i < pieces.len()
        invariant
            i <= pieces.len(),
            copy@.len() == i,
            forall|j: int| 0 <= j < i ==> copy@[j] == pieces@[j],
        decreases pieces.len() - i,
    {
        copy.push(pieces[i]);
        i += 1;
    }
    assert(copy@ =~= pieces@);
    copy
}

/// What became of a request to move a piece.
#[derive(Clone, Copy, Debug, PartialEq, Eq, Structural)]
pub enum MoveOutcome {
    /// The destination is not a legal move of the piece, or the piece is not
    /// one of the mover's: nothing has changed.
    Rejected,
    /// The move was made.
    Moved,
    /// The move was made and brought a pawn to the farthest rank. Promotion
    /// is not supported: the pawn stays a pawn.
    PromotionPending,
}

/// The rank on which a side's pawns can advance no further.
pub open spec fn farthest_rank(first_player: bool) -> int {
    if first_player {
        8
    } else {
        1
    }
}

/// A request to move `piece` to `destination` is accepted: the piece is one
/// of the mover's and the destination is one of its legal moves.
pub open spec fn move_accepted(
    pos: Position,
    piece: Piece,
    destination: (i32, i32),
    first_player: bool,
) -> bool {
    pos.pieces(first_player).contains(piece) && legal_move(pos, piece, first_player, destination)
}

/// The position that a request to move `piece` to `destination` leaves.
pub open spec fn position_after(
    pos: Position,
    piece: Piece,
    destination: (i32, i32),
    first_player: bool,
) -> Position {
    if move_accepted(pos, piece, destination, first_player) {
        pos.after_move(first_player, piece.current_coords, destination)
    } else {
        pos
    }
}

/// The answer to a request to move `piece` to `destination`.
pub open spec fn outcome_of(
    pos: Position,
    piece: Piece,
    destination: (i32, i32),
    first_player: bool,
) -> MoveOutcome {
    if !move_accepted(pos, piece, destination, first_player) {
        MoveOutcome::Rejected
    } else if piece.piece_type == PieceType::Pawn && destination.1 == farthest_rank(first_player) {
        MoveOutcome::PromotionPending
    } else {
        MoveOutcome::Moved
    }
}

impl Piece {
    /// The possible moves of this piece, taken as a piece of the given side:
    /// every destination that its movement geometry reaches on the board as
    /// it stands, listed by file and then by rank. A piece that stands off
    /// the board has none.
    pub fn generate_possible_moves(&self, state: &State, first_player: bool) -> (moves: Vec<
        (i32, i32),
    >)
        ensures
            forall|d: (i32, i32)|
                moves@.contains(d) <==> possible_move(
                    state@.occupancy(first_player),
                    state@.occupancy(!first_player),
                    *self,
                    first_player,
                    d,
                ),
            ascending(moves@),
            forall|i: int| 0 <= i < moves@.len() ==> in_bounds(#[trigger] moves@[i]),
    {
        let (own, opp) = state.get_coords(first_player);
        let moves = possible_moves_among(self, first_player, &own, &opp);
        assert forall|i: int| 0 <= i < moves@.len() implies in_bounds(#[trigger] moves@[i]) by {
            assert(moves@.contains(moves@[i]));
        }
        moves
    }

    /// The legal moves of this piece, taken as a piece of the given side,
    /// listed by file and then by rank.
    pub fn generate_legal_moves(&self, state: &State, first_player: bool) -> (legal: Vec<
        (i32, i32),
    >)
        ensures
            forall|d: (i32, i32)| legal@.contains(d) <==> legal_move(state@, *self, first_player, d),
            ascending(legal@),
            forall|i: int| 0 <= i < legal@.len() ==> in_bounds(#[trigger] legal@[i]),
    {
        let moves = self.generate_possible_moves(state, first_player);
        let checks = checking_pieces(state, first_player);
        if checks.len() == 0 {
            return moves;
        }
        let (king, enemy) = state.get_potential_check(first_player);
        let is_king = self.piece_type == PieceType::King;
        let mut legal: Vec<(i32, i32)> = Vec::new();
        let mut i: usize = 0;
        while i < moves.len()
            invariant
                i <= moves.len(),
                checks@.len() > 0,
                in_check(state@, first_player),
                checks@.len() == 1 ==> single_check(state@, first_player) && the_checker(
                    state@,
                    first_player,
                ) == checks@[0] && checks@[0] < enemy@.len(),
                checks@.len() >= 2 ==> !single_check(state@, first_player),
                king == state@.king(first_player),
                enemy@ == state@.pieces(!first_player),
                is_king == (self.piece_type == PieceType::King),
                ascending(moves@),
                forall|d: (i32, i32)|
                    moves@.contains(d) <==> possible_move(
                        state@.occupancy(first_player),
                        state@.occupancy(!first_player),
                        *self,
                        first_player,
                        d,
                    ),
                forall|d: (i32, i32)|
                    legal@.contains(d) ==> legal_move(state@, *self, first_player, d) && exists|
                        m: int,
                    |
                        0 <= m < i && moves@[m] == d,
                forall|m: int|
                    0 <= m < i && legal_move(state@, *self, first_player, #[trigger] moves@[m])
                        ==> legal@.contains(moves@[m]),
                ascending(legal@),
            decreases moves.len() - i,
        {
            let d = moves[i];
            assert(moves@.contains(moves@[i as int]));
            let keep = if is_king {
                !attacked_after_move(state, first_player, self.current_coords, d)
            } else if checks.len() == 1 {
                let checker = enemy[checks[0]];
                (same_coord(d, checker.current_coords) && !attacked_after_move(
                    state,
                    first_player,
                    self.current_coords,
                    d,
                )) || (is_sliding(checker.piece_type) && is_between(
                    king,
                    checker.current_coords,
                    d,
                ))
            } else {
                false
            };
            assert(keep == legal_move(state@, *self, first_player, d));
            if keep {
                proof {
                    assert forall|k: int| 0 <= k < legal@.len() implies precedes(
                        #[trigger] legal@[k],
                        d,
                    ) by {
                        assert(legal@.contains(legal@[k]));
                        let m = choose|m: int| 0 <= m < i && moves@[m] == legal@[k];
                        assert(precedes(moves@[m], moves@[i as int]));
                    }
                }
                push_coord(&mut legal, d);
            }
            i += 1;
        }
        proof {
            assert forall|d: (i32, i32)| legal_move(state@, *self, first_player, d) implies legal@.contains(d) by {
                assert(moves@.contains(d));
                let m = choose|m: int| 0 <= m < moves@.len() && moves@[m] == d;
                assert(legal@.contains(moves@[m]));
            }
            assert forall|k: int| 0 <= k < legal@.len() implies in_bounds(#[trigger] legal@[k]) by {
                assert(legal@.contains(legal@[k]));
            }
        }
        legal
    }

    /// Moves this piece, one of the given side's, to `destination` if that
    /// is one of its legal moves: an opposing piece standing there is
    /// captured, the square left is cleared, and the piece's coordinate, the
    /// square reached and, for a king, the side's recorded king square are
    /// updated. Any other request changes nothing.
    pub fn navigate(&self, state: &mut State, destination: (i32, i32), first_player: bool) -> (outcome:
        MoveOutcome)
        requires
            old(state).wf(),
        ensures
            final(state).wf(),
            final(state)@ == position_after(old(state)@, *self, destination, first_player),
            outcome == outcome_of(old(state)@, *self, destination, first_player),
            final(state).ai(true) == old(state).ai(true),
            final(state).ai(false) == old(state).ai(false),
    {
        let ghost before = state@;
        let own = state.get_pieces(first_player);
        let found = find_piece(&own, self.current_coords);
        let mine = match found {
            Some(k) => {
                proof {
                    lemma_occupant_of_piece(before, first_player, k as int);
                    if own@[k as int].piece_type == self.piece_type {
                        assert(own@[k as int] == *self);
                    } else if own@.contains(*self) {
                        let m = choose|m: int| 0 <= m < own@.len() && own@[m] == *self;
                        assert(own@[m].current_coords == own@[k as int].current_coords);
                    }
                }
                own[k].piece_type == self.piece_type
            },
            None => {
                proof {
                    if own@.contains(*self) {
                        let m = choose|m: int| 0 <= m < own@.len() && own@[m] == *self;
                        assert(own@[m].current_coords == self.current_coords);
                    }
                }
                false
            },
        };
        assert(mine == before.pieces(first_player).contains(*self));
        if !mine {
            return MoveOutcome::Rejected;
        }
        let legal_moves = self.generate_legal_moves(state, first_player);
        if !contains_coord(&legal_moves, destination) {
            return MoveOutcome::Rejected;
        }
        let (_, enemy_coords) = state.get_coords(first_player);
        proof {
            lemma_coords_contains(before.pieces(first_player), destination);
            lemma_coords_contains(before.pieces(!first_player), destination);
            lemma_occupant_is_piece(before, destination);
        }
        if contains_coord(&enemy_coords, destination) {
            proof {
                lemma_without_piece(before, !first_player, destination);
            }
            state.capture_piece(first_player, destination);
        } else {
            assert(before.without_piece(!first_player, destination) =~= before);
        }
        state.update_move(self.current_coords, destination, first_player);
        let last: i32 = if first_player {
            8
        } else {
            1
        };
        if self.piece_type == PieceType::Pawn && destination.1 == last {
            MoveOutcome::PromotionPending
        } else {
            MoveOutcome::Moved
        }
    }
}

/// Decides whether a kind of piece moves along lines.
pub fn is_sliding(t: PieceType) -> (r: bool)
    ensures
        r == is_slider(t),
{
    match t {
        PieceType::Rook => true,
        PieceType::Bishop => true,
        PieceType::Queen => true,
        _ => false,
    }
}

} // verus!
