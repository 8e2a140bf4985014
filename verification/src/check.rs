//! Check and its resolution: which possible moves are legal.
//!
//! A side is in check when its recorded king square is a possible move of an
//! opposing piece. Out of check every possible move is legal: a move that
//! exposes the king to a piece that was not attacking it before is not
//! filtered out. In check, a king may go where no opposing piece could
//! follow it, and another piece may capture a lone checker that no opposing
//! piece could then recapture, or step between the king and a lone sliding
//! checker.

use crate::moves::{between, can_move, possible_move};
use crate::piece::{Piece, PieceType};
use crate::position::{coords_of, Position};
use crate::state::State;
use crate::utils::{push_coord, same_coord, without_coord};
use vstd::prelude::*;

verus! {

/// Rooks, bishops and queens move along lines, which a piece can block.
pub open spec fn is_slider(t: PieceType) -> bool {
    t == PieceType::Rook || t == PieceType::Bishop || t == PieceType::Queen
}

/// The opposing piece `e` has the given side's king square among its
/// possible moves.
pub open spec fn gives_check(pos: Position, first_player: bool, e: Piece) -> bool {
    possible_move(
        pos.occupancy(!first_player),
        pos.occupancy(first_player),
        e,
        !first_player,
        pos.king(first_player),
    )
}

/// The `i`-th piece of the opponent gives check to the given side.
pub open spec fn checked_by(pos: Position, first_player: bool, i: int) -> bool {
    0 <= i < pos.pieces(!first_player).len() && gives_check(
        pos,
        first_player,
        pos.pieces(!first_player)[i],
    )
}

/// Some opposing piece gives check to the given side.
pub open spec fn in_check(pos: Position, first_player: bool) -> bool {
    exists|i: int| checked_by(pos, first_player, i)
}

/// The place, in the opponent's piece list, of a piece that gives check.
pub open spec fn the_checker(pos: Position, first_player: bool) -> int {
    choose|i: int| checked_by(pos, first_player, i)
}

/// Exactly one opposing piece gives check.
pub open spec fn single_check(pos: Position, first_player: bool) -> bool {
    &&& in_check(pos, first_player)
    &&& forall|j: int| checked_by(pos, first_player, j) ==> j == the_checker(pos, first_player)
}

/// Once the given side has moved a piece from `from` to `to`, capturing
/// what stood there, the `j`-th piece of the opponent is still on the board
/// and has `to` among its possible moves.
pub open spec fn threatens_after(
    pos: Position,
    first_player: bool,
    from: (i32, i32),
    to: (i32, i32),
    j: int,
) -> bool {
    let own = pos.occupancy(first_player).remove(from).insert(to);
    let opp = pos.occupancy(!first_player).remove(to);
    let enemy = pos.pieces(!first_player);
    0 <= j < enemy.len() && enemy[j].current_coords != to && possible_move(
        opp,
        own,
        enemy[j],
        !first_player,
        to,
    )
}

/// Once the given side has moved a piece from `from` to `to`, some opposing
/// piece could move onto `to`: a king that went there would stand in check,
/// and a piece captured there was defended.
pub open spec fn attacked_after(
    pos: Position,
    first_player: bool,
    from: (i32, i32),
    to: (i32, i32),
) -> bool {
    exists|j: int| threatens_after(pos, first_player, from, to, j)
}

/// A move of a piece other than the king to `d` answers the check given by
/// `checker` alone: it captures the checker, which no opposing piece
/// defends, or it lands between the king and a sliding checker.
pub open spec fn resolves_check(
    pos: Position,
    first_player: bool,
    piece: Piece,
    checker: Piece,
    d: (i32, i32),
) -> bool {
    ||| d == checker.current_coords && !attacked_after(
        pos,
        first_player,
        piece.current_coords,
        d,
    )
    ||| is_slider(checker.piece_type) && between(
        pos.king(first_player),
        checker.current_coords,
        d,
    )
}

/// `d` is a legal move of `piece`, a piece of the given side.
pub open spec fn legal_move(pos: Position, piece: Piece, first_player: bool, d: (i32, i32)) -> bool {
    &&& possible_move(
        pos.occupancy(first_player),
        pos.occupancy(!first_player),
        piece,
        first_player,
        d,
    )
    &&& in_check(pos, first_player) ==> if piece.piece_type == PieceType::King {
        !attacked_after(pos, first_player, piece.current_coords, d)
    } else {
        single_check(pos, first_player) && resolves_check(
            pos,
            first_player,
            piece,
            pos.pieces(!first_player)[the_checker(pos, first_player)],
            d,
        )
    }
}

/// The places, in the opponent's piece list, of the pieces that give check
/// to the given side, in rising order.
pub fn checking_pieces(state: &State, first_player: bool) -> (checks: Vec<usize>)
    ensures
        forall|j: usize| checks@.contains(j) <==> checked_by(state@, first_player, j as int),
        forall|k: int, m: int| 0 <= k < m < checks@.len() ==> checks@[k] < checks@[m],
        checks@.len() == 0 <==> !in_check(state@, first_player),
        checks@.len() == 1 ==> single_check(state@, first_player) && the_checker(
            state@,
            first_player,
        ) == checks@[0],
        checks@.len() >= 2 ==> !single_check(state@, first_player),
{
    let (own, opp) = state.get_coords(first_player);
    let (king, enemy) = state.get_potential_check(first_player);
    let mut checks: Vec<usize> = Vec::new();
    let mut i: usize = 0;
    while i < enemy.len()
        invariant
            i <= enemy.len(),
            own@ == coords_of(state@.pieces(first_player)),
            opp@ == coords_of(state@.pieces(!first_player)),
            king == state@.king(first_player),
            enemy@ == state@.pieces(!first_player),
            forall|k: int| 0 <= k < checks@.len() ==> checks@[k] < i && checked_by(state@, first_player, checks@[k] as int),
            forall|j: int| 0 <= j < i && checked_by(state@, first_player, j) ==> checks@.contains(j as usize),
            forall|k: int, m: int| 0 <= k < m < checks@.len() ==> checks@[k] < checks@[m],
        decreases enemy.len() - i,
    {
        if can_move(&enemy[i], !first_player, &opp, &own, king) {
            let ghost before = checks@;
            checks.push(i);
            proof {
                assert(checks@[before.len() as int] == i);
                assert forall|j: int| 0 <= j < i + 1 && checked_by(state@, first_player, j) implies checks@.contains(j as usize) by {
                    if j < i {
                        let k = choose|k: int| 0 <= k < before.len() && before[k] == j as usize;
                        assert(checks@[k] == j as usize);
                    }
                }
            }
        }
        i += 1;
    }
    proof {
        assert forall|j: usize| checks@.contains(j) implies checked_by(
            state@,
            first_player,
            j as int,
        ) by {
            let k = choose|k: int| 0 <= k < checks@.len() && checks@[k] == j;
            assert(checked_by(state@, first_player, checks@[k] as int));
        }
        if checks@.len() > 0 {
            assert(checked_by(state@, first_player, checks@[0] as int));
        }
        if in_check(state@, first_player) {
            let j = the_checker(state@, first_player);
            assert(checks@.contains(j as usize));
        }
        if checks@.len() == 1 {
            let t = the_checker(state@, first_player);
            assert(checks@.contains(t as usize));
            assert forall|j: int| checked_by(state@, first_player, j) implies j == t by {
                assert(checks@.contains(j as usize));
            }
        }
        if checks@.len() >= 2 {
            assert(checked_by(state@, first_player, checks@[0] as int));
            assert(checked_by(state@, first_player, checks@[1] as int));
            assert(checks@[0] < checks@[1]);
        }
    }
    checks
}

/// Decides whether, once the given side has moved a piece from `from` to
/// `to`, some opposing piece could move onto `to`.
pub fn attacked_after_move(
    state: &State,
    first_player: bool,
    from: (i32, i32),
    to: (i32, i32),
) -> (r: bool)
    ensures
        r == attacked_after(state@, first_player, from, to),
{
    let (own, opp) = state.get_coords(first_player);
    let (_, enemy) = state.get_potential_check(first_player);
    let mut own_after = without_coord(&own, from);
    push_coord(&mut own_after, to);
    let opp_after = without_coord(&opp, to);
    proof {
        assert(own_after@.to_set() =~= state@.occupancy(first_player).remove(from).insert(to));
        assert(opp_after@.to_set() =~= state@.occupancy(!first_player).remove(to));
    }
    let mut j: usize = 0;
    while j < enemy.len()
        invariant
            j <= enemy.len(),
            enemy@ == state@.pieces(!first_player),
            own_after@.to_set() == state@.occupancy(first_player).remove(from).insert(to),
            opp_after@.to_set() == state@.occupancy(!first_player).remove(to),
            forall|k: int| 0 <= k < j ==> !threatens_after(state@, first_player, from, to, k),
        decreases enemy.len() - j,
    {
        if !same_coord(enemy[j].current_coords, to) && can_move(
            &enemy[j],
            !first_player,
            &opp_after,
            &own_after,
            to,
        ) {
            assert(threatens_after(state@, first_player, from, to, j as int));
            return true;
        }
        j += 1;
    }
    false
}

} // verus!
