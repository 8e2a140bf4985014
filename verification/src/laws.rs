//! Laws of the engine: what holds of every position and every answer.

use crate::check::{attacked_after, in_check, is_slider, legal_move, single_check, the_checker};
use crate::moves::{between, forward, knight_jump, occupied, pawn_rank, possible_move};
use crate::piece::{move_accepted, position_after, Piece, PieceType};
use crate::position::{
    has_king, holds, index_at, lemma_coords_contains, lemma_occupant_is_piece,
    lemma_occupant_of_piece, lemma_relocated, lemma_without_piece, Position,
};
use crate::state::game_over;
use crate::utils::{ascending, in_bounds, precedes};
use vstd::prelude::*;

verus! {

/// Every possible move, and so every legal move, lands on a square of the
/// board.
pub proof fn lemma_moves_stay_on_board(
    pos: Position,
    piece: Piece,
    first_player: bool,
    d: (i32, i32),
)
    ensures
        possible_move(
            pos.occupancy(first_player),
            pos.occupancy(!first_player),
            piece,
            first_player,
            d,
        ) ==> in_bounds(d),
        legal_move(pos, piece, first_player, d) ==> in_bounds(d),
{
}

/// A rook, bishop or queen never moves onto a square of its own side, nor
/// past a piece: no square strictly between it and a possible move of it is
/// occupied, so the first opposing piece on a line is the last square of
/// that line it reaches.
pub proof fn lemma_line_stops_at_first_piece(
    own: Set<(i32, i32)>,
    opp: Set<(i32, i32)>,
    piece: Piece,
    first_player: bool,
    d: (i32, i32),
    c: (i32, i32),
)
    requires
        is_slider(piece.piece_type),
        possible_move(own, opp, piece, first_player, d),
    ensures
        !own.contains(d),
        between(piece.current_coords, d, c) ==> !occupied(own, opp, c),
{
}

/// A knight that stands at least two squares from every edge, with none of
/// the eight squares an L-shaped jump away held by its own side, has
/// exactly eight possible moves.
pub proof fn lemma_knight_in_the_open(
    own: Set<(i32, i32)>,
    opp: Set<(i32, i32)>,
    piece: Piece,
    first_player: bool,
    moves: Seq<(i32, i32)>,
)
    requires
        piece.piece_type == PieceType::Knight,
        3 <= piece.current_coords.0 <= 6,
        3 <= piece.current_coords.1 <= 6,
        forall|d: (i32, i32)| knight_jump(piece.current_coords, d) ==> !own.contains(d),
        ascending(moves),
        forall|d: (i32, i32)|
            moves.contains(d) <==> possible_move(own, opp, piece, first_player, d),
    ensures
        moves.len() == 8,
{
    let x = piece.current_coords.0;
    let y = piece.current_coords.1;
    let jumps: Seq<(i32, i32)> = seq![
        ((x - 2) as i32, (y - 1) as i32),
        ((x - 2) as i32, (y + 1) as i32),
        ((x - 1) as i32, (y - 2) as i32),
        ((x - 1) as i32, (y + 2) as i32),
        ((x + 1) as i32, (y - 2) as i32),
        ((x + 1) as i32, (y + 2) as i32),
        ((x + 2) as i32, (y - 1) as i32),
        ((x + 2) as i32, (y + 1) as i32),
    ];
    assert(ascending(jumps));
    assert forall|d: (i32, i32)| jumps.contains(d) <==> moves.contains(d) by {
        if possible_move(own, opp, piece, first_player, d) {
            assert(d == jumps[0] || d == jumps[1] || d == jumps[2] || d == jumps[3] || d
                == jumps[4] || d == jumps[5] || d == jumps[6] || d == jumps[7]);
        }
        if jumps.contains(d) {
            assert(knight_jump(piece.current_coords, d));
        }
    }
    lemma_ascending_same_members(jumps, moves);
}

/// A pawn on its starting rank can step one square and two squares forward
/// when its own side holds neither square; a pawn elsewhere never has the
/// double step.
pub proof fn lemma_pawn_steps(
    own: Set<(i32, i32)>,
    opp: Set<(i32, i32)>,
    piece: Piece,
    first_player: bool,
)
    requires
        piece.piece_type == PieceType::Pawn,
        in_bounds(piece.current_coords),
    ensures
        ({
            let from = piece.current_coords;
            let single = (from.0, (from.1 + forward(first_player)) as i32);
            let double = (from.0, (from.1 + 2 * forward(first_player)) as i32);
            &&& from.1 == pawn_rank(first_player) && !own.contains(single) && !own.contains(double)
                ==> possible_move(own, opp, piece, first_player, single) && possible_move(
                own,
                opp,
                piece,
                first_player,
                double,
            )
            &&& from.1 != pawn_rank(first_player) ==> !possible_move(
                own,
                opp,
                piece,
                first_player,
                double,
            )
        }),
{
}

/// Two lists in rising order with the same members are the same list.
pub proof fn lemma_ascending_same_members(a: Seq<(i32, i32)>, b: Seq<(i32, i32)>)
    requires
        ascending(a),
        ascending(b),
        forall|d: (i32, i32)| a.contains(d) <==> b.contains(d),
    ensures
        a == b,
    decreases a.len(),
{
    if a.len() == 0 {
        if b.len() > 0 {
            assert(b.contains(b[0]));
        }
        assert(a =~= b);
    } else {
        let top = a.last();
        assert(a.contains(top));
        assert(b.contains(top));
        let j = choose|j: int| 0 <= j < b.len() && b[j] == top;
        assert(b.contains(b.last()));
        let i = choose|i: int| 0 <= i < a.len() && a[i] == b.last();
        assert(i == a.len() - 1) by {
            if i < a.len() - 1 {
                assert(precedes(a[i], a[a.len() - 1]));
                if j < b.len() - 1 {
                    assert(precedes(b[j], b[b.len() - 1]));
                }
            }
        }
        assert(b.last() == top);
        let a0 = a.drop_last();
        let b0 = b.drop_last();
        assert forall|d: (i32, i32)| a0.contains(d) <==> b0.contains(d) by {
            if a0.contains(d) {
                let k = choose|k: int| 0 <= k < a0.len() && a0[k] == d;
                assert(a[k] == d);
                assert(precedes(a[k], a[a.len() - 1]));
                assert(a.contains(d));
                let m = choose|m: int| 0 <= m < b.len() && b[m] == d;
                assert(b0[m] == d);
            }
            if b0.contains(d) {
                let k = choose|k: int| 0 <= k < b0.len() && b0[k] == d;
                assert(b[k] == d);
                assert(precedes(b[k], b[b.len() - 1]));
                assert(b.contains(d));
                let m = choose|m: int| 0 <= m < a.len() && a[m] == d;
                assert(a0[m] == d);
            }
        }
        lemma_ascending_same_members(a0, b0);
        assert(a =~= a0.push(top));
        assert(b =~= b0.push(top));
    }
}

/// Asking twice for the possible moves, or twice for the legal moves, of
/// one piece in one position gives the same list both times.
pub proof fn lemma_queries_repeat(
    pos: Position,
    piece: Piece,
    first_player: bool,
    possible_a: Seq<(i32, i32)>,
    possible_b: Seq<(i32, i32)>,
    legal_a: Seq<(i32, i32)>,
    legal_b: Seq<(i32, i32)>,
)
    requires
        ascending(possible_a),
        ascending(possible_b),
        ascending(legal_a),
        ascending(legal_b),
        forall|d: (i32, i32)|
            possible_a.contains(d) <==> possible_move(
                pos.occupancy(first_player),
                pos.occupancy(!first_player),
                piece,
                first_player,
                d,
            ),
        forall|d: (i32, i32)|
            possible_b.contains(d) <==> possible_move(
                pos.occupancy(first_player),
                pos.occupancy(!first_player),
                piece,
                first_player,
                d,
            ),
        forall|d: (i32, i32)| legal_a.contains(d) <==> legal_move(pos, piece, first_player, d),
        forall|d: (i32, i32)| legal_b.contains(d) <==> legal_move(pos, piece, first_player, d),
    ensures
        possible_a == possible_b,
        legal_a == legal_b,
{
    lemma_ascending_same_members(possible_a, possible_b);
    lemma_ascending_same_members(legal_a, legal_b);
}

/// An accepted move leaves a valid position in which the square left is
/// empty, the square reached holds the piece that moved, with its new
/// coordinate, and the mover has as many pieces as before.
pub proof fn lemma_move_takes_effect(
    pos: Position,
    piece: Piece,
    destination: (i32, i32),
    first_player: bool,
)
    requires
        pos.wf(),
        move_accepted(pos, piece, destination, first_player),
    ensures
        ({
            let next = position_after(pos, piece, destination, first_player);
            &&& next.wf()
            &&& next.occupant(piece.current_coords) is None
            &&& next.occupant(destination) == Some(
                Piece { piece_type: piece.piece_type, current_coords: destination },
            )
            &&& next.pieces(first_player).len() == pos.pieces(first_player).len()
            &&& next.pieces(first_player).contains(
                Piece { piece_type: piece.piece_type, current_coords: destination },
            )
            &&& piece.piece_type == PieceType::King ==> next.king(first_player) == destination
            &&& piece.piece_type != PieceType::King ==> next.king(first_player) == pos.king(
                first_player,
            )
            &&& next.king(!first_player) == pos.king(!first_player)
        }),
{
    let from = piece.current_coords;
    let own = pos.pieces(first_player);
    let other = pos.pieces(!first_player);
    let k = choose|k: int| 0 <= k < own.len() && own[k] == piece;
    assert(own[k].current_coords == from);
    assert(holds(own, from));
    lemma_occupant_of_piece(pos, first_player, k);
    lemma_coords_contains(own, destination);
    lemma_coords_contains(other, destination);
    lemma_occupant_is_piece(pos, destination);
    let mid = pos.without_piece(!first_player, destination);
    if holds(other, destination) {
        lemma_without_piece(pos, !first_player, destination);
    } else {
        assert(mid =~= pos);
    }
    assert(mid.pieces(first_player) == own);
    assert(mid.occupant(destination) is None);
    lemma_relocated(mid, first_player, from, destination);
    let next = mid.relocated(first_player, from, destination);
    assert(next == position_after(pos, piece, destination, first_player));
    assert(next.pieces(first_player)[k] == Piece {
        piece_type: piece.piece_type,
        current_coords: destination,
    });
}

/// A side keeps its king through every accepted move of its own, and
/// through every accepted move of the opponent that does not land on the
/// king's square.
pub proof fn lemma_kings_remain(
    pos: Position,
    piece: Piece,
    destination: (i32, i32),
    first_player: bool,
)
    requires
        pos.wf(),
        move_accepted(pos, piece, destination, first_player),
    ensures
        ({
            let next = position_after(pos, piece, destination, first_player);
            &&& has_king(pos.pieces(first_player)) ==> has_king(next.pieces(first_player))
            &&& has_king(pos.pieces(!first_player)) && destination != pos.king(!first_player)
                ==> has_king(next.pieces(!first_player))
        }),
{
    let from = piece.current_coords;
    let own = pos.pieces(first_player);
    let other = pos.pieces(!first_player);
    let next = position_after(pos, piece, destination, first_player);
    let k = choose|k: int| 0 <= k < own.len() && own[k] == piece;
    assert(own[k].current_coords == from);
    lemma_occupant_of_piece(pos, first_player, k);
    if has_king(own) {
        let i = choose|i: int| 0 <= i < own.len() && (#[trigger] own[i]).piece_type == PieceType::King;
        assert(next.pieces(first_player)[i].piece_type == PieceType::King);
    }
    if has_king(other) && destination != pos.king(!first_player) {
        let i = choose|i: int|
            0 <= i < other.len() && (#[trigger] other[i]).piece_type == PieceType::King;
        if holds(other, destination) {
            let t = index_at(other, destination);
            assert(t != i);
            let j = if i < t { i } else { i - 1 };
            assert(next.pieces(!first_player)[j] == other[i]);
        } else {
            assert(next.pieces(!first_player)[i] == other[i]);
        }
    }
}

/// An accepted move onto a square that the opponent holds removes exactly
/// one piece from the opponent's list, the one that stood there, and leaves
/// the square to the piece that moved.
pub proof fn lemma_capture_removes_one(
    pos: Position,
    piece: Piece,
    destination: (i32, i32),
    first_player: bool,
)
    requires
        pos.wf(),
        move_accepted(pos, piece, destination, first_player),
        holds(pos.pieces(!first_player), destination),
    ensures
        ({
            let next = position_after(pos, piece, destination, first_player);
            let taken = index_at(pos.pieces(!first_player), destination);
            &&& next.pieces(!first_player) == pos.pieces(!first_player).remove(taken)
            &&& next.pieces(!first_player).len() == pos.pieces(!first_player).len() - 1
            &&& !holds(next.pieces(!first_player), destination)
            &&& next.pieces(first_player).len() == pos.pieces(first_player).len()
            &&& next.occupant(destination) == Some(
                Piece { piece_type: piece.piece_type, current_coords: destination },
            )
        }),
{
    lemma_move_takes_effect(pos, piece, destination, first_player);
    let next = position_after(pos, piece, destination, first_player);
    lemma_occupant_is_piece(next, destination);
    if holds(next.pieces(!first_player), destination) {
        let j = index_at(next.pieces(!first_player), destination);
        lemma_occupant_of_piece(next, !first_player, j);
    }
}

/// A move that is not accepted changes nothing.
pub proof fn lemma_rejected_move_changes_nothing(
    pos: Position,
    piece: Piece,
    destination: (i32, i32),
    first_player: bool,
)
    requires
        !legal_move(pos, piece, first_player, destination),
    ensures
        position_after(pos, piece, destination, first_player) == pos,
{
}

/// Out of check every possible move is legal; under check by two or more
/// pieces only the king has legal moves, so the game is over exactly when
/// the king has none.
pub proof fn lemma_check_cases(pos: Position, first_player: bool)
    ensures
        !in_check(pos, first_player) ==> forall|piece: Piece, d: (i32, i32)|
            #[trigger] legal_move(pos, piece, first_player, d) == possible_move(
                pos.occupancy(first_player),
                pos.occupancy(!first_player),
                piece,
                first_player,
                d,
            ),
        in_check(pos, first_player) && !single_check(pos, first_player) ==> forall|
            piece: Piece,
            d: (i32, i32),
        |
            piece.piece_type != PieceType::King ==> !#[trigger] legal_move(
                pos,
                piece,
                first_player,
                d,
            ),
        in_check(pos, first_player) && !single_check(pos, first_player) ==> (game_over(
            pos,
            first_player,
        ) <==> forall|i: int, d: (i32, i32)|
            0 <= i < pos.pieces(first_player).len() && pos.pieces(first_player)[i].piece_type
                == PieceType::King ==> !#[trigger] legal_move(
                pos,
                pos.pieces(first_player)[i],
                first_player,
                d,
            )),
{
}

/// Under check a king never moves to a square onto which an opposing piece
/// could follow it, and no other piece captures a checker that an opposing
/// piece defends.
pub proof fn lemma_no_move_into_attack(
    pos: Position,
    piece: Piece,
    first_player: bool,
    d: (i32, i32),
)
    requires
        in_check(pos, first_player),
        legal_move(pos, piece, first_player, d),
        piece.piece_type == PieceType::King || holds(pos.pieces(!first_player), d),
    ensures
        !attacked_after(pos, first_player, piece.current_coords, d),
{
    if piece.piece_type != PieceType::King {
        let checker = pos.pieces(!first_player)[the_checker(pos, first_player)];
        lemma_coords_contains(pos.pieces(!first_player), d);
        lemma_coords_contains(pos.pieces(first_player), d);
        if d != checker.current_coords {
            // A blocking square lies on the checker's clear line to the king.
            let king = pos.king(first_player);
            assert(between(checker.current_coords, king, d));
            assert(occupied(
                pos.occupancy(!first_player),
                pos.occupancy(first_player),
                d,
            ));
        }
    }
}

} // verus!
