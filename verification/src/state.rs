//! The state of one game: both sides and the board, kept in step.

use crate::board::{empty_board, square_index, square_number, Space, SQUARES};
use crate::piece::{copy_pieces, Piece, PieceType};
use crate::player::Player;
use crate::check::{checking_pieces, in_check, legal_move, single_check};
use crate::moves::pawn_rank;
use crate::position::{
    back_rank, coords_of, has_king, holds, index_at, king_square, lemma_occupant_is_piece,
    lemma_occupant_of_piece, lemma_place, lemma_relocated, lemma_standard_lineup,
    lemma_without_piece, lineup_ok, off_home_ranks, standard_piece, standard_pieces, Position,
};
use crate::utils::{in_bounds, is_within_board_limits, same_coord};
use vstd::prelude::*;

verus! {

/// A game in progress. It is the single authority on where the pieces are:
/// the board and the two sides' piece lists always tell the same story.
///
/// The board lists the 64 squares by file and then by rank. It is open to
/// reading; the state stays valid only while every change goes through the
/// methods of this type.
pub struct State {
    white: Player,
    black: Player,
    pub board: Vec<Space>,
}

impl View for State {
    type V = Position;

    closed spec fn view(&self) -> Position {
        Position {
            white: self.white.pieces@,
            black: self.black.pieces@,
            white_king: self.white.king_coord,
            black_king: self.black.king_coord,
        }
    }
}

/// The place of the first piece standing on `c` in a list of pieces, if
/// there is one.
pub fn find_piece(pieces: &Vec<Piece>, c: (i32, i32)) -> (r: Option<usize>)
    ensures
        match r {
            Some(i) => {
                &&& i < pieces@.len()
                &&& pieces@[i as int].current_coords == c
                &&& forall|j: int| 0 <= j < i ==> (#[trigger] pieces@[j]).current_coords != c
            },
            None => !holds(pieces@, c),
        },
{
    let mut i: usize = 0;
    while i < pieces.len()
        invariant
            i <= pieces.len(),
            forall|j: int| 0 <= j < i ==> (#[trigger] pieces@[j]).current_coords != c,
        decreases pieces.len() - i,
    {
        if same_coord(pieces[i].current_coords, c) {
            return Some(i);
        }
        i += 1;
    }
    None
}

/// The squares on which the given pieces stand, in the same order.
pub fn coords_of_pieces(pieces: &Vec<Piece>) -> (coords: Vec<(i32, i32)>)
    ensures
        coords@ == coords_of(pieces@),
{
    let mut coords: Vec<(i32, i32)> = Vec::new();
    let mut i: usize = 0;
    while i < pieces.len()
        invariant
            i <= pieces.len(),
            coords@.len() == i,
            forall|j: int| 0 <= j < i ==> coords@[j] == (#[trigger] pieces@[j]).current_coords,
        decreases pieces.len() - i,
    {
        coords.push(pieces[i].current_coords);
        i += 1;
    }
    assert(coords@ =~= coords_of(pieces@));
    coords
}

/// A side's starting line-up.
pub fn standard_lineup(first_player: bool) -> (lineup: Vec<Piece>)
    ensures
        lineup@ == standard_pieces(first_player),
{
    let back: i32 = if first_player {
        1
    } else {
        8
    };
    let front: i32 = if first_player {
        2
    } else {
        7
    };
    let mut lineup: Vec<Piece> = Vec::new();
    lineup.push(Piece { piece_type: PieceType::Rook, current_coords: (1, back) });
    lineup.push(Piece { piece_type: PieceType::Rook, current_coords: (8, back) });
    lineup.push(Piece { piece_type: PieceType::Knight, current_coords: (2, back) });
    lineup.push(Piece { piece_type: PieceType::Knight, current_coords: (7, back) });
    lineup.push(Piece { piece_type: PieceType::Bishop, current_coords: (3, back) });
    lineup.push(Piece { piece_type: PieceType::Bishop, current_coords: (6, back) });
    lineup.push(Piece { piece_type: PieceType::Queen, current_coords: (4, back) });
    lineup.push(Piece { piece_type: PieceType::King, current_coords: (5, back) });
    let mut n: i32 = 1;
    while n <= 8
        invariant
            1 <= n <= 9,
            back == back_rank(first_player),
            front == pawn_rank(first_player),
            lineup@.len() == 7 + n,
            forall|i: int| 0 <= i < 7 + n ==> lineup@[i] == standard_piece(first_player, i),
        decreases 9 - n,
    {
        lineup.push(Piece { piece_type: PieceType::Pawn, current_coords: (n, front) });
        n += 1;
    }
    assert(lineup@ =~= standard_pieces(first_player));
    lineup
}

/// No piece of the given side has a legal move.
pub open spec fn game_over(pos: Position, first_player: bool) -> bool {
    forall|i: int, d: (i32, i32)|
        0 <= i < pos.pieces(first_player).len() ==> !#[trigger] legal_move(
            pos,
            pos.pieces(first_player)[i],
            first_player,
            d,
        )
}

impl Clone for State {
    /// An independent copy of the game: moves made in one are not seen in
    /// the other.
    fn clone(&self) -> (copy: State)
        ensures
            copy@ == self@,
            copy.wf() == self.wf(),
            copy.ai(true) == self.ai(true),
            copy.ai(false) == self.ai(false),
    {
        let mut board: Vec<Space> = Vec::new();
        let mut i: usize = 0;
        while i < self.board.len()
            invariant
                i <= self.board.len(),
                board@.len() == i,
                forall|j: int| 0 <= j < i ==> board@[j] == self.board@[j],
            decreases self.board.len() - i,
        {
            board.push(self.board[i]);
            i += 1;
        }
        assert(board@ =~= self.board@);
        let copy = State { white: self.white.clone(), black: self.black.clone(), board };
        assert(copy@ =~= self@);
        copy
    }
}

impl State {
    /// The board agrees with the piece lists on every square: a square
    /// holds a piece exactly when that piece, with the square as its
    /// coordinate, is in one side's list.
    pub closed spec fn board_matches(&self) -> bool {
        &&& self.board@.len() == SQUARES
        &&& forall|c: (i32, i32)|
            in_bounds(c) ==> self.board@[square_number(c)].occupied == #[trigger] self@.occupant(c)
    }

    /// Whether a side is marked as played by the machine.
    pub closed spec fn ai(&self, first_player: bool) -> bool {
        if first_player {
            self.white.ai
        } else {
            self.black.ai
        }
    }

    /// The state is valid: its position is, and the board agrees with it.
    pub open spec fn wf(&self) -> bool {
        self@.wf() && self.board_matches()
    }

    /// A game in the standard starting position, both sides played by
    /// people.
    pub fn new() -> (state: State)
        ensures
            state.wf(),
            state@ == Position::standard(),
            !state.ai(true),
            !state.ai(false),
    {
        let mut state = State::cleared();
        state.setup_spaces();
        state.setup_players(true, false);
        state.setup_players(false, false);
        assert(state@ =~= Position::standard());
        state
    }

    /// A game that holds the given pieces, if they make a valid position:
    /// every piece on a square of the board, no two pieces on one square,
    /// and exactly one king on each side.
    pub fn from_pieces(white: Vec<Piece>, black: Vec<Piece>) -> (r: Option<State>)
        ensures
            r is Some <==> lineup_ok(white@, Seq::empty()) && lineup_ok(black@, white@),
            r matches Some(state) ==> state.wf() && state@ == Position::arranged(white@, black@)
                && !state.ai(true) && !state.ai(false),
    {
        let mut state = State::cleared();
        state.setup_spaces();
        assert(state@.black =~= Seq::empty());
        if !state.place_all(true, &white) {
            return None;
        }
        if !state.place_all(false, &black) {
            return None;
        }
        assert(state@ =~= Position::arranged(white@, black@));
        Some(state)
    }

    /// A state without pieces and without squares.
    fn cleared() -> (state: State)
        ensures
            state@.white.len() == 0,
            state@.black.len() == 0,
            state@.white_king == (5i32, 1i32),
            state@.black_king == (5i32, 8i32),
            !state.ai(true),
            !state.ai(false),
    {
        State {
            white: Player { first_player: true, ai: false, pieces: Vec::new(), king_coord: (5, 1) },
            black: Player { first_player: false, ai: false, pieces: Vec::new(), king_coord: (5, 8) },
            board: Vec::new(),
        }
    }

    /// Lays out the board of a state that holds no piece: every square
    /// empty.
    fn setup_spaces(&mut self)
        requires
            old(self)@.white.len() == 0,
            old(self)@.black.len() == 0,
        ensures
            final(self).wf(),
            final(self)@ == old(self)@,
            final(self).ai(true) == old(self).ai(true),
            final(self).ai(false) == old(self).ai(false),
    {
        self.board = empty_board();
        proof {
            assert forall|c: (i32, i32)| in_bounds(c) implies self.board@[square_number(
                c,
            )].occupied == #[trigger] self@.occupant(c) by {
                lemma_occupant_is_piece(self@, c);
            }
        }
    }

    /// Puts the given pieces, in their order, on the board for a side that
    /// holds none yet, as far as they can be put: the answer says whether
    /// all of them were.
    fn place_all(&mut self, first_player: bool, pieces: &Vec<Piece>) -> (ok: bool)
        requires
            old(self).wf(),
            old(self)@.pieces(first_player).len() == 0,
        ensures
            final(self).wf(),
            ok <==> lineup_ok(pieces@, old(self)@.pieces(!first_player)),
            ok ==> final(self)@ == old(self)@.with_side(
                first_player,
                pieces@,
                king_square(pieces@),
            ),
            final(self).ai(true) == old(self).ai(true),
            final(self).ai(false) == old(self).ai(false),
    {
        let ghost before = *self;
        let ghost others = self@.pieces(!first_player);
        let mut seen_king = false;
        let mut k: usize = 0;
        while k < pieces.len()
            invariant
                k <= pieces.len(),
                self.wf(),
                others == before@.pieces(!first_player),
                self@.pieces(first_player) == pieces@.take(k as int),
                self@.pieces(!first_player) == others,
                self@.king(!first_player) == before@.king(!first_player),
                seen_king <==> has_king(pieces@.take(k as int)),
                self.ai(true) == old(self).ai(true),
                self.ai(false) == old(self).ai(false),
                before@ == old(self)@,
            decreases pieces.len() - k,
        {
            let piece = pieces[k];
            let ghost so_far = pieces@.take(k as int);
            if !is_within_board_limits(piece.current_coords.0, piece.current_coords.1) {
                return false;
            }
            let occupant = self.piece_at(piece.current_coords);
            proof {
                lemma_occupant_is_piece(self@, piece.current_coords);
            }
            if occupant.is_some() {
                proof {
                    if holds(so_far, piece.current_coords) {
                        let m = index_at(so_far, piece.current_coords);
                        assert(pieces@[m].current_coords == pieces@[k as int].current_coords);
                    } else {
                        let m = index_at(others, piece.current_coords);
                        assert(others[m].current_coords == pieces@[k as int].current_coords);
                    }
                }
                return false;
            }
            let is_king = piece.piece_type == PieceType::King;
            if is_king && seen_king {
                proof {
                    let m = choose|m: int|
                        0 <= m < so_far.len() && (#[trigger] so_far[m]).piece_type
                            == PieceType::King;
                    assert(so_far[m].current_coords != piece.current_coords);
                    assert(pieces@[m].piece_type == PieceType::King);
                    assert(pieces@[k as int].piece_type == PieceType::King);
                }
                return false;
            }
            proof {
                if is_king {
                    assert forall|i: int| 0 <= i < so_far.len() implies (#[trigger] so_far[i]).piece_type
                        != PieceType::King by {}
                }
            }
            self.place(first_player, piece);
            proof {
                let grown = pieces@.take(k as int + 1);
                assert(so_far.push(piece) =~= grown);
                if has_king(grown) {
                    let m = choose|m: int|
                        0 <= m < grown.len() && (#[trigger] grown[m]).piece_type
                            == PieceType::King;
                    if m < k {
                        assert(so_far[m].piece_type == PieceType::King);
                    }
                }
                if seen_king {
                    let m = choose|m: int|
                        0 <= m < so_far.len() && (#[trigger] so_far[m]).piece_type
                            == PieceType::King;
                    assert(grown[m].piece_type == PieceType::King);
                }
                if is_king {
                    assert(grown[k as int].piece_type == PieceType::King);
                }
            }
            if is_king {
                seen_king = true;
            }
            k += 1;
        }
        proof {
            assert(pieces@.take(k as int) =~= pieces@);
            if seen_king {
                let m = choose|m: int|
                    0 <= m < pieces@.len() && (#[trigger] pieces@[m]).piece_type
                        == PieceType::King;
                assert(self@.pieces(first_player)[m].current_coords == self@.king(first_player));
                assert(self@ =~= before@.with_side(first_player, pieces@, king_square(pieces@)));
            }
        }
        seen_king
    }

    /// Sets up a side that holds no piece yet in its starting line-up, on a
    /// board whose two home ranks for that side are free, and records
    /// whether the side is played by the machine.
    fn setup_players(&mut self, first_player: bool, ai: bool)
        requires
            old(self).wf(),
            old(self)@.pieces(first_player).len() == 0,
            off_home_ranks(old(self)@.pieces(!first_player), first_player),
        ensures
            final(self).wf(),
            final(self)@ == old(self)@.with_side(
                first_player,
                standard_pieces(first_player),
                (5i32, back_rank(first_player) as i32),
            ),
            final(self).ai(first_player) == ai,
            final(self).ai(!first_player) == old(self).ai(!first_player),
    {
        proof {
            lemma_standard_lineup(first_player, self@.pieces(!first_player));
        }
        let ghost before = *self;
        if first_player {
            self.white.first_player = true;
            self.white.ai = ai;
        } else {
            self.black.first_player = false;
            self.black.ai = ai;
        }
        assert(self@ == before@);
        assert(self.board_matches());
        let lineup = standard_lineup(first_player);
        let ok = self.place_all(first_player, &lineup);
        assert(ok);
    }

    /// The squares of the given side's pieces and those of the other side's,
    /// each in the order of the side's piece list.
    pub fn get_coords(&self, first_player: bool) -> (r: (Vec<(i32, i32)>, Vec<(i32, i32)>))
        ensures
            r.0@ == coords_of(self@.pieces(first_player)),
            r.1@ == coords_of(self@.pieces(!first_player)),
    {
        if first_player {
            (coords_of_pieces(&self.white.pieces), coords_of_pieces(&self.black.pieces))
        } else {
            (coords_of_pieces(&self.black.pieces), coords_of_pieces(&self.white.pieces))
        }
    }

    /// What a check on the given side is made of: the side's recorded king
    /// square and the pieces of the other side.
    pub fn get_potential_check(&self, first_player: bool) -> (r: ((i32, i32), Vec<Piece>))
        ensures
            r.0 == self@.king(first_player),
            r.1@ == self@.pieces(!first_player),
    {
        if first_player {
            (self.white.king_coord, copy_pieces(&self.black.pieces))
        } else {
            (self.black.king_coord, copy_pieces(&self.white.pieces))
        }
    }

    /// The pieces of the given side, in the order of its piece list.
    pub fn get_pieces(&self, first_player: bool) -> (r: Vec<Piece>)
        ensures
            r@ == self@.pieces(first_player),
    {
        if first_player {
            copy_pieces(&self.white.pieces)
        } else {
            copy_pieces(&self.black.pieces)
        }
    }

    /// The piece standing on `coord`, if any. A coordinate off the board
    /// holds none.
    pub fn piece_at(&self, coord: (i32, i32)) -> (r: Option<Piece>)
        requires
            self.wf(),
        ensures
            r == self@.occupant(coord),
    {
        if !is_within_board_limits(coord.0, coord.1) {
            proof {
                lemma_occupant_is_piece(self@, coord);
                if holds(self@.white, coord) {
                    let i = index_at(self@.white, coord);
                    assert(in_bounds(self@.white[i].current_coords));
                }
                if holds(self@.black, coord) {
                    let i = index_at(self@.black, coord);
                    assert(in_bounds(self@.black[i].current_coords));
                }
            }
            return None;
        }
        let i = square_index(coord);
        self.board[i].occupied
    }

    /// Puts a new piece of the given side on an empty square. A king becomes
    /// the side's recorded king.
    fn place(&mut self, first_player: bool, piece: Piece)
        requires
            old(self).wf(),
            in_bounds(piece.current_coords),
            old(self)@.occupant(piece.current_coords) is None,
            piece.piece_type == PieceType::King ==> forall|i: int|
                0 <= i < old(self)@.pieces(first_player).len() ==> (#[trigger] old(self)@.pieces(
                    first_player,
                )[i]).piece_type != PieceType::King,
        ensures
            final(self).wf(),
            final(self)@ == old(self)@.placed(first_player, piece),
            final(self).ai(true) == old(self).ai(true),
            final(self).ai(false) == old(self).ai(false),
    {
        proof {
            lemma_place(self@, first_player, piece);
        }
        let ghost before = *self;
        let i = square_index(piece.current_coords);
        let score = self.board[i].evaluated_value;
        self.board.set(i, Space { occupied: Some(piece), evaluated_value: score });
        let is_king = piece.piece_type == PieceType::King;
        if first_player {
            self.white.pieces.push(piece);
            if is_king {
                self.white.king_coord = piece.current_coords;
            }
        } else {
            self.black.pieces.push(piece);
            if is_king {
                self.black.king_coord = piece.current_coords;
            }
        }
        proof {
            assert(self@ =~= before@.placed(first_player, piece));
            assert forall|c: (i32, i32)| in_bounds(c) implies self.board@[square_number(
                c,
            )].occupied == #[trigger] self@.occupant(c) by {
                assert(before.board@[square_number(c)].occupied == before@.occupant(c));
            }
        }
    }

    /// Takes the piece that stands on `coord` and belongs to the opponent of
    /// the given side off the board and out of the opponent's piece list.
    pub fn capture_piece(&mut self, first_player: bool, coord: (i32, i32))
        requires
            old(self).wf(),
            holds(old(self)@.pieces(!first_player), coord),
        ensures
            final(self).wf(),
            final(self)@ == old(self)@.without_piece(!first_player, coord),
            final(self).ai(true) == old(self).ai(true),
            final(self).ai(false) == old(self).ai(false),
    {
        let ghost before = *self;
        proof {
            lemma_without_piece(self@, !first_player, coord);
            let k = index_at(self@.pieces(!first_player), coord);
            lemma_occupant_of_piece(self@, !first_player, k);
        }
        let i = square_index(coord);
        let score = self.board[i].evaluated_value;
        self.board.set(i, Space { occupied: None, evaluated_value: score });
        if first_player {
            let found = find_piece(&self.black.pieces, coord);
            match found {
                Some(k) => {
                    proof {
                        lemma_occupant_of_piece(before@, false, k as int);
                    }
                    self.black.pieces.remove(k);
                },
                None => {},
            }
        } else {
            let found = find_piece(&self.white.pieces, coord);
            match found {
                Some(k) => {
                    proof {
                        lemma_occupant_of_piece(before@, true, k as int);
                    }
                    self.white.pieces.remove(k);
                },
                None => {},
            }
        }
        proof {
            assert(self@ =~= before@.without_piece(!first_player, coord));
            assert forall|c: (i32, i32)| in_bounds(c) implies self.board@[square_number(
                c,
            )].occupied == #[trigger] self@.occupant(c) by {
                assert(before.board@[square_number(c)].occupied == before@.occupant(c));
            }
        }
    }

    /// Moves the piece of the given side that stands on `current_coords` to
    /// the empty square `destination`: the square it leaves is cleared, the
    /// piece's own coordinate and the square it reaches are updated, and a
    /// king takes its side's recorded king square along.
    pub fn update_move(
        &mut self,
        current_coords: (i32, i32),
        destination: (i32, i32),
        first_player: bool,
    )
        requires
            old(self).wf(),
            holds(old(self)@.pieces(first_player), current_coords),
            in_bounds(destination),
            old(self)@.occupant(destination) is None,
        ensures
            final(self).wf(),
            final(self)@ == old(self)@.relocated(first_player, current_coords, destination),
            final(self).ai(true) == old(self).ai(true),
            final(self).ai(false) == old(self).ai(false),
    {
        let ghost before = *self;
        proof {
            lemma_relocated(self@, first_player, current_coords, destination);
            let k = index_at(self@.pieces(first_player), current_coords);
            lemma_occupant_of_piece(self@, first_player, k);
        }
        let from = square_index(current_coords);
        let from_score = self.board[from].evaluated_value;
        self.board.set(from, Space { occupied: None, evaluated_value: from_score });
        let to = square_index(destination);
        let to_score = self.board[to].evaluated_value;
        if first_player {
            let found = find_piece(&self.white.pieces, current_coords);
            match found {
                Some(k) => {
                    proof {
                        lemma_occupant_of_piece(before@, true, k as int);
                    }
                    let piece = Piece {
                        piece_type: self.white.pieces[k].piece_type,
                        current_coords: destination,
                    };
                    self.white.pieces.set(k, piece);
                    self.board.set(to, Space { occupied: Some(piece), evaluated_value: to_score });
                    if piece.piece_type == PieceType::King {
                        self.white.king_coord = destination;
                    }
                },
                None => {},
            }
        } else {
            let found = find_piece(&self.black.pieces, current_coords);
            match found {
                Some(k) => {
                    proof {
                        lemma_occupant_of_piece(before@, false, k as int);
                    }
                    let piece = Piece {
                        piece_type: self.black.pieces[k].piece_type,
                        current_coords: destination,
                    };
                    self.black.pieces.set(k, piece);
                    self.board.set(to, Space { occupied: Some(piece), evaluated_value: to_score });
                    if piece.piece_type == PieceType::King {
                        self.black.king_coord = destination;
                    }
                },
                None => {},
            }
        }
        proof {
            assert(self@ =~= before@.relocated(first_player, current_coords, destination));
            assert forall|c: (i32, i32)| in_bounds(c) implies self.board@[square_number(
                c,
            )].occupied == #[trigger] self@.occupant(c) by {
                assert(before.board@[square_number(c)].occupied == before@.occupant(c));
            }
        }
    }

    /// Is the game over for the side about to move: has none of its pieces a
    /// legal move? This is checkmate when the side is in check and stalemate
    /// when it is not; the answer does not tell the two apart. Under check by
    /// two or more pieces only the king is asked, since no other piece has a
    /// legal move then.
    pub fn determine_endgame(&self, first_player: bool) -> (over: bool)
        ensures
            over == game_over(self@, first_player),
    {
        let checks = checking_pieces(self, first_player);
        let double_check = checks.len() >= 2;
        let own = self.get_pieces(first_player);
        let mut i: usize = 0;
        while i < own.len()
            invariant
                i <= own.len(),
                own@ == self@.pieces(first_player),
                double_check ==> in_check(self@, first_player) && !single_check(
                    self@,
                    first_player,
                ),
                forall|k: int, d: (i32, i32)|
                    0 <= k < i ==> !#[trigger] legal_move(self@, own@[k], first_player, d),
            decreases own.len() - i,
        {
            let piece = own[i];
            if !double_check || piece.piece_type == PieceType::King {
                let legal_moves = piece.generate_legal_moves(self, first_player);
                if legal_moves.len() > 0 {
                    proof {
                        assert(legal_moves@.contains(legal_moves@[0]));
                        assert(legal_move(self@, own@[i as int], first_player, legal_moves@[0]));
                    }
                    return false;
                }
                proof {
                    assert forall|d: (i32, i32)| !legal_move(
                        self@,
                        own@[i as int],
                        first_player,
                        d,
                    ) by {
                        if legal_move(self@, own@[i as int], first_player, d) {
                            assert(legal_moves@.contains(d));
                        }
                    }
                }
            }
            i += 1;
        }
        true
    }
}

} // verus!
