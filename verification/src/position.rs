//! The mathematical model of a game: the live pieces of each side, in the
//! order in which they were placed, and each side's recorded king square.

use crate::piece::{Piece, PieceType};
use crate::moves::pawn_rank;
use crate::utils::in_bounds;
use vstd::prelude::*;

verus! {

/// The squares on which the given pieces stand, in the same order.
pub open spec fn coords_of(pieces: Seq<Piece>) -> Seq<(i32, i32)> {
    Seq::new(pieces.len(), |i: int| pieces[i].current_coords)
}

/// One of the given pieces stands on `c`.
pub open spec fn holds(pieces: Seq<Piece>, c: (i32, i32)) -> bool {
    exists|i: int| 0 <= i < pieces.len() && (#[trigger] pieces[i]).current_coords == c
}

/// The place in the list of a piece that stands on `c`.
pub open spec fn index_at(pieces: Seq<Piece>, c: (i32, i32)) -> int {
    choose|i: int| 0 <= i < pieces.len() && (#[trigger] pieces[i]).current_coords == c
}

/// The pieces of one side are valid: each on a square of the board, no two
/// on one square, and any king on the side's recorded king square.
pub open spec fn side_wf(pieces: Seq<Piece>, king: (i32, i32)) -> bool {
    &&& forall|i: int| 0 <= i < pieces.len() ==> in_bounds((#[trigger] pieces[i]).current_coords)
    &&& forall|i: int, j: int|
        0 <= i < pieces.len() && 0 <= j < pieces.len() && i != j ==> (#[trigger] pieces[i]).current_coords
            != (#[trigger] pieces[j]).current_coords
    &&& forall|i: int|
        0 <= i < pieces.len() && (#[trigger] pieces[i]).piece_type == PieceType::King
            ==> pieces[i].current_coords == king
}

/// The given pieces with the one standing on `c`, if any, taken out.
pub open spec fn without(pieces: Seq<Piece>, c: (i32, i32)) -> Seq<Piece> {
    if holds(pieces, c) {
        pieces.remove(index_at(pieces, c))
    } else {
        pieces
    }
}

/// The given pieces with the one standing on `from`, if any, moved to `to`.
pub open spec fn moved(pieces: Seq<Piece>, from: (i32, i32), to: (i32, i32)) -> Seq<Piece> {
    if holds(pieces, from) {
        let i = index_at(pieces, from);
        pieces.update(i, Piece { piece_type: pieces[i].piece_type, current_coords: to })
    } else {
        pieces
    }
}

/// One of the given pieces is a king.
pub open spec fn has_king(pieces: Seq<Piece>) -> bool {
    exists|i: int| 0 <= i < pieces.len() && (#[trigger] pieces[i]).piece_type == PieceType::King
}

/// The square of a king among the given pieces.
pub open spec fn king_square(pieces: Seq<Piece>) -> (i32, i32) {
    pieces[choose|i: int|
        0 <= i < pieces.len() && (#[trigger] pieces[i]).piece_type
            == PieceType::King].current_coords
}

/// The given pieces can be put on a board that already holds `others`: they
/// stand on squares of the board, no two on one square and none on a square
/// of `others`, and exactly one of them is a king.
pub open spec fn lineup_ok(pieces: Seq<Piece>, others: Seq<Piece>) -> bool {
    &&& side_wf(pieces, king_square(pieces))
    &&& has_king(pieces)
    &&& forall|i: int, j: int|
        0 <= i < pieces.len() && 0 <= j < others.len() ==> (#[trigger] pieces[i]).current_coords
            != (#[trigger] others[j]).current_coords
}

/// The rank on which a side's pieces other than pawns start.
pub open spec fn back_rank(first_player: bool) -> int {
    if first_player {
        1
    } else {
        8
    }
}

/// The `i`-th piece of a side's starting line-up: rooks, knights, bishops,
/// queen and king on the back rank, then the eight pawns by file.
pub open spec fn standard_piece(first_player: bool, i: int) -> Piece {
    let back = back_rank(first_player) as i32;
    let front = pawn_rank(first_player) as i32;
    if i == 0 {
        Piece { piece_type: PieceType::Rook, current_coords: (1, back) }
    } else if i == 1 {
        Piece { piece_type: PieceType::Rook, current_coords: (8, back) }
    } else if i == 2 {
        Piece { piece_type: PieceType::Knight, current_coords: (2, back) }
    } else if i == 3 {
        Piece { piece_type: PieceType::Knight, current_coords: (7, back) }
    } else if i == 4 {
        Piece { piece_type: PieceType::Bishop, current_coords: (3, back) }
    } else if i == 5 {
        Piece { piece_type: PieceType::Bishop, current_coords: (6, back) }
    } else if i == 6 {
        Piece { piece_type: PieceType::Queen, current_coords: (4, back) }
    } else if i == 7 {
        Piece { piece_type: PieceType::King, current_coords: (5, back) }
    } else {
        Piece { piece_type: PieceType::Pawn, current_coords: ((i - 7) as i32, front) }
    }
}

/// None of the given pieces stands on one of the two ranks on which the
/// given side starts.
pub open spec fn off_home_ranks(pieces: Seq<Piece>, first_player: bool) -> bool {
    forall|j: int|
        0 <= j < pieces.len() ==> (#[trigger] pieces[j]).current_coords.1 != back_rank(
            first_player,
        ) && pieces[j].current_coords.1 != pawn_rank(first_player)
}

/// A side's starting line-up.
pub open spec fn standard_pieces(first_player: bool) -> Seq<Piece> {
    Seq::new(16, |i: int| standard_piece(first_player, i))
}

/// The state of a game as the rules see it.
pub struct Position {
    pub white: Seq<Piece>,
    pub black: Seq<Piece>,
    pub white_king: (i32, i32),
    pub black_king: (i32, i32),
}

impl Position {
    /// The standard starting position: white on ranks 1 and 2, black on
    /// ranks 8 and 7, the four ranks between them empty.
    pub open spec fn standard() -> Position {
        Position {
            white: standard_pieces(true),
            black: standard_pieces(false),
            white_king: (5, 1),
            black_king: (5, 8),
        }
    }

    /// The position that holds the given pieces, each side's recorded king
    /// square being the square of its king.
    pub open spec fn arranged(white: Seq<Piece>, black: Seq<Piece>) -> Position {
        Position {
            white: white,
            black: black,
            white_king: king_square(white),
            black_king: king_square(black),
        }
    }

    /// The pieces of the first player (white) or of the other (black).
    pub open spec fn pieces(self, first_player: bool) -> Seq<Piece> {
        if first_player {
            self.white
        } else {
            self.black
        }
    }

    /// The recorded king square of a side.
    pub open spec fn king(self, first_player: bool) -> (i32, i32) {
        if first_player {
            self.white_king
        } else {
            self.black_king
        }
    }

    /// The squares held by a side.
    pub open spec fn occupancy(self, first_player: bool) -> Set<(i32, i32)> {
        coords_of(self.pieces(first_player)).to_set()
    }

    /// The piece standing on `c`, if any.
    pub open spec fn occupant(self, c: (i32, i32)) -> Option<Piece> {
        if holds(self.white, c) {
            Some(self.white[index_at(self.white, c)])
        } else if holds(self.black, c) {
            Some(self.black[index_at(self.black, c)])
        } else {
            None
        }
    }

    /// Both sides are valid and no square holds a piece of each.
    pub open spec fn wf(self) -> bool {
        &&& side_wf(self.white, self.white_king)
        &&& side_wf(self.black, self.black_king)
        &&& forall|i: int, j: int|
            0 <= i < self.white.len() && 0 <= j < self.black.len() ==> (#[trigger] self.white[i]).current_coords
                != (#[trigger] self.black[j]).current_coords
    }

    /// This position with other pieces and king square for one side.
    pub open spec fn with_side(self, first_player: bool, pieces: Seq<Piece>, king: (i32, i32)) -> Position {
        if first_player {
            Position { white: pieces, white_king: king, ..self }
        } else {
            Position { black: pieces, black_king: king, ..self }
        }
    }

    /// This position once a new piece has been added to the given side. A
    /// king becomes the side's recorded king.
    pub open spec fn placed(self, first_player: bool, piece: Piece) -> Position {
        let king = if piece.piece_type == PieceType::King {
            piece.current_coords
        } else {
            self.king(first_player)
        };
        self.with_side(first_player, self.pieces(first_player).push(piece), king)
    }

    /// This position once the piece of the given side on `c`, if any, has
    /// been taken off the board.
    pub open spec fn without_piece(self, first_player: bool, c: (i32, i32)) -> Position {
        self.with_side(first_player, without(self.pieces(first_player), c), self.king(first_player))
    }

    /// This position once the piece of the given side on `from`, if any, has
    /// been put on `to`. A king takes its side's recorded king square along.
    pub open spec fn relocated(self, first_player: bool, from: (i32, i32), to: (i32, i32)) -> Position {
        let pieces = self.pieces(first_player);
        let king = if holds(pieces, from) && pieces[index_at(pieces, from)].piece_type
            == PieceType::King {
            to
        } else {
            self.king(first_player)
        };
        self.with_side(first_player, moved(pieces, from, to), king)
    }

    /// This position once the given side has moved its piece on `from` to
    /// `to`, capturing the opposing piece that stood there, if any.
    pub open spec fn after_move(self, first_player: bool, from: (i32, i32), to: (i32, i32)) -> Position {
        self.without_piece(!first_player, to).relocated(first_player, from, to)
    }
}

/// Membership in the squares of a list of pieces is standing on the square.
pub proof fn lemma_coords_contains(pieces: Seq<Piece>, c: (i32, i32))
    ensures
        coords_of(pieces).contains(c) <==> holds(pieces, c),
        coords_of(pieces).to_set().contains(c) <==> holds(pieces, c),
{
    let cs = coords_of(pieces);
    if holds(pieces, c) {
        let i = index_at(pieces, c);
        assert(cs[i] == c);
    }
    if cs.contains(c) {
        let i = choose|i: int| 0 <= i < cs.len() && cs[i] == c;
        assert(pieces[i].current_coords == c);
    }
}

/// In a valid position each piece is the occupant of its own square.
pub proof fn lemma_occupant_of_piece(pos: Position, first_player: bool, i: int)
    requires
        pos.wf(),
        0 <= i < pos.pieces(first_player).len(),
    ensures
        pos.occupant(pos.pieces(first_player)[i].current_coords) == Some(pos.pieces(first_player)[i]),
        holds(pos.pieces(first_player), pos.pieces(first_player)[i].current_coords),
        !holds(pos.pieces(!first_player), pos.pieces(first_player)[i].current_coords),
        index_at(pos.pieces(first_player), pos.pieces(first_player)[i].current_coords) == i,
{
    let own = pos.pieces(first_player);
    let other = pos.pieces(!first_player);
    let c = own[i].current_coords;
    assert(holds(own, c));
    let k = index_at(own, c);
    assert(k == i);
    if holds(other, c) {
        let j = index_at(other, c);
        assert(other[j].current_coords == own[i].current_coords);
        assert(false);
    }
}

/// The occupant of a square, if any, is a piece of one side standing there.
pub proof fn lemma_occupant_is_piece(pos: Position, c: (i32, i32))
    ensures
        match pos.occupant(c) {
            Some(p) => p.current_coords == c && (holds(pos.white, c) || holds(pos.black, c)),
            None => !holds(pos.white, c) && !holds(pos.black, c),
        },
{
}

/// Putting a new piece on an empty square keeps a position valid and changes
/// the occupant of that square alone.
pub proof fn lemma_place(pos: Position, first_player: bool, piece: Piece)
    requires
        pos.wf(),
        in_bounds(piece.current_coords),
        pos.occupant(piece.current_coords) is None,
        piece.piece_type == PieceType::King ==> forall|i: int|
            0 <= i < pos.pieces(first_player).len() ==> (#[trigger] pos.pieces(
                first_player,
            )[i]).piece_type != PieceType::King,
    ensures
        pos.placed(first_player, piece).wf(),
        forall|c: (i32, i32)|
            #[trigger] pos.placed(first_player, piece).occupant(c) == if c
                == piece.current_coords {
                Some(piece)
            } else {
                pos.occupant(c)
            },
{
    let king = if piece.piece_type == PieceType::King {
        piece.current_coords
    } else {
        pos.king(first_player)
    };
    let own = pos.pieces(first_player);
    let other = pos.pieces(!first_player);
    let grown = own.push(piece);
    let next = pos.with_side(first_player, grown, king);
    lemma_occupant_is_piece(pos, piece.current_coords);
    assert(next.pieces(first_player) == grown);
    assert(next.pieces(!first_player) == other);
    assert(side_wf(grown, king)) by {
        assert forall|i: int, j: int|
            0 <= i < grown.len() && 0 <= j < grown.len() && i != j implies (#[trigger] grown[i]).current_coords
            != (#[trigger] grown[j]).current_coords by {
            if i < own.len() {
                assert(grown[i] == own[i]);
            }
            if j < own.len() {
                assert(grown[j] == own[j]);
            }
        }
        assert forall|i: int| 0 <= i < grown.len() implies in_bounds(
            (#[trigger] grown[i]).current_coords,
        ) by {
            if i < own.len() {
                assert(grown[i] == own[i]);
            }
        }
        assert forall|i: int|
            0 <= i < grown.len() && (#[trigger] grown[i]).piece_type
                == PieceType::King implies grown[i].current_coords == king by {
            if i < own.len() {
                assert(grown[i] == own[i]);
            }
        }
    }
    assert(next.wf()) by {
        assert forall|i: int, j: int|
            0 <= i < next.white.len() && 0 <= j < next.black.len() implies (#[trigger] next.white[i]).current_coords
            != (#[trigger] next.black[j]).current_coords by {
            if first_player {
                if i < own.len() {
                    assert(grown[i] == own[i]);
                } else {
                    assert(other[j].current_coords != piece.current_coords);
                }
            } else {
                if j < own.len() {
                    assert(grown[j] == own[j]);
                } else {
                    assert(other[i].current_coords != piece.current_coords);
                }
            }
        }
    }
    assert forall|c: (i32, i32)|
        #[trigger] next.occupant(c) == if c == piece.current_coords {
            Some(piece)
        } else {
            pos.occupant(c)
        } by {
        if c == piece.current_coords {
            assert(grown[own.len() as int] == piece);
            lemma_occupant_of_piece(next, first_player, own.len() as int);
        } else {
            lemma_occupant_is_piece(pos, c);
            if holds(own, c) {
                let i = index_at(own, c);
                assert(grown[i] == own[i]);
                lemma_occupant_of_piece(pos, first_player, i);
                lemma_occupant_of_piece(next, first_player, i);
            } else if holds(other, c) {
                let i = index_at(other, c);
                lemma_occupant_of_piece(pos, !first_player, i);
                lemma_occupant_of_piece(next, !first_player, i);
            } else {
                if holds(grown, c) {
                    let i = index_at(grown, c);
                    if i < own.len() {
                        assert(grown[i] == own[i]);
                    }
                    assert(false);
                }
                lemma_occupant_is_piece(next, c);
            }
        }
    }
}

/// Taking a piece off the board keeps a position valid and empties the
/// square of that piece alone.
pub proof fn lemma_without_piece(pos: Position, first_player: bool, c: (i32, i32))
    requires
        pos.wf(),
        holds(pos.pieces(first_player), c),
    ensures
        pos.without_piece(first_player, c).wf(),
        forall|d: (i32, i32)|
            #[trigger] pos.without_piece(first_player, c).occupant(d) == if d == c {
                None
            } else {
                pos.occupant(d)
            },
{
    let own = pos.pieces(first_player);
    let other = pos.pieces(!first_player);
    let k = index_at(own, c);
    let fewer = own.remove(k);
    let next = pos.without_piece(first_player, c);
    lemma_occupant_of_piece(pos, first_player, k);
    assert(next.pieces(first_player) == fewer);
    assert(next.pieces(!first_player) == other);
    assert forall|i: int| 0 <= i < fewer.len() implies #[trigger] fewer[i] == own[if i < k {
        i
    } else {
        i + 1
    }] by {}
    assert(side_wf(fewer, pos.king(first_player))) by {
        assert forall|i: int, j: int|
            0 <= i < fewer.len() && 0 <= j < fewer.len() && i != j implies (#[trigger] fewer[i]).current_coords
            != (#[trigger] fewer[j]).current_coords by {
            let a = if i < k { i } else { i + 1 };
            let b = if j < k { j } else { j + 1 };
            assert(own[a].current_coords != own[b].current_coords);
        }
        assert forall|i: int| 0 <= i < fewer.len() implies in_bounds(
            (#[trigger] fewer[i]).current_coords,
        ) by {
            let a = if i < k { i } else { i + 1 };
            assert(in_bounds(own[a].current_coords));
        }
        assert forall|i: int|
            0 <= i < fewer.len() && (#[trigger] fewer[i]).piece_type
                == PieceType::King implies fewer[i].current_coords == pos.king(first_player) by {
            let a = if i < k { i } else { i + 1 };
            assert(own[a].piece_type == PieceType::King);
        }
    }
    assert(next.wf()) by {
        assert forall|i: int, j: int|
            0 <= i < next.white.len() && 0 <= j < next.black.len() implies (#[trigger] next.white[i]).current_coords
            != (#[trigger] next.black[j]).current_coords by {
            if first_player {
                let a = if i < k { i } else { i + 1 };
                assert(own[a].current_coords != other[j].current_coords);
            } else {
                let b = if j < k { j } else { j + 1 };
                assert(other[i].current_coords != own[b].current_coords);
            }
        }
    }
    assert forall|d: (i32, i32)|
        #[trigger] next.occupant(d) == if d == c {
            None
        } else {
            pos.occupant(d)
        } by {
        lemma_occupant_is_piece(pos, d);
        lemma_occupant_is_piece(next, d);
        if holds(fewer, d) {
            let i = index_at(fewer, d);
            let a = if i < k { i } else { i + 1 };
            assert(own[a].current_coords == d);
            lemma_occupant_of_piece(pos, first_player, a);
            lemma_occupant_of_piece(next, first_player, i);
        } else if holds(other, d) {
            let j = index_at(other, d);
            lemma_occupant_of_piece(pos, !first_player, j);
            lemma_occupant_of_piece(next, !first_player, j);
        } else if holds(own, d) {
            let a = index_at(own, d);
            if a != k {
                let i = if a < k { a } else { a - 1 };
                assert(fewer[i].current_coords == d);
                assert(false);
            }
        }
    }
}

/// Moving a piece onto an empty square keeps a position valid, empties the
/// square it left and fills the one it reached.
pub proof fn lemma_relocated(pos: Position, first_player: bool, from: (i32, i32), to: (i32, i32))
    requires
        pos.wf(),
        holds(pos.pieces(first_player), from),
        in_bounds(to),
        pos.occupant(to) is None,
    ensures
        pos.relocated(first_player, from, to).wf(),
        forall|d: (i32, i32)|
            #[trigger] pos.relocated(first_player, from, to).occupant(d) == if d == to {
                Some(
                    Piece {
                        piece_type: pos.pieces(first_player)[index_at(
                            pos.pieces(first_player),
                            from,
                        )].piece_type,
                        current_coords: to,
                    },
                )
            } else if d == from {
                None
            } else {
                pos.occupant(d)
            },
{
    let own = pos.pieces(first_player);
    let other = pos.pieces(!first_player);
    let k = index_at(own, from);
    let piece = Piece { piece_type: own[k].piece_type, current_coords: to };
    let shifted = own.update(k, piece);
    let next = pos.relocated(first_player, from, to);
    let king = next.king(first_player);
    lemma_occupant_of_piece(pos, first_player, k);
    lemma_occupant_is_piece(pos, to);
    assert(next.pieces(first_player) == shifted);
    assert(next.pieces(!first_player) == other);
    assert(side_wf(shifted, king)) by {
        assert forall|i: int, j: int|
            0 <= i < shifted.len() && 0 <= j < shifted.len() && i != j implies (#[trigger] shifted[i]).current_coords
            != (#[trigger] shifted[j]).current_coords by {
            assert(own[i].current_coords != own[j].current_coords);
        }
        assert forall|i: int| 0 <= i < shifted.len() implies in_bounds(
            (#[trigger] shifted[i]).current_coords,
        ) by {
            assert(in_bounds(own[i].current_coords));
        }
        assert forall|i: int|
            0 <= i < shifted.len() && (#[trigger] shifted[i]).piece_type
                == PieceType::King implies shifted[i].current_coords == king by {
            assert(own[i].piece_type == PieceType::King);
            if i != k {
                assert(own[k].current_coords != own[i].current_coords);
            }
        }
    }
    assert(next.wf()) by {
        assert forall|i: int, j: int|
            0 <= i < next.white.len() && 0 <= j < next.black.len() implies (#[trigger] next.white[i]).current_coords
            != (#[trigger] next.black[j]).current_coords by {
            if first_player {
                assert(own[i].current_coords != other[j].current_coords);
            } else {
                assert(other[i].current_coords != own[j].current_coords);
            }
        }
    }
    assert forall|d: (i32, i32)|
        #[trigger] next.occupant(d) == if d == to {
            Some(piece)
        } else if d == from {
            None
        } else {
            pos.occupant(d)
        } by {
        lemma_occupant_is_piece(pos, d);
        lemma_occupant_is_piece(next, d);
        if holds(shifted, d) {
            let i = index_at(shifted, d);
            lemma_occupant_of_piece(next, first_player, i);
            if i != k {
                assert(own[i].current_coords == d);
                lemma_occupant_of_piece(pos, first_player, i);
            }
        } else if holds(other, d) {
            let j = index_at(other, d);
            lemma_occupant_of_piece(pos, !first_player, j);
            lemma_occupant_of_piece(next, !first_player, j);
        } else if holds(own, d) {
            let a = index_at(own, d);
            if a != k {
                assert(shifted[a].current_coords == d);
                assert(false);
            }
        }
        if d == to {
            assert(shifted[k].current_coords == to);
        }
    }
}

/// A side's starting line-up can be put on a board whose other pieces stand
/// off the side's two home ranks, and its king starts on file 5.
pub proof fn lemma_standard_lineup(first_player: bool, others: Seq<Piece>)
    requires
        off_home_ranks(others, first_player),
    ensures
        lineup_ok(standard_pieces(first_player), others),
        king_square(standard_pieces(first_player)) == (5i32, back_rank(first_player) as i32),
{
    let s = standard_pieces(first_player);
    assert(s[7].piece_type == PieceType::King);
    assert(has_king(s));
    let k = choose|i: int| 0 <= i < s.len() && (#[trigger] s[i]).piece_type == PieceType::King;
    assert(k == 7);
}

} // verus!
