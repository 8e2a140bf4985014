//! Movement geometry: which squares a piece can reach, given the squares
//! held by its own side and by the opposing side.

use crate::piece::{Piece, PieceType};
use crate::utils::{
    ascending, contains_coord, in_bounds, is_within_board_limits, precedes, push_coord,
};
use vstd::prelude::*;

verus! {

/// Distance between two integers.
pub open spec fn dist(a: int, b: int) -> int {
    if a < b {
        b - a
    } else {
        a - b
    }
}

/// `c` lies strictly between `a` and `b`.
pub open spec fn inside(a: int, b: int, c: int) -> bool {
    (a < c < b) || (b < c < a)
}

/// Two distinct squares on one file or one rank.
pub open spec fn orthogonal(a: (i32, i32), b: (i32, i32)) -> bool {
    a != b && (a.0 == b.0 || a.1 == b.1)
}

/// Two distinct squares on one diagonal.
pub open spec fn diagonal(a: (i32, i32), b: (i32, i32)) -> bool {
    a != b && dist(a.0 as int, b.0 as int) == dist(a.1 as int, b.1 as int)
}

/// `c` is one of the squares strictly between `a` and `b` on the file, rank
/// or diagonal that joins them. No square is between two squares that share
/// no such line.
pub open spec fn between(a: (i32, i32), b: (i32, i32), c: (i32, i32)) -> bool {
    ||| a.0 == b.0 && c.0 == a.0 && inside(a.1 as int, b.1 as int, c.1 as int)
    ||| a.1 == b.1 && c.1 == a.1 && inside(a.0 as int, b.0 as int, c.0 as int)
    ||| diagonal(a, b) && inside(a.0 as int, b.0 as int, c.0 as int) && inside(
        a.1 as int,
        b.1 as int,
        c.1 as int,
    ) && dist(a.0 as int, c.0 as int) == dist(a.1 as int, c.1 as int)
}

/// Some piece, of either side, stands on `c`.
pub open spec fn occupied(own: Set<(i32, i32)>, opp: Set<(i32, i32)>, c: (i32, i32)) -> bool {
    own.contains(c) || opp.contains(c)
}

/// Every square strictly between `a` and `b` is empty.
pub open spec fn clear_line(
    own: Set<(i32, i32)>,
    opp: Set<(i32, i32)>,
    a: (i32, i32),
    b: (i32, i32),
) -> bool {
    forall|c: (i32, i32)| #[trigger] between(a, b, c) ==> !occupied(own, opp, c)
}

/// The L-shaped jump of a knight.
pub open spec fn knight_jump(from: (i32, i32), d: (i32, i32)) -> bool {
    let dx = dist(from.0 as int, d.0 as int);
    let dy = dist(from.1 as int, d.1 as int);
    (dx == 1 && dy == 2) || (dx == 2 && dy == 1)
}

/// A step to one of the eight adjacent squares.
pub open spec fn king_step(from: (i32, i32), d: (i32, i32)) -> bool {
    from != d && dist(from.0 as int, d.0 as int) <= 1 && dist(from.1 as int, d.1 as int) <= 1
}

/// The rank direction in which a side's pawns advance.
pub open spec fn forward(first_player: bool) -> int {
    if first_player {
        1
    } else {
        -1
    }
}

/// The rank on which a side's pawns start.
pub open spec fn pawn_rank(first_player: bool) -> int {
    if first_player {
        2
    } else {
        7
    }
}

/// The single step of a pawn: one square forward, onto a square its own side
/// does not hold. Only the pawn's own side blocks the step: a piece of the
/// other side standing there is captured by it.
pub open spec fn pawn_single(
    own: Set<(i32, i32)>,
    from: (i32, i32),
    first_player: bool,
    d: (i32, i32),
) -> bool {
    d.0 == from.0 && d.1 == from.1 + forward(first_player) && !own.contains(d)
}

/// The double step of a pawn: two squares forward from its starting rank,
/// onto a square its own side does not hold. The square passed over is not
/// looked at.
pub open spec fn pawn_double(
    own: Set<(i32, i32)>,
    from: (i32, i32),
    first_player: bool,
    d: (i32, i32),
) -> bool {
    d.0 == from.0 && from.1 == pawn_rank(first_player) && d.1 == from.1 + 2 * forward(
        first_player,
    ) && !own.contains(d)
}

/// The capture of a pawn: one square diagonally forward, onto a square the
/// opposing side holds.
pub open spec fn pawn_capture(
    opp: Set<(i32, i32)>,
    from: (i32, i32),
    first_player: bool,
    d: (i32, i32),
) -> bool {
    dist(d.0 as int, from.0 as int) == 1 && d.1 == from.1 + forward(first_player) && opp.contains(
        d,
    )
}

/// `d` is a possible move of `piece`: a destination that the piece's raw
/// movement geometry reaches, whether or not the move leaves the mover's own
/// king in check. `own` are the squares held by the mover's side, `opp` those
/// held by the other side.
///
/// Knights use the eight canonical L-shaped offsets. A sliding piece reaches
/// every square of its lines up to and including the first occupied one, and
/// no square its own side holds.
pub open spec fn possible_move(
    own: Set<(i32, i32)>,
    opp: Set<(i32, i32)>,
    piece: Piece,
    first_player: bool,
    d: (i32, i32),
) -> bool {
    let from = piece.current_coords;
    &&& in_bounds(from)
    &&& in_bounds(d)
    &&& match piece.piece_type {
        PieceType::Pawn => {
            ||| pawn_single(own, from, first_player, d)
            ||| pawn_double(own, from, first_player, d)
            ||| pawn_capture(opp, from, first_player, d)
        },
        PieceType::Knight => knight_jump(from, d) && !own.contains(d),
        PieceType::King => king_step(from, d) && !own.contains(d),
        PieceType::Rook => orthogonal(from, d) && clear_line(own, opp, from, d) && !own.contains(d),
        PieceType::Bishop => diagonal(from, d) && clear_line(own, opp, from, d) && !own.contains(d),
        PieceType::Queen => (orthogonal(from, d) || diagonal(from, d)) && clear_line(
            own,
            opp,
            from,
            d,
        ) && !own.contains(d),
    }
}

/// Walks the squares strictly between `from` and `to` and reports whether all
/// of them are empty.
pub fn line_is_clear(
    own: &Vec<(i32, i32)>,
    opp: &Vec<(i32, i32)>,
    from: (i32, i32),
    to: (i32, i32),
) -> (r: bool)
    requires
        in_bounds(from),
        in_bounds(to),
        orthogonal(from, to) || diagonal(from, to),
    ensures
        r == clear_line(own@.to_set(), opp@.to_set(), from, to),
{
    let dx: i32 = if to.0 > from.0 {
        1
    } else if to.0 < from.0 {
        -1
    } else {
        0
    };
    let dy: i32 = if to.1 > from.1 {
        1
    } else if to.1 < from.1 {
        -1
    } else {
        0
    };
    let mut x: i32 = from.0 + dx;
    let mut y: i32 = from.1 + dy;
    while !(x == to.0 && y == to.1)
        invariant
            in_bounds(from),
            in_bounds(to),
            orthogonal(from, to) || diagonal(from, to),
            dx == (if to.0 > from.0 { 1int } else if to.0 < from.0 { -1int } else { 0int }),
            dy == (if to.1 > from.1 { 1int } else if to.1 < from.1 { -1int } else { 0int }),
            (x, y) == to || between(from, to, (x, y)),
            forall|c: (i32, i32)| #[trigger]
                between(from, (x, y), c) ==> !occupied(own@.to_set(), opp@.to_set(), c),
        decreases dist(to.0 as int, x as int) + dist(to.1 as int, y as int),
    {
        if contains_coord(own, (x, y)) || contains_coord(opp, (x, y)) {
            assert(between(from, to, (x, y)));
            return false;
        }
        let nx: i32 = x + dx;
        let ny: i32 = y + dy;
        assert forall|c: (i32, i32)| #[trigger] between(from, (nx, ny), c) implies !occupied(
            own@.to_set(),
            opp@.to_set(),
            c,
        ) by {
            if c != (x, y) {
                assert(between(from, (x, y), c));
            }
        }
        x = nx;
        y = ny;
    }
    true
}

/// Decides whether `c` is one of the squares strictly between `a` and `b`.
pub fn is_between(a: (i32, i32), b: (i32, i32), c: (i32, i32)) -> (r: bool)
    ensures
        r == between(a, b, c),
{
    let ax: i64 = a.0 as i64;
    let ay: i64 = a.1 as i64;
    let bx: i64 = b.0 as i64;
    let by: i64 = b.1 as i64;
    let cx: i64 = c.0 as i64;
    let cy: i64 = c.1 as i64;
    let in_x = (ax < cx && cx < bx) || (bx < cx && cx < ax);
    let in_y = (ay < cy && cy < by) || (by < cy && cy < ay);
    if ax == bx && cx == ax && in_y {
        return true;
    }
    if ay == by && cy == ay && in_x {
        return true;
    }
    let ex: i64 = if ax < bx { bx - ax } else { ax - bx };
    let ey: i64 = if ay < by { by - ay } else { ay - by };
    let fx: i64 = if ax < cx { cx - ax } else { ax - cx };
    let fy: i64 = if ay < cy { cy - ay } else { ay - cy };
    !(ax == bx && ay == by) && ex == ey && in_x && in_y && fx == fy
}

/// Decides whether `dest` is a possible move of `piece`.
pub fn can_move(
    piece: &Piece,
    first_player: bool,
    own: &Vec<(i32, i32)>,
    opp: &Vec<(i32, i32)>,
    dest: (i32, i32),
) -> (r: bool)
    ensures
        r == possible_move(own@.to_set(), opp@.to_set(), *piece, first_player, dest),
{
    let from = piece.current_coords;
    if !is_within_board_limits(from.0, from.1) || !is_within_board_limits(dest.0, dest.1) {
        return false;
    }
    let dx: i32 = dest.0 - from.0;
    let dy: i32 = dest.1 - from.1;
    let adx: i32 = if dx < 0 {
        -dx
    } else {
        dx
    };
    let ady: i32 = if dy < 0 {
        -dy
    } else {
        dy
    };
    match piece.piece_type {
        PieceType::Pawn => {
            let dir: i32 = if first_player {
                1
            } else {
                -1
            };
            let start: i32 = if first_player {
                2
            } else {
                7
            };
            if dx == 0 {
                (dy == dir || (from.1 == start && dy == 2 * dir)) && !contains_coord(own, dest)
            } else {
                adx == 1 && dy == dir && contains_coord(opp, dest)
            }
        },
        PieceType::Knight => {
            ((adx == 1 && ady == 2) || (adx == 2 && ady == 1)) && !contains_coord(own, dest)
        },
        PieceType::King => {
            adx <= 1 && ady <= 1 && adx + ady > 0 && !contains_coord(own, dest)
        },
        PieceType::Rook => {
            adx + ady > 0 && (dx == 0 || dy == 0) && !contains_coord(own, dest) && line_is_clear(
                own,
                opp,
                from,
                dest,
            )
        },
        PieceType::Bishop => {
            adx > 0 && adx == ady && !contains_coord(own, dest) && line_is_clear(
                own,
                opp,
                from,
                dest,
            )
        },
        PieceType::Queen => {
            adx + ady > 0 && (dx == 0 || dy == 0 || adx == ady) && !contains_coord(own, dest)
                && line_is_clear(own, opp, from, dest)
        },
    }
}

/// Lists the possible moves of `piece`, by file and then by rank.
pub fn possible_moves_among(
    piece: &Piece,
    first_player: bool,
    own: &Vec<(i32, i32)>,
    opp: &Vec<(i32, i32)>,
) -> (moves: Vec<(i32, i32)>)
    ensures
        forall|d: (i32, i32)|
            moves@.contains(d) <==> possible_move(
                own@.to_set(),
                opp@.to_set(),
                *piece,
                first_player,
                d,
            ),
        ascending(moves@),
{
    let mut moves: Vec<(i32, i32)> = Vec::new();
    let mut x: i32 = 1;
    while x <= 8
        invariant
            1 <= x <= 9,
            forall|d: (i32, i32)|
                moves@.contains(d) <==> (possible_move(
                    own@.to_set(),
                    opp@.to_set(),
                    *piece,
                    first_player,
                    d,
                ) && d.0 < x),
            ascending(moves@),
        decreases 9 - x,
    {
        let mut y: i32 = 1;
        while y <= 8
            invariant
                1 <= x <= 8,
                1 <= y <= 9,
                forall|d: (i32, i32)|
                    moves@.contains(d) <==> (possible_move(
                        own@.to_set(),
                        opp@.to_set(),
                        *piece,
                        first_player,
                        d,
                    ) && (d.0 < x || (d.0 == x && d.1 < y))),
                ascending(moves@),
            decreases 9 - y,
        {
            if can_move(piece, first_player, own, opp, (x, y)) {
                proof {
                    assert forall|i: int| 0 <= i < moves@.len() implies precedes(
                        #[trigger] moves@[i],
                        (x, y),
                    ) by {
                        assert(moves@.contains(moves@[i]));
                    }
                }
                push_coord(&mut moves, (x, y));
            }
            y += 1;
        }
        x += 1;
    }
    moves
}

} // verus!
