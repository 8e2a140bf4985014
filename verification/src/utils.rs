//! Board geometry and small sequence helpers shared by every component.

use vstd::prelude::*;

verus! {

/// A coordinate names a square of the board when its file and its rank both
/// lie between 1 and 8.
pub open spec fn in_bounds(c: (i32, i32)) -> bool {
    1 <= c.0 <= 8 && 1 <= c.1 <= 8
}

/// The order in which moves are listed: by file, then by rank.
pub open spec fn precedes(a: (i32, i32), b: (i32, i32)) -> bool {
    a.0 < b.0 || (a.0 == b.0 && a.1 < b.1)
}

/// The coordinates are listed in strictly rising order, so none twice.
pub open spec fn ascending(coords: Seq<(i32, i32)>) -> bool {
    forall|i: int, j: int| 0 <= i < j < coords.len() ==> precedes(coords[i], coords[j])
}

/// The shared bounds predicate: is `(x, y)` a square of the board?
pub fn is_within_board_limits(x: i32, y: i32) -> (r: bool)
    ensures
        r == in_bounds((x, y)),
{
    1 <= x && x <= 8 && 1 <= y && y <= 8
}

/// Do `a` and `b` name the same square?
pub fn same_coord(a: (i32, i32), b: (i32, i32)) -> (r: bool)
    ensures
        r == (a == b),
{
    a.0 == b.0 && a.1 == b.1
}

/// Membership of a coordinate in a list of coordinates.
pub fn contains_coord(coords: &Vec<(i32, i32)>, c: (i32, i32)) -> (r: bool)
    ensures
        r == coords@.contains(c),
{
    let mut i: usize = 0;
    while i < coords.len()
        invariant
            i <= coords.len(),
            forall|j: int| 0 <= j < i ==> coords@[j] != c,
        decreases coords.len() - i,
    {
        if same_coord(coords[i], c) {
            return true;
        }
        i += 1;
    }
    false
}

/// Appends `c` to `coords`. Membership afterwards is membership before, or
/// being `c`.
pub fn push_coord(coords: &mut Vec<(i32, i32)>, c: (i32, i32))
    ensures
        final(coords)@ == old(coords)@.push(c),
        forall|d: (i32, i32)|
            final(coords)@.contains(d) <==> (old(coords)@.contains(d) || d == c),
{
    let ghost before = coords@;
    coords.push(c);
    proof {
        let after = coords@;
        assert(after[before.len() as int] == c);
        assert forall|d: (i32, i32)| after.contains(d) <==> (before.contains(d) || d == c) by {
            if before.contains(d) {
                let i = choose|i: int| 0 <= i < before.len() && before[i] == d;
                assert(after[i] == d);
            }
            if after.contains(d) {
                let i = choose|i: int| 0 <= i < after.len() && after[i] == d;
                if i < before.len() {
                    assert(before[i] == d);
                }
            }
        }
    }
}

/// The coordinates of `coords` other than `c`, in their order.
pub(crate) fn without_coord(coords: &Vec<(i32, i32)>, c: (i32, i32)) -> (rest: Vec<(i32, i32)>)
    ensures
        forall|d: (i32, i32)| rest@.contains(d) <==> (coords@.contains(d) && d != c),
{
    let mut rest: Vec<(i32, i32)> = Vec::new();
    let mut i: usize = 0;
    while i < coords.len()
        invariant
            i <= coords.len(),
            forall|d: (i32, i32)| rest@.contains(d) ==> (coords@.contains(d) && d != c),
            forall|j: int| 0 <= j < i && coords@[j] != c ==> rest@.contains(#[trigger] coords@[j]),
        decreases coords.len() - i,
    {
        let d = coords[i];
        if !same_coord(d, c) {
            assert(coords@.contains(coords@[i as int]));
            push_coord(&mut rest, d);
        }
        i += 1;
    }
    rest
}

} // verus!
