use vstd::prelude::*;

verus! {

/// A position on the integer plane, as (x, y).
pub type Cell = (i32, i32);

/// Both coordinates lie strictly inside the range of `i32`, so that every
/// neighbour of the cell is a `Cell` too.
pub open spec fn in_interior(c: Cell) -> bool {
    i32::MIN < c.0 < i32::MAX && i32::MIN < c.1 < i32::MAX
}

/// `a` is one of the eight cells of the Moore neighbourhood of `b`.
pub open spec fn adjacent(a: Cell, b: Cell) -> bool {
    a != b && -1 <= a.0 - b.0 <= 1 && -1 <= a.1 - b.1 <= 1
}

/// The eight cells around `cell`, each once, in no promised order.
pub fn neighbours(cell: &Cell) -> (r: Vec<Cell>)
    requires
        in_interior(*cell),
    ensures
        r@.len() == 8,
        r@.no_duplicates(),
        forall|d: Cell| r@.contains(d) <==> adjacent(d, *cell),
{
    let x: i32 = cell.0;
    let y: i32 = cell.1;
    let r = vec![
        (x - 1, y - 1), (x, y - 1), (x + 1, y - 1),
        (x - 1, y), (x + 1, y),
        (x - 1, y + 1), (x, y + 1), (x + 1, y + 1),
    ];
    assert forall|d: Cell| adjacent(d, *cell) implies r@.contains(d) by {
        let i: int = if d.1 == y - 1 {
            if d.0 == x - 1 { 0 } else if d.0 == x { 1 } else { 2 }
        } else if d.1 == y {
            if d.0 == x - 1 { 3 } else { 4 }
        } else {
            if d.0 == x - 1 { 5 } else if d.0 == x { 6 } else { 7 }
        };
        assert(r@[i] == d);
    }
    r
}

} // verus!
