use crate::cell::{in_interior, Cell};
use crate::colony::{cells_of, insert_cell, new_colony, Colony};
use vstd::prelude::*;

verus! {

/// The side of the square region that a random colony is drawn in.
pub const TILES_SPANNING: u32 = 300;

/// Relies on `rand::random`, which draws a value from the thread-local
/// generator (which panics only where the system gives it no entropy to
/// start from). Nothing is promised of the value.
pub assume_specification<T>[ rand::random::<T> ]() -> (r: T)
    where
        rand::distributions::Standard: rand::distributions::Distribution<T>,
;

/// The cell (row, column) is live where `draws[row][column]` is true.
pub open spec fn drawn(draws: Seq<Vec<bool>>, c: Cell) -> bool {
    0 <= c.0 < draws.len() && 0 <= c.1 < draws[c.0 as int]@.len() && draws[c.0 as int]@[c.1 as int]
}

/// The colony that a grid of draws describes: the cell (row, column) is live
/// exactly where the draw at that row and column is true.
pub fn cells_from_draws(draws: &Vec<Vec<bool>>) -> (r: Colony)
    requires
        draws@.len() <= i32::MAX,
        forall|row: int| 0 <= row < draws@.len() ==> #[trigger] draws@[row]@.len() <= i32::MAX,
    ensures
        forall|c: Cell| #[trigger] cells_of(r).contains(c) <==> drawn(draws@, c),
{
    let mut col = new_colony();
    let mut row: usize = 0;
    while row < draws.len()
        invariant
            row <= draws@.len() <= i32::MAX,
            forall|row: int| 0 <= row < draws@.len() ==> #[trigger] draws@[row]@.len() <= i32::MAX,
            forall|c: Cell| #[trigger]
                cells_of(col).contains(c) <==> (c.0 < row && drawn(draws@, c)),
        decreases draws@.len() - row,
    {
        let line = &draws[row];
        let mut column: usize = 0;
        while column < line.len()
            invariant
                row < draws@.len() <= i32::MAX,
                line@ == draws@[row as int]@,
                column <= line@.len() <= i32::MAX,
                forall|c: Cell| #[trigger]
                    cells_of(col).contains(c) <==> ((c.0 < row || (c.0 == row && c.1 < column))
                        && drawn(draws@, c)),
            decreases line@.len() - column,
        {
            if line[column] {
                insert_cell(&mut col, (row as i32, column as i32));
            }
            column = column + 1;
        }
        row = row + 1;
    }
    col
}

/// A colony over the square of side `TILES_SPANNING` at the origin, each cell
/// live on a fair random draw.
pub fn random_cells() -> (r: Colony)
    ensures
        forall|c: Cell| #[trigger]
            cells_of(r).contains(c) ==> 0 <= c.0 < TILES_SPANNING && 0 <= c.1 < TILES_SPANNING,
        forall|c: Cell| #[trigger] cells_of(r).contains(c) ==> in_interior(c),
{
    let mut draws: Vec<Vec<bool>> = Vec::new();
    let mut row: u32 = 0;
    while row < TILES_SPANNING
        invariant
            row <= TILES_SPANNING,
            draws@.len() == row,
            forall|i: int| 0 <= i < draws@.len() ==> #[trigger] draws@[i]@.len() == TILES_SPANNING,
        decreases TILES_SPANNING - row,
    {
        let mut line: Vec<bool> = Vec::new();
        let mut column: u32 = 0;
        while column < TILES_SPANNING
            invariant
                column <= TILES_SPANNING,
                line@.len() == column,
            decreases TILES_SPANNING - column,
        {
            line.push(rand::random::<bool>());
            column = column + 1;
        }
        draws.push(line);
        row = row + 1;
    }
    cells_from_draws(&draws)
}

} // verus!
