use crate::cell::Cell;
use dashmap::{DashMap, DashSet};
use vstd::prelude::*;

verus! {

#[verifier::external_type_specification]
#[verifier::external_body]
#[verifier::reject_recursive_types(K)]
#[verifier::reject_recursive_types(S)]
pub struct ExDashSet<K, S>(DashSet<K, S>);

#[verifier::external_type_specification]
#[verifier::external_body]
#[verifier::reject_recursive_types(K)]
#[verifier::reject_recursive_types(V)]
#[verifier::reject_recursive_types(S)]
pub struct ExDashMap<K, V, S>(DashMap<K, V, S>);

/// The live cells of a generation. A cell is dead exactly when it is absent.
pub type Colony = DashSet<Cell>;

/// For each cell next to at least one live cell, how many live cells it
/// touches.
pub type NeighbourCounts = DashMap<Cell, i32>;

/// The cells that a colony holds.
pub uninterp spec fn cells_of(s: DashSet<(i32, i32)>) -> Set<(i32, i32)>;

/// The entries that a count map holds.
pub uninterp spec fn counts_of(m: DashMap<(i32, i32), i32>) -> Map<(i32, i32), i32>;

/// Relies on `DashSet::new`: a new set holds nothing.
#[verifier::external_body]
pub(crate) fn new_colony() -> (r: Colony)
    ensures
        cells_of(r) == Set::<Cell>::empty(),
{
    DashSet::new()
}

/// Relies on `DashSet::insert`: the key is in the set afterwards, nothing
/// else changes.
#[verifier::external_body]
pub(crate) fn insert_cell(s: &mut Colony, c: Cell)
    ensures
        cells_of(*final(s)) == cells_of(*old(s)).insert(c),
{
    s.insert(c);
}

/// Relies on `DashSet::contains`: whether the key is in the set. The set is
/// read through a shared reference that nothing writes through meanwhile.
#[verifier::external_body]
pub(crate) fn contains_cell(s: &Colony, c: &Cell) -> (r: bool)
    ensures
        r == cells_of(*s).contains(*c),
{
    s.contains(c)
}

/// Relies on `DashSet::iter`: it walks every shard and visits each key of the
/// set once, in no promised order. The set is read through a shared
/// reference that nothing writes through meanwhile.
#[verifier::external_body]
pub(crate) fn colony_cells(s: &Colony) -> (r: Vec<Cell>)
    ensures
        r@.no_duplicates(),
        r@.to_set() == cells_of(*s),
{
    s.iter().map(|c| *c.key()).collect()
}

/// Relies on `DashMap::new`: a new map holds nothing.
#[verifier::external_body]
pub(crate) fn new_counts() -> (r: NeighbourCounts)
    ensures
        counts_of(r).dom() == Set::<Cell>::empty(),
{
    DashMap::new()
}

/// Relies on `DashMap::entry` and `Entry::or_insert`: the entry of `k`
/// is made with 0 where it is missing, then `v` is added to it. The `requires`
/// keeps the addition from overflowing.
#[verifier::external_body]
pub(crate) fn add_count(m: &mut NeighbourCounts, k: Cell, v: i32)
    requires
        0 <= v,
        counts_of(*old(m)).contains_key(k) ==> counts_of(*old(m))[k] + v <= i32::MAX,
    ensures
        counts_of(*final(m)) == counts_of(*old(m)).insert(
            k,
            (if counts_of(*old(m)).contains_key(k) { counts_of(*old(m))[k] + v } else { v as int }) as i32,
        ),
{
    *m.entry(k).or_insert(0) += v;
}

/// Relies on `DashMap::into_iter`: it drains every shard and hands out each
/// entry of the map once, in no promised order.
#[verifier::external_body]
pub(crate) fn count_entries(m: NeighbourCounts) -> (r: Vec<(Cell, i32)>)
    ensures
        forall|i: int, j: int| 0 <= i < j < r@.len() ==> r@[i].0 != r@[j].0,
        forall|i: int|
            0 <= i < r@.len() ==> #[trigger] counts_of(m).contains_key(r@[i].0) && counts_of(m)[r@[i].0]
                == r@[i].1,
        forall|k: Cell| #[trigger]
            counts_of(m).contains_key(k) ==> exists|i: int| 0 <= i < r@.len() && r@[i].0 == k,
{
    m.into_iter().collect()
}

} // verus!
