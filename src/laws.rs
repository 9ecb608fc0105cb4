use crate::cell::{adjacent, Cell};
use crate::rules::{
    lemma_seq_histogram_of_set, live_neighbours, neighbour_histogram, next_generation,
    seq_histogram,
};
use vstd::prelude::*;

verus! {

/// The empty colony stays empty.
pub proof fn lemma_empty_stays_empty()
    ensures
        next_generation(Set::<Cell>::empty()) == Set::<Cell>::empty(),
{
    assert(next_generation(Set::<Cell>::empty()) =~= Set::<Cell>::empty());
}

/// A cell alone on the plane dies, and nothing is born around it.
pub proof fn lemma_isolated_cell_dies(c: Cell)
    ensures
        next_generation(set![c]) == Set::<Cell>::empty(),
{
    assert forall|d: Cell| live_neighbours(set![c], d) <= 1 by {}
    assert(next_generation(set![c]) =~= Set::<Cell>::empty());
}

/// A cell next to no live cell has no entry in the neighbour counts, and is
/// not live in the next generation.
pub proof fn lemma_far_cell_has_no_count(s: Set<Cell>, c: Cell)
    requires
        forall|l: Cell| #[trigger] s.contains(l) ==> !adjacent(c, l),
    ensures
        live_neighbours(s, c) == 0,
        !neighbour_histogram(s).contains_key(c),
        !next_generation(s).contains(c),
{
}

/// The neighbour counts do not depend on the order in which the live cells
/// are visited: two enumerations of the same cells give the same histogram.
pub proof fn lemma_counts_independent_of_order(a: Seq<Cell>, b: Seq<Cell>)
    requires
        a.no_duplicates(),
        b.no_duplicates(),
        a.to_set() == b.to_set(),
    ensures
        seq_histogram(a) == seq_histogram(b),
        seq_histogram(a) == neighbour_histogram(a.to_set()),
{
    lemma_seq_histogram_of_set(a);
    lemma_seq_histogram_of_set(b);
}

/// The next generation is a function of the live cells alone: equal colonies
/// have equal successors.
pub proof fn lemma_generation_deterministic(a: Set<Cell>, b: Set<Cell>)
    requires
        a == b,
    ensures
        next_generation(a) == next_generation(b),
{
}

} // verus!
