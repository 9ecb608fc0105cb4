use crate::cell::{adjacent, in_interior, Cell};
use vstd::prelude::*;

verus! {

/// 1 where (x, y) is a cell of `s`, 0 where it is not or lies off the `i32`
/// plane.
pub open spec fn live_at(s: Set<Cell>, x: int, y: int) -> nat {
    if i32::MIN <= x <= i32::MAX && i32::MIN <= y <= i32::MAX && s.contains((x as i32, y as i32)) {
        1
    } else {
        0
    }
}

/// How many of the eight cells around `c` are live in `s`.
pub open spec fn live_neighbours(s: Set<Cell>, c: Cell) -> nat {
    let x = c.0 as int;
    let y = c.1 as int;
    live_at(s, x - 1, y - 1) + live_at(s, x, y - 1) + live_at(s, x + 1, y - 1) + live_at(s, x - 1, y)
        + live_at(s, x + 1, y) + live_at(s, x - 1, y + 1) + live_at(s, x, y + 1) + live_at(
        s,
        x + 1,
        y + 1,
    )
}

/// The rule of life: three live neighbours give life, two keep a live cell
/// alive, anything else leaves the cell dead.
pub open spec fn lives_next(s: Set<Cell>, c: Cell) -> bool {
    live_neighbours(s, c) == 3 || (live_neighbours(s, c) == 2 && s.contains(c))
}

/// The generation that follows `s`.
pub open spec fn next_generation(s: Set<Cell>) -> Set<Cell> {
    Set::new(|c: Cell| lives_next(s, c))
}

/// Every cell next to a live cell, mapped to its number of live neighbours.
pub open spec fn neighbour_histogram(s: Set<Cell>) -> Map<Cell, i32> {
    Map::new(|c: Cell| live_neighbours(s, c) > 0, |c: Cell| live_neighbours(s, c) as i32)
}

/// No cell of `s` lies on the edge of the `i32` plane.
pub open spec fn all_interior(s: Set<Cell>) -> bool {
    forall|c: Cell| #[trigger] s.contains(c) ==> in_interior(c)
}

/// How many cells of the sequence `cells` are next to `c`, counted with
/// repetition.
pub open spec fn touches(cells: Seq<Cell>, c: Cell) -> nat
    decreases cells.len(),
{
    if cells.len() == 0 {
        0
    } else {
        touches(cells.drop_last(), c) + if adjacent(c, cells.last()) {
            1nat
        } else {
            0nat
        }
    }
}

/// The histogram of the neighbour enumerations of the cells of a sequence.
pub open spec fn seq_histogram(cells: Seq<Cell>) -> Map<Cell, i32> {
    Map::new(|c: Cell| touches(cells, c) > 0, |c: Cell| touches(cells, c) as i32)
}

/// The count that `m` holds for `k`, 0 where it holds none.
pub open spec fn count_or_zero(m: Map<Cell, i32>, k: Cell) -> int {
    if m.contains_key(k) {
        m[k] as int
    } else {
        0
    }
}

/// Two count maps merged by adding the counts of each key.
pub open spec fn sum_counts(a: Map<Cell, i32>, b: Map<Cell, i32>) -> Map<Cell, i32> {
    Map::new(
        |k: Cell| a.contains_key(k) || b.contains_key(k),
        |k: Cell| (count_or_zero(a, k) + count_or_zero(b, k)) as i32,
    )
}

/// Counting over two sequences one after the other adds the counts.
pub proof fn lemma_touches_concat(a: Seq<Cell>, b: Seq<Cell>, c: Cell)
    ensures
        touches(a + b, c) == touches(a, c) + touches(b, c),
    decreases b.len(),
{
    if b.len() > 0 {
        assert((a + b).drop_last() =~= a + b.drop_last());
        lemma_touches_concat(a, b.drop_last(), c);
    } else {
        assert(a + b =~= a);
    }
}

/// Adding a cell that was dead raises the count of exactly its neighbours.
pub proof fn lemma_live_neighbours_insert(s: Set<Cell>, l: Cell, c: Cell)
    requires
        !s.contains(l),
    ensures
        live_neighbours(s.insert(l), c) == live_neighbours(s, c) + if adjacent(c, l) {
            1nat
        } else {
            0nat
        },
{
}

/// Over a sequence without repetition, the count is that of its set of cells.
pub proof fn lemma_touches_is_live_neighbours(cells: Seq<Cell>, c: Cell)
    requires
        cells.no_duplicates(),
    ensures
        touches(cells, c) == live_neighbours(cells.to_set(), c),
    decreases cells.len(),
{
    if cells.len() == 0 {
        assert(cells.to_set() =~= Set::<Cell>::empty());
    } else {
        let p = cells.drop_last();
        let l = cells.last();
        assert(cells.to_set() =~= p.to_set().insert(l)) by {
            assert(cells =~= p.push(l));
            assert forall|d: Cell| cells.to_set().contains(d) implies p.to_set().insert(l).contains(d) by {
                let i = choose|i: int| 0 <= i < cells.len() && cells[i] == d;
                if i < p.len() {
                    assert(p[i] == d);
                }
            }
            assert forall|d: Cell| p.to_set().insert(l).contains(d) implies cells.to_set().contains(d) by {
                if d != l {
                    let i = choose|i: int| 0 <= i < p.len() && p[i] == d;
                    assert(cells[i] == d);
                } else {
                    assert(cells[cells.len() - 1] == d);
                }
            }
        }
        assert(!p.to_set().contains(l)) by {
            if p.to_set().contains(l) {
                let i = choose|i: int| 0 <= i < p.len() && p[i] == l;
                assert(cells[i] == cells[cells.len() - 1]);
            }
        }
        lemma_touches_is_live_neighbours(p, c);
        lemma_live_neighbours_insert(p.to_set(), l, c);
    }
}

/// The histogram of a sequence without repetition is that of its set.
pub proof fn lemma_seq_histogram_of_set(cells: Seq<Cell>)
    requires
        cells.no_duplicates(),
    ensures
        seq_histogram(cells) == neighbour_histogram(cells.to_set()),
{
    assert forall|c: Cell| touches(cells, c) == live_neighbours(cells.to_set(), c) by {
        lemma_touches_is_live_neighbours(cells, c);
    }
    assert(seq_histogram(cells) =~= neighbour_histogram(cells.to_set()));
}

/// Merging the histograms of two consecutive pieces of a sequence without
/// repetition gives the histogram of the whole; no count exceeds eight.
pub proof fn lemma_histogram_concat(p: Seq<Cell>, t: Seq<Cell>)
    requires
        (p + t).no_duplicates(),
    ensures
        sum_counts(seq_histogram(t), seq_histogram(p)) == seq_histogram(p + t),
        forall|k: Cell| #[trigger]
            count_or_zero(seq_histogram(t), k) + count_or_zero(seq_histogram(p), k) <= 8,
        forall|k: Cell| #[trigger] seq_histogram(p).contains_key(k) ==> 0 <= seq_histogram(p)[k],
{
    assert forall|k: Cell|
        touches(p + t, k) == touches(p, k) + touches(t, k) && touches(p + t, k) <= 8 && count_or_zero(
            #[trigger] seq_histogram(t),
            k,
        ) == touches(t, k) && count_or_zero(seq_histogram(p), k) == touches(p, k) by {
        lemma_touches_concat(p, t, k);
        lemma_touches_is_live_neighbours(p + t, k);
    }
    assert(sum_counts(seq_histogram(t), seq_histogram(p)) =~= seq_histogram(p + t));
}

} // verus!
