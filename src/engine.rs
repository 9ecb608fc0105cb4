use crate::cell::{in_interior, neighbours, Cell};
use crate::colony::{
    add_count, cells_of, colony_cells, contains_cell, count_entries, counts_of, insert_cell,
    new_colony, new_counts, Colony, NeighbourCounts,
};
use crate::rules::{
    all_interior, count_or_zero, lemma_histogram_concat, lemma_seq_histogram_of_set,
    lemma_touches_is_live_neighbours, lives_next, neighbour_histogram, next_generation, seq_histogram,
    sum_counts, touches,
};
use rayon::iter::ParallelIterator;
use rayon::slice::ParallelSlice;
use vstd::prelude::*;

verus! {

/// Counts, for the cells of `cells`, how many of them touch each cell of the
/// plane; cells touched by none get no entry.
pub fn chunk_counts(cells: &[Cell]) -> (r: NeighbourCounts)
    requires
        cells@.no_duplicates(),
        forall|i: int| 0 <= i < cells@.len() ==> in_interior(#[trigger] cells@[i]),
    ensures
        counts_of(r) == seq_histogram(cells@),
{
    let mut m = new_counts();
    let mut i: usize = 0;
    while i < cells.len()
        invariant
            i <= cells@.len(),
            cells@.no_duplicates(),
            forall|i: int| 0 <= i < cells@.len() ==> in_interior(#[trigger] cells@[i]),
            forall|k: Cell| #[trigger]
                counts_of(m).contains_key(k) <==> touches(cells@.subrange(0, i as int), k) > 0,
            forall|k: Cell| #[trigger]
                counts_of(m).contains_key(k) ==> counts_of(m)[k] == touches(
                    cells@.subrange(0, i as int),
                    k,
                ),
        decreases cells@.len() - i,
    {
        let cell = cells[i];
        let nb = neighbours(&cell);
        let ghost p = cells@.subrange(0, i as int);
        proof {
            assert forall|k: Cell| touches(p, k) <= 8 by {
                lemma_touches_is_live_neighbours(p, k);
            }
        }
        let mut j: usize = 0;
        while j < nb.len()
            invariant
                j <= nb@.len() == 8,
                nb@.no_duplicates(),
                forall|k: Cell| touches(p, k) <= 8,
                forall|k: Cell| #[trigger]
                    counts_of(m).contains_key(k) <==> (touches(p, k) > 0 || nb@.subrange(
                        0,
                        j as int,
                    ).contains(k)),
                forall|k: Cell| #[trigger]
                    counts_of(m).contains_key(k) ==> counts_of(m)[k] == touches(p, k) + if nb@.subrange(
                        0,
                        j as int,
                    ).contains(k) {
                        1nat
                    } else {
                        0nat
                    },
            decreases nb@.len() - j,
        {
            let ghost before = counts_of(m);
            let ghost q = nb@.subrange(0, j as int);
            let d = nb[j];
            assert(!q.contains(d)) by {
                if q.contains(d) {
                    let t = choose|t: int| 0 <= t < q.len() && q[t] == d;
                    assert(nb@[t] == nb@[j as int]);
                }
            }
            add_count(&mut m, d, 1);
            proof {
                let q2 = nb@.subrange(0, j + 1);
                assert forall|k: Cell| q2.contains(k) <==> (q.contains(k) || k == d) by {
                    if q2.contains(k) {
                        let t = choose|t: int| 0 <= t < q2.len() && q2[t] == k;
                        if t < j {
                            assert(q[t] == k);
                        }
                    }
                    if q.contains(k) {
                        let t = choose|t: int| 0 <= t < q.len() && q[t] == k;
                        assert(q2[t] == k);
                    }
                    if k == d {
                        assert(q2[j as int] == k);
                    }
                }
            }
            j = j + 1;
        }
        proof {
            let p2 = cells@.subrange(0, i + 1);
            assert(p2.drop_last() =~= p);
            assert(nb@.subrange(0, 8) =~= nb@);
            assert forall|k: Cell| touches(p2, k) == touches(p, k) + if nb@.contains(k) {
                1nat
            } else {
                0nat
            } by {
                assert(p2.last() == cell);
            }
        }
        i = i + 1;
    }
    assert(cells@.subrange(0, cells@.len() as int) =~= cells@);
    assert(counts_of(m) =~= seq_histogram(cells@));
    m
}

/// Some entry among the first `n` of `e` has the key `k`.
pub open spec fn key_in_prefix(e: Seq<(Cell, i32)>, n: int, k: Cell) -> bool {
    exists|t: int| 0 <= t < n && #[trigger] e[t].0 == k
}

/// Adds the counts of `part` into `total`, key by key.
pub fn merge_counts(total: &mut NeighbourCounts, part: NeighbourCounts)
    requires
        forall|k: Cell| #[trigger] counts_of(part).contains_key(k) ==> 0 <= counts_of(part)[k],
        forall|k: Cell|
            #[trigger] count_or_zero(counts_of(*old(total)), k) + count_or_zero(counts_of(part), k)
                <= i32::MAX,
    ensures
        counts_of(*final(total)) == sum_counts(counts_of(*old(total)), counts_of(part)),
{
    let ghost a = counts_of(*total);
    let ghost b = counts_of(part);
    let e = count_entries(part);
    let mut i: usize = 0;
    while i < e.len()
        invariant
            i <= e@.len(),
            forall|k: Cell| #[trigger] b.contains_key(k) ==> 0 <= b[k],
            forall|k: Cell| #[trigger] count_or_zero(a, k) + count_or_zero(b, k) <= i32::MAX,
            forall|s: int, t: int| 0 <= s < t < e@.len() ==> e@[s].0 != e@[t].0,
            forall|t: int| 0 <= t < e@.len() ==> #[trigger] b.contains_key(e@[t].0) && b[e@[t].0] == e@[t].1,
            forall|k: Cell| #[trigger]
                counts_of(*total).contains_key(k) <==> (a.contains_key(k) || key_in_prefix(e@, i as int, k)),
            forall|k: Cell| #[trigger]
                counts_of(*total).contains_key(k) ==> counts_of(*total)[k] == count_or_zero(a, k) + if key_in_prefix(e@, i as int, k) {
                    count_or_zero(b, k)
                } else {
                    0
                },
        decreases e@.len() - i,
    {
        let (k0, v) = e[i];
        assert(b.contains_key(k0));
        assert(!key_in_prefix(e@, i as int, k0)) by {
            if key_in_prefix(e@, i as int, k0) {
                let t = choose|t: int| 0 <= t < i && #[trigger] e@[t].0 == k0;
                assert(e@[t].0 != e@[i as int].0);
            }
        }
        assert(count_or_zero(a, k0) + count_or_zero(b, k0) <= i32::MAX);
        add_count(total, k0, v);
        proof {
            assert forall|k: Cell| key_in_prefix(e@, i + 1, k) <==> (key_in_prefix(e@, i as int, k) || k == k0) by {
                if key_in_prefix(e@, i + 1, k) {
                    let t = choose|t: int| 0 <= t < i + 1 && #[trigger] e@[t].0 == k;
                    if t < i {
                        assert(key_in_prefix(e@, i as int, k));
                    }
                }
                if key_in_prefix(e@, i as int, k) {
                    let t = choose|t: int| 0 <= t < i && #[trigger] e@[t].0 == k;
                    assert(e@[t].0 == k);
                }
                if k == k0 {
                    assert(e@[i as int].0 == k);
                }
            }
        }
        i = i + 1;
    }
    proof {
        assert forall|k: Cell| key_in_prefix(e@, e@.len() as int, k) <==> b.contains_key(k) by {
            if b.contains_key(k) {
                let t = choose|t: int| 0 <= t < e@.len() && e@[t].0 == k;
                assert(e@[t].0 == k);
            }
            if key_in_prefix(e@, e@.len() as int, k) {
                let t = choose|t: int| 0 <= t < e@.len() && #[trigger] e@[t].0 == k;
                assert(b.contains_key(e@[t].0));
            }
        }
        assert(counts_of(*total) =~= sum_counts(a, b));
    }
}

/// Where the chunk of index `j` ends, when `n` cells are cut into chunks of
/// `size`.
/// Where the chunk of index `j` starts, for chunks of `size`.
pub open spec fn chunk_start(j: int, size: int) -> int {
    j * size
}

pub open spec fn chunk_end(j: int, size: int, n: int) -> int {
    if (j + 1) * size < n {
        (j + 1) * size
    } else {
        n
    }
}

/// Relies on rayon's `par_chunks`, `map` and `collect`: the cells are cut into
/// consecutive chunks of `size` (the last one may be shorter), `chunk_counts`
/// runs on each chunk on the thread pool, and the results are collected in
/// chunk order. `par_chunks` panics on a size of 0.
#[verifier::external_body]
fn par_chunk_counts(cells: &Vec<Cell>, size: usize) -> (r: Vec<NeighbourCounts>)
    requires
        0 < size,
        cells@.no_duplicates(),
        forall|i: int| 0 <= i < cells@.len() ==> in_interior(#[trigger] cells@[i]),
    ensures
        r@.len() * size >= cells@.len(),
        forall|j: int| 0 <= j < r@.len() ==> #[trigger] chunk_start(j, size as int) < cells@.len(),
        forall|j: int|
            0 <= j < r@.len() ==> counts_of(#[trigger] r@[j]) == seq_histogram(
                cells@.subrange(chunk_start(j, size as int), chunk_end(j, size as int, cells@.len() as int)),
            ),
{
    cells.par_chunks(size).map(|c| chunk_counts(c)).collect()
}

/// The neighbour counts of a colony, computed on chunks of `size` live cells
/// in parallel and then merged. The result does not depend on `size`.
pub fn neighbour_counts_chunked(col: &Colony, size: usize) -> (r: NeighbourCounts)
    requires
        0 < size,
        all_interior(cells_of(*col)),
    ensures
        counts_of(r) == neighbour_histogram(cells_of(*col)),
{
    let cells = colony_cells(col);
    let ghost n = cells@.len() as int;
    proof {
        assert forall|i: int| 0 <= i < cells@.len() implies in_interior(#[trigger] cells@[i]) by {
            assert(cells@.to_set().contains(cells@[i]));
        }
    }
    let mut parts = par_chunk_counts(&cells, size);
    let ghost total_parts = parts@.len() as int;
    let ghost mut lo: int = n;
    let mut total = new_counts();
    assert(cells@.subrange(n, n) =~= Seq::<Cell>::empty());
    assert(counts_of(total) =~= seq_histogram(cells@.subrange(n, n)));
    while parts.len() > 0
        invariant
            cells@.len() == n,
            cells@.no_duplicates(),
            0 < size,
            parts@.len() <= total_parts,
            total_parts * size >= n,
            forall|j: int| 0 <= j < total_parts ==> #[trigger] chunk_start(j, size as int) < n,
            forall|j: int|
                0 <= j < parts@.len() ==> counts_of(#[trigger] parts@[j]) == seq_histogram(
                    cells@.subrange(chunk_start(j, size as int), chunk_end(j, size as int, n)),
                ),
            lo == if parts@.len() == total_parts {
                n
            } else {
                parts@.len() * size
            },
            0 <= lo <= n,
            counts_of(total) == seq_histogram(cells@.subrange(lo, n)),
        decreases parts@.len(),
    {
        let m = parts.len();
        let part = parts.pop().unwrap();
        let ghost start = (m - 1) * size;
        proof {
            assert(start == m * size - size) by (nonlinear_arith)
                requires
                    start == (m - 1) * size,
            ;
            assert(0 <= start) by (nonlinear_arith)
                requires
                    m >= 1,
                    size > 0,
                    start == (m - 1) * size,
            ;
            assert(chunk_start(m - 1, size as int) == start);
            if m < total_parts {
                assert(chunk_start(m as int, size as int) < n);
            }
            assert(chunk_end(m - 1, size as int, n) == lo);
            let p = cells@.subrange(start, lo);
            let t = cells@.subrange(lo, n);
            assert(p + t =~= cells@.subrange(start, n));
            lemma_histogram_concat(p, t);
        }
        merge_counts(&mut total, part);
        proof {
            lo = start;
        }
    }
    proof {
        if total_parts == 0 {
            assert(n <= 0) by (nonlinear_arith)
                requires
                    total_parts == 0,
                    total_parts * size >= n,
            ;
        }
        assert(0 * size == 0);
        assert(lo == 0);
        assert(cells@.subrange(0, n) =~= cells@);
        lemma_seq_histogram_of_set(cells@);
    }
    total
}

/// How many live cells go to one parallel task when counting neighbours.
pub const CHUNK_SIZE: usize = 1024;

/// For every cell next to at least one live cell of `col`, its number of live
/// neighbours; cells next to none get no entry.
pub fn neighbour_counts(col: &Colony) -> (r: NeighbourCounts)
    requires
        all_interior(cells_of(*col)),
    ensures
        counts_of(r) == neighbour_histogram(cells_of(*col)),
{
    neighbour_counts_chunked(col, CHUNK_SIZE)
}

/// The next generation: the cells with three live neighbours, and the live
/// cells with two. Only cells with an entry in the neighbour counts are
/// looked at.
pub fn generation(col: &Colony) -> (r: Colony)
    requires
        all_interior(cells_of(*col)),
    ensures
        cells_of(r) == next_generation(cells_of(*col)),
{
    let ghost s = cells_of(*col);
    let counts = neighbour_counts(col);
    let ghost h = counts_of(counts);
    let entries = count_entries(counts);
    let mut next = new_colony();
    let mut i: usize = 0;
    while i < entries.len()
        invariant
            i <= entries@.len(),
            s == cells_of(*col),
            h == neighbour_histogram(s),
            forall|t: int|
                0 <= t < entries@.len() ==> #[trigger] h.contains_key(entries@[t].0) && h[entries@[t].0]
                    == entries@[t].1,
            forall|c: Cell| #[trigger]
                cells_of(next).contains(c) <==> (key_in_prefix(entries@, i as int, c) && lives_next(s, c)),
        decreases entries@.len() - i,
    {
        let (cell, cnt) = entries[i];
        assert(h.contains_key(cell));
        let alive = contains_cell(col, &cell);
        if cnt == 3 || (cnt == 2 && alive) {
            insert_cell(&mut next, cell);
        }
        proof {
            assert forall|c: Cell|
                key_in_prefix(entries@, i + 1, c) <==> (key_in_prefix(entries@, i as int, c) || c == cell) by {
                if key_in_prefix(entries@, i + 1, c) {
                    let t = choose|t: int| 0 <= t < i + 1 && #[trigger] entries@[t].0 == c;
                    if t < i {
                        assert(key_in_prefix(entries@, i as int, c));
                    }
                }
                if key_in_prefix(entries@, i as int, c) {
                    let t = choose|t: int| 0 <= t < i && #[trigger] entries@[t].0 == c;
                    assert(entries@[t].0 == c);
                }
                if c == cell {
                    assert(entries@[i as int].0 == c);
                }
            }
        }
        i = i + 1;
    }
    proof {
        assert forall|c: Cell| cells_of(next).contains(c) <==> lives_next(s, c) by {
            if lives_next(s, c) {
                assert(h.contains_key(c));
                assert(key_in_prefix(entries@, entries@.len() as int, c)) by {
                    let t = choose|t: int| 0 <= t < entries@.len() && entries@[t].0 == c;
                    assert(entries@[t].0 == c);
                }
            }
        }
        assert(cells_of(next) =~= next_generation(s));
    }
    next
}

} // verus!
