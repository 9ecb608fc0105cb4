//! Conway's Game of Life on the unbounded integer plane, kept as a sparse set
//! of live cells.
//!
//! A generation is computed in two passes: the live cells are cut into chunks
//! whose neighbour histograms are built in parallel and summed, and the rule
//! of life is then applied to each cell of the summed histogram.
mod cell;
mod colony;
mod engine;
mod laws;
mod rules;
mod seed;

pub use cell::{adjacent, in_interior, neighbours, Cell};
pub use colony::{cells_of, counts_of, Colony, NeighbourCounts};
pub use engine::{
    chunk_counts, chunk_end, chunk_start, generation, key_in_prefix, merge_counts,
    neighbour_counts, neighbour_counts_chunked, CHUNK_SIZE,
};
pub use laws::{
    lemma_counts_independent_of_order, lemma_empty_stays_empty, lemma_far_cell_has_no_count,
    lemma_generation_deterministic, lemma_isolated_cell_dies,
};
pub use rules::{
    all_interior, count_or_zero, lemma_histogram_concat, lemma_live_neighbours_insert,
    lemma_seq_histogram_of_set, lemma_touches_concat, lemma_touches_is_live_neighbours, live_at,
    live_neighbours, lives_next, neighbour_histogram, next_generation, seq_histogram, sum_counts,
    touches,
};
pub use seed::{cells_from_draws, drawn, random_cells, TILES_SPANNING};
