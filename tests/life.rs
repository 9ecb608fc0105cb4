use dashmap::{DashMap, DashSet};
use game_of_life::{
    cells_from_draws, chunk_counts, generation, merge_counts, neighbour_counts,
    neighbour_counts_chunked, neighbours, random_cells, Cell, Colony, NeighbourCounts,
    TILES_SPANNING,
};

fn colony(cells: &[Cell]) -> Colony {
    let c = DashSet::new();
    for &cell in cells {
        c.insert(cell);
    }
    c
}

fn sorted(c: &Colony) -> Vec<Cell> {
    let mut v: Vec<Cell> = c.iter().map(|r| *r.key()).collect();
    v.sort();
    v
}

fn sorted_counts(m: &NeighbourCounts) -> Vec<(Cell, i32)> {
    let mut v: Vec<(Cell, i32)> = m.iter().map(|r| (*r.key(), *r.value())).collect();
    v.sort();
    v
}

fn sorted_cells(cells: &[Cell]) -> Vec<Cell> {
    let mut v = cells.to_vec();
    v.sort();
    v
}

#[test]
fn neighbours_of_origin() {
    let mut n = neighbours(&(0, 0));
    n.sort();
    assert_eq!(
        n,
        vec![(-1, -1), (-1, 0), (-1, 1), (0, -1), (0, 1), (1, -1), (1, 0), (1, 1)]
    );
}

#[test]
fn neighbours_of_negative_cell() {
    let mut n = neighbours(&(-5, 7));
    n.sort();
    assert_eq!(
        n,
        vec![(-6, 6), (-6, 7), (-6, 8), (-5, 6), (-5, 8), (-4, 6), (-4, 7), (-4, 8)]
    );
}

#[test]
fn neighbours_near_the_edge_of_i32() {
    let n = neighbours(&(i32::MAX - 1, i32::MIN + 1));
    assert_eq!(n.len(), 8);
    assert!(n.contains(&(i32::MAX, i32::MIN)));
    assert!(!n.contains(&(i32::MAX - 1, i32::MIN + 1)));
}

#[test]
fn empty_stays_empty() {
    let next = generation(&colony(&[]));
    assert!(sorted(&next).is_empty());
}

#[test]
fn isolated_cell_dies() {
    for cell in [(0, 0), (-3, 9), (1000, -1000)] {
        let next = generation(&colony(&[cell]));
        assert!(sorted(&next).is_empty());
    }
}

#[test]
fn block_is_stable() {
    let block = [(0, 0), (1, 0), (0, 1), (1, 1)];
    let next = generation(&colony(&block));
    assert_eq!(sorted(&next), sorted_cells(&block));
}

#[test]
fn blinker_has_period_two() {
    let vertical = [(1, 0), (1, 1), (1, 2)];
    let horizontal = [(0, 1), (1, 1), (2, 1)];
    let once = generation(&colony(&vertical));
    assert_eq!(sorted(&once), sorted_cells(&horizontal));
    let twice = generation(&once);
    assert_eq!(sorted(&twice), sorted_cells(&vertical));
}

#[test]
fn glider_moves_one_diagonal_step_in_four_generations() {
    let glider = [(1, 0), (2, 1), (0, 2), (1, 2), (2, 2)];
    let mut c = colony(&glider);
    for _ in 0..4 {
        c = generation(&c);
    }
    let moved: Vec<Cell> = glider.iter().map(|&(x, y)| (x + 1, y + 1)).collect();
    assert_eq!(sorted(&c), sorted_cells(&moved));
}

#[test]
fn pair_dies_and_gives_no_birth() {
    let next = generation(&colony(&[(0, 0), (1, 0)]));
    assert!(sorted(&next).is_empty());
}

#[test]
fn birth_on_three_neighbours() {
    let next = generation(&colony(&[(0, 0), (2, 0), (0, 2)]));
    assert_eq!(sorted(&next), vec![(1, 1)]);
}

#[test]
fn overcrowded_cell_dies() {
    let plus = [(1, 1), (0, 1), (2, 1), (1, 0), (1, 2)];
    let next = generation(&colony(&plus));
    assert!(!sorted(&next).contains(&(1, 1)));
    assert_eq!(
        sorted(&next),
        vec![(0, 0), (0, 1), (0, 2), (1, 0), (1, 2), (2, 0), (2, 1), (2, 2)]
    );
}

#[test]
fn neighbour_counts_of_blinker() {
    let counts = neighbour_counts(&colony(&[(1, 0), (1, 1), (1, 2)]));
    assert_eq!(counts.get(&(0, 1)).map(|v| *v), Some(3));
    assert_eq!(counts.get(&(2, 1)).map(|v| *v), Some(3));
    assert_eq!(counts.get(&(1, 1)).map(|v| *v), Some(2));
    assert_eq!(counts.get(&(1, 0)).map(|v| *v), Some(1));
    assert_eq!(counts.get(&(0, -1)).map(|v| *v), Some(1));
    assert_eq!(counts.get(&(0, 0)).map(|v| *v), Some(2));
    assert_eq!(counts.len(), 15);
}

#[test]
fn far_cell_has_no_count() {
    let counts = neighbour_counts(&colony(&[(0, 0), (1, 0), (5, 5)]));
    assert!(counts.get(&(3, 3)).is_none());
    assert!(counts.get(&(-2, 0)).is_none());
    assert!(counts.get(&(0, 0)).is_some());
}

#[test]
fn counts_do_not_depend_on_chunk_size() {
    let cells: Vec<Cell> = (0..40).map(|i| ((i * 7) % 13, (i * 5) % 11)).collect();
    let col = colony(&cells);
    let reference = sorted_counts(&neighbour_counts_chunked(&col, 1));
    for size in [2, 3, 7, 40, 1000] {
        assert_eq!(sorted_counts(&neighbour_counts_chunked(&col, size)), reference);
    }
    assert_eq!(sorted_counts(&neighbour_counts(&col)), reference);
}

#[test]
fn generation_is_deterministic() {
    let col = colony(&[(0, 0), (1, 0), (2, 0), (2, 1), (1, 2), (5, 5), (6, 5), (5, 6)]);
    let a = generation(&col);
    let b = generation(&col);
    assert_eq!(sorted(&a), sorted(&b));
}

#[test]
fn chunk_counts_of_a_pair() {
    let counts = chunk_counts(&[(0, 0), (1, 0)]);
    assert_eq!(counts.get(&(0, 0)).map(|v| *v), Some(1));
    assert_eq!(counts.get(&(1, 0)).map(|v| *v), Some(1));
    assert_eq!(counts.get(&(0, 1)).map(|v| *v), Some(2));
    assert_eq!(counts.get(&(2, 1)).map(|v| *v), Some(1));
    assert_eq!(counts.len(), 12);
}

#[test]
fn merge_adds_counts_key_by_key() {
    let mut total: NeighbourCounts = DashMap::new();
    total.insert((0, 0), 2);
    total.insert((1, 1), 1);
    let part: NeighbourCounts = DashMap::new();
    part.insert((1, 1), 3);
    part.insert((2, 2), 4);
    merge_counts(&mut total, part);
    assert_eq!(sorted_counts(&total), vec![((0, 0), 2), ((1, 1), 4), ((2, 2), 4)]);
}

#[test]
fn draws_become_cells() {
    let draws = vec![vec![true, false, true], vec![false, false], vec![false, true, false, true]];
    let col = cells_from_draws(&draws);
    assert_eq!(sorted(&col), vec![(0, 0), (0, 2), (2, 1), (2, 3)]);
}

#[test]
fn random_cells_stay_in_the_square() {
    let col = random_cells();
    let span = TILES_SPANNING as i32;
    for cell in sorted(&col) {
        assert!(0 <= cell.0 && cell.0 < span && 0 <= cell.1 && cell.1 < span);
    }
}
