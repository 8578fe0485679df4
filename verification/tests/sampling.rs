//! Structural behavior of the verified sampler: dimensions, row-major
//! index mapping, in-order accumulation, superposition and idempotence.

use coilcalc::reduce::fold_cells;
use coilcalc::sampling::combine_grids;
use coilcalc::sampling::sample_grid;
use coilcalc::sampling::superpose;

#[test]
fn dimensions_match_request() {
    let loops: Vec<i64> = vec![1, 2, 3];
    let field = |l: i64, ix: usize, iz: usize| l + (ix as i64) + 100 * (iz as i64);
    let plus = |a: i64, b: i64| a + b;
    let grid = sample_grid(&loops, 4, 7, 0, field, plus);
    assert_eq!(grid.len(), 7);
    for row in grid.iter() {
        assert_eq!(row.len(), 4);
    }
}

#[test]
fn cells_are_row_major_by_index() {
    // One loop whose "field" is the grid point's own indices: the cell at
    // row iz, column ix must hold exactly (ix, iz).
    let loops: Vec<i64> = vec![0];
    let field = |_l: i64, ix: usize, iz: usize| (ix as i64, iz as i64);
    let plus = |a: (i64, i64), b: (i64, i64)| (a.0 + b.0, a.1 + b.1);
    let grid = sample_grid(&loops, 5, 3, (0, 0), field, plus);
    for iz in 0..3usize {
        for ix in 0..5usize {
            assert_eq!(grid[iz][ix], (ix as i64, iz as i64));
        }
    }
}

#[test]
fn superpose_accumulates_in_loop_order() {
    // A deliberately non-commutative combination exposes both the order of
    // the loops and the left-to-right fold from the zero value.
    let loops: Vec<i64> = vec![1, 2, 3];
    let field = |l: i64, _ix: usize, _iz: usize| l;
    let plus = |a: i64, b: i64| 2 * a + b;
    let total = superpose(&loops, 0, 0, 0, &field, &plus);
    // ((2*0 + 1)*2 + 2)*2 + 3
    assert_eq!(total, 11);
}

#[test]
fn no_loops_gives_zero_everywhere() {
    let loops: Vec<i64> = Vec::new();
    let field = |l: i64, _ix: usize, _iz: usize| l;
    let plus = |a: i64, b: i64| a + b;
    let grid = sample_grid(&loops, 3, 2, 42, field, plus);
    for row in grid.iter() {
        for cell in row.iter() {
            assert_eq!(*cell, 42);
        }
    }
}

#[test]
fn superposition_splits_over_concatenation() {
    // Sampling the two loop collections together equals the element-wise
    // sum of sampling each alone (exact in integer arithmetic).
    let loops_a: Vec<i64> = vec![3, 5];
    let loops_b: Vec<i64> = vec![7];
    let mut both: Vec<i64> = loops_a.clone();
    both.extend(loops_b.iter().copied());
    let field = |l: i64, ix: usize, iz: usize| l * (1 + ix as i64) + 1000 * (iz as i64);
    let plus = |a: i64, b: i64| a + b;
    let grid_both = sample_grid(&both, 4, 4, 0, field, plus);
    let grid_a = sample_grid(&loops_a, 4, 4, 0, field, plus);
    let grid_b = sample_grid(&loops_b, 4, 4, 0, field, plus);
    let combined = combine_grids(&grid_a, &grid_b, &plus);
    assert_eq!(grid_both, combined);
}

#[test]
fn fold_visits_cells_in_row_major_order() {
    // A step that appends each cell as a decimal digit spells out the
    // traversal: rows from the first, cells left to right within a row.
    let grid: Vec<Vec<i64>> = vec![vec![1, 2, 3], vec![4, 5, 6]];
    let step = |acc: i64, cell: i64| acc * 10 + cell;
    assert_eq!(fold_cells(&grid, 0, &step), 123456);
}

#[test]
fn fold_of_empty_grid_is_the_initial_value() {
    let grid: Vec<Vec<i64>> = Vec::new();
    let step = |acc: i64, cell: i64| acc + cell;
    assert_eq!(fold_cells(&grid, 7, &step), 7);
}

#[test]
fn sampling_twice_gives_identical_grids() {
    let loops: Vec<i64> = vec![2, 9, 11];
    let field = |l: i64, ix: usize, iz: usize| l * (ix as i64) - 7 * (iz as i64);
    let plus = |a: i64, b: i64| a + b;
    let first = sample_grid(&loops, 6, 5, 0, field, plus);
    let second = sample_grid(&loops, 6, 5, 0, field, plus);
    assert_eq!(first, second);
}
