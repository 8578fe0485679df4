//! Reduction over a sampled grid.
//!
//! The display layer condenses a grid into one number — the mean vector
//! magnitude it scales its arrows by. The reduction verified here visits
//! every cell exactly once, in the grid's own row-major order, folding a
//! caller-supplied step onto an initial accumulator.

use vstd::prelude::*;

verus! {

/// `out` is a value obtainable by folding `step` left to right over the
/// cells of `row`, starting from `init`.
pub open spec fn folded_row<T, U, F: Fn(U, T) -> U>(
    step: F,
    row: Seq<T>,
    init: U,
    out: U,
) -> bool
    decreases row.len(),
{
    if row.len() == 0 {
        out == init
    } else {
        exists|mid: U|
            #[trigger] call_ensures(step, (mid, row.last()), out)
                && folded_row(step, row.drop_last(), init, mid)
    }
}

/// `out` is a value obtainable by folding `step` over every cell of
/// `rows`, row by row from the first, left to right within each row,
/// starting from `init`.
pub open spec fn folded_cells<T, U, F: Fn(U, T) -> U>(
    step: F,
    rows: Seq<Vec<T>>,
    init: U,
    out: U,
) -> bool
    decreases rows.len(),
{
    if rows.len() == 0 {
        out == init
    } else {
        exists|mid: U|
            #[trigger] folded_row(step, rows.last()@, mid, out)
                && folded_cells(step, rows.drop_last(), init, mid)
    }
}

/// Folds `step` over every cell of `grid` in row-major order, row index
/// ascending and column index ascending within a row, onto `init`.
pub fn fold_cells<T: Copy, U: Copy, F: Fn(U, T) -> U>(
    grid: &Vec<Vec<T>>,
    init: U,
    step: &F,
) -> (out: U)
    requires
        forall|acc: U, cell: T| #[trigger] call_requires(*step, (acc, cell)),
    ensures
        folded_cells(*step, grid@, init, out),
{
    let mut acc: U = init;
    let mut iz: usize = 0;
    while iz < grid.len()
        invariant
            iz <= grid@.len(),
            forall|a: U, cell: T| #[trigger] call_requires(*step, (a, cell)),
            folded_cells(*step, grid@.take(iz as int), init, acc),
        decreases grid@.len() - iz,
    {
        let row: &Vec<T> = &grid[iz];
        let ghost row_start = acc;
        let mut ix: usize = 0;
        while ix < row.len()
            invariant
                ix <= row@.len(),
                iz < grid@.len(),
                row@ == grid@[iz as int]@,
                forall|a: U, cell: T| #[trigger] call_requires(*step, (a, cell)),
                folded_cells(*step, grid@.take(iz as int), init, row_start),
                folded_row(*step, row@.take(ix as int), row_start, acc),
            decreases row@.len() - ix,
        {
            let mid: U = acc;
            acc = step(mid, row[ix]);
            proof {
                let done = row@.take(ix + 1);
                assert(done.drop_last() =~= row@.take(ix as int));
                assert(done.last() == row@[ix as int]);
                assert(folded_row(*step, done, row_start, acc));
            }
            ix += 1;
        }
        proof {
            assert(row@.take(row@.len() as int) =~= row@);
            let done = grid@.take(iz + 1);
            assert(done.drop_last() =~= grid@.take(iz as int));
            assert(done.last() == grid@[iz as int]);
            assert(folded_row(*step, done.last()@, row_start, acc));
            assert(folded_cells(*step, done, init, acc));
        }
        iz += 1;
    }
    proof {
        assert(grid@.take(grid@.len() as int) =~= grid@);
    }
    acc
}

} // verus!
