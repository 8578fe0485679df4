//! Laws relating sampled grids and reductions to mathematical folds.
//!
//! When the operations handed to the sampler and to the reduction are
//! deterministic — each agrees with a given spec-level function — every
//! sampled cell and every folded value is uniquely determined, so
//! re-sampling is idempotent; and when the combining function is an
//! associative operation with the zero field as identity, superposition
//! over a concatenation of loop collections splits into the element-wise
//! sum of the separate samples.

use vstd::prelude::*;
use crate::reduce::folded_cells;
use crate::reduce::folded_row;
use crate::sampling::sampled_grid;
use crate::sampling::summed_field;

verus! {

/// Mathematical superposition: fold `plusf` over one `term` per element
/// of `loops`, in order, starting from `zero`.
pub open spec fn sum_over<L, T>(
    term: spec_fn(L) -> T,
    plusf: spec_fn(T, T) -> T,
    zero: T,
    loops: Seq<L>,
) -> T
    decreases loops.len(),
{
    if loops.len() == 0 {
        zero
    } else {
        plusf(sum_over(term, plusf, zero, loops.drop_last()), term(loops.last()))
    }
}

/// When `field` and `plus` behave as the functions `term` and `plusf`,
/// a superposed cell is exactly the mathematical fold `sum_over`.
pub proof fn lemma_summed_field_determined<L, T, F: Fn(L, usize, usize) -> T, A: Fn(T, T) -> T>(
    field: F,
    plus: A,
    loops: Seq<L>,
    ix: usize,
    iz: usize,
    zero: T,
    total: T,
    term: spec_fn(L) -> T,
    plusf: spec_fn(T, T) -> T,
)
    requires
        summed_field(field, plus, loops, ix, iz, zero, total),
        forall|l: L, r: T| #[trigger] call_ensures(field, (l, ix, iz), r) ==> r == term(l),
        forall|a: T, b: T, r: T| #[trigger] call_ensures(plus, (a, b), r) ==> r == plusf(a, b),
    ensures
        total == sum_over(term, plusf, zero, loops),
    decreases loops.len(),
{
    if loops.len() == 0 {
    } else {
        let (prev, c) = choose|prev: T, c: T|
            #[trigger] call_ensures(plus, (prev, c), total)
                && summed_field(field, plus, loops.drop_last(), ix, iz, zero, prev)
                && call_ensures(field, (loops.last(), ix, iz), c);
        lemma_summed_field_determined(
            field,
            plus,
            loops.drop_last(),
            ix,
            iz,
            zero,
            prev,
            term,
            plusf,
        );
    }
}

/// When `field` and `plus` behave as the functions `term` and `plusf`, a
/// sampled grid is pinned down cell by cell: the cell at row `iz`, column
/// `ix` is the mathematical fold of every loop's `term` at `(ix, iz)`.
pub proof fn lemma_sampled_grid_determined<L, T, F: Fn(L, usize, usize) -> T, A: Fn(T, T) -> T>(
    field: F,
    plus: A,
    loops: Seq<L>,
    x_count: usize,
    z_count: usize,
    zero: T,
    grid: Seq<Vec<T>>,
    term: spec_fn(L, usize, usize) -> T,
    plusf: spec_fn(T, T) -> T,
)
    requires
        sampled_grid(field, plus, loops, x_count, z_count, zero, grid),
        forall|l: L, ix: usize, iz: usize, r: T|
            ix < x_count && iz < z_count && #[trigger] call_ensures(field, (l, ix, iz), r)
                ==> r == term(l, ix, iz),
        forall|a: T, b: T, r: T| #[trigger] call_ensures(plus, (a, b), r) ==> r == plusf(a, b),
    ensures
        grid.len() == z_count,
        forall|iz: int| 0 <= iz < z_count ==> (#[trigger] grid[iz])@.len() == x_count,
        forall|iz: usize, ix: usize|
            iz < z_count && ix < x_count ==> #[trigger] grid[iz as int]@[ix as int] == sum_over(
                (|l: L| term(l, ix, iz)),
                plusf,
                zero,
                loops,
            ),
{
    assert forall|iz: usize, ix: usize| iz < z_count && ix < x_count implies #[trigger] grid[
        iz as int
    ]@[ix as int] == sum_over((|l: L| term(l, ix, iz)), plusf, zero, loops) by {
        lemma_summed_field_determined(
            field,
            plus,
            loops,
            ix,
            iz,
            zero,
            grid[iz as int]@[ix as int],
            (|l: L| term(l, ix, iz)),
            plusf,
        );
    }
}

/// Sampling is idempotent: with deterministic operations, two grids
/// sampled from the same loops, dimensions and zero agree cell for cell.
pub proof fn lemma_sampling_idempotent<L, T, F: Fn(L, usize, usize) -> T, A: Fn(T, T) -> T>(
    field: F,
    plus: A,
    loops: Seq<L>,
    x_count: usize,
    z_count: usize,
    zero: T,
    grid1: Seq<Vec<T>>,
    grid2: Seq<Vec<T>>,
    term: spec_fn(L, usize, usize) -> T,
    plusf: spec_fn(T, T) -> T,
)
    requires
        sampled_grid(field, plus, loops, x_count, z_count, zero, grid1),
        sampled_grid(field, plus, loops, x_count, z_count, zero, grid2),
        forall|l: L, ix: usize, iz: usize, r: T|
            ix < x_count && iz < z_count && #[trigger] call_ensures(field, (l, ix, iz), r)
                ==> r == term(l, ix, iz),
        forall|a: T, b: T, r: T| #[trigger] call_ensures(plus, (a, b), r) ==> r == plusf(a, b),
    ensures
        grid1.len() == grid2.len(),
        forall|iz: int| 0 <= iz < z_count ==> (#[trigger] grid1[iz])@.len() == grid2[iz]@.len(),
        forall|iz: usize, ix: usize|
            iz < z_count && ix < x_count ==> #[trigger] grid1[iz as int]@[ix as int] == grid2[
                iz as int
            ]@[ix as int],
{
    lemma_sampled_grid_determined(
        field,
        plus,
        loops,
        x_count,
        z_count,
        zero,
        grid1,
        term,
        plusf,
    );
    lemma_sampled_grid_determined(
        field,
        plus,
        loops,
        x_count,
        z_count,
        zero,
        grid2,
        term,
        plusf,
    );
}

/// Superposition splits over concatenation: when `plusf` is associative
/// with `zero` as a two-sided identity, the fold over `a + b` is the
/// `plusf`-sum of the folds over `a` and over `b`.
pub proof fn lemma_superposition<L, T>(
    term: spec_fn(L) -> T,
    plusf: spec_fn(T, T) -> T,
    zero: T,
    a: Seq<L>,
    b: Seq<L>,
)
    requires
        forall|x: T, y: T, z: T| #[trigger] plusf(plusf(x, y), z) == plusf(x, plusf(y, z)),
        forall|x: T| #[trigger] plusf(zero, x) == x,
        forall|x: T| #[trigger] plusf(x, zero) == x,
    ensures
        sum_over(term, plusf, zero, a + b) == plusf(
            sum_over(term, plusf, zero, a),
            sum_over(term, plusf, zero, b),
        ),
    decreases b.len(),
{
    if b.len() == 0 {
        assert(a + b =~= a);
    } else {
        assert((a + b).drop_last() =~= a + b.drop_last());
        assert((a + b).last() == b.last());
        lemma_superposition(term, plusf, zero, a, b.drop_last());
    }
}

/// Superposition over grids: with deterministic operations, an associative
/// `plusf` and `zero` a two-sided identity, the grid sampled from the
/// concatenation of two loop collections agrees, cell for cell, with the
/// element-wise combination of the grids sampled from each collection.
pub proof fn lemma_grid_superposition<L, T, F: Fn(L, usize, usize) -> T, A: Fn(T, T) -> T>(
    field: F,
    plus: A,
    loops_a: Seq<L>,
    loops_b: Seq<L>,
    x_count: usize,
    z_count: usize,
    zero: T,
    grid_ab: Seq<Vec<T>>,
    grid_a: Seq<Vec<T>>,
    grid_b: Seq<Vec<T>>,
    combined: Seq<Vec<T>>,
    term: spec_fn(L, usize, usize) -> T,
    plusf: spec_fn(T, T) -> T,
)
    requires
        sampled_grid(field, plus, loops_a + loops_b, x_count, z_count, zero, grid_ab),
        sampled_grid(field, plus, loops_a, x_count, z_count, zero, grid_a),
        sampled_grid(field, plus, loops_b, x_count, z_count, zero, grid_b),
        combined.len() == z_count,
        forall|iz: int| 0 <= iz < z_count ==> (#[trigger] combined[iz])@.len() == x_count,
        forall|iz: int, ix: int|
            0 <= iz < z_count && 0 <= ix < x_count ==> call_ensures(
                plus,
                (grid_a[iz]@[ix], grid_b[iz]@[ix]),
                #[trigger] combined[iz]@[ix],
            ),
        forall|l: L, ix: usize, iz: usize, r: T|
            ix < x_count && iz < z_count && #[trigger] call_ensures(field, (l, ix, iz), r)
                ==> r == term(l, ix, iz),
        forall|a: T, b: T, r: T| #[trigger] call_ensures(plus, (a, b), r) ==> r == plusf(a, b),
        forall|x: T, y: T, z: T| #[trigger] plusf(plusf(x, y), z) == plusf(x, plusf(y, z)),
        forall|x: T| #[trigger] plusf(zero, x) == x,
        forall|x: T| #[trigger] plusf(x, zero) == x,
    ensures
        grid_ab.len() == combined.len(),
        forall|iz: usize, ix: usize|
            iz < z_count && ix < x_count ==> #[trigger] grid_ab[iz as int]@[ix as int] == combined[
                iz as int
            ]@[ix as int],
{
    lemma_sampled_grid_determined(
        field,
        plus,
        loops_a + loops_b,
        x_count,
        z_count,
        zero,
        grid_ab,
        term,
        plusf,
    );
    lemma_sampled_grid_determined(
        field,
        plus,
        loops_a,
        x_count,
        z_count,
        zero,
        grid_a,
        term,
        plusf,
    );
    lemma_sampled_grid_determined(
        field,
        plus,
        loops_b,
        x_count,
        z_count,
        zero,
        grid_b,
        term,
        plusf,
    );
    assert forall|iz: usize, ix: usize| iz < z_count && ix < x_count implies #[trigger] grid_ab[
        iz as int
    ]@[ix as int] == combined[iz as int]@[ix as int] by {
        lemma_superposition((|l: L| term(l, ix, iz)), plusf, zero, loops_a, loops_b);
    }
}

/// Left fold of `stepf` over one row's cells, from the first.
pub open spec fn fold_row_over<T, U>(stepf: spec_fn(U, T) -> U, row: Seq<T>, init: U) -> U
    decreases row.len(),
{
    if row.len() == 0 {
        init
    } else {
        stepf(fold_row_over(stepf, row.drop_last(), init), row.last())
    }
}

/// Left fold of `stepf` over every cell of `rows` in row-major order.
pub open spec fn fold_cells_over<T, U>(stepf: spec_fn(U, T) -> U, rows: Seq<Vec<T>>, init: U) -> U
    decreases rows.len(),
{
    if rows.len() == 0 {
        init
    } else {
        fold_row_over(stepf, rows.last()@, fold_cells_over(stepf, rows.drop_last(), init))
    }
}

/// When `step` behaves as the function `stepf`, a folded row is pinned
/// down: it is the mathematical left fold.
pub proof fn lemma_folded_row_determined<T, U, F: Fn(U, T) -> U>(
    step: F,
    row: Seq<T>,
    init: U,
    out: U,
    stepf: spec_fn(U, T) -> U,
)
    requires
        folded_row(step, row, init, out),
        forall|a: U, cell: T, r: U| #[trigger] call_ensures(step, (a, cell), r) ==> r == stepf(
            a,
            cell,
        ),
    ensures
        out == fold_row_over(stepf, row, init),
    decreases row.len(),
{
    if row.len() == 0 {
    } else {
        let mid = choose|mid: U|
            #[trigger] call_ensures(step, (mid, row.last()), out) && folded_row(
                step,
                row.drop_last(),
                init,
                mid,
            );
        lemma_folded_row_determined(step, row.drop_last(), init, mid, stepf);
    }
}

/// When `step` behaves as the function `stepf`, a grid reduction — and so
/// any summary statistic derived from it, such as the mean magnitude —
/// is pinned down: it is the mathematical row-major fold.
pub proof fn lemma_folded_cells_determined<T, U, F: Fn(U, T) -> U>(
    step: F,
    rows: Seq<Vec<T>>,
    init: U,
    out: U,
    stepf: spec_fn(U, T) -> U,
)
    requires
        folded_cells(step, rows, init, out),
        forall|a: U, cell: T, r: U| #[trigger] call_ensures(step, (a, cell), r) ==> r == stepf(
            a,
            cell,
        ),
    ensures
        out == fold_cells_over(stepf, rows, init),
    decreases rows.len(),
{
    if rows.len() == 0 {
    } else {
        let mid = choose|mid: U|
            #[trigger] folded_row(step, rows.last()@, mid, out) && folded_cells(
                step,
                rows.drop_last(),
                init,
                mid,
            );
        lemma_folded_cells_determined(step, rows.drop_last(), init, mid, stepf);
        lemma_folded_row_determined(step, rows.last()@, mid, out, stepf);
    }
}

} // verus!
