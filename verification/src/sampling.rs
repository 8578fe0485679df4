//! Assembly of a sampled field grid.
//!
//! The sampler is generic in the scalar that represents a field value and
//! in the two operations the caller supplies: `field`, which evaluates one
//! loop's contribution at a grid point given by its column and row index,
//! and `plus`, which combines two field values. The contracts pin down the
//! structure of the result: row-major layout, exact dimensions, and every
//! cell a complete fold of one contribution per loop over the zero value.

use vstd::prelude::*;

verus! {

/// `total` is a value obtainable by folding, with `plus`, one contribution
/// of `field` per element of `loops` (taken in order) onto `zero`, all
/// evaluated at the grid point with column index `ix` and row index `iz`.
pub open spec fn summed_field<L, T, F: Fn(L, usize, usize) -> T, A: Fn(T, T) -> T>(
    field: F,
    plus: A,
    loops: Seq<L>,
    ix: usize,
    iz: usize,
    zero: T,
    total: T,
) -> bool
    decreases loops.len(),
{
    if loops.len() == 0 {
        total == zero
    } else {
        exists|prev: T, term: T|
            #[trigger] call_ensures(plus, (prev, term), total)
                && summed_field(field, plus, loops.drop_last(), ix, iz, zero, prev)
                && call_ensures(field, (loops.last(), ix, iz), term)
    }
}

/// The caller may evaluate `field` on every loop at every grid point of a
/// `x_count` by `z_count` grid, and `plus` on any pair of field values.
pub open spec fn samplable<L, T, F: Fn(L, usize, usize) -> T, A: Fn(T, T) -> T>(
    field: F,
    plus: A,
    loops: Seq<L>,
    x_count: usize,
    z_count: usize,
) -> bool {
    &&& forall|j: int, ix: usize, iz: usize|
        0 <= j < loops.len() && ix < x_count && iz < z_count ==> #[trigger] call_requires(
            field,
            (loops[j], ix, iz),
        )
    &&& forall|a: T, b: T| #[trigger] call_requires(plus, (a, b))
}

/// Total field at the grid point `(ix, iz)`: the contributions of all
/// loops, superposed in loop order onto `zero`.
pub fn superpose<L: Copy, T: Copy, F: Fn(L, usize, usize) -> T, A: Fn(T, T) -> T>(
    loops: &Vec<L>,
    ix: usize,
    iz: usize,
    zero: T,
    field: &F,
    plus: &A,
) -> (total: T)
    requires
        forall|j: int|
            0 <= j < loops@.len() ==> #[trigger] call_requires(*field, (loops@[j], ix, iz)),
        forall|a: T, b: T| #[trigger] call_requires(*plus, (a, b)),
    ensures
        summed_field(*field, *plus, loops@, ix, iz, zero, total),
{
    let mut total: T = zero;
    let mut j: usize = 0;
    while j < loops.len()
        invariant
            j <= loops@.len(),
            forall|k: int|
                0 <= k < loops@.len() ==> #[trigger] call_requires(*field, (loops@[k], ix, iz)),
            forall|a: T, b: T| #[trigger] call_requires(*plus, (a, b)),
            summed_field(*field, *plus, loops@.take(j as int), ix, iz, zero, total),
        decreases loops@.len() - j,
    {
        let term: T = field(loops[j], ix, iz);
        let prev: T = total;
        total = plus(prev, term);
        proof {
            let done = loops@.take(j + 1);
            assert(done.drop_last() =~= loops@.take(j as int));
            assert(done.last() == loops@[j as int]);
            assert(summed_field(*field, *plus, done, ix, iz, zero, total));
        }
        j += 1;
    }
    proof {
        assert(loops@.take(loops@.len() as int) =~= loops@);
    }
    total
}

/// `grid` is a complete sampled field: `z_count` rows of `x_count` cells,
/// the cell at row `iz`, column `ix` holding the full superposition of
/// every loop's field at the grid point `(ix, iz)`.
pub open spec fn sampled_grid<L, T, F: Fn(L, usize, usize) -> T, A: Fn(T, T) -> T>(
    field: F,
    plus: A,
    loops: Seq<L>,
    x_count: usize,
    z_count: usize,
    zero: T,
    grid: Seq<Vec<T>>,
) -> bool {
    &&& grid.len() == z_count
    &&& forall|iz: int| 0 <= iz < z_count ==> (#[trigger] grid[iz])@.len() == x_count
    &&& forall|iz: usize, ix: usize|
        iz < z_count && ix < x_count ==> summed_field(
            field,
            plus,
            loops,
            ix,
            iz,
            zero,
            #[trigger] grid[iz as int]@[ix as int],
        )
}

/// Sampled field over a rectangular grid, row-major: `z_count` rows of
/// `x_count` cells, the row index ascending in the outer loop and the
/// column index in the inner one. The cell at row `iz`, column `ix` is
/// the complete superposition of every loop's field at the grid point
/// `(ix, iz)` — never a partial sum.
pub fn sample_grid<L: Copy, T: Copy, F: Fn(L, usize, usize) -> T, A: Fn(T, T) -> T>(
    loops: &Vec<L>,
    x_count: usize,
    z_count: usize,
    zero: T,
    field: F,
    plus: A,
) -> (grid: Vec<Vec<T>>)
    requires
        samplable(field, plus, loops@, x_count, z_count),
    ensures
        sampled_grid(field, plus, loops@, x_count, z_count, zero, grid@),
{
    let mut grid: Vec<Vec<T>> = Vec::new();
    let mut iz: usize = 0;
    while iz < z_count
        invariant
            iz <= z_count,
            samplable(field, plus, loops@, x_count, z_count),
            grid@.len() == iz,
            forall|r: int| 0 <= r < iz ==> (#[trigger] grid@[r])@.len() == x_count,
            forall|r: usize, c: usize|
                r < iz && c < x_count ==> summed_field(
                    field,
                    plus,
                    loops@,
                    c,
                    r,
                    zero,
                    #[trigger] grid@[r as int]@[c as int],
                ),
        decreases z_count - iz,
    {
        let mut row: Vec<T> = Vec::new();
        let mut ix: usize = 0;
        while ix < x_count
            invariant
                ix <= x_count,
                iz < z_count,
                samplable(field, plus, loops@, x_count, z_count),
                row@.len() == ix,
                forall|c: usize|
                    c < ix ==> summed_field(
                        field,
                        plus,
                        loops@,
                        c,
                        iz,
                        zero,
                        #[trigger] row@[c as int],
                    ),
            decreases x_count - ix,
        {
            let cell: T = superpose(loops, ix, iz, zero, &field, &plus);
            row.push(cell);
            ix += 1;
        }
        grid.push(row);
        iz += 1;
    }
    grid
}

/// Element-wise combination of two grids of the same dimensions: the cell
/// at row `iz`, column `ix` of the result is `plus` applied to the two
/// corresponding input cells.
pub fn combine_grids<T: Copy, A: Fn(T, T) -> T>(
    left: &Vec<Vec<T>>,
    right: &Vec<Vec<T>>,
    plus: &A,
) -> (grid: Vec<Vec<T>>)
    requires
        left@.len() == right@.len(),
        forall|iz: int|
            0 <= iz < left@.len() ==> (#[trigger] left@[iz])@.len() == right@[iz]@.len(),
        forall|a: T, b: T| #[trigger] call_requires(*plus, (a, b)),
    ensures
        grid@.len() == left@.len(),
        forall|iz: int| 0 <= iz < left@.len() ==> (#[trigger] grid@[iz])@.len() == left@[iz]@.len(),
        forall|iz: int, ix: int|
            0 <= iz < left@.len() && 0 <= ix < left@[iz]@.len() ==> call_ensures(
                *plus,
                (left@[iz]@[ix], right@[iz]@[ix]),
                #[trigger] grid@[iz]@[ix],
            ),
{
    let mut grid: Vec<Vec<T>> = Vec::new();
    let mut iz: usize = 0;
    while iz < left.len()
        invariant
            iz <= left@.len(),
            left@.len() == right@.len(),
            forall|r: int|
                0 <= r < left@.len() ==> (#[trigger] left@[r])@.len() == right@[r]@.len(),
            forall|a: T, b: T| #[trigger] call_requires(*plus, (a, b)),
            grid@.len() == iz,
            forall|r: int| 0 <= r < iz ==> (#[trigger] grid@[r])@.len() == left@[r]@.len(),
            forall|r: int, c: int|
                0 <= r < iz && 0 <= c < left@[r]@.len() ==> call_ensures(
                    *plus,
                    (left@[r]@[c], right@[r]@[c]),
                    #[trigger] grid@[r]@[c],
                ),
        decreases left@.len() - iz,
    {
        let left_row: &Vec<T> = &left[iz];
        let right_row: &Vec<T> = &right[iz];
        let mut row: Vec<T> = Vec::new();
        let mut ix: usize = 0;
        while ix < left_row.len()
            invariant
                ix <= left_row@.len(),
                iz < left@.len(),
                left@.len() == right@.len(),
                left_row@ == left@[iz as int]@,
                right_row@ == right@[iz as int]@,
                left_row@.len() == right_row@.len(),
                forall|a: T, b: T| #[trigger] call_requires(*plus, (a, b)),
                row@.len() == ix,
                forall|c: int|
                    0 <= c < ix ==> call_ensures(
                        *plus,
                        (left_row@[c], right_row@[c]),
                        #[trigger] row@[c],
                    ),
            decreases left_row@.len() - ix,
        {
            let cell: T = plus(left_row[ix], right_row[ix]);
            row.push(cell);
            ix += 1;
        }
        grid.push(row);
        iz += 1;
    }
    grid
}

} // verus!
