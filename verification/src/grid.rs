//! Grid cells: the discretisation of coordinates by grid steps.

use vstd::prelude::*;
use vstd::arithmetic::div_mod::lemma_fundamental_div_mod;
use vstd::arithmetic::div_mod::lemma_fundamental_div_mod_converse;
use vstd::arithmetic::div_mod::lemma_mod_bound;
use crate::model::ints;

verus! {

/// Index along one axis of the cell that holds `coord`, for cells `step` wide: the
/// quotient of the division rounded towards minus infinity.
pub open spec fn cell_index(coord: int, step: int) -> int {
    coord / step
}

/// The cell of a point: one index per coordinate.
pub open spec fn cell_of(coords: Seq<int>, steps: Seq<int>) -> Seq<int> {
    Seq::new(coords.len(), |d: int| cell_index(coords[d], steps[d]))
}

/// Whether every grid step is positive.
pub open spec fn steps_positive(steps: Seq<int>) -> bool {
    forall|d: int| 0 <= d < steps.len() ==> steps[d] > 0
}

/// The cell index is the floor of the quotient: the cell starts at or below the
/// coordinate, and the next cell starts above it.
pub proof fn lemma_cell_index_is_floor(coord: int, step: int)
    requires
        step > 0,
    ensures
        cell_index(coord, step) * step <= coord < (cell_index(coord, step) + 1) * step,
{
    lemma_fundamental_div_mod(coord, step);
    lemma_mod_bound(coord, step);
    assert(step * (coord / step) == (coord / step) * step) by (nonlinear_arith);
    assert((coord / step + 1) * step == (coord / step) * step + step) by (nonlinear_arith);
}

/// Points whose coordinates lie in the same cell along every axis have the same cell;
/// a cell index is the only integer whose cell holds the coordinate.
pub proof fn lemma_cell_index_unique(coord: int, step: int, q: int)
    requires
        step > 0,
        q * step <= coord < (q + 1) * step,
    ensures
        cell_index(coord, step) == q,
{
    assert((q + 1) * step == q * step + step) by (nonlinear_arith);
    lemma_fundamental_div_mod_converse(coord, step, q, coord - q * step);
}

/// Divides `coord` by `step`, rounding towards minus infinity.
pub fn floor_div(coord: i64, step: i64) -> (q: i64)
    requires
        step > 0,
    ensures
        q == cell_index(coord as int, step as int),
{
    let quotient: i64 = coord / step;
    let remainder: i64 = coord % step;
    if remainder < 0 {
        proof {
            let m: int = -(coord as int);
            lemma_fundamental_div_mod(m, step as int);
            lemma_mod_bound(m, step as int);
            let a: int = m / (step as int);
            let b: int = m % (step as int);
            assert(quotient == -a);
            assert(remainder == -b);
            assert(a >= 0) by (nonlinear_arith)
                requires
                    m == step * a + b,
                    step >= 1,
                    b < step,
                    m >= 0,
            ;
            assert(coord as int == (-a - 1) * step + (step - b)) by (nonlinear_arith)
                requires
                    -(coord as int) == step * a + b,
            ;
            lemma_fundamental_div_mod_converse(coord as int, step as int, -a - 1, step - b);
            assert(-a - 1 >= coord as int) by (nonlinear_arith)
                requires
                    coord as int == (-a - 1) * step + (step - b),
                    step >= 1,
                    0 < b < step,
                    a >= 0,
            ;
        }
        quotient - 1
    } else {
        proof {
            if coord >= 0 {
            } else {
                let m: int = -(coord as int);
                lemma_fundamental_div_mod(m, step as int);
                lemma_mod_bound(m, step as int);
                let a: int = m / (step as int);
                assert(quotient == -a);
                assert(m % (step as int) == 0);
                assert(coord as int == (-a) * step + 0) by (nonlinear_arith)
                    requires
                        -(coord as int) == step * a,
                ;
                lemma_fundamental_div_mod_converse(coord as int, step as int, -a, 0);
            }
        }
        quotient
    }
}

/// The cell of the point `coords` on the grid with the given steps.
pub fn locate(coords: &Vec<i64>, steps: &Vec<i64>) -> (cell: Vec<i64>)
    requires
        coords.len() == steps.len(),
        steps_positive(ints(steps@)),
    ensures
        ints(cell@) == cell_of(ints(coords@), ints(steps@)),
        cell.len() == coords.len(),
{
    let mut cell: Vec<i64> = Vec::new();
    let mut d: usize = 0;
    while d < coords.len()
        invariant
            d <= coords.len(),
            coords.len() == steps.len(),
            steps_positive(ints(steps@)),
            cell.len() == d,
            forall|k: int| 0 <= k < d ==> cell[k] as int == cell_index(coords[k] as int, steps[k] as int),
        decreases coords.len() - d,
    {
        assert(ints(steps@)[d as int] > 0);
        cell.push(floor_div(coords[d], steps[d]));
        d = d + 1;
    }
    assert(ints(cell@) =~= cell_of(ints(coords@), ints(steps@)));
    cell
}

/// Whether two cells are the same cell.
pub fn same_cell(a: &Vec<i64>, b: &Vec<i64>) -> (same: bool)
    ensures
        same == (ints(a@) == ints(b@)),
{
    if a.len() != b.len() {
        assert(ints(a@).len() != ints(b@).len());
        return false;
    }
    let mut d: usize = 0;
    while d < a.len()
        invariant
            d <= a.len(),
            a.len() == b.len(),
            forall|k: int| 0 <= k < d ==> a[k] == b[k],
        decreases a.len() - d,
    {
        if a[d] != b[d] {
            assert(ints(a@)[d as int] != ints(b@)[d as int]);
            return false;
        }
        d = d + 1;
    }
    assert(ints(a@) =~= ints(b@));
    true
}

} // verus!
