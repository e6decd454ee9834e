//! Arrays of binomial coefficients, kernel weights and window samples, held
//! in `ndarray` arrays and seen by the proofs as sequences.
use vstd::prelude::*;

verus! {

/// A two-dimensional array of kernel weights.
#[verifier::external_body]
pub struct WeightGrid {
    cells: ndarray::Array2<u64>,
}

/// A two-dimensional array of channel samples.
#[verifier::external_body]
pub struct SampleGrid {
    cells: ndarray::Array2<u8>,
}

/// The entries of a weight grid, row by row.
pub uninterp spec fn weight_cells(g: WeightGrid) -> Seq<Seq<u64>>;

/// The entries of a sample grid, row by row.
pub uninterp spec fn sample_cells(g: SampleGrid) -> Seq<Seq<u8>>;

/// A grid of `rows` rows of `cols` copies of `v`.
pub open spec fn filled<T>(rows: nat, cols: nat, v: T) -> Seq<Seq<T>> {
    Seq::new(rows, |i: int| Seq::new(cols, |j: int| v))
}

/// Relies on `ndarray::Array2::zeros`: an array of the given shape whose
/// entries are all zero. It panics when the product of the non-zero axis
/// lengths overflows `isize`, and the `Vec` it allocates panics when its
/// size in bytes, eight per entry, does.
#[verifier::external_body]
pub(crate) fn weight_grid_zeros(rows: usize, cols: usize) -> (r: WeightGrid)
    requires
        rows <= isize::MAX,
        cols <= isize::MAX,
        8 * rows * cols <= isize::MAX,
    ensures
        weight_cells(r) == filled(rows as nat, cols as nat, 0u64),
{
    WeightGrid { cells: ndarray::Array2::zeros((rows, cols)) }
}

/// Relies on indexing an `ndarray::Array2` by `(row, column)`: the entry there.
#[verifier::external_body]
pub(crate) fn weight_grid_get(g: &WeightGrid, i: usize, j: usize) -> (r: u64)
    requires
        i < weight_cells(*g).len(),
        j < weight_cells(*g)[i as int].len(),
    ensures
        r == weight_cells(*g)[i as int][j as int],
{
    g.cells[(i, j)]
}

/// Relies on assigning through `IndexMut` of an `ndarray::Array2` by
/// `(row, column)`: that entry changes and no other.
#[verifier::external_body]
pub(crate) fn weight_grid_set(g: &mut WeightGrid, i: usize, j: usize, v: u64)
    requires
        i < weight_cells(*old(g)).len(),
        j < weight_cells(*old(g))[i as int].len(),
    ensures
        weight_cells(*final(g)) == weight_cells(*old(g)).update(
            i as int,
            weight_cells(*old(g))[i as int].update(j as int, v),
        ),
{
    g.cells[(i, j)] = v;
}

/// Relies on `ndarray::Array2::zeros`: an array of the given shape whose
/// entries are all zero. It panics when the product of the non-zero axis
/// lengths overflows `isize`.
#[verifier::external_body]
pub(crate) fn sample_grid_zeros(rows: usize, cols: usize) -> (r: SampleGrid)
    requires
        rows <= isize::MAX,
        cols <= isize::MAX,
        rows * cols <= isize::MAX,
    ensures
        sample_cells(r) == filled(rows as nat, cols as nat, 0u8),
{
    SampleGrid { cells: ndarray::Array2::zeros((rows, cols)) }
}

/// Relies on indexing an `ndarray::Array2` by `(row, column)`: the entry there.
#[verifier::external_body]
pub(crate) fn sample_grid_get(g: &SampleGrid, i: usize, j: usize) -> (r: u8)
    requires
        i < sample_cells(*g).len(),
        j < sample_cells(*g)[i as int].len(),
    ensures
        r == sample_cells(*g)[i as int][j as int],
{
    g.cells[(i, j)]
}

/// Relies on assigning through `IndexMut` of an `ndarray::Array2` by
/// `(row, column)`: that entry changes and no other.
#[verifier::external_body]
pub(crate) fn sample_grid_set(g: &mut SampleGrid, i: usize, j: usize, v: u8)
    requires
        i < sample_cells(*old(g)).len(),
        j < sample_cells(*old(g))[i as int].len(),
    ensures
        sample_cells(*final(g)) == sample_cells(*old(g)).update(
            i as int,
            sample_cells(*old(g))[i as int].update(j as int, v),
        ),
{
    g.cells[(i, j)] = v;
}

/// A one-dimensional array of binomial coefficients.
#[verifier::external_body]
pub struct CoefficientRow {
    cells: ndarray::Array1<u64>,
}

/// The entries of a coefficient row, in order.
pub uninterp spec fn row_cells(r: CoefficientRow) -> Seq<u64>;

/// Relies on `ndarray::Array1::zeros`: an array of `len` zeros. It panics
/// when `len` overflows `isize`, and the `Vec` it allocates panics when its
/// size in bytes, eight per entry, does.
#[verifier::external_body]
pub(crate) fn coefficient_row_zeros(len: usize) -> (r: CoefficientRow)
    requires
        8 * len <= isize::MAX,
    ensures
        row_cells(r) == Seq::new(len as nat, |i: int| 0u64),
{
    CoefficientRow { cells: ndarray::Array1::zeros(len) }
}

/// Relies on indexing an `ndarray::Array1` by position: the entry there.
#[verifier::external_body]
pub(crate) fn coefficient_row_get(r: &CoefficientRow, i: usize) -> (v: u64)
    requires
        i < row_cells(*r).len(),
    ensures
        v == row_cells(*r)[i as int],
{
    r.cells[i]
}

/// Relies on assigning through `IndexMut` of an `ndarray::Array1` by
/// position: that entry changes and no other.
#[verifier::external_body]
pub(crate) fn coefficient_row_set(r: &mut CoefficientRow, i: usize, v: u64)
    requires
        i < row_cells(*old(r)).len(),
    ensures
        row_cells(*final(r)) == row_cells(*old(r)).update(i as int, v),
{
    r.cells[i] = v;
}

impl CoefficientRow {
    /// The coefficient at position `i`.
    pub fn coefficient(&self, i: usize) -> (v: u64)
        requires
            i < row_cells(*self).len(),
        ensures
            v == row_cells(*self)[i as int],
    {
        coefficient_row_get(self, i)
    }
}

} // verus!
