//! Binomial approximations of a Gaussian blur kernel, with exact integer weights.
use vstd::prelude::*;
use crate::grid::{
    CoefficientRow, WeightGrid, row_cells, weight_cells, weight_grid_zeros, weight_grid_get,
    weight_grid_set, coefficient_row_zeros, coefficient_row_get, coefficient_row_set,
};

verus! {

/// The largest kernel size that `build_kernel` and `Kernel::identity` accept:
/// the top of the ascending range of odd sizes that a blur run goes through.
pub const MAX_KERNEL_SIZE: usize = 31;

/// Why a kernel of a requested size cannot be built.
#[derive(Clone, Copy, Debug, PartialEq, Eq, Structural)]
pub enum KernelError {
    /// The size is even or smaller than three.
    InvalidKernelSize,
    /// The size is odd and at least three, but above `MAX_KERNEL_SIZE`.
    KernelTooLarge,
}

/// The binomial coefficient `n` choose `k`, by Pascal's rule.
pub open spec fn binom(n: nat, k: nat) -> nat
    decreases n,
{
    if k == 0 {
        1
    } else if n == 0 {
        0
    } else {
        binom((n - 1) as nat, (k - 1) as nat) + binom((n - 1) as nat, k)
    }
}

/// Two to the power `n`.
pub open spec fn two_pow(n: nat) -> nat
    decreases n,
{
    if n == 0 {
        1
    } else {
        2 * two_pow((n - 1) as nat)
    }
}

/// Whether `size` is a size that a kernel may have: odd and at least three.
pub open spec fn valid_size(size: int) -> bool {
    size % 2 == 1 && 3 <= size
}

/// The sum of the first `n` entries of `ws`.
pub open spec fn row_total(ws: Seq<u64>, n: int) -> int
    decreases n,
{
    if n <= 0 {
        0
    } else {
        row_total(ws, n - 1) + ws[n - 1]
    }
}

/// The sum of all entries of the first `n` rows of `w`.
pub open spec fn grid_total(w: Seq<Seq<u64>>, n: int) -> int
    decreases n,
{
    if n <= 0 {
        0
    } else {
        grid_total(w, n - 1) + row_total(w[n - 1], w[n - 1].len() as int)
    }
}

/// Whether `g` has `n` rows of `n` entries each.
pub open spec fn is_square<T>(g: Seq<Seq<T>>, n: nat) -> bool {
    &&& g.len() == n
    &&& forall|i: int| 0 <= i < n ==> #[trigger] g[i].len() == n
}

/// The binomial kernel weight at row `i`, column `j` of a kernel of `size`:
/// the product of the two coefficients of row `size - 1` of Pascal's triangle.
pub open spec fn binomial_weight(size: nat, i: int, j: int) -> nat {
    binom((size - 1) as nat, i as nat) * binom((size - 1) as nat, j as nat)
}

/// Whether `w` is the identity kernel of `size`: one at the centre, zero elsewhere.
pub open spec fn is_identity(w: Seq<Seq<u64>>, size: nat) -> bool {
    &&& is_square(w, size)
    &&& forall|i: int, j: int|
        0 <= i < size && 0 <= j < size ==> #[trigger] w[i][j] == (if i == size / 2 && j
            == size / 2 {
            1u64
        } else {
            0u64
        })
}

/// A square matrix of non-negative integer weights; the weight of each cell
/// is its integer divided by `denominator`, the total of all of them, so the
/// weights sum to one.
pub struct Kernel {
    pub size: usize,
    pub weights: WeightGrid,
    pub denominator: u128,
}

impl Kernel {
    /// The integer weights, row by row.
    pub open spec fn cells(&self) -> Seq<Seq<u64>> {
        weight_cells(self.weights)
    }

    /// The kernel is `size` by `size` with an odd size from three up to
    /// `MAX_KERNEL_SIZE`,
    /// its denominator is the positive total of its weights, and 255 times
    /// that total fits in `u128`.
    pub open spec fn wf(&self) -> bool {
        &&& valid_size(self.size as int)
        &&& self.size <= MAX_KERNEL_SIZE
        &&& is_square(self.cells(), self.size as nat)
        &&& self.denominator == grid_total(self.cells(), self.size as int)
        &&& 0 < self.denominator
        &&& 255 * self.denominator <= u128::MAX
    }

    /// The number of rows, and of columns.
    pub fn size(&self) -> (r: usize)
        ensures
            r == self.size,
    {
        self.size
    }

    /// The total of all integer weights.
    pub fn denominator(&self) -> (r: u128)
        ensures
            r == self.denominator,
    {
        self.denominator
    }

    /// The integer weight at row `i`, column `j`.
    pub fn weight(&self, i: usize, j: usize) -> (r: u64)
        requires
            self.wf(),
            i < self.size,
            j < self.size,
        ensures
            r == self.cells()[i as int][j as int],
    {
        weight_grid_get(&self.weights, i, j)
    }
}

proof fn lemma_binom_above(n: nat, k: nat)
    requires
        k > n,
    ensures
        binom(n, k) == 0,
    decreases n,
{
    if n > 0 {
        lemma_binom_above((n - 1) as nat, (k - 1) as nat);
        lemma_binom_above((n - 1) as nat, k);
    }
}

proof fn lemma_binom_le_two_pow(n: nat, k: nat)
    ensures
        binom(n, k) <= two_pow(n),
        1 <= two_pow(n),
    decreases n,
{
    if n > 0 {
        lemma_binom_le_two_pow((n - 1) as nat, 0);
        if k > 0 {
            lemma_binom_le_two_pow((n - 1) as nat, (k - 1) as nat);
            lemma_binom_le_two_pow((n - 1) as nat, k);
        }
    }
}

proof fn lemma_two_pow_monotone(a: nat, b: nat)
    requires
        a <= b,
    ensures
        two_pow(a) <= two_pow(b),
    decreases b,
{
    if a < b {
        lemma_two_pow_monotone(a, (b - 1) as nat);
    }
}

/// Every coefficient of a row of Pascal's triangle up to row 30 is at most 2^30.
proof fn lemma_coefficient_bound(n: nat, k: nat)
    requires
        n <= 30,
    ensures
        binom(n, k) <= 0x4000_0000,
{
    lemma_binom_le_two_pow(n, k);
    lemma_two_pow_monotone(n, 30);
    reveal_with_fuel(two_pow, 31);
}

/// The sum of `binom(n, k)` over `k < m`.
pub open spec fn binom_sum(n: nat, m: int) -> nat
    decreases m,
{
    if m <= 0 {
        0
    } else {
        binom_sum(n, m - 1) + binom(n, (m - 1) as nat)
    }
}

proof fn lemma_binom_sum_step(n: nat, m: int)
    requires
        m >= 0,
    ensures
        binom_sum(n + 1, m + 1) == binom_sum(n, m) + binom_sum(n, m + 1),
    decreases m,
{
    if m > 0 {
        lemma_binom_sum_step(n, m - 1);
        assert(binom_sum(n + 1, m + 1) == binom_sum(n + 1, m) + binom(n + 1, m as nat));
        assert(binom(n + 1, m as nat) == binom(n, (m - 1) as nat) + binom(n, m as nat));
        assert(binom_sum(n, m) == binom_sum(n, m - 1) + binom(n, (m - 1) as nat));
        assert(binom_sum(n, m + 1) == binom_sum(n, m) + binom(n, m as nat));
    } else {
        assert(binom_sum(n + 1, 1) == binom_sum(n + 1, 0) + binom(n + 1, 0));
        assert(binom_sum(n, 1) == binom_sum(n, 0) + binom(n, 0));
    }
}

/// The coefficients of row `n` of Pascal's triangle add up to 2^n.
pub proof fn lemma_binom_row_sum(n: nat)
    ensures
        binom_sum(n, n + 1int) == two_pow(n),
    decreases n,
{
    if n > 0 {
        let p = (n - 1) as nat;
        lemma_binom_row_sum(p);
        lemma_binom_sum_step(p, n as int);
        lemma_binom_above(p, n);
        assert(binom_sum(p, n + 1int) == binom_sum(p, n as int) + binom(p, n));
        assert(two_pow(n) == 2 * two_pow(p));
    } else {
        assert(binom_sum(0, 1) == binom_sum(0, 0) + binom(0, 0));
    }
}

proof fn lemma_row_total_binom(row: Seq<u64>, n: nat, m: int)
    requires
        0 <= m <= row.len(),
        forall|i: int| 0 <= i < row.len() ==> #[trigger] row[i] == binom(n, i as nat),
    ensures
        row_total(row, m) == binom_sum(n, m),
    decreases m,
{
    if m > 0 {
        lemma_row_total_binom(row, n, m - 1);
    }
}

proof fn lemma_binom_grows_down_columns(n: nat, m: nat, k: nat)
    requires
        n <= m,
    ensures
        binom(n, k) <= binom(m, k),
    decreases m,
{
    if n < m {
        lemma_binom_grows_down_columns(n, (m - 1) as nat, k);
    }
}

/// The row of `size` binomial coefficients `binom(size - 1, i)`, built in
/// place from the top of Pascal's triangle down: each pass turns row `n`
/// into row `n + 1`, right to left.
pub fn pascal_row(size: usize) -> (r: CoefficientRow)
    requires
        1 <= size,
        8 * size <= isize::MAX,
        forall|i: int| 0 <= i < size ==> #[trigger] binom((size - 1) as nat, i as nat) <= u64::MAX,
    ensures
        row_cells(r).len() == size,
        forall|i: int| 0 <= i < size ==> #[trigger] row_cells(r)[i] == binom((size - 1) as nat, i as nat),
{
    let mut row = coefficient_row_zeros(size);
    coefficient_row_set(&mut row, 0, 1);
    let mut n: usize = 0;
    while n + 1 < size
        invariant
            n < size,
            forall|i: int| 0 <= i < size ==> #[trigger] binom((size - 1) as nat, i as nat) <= u64::MAX,
            row_cells(row).len() == size,
            forall|t: int| 0 <= t < size ==> #[trigger] row_cells(row)[t] == binom(n as nat, t as nat),
        decreases size - n,
    {
        let mut i: usize = n + 1;
        proof {
            assert forall|t: int| 0 <= t < size implies #[trigger] row_cells(row)[t] == (if t > i {
                binom((n + 1) as nat, t as nat)
            } else {
                binom(n as nat, t as nat)
            }) by {
                if t > i {
                    lemma_binom_above(n as nat, t as nat);
                    lemma_binom_above((n + 1) as nat, t as nat);
                }
            }
        }
        while i > 0
            invariant
                i <= n + 1,
                n + 1 < size,
                forall|i: int| 0 <= i < size ==> #[trigger] binom((size - 1) as nat, i as nat) <= u64::MAX,
                row_cells(row).len() == size,
                forall|t: int| 0 <= t < size ==> #[trigger] row_cells(row)[t] == (if t > i {
                    binom((n + 1) as nat, t as nat)
                } else {
                    binom(n as nat, t as nat)
                }),
            decreases i,
        {
            let below = coefficient_row_get(&row, i);
            let left = coefficient_row_get(&row, i - 1);
            proof {
                assert(binom((n + 1) as nat, i as nat) == left + below);
                lemma_binom_grows_down_columns((n + 1) as nat, (size - 1) as nat, i as nat);
                assert(binom((size - 1) as nat, i as nat) <= u64::MAX);
            }
            coefficient_row_set(&mut row, i, left + below);
            i -= 1;
        }
        n += 1;
    }
    row
}

proof fn lemma_row_total_scaled(ws: Seq<u64>, row: Seq<u64>, a: int, n: int)
    requires
        0 <= n <= ws.len(),
        ws.len() <= row.len(),
        forall|j: int| 0 <= j < ws.len() ==> #[trigger] ws[j] == a * row[j],
    ensures
        row_total(ws, n) == a * row_total(row, n),
    decreases n,
{
    if n > 0 {
        lemma_row_total_scaled(ws, row, a, n - 1);
        assert(a * row_total(row, n - 1) + a * row[n - 1] == a * (row_total(row, n - 1)
            + row[n - 1])) by (nonlinear_arith);
    }
}

/// The total of an outer product of `row` with itself is the square of the
/// row's total.
proof fn lemma_outer_product_total(w: Seq<Seq<u64>>, row: Seq<u64>, size: nat, n: int)
    requires
        0 <= n <= size,
        row.len() == size,
        is_square(w, size),
        forall|i: int, j: int|
            0 <= i < size && 0 <= j < size ==> #[trigger] w[i][j] == row[i] * row[j],
    ensures
        grid_total(w, n) == row_total(row, n) * row_total(row, size as int),
    decreases n,
{
    if n > 0 {
        lemma_outer_product_total(w, row, size, n - 1);
        let i = n - 1;
        assert forall|j: int| 0 <= j < w[i].len() implies #[trigger] w[i][j] == row[i] * row[j] by {
            assert(w[i][j] == row[i] * row[j]);
        }
        lemma_row_total_scaled(w[i], row, row[i] as int, size as int);
        let s = row_total(row, size as int);
        assert(row_total(row, n - 1) * s + row[n - 1] * s == (row_total(row, n - 1) + row[n
            - 1]) * s) by (nonlinear_arith);
    }
}

proof fn lemma_row_total_bound(row: Seq<u64>, n: int)
    requires
        0 <= n <= row.len(),
        forall|i: int| 0 <= i < row.len() ==> #[trigger] row[i] <= 0x4000_0000,
    ensures
        0 <= row_total(row, n) <= n * 0x4000_0000,
    decreases n,
{
    if n > 0 {
        lemma_row_total_bound(row, n - 1);
    }
}

/// Builds the binomial kernel of `size`: the outer product of row
/// `size - 1` of Pascal's triangle with itself, over the total of its entries.
pub fn build_kernel(size: usize) -> (r: Result<Kernel, KernelError>)
    ensures
        r is Ok <==> valid_size(size as int) && size <= MAX_KERNEL_SIZE,
        r == Err::<Kernel, KernelError>(KernelError::InvalidKernelSize) <==> !valid_size(
            size as int,
        ),
        r == Err::<Kernel, KernelError>(KernelError::KernelTooLarge) <==> valid_size(size as int)
            && size > MAX_KERNEL_SIZE,
        r matches Ok(k) ==> {
            &&& k.wf()
            &&& k.size == size
            &&& forall|i: int, j: int|
                0 <= i < size && 0 <= j < size ==> #[trigger] k.cells()[i][j]
                    == binomial_weight(size as nat, i, j)
            &&& k.denominator == two_pow((size - 1) as nat) * two_pow((size - 1) as nat)
        },
{
    if size % 2 == 0 || size < 3 {
        return Err(KernelError::InvalidKernelSize);
    }
    if size > MAX_KERNEL_SIZE {
        return Err(KernelError::KernelTooLarge);
    }
    proof {
        assert forall|t: int| 0 <= t < size implies #[trigger] binom((size - 1) as nat, t as nat)
            <= u64::MAX by {
            lemma_coefficient_bound((size - 1) as nat, t as nat);
        }
    }
    let row = pascal_row(size);
    proof {
        assert forall|t: int| 0 <= t < size implies #[trigger] row_cells(row)[t] <= 0x4000_0000 by {
            lemma_coefficient_bound((size - 1) as nat, t as nat);
        }
    }
    assert(8 * size * size <= 7688) by (nonlinear_arith)
        requires
            size <= 31,
    ;
    let mut weights = weight_grid_zeros(size, size);
    let mut i: usize = 0;
    while i < size
        invariant
            3 <= size <= MAX_KERNEL_SIZE,
            row_cells(row).len() == size,
            forall|t: int| 0 <= t < size ==> #[trigger] row_cells(row)[t] <= 0x4000_0000,
            i <= size,
            is_square(weight_cells(weights), size as nat),
            forall|a: int, b: int|
                0 <= a < i && 0 <= b < size ==> #[trigger] weight_cells(weights)[a][b] == row_cells(row)[a]
                    * row_cells(row)[b],
        decreases size - i,
    {
        let mut j: usize = 0;
        while j < size
            invariant
                3 <= size <= MAX_KERNEL_SIZE,
                row_cells(row).len() == size,
                forall|t: int| 0 <= t < size ==> #[trigger] row_cells(row)[t] <= 0x4000_0000,
                i < size,
                j <= size,
                is_square(weight_cells(weights), size as nat),
                forall|a: int, b: int|
                    0 <= a < i && 0 <= b < size ==> #[trigger] weight_cells(weights)[a][b]
                        == row_cells(row)[a] * row_cells(row)[b],
                forall|b: int|
                    0 <= b < j ==> #[trigger] weight_cells(weights)[i as int][b] == row_cells(row)[i as int]
                        * row_cells(row)[b],
            decreases size - j,
        {
            let a = coefficient_row_get(&row, i);
            let b = coefficient_row_get(&row, j);
            assert(a * b <= 0x4000_0000 * 0x4000_0000) by (nonlinear_arith)
                requires
                    a <= 0x4000_0000,
                    b <= 0x4000_0000,
            ;
            weight_grid_set(&mut weights, i, j, a * b);
            j += 1;
        }
        i += 1;
    }
    let mut total: u64 = 0;
    let mut k: usize = 0;
    while k < size
        invariant
            3 <= size <= MAX_KERNEL_SIZE,
            row_cells(row).len() == size,
            forall|t: int| 0 <= t < size ==> #[trigger] row_cells(row)[t] <= 0x4000_0000,
            k <= size,
            total == row_total(row_cells(row), k as int),
        decreases size - k,
    {
        proof {
            lemma_row_total_bound(row_cells(row), k as int);
        }
        total = total + coefficient_row_get(&row, k);
        k += 1;
    }
    proof {
        lemma_row_total_bound(row_cells(row), size as int);
        lemma_outer_product_total(weight_cells(weights), row_cells(row), size as nat, size as int);
        lemma_row_total_binom(row_cells(row), (size - 1) as nat, size as int);
        lemma_binom_row_sum((size - 1) as nat);
    }
    let t = total as u128;
    assert(t * t <= 31 * 0x4000_0000 * 31 * 0x4000_0000) by (nonlinear_arith)
        requires
            t <= 31 * 0x4000_0000,
    ;
    let kernel = Kernel { size, weights, denominator: t * t };
    proof {
        assert(row_cells(row)[0] == 1);
        assert(row_total(row_cells(row), 0) == 0);
        assert(row_total(row_cells(row), 1) == 1);
        assert(row_total(row_cells(row), 1) <= row_total(row_cells(row), size as int)) by {
            lemma_row_total_monotone(row_cells(row), 1, size as int);
        }
        assert(t * t > 0) by (nonlinear_arith)
            requires
                t >= 1,
        ;
    }
    Ok(kernel)
}

pub(crate) proof fn lemma_row_total_monotone(ws: Seq<u64>, a: int, b: int)
    requires
        0 <= a <= b <= ws.len(),
    ensures
        0 <= row_total(ws, a) <= row_total(ws, b),
    decreases b,
{
    if a < b {
        lemma_row_total_monotone(ws, a, b - 1);
    } else if a > 0 {
        lemma_row_total_monotone(ws, a - 1, a - 1);
    }
}

pub(crate) proof fn lemma_grid_total_monotone(w: Seq<Seq<u64>>, a: int, b: int)
    requires
        0 <= a <= b <= w.len(),
    ensures
        0 <= grid_total(w, a) <= grid_total(w, b),
    decreases b,
{
    if a < b {
        lemma_grid_total_monotone(w, a, b - 1);
        lemma_row_total_monotone(w[b - 1], 0, w[b - 1].len() as int);
    } else if a > 0 {
        lemma_grid_total_monotone(w, a - 1, a - 1);
        lemma_row_total_monotone(w[a - 1], 0, w[a - 1].len() as int);
    }
}

/// A row that is one at position `h` and zero elsewhere totals one if `h`
/// lies among the first `n` entries, else zero.
proof fn lemma_row_total_unit(ws: Seq<u64>, h: int, n: int)
    requires
        0 <= n <= ws.len(),
        forall|j: int| 0 <= j < ws.len() ==> #[trigger] ws[j] == (if j == h {
            1u64
        } else {
            0u64
        }),
    ensures
        row_total(ws, n) == (if 0 <= h < n {
            1int
        } else {
            0int
        }),
    decreases n,
{
    if n > 0 {
        lemma_row_total_unit(ws, h, n - 1);
    }
}

pub(crate) proof fn lemma_identity_total(w: Seq<Seq<u64>>, size: nat, n: int)
    requires
        is_identity(w, size),
        0 <= n <= size,
    ensures
        grid_total(w, n) == (if size / 2 < n {
            1int
        } else {
            0int
        }),
    decreases n,
{
    if n > 0 {
        lemma_identity_total(w, size, n - 1);
        let i = n - 1;
        let h: int = if i == size / 2 {
            (size / 2) as int
        } else {
            -1
        };
        assert forall|j: int| 0 <= j < w[i].len() implies #[trigger] w[i][j] == (if j == h {
            1u64
        } else {
            0u64
        }) by {
            assert(w[i][j] == (if i == size / 2 && j == size / 2 {
                1u64
            } else {
                0u64
            }));
        }
        lemma_row_total_unit(w[i], h, size as int);
    }
}

impl Kernel {
    /// The identity kernel of `size`: weight one at the centre and zero
    /// elsewhere, so that convolving with it leaves every interior pixel as it was.
    pub fn identity(size: usize) -> (r: Result<Kernel, KernelError>)
        ensures
            r is Ok <==> valid_size(size as int) && size <= MAX_KERNEL_SIZE,
            r == Err::<Kernel, KernelError>(KernelError::InvalidKernelSize) <==> !valid_size(
                size as int,
            ),
            r == Err::<Kernel, KernelError>(KernelError::KernelTooLarge) <==> valid_size(
                size as int,
            ) && size > MAX_KERNEL_SIZE,
            r matches Ok(k) ==> k.wf() && k.size == size && is_identity(k.cells(), size as nat),
    {
        if size % 2 == 0 || size < 3 {
            return Err(KernelError::InvalidKernelSize);
        }
        if size > MAX_KERNEL_SIZE {
            return Err(KernelError::KernelTooLarge);
        }
        assert(8 * size * size <= 7688) by (nonlinear_arith)
            requires
                size <= 31,
        ;
        let mut weights = weight_grid_zeros(size, size);
        let centre: usize = size / 2;
        weight_grid_set(&mut weights, centre, centre, 1);
        let kernel = Kernel { size, weights, denominator: 1 };
        proof {
            let w = kernel.cells();
            assert forall|i: int, j: int| 0 <= i < size && 0 <= j < size implies #[trigger] w[i][j]
                == (if i == size / 2 && j == size / 2 {
                1u64
            } else {
                0u64
            }) by {}
            lemma_identity_total(w, size as nat, size as int);
        }
        Ok(kernel)
    }
}

} // verus!
