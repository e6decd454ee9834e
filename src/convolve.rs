//! Convolution of a picture with a kernel, pixel by pixel and channel by
//! channel, leaving a black border where the kernel does not fit.
use vstd::prelude::*;
use crate::grid::{SampleGrid, sample_cells, sample_grid_zeros, sample_grid_get, sample_grid_set, weight_grid_get};
use crate::kernel::{
    Kernel, MAX_KERNEL_SIZE, grid_total, row_total, is_identity, lemma_row_total_monotone,
    lemma_grid_total_monotone, lemma_identity_total,
};
use crate::picture::{
    Channel, Picture, black, channel_of, in_bounds, picture_height, picture_pixels,
    picture_width, sample_of,
};

verus! {

/// Whether the whole `size` by `size` window centred on `(x, y)` lies inside
/// a `width` by `height` picture.
pub open spec fn is_interior(width: u32, height: u32, size: nat, x: int, y: int) -> bool {
    &&& size / 2 <= x
    &&& x + size / 2 < width
    &&& size / 2 <= y
    &&& y + size / 2 < height
}

/// The `size` by `size` samples of channel `c` around `(x, y)`: entry
/// `(i, j)` is the sample at `(x + i - size / 2, y + j - size / 2)`.
pub open spec fn window_of(p: Picture, x: int, y: int, c: Channel, size: nat) -> Seq<Seq<u8>> {
    Seq::new(
        size,
        |i: int| Seq::new(size, |j: int| sample_of(p, x + i - size / 2, y + j - size / 2, c)),
    )
}

/// The sum of the first `n` products of a weight and a sample.
pub open spec fn row_dot(ws: Seq<u64>, ss: Seq<u8>, n: int) -> int
    decreases n,
{
    if n <= 0 {
        0
    } else {
        row_dot(ws, ss, n - 1) + ws[n - 1] * ss[n - 1]
    }
}

/// The sum of the products of weights and samples over the first `n` rows.
pub open spec fn grid_dot(w: Seq<Seq<u64>>, s: Seq<Seq<u8>>, n: int) -> int
    decreases n,
{
    if n <= 0 {
        0
    } else {
        grid_dot(w, s, n - 1) + row_dot(w[n - 1], s[n - 1], w[n - 1].len() as int)
    }
}

/// The weighted average of the window around `(x, y)` under kernel `k`,
/// rounded down.
pub open spec fn weighted_average(p: Picture, x: int, y: int, c: Channel, k: Kernel) -> int {
    grid_dot(k.cells(), window_of(p, x, y, c, k.size as nat), k.size as int)
        / (k.denominator as int)
}

/// The pixel at `(x, y)` of the blurred picture: the weighted averages of
/// the three channels where the kernel fits, black elsewhere.
pub open spec fn blurred_pixel(p: Picture, k: Kernel, x: int, y: int) -> (u8, u8, u8) {
    if is_interior(picture_width(p), picture_height(p), k.size as nat, x, y) {
        (
            weighted_average(p, x, y, Channel::Red, k) as u8,
            weighted_average(p, x, y, Channel::Green, k) as u8,
            weighted_average(p, x, y, Channel::Blue, k) as u8,
        )
    } else {
        black()
    }
}

/// Every pixel of the picture blurred with kernel `k`.
pub open spec fn blurred_pixels(p: Picture, k: Kernel) -> Map<(int, int), (u8, u8, u8)> {
    Map::new(
        |q: (int, int)| in_bounds(picture_width(p), picture_height(p), q.0, q.1),
        |q: (int, int)| blurred_pixel(p, k, q.0, q.1),
    )
}

proof fn lemma_row_dot_bound(ws: Seq<u64>, ss: Seq<u8>, n: int)
    requires
        0 <= n <= ws.len(),
        n <= ss.len(),
    ensures
        0 <= row_dot(ws, ss, n) <= 255 * row_total(ws, n),
    decreases n,
{
    if n > 0 {
        lemma_row_dot_bound(ws, ss, n - 1);
        let a = ws[n - 1] as int;
        let b = ss[n - 1] as int;
        assert(0 <= a * b <= 255 * a) by (nonlinear_arith)
            requires
                0 <= a,
                0 <= b <= 255,
        ;
    }
}

proof fn lemma_grid_dot_bound(w: Seq<Seq<u64>>, s: Seq<Seq<u8>>, n: int)
    requires
        0 <= n <= w.len(),
        n <= s.len(),
        forall|i: int| 0 <= i < n ==> #[trigger] w[i].len() <= s[i].len(),
    ensures
        0 <= grid_dot(w, s, n) <= 255 * grid_total(w, n),
    decreases n,
{
    if n > 0 {
        lemma_grid_dot_bound(w, s, n - 1);
        lemma_row_dot_bound(w[n - 1], s[n - 1], w[n - 1].len() as int);
    }
}

/// Reads the `size` by `size` window of channel `c` centred on `(x, y)`.
pub fn window(p: &Picture, x: u32, y: u32, c: Channel, size: usize) -> (r: SampleGrid)
    requires
        1 <= size,
        size * size <= isize::MAX,
        is_interior(picture_width(*p), picture_height(*p), size as nat, x as int, y as int),
    ensures
        sample_cells(r) == window_of(*p, x as int, y as int, c, size as nat),
{
    assert(size <= size * size) by (nonlinear_arith)
        requires
            1 <= size,
    ;
    let half: u32 = (size / 2) as u32;
    let mut buf = sample_grid_zeros(size, size);
    let ghost target = window_of(*p, x as int, y as int, c, size as nat);
    let mut i: usize = 0;
    while i < size
        invariant
            1 <= size,
            half == size / 2,
            is_interior(picture_width(*p), picture_height(*p), size as nat, x as int, y as int),
            target == window_of(*p, x as int, y as int, c, size as nat),
            i <= size,
            sample_cells(buf).len() == size,
            forall|a: int| 0 <= a < size ==> #[trigger] sample_cells(buf)[a].len() == size,
            forall|a: int, b: int|
                0 <= a < i && 0 <= b < size ==> #[trigger] sample_cells(buf)[a][b] == target[a][b],
        decreases size - i,
    {
        let mut j: usize = 0;
        while j < size
            invariant
                1 <= size,
                half == size / 2,
                is_interior(
                    picture_width(*p),
                    picture_height(*p),
                    size as nat,
                    x as int,
                    y as int,
                ),
                target == window_of(*p, x as int, y as int, c, size as nat),
                i < size,
                j <= size,
                sample_cells(buf).len() == size,
                forall|a: int| 0 <= a < size ==> #[trigger] sample_cells(buf)[a].len() == size,
                forall|a: int, b: int|
                    0 <= a < i && 0 <= b < size ==> #[trigger] sample_cells(buf)[a][b]
                        == target[a][b],
                forall|b: int| 0 <= b < j ==> #[trigger] sample_cells(buf)[i as int][b] == target[i as int][b],
            decreases size - j,
        {
            assert(size - 1 <= 2 * (size / 2));
            assert(x - half + i < picture_width(*p));
            assert(y - half + j < picture_height(*p));
            let sx: u32 = x - half + i as u32;
            let sy: u32 = y - half + j as u32;
            let v = p.sample(sx, sy, c);
            sample_grid_set(&mut buf, i, j, v);
            j += 1;
        }
        i += 1;
    }
    proof {
        assert forall|a: int| 0 <= a < size implies #[trigger] sample_cells(buf)[a] =~= target[a] by {}
        assert(sample_cells(buf) =~= target);
    }
    buf
}

/// Convolves channel `c` at `(x, y)` with kernel `k`: the sum of each
/// window sample times its integer weight, divided by the kernel's
/// denominator and rounded down. The sum is exact, so the result is the
/// floor of the true weighted average; a floating-point sum of the
/// normalised weights could fall just below a whole number and truncate one
/// lower, which this never does.
pub fn convolve_pixel(p: &Picture, x: u32, y: u32, c: Channel, k: &Kernel) -> (r: u8)
    requires
        k.wf(),
        is_interior(picture_width(*p), picture_height(*p), k.size as nat, x as int, y as int),
    ensures
        r as int == weighted_average(*p, x as int, y as int, c, *k),
{
    let n = k.size;
    assert(n * n <= MAX_KERNEL_SIZE * MAX_KERNEL_SIZE) by (nonlinear_arith)
        requires
            n <= MAX_KERNEL_SIZE,
    ;
    let win = window(p, x, y, c, n);
    let ghost w = k.cells();
    let ghost s = sample_cells(win);
    let mut sum: u128 = 0;
    let mut i: usize = 0;
    while i < n
        invariant
            k.wf(),
            n == k.size,
            w == k.cells(),
            s == sample_cells(win),
            s == window_of(*p, x as int, y as int, c, n as nat),
            i <= n,
            sum == grid_dot(w, s, i as int),
        decreases n - i,
    {
        let mut j: usize = 0;
        while j < n
            invariant
                k.wf(),
                n == k.size,
                w == k.cells(),
                s == sample_cells(win),
                s == window_of(*p, x as int, y as int, c, n as nat),
                i < n,
                j <= n,
                sum == grid_dot(w, s, i as int) + row_dot(w[i as int], s[i as int], j as int),
            decreases n - j,
        {
            let v = sample_grid_get(&win, i, j);
            let wt = weight_grid_get(&k.weights, i, j);
            proof {
                lemma_grid_dot_bound(w, s, i as int);
                lemma_row_dot_bound(w[i as int], s[i as int], j + 1);
                lemma_row_total_monotone(w[i as int], j + 1, n as int);
                lemma_grid_total_monotone(w, i + 1, n as int);
                assert(v as int * wt as int <= 255 * 0x1_0000_0000_0000_0000) by (nonlinear_arith)
                    requires
                        v <= 255,
                        wt <= 0xffff_ffff_ffff_ffff,
                ;
                assert(w[i as int].len() == n);
                assert(v as int * wt as int == wt as int * v as int) by (nonlinear_arith);
                assert(row_dot(w[i as int], s[i as int], j + 1) == row_dot(
                    w[i as int],
                    s[i as int],
                    j as int,
                ) + wt * v);
                assert(grid_total(w, i + 1) == grid_total(w, i as int) + row_total(
                    w[i as int],
                    n as int,
                ));
            }
            sum = sum + (v as u128) * (wt as u128);
            j += 1;
        }
        i += 1;
    }
    let d = k.denominator;
    proof {
        lemma_grid_dot_bound(w, s, n as int);
        assert(sum / d <= 255) by (nonlinear_arith)
            requires
                sum <= 255 * d,
                d > 0,
        ;
    }
    (sum / d) as u8
}

/// Blurs `p` with kernel `k`: each pixel where the whole kernel fits
/// inside the picture gets the convolution of each of its channels, and
/// every other pixel is black.
pub fn blur(p: &Picture, k: &Kernel) -> (r: Picture)
    requires
        k.wf(),
    ensures
        picture_width(r) == picture_width(*p),
        picture_height(r) == picture_height(*p),
        picture_pixels(r) == blurred_pixels(*p, *k),
{
    let (width, height) = p.dimensions();
    let half: u32 = (k.size / 2) as u32;
    let mut out = Picture::new(width, height);
    let mut y: u32 = 0;
    while y < height
        invariant
            k.wf(),
            half == k.size / 2,
            width == picture_width(*p),
            height == picture_height(*p),
            picture_width(out) == width,
            picture_height(out) == height,
            y <= height,
            picture_pixels(out) == Map::new(
                |q: (int, int)| in_bounds(width, height, q.0, q.1),
                |q: (int, int)| if q.1 < y {
                    blurred_pixel(*p, *k, q.0, q.1)
                } else {
                    black()
                },
            ),
        decreases height - y,
    {
        let mut x: u32 = 0;
        while x < width
            invariant
                k.wf(),
                half == k.size / 2,
                width == picture_width(*p),
                height == picture_height(*p),
                picture_width(out) == width,
                picture_height(out) == height,
                y < height,
                x <= width,
                picture_pixels(out) == Map::new(
                    |q: (int, int)| in_bounds(width, height, q.0, q.1),
                    |q: (int, int)| if q.1 < y || (q.1 == y && q.0 < x) {
                        blurred_pixel(*p, *k, q.0, q.1)
                    } else {
                        black()
                    },
                ),
            decreases width - x,
        {
            if half <= x && half < width && x < width - half && half <= y && half < height && y
                < height - half {
                let red = convolve_pixel(p, x, y, Channel::Red, k);
                let green = convolve_pixel(p, x, y, Channel::Green, k);
                let blue = convolve_pixel(p, x, y, Channel::Blue, k);
                out.put_pixel(x, y, red, green, blue);
            }
            proof {
                assert(picture_pixels(out) =~= Map::new(
                    |q: (int, int)| in_bounds(width, height, q.0, q.1),
                    |q: (int, int)| if q.1 < y || (q.1 == y && q.0 < x + 1) {
                        blurred_pixel(*p, *k, q.0, q.1)
                    } else {
                        black()
                    },
                ));
            }
            x += 1;
        }
        proof {
            assert(picture_pixels(out) =~= Map::new(
                |q: (int, int)| in_bounds(width, height, q.0, q.1),
                |q: (int, int)| if q.1 < y + 1 {
                    blurred_pixel(*p, *k, q.0, q.1)
                } else {
                    black()
                },
            ));
        }
        y += 1;
    }
    proof {
        assert(picture_pixels(out) =~= blurred_pixels(*p, *k));
    }
    out
}

proof fn lemma_row_dot_constant(ws: Seq<u64>, ss: Seq<u8>, v: u8, n: int)
    requires
        0 <= n <= ws.len(),
        n <= ss.len(),
        forall|j: int| 0 <= j < n ==> #[trigger] ss[j] == v,
    ensures
        row_dot(ws, ss, n) == v * row_total(ws, n),
    decreases n,
{
    if n > 0 {
        lemma_row_dot_constant(ws, ss, v, n - 1);
        let a = ws[n - 1] as int;
        let t = row_total(ws, n - 1);
        assert(v * t + a * v == v * (t + a)) by (nonlinear_arith);
    }
}

proof fn lemma_grid_dot_constant(w: Seq<Seq<u64>>, s: Seq<Seq<u8>>, v: u8, n: int)
    requires
        0 <= n <= w.len(),
        n <= s.len(),
        forall|i: int| 0 <= i < n ==> #[trigger] w[i].len() <= s[i].len(),
        forall|i: int, j: int| 0 <= i < n && 0 <= j < w[i].len() ==> #[trigger] s[i][j] == v,
    ensures
        grid_dot(w, s, n) == v * grid_total(w, n),
    decreases n,
{
    if n > 0 {
        lemma_grid_dot_constant(w, s, v, n - 1);
        let i = n - 1;
        assert forall|j: int| 0 <= j < w[i].len() implies #[trigger] s[i][j] == v by {}
        lemma_row_dot_constant(w[i], s[i], v, w[i].len() as int);
        let t = grid_total(w, n - 1);
        let u = row_total(w[i], w[i].len() as int);
        assert(v * t + v * u == v * (t + u)) by (nonlinear_arith);
    }
}

proof fn lemma_uniform_channel(p: Picture, k: Kernel, color: (u8, u8, u8), x: int, y: int, c: Channel)
    requires
        k.wf(),
        forall|q: (int, int)|
            in_bounds(picture_width(p), picture_height(p), q.0, q.1) ==> #[trigger] picture_pixels(
                p,
            )[q] == color,
        is_interior(picture_width(p), picture_height(p), k.size as nat, x, y),
    ensures
        weighted_average(p, x, y, c, k) == channel_of(color, c),
{
    let n = k.size as nat;
    let s = window_of(p, x, y, c, n);
    let v = channel_of(color, c);
    assert forall|i: int, j: int| 0 <= i < n && 0 <= j < k.cells()[i].len() implies #[trigger] s[i][j]
        == v by {
        assert(in_bounds(picture_width(p), picture_height(p), x + i - n / 2, y + j - n / 2));
    }
    lemma_grid_dot_constant(k.cells(), s, v, n as int);
    vstd::arithmetic::div_mod::lemma_div_multiples_vanish(v as int, k.denominator as int);
    assert(v * k.denominator == k.denominator * v) by (nonlinear_arith);
}

/// Blurring a picture whose pixels all have one colour leaves that colour
/// at every pixel where the kernel fits: a weighted average of a constant
/// is the constant.
pub proof fn lemma_uniform_picture_unchanged(p: Picture, k: Kernel, color: (u8, u8, u8), x: int, y: int)
    requires
        k.wf(),
        forall|q: (int, int)|
            in_bounds(picture_width(p), picture_height(p), q.0, q.1) ==> #[trigger] picture_pixels(
                p,
            )[q] == color,
        is_interior(picture_width(p), picture_height(p), k.size as nat, x, y),
    ensures
        blurred_pixel(p, k, x, y) == color,
{
    lemma_uniform_channel(p, k, color, x, y, Channel::Red);
    lemma_uniform_channel(p, k, color, x, y, Channel::Green);
    lemma_uniform_channel(p, k, color, x, y, Channel::Blue);
}

proof fn lemma_row_dot_unit(ws: Seq<u64>, ss: Seq<u8>, h: int, n: int)
    requires
        0 <= n <= ws.len(),
        n <= ss.len(),
        forall|j: int| 0 <= j < ws.len() ==> #[trigger] ws[j] == (if j == h {
            1u64
        } else {
            0u64
        }),
    ensures
        row_dot(ws, ss, n) == (if 0 <= h < n {
            ss[h] as int
        } else {
            0int
        }),
    decreases n,
{
    if n > 0 {
        lemma_row_dot_unit(ws, ss, h, n - 1);
        let b = ss[n - 1] as int;
        if n - 1 == h {
            assert(ws[n - 1] == 1u64);
            assert(1 * b == b);
        } else {
            assert(ws[n - 1] == 0u64);
            assert(0 * b == 0);
        }
    }
}

proof fn lemma_identity_dot(w: Seq<Seq<u64>>, s: Seq<Seq<u8>>, size: nat, n: int)
    requires
        is_identity(w, size),
        0 <= n <= size,
        s.len() == size,
        forall|i: int| 0 <= i < size ==> #[trigger] s[i].len() == size,
    ensures
        grid_dot(w, s, n) == (if size / 2 < n {
            s[(size / 2) as int][(size / 2) as int] as int
        } else {
            0int
        }),
    decreases n,
{
    if n > 0 {
        lemma_identity_dot(w, s, size, n - 1);
        let i = n - 1;
        let h: int = if i == size / 2 {
            (size / 2) as int
        } else {
            -1
        };
        assert forall|j: int| 0 <= j < w[i].len() implies #[trigger] w[i][j] == (if j == h {
            1u64
        } else {
            0u64
        }) by {
            assert(w[i][j] == (if i == size / 2 && j == size / 2 {
                1u64
            } else {
                0u64
            }));
        }
        lemma_row_dot_unit(w[i], s[i], h, size as int);
    }
}

proof fn lemma_identity_channel(p: Picture, k: Kernel, x: int, y: int, c: Channel)
    requires
        k.wf(),
        is_identity(k.cells(), k.size as nat),
        is_interior(picture_width(p), picture_height(p), k.size as nat, x, y),
    ensures
        weighted_average(p, x, y, c, k) == sample_of(p, x, y, c),
{
    let n = k.size as nat;
    let s = window_of(p, x, y, c, n);
    let h = (n / 2) as int;
    lemma_identity_dot(k.cells(), s, n, n as int);
    lemma_identity_total(k.cells(), n, n as int);
    assert(k.denominator == 1);
    assert(s[h][h] == sample_of(p, x, y, c));
    assert(grid_dot(k.cells(), s, n as int) == s[h][h] as int);
}

/// Blurring with the identity kernel leaves every pixel where the kernel
/// fits exactly as it was.
pub proof fn lemma_identity_kernel_unchanged(p: Picture, k: Kernel, x: int, y: int)
    requires
        k.wf(),
        is_identity(k.cells(), k.size as nat),
        is_interior(picture_width(p), picture_height(p), k.size as nat, x, y),
    ensures
        blurred_pixel(p, k, x, y) == picture_pixels(p)[(x, y)],
{
    lemma_identity_channel(p, k, x, y, Channel::Red);
    lemma_identity_channel(p, k, x, y, Channel::Green);
    lemma_identity_channel(p, k, x, y, Channel::Blue);
}

} // verus!
