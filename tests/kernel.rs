use gaussian_blur::kernel::{build_kernel, pascal_row, Kernel, KernelError, MAX_KERNEL_SIZE};

fn coefficients(size: usize) -> Vec<u64> {
    let row = pascal_row(size);
    (0..size).map(|i| row.coefficient(i)).collect()
}

fn weights(k: &Kernel) -> Vec<Vec<u64>> {
    let n = k.size();
    (0..n).map(|i| (0..n).map(|j| k.weight(i, j)).collect()).collect()
}

#[test]
fn kernel_of_size_three_is_binomial_over_sixteen() {
    let k = build_kernel(3).unwrap();
    assert_eq!(k.size(), 3);
    assert_eq!(k.denominator(), 16);
    assert_eq!(weights(&k), vec![vec![1, 2, 1], vec![2, 4, 2], vec![1, 2, 1]]);
    let expected = [[1.0, 2.0, 1.0], [2.0, 4.0, 2.0], [1.0, 2.0, 1.0]];
    for i in 0..3 {
        for j in 0..3 {
            let w = k.weight(i, j) as f64 / k.denominator() as f64;
            assert!((w - expected[i][j] / 16.0).abs() < 1e-12);
        }
    }
}

#[test]
fn kernel_of_size_five_is_binomial_over_256() {
    let k = build_kernel(5).unwrap();
    assert_eq!(k.denominator(), 256);
    let row = [1u64, 4, 6, 4, 1];
    for i in 0..5 {
        for j in 0..5 {
            assert_eq!(k.weight(i, j), row[i] * row[j]);
        }
    }
}

#[test]
fn kernel_of_size_seven_has_denominator_4096() {
    let k = build_kernel(7).unwrap();
    assert_eq!(k.denominator(), 4096);
    assert_eq!(k.weight(3, 3), 400);
    assert_eq!(k.weight(0, 6), 1);
}

#[test]
fn every_kernel_is_non_negative_and_sums_to_one() {
    let mut n = 3;
    while n <= MAX_KERNEL_SIZE {
        let k = build_kernel(n).unwrap();
        assert_eq!(k.size(), n);
        let mut total: u128 = 0;
        let mut ratio_sum = 0.0f64;
        for i in 0..n {
            for j in 0..n {
                assert_eq!(k.weight(i, j), k.weight(j, i));
                total += k.weight(i, j) as u128;
                ratio_sum += k.weight(i, j) as f64 / k.denominator() as f64;
            }
        }
        assert_eq!(total, k.denominator());
        assert_eq!(k.denominator(), 1u128 << (2 * (n - 1)));
        assert!((ratio_sum - 1.0).abs() < 1e-9);
        n += 2;
    }
}

#[test]
fn even_or_small_sizes_are_rejected() {
    for n in [0usize, 1, 2, 4, 6, 30, 32] {
        assert_eq!(build_kernel(n).err(), Some(KernelError::InvalidKernelSize));
        assert_eq!(Kernel::identity(n).err(), Some(KernelError::InvalidKernelSize));
    }
}

#[test]
fn sizes_above_the_largest_are_rejected() {
    assert_eq!(build_kernel(33).err(), Some(KernelError::KernelTooLarge));
    assert_eq!(build_kernel(101).err(), Some(KernelError::KernelTooLarge));
    assert!(build_kernel(MAX_KERNEL_SIZE).is_ok());
}

#[test]
fn pascal_rows_hold_binomial_coefficients() {
    assert_eq!(coefficients(1), vec![1]);
    assert_eq!(coefficients(3), vec![1, 2, 1]);
    assert_eq!(coefficients(5), vec![1, 4, 6, 4, 1]);
    assert_eq!(coefficients(7), vec![1, 6, 15, 20, 15, 6, 1]);
    let row = coefficients(31);
    assert_eq!(row.len(), 31);
    assert_eq!(row[15], 155_117_520);
    assert_eq!(row.iter().sum::<u64>(), 1u64 << 30);
    let wide = coefficients(41);
    assert_eq!(wide[20], 137_846_528_820);
    assert_eq!(wide.iter().sum::<u64>(), 1u64 << 40);
}

#[test]
fn identity_kernel_has_one_at_the_centre() {
    let k = Kernel::identity(5).unwrap();
    assert_eq!(k.denominator(), 1);
    for i in 0..5 {
        for j in 0..5 {
            let expected = if i == 2 && j == 2 { 1 } else { 0 };
            assert_eq!(k.weight(i, j), expected);
        }
    }
}
