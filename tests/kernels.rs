use membw::kernel::{scalar_read, scalar_write, simd_read, simd_read_from, simd_write, simd_write_from, Kernel};

fn identity(n: usize) -> Vec<u32> {
    (0..n).map(|i| i as u32).collect()
}

fn expected_identity_sum(n: usize, s: usize) -> u64 {
    if n == 0 {
        return 0;
    }
    (0..=((n - 1) / s)).map(|k| (k * s) as u64).sum()
}

#[test]
fn scalar_read_identity_buffer_sums_multiples_of_stride() {
    for &n in &[1usize, 2, 7, 16, 17, 100, 1000, 4099] {
        for &s in &[1usize, 2, 3, 4, 5, 16, 33, 5000] {
            let v = identity(n);
            assert_eq!(scalar_read(&v, s), expected_identity_sum(n, s), "n={} s={}", n, s);
        }
    }
}

#[test]
fn scalar_read_exact_value() {
    let v = identity(10);
    // positions 0, 3, 6, 9
    assert_eq!(scalar_read(&v, 3), 18);
}

#[test]
fn scalar_read_buffer_shorter_than_stride_reads_first_element_only() {
    let v = vec![7u32, 8, 9];
    assert_eq!(scalar_read(&v, 10), 7);
    let empty: Vec<u32> = Vec::new();
    assert_eq!(scalar_read(&empty, 4), 0);
}

#[test]
fn scalar_read_wraps_at_64_bits() {
    let v = vec![u32::MAX; 8];
    assert_eq!(scalar_read(&v, 1), 8 * (u32::MAX as u64));
}

#[test]
fn simd_read_equals_scalar_read_on_whole_groups() {
    for &s in &[1usize, 2, 3, 16] {
        for &m in &[1usize, 2, 5] {
            let v: Vec<u32> = (0..8 * s * m).map(|i| (i as u32).wrapping_mul(2654435761)).collect();
            assert_eq!(simd_read_from(&v, s, 0), scalar_read(&v, s), "s={} m={}", s, m);
        }
    }
}

#[test]
fn simd_read_leaves_out_exactly_the_tail() {
    for &(n, s) in &[(100usize, 3usize), (17, 2), (7, 1), (1000, 16), (129, 16)] {
        let v = identity(n);
        let scalar = scalar_read(&v, s);
        let simd = simd_read_from(&v, s, 0);
        let touches = (n - 1) / s + 1;
        let covered = touches / 8 * 8;
        let tail: u64 = (covered..touches).map(|k| v[k * s] as u64).sum();
        assert!(simd <= scalar);
        assert_eq!(scalar - simd, tail, "n={} s={}", n, s);
    }
}

#[test]
fn simd_read_exact_value_with_tail() {
    let v = identity(20);
    // stride 2: touches 0,2,...,18 (ten); the first eight are covered
    assert_eq!(simd_read_from(&v, 2, 0), 2 * (0..8).sum::<u64>());
    assert_eq!(scalar_read(&v, 2), 90);
}

#[test]
fn simd_read_with_offset_zero_fills_out_of_range_lanes() {
    let v = identity(16);
    // stride 2, offset 1: lanes at 1,3,...,15, all in range
    assert_eq!(simd_read_from(&v, 2, 1), 1 + 3 + 5 + 7 + 9 + 11 + 13 + 15);
    // length 15: the last lane (15) falls past the end and reads zero
    let w = identity(15);
    assert_eq!(simd_read_from(&w, 2, 1), 1 + 3 + 5 + 7 + 9 + 11 + 13);
}

#[test]
fn simd_read_random_offset_on_constant_buffer() {
    let s = 4;
    let v = vec![5u32; 8 * s * 3];
    for _ in 0..20 {
        assert_eq!(simd_read(&v, s), 24 * 5);
    }
}

fn check_written(before: &[u32], after: &[u32], touched: &dyn Fn(usize) -> bool) {
    assert_eq!(before.len(), after.len());
    for i in 0..after.len() {
        if touched(i) {
            assert_eq!(after[i], (i as u32).wrapping_mul(7), "position {}", i);
        } else {
            assert_eq!(after[i], before[i], "position {}", i);
        }
    }
}

#[test]
fn scalar_write_stores_index_values_at_touched_positions() {
    for &(n, s) in &[(100usize, 3usize), (64, 1), (10, 20), (1001, 16)] {
        let before: Vec<u32> = (0..n).map(|i| (i as u32) ^ 0xdead_beef).collect();
        let mut buf = before.clone();
        let sum = scalar_write(&mut buf, s);
        check_written(&before, &buf, &|i| i % s == 0);
        let expected: u64 = (0..n).step_by(s).map(|i| (i as u32).wrapping_mul(7) as u64).sum();
        assert_eq!(sum, expected);
    }
}

#[test]
fn scalar_write_exact_value() {
    let mut buf = vec![1u32; 7];
    assert_eq!(scalar_write(&mut buf, 3), 0 + 21 + 42);
    assert_eq!(buf, vec![0, 1, 1, 21, 1, 1, 42]);
}

#[test]
fn simd_write_stores_index_values_on_whole_groups() {
    let n = 100;
    let s = 3;
    let before = vec![9u32; n];
    let mut buf = before.clone();
    let sum = simd_write_from(&mut buf, s, 0);
    // 34 touches; the first 32 are covered
    check_written(&before, &buf, &|i| i % s == 0 && i / s < 32);
    let expected: u64 = (0..32).map(|k| ((k * s) as u32).wrapping_mul(7) as u64).sum();
    assert_eq!(sum, expected);
}

#[test]
fn simd_write_with_offset_skips_lanes_past_the_end() {
    let mut buf = vec![0u32; 15];
    let sum = simd_write_from(&mut buf, 2, 1);
    assert_eq!(sum, 7 * (1 + 3 + 5 + 7 + 9 + 11 + 13));
    assert_eq!(buf[13], 91);
    assert_eq!(buf[14], 0);
}

#[test]
fn write_kernels_agree_and_are_idempotent() {
    let n = 8 * 16 * 4;
    let s = 16;
    let mut a: Vec<u32> = (0..n).map(|i| i as u32 * 31).collect();
    let mut b = vec![0xffff_ffffu32; n];
    let ra = scalar_write(&mut a, s);
    let rb = simd_write_from(&mut b, s, 0);
    assert_eq!(ra, rb);
    for i in (0..n).step_by(s) {
        assert_eq!(a[i], b[i]);
        assert_eq!(a[i], (i as u32).wrapping_mul(7));
    }
    let again = a.clone();
    scalar_write(&mut a, s);
    assert_eq!(a, again);
}

#[test]
fn simd_write_random_offset_writes_index_values() {
    let s = 8;
    let n = 8 * s * 2;
    let before = vec![3u32; n];
    let mut buf = before.clone();
    let sum = simd_write(&mut buf, s);
    let changed: Vec<usize> = (0..n).filter(|&i| buf[i] != before[i]).collect();
    let mut total = 0u64;
    for i in 0..n {
        if buf[i] != before[i] {
            assert_eq!(buf[i], (i as u32).wrapping_mul(7));
            total += buf[i] as u64;
        }
    }
    assert_eq!(changed.len(), 16);
    assert_eq!(sum, total);
}

#[test]
fn kernel_run_dispatches() {
    let v = identity(64);
    let mut a = v.clone();
    assert_eq!(Kernel::ScalarRead.run(&mut a, 4), scalar_read(&v, 4));
    assert_eq!(a, v);
    let mut b = v.clone();
    let r = Kernel::ScalarWrite.run(&mut b, 4);
    let mut c = v.clone();
    assert_eq!(r, scalar_write(&mut c, 4));
    assert_eq!(b, c);
    let mut d = vec![2u32; 64];
    assert_eq!(Kernel::SimdRead.run(&mut d, 4), 16 * 2);
    let mut e = vec![0u32; 64];
    Kernel::SimdWrite.run(&mut e, 4);
    assert!(e.iter().enumerate().all(|(i, &x)| x == 0 || x == (i as u32) * 7));
}

#[test]
fn kernel_kinds() {
    assert!(Kernel::ScalarWrite.is_write());
    assert!(Kernel::SimdWrite.is_write());
    assert!(!Kernel::SimdRead.is_write());
    assert!(Kernel::SimdRead.is_simd());
    assert!(!Kernel::ScalarRead.is_simd());
}
