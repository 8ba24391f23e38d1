//! Strided access kernels over a buffer of `u32` elements.
//!
//! Every kernel touches the positions `offset, offset + stride, offset + 2 * stride, ...`
//! and returns a checksum: the touched values summed with wrapping 64-bit addition.
use vstd::prelude::*;
use vstd::arithmetic::div_mod::*;
use vstd::arithmetic::mul::*;
use crate::random::random_below;

verus! {

/// `2^64`: checksums wrap at this modulus.
pub open spec fn checksum_modulus() -> int {
    0x1_0000_0000_0000_0000
}

/// An exact sum reduced the way a wrapping `u64` accumulator reduces it.
pub open spec fn wrap64(x: int) -> int {
    x % checksum_modulus()
}

/// Number of positions `j * stride` (for `j = 0, 1, ...`) that lie below `len`.
pub open spec fn touch_count(len: int, stride: int) -> int {
    (len + stride - 1) / stride
}

/// The value at position `p`, or zero where `p` lies outside the buffer
/// (what a masked gather yields for an out-of-range lane).
pub open spec fn lane_value(s: Seq<u32>, p: int) -> int {
    if 0 <= p < s.len() {
        s[p] as int
    } else {
        0
    }
}

/// Exact sum of the values at positions `j * stride + offset` for `j < n`.
pub open spec fn strided_sum(s: Seq<u32>, stride: int, offset: int, n: nat) -> int
    decreases n,
{
    if n == 0 {
        0
    } else {
        strided_sum(s, stride, offset, (n - 1) as nat) + lane_value(s, (n - 1) * stride + offset)
    }
}

/// `j < touch_count(len, stride)` holds exactly when position `j * stride` is below `len`.
pub proof fn lemma_touch_count(len: int, stride: int, j: int)
    requires
        len >= 0,
        stride > 0,
        j >= 0,
    ensures
        j < touch_count(len, stride) <==> j * stride < len,
{
    let q = touch_count(len, stride);
    lemma_fundamental_div_mod(len + stride - 1, stride);
    lemma_mod_bound(len + stride - 1, stride);
    let r = (len + stride - 1) % stride;
    assert(len + stride - 1 == stride * q + r);
    if j < q {
        lemma_mul_inequality(j, q - 1, stride);
        assert((q - 1) * stride == q * stride - stride) by (nonlinear_arith);
    }
    if j * stride < len {
        assert((j + 1) * stride == j * stride + stride) by (nonlinear_arith);
        assert(j + 1 <= q) by (nonlinear_arith)
            requires
                (j + 1) * stride <= stride * q + r,
                r < stride,
                stride > 0,
        ;
    }
}

/// One more touched position extends a wrapped strided sum by its value.
pub proof fn lemma_read_step(s: Seq<u32>, stride: int, n: nat, sum: int)
    requires
        0 <= n * stride < s.len(),
        sum == wrap64(strided_sum(s, stride, 0, n)),
    ensures
        wrap64(sum + s[n * stride] as int) == wrap64(strided_sum(s, stride, 0, n + 1)),
        (n + 1) * stride == n * stride + stride,
{
    lemma_mul_is_distributive_add_other_way(stride, n as int, 1);
    lemma_add_mod_noop(strided_sum(s, stride, 0, n), s[n * stride] as int, checksum_modulus());
    lemma_small_mod(s[n * stride] as nat, checksum_modulus() as nat);
    assert(strided_sum(s, stride, 0, n + 1) == strided_sum(s, stride, 0, n) + s[n * stride] as int);
}

/// The `j` with `j * stride >= len` whose predecessor position lies below `len`
/// is the number of touched positions.
pub proof fn lemma_touch_count_exact(len: int, stride: int, j: int)
    requires
        len >= 0,
        stride > 0,
        j >= 0,
        j * stride >= len,
        j == 0 || (j - 1) * stride < len,
    ensures
        j == touch_count(len, stride),
{
    lemma_touch_count(len, stride, j);
    if j > 0 {
        lemma_touch_count(len, stride, j - 1);
    } else {
        lemma_touch_count(len, stride, 0);
    }
}

/// Sums the values at positions `0, stride, 2 * stride, ...` below `slice.len()`
/// with wrapping 64-bit addition, four strided loads per step of the main loop.
pub fn scalar_read(slice: &[u32], stride: usize) -> (r: u64)
    requires
        stride > 0,
    ensures
        r as int == wrap64(strided_sum(slice@, stride as int, 0, touch_count(slice@.len() as int, stride as int) as nat)),
{
    let len = slice.len();
    let mut sum: u64 = 0;
    let mut i: usize = 0;
    let ghost mut j: nat = 0;
    while stride <= (len - i) / 4
        invariant
            stride > 0,
            i <= len,
            len == slice@.len(),
            i == j * stride,
            j == 0 || (j - 1) * stride < len,
            sum as int == wrap64(strided_sum(slice@, stride as int, 0, j)),
        decreases len - i,
    {
        assert(stride * 4 <= len - i);
        proof {
            lemma_read_step(slice@, stride as int, j, sum as int);
        }
        sum = sum.wrapping_add(slice[i] as u64);
        i = i + stride;
        proof {
            j = j + 1;
        }
        proof {
            lemma_read_step(slice@, stride as int, j, sum as int);
        }
        sum = sum.wrapping_add(slice[i] as u64);
        i = i + stride;
        proof {
            j = j + 1;
        }
        proof {
            lemma_read_step(slice@, stride as int, j, sum as int);
        }
        sum = sum.wrapping_add(slice[i] as u64);
        i = i + stride;
        proof {
            j = j + 1;
        }
        proof {
            lemma_read_step(slice@, stride as int, j, sum as int);
        }
        sum = sum.wrapping_add(slice[i] as u64);
        i = i + stride;
        proof {
            j = j + 1;
        }
    }
    while i < len
        invariant_except_break
            i <= len,
            i == j * stride,
        invariant
            stride > 0,
            len == slice@.len(),
            sum as int == wrap64(strided_sum(slice@, stride as int, 0, j)),
            j == 0 || (j - 1) * stride < len,
        ensures
            j * stride >= len,
        decreases len - i,
    {
        proof {
            lemma_read_step(slice@, stride as int, j, sum as int);
        }
        sum = sum.wrapping_add(slice[i] as u64);
        proof {
            j = j + 1;
        }
        if len - i <= stride {
            break;
        }
        i = i + stride;
    }
    proof {
        lemma_touch_count_exact(len as int, stride as int, j as int);
    }
    sum
}

/// The value a write kernel stores at position `p`: `p * 7` reduced modulo `2^32`.
pub open spec fn write_value(p: int) -> u32 {
    ((p * 7) % 0x1_0000_0000) as u32
}

/// Whether `p` is one of the positions `j * stride + offset` with `j < n`.
pub open spec fn touched(p: int, stride: int, offset: int, n: int) -> bool {
    p >= offset && (p - offset) % stride == 0 && (p - offset) / stride < n
}

/// The buffer `s` after the positions `j * stride + offset` (`j < n`) that lie in it
/// were overwritten with their write values.
pub open spec fn written(s: Seq<u32>, stride: int, offset: int, n: int) -> Seq<u32> {
    Seq::new(s.len(), |p: int| if touched(p, stride, offset, n) { write_value(p) } else { s[p] })
}

/// Exact sum of the write values of the positions `j * stride + offset` (`j < n`)
/// that lie below `len`.
pub open spec fn written_sum(len: int, stride: int, offset: int, n: nat) -> int
    decreases n,
{
    if n == 0 {
        0
    } else {
        let p = (n - 1) * stride + offset;
        written_sum(len, stride, offset, (n - 1) as nat) + if p < len {
            write_value(p) as int
        } else {
            0
        }
    }
}

/// The position set grows by exactly `n * stride + offset` from `n` to `n + 1`.
pub proof fn lemma_touched_step(p: int, stride: int, offset: int, n: int)
    requires
        stride > 0,
        n >= 0,
    ensures
        touched(p, stride, offset, n + 1) == (touched(p, stride, offset, n) || p == n * stride + offset),
{
    let d = p - offset;
    if d == n * stride {
        lemma_mod_multiples_basic(n, stride);
        lemma_div_multiples_vanish(n, stride);
    }
    if d >= 0 && d % stride == 0 {
        lemma_fundamental_div_mod(d, stride);
        if d / stride == n {
            assert(d == n * stride) by (nonlinear_arith)
                requires
                    d == stride * (d / stride) + d % stride,
                    d % stride == 0,
                    d / stride == n,
            ;
        }
    }
}

/// Writing one more position extends the written buffer and the wrapped checksum.
pub proof fn lemma_write_step(old_s: Seq<u32>, s: Seq<u32>, stride: int, offset: int, n: nat, sum: int)
    requires
        stride > 0,
        offset >= 0,
        s == written(old_s, stride, offset, n as int),
        sum == wrap64(written_sum(old_s.len() as int, stride, offset, n)),
    ensures
        n * stride + offset < old_s.len() ==> s.update(n * stride + offset, write_value(n * stride + offset))
            == written(old_s, stride, offset, n + 1 as int),
        n * stride + offset < old_s.len() ==> wrap64(sum + write_value(n * stride + offset) as int)
            == wrap64(written_sum(old_s.len() as int, stride, offset, n + 1)),
        n * stride + offset >= old_s.len() ==> s == written(old_s, stride, offset, n + 1 as int),
        n * stride + offset >= old_s.len() ==> sum == wrap64(written_sum(old_s.len() as int, stride, offset, n + 1)),
        (n + 1) * stride == n * stride + stride,
{
    lemma_mul_is_distributive_add_other_way(stride, n as int, 1);
    let p = n * stride + offset;
    assert forall|q: int| 0 <= q < old_s.len() implies touched(q, stride, offset, n + 1 as int) == (touched(q, stride, offset, n as int) || q == p) by {
        lemma_touched_step(q, stride, offset, n as int);
    }
    if p < old_s.len() {
        assert forall|q: int| 0 <= q < old_s.len() implies #[trigger] s.update(p, write_value(p))[q]
            == written(old_s, stride, offset, n + 1 as int)[q] by {
            lemma_touched_step(q, stride, offset, n as int);
            if q == p {
                assert(touched(q, stride, offset, n + 1 as int));
            }
        }
        assert(s.update(p, write_value(p)) =~= written(old_s, stride, offset, n + 1 as int));
        lemma_add_mod_noop(written_sum(old_s.len() as int, stride, offset, n), write_value(p) as int, checksum_modulus());
        lemma_small_mod(write_value(p) as nat, checksum_modulus() as nat);
    } else {
        assert(s =~= written(old_s, stride, offset, n + 1 as int));
    }
}

/// `(p as u32).wrapping_mul(7)` is the write value of `p`.
pub proof fn lemma_write_value(p: int)
    requires
        p >= 0,
    ensures
        ((p % 0x1_0000_0000) * 7) % 0x1_0000_0000 == (p * 7) % 0x1_0000_0000,
{
    lemma_mul_mod_noop_left(p, 7, 0x1_0000_0000);
}

/// Stores the write value of position `i` there and returns it.
fn store_write_value(slice: &mut [u32], i: usize) -> (val: u32)
    requires
        i < old(slice)@.len(),
    ensures
        val == write_value(i as int),
        final(slice)@ == old(slice)@.update(i as int, val),
{
    proof {
        lemma_write_value(i as int);
    }
    let low = (i as u64 % 0x1_0000_0000) as u32;
    let val = low.wrapping_mul(7);
    slice[i] = val;
    val
}

/// Writes position `p = j * stride + offset`, the next one of a write kernel's run,
/// and adds its value to the running checksum.
fn write_touch(
    slice: &mut [u32],
    p: usize,
    sum: u64,
    stride: usize,
    offset: usize,
    Ghost(orig): Ghost<Seq<u32>>,
    Ghost(j): Ghost<nat>,
) -> (r: u64)
    requires
        stride > 0,
        p == j * stride + offset,
        p < old(slice)@.len(),
        orig.len() == old(slice)@.len(),
        old(slice)@ == written(orig, stride as int, offset as int, j as int),
        sum as int == wrap64(written_sum(orig.len() as int, stride as int, offset as int, j)),
    ensures
        final(slice)@ == written(orig, stride as int, offset as int, j + 1 as int),
        r as int == wrap64(written_sum(orig.len() as int, stride as int, offset as int, j + 1)),
{
    proof {
        lemma_write_step(orig, slice@, stride as int, offset as int, j, sum as int);
    }
    let val = store_write_value(slice, p);
    sum.wrapping_add(val as u64)
}

/// Stores `(i as u32) * 7` (wrapping) at every position `i = 0, stride, 2 * stride, ...`
/// below `slice.len()` and sums the stored values with wrapping 64-bit addition.
pub fn scalar_write(slice: &mut [u32], stride: usize) -> (r: u64)
    requires
        stride > 0,
    ensures
        final(slice)@ == written(old(slice)@, stride as int, 0, touch_count(old(slice)@.len() as int, stride as int)),
        r as int == wrap64(written_sum(old(slice)@.len() as int, stride as int, 0, touch_count(old(slice)@.len() as int, stride as int) as nat)),
{
    let len = slice.len();
    let ghost orig = slice@;
    let mut sum: u64 = 0;
    let mut i: usize = 0;
    let ghost mut j: nat = 0;
    proof {
        assert(slice@ =~= written(orig, stride as int, 0, 0));
    }
    while stride <= (len - i) / 4
        invariant
            stride > 0,
            i <= len,
            len == orig.len(),
            len == slice@.len(),
            i == j * stride,
            j == 0 || (j - 1) * stride < len,
            slice@ == written(orig, stride as int, 0, j as int),
            sum as int == wrap64(written_sum(len as int, stride as int, 0, j)),
        decreases len - i,
    {
        assert(stride * 4 <= len - i);
        sum = write_touch(slice, i, sum, stride, 0, Ghost(orig), Ghost(j));
        proof {
            lemma_mul_is_distributive_add_other_way(stride as int, j as int, 1);
        }
        i = i + stride;
        proof {
            j = j + 1;
        }
        sum = write_touch(slice, i, sum, stride, 0, Ghost(orig), Ghost(j));
        proof {
            lemma_mul_is_distributive_add_other_way(stride as int, j as int, 1);
        }
        i = i + stride;
        proof {
            j = j + 1;
        }
        sum = write_touch(slice, i, sum, stride, 0, Ghost(orig), Ghost(j));
        proof {
            lemma_mul_is_distributive_add_other_way(stride as int, j as int, 1);
        }
        i = i + stride;
        proof {
            j = j + 1;
        }
        sum = write_touch(slice, i, sum, stride, 0, Ghost(orig), Ghost(j));
        proof {
            lemma_mul_is_distributive_add_other_way(stride as int, j as int, 1);
        }
        i = i + stride;
        proof {
            j = j + 1;
        }
    }
    while i < len
        invariant_except_break
            i <= len,
            i == j * stride,
        invariant
            stride > 0,
            len == orig.len(),
            len == slice@.len(),
            slice@ == written(orig, stride as int, 0, j as int),
            sum as int == wrap64(written_sum(len as int, stride as int, 0, j)),
            j == 0 || (j - 1) * stride < len,
        ensures
            j * stride >= len,
        decreases len - i,
    {
        sum = write_touch(slice, i, sum, stride, 0, Ghost(orig), Ghost(j));
        proof {
            lemma_mul_is_distributive_add_other_way(stride as int, j as int, 1);
        }
        proof {
            j = j + 1;
        }
        if len - i <= stride {
            break;
        }
        i = i + stride;
    }
    proof {
        lemma_touch_count_exact(len as int, stride as int, j as int);
    }
    sum
}


/// Number of positions the vector kernels cover: the touches that fill whole
/// groups of eight lanes. The touches of a trailing partial group are left out.
pub open spec fn simd_touch_count(len: int, stride: int) -> int {
    (touch_count(len, stride) / 8) * 8
}

/// `touch_count` computed without overflow.
fn touches_below(len: usize, stride: usize) -> (t: usize)
    requires
        stride > 0,
    ensures
        t as int == touch_count(len as int, stride as int),
{
    if len == 0 {
        proof {
            lemma_touch_count_exact(0, stride as int, 0);
        }
        0
    } else {
        let t = (len - 1) / stride + 1;
        proof {
            lemma_touch_count_nonempty(len as int, stride as int);
        }
        t
    }
}

/// Gathers eight lanes per step from the positions `j * stride + offset` and sums
/// them; a lane that falls past the end of the buffer reads as zero. Only whole
/// groups of eight touches are processed, so the tail of touches that does not
/// fill a group is not counted.
pub fn simd_read_from(slice: &[u32], stride: usize, offset: usize) -> (r: u64)
    requires
        stride > 0,
        offset < stride,
    ensures
        r as int == wrap64(strided_sum(slice@, stride as int, offset as int,
            simd_touch_count(slice@.len() as int, stride as int) as nat)),
{
    let len = slice.len();
    let touches = touches_below(len, stride);
    let chunks = touches / 8;
    let mut sum: u64 = 0;
    let mut chunk: usize = 0;
    let mut p: usize = 0;
    let ghost mut j: nat = 0;
    while chunk < chunks
        invariant
            stride > 0,
            offset < stride,
            len == slice@.len(),
            touches == touch_count(len as int, stride as int),
            chunks == touches / 8,
            chunk <= chunks,
            j == 8 * chunk,
            chunk < chunks ==> p == j * stride,
            sum as int == wrap64(strided_sum(slice@, stride as int, offset as int, j)),
        decreases chunks - chunk,
    {
        let mut lane: usize = 0;
        let mut q: usize = p;
        let mut lanes_total: u64 = 0;
        while lane < 8
            invariant
                stride > 0,
                offset < stride,
                len == slice@.len(),
                touches == touch_count(len as int, stride as int),
                j + 8 <= touches,
                lane <= 8,
                lane < 8 ==> q == (j + lane) * stride,
                lane == 8 ==> q == (j + 7) * stride,
                lanes_total as int == strided_sum(slice@, stride as int, offset as int, (j + lane) as nat)
                    - strided_sum(slice@, stride as int, offset as int, j),
                lanes_total <= lane * 0xffff_ffff,
            decreases 8 - lane,
        {
            proof {
                lemma_touch_count(len as int, stride as int, j + lane);
                lemma_mul_is_distributive_add_other_way(stride as int, j + lane as int, 1);
                if lane + 1 < 8 {
                    lemma_touch_count(len as int, stride as int, j + lane + 1);
                }
            }
            let v: u32 = if offset < len - q {
                slice[q + offset]
            } else {
                0
            };
            lanes_total = lanes_total + v as u64;
            lane = lane + 1;
            if lane < 8 {
                q = q + stride;
            }
        }
        proof {
            lemma_add_mod_noop(strided_sum(slice@, stride as int, offset as int, j),
                lanes_total as int, checksum_modulus());
            lemma_small_mod(lanes_total as nat, checksum_modulus() as nat);
            lemma_mul_is_distributive_add_other_way(stride as int, j + 7 as int, 1);
        }
        sum = sum.wrapping_add(lanes_total);
        chunk = chunk + 1;
        proof {
            j = j + 8;
        }
        if chunk < chunks {
            proof {
                lemma_touch_count(len as int, stride as int, j as int);
            }
            p = q + stride;
        }
    }
    sum
}


/// Scatters the write values `(p as u32) * 7` (wrapping) to the positions
/// `p = j * stride + offset`, eight lanes per step, and sums the stored values with
/// wrapping 64-bit addition. A lane that falls past the end of the buffer is neither
/// stored nor counted; the trailing partial group of touches is not processed.
pub fn simd_write_from(slice: &mut [u32], stride: usize, offset: usize) -> (r: u64)
    requires
        stride > 0,
        offset < stride,
    ensures
        final(slice)@ == written(old(slice)@, stride as int, offset as int,
            simd_touch_count(old(slice)@.len() as int, stride as int)),
        r as int == wrap64(written_sum(old(slice)@.len() as int, stride as int, offset as int,
            simd_touch_count(old(slice)@.len() as int, stride as int) as nat)),
{
    let len = slice.len();
    let ghost orig = slice@;
    let touches = touches_below(len, stride);
    let chunks = touches / 8;
    let mut sum: u64 = 0;
    let mut chunk: usize = 0;
    let mut p: usize = 0;
    let ghost mut j: nat = 0;
    proof {
        assert(slice@ =~= written(orig, stride as int, offset as int, 0));
    }
    while chunk < chunks
        invariant
            stride > 0,
            offset < stride,
            len == orig.len(),
            len == slice@.len(),
            touches == touch_count(len as int, stride as int),
            chunks == touches / 8,
            chunk <= chunks,
            j == 8 * chunk,
            chunk < chunks ==> p == j * stride,
            slice@ == written(orig, stride as int, offset as int, j as int),
            sum as int == wrap64(written_sum(len as int, stride as int, offset as int, j)),
        decreases chunks - chunk,
    {
        let mut lane: usize = 0;
        let mut q: usize = p;
        while lane < 8
            invariant
                stride > 0,
                offset < stride,
                len == orig.len(),
                len == slice@.len(),
                touches == touch_count(len as int, stride as int),
                j + 8 <= touches,
                lane <= 8,
                lane < 8 ==> q == (j + lane) * stride,
                lane == 8 ==> q == (j + 7) * stride,
                slice@ == written(orig, stride as int, offset as int, j + lane as int),
                sum as int == wrap64(written_sum(len as int, stride as int, offset as int, (j + lane) as nat)),
            decreases 8 - lane,
        {
            proof {
                lemma_touch_count(len as int, stride as int, j + lane as int);
                lemma_mul_is_distributive_add_other_way(stride as int, j + lane as int, 1);
                if lane + 1 < 8 {
                    lemma_touch_count(len as int, stride as int, j + lane + 1);
                }
            }
            if offset < len - q {
                sum = write_touch(slice, q + offset, sum, stride, offset, Ghost(orig), Ghost((j + lane) as nat));
            } else {
                proof {
                    lemma_write_step(orig, slice@, stride as int, offset as int, (j + lane) as nat, sum as int);
                }
            }
            lane = lane + 1;
            if lane < 8 {
                q = q + stride;
            }
        }
        proof {
            lemma_mul_is_distributive_add_other_way(stride as int, j + 7 as int, 1);
        }
        chunk = chunk + 1;
        proof {
            j = j + 8;
        }
        if chunk < chunks {
            proof {
                lemma_touch_count(len as int, stride as int, j as int);
            }
            p = q + stride;
        }
    }
    sum
}


/// Like `simd_read_from`, with a lane offset drawn at random from `0..stride`:
/// the sampled byte within each cache line varies from run to run, the lines do not.
pub fn simd_read(slice: &[u32], stride: usize) -> (r: u64)
    requires
        stride > 0,
    ensures
        exists|offset: int|
            0 <= offset < stride && r as int == #[trigger] wrap64(
                strided_sum(slice@, stride as int, offset, simd_touch_count(slice@.len() as int, stride as int) as nat),
            ),
{
    let offset = random_below(stride);
    simd_read_from(slice, stride, offset)
}

/// Like `simd_write_from`, with a lane offset drawn at random from `0..stride`.
pub fn simd_write(slice: &mut [u32], stride: usize) -> (r: u64)
    requires
        stride > 0,
    ensures
        exists|offset: int|
            0 <= offset < stride && (final(slice)@, r as int) == #[trigger] Kernel::SimdWrite.outcome(
                old(slice)@, stride as int, offset),
{
    let offset = random_below(stride);
    let r = simd_write_from(slice, stride, offset);
    assert(Kernel::SimdWrite.outcome(old(slice)@, stride as int, offset as int) == (slice@, r as int));
    r
}

/// The access kernels.
#[derive(Clone, Copy, Debug, PartialEq, Eq)]
pub enum Kernel {
    /// Strided scalar loads.
    ScalarRead,
    /// Strided scalar stores.
    ScalarWrite,
    /// Strided loads, eight lanes at a time.
    SimdRead,
    /// Strided stores, eight lanes at a time.
    SimdWrite,
}

impl Kernel {
    /// The buffer left behind and the checksum returned by one run of the kernel on `s`,
    /// where the vector kernels place their lanes at `offset` past each strided position
    /// (the scalar kernels ignore it).
    pub open spec fn outcome(self, s: Seq<u32>, stride: int, offset: int) -> (Seq<u32>, int) {
        let len = s.len() as int;
        match self {
            Kernel::ScalarRead => (s, wrap64(strided_sum(s, stride, 0, touch_count(len, stride) as nat))),
            Kernel::ScalarWrite => (
                written(s, stride, 0, touch_count(len, stride)),
                wrap64(written_sum(len, stride, 0, touch_count(len, stride) as nat)),
            ),
            Kernel::SimdRead => (s, wrap64(strided_sum(s, stride, offset, simd_touch_count(len, stride) as nat))),
            Kernel::SimdWrite => (
                written(s, stride, offset, simd_touch_count(len, stride)),
                wrap64(written_sum(len, stride, offset, simd_touch_count(len, stride) as nat)),
            ),
        }
    }

    /// Whether the kernel stores into the buffer.
    pub open spec fn spec_is_write(self) -> bool {
        self == Kernel::ScalarWrite || self == Kernel::SimdWrite
    }

    /// Whether the kernel stores into the buffer.
    pub fn is_write(&self) -> (r: bool)
        ensures
            r == self.spec_is_write(),
    {
        match self {
            Kernel::ScalarWrite | Kernel::SimdWrite => true,
            Kernel::ScalarRead | Kernel::SimdRead => false,
        }
    }

    /// Whether the kernel works on eight lanes at a time.
    pub fn is_simd(&self) -> (r: bool)
        ensures
            r == (*self == Kernel::SimdRead || *self == Kernel::SimdWrite),
    {
        match self {
            Kernel::SimdRead | Kernel::SimdWrite => true,
            Kernel::ScalarRead | Kernel::ScalarWrite => false,
        }
    }

    /// Runs the kernel once over `slice`; the vector kernels draw their lane offset
    /// from `0..stride`.
    pub fn run(&self, slice: &mut [u32], stride: usize) -> (r: u64)
        requires
            stride > 0,
        ensures
            exists|offset: int|
                0 <= offset < stride && (final(slice)@, r as int) == #[trigger] self.outcome(
                    old(slice)@, stride as int, offset),
    {
        match self {
            Kernel::ScalarRead => {
                let r = scalar_read(slice, stride);
                assert(self.outcome(old(slice)@, stride as int, 0) == (slice@, r as int));
                r
            },
            Kernel::ScalarWrite => {
                let r = scalar_write(slice, stride);
                assert(self.outcome(old(slice)@, stride as int, 0) == (slice@, r as int));
                r
            },
            Kernel::SimdRead => {
                let r = simd_read(slice, stride);
                let ghost offset = choose|offset: int|
                    0 <= offset < stride && r as int == #[trigger] wrap64(
                        strided_sum(slice@, stride as int, offset, simd_touch_count(slice@.len() as int, stride as int) as nat),
                    );
                assert(self.outcome(old(slice)@, stride as int, offset) == (slice@, r as int));
                r
            },
            Kernel::SimdWrite => simd_write(slice, stride),
        }
    }
}


/// For a non-empty buffer, `touch_count` is `(len - 1) / stride + 1`.
pub proof fn lemma_touch_count_nonempty(len: int, stride: int)
    requires
        len > 0,
        stride > 0,
    ensures
        touch_count(len, stride) == (len - 1) / stride + 1,
{
    let q = (len - 1) / stride;
    let t = q + 1;
    lemma_fundamental_div_mod(len - 1, stride);
    lemma_mod_bound(len - 1, stride);
    assert(t * stride >= len && (t - 1) * stride < len) by (nonlinear_arith)
        requires
            t == q + 1,
            len - 1 == stride * q + (len - 1) % stride,
            0 <= (len - 1) % stride < stride,
    ;
    lemma_touch_count_exact(len, stride, t);
}

/// Exact sum of `k * stride` for `k < n`.
pub open spec fn multiples_sum(stride: int, n: nat) -> int
    decreases n,
{
    if n == 0 {
        0
    } else {
        multiples_sum(stride, (n - 1) as nat) + (n - 1) * stride
    }
}

/// On a buffer that holds its own positions, the first `n` touches sum to the first
/// `n` multiples of the stride.
pub proof fn lemma_identity_buffer_prefix(s: Seq<u32>, stride: int, n: nat)
    requires
        stride > 0,
        n <= touch_count(s.len() as int, stride),
        forall|i: int| 0 <= i < s.len() ==> #[trigger] s[i] as int == i,
    ensures
        strided_sum(s, stride, 0, n) == multiples_sum(stride, n),
    decreases n,
{
    if n > 0 {
        lemma_identity_buffer_prefix(s, stride, (n - 1) as nat);
        lemma_touch_count(s.len() as int, stride, n - 1);
        lemma_mul_nonnegative(n - 1, stride);
    }
}

/// On a buffer `v` of length `len > 0` with `v[i] == i`, the scalar read sums
/// `k * stride` for `k = 0 ..= (len - 1) / stride`, with nothing left out and
/// nothing counted twice.
pub proof fn lemma_scalar_read_identity_buffer(s: Seq<u32>, stride: int)
    requires
        stride > 0,
        s.len() > 0,
        forall|i: int| 0 <= i < s.len() ==> #[trigger] s[i] as int == i,
    ensures
        strided_sum(s, stride, 0, touch_count(s.len() as int, stride) as nat)
            == multiples_sum(stride, ((s.len() - 1) / stride + 1) as nat),
{
    lemma_touch_count_nonempty(s.len() as int, stride);
    lemma_identity_buffer_prefix(s, stride, touch_count(s.len() as int, stride) as nat);
}

/// Where the buffer length is a multiple of `8 * stride`, the vector kernels cover
/// every touch: the vector read at offset zero sums exactly what the scalar read sums.
pub proof fn lemma_simd_read_whole_groups(s: Seq<u32>, stride: int)
    requires
        stride > 0,
        (s.len() as int) % (8 * stride) == 0,
    ensures
        simd_touch_count(s.len() as int, stride) == touch_count(s.len() as int, stride),
        strided_sum(s, stride, 0, simd_touch_count(s.len() as int, stride) as nat)
            == strided_sum(s, stride, 0, touch_count(s.len() as int, stride) as nat),
{
    let len = s.len() as int;
    let m = len / (8 * stride);
    lemma_fundamental_div_mod(len, 8 * stride);
    assert(len == (8 * m) * stride) by (nonlinear_arith)
        requires
            len == (8 * stride) * m + len % (8 * stride),
            len % (8 * stride) == 0,
    ;
    lemma_div_pos_is_pos(len, 8 * stride);
    assert((8 * m - 1) * stride < len || m == 0) by (nonlinear_arith)
        requires
            len == (8 * m) * stride,
            stride > 0,
    ;
    lemma_touch_count_exact(len, stride, 8 * m);
}

/// Exact sum of the values at positions `(start + k) * stride` for `k < n`.
pub open spec fn strided_sum_from(s: Seq<u32>, stride: int, start: nat, n: nat) -> int
    decreases n,
{
    if n == 0 {
        0
    } else {
        strided_sum_from(s, stride, start, (n - 1) as nat) + lane_value(s, (start + n - 1) * stride)
    }
}

/// A strided sum over `a + b` touches splits into the first `a` and the next `b`.
pub proof fn lemma_strided_sum_split(s: Seq<u32>, stride: int, a: nat, b: nat)
    ensures
        strided_sum(s, stride, 0, a + b) == strided_sum(s, stride, 0, a) + strided_sum_from(s, stride, a, b),
        strided_sum_from(s, stride, a, b) >= 0,
    decreases b,
{
    if b > 0 {
        lemma_strided_sum_split(s, stride, a, (b - 1) as nat);
        assert((a + b - 1) as nat == a + (b - 1) as nat);
    }
}

/// The vector read at offset zero leaves out exactly the touches of the trailing partial
/// group: the scalar sum is the vector sum plus the values of those touches, so the
/// vector sum never exceeds it (and equals it when that group is empty).
pub proof fn lemma_simd_read_tail(s: Seq<u32>, stride: int)
    requires
        stride > 0,
    ensures
        0 <= simd_touch_count(s.len() as int, stride) <= touch_count(s.len() as int, stride),
        strided_sum(s, stride, 0, touch_count(s.len() as int, stride) as nat)
            == strided_sum(s, stride, 0, simd_touch_count(s.len() as int, stride) as nat)
                + strided_sum_from(s, stride, simd_touch_count(s.len() as int, stride) as nat,
                    (touch_count(s.len() as int, stride) - simd_touch_count(s.len() as int, stride)) as nat),
        strided_sum(s, stride, 0, simd_touch_count(s.len() as int, stride) as nat)
            <= strided_sum(s, stride, 0, touch_count(s.len() as int, stride) as nat),
{
    let len = s.len() as int;
    let t = touch_count(len, stride);
    lemma_div_pos_is_pos(len + stride - 1, stride);
    lemma_fundamental_div_mod(t, 8);
    let a = simd_touch_count(len, stride);
    lemma_strided_sum_split(s, stride, a as nat, (t - a) as nat);
    assert((a as nat + (t - a) as nat) as nat == t as nat);
}

/// The write kernels leave every position they touch holding its write value,
/// whatever the buffer held before.
pub proof fn lemma_written_ignores_prior_contents(s1: Seq<u32>, s2: Seq<u32>, stride: int, offset: int, n: int, p: int)
    requires
        s1.len() == s2.len(),
        0 <= p < s1.len(),
        touched(p, stride, offset, n),
    ensures
        written(s1, stride, offset, n)[p] == write_value(p),
        written(s1, stride, offset, n)[p] == written(s2, stride, offset, n)[p],
{
}

} // verus!
