//! The accounting model: how many cache lines one kernel run is taken to move,
//! and how many bytes a measurement therefore processed.
use vstd::prelude::*;
use crate::kernel::{touch_count, lemma_touch_count};

verus! {

/// Size in bytes of one buffer element.
pub const ELEMENT_SIZE: usize = 4;

/// Touches per kernel run, capped by the number of cache lines in the buffer:
/// `min(size / line_size, ceil(size / (stride_elements * ELEMENT_SIZE)))`.
/// Each touch is taken to fetch one distinct line, which overestimates traffic
/// for strides shorter than a line.
pub open spec fn spec_elements_per_iteration(size: int, stride_elements: int, line_size: int) -> int {
    let lines = size / line_size;
    let touches = touch_count(size, stride_elements * 4);
    if lines <= touches {
        lines
    } else {
        touches
    }
}

/// See `spec_elements_per_iteration`.
pub fn elements_per_iteration(size: usize, stride_elements: usize, line_size: usize) -> (r: usize)
    requires
        stride_elements > 0,
        line_size > 0,
    ensures
        r as int == spec_elements_per_iteration(size as int, stride_elements as int, line_size as int),
{
    let lines = size / line_size;
    let step = stride_elements as u128 * 4;
    let touches = (size as u128 + step - 1) / step;
    if (lines as u128) <= touches {
        lines
    } else {
        touches as usize
    }
}

/// A longer stride never yields more elements per iteration, and the count never
/// exceeds the number of cache lines in the buffer.
pub proof fn lemma_elements_per_iteration_monotone(size: int, s1: int, s2: int, line_size: int)
    requires
        size >= 0,
        0 < s1 <= s2,
        line_size > 0,
    ensures
        spec_elements_per_iteration(size, s2, line_size) <= spec_elements_per_iteration(size, s1, line_size),
        spec_elements_per_iteration(size, s1, line_size) <= size / line_size,
{
    let t1 = touch_count(size, s1 * 4);
    let t2 = touch_count(size, s2 * 4);
    vstd::arithmetic::div_mod::lemma_div_pos_is_pos(size + s2 * 4 - 1, s2 * 4);
    if t2 > 0 {
        lemma_touch_count(size, s2 * 4, t2 - 1);
        assert((t2 - 1) * (s1 * 4) <= (t2 - 1) * (s2 * 4)) by (nonlinear_arith)
            requires
                t2 >= 1,
                s1 <= s2,
        ;
        lemma_touch_count(size, s1 * 4, t2 - 1);
    }
}

/// Bytes one measurement processed: one cache line per element per iteration.
pub open spec fn spec_bytes_processed(elements_per_iteration: int, line_size: int, total_iterations: int) -> int {
    elements_per_iteration * line_size * total_iterations
}

/// `elements_per_iteration * line_size * total_iterations`, or `None` where the
/// product does not fit in a `u128`.
pub fn bytes_processed(elements_per_iteration: usize, line_size: usize, total_iterations: u128) -> (r: Option<u128>)
    ensures
        match r {
            Some(b) => b as int == spec_bytes_processed(
                elements_per_iteration as int, line_size as int, total_iterations as int),
            None => spec_bytes_processed(elements_per_iteration as int, line_size as int, total_iterations as int)
                > u128::MAX,
        },
{
    proof {
        vstd::arithmetic::mul::lemma_mul_upper_bound(
            elements_per_iteration as int, usize::MAX as int, line_size as int, usize::MAX as int);
        assert(usize::MAX as int * usize::MAX as int <= u128::MAX) by (nonlinear_arith);
    }
    let per_iteration = elements_per_iteration as u128 * line_size as u128;
    per_iteration.checked_mul(total_iterations)
}

} // verus!
