//! The uniform time grid of a trajectory sweep.
//!
//! A sweep over `[start, end]` with step `h` samples the instants `start`,
//! `start + h`, …, `start + ⌊(end − start)/h⌋·h`: `end` itself is included
//! exactly when `end − start` is a multiple of `h`.  The window is rejected
//! when it is empty, the step is not positive, or the grid would exceed
//! `MAX_TRAJECTORY_POINTS` samples.

use vstd::prelude::*;
use vstd::arithmetic::div_mod::{lemma_fundamental_div_mod, lemma_mod_bound};
use crate::error::PropagationError;

verus! {

/// Cap on the number of samples a single sweep may request.
pub const MAX_TRAJECTORY_POINTS: u64 = 10_000;

/// Number of grid samples of the window: `⌊(end − start)/step⌋ + 1`.
pub open spec fn grid_count(start: int, end: int, step: int) -> int {
    (end - start) / step + 1
}

/// A usable sweep window: non-empty, positive step, and within the sample
/// cap.
pub open spec fn window_ok(start: int, end: int, step: int) -> bool {
    &&& start < end
    &&& step > 0
    &&& grid_count(start, end, step) <= MAX_TRAJECTORY_POINTS
}

/// Lays out the sample instants of a trajectory sweep.
///
/// Succeeds exactly on a `window_ok` request; the result then holds
/// `grid_count` strictly ascending timestamps `start + i·step`.  A rejected
/// window yields an `InvalidTimestamp` error.
pub fn trajectory_times(start_unix: i64, end_unix: i64, step_seconds: i64) -> (r: Result<
    Vec<i64>,
    PropagationError,
>)
    ensures
        r is Ok <==> window_ok(start_unix as int, end_unix as int, step_seconds as int),
        match r {
            Ok(v) => {
                &&& v@.len() == grid_count(
                    start_unix as int,
                    end_unix as int,
                    step_seconds as int,
                )
                &&& forall|i: int|
                    0 <= i < v@.len() ==> v@[i] == start_unix + i * step_seconds
                &&& forall|i: int|
                    0 <= i < v@.len() - 1 ==> #[trigger] v@[i + 1] == v@[i] + step_seconds
            },
            Err(e) => e is InvalidTimestamp,
        },
{
    if end_unix <= start_unix {
        return Err(
            PropagationError::InvalidTimestamp("end time must be after start time".to_owned()),
        );
    }
    if step_seconds <= 0 {
        return Err(PropagationError::InvalidTimestamp("step must be positive".to_owned()));
    }
    let span: u64 = (end_unix as i128 - start_unix as i128) as u64;
    let step: u64 = step_seconds as u64;
    let whole_steps: u64 = span / step;
    proof {
        assert(span == end_unix - start_unix);
        assert(whole_steps + 1 == grid_count(
            start_unix as int,
            end_unix as int,
            step_seconds as int,
        ));
    }
    if whole_steps >= MAX_TRAJECTORY_POINTS {
        return Err(
            PropagationError::InvalidTimestamp("trajectory would exceed the sample cap".to_owned()),
        );
    }
    let count: u64 = whole_steps + 1;
    let n = count as usize;
    let mut times: Vec<i64> = Vec::new();
    let mut k: usize = 0;
    while k < n
        invariant
            k <= n,
            n == grid_count(start_unix as int, end_unix as int, step_seconds as int),
            window_ok(start_unix as int, end_unix as int, step_seconds as int),
            times@.len() == k,
            forall|i: int| 0 <= i < k ==> times@[i] == start_unix + i * step_seconds,
        decreases n - k,
    {
        proof {
            let start = start_unix as int;
            let end = end_unix as int;
            let stp = step_seconds as int;
            let span_i = end - start;
            lemma_fundamental_div_mod(span_i, stp);
            lemma_mod_bound(span_i, stp);
            assert(k * stp <= (span_i / stp) * stp) by (nonlinear_arith)
                requires
                    0 <= k <= span_i / stp,
                    stp > 0,
            ;
            assert(k * stp >= 0) by (nonlinear_arith)
                requires
                    k >= 0,
                    stp > 0,
            ;
        }
        let t128: i128 = start_unix as i128 + k as i128 * step_seconds as i128;
        let t: i64 = t128 as i64;
        times.push(t);
        k = k + 1;
    }
    proof {
        assert forall|i: int| 0 <= i < times@.len() - 1 implies #[trigger] times@[i + 1] == times@[i]
            + step_seconds by {
            assert(times@[i] == start_unix + i * step_seconds);
            assert(times@[i + 1] == start_unix + (i + 1) * step_seconds);
            assert((i + 1) * step_seconds == i * step_seconds + step_seconds) by (nonlinear_arith);
        }
    }
    Ok(times)
}

} // verus!
