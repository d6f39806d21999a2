//! Request counters recorded by the service handlers.
//!
//! The counters are plain monotonic integers held by the handler layer and
//! passed where they are needed; the propagation core itself never touches
//! them.  Latency is recorded in microseconds.  All counters saturate at
//! `u64::MAX` rather than wrap, so they never move backwards.

use vstd::prelude::*;

verus! {

/// Adds without wrapping: the result sticks at `u64::MAX` on overflow.
fn saturating_add_u64(a: u64, b: u64) -> (r: u64)
    ensures
        r == if a + b <= u64::MAX { a + b } else { u64::MAX as int },
{
    if a > u64::MAX - b {
        u64::MAX
    } else {
        a + b
    }
}

/// Metrics state for recording from service handlers.
pub struct MetricsState {
    /// Completed single-point propagation requests, by outcome.
    pub propagation_success: u64,
    pub propagation_error: u64,
    /// Time spent on single-point propagations, in microseconds.
    pub propagation_micros: u64,
    /// Completed visibility requests, by outcome.
    pub visibility_success: u64,
    pub visibility_error: u64,
    /// Time spent on visibility calculations, in microseconds.
    pub visibility_micros: u64,
    /// Completed trajectory requests, by outcome.
    pub trajectory_success: u64,
    pub trajectory_error: u64,
    /// Time spent on trajectory sweeps, in microseconds.
    pub trajectory_micros: u64,
    /// Trajectory points generated over all requests.
    pub trajectory_points: u64,
}

/// `y` is `x` plus `d`, saturated at `u64::MAX`.
pub open spec fn counted_up(x: u64, y: u64, d: u64) -> bool {
    y == if x + d <= u64::MAX {
        x + d
    } else {
        u64::MAX as int
    }
}

impl MetricsState {
    /// A fresh state with every counter at zero.
    pub fn new() -> (r: Self)
        ensures
            r.propagation_success == 0,
            r.propagation_error == 0,
            r.propagation_micros == 0,
            r.visibility_success == 0,
            r.visibility_error == 0,
            r.visibility_micros == 0,
            r.trajectory_success == 0,
            r.trajectory_error == 0,
            r.trajectory_micros == 0,
            r.trajectory_points == 0,
    {
        MetricsState {
            propagation_success: 0,
            propagation_error: 0,
            propagation_micros: 0,
            visibility_success: 0,
            visibility_error: 0,
            visibility_micros: 0,
            trajectory_success: 0,
            trajectory_error: 0,
            trajectory_micros: 0,
            trajectory_points: 0,
        }
    }

    /// Records one single-point propagation request that took
    /// `duration_micros` and ended in `success`.
    pub fn record_propagation(&mut self, duration_micros: u64, success: bool)
        ensures
            counted_up(
                old(self).propagation_success,
                final(self).propagation_success,
                if success { 1u64 } else { 0u64 },
            ),
            counted_up(
                old(self).propagation_error,
                final(self).propagation_error,
                if success { 0u64 } else { 1u64 },
            ),
            counted_up(old(self).propagation_micros, final(self).propagation_micros, duration_micros),
            final(self).visibility_success == old(self).visibility_success,
            final(self).visibility_error == old(self).visibility_error,
            final(self).visibility_micros == old(self).visibility_micros,
            final(self).trajectory_success == old(self).trajectory_success,
            final(self).trajectory_error == old(self).trajectory_error,
            final(self).trajectory_micros == old(self).trajectory_micros,
            final(self).trajectory_points == old(self).trajectory_points,
    {
        if success {
            self.propagation_success = saturating_add_u64(self.propagation_success, 1);
        } else {
            self.propagation_error = saturating_add_u64(self.propagation_error, 1);
        }
        self.propagation_micros = saturating_add_u64(self.propagation_micros, duration_micros);
    }

    /// Records one visibility request that took `duration_micros` and ended
    /// in `success`.
    pub fn record_visibility(&mut self, duration_micros: u64, success: bool)
        ensures
            counted_up(
                old(self).visibility_success,
                final(self).visibility_success,
                if success { 1u64 } else { 0u64 },
            ),
            counted_up(
                old(self).visibility_error,
                final(self).visibility_error,
                if success { 0u64 } else { 1u64 },
            ),
            counted_up(old(self).visibility_micros, final(self).visibility_micros, duration_micros),
            final(self).propagation_success == old(self).propagation_success,
            final(self).propagation_error == old(self).propagation_error,
            final(self).propagation_micros == old(self).propagation_micros,
            final(self).trajectory_success == old(self).trajectory_success,
            final(self).trajectory_error == old(self).trajectory_error,
            final(self).trajectory_micros == old(self).trajectory_micros,
            final(self).trajectory_points == old(self).trajectory_points,
    {
        if success {
            self.visibility_success = saturating_add_u64(self.visibility_success, 1);
        } else {
            self.visibility_error = saturating_add_u64(self.visibility_error, 1);
        }
        self.visibility_micros = saturating_add_u64(self.visibility_micros, duration_micros);
    }

    /// Records one trajectory request that generated `points` samples, took
    /// `duration_micros`, and ended in `success`.
    pub fn record_trajectory(&mut self, duration_micros: u64, points: usize, success: bool)
        ensures
            counted_up(
                old(self).trajectory_success,
                final(self).trajectory_success,
                if success { 1u64 } else { 0u64 },
            ),
            counted_up(
                old(self).trajectory_error,
                final(self).trajectory_error,
                if success { 0u64 } else { 1u64 },
            ),
            counted_up(old(self).trajectory_micros, final(self).trajectory_micros, duration_micros),
            counted_up(old(self).trajectory_points, final(self).trajectory_points, points as u64),
            final(self).propagation_success == old(self).propagation_success,
            final(self).propagation_error == old(self).propagation_error,
            final(self).propagation_micros == old(self).propagation_micros,
            final(self).visibility_success == old(self).visibility_success,
            final(self).visibility_error == old(self).visibility_error,
            final(self).visibility_micros == old(self).visibility_micros,
    {
        if success {
            self.trajectory_success = saturating_add_u64(self.trajectory_success, 1);
        } else {
            self.trajectory_error = saturating_add_u64(self.trajectory_error, 1);
        }
        self.trajectory_micros = saturating_add_u64(self.trajectory_micros, duration_micros);
        self.trajectory_points = saturating_add_u64(self.trajectory_points, points as u64);
    }
}

impl Default for MetricsState {
    /// Same as `MetricsState::new`: every counter starts at zero.
    fn default() -> (r: Self)
        ensures
            r.propagation_success == 0,
            r.propagation_error == 0,
            r.propagation_micros == 0,
            r.visibility_success == 0,
            r.visibility_error == 0,
            r.visibility_micros == 0,
            r.trajectory_success == 0,
            r.trajectory_error == 0,
            r.trajectory_micros == 0,
            r.trajectory_points == 0,
    {
        MetricsState::new()
    }
}

} // verus!
