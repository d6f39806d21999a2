//! Visibility passes over a ground station.
//!
//! A sweep hands this module one look-angle sample per grid instant —
//! elevation and azimuth in micro-degrees — and the state machine below
//! turns the series into passes.  A pass opens when the elevation first
//! reaches the station's threshold (acquisition of signal), tracks the
//! maximum elevation and its instant (time of closest approach), and closes
//! at the first sample back below the threshold (loss of signal) or at the
//! end of the window.  The machine is defined as the spec function
//! `spec_passes`; `find_passes` computes exactly that and its passes are
//! proved well-formed, in ascending order, and non-overlapping.

use vstd::prelude::*;

verus! {

/// Timestamps this module accepts: comfortably within `i64`, so that
/// every duration fits.
pub open spec fn in_time_range(t: i64) -> bool {
    -0x2000_0000_0000_0000 <= t <= 0x2000_0000_0000_0000
}

/// One look-angle sample of a sweep.
#[derive(Debug, Clone, Copy, PartialEq, Eq, Structural)]
pub struct LookSample {
    /// Unix seconds of the sample.
    pub timestamp: i64,
    /// Elevation above the horizon in micro-degrees (may be negative).
    pub elevation_udeg: i64,
    /// Azimuth from north, clockwise, in micro-degrees within `[0, 360°)`.
    pub azimuth_udeg: i64,
}

/// One visibility pass: the interval a satellite stays above a station's
/// minimum elevation.
#[derive(Debug, Clone, Copy, PartialEq, Eq, Structural)]
pub struct VisibilityPass {
    /// Acquisition of signal: first sample at or above the threshold.
    pub aos_timestamp: i64,
    /// Loss of signal: first sample back below the threshold, or the window
    /// end for a pass still open there.
    pub los_timestamp: i64,
    /// Time of closest approach: the sample of highest elevation.
    pub tca_timestamp: i64,
    /// Highest sampled elevation of the pass, in micro-degrees.
    pub max_elevation_udeg: i64,
    /// Azimuth at acquisition, in micro-degrees.
    pub aos_azimuth_udeg: i64,
    /// Azimuth at loss, in micro-degrees; zero for a pass closed by the
    /// window end, where no sample defines it.
    pub los_azimuth_udeg: i64,
    /// `los_timestamp - aos_timestamp`.
    pub duration_seconds: i64,
}

/// A pass that has opened but not yet closed.
#[derive(Debug, Clone, Copy, PartialEq, Eq, Structural)]
pub struct OpenPass {
    pub aos_timestamp: i64,
    pub aos_azimuth_udeg: i64,
    pub max_elevation_udeg: i64,
    pub tca_timestamp: i64,
}

/// The pass emitted when an open pass closes at `los` with azimuth
/// `los_azimuth`.
pub open spec fn close_pass(o: OpenPass, los: i64, los_azimuth: i64) -> VisibilityPass {
    VisibilityPass {
        aos_timestamp: o.aos_timestamp,
        los_timestamp: los,
        tca_timestamp: o.tca_timestamp,
        max_elevation_udeg: o.max_elevation_udeg,
        aos_azimuth_udeg: o.aos_azimuth_udeg,
        los_azimuth_udeg: los_azimuth,
        duration_seconds: (los - o.aos_timestamp) as i64,
    }
}

/// One transition of the visibility machine: from the current open pass (if
/// any) and a sample, to the next state and the pass emitted (if any).
pub open spec fn step_state(st: Option<OpenPass>, s: LookSample, threshold: i64) -> (
    Option<OpenPass>,
    Option<VisibilityPass>,
) {
    match st {
        None => {
            if s.elevation_udeg >= threshold {
                (
                    Some(
                        OpenPass {
                            aos_timestamp: s.timestamp,
                            aos_azimuth_udeg: s.azimuth_udeg,
                            max_elevation_udeg: s.elevation_udeg,
                            tca_timestamp: s.timestamp,
                        },
                    ),
                    None,
                )
            } else {
                (None, None)
            }
        },
        Some(o) => {
            if s.elevation_udeg >= threshold {
                if s.elevation_udeg > o.max_elevation_udeg {
                    (
                        Some(
                            OpenPass {
                                max_elevation_udeg: s.elevation_udeg,
                                tca_timestamp: s.timestamp,
                                ..o
                            },
                        ),
                        None,
                    )
                } else {
                    (Some(o), None)
                }
            } else {
                (None, Some(close_pass(o, s.timestamp, s.azimuth_udeg)))
            }
        },
    }
}

/// The passes emitted by running the machine from sample `i` in state `st`,
/// closing any pass still open at the end of the window.
pub open spec fn run_from(
    samples: Seq<LookSample>,
    i: int,
    st: Option<OpenPass>,
    threshold: i64,
    window_end: i64,
) -> Seq<VisibilityPass>
    decreases samples.len() - i,
{
    if i < 0 || i >= samples.len() {
        match st {
            None => Seq::empty(),
            Some(o) => seq![close_pass(o, window_end, 0)],
        }
    } else {
        let next = step_state(st, samples[i], threshold);
        match next.1 {
            None => run_from(samples, i + 1, next.0, threshold, window_end),
            Some(p) => seq![p] + run_from(samples, i + 1, next.0, threshold, window_end),
        }
    }
}

/// All passes of a sample series: the machine run from the start, out of a
/// pass.
pub open spec fn spec_passes(
    samples: Seq<LookSample>,
    threshold: i64,
    window_end: i64,
) -> Seq<VisibilityPass> {
    run_from(samples, 0, None, threshold, window_end)
}

/// What `find_passes` asks of its input: timestamps strictly ascending and
/// within range, no sample after the window end, azimuths within a turn.
pub open spec fn samples_wf(samples: Seq<LookSample>, window_end: i64) -> bool {
    &&& forall|i: int| 0 <= i < samples.len() ==> in_time_range(#[trigger] samples[i].timestamp)
    &&& in_time_range(window_end)
    &&& forall|i: int|
        0 <= i < samples.len() - 1 ==> #[trigger] samples[i].timestamp < samples[i
            + 1].timestamp
    &&& samples.len() > 0 ==> samples[samples.len() - 1].timestamp <= window_end
    &&& forall|i: int|
        0 <= i < samples.len() ==> 0 <= #[trigger] samples[i].azimuth_udeg < 360_000_000
}

/// The shape every emitted pass has: AOS ≤ TCA ≤ LOS, maximum elevation at
/// least the threshold, the duration exactly LOS − AOS, and azimuths within
/// a turn.
pub open spec fn pass_wf(p: VisibilityPass, threshold: i64) -> bool {
    &&& p.aos_timestamp <= p.tca_timestamp <= p.los_timestamp
    &&& p.max_elevation_udeg >= threshold
    &&& p.duration_seconds == p.los_timestamp - p.aos_timestamp
    &&& 0 <= p.aos_azimuth_udeg < 360_000_000
    &&& 0 <= p.los_azimuth_udeg < 360_000_000
}

/// No two passes of a sweep overlap: every earlier pass is lost strictly
/// before any later pass is acquired.  This extends the adjacent-pass
/// guarantee of `find_passes` to any two passes of its result.
pub proof fn lemma_passes_disjoint(passes: Seq<VisibilityPass>, threshold: i64, j: int, k: int)
    requires
        forall|m: int| 0 <= m < passes.len() ==> pass_wf(#[trigger] passes[m], threshold),
        forall|m: int|
            0 <= m < passes.len() - 1 ==> #[trigger] passes[m].los_timestamp < passes[m
                + 1].aos_timestamp,
        0 <= j < k < passes.len(),
    ensures
        passes[j].los_timestamp < passes[k].aos_timestamp,
    decreases k - j,
{
    if j + 1 < k {
        lemma_passes_disjoint(passes, threshold, j + 1, k);
        assert(passes[j].los_timestamp < passes[j + 1].aos_timestamp);
        assert(passes[j + 1].aos_timestamp <= passes[j + 1].los_timestamp);
    }
}

/// A ground station: identity, geodetic location, and the minimum
/// elevation a satellite must reach to count as visible.
///
/// Latitude and longitude are in micro-degrees, altitude in millimetres
/// above the WGS84 ellipsoid, the elevation threshold in micro-degrees.
#[derive(Debug, Clone)]
pub struct GroundStation {
    pub id: String,
    pub name: String,
    pub latitude_udeg: i64,
    pub longitude_udeg: i64,
    pub altitude_mm: i64,
    pub min_elevation_udeg: i64,
}

impl GroundStation {
    /// A geodetic location on Earth: latitude within ±90°, longitude within
    /// (−180°, 180°].
    pub open spec fn location_wf(self) -> bool {
        &&& -90_000_000 <= self.latitude_udeg <= 90_000_000
        &&& -180_000_000 < self.longitude_udeg <= 180_000_000
    }

    /// Checks that the station's coordinates name a point on Earth.
    pub fn location_valid(&self) -> (r: bool)
        ensures
            r == self.location_wf(),
    {
        -90_000_000 <= self.latitude_udeg && self.latitude_udeg <= 90_000_000
            && -180_000_000 < self.longitude_udeg && self.longitude_udeg <= 180_000_000
    }
}

/// Runs the visibility machine over a sample series.
///
/// Returns exactly `spec_passes`: each pass is well-formed, passes come in
/// ascending order of acquisition, and no two overlap — each pass is lost
/// strictly before the next is acquired.
pub fn find_passes(samples: &Vec<LookSample>, threshold_udeg: i64, window_end: i64) -> (r: Vec<
    VisibilityPass,
>)
    requires
        samples_wf(samples@, window_end),
    ensures
        r@ == spec_passes(samples@, threshold_udeg, window_end),
        forall|k: int| 0 <= k < r@.len() ==> pass_wf(#[trigger] r@[k], threshold_udeg),
        forall|k: int|
            0 <= k < r@.len() - 1 ==> #[trigger] r@[k].los_timestamp < r@[k + 1].aos_timestamp,
        forall|k: int|
            0 <= k < r@.len() ==> #[trigger] r@[k].aos_timestamp < r@[k].los_timestamp || r@[
                k].los_timestamp == window_end,
{
    let ghost whole = spec_passes(samples@, threshold_udeg, window_end);
    let mut passes: Vec<VisibilityPass> = Vec::new();
    let mut open: Option<OpenPass> = None;
    let mut i: usize = 0;
    while i < samples.len()
        invariant
            samples_wf(samples@, window_end),
            i <= samples.len(),
            whole == spec_passes(samples@, threshold_udeg, window_end),
            passes@ + run_from(samples@, i as int, open, threshold_udeg, window_end) == whole,
            forall|k: int| 0 <= k < passes@.len() ==> pass_wf(#[trigger] passes@[k], threshold_udeg),
            forall|k: int|
                0 <= k < passes@.len() - 1 ==> #[trigger] passes@[k].los_timestamp < passes@[k
                    + 1].aos_timestamp,
            forall|k: int|
                0 <= k < passes@.len() ==> #[trigger] passes@[k].aos_timestamp < passes@[
                    k].los_timestamp,
            open matches Some(o) ==> {
                &&& i > 0
                &&& in_time_range(o.aos_timestamp)
                &&& o.aos_timestamp <= o.tca_timestamp <= samples@[i - 1].timestamp
                &&& o.max_elevation_udeg >= threshold_udeg
                &&& 0 <= o.aos_azimuth_udeg < 360_000_000
                &&& passes@.len() > 0 ==> passes@[passes@.len() - 1].los_timestamp
                    < o.aos_timestamp
            },
            passes@.len() > 0 ==> i > 0 && passes@[passes@.len() - 1].los_timestamp <= samples@[i
                - 1].timestamp,
        decreases samples.len() - i,
    {
        let s = samples[i];
        let ghost st_before = open;
        let ghost next = step_state(st_before, samples@[i as int], threshold_udeg);
        match open {
            None => {
                if s.elevation_udeg >= threshold_udeg {
                    open = Some(
                        OpenPass {
                            aos_timestamp: s.timestamp,
                            aos_azimuth_udeg: s.azimuth_udeg,
                            max_elevation_udeg: s.elevation_udeg,
                            tca_timestamp: s.timestamp,
                        },
                    );
                }
                proof {
                    assert(next.1 is None);
                    assert(open == next.0);
                    assert(passes@ + run_from(
                        samples@,
                        i + 1,
                        open,
                        threshold_udeg,
                        window_end,
                    ) == whole);
                }
            },
            Some(o) => {
                if s.elevation_udeg >= threshold_udeg {
                    if s.elevation_udeg > o.max_elevation_udeg {
                        open = Some(
                            OpenPass {
                                aos_timestamp: o.aos_timestamp,
                                aos_azimuth_udeg: o.aos_azimuth_udeg,
                                max_elevation_udeg: s.elevation_udeg,
                                tca_timestamp: s.timestamp,
                            },
                        );
                    }
                    proof {
                        assert(next.1 is None);
                        assert(open == next.0);
                        assert(passes@ + run_from(
                            samples@,
                            i + 1,
                            open,
                            threshold_udeg,
                            window_end,
                        ) == whole);
                    }
                } else {
                    let p = VisibilityPass {
                        aos_timestamp: o.aos_timestamp,
                        los_timestamp: s.timestamp,
                        tca_timestamp: o.tca_timestamp,
                        max_elevation_udeg: o.max_elevation_udeg,
                        aos_azimuth_udeg: o.aos_azimuth_udeg,
                        los_azimuth_udeg: s.azimuth_udeg,
                        duration_seconds: s.timestamp - o.aos_timestamp,
                    };
                    open = None;
                    proof {
                        assert(next.0 is None);
                        assert(next.1 == Some(p));
                        assert(passes@.push(p) + run_from(
                            samples@,
                            i + 1,
                            None,
                            threshold_udeg,
                            window_end,
                        ) =~= passes@ + run_from(
                            samples@,
                            i as int,
                            st_before,
                            threshold_udeg,
                            window_end,
                        ));
                    }
                    passes.push(p);
                }
            },
        }
        i = i + 1;
    }
    match open {
        Some(o) => {
            let p = VisibilityPass {
                aos_timestamp: o.aos_timestamp,
                los_timestamp: window_end,
                tca_timestamp: o.tca_timestamp,
                max_elevation_udeg: o.max_elevation_udeg,
                aos_azimuth_udeg: o.aos_azimuth_udeg,
                los_azimuth_udeg: 0,
                duration_seconds: window_end - o.aos_timestamp,
            };
            proof {
                assert(run_from(samples@, samples@.len() as int, open, threshold_udeg, window_end)
                    =~= seq![close_pass(o, window_end, 0)]);
                assert(p == close_pass(o, window_end, 0));
                assert(passes@.push(p) =~= passes@ + seq![p]);
                assert(o.tca_timestamp <= samples@[samples@.len() - 1].timestamp);
                assert(o.tca_timestamp <= window_end);
            }
            passes.push(p);
        },
        None => {
            proof {
                assert(run_from(samples@, samples@.len() as int, open, threshold_udeg, window_end)
                    =~= Seq::<VisibilityPass>::empty());
                assert(passes@ + Seq::<VisibilityPass>::empty() =~= passes@);
            }
        },
    }
    passes
}

} // verus!
