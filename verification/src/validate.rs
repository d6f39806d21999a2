//! Request validation and batch bookkeeping for the service handlers.

use vstd::prelude::*;
use vstd::string::StringSliceAdditionalSpecFns;

verus! {

/// Seconds in the 365-day year used by the staleness policy.
pub const STALE_WINDOW_SECONDS: i64 = 31_536_000;

/// Number of `true` entries in a sequence of per-request outcomes.
pub open spec fn count_successes(s: Seq<bool>) -> int
    decreases s.len(),
{
    if s.len() == 0 {
        0
    } else {
        count_successes(s.drop_last()) + if s.last() {
            1int
        } else {
            0int
        }
    }
}

/// Totals of a batch of per-request outcomes.
#[derive(Debug, Clone, Copy, PartialEq, Eq, Structural)]
pub struct BatchCounts {
    pub total_count: usize,
    pub success_count: usize,
    pub error_count: usize,
}

/// Successes never outnumber the outcomes.
proof fn lemma_count_successes_bound(s: Seq<bool>)
    ensures
        0 <= count_successes(s) <= s.len(),
    decreases s.len(),
{
    if s.len() > 0 {
        lemma_count_successes_bound(s.drop_last());
    }
}

/// Tallies a batch of per-request outcomes: the total, how many succeeded,
/// and how many failed.  The three counts always add up.
pub fn batch_counts(outcomes: &Vec<bool>) -> (r: BatchCounts)
    ensures
        r.total_count == outcomes@.len(),
        r.success_count == count_successes(outcomes@),
        r.error_count == outcomes@.len() - count_successes(outcomes@),
{
    let mut successes: usize = 0;
    let mut i: usize = 0;
    while i < outcomes.len()
        invariant
            i <= outcomes@.len(),
            successes == count_successes(outcomes@.take(i as int)),
            successes <= i,
        decreases outcomes@.len() - i,
    {
        proof {
            assert(outcomes@.take(i as int + 1).drop_last() =~= outcomes@.take(i as int));
            assert(outcomes@.take(i as int + 1).last() == outcomes@[i as int]);
        }
        if outcomes[i] {
            successes = successes + 1;
        }
        i = i + 1;
    }
    proof {
        assert(outcomes@.take(outcomes@.len() as int) =~= outcomes@);
        lemma_count_successes_bound(outcomes@);
    }
    BatchCounts {
        total_count: outcomes.len(),
        success_count: successes,
        error_count: outcomes.len() - successes,
    }
}

/// True when `timestamp` lies more than a year before `now`: the boundary
/// policy that rejects stale propagation requests.  The caller supplies the
/// current time, so the check itself is pure.
pub fn timestamp_is_stale(timestamp: i64, now: i64) -> (r: bool)
    ensures
        r == (timestamp < now - STALE_WINDOW_SECONDS),
{
    let cutoff: i128 = now as i128 - STALE_WINDOW_SECONDS as i128;
    (timestamp as i128) < cutoff
}

/// True when both TLE lines have the 69 characters the format fixes; the
/// cheap test the request handlers make before anything else.
pub fn tle_lines_sized(line1: &str, line2: &str) -> (r: bool)
    ensures
        r == (line1.spec_bytes().len() == 69 && line2.spec_bytes().len() == 69),
{
    line1.as_bytes().len() == 69 && line2.as_bytes().len() == 69
}

} // verus!
