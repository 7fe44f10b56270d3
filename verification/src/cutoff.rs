//! The cutoff timestamp: computed once per table pass as `now` minus the
//! retention age, and fixed for the whole pass.
use vstd::prelude::*;

verus! {

pub const MILLIS_PER_DAY: i64 = 86400000;

/// The cutoff for a pass starting at `now_ms`: `now_ms` minus the retention
/// age in milliseconds, saturating at the representable minimum for ages no
/// timestamp can reach.
pub open spec fn spec_cutoff(now_ms: int, days: int) -> int {
    if now_ms - days * (MILLIS_PER_DAY as int) < i64::MIN {
        i64::MIN as int
    } else {
        now_ms - days * (MILLIS_PER_DAY as int)
    }
}

/// Computes the cutoff from a given clock reading.
pub fn cutoff_millis(now_ms: i64, days: i64) -> (r: i64)
    requires
        days >= 0,
    ensures
        r as int == spec_cutoff(now_ms as int, days as int),
{
    proof {
        assert(0 <= (days as i128) * (MILLIS_PER_DAY as i128) <= (i64::MAX as i128) * (
        MILLIS_PER_DAY as i128)) by (nonlinear_arith)
            requires
                0 <= (days as i128) <= i64::MAX as i128,
        ;
    }
    let ms: i128 = (days as i128) * (MILLIS_PER_DAY as i128);
    let c: i128 = (now_ms as i128) - ms;
    if c < i64::MIN as i128 {
        i64::MIN
    } else {
        c as i64
    }
}

/// Relies on chrono's `Utc::now` and `DateTime::timestamp_millis`: the
/// current wall-clock instant as milliseconds since the Unix epoch. chrono
/// refuses a pre-epoch system time, so the reading is non-negative.
#[verifier::external_body]
fn now_unix_millis() -> (r: i64)
    ensures
        r >= 0,
{
    chrono::Utc::now().timestamp_millis()
}

/// The cutoff for a pass starting now: some non-negative clock reading minus
/// the retention age.
pub fn current_cutoff_millis(days: i64) -> (r: i64)
    requires
        days >= 0,
    ensures
        exists|now_ms: int| 0 <= now_ms && r as int == spec_cutoff(now_ms, days as int),
{
    let now = now_unix_millis();
    let c = cutoff_millis(now, days);
    proof {
        assert(0 <= now as int && c as int == spec_cutoff(now as int, days as int));
    }
    c
}

} // verus!
