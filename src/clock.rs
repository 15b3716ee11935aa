use vstd::prelude::*;
use crate::model::Timestamp;

verus! {

/// The RFC 3339 text of an instant, as chrono writes it.
pub uninterp spec fn rfc3339_of(micros: i64) -> Seq<char>;

/// Relies on std::time::SystemTime::now and SystemTime::duration_since: the
/// distance of the current time from the Unix epoch, as whole seconds and
/// the nanoseconds past them, `Ok` when the clock is at or after the epoch
/// and `Err` when before it. Nothing is known of the value read but that the
/// nanoseconds stay below one second.
#[verifier::external_body]
fn read_system_clock() -> (r: Result<(u64, u32), (u64, u32)>)
    ensures
        match r {
            Ok((_, n)) => n < 1_000_000_000,
            Err((_, n)) => n < 1_000_000_000,
        },
{
    match std::time::SystemTime::now().duration_since(std::time::UNIX_EPOCH) {
        Ok(d) => Ok((d.as_secs(), d.subsec_nanos())),
        Err(e) => Err((e.duration().as_secs(), e.duration().subsec_nanos())),
    }
}

/// `x` brought into the range of `i64`.
pub open spec fn clamp_i64(x: int) -> i64 {
    if x > i64::MAX {
        i64::MAX
    } else if x < i64::MIN {
        i64::MIN
    } else {
        x as i64
    }
}

/// The instant `secs` seconds and `nanos` nanoseconds after the epoch
/// (`after`) or before it, in whole microseconds toward the epoch, saturated
/// to the range of `i64`.
pub open spec fn clock_micros(after: bool, secs: u64, nanos: u32) -> i64 {
    let total = secs * 1_000_000 + nanos / 1000;
    clamp_i64(
        if after {
            total
        } else {
            -total
        },
    )
}

/// The timestamp of an instant read from the system clock.
pub fn timestamp_from_clock(after: bool, secs: u64, nanos: u32) -> (r: Timestamp)
    ensures
        r.micros == clock_micros(after, secs, nanos),
{
    let total: u128 = (secs as u128) * 1_000_000 + (nanos as u128) / 1000;
    if after {
        if total > i64::MAX as u128 {
            Timestamp { micros: i64::MAX }
        } else {
            Timestamp { micros: total as i64 }
        }
    } else {
        if total > (i64::MAX as u128) + 1 {
            Timestamp { micros: i64::MIN }
        } else {
            let neg: i128 = 0i128 - (total as i128);
            Timestamp { micros: neg as i64 }
        }
    }
}

/// The current time. Any instant may come back.
pub(crate) fn current_time() -> (r: Timestamp) {
    match read_system_clock() {
        Ok((s, n)) => timestamp_from_clock(true, s, n),
        Err((s, n)) => timestamp_from_clock(false, s, n),
    }
}

/// Relies on chrono::DateTime::from_timestamp_micros and DateTime::to_rfc3339:
/// the RFC 3339 text of the instant, absent when chrono cannot represent it.
#[verifier::external_body]
pub(crate) fn rfc3339_text(t: Timestamp) -> (r: Option<String>)
    ensures
        r matches Some(s) ==> s@ == rfc3339_of(t.micros),
{
    match chrono::DateTime::from_timestamp_micros(t.micros) {
        Some(d) => Some(d.to_rfc3339()),
        None => None,
    }
}

} // verus!
