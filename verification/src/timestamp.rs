//! Bar timestamps: `std::time::SystemTime` instants and their Unix seconds.

use std::time::{Duration, SystemTime};

use vstd::prelude::*;

verus! {

/// `std::time::SystemTime`, carried through the library as an opaque value.
#[verifier::external_type_specification]
#[verifier::external_body]
pub struct ExSystemTime(SystemTime);

/// What `t.duration_since(UNIX_EPOCH)` gives: the time elapsed since the
/// Unix epoch, or `None` for an instant before it.
pub uninterp spec fn elapsed_since_epoch(t: SystemTime) -> Option<Duration>;

/// What `d.as_secs()` gives: the whole seconds of a duration.
pub uninterp spec fn duration_whole_secs(d: Duration) -> u64;

/// `SystemTime::duration_since(UNIX_EPOCH)`: the time elapsed since the Unix
/// epoch, or `None` for an instant before it. The contract names the result;
/// the instant itself is opaque to the library.
#[verifier::external_body]
pub(crate) fn since_epoch(ts: &SystemTime) -> (r: Option<Duration>)
    ensures
        r == elapsed_since_epoch(*ts),
{
    match ts.duration_since(std::time::UNIX_EPOCH) {
        Ok(d) => Some(d),
        Err(_) => None,
    }
}

/// `Duration::as_secs`: the whole seconds of a duration, by name.
#[verifier::external_body]
pub(crate) fn whole_secs(d: &Duration) -> (r: u64)
    ensures
        r == duration_whole_secs(*d),
{
    d.as_secs()
}

/// `UNIX_EPOCH.checked_add(Duration::from_secs(secs))`: the instant `secs`
/// whole seconds after the epoch, `None` when the platform cannot represent
/// it. An instant it gives reads back as `secs` whole seconds since the
/// epoch. Which instants the platform represents is not stated: std leaves
/// that range to each platform.
#[verifier::external_body]
pub(crate) fn epoch_plus(secs: u64) -> (r: Option<SystemTime>)
    ensures
        r matches Some(t) ==> epoch_offset(t) == Some(secs),
{
    std::time::UNIX_EPOCH.checked_add(Duration::from_secs(secs))
}

/// The whole seconds from the Unix epoch to `t`, `None` before the epoch.
pub open spec fn epoch_offset(t: SystemTime) -> Option<u64> {
    match elapsed_since_epoch(t) {
        Some(d) => Some(duration_whole_secs(d)),
        None => None,
    }
}

/// Unix seconds of an offset from the epoch: instants before the epoch count
/// as 0 and offsets beyond `i64::MAX` seconds clamp to `i64::MAX`.
pub open spec fn clamped_secs(since: Option<u64>) -> i64 {
    match since {
        Some(s) => if s > i64::MAX as u64 { i64::MAX } else { s as i64 },
        None => 0,
    }
}

/// Computes `clamped_secs`.
pub fn clamp_secs(since: Option<u64>) -> (r: i64)
    ensures
        r == clamped_secs(since),
        r >= 0,
{
    match since {
        Some(s) => if s > i64::MAX as u64 { i64::MAX } else { s as i64 },
        None => 0,
    }
}

/// Unix seconds of `ts`, with pre-epoch instants clamped to 0 and overflows
/// to `i64::MAX`.
pub fn epoch_secs(ts: &SystemTime) -> (r: i64)
    ensures
        r == clamped_secs(epoch_offset(*ts)),
        r >= 0,
{
    let since = match since_epoch(ts) {
        Some(d) => Some(whole_secs(&d)),
        None => None,
    };
    clamp_secs(since)
}

/// The instant `secs` seconds after the Unix epoch, if the platform can
/// represent it.
pub fn instant_after_epoch(secs: u64) -> (r: Option<SystemTime>)
    ensures
        r matches Some(t) ==> epoch_offset(t) == Some(secs),
{
    epoch_plus(secs)
}

/// Round trip: the instant `secs` seconds after the epoch (as
/// `instant_after_epoch` makes it) reads back as `secs` Unix seconds,
/// clamped to `i64::MAX`.
pub proof fn lemma_epoch_round_trip(secs: u64, t: SystemTime)
    requires
        epoch_offset(t) == Some(secs),
    ensures
        clamped_secs(epoch_offset(t)) == if secs > i64::MAX as u64 {
            i64::MAX
        } else {
            secs as i64
        },
{
}

} // verus!
