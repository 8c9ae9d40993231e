//! Translation of NT timestamps (100 ns ticks since 1601-01-01 UTC) into
//! host file times (seconds and nanoseconds since 1970-01-01 UTC), with the
//! local time zone's offset added.
use chrono::{DateTime, Local};
use vstd::prelude::*;

verus! {

/// Seconds from 1601-01-01 to 1970-01-01.
pub const NT_EPOCH_OFFSET_SECS: i64 = 11644473600;

pub const TICKS_PER_SEC: u64 = 10000000;

pub const NANOS_PER_TICK: u32 = 100;

pub const NANOS_PER_SEC: u32 = 1000000000;

/// Largest magnitude of a time zone offset, exclusive, in seconds.
pub const MAX_OFFSET_SECS: i32 = 86400;

/// A point in time relative to the Unix epoch.
#[derive(Clone, Copy, Debug, PartialEq, Eq, Structural)]
pub struct UnixTime {
    pub secs: i64,
    /// Nanoseconds past `secs`, below one second.
    pub nanos: u32,
}

impl UnixTime {
    pub open spec fn wf(&self) -> bool {
        self.nanos < NANOS_PER_SEC
    }

    /// Nanoseconds since the Unix epoch.
    pub open spec fn total_nanos(&self) -> int {
        self.secs * NANOS_PER_SEC + self.nanos
    }
}

/// Nanoseconds since the Unix epoch of an NT timestamp.
pub open spec fn nt_nanos(nt: u64) -> int {
    nt * NANOS_PER_TICK - NT_EPOCH_OFFSET_SECS * NANOS_PER_SEC
}

/// `u` is the NT timestamp `nt` shifted by `o` seconds, less than a day.
pub open spec fn shifted_within_a_day(u: UnixTime, nt: u64, o: int) -> bool {
    &&& -MAX_OFFSET_SECS < o < MAX_OFFSET_SECS
    &&& u.total_nanos() == nt_nanos(nt) + o * NANOS_PER_SEC
}

/// Converts an NT timestamp to a time since the Unix epoch.
pub fn nt_timestamp_to_system_time(nt_timestamp: u64) -> (r: UnixTime)
    ensures
        r.wf(),
        r.total_nanos() == nt_nanos(nt_timestamp),
{
    let whole = nt_timestamp / TICKS_PER_SEC;
    let ticks = nt_timestamp % TICKS_PER_SEC;
    proof {
        assert(nt_timestamp == whole * TICKS_PER_SEC + ticks);
        assert(nt_timestamp * 100 == whole * 1000000000 + ticks * 100) by (nonlinear_arith)
            requires
                nt_timestamp == whole * 10000000 + ticks,
        ;
    }
    UnixTime { secs: whole as i64 - NT_EPOCH_OFFSET_SECS, nanos: ticks as u32 * NANOS_PER_TICK }
}

/// Shifts `system_time` by `offset_seconds` (east of UTC is positive).
pub fn add_timezone_offset_to_system_time(system_time: UnixTime, offset_seconds: i64) -> (r: UnixTime)
    requires
        system_time.wf(),
        i64::MIN <= system_time.secs + offset_seconds <= i64::MAX,
    ensures
        r.wf(),
        r.total_nanos() == system_time.total_nanos() + offset_seconds * NANOS_PER_SEC,
{
    let r = UnixTime { secs: system_time.secs + offset_seconds, nanos: system_time.nanos };
    proof {
        assert(r.total_nanos() == system_time.total_nanos() + offset_seconds * NANOS_PER_SEC) by (nonlinear_arith)
            requires
                r.secs == system_time.secs + offset_seconds,
                r.nanos == system_time.nanos,
        ;
    }
    r
}

/// The modification time to set for an NT timestamp, given the local time
/// zone's offset at that instant.
pub fn local_modification_time(nt_timestamp: u64, offset_seconds: i32) -> (r: UnixTime)
    requires
        -MAX_OFFSET_SECS < offset_seconds < MAX_OFFSET_SECS,
    ensures
        r.wf(),
        r.total_nanos() == nt_nanos(nt_timestamp) + offset_seconds * NANOS_PER_SEC,
{
    let t = nt_timestamp_to_system_time(nt_timestamp);
    add_timezone_offset_to_system_time(t, offset_seconds as i64)
}

/// Relies on chrono's `DateTime::from_timestamp` and
/// `DateTime::with_timezone(&Local)`: the local offset east of UTC at an
/// instant, which chrono's `FixedOffset` keeps within a day; nothing for an
/// instant chrono cannot represent.
#[verifier::external_body]
fn local_utc_offset(secs: i64, nanos: u32) -> (r: Option<i32>)
    ensures
        r matches Some(o) ==> -MAX_OFFSET_SECS < o < MAX_OFFSET_SECS,
{
    match DateTime::from_timestamp(secs, nanos) {
        Some(utc) => Some(utc.with_timezone(&Local).offset().local_minus_utc()),
        None => None,
    }
}

/// The modification time to set for an NT timestamp in this host's time
/// zone. The offset comes from the host's zone data: whatever it is, the
/// result is the timestamp shifted by less than a day; without one the
/// translation fails.
pub fn modification_time(nt_timestamp: u64) -> (r: Option<UnixTime>)
    ensures
        r matches Some(u) ==> u.wf() && exists|o: int| #[trigger] shifted_within_a_day(u, nt_timestamp, o),
{
    let t = nt_timestamp_to_system_time(nt_timestamp);
    match local_utc_offset(t.secs, t.nanos) {
        Some(o) => {
            let u = local_modification_time(nt_timestamp, o);
            proof {
                assert(shifted_within_a_day(u, nt_timestamp, o as int));
            }
            Some(u)
        },
        None => None,
    }
}

} // verus!
