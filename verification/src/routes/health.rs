//! Whether the service is up, and for how long.

use vstd::prelude::*;

verus! {

/// The name under which the service reports.
pub const SERVICE_NAME: &'static str = "vyotiq-backend";

/// What a probe is told.
pub struct HealthReport {
    pub status: &'static str,
    pub service: &'static str,
    /// Seconds since the service started.
    pub uptime: u64,
}

/// Notes the time at which the service started, in milliseconds of the
/// caller's clock. Only the first call counts.
pub fn init_start_time(started: &mut Option<u64>, now: u64)
    ensures
        *final(started) == (match *old(started) {
            Some(first) => Some(first),
            None => Some(now),
        }),
{
    if started.is_none() {
        *started = Some(now);
    }
}

/// Whole seconds from the start to `now`; none before a start was noted or
/// if the clock went back.
pub open spec fn uptime_seconds(started: Option<u64>, now: u64) -> u64 {
    match started {
        Some(first) => if now >= first {
            ((now - first) / 1000) as u64
        } else {
            0
        },
        None => 0,
    }
}

/// Answers a probe.
pub fn health_check(started: &Option<u64>, now: u64) -> (report: HealthReport)
    ensures
        report.status@ == "ok"@,
        report.service@ == SERVICE_NAME@,
        report.uptime == uptime_seconds(*started, now),
{
    let uptime: u64 = match started {
        Some(first) => {
            if now >= *first {
                (now - *first) / 1000
            } else {
                0
            }
        },
        None => 0,
    };
    HealthReport { status: "ok", service: SERVICE_NAME, uptime }
}

} // verus!
