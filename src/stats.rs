use std::sync::atomic::{AtomicU64, Ordering};
use std::time::{Duration, Instant};
use vstd::prelude::*;

verus! {

#[verifier::external_type_specification]
#[verifier::external_body]
pub struct ExInstant(std::time::Instant);

/// Relies on `Instant::now`: the current time, of which nothing is promised.
pub assume_specification[ std::time::Instant::now ]() -> std::time::Instant;

/// Relies on `Instant::elapsed`: the time since the instant, of which nothing
/// is promised.
pub assume_specification[ std::time::Instant::elapsed ](
    this: &std::time::Instant,
) -> core::time::Duration;

/// Relies on `Duration::as_nanos`: the whole nanoseconds of the duration.
pub assume_specification[ core::time::Duration::as_nanos ](this: &core::time::Duration) -> u128;

/// A rate per second from a count and the nanoseconds it took; no time at
/// all gives a rate of 0.
pub open spec fn rate_spec(count: u64, elapsed_nanos: u128) -> int {
    if elapsed_nanos == 0 {
        0
    } else {
        (count as int * 1_000_000_000) / (elapsed_nanos as int)
    }
}

/// The whole count per second over `elapsed_nanos` nanoseconds, or 0 when no
/// time has passed.
pub fn rate_per_second(count: u64, elapsed_nanos: u128) -> (r: u128)
    ensures
        r as int == rate_spec(count, elapsed_nanos),
        elapsed_nanos == 0 ==> r == 0,
{
    if elapsed_nanos == 0 {
        0
    } else {
        let scaled: u128 = count as u128 * 1_000_000_000u128;
        assert(scaled as int / elapsed_nanos as int <= scaled as int) by (nonlinear_arith)
            requires
                elapsed_nanos >= 1,
                scaled >= 0,
        ;
        scaled / elapsed_nanos
    }
}

/// Counters of one run, shared between execution contexts: each is read and
/// written atomically, so another context may change it between two calls.
#[derive(Debug)]
pub struct ProcessingStats {
    records_processed: AtomicU64,
    bytes_processed: AtomicU64,
    start_time: Instant,
}

impl ProcessingStats {
    /// Counters at zero, with the clock started now.
    pub fn new() -> (r: Self) {
        ProcessingStats {
            records_processed: AtomicU64::new(0),
            bytes_processed: AtomicU64::new(0),
            start_time: Instant::now(),
        }
    }

    /// Sets the record count to `count`.
    pub fn update_records_processed(&self, count: u64) {
        self.records_processed.store(count, Ordering::Relaxed);
    }

    /// Adds `count` to the record count.
    pub fn add_records_processed(&self, count: u64) {
        self.records_processed.fetch_add(count, Ordering::Relaxed);
    }

    /// Sets the byte count to `bytes`.
    pub fn update_bytes_processed(&self, bytes: u64) {
        self.bytes_processed.store(bytes, Ordering::Relaxed);
    }

    /// Adds `bytes` to the byte count.
    pub fn add_bytes_processed(&self, bytes: u64) {
        self.bytes_processed.fetch_add(bytes, Ordering::Relaxed);
    }

    /// The record count at this moment.
    pub fn records_processed(&self) -> u64 {
        self.records_processed.load(Ordering::Relaxed)
    }

    /// The byte count at this moment.
    pub fn bytes_processed(&self) -> u64 {
        self.bytes_processed.load(Ordering::Relaxed)
    }

    /// The time since the counters were created.
    pub fn elapsed_time(&self) -> Duration {
        self.start_time.elapsed()
    }

    /// Records per second so far, in whole records; 0 when no time has passed.
    pub fn records_per_second(&self) -> (r: u128)
        ensures
            exists|count: u64, nanos: u128| r as int == rate_spec(count, nanos),
    {
        let nanos = self.elapsed_time().as_nanos();
        let count = self.records_processed();
        rate_per_second(count, nanos)
    }

    /// Bytes per second so far, in whole bytes; 0 when no time has passed.
    pub fn bytes_per_second(&self) -> (r: u128)
        ensures
            exists|count: u64, nanos: u128| r as int == rate_spec(count, nanos),
    {
        let nanos = self.elapsed_time().as_nanos();
        let count = self.bytes_processed();
        rate_per_second(count, nanos)
    }
}

} // verus!
