//! The clock: a measurement in whole milliseconds relative to the UNIX
//! epoch, the span between two measurements, and a manual clock for
//! deterministic runs.
//!
//! A measurement is a plain value; the generator takes one and decides.  The
//! wall clock is read through `SystemTime::now`, the only trusted call in
//! this crate's time handling.  A `SystemTimeLock` holds a time of its own
//! that a test advances by hand, standing in for a frozen system clock.

use vstd::prelude::*;

verus! {

/// A time measurement: milliseconds since the UNIX epoch, signed so that
/// times before 1970 and artificial readings are representable.
#[derive(Debug, Clone, Copy, PartialEq, Eq, Structural, PartialOrd)]
pub struct SystemTime(pub i64);

/// A span between two measurements, in whole milliseconds.
#[derive(Debug, Clone, Copy, PartialEq, Eq, Structural, PartialOrd)]
pub struct Duration(pub u64);

/// A manual clock: a time that stands still until `add` moves it.
#[derive(Debug, Clone, Copy, PartialEq, Eq, Structural)]
pub struct SystemTimeLock(pub SystemTime);

impl Duration {
    /// A span of `val` milliseconds.
    pub fn from_millis(val: u64) -> (r: Duration)
        ensures
            r.0 == val,
    {
        Duration(val)
    }

    /// Whole seconds of the span.
    pub fn as_secs(&self) -> (r: u64)
        ensures
            r == self.0 / 1000,
    {
        self.0 / 1000
    }

    /// The sub-second remainder of the span, in nanoseconds.
    pub fn subsec_nanos(&self) -> (r: u32)
        ensures
            r == (self.0 % 1000) * 1_000_000,
    {
        ((self.0 % 1000) * 1_000_000) as u32
    }
}

impl SystemTime {
    /// Relies on `std::time::SystemTime::now` and `duration_since`: the
    /// current wall time as milliseconds since the UNIX epoch.  Nothing can
    /// be promised of a clock reading; a reading before 1970 is reported as
    /// the epoch itself, so the unwrap-free body cannot panic.
    #[verifier::external_body]
    pub fn now() -> SystemTime {
        match std::time::SystemTime::now().duration_since(std::time::UNIX_EPOCH) {
            Ok(d) => SystemTime(d.as_millis() as i64),
            Err(_) => SystemTime(0),
        }
    }

    /// The span from `earlier` to this measurement, or `Err` when this one
    /// is the earlier of the two.
    pub fn duration_since(&self, earlier: SystemTime) -> (r: Result<Duration, ()>)
        ensures
            self.0 >= earlier.0 ==> r == Ok::<Duration, ()>(Duration((self.0 - earlier.0) as u64)),
            self.0 < earlier.0 ==> r == Err::<Duration, ()>(()),
    {
        if self.0 < earlier.0 {
            Err(())
        } else {
            Ok(Duration((self.0 as i128 - earlier.0 as i128) as u64))
        }
    }

    /// A measurement at `val` milliseconds since the UNIX epoch.
    pub fn from_millis(val: i64) -> (r: SystemTime)
        ensures
            r.0 == val,
    {
        SystemTime(val)
    }

    /// A manual clock frozen at `start_value` milliseconds.
    pub fn lock(start_value: i64) -> (r: SystemTimeLock)
        ensures
            r.0.0 == start_value,
    {
        SystemTimeLock(SystemTime(start_value))
    }

    /// Release a manual clock.
    pub fn unlock(locker: SystemTimeLock) {
        let _ = locker;
    }
}

impl SystemTimeLock {
    /// The frozen time the manual clock shows.
    pub fn time(&self) -> (r: SystemTime)
        ensures
            r == self.0,
    {
        self.0
    }

    /// Move the manual clock by `value` milliseconds, backwards when
    /// negative.
    pub fn add(&mut self, value: i64)
        requires
            i64::MIN <= old(self).0.0 + value <= i64::MAX,
        ensures
            final(self).0.0 == old(self).0.0 + value,
    {
        self.0 = SystemTime(self.0.0 + value);
    }
}

} // verus!
