//! The store's clock: seconds since the moment the store was started.
//!
//! Every rule of expiry is a function of two clock readings, the one taken
//! at start and the one taken now. The functions whose names end in `_at`
//! take the second reading as an argument; the others read the system clock
//! and hand the reading on.

use std::time::{Duration, SystemTime, SystemTimeError};
use vstd::prelude::*;

verus! {

/// The system's wall clock type. Nothing is known of a value of it.
#[verifier::external_type_specification]
#[verifier::external_body]
pub struct ExSystemTime(std::time::SystemTime);

/// The error of `SystemTime::duration_since`: the second instant is later
/// than the first. Nothing is known of a value of it.
#[verifier::external_type_specification]
#[verifier::external_body]
pub struct ExSystemTimeError(std::time::SystemTimeError);

/// `SystemTime::now` reads the wall clock. Nothing is claimed of the reading.
pub assume_specification[ SystemTime::now ]() -> SystemTime;

/// `SystemTime::duration_since` gives the time from `earlier` to `t`, or an
/// error where `earlier` is the later one. Nothing is claimed of the result.
pub assume_specification[ SystemTime::duration_since ](
    t: &SystemTime,
    earlier: SystemTime,
) -> Result<Duration, SystemTimeError>;

/// `Duration::as_secs` gives the whole seconds of a duration. Nothing is
/// claimed of the number.
pub assume_specification[ Duration::as_secs ](d: &Duration) -> u64;

/// The constant `std::time::UNIX_EPOCH`, the instant from which the wall
/// clock counts.
#[verifier::external_body]
fn unix_epoch() -> SystemTime {
    std::time::UNIX_EPOCH
}

/// Seconds that have passed on a clock that read `start` then and reads
/// `now` now. A clock that was set back reads as no time passed.
pub open spec fn elapsed(start: u64, now: u64) -> int {
    if now >= start {
        now - start
    } else {
        0
    }
}

/// Whether a record with the stored expiry `expiry` is past it: never for a
/// negative expiry, otherwise as soon as strictly more seconds than `expiry`
/// have passed.
pub open spec fn expired(start: u64, now: u64, expiry: i32) -> bool {
    expiry >= 0 && expiry < elapsed(start, now)
}

/// The expiry stored for a time-to-live of `ttl` seconds given at `now`: the
/// never-expire marker for a negative `ttl`, otherwise the seconds passed so
/// far plus `ttl`, held at `i32::MAX` where the sum is beyond it.
pub open spec fn expiry_for(start: u64, now: u64, ttl: i32) -> i32 {
    if ttl < 0 {
        -1i32
    } else if elapsed(start, now) + ttl > i32::MAX {
        i32::MAX
    } else {
        (elapsed(start, now) + ttl) as i32
    }
}

/// The clock's fixed point of reference: the wall clock's reading, in
/// seconds, when the store was started.
#[derive(Clone, Copy, Debug)]
pub struct TimeManager {
    pub start_time: u64,
}

impl TimeManager {
    /// A clock whose point of reference is the wall clock's reading at the
    /// call. Nothing is promised of that reading; every rule of expiry is
    /// stated for whatever it is.
    pub fn new() -> (tm: Self) {
        Self { start_time: read_clock() }
    }

    /// The reading taken at start.
    pub fn get_start_time(&self) -> (t: u64)
        ensures
            t == self.start_time,
    {
        self.start_time
    }

    /// The wall clock's present reading, in seconds since the epoch. Nothing
    /// is promised of it, not even that it is no earlier than the reading
    /// before: the wall clock can be set back. What is done with a reading
    /// is stated, for every reading, by the functions that take one.
    pub fn get_current_time(&self) -> (now: u64) {
        read_clock()
    }

    /// Whether the stored expiry `time` is past when the clock reads `now`.
    pub fn is_expire_time_at(&self, time: i32, now: u64) -> (past: bool)
        ensures
            past == expired(self.start_time, now, time),
    {
        if time < 0 {
            return false;
        }
        now > self.start_time && now - self.start_time > time as u64
    }

    /// Whether the stored expiry `time` is past by the system clock.
    pub fn is_expire_time(&self, time: i32) -> (past: bool)
        ensures
            time < 0 ==> !past,
            exists|now: u64| past == expired(self.start_time, now, time),
    {
        let now: u64 = self.get_current_time();
        self.is_expire_time_at(time, now)
    }

    /// The expiry to store for a time-to-live of `time` seconds given when
    /// the clock reads `now`.
    pub fn get_expire_time_at(&self, time: i32, now: u64) -> (expiry: i32)
        ensures
            expiry == expiry_for(self.start_time, now, time),
    {
        if time < 0 {
            return -1;
        }
        if now <= self.start_time {
            return time;
        }
        let passed: u64 = now - self.start_time;
        let room: u64 = (i32::MAX - time) as u64;
        if passed > room {
            i32::MAX
        } else {
            time + passed as i32
        }
    }

    /// The expiry to store for a time-to-live of `time` seconds given now,
    /// by the system clock.
    pub fn get_expire_time(&self, time: i32) -> (expiry: i32)
        ensures
            time < 0 ==> expiry == -1,
            time >= 0 ==> expiry >= time,
            exists|now: u64| expiry == expiry_for(self.start_time, now, time),
    {
        let now: u64 = self.get_current_time();
        self.get_expire_time_at(time, now)
    }
}

/// The wall clock in whole seconds since the epoch. A clock set before the
/// epoch reads as 0. The reading depends on the moment of the call alone,
/// so nothing is promised of it.
fn read_clock() -> (now: u64) {
    let t = SystemTime::now();
    match t.duration_since(unix_epoch()) {
        Ok(d) => d.as_secs(),
        Err(_) => 0,
    }
}

} // verus!
