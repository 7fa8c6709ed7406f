//! Holding a download under a speed limit: when the speed is measured.
//!
//! The limiter counts the bytes received and decides when enough time has
//! passed to measure the speed. The speed and the pause that follows from it
//! are floating-point estimates, taken by the program around the library.

use vstd::prelude::*;

verus! {

/// The speed is measured once at least this many nanoseconds have passed
/// since it was last measured.
pub const SPEED_CHECK_INTERVAL_NANOS: u64 = 200_000_000;

/// What the limiter decides after a report of received bytes.
#[derive(Debug, PartialEq, Eq, Structural)]
pub struct SpeedDecision {
    /// Whether the speed is measured now, so that the clock starts over.
    pub reset_clock: bool,
    /// Where the speed is measured: the bytes received since the last
    /// measurement, to be divided by the time that passed.
    pub measured_bytes: Option<u64>,
}

/// Keeps the transfer at or under `max_speed` bytes per second.
pub struct SpeedLimitExtension {
    max_speed: u64,
    downloaded: u64,
}

impl SpeedLimitExtension {
    pub closed spec fn max_speed_spec(self) -> u64 {
        self.max_speed
    }

    /// The bytes received since the speed was last measured.
    pub closed spec fn pending_spec(self) -> u64 {
        self.downloaded
    }

    /// A limiter for `max_speed` bytes per second, with nothing received yet.
    pub fn new(max_speed: u64) -> (e: Self)
        ensures
            e.max_speed_spec() == max_speed,
            e.pending_spec() == 0,
    {
        SpeedLimitExtension { max_speed, downloaded: 0 }
    }

    pub fn max_speed(&self) -> (m: u64)
        ensures
            m == self.max_speed_spec(),
    {
        self.max_speed
    }

    /// Counts `bytes` more as received (the count wraps around, as an atomic
    /// counter does), `elapsed_nanos` after the speed was last measured. Once
    /// `SPEED_CHECK_INTERVAL_NANOS` have passed, the count is handed out to
    /// be measured, starts over at 0, and the clock is reset.
    pub fn limit_speed(&mut self, bytes: u64, elapsed_nanos: u64) -> (d: SpeedDecision)
        ensures
            final(self).max_speed_spec() == old(self).max_speed_spec(),
            ({
                let received = ((old(self).pending_spec() as int + bytes) % 0x1_0000_0000_0000_0000) as u64;
                if elapsed_nanos >= SPEED_CHECK_INTERVAL_NANOS {
                    &&& final(self).pending_spec() == 0
                    &&& d.reset_clock
                    &&& d.measured_bytes == Some(received)
                } else {
                    &&& final(self).pending_spec() == received
                    &&& !d.reset_clock
                    &&& d.measured_bytes is None
                }
            }),
    {
        self.downloaded = self.downloaded.wrapping_add(bytes);
        if elapsed_nanos < SPEED_CHECK_INTERVAL_NANOS {
            return SpeedDecision { reset_clock: false, measured_bytes: None };
        }
        let received: u64 = self.downloaded;
        self.downloaded = 0;
        SpeedDecision { reset_clock: true, measured_bytes: Some(received) }
    }
}

} // verus!
