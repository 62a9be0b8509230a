//! Wall-clock time, made monotonically non-decreasing.
//!
//! Every accepted record is stamped server-side. The system clock alone can
//! step backwards, so the store keeps the last timestamp it handed out and
//! never goes below it: within one store the stream of timestamps is
//! non-decreasing, which is what the per-device history buffers rely on.

use vstd::prelude::*;

verus! {

/// Relies on std::time::SystemTime::now and Duration::as_millis:
/// milliseconds since the Unix epoch, 0 when the system clock reads
/// earlier than the epoch. Nothing is assumed of the value: the system
/// clock may jump either way between calls.
#[verifier::external_body]
fn system_millis() -> u64 {
    match std::time::SystemTime::now().duration_since(std::time::UNIX_EPOCH) {
        Ok(d) => d.as_millis() as u64,
        Err(_) => 0,
    }
}

/// The current wall-clock time in milliseconds since the Unix epoch.
/// Successive calls may report a smaller value when the system clock is
/// set back; `Clock` is the source that never decreases.
pub fn now() -> u64 {
    system_millis()
}

/// A source of millisecond timestamps that never decreases: each tick
/// reads the system clock and clamps it to the last value handed out.
pub struct Clock {
    last: u64,
}

impl Clock {
    /// The greatest timestamp handed out so far (0 before the first tick).
    pub closed spec fn last_time(&self) -> u64 {
        self.last
    }

    /// A fresh clock; its first tick is bounded below only by 0.
    pub fn new() -> (c: Clock)
        ensures
            c.last_time() == 0,
    {
        Clock { last: 0 }
    }

    /// Read the clock. The result never falls below any earlier tick of
    /// the same clock, and becomes the new greatest timestamp.
    pub fn tick(&mut self) -> (t: u64)
        ensures
            t >= old(self).last_time(),
            final(self).last_time() == t,
    {
        let raw = system_millis();
        if raw > self.last {
            self.last = raw;
        }
        self.last
    }
}

} // verus!
