//! The plain data carried through the store.
//!
//! A reading's rate and cumulative volume are 32-bit values supplied by the
//! client and trusted verbatim: the store never interprets them, it only
//! carries them. They are held here as the raw bit patterns of the wire
//! format's single-precision numbers; the layer that parses and serialises
//! requests converts between the numeric form and these bits.

use vstd::prelude::*;

verus! {

/// One reading as supplied by a client: the rate and the cumulative volume,
/// as raw 32-bit patterns.
#[derive(Clone, Copy, PartialEq, Eq, Structural, Debug)]
pub struct InputRecord {
    pub rate: u32,
    pub total_volume: u32,
}

/// One stored reading: the client's values plus the server-assigned
/// timestamp in milliseconds since the Unix epoch.
#[derive(Clone, Copy, PartialEq, Eq, Structural, Debug)]
pub struct Record {
    pub timestamp: u64,
    pub rate: u32,
    pub total_volume: u32,
}

/// One entry of a poll reply: a device, its display alias (the device id
/// itself when none was registered), and its most recent record.
#[derive(Clone, PartialEq, Debug)]
pub struct OutputRecord {
    pub device_id: String,
    pub alias: String,
    pub record: Record,
}

/// The body of a register request: the display alias to associate with the
/// device named in the request path.
#[derive(Clone, PartialEq, Debug)]
pub struct RegisterRequest {
    pub alias: String,
}

impl Default for Record {
    /// A placeholder reading: zero rate and volume, stamped with the
    /// current wall-clock time.
    fn default() -> (r: Record)
        ensures
            r.rate == 0,
            r.total_volume == 0,
    {
        Record { timestamp: crate::clock::now(), rate: 0, total_volume: 0 }
    }
}

impl View for OutputRecord {
    type V = (Seq<char>, Seq<char>, Record);

    open spec fn view(&self) -> (Seq<char>, Seq<char>, Record) {
        (self.device_id@, self.alias@, self.record)
    }
}

} // verus!
