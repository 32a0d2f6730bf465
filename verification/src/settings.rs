//! The configuration surface the core consumes. Loading it from disk is the
//! surrounding process's job; the core only reads these values.

use vstd::prelude::*;

verus! {

#[derive(Debug, Clone)]
pub struct Settings {
    /// Batch window, in milliseconds.
    pub packet_duration: u64,
    /// Bound of the inbound packet channel; a full channel suspends the
    /// producer.
    pub max_queued_packets: usize,
    /// Identifier of the folder the slots live in.
    pub folder_id: String,
    /// How many slots the relay rotates through.
    pub file_count: u16,
    /// TCP listen port.
    pub port: u16,
}

impl Settings {
    /// A configuration the relay can run with: at least one slot to rotate
    /// through.
    pub open spec fn valid(self) -> bool {
        self.file_count > 0
    }

    /// Runtime form of `valid`, for the startup path to test before it builds
    /// the pool.
    pub fn is_valid(&self) -> (r: bool)
        ensures
            r == self.valid(),
    {
        self.file_count > 0
    }
}

} // verus!
