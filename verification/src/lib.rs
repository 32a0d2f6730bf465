//! Server core for a point-to-point tunnel whose uplink runs over TCP and
//! whose downlink is relayed through a rotating pool of remote storage slots.
//!
//! This crate holds the verified logic: the wire framing, the handshake
//! encoding, the slot pool with its round-robin cursor, and the relay worker's
//! batching state machine. The surrounding process (sockets, the virtual
//! interface, the storage client, the token flow) drives these functions and
//! performs the actual I/O.

pub mod frame;
pub mod gdrive;
pub mod queue;
pub mod settings;
pub mod slots;
