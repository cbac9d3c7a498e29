//! Capture-and-reconstruction core of a USB Request Block (URB) observer.
//!
//! Raw capture records are decoded into normalised URB packets, classified by
//! protocol, and folded by per-protocol reconstructors into transmissions.

pub mod bytes;
pub mod urb;
pub mod reconstructor;
pub mod protocol_serial;
pub mod protocol_scsi;
pub mod sniffer;
pub mod devices;
pub mod licenses;
pub mod textui;
