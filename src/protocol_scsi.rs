//! Mass-storage reconstructor.
//!
//! URBs that open with a Command Block Wrapper are only recognised: each one
//! yields a placeholder transmission carrying the triggering URB's header.

use vstd::prelude::*;
use crate::urb::{UrbXractHeader, UrbXractPacket};
use crate::reconstructor::{ReconstructedTransmission, TransmissionView, transmission_views};

verus! {

/// Text of the placeholder transmission for a recognised CBW.
pub open spec fn scsi_marker() -> Seq<char> {
    "(Identified SCSI Packet: Parsing Not Implemented)"@
}

/// The placeholder transmission for a CBW URB with header `h`.
pub open spec fn scsi_record(h: UrbXractHeader) -> TransmissionView {
    TransmissionView { header: h, payload: scsi_marker(), sources: seq![] }
}

/// The mass-storage reconstructor; it keeps no state between URBs.
pub struct Reconstructor {}

impl Reconstructor {
    pub fn new() -> (r: Reconstructor) {
        Reconstructor {  }
    }

    /// Emits the placeholder transmission for one CBW URB.
    pub fn consume_packet(&mut self, urb_packet: UrbXractPacket) -> (r: Vec<ReconstructedTransmission>)
        ensures
            transmission_views(r@) == seq![scsi_record(urb_packet.header)],
    {
        let t = ReconstructedTransmission {
            header: urb_packet.header,
            combined_payload: String::from_str("(Identified SCSI Packet: Parsing Not Implemented)"),
            sources: Vec::new(),
        };
        assert(t@.sources =~= Seq::empty());
        let out = vec![t];
        assert(transmission_views(out@) =~= seq![scsi_record(urb_packet.header)]);
        out
    }
}

} // verus!
