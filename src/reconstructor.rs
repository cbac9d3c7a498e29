//! Transmissions, protocol classification and the dispatcher that routes
//! each URB to exactly one protocol reconstructor.

use vstd::prelude::*;
use crate::bytes::{le_u32_at, read_le_u32};
use crate::urb::{UrbXractHeader, UrbXractPacket, PacketView};
use crate::protocol_serial::{
    self, SerialState, serial_step, state_wf, lemma_emitted_header_is_first_source, lemma_step_wf,
    lemma_step_emission_order,
};
use crate::protocol_scsi::{self, scsi_record};

verus! {

/// A reconstructed application-level payload together with the URBs that
/// contributed to it.
#[derive(Debug)]
pub struct ReconstructedTransmission {
    /// Header of the URB that opened this transmission.
    pub header: UrbXractHeader,
    pub combined_payload: String,
    pub sources: Vec<UrbXractPacket>,
}

/// Mathematical value of a [`ReconstructedTransmission`].
pub struct TransmissionView {
    pub header: UrbXractHeader,
    pub payload: Seq<char>,
    pub sources: Seq<PacketView>,
}

impl View for ReconstructedTransmission {
    type V = TransmissionView;

    open spec fn view(&self) -> TransmissionView {
        TransmissionView {
            header: self.header,
            payload: self.combined_payload@,
            sources: self.sources@.map_values(|p: UrbXractPacket| p@),
        }
    }
}

/// Views of a sequence of transmissions, in order.
pub open spec fn transmission_views(ts: Seq<ReconstructedTransmission>) -> Seq<TransmissionView> {
    ts.map_values(|t: ReconstructedTransmission| t@)
}

/// Signature of a USB mass-storage Command Block Wrapper: "USBC" read as a
/// little-endian `u32`.
pub const COMMAND_BLK_WRAP_SIGNATURE: u32 = 0x43425355;

/// Layout of a 31-byte Command Block Wrapper, which opens every Bulk-Only
/// Transport command.
#[derive(Debug)]
pub struct CommandBlockWrapper {
    pub signature: u32,
    pub tag: u32,
    pub length: u32,
    pub direction: u8,
    pub logical_unitnumber: u8,
    pub command_length: u8,
    pub command_data: [u8; 16],
}

/// Layout of a 13-byte Command Status Wrapper, which closes every Bulk-Only
/// Transport command.
#[derive(Debug)]
pub struct CommandStatusWrapper {
    pub signature: u32,
    pub tag: u32,
    pub residue: u32,
    pub status: u8,
}

/// The protocol reconstructor a URB is routed to.
#[derive(Clone, Copy, Debug, PartialEq, Eq, Structural)]
pub enum Protocol {
    MassStorage,
    Serial,
}

/// A payload is routed to mass storage exactly when its first four bytes,
/// read little-endian, are the CBW signature.
pub open spec fn route_of(payload: Seq<u8>) -> Protocol {
    if payload.len() >= 4 && le_u32_at(payload, 0) == COMMAND_BLK_WRAP_SIGNATURE {
        Protocol::MassStorage
    } else {
        Protocol::Serial
    }
}

/// Chooses the reconstructor for a non-empty payload.
pub fn classify_payload(payload: &[u8]) -> (r: Protocol)
    ensures
        r == route_of(payload@),
{
    if payload.len() >= 4 && read_le_u32(payload, 0) == COMMAND_BLK_WRAP_SIGNATURE {
        Protocol::MassStorage
    } else {
        Protocol::Serial
    }
}

/// Effect of one URB on the dispatcher: URBs without payload are dropped,
/// CBW URBs go to mass storage, all others to the serial reconstructor.
pub open spec fn dispatch_step(s: SerialState, p: PacketView) -> (SerialState, Seq<TransmissionView>) {
    match p.data {
        None => (s, seq![]),
        Some(d) => if d.len() == 0 {
            (s, seq![])
        } else if route_of(d) == Protocol::MassStorage {
            (s, seq![scsi_record(p.header)])
        } else {
            serial_step(s, p)
        },
    }
}

/// Owns one reconstructor per protocol and routes each URB to one of them.
pub struct Dispatcher {
    serial: protocol_serial::Reconstructor,
    scsi: protocol_scsi::Reconstructor,
}

impl View for Dispatcher {
    type V = SerialState;

    /// The dispatcher's only state is the serial reconstructor's.
    closed spec fn view(&self) -> SerialState {
        self.serial@
    }
}

impl Dispatcher {
    pub open spec fn wf(&self) -> bool {
        state_wf(self@)
    }

    pub fn new() -> (r: Dispatcher)
        ensures
            r.wf(),
            r@.entries.len() == 0,
    {
        Dispatcher {
            serial: protocol_serial::Reconstructor::new(),
            scsi: protocol_scsi::Reconstructor::new(),
        }
    }

    /// Routes one URB and returns the transmissions it completes, in order.
    pub fn consume(&mut self, urb_packet: UrbXractPacket) -> (r: Vec<ReconstructedTransmission>)
        requires
            old(self).wf(),
        ensures
            final(self).wf(),
            (final(self)@, transmission_views(r@)) == dispatch_step(old(self)@, urb_packet@),
    {
        let route = match &urb_packet.data {
            None => None,
            Some(d) => if d.len() == 0 {
                None
            } else {
                Some(classify_payload(d.as_slice()))
            },
        };
        match route {
            None => {
                let out: Vec<ReconstructedTransmission> = Vec::new();
                assert(transmission_views(out@) =~= Seq::<TransmissionView>::empty());
                out
            },
            Some(Protocol::MassStorage) => self.scsi.consume_packet(urb_packet),
            Some(Protocol::Serial) => self.serial.consume_packet(urb_packet),
        }
    }

    /// Called when the URB source has closed: dispatches every serial record
    /// still in progress, in the order they were opened.
    pub fn finish(&mut self) -> (r: Vec<ReconstructedTransmission>)
        requires
            old(self).wf(),
        ensures
            final(self).wf(),
            final(self)@.entries.len() == 0,
            transmission_views(r@) == old(self)@.entries,
    {
        self.serial.flush_all()
    }
}

/// Leading bytes of a payload that decide its route: the first four, or the
/// whole payload when it is shorter.
pub open spec fn routing_prefix(payload: Seq<u8>) -> Seq<u8> {
    if payload.len() >= 4 {
        payload.subrange(0, 4)
    } else {
        payload
    }
}

/// Each URB with a non-empty payload reaches exactly one reconstructor: either
/// mass storage, leaving the serial state untouched, or the serial
/// reconstructor. Which one depends only on the payload's first four bytes.
pub proof fn lemma_exactly_one_module(s: SerialState, p: PacketView, q: PacketView)
    requires
        p.data matches Some(d) && d.len() > 0,
        q.data matches Some(d) && d.len() > 0,
        routing_prefix(p.data->Some_0) == routing_prefix(q.data->Some_0),
    ensures
        route_of(p.data->Some_0) == route_of(q.data->Some_0),
        route_of(p.data->Some_0) == Protocol::MassStorage ==> dispatch_step(s, p) == (
        s,
        seq![scsi_record(p.header)],
        ),
        route_of(p.data->Some_0) == Protocol::Serial ==> dispatch_step(s, p) == serial_step(s, p),
{
    let a = p.data->Some_0;
    let b = q.data->Some_0;
    if a.len() >= 4 {
        assert(routing_prefix(a).len() == 4);
        assert(b.len() >= 4);
        assert(a[0] == routing_prefix(a)[0] && a[1] == routing_prefix(a)[1]);
        assert(a[2] == routing_prefix(a)[2] && a[3] == routing_prefix(a)[3]);
        assert(b[0] == routing_prefix(b)[0] && b[1] == routing_prefix(b)[1]);
        assert(b[2] == routing_prefix(b)[2] && b[3] == routing_prefix(b)[3]);
    } else {
        if b.len() >= 4 {
            assert(routing_prefix(b).len() == 4);
        }
    }
}

/// A URB without payload, or with an empty one, is dropped: no state change
/// and nothing dispatched.
pub proof fn lemma_empty_payload_dropped(s: SerialState, p: PacketView)
    requires
        p.data matches Some(d) ==> d.len() == 0,
    ensures
        dispatch_step(s, p) == (s, Seq::<TransmissionView>::empty()),
{
}

/// A payload shorter than four bytes cannot hold the CBW signature and goes to
/// the serial reconstructor.
pub proof fn lemma_short_payload_is_serial(s: SerialState, p: PacketView)
    requires
        p.data matches Some(d) && 0 < d.len() < 4,
    ensures
        route_of(p.data->Some_0) == Protocol::Serial,
        dispatch_step(s, p) == serial_step(s, p),
{
}

/// The CBW signature alone decides: a URB whose payload opens with it goes to
/// mass storage whatever the direction of its endpoint.
pub proof fn lemma_signature_routes_any_direction(s: SerialState, p: PacketView)
    requires
        p.data matches Some(d) && d.len() >= 4 && le_u32_at(d, 0) == COMMAND_BLK_WRAP_SIGNATURE,
    ensures
        dispatch_step(s, p) == (s, seq![scsi_record(p.header)]),
{
}

/// Every transmission the dispatcher emits carries the header of the URB that
/// opened it: the first of its sources, or for a mass-storage record (which
/// keeps no sources) the triggering URB.
pub proof fn lemma_dispatched_header(s: SerialState, p: PacketView)
    requires
        state_wf(s),
    ensures
        forall|i: int|
            0 <= i < dispatch_step(s, p).1.len() ==> {
                ||| ((#[trigger] dispatch_step(s, p).1[i]).sources.len() >= 1
                    && dispatch_step(s, p).1[i].header == dispatch_step(s, p).1[i].sources[0].header)
                ||| (dispatch_step(s, p).1[i].sources.len() == 0 && dispatch_step(s, p).1[i].header
                    == p.header)
            },
{
    if p.data matches Some(d) && d.len() > 0 && route_of(d) == Protocol::Serial {
        lemma_emitted_header_is_first_source(s, p);
    }
}

/// Effect of a sequence of URBs fed to the dispatcher one after another: the
/// final state and every transmission dispatched, in order.
pub open spec fn dispatch_feed(s: SerialState, ps: Seq<PacketView>) -> (SerialState, Seq<TransmissionView>)
    decreases ps.len(),
{
    if ps.len() == 0 {
        (s, seq![])
    } else {
        let (s1, e1) = dispatch_feed(s, ps.drop_last());
        let (s2, e2) = dispatch_step(s1, ps.last());
        (s2, e1 + e2)
    }
}

/// Every dispatcher step keeps the serial state well formed.
pub proof fn lemma_dispatch_step_wf(s: SerialState, p: PacketView)
    requires
        state_wf(s),
    ensures
        state_wf(dispatch_step(s, p).0),
{
    if p.data matches Some(d) && d.len() > 0 && route_of(d) == Protocol::Serial {
        lemma_step_wf(s, p);
    }
}

/// Feeding any sequence of URBs keeps the serial state well formed.
pub proof fn lemma_dispatch_feed_wf(s: SerialState, ps: Seq<PacketView>)
    requires
        state_wf(s),
    ensures
        state_wf(dispatch_feed(s, ps).0),
    decreases ps.len(),
{
    if ps.len() > 0 {
        lemma_dispatch_feed_wf(s, ps.drop_last());
        lemma_dispatch_step_wf(dispatch_feed(s, ps.drop_last()).0, ps.last());
    }
}

/// Transmissions come out in the order of the URBs that trigger them: what a
/// run of URBs dispatches is what its first part dispatches, followed by what
/// the rest dispatches from the state the first part left.
pub proof fn lemma_dispatch_feed_split(s: SerialState, a: Seq<PacketView>, b: Seq<PacketView>)
    ensures
        dispatch_feed(s, a + b).0 == dispatch_feed(dispatch_feed(s, a).0, b).0,
        dispatch_feed(s, a + b).1 == dispatch_feed(s, a).1 + dispatch_feed(dispatch_feed(s, a).0, b).1,
    decreases b.len(),
{
    if b.len() == 0 {
        assert(a + b =~= a);
        assert(dispatch_feed(s, a).1 + Seq::<TransmissionView>::empty() =~= dispatch_feed(s, a).1);
    } else {
        assert((a + b).drop_last() =~= a + b.drop_last());
        assert((a + b).last() == b.last());
        lemma_dispatch_feed_split(s, a, b.drop_last());
        let t = dispatch_feed(s, a).0;
        let e2 = dispatch_step(dispatch_feed(t, b.drop_last()).0, b.last()).1;
        assert(dispatch_feed(s, a).1 + dispatch_feed(t, b.drop_last()).1 + e2 =~= dispatch_feed(s, a).1
            + (dispatch_feed(t, b.drop_last()).1 + e2));
    }
}

/// Headers of the mass-storage records among a sequence of transmissions,
/// in order: those are the records without sources.
pub open spec fn placeholder_headers(ts: Seq<TransmissionView>) -> Seq<UrbXractHeader>
    decreases ts.len(),
{
    if ts.len() == 0 {
        seq![]
    } else {
        let rest = placeholder_headers(ts.drop_last());
        if ts.last().sources.len() == 0 {
            rest.push(ts.last().header)
        } else {
            rest
        }
    }
}

/// Headers of the URBs in a sequence that are routed to mass storage.
pub open spec fn cbw_headers(ps: Seq<PacketView>) -> Seq<UrbXractHeader>
    decreases ps.len(),
{
    if ps.len() == 0 {
        seq![]
    } else {
        let rest = cbw_headers(ps.drop_last());
        let p = ps.last();
        if p.data matches Some(d) && d.len() > 0 && route_of(d) == Protocol::MassStorage {
            rest.push(p.header)
        } else {
            rest
        }
    }
}

proof fn lemma_placeholder_headers_append(a: Seq<TransmissionView>, b: Seq<TransmissionView>)
    ensures
        placeholder_headers(a + b) == placeholder_headers(a) + placeholder_headers(b),
    decreases b.len(),
{
    if b.len() == 0 {
        assert(a + b =~= a);
        assert(placeholder_headers(a) + placeholder_headers(b) =~= placeholder_headers(a));
    } else {
        assert((a + b).drop_last() =~= a + b.drop_last());
        assert((a + b).last() == b.last());
        lemma_placeholder_headers_append(a, b.drop_last());
        assert(placeholder_headers(a + b) =~= placeholder_headers(a) + placeholder_headers(b));
    }
}

proof fn lemma_placeholder_headers_step(s: SerialState, p: PacketView)
    requires
        state_wf(s),
    ensures
        placeholder_headers(dispatch_step(s, p).1) == cbw_headers(seq![p]),
{
    let e = dispatch_step(s, p).1;
    assert(seq![p].drop_last() =~= Seq::<PacketView>::empty());
    assert(seq![p].last() == p);
    assert(placeholder_headers(Seq::<TransmissionView>::empty()) =~= Seq::<UrbXractHeader>::empty());
    assert(cbw_headers(Seq::<PacketView>::empty()) =~= Seq::<UrbXractHeader>::empty());
    let d = p.data->Some_0;
    if p.data is Some && d.len() > 0 {
        if route_of(d) == Protocol::MassStorage {
            assert(e.drop_last() =~= Seq::<TransmissionView>::empty());
            assert(placeholder_headers(e) =~= seq![p.header]);
            assert(cbw_headers(seq![p]) =~= seq![p.header]);
        } else {
            assert(e == serial_step(s, p).1);
            lemma_emitted_header_is_first_source(s, p);
            lemma_step_emission_order(s, p);
            if e.len() == 1 {
                assert(e.drop_last() =~= Seq::<TransmissionView>::empty());
                assert(e.last() == e[0]);
                assert(e[0].sources.len() >= 1);
                assert(placeholder_headers(e) == placeholder_headers(e.drop_last()));
            } else if e.len() == 2 {
                assert(e.drop_last() =~= seq![e[0]]);
                assert(seq![e[0]].drop_last() =~= Seq::<TransmissionView>::empty());
                assert(e[0].sources.len() >= 1 && e[1].sources.len() >= 1);
                assert(seq![e[0]].last() == e[0]);
                assert(e.last() == e[1]);
                assert(placeholder_headers(seq![e[0]]) == placeholder_headers(
                    Seq::<TransmissionView>::empty(),
                ));
                assert(placeholder_headers(e) == placeholder_headers(e.drop_last()));
            }
            assert(placeholder_headers(e) =~= Seq::<UrbXractHeader>::empty());
        }
    } else {
        assert(placeholder_headers(e) =~= Seq::<UrbXractHeader>::empty());
    }
}

/// Mass-storage records come out one for each URB routed to mass storage, in
/// the order those URBs arrived, each with its URB's header; every other
/// transmission has at least one source.
pub proof fn lemma_mass_storage_order(s: SerialState, ps: Seq<PacketView>)
    requires
        state_wf(s),
    ensures
        placeholder_headers(dispatch_feed(s, ps).1) == cbw_headers(ps),
    decreases ps.len(),
{
    if ps.len() == 0 {
        assert(placeholder_headers(Seq::<TransmissionView>::empty()) =~= Seq::<UrbXractHeader>::empty());
    } else {
        let pre = ps.drop_last();
        let p = ps.last();
        lemma_mass_storage_order(s, pre);
        lemma_dispatch_feed_wf(s, pre);
        let t = dispatch_feed(s, pre).0;
        lemma_placeholder_headers_step(t, p);
        lemma_placeholder_headers_append(dispatch_feed(s, pre).1, dispatch_step(t, p).1);
        assert(seq![p].drop_last() =~= Seq::<PacketView>::empty());
        assert(seq![p].last() == p);
        assert(cbw_headers(Seq::<PacketView>::empty()) =~= Seq::<UrbXractHeader>::empty());
        assert(cbw_headers(ps) =~= cbw_headers(pre) + cbw_headers(seq![p]));
    }
}

} // verus!
