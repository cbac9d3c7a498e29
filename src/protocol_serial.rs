//! Serial (UTF-8 stream) reconstructor.
//!
//! URBs are aggregated per `(bus, device, direction)` into line-oriented text.
//! A record is dispatched when a URB's text ends with a newline; a URB that is
//! not valid UTF-8 first dispatches the text in progress for its key, then is
//! dispatched on its own as a binary record.

use vstd::prelude::*;
use vstd::utf8::{valid_utf8, decode_utf8, encode_utf8_decode_utf8};
use vstd::string::StringSliceAdditionalSpecFns;
use crate::urb::{
    UrbXractHeader, UrbXractPacket, PacketView, SerialKey, serial_key, same_serial_key,
};
use crate::reconstructor::{ReconstructedTransmission, TransmissionView, transmission_views};

verus! {

/// Text carried by a transmission made from a URB that is not valid UTF-8.
pub open spec fn binary_marker() -> Seq<char> {
    "(Non-UTF8 Binary Data)"@
}

pub open spec fn ends_with_newline(t: Seq<char>) -> bool {
    t.len() > 0 && t.last() == '\n'
}

/// Text of a sequence of UTF-8 payloads, decoded one by one and joined.
pub open spec fn decoded_concat(chunks: Seq<Seq<u8>>) -> Seq<char>
    decreases chunks.len(),
{
    if chunks.len() == 0 {
        seq![]
    } else {
        decoded_concat(chunks.drop_last()) + decode_utf8(chunks.last())
    }
}

/// Abstract state of the serial reconstructor: the records in progress, in
/// the order they were opened, and for each the raw payloads it was built from.
pub struct SerialState {
    pub entries: Seq<TransmissionView>,
    pub received: Seq<Seq<Seq<u8>>>,
}

pub open spec fn has_key(entries: Seq<TransmissionView>, k: SerialKey) -> bool {
    exists|i: int| 0 <= i < entries.len() && serial_key(#[trigger] entries[i].header) == k
}

/// Position of the record in progress for key `k`, or -1 when there is none.
pub open spec fn key_index(entries: Seq<TransmissionView>, k: SerialKey) -> int {
    if has_key(entries, k) {
        choose|i: int| 0 <= i < entries.len() && serial_key(#[trigger] entries[i].header) == k
    } else {
        -1
    }
}

/// One record in progress is well formed: it was opened by its first source,
/// every source is a payload-free copy of a URB under the same key, and its
/// text is exactly the UTF-8 decoding of the payloads received, none of which
/// ended a line.
pub open spec fn entry_wf(e: TransmissionView, received: Seq<Seq<u8>>) -> bool {
    &&& e.sources.len() >= 1
    &&& received.len() == e.sources.len()
    &&& e.header == e.sources[0].header
    &&& forall|j: int|
        0 <= j < e.sources.len() ==> {
            &&& (#[trigger] e.sources[j]).data is None
            &&& serial_key(e.sources[j].header) == serial_key(e.header)
        }
    &&& forall|j: int|
        0 <= j < received.len() ==> {
            &&& valid_utf8(#[trigger] received[j])
            &&& !ends_with_newline(decode_utf8(received[j]))
        }
    &&& e.payload == decoded_concat(received)
}

pub open spec fn state_wf(s: SerialState) -> bool {
    &&& s.entries.len() == s.received.len()
    &&& forall|i: int, j: int|
        0 <= i < j < s.entries.len() ==> serial_key(#[trigger] s.entries[i].header)
            != serial_key(#[trigger] s.entries[j].header)
    &&& forall|i: int| 0 <= i < s.entries.len() ==> entry_wf(#[trigger] s.entries[i], s.received[i])
}

/// The record a non-UTF-8 URB produces on its own.
pub open spec fn binary_record(p: PacketView) -> TransmissionView {
    TransmissionView { header: p.header, payload: binary_marker(), sources: seq![p] }
}

pub open spec fn remove_entry(s: SerialState, i: int) -> SerialState {
    SerialState { entries: s.entries.remove(i), received: s.received.remove(i) }
}

/// Effect of one URB with a payload on the serial state: the new state and
/// the transmissions dispatched, in order.
pub open spec fn serial_step(s: SerialState, p: PacketView) -> (SerialState, Seq<TransmissionView>) {
    let bytes = p.data->Some_0;
    let i = key_index(s.entries, serial_key(p.header));
    if !valid_utf8(bytes) {
        if i >= 0 {
            (remove_entry(s, i), seq![s.entries[i], binary_record(p)])
        } else {
            (s, seq![binary_record(p)])
        }
    } else {
        let text = decode_utf8(bytes);
        let src = PacketView { header: p.header, data: None };
        let e = if i >= 0 {
            TransmissionView {
                header: s.entries[i].header,
                payload: s.entries[i].payload + text,
                sources: s.entries[i].sources.push(src),
            }
        } else {
            TransmissionView { header: p.header, payload: text, sources: seq![src] }
        };
        let r = if i >= 0 {
            s.received[i].push(bytes)
        } else {
            seq![bytes]
        };
        if ends_with_newline(text) {
            if i >= 0 {
                (remove_entry(s, i), seq![e])
            } else {
                (s, seq![e])
            }
        } else if i >= 0 {
            (SerialState { entries: s.entries.update(i, e), received: s.received.update(i, r) }, seq![])
        } else {
            (SerialState { entries: s.entries.push(e), received: s.received.push(r) }, seq![])
        }
    }
}

/// Dropping one record keeps the state well formed.
proof fn lemma_remove_entry_wf(s: SerialState, i: int)
    requires
        state_wf(s),
        0 <= i < s.entries.len(),
    ensures
        state_wf(remove_entry(s, i)),
{
    let t = remove_entry(s, i);
    assert forall|a: int| 0 <= a < t.entries.len() implies entry_wf(
        #[trigger] t.entries[a],
        t.received[a],
    ) by {
        if a < i {
            assert(t.entries[a] == s.entries[a]);
        } else {
            assert(t.entries[a] == s.entries[a + 1]);
        }
    }
    assert forall|a: int, b: int| 0 <= a < b < t.entries.len() implies serial_key(
        #[trigger] t.entries[a].header,
    ) != serial_key(#[trigger] t.entries[b].header) by {
        let a2 = if a < i { a } else { a + 1 };
        let b2 = if b < i { b } else { b + 1 };
        assert(t.entries[a] == s.entries[a2]);
        assert(t.entries[b] == s.entries[b2]);
    }
}

proof fn lemma_decoded_concat_push(r: Seq<Seq<u8>>, b: Seq<u8>)
    ensures
        decoded_concat(r.push(b)) == decoded_concat(r) + decode_utf8(b),
{
    assert(r.push(b).drop_last() =~= r);
}

/// Every step keeps the serial state well formed.
pub proof fn lemma_step_wf(s: SerialState, p: PacketView)
    requires
        state_wf(s),
        p.data is Some,
    ensures
        state_wf(serial_step(s, p).0),
{
    let bytes = p.data->Some_0;
    let k = serial_key(p.header);
    let i = key_index(s.entries, k);
    if i >= 0 {
        assert(0 <= i < s.entries.len() && serial_key(s.entries[i].header) == k);
    }
    if !valid_utf8(bytes) {
        if i >= 0 {
            lemma_remove_entry_wf(s, i);
        }
    } else {
        let text = decode_utf8(bytes);
        if ends_with_newline(text) {
            if i >= 0 {
                lemma_remove_entry_wf(s, i);
            }
        } else {
            let t = serial_step(s, p).0;
            let src = PacketView { header: p.header, data: None };
            if i >= 0 {
                let e = t.entries[i];
                let r = t.received[i];
                lemma_decoded_concat_push(s.received[i], bytes);
                assert(e.sources == s.entries[i].sources.push(src));
                assert(r == s.received[i].push(bytes));
                assert forall|j: int| 0 <= j < r.len() implies {
                    &&& valid_utf8(#[trigger] r[j])
                    &&& !ends_with_newline(decode_utf8(r[j]))
                } by {
                    if j < r.len() - 1 {
                        assert(r[j] == s.received[i][j]);
                    }
                }
                assert forall|j: int| 0 <= j < e.sources.len() implies {
                    &&& (#[trigger] e.sources[j]).data is None
                    &&& serial_key(e.sources[j].header) == serial_key(e.header)
                } by {
                    if j < e.sources.len() - 1 {
                        assert(e.sources[j] == s.entries[i].sources[j]);
                    }
                }
                assert(entry_wf(e, r));
                assert forall|a: int| 0 <= a < t.entries.len() implies entry_wf(
                    #[trigger] t.entries[a],
                    t.received[a],
                ) by {
                    if a != i {
                        assert(t.entries[a] == s.entries[a]);
                    }
                }
                assert forall|a: int, b: int| 0 <= a < b < t.entries.len() implies serial_key(
                    #[trigger] t.entries[a].header,
                ) != serial_key(#[trigger] t.entries[b].header) by {
                    assert(t.entries[a].header == s.entries[a].header);
                    assert(t.entries[b].header == s.entries[b].header);
                }
            } else {
                let n = s.entries.len() as int;
                let e = t.entries[n];
                let r = t.received[n];
                lemma_decoded_concat_push(Seq::empty(), bytes);
                assert(seq![bytes] =~= Seq::<Seq<u8>>::empty().push(bytes));
                assert(decoded_concat(Seq::<Seq<u8>>::empty()) =~= Seq::<char>::empty());
                assert(e.payload =~= decoded_concat(r));
                assert(entry_wf(e, r));
                assert forall|a: int| 0 <= a < t.entries.len() implies entry_wf(
                    #[trigger] t.entries[a],
                    t.received[a],
                ) by {
                    if a < n {
                        assert(t.entries[a] == s.entries[a]);
                    }
                }
                assert forall|a: int, b: int| 0 <= a < b < t.entries.len() implies serial_key(
                    #[trigger] t.entries[a].header,
                ) != serial_key(#[trigger] t.entries[b].header) by {
                    assert(t.entries[a] == s.entries[a]);
                    if b == n {
                        assert(!has_key(s.entries, k));
                        assert(serial_key(s.entries[a].header) != k);
                    } else {
                        assert(t.entries[b] == s.entries[b]);
                    }
                }
            }
        }
    }
}

/// Relies on `core::str::from_utf8`: it succeeds exactly when the bytes are
/// valid UTF-8, and then the text has those bytes as its encoding.
#[verifier::external_body]
fn utf8_text(bytes: &[u8]) -> (r: Option<&str>)
    ensures
        r is Some <==> valid_utf8(bytes@),
        r matches Some(t) ==> t.spec_bytes() == bytes@,
{
    core::str::from_utf8(bytes).ok()
}

fn ends_with_newline_exec(t: &str) -> (r: bool)
    ensures
        r == ends_with_newline(t@),
{
    let n = t.unicode_len();
    n > 0 && t.get_char(n - 1) == '\n'
}

/// The serial reconstructor: at most one record in progress per key.
pub struct Reconstructor {
    datastore: Vec<ReconstructedTransmission>,
    received: Ghost<Seq<Seq<Seq<u8>>>>,
}

impl View for Reconstructor {
    type V = SerialState;

    closed spec fn view(&self) -> SerialState {
        SerialState { entries: transmission_views(self.datastore@), received: self.received@ }
    }
}

impl Reconstructor {
    pub open spec fn wf(&self) -> bool {
        state_wf(self@)
    }

    pub fn new() -> (r: Reconstructor)
        ensures
            r.wf(),
            r@.entries.len() == 0,
    {
        let r = Reconstructor { datastore: Vec::new(), received: Ghost(Seq::empty()) };
        assert(r@.entries =~= Seq::<TransmissionView>::empty());
        r
    }

    fn find_entry(&self, header: &UrbXractHeader) -> (r: Option<usize>)
        requires
            self.wf(),
        ensures
            match r {
                Some(i) => i < self.datastore.len() && i == key_index(self@.entries, serial_key(*header)),
                None => key_index(self@.entries, serial_key(*header)) == -1,
            },
    {
        let ghost k = serial_key(*header);
        let ghost entries = self@.entries;
        let mut i: usize = 0;
        while i < self.datastore.len()
            invariant
                self.wf(),
                entries == self@.entries,
                k == serial_key(*header),
                i <= self.datastore.len(),
                forall|j: int| 0 <= j < i ==> serial_key(#[trigger] entries[j].header) != k,
            decreases self.datastore.len() - i,
        {
            if same_serial_key(&self.datastore[i].header, header) {
                assert(entries[i as int].header == self.datastore@[i as int].header);
                proof {
                    lemma_key_index_unique(self@, k, i as int);
                }
                return Some(i);
            }
            assert(entries[i as int].header == self.datastore@[i as int].header);
            i += 1;
        }
        assert(!has_key(entries, k));
        None
    }

    /// Feeds one URB, returning the transmissions it completes, in order.
    pub fn consume_packet(&mut self, urb_packet: UrbXractPacket) -> (r: Vec<ReconstructedTransmission>)
        requires
            old(self).wf(),
            urb_packet.data is Some,
        ensures
            final(self).wf(),
            (final(self)@, transmission_views(r@)) == serial_step(old(self)@, urb_packet@),
    {
        let ghost s = self@;
        let ghost p = urb_packet@;
        let header = urb_packet.header;
        let idx = self.find_entry(&header);
        let text: Option<String> = match &urb_packet.data {
            Some(d) => match utf8_text(d.as_slice()) {
                Some(t) => {
                    proof {
                        encode_utf8_decode_utf8(t@);
                    }
                    Some(t.to_owned())
                },
                None => None,
            },
            None => None,
        };
        match text {
            None => {
                let mut out: Vec<ReconstructedTransmission> = Vec::new();
                match idx {
                    Some(i) => {
                        let prev = self.datastore.remove(i);
                        self.received = Ghost(self.received@.remove(i as int));
                        out.push(prev);
                    },
                    None => {},
                }
                let marker = String::from_str("(Non-UTF8 Binary Data)");
                let bin = ReconstructedTransmission {
                    header,
                    combined_payload: marker,
                    sources: vec![urb_packet],
                };
                out.push(bin);
                proof {
                    lemma_step_wf(s, p);
                    assert(bin@.sources =~= seq![p]);
                    assert(self@.entries =~= serial_step(s, p).0.entries);
                    assert(self@.received =~= serial_step(s, p).0.received);
                    assert(transmission_views(out@) =~= serial_step(s, p).1);
                }
                out
            },
            Some(t) => {
                proof {
                    lemma_step_wf(s, p);
                }
                let ghost bytes = p.data->Some_0;
                let ghost text = t@;
                assert(valid_utf8(bytes) && text == decode_utf8(bytes));
                let newline = ends_with_newline_exec(t.as_str());
                let src = urb_packet.header_only();
                let ghost srcv = src@;
                let entry = match idx {
                    Some(i) => {
                        let mut e = self.datastore.remove(i);
                        assert(e@ == s.entries[i as int]);
                        e.combined_payload.append(t.as_str());
                        e.sources.push(src);
                        assert(e@.sources =~= s.entries[i as int].sources.push(srcv));
                        e
                    },
                    None => {
                        let e = ReconstructedTransmission {
                            header,
                            combined_payload: t,
                            sources: vec![src],
                        };
                        assert(e@.sources =~= seq![srcv]);
                        e
                    },
                };
                let ghost ev = entry@;
                if newline {
                    match idx {
                        Some(i) => {
                            self.received = Ghost(self.received@.remove(i as int));
                        },
                        None => {},
                    }
                    let out = vec![entry];
                    proof {
                        assert(self@.entries =~= serial_step(s, p).0.entries);
                        assert(self@.received =~= serial_step(s, p).0.received);
                        assert(transmission_views(out@) =~= serial_step(s, p).1);
                    }
                    out
                } else {
                    match idx {
                        Some(i) => {
                            self.datastore.insert(i, entry);
                            self.received = Ghost(
                                self.received@.update(i as int, s.received[i as int].push(bytes)),
                            );
                        },
                        None => {
                            self.datastore.push(entry);
                            self.received = Ghost(self.received@.push(seq![bytes]));
                        },
                    }
                    let out: Vec<ReconstructedTransmission> = Vec::new();
                    proof {
                        assert(self@.entries =~= serial_step(s, p).0.entries);
                        assert(self@.received =~= serial_step(s, p).0.received);
                        assert(transmission_views(out@) =~= serial_step(s, p).1);
                    }
                    out
                }
            },
        }
    }
    /// Dispatches every record still in progress, in the order they were
    /// opened, leaving the reconstructor empty.
    pub fn flush_all(&mut self) -> (r: Vec<ReconstructedTransmission>)
        requires
            old(self).wf(),
        ensures
            final(self).wf(),
            final(self)@.entries.len() == 0,
            transmission_views(r@) == old(self)@.entries,
    {
        let mut out: Vec<ReconstructedTransmission> = Vec::new();
        core::mem::swap(&mut out, &mut self.datastore);
        self.received = Ghost(Seq::empty());
        assert(self@.entries =~= Seq::<TransmissionView>::empty());
        out
    }
}

/// Effect of a sequence of URBs, each with a payload, fed one after another:
/// the final state and every transmission dispatched, in order.
pub open spec fn feed(s: SerialState, ps: Seq<PacketView>) -> (SerialState, Seq<TransmissionView>)
    decreases ps.len(),
{
    if ps.len() == 0 {
        (s, seq![])
    } else {
        let (s1, e1) = feed(s, ps.drop_last());
        let (s2, e2) = serial_step(s1, ps.last());
        (s2, e1 + e2)
    }
}

/// Payloads of a sequence of URBs that all carry one.
pub open spec fn payloads(ps: Seq<PacketView>) -> Seq<Seq<u8>> {
    ps.map_values(|p: PacketView| p.data->Some_0)
}

/// With keys unique, the record found for a key is the one that has it.
proof fn lemma_key_index_unique(s: SerialState, k: SerialKey, i: int)
    requires
        state_wf(s),
        0 <= i < s.entries.len(),
        serial_key(s.entries[i].header) == k,
    ensures
        key_index(s.entries, k) == i,
{
    assert(has_key(s.entries, k));
    let c = key_index(s.entries, k);
    if c != i {
        if c < i {
            assert(serial_key(s.entries[c].header) != serial_key(s.entries[i].header));
        } else {
            assert(serial_key(s.entries[i].header) != serial_key(s.entries[c].header));
        }
    }
}

/// A well-formed state holds no record for a key after that record is removed.
proof fn lemma_remove_only_entry(s: SerialState, i: int)
    requires
        state_wf(s),
        0 <= i < s.entries.len(),
    ensures
        !has_key(remove_entry(s, i).entries, serial_key(s.entries[i].header)),
{
    let t = remove_entry(s, i);
    let k = serial_key(s.entries[i].header);
    assert forall|a: int| 0 <= a < t.entries.len() implies serial_key(
        #[trigger] t.entries[a].header,
    ) != k by {
        if a < i {
            assert(t.entries[a] == s.entries[a]);
        } else {
            assert(t.entries[a] == s.entries[a + 1]);
        }
    }
}

/// Feeding any sequence of URBs keeps the serial state well formed.
pub proof fn lemma_feed_wf(s: SerialState, ps: Seq<PacketView>)
    requires
        state_wf(s),
        forall|j: int| 0 <= j < ps.len() ==> (#[trigger] ps[j]).data is Some,
    ensures
        state_wf(feed(s, ps).0),
    decreases ps.len(),
{
    if ps.len() > 0 {
        lemma_feed_wf(s, ps.drop_last());
        lemma_step_wf(feed(s, ps.drop_last()).0, ps.last());
    }
}

/// Every record held in progress is text: its payload is exactly the UTF-8
/// decoding of the payloads it received, each of them valid UTF-8 and none
/// ending a line. A non-UTF-8 URB never leaves a record behind.
pub proof fn lemma_stored_records_are_text(s: SerialState, p: PacketView)
    requires
        state_wf(s),
        p.data is Some,
    ensures
        ({
            let t = serial_step(s, p).0;
            forall|i: int|
                0 <= i < t.entries.len() ==> {
                    &&& (#[trigger] t.entries[i]).payload == decoded_concat(t.received[i])
                    &&& forall|j: int|
                        0 <= j < t.received[i].len() ==> valid_utf8(#[trigger] t.received[i][j])
                }
        }),
        !valid_utf8(p.data->Some_0) ==> !has_key(serial_step(s, p).0.entries, serial_key(p.header)),
{
    lemma_step_wf(s, p);
    let t = serial_step(s, p).0;
    assert forall|i: int| 0 <= i < t.entries.len() implies {
        &&& (#[trigger] t.entries[i]).payload == decoded_concat(t.received[i])
        &&& forall|j: int| 0 <= j < t.received[i].len() ==> valid_utf8(#[trigger] t.received[i][j])
    } by {
        assert(entry_wf(t.entries[i], t.received[i]));
    }
    let k = serial_key(p.header);
    let i = key_index(s.entries, k);
    if !valid_utf8(p.data->Some_0) {
        if i >= 0 {
            assert(serial_key(s.entries[i].header) == k);
            lemma_remove_only_entry(s, i);
        }
    }
}

/// Every transmission the serial reconstructor dispatches carries the header
/// of the first URB among its sources, and has at least one source.
pub proof fn lemma_emitted_header_is_first_source(s: SerialState, p: PacketView)
    requires
        state_wf(s),
        p.data is Some,
    ensures
        forall|i: int|
            0 <= i < serial_step(s, p).1.len() ==> {
                &&& (#[trigger] serial_step(s, p).1[i]).sources.len() >= 1
                &&& serial_step(s, p).1[i].header == serial_step(s, p).1[i].sources[0].header
            },
{
    let k = serial_key(p.header);
    let i = key_index(s.entries, k);
    if i >= 0 {
        assert(0 <= i < s.entries.len() && serial_key(s.entries[i].header) == k);
        assert(entry_wf(s.entries[i], s.received[i]));
    }
}

/// One URB dispatches at most two transmissions. When it dispatches two, the
/// first is the record that was already in progress for its key (opened by an
/// earlier URB) and the second is the binary record the URB opens itself.
/// Records not dispatched keep their relative order.
pub proof fn lemma_step_emission_order(s: SerialState, p: PacketView)
    requires
        state_wf(s),
        p.data is Some,
    ensures
        serial_step(s, p).1.len() <= 2,
        serial_step(s, p).1.len() == 2 ==> {
            let i = key_index(s.entries, serial_key(p.header));
            &&& 0 <= i < s.entries.len()
            &&& serial_step(s, p).1[0] == s.entries[i]
            &&& serial_step(s, p).1[1] == binary_record(p)
        },
        serial_step(s, p).1.len() == 1 && key_index(s.entries, serial_key(p.header)) >= 0 ==> {
            let i = key_index(s.entries, serial_key(p.header));
            serial_step(s, p).1[0].sources.subrange(0, s.entries[i].sources.len() as int)
                == s.entries[i].sources
        },
{
    let k = serial_key(p.header);
    let i = key_index(s.entries, k);
    if i >= 0 {
        assert(0 <= i < s.entries.len() && serial_key(s.entries[i].header) == k);
        let srcs = s.entries[i].sources;
        let src = PacketView { header: p.header, data: None };
        assert(srcs.push(src).subrange(0, srcs.len() as int) =~= srcs);
    }
}

/// Feeding URBs of one key whose texts are valid UTF-8, where only the last
/// ends with a newline, dispatches exactly one transmission: its text is the
/// concatenation of all the decoded payloads and its header is the first
/// URB's. No record for the key is left behind.
pub proof fn lemma_line_round_trip(s: SerialState, ps: Seq<PacketView>)
    requires
        state_wf(s),
        ps.len() >= 1,
        !has_key(s.entries, serial_key(ps[0].header)),
        forall|j: int|
            0 <= j < ps.len() ==> {
                &&& (#[trigger] ps[j]).data is Some
                &&& valid_utf8(ps[j].data->Some_0)
                &&& serial_key(ps[j].header) == serial_key(ps[0].header)
            },
        forall|j: int|
            0 <= j < ps.len() - 1 ==> !ends_with_newline(decode_utf8((#[trigger] ps[j]).data->Some_0)),
        ends_with_newline(decode_utf8(ps.last().data->Some_0)),
    ensures
        feed(s, ps).1.len() == 1,
        feed(s, ps).1[0].payload == decoded_concat(payloads(ps)),
        feed(s, ps).1[0].header == ps[0].header,
        !has_key(feed(s, ps).0.entries, serial_key(ps[0].header)),
{
    let n = ps.len() as int;
    let k = serial_key(ps[0].header);
    if n > 1 {
        lemma_line_prefix(s, ps, n - 1);
    }
    let pre = ps.take(n - 1);
    assert(ps.take(n) =~= ps);
    assert(ps.drop_last() =~= pre);
    assert(payloads(ps).drop_last() =~= payloads(pre));
    let t = feed(s, pre).0;
    lemma_feed_wf(s, pre);
    let p = ps.last();
    if n == 1 {
        assert(pre =~= Seq::<PacketView>::empty());
        assert(payloads(pre) =~= Seq::<Seq<u8>>::empty());
        assert(decoded_concat(payloads(pre)) =~= Seq::<char>::empty());
        assert(decode_utf8(p.data->Some_0) =~= decoded_concat(payloads(pre)) + decode_utf8(
            p.data->Some_0,
        ));
    } else {
        let i = key_index(t.entries, k);
        assert(serial_key(p.header) == k);
        assert(0 <= i < t.entries.len());
        lemma_remove_only_entry(t, i);
    }
    assert(feed(s, ps).1 =~= feed(s, pre).1 + serial_step(t, p).1);
}

/// The state after the first `j` URBs of a line, none of them ending it: one
/// record in progress for the key, opened by the first URB, holding the text
/// received so far, and nothing dispatched.
proof fn lemma_line_prefix(s: SerialState, ps: Seq<PacketView>, j: int)
    requires
        state_wf(s),
        1 <= j < ps.len(),
        !has_key(s.entries, serial_key(ps[0].header)),
        forall|a: int|
            0 <= a < ps.len() ==> {
                &&& (#[trigger] ps[a]).data is Some
                &&& valid_utf8(ps[a].data->Some_0)
                &&& serial_key(ps[a].header) == serial_key(ps[0].header)
            },
        forall|a: int|
            0 <= a < ps.len() - 1 ==> !ends_with_newline(decode_utf8((#[trigger] ps[a]).data->Some_0)),
    ensures
        ({
            let f = feed(s, ps.take(j));
            let i = key_index(f.0.entries, serial_key(ps[0].header));
            &&& f.1.len() == 0
            &&& 0 <= i < f.0.entries.len()
            &&& f.0.entries[i].payload == decoded_concat(payloads(ps.take(j)))
            &&& f.0.entries[i].header == ps[0].header
        }),
    decreases j,
{
    let k = serial_key(ps[0].header);
    let pre = ps.take(j - 1);
    let p = ps[j - 1];
    assert(ps.take(j).drop_last() =~= pre);
    assert(ps.take(j).last() == p);
    assert(payloads(ps.take(j)).drop_last() =~= payloads(pre));
    assert(payloads(ps.take(j)).last() == p.data->Some_0);
    lemma_feed_wf(s, pre);
    let t = feed(s, pre).0;
    lemma_step_wf(t, p);
    let u = serial_step(t, p).0;
    if j == 1 {
        assert(pre =~= Seq::<PacketView>::empty());
        assert(payloads(pre) =~= Seq::<Seq<u8>>::empty());
        assert(decoded_concat(payloads(pre)) =~= Seq::<char>::empty());
        let n = t.entries.len() as int;
        assert(serial_key(u.entries[n].header) == k);
        lemma_key_index_unique(u, k, n);
        assert(u.entries[n].payload =~= decoded_concat(payloads(ps.take(j))));
    } else {
        lemma_line_prefix(s, ps, j - 1);
        let i = key_index(t.entries, k);
        assert(serial_key(p.header) == k);
        assert(serial_key(u.entries[i].header) == serial_key(t.entries[i].header));
        lemma_key_index_unique(u, k, i);
    }
    assert(feed(s, ps.take(j)).1 =~= feed(s, pre).1 + serial_step(t, p).1);
}

/// Feeding one key alternately a text URB that does not end a line and a
/// non-UTF-8 URB dispatches, for each pair, the text on its own followed by
/// the binary record: the binary URB ends the text immediately. No record for
/// the key is left behind.
pub proof fn lemma_text_binary_alternation(s: SerialState, ps: Seq<PacketView>, m: int)
    requires
        state_wf(s),
        m >= 0,
        ps.len() == 2 * m,
        m > 0 ==> !has_key(s.entries, serial_key(ps[0].header)),
        forall|j: int|
            0 <= j < ps.len() ==> {
                &&& (#[trigger] ps[j]).data is Some
                &&& serial_key(ps[j].header) == serial_key(ps[0].header)
            },
        forall|i: int|
            0 <= i < m ==> {
                &&& valid_utf8((#[trigger] ps[2 * i]).data->Some_0)
                &&& !ends_with_newline(decode_utf8(ps[2 * i].data->Some_0))
                &&& !valid_utf8(ps[2 * i + 1].data->Some_0)
            },
    ensures
        feed(s, ps).1.len() == 2 * m,
        forall|i: int|
            0 <= i < m ==> {
                &&& (#[trigger] feed(s, ps).1[2 * i]).payload == decode_utf8(ps[2 * i].data->Some_0)
                &&& feed(s, ps).1[2 * i].header == ps[2 * i].header
                &&& feed(s, ps).1[2 * i + 1] == binary_record(ps[2 * i + 1])
            },
        m > 0 ==> !has_key(feed(s, ps).0.entries, serial_key(ps[0].header)),
    decreases m,
{
    if m > 0 {
        let k = serial_key(ps[0].header);
        let pre = ps.take(2 * m - 2);
        let mid = ps.take(2 * m - 1);
        assert(ps.drop_last() =~= mid);
        assert(mid.drop_last() =~= pre);
        assert(mid.last() == ps[2 * m - 2]);
        lemma_text_binary_alternation(s, pre, m - 1);
        let t = feed(s, pre).0;
        let e_pre = feed(s, pre).1;
        lemma_feed_wf(s, pre);
        if m - 1 > 0 {
            assert(serial_key(pre[0].header) == k);
        }
        assert(!has_key(t.entries, k));
        let a = ps[2 * m - 2];
        let b = ps[2 * m - 1];
        assert(serial_key(a.header) == k && serial_key(b.header) == k);
        lemma_step_wf(t, a);
        let u = serial_step(t, a).0;
        let n = t.entries.len() as int;
        assert(serial_key(u.entries[n].header) == k);
        lemma_key_index_unique(u, k, n);
        lemma_remove_only_entry(u, n);
        let e2 = serial_step(u, b).1;
        assert(feed(s, mid).1 =~= e_pre + serial_step(t, a).1);
        assert(feed(s, ps).1 =~= feed(s, mid).1 + e2);
        assert(serial_step(t, a).1 =~= Seq::<TransmissionView>::empty());
        assert(u.entries[n].payload == decode_utf8(a.data->Some_0));
        assert forall|i: int| 0 <= i < m implies {
            &&& (#[trigger] feed(s, ps).1[2 * i]).payload == decode_utf8(ps[2 * i].data->Some_0)
            &&& feed(s, ps).1[2 * i].header == ps[2 * i].header
            &&& feed(s, ps).1[2 * i + 1] == binary_record(ps[2 * i + 1])
        } by {
            if i < m - 1 {
                assert(pre[2 * i] == ps[2 * i]);
                assert(pre[2 * i + 1] == ps[2 * i + 1]);
                assert(feed(s, ps).1[2 * i] == e_pre[2 * i]);
                assert(feed(s, ps).1[2 * i + 1] == e_pre[2 * i + 1]);
            }
        }
    }
}

/// Headers of a sequence of URBs, in order.
pub open spec fn headers_of(ps: Seq<PacketView>) -> Seq<UrbXractHeader> {
    ps.map_values(|p: PacketView| p.header)
}

/// Headers of the sources of a sequence of transmissions, one after another.
pub open spec fn source_headers(ts: Seq<TransmissionView>) -> Seq<UrbXractHeader>
    decreases ts.len(),
{
    if ts.len() == 0 {
        seq![]
    } else {
        source_headers(ts.drop_last()) + headers_of(ts.last().sources)
    }
}

/// Headers of the sources of the record in progress for `k`, if any.
pub open spec fn pending_headers(s: SerialState, k: SerialKey) -> Seq<UrbXractHeader> {
    let i = key_index(s.entries, k);
    if i >= 0 {
        headers_of(s.entries[i].sources)
    } else {
        seq![]
    }
}

proof fn lemma_source_headers_append(a: Seq<TransmissionView>, b: Seq<TransmissionView>)
    ensures
        source_headers(a + b) == source_headers(a) + source_headers(b),
    decreases b.len(),
{
    if b.len() == 0 {
        assert(a + b =~= a);
        assert(source_headers(a) + source_headers(b) =~= source_headers(a));
    } else {
        assert((a + b).drop_last() =~= a + b.drop_last());
        assert((a + b).last() == b.last());
        lemma_source_headers_append(a, b.drop_last());
        assert(source_headers(a + b) =~= source_headers(a) + source_headers(b));
    }
}

proof fn lemma_source_headers_pair(x: TransmissionView, y: TransmissionView)
    ensures
        source_headers(seq![x]) == headers_of(x.sources),
        source_headers(seq![x, y]) == headers_of(x.sources) + headers_of(y.sources),
{
    assert(seq![x].drop_last() =~= Seq::<TransmissionView>::empty());
    assert(seq![x].last() == x);
    assert(source_headers(Seq::<TransmissionView>::empty()) =~= Seq::<UrbXractHeader>::empty());
    assert(source_headers(seq![x]) =~= headers_of(x.sources));
    assert(seq![x, y].drop_last() =~= seq![x]);
    assert(seq![x, y].last() == y);
}

/// One URB under key `k` adds its header after everything already recorded
/// for `k`: dispatched sources, then the sources still in progress.
proof fn lemma_step_keeps_arrival_order(s: SerialState, p: PacketView, k: SerialKey)
    requires
        state_wf(s),
        p.data is Some,
        serial_key(p.header) == k,
    ensures
        source_headers(serial_step(s, p).1) + pending_headers(serial_step(s, p).0, k)
            == pending_headers(s, k) + seq![p.header],
{
    lemma_step_wf(s, p);
    let (t, e) = serial_step(s, p);
    let i = key_index(s.entries, k);
    let bytes = p.data->Some_0;
    let src = PacketView { header: p.header, data: None };
    if i >= 0 {
        assert(0 <= i < s.entries.len() && serial_key(s.entries[i].header) == k);
    }
    let pend = pending_headers(s, k);
    assert(headers_of(seq![p]) =~= seq![p.header]);
    assert(headers_of(seq![src]) =~= seq![p.header]);
    if i >= 0 {
        assert(headers_of(s.entries[i].sources.push(src)) =~= pend + seq![p.header]);
    }
    if !valid_utf8(bytes) || ends_with_newline(decode_utf8(bytes)) {
        if i >= 0 {
            lemma_remove_only_entry(s, i);
        }
        assert(pending_headers(t, k) =~= Seq::<UrbXractHeader>::empty());
        if e.len() == 2 {
            lemma_source_headers_pair(e[0], e[1]);
            assert(e =~= seq![e[0], e[1]]);
        } else {
            lemma_source_headers_pair(e[0], e[0]);
            assert(e =~= seq![e[0]]);
        }
        assert(source_headers(e) + pending_headers(t, k) =~= pend + seq![p.header]);
    } else {
        assert(source_headers(e) =~= Seq::<UrbXractHeader>::empty());
        if i >= 0 {
            assert(serial_key(t.entries[i].header) == k);
            lemma_key_index_unique(t, k, i);
        } else {
            let n = s.entries.len() as int;
            assert(serial_key(t.entries[n].header) == k);
            lemma_key_index_unique(t, k, n);
        }
        assert(source_headers(e) + pending_headers(t, k) =~= pend + seq![p.header]);
    }
}

/// Feeding URBs that all fall under key `k`, every URB ends up exactly once
/// among the sources, in arrival order: the sources of the transmissions
/// dispatched, in dispatch order, followed by those of the record still in
/// progress, are the record that was in progress before and then the URBs
/// fed. Transmissions of one key therefore come out in the order of their
/// first URBs.
pub proof fn lemma_single_key_arrival_order(s: SerialState, ps: Seq<PacketView>, k: SerialKey)
    requires
        state_wf(s),
        forall|j: int|
            0 <= j < ps.len() ==> {
                &&& (#[trigger] ps[j]).data is Some
                &&& serial_key(ps[j].header) == k
            },
    ensures
        source_headers(feed(s, ps).1) + pending_headers(feed(s, ps).0, k) == pending_headers(s, k)
            + headers_of(ps),
    decreases ps.len(),
{
    if ps.len() == 0 {
        assert(source_headers(Seq::<TransmissionView>::empty()) =~= Seq::<UrbXractHeader>::empty());
        assert(headers_of(ps) =~= Seq::<UrbXractHeader>::empty());
        assert(pending_headers(s, k) + headers_of(ps) =~= pending_headers(s, k));
        assert(source_headers(feed(s, ps).1) + pending_headers(feed(s, ps).0, k) =~= pending_headers(s, k));
    } else {
        let pre = ps.drop_last();
        let p = ps.last();
        lemma_single_key_arrival_order(s, pre, k);
        lemma_feed_wf(s, pre);
        let (t, e1) = feed(s, pre);
        lemma_step_keeps_arrival_order(t, p, k);
        let e2 = serial_step(t, p).1;
        lemma_source_headers_append(e1, e2);
        assert(headers_of(ps) =~= headers_of(pre) + seq![p.header]);
        let t2 = serial_step(t, p).0;
        assert(feed(s, ps).1 == e1 + e2);
        assert(feed(s, ps).0 == t2);
        let a = source_headers(e1);
        let b = source_headers(e2);
        assert(a + pending_headers(t, k) == pending_headers(s, k) + headers_of(pre));
        assert(b + pending_headers(t2, k) == pending_headers(t, k) + seq![p.header]);
        assert(a + b + pending_headers(t2, k) =~= a + (b + pending_headers(t2, k)));
        assert(a + (pending_headers(t, k) + seq![p.header]) =~= (a + pending_headers(t, k)) + seq![
            p.header,
        ]);
        assert((pending_headers(s, k) + headers_of(pre)) + seq![p.header] =~= pending_headers(s, k)
            + headers_of(ps));
        assert(source_headers(feed(s, ps).1) + pending_headers(feed(s, ps).0, k) =~= pending_headers(
            s,
            k,
        ) + headers_of(ps));
    }
}

} // verus!
