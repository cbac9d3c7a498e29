use urbxtract::reconstructor::{classify_payload, Dispatcher, Protocol, ReconstructedTransmission};
use urbxtract::protocol_serial;
use urbxtract::urb::{get_endpoint_direction, same_serial_key, UrbXractHeader, UrbXractPacket};

const BINARY: &str = "(Non-UTF8 Binary Data)";
const SCSI: &str = "(Identified SCSI Packet: Parsing Not Implemented)";

fn header(bus_id: u16, device_id: u16, out: bool) -> UrbXractHeader {
    UrbXractHeader { bus_id, device_id, endpoint_info: if out { 0x02 } else { 0x81 } }
}

fn packet(h: UrbXractHeader, data: &[u8]) -> UrbXractPacket {
    UrbXractPacket { header: h, data: Some(data.to_vec()) }
}

fn feed(d: &mut Dispatcher, packets: Vec<UrbXractPacket>) -> Vec<ReconstructedTransmission> {
    let mut out = Vec::new();
    for p in packets {
        out.extend(d.consume(p));
    }
    out
}

fn cbw_payload() -> Vec<u8> {
    let mut p = vec![0x55, 0x53, 0x42, 0x43];
    p.extend(std::iter::repeat(0u8).take(27));
    p
}

#[test]
fn serial_line_flush() {
    let mut d = Dispatcher::new();
    let h1 = header(1, 5, true);
    let h2 = UrbXractHeader { endpoint_info: 0x03, ..h1 };
    let out = feed(&mut d, vec![packet(h1, b"hello "), packet(h2, b"world\n")]);
    assert_eq!(out.len(), 1);
    assert_eq!(out[0].combined_payload, "hello world\n");
    assert_eq!(out[0].header, h1);
    assert_eq!(out[0].sources.len(), 2);
    assert!(out[0].sources.iter().all(|s| s.data.is_none()));
}

#[test]
fn split_line_then_binary() {
    let mut d = Dispatcher::new();
    let h = header(1, 5, true);
    let out = feed(&mut d, vec![packet(h, b"abc"), packet(h, &[0xFF, 0xFE, 0xFD, 0xFC])]);
    assert_eq!(out.len(), 2);
    assert_eq!(out[0].combined_payload, "abc");
    assert_eq!(out[1].combined_payload, BINARY);
    assert_eq!(out[1].sources.len(), 1);
    assert_eq!(out[1].sources[0].data, Some(vec![0xFF, 0xFE, 0xFD, 0xFC]));
}

#[test]
fn cbw_detection() {
    let mut d = Dispatcher::new();
    let h = header(1, 5, true);
    let payload = cbw_payload();
    assert_eq!(payload.len(), 31);
    let out = feed(&mut d, vec![packet(h, &payload)]);
    assert_eq!(out.len(), 1);
    assert_eq!(out[0].combined_payload, SCSI);
    assert_eq!(out[0].header, h);
    assert!(out[0].sources.is_empty());
}

#[test]
fn direction_separation() {
    let mut d = Dispatcher::new();
    let out_h = header(1, 5, true);
    let in_h = header(1, 5, false);
    let out = feed(&mut d, vec![packet(out_h, b"req\n"), packet(in_h, b"resp\n")]);
    assert_eq!(out.len(), 2);
    assert_eq!(out[0].combined_payload, "req\n");
    assert_eq!(out[0].header, out_h);
    assert_eq!(out[1].combined_payload, "resp\n");
    assert_eq!(out[1].header, in_h);
}

#[test]
fn directions_do_not_merge_partial_lines() {
    let mut d = Dispatcher::new();
    let out_h = header(1, 5, true);
    let in_h = header(1, 5, false);
    let out = feed(
        &mut d,
        vec![packet(out_h, b"re"), packet(in_h, b"re"), packet(in_h, b"sp\n"), packet(out_h, b"q\n")],
    );
    assert_eq!(out.len(), 2);
    assert_eq!(out[0].combined_payload, "resp\n");
    assert_eq!(out[0].header, in_h);
    assert_eq!(out[1].combined_payload, "req\n");
}

#[test]
fn zero_length_payload_dropped() {
    let mut d = Dispatcher::new();
    let h = header(1, 5, true);
    assert!(d.consume(packet(h, b"ab")).is_empty());
    assert!(d.consume(packet(h, b"")).is_empty());
    assert!(d.consume(UrbXractPacket { header: h, data: None }).is_empty());
    let rest = d.finish();
    assert_eq!(rest.len(), 1);
    assert_eq!(rest[0].combined_payload, "ab");
    assert_eq!(rest[0].sources.len(), 1);
}

#[test]
fn short_payload_routed_to_serial() {
    assert_eq!(classify_payload(&[0x55, 0x53, 0x42]), Protocol::Serial);
    let mut d = Dispatcher::new();
    let out = d.consume(packet(header(1, 5, true), &[0x55, 0x53, 0x42]));
    assert!(out.is_empty());
    let rest = d.finish();
    assert_eq!(rest[0].combined_payload, "USB");
}

#[test]
fn signature_on_in_endpoint_is_mass_storage() {
    let mut d = Dispatcher::new();
    let h = header(2, 9, false);
    let out = d.consume(packet(h, &[0x55, 0x53, 0x42, 0x43]));
    assert_eq!(out.len(), 1);
    assert_eq!(out[0].combined_payload, SCSI);
    assert_eq!(out[0].header, h);
}

#[test]
fn signature_must_be_exact() {
    assert_eq!(classify_payload(&[0x55, 0x53, 0x42, 0x43, 0x00]), Protocol::MassStorage);
    assert_eq!(classify_payload(&[0x43, 0x42, 0x53, 0x55]), Protocol::Serial);
    assert_eq!(classify_payload(&[0x55, 0x53, 0x42, 0x44]), Protocol::Serial);
}

#[test]
fn mass_storage_does_not_touch_serial_state() {
    let mut d = Dispatcher::new();
    let h = header(1, 5, true);
    feed(&mut d, vec![packet(h, b"par")]);
    let out = d.consume(packet(h, &cbw_payload()));
    assert_eq!(out.len(), 1);
    assert_eq!(out[0].combined_payload, SCSI);
    let out = d.consume(packet(h, b"tial\n"));
    assert_eq!(out.len(), 1);
    assert_eq!(out[0].combined_payload, "partial\n");
}

#[test]
fn line_round_trip_concatenates() {
    let mut d = Dispatcher::new();
    let h = header(3, 7, true);
    let out = feed(&mut d, vec![packet(h, b"one "), packet(h, "tw\u{f6} ".as_bytes()), packet(h, b"three\r\n")]);
    assert_eq!(out.len(), 1);
    assert_eq!(out[0].combined_payload, "one tw\u{f6} three\r\n");
    assert_eq!(out[0].header, h);
    assert!(d.finish().is_empty());
}

#[test]
fn newline_inside_a_urb_does_not_flush() {
    let mut d = Dispatcher::new();
    let h = header(3, 7, true);
    let out = feed(&mut d, vec![packet(h, b"a\nb")]);
    assert!(out.is_empty());
    let out = feed(&mut d, vec![packet(h, b"c\n")]);
    assert_eq!(out[0].combined_payload, "a\nbc\n");
}

#[test]
fn alternating_text_and_binary() {
    let mut d = Dispatcher::new();
    let h = header(1, 5, true);
    let out = feed(
        &mut d,
        vec![packet(h, b"t1"), packet(h, &[0xC3]), packet(h, b"t2"), packet(h, &[0xFF, 0x00])],
    );
    let texts: Vec<&str> = out.iter().map(|t| t.combined_payload.as_str()).collect();
    assert_eq!(texts, vec!["t1", BINARY, "t2", BINARY]);
    assert_eq!(out[3].sources[0].data, Some(vec![0xFF, 0x00]));
}

#[test]
fn binary_without_text_in_progress() {
    let mut d = Dispatcher::new();
    let h = header(1, 5, false);
    let out = d.consume(packet(h, &[0x80]));
    assert_eq!(out.len(), 1);
    assert_eq!(out[0].combined_payload, BINARY);
    assert_eq!(out[0].header, h);
    assert!(d.finish().is_empty());
}

#[test]
fn binary_only_flushes_its_own_key() {
    let mut d = Dispatcher::new();
    let a = header(1, 5, true);
    let b = header(1, 6, true);
    feed(&mut d, vec![packet(a, b"keep"), packet(b, b"drop")]);
    let out = d.consume(packet(b, &[0xFE]));
    assert_eq!(out.len(), 2);
    assert_eq!(out[0].combined_payload, "drop");
    assert_eq!(out[1].combined_payload, BINARY);
    let rest = d.finish();
    assert_eq!(rest.len(), 1);
    assert_eq!(rest[0].combined_payload, "keep");
}

#[test]
fn finish_flushes_in_opening_order() {
    let mut d = Dispatcher::new();
    let a = header(1, 1, true);
    let b = header(1, 2, true);
    let c = header(2, 1, false);
    feed(&mut d, vec![packet(b, b"B"), packet(a, b"A"), packet(c, b"C"), packet(b, b"b")]);
    let rest = d.finish();
    let texts: Vec<&str> = rest.iter().map(|t| t.combined_payload.as_str()).collect();
    assert_eq!(texts, vec!["Bb", "A", "C"]);
    assert!(d.finish().is_empty());
}

#[test]
fn serial_module_directly() {
    let mut r = protocol_serial::Reconstructor::new();
    let h = header(4, 4, true);
    assert!(r.consume_packet(packet(h, b"x")).is_empty());
    let out = r.consume_packet(packet(h, b"\n"));
    assert_eq!(out[0].combined_payload, "x\n");
    assert!(r.flush_all().is_empty());
}

#[test]
fn endpoint_direction_bit() {
    assert!(get_endpoint_direction(0x01));
    assert!(get_endpoint_direction(0x7F));
    assert!(!get_endpoint_direction(0x80));
    assert!(!get_endpoint_direction(0x81));
    assert!(same_serial_key(&header(1, 5, true), &UrbXractHeader { bus_id: 1, device_id: 5, endpoint_info: 0x05 }));
    assert!(!same_serial_key(&header(1, 5, true), &header(1, 5, false)));
}

#[test]
fn single_key_sources_in_arrival_order() {
    let mut d = Dispatcher::new();
    let hs: Vec<UrbXractHeader> =
        (0..6).map(|i| UrbXractHeader { bus_id: 1, device_id: 5, endpoint_info: i as u8 }).collect();
    let out = feed(
        &mut d,
        vec![
            packet(hs[0], b"a"),
            packet(hs[1], b"b\n"),
            packet(hs[2], b"c"),
            packet(hs[3], &[0xFF]),
            packet(hs[4], &[0xFE]),
            packet(hs[5], b"d"),
        ],
    );
    let rest = d.finish();
    let seen: Vec<UrbXractHeader> =
        out.iter().chain(rest.iter()).flat_map(|t| t.sources.iter().map(|s| s.header)).collect();
    assert_eq!(seen, hs);
    let firsts: Vec<UrbXractHeader> = out.iter().map(|t| t.header).collect();
    assert_eq!(firsts, vec![hs[0], hs[2], hs[3], hs[4]]);
}

#[test]
fn mass_storage_records_follow_arrival_and_triggers() {
    let mut d = Dispatcher::new();
    let a = header(1, 2, true);
    let b = header(1, 3, false);
    let s = header(1, 4, true);
    let out = feed(
        &mut d,
        vec![
            packet(s, b"par"),
            packet(b, &cbw_payload()),
            packet(s, b"tial\n"),
            packet(a, &cbw_payload()),
            packet(b, &cbw_payload()),
        ],
    );
    let kinds: Vec<(&str, UrbXractHeader)> =
        out.iter().map(|t| (t.combined_payload.as_str(), t.header)).collect();
    assert_eq!(kinds, vec![(SCSI, b), ("partial\n", s), (SCSI, a), (SCSI, b)]);
}
