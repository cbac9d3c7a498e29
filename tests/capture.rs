use urbxtract::bytes::{read_be_u32, read_le_u16, read_le_u32};
use urbxtract::devices::{device_names_from_groups, parse_devices_list, strip_device_path};
use urbxtract::sniffer::{
    ByteOrder, CaptureAction, CaptureFault, DecodeError, PacketCapture, PcapEvent, RecordFormat,
};

fn usbpcap_record(xfer_type: u8, payload: &[u8], suffix: usize) -> Vec<u8> {
    let mut r = vec![0u8; 27];
    r[0] = 27;
    r[17..19].copy_from_slice(&0x0102u16.to_le_bytes());
    r[19..21].copy_from_slice(&0x0304u16.to_le_bytes());
    r[21] = 0x81;
    r[22] = xfer_type;
    r[23..27].copy_from_slice(&(payload.len() as u32).to_le_bytes());
    r.extend(std::iter::repeat(0xEEu8).take(suffix));
    r.extend_from_slice(payload);
    r
}

fn usbmon_frame(declared: u32, payload: &[u8], little: bool) -> Vec<u8> {
    let mut f = vec![0u8; 64];
    f[10] = 0x02;
    f[11] = 7;
    let bus: u16 = 3;
    f[12..14].copy_from_slice(&if little { bus.to_le_bytes() } else { bus.to_be_bytes() });
    f[36..40].copy_from_slice(&if little { declared.to_le_bytes() } else { declared.to_be_bytes() });
    f.extend_from_slice(payload);
    f
}

#[test]
fn usbpcap_bulk_record() {
    let rec = usbpcap_record(3, b"data", 0);
    let p = PacketCapture::decode_usbpcap_record(&rec).unwrap();
    assert_eq!(p.header.bus_id, 0x0102);
    assert_eq!(p.header.device_id, 0x0304);
    assert_eq!(p.header.endpoint_info, 0x81);
    assert_eq!(p.data, Some(b"data".to_vec()));
}

#[test]
fn usbpcap_control_and_iso_offsets() {
    let rec = usbpcap_record(2, b"ctl", 1);
    assert_eq!(PacketCapture::decode_usbpcap_record(&rec).unwrap().data, Some(b"ctl".to_vec()));
    let rec = usbpcap_record(0, b"iso", 48);
    assert_eq!(PacketCapture::decode_usbpcap_record(&rec).unwrap().data, Some(b"iso".to_vec()));
    let rec = usbpcap_record(1, b"int", 0);
    assert_eq!(PacketCapture::decode_usbpcap_record(&rec).unwrap().data, Some(b"int".to_vec()));
}

#[test]
fn usbpcap_empty_payload_is_absent() {
    let rec = usbpcap_record(3, b"", 0);
    assert_eq!(PacketCapture::decode_usbpcap_record(&rec).unwrap().data, None);
}

#[test]
fn usbpcap_truncated_records() {
    assert_eq!(PacketCapture::decode_usbpcap_record(&[0u8; 26]).unwrap_err(), DecodeError::TruncatedHeader);
    let mut rec = usbpcap_record(3, b"data", 0);
    rec.pop();
    assert_eq!(PacketCapture::decode_usbpcap_record(&rec).unwrap_err(), DecodeError::TruncatedPayload);
}

#[test]
fn usbpcap_cut_extended_header() {
    let iso = usbpcap_record(0, b"", 0);
    assert_eq!(iso.len(), 27);
    assert_eq!(PacketCapture::decode_usbpcap_record(&iso).unwrap_err(), DecodeError::TruncatedHeader);
    assert_eq!(PacketCapture::decode_usbpcap_record(&[0u8; 27]).unwrap_err(), DecodeError::TruncatedHeader);
    let iso = usbpcap_record(0, b"", 47);
    assert_eq!(PacketCapture::decode_usbpcap_record(&iso).unwrap_err(), DecodeError::TruncatedHeader);
    let iso = usbpcap_record(0, b"", 48);
    assert_eq!(PacketCapture::decode_usbpcap_record(&iso).unwrap().data, None);
    let control = usbpcap_record(2, b"", 0);
    assert_eq!(PacketCapture::decode_usbpcap_record(&control).unwrap_err(), DecodeError::TruncatedHeader);
    let control = usbpcap_record(2, b"", 1);
    assert_eq!(PacketCapture::decode_usbpcap_record(&control).unwrap().data, None);
}

#[test]
fn usbmon_frame_little_endian() {
    let f = usbmon_frame(5, b"hello", true);
    let p = PacketCapture::decode_usbmon_frame(&f, ByteOrder::Little).unwrap();
    assert_eq!(p.header.bus_id, 3);
    assert_eq!(p.header.device_id, 7);
    assert_eq!(p.header.endpoint_info, 0x02);
    assert_eq!(p.data, Some(b"hello".to_vec()));
}

#[test]
fn usbmon_frame_big_endian() {
    let f = usbmon_frame(2, b"hi", false);
    let p = PacketCapture::decode_usbmon_frame(&f, ByteOrder::Big).unwrap();
    assert_eq!(p.header.bus_id, 3);
    assert_eq!(p.data, Some(b"hi".to_vec()));
}

#[test]
fn usbmon_payload_clamped_to_frame() {
    let f = usbmon_frame(100, b"abc", true);
    let p = PacketCapture::decode_usbmon_frame(&f, ByteOrder::Little).unwrap();
    assert_eq!(p.data, Some(b"abc".to_vec()));
    let f = usbmon_frame(0, b"abc", true);
    assert_eq!(PacketCapture::decode_usbmon_frame(&f, ByteOrder::Little).unwrap().data, None);
}

#[test]
fn usbmon_truncated_header() {
    assert_eq!(
        PacketCapture::decode_usbmon_frame(&[0u8; 63], ByteOrder::Little).unwrap_err(),
        DecodeError::TruncatedHeader
    );
}

#[test]
fn link_types() {
    let c = PacketCapture::for_link_type(220, ByteOrder::Little).unwrap();
    assert_eq!(c.format, RecordFormat::Usbmon(ByteOrder::Little));
    let c = PacketCapture::for_link_type(189, ByteOrder::Big).unwrap();
    assert_eq!(c.format, RecordFormat::Usbmon(ByteOrder::Big));
    assert_eq!(PacketCapture::for_link_type(249, ByteOrder::Little).unwrap().format, RecordFormat::UsbPcap);
    assert!(PacketCapture::for_link_type(1, ByteOrder::Little).is_none());
}

#[test]
fn capture_loop_decisions() {
    let c = PacketCapture::new(RecordFormat::UsbPcap);
    assert!(matches!(c.next_action(PcapEvent::End), CaptureAction::Stop));
    assert!(matches!(c.next_action(PcapEvent::Incomplete), CaptureAction::Refill));
    assert!(matches!(c.next_action(PcapEvent::Failed), CaptureAction::Abort(CaptureFault::Stream)));
    assert!(matches!(c.next_action(PcapEvent::Other), CaptureAction::Skip));
    match c.next_action(PcapEvent::Record(usbpcap_record(3, b"x", 0))) {
        CaptureAction::Emit(p) => assert_eq!(p.data, Some(b"x".to_vec())),
        other => panic!("unexpected {:?}", other),
    }
    assert!(matches!(
        c.next_action(PcapEvent::Record(vec![0u8; 3])),
        CaptureAction::Abort(CaptureFault::Record(DecodeError::TruncatedHeader))
    ));
}

#[test]
fn byte_readers() {
    let b = [0x55u8, 0x53, 0x42, 0x43];
    assert_eq!(read_le_u32(&b, 0), 0x43425355);
    assert_eq!(read_be_u32(&b, 0), 0x55534243);
    assert_eq!(read_le_u16(&b, 1), 0x4253);
}

#[test]
fn extcap_interface_listing() {
    let out = "interface {value=\\\\.\\USBPcap1}{display=USBPcap1}\n\
               interface {value=\\\\.\\USBPcap2}{display=USBPcap2}\n";
    assert_eq!(parse_devices_list(out), vec!["USBPcap1".to_string(), "USBPcap2".to_string()]);
    assert!(parse_devices_list("no interfaces here").is_empty());
}

#[test]
fn device_prefix_stripping() {
    assert_eq!(strip_device_path("\\\\.\\USBPcap3"), "USBPcap3");
    assert_eq!(strip_device_path("\\\\.\\\\\\.\\x"), "x");
    assert_eq!(strip_device_path("plain"), "plain");
    assert_eq!(strip_device_path("\\\\."), "\\\\.");
    assert_eq!(
        device_names_from_groups(vec![Some("\\\\.\\a".to_string()), None, Some("b".to_string())]),
        vec!["a".to_string(), "b".to_string()]
    );
}
