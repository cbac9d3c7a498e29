//! Decoding of raw capture records into URB packets, and the decisions of the
//! capture loop.
//!
//! Two record layouts are understood: the 64-byte usbmon header (Linux, in the
//! capturing machine's byte order) and the 27-byte USBPcap header (Windows,
//! little-endian), each followed by the URB payload.

use vstd::prelude::*;
use crate::bytes::{le_u16_at, le_u32_at, be_u16_at, be_u32_at, read_le_u16, read_le_u32,
    read_be_u16, read_be_u32, copy_range};
use crate::urb::{UrbXractHeader, UrbXractPacket, PacketView};

verus! {

/// Length of the packed usbmon header that opens every Linux frame.
pub const USBMON_HEADER_LEN: usize = 64;
/// Length of the packed USBPcap packet header.
pub const USBPCAP_HEADER_LEN: usize = 27;
/// Extra header bytes of an isochronous USBPcap record.
pub const USBPCAP_ISO_SUFFIX_LEN: usize = 48;
/// Extra header bytes (the stage) of a control USBPcap record.
pub const USBPCAP_CONTROL_SUFFIX_LEN: usize = 1;

/// USBPcap transfer types.
pub const XFER_ISOCHRONOUS: u8 = 0;
pub const XFER_CONTROL: u8 = 2;

/// PCAP link types carrying usbmon frames, and the one carrying USBPcap records.
pub const DLT_USB_LINUX: u32 = 189;
pub const DLT_USB_LINUX_MMAPPED: u32 = 220;
pub const DLT_USBPCAP: u32 = 249;

/// Why a capture record could not be decoded. Either is fatal to a capture.
#[derive(Clone, Copy, Debug, PartialEq, Eq, Structural)]
pub enum DecodeError {
    /// The record is shorter than its fixed header.
    TruncatedHeader,
    /// The record ends before the payload length its header declares.
    TruncatedPayload,
}

/// Byte order of multi-byte header fields.
#[derive(Clone, Copy, Debug, PartialEq, Eq, Structural)]
pub enum ByteOrder {
    Little,
    Big,
}

pub open spec fn u16_at(order: ByteOrder, b: Seq<u8>, at: int) -> int {
    match order {
        ByteOrder::Little => le_u16_at(b, at),
        ByteOrder::Big => be_u16_at(b, at),
    }
}

pub open spec fn u32_at(order: ByteOrder, b: Seq<u8>, at: int) -> int {
    match order {
        ByteOrder::Little => le_u32_at(b, at),
        ByteOrder::Big => be_u32_at(b, at),
    }
}

fn read_u16(order: ByteOrder, b: &[u8], at: usize) -> (r: u16)
    requires
        at + 2 <= b@.len(),
    ensures
        r == u16_at(order, b@, at as int),
{
    match order {
        ByteOrder::Little => read_le_u16(b, at),
        ByteOrder::Big => read_be_u16(b, at),
    }
}

fn read_u32(order: ByteOrder, b: &[u8], at: usize) -> (r: u32)
    requires
        at + 4 <= b@.len(),
    ensures
        r == u32_at(order, b@, at as int),
{
    match order {
        ByteOrder::Little => read_le_u32(b, at),
        ByteOrder::Big => read_be_u32(b, at),
    }
}

/// The payload field of a packet: absent when empty.
pub open spec fn payload_field(b: Seq<u8>, from: int, len: int) -> Option<Seq<u8>> {
    if len == 0 {
        None
    } else {
        Some(b.subrange(from, from + len))
    }
}

/// usbmon frame: `endpoint` at 10, `device` at 11, `bus_id` at 12..14 and
/// `data_length` at 36..40; the payload follows the 64-byte header and is
/// clamped to the bytes the frame holds.
pub open spec fn usbmon_decode(frame: Seq<u8>, order: ByteOrder) -> Result<PacketView, DecodeError> {
    if frame.len() < USBMON_HEADER_LEN {
        Err(DecodeError::TruncatedHeader)
    } else {
        let declared = u32_at(order, frame, 36);
        let avail = frame.len() - USBMON_HEADER_LEN;
        let n = if declared <= avail {
            declared
        } else {
            avail
        };
        Ok(
            PacketView {
                header: UrbXractHeader {
                    bus_id: u16_at(order, frame, 12) as u16,
                    device_id: frame[11] as u16,
                    endpoint_info: frame[10],
                },
                data: payload_field(frame, USBMON_HEADER_LEN as int, n),
            },
        )
    }
}

/// Where the payload of a USBPcap record starts, by transfer type.
pub open spec fn usbpcap_payload_offset(xfer_type: u8) -> int {
    if xfer_type == XFER_ISOCHRONOUS {
        USBPCAP_HEADER_LEN + USBPCAP_ISO_SUFFIX_LEN
    } else if xfer_type == XFER_CONTROL {
        USBPCAP_HEADER_LEN + USBPCAP_CONTROL_SUFFIX_LEN
    } else {
        USBPCAP_HEADER_LEN as int
    }
}

/// USBPcap record: `bus_id` at 17..19, `device_id` at 19..21, `endpoint` at
/// 21, `xfer_type` at 22 and `data_length` at 23..27, all little-endian; the
/// payload follows the header extended for the transfer type. A record that
/// ends inside that extended header, or before the declared payload does, is
/// malformed.
pub open spec fn usbpcap_decode(rec: Seq<u8>) -> Result<PacketView, DecodeError> {
    if rec.len() < USBPCAP_HEADER_LEN {
        Err(DecodeError::TruncatedHeader)
    } else {
        let off = usbpcap_payload_offset(rec[22]);
        let n = le_u32_at(rec, 23);
        if off > rec.len() {
            Err(DecodeError::TruncatedHeader)
        } else if off + n > rec.len() {
            Err(DecodeError::TruncatedPayload)
        } else {
            Ok(
                PacketView {
                    header: UrbXractHeader {
                        bus_id: le_u16_at(rec, 17) as u16,
                        device_id: le_u16_at(rec, 19) as u16,
                        endpoint_info: rec[21],
                    },
                    data: payload_field(rec, off, n),
                },
            )
        }
    }
}

pub open spec fn decode_result_view(r: Result<UrbXractPacket, DecodeError>) -> Result<PacketView, DecodeError> {
    match r {
        Ok(p) => Ok(p@),
        Err(e) => Err(e),
    }
}

fn payload_copy(b: &[u8], from: usize, len: usize) -> (r: Option<Vec<u8>>)
    requires
        from + len <= b@.len(),
    ensures
        match r {
            Some(v) => payload_field(b@, from as int, len as int) == Some(v@),
            None => payload_field(b@, from as int, len as int) is None,
        },
{
    if len == 0 {
        None
    } else {
        let total: usize = b.len();
        assert(from + len <= total);
        Some(copy_range(b, from, from + len))
    }
}

/// The kind of capture record a source delivers.
#[derive(Clone, Copy, Debug, PartialEq, Eq, Structural)]
pub enum RecordFormat {
    /// Linux usbmon frames, with header fields in the given byte order.
    Usbmon(ByteOrder),
    /// Windows USBPcap records.
    UsbPcap,
}

/// What the capture source's PCAP reader produced on one attempt.
#[derive(Debug)]
pub enum PcapEvent {
    /// The stream ended cleanly.
    End,
    /// More bytes are needed before the next block can be read.
    Incomplete,
    /// The reader failed on malformed input.
    Failed,
    /// A block that holds no URB (file header, other block kinds).
    Other,
    /// One captured record.
    Record(Vec<u8>),
}

/// Why a capture stops with an error.
#[derive(Clone, Copy, Debug, PartialEq, Eq, Structural)]
pub enum CaptureFault {
    /// The PCAP stream itself is malformed.
    Stream,
    /// A record could not be decoded.
    Record(DecodeError),
}

/// What the capture loop does next.
#[derive(Debug)]
pub enum CaptureAction {
    /// Stop: the source is closed.
    Stop,
    /// Read more bytes into the reader, then try again.
    Refill,
    /// Stop with a fatal error.
    Abort(CaptureFault),
    /// Go on to the next block.
    Skip,
    /// Hand this packet downstream, then go on.
    Emit(UrbXractPacket),
}

pub enum ActionView {
    Stop,
    Refill,
    Abort(CaptureFault),
    Skip,
    Emit(PacketView),
}

pub open spec fn action_view(a: CaptureAction) -> ActionView {
    match a {
        CaptureAction::Stop => ActionView::Stop,
        CaptureAction::Refill => ActionView::Refill,
        CaptureAction::Abort(f) => ActionView::Abort(f),
        CaptureAction::Skip => ActionView::Skip,
        CaptureAction::Emit(p) => ActionView::Emit(p@),
    }
}

pub open spec fn record_decode(format: RecordFormat, rec: Seq<u8>) -> Result<PacketView, DecodeError> {
    match format {
        RecordFormat::Usbmon(order) => usbmon_decode(rec, order),
        RecordFormat::UsbPcap => usbpcap_decode(rec),
    }
}

/// The capture loop's reaction to one reader event.
pub open spec fn capture_step(format: RecordFormat, ev: PcapEvent) -> ActionView {
    match ev {
        PcapEvent::End => ActionView::Stop,
        PcapEvent::Incomplete => ActionView::Refill,
        PcapEvent::Failed => ActionView::Abort(CaptureFault::Stream),
        PcapEvent::Other => ActionView::Skip,
        PcapEvent::Record(rec) => match record_decode(format, rec@) {
            Ok(p) => ActionView::Emit(p),
            Err(e) => ActionView::Abort(CaptureFault::Record(e)),
        },
    }
}

/// A capture source's record decoding.
pub struct PacketCapture {
    pub format: RecordFormat,
}

impl PacketCapture {
    pub fn new(format: RecordFormat) -> (r: PacketCapture)
        ensures
            r.format == format,
    {
        PacketCapture { format }
    }

    /// The capture for a PCAP link type: usbmon frames (in the given native
    /// byte order) or USBPcap records; any other link type is refused.
    pub fn for_link_type(link_type: u32, native: ByteOrder) -> (r: Option<PacketCapture>)
        ensures
            r matches Some(c) ==> {
                ||| (link_type == DLT_USB_LINUX || link_type == DLT_USB_LINUX_MMAPPED)
                    && c.format == RecordFormat::Usbmon(native)
                ||| link_type == DLT_USBPCAP && c.format == RecordFormat::UsbPcap
            },
            r is None <==> link_type != DLT_USB_LINUX && link_type != DLT_USB_LINUX_MMAPPED
                && link_type != DLT_USBPCAP,
    {
        if link_type == DLT_USB_LINUX || link_type == DLT_USB_LINUX_MMAPPED {
            Some(PacketCapture::new(RecordFormat::Usbmon(native)))
        } else if link_type == DLT_USBPCAP {
            Some(PacketCapture::new(RecordFormat::UsbPcap))
        } else {
            None
        }
    }

    /// Decodes one usbmon frame.
    pub fn decode_usbmon_frame(frame: &[u8], order: ByteOrder) -> (r: Result<UrbXractPacket, DecodeError>)
        ensures
            decode_result_view(r) == usbmon_decode(frame@, order),
    {
        if frame.len() < USBMON_HEADER_LEN {
            return Err(DecodeError::TruncatedHeader);
        }
        let declared = read_u32(order, frame, 36);
        let avail = frame.len() - USBMON_HEADER_LEN;
        let n: usize = if (declared as u64) <= (avail as u64) {
            declared as usize
        } else {
            avail
        };
        let header = UrbXractHeader {
            bus_id: read_u16(order, frame, 12),
            device_id: frame[11] as u16,
            endpoint_info: frame[10],
        };
        let data = payload_copy(frame, USBMON_HEADER_LEN, n);
        Ok(UrbXractPacket { header, data })
    }

    /// Decodes one USBPcap record.
    pub fn decode_usbpcap_record(rec: &[u8]) -> (r: Result<UrbXractPacket, DecodeError>)
        ensures
            decode_result_view(r) == usbpcap_decode(rec@),
    {
        if rec.len() < USBPCAP_HEADER_LEN {
            return Err(DecodeError::TruncatedHeader);
        }
        let xfer_type = rec[22];
        let off: usize = if xfer_type == XFER_ISOCHRONOUS {
            USBPCAP_HEADER_LEN + USBPCAP_ISO_SUFFIX_LEN
        } else if xfer_type == XFER_CONTROL {
            USBPCAP_HEADER_LEN + USBPCAP_CONTROL_SUFFIX_LEN
        } else {
            USBPCAP_HEADER_LEN
        };
        if off > rec.len() {
            return Err(DecodeError::TruncatedHeader);
        }
        let declared = read_le_u32(rec, 23);
        if (off as u64) + (declared as u64) > (rec.len() as u64) {
            return Err(DecodeError::TruncatedPayload);
        }
        let n: usize = declared as usize;
        let header = UrbXractHeader {
            bus_id: read_le_u16(rec, 17),
            device_id: read_le_u16(rec, 19),
            endpoint_info: rec[21],
        };
        let data = if n == 0 {
            None
        } else {
            payload_copy(rec, off, n)
        };
        Ok(UrbXractPacket { header, data })
    }

    /// Decodes one record in this capture's format.
    pub fn decode_record(&self, rec: &[u8]) -> (r: Result<UrbXractPacket, DecodeError>)
        ensures
            decode_result_view(r) == record_decode(self.format, rec@),
    {
        match self.format {
            RecordFormat::Usbmon(order) => PacketCapture::decode_usbmon_frame(rec, order),
            RecordFormat::UsbPcap => PacketCapture::decode_usbpcap_record(rec),
        }
    }

    /// Decides what the capture loop does with one reader event.
    pub fn next_action(&self, event: PcapEvent) -> (r: CaptureAction)
        ensures
            action_view(r) == capture_step(self.format, event),
    {
        match event {
            PcapEvent::End => CaptureAction::Stop,
            PcapEvent::Incomplete => CaptureAction::Refill,
            PcapEvent::Failed => CaptureAction::Abort(CaptureFault::Stream),
            PcapEvent::Other => CaptureAction::Skip,
            PcapEvent::Record(rec) => match self.decode_record(rec.as_slice()) {
                Ok(p) => CaptureAction::Emit(p),
                Err(e) => CaptureAction::Abort(CaptureFault::Record(e)),
            },
        }
    }
}

} // verus!
