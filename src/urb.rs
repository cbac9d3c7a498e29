//! The platform-neutral URB record handed from a capture backend to the
//! reconstructors.

use vstd::prelude::*;

verus! {

/// Header fields of one captured URB that the reconstructors rely on.
#[derive(Clone, Copy, Debug, PartialEq, Eq, Structural)]
pub struct UrbXractHeader {
    pub bus_id: u16,
    pub device_id: u16,
    /// Endpoint address; bit `0x80` set means device-to-host (IN).
    pub endpoint_info: u8,
}

/// One captured URB: its header and, when it carries one, its payload.
#[derive(Debug)]
pub struct UrbXractPacket {
    pub header: UrbXractHeader,
    pub data: Option<Vec<u8>>,
}

/// Mathematical value of a [`UrbXractPacket`].
pub struct PacketView {
    pub header: UrbXractHeader,
    pub data: Option<Seq<u8>>,
}

impl View for UrbXractPacket {
    type V = PacketView;

    open spec fn view(&self) -> PacketView {
        PacketView {
            header: self.header,
            data: match self.data {
                Some(v) => Some(v@),
                None => None,
            },
        }
    }
}

/// Key under which the serial reconstructor aggregates URBs:
/// bus, device, and whether the transfer runs host-to-device.
pub struct SerialKey {
    pub bus_id: u16,
    pub device_id: u16,
    pub host_to_device: bool,
}

/// True when the endpoint address names a host-to-device (OUT) transfer.
pub open spec fn is_host_to_device(endpoint_info: u8) -> bool {
    endpoint_info & 0x80u8 == 0u8
}

pub open spec fn serial_key(h: UrbXractHeader) -> SerialKey {
    SerialKey {
        bus_id: h.bus_id,
        device_id: h.device_id,
        host_to_device: is_host_to_device(h.endpoint_info),
    }
}

/// Direction of an endpoint address: `true` for host-to-device (OUT),
/// `false` for device-to-host (IN).
pub fn get_endpoint_direction(endpoint_info: u8) -> (r: bool)
    ensures
        r == is_host_to_device(endpoint_info),
{
    endpoint_info & 0x80u8 == 0u8
}

/// Whether two headers fall under the same aggregation key.
pub fn same_serial_key(a: &UrbXractHeader, b: &UrbXractHeader) -> (r: bool)
    ensures
        r == (serial_key(*a) == serial_key(*b)),
{
    a.bus_id == b.bus_id && a.device_id == b.device_id && get_endpoint_direction(a.endpoint_info)
        == get_endpoint_direction(b.endpoint_info)
}

impl UrbXractPacket {
    /// The same URB with its payload dropped, as recorded among the sources of
    /// a text transmission.
    pub fn header_only(&self) -> (r: UrbXractPacket)
        ensures
            r@ == (PacketView { header: self.header, data: None }),
    {
        UrbXractPacket { header: self.header, data: None }
    }
}

} // verus!
