//! Device discovery rules: which USB device is the printer, and what its
//! topology must look like before a transport may be bound to it. The
//! actual bus enumeration and descriptor reads happen outside this crate;
//! they hand the plain descriptor fields to these functions.

use vstd::prelude::*;

use crate::PrinterError;

verus! {

/// The printer's USB vendor identifier.
pub const VENDOR_ID: u16 = 0x09c5;

/// The printer's USB product identifier.
pub const PRODUCT_ID: u16 = 0x0200;

/// USB class code of a printer device.
pub const CLASS_PRINTER: u8 = 7;

/// Expected address of the device-to-host bulk endpoint.
pub const ENDPOINT_IN: u8 = 0x81;

/// Expected address of the host-to-device bulk endpoint.
pub const ENDPOINT_OUT: u8 = 0x02;

/// Whether a device descriptor's vendor and product identifiers name the
/// printer this crate drives.
pub fn is_printer_device(vendor_id: u16, product_id: u16) -> (r: bool)
    ensures
        r == (vendor_id == 0x09c5 && product_id == 0x0200),
{
    vendor_id == VENDOR_ID && product_id == PRODUCT_ID
}

/// The descriptor fields of one endpoint that validation inspects.
#[derive(Clone, Copy, Debug, PartialEq, Eq, Structural)]
pub struct EndpointInfo {
    /// The endpoint address, direction bit included.
    pub address: u8,
    /// Whether the endpoint's direction is device-to-host.
    pub direction_in: bool,
    /// Whether the endpoint's transfer type is bulk.
    pub bulk: bool,
}

/// The topology fields of an opened device that validation inspects: one
/// configuration and one interface are expected, with exactly the two
/// endpoints given here in descriptor order.
#[derive(Clone, Copy, Debug, PartialEq, Eq, Structural)]
pub struct Topology {
    /// Number of configurations in the device descriptor.
    pub num_configurations: u8,
    /// Number of interfaces in the first configuration.
    pub num_interfaces: u8,
    /// Class code of the first interface.
    pub class_code: u8,
    /// Subclass code of the first interface.
    pub sub_class_code: u8,
    /// Protocol code of the first interface.
    pub protocol_code: u8,
    /// Number of endpoints of the first interface.
    pub num_endpoints: u8,
    /// The first endpoint descriptor.
    pub endpoint0: EndpointInfo,
    /// The second endpoint descriptor.
    pub endpoint1: EndpointInfo,
}

/// The shape a supported printer must report: a single configuration, a
/// single bidirectional printer-class interface, and two bulk endpoints
/// at the known addresses, device-to-host first.
pub open spec fn topology_ok(t: Topology) -> bool {
    &&& t.num_configurations == 1
    &&& t.num_interfaces == 1
    &&& t.class_code == 7
    &&& t.sub_class_code == 1
    &&& t.protocol_code == 2
    &&& t.num_endpoints == 2
    &&& t.endpoint0 == (EndpointInfo { address: 0x81, direction_in: true, bulk: true })
    &&& t.endpoint1 == (EndpointInfo { address: 0x02, direction_in: false, bulk: true })
}

/// Validate a device's topology, returning the bulk IN and OUT endpoint
/// addresses exactly when every expected descriptor field matches; any
/// structural mismatch is a validation failure, meaning wrong or
/// unsupported hardware.
pub fn validate_topology(t: &Topology) -> (r: Result<(u8, u8), PrinterError>)
    ensures
        topology_ok(*t) ==> r == Ok::<(u8, u8), PrinterError>((0x81u8, 0x02u8)),
        !topology_ok(*t) ==> r == Err::<(u8, u8), PrinterError>(PrinterError::Validation),
{
    if t.num_configurations != 1 {
        return Err(PrinterError::Validation);
    }
    if t.num_interfaces != 1 {
        return Err(PrinterError::Validation);
    }
    if t.class_code != CLASS_PRINTER || t.sub_class_code != 1 || t.protocol_code != 2 {
        return Err(PrinterError::Validation);
    }
    if t.num_endpoints != 2 {
        return Err(PrinterError::Validation);
    }
    if !(t.endpoint0.address == ENDPOINT_IN && t.endpoint0.direction_in && t.endpoint0.bulk) {
        return Err(PrinterError::Validation);
    }
    if !(t.endpoint1.address == ENDPOINT_OUT && !t.endpoint1.direction_in && t.endpoint1.bulk) {
        return Err(PrinterError::Validation);
    }
    Ok((t.endpoint0.address, t.endpoint1.address))
}

} // verus!
