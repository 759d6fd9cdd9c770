//! Driver core for a small thermal receipt printer speaking a
//! vendor-specific command protocol over a byte transport.
//!
//! The crate is organised around five pieces: the [`doc::Document`] bitmap
//! container, the transport capability trait [`backend::Backend`], the
//! wire-format builders and parsers in [`proto`], the row-chunking logic in
//! [`chunk`], and the [`printer::Printer`] protocol engine that ties them
//! together. USB device discovery is validated by [`usbinfo`]; the actual
//! bus I/O lives outside this crate.

use vstd::prelude::*;

pub mod backend;
pub mod chunk;
pub mod doc;
pub mod printer;
pub mod proto;
pub mod usbinfo;

pub use crate::proto::MacAddr;

verus! {

/// Errors surfaced by printer operations.
#[derive(Clone, Copy, Debug, PartialEq, Eq, Structural)]
pub enum PrinterError {
    /// The underlying transport failed (including a timeout expiry).
    Transport,
    /// The device's interface could not be claimed for exclusive use.
    Claim,
    /// No matching device was found during enumeration.
    DeviceNotFound,
    /// The device's USB topology does not match the expected descriptors.
    Validation,
    /// A query response does not have the expected shape.
    Response,
    /// A caller-supplied parameter violates a documented constraint.
    InvalidArgument,
}

} // verus!
