//! What libusb fixes: error texts, descriptor types, class codes and the
//! control requests that hubs answer.
//!
//! Opening devices and sending requests is the caller's.

use vstd::prelude::*;

verus! {

/// Why libusb refused an operation, one variant for each of `rusb::Error`.
#[derive(Debug, Clone, Copy, PartialEq, Eq, Structural)]
pub enum UsbError {
    /// Input/output error.
    Io,
    /// Invalid parameter.
    InvalidParam,
    /// Access denied (insufficient permissions).
    Access,
    /// No such device (it may have been disconnected).
    NoDevice,
    /// Entity not found.
    NotFound,
    /// Resource busy.
    Busy,
    /// Operation timed out.
    Timeout,
    /// Overflow.
    Overflow,
    /// Pipe error.
    Pipe,
    /// System call interrupted (perhaps due to signal).
    Interrupted,
    /// Insufficient memory.
    NoMem,
    /// Operation not supported or unimplemented on this platform.
    NotSupported,
    /// The device returned a malformed descriptor.
    BadDescriptor,
    /// Other error.
    Other,
}

/// The sentence that describes an error.
pub open spec fn usb_error_message(error: UsbError) -> Seq<char> {
    match error {
        UsbError::Io => "Input/Output Error"@,
        UsbError::InvalidParam => "Invalid parameter"@,
        UsbError::Access => "Access denied (insufficient permissions)"@,
        UsbError::NoDevice => "No such device (it may have been disconnected)"@,
        UsbError::NotFound => "Entity not found"@,
        UsbError::Busy => "Resource busy"@,
        UsbError::Timeout => "Operation timed out"@,
        UsbError::Overflow => "Overflow"@,
        UsbError::Pipe => "Pipe error"@,
        UsbError::Interrupted => "System call interrupted (perhaps due to signal)"@,
        UsbError::NoMem => "Insufficient memory"@,
        UsbError::NotSupported => "Operation not supported or unimplemented on this platform"@,
        UsbError::BadDescriptor => "Malformed descriptor"@,
        UsbError::Other => "Other error"@,
    }
}

/// `rusb::Error`'s `Display`: each error has a fixed sentence, the one that
/// [`usb_error_message`] gives.
#[verifier::external_body]
pub(crate) fn usb_error_text(error: UsbError) -> (message: String)
    ensures
        message@ == usb_error_message(error),
{
    let error = match error {
        UsbError::Io => rusb::Error::Io, UsbError::InvalidParam => rusb::Error::InvalidParam,
        UsbError::Access => rusb::Error::Access, UsbError::NoDevice => rusb::Error::NoDevice,
        UsbError::NotFound => rusb::Error::NotFound, UsbError::Busy => rusb::Error::Busy,
        UsbError::Timeout => rusb::Error::Timeout, UsbError::Overflow => rusb::Error::Overflow,
        UsbError::Pipe => rusb::Error::Pipe, UsbError::Interrupted => rusb::Error::Interrupted,
        UsbError::NoMem => rusb::Error::NoMem, UsbError::NotSupported => rusb::Error::NotSupported,
        UsbError::BadDescriptor => rusb::Error::BadDescriptor, UsbError::Other => rusb::Error::Other,
    };
    error.to_string()
}

/// libusb's `LIBUSB_CLASS_HUB`, the device class of hubs, is 9.
#[verifier::external_body]
pub(crate) fn class_hub() -> (class: u8)
    ensures
        class == 9,
{
    rusb::constants::LIBUSB_CLASS_HUB
}

/// libusb's `LIBUSB_DT_HUB`, the type of a USB 2.0 hub descriptor, is 0x29.
#[verifier::external_body]
fn descriptor_type_hub() -> (dt: u8)
    ensures
        dt == 0x29,
{
    rusb::constants::LIBUSB_DT_HUB
}

/// libusb's `LIBUSB_DT_SUPERSPEED_HUB`, the type of a `SuperSpeed` hub
/// descriptor, is 0x2a.
#[verifier::external_body]
fn descriptor_type_super_speed_hub() -> (dt: u8)
    ensures
        dt == 0x2a,
{
    rusb::constants::LIBUSB_DT_SUPERSPEED_HUB
}

/// libusb's `LIBUSB_REQUEST_GET_DESCRIPTOR` is 6.
#[verifier::external_body]
fn request_get_descriptor() -> (request: u8)
    ensures
        request == 6,
{
    rusb::constants::LIBUSB_REQUEST_GET_DESCRIPTOR
}

/// libusb's `LIBUSB_REQUEST_SET_FEATURE` is 3.
#[verifier::external_body]
fn request_set_feature() -> (request: u8)
    ensures
        request == 3,
{
    rusb::constants::LIBUSB_REQUEST_SET_FEATURE
}

/// libusb's `LIBUSB_REQUEST_CLEAR_FEATURE` is 1.
#[verifier::external_body]
fn request_clear_feature() -> (request: u8)
    ensures
        request == 1,
{
    rusb::constants::LIBUSB_REQUEST_CLEAR_FEATURE
}

/// Which way a control transfer goes.
#[derive(Debug, Clone, Copy, PartialEq, Eq, Structural)]
pub enum Direction {
    /// Device to host.
    In,
    /// Host to device.
    Out,
}

/// Who answers a control request.
#[derive(Debug, Clone, Copy, PartialEq, Eq, Structural)]
pub enum Recipient {
    /// The device.
    Device,
    /// One of its interfaces.
    Interface,
    /// One of its endpoints.
    Endpoint,
    /// Something else, such as a hub's port.
    Other,
}

/// `bmRequestType` of a class request: the direction in bit 7, class in bits 5
/// and 6, the recipient in the low bits.
pub open spec fn class_request(direction: Direction, recipient: Recipient) -> u8 {
    let way: int = match direction {
        Direction::In => 0x80,
        Direction::Out => 0,
    };
    let who: int = match recipient {
        Recipient::Device => 0,
        Recipient::Interface => 1,
        Recipient::Endpoint => 2,
        Recipient::Other => 3,
    };
    (way + 0x20 + who) as u8
}

/// `rusb::request_type` for a class request: direction, type and recipient, each
/// in its own bits.
#[verifier::external_body]
fn class_request_type(direction: Direction, recipient: Recipient) -> (rt: u8)
    ensures
        rt == class_request(direction, recipient),
{
    let direction = match direction {
        Direction::In => rusb::Direction::In,
        Direction::Out => rusb::Direction::Out,
    };
    let recipient = match recipient {
        Recipient::Device => rusb::Recipient::Device,
        Recipient::Interface => rusb::Recipient::Interface,
        Recipient::Endpoint => rusb::Recipient::Endpoint,
        Recipient::Other => rusb::Recipient::Other,
    };
    rusb::request_type(direction, rusb::RequestType::Class, recipient)
}

/// The setup of a control transfer.
#[derive(Debug, Clone, Copy, PartialEq, Eq, Structural)]
pub struct ControlRequest {
    /// `bmRequestType`.
    pub request_type: u8,
    /// `bRequest`.
    pub request: u8,
    /// `wValue`.
    pub value: u16,
    /// `wIndex`.
    pub index: u16,
}

/// `PORT_POWER` feature selector (USB 2.0 §11.24.2, Table 11-17).
pub const PORT_POWER: u16 = 8;

/// The request that reads a hub's descriptor: `GET_DESCRIPTOR` as a class
/// request to the device, with the descriptor's type in the high byte of
/// `wValue`.
pub fn hub_descriptor_request(super_speed: bool) -> (request: ControlRequest)
    ensures
        request.request_type == 0xa0,
        request.request == 6,
        request.value == (if super_speed { 0x2a00u16 } else { 0x2900u16 }),
        request.index == 0,
{
    let dt: u8 = if super_speed {
        descriptor_type_super_speed_hub()
    } else {
        descriptor_type_hub()
    };
    ControlRequest {
        request_type: class_request_type(Direction::In, Recipient::Device),
        request: request_get_descriptor(),
        value: dt as u16 * 256,
        index: 0,
    }
}

/// The request that switches one port: `SET_FEATURE` or `CLEAR_FEATURE` of
/// `PORT_POWER`, as a class request to the port.
pub fn port_power_request(port: u8, on: bool) -> (request: ControlRequest)
    ensures
        request.request_type == 0x23,
        request.request == (if on { 3u8 } else { 1u8 }),
        request.value == 8,
        request.index == port,
{
    ControlRequest {
        request_type: class_request_type(Direction::Out, Recipient::Other),
        request: if on {
            request_set_feature()
        } else {
            request_clear_feature()
        },
        value: PORT_POWER,
        index: port as u16,
    }
}

/// The text that [`usb_error_message`] gives, for an error that is passed on.
pub fn describe(error: UsbError) -> (message: String)
    ensures
        message@ == usb_error_message(error),
{
    usb_error_text(error)
}

} // verus!
