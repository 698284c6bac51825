//! Descriptor type codes (`bDescriptorType`).

use vstd::prelude::*;

verus! {

/// Device descriptor.
pub const DEVICE: u8 = 0x01;

/// Configuration descriptor.
pub const CONFIG: u8 = 0x02;

/// String descriptor.
pub const STRING: u8 = 0x03;

/// Interface descriptor.
pub const INTERFACE: u8 = 0x04;

/// Endpoint descriptor.
pub const ENDPOINT: u8 = 0x05;

/// Device qualifier (USB 2.0 only).
pub const DEVICE_QUALIFIER: u8 = 0x06;

/// Other-speed configuration (USB 2.0 only).
pub const OTHER_SPEED_CONFIG: u8 = 0x07;

/// Interface power.
pub const INTERFACE_POWER: u8 = 0x08;

/// OTG descriptor.
pub const OTG: u8 = 0x09;

/// Debug descriptor.
pub const DEBUG: u8 = 0x0a;

/// Interface association descriptor.
pub const INTERFACE_ASSOCIATION: u8 = 0x0b;

/// Binary Object Store (USB 3 / 2.1).
pub const BOS: u8 = 0x0f;

/// Device capability (inside a BOS).
pub const DEVICE_CAPABILITY: u8 = 0x10;

/// HID descriptor.
pub const HID: u8 = 0x21;

/// HID report descriptor.
pub const HID_REPORT: u8 = 0x22;

/// SuperSpeed endpoint companion.
pub const SS_ENDPOINT_COMPANION: u8 = 0x30;

/// SuperSpeedPlus isochronous endpoint companion.
pub const SSP_ISOCH_ENDPOINT_COMPANION: u8 = 0x31;

} // verus!
