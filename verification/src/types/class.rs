//! Well-known device/interface class codes (`bDeviceClass`, `bInterfaceClass`).

use vstd::prelude::*;

verus! {

/// Class is defined per interface.
pub const PER_INTERFACE: u8 = 0x00;

/// Audio.
pub const AUDIO: u8 = 0x01;

/// Communications (CDC).
pub const COMM: u8 = 0x02;

/// Human interface device.
pub const HID: u8 = 0x03;

/// Physical.
pub const PHYSICAL: u8 = 0x05;

/// Still image (PTP).
pub const IMAGE: u8 = 0x06;

/// Printer.
pub const PRINTER: u8 = 0x07;

/// Mass storage.
pub const MASS_STORAGE: u8 = 0x08;

/// Hub.
pub const HUB: u8 = 0x09;

/// CDC data.
pub const DATA: u8 = 0x0a;

/// Smart card.
pub const SMART_CARD: u8 = 0x0b;

/// Content security.
pub const CONTENT_SECURITY: u8 = 0x0d;

/// Video.
pub const VIDEO: u8 = 0x0e;

/// Personal healthcare.
pub const PERSONAL_HEALTHCARE: u8 = 0x0f;

/// Diagnostic device.
pub const DIAGNOSTIC: u8 = 0xdc;

/// Wireless controller.
pub const WIRELESS: u8 = 0xe0;

/// Miscellaneous.
pub const MISCELLANEOUS: u8 = 0xef;

/// Application specific.
pub const APPLICATION: u8 = 0xfe;

/// Vendor specific.
pub const VENDOR_SPECIFIC: u8 = 0xff;

} // verus!
