//! Processing unit control selectors (UVC 1.5 Table A-13), for use with the
//! ID of [`ControlInterface::processing_unit`](crate::uvc::descriptors::ControlInterface::processing_unit).
//! Sizes are in bytes.

use vstd::prelude::*;

verus! {

/// Backlight compensation, 2.
pub const BACKLIGHT_COMPENSATION: u8 = 0x01;

/// Brightness, 2 (signed).
pub const BRIGHTNESS: u8 = 0x02;

/// Contrast, 2.
pub const CONTRAST: u8 = 0x03;

/// Gain, 2.
pub const GAIN: u8 = 0x04;

/// Power line frequency, 1 (0 off, 1 50 Hz, 2 60 Hz, 3 auto).
pub const POWER_LINE_FREQUENCY: u8 = 0x05;

/// Hue, 2 (signed).
pub const HUE: u8 = 0x06;

/// Saturation, 2.
pub const SATURATION: u8 = 0x07;

/// Sharpness, 2.
pub const SHARPNESS: u8 = 0x08;

/// Gamma, 2.
pub const GAMMA: u8 = 0x09;

/// White balance temperature in kelvin, 2.
pub const WHITE_BALANCE_TEMPERATURE: u8 = 0x0a;

/// Automatic white balance temperature, 1.
pub const WHITE_BALANCE_TEMPERATURE_AUTO: u8 = 0x0b;

/// White balance components, 4.
pub const WHITE_BALANCE_COMPONENT: u8 = 0x0c;

/// Automatic white balance components, 1.
pub const WHITE_BALANCE_COMPONENT_AUTO: u8 = 0x0d;

/// Digital multiplier, 2.
pub const DIGITAL_MULTIPLIER: u8 = 0x0e;

/// Digital multiplier limit, 2.
pub const DIGITAL_MULTIPLIER_LIMIT: u8 = 0x0f;

/// Automatic hue, 1.
pub const HUE_AUTO: u8 = 0x10;

/// Analog video standard, 1.
pub const ANALOG_VIDEO_STANDARD: u8 = 0x11;

/// Analog video lock status, 1.
pub const ANALOG_LOCK_STATUS: u8 = 0x12;

/// Automatic contrast, 1.
pub const CONTRAST_AUTO: u8 = 0x13;

} // verus!
