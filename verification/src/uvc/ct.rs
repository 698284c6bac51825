//! Camera terminal control selectors (UVC 1.5 Table A-12), for use with the
//! ID of [`ControlInterface::camera_terminal`](crate::uvc::descriptors::ControlInterface::camera_terminal).
//! Sizes are in bytes.

use vstd::prelude::*;

verus! {

/// Scanning mode, 1.
pub const SCANNING_MODE: u8 = 0x01;

/// Auto-exposure mode bitmap, 1 (1 manual, 2 auto, 4 shutter priority,
/// 8 aperture priority).
pub const AE_MODE: u8 = 0x02;

/// Auto-exposure priority, 1.
pub const AE_PRIORITY: u8 = 0x03;

/// Exposure time in 100 µs units, 4 (unsigned).
pub const EXPOSURE_TIME_ABSOLUTE: u8 = 0x04;

/// Exposure time step, 1 (signed).
pub const EXPOSURE_TIME_RELATIVE: u8 = 0x05;

/// Focus distance in millimetres, 2.
pub const FOCUS_ABSOLUTE: u8 = 0x06;

/// Focus step, 2.
pub const FOCUS_RELATIVE: u8 = 0x07;

/// Continuous autofocus on/off, 1.
pub const FOCUS_AUTO: u8 = 0x08;

/// Iris, 2.
pub const IRIS_ABSOLUTE: u8 = 0x09;

/// Iris step, 1.
pub const IRIS_RELATIVE: u8 = 0x0a;

/// Zoom, 2.
pub const ZOOM_ABSOLUTE: u8 = 0x0b;

/// Zoom speed, 3.
pub const ZOOM_RELATIVE: u8 = 0x0c;

/// Pan and tilt in arc-seconds, 8 (two signed 32-bit values).
pub const PANTILT_ABSOLUTE: u8 = 0x0d;

/// Pan/tilt speed, 4.
pub const PANTILT_RELATIVE: u8 = 0x0e;

/// Roll, 2.
pub const ROLL_ABSOLUTE: u8 = 0x0f;

/// Roll speed, 2.
pub const ROLL_RELATIVE: u8 = 0x10;

/// Privacy shutter, 1.
pub const PRIVACY: u8 = 0x11;

} // verus!
