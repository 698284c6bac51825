//! VideoStreaming descriptor subtypes.

use vstd::prelude::*;

verus! {

/// Input header.
pub const INPUT_HEADER: u8 = 0x01;

/// Uncompressed format.
pub const FORMAT_UNCOMPRESSED: u8 = 0x04;

/// Uncompressed frame size.
pub const FRAME_UNCOMPRESSED: u8 = 0x05;

/// Motion JPEG format.
pub const FORMAT_MJPEG: u8 = 0x06;

/// Motion JPEG frame size.
pub const FRAME_MJPEG: u8 = 0x07;

/// Frame-based format.
pub const FORMAT_FRAME_BASED: u8 = 0x10;

/// Frame-based frame size.
pub const FRAME_FRAME_BASED: u8 = 0x11;

} // verus!
