//! VideoControl descriptor subtypes.

use vstd::prelude::*;

verus! {

/// Header.
pub const HEADER: u8 = 0x01;

/// Input terminal.
pub const INPUT_TERMINAL: u8 = 0x02;

/// Output terminal.
pub const OUTPUT_TERMINAL: u8 = 0x03;

/// Selector unit.
pub const SELECTOR_UNIT: u8 = 0x04;

/// Processing unit.
pub const PROCESSING_UNIT: u8 = 0x05;

/// Extension unit.
pub const EXTENSION_UNIT: u8 = 0x06;

/// Encoding unit.
pub const ENCODING_UNIT: u8 = 0x07;

} // verus!
