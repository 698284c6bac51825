//! Standard request codes (`bRequest`) from USB 2.0 §9.4.

use vstd::prelude::*;

verus! {

/// GET_STATUS
pub const GET_STATUS: u8 = 0x00;

/// CLEAR_FEATURE
pub const CLEAR_FEATURE: u8 = 0x01;

/// SET_FEATURE
pub const SET_FEATURE: u8 = 0x03;

/// SET_ADDRESS
pub const SET_ADDRESS: u8 = 0x05;

/// GET_DESCRIPTOR
pub const GET_DESCRIPTOR: u8 = 0x06;

/// SET_DESCRIPTOR
pub const SET_DESCRIPTOR: u8 = 0x07;

/// GET_CONFIGURATION
pub const GET_CONFIGURATION: u8 = 0x08;

/// SET_CONFIGURATION
pub const SET_CONFIGURATION: u8 = 0x09;

/// GET_INTERFACE
pub const GET_INTERFACE: u8 = 0x0a;

/// SET_INTERFACE
pub const SET_INTERFACE: u8 = 0x0b;

/// SYNCH_FRAME
pub const SYNCH_FRAME: u8 = 0x0c;

/// SET_SEL (USB 3)
pub const SET_SEL: u8 = 0x30;

/// SET_ISOCH_DELAY (USB 3)
pub const SET_ISOCH_DELAY: u8 = 0x31;

} // verus!
