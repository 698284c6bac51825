//! HID class requests (HID 1.11 §7.2).

use vstd::prelude::*;

verus! {

/// GET_REPORT
pub const GET_REPORT: u8 = 0x01;

/// GET_IDLE
pub const GET_IDLE: u8 = 0x02;

/// GET_PROTOCOL
pub const GET_PROTOCOL: u8 = 0x03;

/// SET_REPORT
pub const SET_REPORT: u8 = 0x09;

/// SET_IDLE
pub const SET_IDLE: u8 = 0x0a;

/// SET_PROTOCOL
pub const SET_PROTOCOL: u8 = 0x0b;

} // verus!
