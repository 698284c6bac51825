//! CDC-ACM class requests.

use vstd::prelude::*;

verus! {

/// SET_LINE_CODING
pub const SET_LINE_CODING: u8 = 0x20;

/// GET_LINE_CODING
pub const GET_LINE_CODING: u8 = 0x21;

/// SET_CONTROL_LINE_STATE
pub const SET_CONTROL_LINE_STATE: u8 = 0x22;

/// SEND_BREAK
pub const SEND_BREAK: u8 = 0x23;

} // verus!
