//! CDC network class requests.

use vstd::prelude::*;

verus! {

/// SET_ETHERNET_PACKET_FILTER
pub const SET_ETHERNET_PACKET_FILTER: u8 = 0x43;

/// GET_NTB_PARAMETERS
pub const GET_NTB_PARAMETERS: u8 = 0x80;

/// SET_NTB_INPUT_SIZE
pub const SET_NTB_INPUT_SIZE: u8 = 0x86;

} // verus!
