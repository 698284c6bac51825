//! SET_ETHERNET_PACKET_FILTER bits.

use vstd::prelude::*;

verus! {

/// Frames for any address.
pub const PROMISCUOUS: u16 = 0x01;

/// Every multicast frame.
pub const ALL_MULTICAST: u16 = 0x02;

/// Frames for this adapter.
pub const DIRECTED: u16 = 0x04;

/// Broadcast frames.
pub const BROADCAST: u16 = 0x08;

} // verus!
