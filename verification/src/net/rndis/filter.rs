//! NDIS packet filter bits.

use vstd::prelude::*;

verus! {

/// Frames for this adapter.
pub const DIRECTED: u32 = 0x01;

/// Every multicast frame.
pub const ALL_MULTICAST: u32 = 0x04;

/// Broadcast frames.
pub const BROADCAST: u32 = 0x08;

/// Frames for any address.
pub const PROMISCUOUS: u32 = 0x20;

} // verus!
