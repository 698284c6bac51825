//! Object identifiers of the values that an RNDIS device is asked for.

use vstd::prelude::*;

verus! {

/// Which frames the device passes on.
pub const GEN_CURRENT_PACKET_FILTER: u32 = 0x0001_010e;

/// The largest payload of a frame.
pub const GEN_MAXIMUM_FRAME_SIZE: u32 = 0x0001_0106;

/// The link speed, in units of 100 bit/s.
pub const GEN_LINK_SPEED: u32 = 0x0001_0107;

/// Whether the link is up (0) or not.
pub const GEN_MEDIA_CONNECT_STATUS: u32 = 0x0001_0114;

/// The adapter's MAC address.
pub const PERMANENT_ADDRESS: u32 = 0x0101_0101;

} // verus!
