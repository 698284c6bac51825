//! Operation codes of the SCSI commands that mass-storage devices understand.

use vstd::prelude::*;

verus! {

/// TEST UNIT READY
pub const TEST_UNIT_READY: u8 = 0x00;

/// REQUEST SENSE
pub const REQUEST_SENSE: u8 = 0x03;

/// INQUIRY
pub const INQUIRY: u8 = 0x12;

/// MODE SENSE (6)
pub const MODE_SENSE_6: u8 = 0x1a;

/// START STOP UNIT
pub const START_STOP_UNIT: u8 = 0x1b;

/// PREVENT ALLOW MEDIUM REMOVAL
pub const PREVENT_ALLOW_MEDIUM_REMOVAL: u8 = 0x1e;

/// READ CAPACITY (10)
pub const READ_CAPACITY_10: u8 = 0x25;

/// READ (10)
pub const READ_10: u8 = 0x28;

/// WRITE (10)
pub const WRITE_10: u8 = 0x2a;

/// SYNCHRONIZE CACHE (10)
pub const SYNCHRONIZE_CACHE_10: u8 = 0x35;

/// READ (16)
pub const READ_16: u8 = 0x88;

/// WRITE (16)
pub const WRITE_16: u8 = 0x8a;

/// SERVICE ACTION IN (16), whose action 0x10 is READ CAPACITY (16)
pub const SERVICE_ACTION_IN_16: u8 = 0x9e;

} // verus!
