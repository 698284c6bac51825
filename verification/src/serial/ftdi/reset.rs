//! `wValue` of RESET: reset the port, or discard buffered data. The
//! historical "purge RX/TX" names are inverted from the host's point of view;
//! these follow libftdi 1.5's corrected naming.

use vstd::prelude::*;

verus! {

/// Reset the port.
pub const SIO: u16 = 0;

/// Discard data written by the host but not yet sent on the line.
pub const FLUSH_OUTPUT: u16 = 1;

/// Discard data received from the line but not yet read by the host.
pub const FLUSH_INPUT: u16 = 2;

} // verus!
