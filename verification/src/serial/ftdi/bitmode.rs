//! Pin modes for [`SerialPort::set_bitmode`](crate::serial::SerialPort::set_bitmode).

use vstd::prelude::*;

verus! {

/// Back to the normal UART (or FIFO) function.
pub const RESET: u8 = 0x00;

/// Asynchronous bit-bang.
pub const BITBANG: u8 = 0x01;

/// MPSSE: the SPI/I2C/JTAG engine (2232C/D, H-series).
pub const MPSSE: u8 = 0x02;

/// Synchronous bit-bang.
pub const SYNC_BITBANG: u8 = 0x04;

/// MCU host bus emulation.
pub const MCU: u8 = 0x08;

/// Fast opto-isolated serial.
pub const OPTO: u8 = 0x10;

/// CBUS bit-bang (232R, 232H, FT-X).
pub const CBUS: u8 = 0x20;

/// Synchronous 245 FIFO (2232H, 232H).
pub const SYNC_FIFO: u8 = 0x40;

} // verus!
