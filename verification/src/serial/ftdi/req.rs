//! FTDI vendor requests (`bRequest`).

use vstd::prelude::*;

verus! {

/// Resets the port or discards buffered data.
pub const RESET: u8 = 0x00;

/// Sets DTR and RTS.
pub const SET_MODEM_CTRL: u8 = 0x01;

/// Sets flow control.
pub const SET_FLOW_CTRL: u8 = 0x02;

/// Sets the baud rate divisor.
pub const SET_BAUD_RATE: u8 = 0x03;

/// Sets the character framing and break.
pub const SET_DATA: u8 = 0x04;

/// Reads the modem lines.
pub const GET_MODEM_STATUS: u8 = 0x05;

/// Sets the latency timer.
pub const SET_LATENCY_TIMER: u8 = 0x09;

/// Reads the latency timer.
pub const GET_LATENCY_TIMER: u8 = 0x0a;

/// Switches the pin mode.
pub const SET_BITMODE: u8 = 0x0b;

/// Reads the data pins.
pub const READ_PINS: u8 = 0x0c;

} // verus!
