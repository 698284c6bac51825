//! Well-known usages, for matching the application usages of a report
//! descriptor: the page in the high half, the ID in the low half, as a
//! `Usage` holds them.

use vstd::prelude::*;

verus! {

/// Generic Desktop / Pointer.
pub const POINTER: u32 = 0x0001_0001;

/// Generic Desktop / Mouse.
pub const MOUSE: u32 = 0x0001_0002;

/// Generic Desktop / Joystick.
pub const JOYSTICK: u32 = 0x0001_0004;

/// Generic Desktop / Gamepad.
pub const GAMEPAD: u32 = 0x0001_0005;

/// Generic Desktop / Keyboard.
pub const KEYBOARD: u32 = 0x0001_0006;

/// Generic Desktop / Keypad.
pub const KEYPAD: u32 = 0x0001_0007;

/// Generic Desktop / System Control.
pub const SYSTEM_CONTROL: u32 = 0x0001_0080;

/// Consumer / Consumer Control.
pub const CONSUMER_CONTROL: u32 = 0x000c_0001;

/// Digitizer / Touch Screen.
pub const TOUCH_SCREEN: u32 = 0x000d_0004;

/// FIDO Alliance / U2F Authenticator Device.
pub const FIDO_AUTHENTICATOR: u32 = 0xf1d0_0001;

} // verus!
