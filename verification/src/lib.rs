//! USB device access: the protocol logic, verified.
//!
//! The library holds everything about talking to USB devices that can be
//! decided without the operating system. It plans what goes over the bus and
//! interprets what comes back; performing the I/O is left to its user. Each
//! operation that alternates between the two is a state machine: a function
//! from state and event to next state and action.
//!
//! # Layers
//!
//! - [`Context`] holds the devices of a session and finds one among them.
//! - [`Device`] is an enumerated device with its descriptors.
//! - [`DeviceHandle`] keeps the books of an open device: claims, leases and
//!   detached kernel drivers. The [`handle`] module also builds synchronous
//!   control, bulk and interrupt transfers and reads descriptors.
//! - [`Transfer`] is the asynchronous primitive underneath.
//! - [`sys`] holds what the platform backends decide: usbfs on Linux, WinUSB
//!   on Windows and IOKit on macOS.
//! - [`hotplug`] reports devices arriving and leaving.
//!
//! Class helpers for common device classes are built on these: [`hid`],
//! [`msc`], [`serial`], [`uvc`] and [`net`].

pub mod bytes;
pub mod class;
pub mod context;
pub mod descriptors;
pub mod device;
pub mod error;
pub mod handle;
pub mod hid;
pub mod hotplug;
pub mod msc;
pub mod net;
pub mod serial;
pub mod sys;
pub mod text;
pub mod transfer;
pub mod types;
pub mod uvc;

pub use context::Context;
pub use descriptors::{ConfigDescriptor, DeviceDescriptor, EndpointDescriptor, Interface, InterfaceDescriptor};
pub use device::Device;
pub use error::{Error, ErrorKind, Result};
pub use handle::DeviceHandle;
pub use hotplug::{HotplugEvent, HotplugRegistration};
pub use transfer::{Transfer, TransferFlags};
pub use types::{
    request_type, ControlSetup, ControlType, Direction, IsoPacket, Recipient, Speed, TransferStatus, TransferType,
    Version, NO_TIMEOUT,
};
