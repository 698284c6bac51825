//! macOS backend decisions: `IOReturn` codes, location identifiers and
//! transfer results.

use crate::error::ErrorKind;
use vstd::prelude::*;

pub mod registry;
pub mod transfers;

verus! {

/// `kIOReturnSuccess`
pub const IO_RETURN_SUCCESS: i32 = 0;

/// `kIOReturnNoMemory`
pub const IO_RETURN_NO_MEMORY: i32 = -536870211;

/// `kIOReturnNoDevice`
pub const IO_RETURN_NO_DEVICE: i32 = -536870208;

/// `kIOReturnNotPrivileged`
pub const IO_RETURN_NOT_PRIVILEGED: i32 = -536870207;

/// `kIOReturnBadArgument`
pub const IO_RETURN_BAD_ARGUMENT: i32 = -536870206;

/// `kIOReturnExclusiveAccess`
pub const IO_RETURN_EXCLUSIVE_ACCESS: i32 = -536870203;

/// `kIOReturnUnsupported`
pub const IO_RETURN_UNSUPPORTED: i32 = -536870201;

/// `kIOReturnNotOpen`
pub const IO_RETURN_NOT_OPEN: i32 = -536870195;

/// `kIOReturnBusy`
pub const IO_RETURN_BUSY: i32 = -536870187;

/// `kIOReturnTimeout`
pub const IO_RETURN_TIMEOUT: i32 = -536870186;

/// `kIOReturnNotAttached`
pub const IO_RETURN_NOT_ATTACHED: i32 = -536870183;

/// `kIOReturnNoResources`
pub const IO_RETURN_NO_RESOURCES: i32 = -536870210;

/// `kIOReturnOverrun`
pub const IO_RETURN_OVERRUN: i32 = -536870168;

/// `kIOReturnUnderrun`
pub const IO_RETURN_UNDERRUN: i32 = -536870167;

/// `kIOReturnAborted`
pub const IO_RETURN_ABORTED: i32 = -536870165;

/// `kIOReturnNotResponding`
pub const IO_RETURN_NOT_RESPONDING: i32 = -536870163;

/// `kIOReturnNotFound`
pub const IO_RETURN_NOT_FOUND: i32 = -536870160;

/// `kIOUSBPipeStalled`
pub const IOUSB_PIPE_STALLED: i32 = -536854449;

/// `kIOUSBTransactionTimeout`
pub const IOUSB_TRANSACTION_TIMEOUT: i32 = -536854447;

/// The kind of an `IOReturn`.
pub open spec fn code_kind(code: i32) -> ErrorKind {
    if code == IO_RETURN_SUCCESS {
        ErrorKind::Other
    } else if code == IO_RETURN_NO_DEVICE || code == IO_RETURN_NOT_ATTACHED || code == IO_RETURN_NOT_RESPONDING {
        ErrorKind::NoDevice
    } else if code == IO_RETURN_EXCLUSIVE_ACCESS || code == IO_RETURN_NOT_PRIVILEGED {
        ErrorKind::Access
    } else if code == IO_RETURN_NOT_OPEN || code == IO_RETURN_BAD_ARGUMENT {
        ErrorKind::InvalidParam
    } else if code == IO_RETURN_TIMEOUT || code == IOUSB_TRANSACTION_TIMEOUT {
        ErrorKind::Timeout
    } else if code == IOUSB_PIPE_STALLED {
        ErrorKind::Pipe
    } else if code == IO_RETURN_NO_MEMORY || code == IO_RETURN_NO_RESOURCES {
        ErrorKind::NoMem
    } else if code == IO_RETURN_UNSUPPORTED {
        ErrorKind::NotSupported
    } else if code == IO_RETURN_BUSY {
        ErrorKind::Busy
    } else if code == IO_RETURN_ABORTED {
        ErrorKind::Interrupted
    } else if code == IO_RETURN_NOT_FOUND {
        ErrorKind::NotFound
    } else if code == IO_RETURN_OVERRUN {
        ErrorKind::Overflow
    } else {
        ErrorKind::Io
    }
}

/// Maps an `IOReturn` to an error kind.
pub fn errno_kind(code: i32) -> (r: ErrorKind)
    ensures
        r == code_kind(code),
{
    match code {
        IO_RETURN_SUCCESS => ErrorKind::Other,
        IO_RETURN_NO_DEVICE | IO_RETURN_NOT_ATTACHED | IO_RETURN_NOT_RESPONDING => ErrorKind::NoDevice,
        IO_RETURN_EXCLUSIVE_ACCESS | IO_RETURN_NOT_PRIVILEGED => ErrorKind::Access,
        IO_RETURN_NOT_OPEN | IO_RETURN_BAD_ARGUMENT => ErrorKind::InvalidParam,
        IO_RETURN_TIMEOUT | IOUSB_TRANSACTION_TIMEOUT => ErrorKind::Timeout,
        IOUSB_PIPE_STALLED => ErrorKind::Pipe,
        IO_RETURN_NO_MEMORY | IO_RETURN_NO_RESOURCES => ErrorKind::NoMem,
        IO_RETURN_UNSUPPORTED => ErrorKind::NotSupported,
        IO_RETURN_BUSY => ErrorKind::Busy,
        IO_RETURN_ABORTED => ErrorKind::Interrupted,
        IO_RETURN_NOT_FOUND => ErrorKind::NotFound,
        IO_RETURN_OVERRUN => ErrorKind::Overflow,
        _ => ErrorKind::Io,
    }
}

/// What kind each return code of the system is, by its last three digits in
/// the common range (0xe00002..) and those of the USB range (0xe00040..).
pub proof fn lemma_return_codes(code: i32)
    ensures
        ({
            let common = code as int + 0x2000_0000 - 0x200;
            let usb = code as int + 0x2000_0000 - 0x4000;
            let is = |c: int| common == c;
            &&& code_kind(code) == ErrorKind::Other <==> code == 0
            &&& code_kind(code) == ErrorKind::NoDevice <==> is(0xc0) || is(0xd9) || is(0xed)
            &&& code_kind(code) == ErrorKind::Access <==> is(0xc5) || is(0xc1)
            &&& code_kind(code) == ErrorKind::InvalidParam <==> is(0xcd) || is(0xc2)
            &&& code_kind(code) == ErrorKind::Timeout <==> is(0xd6) || usb == 0x51
            &&& code_kind(code) == ErrorKind::Pipe <==> usb == 0x4f
            &&& code_kind(code) == ErrorKind::NoMem <==> is(0xbd) || is(0xbe)
            &&& code_kind(code) == ErrorKind::NotSupported <==> is(0xc7)
            &&& code_kind(code) == ErrorKind::Busy <==> is(0xd5)
            &&& code_kind(code) == ErrorKind::Interrupted <==> is(0xeb)
            &&& code_kind(code) == ErrorKind::NotFound <==> is(0xf0)
            &&& code_kind(code) == ErrorKind::Overflow <==> is(0xe8)
        }),
{
}

} // verus!
