//! Linux backend decisions: usbfs error codes, sysfs names, URB layout and
//! accounting.

use crate::error::ErrorKind;
use vstd::prelude::*;

pub mod events;
pub mod sysfs;
pub mod urb;
pub mod usbfs;

verus! {

/// `EPERM`
pub const EPERM: i32 = 1;

/// `ENOENT`
pub const ENOENT: i32 = 2;

/// `EINTR`
pub const EINTR: i32 = 4;

/// `EAGAIN`
pub const EAGAIN: i32 = 11;

/// `ENOMEM`
pub const ENOMEM: i32 = 12;

/// `EACCES`
pub const EACCES: i32 = 13;

/// `EBUSY`
pub const EBUSY: i32 = 16;

/// `ENODEV`
pub const ENODEV: i32 = 19;

/// `EINVAL`
pub const EINVAL: i32 = 22;

/// `ENOTTY`
pub const ENOTTY: i32 = 25;

/// `EPIPE`
pub const EPIPE: i32 = 32;

/// `ENOSYS`
pub const ENOSYS: i32 = 38;

/// `ENODATA`
pub const ENODATA: i32 = 61;

/// `ETIME`
pub const ETIME: i32 = 62;

/// `EOVERFLOW`
pub const EOVERFLOW: i32 = 75;

/// `EOPNOTSUPP`
pub const EOPNOTSUPP: i32 = 95;

/// `ECONNRESET`
pub const ECONNRESET: i32 = 104;

/// `ESHUTDOWN`
pub const ESHUTDOWN: i32 = 108;

/// `ETIMEDOUT`
pub const ETIMEDOUT: i32 = 110;

/// The kind of an `errno` value.
pub open spec fn code_kind(code: i32) -> ErrorKind {
    if code == EACCES || code == EPERM {
        ErrorKind::Access
    } else if code == ENOENT {
        ErrorKind::NotFound
    } else if code == ENODEV || code == ESHUTDOWN {
        ErrorKind::NoDevice
    } else if code == EBUSY {
        ErrorKind::Busy
    } else if code == ETIMEDOUT {
        ErrorKind::Timeout
    } else if code == EPIPE {
        ErrorKind::Pipe
    } else if code == EOVERFLOW {
        ErrorKind::Overflow
    } else if code == EINVAL {
        ErrorKind::InvalidParam
    } else if code == ENOMEM {
        ErrorKind::NoMem
    } else if code == EINTR {
        ErrorKind::Interrupted
    } else if code == ENOSYS || code == ENOTTY || code == EOPNOTSUPP {
        ErrorKind::NotSupported
    } else {
        ErrorKind::Io
    }
}

/// Maps an errno value to an error kind.
pub fn errno_kind(code: i32) -> (r: ErrorKind)
    ensures
        r == code_kind(code),
{
    match code {
        EACCES | EPERM => ErrorKind::Access,
        ENOENT => ErrorKind::NotFound,
        ENODEV | ESHUTDOWN => ErrorKind::NoDevice,
        EBUSY => ErrorKind::Busy,
        ETIMEDOUT => ErrorKind::Timeout,
        EPIPE => ErrorKind::Pipe,
        EOVERFLOW => ErrorKind::Overflow,
        EINVAL => ErrorKind::InvalidParam,
        ENOMEM => ErrorKind::NoMem,
        EINTR => ErrorKind::Interrupted,
        ENOSYS | ENOTTY | EOPNOTSUPP => ErrorKind::NotSupported,
        _ => ErrorKind::Io,
    }
}

/// What kind each error number of the kernel is.
pub proof fn lemma_error_numbers(code: i32)
    ensures
        code_kind(code) == ErrorKind::Access <==> code == 1 || code == 13,
        code_kind(code) == ErrorKind::NotFound <==> code == 2,
        code_kind(code) == ErrorKind::NoDevice <==> code == 19 || code == 108,
        code_kind(code) == ErrorKind::Busy <==> code == 16,
        code_kind(code) == ErrorKind::Timeout <==> code == 110,
        code_kind(code) == ErrorKind::Pipe <==> code == 32,
        code_kind(code) == ErrorKind::Overflow <==> code == 75,
        code_kind(code) == ErrorKind::InvalidParam <==> code == 22,
        code_kind(code) == ErrorKind::NoMem <==> code == 12,
        code_kind(code) == ErrorKind::Interrupted <==> code == 4,
        code_kind(code) == ErrorKind::NotSupported <==> code == 38 || code == 25 || code == 95,
        code_kind(code) != ErrorKind::Other,
{
}

} // verus!
