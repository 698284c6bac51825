//! Windows backend decisions: Win32 error codes, WinUSB packet rules and
//! results.

use crate::error::ErrorKind;
use vstd::prelude::*;

pub mod hub;
pub mod names;
pub mod transfers;

verus! {

/// `ERROR_SUCCESS`
pub const ERROR_SUCCESS: i32 = 0;

/// `ERROR_INVALID_FUNCTION`
pub const ERROR_INVALID_FUNCTION: i32 = 1;

/// `ERROR_FILE_NOT_FOUND`
pub const ERROR_FILE_NOT_FOUND: i32 = 2;

/// `ERROR_PATH_NOT_FOUND`
pub const ERROR_PATH_NOT_FOUND: i32 = 3;

/// `ERROR_ACCESS_DENIED`
pub const ERROR_ACCESS_DENIED: i32 = 5;

/// `ERROR_INVALID_HANDLE`
pub const ERROR_INVALID_HANDLE: i32 = 6;

/// `ERROR_NOT_ENOUGH_MEMORY`
pub const ERROR_NOT_ENOUGH_MEMORY: i32 = 8;

/// `ERROR_BAD_COMMAND`
pub const ERROR_BAD_COMMAND: i32 = 22;

/// `ERROR_GEN_FAILURE`
pub const ERROR_GEN_FAILURE: i32 = 31;

/// `ERROR_SHARING_VIOLATION`
pub const ERROR_SHARING_VIOLATION: i32 = 32;

/// `ERROR_NOT_SUPPORTED`
pub const ERROR_NOT_SUPPORTED: i32 = 50;

/// `ERROR_INVALID_PARAMETER`
pub const ERROR_INVALID_PARAMETER: i32 = 87;

/// `ERROR_SEM_TIMEOUT`
pub const ERROR_SEM_TIMEOUT: i32 = 121;

/// `ERROR_INSUFFICIENT_BUFFER`
pub const ERROR_INSUFFICIENT_BUFFER: i32 = 122;

/// `ERROR_BUSY`
pub const ERROR_BUSY: i32 = 170;

/// `ERROR_MORE_DATA`
pub const ERROR_MORE_DATA: i32 = 234;

/// `WAIT_TIMEOUT`
pub const WAIT_TIMEOUT: i32 = 258;

/// `ERROR_NO_SUCH_DEVICE`
pub const ERROR_NO_SUCH_DEVICE: i32 = 433;

/// `ERROR_OPERATION_ABORTED`
pub const ERROR_OPERATION_ABORTED: i32 = 995;

/// `ERROR_IO_PENDING`
pub const ERROR_IO_PENDING: i32 = 997;

/// `ERROR_DEVICE_NOT_CONNECTED`
pub const ERROR_DEVICE_NOT_CONNECTED: i32 = 1167;

/// `ERROR_NOT_FOUND`
pub const ERROR_NOT_FOUND: i32 = 1168;

/// `ERROR_TIMEOUT`
pub const ERROR_TIMEOUT: i32 = 1460;

/// `ERROR_BUFFER_OVERFLOW`
pub const ERROR_BUFFER_OVERFLOW: i32 = 111;

/// The kind of a Win32 error code.
pub open spec fn code_kind(code: i32) -> ErrorKind {
    if code == ERROR_FILE_NOT_FOUND || code == ERROR_PATH_NOT_FOUND || code == ERROR_NOT_FOUND {
        ErrorKind::NotFound
    } else if code == ERROR_ACCESS_DENIED || code == ERROR_SHARING_VIOLATION {
        ErrorKind::Access
    } else if code == ERROR_DEVICE_NOT_CONNECTED || code == ERROR_NO_SUCH_DEVICE || code == ERROR_BAD_COMMAND {
        ErrorKind::NoDevice
    } else if code == ERROR_BUSY {
        ErrorKind::Busy
    } else if code == ERROR_SEM_TIMEOUT || code == ERROR_TIMEOUT || code == WAIT_TIMEOUT {
        ErrorKind::Timeout
    } else if code == ERROR_GEN_FAILURE {
        ErrorKind::Pipe
    } else if code == ERROR_MORE_DATA || code == ERROR_BUFFER_OVERFLOW || code == ERROR_INSUFFICIENT_BUFFER {
        ErrorKind::Overflow
    } else if code == ERROR_INVALID_PARAMETER || code == ERROR_INVALID_HANDLE {
        ErrorKind::InvalidParam
    } else if code == ERROR_NOT_ENOUGH_MEMORY {
        ErrorKind::NoMem
    } else if code == ERROR_OPERATION_ABORTED {
        ErrorKind::Interrupted
    } else if code == ERROR_NOT_SUPPORTED || code == ERROR_INVALID_FUNCTION {
        ErrorKind::NotSupported
    } else {
        ErrorKind::Io
    }
}

/// Maps a Win32 error code to an error kind.
pub fn errno_kind(code: i32) -> (r: ErrorKind)
    ensures
        r == code_kind(code),
{
    match code {
        ERROR_FILE_NOT_FOUND | ERROR_PATH_NOT_FOUND | ERROR_NOT_FOUND => ErrorKind::NotFound,
        ERROR_ACCESS_DENIED | ERROR_SHARING_VIOLATION => ErrorKind::Access,
        ERROR_DEVICE_NOT_CONNECTED | ERROR_NO_SUCH_DEVICE | ERROR_BAD_COMMAND => ErrorKind::NoDevice,
        ERROR_BUSY => ErrorKind::Busy,
        ERROR_SEM_TIMEOUT | ERROR_TIMEOUT | WAIT_TIMEOUT => ErrorKind::Timeout,
        ERROR_GEN_FAILURE => ErrorKind::Pipe,
        ERROR_MORE_DATA | ERROR_BUFFER_OVERFLOW | ERROR_INSUFFICIENT_BUFFER => ErrorKind::Overflow,
        ERROR_INVALID_PARAMETER | ERROR_INVALID_HANDLE => ErrorKind::InvalidParam,
        ERROR_NOT_ENOUGH_MEMORY => ErrorKind::NoMem,
        ERROR_OPERATION_ABORTED => ErrorKind::Interrupted,
        ERROR_NOT_SUPPORTED | ERROR_INVALID_FUNCTION => ErrorKind::NotSupported,
        _ => ErrorKind::Io,
    }
}

/// What kind each error code of the system is.
pub proof fn lemma_error_codes(code: i32)
    ensures
        code_kind(code) == ErrorKind::NotFound <==> code == 2 || code == 3 || code == 1168,
        code_kind(code) == ErrorKind::Access <==> code == 5 || code == 32,
        code_kind(code) == ErrorKind::NoDevice <==> code == 1167 || code == 433 || code == 22,
        code_kind(code) == ErrorKind::Busy <==> code == 170,
        code_kind(code) == ErrorKind::Timeout <==> code == 121 || code == 1460 || code == 258,
        code_kind(code) == ErrorKind::Pipe <==> code == 31,
        code_kind(code) == ErrorKind::Overflow <==> code == 234 || code == 111 || code == 122,
        code_kind(code) == ErrorKind::InvalidParam <==> code == 87 || code == 6,
        code_kind(code) == ErrorKind::NoMem <==> code == 8,
        code_kind(code) == ErrorKind::Interrupted <==> code == 995,
        code_kind(code) == ErrorKind::NotSupported <==> code == 50 || code == 1,
        code_kind(code) != ErrorKind::Other,
{
}

} // verus!
