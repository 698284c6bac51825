//! Error type shared by every operation in the crate.

use crate::sys::Platform;
use crate::text;
use vstd::prelude::*;
use vstd::string::*;

verus! {

/// Broad classification of a failure, modelled on libusb's error codes.
#[derive(Debug, Clone, Copy, PartialEq, Eq, Hash, Structural)]
#[non_exhaustive]
pub enum ErrorKind {
    /// Generic I/O failure reported by the operating system.
    Io,
    /// An argument was out of range or inconsistent (bad endpoint, oversized
    /// buffer, interface not claimed, ...).
    InvalidParam,
    /// Permission denied (device node not accessible, or the OS driver refuses
    /// user-space access).
    Access,
    /// The device is gone (unplugged) or was never there.
    NoDevice,
    /// The requested entity (device, configuration, interface, string
    /// descriptor) does not exist.
    NotFound,
    /// The resource is busy: an interface is claimed elsewhere, a kernel
    /// driver is bound, or a transfer is already in flight.
    Busy,
    /// The operation did not complete before its timeout elapsed.
    Timeout,
    /// The device returned more data than fits the supplied buffer.
    Overflow,
    /// The endpoint is halted (STALL) or a control request was rejected.
    Pipe,
    /// The operation was interrupted (a transfer was cancelled while waiting
    /// for it, or a system call was interrupted by a signal).
    Interrupted,
    /// Memory allocation failed, or a kernel-side memory limit was reached.
    NoMem,
    /// The operation is not supported on this platform, driver, or device.
    NotSupported,
    /// A failure that fits none of the other categories.
    Other,
}

/// The description of each kind.
pub open spec fn kind_text(kind: ErrorKind) -> Seq<char> {
    match kind {
        ErrorKind::Io => "input/output error"@,
        ErrorKind::InvalidParam => "invalid parameter"@,
        ErrorKind::Access => "access denied (insufficient permissions)"@,
        ErrorKind::NoDevice => "no such device (it may have been disconnected)"@,
        ErrorKind::NotFound => "entity not found"@,
        ErrorKind::Busy => "resource busy"@,
        ErrorKind::Timeout => "operation timed out"@,
        ErrorKind::Overflow => "overflow"@,
        ErrorKind::Pipe => "pipe error (endpoint halted or request rejected)"@,
        ErrorKind::Interrupted => "operation interrupted"@,
        ErrorKind::NoMem => "insufficient memory"@,
        ErrorKind::NotSupported => "operation not supported or unimplemented on this platform"@,
        ErrorKind::Other => "other error"@,
    }
}

impl ErrorKind {
    /// Short human-readable description, in the style of `libusb_strerror`.
    pub fn as_str(self) -> (r: &'static str)
        ensures
            r@ == kind_text(self),
    {
        match self {
            ErrorKind::Io => "input/output error",
            ErrorKind::InvalidParam => "invalid parameter",
            ErrorKind::Access => "access denied (insufficient permissions)",
            ErrorKind::NoDevice => "no such device (it may have been disconnected)",
            ErrorKind::NotFound => "entity not found",
            ErrorKind::Busy => "resource busy",
            ErrorKind::Timeout => "operation timed out",
            ErrorKind::Overflow => "overflow",
            ErrorKind::Pipe => "pipe error (endpoint halted or request rejected)",
            ErrorKind::Interrupted => "operation interrupted",
            ErrorKind::NoMem => "insufficient memory",
            ErrorKind::NotSupported => "operation not supported or unimplemented on this platform",
            ErrorKind::Other => "other error",
        }
    }

    /// The standard library's category for this kind, used when an error
    /// leaves the crate as a `std::io::Error`.
    pub fn to_io(self) -> (r: IoKind)
        ensures
            r == io_kind_of(self),
    {
        match self {
            ErrorKind::Io => IoKind::Other,
            ErrorKind::InvalidParam => IoKind::InvalidInput,
            ErrorKind::Access => IoKind::PermissionDenied,
            ErrorKind::NoDevice => IoKind::NotConnected,
            ErrorKind::NotFound => IoKind::NotFound,
            ErrorKind::Busy => IoKind::ResourceBusy,
            ErrorKind::Timeout => IoKind::TimedOut,
            ErrorKind::Overflow => IoKind::InvalidData,
            ErrorKind::Pipe => IoKind::BrokenPipe,
            ErrorKind::Interrupted => IoKind::Interrupted,
            ErrorKind::NoMem => IoKind::OutOfMemory,
            ErrorKind::NotSupported => IoKind::Unsupported,
            ErrorKind::Other => IoKind::Other,
        }
    }
}

/// The `std::io::ErrorKind` categories that this crate tells apart.
#[derive(Debug, Clone, Copy, PartialEq, Eq, Hash, Structural)]
pub enum IoKind {
    /// `PermissionDenied`
    PermissionDenied,
    /// `NotFound`
    NotFound,
    /// `TimedOut`
    TimedOut,
    /// `Interrupted`
    Interrupted,
    /// `OutOfMemory`
    OutOfMemory,
    /// `Unsupported`
    Unsupported,
    /// `InvalidInput`
    InvalidInput,
    /// `ResourceBusy`
    ResourceBusy,
    /// `BrokenPipe`
    BrokenPipe,
    /// `NotConnected`
    NotConnected,
    /// `InvalidData`
    InvalidData,
    /// Any other category.
    Other,
}

/// The I/O category that stands for each kind.
pub open spec fn io_kind_of(kind: ErrorKind) -> IoKind {
    match kind {
        ErrorKind::Io => IoKind::Other,
        ErrorKind::InvalidParam => IoKind::InvalidInput,
        ErrorKind::Access => IoKind::PermissionDenied,
        ErrorKind::NoDevice => IoKind::NotConnected,
        ErrorKind::NotFound => IoKind::NotFound,
        ErrorKind::Busy => IoKind::ResourceBusy,
        ErrorKind::Timeout => IoKind::TimedOut,
        ErrorKind::Overflow => IoKind::InvalidData,
        ErrorKind::Pipe => IoKind::BrokenPipe,
        ErrorKind::Interrupted => IoKind::Interrupted,
        ErrorKind::NoMem => IoKind::OutOfMemory,
        ErrorKind::NotSupported => IoKind::Unsupported,
        ErrorKind::Other => IoKind::Other,
    }
}

/// The kind of an operating-system error: its category when that says
/// enough, its raw code on the platform it came from otherwise.
pub open spec fn kind_of_io(io: IoKind, code: Option<i32>, platform: Platform) -> ErrorKind {
    match io {
        IoKind::PermissionDenied => ErrorKind::Access,
        IoKind::NotFound => ErrorKind::NotFound,
        IoKind::TimedOut => ErrorKind::Timeout,
        IoKind::Interrupted => ErrorKind::Interrupted,
        IoKind::OutOfMemory => ErrorKind::NoMem,
        IoKind::Unsupported => ErrorKind::NotSupported,
        IoKind::InvalidInput => ErrorKind::InvalidParam,
        IoKind::ResourceBusy => ErrorKind::Busy,
        IoKind::BrokenPipe => ErrorKind::Pipe,
        _ => match code {
            Some(c) => crate::sys::code_kind(platform, c),
            None => ErrorKind::Io,
        },
    }
}

/// What an [`Error`] says, as mathematical values.
#[verifier::ext_equal]
pub struct ErrorView {
    /// The category.
    pub kind: ErrorKind,
    /// The raw OS code.
    pub code: Option<i32>,
    /// The message.
    pub message: Option<Seq<char>>,
}

/// The error type returned by every fallible operation in this crate.
///
/// An error always carries an [`ErrorKind`]. When it originates from the
/// operating system it also carries the raw OS error code (`errno`,
/// `GetLastError()` or an `IOReturn`), and it may carry a short message
/// naming the operation that failed.
#[derive(Debug)]
pub struct Error {
    kind: ErrorKind,
    code: Option<i32>,
    context: Option<String>,
}

impl View for Error {
    type V = ErrorView;

    closed spec fn view(&self) -> ErrorView {
        ErrorView {
            kind: self.kind,
            code: self.code,
            message: match self.context {
                Some(s) => Some(s@),
                None => None,
            },
        }
    }
}

/// Convenience alias used throughout the crate.
pub type Result<T, E = Error> = std::result::Result<T, E>;

/// An error of the given kind with no OS code and no message.
pub open spec fn plain(kind: ErrorKind) -> ErrorView {
    ErrorView { kind, code: None, message: None }
}

/// An error of the given kind with a message.
pub open spec fn message(kind: ErrorKind, text: Seq<char>) -> ErrorView {
    ErrorView { kind, code: None, message: Some(text) }
}

/// An outcome with its error as mathematical values.
pub open spec fn outcome<T>(r: Result<T>) -> std::result::Result<T, ErrorView> {
    match r {
        Ok(v) => Ok(v),
        Err(e) => Err(e@),
    }
}

/// An outcome that carries bytes.
pub open spec fn bytes_outcome(r: Result<Vec<u8>>) -> std::result::Result<Seq<u8>, ErrorView> {
    match r {
        Ok(v) => Ok(v@),
        Err(e) => Err(e@),
    }
}

/// An outcome that carries text.
pub open spec fn text_outcome(r: Result<String>) -> std::result::Result<Seq<char>, ErrorView> {
    match r {
        Ok(s) => Ok(s@),
        Err(e) => Err(e@),
    }
}

/// What [`Error::describe`] renders.
pub open spec fn description(e: ErrorView, os_text: Seq<char>) -> Seq<char> {
    let head = match e.message {
        Some(m) => m + ": "@,
        None => Seq::<char>::empty(),
    };
    let tail = match e.code {
        Some(c) => " (os error "@ + text::signed_decimal(c as int) + ": "@ + os_text + ")"@,
        None => Seq::<char>::empty(),
    };
    head + kind_text(e.kind) + tail
}

/// Reads the calling thread's last OS error: `std::io::Error::last_os_error`.
/// Nothing is promised of the category, nor of the code beyond that there is one
/// (`raw_os_error` documents `Some` for an error made this way).
#[verifier::external_body]
fn last_os_error_parts() -> (r: (IoKind, Option<i32>))
    ensures
        r.1 is Some,
{
    let e = std::io::Error::last_os_error();
    (match e.kind() {
        std::io::ErrorKind::PermissionDenied => IoKind::PermissionDenied,
        std::io::ErrorKind::NotFound => IoKind::NotFound,
        std::io::ErrorKind::TimedOut => IoKind::TimedOut,
        std::io::ErrorKind::Interrupted => IoKind::Interrupted,
        std::io::ErrorKind::OutOfMemory => IoKind::OutOfMemory,
        std::io::ErrorKind::Unsupported => IoKind::Unsupported,
        std::io::ErrorKind::InvalidInput => IoKind::InvalidInput,
        std::io::ErrorKind::ResourceBusy => IoKind::ResourceBusy,
        std::io::ErrorKind::BrokenPipe => IoKind::BrokenPipe,
        _ => IoKind::Other,
    }, e.raw_os_error())
}

impl Error {
    /// Creates an error of the given kind with no OS code and no message.
    pub fn new(kind: ErrorKind) -> (r: Self)
        ensures
            r@ == plain(kind),
    {
        Error { kind, code: None, context: None }
    }

    /// Creates an error of the given kind carrying a raw OS error code.
    pub fn from_code(kind: ErrorKind, code: i32) -> (r: Self)
        ensures
            r@ == (ErrorView { kind, code: Some(code), message: None }),
    {
        Error { kind, code: Some(code), context: None }
    }

    /// Creates an error of the given kind with a descriptive message.
    pub fn with_message(kind: ErrorKind, message: &str) -> (r: Self)
        ensures
            r@ == self::message(kind, message@),
    {
        Error { kind, code: None, context: Some(String::from_str(message)) }
    }

    /// Attaches a message describing the operation that failed.
    pub fn context(self, message: &str) -> (r: Self)
        ensures
            r@ == (ErrorView { message: Some(message@), ..self@ }),
    {
        Error { kind: self.kind, code: self.code, context: Some(String::from_str(message)) }
    }

    /// Classifies an operating-system error from its I/O category and its
    /// raw code on `platform`.
    pub fn from_io(io: IoKind, code: Option<i32>, platform: Platform) -> (r: Self)
        ensures
            r@ == (ErrorView { kind: kind_of_io(io, code, platform), code, message: None }),
    {
        let kind = match io {
            IoKind::PermissionDenied => ErrorKind::Access,
            IoKind::NotFound => ErrorKind::NotFound,
            IoKind::TimedOut => ErrorKind::Timeout,
            IoKind::Interrupted => ErrorKind::Interrupted,
            IoKind::OutOfMemory => ErrorKind::NoMem,
            IoKind::Unsupported => ErrorKind::NotSupported,
            IoKind::InvalidInput => ErrorKind::InvalidParam,
            IoKind::ResourceBusy => ErrorKind::Busy,
            IoKind::BrokenPipe => ErrorKind::Pipe,
            _ => match code {
                Some(c) => crate::sys::errno_kind(platform, c),
                None => ErrorKind::Io,
            },
        };
        Error { kind, code, context: None }
    }

    /// Builds an error from the calling thread's last OS error. Which error
    /// that is rests on the operating system; whatever it is, it is
    /// classified as [`from_io`](Self::from_io) does and carries its code.
    pub fn last_os_error(platform: Platform) -> (r: Self)
        ensures
            r@.code is Some,
            r@.message is None,
            exists|io: IoKind| r@.kind == #[trigger] kind_of_io(io, r@.code, platform),
    {
        let (io, code) = last_os_error_parts();
        Error::from_io(io, code, platform)
    }

    /// The error's category.
    pub fn kind(&self) -> (r: ErrorKind)
        ensures
            r == self@.kind,
    {
        self.kind
    }

    /// The raw operating-system error code, if the error came from the OS.
    pub fn os_code(&self) -> (r: Option<i32>)
        ensures
            r == self@.code,
    {
        self.code
    }

    /// The optional message naming the failed operation.
    pub fn message(&self) -> (r: Option<&str>)
        ensures
            match self@.message {
                Some(m) => r is Some && r->0@ == m,
                None => r is None,
            },
    {
        match &self.context {
            Some(s) => Some(s.as_str()),
            None => None,
        }
    }

    /// `true` for [`ErrorKind::Timeout`].
    pub fn is_timeout(&self) -> (r: bool)
        ensures
            r == (self@.kind == ErrorKind::Timeout),
    {
        matches!(self.kind, ErrorKind::Timeout)
    }

    /// `true` for [`ErrorKind::NoDevice`].
    pub fn is_no_device(&self) -> (r: bool)
        ensures
            r == (self@.kind == ErrorKind::NoDevice),
    {
        matches!(self.kind, ErrorKind::NoDevice)
    }

    /// `true` for [`ErrorKind::Pipe`] (STALL / rejected request).
    pub fn is_stall(&self) -> (r: bool)
        ensures
            r == (self@.kind == ErrorKind::Pipe),
    {
        matches!(self.kind, ErrorKind::Pipe)
    }

    /// The error as text: message, kind, and the OS code with `os_text`, the
    /// operating system's own words for that code.
    pub fn describe(&self, os_text: &str) -> (r: String)
        ensures
            r@ == description(self@, os_text@),
    {
        let mut out = String::new();
        match &self.context {
            Some(m) => {
                out.append(m.as_str());
                out.append(": ");
            },
            None => {},
        }
        out.append(self.kind.as_str());
        match self.code {
            Some(c) => {
                out.append(" (os error ");
                text::push_signed(&mut out, c);
                out.append(": ");
                out.append(os_text);
                out.append(")");
            },
            None => {},
        }
        assert(out@ =~= description(self@, os_text@));
        out
    }

    /// A second error that says the same.
    pub fn duplicate(&self) -> (r: Self)
        ensures
            r@ == self@,
    {
        Error {
            kind: self.kind,
            code: self.code,
            context: match &self.context {
                Some(s) => Some(s.clone()),
                None => None,
            },
        }
    }
}

impl Clone for Error {
    fn clone(&self) -> (r: Self)
        ensures
            r@ == self@,
    {
        self.duplicate()
    }
}

impl From<ErrorKind> for Error {
    fn from(kind: ErrorKind) -> (r: Self)
        ensures
            r@ == plain(kind),
    {
        Error { kind, code: None, context: None }
    }
}

impl vstd::std_specs::convert::FromSpecImpl<ErrorKind> for Error {
    open spec fn obeys_from_spec() -> bool {
        true
    }

    closed spec fn from_spec(kind: ErrorKind) -> Self {
        Error { kind, code: None, context: None }
    }
}

/// A kind that becomes a kind of the standard library and comes back is the
/// same, but for those that have none of their own.
pub proof fn lemma_io_kinds(kind: ErrorKind, code: i32, platform: Platform)
    ensures
        ({
            let back = kind_of_io(io_kind_of(kind), None, platform);
            &&& !(kind == ErrorKind::NoDevice || kind == ErrorKind::Overflow || kind == ErrorKind::Other) ==> back == kind
            &&& kind == ErrorKind::NoDevice ==> io_kind_of(kind) == IoKind::NotConnected
            &&& kind == ErrorKind::Overflow ==> io_kind_of(kind) == IoKind::InvalidData
            &&& kind == ErrorKind::Other || kind == ErrorKind::Io ==> io_kind_of(kind) == IoKind::Other
        }),
        kind_of_io(IoKind::Other, Some(code), platform) == crate::sys::code_kind(platform, code),
        kind_of_io(IoKind::PermissionDenied, Some(code), platform) == ErrorKind::Access,
        kind_of_io(IoKind::TimedOut, Some(code), platform) == ErrorKind::Timeout,
{
}

/// An error is described by its message, its kind and the system's words, in
/// that order, each where there is one.
pub proof fn lemma_descriptions(kind: ErrorKind, code: i32, m: Seq<char>, os_text: Seq<char>)
    ensures
        description(ErrorView { kind, code: None, message: None }, os_text) == kind_text(kind),
        description(ErrorView { kind, code: None, message: Some(m) }, os_text) == m + ": "@ + kind_text(kind),
        description(ErrorView { kind, code: Some(code), message: None }, os_text) == kind_text(kind) + " (os error "@
            + text::signed_decimal(code as int) + ": "@ + os_text + ")"@,
        (plain(kind).kind, plain(kind).code, plain(kind).message) == (kind, None::<i32>, None::<Seq<char>>),
        (message(kind, m).kind, message(kind, m).code, message(kind, m).message) == (kind, None::<i32>, Some(m)),
{
    let none = Seq::<char>::empty();
    assert(none + kind_text(kind) + none =~= kind_text(kind));
    assert(m + ": "@ + kind_text(kind) + none =~= m + ": "@ + kind_text(kind));
    let tail = " (os error "@ + text::signed_decimal(code as int) + ": "@ + os_text + ")"@;
    assert(none + kind_text(kind) + tail =~= kind_text(kind) + " (os error "@ + text::signed_decimal(code as int) + ": "@
        + os_text + ")"@);
}

} // verus!
