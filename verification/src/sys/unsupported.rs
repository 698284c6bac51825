//! Platforms without USB support: everything fails with
//! [`ErrorKind::NotSupported`].

use crate::error::{message, plain, Error, ErrorKind};
use vstd::prelude::*;

verus! {

/// Why no session can be opened.
pub fn session_error() -> (r: Error)
    ensures
        r@ == message(ErrorKind::NotSupported, "USB access is not supported on this platform"@),
{
    Error::with_message(ErrorKind::NotSupported, "USB access is not supported on this platform")
}

/// Why any other operation fails.
pub fn operation_error() -> (r: Error)
    ensures
        r@ == plain(ErrorKind::NotSupported),
{
    Error::new(ErrorKind::NotSupported)
}

} // verus!
