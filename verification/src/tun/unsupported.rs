//! Systems on which there is no such interface.

use crate::tun::device::{TunError, TunErrorView, TunOptions};
use vstd::prelude::*;

verus! {

/// An interface where there is none; there is no value of this type.
#[derive(Debug)]
pub struct UnsupportedTunDevice {
    _never: std::convert::Infallible,
}

/// Opening an interface where there is none.
pub fn open_impl(opts: TunOptions) -> (r: Result<UnsupportedTunDevice, TunError>)
    ensures
        r is Err,
        r->Err_0@ == TunErrorView::UnsupportedPlatform,
{
    Err(TunError::UnsupportedPlatform)
}

} // verus!
