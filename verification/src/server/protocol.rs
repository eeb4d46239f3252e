//! The protocol of a request or response.

use vstd::prelude::*;

verus! {

/// A protocol version.
#[derive(Clone, Copy, Debug, PartialEq, Eq, Structural)]
pub enum Protocol {
    HTTP1,
    UNKNOWN,
}

} // verus!
