//! The methods of requests that the exact-match router sees.

use vstd::prelude::*;

verus! {

/// A request method.
#[derive(Clone, Copy, Debug, PartialEq, Eq, Hash, Structural)]
pub enum RequestMethod {
    Get,
    Post,
    Put,
    Delete,
    Unknown,
}

} // verus!
