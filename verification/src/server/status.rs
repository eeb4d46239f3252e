//! The status of a response built for the exact-match router.

use vstd::prelude::*;

verus! {

/// A response status.
#[derive(Clone, Copy, Debug, PartialEq, Eq, Structural)]
pub enum Status {
    OK,
}

} // verus!
