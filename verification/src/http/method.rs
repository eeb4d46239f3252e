//! The request methods that the request builder recognises.

use vstd::prelude::*;

verus! {

/// A request method; `Unknown` for any method name other than the four.
#[derive(Clone, Copy, Debug, PartialEq, Eq, Structural)]
pub enum MethodKind {
    Get,
    Post,
    Put,
    Delete,
    Unknown,
}

} // verus!
