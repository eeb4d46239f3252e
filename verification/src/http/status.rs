//! Response status lines.

use vstd::prelude::*;
use crate::scan::decimal;

verus! {

/// The status of a response.
#[derive(Clone, Copy, Debug, PartialEq, Eq, Structural)]
pub enum Status {
    OK,
}

/// The ASCII bytes of "OK".
pub open spec fn ok_message() -> Seq<u8> {
    seq![79u8, 75u8]
}

impl Status {
    /// The numeric code.
    pub open spec fn code(self) -> nat {
        match self {
            Status::OK => 200,
        }
    }

    /// The reason phrase, as ASCII bytes.
    pub open spec fn message(self) -> Seq<u8> {
        match self {
            Status::OK => ok_message(),
        }
    }

    /// The numeric code of the status.
    pub fn to_code(&self) -> (c: u16)
        ensures
            c == self.code(),
    {
        match self {
            Status::OK => 200,
        }
    }

    /// The reason phrase of the status.
    pub fn to_message(&self) -> (m: &'static [u8])
        ensures
            m@ == self.message(),
    {
        match self {
            Status::OK => &[79u8, 75u8],
        }
    }

    /// The number of decimal digits of the code.
    pub fn code_bytes_len(&self) -> (n: usize)
        ensures
            n == decimal(self.code()).len(),
    {
        reveal_with_fuel(decimal, 3);
        3
    }
}

} // verus!
