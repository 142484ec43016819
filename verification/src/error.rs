//! Delivery failures, returned as values to the caller.

use vstd::prelude::*;

verus! {

/// Why a delivery attempt (or the whole post) failed. Each variant carries
/// a short description of the underlying cause.
#[derive(Debug, Clone, PartialEq, Eq)]
pub enum FluentError {
    /// The destination address resolved to no usable endpoint.
    AddressResolutionFailure(String),
    /// Opening the connection timed out or was refused.
    ConnectFailure(String),
    /// The payload could not be written in full.
    WriteFailure(String),
    /// The record could not be serialized.
    EncodeFailure(String),
}

impl FluentError {
    /// The description carried by the variant.
    pub fn cause(&self) -> (r: &String)
        ensures
            *r == self.cause_spec(),
    {
        match self {
            FluentError::AddressResolutionFailure(s) => s,
            FluentError::ConnectFailure(s) => s,
            FluentError::WriteFailure(s) => s,
            FluentError::EncodeFailure(s) => s,
        }
    }

    pub open spec fn cause_spec(&self) -> String {
        match self {
            FluentError::AddressResolutionFailure(s) => *s,
            FluentError::ConnectFailure(s) => *s,
            FluentError::WriteFailure(s) => *s,
            FluentError::EncodeFailure(s) => *s,
        }
    }
}

} // verus!
