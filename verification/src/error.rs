//! Error type shared by every decoding stage of the library.
use vstd::prelude::*;

verus! {

/// Errors returned by the decoding stages.
#[derive(Debug, Clone)]
pub enum JxlError {
    /// The bitstream violates the format's rules.
    InvalidData(String),
    /// Valid input exercising a feature this library does not implement.
    Unsupported(String),
    /// The bitstream ended before a field could be read completely.
    Eof,
    /// More input is needed before decoding can continue.
    NeedMore,
    /// Any other failure.
    Other(String),
}

/// Shorthand for an `InvalidData` error carrying a fixed message.
pub fn invalid(msg: &str) -> (e: JxlError)
    ensures
        e is InvalidData,
{
    JxlError::InvalidData(msg.to_owned())
}

/// Shorthand for an `Unsupported` error carrying a fixed message.
pub fn unsupported(msg: &str) -> (e: JxlError)
    ensures
        e is Unsupported,
{
    JxlError::Unsupported(msg.to_owned())
}

} // verus!
