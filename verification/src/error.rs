//! The error kinds the engine surfaces. Malformed input is reported to the
//! caller as one of these, never silently coerced.

use vstd::prelude::*;

verus! {

#[derive(Debug, Clone, PartialEq, Eq)]
pub enum ErrorKind {
    /// A wire value was not in the expected encoding (bad quoting, a bad
    /// percent escape, or bytes that are not UTF-8).
    EncodingError,
    /// A parsed authorization header lacks a protocol-mandated field.
    MissingRequiredField,
    /// A parsed authorization header names a field outside the protocol.
    UnrecognizedField,
    /// A timestamp field that does not parse as an integer.
    MalformedTimestamp,
    /// The transport collaborator failed to complete the exchange.
    TransportError,
    /// The provider answered with a non-success status code.
    UnexpectedStatus(u16),
    /// A response body that does not parse in the expected shape.
    ResponseParseError,
    /// A token-exchange response body lacks a required key.
    ProtocolResponseMissingField,
}

} // verus!
