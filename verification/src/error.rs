use vstd::prelude::*;

verus! {

/// Every failure a decode can end in. Decoding aborts at the first error: no
/// field-level or packet-level recovery is attempted.
#[derive(Debug, Clone, Copy, PartialEq, Eq, Structural)]
pub enum ParserError {
    /// Bad invocation of the surrounding tool (never produced by the decoder
    /// itself; kept so callers share one error type).
    ArgumentError,
    /// Unrecognized demo-format or network-protocol version.
    UnsupportedFormat,
    /// A read or skip would run past the buffer's total bit length.
    ReaderOutOfBounds,
    /// An event identifier was not present in the event schema registry.
    SchemaLookupError,
    /// Unrecognized tag/type code, malformed field, or a value-type tag
    /// outside the legal range.
    DecodeError,
}

} // verus!
