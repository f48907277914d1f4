//! Failure conditions of the packet layer.
//!
//! Every decode failure is contextualized: it names the framing field (or the
//! indexed header/body field) at which the failure arose, so that a caller
//! can report exactly where an untrusted buffer went wrong.
use vstd::prelude::*;

verus! {

/// A field of one header record on the wire.
#[derive(Clone, Copy, Debug, PartialEq, Eq, Structural)]
pub enum HeaderField {
    /// The name length prefix or the name bytes.
    Name,
    /// The must-understand flag byte.
    MustUnderstand,
    /// The value length prefix or the encoded value bytes.
    Data,
}

/// A field of one body record on the wire.
#[derive(Clone, Copy, Debug, PartialEq, Eq, Structural)]
pub enum BodyField {
    /// The target URI length prefix or its bytes.
    TargetUri,
    /// The response URI length prefix or its bytes.
    ResponseUri,
    /// The value length prefix or the encoded value bytes.
    Data,
}

/// The position inside a packet at which an encode or decode step failed.
#[derive(Clone, Copy, Debug, PartialEq, Eq, Structural)]
pub enum FieldContext {
    /// The leading version word.
    Version,
    /// The header count word.
    HeaderCount,
    /// The body count word.
    BodyCount,
    /// A field of the header at the given position (0-based, in wire order).
    Header { index: usize, field: HeaderField },
    /// A field of the body at the given position (0-based, in wire order).
    Body { index: usize, field: BodyField },
}

/// Everything that can go wrong while building, encoding or decoding a
/// packet.
///
/// Malformed input is always reported through this type; the packet layer
/// never panics on untrusted bytes.
#[derive(Clone, Copy, Debug, PartialEq, Eq, Structural)]
pub enum CodecError {
    /// `build()` was called on a builder with no version set.
    MissingVersion,
    /// A count or length exceeds the width of its wire field during encode.
    OutOfRange { context: FieldContext },
    /// The leading version word of a decoded buffer is neither 0 nor 3.
    UnknownVersion { found: u16 },
    /// A decode step demanded more bytes than the buffer holds.
    Truncated { context: FieldContext },
    /// The value codec rejected the byte range carried by a header or body.
    ValueCodecFailure { context: FieldContext },
}

impl CodecError {
    /// A short, static description of the error kind.
    pub fn describe(&self) -> (r: &'static str)
        ensures
            self is MissingVersion ==> r@ == "the packet version must be set"@,
            self is OutOfRange ==> r@ == "a count or length exceeds its wire field"@,
            self is UnknownVersion ==> r@ == "unknown amf version"@,
            self is Truncated ==> r@ == "unexpected end of packet bytes"@,
            self is ValueCodecFailure ==> r@ == "fail to parse an embedded value"@,
    {
        match self {
            CodecError::MissingVersion => "the packet version must be set",
            CodecError::OutOfRange { .. } => "a count or length exceeds its wire field",
            CodecError::UnknownVersion { .. } => "unknown amf version",
            CodecError::Truncated { .. } => "unexpected end of packet bytes",
            CodecError::ValueCodecFailure { .. } => "fail to parse an embedded value",
        }
    }
}

} // verus!
