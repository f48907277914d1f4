//! The boundary to the external value codec.
//!
//! The nested value trees carried inside packet headers and bodies are
//! serialized by the `amf` crate; this module is the only place that calls
//! it. The packet layer itself works on the encoded bytes alone: a value
//! travels through a packet as an opaque byte string, and the two functions
//! here convert between those bytes and `amf::Value` trees.
//!
//! Both directions of the codec are deterministic — the encoder and decoder
//! walk the value or the bytes with no ambient state — so each is given an
//! uninterpreted name: [`written_of`] for the bytes a value serializes to
//! (with [`value_writable`] for whether the encoder takes the value at
//! all), and [`value_decodable`] for whether the decoder accepts a byte
//! string. The contracts of the packet decoder and the round-trip proofs
//! are stated in terms of these names.
use vstd::prelude::*;

verus! {

/// The external value type, opaque to the verifier: the packet layer never
/// looks inside it.
#[verifier::external_type_specification]
#[verifier::external_body]
pub struct ExValue(::amf::Value);

/// Whether the external value codec accepts `bytes` as the encoding of a
/// value, reading from the start of `bytes` in format-0 mode (the mode every
/// embedded packet value starts in). The codec reads a single value and
/// ignores anything that follows it, so a decodable byte string stays
/// decodable when bytes are appended.
pub uninterp spec fn value_decodable(bytes: Seq<u8>) -> bool;

/// Whether the external value codec can serialize `value` at all: every
/// count and length inside the value fits the wire format's fields. The
/// external encoder does not report a value beyond those limits — it
/// asserts on it (for example a format-3 integer outside the 29-bit range,
/// or a string of 2^28 bytes or more), ending the process inside the call —
/// so such values must be kept away from the call altogether; this
/// predicate is `requires`-material, never something to test at run time.
pub uninterp spec fn value_writable(value: ::amf::Value) -> bool;

/// The bytes the external value codec produces for a writable value: a
/// function of the value alone (the encoder holds no state besides the
/// output it writes).
pub uninterp spec fn written_of(value: ::amf::Value) -> Seq<u8>;

/// Decodes one value from the front of `bytes`, starting in format-0 mode.
///
/// Relies on `amf::Value::read_from` with `amf::Version::Amf0`: it reads
/// one value from the reader and its outcome depends on the bytes alone.
/// (It recurses along the nesting of the input, so absurdly deep untrusted
/// input can exhaust the stack — a memory-exhaustion failure, like any
/// oversized allocation, not an error return.)
#[verifier::external_body]
pub fn decode_value(bytes: &[u8]) -> (r: Option<::amf::Value>)
    ensures
        r is Some <==> value_decodable(bytes@),
{
    let mut reader: &[u8] = bytes;
    ::amf::Value::read_from(&mut reader, ::amf::Version::Amf0).ok()
}

/// Serializes `value` with the external value codec.
///
/// Relies on `amf::Value::write_to`: writing to a byte vector cannot fail
/// with an I/O error, so for a writable value the call returns the encoded
/// bytes. Values outside [`value_writable`] abort inside the external
/// encoder and are excluded here, as the caller's obligation.
#[verifier::external_body]
fn write_value(value: &::amf::Value) -> (r: Option<Vec<u8>>)
    requires
        value_writable(*value),
    ensures
        r is Some <==> value_writable(*value),
        r matches Some(bytes) ==> bytes@ == written_of(*value),
{
    let mut bytes: Vec<u8> = Vec::new();
    match value.write_to(&mut bytes) {
        Ok(()) => Some(bytes),
        Err(_) => None,
    }
}

/// Serializes `value` into the byte form carried inside packets: exactly
/// [`written_of`] the value, handed out only when the codec's own decoder
/// accepts those bytes back, so that what goes into a packet can always
/// come out of one.
///
/// Callers owe [`value_writable`] — the precondition of the external
/// encoder itself. The program around the library calls this under the
/// same assumption the external codec's own users live with: a value too
/// large for the wire format aborts inside the codec.
pub fn encode_value(value: &::amf::Value) -> (r: Option<Vec<u8>>)
    requires
        value_writable(*value),
    ensures
        r is Some <==> value_decodable(written_of(*value)),
        r matches Some(bytes) ==> bytes@ == written_of(*value),
{
    let bytes = match write_value(value) {
        Some(bytes) => bytes,
        None => {
            proof {
                assert(false);
            }
            Vec::new()
        },
    };
    if decode_value(bytes.as_slice()).is_some() {
        Some(bytes)
    } else {
        None
    }
}

} // verus!
