//! The mathematical description of the packet wire format.
//!
//! A packet is laid out as
//!
//! ```text
//! u16 version | u16 headerCount | Header* | u16 bodyCount | Body*
//! Header = u16 nameLen | name bytes | u8 mustUnderstand | u32 dataLen | data bytes
//! Body   = u16 targetLen | target bytes | u16 respLen | resp bytes | u32 dataLen | data bytes
//! ```
//!
//! with every integer big-endian. [`spec_encode_packet`] produces that byte
//! sequence from a packet view; [`spec_decode_packet`] is the exact meaning
//! of the decoder, including the error each malformed buffer yields. The
//! lemmas at the end relate the two: decoding an encoding gives the packet
//! back, and decoding a strict prefix of an encoding reports truncation.
use vstd::prelude::*;

use crate::errors::{BodyField, CodecError, FieldContext, HeaderField};
use crate::value::value_decodable;

verus! {

/// The packet's declared dialect, serialized as a 16-bit word.
///
/// The version is advisory: it does not influence how the embedded values
/// are decoded (value decoding always starts in format-0 mode and may switch
/// per value through an in-stream marker).
#[derive(Clone, Copy, Debug, PartialEq, Eq, Structural)]
pub enum Version {
    /// Format 0, on the wire as `0`.
    Amf0,
    /// Format 3, on the wire as `3`.
    Amf3,
}

/// The mathematical content of one header: its name bytes, flag, and the
/// encoded bytes of its value.
pub ghost struct HeaderView {
    pub name: Seq<u8>,
    pub must_understand: bool,
    pub data: Seq<u8>,
}

/// The mathematical content of one body: its two URI byte strings and the
/// encoded bytes of its value.
pub ghost struct BodyView {
    pub target_uri: Seq<u8>,
    pub response_uri: Seq<u8>,
    pub data: Seq<u8>,
}

/// The mathematical content of a packet.
pub ghost struct PacketView {
    pub version: Version,
    pub headers: Seq<HeaderView>,
    pub bodies: Seq<BodyView>,
}

/// The 16-bit word a version is serialized as.
pub open spec fn version_code(v: Version) -> u16 {
    match v {
        Version::Amf0 => 0,
        Version::Amf3 => 3,
    }
}

/// The version a 16-bit word deserializes to, if any.
pub open spec fn version_of_code(code: u16) -> Option<Version> {
    if code == 0 {
        Some(Version::Amf0)
    } else if code == 3 {
        Some(Version::Amf3)
    } else {
        None
    }
}

/// The byte a must-understand flag is serialized as.
pub open spec fn flag_byte(must_understand: bool) -> u8 {
    if must_understand {
        1
    } else {
        0
    }
}

/// The two big-endian bytes of a 16-bit word.
pub open spec fn u16_be_bytes(v: u16) -> Seq<u8> {
    seq![((v >> 8) & 0xff) as u8, (v & 0xff) as u8]
}

/// The four big-endian bytes of a 32-bit word.
pub open spec fn u32_be_bytes(v: u32) -> Seq<u8> {
    seq![
        ((v >> 24) & 0xff) as u8,
        ((v >> 16) & 0xff) as u8,
        ((v >> 8) & 0xff) as u8,
        (v & 0xff) as u8,
    ]
}

/// The 16-bit word spelled by two big-endian bytes.
pub open spec fn u16_be_value(b0: u8, b1: u8) -> u16 {
    ((b0 as u16) << 8) | (b1 as u16)
}

/// The 32-bit word spelled by four big-endian bytes.
pub open spec fn u32_be_value(b0: u8, b1: u8, b2: u8, b3: u8) -> u32 {
    ((b0 as u32) << 24) | ((b1 as u32) << 16) | ((b2 as u32) << 8) | (b3 as u32)
}

/// Whether a header's variable-length parts fit their wire length fields.
pub open spec fn header_wf(h: HeaderView) -> bool {
    &&& h.name.len() <= 0xffff
    &&& h.data.len() <= 0xffff_ffff
}

/// Whether a body's variable-length parts fit their wire length fields.
pub open spec fn body_wf(b: BodyView) -> bool {
    &&& b.target_uri.len() <= 0xffff
    &&& b.response_uri.len() <= 0xffff
    &&& b.data.len() <= 0xffff_ffff
}

/// Whether every count and length of a packet fits its wire field, so that
/// the packet is representable on the wire.
pub open spec fn packet_wf(p: PacketView) -> bool {
    &&& p.headers.len() <= 0xffff
    &&& p.bodies.len() <= 0xffff
    &&& forall|i: int| 0 <= i < p.headers.len() ==> header_wf(#[trigger] p.headers[i])
    &&& forall|i: int| 0 <= i < p.bodies.len() ==> body_wf(#[trigger] p.bodies[i])
}

/// Whether the value codec accepts every value byte range of the packet.
pub open spec fn packet_values_decodable(p: PacketView) -> bool {
    &&& forall|i: int|
        0 <= i < p.headers.len() ==> value_decodable((#[trigger] p.headers[i]).data)
    &&& forall|i: int| 0 <= i < p.bodies.len() ==> value_decodable((#[trigger] p.bodies[i]).data)
}

/// The wire bytes of one header.
pub open spec fn spec_encode_header(h: HeaderView) -> Seq<u8> {
    u16_be_bytes(h.name.len() as u16) + h.name + seq![flag_byte(h.must_understand)]
        + u32_be_bytes(h.data.len() as u32) + h.data
}

/// The wire bytes of one body.
pub open spec fn spec_encode_body(b: BodyView) -> Seq<u8> {
    u16_be_bytes(b.target_uri.len() as u16) + b.target_uri
        + u16_be_bytes(b.response_uri.len() as u16) + b.response_uri
        + u32_be_bytes(b.data.len() as u32) + b.data
}

/// The wire bytes of a run of headers, in order.
pub open spec fn spec_encode_headers(hs: Seq<HeaderView>) -> Seq<u8>
    decreases hs.len(),
{
    if hs.len() == 0 {
        Seq::empty()
    } else {
        spec_encode_header(hs[0]) + spec_encode_headers(hs.drop_first())
    }
}

/// The wire bytes of a run of bodies, in order.
pub open spec fn spec_encode_bodies(bs: Seq<BodyView>) -> Seq<u8>
    decreases bs.len(),
{
    if bs.len() == 0 {
        Seq::empty()
    } else {
        spec_encode_body(bs[0]) + spec_encode_bodies(bs.drop_first())
    }
}

/// The complete wire bytes of a packet. Meaningful for well-formed packets
/// (the length fields truncate otherwise).
pub open spec fn spec_encode_packet(p: PacketView) -> Seq<u8> {
    u16_be_bytes(version_code(p.version)) + u16_be_bytes(p.headers.len() as u16)
        + spec_encode_headers(p.headers) + u16_be_bytes(p.bodies.len() as u16)
        + spec_encode_bodies(p.bodies)
}

/// The first way the given header fails to fit its wire fields, scanning in
/// wire order, or `None` when it fits.
pub open spec fn spec_header_encode_error(h: HeaderView, index: usize) -> Option<CodecError> {
    if h.name.len() > 0xffff {
        Some(
            CodecError::OutOfRange {
                context: FieldContext::Header { index, field: HeaderField::Name },
            },
        )
    } else if h.data.len() > 0xffff_ffff {
        Some(
            CodecError::OutOfRange {
                context: FieldContext::Header { index, field: HeaderField::Data },
            },
        )
    } else {
        None
    }
}

/// The first way the given body fails to fit its wire fields.
pub open spec fn spec_body_encode_error(b: BodyView, index: usize) -> Option<CodecError> {
    if b.target_uri.len() > 0xffff {
        Some(
            CodecError::OutOfRange {
                context: FieldContext::Body { index, field: BodyField::TargetUri },
            },
        )
    } else if b.response_uri.len() > 0xffff {
        Some(
            CodecError::OutOfRange {
                context: FieldContext::Body { index, field: BodyField::ResponseUri },
            },
        )
    } else if b.data.len() > 0xffff_ffff {
        Some(
            CodecError::OutOfRange {
                context: FieldContext::Body { index, field: BodyField::Data },
            },
        )
    } else {
        None
    }
}

/// The first encode failure among a run of headers whose first element sits
/// at position `index` of the packet.
pub open spec fn spec_headers_encode_error(hs: Seq<HeaderView>, index: usize) -> Option<CodecError>
    decreases hs.len(),
{
    if hs.len() == 0 {
        None
    } else {
        match spec_header_encode_error(hs[0], index) {
            Some(e) => Some(e),
            None => spec_headers_encode_error(hs.drop_first(), (index + 1) as usize),
        }
    }
}

/// The first encode failure among a run of bodies.
pub open spec fn spec_bodies_encode_error(bs: Seq<BodyView>, index: usize) -> Option<CodecError>
    decreases bs.len(),
{
    if bs.len() == 0 {
        None
    } else {
        match spec_body_encode_error(bs[0], index) {
            Some(e) => Some(e),
            None => spec_bodies_encode_error(bs.drop_first(), (index + 1) as usize),
        }
    }
}

/// The first encode failure of a whole packet, scanning in wire order:
/// header count, each header, body count, each body. `None` exactly when
/// the packet is well-formed (see [`lemma_encode_error_none_iff_wf`]).
pub open spec fn spec_packet_encode_error(p: PacketView) -> Option<CodecError> {
    if p.headers.len() > 0xffff {
        Some(CodecError::OutOfRange { context: FieldContext::HeaderCount })
    } else {
        match spec_headers_encode_error(p.headers, 0) {
            Some(e) => Some(e),
            None => if p.bodies.len() > 0xffff {
                Some(CodecError::OutOfRange { context: FieldContext::BodyCount })
            } else {
                spec_bodies_encode_error(p.bodies, 0)
            },
        }
    }
}

/// A run of headers has no encode failure exactly when every header in it
/// is well-formed.
pub proof fn lemma_headers_encode_error_none(hs: Seq<HeaderView>, index: usize)
    ensures
        spec_headers_encode_error(hs, index) is None <==> (forall|i: int|
            0 <= i < hs.len() ==> header_wf(#[trigger] hs[i])),
    decreases hs.len(),
{
    if hs.len() > 0 {
        lemma_headers_encode_error_none(hs.drop_first(), (index + 1) as usize);
        assert(forall|i: int| 1 <= i < hs.len() ==> #[trigger] hs[i] == hs.drop_first()[i - 1]);
        assert(forall|i: int|
            0 <= i < hs.drop_first().len() ==> #[trigger] hs.drop_first()[i] == hs[i + 1]);
    }
}

/// A run of bodies has no encode failure exactly when every body in it is
/// well-formed.
pub proof fn lemma_bodies_encode_error_none(bs: Seq<BodyView>, index: usize)
    ensures
        spec_bodies_encode_error(bs, index) is None <==> (forall|i: int|
            0 <= i < bs.len() ==> body_wf(#[trigger] bs[i])),
    decreases bs.len(),
{
    if bs.len() > 0 {
        lemma_bodies_encode_error_none(bs.drop_first(), (index + 1) as usize);
        assert(forall|i: int| 1 <= i < bs.len() ==> #[trigger] bs[i] == bs.drop_first()[i - 1]);
        assert(forall|i: int|
            0 <= i < bs.drop_first().len() ==> #[trigger] bs.drop_first()[i] == bs[i + 1]);
    }
}

/// The encode-failure scan reports nothing exactly on well-formed packets:
/// encoding succeeds if and only if every count and length fits its wire
/// field.
pub proof fn lemma_encode_error_none_iff_wf(p: PacketView)
    ensures
        spec_packet_encode_error(p) is None <==> packet_wf(p),
{
    lemma_headers_encode_error_none(p.headers, 0);
    lemma_bodies_encode_error_none(p.bodies, 0);
}

/// The exact wire size of one header: its three fixed framing fields plus
/// its variable parts.
pub open spec fn spec_header_size(h: HeaderView) -> int {
    7 + h.name.len() as int + h.data.len() as int
}

/// The exact wire size of one body.
pub open spec fn spec_body_size(b: BodyView) -> int {
    8 + b.target_uri.len() as int + b.response_uri.len() as int + b.data.len() as int
}

/// The summed wire size of a run of headers.
pub open spec fn spec_headers_size(hs: Seq<HeaderView>) -> int
    decreases hs.len(),
{
    if hs.len() == 0 {
        0
    } else {
        spec_header_size(hs[0]) + spec_headers_size(hs.drop_first())
    }
}

/// The summed wire size of a run of bodies.
pub open spec fn spec_bodies_size(bs: Seq<BodyView>) -> int
    decreases bs.len(),
{
    if bs.len() == 0 {
        0
    } else {
        spec_body_size(bs[0]) + spec_bodies_size(bs.drop_first())
    }
}

/// The exact wire size of a whole packet: the three count/version words
/// plus every header and body.
pub open spec fn spec_packet_size(p: PacketView) -> int {
    6 + spec_headers_size(p.headers) + spec_bodies_size(p.bodies)
}

/// Appending a header to a run adds exactly that header's size.
pub proof fn lemma_headers_size_push(hs: Seq<HeaderView>, h: HeaderView)
    ensures
        spec_headers_size(hs.push(h)) == spec_headers_size(hs) + spec_header_size(h),
    decreases hs.len(),
{
    assert(hs.push(h)[0] == if hs.len() == 0 { h } else { hs[0] });
    if hs.len() == 0 {
        assert(hs.push(h).drop_first() =~= Seq::<HeaderView>::empty());
        assert(spec_headers_size(hs.push(h)) == spec_header_size(h) + spec_headers_size(
            hs.push(h).drop_first(),
        ));
    } else {
        assert(hs.push(h).drop_first() =~= hs.drop_first().push(h));
        lemma_headers_size_push(hs.drop_first(), h);
        assert(spec_headers_size(hs.push(h)) == spec_header_size(hs[0]) + spec_headers_size(
            hs.drop_first().push(h),
        ));
    }
}

/// Appending a body to a run adds exactly that body's size.
pub proof fn lemma_bodies_size_push(bs: Seq<BodyView>, b: BodyView)
    ensures
        spec_bodies_size(bs.push(b)) == spec_bodies_size(bs) + spec_body_size(b),
    decreases bs.len(),
{
    assert(bs.push(b)[0] == if bs.len() == 0 { b } else { bs[0] });
    if bs.len() == 0 {
        assert(bs.push(b).drop_first() =~= Seq::<BodyView>::empty());
        assert(spec_bodies_size(bs.push(b)) == spec_body_size(b) + spec_bodies_size(
            bs.push(b).drop_first(),
        ));
    } else {
        assert(bs.push(b).drop_first() =~= bs.drop_first().push(b));
        lemma_bodies_size_push(bs.drop_first(), b);
        assert(spec_bodies_size(bs.push(b)) == spec_body_size(bs[0]) + spec_bodies_size(
            bs.drop_first().push(b),
        ));
    }
}

/// A run of headers is never of negative size.
pub proof fn lemma_headers_size_nonneg(hs: Seq<HeaderView>)
    ensures
        spec_headers_size(hs) >= 0,
    decreases hs.len(),
{
    if hs.len() > 0 {
        lemma_headers_size_nonneg(hs.drop_first());
    }
}

/// A run of bodies is never of negative size.
pub proof fn lemma_bodies_size_nonneg(bs: Seq<BodyView>)
    ensures
        spec_bodies_size(bs) >= 0,
    decreases bs.len(),
{
    if bs.len() > 0 {
        lemma_bodies_size_nonneg(bs.drop_first());
    }
}

/// For well-formed headers the size account agrees with the bytes actually
/// produced.
pub proof fn lemma_headers_size_is_encoded_len(hs: Seq<HeaderView>)
    requires
        forall|i: int| 0 <= i < hs.len() ==> header_wf(#[trigger] hs[i]),
    ensures
        spec_encode_headers(hs).len() == spec_headers_size(hs),
    decreases hs.len(),
{
    if hs.len() > 0 {
        assert(forall|i: int|
            0 <= i < hs.drop_first().len() ==> #[trigger] hs.drop_first()[i] == hs[i + 1]);
        lemma_headers_size_is_encoded_len(hs.drop_first());
    }
}

/// For well-formed bodies the size account agrees with the bytes actually
/// produced.
pub proof fn lemma_bodies_size_is_encoded_len(bs: Seq<BodyView>)
    requires
        forall|i: int| 0 <= i < bs.len() ==> body_wf(#[trigger] bs[i]),
    ensures
        spec_encode_bodies(bs).len() == spec_bodies_size(bs),
    decreases bs.len(),
{
    if bs.len() > 0 {
        assert(forall|i: int|
            0 <= i < bs.drop_first().len() ==> #[trigger] bs.drop_first()[i] == bs[i + 1]);
        lemma_bodies_size_is_encoded_len(bs.drop_first());
        let b = bs[0];
        assert(u16_be_bytes(b.target_uri.len() as u16).len() == 2);
        assert(u16_be_bytes(b.response_uri.len() as u16).len() == 2);
        assert(u32_be_bytes(b.data.len() as u32).len() == 4);
        assert(spec_encode_body(b).len() == spec_body_size(b));
    }
}

/// For a well-formed packet the size estimate is exact: it equals the
/// length of the encoding. The estimator can therefore never under-size a
/// buffer for a packet that encodes at all.
pub proof fn lemma_packet_size_is_encoded_len(p: PacketView)
    requires
        packet_wf(p),
    ensures
        spec_encode_packet(p).len() == spec_packet_size(p),
{
    lemma_headers_size_is_encoded_len(p.headers);
    lemma_bodies_size_is_encoded_len(p.bodies);
}

/// Reads one byte at `pos`: the byte and the next position, or `None` past
/// the end.
pub open spec fn take_u8(b: Seq<u8>, pos: int) -> Option<(u8, int)> {
    if 0 <= pos && pos + 1 <= b.len() {
        Some((b[pos], pos + 1))
    } else {
        None
    }
}

/// Reads a big-endian 16-bit word at `pos`.
pub open spec fn take_u16(b: Seq<u8>, pos: int) -> Option<(u16, int)> {
    if 0 <= pos && pos + 2 <= b.len() {
        Some((u16_be_value(b[pos], b[pos + 1]), pos + 2))
    } else {
        None
    }
}

/// Reads a big-endian 32-bit word at `pos`.
pub open spec fn take_u32(b: Seq<u8>, pos: int) -> Option<(u32, int)> {
    if 0 <= pos && pos + 4 <= b.len() {
        Some((u32_be_value(b[pos], b[pos + 1], b[pos + 2], b[pos + 3]), pos + 4))
    } else {
        None
    }
}

/// Reads `n` raw bytes at `pos`.
pub open spec fn take_bytes(b: Seq<u8>, pos: int, n: int) -> Option<(Seq<u8>, int)> {
    if 0 <= pos && 0 <= n && pos + n <= b.len() {
        Some((b.subrange(pos, pos + n), pos + n))
    } else {
        None
    }
}

/// The meaning of decoding one header record at `pos`, reported as the
/// header with the position just past it, or as the exact error. `index` is
/// the header's 0-based position in the packet, used only for error context.
pub open spec fn spec_decode_header(b: Seq<u8>, pos: int, index: usize) -> Result<
    (HeaderView, int),
    CodecError,
> {
    let name_ctx = FieldContext::Header { index, field: HeaderField::Name };
    let flag_ctx = FieldContext::Header { index, field: HeaderField::MustUnderstand };
    let data_ctx = FieldContext::Header { index, field: HeaderField::Data };
    match take_u16(b, pos) {
        None => Err(CodecError::Truncated { context: name_ctx }),
        Some((name_len, p)) => match take_bytes(b, p, name_len as int) {
            None => Err(CodecError::Truncated { context: name_ctx }),
            Some((name, p)) => match take_u8(b, p) {
                None => Err(CodecError::Truncated { context: flag_ctx }),
                Some((flag, p)) => match take_u32(b, p) {
                    None => Err(CodecError::Truncated { context: data_ctx }),
                    Some((data_len, p)) => match take_bytes(b, p, data_len as int) {
                        None => Err(CodecError::Truncated { context: data_ctx }),
                        Some((data, p)) => if value_decodable(data) {
                            Ok((HeaderView { name, must_understand: flag != 0, data }, p))
                        } else {
                            Err(CodecError::ValueCodecFailure { context: data_ctx })
                        },
                    },
                },
            },
        },
    }
}

/// The meaning of decoding one body record at `pos`.
pub open spec fn spec_decode_body(b: Seq<u8>, pos: int, index: usize) -> Result<
    (BodyView, int),
    CodecError,
> {
    let target_ctx = FieldContext::Body { index, field: BodyField::TargetUri };
    let resp_ctx = FieldContext::Body { index, field: BodyField::ResponseUri };
    let data_ctx = FieldContext::Body { index, field: BodyField::Data };
    match take_u16(b, pos) {
        None => Err(CodecError::Truncated { context: target_ctx }),
        Some((target_len, p)) => match take_bytes(b, p, target_len as int) {
            None => Err(CodecError::Truncated { context: target_ctx }),
            Some((target_uri, p)) => match take_u16(b, p) {
                None => Err(CodecError::Truncated { context: resp_ctx }),
                Some((resp_len, p)) => match take_bytes(b, p, resp_len as int) {
                    None => Err(CodecError::Truncated { context: resp_ctx }),
                    Some((response_uri, p)) => match take_u32(b, p) {
                        None => Err(CodecError::Truncated { context: data_ctx }),
                        Some((data_len, p)) => match take_bytes(b, p, data_len as int) {
                            None => Err(CodecError::Truncated { context: data_ctx }),
                            Some((data, p)) => if value_decodable(data) {
                                Ok((BodyView { target_uri, response_uri, data }, p))
                            } else {
                                Err(CodecError::ValueCodecFailure { context: data_ctx })
                            },
                        },
                    },
                },
            },
        },
    }
}

/// The meaning of decoding `remaining` consecutive header records starting
/// at `pos`, the first of which sits at position `index` of the packet.
pub open spec fn spec_decode_headers(b: Seq<u8>, pos: int, index: usize, remaining: int) -> Result<
    (Seq<HeaderView>, int),
    CodecError,
>
    decreases remaining,
{
    if remaining <= 0 {
        Ok((Seq::empty(), pos))
    } else {
        match spec_decode_header(b, pos, index) {
            Err(e) => Err(e),
            Ok((h, p)) => match spec_decode_headers(b, p, (index + 1) as usize, remaining - 1) {
                Err(e) => Err(e),
                Ok((hs, p2)) => Ok((seq![h] + hs, p2)),
            },
        }
    }
}

/// The meaning of decoding `remaining` consecutive body records starting at
/// `pos`.
pub open spec fn spec_decode_bodies(b: Seq<u8>, pos: int, index: usize, remaining: int) -> Result<
    (Seq<BodyView>, int),
    CodecError,
>
    decreases remaining,
{
    if remaining <= 0 {
        Ok((Seq::empty(), pos))
    } else {
        match spec_decode_body(b, pos, index) {
            Err(e) => Err(e),
            Ok((bd, p)) => match spec_decode_bodies(b, p, (index + 1) as usize, remaining - 1) {
                Err(e) => Err(e),
                Ok((bs, p2)) => Ok((seq![bd] + bs, p2)),
            },
        }
    }
}

/// The exact meaning of decoding a packet from `b`: the packet (trailing
/// bytes beyond the last body are ignored), or the error a decoder must
/// report. This is the sole specification of the executable decoder.
pub open spec fn spec_decode_packet(b: Seq<u8>) -> Result<PacketView, CodecError> {
    match take_u16(b, 0) {
        None => Err(CodecError::Truncated { context: FieldContext::Version }),
        Some((code, p)) => match version_of_code(code) {
            None => Err(CodecError::UnknownVersion { found: code }),
            Some(version) => match take_u16(b, p) {
                None => Err(CodecError::Truncated { context: FieldContext::HeaderCount }),
                Some((header_count, p)) => match spec_decode_headers(
                    b,
                    p,
                    0,
                    header_count as int,
                ) {
                    Err(e) => Err(e),
                    Ok((headers, p)) => match take_u16(b, p) {
                        None => Err(CodecError::Truncated { context: FieldContext::BodyCount }),
                        Some((body_count, p)) => match spec_decode_bodies(
                            b,
                            p,
                            0,
                            body_count as int,
                        ) {
                            Err(e) => Err(e),
                            Ok((bodies, _)) => Ok(PacketView { version, headers, bodies }),
                        },
                    },
                },
            },
        },
    }
}

/// Serializing a 16-bit word and respelling its two bytes gives the word
/// back.
pub proof fn lemma_u16_be_roundtrip(v: u16)
    ensures
        u16_be_value(u16_be_bytes(v)[0], u16_be_bytes(v)[1]) == v,
{
    assert(((((((v >> 8) & 0xff) as u8) as u16) << 8) | (((v & 0xff) as u8) as u16)) == v)
        by (bit_vector);
}

/// Serializing a 32-bit word and respelling its four bytes gives the word
/// back.
pub proof fn lemma_u32_be_roundtrip(v: u32)
    ensures
        u32_be_value(
            u32_be_bytes(v)[0],
            u32_be_bytes(v)[1],
            u32_be_bytes(v)[2],
            u32_be_bytes(v)[3],
        ) == v,
{
    assert(((((((v >> 24) & 0xff) as u8) as u32) << 24) | (((((v >> 16) & 0xff) as u8) as u32)
        << 16) | (((((v >> 8) & 0xff) as u8) as u32) << 8) | (((v & 0xff) as u8) as u32)) == v)
        by (bit_vector);
}

/// When the tail of `b` starting at `pos` spells `x + y`, the tail starting
/// just past `x` spells `y`.
pub proof fn lemma_subrange_shift(b: Seq<u8>, pos: int, x: Seq<u8>, y: Seq<u8>)
    requires
        0 <= pos <= b.len(),
        b.subrange(pos, b.len() as int) == x + y,
    ensures
        pos + x.len() + y.len() == b.len(),
        b.subrange(pos + x.len(), b.len() as int) == y,
        forall|k: int| 0 <= k < x.len() ==> b[pos + k] == x[k],
{
    assert(b.subrange(pos, b.len() as int).len() == x.len() + y.len());
    assert forall|k: int| 0 <= k < x.len() implies b[pos + k] == x[k] by {
        assert(b.subrange(pos, b.len() as int)[k] == b[pos + k]);
        assert((x + y)[k] == x[k]);
    }
    assert(b.subrange(pos + x.len(), b.len() as int) =~= y) by {
        assert forall|k: int| 0 <= k < y.len() implies b[pos + x.len() + k] == y[k] by {
            assert(b.subrange(pos, b.len() as int)[x.len() + k] == b[pos + x.len() + k]);
            assert((x + y)[x.len() + k] == y[k]);
        }
    }
}

/// Reading a 16-bit word where one was written yields that word.
pub proof fn lemma_take_u16_at(b: Seq<u8>, pos: int, v: u16, rest: Seq<u8>)
    requires
        0 <= pos <= b.len(),
        b.subrange(pos, b.len() as int) == u16_be_bytes(v) + rest,
    ensures
        take_u16(b, pos) == Some((v, pos + 2)),
        b.subrange(pos + 2, b.len() as int) == rest,
{
    lemma_subrange_shift(b, pos, u16_be_bytes(v), rest);
    lemma_u16_be_roundtrip(v);
    assert(b[pos] == u16_be_bytes(v)[0]);
    assert(b[pos + 1] == u16_be_bytes(v)[1]);
}

/// Reading a 32-bit word where one was written yields that word.
pub proof fn lemma_take_u32_at(b: Seq<u8>, pos: int, v: u32, rest: Seq<u8>)
    requires
        0 <= pos <= b.len(),
        b.subrange(pos, b.len() as int) == u32_be_bytes(v) + rest,
    ensures
        take_u32(b, pos) == Some((v, pos + 4)),
        b.subrange(pos + 4, b.len() as int) == rest,
{
    lemma_subrange_shift(b, pos, u32_be_bytes(v), rest);
    lemma_u32_be_roundtrip(v);
    assert(b[pos] == u32_be_bytes(v)[0]);
    assert(b[pos + 1] == u32_be_bytes(v)[1]);
    assert(b[pos + 2] == u32_be_bytes(v)[2]);
    assert(b[pos + 3] == u32_be_bytes(v)[3]);
}

/// Reading one byte where one was written yields that byte.
pub proof fn lemma_take_u8_at(b: Seq<u8>, pos: int, v: u8, rest: Seq<u8>)
    requires
        0 <= pos <= b.len(),
        b.subrange(pos, b.len() as int) == seq![v] + rest,
    ensures
        take_u8(b, pos) == Some((v, pos + 1)),
        b.subrange(pos + 1, b.len() as int) == rest,
{
    lemma_subrange_shift(b, pos, seq![v], rest);
    assert(b[pos] == seq![v][0]);
}

/// Reading a byte run where one was written yields exactly that run.
pub proof fn lemma_take_bytes_at(b: Seq<u8>, pos: int, x: Seq<u8>, rest: Seq<u8>)
    requires
        0 <= pos <= b.len(),
        b.subrange(pos, b.len() as int) == x + rest,
    ensures
        take_bytes(b, pos, x.len() as int) == Some((x, pos + x.len())),
        b.subrange(pos + x.len(), b.len() as int) == rest,
{
    lemma_subrange_shift(b, pos, x, rest);
    assert(b.subrange(pos, pos + x.len()) =~= x);
}

/// Decoding where a well-formed header was encoded yields that header and
/// stops exactly at its end.
pub proof fn lemma_decode_header_at(
    b: Seq<u8>,
    pos: int,
    h: HeaderView,
    index: usize,
    rest: Seq<u8>,
)
    requires
        0 <= pos <= b.len(),
        header_wf(h),
        value_decodable(h.data),
        b.subrange(pos, b.len() as int) == spec_encode_header(h) + rest,
    ensures
        spec_decode_header(b, pos, index) == Ok::<_, CodecError>((h, pos + spec_header_size(h))),
        b.subrange(pos + spec_header_size(h), b.len() as int) == rest,
{
    let c1 = u16_be_bytes(h.name.len() as u16);
    let c2 = h.name;
    let c3 = seq![flag_byte(h.must_understand)];
    let c4 = u32_be_bytes(h.data.len() as u32);
    let c5 = h.data;
    assert(spec_encode_header(h) + rest =~= c1 + (c2 + (c3 + (c4 + (c5 + rest)))));
    lemma_take_u16_at(b, pos, h.name.len() as u16, c2 + (c3 + (c4 + (c5 + rest))));
    assert((h.name.len() as u16) as int == h.name.len());
    lemma_take_bytes_at(b, pos + 2, c2, c3 + (c4 + (c5 + rest)));
    lemma_take_u8_at(b, pos + 2 + c2.len(), flag_byte(h.must_understand), c4 + (c5 + rest));
    lemma_take_u32_at(b, pos + 3 + c2.len(), h.data.len() as u32, c5 + rest);
    assert((h.data.len() as u32) as int == h.data.len());
    lemma_take_bytes_at(b, pos + 7 + c2.len(), c5, rest);
    assert((HeaderView {
        name: c2,
        must_understand: flag_byte(h.must_understand) != 0,
        data: c5,
    }) == h);
}

/// Decoding where a well-formed body was encoded yields that body and stops
/// exactly at its end.
pub proof fn lemma_decode_body_at(b: Seq<u8>, pos: int, bd: BodyView, index: usize, rest: Seq<u8>)
    requires
        0 <= pos <= b.len(),
        body_wf(bd),
        value_decodable(bd.data),
        b.subrange(pos, b.len() as int) == spec_encode_body(bd) + rest,
    ensures
        spec_decode_body(b, pos, index) == Ok::<_, CodecError>((bd, pos + spec_body_size(bd))),
        b.subrange(pos + spec_body_size(bd), b.len() as int) == rest,
{
    let c1 = u16_be_bytes(bd.target_uri.len() as u16);
    let c2 = bd.target_uri;
    let c3 = u16_be_bytes(bd.response_uri.len() as u16);
    let c4 = bd.response_uri;
    let c5 = u32_be_bytes(bd.data.len() as u32);
    let c6 = bd.data;
    assert(spec_encode_body(bd) + rest =~= c1 + (c2 + (c3 + (c4 + (c5 + (c6 + rest))))));
    lemma_take_u16_at(b, pos, bd.target_uri.len() as u16, c2 + (c3 + (c4 + (c5 + (c6 + rest)))));
    assert((bd.target_uri.len() as u16) as int == bd.target_uri.len());
    lemma_take_bytes_at(b, pos + 2, c2, c3 + (c4 + (c5 + (c6 + rest))));
    lemma_take_u16_at(
        b,
        pos + 2 + c2.len(),
        bd.response_uri.len() as u16,
        c4 + (c5 + (c6 + rest)),
    );
    assert((bd.response_uri.len() as u16) as int == bd.response_uri.len());
    lemma_take_bytes_at(b, pos + 4 + c2.len(), c4, c5 + (c6 + rest));
    lemma_take_u32_at(b, pos + 4 + c2.len() + c4.len(), bd.data.len() as u32, c6 + rest);
    assert((bd.data.len() as u32) as int == bd.data.len());
    lemma_take_bytes_at(b, pos + 8 + c2.len() + c4.len(), c6, rest);
    assert((BodyView { target_uri: c2, response_uri: c4, data: c6 }) == bd);
}

/// Decoding where a run of well-formed headers was encoded yields exactly
/// that run, in order.
pub proof fn lemma_decode_headers_at(
    b: Seq<u8>,
    pos: int,
    hs: Seq<HeaderView>,
    index: usize,
    rest: Seq<u8>,
)
    requires
        0 <= pos <= b.len(),
        index + hs.len() <= 0xffff,
        forall|i: int| 0 <= i < hs.len() ==> header_wf(#[trigger] hs[i]),
        forall|i: int| 0 <= i < hs.len() ==> value_decodable((#[trigger] hs[i]).data),
        b.subrange(pos, b.len() as int) == spec_encode_headers(hs) + rest,
    ensures
        spec_decode_headers(b, pos, index, hs.len() as int) == Ok::<_, CodecError>(
            (hs, pos + spec_headers_size(hs)),
        ),
        b.subrange(pos + spec_headers_size(hs), b.len() as int) == rest,
    decreases hs.len(),
{
    if hs.len() == 0 {
        assert(hs =~= Seq::<HeaderView>::empty());
        assert(spec_encode_headers(hs) + rest =~= rest);
    } else {
        let tail = hs.drop_first();
        assert(forall|i: int| 0 <= i < tail.len() ==> #[trigger] tail[i] == hs[i + 1]);
        assert(spec_encode_headers(hs) + rest =~= spec_encode_header(hs[0]) + (spec_encode_headers(
            tail,
        ) + rest));
        lemma_decode_header_at(b, pos, hs[0], index, spec_encode_headers(tail) + rest);
        let mid = pos + spec_header_size(hs[0]);
        assert(b.subrange(mid, b.len() as int).len() == spec_encode_headers(tail).len()
            + rest.len());
        lemma_headers_size_nonneg(tail);
        lemma_decode_headers_at(b, mid, tail, (index + 1) as usize, rest);
        assert(seq![hs[0]] + tail =~= hs);
        assert((index + 1) as usize == index + 1);
        assert(spec_decode_headers(b, mid, (index + 1) as usize, hs.len() as int - 1) == Ok::<
            _,
            CodecError,
        >((tail, mid + spec_headers_size(tail))));
        assert(pos + spec_headers_size(hs) == mid + spec_headers_size(tail));
        assert(seq![hs[0]] + tail == hs);
        assert(spec_decode_headers(b, pos, index, hs.len() as int) == Ok::<_, CodecError>(
            (seq![hs[0]] + tail, mid + spec_headers_size(tail)),
        ));
        assert(spec_decode_headers(b, pos, index, hs.len() as int) == Ok::<_, CodecError>(
            (hs, pos + spec_headers_size(hs)),
        ));
    }
}

/// Decoding where a run of well-formed bodies was encoded yields exactly
/// that run, in order.
pub proof fn lemma_decode_bodies_at(
    b: Seq<u8>,
    pos: int,
    bs: Seq<BodyView>,
    index: usize,
    rest: Seq<u8>,
)
    requires
        0 <= pos <= b.len(),
        index + bs.len() <= 0xffff,
        forall|i: int| 0 <= i < bs.len() ==> body_wf(#[trigger] bs[i]),
        forall|i: int| 0 <= i < bs.len() ==> value_decodable((#[trigger] bs[i]).data),
        b.subrange(pos, b.len() as int) == spec_encode_bodies(bs) + rest,
    ensures
        spec_decode_bodies(b, pos, index, bs.len() as int) == Ok::<_, CodecError>(
            (bs, pos + spec_bodies_size(bs)),
        ),
        b.subrange(pos + spec_bodies_size(bs), b.len() as int) == rest,
    decreases bs.len(),
{
    if bs.len() == 0 {
        assert(bs =~= Seq::<BodyView>::empty());
        assert(spec_encode_bodies(bs) + rest =~= rest);
    } else {
        let tail = bs.drop_first();
        assert(forall|i: int| 0 <= i < tail.len() ==> #[trigger] tail[i] == bs[i + 1]);
        assert(spec_encode_bodies(bs) + rest =~= spec_encode_body(bs[0]) + (spec_encode_bodies(
            tail,
        ) + rest));
        lemma_decode_body_at(b, pos, bs[0], index, spec_encode_bodies(tail) + rest);
        let mid = pos + spec_body_size(bs[0]);
        assert(b.subrange(mid, b.len() as int).len() == spec_encode_bodies(tail).len()
            + rest.len());
        lemma_bodies_size_nonneg(tail);
        lemma_decode_bodies_at(b, mid, tail, (index + 1) as usize, rest);
        assert(seq![bs[0]] + tail =~= bs);
        assert((index + 1) as usize == index + 1);
        assert(spec_decode_bodies(b, mid, (index + 1) as usize, bs.len() as int - 1) == Ok::<
            _,
            CodecError,
        >((tail, mid + spec_bodies_size(tail))));
        assert(pos + spec_bodies_size(bs) == mid + spec_bodies_size(tail));
        assert(seq![bs[0]] + tail == bs);
        assert(spec_decode_bodies(b, pos, index, bs.len() as int) == Ok::<_, CodecError>(
            (seq![bs[0]] + tail, mid + spec_bodies_size(tail)),
        ));
        assert(spec_decode_bodies(b, pos, index, bs.len() as int) == Ok::<_, CodecError>(
            (bs, pos + spec_bodies_size(bs)),
        ));
    }
}

/// Round trip: decoding the encoding of any representable packet — any
/// version, any run of headers and bodies whose counts and lengths fit the
/// wire fields and whose value byte ranges the value codec accepts — gives
/// back a packet with the identical version and the identical headers and
/// bodies, in the identical order, even with arbitrary extra bytes behind
/// the encoding.
#[verifier::rlimit(50)]
pub proof fn lemma_packet_round_trip(p: PacketView, extra: Seq<u8>)
    requires
        packet_wf(p),
        packet_values_decodable(p),
    ensures
        spec_decode_packet(spec_encode_packet(p) + extra) == Ok::<_, CodecError>(p),
{
    let b = spec_encode_packet(p) + extra;
    let c1 = u16_be_bytes(version_code(p.version));
    let c2 = u16_be_bytes(p.headers.len() as u16);
    let c3 = spec_encode_headers(p.headers);
    let c4 = u16_be_bytes(p.bodies.len() as u16);
    let c5 = spec_encode_bodies(p.bodies);
    assert(b.subrange(0, b.len() as int) =~= c1 + (c2 + (c3 + (c4 + (c5 + extra)))));
    lemma_take_u16_at(b, 0, version_code(p.version), c2 + (c3 + (c4 + (c5 + extra))));
    lemma_take_u16_at(b, 2, p.headers.len() as u16, c3 + (c4 + (c5 + extra)));
    assert((p.headers.len() as u16) as int == p.headers.len());
    lemma_headers_size_nonneg(p.headers);
    lemma_decode_headers_at(b, 4, p.headers, 0, c4 + (c5 + extra));
    let hend = 4 + spec_headers_size(p.headers);
    lemma_headers_size_is_encoded_len(p.headers);
    assert(b.subrange(0, b.len() as int).len() == c1.len() + (c2 + (c3 + (c4 + (c5
        + extra)))).len());
    assert(hend + (c4 + (c5 + extra)).len() == b.len());
    lemma_take_u16_at(b, hend, p.bodies.len() as u16, c5 + extra);
    assert((p.bodies.len() as u16) as int == p.bodies.len());
    lemma_decode_bodies_at(b, hend + 2, p.bodies, 0, extra);
    assert((PacketView { version: p.version, headers: p.headers, bodies: p.bodies }) == p);
}

/// When the tail of `b` from `pos` on is a prefix of `x`, the bytes of `b`
/// match `x` pointwise as far as `b` reaches.
pub proof fn lemma_prefix_bytes(b: Seq<u8>, pos: int, x: Seq<u8>)
    requires
        0 <= pos <= b.len(),
        b.len() - pos <= x.len(),
        b.subrange(pos, b.len() as int) == x.take(b.len() - pos),
    ensures
        forall|k: int| 0 <= k < b.len() - pos ==> b[pos + k] == x[k],
{
    assert forall|k: int| 0 <= k < b.len() - pos implies b[pos + k] == x[k] by {
        assert(b.subrange(pos, b.len() as int)[k] == b[pos + k]);
        assert(x.take(b.len() - pos)[k] == x[k]);
    }
}

/// Decoding a header whose encoding is cut short — at any byte before its
/// end — reports truncation: never success, never another error.
pub proof fn lemma_decode_header_truncated(b: Seq<u8>, pos: int, h: HeaderView, index: usize)
    requires
        header_wf(h),
        0 <= pos <= b.len(),
        b.len() - pos < spec_header_size(h),
        b.subrange(pos, b.len() as int) == spec_encode_header(h).take(b.len() - pos),
    ensures
        spec_decode_header(b, pos, index) matches Err(e) && e is Truncated,
{
    let avail = b.len() - pos;
    let n = h.name.len() as int;
    let d = h.data.len() as int;
    let enc = spec_encode_header(h);
    let c1 = u16_be_bytes(h.name.len() as u16);
    let c2 = h.name;
    let c3 = seq![flag_byte(h.must_understand)];
    let c4 = u32_be_bytes(h.data.len() as u32);
    let c5 = h.data;
    assert(enc =~= c1 + (c2 + (c3 + (c4 + c5))));
    assert(enc.len() == spec_header_size(h));
    lemma_prefix_bytes(b, pos, enc);
    if avail < 2 {
        assert(take_u16(b, pos) is None);
    } else {
        assert(b[pos] == enc[0] && enc[0] == c1[0]);
        assert(b[pos + 1] == enc[1] && enc[1] == c1[1]);
        lemma_u16_be_roundtrip(h.name.len() as u16);
        assert(take_u16(b, pos) == Some((h.name.len() as u16, pos + 2)));
        assert((h.name.len() as u16) as int == n);
        if avail < 2 + n {
            assert(take_bytes(b, pos + 2, n) is None);
        } else if avail < 3 + n {
            assert(take_u8(b, pos + 2 + n) is None);
        } else if avail < 7 + n {
            assert(take_u32(b, pos + 3 + n) is None);
        } else {
            assert(forall|j: int| 0 <= j < 4 ==> enc[3 + n + j] == c4[j]);
            assert(b[pos + 3 + n] == c4[0]);
            assert(b[pos + 3 + n + 1] == c4[1]);
            assert(b[pos + 3 + n + 2] == c4[2]);
            assert(b[pos + 3 + n + 3] == c4[3]);
            lemma_u32_be_roundtrip(h.data.len() as u32);
            assert(take_u32(b, pos + 3 + n) == Some((h.data.len() as u32, pos + 7 + n)));
            assert((h.data.len() as u32) as int == d);
            assert(take_bytes(b, pos + 7 + n, d) is None);
        }
    }
}

/// Decoding a body whose encoding is cut short reports truncation.
pub proof fn lemma_decode_body_truncated(b: Seq<u8>, pos: int, bd: BodyView, index: usize)
    requires
        body_wf(bd),
        0 <= pos <= b.len(),
        b.len() - pos < spec_body_size(bd),
        b.subrange(pos, b.len() as int) == spec_encode_body(bd).take(b.len() - pos),
    ensures
        spec_decode_body(b, pos, index) matches Err(e) && e is Truncated,
{
    let avail = b.len() - pos;
    let t = bd.target_uri.len() as int;
    let rr = bd.response_uri.len() as int;
    let d = bd.data.len() as int;
    let enc = spec_encode_body(bd);
    let c1 = u16_be_bytes(bd.target_uri.len() as u16);
    let c2 = bd.target_uri;
    let c3 = u16_be_bytes(bd.response_uri.len() as u16);
    let c4 = bd.response_uri;
    let c5 = u32_be_bytes(bd.data.len() as u32);
    let c6 = bd.data;
    assert(enc =~= c1 + (c2 + (c3 + (c4 + (c5 + c6)))));
    assert(enc.len() == spec_body_size(bd));
    lemma_prefix_bytes(b, pos, enc);
    if avail < 2 {
        assert(take_u16(b, pos) is None);
    } else {
        assert(b[pos] == enc[0] && enc[0] == c1[0]);
        assert(b[pos + 1] == enc[1] && enc[1] == c1[1]);
        lemma_u16_be_roundtrip(bd.target_uri.len() as u16);
        assert(take_u16(b, pos) == Some((bd.target_uri.len() as u16, pos + 2)));
        assert((bd.target_uri.len() as u16) as int == t);
        if avail < 2 + t {
            assert(take_bytes(b, pos + 2, t) is None);
        } else if avail < 4 + t {
            assert(take_u16(b, pos + 2 + t) is None);
        } else {
            assert(forall|j: int| 0 <= j < 2 ==> enc[2 + t + j] == c3[j]);
            assert(b[pos + 2 + t] == c3[0]);
            assert(b[pos + 2 + t + 1] == c3[1]);
            lemma_u16_be_roundtrip(bd.response_uri.len() as u16);
            assert(take_u16(b, pos + 2 + t) == Some((bd.response_uri.len() as u16, pos + 4 + t)));
            assert((bd.response_uri.len() as u16) as int == rr);
            if avail < 4 + t + rr {
                assert(take_bytes(b, pos + 4 + t, rr) is None);
            } else if avail < 8 + t + rr {
                assert(take_u32(b, pos + 4 + t + rr) is None);
            } else {
                assert(forall|j: int| 0 <= j < 4 ==> enc[4 + t + rr + j] == c5[j]);
                assert(b[pos + 4 + t + rr] == c5[0]);
                assert(b[pos + 4 + t + rr + 1] == c5[1]);
                assert(b[pos + 4 + t + rr + 2] == c5[2]);
                assert(b[pos + 4 + t + rr + 3] == c5[3]);
                lemma_u32_be_roundtrip(bd.data.len() as u32);
                assert(take_u32(b, pos + 4 + t + rr) == Some(
                    (bd.data.len() as u32, pos + 8 + t + rr),
                ));
                assert((bd.data.len() as u32) as int == d);
                assert(take_bytes(b, pos + 8 + t + rr, d) is None);
            }
        }
    }
}

/// Decoding a run of headers whose combined encoding is cut short reports
/// truncation: the headers that fit parse as usual, and the one the cut
/// falls into fails with a `Truncated` error.
pub proof fn lemma_decode_headers_truncated(b: Seq<u8>, pos: int, hs: Seq<HeaderView>, index: usize)
    requires
        0 <= pos <= b.len(),
        index + hs.len() <= 0xffff,
        forall|i: int| 0 <= i < hs.len() ==> header_wf(#[trigger] hs[i]),
        forall|i: int| 0 <= i < hs.len() ==> value_decodable((#[trigger] hs[i]).data),
        b.len() - pos < spec_headers_size(hs),
        b.subrange(pos, b.len() as int) == spec_encode_headers(hs).take(b.len() - pos),
    ensures
        spec_decode_headers(b, pos, index, hs.len() as int) matches Err(e) && e is Truncated,
    decreases hs.len(),
{
    let avail = b.len() - pos;
    lemma_headers_size_nonneg(hs);
    assert(hs.len() > 0);
    let tail = hs.drop_first();
    assert(forall|i: int| 0 <= i < tail.len() ==> #[trigger] tail[i] == hs[i + 1]);
    let size0 = spec_header_size(hs[0]);
    let enc0 = spec_encode_header(hs[0]);
    assert(enc0.len() == size0);
    lemma_headers_size_is_encoded_len(hs);
    lemma_headers_size_is_encoded_len(tail);
    if avail < size0 {
        assert(spec_encode_headers(hs).take(avail) =~= enc0.take(avail));
        lemma_decode_header_truncated(b, pos, hs[0], index);
    } else {
        assert(spec_encode_headers(hs).take(avail) =~= enc0 + (spec_encode_headers(tail).take(
            avail - size0,
        )));
        lemma_decode_header_at(b, pos, hs[0], index, spec_encode_headers(tail).take(avail - size0));
        lemma_decode_headers_truncated(b, pos + size0, tail, (index + 1) as usize);
        assert((index + 1) as usize == index + 1);
    }
}

/// Decoding a run of bodies whose combined encoding is cut short reports
/// truncation.
pub proof fn lemma_decode_bodies_truncated(b: Seq<u8>, pos: int, bs: Seq<BodyView>, index: usize)
    requires
        0 <= pos <= b.len(),
        index + bs.len() <= 0xffff,
        forall|i: int| 0 <= i < bs.len() ==> body_wf(#[trigger] bs[i]),
        forall|i: int| 0 <= i < bs.len() ==> value_decodable((#[trigger] bs[i]).data),
        b.len() - pos < spec_bodies_size(bs),
        b.subrange(pos, b.len() as int) == spec_encode_bodies(bs).take(b.len() - pos),
    ensures
        spec_decode_bodies(b, pos, index, bs.len() as int) matches Err(e) && e is Truncated,
    decreases bs.len(),
{
    let avail = b.len() - pos;
    lemma_bodies_size_nonneg(bs);
    assert(bs.len() > 0);
    let tail = bs.drop_first();
    assert(forall|i: int| 0 <= i < tail.len() ==> #[trigger] tail[i] == bs[i + 1]);
    let size0 = spec_body_size(bs[0]);
    let enc0 = spec_encode_body(bs[0]);
    assert(enc0.len() == size0);
    lemma_bodies_size_is_encoded_len(bs);
    lemma_bodies_size_is_encoded_len(tail);
    if avail < size0 {
        assert(spec_encode_bodies(bs).take(avail) =~= enc0.take(avail));
        lemma_decode_body_truncated(b, pos, bs[0], index);
    } else {
        assert(spec_encode_bodies(bs).take(avail) =~= enc0 + (spec_encode_bodies(tail).take(avail
            - size0)));
        lemma_decode_body_at(b, pos, bs[0], index, spec_encode_bodies(tail).take(avail - size0));
        lemma_decode_bodies_truncated(b, pos + size0, tail, (index + 1) as usize);
        assert((index + 1) as usize == index + 1);
    }
}

/// Cutting a concatenation inside its second part keeps the whole first
/// part and cuts the second.
pub proof fn lemma_take_concat_high(x: Seq<u8>, y: Seq<u8>, m: int)
    requires
        x.len() <= m <= x.len() + y.len(),
    ensures
        (x + y).take(m) == x + y.take(m - x.len()),
{
    assert((x + y).take(m) =~= x + y.take(m - x.len()));
}

/// Cutting a concatenation inside its first part discards the second part
/// entirely.
pub proof fn lemma_take_concat_low(x: Seq<u8>, y: Seq<u8>, m: int)
    requires
        0 <= m <= x.len(),
    ensures
        (x + y).take(m) == x.take(m),
{
    assert((x + y).take(m) =~= x.take(m));
}

/// The cut falls inside the headers region: the frame words parse, and the
/// header the cut lands in reports truncation.
proof fn lemma_decode_truncated_in_headers(p: PacketView, n: int)
    requires
        packet_wf(p),
        packet_values_decodable(p),
        4 <= n < 4 + spec_headers_size(p.headers),
        n <= spec_encode_packet(p).len(),
    ensures
        spec_decode_packet(spec_encode_packet(p).take(n)) matches Err(e) && e is Truncated,
{
    let full = spec_encode_packet(p);
    let b = full.take(n);
    let c1 = u16_be_bytes(version_code(p.version));
    let c2 = u16_be_bytes(p.headers.len() as u16);
    let c3 = spec_encode_headers(p.headers);
    let c4 = u16_be_bytes(p.bodies.len() as u16);
    let c5 = spec_encode_bodies(p.bodies);
    let r1 = c2 + (c3 + (c4 + c5));
    let r2 = c3 + (c4 + c5);
    lemma_headers_size_nonneg(p.headers);
    lemma_headers_size_is_encoded_len(p.headers);
    assert(full =~= c1 + r1);
    lemma_take_concat_high(c1, r1, n);
    assert(b.subrange(0, b.len() as int) =~= c1 + r1.take(n - 2));
    lemma_take_u16_at(b, 0, version_code(p.version), r1.take(n - 2));
    assert(version_of_code(version_code(p.version)) == Some(p.version));
    lemma_take_concat_high(c2, r2, n - 2);
    lemma_take_u16_at(b, 2, p.headers.len() as u16, r2.take(n - 4));
    assert((p.headers.len() as u16) as int == p.headers.len());
    lemma_take_concat_low(c3, c4 + c5, n - 4);
    lemma_decode_headers_truncated(b, 4, p.headers, 0);
}

/// The cut falls at or behind the body count word: everything before it
/// parses, and the count word or the body the cut lands in reports
/// truncation.
#[verifier::rlimit(100)]
proof fn lemma_decode_truncated_in_tail(p: PacketView, n: int)
    requires
        packet_wf(p),
        packet_values_decodable(p),
        4 + spec_headers_size(p.headers) <= n < spec_encode_packet(p).len(),
    ensures
        spec_decode_packet(spec_encode_packet(p).take(n)) matches Err(e) && e is Truncated,
{
    let full = spec_encode_packet(p);
    let b = full.take(n);
    let c1 = u16_be_bytes(version_code(p.version));
    let c2 = u16_be_bytes(p.headers.len() as u16);
    let c3 = spec_encode_headers(p.headers);
    let c4 = u16_be_bytes(p.bodies.len() as u16);
    let c5 = spec_encode_bodies(p.bodies);
    let r1 = c2 + (c3 + (c4 + c5));
    let r2 = c3 + (c4 + c5);
    let hsize = spec_headers_size(p.headers);
    let bsize = spec_bodies_size(p.bodies);
    lemma_headers_size_nonneg(p.headers);
    lemma_bodies_size_nonneg(p.bodies);
    lemma_headers_size_is_encoded_len(p.headers);
    lemma_bodies_size_is_encoded_len(p.bodies);
    assert(full =~= c1 + r1);
    lemma_take_concat_high(c1, r1, n);
    assert(b.subrange(0, b.len() as int) =~= c1 + r1.take(n - 2));
    lemma_take_u16_at(b, 0, version_code(p.version), r1.take(n - 2));
    assert(version_of_code(version_code(p.version)) == Some(p.version));
    lemma_take_concat_high(c2, r2, n - 2);
    lemma_take_u16_at(b, 2, p.headers.len() as u16, r2.take(n - 4));
    assert((p.headers.len() as u16) as int == p.headers.len());
    lemma_take_concat_high(c3, c4 + c5, n - 4);
    lemma_decode_headers_at(b, 4, p.headers, 0, (c4 + c5).take(n - 4 - hsize));
    let hend = 4 + hsize;
    let m = n - hend;
    if m < 2 {
        assert(take_u16(b, hend) is None);
    } else {
        lemma_take_concat_high(c4, c5, m);
        lemma_take_u16_at(b, hend, p.bodies.len() as u16, c5.take(m - 2));
        assert((p.bodies.len() as u16) as int == p.bodies.len());
        assert(m - 2 < bsize);
        lemma_decode_bodies_truncated(b, hend + 2, p.bodies, 0);
    }
}

/// Truncation safety: decoding any strict prefix of the encoding of a
/// representable packet — cut at any byte offset whatsoever — yields a
/// `Truncated` error. It never succeeds on a partial packet and never
/// reports anything but truncation.
pub proof fn lemma_decode_truncated(p: PacketView, n: int)
    requires
        packet_wf(p),
        packet_values_decodable(p),
        0 <= n < spec_encode_packet(p).len(),
    ensures
        spec_decode_packet(spec_encode_packet(p).take(n)) matches Err(e) && e is Truncated,
{
    let full = spec_encode_packet(p);
    let b = full.take(n);
    lemma_headers_size_nonneg(p.headers);
    lemma_headers_size_is_encoded_len(p.headers);
    let hsize = spec_headers_size(p.headers);
    if n < 2 {
        assert(take_u16(b, 0) is None);
    } else if n < 4 {
        let c1 = u16_be_bytes(version_code(p.version));
        let r1 = u16_be_bytes(p.headers.len() as u16) + (spec_encode_headers(p.headers)
            + (u16_be_bytes(p.bodies.len() as u16) + spec_encode_bodies(p.bodies)));
        assert(full =~= c1 + r1);
        lemma_take_concat_high(c1, r1, n);
        assert(b.subrange(0, b.len() as int) =~= c1 + r1.take(n - 2));
        lemma_take_u16_at(b, 0, version_code(p.version), r1.take(n - 2));
        assert(version_of_code(version_code(p.version)) == Some(p.version));
        assert(take_u16(b, 2) is None);
    } else if n < 4 + hsize {
        lemma_decode_truncated_in_headers(p, n);
    } else {
        lemma_decode_truncated_in_tail(p, n);
    }
}

/// Whatever a header record decodes to is well-formed and carries
/// value-codec-accepted bytes: its parts were read against length fields,
/// so they fit them.
pub proof fn lemma_decoded_header_wf(b: Seq<u8>, pos: int, index: usize)
    ensures
        spec_decode_header(b, pos, index) matches Ok((h, p2)) ==> {
            &&& header_wf(h)
            &&& value_decodable(h.data)
            &&& pos <= p2 <= b.len()
        },
{
}

/// Whatever a body record decodes to is well-formed and carries
/// value-codec-accepted bytes.
pub proof fn lemma_decoded_body_wf(b: Seq<u8>, pos: int, index: usize)
    ensures
        spec_decode_body(b, pos, index) matches Ok((bd, p2)) ==> {
            &&& body_wf(bd)
            &&& value_decodable(bd.data)
            &&& pos <= p2 <= b.len()
        },
{
}

/// Whatever a run of header records decodes to is a run of exactly
/// `remaining` well-formed headers with accepted value bytes.
pub proof fn lemma_decoded_headers_wf(b: Seq<u8>, pos: int, index: usize, remaining: int)
    ensures
        spec_decode_headers(b, pos, index, remaining) matches Ok((hs, p2)) ==> {
            &&& hs.len() == if remaining >= 0 { remaining } else { 0 }
            &&& forall|i: int| 0 <= i < hs.len() ==> header_wf(#[trigger] hs[i])
            &&& forall|i: int| 0 <= i < hs.len() ==> value_decodable((#[trigger] hs[i]).data)
            &&& pos <= p2 || remaining <= 0
        },
    decreases remaining,
{
    if remaining > 0 {
        match spec_decode_header(b, pos, index) {
            Err(_) => {},
            Ok((h, p)) => {
                lemma_decoded_header_wf(b, pos, index);
                lemma_decoded_headers_wf(b, p, (index + 1) as usize, remaining - 1);
                match spec_decode_headers(b, p, (index + 1) as usize, remaining - 1) {
                    Err(_) => {},
                    Ok((hs, _)) => {
                        assert(forall|i: int|
                            0 <= i < hs.len() ==> #[trigger] (seq![h] + hs)[i + 1] == hs[i]);
                        assert((seq![h] + hs)[0] == h);
                    },
                }
            },
        }
    }
}

/// Whatever a run of body records decodes to is a run of exactly
/// `remaining` well-formed bodies with accepted value bytes.
pub proof fn lemma_decoded_bodies_wf(b: Seq<u8>, pos: int, index: usize, remaining: int)
    ensures
        spec_decode_bodies(b, pos, index, remaining) matches Ok((bs, p2)) ==> {
            &&& bs.len() == if remaining >= 0 { remaining } else { 0 }
            &&& forall|i: int| 0 <= i < bs.len() ==> body_wf(#[trigger] bs[i])
            &&& forall|i: int| 0 <= i < bs.len() ==> value_decodable((#[trigger] bs[i]).data)
            &&& pos <= p2 || remaining <= 0
        },
    decreases remaining,
{
    if remaining > 0 {
        match spec_decode_body(b, pos, index) {
            Err(_) => {},
            Ok((bd, p)) => {
                lemma_decoded_body_wf(b, pos, index);
                lemma_decoded_bodies_wf(b, p, (index + 1) as usize, remaining - 1);
                match spec_decode_bodies(b, p, (index + 1) as usize, remaining - 1) {
                    Err(_) => {},
                    Ok((bs, _)) => {
                        assert(forall|i: int|
                            0 <= i < bs.len() ==> #[trigger] (seq![bd] + bs)[i + 1] == bs[i]);
                        assert((seq![bd] + bs)[0] == bd);
                    },
                }
            },
        }
    }
}

/// Every packet a buffer decodes to is representable: its counts and
/// lengths fit the wire fields and the value codec accepts its value byte
/// ranges, so the packet can be encoded again.
pub proof fn lemma_decoded_packet_wf(b: Seq<u8>)
    ensures
        spec_decode_packet(b) matches Ok(p) ==> packet_wf(p) && packet_values_decodable(p),
{
    match take_u16(b, 0) {
        None => {},
        Some((code, pos)) => {
            match take_u16(b, pos) {
                None => {},
                Some((header_count, pos2)) => {
                    lemma_decoded_headers_wf(b, pos2, 0, header_count as int);
                    match spec_decode_headers(b, pos2, 0, header_count as int) {
                        Err(_) => {},
                        Ok((_, pos3)) => {
                            match take_u16(b, pos3) {
                                None => {},
                                Some((body_count, pos4)) => {
                                    lemma_decoded_bodies_wf(b, pos4, 0, body_count as int);
                                },
                            }
                        },
                    }
                },
            }
        },
    }
}

/// Version gate: a buffer whose first two bytes spell any 16-bit word other
/// than 0 or 3 decodes to `UnknownVersion` carrying that word, whatever the
/// rest of the buffer holds.
pub proof fn lemma_version_gate(b: Seq<u8>)
    requires
        b.len() >= 2,
        version_of_code(u16_be_value(b[0], b[1])) is None,
    ensures
        spec_decode_packet(b) == Err::<PacketView, CodecError>(
            CodecError::UnknownVersion { found: u16_be_value(b[0], b[1]) },
        ),
{
}

/// Order preservation, spelled out: each decoded header and body sits at
/// the very position it was encoded at.
pub proof fn lemma_order_preservation(p: PacketView, extra: Seq<u8>)
    requires
        packet_wf(p),
        packet_values_decodable(p),
    ensures
        spec_decode_packet(spec_encode_packet(p) + extra) matches Ok(q) && {
            &&& q.headers.len() == p.headers.len()
            &&& q.bodies.len() == p.bodies.len()
            &&& forall|i: int| 0 <= i < p.headers.len() ==> q.headers[i] == p.headers[i]
            &&& forall|i: int| 0 <= i < p.bodies.len() ==> q.bodies[i] == p.bodies[i]
        },
{
    lemma_packet_round_trip(p, extra);
}

} // verus!
