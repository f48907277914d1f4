//! The packet model, its builder, and the executable binary codec.
//!
//! A [`Packet`] is a version tag plus ordered headers and ordered bodies.
//! Header names and body URIs are carried as their UTF-8 bytes, copied out
//! of whatever text or buffer they came from; the value of a header or body
//! is carried as the bytes the external value codec produced for it (see
//! [`crate::value`]).
//!
//! [`Packet::into_bytes`] and [`Packet::read_from`] are verified against the
//! wire specification in [`crate::wire`]: encoding yields exactly
//! [`spec_encode_packet`] of the model, and decoding agrees with
//! [`spec_decode_packet`] on every buffer, error for error.
use vstd::prelude::*;
use vstd::string::StringSliceAdditionalSpecFns;

use crate::errors::{BodyField, CodecError, FieldContext, HeaderField};
use crate::wire::{
    body_wf, header_wf, lemma_bodies_size_nonneg, lemma_bodies_size_push,
    lemma_encode_error_none_iff_wf, lemma_headers_size_nonneg, lemma_headers_size_push,
    packet_wf, spec_bodies_encode_error, spec_bodies_size,
    spec_body_size, spec_decode_body, spec_decode_bodies,
    spec_decode_header, spec_decode_headers, spec_decode_packet, spec_encode_bodies,
    spec_encode_body, spec_encode_header, spec_encode_headers, spec_encode_packet,
    spec_header_size, spec_headers_encode_error, spec_headers_size,
    spec_packet_encode_error, spec_packet_size, take_bytes, take_u16, take_u32, take_u8,
    u16_be_bytes, u32_be_bytes, version_code, version_of_code, BodyView, HeaderView, PacketView,
    Version,
};

verus! {

/// An out-of-band directive attached to a packet: a named flag-bearing
/// value. `name` holds the UTF-8 bytes of the name; `data` holds the bytes
/// the value codec produced for the attached value.
#[derive(Debug, Clone)]
pub struct Header {
    pub name: Vec<u8>,
    pub must_understand: bool,
    pub data: Vec<u8>,
}

/// One addressed request/response unit: `target_uri` names the remote
/// operation, `response_uri` the correlation path for the reply, both as
/// UTF-8 bytes; `data` holds the value codec's bytes for the carried value.
#[derive(Debug, Clone)]
pub struct Body {
    pub target_uri: Vec<u8>,
    pub response_uri: Vec<u8>,
    pub data: Vec<u8>,
}

/// An in-memory packet: a version tag with ordered headers and bodies.
#[derive(Debug, Clone)]
pub struct Packet {
    pub version: Version,
    pub headers: Vec<Header>,
    pub bodies: Vec<Body>,
}

impl View for Header {
    type V = HeaderView;

    open spec fn view(&self) -> HeaderView {
        HeaderView {
            name: self.name@,
            must_understand: self.must_understand,
            data: self.data@,
        }
    }
}

impl View for Body {
    type V = BodyView;

    open spec fn view(&self) -> BodyView {
        BodyView {
            target_uri: self.target_uri@,
            response_uri: self.response_uri@,
            data: self.data@,
        }
    }
}

/// The element-wise view of a run of headers.
pub open spec fn headers_seq_view(s: Seq<Header>) -> Seq<HeaderView> {
    Seq::new(s.len(), |i: int| s[i]@)
}

/// The element-wise view of a run of bodies.
pub open spec fn bodies_seq_view(s: Seq<Body>) -> Seq<BodyView> {
    Seq::new(s.len(), |i: int| s[i]@)
}

impl View for Packet {
    type V = PacketView;

    open spec fn view(&self) -> PacketView {
        PacketView {
            version: self.version,
            headers: headers_seq_view(self.headers@),
            bodies: bodies_seq_view(self.bodies@),
        }
    }
}

impl Version {
    /// The 16-bit word this version is serialized as.
    pub fn val(&self) -> (r: u16)
        ensures
            r == version_code(*self),
    {
        match self {
            Version::Amf0 => 0,
            Version::Amf3 => 3,
        }
    }

    /// The version a 16-bit word stands for, or `None` for any other word.
    pub fn parse(code: u16) -> (r: Option<Version>)
        ensures
            r == version_of_code(code),
    {
        match code {
            0 => Some(Version::Amf0),
            3 => Some(Version::Amf3),
            _ => None,
        }
    }
}

/// The accumulated state of a [`PacketBuilder`].
pub ghost struct PacketBuilderView {
    pub version: Option<Version>,
    pub headers: Seq<HeaderView>,
    pub bodies: Seq<BodyView>,
}

/// A fluent accumulator for packets: set a version, append headers and
/// bodies in the order they should travel, then [`build`](Self::build).
///
/// The builder performs no I/O and no encoding; it is pure accumulation.
pub struct PacketBuilder {
    version: Option<Version>,
    headers: Vec<Header>,
    bodies: Vec<Body>,
}

impl View for PacketBuilder {
    type V = PacketBuilderView;

    closed spec fn view(&self) -> PacketBuilderView {
        PacketBuilderView {
            version: self.version,
            headers: headers_seq_view(self.headers@),
            bodies: bodies_seq_view(self.bodies@),
        }
    }
}

impl Packet {
    /// A fresh, empty builder with no version set.
    pub fn builder() -> (r: PacketBuilder)
        ensures
            r@.version is None,
            r@.headers == Seq::<HeaderView>::empty(),
            r@.bodies == Seq::<BodyView>::empty(),
    {
        PacketBuilder::new()
    }
}

impl PacketBuilder {
    /// An empty builder: no version, no headers, no bodies.
    pub fn new() -> (r: Self)
        ensures
            r@.version is None,
            r@.headers == Seq::<HeaderView>::empty(),
            r@.bodies == Seq::<BodyView>::empty(),
    {
        let r = PacketBuilder { version: None, headers: Vec::new(), bodies: Vec::new() };
        proof {
            assert(r@.headers =~= Seq::<HeaderView>::empty());
            assert(r@.bodies =~= Seq::<BodyView>::empty());
        }
        r
    }

    /// Sets the version to format 3, the default dialect, overwriting any
    /// prior choice.
    pub fn with_default_version(self) -> (r: Self)
        ensures
            r@.version == Some(Version::Amf3),
            r@.headers == self@.headers,
            r@.bodies == self@.bodies,
    {
        PacketBuilder { version: Some(Version::Amf3), ..self }
    }

    /// Sets the version, overwriting any prior choice.
    pub fn version(self, version: Version) -> (r: Self)
        ensures
            r@.version == Some(version),
            r@.headers == self@.headers,
            r@.bodies == self@.bodies,
    {
        PacketBuilder { version: Some(version), ..self }
    }

    /// Appends a header. `name` is any text; `data` is the value codec's
    /// byte encoding of the attached value (see
    /// [`crate::value::encode_value`]).
    pub fn header(self, name: &str, must_understand: bool, data: Vec<u8>) -> (r: Self)
        ensures
            r@.version == self@.version,
            r@.headers == self@.headers.push(
                HeaderView { name: name.spec_bytes(), must_understand, data: data@ },
            ),
            r@.bodies == self@.bodies,
    {
        let name_bytes = vstd::slice::slice_to_vec(name.as_bytes());
        let header = Header { name: name_bytes, must_understand, data };
        let mut headers = self.headers;
        let ghost old_headers = headers@;
        headers.push(header);
        let r = PacketBuilder { version: self.version, headers, bodies: self.bodies };
        proof {
            assert(r@.headers =~= headers_seq_view(old_headers).push(header@));
        }
        r
    }

    /// Appends a body. The URIs are any text; `data` is the value codec's
    /// byte encoding of the carried value.
    pub fn body(self, target_uri: &str, response_uri: &str, data: Vec<u8>) -> (r: Self)
        ensures
            r@.version == self@.version,
            r@.headers == self@.headers,
            r@.bodies == self@.bodies.push(
                BodyView {
                    target_uri: target_uri.spec_bytes(),
                    response_uri: response_uri.spec_bytes(),
                    data: data@,
                },
            ),
    {
        let target_bytes = vstd::slice::slice_to_vec(target_uri.as_bytes());
        let response_bytes = vstd::slice::slice_to_vec(response_uri.as_bytes());
        let body = Body { target_uri: target_bytes, response_uri: response_bytes, data };
        let mut bodies = self.bodies;
        let ghost old_bodies = bodies@;
        bodies.push(body);
        let r = PacketBuilder { version: self.version, headers: self.headers, bodies };
        proof {
            assert(r@.bodies =~= bodies_seq_view(old_bodies).push(body@));
        }
        r
    }

    /// Finishes the packet.
    ///
    /// Fails with [`CodecError::MissingVersion`] when no version was ever
    /// set, and with [`CodecError::OutOfRange`] when more headers or bodies
    /// were appended than the wire format's 16-bit counts can carry; both
    /// conditions are stated exactly below. Otherwise the packet holds the
    /// version and the headers and bodies in insertion order.
    pub fn build(self) -> (r: Result<Packet, CodecError>)
        ensures
            match r {
                Ok(p) => {
                    &&& self@.version == Some(p@.version)
                    &&& p@.headers == self@.headers
                    &&& p@.bodies == self@.bodies
                    &&& self@.headers.len() <= 0xffff
                    &&& self@.bodies.len() <= 0xffff
                },
                Err(e) => {
                    ||| (self@.version is None && e == CodecError::MissingVersion)
                    ||| (self@.version is Some && self@.headers.len() > 0xffff && e
                        == (CodecError::OutOfRange { context: FieldContext::HeaderCount }))
                    ||| (self@.version is Some && self@.headers.len() <= 0xffff
                        && self@.bodies.len() > 0xffff && e == (CodecError::OutOfRange {
                        context: FieldContext::BodyCount,
                    }))
                },
            },
    {
        let version = match self.version {
            Some(v) => v,
            None => {
                return Err(CodecError::MissingVersion);
            },
        };
        if self.headers.len() > 0xffff {
            return Err(CodecError::OutOfRange { context: FieldContext::HeaderCount });
        }
        if self.bodies.len() > 0xffff {
            return Err(CodecError::OutOfRange { context: FieldContext::BodyCount });
        }
        Ok(Packet { version, headers: self.headers, bodies: self.bodies })
    }
}

/// `n` clamped to the range of `usize`: the value a saturating byte count
/// settles at.
pub open spec fn clamped(n: int) -> int {
    if n <= usize::MAX as int {
        n
    } else {
        usize::MAX as int
    }
}

/// Appends the two big-endian bytes of `v`.
fn push_u16(out: &mut Vec<u8>, v: u16)
    ensures
        final(out)@ == old(out)@ + u16_be_bytes(v),
{
    proof {
        assert((v >> 8) & 0xff < 256 && v & 0xff < 256) by (bit_vector);
    }
    out.push(((v >> 8) & 0xff) as u8);
    out.push((v & 0xff) as u8);
    proof {
        assert(out@ =~= old(out)@ + u16_be_bytes(v));
    }
}

/// Appends the four big-endian bytes of `v`.
fn push_u32(out: &mut Vec<u8>, v: u32)
    ensures
        final(out)@ == old(out)@ + u32_be_bytes(v),
{
    proof {
        assert((v >> 24) & 0xff < 256 && (v >> 16) & 0xff < 256 && (v >> 8) & 0xff < 256 && v
            & 0xff < 256) by (bit_vector);
    }
    out.push(((v >> 24) & 0xff) as u8);
    out.push(((v >> 16) & 0xff) as u8);
    out.push(((v >> 8) & 0xff) as u8);
    out.push((v & 0xff) as u8);
    proof {
        assert(out@ =~= old(out)@ + u32_be_bytes(v));
    }
}

/// Appends a whole byte run.
fn push_bytes(out: &mut Vec<u8>, bytes: &[u8])
    ensures
        final(out)@ == old(out)@ + bytes@,
{
    let ghost out0 = out@;
    let mut k: usize = 0;
    while k < bytes.len()
        invariant
            k <= bytes@.len(),
            out@ == out0 + bytes@.take(k as int),
        decreases bytes@.len() - k,
    {
        let b = bytes[k];
        out.push(b);
        proof {
            assert(bytes@.take(k as int).push(bytes@[k as int]) =~= bytes@.take(k + 1));
            assert(out@ =~= out0 + bytes@.take(k + 1));
        }
        k = k + 1;
    }
    proof {
        assert(bytes@.take(bytes@.len() as int) =~= bytes@);
    }
}

/// Appends the wire bytes of one well-formed header.
fn encode_header_into(out: &mut Vec<u8>, h: &Header)
    requires
        header_wf(h@),
    ensures
        final(out)@ == old(out)@ + spec_encode_header(h@),
{
    push_u16(out, h.name.len() as u16);
    push_bytes(out, h.name.as_slice());
    out.push(if h.must_understand { 1 } else { 0 });
    push_u32(out, h.data.len() as u32);
    push_bytes(out, h.data.as_slice());
    proof {
        assert(out@ =~= old(out)@ + spec_encode_header(h@));
    }
}

/// Appends the wire bytes of one well-formed body.
fn encode_body_into(out: &mut Vec<u8>, b: &Body)
    requires
        body_wf(b@),
    ensures
        final(out)@ == old(out)@ + spec_encode_body(b@),
{
    push_u16(out, b.target_uri.len() as u16);
    push_bytes(out, b.target_uri.as_slice());
    push_u16(out, b.response_uri.len() as u16);
    push_bytes(out, b.response_uri.as_slice());
    push_u32(out, b.data.len() as u32);
    push_bytes(out, b.data.as_slice());
    proof {
        assert(out@ =~= old(out)@ + spec_encode_body(b@));
    }
}

impl Header {
    /// The exact number of bytes this header occupies on the wire
    /// (saturating at `usize::MAX`).
    pub fn size_hint(&self) -> (n: usize)
        ensures
            n == clamped(spec_header_size(self@)),
    {
        7usize.saturating_add(self.name.len()).saturating_add(self.data.len())
    }
}

impl Body {
    /// The exact number of bytes this body occupies on the wire (saturating
    /// at `usize::MAX`).
    pub fn size_hint(&self) -> (n: usize)
        ensures
            n == clamped(spec_body_size(self@)),
    {
        8usize.saturating_add(self.target_uri.len()).saturating_add(
            self.response_uri.len(),
        ).saturating_add(self.data.len())
    }
}

impl Packet {
    /// The number of bytes this packet occupies on the wire (saturating at
    /// `usize::MAX`), used to pre-size the encoder's buffer. For a
    /// well-formed packet this equals the encoding's true length (see
    /// [`crate::wire::lemma_packet_size_is_encoded_len`]); it is used only as a capacity
    /// hint, never for correctness.
    pub fn size_hint(&self) -> (n: usize)
        ensures
            n == clamped(spec_packet_size(self@)),
    {
        let ghost hs = self@.headers;
        let ghost bs = self@.bodies;
        let mut n: usize = 6;
        let mut i: usize = 0;
        while i < self.headers.len()
            invariant
                i <= self.headers.len(),
                hs == headers_seq_view(self.headers@),
                n == clamped(6 + spec_headers_size(hs.take(i as int))),
            decreases self.headers.len() - i,
        {
            let hsize = self.headers[i].size_hint();
            proof {
                lemma_headers_size_nonneg(hs.take(i as int));
                lemma_headers_size_push(hs.take(i as int), hs[i as int]);
                assert(hs.take(i as int).push(hs[i as int]) =~= hs.take(i + 1));
            }
            n = n.saturating_add(hsize);
            i = i + 1;
        }
        proof {
            assert(hs.take(hs.len() as int) =~= hs);
            lemma_headers_size_nonneg(hs);
        }
        let mut j: usize = 0;
        while j < self.bodies.len()
            invariant
                j <= self.bodies.len(),
                hs == headers_seq_view(self.headers@),
                bs == bodies_seq_view(self.bodies@),
                n == clamped(6 + spec_headers_size(hs) + spec_bodies_size(bs.take(j as int))),
            decreases self.bodies.len() - j,
        {
            let bsize = self.bodies[j].size_hint();
            proof {
                lemma_headers_size_nonneg(hs);
                lemma_bodies_size_nonneg(bs.take(j as int));
                lemma_bodies_size_push(bs.take(j as int), bs[j as int]);
                assert(bs.take(j as int).push(bs[j as int]) =~= bs.take(j + 1));
            }
            n = n.saturating_add(bsize);
            j = j + 1;
        }
        proof {
            assert(bs.take(bs.len() as int) =~= bs);
        }
        n
    }

    /// Serializes the packet into its exact wire bytes.
    ///
    /// Succeeds precisely on well-formed packets, yielding exactly
    /// [`spec_encode_packet`] of the model; otherwise reports the first
    /// count or length that overflows its wire field, in wire order, as
    /// [`CodecError::OutOfRange`]. Nothing is ever silently truncated.
    pub fn into_bytes(self) -> (r: Result<Vec<u8>, CodecError>)
        ensures
            match r {
                Ok(bytes) => spec_packet_encode_error(self@) is None && bytes@
                    == spec_encode_packet(self@),
                Err(e) => spec_packet_encode_error(self@) == Some(e),
            },
            r is Ok <==> packet_wf(self@),
    {
        proof {
            lemma_encode_error_none_iff_wf(self@);
        }
        let ghost pv = self@;
        let ghost hs = pv.headers;
        let ghost bs = pv.bodies;
        let hint = self.size_hint();
        if self.headers.len() > 0xffff {
            return Err(CodecError::OutOfRange { context: FieldContext::HeaderCount });
        }
        let mut out: Vec<u8> = Vec::with_capacity(hint);
        push_u16(&mut out, self.version.val());
        push_u16(&mut out, self.headers.len() as u16);
        let ghost prefix = u16_be_bytes(version_code(pv.version)) + u16_be_bytes(
            pv.headers.len() as u16,
        );
        proof {
            assert(out@ =~= prefix);
            assert(hs.skip(0) =~= hs);
        }
        let mut i: usize = 0;
        while i < self.headers.len()
            invariant
                i <= self.headers.len(),
                self.headers.len() <= 0xffff,
                pv == self@,
                hs == headers_seq_view(self.headers@),
                spec_headers_encode_error(hs, 0) == spec_headers_encode_error(
                    hs.skip(i as int),
                    i,
                ),
                out@ + spec_encode_headers(hs.skip(i as int)) == prefix + spec_encode_headers(hs),
                spec_packet_encode_error(pv) is None <==> packet_wf(pv),
            decreases self.headers.len() - i,
        {
            let h = &self.headers[i];
            proof {
                assert(hs.skip(i as int)[0] == hs[i as int]);
                assert(hs.skip(i as int).drop_first() =~= hs.skip(i + 1));
            }
            if h.name.len() > 0xffff {
                return Err(
                    CodecError::OutOfRange {
                        context: FieldContext::Header { index: i, field: HeaderField::Name },
                    },
                );
            }
            if h.data.len() as u64 > 0xffff_ffff {
                return Err(
                    CodecError::OutOfRange {
                        context: FieldContext::Header { index: i, field: HeaderField::Data },
                    },
                );
            }
            let ghost out_before = out@;
            encode_header_into(&mut out, h);
            proof {
                assert(spec_encode_headers(hs.skip(i as int)) == spec_encode_header(hs[i as int])
                    + spec_encode_headers(hs.skip(i + 1)));
                assert(out@ + spec_encode_headers(hs.skip(i + 1)) =~= out_before
                    + spec_encode_headers(hs.skip(i as int)));
            }
            i = i + 1;
        }
        proof {
            assert(hs.skip(hs.len() as int) =~= Seq::<HeaderView>::empty());
            assert(out@ =~= prefix + spec_encode_headers(hs));
        }
        if self.bodies.len() > 0xffff {
            return Err(CodecError::OutOfRange { context: FieldContext::BodyCount });
        }
        push_u16(&mut out, self.bodies.len() as u16);
        let ghost prefix2 = prefix + spec_encode_headers(hs) + u16_be_bytes(pv.bodies.len() as u16);
        proof {
            assert(out@ =~= prefix2);
            assert(bs.skip(0) =~= bs);
        }
        let mut j: usize = 0;
        while j < self.bodies.len()
            invariant
                j <= self.bodies.len(),
                self.bodies.len() <= 0xffff,
                self.headers.len() <= 0xffff,
                pv == self@,
                hs == headers_seq_view(self.headers@),
                bs == bodies_seq_view(self.bodies@),
                spec_headers_encode_error(hs, 0) is None,
                spec_bodies_encode_error(bs, 0) == spec_bodies_encode_error(bs.skip(j as int), j),
                out@ + spec_encode_bodies(bs.skip(j as int)) == prefix2 + spec_encode_bodies(bs),
                prefix2 == u16_be_bytes(version_code(pv.version)) + u16_be_bytes(
                    pv.headers.len() as u16,
                ) + spec_encode_headers(hs) + u16_be_bytes(pv.bodies.len() as u16),
                spec_packet_encode_error(pv) is None <==> packet_wf(pv),
            decreases self.bodies.len() - j,
        {
            let b = &self.bodies[j];
            proof {
                assert(bs.skip(j as int)[0] == bs[j as int]);
                assert(bs.skip(j as int).drop_first() =~= bs.skip(j + 1));
            }
            if b.target_uri.len() > 0xffff {
                return Err(
                    CodecError::OutOfRange {
                        context: FieldContext::Body { index: j, field: BodyField::TargetUri },
                    },
                );
            }
            if b.response_uri.len() > 0xffff {
                return Err(
                    CodecError::OutOfRange {
                        context: FieldContext::Body { index: j, field: BodyField::ResponseUri },
                    },
                );
            }
            if b.data.len() as u64 > 0xffff_ffff {
                return Err(
                    CodecError::OutOfRange {
                        context: FieldContext::Body { index: j, field: BodyField::Data },
                    },
                );
            }
            let ghost out_before = out@;
            encode_body_into(&mut out, b);
            proof {
                assert(spec_encode_bodies(bs.skip(j as int)) == spec_encode_body(bs[j as int])
                    + spec_encode_bodies(bs.skip(j + 1)));
                assert(out@ + spec_encode_bodies(bs.skip(j + 1)) =~= out_before
                    + spec_encode_bodies(bs.skip(j as int)));
            }
            j = j + 1;
        }
        proof {
            assert(bs.skip(bs.len() as int) =~= Seq::<BodyView>::empty());
            assert(out@ =~= spec_encode_packet(pv));
        }
        Ok(out)
    }
}

/// Reads one byte, advancing `pos` past it on success and leaving `pos` in
/// place on a short buffer.
fn read_u8(buf: &[u8], pos: &mut usize) -> (r: Option<u8>)
    requires
        *old(pos) <= buf@.len(),
    ensures
        *final(pos) <= buf@.len(),
        match r {
            Some(v) => take_u8(buf@, *old(pos) as int) == Some((v, *final(pos) as int)),
            None => take_u8(buf@, *old(pos) as int) is None && *final(pos) == *old(pos),
        },
{
    if buf.len() - *pos >= 1 {
        let b = buf[*pos];
        *pos = *pos + 1;
        Some(b)
    } else {
        None
    }
}

/// Reads a big-endian 16-bit word, advancing `pos` past it on success.
fn read_u16(buf: &[u8], pos: &mut usize) -> (r: Option<u16>)
    requires
        *old(pos) <= buf@.len(),
    ensures
        *final(pos) <= buf@.len(),
        match r {
            Some(v) => take_u16(buf@, *old(pos) as int) == Some((v, *final(pos) as int)),
            None => take_u16(buf@, *old(pos) as int) is None && *final(pos) == *old(pos),
        },
{
    if buf.len() - *pos >= 2 {
        let b0 = buf[*pos];
        let b1 = buf[*pos + 1];
        *pos = *pos + 2;
        Some(((b0 as u16) << 8) | (b1 as u16))
    } else {
        None
    }
}

/// Reads a big-endian 32-bit word, advancing `pos` past it on success.
fn read_u32(buf: &[u8], pos: &mut usize) -> (r: Option<u32>)
    requires
        *old(pos) <= buf@.len(),
    ensures
        *final(pos) <= buf@.len(),
        match r {
            Some(v) => take_u32(buf@, *old(pos) as int) == Some((v, *final(pos) as int)),
            None => take_u32(buf@, *old(pos) as int) is None && *final(pos) == *old(pos),
        },
{
    if buf.len() - *pos >= 4 {
        let b0 = buf[*pos];
        let b1 = buf[*pos + 1];
        let b2 = buf[*pos + 2];
        let b3 = buf[*pos + 3];
        *pos = *pos + 4;
        Some(((b0 as u32) << 24) | ((b1 as u32) << 16) | ((b2 as u32) << 8) | (b3 as u32))
    } else {
        None
    }
}

/// Copies `n` raw bytes out of the buffer, advancing `pos` past them on
/// success.
fn read_bytes(buf: &[u8], pos: &mut usize, n: usize) -> (r: Option<Vec<u8>>)
    requires
        *old(pos) <= buf@.len(),
    ensures
        *final(pos) <= buf@.len(),
        match r {
            Some(v) => take_bytes(buf@, *old(pos) as int, n as int) == Some(
                (v@, *final(pos) as int),
            ),
            None => take_bytes(buf@, *old(pos) as int, n as int) is None && *final(pos) == *old(
                pos,
            ),
        },
{
    if n <= buf.len() - *pos {
        let s = vstd::slice::slice_subrange(buf, *pos, *pos + n);
        let v = vstd::slice::slice_to_vec(s);
        *pos = *pos + n;
        Some(v)
    } else {
        None
    }
}

/// Reads one header record, reporting exactly what the wire specification
/// assigns to this position, with `index` naming the header in any error.
fn read_header(buf: &[u8], pos: &mut usize, index: usize) -> (r: Result<Header, CodecError>)
    requires
        *old(pos) <= buf@.len(),
    ensures
        *final(pos) <= buf@.len(),
        match r {
            Ok(h) => spec_decode_header(buf@, *old(pos) as int, index) == Ok::<_, CodecError>(
                (h@, *final(pos) as int),
            ),
            Err(e) => spec_decode_header(buf@, *old(pos) as int, index) == Err::<
                (HeaderView, int),
                _,
            >(e),
        },
{
    let name_len = match read_u16(buf, pos) {
        Some(v) => v,
        None => {
            return Err(
                CodecError::Truncated {
                    context: FieldContext::Header { index, field: HeaderField::Name },
                },
            );
        },
    };
    let name = match read_bytes(buf, pos, name_len as usize) {
        Some(v) => v,
        None => {
            return Err(
                CodecError::Truncated {
                    context: FieldContext::Header { index, field: HeaderField::Name },
                },
            );
        },
    };
    let flag = match read_u8(buf, pos) {
        Some(v) => v,
        None => {
            return Err(
                CodecError::Truncated {
                    context: FieldContext::Header { index, field: HeaderField::MustUnderstand },
                },
            );
        },
    };
    let data_len = match read_u32(buf, pos) {
        Some(v) => v,
        None => {
            return Err(
                CodecError::Truncated {
                    context: FieldContext::Header { index, field: HeaderField::Data },
                },
            );
        },
    };
    let data = match read_bytes(buf, pos, data_len as usize) {
        Some(v) => v,
        None => {
            return Err(
                CodecError::Truncated {
                    context: FieldContext::Header { index, field: HeaderField::Data },
                },
            );
        },
    };
    if crate::value::decode_value(data.as_slice()).is_none() {
        return Err(
            CodecError::ValueCodecFailure {
                context: FieldContext::Header { index, field: HeaderField::Data },
            },
        );
    }
    Ok(Header { name, must_understand: flag != 0, data })
}

impl Packet {
    /// Parses a packet out of an untrusted byte buffer.
    ///
    /// The result agrees with the wire specification exactly: on success the
    /// packet is precisely what [`spec_decode_packet`] assigns to the bytes
    /// (headers and bodies in wire order, any bytes after the last body
    /// ignored), and on failure the error is precisely the one the
    /// specification assigns — [`CodecError::UnknownVersion`] for a foreign
    /// version word, [`CodecError::Truncated`] whenever the buffer ends
    /// before a field it promises, [`CodecError::ValueCodecFailure`] when
    /// the value codec rejects an embedded byte range, each with its field
    /// context. No input makes this function panic.
    #[verifier::loop_isolation(false)]
    pub fn read_from(buf: &[u8]) -> (r: Result<Packet, CodecError>)
        ensures
            match r {
                Ok(p) => spec_decode_packet(buf@) == Ok::<_, CodecError>(p@),
                Err(e) => spec_decode_packet(buf@) == Err::<PacketView, _>(e),
            },
    {
        let mut pos: usize = 0;
        let code = match read_u16(buf, &mut pos) {
            Some(v) => v,
            None => {
                return Err(CodecError::Truncated { context: FieldContext::Version });
            },
        };
        let version = match Version::parse(code) {
            Some(v) => v,
            None => {
                return Err(CodecError::UnknownVersion { found: code });
            },
        };
        let header_count = match read_u16(buf, &mut pos) {
            Some(v) => v,
            None => {
                return Err(CodecError::Truncated { context: FieldContext::HeaderCount });
            },
        };
        let ghost hstart = pos as int;
        let mut headers: Vec<Header> = Vec::new();
        let mut i: usize = 0;
        proof {
            assert(headers_seq_view(headers@) =~= Seq::<HeaderView>::empty());
        }
        while i < header_count as usize
            invariant
                i <= header_count,
                pos <= buf@.len(),
                headers@.len() == i,
                ({
                    let full = spec_decode_headers(buf@, hstart, 0, header_count as int);
                    match spec_decode_headers(buf@, pos as int, i, header_count - i) {
                        Ok((rest, pend)) => full == Ok::<_, CodecError>(
                            (headers_seq_view(headers@) + rest, pend),
                        ),
                        Err(e) => full == Err::<(Seq<HeaderView>, int), _>(e),
                    }
                }),
            decreases header_count - i,
        {
            let ghost prev_views = headers_seq_view(headers@);
            let ghost pos_before = pos as int;
            let h = match read_header(buf, &mut pos, i) {
                Ok(h) => h,
                Err(e) => {
                    return Err(e);
                },
            };
            headers.push(h);
            proof {
                assert(headers_seq_view(headers@) =~= prev_views.push(h@));
                match spec_decode_headers(buf@, pos as int, (i + 1) as usize, header_count - i
                    - 1) {
                    Ok((rest, pend)) => {
                        assert(prev_views + (seq![h@] + rest) =~= prev_views.push(h@) + rest);
                    },
                    Err(e) => {},
                }
            }
            i = i + 1;
        }
        proof {
            let full = spec_decode_headers(buf@, hstart, 0, header_count as int);
            assert(headers_seq_view(headers@) + Seq::<HeaderView>::empty() =~= headers_seq_view(
                headers@,
            ));
            assert(full == Ok::<_, CodecError>((headers_seq_view(headers@), pos as int)));
        }
        let body_count = match read_u16(buf, &mut pos) {
            Some(v) => v,
            None => {
                return Err(CodecError::Truncated { context: FieldContext::BodyCount });
            },
        };
        let ghost bstart = pos as int;
        let mut bodies: Vec<Body> = Vec::new();
        let mut j: usize = 0;
        proof {
            assert(bodies_seq_view(bodies@) =~= Seq::<BodyView>::empty());
        }
        while j < body_count as usize
            invariant
                j <= body_count,
                pos <= buf@.len(),
                bodies@.len() == j,
                ({
                    let full = spec_decode_bodies(buf@, bstart, 0, body_count as int);
                    match spec_decode_bodies(buf@, pos as int, j, body_count - j) {
                        Ok((rest, pend)) => full == Ok::<_, CodecError>(
                            (bodies_seq_view(bodies@) + rest, pend),
                        ),
                        Err(e) => full == Err::<(Seq<BodyView>, int), _>(e),
                    }
                }),
            decreases body_count - j,
        {
            let ghost prev_views = bodies_seq_view(bodies@);
            let b = match read_body(buf, &mut pos, j) {
                Ok(b) => b,
                Err(e) => {
                    return Err(e);
                },
            };
            bodies.push(b);
            proof {
                assert(bodies_seq_view(bodies@) =~= prev_views.push(b@));
                match spec_decode_bodies(buf@, pos as int, (j + 1) as usize, body_count - j - 1) {
                    Ok((rest, pend)) => {
                        assert(prev_views + (seq![b@] + rest) =~= prev_views.push(b@) + rest);
                    },
                    Err(e) => {},
                }
            }
            j = j + 1;
        }
        proof {
            let full = spec_decode_bodies(buf@, bstart, 0, body_count as int);
            assert(bodies_seq_view(bodies@) + Seq::<BodyView>::empty() =~= bodies_seq_view(
                bodies@,
            ));
            assert(full == Ok::<_, CodecError>((bodies_seq_view(bodies@), pos as int)));
        }
        Ok(Packet { version, headers, bodies })
    }
}

/// Reads one body record, reporting exactly what the wire specification
/// assigns to this position, with `index` naming the body in any error.
fn read_body(buf: &[u8], pos: &mut usize, index: usize) -> (r: Result<Body, CodecError>)
    requires
        *old(pos) <= buf@.len(),
    ensures
        *final(pos) <= buf@.len(),
        match r {
            Ok(b) => spec_decode_body(buf@, *old(pos) as int, index) == Ok::<_, CodecError>(
                (b@, *final(pos) as int),
            ),
            Err(e) => spec_decode_body(buf@, *old(pos) as int, index) == Err::<
                (BodyView, int),
                _,
            >(e),
        },
{
    let target_len = match read_u16(buf, pos) {
        Some(v) => v,
        None => {
            return Err(
                CodecError::Truncated {
                    context: FieldContext::Body { index, field: BodyField::TargetUri },
                },
            );
        },
    };
    let target_uri = match read_bytes(buf, pos, target_len as usize) {
        Some(v) => v,
        None => {
            return Err(
                CodecError::Truncated {
                    context: FieldContext::Body { index, field: BodyField::TargetUri },
                },
            );
        },
    };
    let resp_len = match read_u16(buf, pos) {
        Some(v) => v,
        None => {
            return Err(
                CodecError::Truncated {
                    context: FieldContext::Body { index, field: BodyField::ResponseUri },
                },
            );
        },
    };
    let response_uri = match read_bytes(buf, pos, resp_len as usize) {
        Some(v) => v,
        None => {
            return Err(
                CodecError::Truncated {
                    context: FieldContext::Body { index, field: BodyField::ResponseUri },
                },
            );
        },
    };
    let data_len = match read_u32(buf, pos) {
        Some(v) => v,
        None => {
            return Err(
                CodecError::Truncated {
                    context: FieldContext::Body { index, field: BodyField::Data },
                },
            );
        },
    };
    let data = match read_bytes(buf, pos, data_len as usize) {
        Some(v) => v,
        None => {
            return Err(
                CodecError::Truncated {
                    context: FieldContext::Body { index, field: BodyField::Data },
                },
            );
        },
    };
    if crate::value::decode_value(data.as_slice()).is_none() {
        return Err(
            CodecError::ValueCodecFailure {
                context: FieldContext::Body { index, field: BodyField::Data },
            },
        );
    }
    Ok(Body { target_uri, response_uri, data })
}

/// Reading a `Target` out of a byte source. The one source here is a byte
/// slice, from which a packet reads as [`Packet::read_from`] says.
pub trait ReadAs<Target> {
    fn read_as(&mut self) -> Result<Target, CodecError>;
}

impl ReadAs<Packet> for &[u8] {
    fn read_as(&mut self) -> (r: Result<Packet, CodecError>)
        ensures
            match r {
                Ok(p) => spec_decode_packet(old(self)@) == Ok::<_, CodecError>(p@),
                Err(e) => spec_decode_packet(old(self)@) == Err::<PacketView, _>(e),
            },
    {
        Packet::read_from(self)
    }
}

} // verus!
