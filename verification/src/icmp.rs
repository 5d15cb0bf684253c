//! The ICMP codec: a closed taxonomy of type/code pairs, the 4-byte header
//! variants, and an opaque payload. Only echo requests and replies are valid
//! to serialize; the checksum covers the whole message and is patched in
//! after rendering.

use vstd::prelude::*;
use crate::parse::{be16, be32, Cursor, Error, ErrorKind};
use crate::serialize::{be16_bytes, be32_bytes};
use crate::blob::Blob;
use crate::ipv4::checksum_spec;

verus! {

/// The sub-code taxonomy of a destination-unreachable message; unrecognized
/// codes collapse to `Other`.
#[derive(Clone, Copy, PartialEq, Eq, Structural, Debug)]
pub enum DestinationUnreachable {
    HostUnreachable,
    Other(u8),
}

/// The sub-code taxonomy of a time-exceeded message; unrecognized codes
/// collapse to `Other`.
#[derive(Clone, Copy, PartialEq, Eq, Structural, Debug)]
pub enum TimeExceeded {
    TTLExpired,
    Other(u8),
}

/// The type/code pair collapsed into a closed taxonomy with a catch-all.
#[derive(Clone, Copy, PartialEq, Eq, Structural, Debug)]
pub enum Type {
    EchoReply,
    DestinationUnreachable(DestinationUnreachable),
    EchoRequest,
    TimeExceeded(TimeExceeded),
    Other(u8, u8),
}

/// The identifier and sequence number of an echo message.
#[derive(Clone, Copy, PartialEq, Eq, Structural, Debug)]
pub struct Echo {
    pub identifier: u16,
    pub sequence_number: u16,
}

/// The 4-byte word after the checksum: echo fields for echo messages, a raw
/// 32-bit value for everything else.
#[derive(Clone, Copy, PartialEq, Eq, Structural, Debug)]
pub enum Header {
    EchoRequest(Echo),
    EchoReply(Echo),
    Other(u32),
}

/// A full ICMP message.
#[derive(Clone, Debug)]
pub struct Packet {
    pub typ: Type,
    pub checksum: u16,
    pub header: Header,
    pub payload: Blob,
}

/// The mathematical value of a `Packet`: the same fields with the payload as
/// a byte sequence.
pub struct PacketModel {
    pub typ: Type,
    pub checksum: u16,
    pub header: Header,
    pub payload: Seq<u8>,
}

impl View for Packet {
    type V = PacketModel;

    open spec fn view(&self) -> PacketModel {
        PacketModel {
            typ: self.typ,
            checksum: self.checksum,
            header: self.header,
            payload: self.payload.0@,
        }
    }
}

/// The taxonomy entry for a wire type/code pair.
pub open spec fn spec_type_of(t: u8, code: u8) -> Type {
    if t == 0 {
        Type::EchoReply
    } else if t == 3 {
        Type::DestinationUnreachable(
            if code == 1 {
                DestinationUnreachable::HostUnreachable
            } else {
                DestinationUnreachable::Other(code)
            },
        )
    } else if t == 8 {
        Type::EchoRequest
    } else if t == 11 {
        Type::TimeExceeded(
            if code == 0 {
                TimeExceeded::TTLExpired
            } else {
                TimeExceeded::Other(code)
            },
        )
    } else {
        Type::Other(t, code)
    }
}

impl Type {
    /// The taxonomy entry for a wire type/code pair. Every pair maps
    /// somewhere: unrecognized types go to `Other`, unrecognized sub-codes
    /// to the sub-taxonomy's `Other`.
    pub fn from_codes(t: u8, code: u8) -> (r: Type)
        ensures
            r == spec_type_of(t, code),
    {
        match t {
            0 => Type::EchoReply,
            3 => Type::DestinationUnreachable(
                match code {
                    1 => DestinationUnreachable::HostUnreachable,
                    c => DestinationUnreachable::Other(c),
                },
            ),
            8 => Type::EchoRequest,
            11 => Type::TimeExceeded(
                match code {
                    0 => TimeExceeded::TTLExpired,
                    c => TimeExceeded::Other(c),
                },
            ),
            _ => Type::Other(t, code),
        }
    }
}

impl Echo {
    /// Read identifier and sequence number.
    pub fn parse<'a>(c: Cursor<'a>) -> (r: Result<(Cursor<'a>, Echo), Error>)
        requires
            c.wf(),
        ensures
            match r {
                Ok((c2, e)) => {
                    &&& c.remaining() >= 4
                    &&& c2.buf == c.buf
                    &&& c2.pos == c.pos + 4
                    &&& c2.wf()
                    &&& e.identifier == be16(c.buf@[c.pos as int], c.buf@[c.pos + 1])
                    &&& e.sequence_number == be16(c.buf@[c.pos + 2], c.buf@[c.pos + 3])
                },
                Err(e) => {
                    &&& c.remaining() < 4
                    &&& e.wf()
                    &&& e.innermost() == ErrorKind::Decode
                },
            },
    {
        let (c, identifier) = c.be_u16()?;
        let (c, sequence_number) = c.be_u16()?;
        Ok((c, Echo { identifier, sequence_number }))
    }

    /// Append identifier and sequence number, big-endian.
    pub fn serialize(&self, out: &mut Vec<u8>)
        ensures
            final(out)@ =~= old(out)@ + echo_bytes(*self),
    {
        crate::serialize::be_u16(out, self.identifier);
        crate::serialize::be_u16(out, self.sequence_number);
    }
}

/// The four bytes of an echo header.
pub open spec fn echo_bytes(e: Echo) -> Seq<u8> {
    be16_bytes(e.identifier) + be16_bytes(e.sequence_number)
}

/// The wire type and code bytes of a header; defined for the echo variants,
/// the only ones valid to serialize.
pub open spec fn type_code_bytes(h: Header) -> Seq<u8> {
    match h {
        Header::EchoRequest(_) => seq![8u8, 0u8],
        Header::EchoReply(_) => seq![0u8, 0u8],
        Header::Other(_) => seq![],
    }
}

/// The four bytes after the checksum field.
pub open spec fn header_bytes(h: Header) -> Seq<u8> {
    match h {
        Header::EchoRequest(e) => echo_bytes(e),
        Header::EchoReply(e) => echo_bytes(e),
        Header::Other(x) => be32_bytes(x),
    }
}

impl Header {
    /// Append the wire type and code for this header. Serializing anything
    /// but an echo request or reply is a contract violation.
    pub fn serialize_type_and_code(&self, out: &mut Vec<u8>)
        requires
            self is EchoRequest || self is EchoReply,
        ensures
            final(out)@ =~= old(out)@ + type_code_bytes(*self),
    {
        match self {
            Header::EchoRequest(_) => {
                crate::serialize::be_u8(out, 8);
                crate::serialize::be_u8(out, 0);
            },
            Header::EchoReply(_) => {
                crate::serialize::be_u8(out, 0);
                crate::serialize::be_u8(out, 0);
            },
            Header::Other(_) => {
                proof {
                    assert(false);
                }
            },
        }
    }

    /// Append the 4-byte word after the checksum.
    pub fn serialize(&self, out: &mut Vec<u8>)
        ensures
            final(out)@ =~= old(out)@ + header_bytes(*self),
    {
        match self {
            Header::EchoRequest(e) => e.serialize(out),
            Header::EchoReply(e) => e.serialize(out),
            Header::Other(x) => crate::serialize::be_u32(out, *x),
        }
    }
}

/// The rendered message with the checksum field still zero.
pub open spec fn wire_no_checksum(m: PacketModel) -> Seq<u8> {
    type_code_bytes(m.header) + seq![0u8, 0u8] + header_bytes(m.header) + m.payload
}

/// The checksum the serializer computes: over the whole message with the
/// checksum field zeroed.
pub open spec fn checksum_value(m: PacketModel) -> u16 {
    checksum_spec(wire_no_checksum(m))
}

/// The rendered message: the zero placeholder at offset 2 patched with the
/// computed checksum, big-endian.
pub open spec fn wire(m: PacketModel) -> Seq<u8> {
    wire_no_checksum(m).update(2, be16_bytes(checksum_value(m))[0]).update(
        3,
        be16_bytes(checksum_value(m))[1],
    )
}

/// Whether a header is one of the echo variants, the only ones this codec
/// serializes.
pub open spec fn serializable(m: PacketModel) -> bool {
    m.header is EchoRequest || m.header is EchoReply
}

/// What parsing yields on a byte sequence: the message and the count of
/// header bytes consumed, or nothing when fewer than 8 bytes remain. The
/// payload is everything after the 8 header bytes; the cursor itself stops
/// after the header, as the payload extends to the end of the input.
pub open spec fn spec_parse(b: Seq<u8>) -> Option<(PacketModel, int)> {
    if b.len() < 8 {
        None
    } else {
        let t = b[0];
        let code = b[1];
        let header = if t == 8 {
            Header::EchoRequest(
                Echo { identifier: be16(b[4], b[5]), sequence_number: be16(b[6], b[7]) },
            )
        } else if t == 0 {
            Header::EchoReply(
                Echo { identifier: be16(b[4], b[5]), sequence_number: be16(b[6], b[7]) },
            )
        } else {
            Header::Other(be32(b[4], b[5], b[6], b[7]))
        };
        Some(
            (
                PacketModel {
                    typ: spec_type_of(t, code),
                    checksum: be16(b[2], b[3]),
                    header,
                    payload: b.skip(8),
                },
                8,
            ),
        )
    }
}

impl Packet {
    /// An echo-request message with a zero checksum field; the serializer
    /// computes the real checksum.
    pub fn echo_request(echo: Echo, payload: &[u8]) -> (p: Packet)
        ensures
            p.typ == Type::EchoRequest,
            p.checksum == 0,
            p.header == Header::EchoRequest(echo),
            p@.payload == payload@,
    {
        Packet {
            typ: Type::EchoRequest,
            checksum: 0,
            header: Header::EchoRequest(echo),
            payload: Blob::new(payload),
        }
    }

    /// Decode a message: type, code, checksum, the 4-byte header keyed by
    /// the type, and the rest of the input as opaque payload. The returned
    /// cursor stops after the 8 header bytes.
    pub fn parse<'a>(c: Cursor<'a>) -> (r: Result<(Cursor<'a>, Packet), Error>)
        requires
            c.wf(),
        ensures
            match r {
                Ok((c2, p)) => {
                    &&& spec_parse(c.rest()) == Some((p@, c2.pos - c.pos))
                    &&& c2.buf == c.buf
                    &&& c2.pos == c.pos + 8
                    &&& c2.wf()
                },
                Err(e) => {
                    &&& spec_parse(c.rest()) is None
                    &&& c.remaining() < 8
                    &&& e.wf()
                    &&& e.innermost() == ErrorKind::Decode
                },
            },
    {
        let ghost b = c.rest();
        let (c1, t) = c.be_u8()?;
        let (c1, code) = c1.be_u8()?;
        let typ = Type::from_codes(t, code);
        let (c1, checksum) = c1.be_u16()?;
        let (c1, header) = match t {
            8 => {
                let (c1, e) = Echo::parse(c1)?;
                (c1, Header::EchoRequest(e))
            },
            0 => {
                let (c1, e) = Echo::parse(c1)?;
                (c1, Header::EchoReply(e))
            },
            _ => {
                let (c1, x) = c1.be_u32()?;
                (c1, Header::Other(x))
            },
        };
        let payload = Blob::new(c1.rest_slice());
        let p = Packet { typ, checksum, header, payload };
        proof {
            assert(b[0] == c.buf@[c.pos as int]);
            assert(b[1] == c.buf@[c.pos + 1]);
            assert(b[2] == c.buf@[c.pos + 2]);
            assert(b[3] == c.buf@[c.pos + 3]);
            assert(b[4] == c.buf@[c.pos + 4]);
            assert(b[5] == c.buf@[c.pos + 5]);
            assert(b[6] == c.buf@[c.pos + 6]);
            assert(b[7] == c.buf@[c.pos + 7]);
            assert(p@.payload =~= b.skip(8));
        }
        Ok((c1, p))
    }

    /// Render the message: the body with a zero checksum placeholder, then
    /// the checksum of those bytes patched in at its offset.
    pub fn serialize(&self, out: &mut Vec<u8>)
        requires
            serializable(self@),
        ensures
            final(out)@ =~= old(out)@ + wire(self@),
    {
        let start = out.len();
        self.serialize_no_checksum(out);
        let end = out.len();
        let body = vstd::slice::slice_subrange(out.as_slice(), start, end);
        proof {
            assert(body@ =~= wire_no_checksum(self@));
        }
        let ck = crate::ipv4::checksum(body);
        crate::serialize::patch_be_u16(out, start + 2, ck);
        proof {
            assert(final(out)@ =~= old(out)@ + wire(self@));
        }
    }

    /// Render the message with the checksum field as a zero placeholder.
    pub fn serialize_no_checksum(&self, out: &mut Vec<u8>)
        requires
            serializable(self@),
        ensures
            final(out)@ =~= old(out)@ + wire_no_checksum(self@),
    {
        self.header.serialize_type_and_code(out);
        crate::serialize::be_u8(out, 0);
        crate::serialize::be_u8(out, 0);
        self.header.serialize(out);
        self.payload.serialize(out);
        proof {
            assert(final(out)@ =~= old(out)@ + wire_no_checksum(self@));
        }
    }
}

/// The checksum a parser reads back from a rendered echo message is the one
/// the serializer computed, and checksumming the rendered message again
/// yields zero.
pub proof fn lemma_wire_checksum_self_verifies(m: PacketModel)
    requires
        serializable(m),
    ensures
        checksum_spec(wire(m)) == 0,
{
    let z = wire_no_checksum(m);
    assert(z[2] == 0 && z[3] == 0);
    crate::ipv4::lemma_checksum_self_verifies(z, 2);
    assert(wire(m) =~= z.update(2, ((checksum_spec(z) >> 8u16) & 0xff) as u8).update(
        3,
        (checksum_spec(z) & 0xff) as u8,
    ));
}

/// A message whose redundant fields already agree with what serialization
/// emits: the taxonomy matches the header variant and the checksum field
/// holds the computed checksum.
pub open spec fn canonical(m: PacketModel) -> bool {
    &&& serializable(m)
    &&& m.typ == (if m.header is EchoRequest {
        Type::EchoRequest
    } else {
        Type::EchoReply
    })
    &&& m.checksum == checksum_value(m)
}

/// Serializing a canonical message and parsing the rendering reproduces
/// every field.
pub proof fn lemma_round_trip_canonical(m: PacketModel)
    requires
        canonical(m),
    ensures
        spec_parse(wire(m)) == Some((m, 8int)),
{
    lemma_round_trip(m);
}

/// Parsing a rendered echo message gives back the message: the same header,
/// the computed checksum in the checksum field, and the same payload.
pub proof fn lemma_round_trip(m: PacketModel)
    requires
        serializable(m),
    ensures
        spec_parse(wire(m)) == Some(
            (
                PacketModel {
                    typ: if m.header is EchoRequest {
                        Type::EchoRequest
                    } else {
                        Type::EchoReply
                    },
                    checksum: checksum_value(m),
                    header: m.header,
                    payload: m.payload,
                },
                8int,
            ),
        ),
{
    let w = wire(m);
    let c = checksum_value(m);
    assert(w.len() == 8 + m.payload.len());
    let t: u8 = if m.header is EchoRequest { 8 } else { 0 };
    assert(w[0] == t && w[1] == 0);
    assert(w[2] == be16_bytes(c)[0] && w[3] == be16_bytes(c)[1]);
    assert(be16(w[2], w[3]) == c) by {
        crate::serialize::lemma_be16_bytes(c);
    }
    match m.header {
        Header::EchoRequest(e) => {
            assert(w[4] == be16_bytes(e.identifier)[0] && w[5] == be16_bytes(e.identifier)[1]);
            assert(w[6] == be16_bytes(e.sequence_number)[0] && w[7] == be16_bytes(
                e.sequence_number,
            )[1]);
            crate::serialize::lemma_be16_bytes(e.identifier);
            crate::serialize::lemma_be16_bytes(e.sequence_number);
        },
        Header::EchoReply(e) => {
            assert(w[4] == be16_bytes(e.identifier)[0] && w[5] == be16_bytes(e.identifier)[1]);
            assert(w[6] == be16_bytes(e.sequence_number)[0] && w[7] == be16_bytes(
                e.sequence_number,
            )[1]);
            crate::serialize::lemma_be16_bytes(e.identifier);
            crate::serialize::lemma_be16_bytes(e.sequence_number);
        },
        Header::Other(_) => {},
    }
    assert(w.skip(8) =~= m.payload);
}

} // verus!
