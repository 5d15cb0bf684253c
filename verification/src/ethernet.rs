//! The Ethernet II codec: destination and source MAC addresses, a 16-bit
//! EtherType tag, and a payload keyed by the tag. An unrecognized tag
//! degrades to an unknown payload and no further bytes are interpreted.

use vstd::prelude::*;
use crate::parse::{be16, Cursor, Error, ErrorKind, Label, SpecOutcome};
use crate::serialize::be16_bytes;
use crate::{arp, ipv4};

verus! {

/// A MAC address: six octets.
#[derive(Copy, Clone, PartialEq, Eq, Hash, Debug)]
pub struct Addr(pub [u8; 6]);

impl View for Addr {
    type V = Seq<u8>;

    open spec fn view(&self) -> Seq<u8> {
        self.0@
    }
}

impl Addr {
    pub fn zero() -> (a: Addr)
        ensures
            a@ =~= seq![0u8, 0u8, 0u8, 0u8, 0u8, 0u8],
    {
        Addr([0, 0, 0, 0, 0, 0])
    }

    pub fn broadcast() -> (a: Addr)
        ensures
            a@ =~= seq![0xFFu8, 0xFFu8, 0xFFu8, 0xFFu8, 0xFFu8, 0xFFu8],
    {
        Addr([0xFF, 0xFF, 0xFF, 0xFF, 0xFF, 0xFF])
    }

    /// Read six octets.
    pub fn parse<'a>(c: Cursor<'a>) -> (r: Result<(Cursor<'a>, Addr), Error>)
        requires
            c.wf(),
        ensures
            match r {
                Ok((c2, a)) => {
                    &&& c.remaining() >= 6
                    &&& c2.buf == c.buf
                    &&& c2.pos == c.pos + 6
                    &&& c2.wf()
                    &&& a@ == c.buf@.subrange(c.pos as int, c.pos + 6)
                },
                Err(e) => {
                    &&& c.remaining() < 6
                    &&& e.errors@ =~= seq![
                        (c.pos, ErrorKind::Decode),
                        (c.pos, ErrorKind::Context(Label::MacAddress)),
                    ]
                },
            },
    {
        match c.take(6) {
            Ok((c2, s)) => {
                let a = Addr([s[0], s[1], s[2], s[3], s[4], s[5]]);
                proof {
                    assert(a@ =~= c.buf@.subrange(c.pos as int, c.pos + 6));
                }
                Ok((c2, a))
            },
            Err(e) => Err(e.with_context(c.pos, Label::MacAddress)),
        }
    }

    /// Append the six octets.
    pub fn serialize(&self, out: &mut Vec<u8>)
        ensures
            final(out)@ =~= old(out)@ + self@,
    {
        crate::serialize::be_u8(out, self.0[0]);
        crate::serialize::be_u8(out, self.0[1]);
        crate::serialize::be_u8(out, self.0[2]);
        crate::serialize::be_u8(out, self.0[3]);
        crate::serialize::be_u8(out, self.0[4]);
        crate::serialize::be_u8(out, self.0[5]);
    }
}

/// The closed set of frame tags this codec recognizes; anything else
/// degrades to an unknown payload on decode.
#[derive(Debug, Copy, Clone, PartialEq, Eq, Structural)]
pub enum EtherType {
    IPv4,
    ARP,
}

/// The wire code of a recognized tag.
pub open spec fn ether_type_code(t: EtherType) -> u16 {
    match t {
        EtherType::IPv4 => 0x0800,
        EtherType::ARP => 0x0806,
    }
}

/// The tag a wire code maps onto, if recognized.
pub open spec fn spec_ether_type_of(x: u16) -> Option<EtherType> {
    if x == 0x0800 {
        Some(EtherType::IPv4)
    } else if x == 0x0806 {
        Some(EtherType::ARP)
    } else {
        None
    }
}

impl EtherType {
    /// Read the tag word; an unrecognized value is no match, not an error.
    pub fn parse<'a>(c: Cursor<'a>) -> (r: Result<(Cursor<'a>, Option<EtherType>), Error>)
        requires
            c.wf(),
        ensures
            match r {
                Ok((c2, t)) => {
                    &&& c.remaining() >= 2
                    &&& c2.buf == c.buf
                    &&& c2.pos == c.pos + 2
                    &&& c2.wf()
                    &&& t == spec_ether_type_of(be16(c.buf@[c.pos as int], c.buf@[c.pos + 1]))
                },
                Err(e) => {
                    &&& c.remaining() < 2
                    &&& e.errors@ =~= seq![
                        (c.pos, ErrorKind::Decode),
                        (c.pos, ErrorKind::Context(Label::EtherType)),
                    ]
                },
            },
    {
        match c.be_u16() {
            Ok((c2, x)) => {
                let t = match x {
                    0x0800 => Some(EtherType::IPv4),
                    0x0806 => Some(EtherType::ARP),
                    _ => None,
                };
                Ok((c2, t))
            },
            Err(e) => Err(e.with_context(c.pos, Label::EtherType)),
        }
    }

    /// Append the tag word, big-endian.
    pub fn serialize(&self, out: &mut Vec<u8>)
        ensures
            final(out)@ =~= old(out)@ + be16_bytes(ether_type_code(*self)),
    {
        match self {
            EtherType::IPv4 => crate::serialize::be_u16(out, 0x0800),
            EtherType::ARP => crate::serialize::be_u16(out, 0x0806),
        }
    }
}

/// The payload behind a frame header, keyed by the tag.
#[derive(Debug)]
pub enum Payload {
    IPv4(ipv4::Packet),
    ARP(arp::Packet),
    Unknown,
}

/// The mathematical value of a `Payload`.
pub enum PayloadModel {
    IPv4(ipv4::PacketModel),
    ARP(arp::PacketModel),
    Unknown,
}

impl View for Payload {
    type V = PayloadModel;

    open spec fn view(&self) -> PayloadModel {
        match self {
            Payload::IPv4(p) => PayloadModel::IPv4(p@),
            Payload::ARP(p) => PayloadModel::ARP(p@),
            Payload::Unknown => PayloadModel::Unknown,
        }
    }
}

/// Whether a payload is one this codec can serialize: an ARP packet, or an
/// IPv4 packet the IPv4 codec can serialize.
pub open spec fn payload_serializable(m: PayloadModel) -> bool {
    match m {
        PayloadModel::IPv4(p) => ipv4::serializable(p),
        PayloadModel::ARP(_) => true,
        PayloadModel::Unknown => false,
    }
}

/// The rendered payload: the tag word for the payload's protocol, then the
/// payload's own rendering.
pub open spec fn payload_bytes(m: PayloadModel) -> Seq<u8> {
    match m {
        PayloadModel::IPv4(p) => be16_bytes(0x0800) + ipv4::wire(p),
        PayloadModel::ARP(p) => be16_bytes(0x0806) + arp::wire(p),
        PayloadModel::Unknown => seq![],
    }
}

impl Payload {
    /// Append the tag word and the rendered payload. An unknown payload
    /// cannot be serialized.
    pub fn serialize(&self, out: &mut Vec<u8>)
        requires
            payload_serializable(self@),
        ensures
            final(out)@ =~= old(out)@ + payload_bytes(self@),
    {
        match self {
            Payload::ARP(p) => {
                EtherType::ARP.serialize(out);
                p.serialize(out);
            },
            Payload::IPv4(p) => {
                EtherType::IPv4.serialize(out);
                p.serialize(out);
            },
            Payload::Unknown => vstd::pervasive::unreached(),
        }
    }
}

/// An Ethernet II frame.
#[derive(Debug)]
pub struct Frame {
    pub dst: Addr,
    pub src: Addr,
    pub ether_type: Option<EtherType>,
    pub payload: Payload,
}

/// The mathematical value of a `Frame`.
pub struct FrameModel {
    pub dst: Seq<u8>,
    pub src: Seq<u8>,
    pub ether_type: Option<EtherType>,
    pub payload: PayloadModel,
}

impl View for Frame {
    type V = FrameModel;

    open spec fn view(&self) -> FrameModel {
        FrameModel { dst: self.dst@, src: self.src@, ether_type: self.ether_type, payload: self.payload@ }
    }
}

/// What parsing yields: the two addresses, the tag, and a payload parsed
/// according to the tag. An unrecognized tag yields an unknown payload and
/// leaves the remaining bytes uninterpreted.
pub open spec fn spec_parse(b: Seq<u8>) -> SpecOutcome<FrameModel> {
    if b.len() < 14 {
        SpecOutcome::Short
    } else {
        let et = be16(b[12], b[13]);
        if et == 0x0800 {
            match ipv4::spec_parse(b.skip(14)) {
                SpecOutcome::Done { value, used } => SpecOutcome::Done {
                    value: frame_model(b, Some(EtherType::IPv4), PayloadModel::IPv4(value)),
                    used: 14 + used,
                },
                SpecOutcome::Short => SpecOutcome::Short,
                SpecOutcome::Rejected(v) => SpecOutcome::Rejected(v),
            }
        } else if et == 0x0806 {
            match arp::spec_parse(b.skip(14)) {
                SpecOutcome::Done { value, used } => SpecOutcome::Done {
                    value: frame_model(b, Some(EtherType::ARP), PayloadModel::ARP(value)),
                    used: 14 + used,
                },
                SpecOutcome::Short => SpecOutcome::Short,
                SpecOutcome::Rejected(v) => SpecOutcome::Rejected(v),
            }
        } else {
            SpecOutcome::Done { value: frame_model(b, None, PayloadModel::Unknown), used: 14 }
        }
    }
}

/// The frame built from the header bytes and the given payload.
pub open spec fn frame_model(b: Seq<u8>, et: Option<EtherType>, payload: PayloadModel) -> FrameModel
    recommends
        b.len() >= 14,
{
    FrameModel { dst: b.subrange(0, 6), src: b.subrange(6, 12), ether_type: et, payload }
}

/// The rendered frame: both addresses, then the tag and payload. The
/// `ether_type` field is not consulted; the tag comes from the payload
/// variant.
pub open spec fn wire(m: FrameModel) -> Seq<u8> {
    m.dst + m.src + payload_bytes(m.payload)
}

impl Frame {
    /// Decode a frame; failures below carry the frame context outward.
    pub fn parse<'a>(c: Cursor<'a>) -> (r: Result<(Cursor<'a>, Frame), Error>)
        requires
            c.wf(),
        ensures
            match r {
                Ok((c2, f)) => {
                    &&& spec_parse(c.rest()) == (SpecOutcome::Done {
                        value: f@,
                        used: c2.pos - c.pos,
                    })
                    &&& c2.buf == c.buf
                    &&& c.pos <= c2.pos
                    &&& c2.wf()
                },
                Err(e) => {
                    &&& e.wf()
                    &&& e.errors@.last() == (c.pos, ErrorKind::Context(Label::EthernetFrame))
                    &&& match spec_parse(c.rest()) {
                        SpecOutcome::Short => {
                            &&& e.innermost() == ErrorKind::Decode
                            &&& c.remaining() < 6 ==> e.errors@ =~= seq![
                                (c.pos, ErrorKind::Decode),
                                (c.pos, ErrorKind::Context(Label::MacAddress)),
                                (c.pos, ErrorKind::Context(Label::EthernetFrame)),
                            ]
                            &&& 6 <= c.remaining() < 12 ==> e.errors@ =~= seq![
                                (((c.pos + 6) as usize), ErrorKind::Decode),
                                (((c.pos + 6) as usize), ErrorKind::Context(Label::MacAddress)),
                                (c.pos, ErrorKind::Context(Label::EthernetFrame)),
                            ]
                            &&& 12 <= c.remaining() < 14 ==> e.errors@ =~= seq![
                                (((c.pos + 12) as usize), ErrorKind::Decode),
                                (((c.pos + 12) as usize), ErrorKind::Context(Label::EtherType)),
                                (c.pos, ErrorKind::Context(Label::EthernetFrame)),
                            ]
                        },
                        SpecOutcome::Rejected(v) => e.errors@ =~= seq![
                            (((c.pos + 14) as usize), ErrorKind::Unsupported(v)),
                            (c.pos, ErrorKind::Context(Label::EthernetFrame)),
                        ],
                        SpecOutcome::Done { .. } => false,
                    }
                },
            },
    {
        match Self::parse_body(c) {
            Ok(x) => Ok(x),
            Err(e) => Err(e.with_context(c.pos, Label::EthernetFrame)),
        }
    }

    /// The frame grammar without the enclosing context label.
    fn parse_body<'a>(c: Cursor<'a>) -> (r: Result<(Cursor<'a>, Frame), Error>)
        requires
            c.wf(),
        ensures
            match r {
                Ok((c2, f)) => {
                    &&& spec_parse(c.rest()) == (SpecOutcome::Done {
                        value: f@,
                        used: c2.pos - c.pos,
                    })
                    &&& c2.buf == c.buf
                    &&& c.pos <= c2.pos
                    &&& c2.wf()
                },
                Err(e) => {
                    &&& e.wf()
                    &&& match spec_parse(c.rest()) {
                        SpecOutcome::Short => {
                            &&& e.innermost() == ErrorKind::Decode
                            &&& c.remaining() < 6 ==> e.errors@ =~= seq![
                                (c.pos, ErrorKind::Decode),
                                (c.pos, ErrorKind::Context(Label::MacAddress)),
                            ]
                            &&& 6 <= c.remaining() < 12 ==> e.errors@ =~= seq![
                                (((c.pos + 6) as usize), ErrorKind::Decode),
                                (((c.pos + 6) as usize), ErrorKind::Context(Label::MacAddress)),
                            ]
                            &&& 12 <= c.remaining() < 14 ==> e.errors@ =~= seq![
                                (((c.pos + 12) as usize), ErrorKind::Decode),
                                (((c.pos + 12) as usize), ErrorKind::Context(Label::EtherType)),
                            ]
                        },
                        SpecOutcome::Rejected(v) => e.errors@ =~= seq![
                            (((c.pos + 14) as usize), ErrorKind::Unsupported(v)),
                        ],
                        SpecOutcome::Done { .. } => false,
                    }
                },
            },
    {
        let ghost b = c.rest();
        let (c1, dst) = Addr::parse(c)?;
        let (c1, src) = Addr::parse(c1)?;
        let (c1, ether_type) = EtherType::parse(c1)?;
        proof {
            assert(b[12] == c.buf@[c.pos + 12] && b[13] == c.buf@[c.pos + 13]);
            assert(dst@ =~= b.subrange(0, 6));
            assert(src@ =~= b.subrange(6, 12));
        }
        let (c1, payload) = match ether_type {
            Some(EtherType::IPv4) => {
                proof {
                    assert(c1.rest() =~= b.skip(14));
                }
                let (c1, p) = ipv4::Packet::parse(c1)?;
                (c1, Payload::IPv4(p))
            },
            Some(EtherType::ARP) => {
                proof {
                    assert(c1.rest() =~= b.skip(14));
                }
                let (c1, p) = arp::Packet::parse(c1)?;
                (c1, Payload::ARP(p))
            },
            None => (c1, Payload::Unknown),
        };
        let f = Frame { dst, src, ether_type, payload };
        Ok((c1, f))
    }

    /// Render the frame: both addresses, then the tag and payload.
    pub fn serialize(&self, out: &mut Vec<u8>)
        requires
            payload_serializable(self@.payload),
        ensures
            final(out)@ =~= old(out)@ + wire(self@),
    {
        self.dst.serialize(out);
        self.src.serialize(out);
        self.payload.serialize(out);
        proof {
            assert(final(out)@ =~= old(out)@ + wire(self@));
        }
    }
}

/// A frame this codec can serialize whose tag field already agrees with
/// its payload variant, with well-formed addresses and a canonical
/// payload.
pub open spec fn canonical(m: FrameModel) -> bool {
    &&& m.dst.len() == 6 && m.src.len() == 6
    &&& match m.payload {
        PayloadModel::IPv4(p) => m.ether_type == Some(EtherType::IPv4) && ipv4::canonical(p),
        PayloadModel::ARP(a) => {
            &&& m.ether_type == Some(EtherType::ARP)
            &&& a.sender_hw_addr.len() == 6 && a.sender_ip_addr.len() == 4
            &&& a.target_hw_addr.len() == 6 && a.target_ip_addr.len() == 4
        },
        PayloadModel::Unknown => false,
    }
}

/// Serializing a canonical frame and parsing the rendering reproduces
/// every field, the carried packet included.
pub proof fn lemma_round_trip(m: FrameModel)
    requires
        canonical(m),
    ensures
        spec_parse(wire(m)) is Done,
        spec_parse(wire(m))->value == m,
{
    let w = wire(m);
    assert(w.subrange(0, 6) =~= m.dst);
    assert(w.subrange(6, 12) =~= m.src);
    match m.payload {
        PayloadModel::IPv4(p) => {
            crate::serialize::lemma_be16_bytes(0x0800);
            assert(w[12] == be16_bytes(0x0800)[0] && w[13] == be16_bytes(0x0800)[1]);
            assert(be16(w[12], w[13]) == 0x0800);
            assert(w.skip(14) =~= ipv4::wire(p));
            ipv4::lemma_round_trip(p);
            assert(frame_model(w, Some(EtherType::IPv4), PayloadModel::IPv4(p)) == m);
        },
        PayloadModel::ARP(a) => {
            crate::serialize::lemma_be16_bytes(0x0806);
            assert(w[12] == be16_bytes(0x0806)[0] && w[13] == be16_bytes(0x0806)[1]);
            assert(be16(w[12], w[13]) == 0x0806);
            assert(0x0806int != 0x0800int);
            assert(w.skip(14) =~= arp::wire(a));
            arp::lemma_round_trip(a);
            assert(frame_model(w, Some(EtherType::ARP), PayloadModel::ARP(a)) == m);
        },
        PayloadModel::Unknown => {},
    }
}

/// A frame with an unrecognized tag parses to an unknown payload: the two
/// addresses are read, the tag is kept as no-match, and no further bytes
/// are interpreted.
pub proof fn lemma_unknown_tag(b: Seq<u8>)
    requires
        b.len() >= 14,
        spec_ether_type_of(be16(b[12], b[13])) is None,
    ensures
        spec_parse(b) == (SpecOutcome::Done {
            value: FrameModel {
                dst: b.subrange(0, 6),
                src: b.subrange(6, 12),
                ether_type: None::<EtherType>,
                payload: PayloadModel::Unknown,
            },
            used: 14int,
        }),
{
}

} // verus!
