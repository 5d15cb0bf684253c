//! The ARP codec, restricted to Ethernet/IPv4. The hardware type, protocol
//! type and length fields are validated on decode but not retained: on
//! re-encode they are always emitted as the fixed constants.

use vstd::prelude::*;
use crate::parse::{be16, Cursor, Error, ErrorKind, Label, SpecOutcome, UnsupportedValue};
use crate::serialize::be16_bytes;
use crate::{ethernet, ipv4, netinfo};

verus! {

/// The closed set of operations: a request or a reply, nothing else.
#[derive(Debug, Clone, Copy, PartialEq, Eq, Structural)]
pub enum Operation {
    Request,
    Reply,
}

/// The wire code of an operation.
pub open spec fn operation_code(o: Operation) -> u16 {
    match o {
        Operation::Request => 1,
        Operation::Reply => 2,
    }
}

/// The operation a wire code maps onto, if any.
pub open spec fn spec_operation_of(x: u16) -> Option<Operation> {
    if x == 1 {
        Some(Operation::Request)
    } else if x == 2 {
        Some(Operation::Reply)
    } else {
        None
    }
}

/// The closed set of hardware types: Ethernet alone.
#[derive(Debug, Clone, Copy, PartialEq, Eq, Structural)]
pub enum HardwareType {
    Ethernet,
}

/// The hardware type a wire code maps onto, if any.
pub open spec fn spec_hardware_of(x: u16) -> Option<HardwareType> {
    if x == 1 {
        Some(HardwareType::Ethernet)
    } else {
        None
    }
}

impl Operation {
    /// Read the operation word; an unrecognized value is no match, not an
    /// error.
    pub fn parse<'a>(c: Cursor<'a>) -> (r: Result<(Cursor<'a>, Option<Operation>), Error>)
        requires
            c.wf(),
        ensures
            match r {
                Ok((c2, o)) => {
                    &&& c.remaining() >= 2
                    &&& c2.buf == c.buf
                    &&& c2.pos == c.pos + 2
                    &&& c2.wf()
                    &&& o == spec_operation_of(be16(c.buf@[c.pos as int], c.buf@[c.pos + 1]))
                },
                Err(e) => {
                    &&& c.remaining() < 2
                    &&& e.errors@ =~= seq![
                        (c.pos, ErrorKind::Decode),
                        (c.pos, ErrorKind::Context(Label::ArpOperation)),
                    ]
                },
            },
    {
        match c.be_u16() {
            Ok((c2, x)) => {
                let o = match x {
                    1 => Some(Operation::Request),
                    2 => Some(Operation::Reply),
                    _ => None,
                };
                Ok((c2, o))
            },
            Err(e) => Err(e.with_context(c.pos, Label::ArpOperation)),
        }
    }

    /// Append the operation word, big-endian.
    pub fn serialize(&self, out: &mut Vec<u8>)
        ensures
            final(out)@ =~= old(out)@ + be16_bytes(operation_code(*self)),
    {
        match self {
            Operation::Request => crate::serialize::be_u16(out, 1),
            Operation::Reply => crate::serialize::be_u16(out, 2),
        }
    }
}

impl HardwareType {
    /// Read the hardware type word; an unrecognized value is no match, not
    /// an error.
    pub fn parse<'a>(c: Cursor<'a>) -> (r: Result<(Cursor<'a>, Option<HardwareType>), Error>)
        requires
            c.wf(),
        ensures
            match r {
                Ok((c2, h)) => {
                    &&& c.remaining() >= 2
                    &&& c2.buf == c.buf
                    &&& c2.pos == c.pos + 2
                    &&& c2.wf()
                    &&& h == spec_hardware_of(be16(c.buf@[c.pos as int], c.buf@[c.pos + 1]))
                },
                Err(e) => {
                    &&& c.remaining() < 2
                    &&& e.errors@ =~= seq![
                        (c.pos, ErrorKind::Decode),
                        (c.pos, ErrorKind::Context(Label::ArpHardwareType)),
                    ]
                },
            },
    {
        match c.be_u16() {
            Ok((c2, x)) => {
                let h = if x == 1 {
                    Some(HardwareType::Ethernet)
                } else {
                    None
                };
                Ok((c2, h))
            },
            Err(e) => Err(e.with_context(c.pos, Label::ArpHardwareType)),
        }
    }

    /// Append the hardware type word, big-endian.
    pub fn serialize(&self, out: &mut Vec<u8>)
        ensures
            final(out)@ =~= old(out)@ + seq![0u8, 1u8],
    {
        crate::serialize::be_u8(out, 0);
        crate::serialize::be_u8(out, 1);
    }
}

/// An ARP packet: the operation and the two address pairs. The hardware
/// and protocol types and lengths are implied constants.
#[derive(Debug, Clone)]
pub struct Packet {
    pub operation: Operation,
    pub sender_hw_addr: ethernet::Addr,
    pub sender_ip_addr: ipv4::Addr,
    pub target_hw_addr: ethernet::Addr,
    pub target_ip_addr: ipv4::Addr,
}

/// The mathematical value of a `Packet`: the addresses as byte sequences.
pub struct PacketModel {
    pub operation: Operation,
    pub sender_hw_addr: Seq<u8>,
    pub sender_ip_addr: Seq<u8>,
    pub target_hw_addr: Seq<u8>,
    pub target_ip_addr: Seq<u8>,
}

impl View for Packet {
    type V = PacketModel;

    open spec fn view(&self) -> PacketModel {
        PacketModel {
            operation: self.operation,
            sender_hw_addr: self.sender_hw_addr@,
            sender_ip_addr: self.sender_ip_addr@,
            target_hw_addr: self.target_hw_addr@,
            target_ip_addr: self.target_ip_addr@,
        }
    }
}

/// What parsing yields. The hardware type, protocol type and operation are
/// hard failures outside their taxonomies; the length fields are read but
/// unchecked.
pub open spec fn spec_parse(b: Seq<u8>) -> SpecOutcome<PacketModel> {
    if b.len() < 6 {
        SpecOutcome::Short
    } else if be16(b[0], b[1]) != 1 {
        SpecOutcome::Rejected(UnsupportedValue::ArpHardwareType)
    } else if be16(b[2], b[3]) != 0x0800 {
        SpecOutcome::Rejected(UnsupportedValue::ArpProtocolType)
    } else if b.len() < 8 {
        SpecOutcome::Short
    } else if spec_operation_of(be16(b[6], b[7])) is None {
        SpecOutcome::Rejected(UnsupportedValue::ArpOperation)
    } else if b.len() < 28 {
        SpecOutcome::Short
    } else {
        SpecOutcome::Done {
            value: PacketModel {
                operation: spec_operation_of(be16(b[6], b[7]))->0,
                sender_hw_addr: b.subrange(8, 14),
                sender_ip_addr: b.subrange(14, 18),
                target_hw_addr: b.subrange(18, 24),
                target_ip_addr: b.subrange(24, 28),
            },
            used: 28,
        }
    }
}

/// The rendered packet: always the fixed constants for hardware type
/// (Ethernet), protocol type (IPv4) and the two address lengths, whatever
/// was on the wire when the packet was decoded.
pub open spec fn wire(m: PacketModel) -> Seq<u8> {
    seq![0u8, 1u8, 0x08u8, 0u8, 6u8, 4u8] + be16_bytes(operation_code(m.operation))
        + m.sender_hw_addr + m.sender_ip_addr + m.target_hw_addr + m.target_ip_addr
}

impl Packet {
    /// The broadcast request that opens gateway resolution: who has the
    /// gateway address?
    pub fn request(nic: &netinfo::NIC) -> (p: Packet)
        ensures
            p.operation == Operation::Request,
            p.sender_hw_addr == nic.phy_address,
            p.sender_ip_addr == nic.address,
            p.target_hw_addr@ =~= seq![0u8, 0u8, 0u8, 0u8, 0u8, 0u8],
            p.target_ip_addr == nic.gateway,
    {
        Packet {
            operation: Operation::Request,
            sender_hw_addr: nic.phy_address,
            sender_ip_addr: nic.address,
            target_hw_addr: ethernet::Addr::zero(),
            target_ip_addr: nic.gateway,
        }
    }

    /// Decode a packet. Only Ethernet hardware, the IPv4 protocol type and
    /// the request/reply operations are accepted; anything else aborts the
    /// parse.
    pub fn parse<'a>(c: Cursor<'a>) -> (r: Result<(Cursor<'a>, Packet), Error>)
        requires
            c.wf(),
        ensures
            match r {
                Ok((c2, p)) => {
                    &&& spec_parse(c.rest()) == (SpecOutcome::Done {
                        value: p@,
                        used: c2.pos - c.pos,
                    })
                    &&& c2.buf == c.buf
                    &&& c2.pos == c.pos + 28
                    &&& c2.wf()
                },
                Err(e) => {
                    &&& e.wf()
                    &&& match spec_parse(c.rest()) {
                        SpecOutcome::Short => e.innermost() == ErrorKind::Decode,
                        SpecOutcome::Rejected(v) => e.errors@ =~= seq![
                            (c.pos, ErrorKind::Unsupported(v)),
                        ],
                        SpecOutcome::Done { .. } => false,
                    }
                },
            },
    {
        let ghost b = c.rest();
        let (c1, htype) = HardwareType::parse(c)?;
        let (c1, ptype) = ethernet::EtherType::parse(c1)?;
        let (c1, _hlen) = c1.be_u8()?;
        let (c1, _plen) = c1.be_u8()?;
        proof {
            assert(b[0] == c.buf@[c.pos as int] && b[1] == c.buf@[c.pos + 1]);
            assert(b[2] == c.buf@[c.pos + 2] && b[3] == c.buf@[c.pos + 3]);
        }
        let htype_ok = match htype {
            Some(HardwareType::Ethernet) => true,
            None => false,
        };
        if !htype_ok {
            return Err(Error::custom(c.pos, UnsupportedValue::ArpHardwareType));
        }
        let ptype_ok = match ptype {
            Some(ethernet::EtherType::IPv4) => true,
            _ => false,
        };
        if !ptype_ok {
            return Err(Error::custom(c.pos, UnsupportedValue::ArpProtocolType));
        }
        let (c1, operation) = Operation::parse(c1)?;
        proof {
            assert(b[6] == c.buf@[c.pos + 6] && b[7] == c.buf@[c.pos + 7]);
        }
        let operation = match operation {
            Some(operation) => operation,
            None => {
                return Err(Error::custom(c.pos, UnsupportedValue::ArpOperation));
            },
        };
        let (c1, sender_hw_addr) = ethernet::Addr::parse(c1)?;
        let (c1, sender_ip_addr) = ipv4::Addr::parse(c1)?;
        let (c1, target_hw_addr) = ethernet::Addr::parse(c1)?;
        let (c1, target_ip_addr) = ipv4::Addr::parse(c1)?;
        let p = Packet { operation, sender_hw_addr, sender_ip_addr, target_hw_addr, target_ip_addr };
        proof {
            assert(p.sender_hw_addr@ =~= b.subrange(8, 14));
            assert(p.sender_ip_addr@ =~= b.subrange(14, 18));
            assert(p.target_hw_addr@ =~= b.subrange(18, 24));
            assert(p.target_ip_addr@ =~= b.subrange(24, 28));
        }
        Ok((c1, p))
    }

    /// Render the packet: the fixed constants, the operation, the address
    /// pairs.
    pub fn serialize(&self, out: &mut Vec<u8>)
        ensures
            final(out)@ =~= old(out)@ + wire(self@),
    {
        HardwareType::Ethernet.serialize(out);
        ethernet::EtherType::IPv4.serialize(out);
        crate::serialize::be_u8(out, 6);
        crate::serialize::be_u8(out, 4);
        self.operation.serialize(out);
        self.sender_hw_addr.serialize(out);
        self.sender_ip_addr.serialize(out);
        self.target_hw_addr.serialize(out);
        self.target_ip_addr.serialize(out);
        proof {
            assert((0x0800u16 >> 8u16) & 0xff == 0x08) by (bit_vector);
            assert(0x0800u16 & 0xff == 0) by (bit_vector);
            assert(be16_bytes(0x0800) =~= seq![0x08u8, 0u8]);
            assert(final(out)@ =~= old(out)@ + wire(self@));
        }
    }
}

/// Re-encoding always emits the fixed constants, whatever the original
/// wire bytes held for those fields: hardware type 1, protocol type
/// 0x0800, hardware length 6, protocol length 4.
pub proof fn lemma_serialize_fixed_fields(m: PacketModel)
    ensures
        wire(m).subrange(0, 6) =~= seq![0u8, 1u8, 0x08u8, 0u8, 6u8, 4u8],
        be16(wire(m)[6], wire(m)[7]) == operation_code(m.operation),
{
    crate::serialize::lemma_be16_bytes(operation_code(m.operation));
    assert(wire(m)[6] == be16_bytes(operation_code(m.operation))[0]);
    assert(wire(m)[7] == be16_bytes(operation_code(m.operation))[1]);
}

/// Parsing a rendered packet with well-formed addresses gives back the
/// packet.
pub proof fn lemma_round_trip(m: PacketModel)
    requires
        m.sender_hw_addr.len() == 6,
        m.sender_ip_addr.len() == 4,
        m.target_hw_addr.len() == 6,
        m.target_ip_addr.len() == 4,
    ensures
        spec_parse(wire(m)) == (SpecOutcome::Done { value: m, used: 28int }),
{
    let w = wire(m);
    crate::serialize::lemma_be16_bytes(operation_code(m.operation));
    assert(w[6] == be16_bytes(operation_code(m.operation))[0]);
    assert(w[7] == be16_bytes(operation_code(m.operation))[1]);
    assert(w.len() == 28);
    assert(be16(w[0], w[1]) == 1);
    assert(be16(w[2], w[3]) == 0x0800);
    assert(w.subrange(8, 14) =~= m.sender_hw_addr);
    assert(w.subrange(14, 18) =~= m.sender_ip_addr);
    assert(w.subrange(18, 24) =~= m.target_hw_addr);
    assert(w.subrange(24, 28) =~= m.target_ip_addr);
}

} // verus!
