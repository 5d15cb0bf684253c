//! The IPv4 codec and the Internet checksum. The header is the fixed
//! 20-byte form without options; the total length and header checksum are
//! always recomputed at serialize time, never trusted from caller state.

use vstd::prelude::*;
use vstd::string::StringSliceAdditionalSpecFns;
use vstd::arithmetic::div_mod::{lemma_add_mod_noop, lemma_mod_self_0, lemma_small_mod};
use crate::parse::{
    be16, Cursor, Error, ErrorKind, Label, SpecOutcome, UnsupportedValue,
    lemma_bits_at_nibbles, lemma_bits_at_6_2, lemma_bits_at_3_13,
};
use crate::serialize::be16_bytes;
use crate::icmp;

verus! {

/// One's-complement 16-bit addition: any carry out of bit 16 is folded back
/// in.
pub open spec fn ones_add(a: u16, b: u16) -> u16 {
    if a + b > 0xFFFF {
        (a + b - 0xFFFF) as u16
    } else {
        (a + b) as u16
    }
}

/// The one's-complement sum of the 16-bit big-endian words of `b` from byte
/// `i` on, starting from `acc`; an odd trailing byte counts as a final word
/// with its low byte zero-filled.
pub open spec fn checksum_fold(b: Seq<u8>, i: int, acc: u16) -> u16
    recommends
        0 <= i <= b.len(),
    decreases b.len() - i,
{
    if i >= 0 && i + 2 <= b.len() {
        checksum_fold(b, i + 2, ones_add(acc, be16(b[i], b[i + 1])))
    } else if i >= 0 && i + 1 == b.len() {
        ones_add(acc, be16(b[i], 0))
    } else {
        acc
    }
}

/// The Internet checksum of a buffer: the complement of the one's-complement
/// sum of its 16-bit words.
pub open spec fn checksum_spec(b: Seq<u8>) -> u16 {
    !checksum_fold(b, 0, 0)
}

/// The plain integer sum of the same words.
pub open spec fn word_sum(b: Seq<u8>, i: int) -> int
    recommends
        0 <= i <= b.len(),
    decreases b.len() - i,
{
    if i >= 0 && i + 2 <= b.len() {
        be16(b[i], b[i + 1]) + word_sum(b, i + 2)
    } else if i >= 0 && i + 1 == b.len() {
        be16(b[i], 0) as int
    } else {
        0
    }
}

proof fn lemma_ones_add_mod(a: u16, b: u16)
    ensures
        (ones_add(a, b) as int) % 0xFFFF == ((a as int) + (b as int)) % 0xFFFF,
{
    if a + b > 0xFFFF {
        let r = (a + b - 0xFFFF) as int;
        assert((r + 0xFFFF) % 0xFFFF == (r % 0xFFFF + 0xFFFFint % 0xFFFF) % 0xFFFF) by {
            lemma_add_mod_noop(r, 0xFFFF, 0xFFFF);
        }
        assert(0xFFFFint % 0xFFFF == 0int) by {
            lemma_mod_self_0(0xFFFF);
        }
        assert((r % 0xFFFF) % 0xFFFF == r % 0xFFFF) by {
            vstd::arithmetic::div_mod::lemma_mod_twice(r, 0xFFFF);
        }
    }
}

proof fn lemma_fold_mod(b: Seq<u8>, i: int, acc: u16)
    ensures
        (checksum_fold(b, i, acc) as int) % 0xFFFF == ((acc as int) + word_sum(b, i)) % 0xFFFF,
    decreases b.len() - i,
{
    if i >= 0 && i + 2 <= b.len() {
        let w = be16(b[i], b[i + 1]);
        lemma_fold_mod(b, i + 2, ones_add(acc, w));
        lemma_ones_add_mod(acc, w);
        let s = word_sum(b, i + 2);
        // (ones_add(acc, w) + s) % m == (acc + w + s) % m
        lemma_add_mod_noop(ones_add(acc, w) as int, s, 0xFFFF);
        lemma_add_mod_noop((acc as int) + (w as int), s, 0xFFFF);
    } else if i >= 0 && i + 1 == b.len() {
        lemma_ones_add_mod(acc, be16(b[i], 0));
    }
}

/// Two buffers that agree from `i` on have the same word sum from `i`.
proof fn lemma_word_sum_agree(a: Seq<u8>, b: Seq<u8>, i: int)
    requires
        a.len() == b.len(),
        forall|j: int| i <= j < a.len() ==> a[j] == b[j],
    ensures
        word_sum(a, i) == word_sum(b, i),
    decreases a.len() - i,
{
    if i >= 0 && i + 2 <= a.len() {
        lemma_word_sum_agree(a, b, i + 2);
    }
}

/// Writing the word `(hi, lo)` over a zeroed aligned word adds its value to
/// the word sum.
proof fn lemma_word_sum_update(z: Seq<u8>, i: int, off: int, hi: u8, lo: u8)
    requires
        0 <= i,
        i <= off,
        (off - i) % 2 == 0,
        off + 1 < z.len(),
        z[off] == 0,
        z[off + 1] == 0,
    ensures
        word_sum(z.update(off, hi).update(off + 1, lo), i) == word_sum(z, i) + be16(hi, lo),
    decreases z.len() - i,
{
    let p = z.update(off, hi).update(off + 1, lo);
    if i == off {
        assert(p[off] == hi && p[off + 1] == lo);
        assert(be16(z[off], z[off + 1]) == 0);
        lemma_word_sum_agree(p, z, i + 2);
    } else {
        assert(p[i] == z[i] && p[i + 1] == z[i + 1]);
        lemma_word_sum_update(z, i + 2, off, hi, lo);
    }
}

/// The checksum written back over its own zeroed field re-validates: the
/// checksum of the patched buffer is zero. This holds for any buffer and any
/// aligned 16-bit field position that held zero while the checksum was
/// computed.
pub proof fn lemma_checksum_self_verifies(z: Seq<u8>, off: int)
    requires
        0 <= off,
        off % 2 == 0,
        off + 1 < z.len(),
        z[off] == 0,
        z[off + 1] == 0,
    ensures
        checksum_spec(
            z.update(off, ((checksum_spec(z) >> 8u16) & 0xff) as u8).update(
                off + 1,
                (checksum_spec(z) & 0xff) as u8,
            ),
        ) == 0,
{
    let s = checksum_fold(z, 0, 0);
    let c = checksum_spec(z);
    let hi = ((c >> 8u16) & 0xff) as u8;
    let lo = (c & 0xff) as u8;
    let p = z.update(off, hi).update(off + 1, lo);
    let f = checksum_fold(p, 0, 0);

    assert(c == !s);
    assert((!s) as int == 0xFFFF - s) by (bit_vector);
    assert(be16(hi, lo) == c) by {
        crate::serialize::lemma_be16_bytes(c);
        assert(crate::serialize::be16_bytes(c)[0] == hi);
        assert(crate::serialize::be16_bytes(c)[1] == lo);
    }

    lemma_fold_mod(z, 0, 0);
    lemma_fold_mod(p, 0, 0);
    lemma_word_sum_update(z, 0, off, hi, lo);
    // word_sum(p) == word_sum(z) + c, and s == word_sum(z) (mod 0xFFFF), so
    // f == s + (0xFFFF - s) == 0 (mod 0xFFFF).
    assert((word_sum(z, 0) + (c as int)) % 0xFFFF == ((word_sum(z, 0)) % 0xFFFF + (c as int)
        % 0xFFFF) % 0xFFFF) by {
        lemma_add_mod_noop(word_sum(z, 0), c as int, 0xFFFF);
    }
    assert(((s as int) % 0xFFFF + (c as int) % 0xFFFF) % 0xFFFF == ((s as int) + (c as int))
        % 0xFFFF) by {
        lemma_add_mod_noop(s as int, c as int, 0xFFFF);
    }
    assert(((s as int) + (c as int)) % 0xFFFF == 0int) by {
        lemma_mod_self_0(0xFFFF);
    }
    assert((f as int) % 0xFFFF == 0);
    assert(f == 0 || f == 0xFFFF) by {
        if f != 0 && f != 0xFFFF {
            lemma_small_mod(f as nat, 0xFFFF);
        }
    }
    if f == 0 {
        // A zero fold forces the patched word itself to be zero, hence
        // c == 0 and the patch was a no-op; but then s == f == 0 and
        // c == !s == 0xFFFF, a contradiction.
        lemma_fold_word_zero(p, 0, off);
        assert(p[off] == hi && p[off + 1] == lo);
        assert(c == 0);
        assert(p =~= z);
        assert(f == s);
        assert(!(0u16) == 0xFFFFu16) by (bit_vector);
        assert(false);
    }
    assert(f == 0xFFFF);
    assert(!(0xFFFFu16) == 0u16) by (bit_vector);
}

/// A zero fold can only come from a zero start.
proof fn lemma_fold_is_zero(b: Seq<u8>, i: int, acc: u16)
    requires
        checksum_fold(b, i, acc) == 0,
    ensures
        acc == 0,
    decreases b.len() - i,
{
    if i >= 0 && i + 2 <= b.len() {
        lemma_fold_is_zero(b, i + 2, ones_add(acc, be16(b[i], b[i + 1])));
    }
}

/// A zero fold from zero forces every aligned word it folded to be zero.
proof fn lemma_fold_word_zero(b: Seq<u8>, i: int, off: int)
    requires
        checksum_fold(b, i, 0) == 0,
        0 <= i,
        i <= off,
        (off - i) % 2 == 0,
        off + 1 < b.len(),
    ensures
        be16(b[off], b[off + 1]) == 0,
    decreases b.len() - i,
{
    let w = be16(b[i], b[i + 1]);
    assert(ones_add(0, w) == w);
    lemma_fold_is_zero(b, i + 2, w);
    if i < off {
        lemma_fold_word_zero(b, i + 2, off);
    }
}

/// The Internet checksum of a byte buffer, over big-endian 16-bit words with
/// end-around carry; an odd trailing byte is zero-filled on the right.
pub fn checksum(slice: &[u8]) -> (r: u16)
    ensures
        r == checksum_spec(slice@),
{
    let len = slice.len();
    let mut acc: u16 = 0;
    let mut i: usize = 0;
    while len - i >= 2
        invariant
            i <= len,
            len == slice@.len(),
            checksum_fold(slice@, 0, 0) == checksum_fold(slice@, i as int, acc),
        decreases len - i,
    {
        let hi = slice[i];
        let lo = slice[i + 1];
        let w = ((hi as u16) << 8u16) | (lo as u16);
        proof {
            let h = hi;
            let l = lo;
            assert(((h as u16) << 8u16) | (l as u16) == (h as u16) * 256 + (l as u16))
                by (bit_vector);
        }
        acc = ones_add_exec(acc, w);
        i = i + 2;
    }
    if i < len {
        let hi = slice[i];
        let w = (hi as u16) << 8u16;
        proof {
            let h = hi;
            assert((h as u16) << 8u16 == (h as u16) * 256) by (bit_vector);
        }
        acc = ones_add_exec(acc, w);
        i = i + 1;
    }
    !acc
}

/// One's-complement addition with the end-around carry folded back in.
fn ones_add_exec(a: u16, b: u16) -> (r: u16)
    ensures
        r == ones_add(a, b),
{
    let s: u32 = a as u32 + b as u32;
    if s > 0xFFFF {
        (s - 0xFFFF) as u16
    } else {
        s as u16
    }
}

/// An IPv4 address: four octets.
#[derive(PartialEq, Eq, Clone, Copy, Hash, Debug)]
pub struct Addr(pub [u8; 4]);

impl View for Addr {
    type V = Seq<u8>;

    open spec fn view(&self) -> Seq<u8> {
        self.0@
    }
}

impl Addr {
    pub fn zero() -> (a: Addr)
        ensures
            a@ =~= seq![0u8, 0u8, 0u8, 0u8],
    {
        Addr([0, 0, 0, 0])
    }

    /// Read four octets.
    pub fn parse<'a>(c: Cursor<'a>) -> (r: Result<(Cursor<'a>, Addr), Error>)
        requires
            c.wf(),
        ensures
            match r {
                Ok((c2, a)) => {
                    &&& c.remaining() >= 4
                    &&& c2.buf == c.buf
                    &&& c2.pos == c.pos + 4
                    &&& c2.wf()
                    &&& a@ == c.buf@.subrange(c.pos as int, c.pos + 4)
                },
                Err(e) => {
                    &&& c.remaining() < 4
                    &&& e.errors@ =~= seq![
                        (c.pos, ErrorKind::Decode),
                        (c.pos, ErrorKind::Context(Label::Ipv4Address)),
                    ]
                },
            },
    {
        match c.take(4) {
            Ok((c2, s)) => {
                let a = Addr([s[0], s[1], s[2], s[3]]);
                proof {
                    assert(a@ =~= c.buf@.subrange(c.pos as int, c.pos + 4));
                }
                Ok((c2, a))
            },
            Err(e) => Err(e.with_context(c.pos, Label::Ipv4Address)),
        }
    }

    /// Append the four octets.
    pub fn serialize(&self, out: &mut Vec<u8>)
        ensures
            final(out)@ =~= old(out)@ + self@,
    {
        crate::serialize::be_u8(out, self.0[0]);
        crate::serialize::be_u8(out, self.0[1]);
        crate::serialize::be_u8(out, self.0[2]);
        crate::serialize::be_u8(out, self.0[3]);
    }
}

/// The closed set of payload protocols this codec recognizes; anything else
/// degrades to an unknown payload on decode.
#[derive(Debug, Copy, Clone, PartialEq, Eq, Structural)]
pub enum Protocol {
    ICMP,
    TCP,
    UDP,
}

/// The wire code of a recognized protocol.
pub open spec fn protocol_code(p: Protocol) -> u8 {
    match p {
        Protocol::ICMP => 0x01,
        Protocol::TCP => 0x06,
        Protocol::UDP => 0x11,
    }
}

/// The protocol a wire code maps onto, if recognized.
pub open spec fn spec_protocol_of(x: u8) -> Option<Protocol> {
    if x == 0x01 {
        Some(Protocol::ICMP)
    } else if x == 0x06 {
        Some(Protocol::TCP)
    } else if x == 0x11 {
        Some(Protocol::UDP)
    } else {
        None
    }
}

impl Protocol {
    /// Read the protocol byte; an unrecognized value is no match, not an
    /// error.
    pub fn parse<'a>(c: Cursor<'a>) -> (r: Result<(Cursor<'a>, Option<Protocol>), Error>)
        requires
            c.wf(),
        ensures
            match r {
                Ok((c2, p)) => {
                    &&& c.remaining() >= 1
                    &&& c2.buf == c.buf
                    &&& c2.pos == c.pos + 1
                    &&& c2.wf()
                    &&& p == spec_protocol_of(c.buf@[c.pos as int])
                },
                Err(e) => {
                    &&& c.remaining() == 0
                    &&& e.errors@ =~= seq![
                        (c.pos, ErrorKind::Decode),
                        (c.pos, ErrorKind::Context(Label::Ipv4Protocol)),
                    ]
                },
            },
    {
        match c.be_u8() {
            Ok((c2, x)) => {
                let p = match x {
                    0x01 => Some(Protocol::ICMP),
                    0x06 => Some(Protocol::TCP),
                    0x11 => Some(Protocol::UDP),
                    _ => None,
                };
                Ok((c2, p))
            },
            Err(e) => Err(e.with_context(c.pos, Label::Ipv4Protocol)),
        }
    }

    /// Append the protocol code byte.
    pub fn serialize(&self, out: &mut Vec<u8>)
        ensures
            final(out)@ =~= old(out)@.push(protocol_code(*self)),
    {
        match self {
            Protocol::ICMP => crate::serialize::be_u8(out, 0x01),
            Protocol::TCP => crate::serialize::be_u8(out, 0x06),
            Protocol::UDP => crate::serialize::be_u8(out, 0x11),
        }
    }
}

/// The payload behind an IPv4 header, keyed by the protocol tag.
#[derive(Debug, Clone)]
pub enum Payload {
    ICMP(icmp::Packet),
    Unknown,
}

/// The mathematical value of a `Payload`.
pub enum PayloadModel {
    ICMP(icmp::PacketModel),
    Unknown,
}

impl View for Payload {
    type V = PayloadModel;

    open spec fn view(&self) -> PayloadModel {
        match self {
            Payload::ICMP(p) => PayloadModel::ICMP(p@),
            Payload::Unknown => PayloadModel::Unknown,
        }
    }
}

/// Whether a payload is one this codec can serialize: an ICMP message in
/// one of the echo forms.
pub open spec fn payload_serializable(m: PayloadModel) -> bool {
    match m {
        PayloadModel::ICMP(q) => icmp::serializable(q),
        PayloadModel::Unknown => false,
    }
}

/// The rendered payload bytes.
pub open spec fn payload_bytes(m: PayloadModel) -> Seq<u8> {
    match m {
        PayloadModel::ICMP(q) => icmp::wire(q),
        PayloadModel::Unknown => seq![],
    }
}

impl Payload {
    /// The protocol tag of this payload. Asking it of an unknown payload is
    /// a contract violation.
    pub fn protocol(&self) -> (r: Protocol)
        requires
            self@ is ICMP,
        ensures
            r == Protocol::ICMP,
    {
        match self {
            Payload::ICMP(_) => Protocol::ICMP,
            Payload::Unknown => vstd::pervasive::unreached(),
        }
    }

    /// Append the rendered payload. Only an ICMP echo payload can be
    /// serialized.
    pub fn serialize(&self, out: &mut Vec<u8>)
        requires
            payload_serializable(self@),
        ensures
            final(out)@ =~= old(out)@ + payload_bytes(self@),
    {
        match self {
            Payload::ICMP(p) => p.serialize(out),
            Payload::Unknown => vstd::pervasive::unreached(),
        }
    }
}

/// A full IPv4 packet. Sub-byte fields carry their value in a wider type
/// with the width as an upper bound; `wf` states the bounds.
#[derive(Clone, Debug)]
pub struct Packet {
    /// 4 bits.
    pub version: u8,
    /// 4 bits.
    pub ihl: u8,
    /// 6 bits.
    pub dscp: u8,
    /// 2 bits.
    pub ecn: u8,
    pub length: u16,
    pub identification: u16,
    /// 3 bits.
    pub flags: u8,
    /// 13 bits.
    pub fragment_offset: u16,
    pub ttl: u8,
    pub protocol: Option<Protocol>,
    pub checksum: u16,
    pub src: Addr,
    pub dst: Addr,
    pub payload: Payload,
}

/// The mathematical value of a `Packet`: the same fields with the addresses
/// as byte sequences.
pub struct PacketModel {
    pub version: u8,
    pub ihl: u8,
    pub dscp: u8,
    pub ecn: u8,
    pub length: u16,
    pub identification: u16,
    pub flags: u8,
    pub fragment_offset: u16,
    pub ttl: u8,
    pub protocol: Option<Protocol>,
    pub checksum: u16,
    pub src: Seq<u8>,
    pub dst: Seq<u8>,
    pub payload: PayloadModel,
}

impl View for Packet {
    type V = PacketModel;

    open spec fn view(&self) -> PacketModel {
        PacketModel {
            version: self.version,
            ihl: self.ihl,
            dscp: self.dscp,
            ecn: self.ecn,
            length: self.length,
            identification: self.identification,
            flags: self.flags,
            fragment_offset: self.fragment_offset,
            ttl: self.ttl,
            protocol: self.protocol,
            checksum: self.checksum,
            src: self.src@,
            dst: self.dst@,
            payload: self.payload@,
        }
    }
}

/// The sub-byte fields stay within their wire widths.
pub open spec fn wf(m: PacketModel) -> bool {
    &&& m.version < 16
    &&& m.ihl < 16
    &&& m.dscp < 64
    &&& m.ecn < 4
    &&& m.flags < 8
    &&& m.fragment_offset < 8192
    &&& m.src.len() == 4
    &&& m.dst.len() == 4
}

/// The header fields extracted from the first 20 bytes, with the given
/// payload.
pub open spec fn header_model(b: Seq<u8>, payload: PayloadModel) -> PacketModel
    recommends
        b.len() >= 20,
{
    PacketModel {
        version: b[0] >> 4u8,
        ihl: b[0] & 0xf,
        dscp: b[1] >> 2u8,
        ecn: b[1] & 0x3,
        length: be16(b[2], b[3]),
        identification: be16(b[4], b[5]),
        flags: b[6] >> 5u8,
        fragment_offset: (((b[6] & 0x1f) as int) * 256 + (b[7] as int)) as u16,
        ttl: b[8],
        protocol: spec_protocol_of(b[9]),
        checksum: be16(b[10], b[11]),
        src: b.subrange(12, 16),
        dst: b.subrange(16, 20),
        payload,
    }
}

/// What parsing yields on a byte sequence. A version nibble other than 4 is
/// rejected outright; an unrecognized protocol degrades to an unknown
/// payload with the remaining bytes dropped; a recognized ICMP protocol
/// parses the rest as an ICMP message.
pub open spec fn spec_parse(b: Seq<u8>) -> SpecOutcome<PacketModel> {
    if b.len() < 1 {
        SpecOutcome::Short
    } else if b[0] >> 4u8 != 4 {
        SpecOutcome::Rejected(UnsupportedValue::Ipv4Version)
    } else if b.len() < 20 {
        SpecOutcome::Short
    } else if spec_protocol_of(b[9]) == Some(Protocol::ICMP) {
        match icmp::spec_parse(b.skip(20)) {
            Some((q, u2)) => SpecOutcome::Done {
                value: header_model(b, PayloadModel::ICMP(q)),
                used: 20 + u2,
            },
            None => SpecOutcome::Short,
        }
    } else {
        SpecOutcome::Done { value: header_model(b, PayloadModel::Unknown), used: 20 }
    }
}

impl Packet {
    /// Decode a packet from the fixed 20-byte header onward. The version
    /// must be 4; the header length field is read but not enforced; the
    /// payload is keyed by the protocol tag.
    #[verifier::rlimit(100)]
    #[verifier::spinoff_prover]
    pub fn parse<'a>(c: Cursor<'a>) -> (r: Result<(Cursor<'a>, Packet), Error>)
        requires
            c.wf(),
        ensures
            match r {
                Ok((c2, p)) => {
                    &&& spec_parse(c.rest()) == (SpecOutcome::Done {
                        value: p@,
                        used: c2.pos - c.pos,
                    })
                    &&& c2.buf == c.buf
                    &&& c.pos <= c2.pos
                    &&& c2.wf()
                    &&& wf(p@)
                },
                Err(e) => {
                    &&& e.wf()
                    &&& match spec_parse(c.rest()) {
                        SpecOutcome::Short => e.innermost() == ErrorKind::Decode,
                        SpecOutcome::Rejected(v) => e.errors@ =~= seq![
                            (c.pos, ErrorKind::Unsupported(v)),
                        ],
                        SpecOutcome::Done { .. } => false,
                    }
                },
            },
    {
        let ghost b = c.rest();
        let bc = c.bits();
        let (bc, version) = bc.take_bits(4)?;
        let (bc, ihl) = bc.take_bits(4)?;
        let c1 = bc.bytes();
        proof {
            lemma_bits_at_nibbles(c.buf@, c.pos as int);
            assert(b[0] == c.buf@[c.pos as int]);
        }
        if version != 4 {
            return Err(Error::custom(c.pos, UnsupportedValue::Ipv4Version));
        }
        let bc = c1.bits();
        let (bc, dscp) = bc.take_bits(6)?;
        let (bc, ecn) = bc.take_bits(2)?;
        let c1 = bc.bytes();
        proof {
            lemma_bits_at_6_2(c.buf@, c.pos + 1);
            assert(b[1] == c.buf@[c.pos + 1]);
        }
        let (c1, length) = c1.be_u16()?;
        let (c1, identification) = c1.be_u16()?;
        let bc = c1.bits();
        let (bc, flags) = bc.take_bits(3)?;
        let (bc, fragment_offset) = bc.take_bits(13)?;
        let c1 = bc.bytes();
        proof {
            lemma_bits_at_3_13(c.buf@, c.pos + 6);
            assert(b[6] == c.buf@[c.pos + 6]);
            assert(b[7] == c.buf@[c.pos + 7]);
        }
        let (c1, ttl) = c1.be_u8()?;
        let (c1, protocol) = Protocol::parse(c1)?;
        let (c1, checksum) = c1.be_u16()?;
        let (c1, src) = Addr::parse(c1)?;
        let (c1, dst) = Addr::parse(c1)?;
        let is_icmp = match protocol {
            Some(Protocol::ICMP) => true,
            _ => false,
        };
        let (c1, payload) = if is_icmp {
            proof {
                assert(c1.rest() =~= b.skip(20));
            }
            let (c1, q) = icmp::Packet::parse(c1)?;
            (c1, Payload::ICMP(q))
        } else {
            (c1, Payload::Unknown)
        };
        let p = Packet {
            version: version as u8,
            ihl: ihl as u8,
            dscp: dscp as u8,
            ecn: ecn as u8,
            length,
            identification,
            flags: flags as u8,
            fragment_offset,
            ttl,
            protocol,
            checksum,
            src,
            dst,
            payload,
        };
        proof {
            vstd::arithmetic::power2::lemma2_to64();
            let x0 = c.buf@[c.pos as int];
            let x1 = c.buf@[c.pos + 1];
            let x6 = c.buf@[c.pos + 6];
            assert(x0 >> 4u8 < 16 && (x0 & 0xf) < 16) by (bit_vector);
            assert(x1 >> 2u8 < 64 && (x1 & 0x3) < 4) by (bit_vector);
            assert(x6 >> 5u8 < 8 && (x6 & 0x1f) < 32) by (bit_vector);
            assert(b[2] == c.buf@[c.pos + 2] && b[3] == c.buf@[c.pos + 3]);
            assert(b[4] == c.buf@[c.pos + 4] && b[5] == c.buf@[c.pos + 5]);
            assert(b[8] == c.buf@[c.pos + 8] && b[9] == c.buf@[c.pos + 9]);
            assert(b[10] == c.buf@[c.pos + 10] && b[11] == c.buf@[c.pos + 11]);
            assert(p.src@ =~= b.subrange(12, 16));
            assert(p.dst@ =~= b.subrange(16, 20));
            assert(p@ == header_model(b, p.payload@));
        }
        Ok((c1, p))
    }
}

/// The rendered packet with the length and checksum fields still zero:
/// version 4 and header length 5 in the first byte (the fixed 20-byte
/// header pins both), then the packet's own fields, sub-byte ones packed
/// most-significant-bit-first: the DSCP above the ECN, the flags above the
/// fragment offset.
pub open spec fn wire_no_checksum(m: PacketModel) -> Seq<u8> {
    seq![0x45u8, (m.dscp << 2u8) | m.ecn, 0u8, 0u8] + be16_bytes(m.identification)
        + seq![
        (m.flags << 5u8) | ((m.fragment_offset >> 8u16) as u8),
        (m.fragment_offset & 0xff) as u8,
    ] + seq![m.ttl, protocol_code(Protocol::ICMP)] + seq![0u8, 0u8] + m.src + m.dst
        + payload_bytes(m.payload)
}

/// The total length the serializer writes: the whole rendered buffer.
pub open spec fn total_length(m: PacketModel) -> int {
    20 + payload_bytes(m.payload).len() as int
}

/// The 20 header bytes the checksum is computed over: the rendering with
/// the length patched in and the checksum field still zero.
pub open spec fn header_zero_ck(m: PacketModel) -> Seq<u8> {
    wire_no_checksum(m).update(2, be16_bytes(total_length(m) as u16)[0]).update(
        3,
        be16_bytes(total_length(m) as u16)[1],
    ).take(20)
}

/// The checksum the serializer computes, over the 20-byte header alone.
pub open spec fn checksum_value(m: PacketModel) -> u16 {
    checksum_spec(header_zero_ck(m))
}

/// The rendered packet: placeholders patched with the computed total length
/// and header checksum, big-endian.
pub open spec fn wire(m: PacketModel) -> Seq<u8> {
    wire_no_checksum(m).update(2, be16_bytes(total_length(m) as u16)[0]).update(
        3,
        be16_bytes(total_length(m) as u16)[1],
    ).update(10, be16_bytes(checksum_value(m))[0]).update(11, be16_bytes(checksum_value(m))[1])
}

/// The sub-byte header fields fit their wire widths, so packing them
/// loses nothing.
pub open spec fn fields_wf(m: PacketModel) -> bool {
    &&& m.dscp < 64
    &&& m.ecn < 4
    &&& m.flags < 8
    &&& m.fragment_offset < 8192
}

/// What this codec can serialize: an ICMP echo payload, sub-byte fields
/// within their widths, and a rendering whose total length fits its
/// 16-bit field.
pub open spec fn serializable(m: PacketModel) -> bool {
    &&& payload_serializable(m.payload)
    &&& fields_wf(m)
    &&& total_length(m) <= 0xFFFF
}

/// Relies on rand::random for a fresh identification value; nothing is
/// promised of the result.
#[verifier::external_body]
fn random_identification() -> u16 {
    rand::random()
}

impl Packet {
    /// A packet around the given payload, with the protocol tag taken from
    /// the payload and every other field at its default.
    pub fn new(src: Addr, dst: Addr, p: Payload) -> (r: Packet)
        requires
            p@ is ICMP,
        ensures
            r.version == 4 && r.ihl == 5 && r.dscp == 0 && r.ecn == 0,
            r.length == 0 && r.flags == 0 && r.fragment_offset == 0,
            r.ttl == 128 && r.checksum == 0,
            r.protocol == Some(Protocol::ICMP),
            r.src == src && r.dst == dst,
            r@.payload == p@,
    {
        let protocol = Some(p.protocol());
        Packet {
            version: 4,
            ihl: 5,
            dscp: 0,
            ecn: 0,
            length: 0,
            identification: random_identification(),
            flags: 0,
            fragment_offset: 0,
            ttl: 128,
            protocol,
            checksum: 0,
            src,
            dst,
            payload: p,
        }
    }

    /// Render the packet: the header and payload with placeholders, then
    /// the total length over the whole buffer and the checksum over the
    /// 20-byte header patched in at their offsets.
    pub fn serialize(&self, out: &mut Vec<u8>)
        requires
            serializable(self@),
        ensures
            final(out)@ =~= old(out)@ + wire(self@),
    {
        let start = out.len();
        self.serialize_no_checksum(out);
        let end = out.len();
        let total: u16 = (end - start) as u16;
        crate::serialize::patch_be_u16(out, start + 2, total);
        let hdr = vstd::slice::slice_subrange(out.as_slice(), start, start + 20);
        proof {
            assert(hdr@ =~= header_zero_ck(self@));
        }
        let ck = checksum(hdr);
        crate::serialize::patch_be_u16(out, start + 10, ck);
        proof {
            assert(final(out)@ =~= old(out)@ + wire(self@));
        }
    }

    /// Render the packet with the length and checksum fields as zero
    /// placeholders. Sub-byte fields are packed most-significant-bit-first:
    /// the version above the header length, the DSCP above the ECN, the
    /// flags above the fragment offset.
    pub fn serialize_no_checksum(&self, out: &mut Vec<u8>)
        requires
            payload_serializable(self@.payload),
            fields_wf(self@),
        ensures
            final(out)@ =~= old(out)@ + wire_no_checksum(self@),
    {
        let vihl: u8 = (4u8 << 4u8) | 5;
        proof {
            assert((4u8 << 4u8) | 5 == 0x45) by (bit_vector);
        }
        crate::serialize::be_u8(out, vihl);
        crate::serialize::be_u8(out, (self.dscp << 2u8) | self.ecn);
        crate::serialize::be_u8(out, 0);  // length placeholder
        crate::serialize::be_u8(out, 0);
        crate::serialize::be_u16(out, self.identification);
        crate::serialize::be_u8(
            out,
            (self.flags << 5u8) | (#[verifier::truncate] ((self.fragment_offset >> 8u16) as u8)),
        );
        crate::serialize::be_u8(out, #[verifier::truncate] ((self.fragment_offset & 0xff) as u8));
        crate::serialize::be_u8(out, self.ttl);
        self.payload.protocol().serialize(out);
        crate::serialize::be_u8(out, 0);  // checksum placeholder
        crate::serialize::be_u8(out, 0);
        self.src.serialize(out);
        self.dst.serialize(out);
        self.payload.serialize(out);
        proof {
            assert(final(out)@ =~= old(out)@ + wire_no_checksum(self@));
        }
    }
}

/// A buffer whose version nibble is not 4 is always rejected as an
/// unsupported value, whatever the rest holds; rejection is an explicit
/// error, never a misread packet.
pub proof fn lemma_version_rejected(b: Seq<u8>)
    requires
        b.len() >= 1,
        b[0] >> 4u8 != 4,
    ensures
        spec_parse(b) == SpecOutcome::<PacketModel>::Rejected(UnsupportedValue::Ipv4Version),
{
}

/// A packet whose redundant fields already agree with what serialization
/// emits: the fixed version and header length, the protocol tag of its
/// payload, the computed total length and header checksum, and a canonical
/// ICMP echo payload.
pub open spec fn canonical(m: PacketModel) -> bool {
    &&& serializable(m)
    &&& m.version == 4 && m.ihl == 5
    &&& m.protocol == Some(Protocol::ICMP)
    &&& m.length == total_length(m)
    &&& m.checksum == checksum_value(m)
    &&& m.src.len() == 4 && m.dst.len() == 4
    &&& match m.payload {
        PayloadModel::ICMP(q) => icmp::canonical(q),
        PayloadModel::Unknown => false,
    }
}

/// Serializing a canonical packet and parsing the rendering reproduces
/// every field, including a checksum that re-validates: the Internet
/// checksum of the rendered 20-byte header, checksum field included, is
/// zero.
pub proof fn lemma_round_trip(m: PacketModel)
    requires
        canonical(m),
    ensures
        spec_parse(wire(m)) == (SpecOutcome::Done { value: m, used: 28int }),
        checksum_spec(wire(m).take(20)) == 0,
{
    let w = wire(m);
    let q = match m.payload {
        PayloadModel::ICMP(q) => q,
        PayloadModel::Unknown => arbitrary(),
    };
    let total = total_length(m) as u16;
    let ck = checksum_value(m);
    assert(payload_bytes(m.payload).len() >= 8);
    assert(w.len() == 20 + payload_bytes(m.payload).len());

    assert(w[0] == 0x45 && w[8] == m.ttl && w[9] == 0x01);
    assert(w[1] == (m.dscp << 2u8) | m.ecn);
    assert(w[6] == (m.flags << 5u8) | ((m.fragment_offset >> 8u16) as u8));
    assert(w[7] == (m.fragment_offset & 0xff) as u8);
    assert(0x45u8 >> 4u8 == 4 && (0x45u8 & 0xf) == 5) by (bit_vector);
    // Unpacking the packed sub-byte fields gives the fields back.
    let d = m.dscp;
    let e = m.ecn;
    let fl = m.flags;
    let fo = m.fragment_offset;
    assert((d < 64 && e < 4) ==> (((d << 2u8) | e) >> 2u8 == d && (((d << 2u8) | e) & 0x3) == e))
        by (bit_vector);
    assert((fl < 8 && fo < 8192) ==> ((fl << 5u8) | ((fo >> 8u16) as u8)) >> 5u8 == fl)
        by (bit_vector);
    assert((fl < 8 && fo < 8192) ==> ((((fl << 5u8) | ((fo >> 8u16) as u8)) & 0x1f) as u16) * 256
        + (((fo & 0xff) as u8) as u16) == fo) by (bit_vector);

    assert(w[2] == be16_bytes(total)[0] && w[3] == be16_bytes(total)[1]);
    assert(be16(w[2], w[3]) == total) by {
        crate::serialize::lemma_be16_bytes(total);
    }
    assert(w[4] == be16_bytes(m.identification)[0] && w[5] == be16_bytes(m.identification)[1]);
    assert(be16(w[4], w[5]) == m.identification) by {
        crate::serialize::lemma_be16_bytes(m.identification);
    }
    assert(w[10] == be16_bytes(ck)[0] && w[11] == be16_bytes(ck)[1]);
    assert(be16(w[10], w[11]) == ck) by {
        crate::serialize::lemma_be16_bytes(ck);
    }
    assert(w.subrange(12, 16) =~= m.src);
    assert(w.subrange(16, 20) =~= m.dst);

    assert(w.skip(20) =~= icmp::wire(q));
    icmp::lemma_round_trip_canonical(q);
    assert(header_model(w, PayloadModel::ICMP(q)) == m);

    // The checksum over the patched header re-validates to zero.
    let z = header_zero_ck(m);
    assert(z[10] == 0 && z[11] == 0);
    lemma_checksum_self_verifies(z, 10);
    assert(z.update(10, ((checksum_spec(z) >> 8u16) & 0xff) as u8).update(
        11,
        (checksum_spec(z) & 0xff) as u8,
    ) =~= w.take(20));
}

/// Why a dotted-decimal text failed to parse.
#[derive(Debug, Clone, Copy, PartialEq, Eq, Structural)]
pub enum ParseAddrError {
    TooManyOctets,
    InsufficientOctets,
    InvalidOctet,
}

/// An ASCII decimal digit.
pub open spec fn is_digit(c: u8) -> bool {
    48 <= c <= 57
}

/// The end of the token starting at `i`: the first dot at or after `i`, or
/// the end of the text.
pub open spec fn token_end(s: Seq<u8>, i: int) -> int
    recommends
        0 <= i <= s.len(),
    decreases s.len() - i,
{
    if i < s.len() && s[i] != 46 {
        token_end(s, i + 1)
    } else {
        i
    }
}

/// The decimal value of the bytes in `[i, j)`, read left to right.
pub open spec fn octet_value(s: Seq<u8>, i: int, j: int) -> int
    decreases j - i,
{
    if i < j {
        octet_value(s, i, j - 1) * 10 + ((s[j - 1] as int) - 48)
    } else {
        0
    }
}

/// Whether the bytes in `[i, j)` form a valid octet: nonempty, all digits,
/// value at most 255.
pub open spec fn octet_ok(s: Seq<u8>, i: int, j: int) -> bool {
    &&& i < j
    &&& forall|k: int| i <= k < j ==> is_digit(s[k])
    &&& octet_value(s, i, j) <= 255
}

/// What parsing a dotted-decimal text yields: exactly four dot-separated
/// octets, each checked in order; a missing octet, an invalid octet and a
/// trailing fifth token report their own errors, the first failure winning.
pub open spec fn spec_parse_addr(s: Seq<u8>) -> Result<Seq<u8>, ParseAddrError> {
    let e0 = token_end(s, 0);
    if !octet_ok(s, 0, e0) {
        Err(ParseAddrError::InvalidOctet)
    } else if e0 >= s.len() {
        Err(ParseAddrError::InsufficientOctets)
    } else {
        let e1 = token_end(s, e0 + 1);
        if !octet_ok(s, e0 + 1, e1) {
            Err(ParseAddrError::InvalidOctet)
        } else if e1 >= s.len() {
            Err(ParseAddrError::InsufficientOctets)
        } else {
            let e2 = token_end(s, e1 + 1);
            if !octet_ok(s, e1 + 1, e2) {
                Err(ParseAddrError::InvalidOctet)
            } else if e2 >= s.len() {
                Err(ParseAddrError::InsufficientOctets)
            } else {
                let e3 = token_end(s, e2 + 1);
                if !octet_ok(s, e2 + 1, e3) {
                    Err(ParseAddrError::InvalidOctet)
                } else if e3 < s.len() {
                    Err(ParseAddrError::TooManyOctets)
                } else {
                    Ok(
                        seq![
                            octet_value(s, 0, e0) as u8,
                            octet_value(s, e0 + 1, e1) as u8,
                            octet_value(s, e1 + 1, e2) as u8,
                            octet_value(s, e2 + 1, e3) as u8,
                        ],
                    )
                }
            }
        }
    }
}

proof fn lemma_token_end_bounds(s: Seq<u8>, i: int)
    requires
        0 <= i <= s.len(),
    ensures
        i <= token_end(s, i) <= s.len(),
    decreases s.len() - i,
{
    if i < s.len() && s[i] != 46 {
        lemma_token_end_bounds(s, i + 1);
    }
}

proof fn lemma_token_end_is(s: Seq<u8>, i: int, m: int)
    requires
        0 <= i <= m <= s.len(),
        forall|k: int| i <= k < m ==> s[k] != 46,
        m == s.len() || s[m] == 46,
    ensures
        token_end(s, i) == m,
    decreases m - i,
{
    if i < m {
        lemma_token_end_is(s, i + 1, m);
    }
}

proof fn lemma_token_end_skip(s: Seq<u8>, i: int, j: int)
    requires
        0 <= i <= j <= s.len(),
        forall|k: int| i <= k < j ==> s[k] != 46,
    ensures
        token_end(s, i) == token_end(s, j),
    decreases j - i,
{
    if i < j {
        lemma_token_end_skip(s, i + 1, j);
    }
}

proof fn lemma_octet_value_nonneg(s: Seq<u8>, i: int, j: int)
    requires
        forall|k: int| i <= k < j ==> is_digit(s[k]),
    ensures
        octet_value(s, i, j) >= 0,
    decreases j - i,
{
    if i < j {
        lemma_octet_value_nonneg(s, i, j - 1);
    }
}

proof fn lemma_octet_value_mono(s: Seq<u8>, i: int, j: int, e: int)
    requires
        i <= j <= e,
        forall|k: int| i <= k < e ==> is_digit(s[k]),
    ensures
        octet_value(s, i, e) >= octet_value(s, i, j),
    decreases e - j,
{
    if j < e {
        lemma_octet_value_mono(s, i, j, e - 1);
        lemma_octet_value_nonneg(s, i, e - 1);
    }
}

/// Scan the octet token starting at `i`: its value and its end, or nothing
/// when the token is not a valid octet.
fn scan_octet(b: &[u8], i: usize) -> (r: Result<(u8, usize), ()>)
    requires
        i <= b@.len(),
    ensures
        match r {
            Ok((v, e)) => {
                &&& e == token_end(b@, i as int)
                &&& i < e <= b@.len()
                &&& octet_ok(b@, i as int, e as int)
                &&& v == octet_value(b@, i as int, e as int)
            },
            Err(()) => !octet_ok(b@, i as int, token_end(b@, i as int)),
        },
{
    let n = b.len();
    let mut j = i;
    let mut val: u32 = 0;
    loop
        invariant
            i <= j <= n,
            n == b@.len(),
            forall|k: int| i <= k < j ==> is_digit(b@[k]) && b@[k] != 46,
            val == octet_value(b@, i as int, j as int),
            val <= 255,
        ensures
            i <= j <= n,
            n == b@.len(),
            forall|k: int| i <= k < j ==> is_digit(b@[k]) && b@[k] != 46,
            val == octet_value(b@, i as int, j as int),
            val <= 255,
            j == n || b@[j as int] == 46,
        decreases n - j,
    {
        if j >= n {
            break ;
        }
        let ch = b[j];
        if ch == 46 {
            break ;
        }
        if ch < 48 || ch > 57 {
            // A non-digit inside the token: the octet is invalid whatever
            // follows.
            proof {
                lemma_token_end_skip(b@, i as int, j as int);
                lemma_token_end_bounds(b@, j + 1);
                assert(token_end(b@, j as int) == token_end(b@, j + 1));
                assert(!is_digit(b@[j as int]));
            }
            return Err(());
        }
        let d = (ch - 48) as u32;
        let val2 = val * 10 + d;
        if val2 > 255 {
            // The digits seen already exceed 255; more digits cannot
            // shrink the value, and a later non-digit invalidates the
            // token anyway.
            proof {
                let te = token_end(b@, i as int);
                lemma_token_end_skip(b@, i as int, j as int);
                lemma_token_end_bounds(b@, j as int);
                if forall|k: int| i <= k < te ==> is_digit(b@[k]) {
                    assert(octet_value(b@, i as int, j + 1) == val2);
                    assert(j + 1 <= te) by {
                        assert(token_end(b@, j as int) == token_end(b@, j + 1));
                        lemma_token_end_bounds(b@, j + 1);
                    }
                    lemma_octet_value_mono(b@, i as int, j + 1, te);
                }
            }
            return Err(());
        }
        val = val2;
        j = j + 1;
    }
    // Here j is the token end: either the end of the text or a dot.
    proof {
        lemma_token_end_is(b@, i as int, j as int);
    }
    if j == i {
        return Err(());
    }
    Ok((val as u8, j))
}

impl Addr {
    /// Parse dotted-decimal text: four octet values separated by dots.
    pub fn parse_str(s: &str) -> (r: Result<Addr, ParseAddrError>)
        ensures
            match r {
                Ok(a) => spec_parse_addr(s.spec_bytes()) == Ok::<Seq<u8>, ParseAddrError>(a@),
                Err(e) => spec_parse_addr(s.spec_bytes()) == Err::<Seq<u8>, ParseAddrError>(e),
            },
    {
        let b = s.as_bytes();
        let n = b.len();
        let (v0, e0) = match scan_octet(b, 0) {
            Ok(x) => x,
            Err(_) => {
                return Err(ParseAddrError::InvalidOctet);
            },
        };
        if e0 >= n {
            return Err(ParseAddrError::InsufficientOctets);
        }
        let (v1, e1) = match scan_octet(b, e0 + 1) {
            Ok(x) => x,
            Err(_) => {
                return Err(ParseAddrError::InvalidOctet);
            },
        };
        if e1 >= n {
            return Err(ParseAddrError::InsufficientOctets);
        }
        let (v2, e2) = match scan_octet(b, e1 + 1) {
            Ok(x) => x,
            Err(_) => {
                return Err(ParseAddrError::InvalidOctet);
            },
        };
        if e2 >= n {
            return Err(ParseAddrError::InsufficientOctets);
        }
        let (v3, e3) = match scan_octet(b, e2 + 1) {
            Ok(x) => x,
            Err(_) => {
                return Err(ParseAddrError::InvalidOctet);
            },
        };
        if e3 < n {
            return Err(ParseAddrError::TooManyOctets);
        }
        let a = Addr([v0, v1, v2, v3]);
        proof {
            assert(a@ =~= spec_parse_addr(s.spec_bytes())->Ok_0);
        }
        Ok(a)
    }
}

impl core::str::FromStr for Addr {
    type Err = ParseAddrError;

    fn from_str(s: &str) -> Result<Addr, ParseAddrError> {
        Addr::parse_str(s)
    }
}

impl Default for Packet {
    /// An empty packet: canonical constants in every fixed field, a fresh
    /// random identification, no protocol, an unknown payload.
    fn default() -> (d: Packet)
        ensures
            d.version == 4 && d.ihl == 5 && d.dscp == 0 && d.ecn == 0,
            d.length == 0 && d.flags == 0 && d.fragment_offset == 0,
            d.ttl == 128 && d.checksum == 0,
            d.protocol is None,
            d.src@ =~= seq![0u8, 0u8, 0u8, 0u8],
            d.dst@ =~= seq![0u8, 0u8, 0u8, 0u8],
            d@.payload is Unknown,
    {
        Packet {
            version: 4,
            ihl: 5,
            dscp: 0,
            ecn: 0,
            length: 0,
            identification: random_identification(),
            flags: 0,
            fragment_offset: 0,
            ttl: 128,
            protocol: None,
            checksum: 0,
            src: Addr::zero(),
            dst: Addr::zero(),
            payload: Payload::Unknown,
        }
    }
}

} // verus!
