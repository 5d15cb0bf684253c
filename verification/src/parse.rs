//! Decode primitives over a byte buffer: a byte-level cursor, a bit-level
//! cursor for fields narrower than a byte, and the diagnostic error chain
//! that decode failures carry outward.

use vstd::prelude::*;
use vstd::arithmetic::power2::{pow2, lemma_pow2_unfold, lemma2_to64};

verus! {

/// The closed-taxonomy wire field whose decoded value was outside its taxonomy.
#[derive(Clone, Copy, PartialEq, Eq, Structural, Debug)]
pub enum UnsupportedValue {
    /// The IPv4 version nibble was not 4.
    Ipv4Version,
    /// The ARP hardware type was not Ethernet (1).
    ArpHardwareType,
    /// The ARP protocol type was not IPv4 (0x0800).
    ArpProtocolType,
    /// The ARP operation was neither Request (1) nor Reply (2).
    ArpOperation,
}

/// A named enclosing context attached to a failure that escapes its scope.
#[derive(Clone, Copy, PartialEq, Eq, Structural, Debug)]
pub enum Label {
    MacAddress,
    EtherType,
    EthernetFrame,
    Ipv4Address,
    Ipv4Protocol,
    ArpHardwareType,
    ArpOperation,
}

/// One reason in the diagnostic chain.
#[derive(Clone, Copy, PartialEq, Eq, Structural, Debug)]
pub enum ErrorKind {
    /// A primitive decode step failed: not enough input remained.
    Decode,
    /// A named enclosing context.
    Context(Label),
    /// A closed-taxonomy field held a disallowed value.
    Unsupported(UnsupportedValue),
}

/// An ordered list of (byte offset, reason) entries. Entries are appended
/// outward as a failure propagates, so the innermost reason sits at index 0.
#[derive(Clone, Debug)]
pub struct Error {
    pub errors: Vec<(usize, ErrorKind)>,
}

impl Error {
    /// A chain is well formed when it records at least one reason.
    pub open spec fn wf(self) -> bool {
        self.errors@.len() > 0
    }

    /// The reason closest to the failing byte.
    pub open spec fn innermost(self) -> ErrorKind
        recommends self.wf(),
    {
        self.errors@[0].1
    }

    /// Whether this failure is a disallowed closed-taxonomy value, rather
    /// than a structural shortage of bytes.
    pub open spec fn spec_is_unsupported(self) -> bool
        recommends self.wf(),
    {
        self.innermost() is Unsupported
    }

    /// A single-entry chain: a primitive ran out of input at `pos`.
    pub fn decode(pos: usize) -> (e: Error)
        ensures
            e.errors@ =~= seq![(pos, ErrorKind::Decode)],
    {
        Error { errors: vec![(pos, ErrorKind::Decode)] }
    }

    /// A single-entry chain: the field starting at `pos` held a value
    /// outside its closed taxonomy.
    pub fn custom(pos: usize, value: UnsupportedValue) -> (e: Error)
        ensures
            e.errors@ =~= seq![(pos, ErrorKind::Unsupported(value))],
    {
        Error { errors: vec![(pos, ErrorKind::Unsupported(value))] }
    }

    /// Append a named context for the region starting at `pos`; the chain
    /// keeps its innermost reason first.
    pub fn with_context(self, pos: usize, label: Label) -> (e: Error)
        ensures
            e.errors@ =~= self.errors@.push((pos, ErrorKind::Context(label))),
    {
        let mut errors = self.errors;
        errors.push((pos, ErrorKind::Context(label)));
        Error { errors }
    }

    /// The disallowed-value report, when that is what this chain records.
    pub fn unsupported_value(&self) -> (r: Option<UnsupportedValue>)
        requires
            self.wf(),
        ensures
            match r {
                Some(v) => self.innermost() == ErrorKind::Unsupported(v),
                None => !self.spec_is_unsupported(),
            },
    {
        match self.errors[0].1 {
            ErrorKind::Unsupported(v) => Some(v),
            _ => None,
        }
    }
}

/// What a parse yields on a byte sequence: a value and the count of bytes
/// consumed, a structural shortage of bytes, or a closed-taxonomy field
/// whose value the protocol does not allow.
pub enum SpecOutcome<T> {
    Done { value: T, used: int },
    Short,
    Rejected(UnsupportedValue),
}

/// An immutable position into an input buffer; every decode step returns an
/// advanced cursor plus a value, or an error.
#[derive(Clone, Copy)]
pub struct Cursor<'a> {
    pub buf: &'a [u8],
    pub pos: usize,
}

impl<'a> Cursor<'a> {
    pub open spec fn wf(self) -> bool {
        self.pos <= self.buf@.len()
    }

    /// The bytes not yet consumed.
    pub open spec fn rest(self) -> Seq<u8>
        recommends self.wf(),
    {
        self.buf@.skip(self.pos as int)
    }

    pub open spec fn remaining(self) -> int {
        self.buf@.len() - self.pos
    }

    pub fn new(buf: &'a [u8]) -> (c: Cursor<'a>)
        ensures
            c.buf@ == buf@,
            c.pos == 0,
            c.wf(),
            c.rest() == buf@,
    {
        let c = Cursor { buf, pos: 0 };
        proof {
            assert(c.rest() =~= buf@);
        }
        c
    }

    /// Read one byte.
    pub fn be_u8(self) -> (r: Result<(Cursor<'a>, u8), Error>)
        requires
            self.wf(),
        ensures
            match r {
                Ok((c, v)) => {
                    &&& self.remaining() >= 1
                    &&& c.buf == self.buf
                    &&& c.pos == self.pos + 1
                    &&& c.wf()
                    &&& v == self.buf@[self.pos as int]
                },
                Err(e) => {
                    &&& self.remaining() == 0
                    &&& e.errors@ =~= seq![(self.pos, ErrorKind::Decode)]
                },
            },
    {
        if self.pos < self.buf.len() {
            let v = self.buf[self.pos];
            Ok((Cursor { buf: self.buf, pos: self.pos + 1 }, v))
        } else {
            Err(Error::decode(self.pos))
        }
    }

    /// Read a big-endian 16-bit integer.
    pub fn be_u16(self) -> (r: Result<(Cursor<'a>, u16), Error>)
        requires
            self.wf(),
        ensures
            match r {
                Ok((c, v)) => {
                    &&& self.remaining() >= 2
                    &&& c.buf == self.buf
                    &&& c.pos == self.pos + 2
                    &&& c.wf()
                    &&& v == be16(self.buf@[self.pos as int], self.buf@[self.pos + 1])
                },
                Err(e) => {
                    &&& self.remaining() < 2
                    &&& e.errors@ =~= seq![(self.pos, ErrorKind::Decode)]
                },
            },
    {
        if self.buf.len() - self.pos >= 2 {
            let hi = self.buf[self.pos];
            let lo = self.buf[self.pos + 1];
            let v = ((hi as u16) << 8u16) | (lo as u16);
            proof {
                let h = hi;
                let l = lo;
                assert(((h as u16) << 8u16) | (l as u16) == (h as u16) * 256 + (l as u16))
                    by (bit_vector);
            }
            Ok((Cursor { buf: self.buf, pos: self.pos + 2 }, v))
        } else {
            Err(Error::decode(self.pos))
        }
    }

    /// Read a big-endian 32-bit integer.
    pub fn be_u32(self) -> (r: Result<(Cursor<'a>, u32), Error>)
        requires
            self.wf(),
        ensures
            match r {
                Ok((c, v)) => {
                    &&& self.remaining() >= 4
                    &&& c.buf == self.buf
                    &&& c.pos == self.pos + 4
                    &&& c.wf()
                    &&& v == be32(
                        self.buf@[self.pos as int],
                        self.buf@[self.pos + 1],
                        self.buf@[self.pos + 2],
                        self.buf@[self.pos + 3],
                    )
                },
                Err(e) => {
                    &&& self.remaining() < 4
                    &&& e.errors@ =~= seq![(self.pos, ErrorKind::Decode)]
                },
            },
    {
        if self.buf.len() - self.pos >= 4 {
            let b0 = self.buf[self.pos];
            let b1 = self.buf[self.pos + 1];
            let b2 = self.buf[self.pos + 2];
            let b3 = self.buf[self.pos + 3];
            let v = ((b0 as u32) << 24u32) | ((b1 as u32) << 16u32) | ((b2 as u32) << 8u32)
                | (b3 as u32);
            proof {
                let x0 = b0;
                let x1 = b1;
                let x2 = b2;
                let x3 = b3;
                assert(((x0 as u32) << 24u32) | ((x1 as u32) << 16u32) | ((x2 as u32) << 8u32)
                    | (x3 as u32) == ((x0 as u32) * 0x1000000 + (x1 as u32) * 0x10000 + (
                x2 as u32) * 0x100 + (x3 as u32))) by (bit_vector);
            }
            Ok((Cursor { buf: self.buf, pos: self.pos + 4 }, v))
        } else {
            Err(Error::decode(self.pos))
        }
    }

    /// Read a fixed-length run of bytes.
    pub fn take(self, n: usize) -> (r: Result<(Cursor<'a>, &'a [u8]), Error>)
        requires
            self.wf(),
        ensures
            match r {
                Ok((c, s)) => {
                    &&& self.remaining() >= n
                    &&& c.buf == self.buf
                    &&& c.pos == self.pos + n
                    &&& c.wf()
                    &&& s@ == self.buf@.subrange(self.pos as int, self.pos + n)
                },
                Err(e) => {
                    &&& self.remaining() < n
                    &&& e.errors@ =~= seq![(self.pos, ErrorKind::Decode)]
                },
            },
    {
        if n <= self.buf.len() - self.pos {
            let s = vstd::slice::slice_subrange(self.buf, self.pos, self.pos + n);
            Ok((Cursor { buf: self.buf, pos: self.pos + n }, s))
        } else {
            Err(Error::decode(self.pos))
        }
    }

    /// The not-yet-consumed bytes, as a slice.
    pub fn rest_slice(self) -> (s: &'a [u8])
        requires
            self.wf(),
        ensures
            s@ == self.rest(),
    {
        let s = vstd::slice::slice_subrange(self.buf, self.pos, self.buf.len());
        proof {
            assert(s@ =~= self.rest());
        }
        s
    }

    /// Enter bit-level decoding at the current byte.
    pub fn bits(self) -> (b: BitCursor<'a>)
        requires
            self.wf(),
        ensures
            b.buf == self.buf,
            b.pos == self.pos,
            b.off == 0,
            b.wf(),
            b.bitpos() == 8 * self.pos,
    {
        BitCursor { buf: self.buf, pos: self.pos, off: 0 }
    }
}

/// The value of the big-endian 16-bit word with bytes `hi`, `lo`.
pub open spec fn be16(hi: u8, lo: u8) -> u16 {
    ((hi as int) * 256 + (lo as int)) as u16
}

/// The value of the big-endian 32-bit word with the given bytes.
pub open spec fn be32(b0: u8, b1: u8, b2: u8, b3: u8) -> u32 {
    ((b0 as int) * 0x1000000 + (b1 as int) * 0x10000 + (b2 as int) * 0x100 + (b3 as int)) as u32
}

/// Bit `k` of the buffer, counting most-significant-bit-first within each
/// byte: bit 0 is the top bit of byte 0.
pub open spec fn bit_at(b: Seq<u8>, k: int) -> u16
    recommends 0 <= k < 8 * b.len(),
{
    ((b[k / 8] >> ((7 - (k % 8)) as u8)) & 1) as u16
}

/// The value of the `n` bits starting at bit `k`, read most-significant
/// first.
pub open spec fn bits_at(b: Seq<u8>, k: int, n: nat) -> int
    recommends 0 <= k, k + n <= 8 * b.len(),
    decreases n,
{
    if n == 0 {
        0
    } else {
        bits_at(b, k, (n - 1) as nat) * 2 + bit_at(b, k + n - 1)
    }
}

/// A single bit is zero or one.
pub proof fn lemma_bit_at_bound(b: Seq<u8>, k: int)
    ensures
        0 <= bit_at(b, k) <= 1,
{
    let x = b[k / 8];
    let sh = (7 - (k % 8)) as u8;
    assert((x >> sh) & 1 <= 1) by (bit_vector);
}

/// A run of `n` bits is below `pow2(n)`.
pub proof fn lemma_bits_at_bound(b: Seq<u8>, k: int, n: nat)
    ensures
        0 <= bits_at(b, k, n) < pow2(n),
    decreases n,
{
    if n == 0 {
        assert(pow2(0) == 1) by {
            lemma2_to64();
        }
    } else {
        lemma_bits_at_bound(b, k, (n - 1) as nat);
        lemma_bit_at_bound(b, k + n - 1);
        lemma_pow2_unfold(n);
    }
}

/// Reading `m + n` bits is reading `m` bits and then `n` bits.
pub proof fn lemma_bits_at_split(b: Seq<u8>, k: int, m: nat, n: nat)
    ensures
        bits_at(b, k, m + n) == bits_at(b, k, m) * pow2(n) + bits_at(b, k + m, n),
    decreases n,
{
    if n == 0 {
        assert(pow2(0) == 1) by {
            lemma2_to64();
        }
    } else {
        lemma_bits_at_split(b, k, m, (n - 1) as nat);
        lemma_pow2_unfold(n);
        assert(bits_at(b, k, (m + n - 1) as nat) == bits_at(b, k, m) * pow2((n - 1) as nat)
            + bits_at(b, k + m, (n - 1) as nat));
        assert(bits_at(b, k, m + n) == bits_at(b, k, (m + n - 1) as nat) * 2
            + bit_at(b, k + m + n - 1));
        assert(bits_at(b, k + m, n) == bits_at(b, k + m, (n - 1) as nat) * 2
            + bit_at(b, k + m + n - 1));
        assert(bits_at(b, k, m) * pow2((n - 1) as nat) * 2 == bits_at(b, k, m) * (pow2(
            (n - 1) as nat) * 2)) by (nonlinear_arith);
    }
}

/// An aligned run of eight bits is the byte itself.
pub proof fn lemma_bits_at_byte(b: Seq<u8>, i: int)
    requires
        0 <= i < b.len(),
    ensures
        bits_at(b, 8 * i, 8) == b[i],
{
    reveal_with_fuel(bits_at, 9);
    let x = b[i];
    assert((8 * i) / 8 == i && (8 * i + 1) / 8 == i && (8 * i + 2) / 8 == i && (8 * i + 3) / 8 == i
        && (8 * i + 4) / 8 == i && (8 * i + 5) / 8 == i && (8 * i + 6) / 8 == i
        && (8 * i + 7) / 8 == i);
    assert((8 * i) % 8 == 0 && (8 * i + 1) % 8 == 1 && (8 * i + 2) % 8 == 2 && (8 * i + 3) % 8 == 3
        && (8 * i + 4) % 8 == 4 && (8 * i + 5) % 8 == 5 && (8 * i + 6) % 8 == 6
        && (8 * i + 7) % 8 == 7);
    assert(((x >> 7u8) & 1) as u16 * 128 + ((x >> 6u8) & 1) as u16 * 64 + ((x >> 5u8) & 1) as u16
        * 32 + ((x >> 4u8) & 1) as u16 * 16 + ((x >> 3u8) & 1) as u16 * 8 + ((x >> 2u8) & 1) as u16
        * 4 + ((x >> 1u8) & 1) as u16 * 2 + ((x >> 0u8) & 1) as u16 == x as u16) by (bit_vector);
}

/// The two nibbles of a byte, as bit runs.
pub proof fn lemma_bits_at_nibbles(s: Seq<u8>, i: int)
    requires
        0 <= i < s.len(),
    ensures
        bits_at(s, 8 * i, 4) == s[i] >> 4u8,
        bits_at(s, 8 * i + 4, 4) == s[i] & 0xf,
{
    lemma_bits_at_byte(s, i);
    lemma_bits_at_split(s, 8 * i, 4, 4);
    lemma_bits_at_bound(s, 8 * i, 4);
    lemma_bits_at_bound(s, 8 * i + 4, 4);
    assert(pow2(4) == 16) by {
        lemma2_to64();
    }
    let x = s[i];
    let h = bits_at(s, 8 * i, 4) as u8;
    let l = bits_at(s, 8 * i + 4, 4) as u8;
    assert((h < 16 && l < 16 && x == h * 16 + l) ==> (h == (x >> 4u8) && l == (x & 0xf)))
        by (bit_vector);
}

/// A 6-bit and a 2-bit run packed into one byte.
pub proof fn lemma_bits_at_6_2(s: Seq<u8>, i: int)
    requires
        0 <= i < s.len(),
    ensures
        bits_at(s, 8 * i, 6) == s[i] >> 2u8,
        bits_at(s, 8 * i + 6, 2) == s[i] & 0x3,
{
    lemma_bits_at_byte(s, i);
    lemma_bits_at_split(s, 8 * i, 6, 2);
    lemma_bits_at_bound(s, 8 * i, 6);
    lemma_bits_at_bound(s, 8 * i + 6, 2);
    assert(pow2(2) == 4 && pow2(6) == 64) by {
        lemma2_to64();
    }
    let x = s[i];
    let h = bits_at(s, 8 * i, 6) as u8;
    let l = bits_at(s, 8 * i + 6, 2) as u8;
    assert((h < 64 && l < 4 && x == h * 4 + l) ==> (h == (x >> 2u8) && l == (x & 0x3)))
        by (bit_vector);
}

/// A 3-bit and a 13-bit run packed into two bytes.
pub proof fn lemma_bits_at_3_13(s: Seq<u8>, i: int)
    requires
        0 <= i,
        i + 1 < s.len(),
    ensures
        bits_at(s, 8 * i, 3) == s[i] >> 5u8,
        bits_at(s, 8 * i + 3, 13) == ((s[i] & 0x1f) as int) * 256 + s[i + 1],
{
    lemma_bits_at_byte(s, i);
    lemma_bits_at_byte(s, i + 1);
    lemma_bits_at_split(s, 8 * i, 8, 8);
    lemma_bits_at_split(s, 8 * i, 3, 13);
    lemma_bits_at_bound(s, 8 * i, 3);
    lemma_bits_at_bound(s, 8 * i + 3, 13);
    assert(pow2(8) == 256 && pow2(13) == 8192) by {
        lemma2_to64();
    }
    let x = s[i];
    let y = s[i + 1];
    let h = bits_at(s, 8 * i, 3) as u16;
    let l = bits_at(s, 8 * i + 3, 13) as u16;
    assert((h < 8 && l < 8192 && (x as u16) * 256 + (y as u16) == h * 8192 + l) ==> ((h as u8) == (
    x >> 5u8) && l == ((x & 0x1f) as u16) * 256 + (y as u16))) by (bit_vector);
}

/// A cursor paired with a bit offset into the next byte, for fields narrower
/// than a byte. Bits are read most-significant-bit-first.
#[derive(Clone, Copy)]
pub struct BitCursor<'a> {
    pub buf: &'a [u8],
    pub pos: usize,
    pub off: usize,
}

impl<'a> BitCursor<'a> {
    pub open spec fn wf(self) -> bool {
        &&& self.off < 8
        &&& if self.off == 0 {
            self.pos <= self.buf@.len()
        } else {
            self.pos < self.buf@.len()
        }
    }

    /// The absolute bit position from the start of the buffer.
    pub open spec fn bitpos(self) -> int {
        8 * self.pos + self.off
    }

    /// Read `n` bits (at most 16), most-significant first.
    pub fn take_bits(self, n: usize) -> (r: Result<(BitCursor<'a>, u16), Error>)
        requires
            self.wf(),
            n <= 16,
        ensures
            match r {
                Ok((c, v)) => {
                    &&& self.bitpos() + n <= 8 * self.buf@.len()
                    &&& c.buf == self.buf
                    &&& c.bitpos() == self.bitpos() + n
                    &&& c.wf()
                    &&& v as int == bits_at(self.buf@, self.bitpos(), n as nat)
                },
                Err(e) => {
                    &&& self.bitpos() + n > 8 * self.buf@.len()
                    &&& e.errors@ =~= seq![(self.pos, ErrorKind::Decode)]
                },
            },
    {
        let len = self.buf.len();
        if n == 0 {
            return Ok((self, 0));
        }
        let have_bytes = len - self.pos;
        // With three whole bytes in hand, any run of up to 16 bits fits,
        // whatever the bit offset; below that the exact count decides.
        if have_bytes < 3 && 8 * have_bytes < n + self.off {
            return Err(Error::decode(self.pos));
        }
        let mut acc: u16 = 0;
        let mut pos = self.pos;
        let mut off = self.off;
        let mut j: usize = 0;
        while j < n
            invariant
                self.wf(),
                n <= 16,
                j <= n,
                self.bitpos() + n <= 8 * self.buf@.len(),
                8 * pos + off == self.bitpos() + j,
                off < 8,
                pos <= self.buf@.len(),
                j < n ==> pos < self.buf@.len(),
                acc as int == bits_at(self.buf@, self.bitpos(), j as nat),
            decreases n - j,
        {
            proof {
                lemma_bits_at_bound(self.buf@, self.bitpos(), j as nat);
                lemma_bit_at_bound(self.buf@, self.bitpos() + j);
                assert(pow2(15) == 0x8000) by {
                    lemma2_to64();
                }
                if (j as nat) < 15 {
                    vstd::arithmetic::power2::lemma_pow2_strictly_increases(j as nat, 15);
                }
                assert(acc < 0x8000);
            }
            let byte = self.buf[pos];
            let sh: u8 = (7 - off) as u8;
            let bit: u16 = ((byte >> sh) & 1) as u16;
            proof {
                let x = byte;
                let s = sh;
                assert((x >> s) & 1 <= 1) by (bit_vector);
                assert((8 * (pos as int) + (off as int)) / 8 == pos as int
                    && (8 * (pos as int) + (off as int)) % 8 == off as int) by (nonlinear_arith)
                    requires off < 8, 0 <= pos,
                ;
                assert(bit == bit_at(self.buf@, self.bitpos() + j));
                assert(bits_at(self.buf@, self.bitpos(), (j + 1) as nat) == bits_at(
                    self.buf@, self.bitpos(), j as nat) * 2 + bit_at(self.buf@, self.bitpos() + j));
            }
            acc = acc * 2 + bit;
            off = off + 1;
            if off == 8 {
                off = 0;
                pos = pos + 1;
            }
            j = j + 1;
        }
        Ok((BitCursor { buf: self.buf, pos, off }, acc))
    }

    /// Leave bit-level decoding: any partially consumed byte is consumed
    /// whole.
    pub fn bytes(self) -> (c: Cursor<'a>)
        requires
            self.wf(),
        ensures
            c.buf == self.buf,
            c.wf(),
            c.pos == if self.off == 0 { self.pos as int } else { self.pos + 1 },
    {
        if self.off == 0 {
            Cursor { buf: self.buf, pos: self.pos }
        } else {
            let len = self.buf.len();
            Cursor { buf: self.buf, pos: self.pos + 1 }
        }
    }
}

} // verus!
