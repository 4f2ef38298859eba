//! Little-endian bit streams: within a byte the least significant bit comes
//! first, and bytes come in stream order.

use vstd::prelude::*;
use vstd::arithmetic::power2::*;
use vstd::arithmetic::div_mod::*;
use vstd::arithmetic::mul::*;
use vstd::bits::*;

verus! {

/// Bit `i` of `s`, with `s` read as one little-endian bit string.
pub open spec fn bit_at(s: Seq<u8>, i: nat) -> nat {
    (s[(i / 8) as int] as nat / pow2(i % 8)) % 2
}

/// The `n` bits of `s` that start at bit `start`, as the unsigned integer
/// whose bit `k` is bit `start + k` of `s`.
pub open spec fn bits_le(s: Seq<u8>, start: nat, n: nat) -> nat
    decreases n,
{
    if n == 0 {
        0
    } else {
        bit_at(s, start) + 2 * bits_le(s, start + 1, (n - 1) as nat)
    }
}

/// An integer of `n` bits is below `2^n`.
pub proof fn lemma_bits_le_bound(s: Seq<u8>, start: nat, n: nat)
    ensures
        bits_le(s, start, n) < pow2(n),
    decreases n,
{
    lemma2_to64();
    lemma_pow2_pos(n);
    if n > 0 {
        assert(bit_at(s, start) < 2);
        lemma_bits_le_bound(s, start + 1, (n - 1) as nat);
        lemma_pow2_unfold(n);
    }
}

/// Reading `a + b` bits is reading `a` bits, then `b` more above them.
pub proof fn lemma_bits_le_split(s: Seq<u8>, start: nat, a: nat, b: nat)
    ensures
        bits_le(s, start, a + b) == bits_le(s, start, a) + pow2(a) * bits_le(s, start + a, b),
    decreases a,
{
    lemma2_to64();
    if a == 0 {
        assert(start + 0 == start);
    } else {
        lemma_bits_le_split(s, start + 1, (a - 1) as nat, b);
        lemma_pow2_unfold(a);
        let rest = bits_le(s, start + a, b);
        assert(bits_le(s, start, a + b) == bit_at(s, start) + 2 * bits_le(
            s,
            start + 1,
            (a + b - 1) as nat,
        ));
        assert((a - 1) as nat + b == (a + b - 1) as nat);
        assert(2 * (bits_le(s, start + 1, (a - 1) as nat) + pow2((a - 1) as nat) * rest) == 2
            * bits_le(s, start + 1, (a - 1) as nat) + (2 * pow2((a - 1) as nat)) * rest)
            by (nonlinear_arith);
    }
}

/// Bit `i` of the integer that `n` bits read from `start` make is bit
/// `start + i` of the stream.
pub proof fn lemma_bits_le_bit(s: Seq<u8>, start: nat, n: nat, i: nat)
    requires
        i < n,
    ensures
        (bits_le(s, start, n) / pow2(i)) % 2 == bit_at(s, start + i),
    decreases i,
{
    lemma2_to64();
    let b = bit_at(s, start);
    let rest = bits_le(s, start + 1, (n - 1) as nat);
    assert(b < 2);
    assert(bits_le(s, start, n) == b + 2 * rest);
    if i == 0 {
        assert((b + 2 * rest) / 1 == b + 2 * rest);
        assert((b + 2 * rest) % 2 == b);
        assert(start + 0 == start);
    } else {
        lemma_bits_le_bit(s, start + 1, (n - 1) as nat, (i - 1) as nat);
        lemma_pow2_unfold(i);
        lemma_pow2_pos((i - 1) as nat);
        assert((b + 2 * rest) / 2 == rest);
        lemma_div_denominator((b + 2 * rest) as int, 2, pow2((i - 1) as nat) as int);
        assert(start + 1 + (i - 1) as nat == start + i);
    }
}

/// Bits `j .. j + m` of byte `k`, read through the bit string.
pub proof fn lemma_bits_in_byte(s: Seq<u8>, k: nat, j: nat, m: nat)
    requires
        k < s.len(),
        j + m <= 8,
    ensures
        bits_le(s, 8 * k + j, m) == (s[k as int] as nat / pow2(j)) % pow2(m),
    decreases m,
{
    lemma2_to64();
    lemma_pow2_pos(j);
    if m > 0 {
        let x = s[k as int] as nat / pow2(j);
        assert((8 * k + j) / 8 == k && (8 * k + j) % 8 == j) by (nonlinear_arith)
            requires
                j < 8,
        ;
        lemma_bits_in_byte(s, k, j + 1, (m - 1) as nat);
        assert(8 * k + j + 1 == 8 * k + (j + 1));
        lemma_pow2_unfold(j + 1);
        lemma_pow2_unfold(m);
        lemma_pow2_pos((m - 1) as nat);
        lemma_div_denominator(s[k as int] as int, pow2(j) as int, 2);
        assert(pow2(j) * 2 == pow2(j + 1));
        lemma_mod_breakdown(x as int, 2, pow2((m - 1) as nat) as int);
    }
}

/// A full byte read at a byte boundary is the byte itself.
pub proof fn lemma_bits_whole_byte(s: Seq<u8>, k: nat)
    requires
        k < s.len(),
    ensures
        bits_le(s, 8 * k, 8) == s[k as int],
{
    lemma_bits_in_byte(s, k, 0, 8);
    lemma2_to64();
    assert(8 * k + 0 == 8 * k);
}

/// Why a bit read failed.
#[derive(Debug, Clone, Copy, PartialEq, Eq, Structural)]
pub enum BitsReadError {
    /// The stream ended before the requested bits.
    UnexpectedEOF,
    /// The requested number of bits does not fit the result type.
    InsufficientTypeSize,
    /// The value could not be converted into the result type.
    ConvertFromU8,
}

/// A type with a fixed number of bits.
pub trait BitSized {
    spec fn spec_bits() -> nat;

    /// Number of bits of the type.
    fn bits() -> (r: u8)
        ensures
            r as nat == Self::spec_bits(),
            8 <= r <= 64,
    ;

    /// Number of bytes of the type.
    fn bytes() -> (r: u8)
        ensures
            8 * (r as nat) == Self::spec_bits(),
    ;
}

/// An unsigned integer type that bits can be read into and written from.
pub trait Primitive: BitSized + Sized {
    spec fn spec_value(&self) -> nat;

    /// The value `v`, which fits the type.
    fn from_u64(v: u64) -> (r: Self)
        requires
            v < pow2(Self::spec_bits()),
        ensures
            r.spec_value() == v,
    ;

    /// The value as a `u64`.
    fn to_u64(&self) -> (r: u64)
        ensures
            r as nat == self.spec_value(),
            self.spec_value() < pow2(Self::spec_bits()),
    ;
}

impl BitSized for u8 {
    open spec fn spec_bits() -> nat {
        8
    }

    fn bits() -> (r: u8) {
        8
    }

    fn bytes() -> (r: u8) {
        1
    }
}

impl Primitive for u8 {
    open spec fn spec_value(&self) -> nat {
        *self as nat
    }

    fn from_u64(v: u64) -> (r: Self) {
        proof {
            lemma2_to64();
        }
        v as u8
    }

    fn to_u64(&self) -> (r: u64) {
        proof {
            lemma2_to64();
        }
        *self as u64
    }
}

impl BitSized for u16 {
    open spec fn spec_bits() -> nat {
        16
    }

    fn bits() -> (r: u8) {
        16
    }

    fn bytes() -> (r: u8) {
        2
    }
}

impl Primitive for u16 {
    open spec fn spec_value(&self) -> nat {
        *self as nat
    }

    fn from_u64(v: u64) -> (r: Self) {
        proof {
            lemma2_to64();
        }
        v as u16
    }

    fn to_u64(&self) -> (r: u64) {
        proof {
            lemma2_to64();
        }
        *self as u64
    }
}

impl BitSized for u32 {
    open spec fn spec_bits() -> nat {
        32
    }

    fn bits() -> (r: u8) {
        32
    }

    fn bytes() -> (r: u8) {
        4
    }
}

impl Primitive for u32 {
    open spec fn spec_value(&self) -> nat {
        *self as nat
    }

    fn from_u64(v: u64) -> (r: Self) {
        proof {
            lemma2_to64();
        }
        v as u32
    }

    fn to_u64(&self) -> (r: u64) {
        proof {
            lemma2_to64();
        }
        *self as u64
    }
}

impl BitSized for u64 {
    open spec fn spec_bits() -> nat {
        64
    }

    fn bits() -> (r: u8) {
        64
    }

    fn bytes() -> (r: u8) {
        8
    }
}

impl Primitive for u64 {
    open spec fn spec_value(&self) -> nat {
        *self as nat
    }

    fn from_u64(v: u64) -> (r: Self) {
        v
    }

    fn to_u64(&self) -> (r: u64) {
        proof {
            lemma2_to64();
        }
        *self
    }
}

/// Reads bits from a byte stream, least significant bit of each byte first.
pub trait BitReader: Sized {
    /// The whole byte stream.
    spec fn stream(&self) -> Seq<u8>;

    /// How many bits of the stream have been read.
    spec fn cursor(&self) -> nat;

    spec fn wf(&self) -> bool;

    /// Bits of the stream not yet read.
    open spec fn bits_left(&self) -> int {
        8 * self.stream().len() - self.cursor()
    }

    /// Reads the next bit.
    fn read_bit(&mut self) -> (r: Result<bool, BitsReadError>)
        requires
            old(self).wf(),
        ensures
            final(self).wf(),
            final(self).stream() == old(self).stream(),
            old(self).bits_left() >= 1 <==> r is Ok,
            r is Err ==> r == Err::<bool, BitsReadError>(BitsReadError::UnexpectedEOF),
            r is Ok ==> {
                &&& r->Ok_0 == (bit_at(old(self).stream(), old(self).cursor()) == 1)
                &&& final(self).cursor() == old(self).cursor() + 1
            },
    ;

    /// Reads the next `bits` bits as a little-endian integer of type `U`.
    fn read_n<U: Primitive>(&mut self, bits: u8) -> (r: Result<U, BitsReadError>)
        requires
            old(self).wf(),
        ensures
            final(self).wf(),
            final(self).stream() == old(self).stream(),
            bits as nat > U::spec_bits() ==> r == Err::<U, BitsReadError>(
                BitsReadError::InsufficientTypeSize,
            ) && final(self).cursor() == old(self).cursor(),
            bits as nat <= U::spec_bits() ==> (r is Ok <==> bits as int <= old(self).bits_left()),
            bits as nat <= U::spec_bits() && r is Err ==> r == Err::<U, BitsReadError>(
                BitsReadError::UnexpectedEOF,
            ),
            final(self).cursor() <= 8 * final(self).stream().len(),
            r is Ok ==> {
                &&& r->Ok_0.spec_value() == bits_le(old(self).stream(), old(self).cursor(), bits as nat)
                &&& final(self).cursor() == old(self).cursor() + bits
            },
    ;

    /// Skips the next `bits` bits.
    fn skip(&mut self, bits: u8) -> (r: Result<(), BitsReadError>)
        requires
            old(self).wf(),
        ensures
            final(self).wf(),
            final(self).stream() == old(self).stream(),
            r is Ok <==> bits as int <= old(self).bits_left(),
            r is Err ==> r == Err::<(), BitsReadError>(BitsReadError::UnexpectedEOF),
            r is Ok ==> final(self).cursor() == old(self).cursor() + bits,
    ;
}

/// A bit reader over an in-memory byte stream.
pub struct LittleEndianReader {
    /// The byte stream.
    reader: Vec<u8>,
    /// Index of the next byte to pull from `reader`.
    next: usize,
    /// The bits of the last pulled byte not yet handed out, in its low bits.
    value: u8,
    /// How many bits `value` still holds.
    bits: u8,
}

impl LittleEndianReader {
    /// How many bytes have been pulled from the stream.
    pub closed spec fn pulled(&self) -> nat {
        self.next as nat
    }

    pub fn new(reader: Vec<u8>) -> (r: LittleEndianReader)
        ensures
            r.wf(),
            r.stream() == reader@,
            r.cursor() == 0,
            r.pulled() == 0,
    {
        LittleEndianReader { reader, next: 0, value: 0, bits: 0 }
    }

    /// The bytes of the stream that were not pulled yet.
    pub fn into_reader(self) -> (r: Vec<u8>)
        requires
            self.wf(),
        ensures
            r@ == self.stream().subrange(self.pulled() as int, self.stream().len() as int),
    {
        let mut rest: Vec<u8> = Vec::new();
        let mut i: usize = self.next;
        while i < self.reader.len()
            invariant
                self.next <= i <= self.reader.len(),
                rest@ == self.reader@.subrange(self.next as int, i as int),
            decreases self.reader.len() - i,
        {
            rest.push(self.reader[i]);
            i = i + 1;
        }
        rest
    }

    /// Pulls the next byte into the buffer.
    fn fill_buffer(&mut self) -> (r: Result<(), BitsReadError>)
        requires
            old(self).wf(),
            old(self).bits == 0,
        ensures
            final(self).wf(),
            final(self).reader == old(self).reader,
            final(self).cursor() == old(self).cursor(),
            r is Ok <==> old(self).next < old(self).reader.len(),
            r is Ok ==> final(self).bits == 8,
            r is Err ==> r == Err::<(), BitsReadError>(BitsReadError::UnexpectedEOF)
                && final(self).bits == 0,
    {
        if self.next < self.reader.len() {
            self.value = self.reader[self.next];
            self.next = self.next + 1;
            self.bits = 8;
            proof {
                lemma2_to64();
                assert(self.value as nat / 1 == self.value as nat);
            }
            Ok(())
        } else {
            self.bits = 0;
            Err(BitsReadError::UnexpectedEOF)
        }
    }

    /// Hands out every buffered bit.
    fn take_all_buffered(&mut self) -> (r: u8)
        requires
            old(self).wf(),
        ensures
            final(self).wf(),
            final(self).reader == old(self).reader,
            final(self).next == old(self).next,
            final(self).bits == 0,
            final(self).cursor() == old(self).cursor() + old(self).bits,
            r as nat == bits_le(old(self).stream(), old(self).cursor(), old(self).bits as nat),
    {
        self.take_n(self.bits)
    }

    /// Hands out the next `n` buffered bits.
    fn take_n(&mut self, n: u8) -> (r: u8)
        requires
            old(self).wf(),
            n <= old(self).bits,
        ensures
            final(self).wf(),
            final(self).reader == old(self).reader,
            final(self).next == old(self).next,
            final(self).bits == old(self).bits - n,
            final(self).cursor() == old(self).cursor() + n,
            r as nat == bits_le(old(self).stream(), old(self).cursor(), n as nat),
    {
        let ghost s = self.reader@;
        let ghost c = self.cursor();
        let ghost j = (8 - self.bits) as nat;
        let v = self.value;
        proof {
            lemma2_to64();
            if n < 8 {
                lemma_u8_shl_is_mul(1, n);
                lemma_u8_low_bits_mask_is_mod(v, n as nat);
                lemma_u8_shr_is_div(v, n);
            }
        }
        let r: u8;
        let rest: u8;
        if n >= 8 {
            r = v;
            rest = 0;
        } else {
            r = v & ((1u8 << n) - 1);
            rest = v >> n;
        }
        proof {
            if self.next == 0 {
                assert(n == 0);
            } else {
                let k = (self.next - 1) as nat;
                let b = s[k as int] as nat;
                assert(c == 8 * k + j);
                lemma_bits_in_byte(s, k, j, n as nat);
                lemma_pow2_pos(j);
                lemma_pow2_pos(n as nat);
                if n >= 8 {
                    assert(j == 0);
                    assert(v as nat % 256 == v);
                    assert(b / 1 == b);
                } else {
                    assert(low_bits_mask(n as nat) == pow2(n as nat) - 1);
                    lemma_div_denominator(b as int, pow2(j) as int, pow2(n as nat) as int);
                    lemma_pow2_adds(j, n as nat);
                    assert((8 - (self.bits - n)) as nat == j + n);
                    if self.bits == n {
                        assert(b / 256 == 0);
                    }
                }
            }
        }
        self.value = rest;
        self.bits = self.bits - n;
        r
    }
}

impl BitReader for LittleEndianReader {
    closed spec fn stream(&self) -> Seq<u8> {
        self.reader@
    }

    closed spec fn cursor(&self) -> nat {
        (8 * self.next - self.bits) as nat
    }

    closed spec fn wf(&self) -> bool {
        &&& self.next <= self.reader.len()
        &&& self.bits <= 8
        &&& self.next == 0 ==> self.bits == 0
        &&& self.bits == 0 ==> self.value == 0
        &&& self.next > 0 ==> self.value as nat == self.reader@[self.next - 1] as nat / pow2(
            (8 - self.bits) as nat,
        )
    }

    fn read_bit(&mut self) -> (r: Result<bool, BitsReadError>) {
        if self.bits == 0 {
            self.fill_buffer()?;
        }
        let b = self.take_n(1);
        proof {
            reveal_with_fuel(bits_le, 2);
        }
        Ok(b == 1)
    }

    fn read_n<U: Primitive>(&mut self, bits: u8) -> (r: Result<U, BitsReadError>) {
        let ghost s = self.reader@;
        let ghost c0 = self.cursor();
        if bits > U::bits() {
            return Err(BitsReadError::InsufficientTypeSize);
        }
        proof {
            lemma_bits_le_bound(s, c0, bits as nat);
            if bits < U::spec_bits() {
                lemma_pow2_strictly_increases(bits as nat, U::spec_bits());
            }
        }
        if self.bits >= bits {
            // enough bits are buffered already
            let v = self.take_n(bits);
            return Ok(U::from_u64(v as u64));
        }
        // drain the buffer into the low bits, then whole bytes above them
        let mut pos: u8 = self.bits;
        let mut intermediate: u64 = self.take_all_buffered() as u64;
        while bits - pos >= 8
            invariant
                self.wf(),
                self.reader@ == s,
                self.bits == 0,
                pos <= bits <= 64,
                bits as nat <= U::spec_bits(),
                s == old(self).stream(),
                c0 == old(self).cursor(),
                self.cursor() == c0 + pos,
                self.cursor() == 8 * self.next,
                intermediate as nat == bits_le(s, c0, pos as nat),
            decreases bits - pos,
        {
            if self.next >= self.reader.len() {
                return Err(BitsReadError::UnexpectedEOF);
            }
            let byte = self.reader[self.next];
            proof {
                lemma_bits_whole_byte(s, self.next as nat);
                lemma_bits_le_split(s, c0, pos as nat, 8);
                lemma_bits_le_bound(s, c0, pos as nat);
                lemma_bits_le_bound(s, c0, (pos + 8) as nat);
                lemma_pow2_adds(pos as nat, 8);
                lemma2_to64();
                lemma_pow2_pos(pos as nat);
                if pos + 8 < 64 {
                    lemma_pow2_strictly_increases((pos + 8) as nat, 64);
                }
                assert(byte as nat * pow2(pos as nat) <= 255 * pow2(pos as nat)) by (nonlinear_arith)
                    requires byte <= 255;
                assert(255 * pow2(pos as nat) < 256 * pow2(pos as nat)) by (nonlinear_arith)
                    requires pow2(pos as nat) > 0;
                lemma_u64_shl_is_mul(byte as u64, pos as u64);
                assert(8 * self.next + 8 == c0 + pos + 8);
                assert(c0 + pos == 8 * self.next);
                assert(bits_le(s, (c0 + pos) as nat, 8) == byte as nat);
                assert(pow2(pos as nat) * byte == byte * pow2(pos as nat)) by (nonlinear_arith);
            }
            intermediate = intermediate + ((byte as u64) << (pos as u64));
            self.next = self.next + 1;
            pos = pos + 8;
            proof {
                lemma2_to64();
                assert(self.reader@[self.next - 1] as nat / 256 == 0);
            }
        }
        if bits - pos != 0 {
            // the last few bits come from a freshly buffered byte
            self.fill_buffer()?;
            let rest_bits: u8 = bits - pos;
            let ghost c1 = self.cursor();
            let tail = self.take_n(rest_bits);
            proof {
                lemma_bits_le_split(s, c0, pos as nat, rest_bits as nat);
                lemma_bits_le_bound(s, c0, pos as nat);
                lemma_bits_le_bound(s, c1, rest_bits as nat);
                lemma_bits_le_bound(s, c0, bits as nat);
                lemma_pow2_adds(pos as nat, rest_bits as nat);
                lemma2_to64();
                lemma_pow2_pos(pos as nat);
                if bits < 64 {
                    lemma_pow2_strictly_increases(bits as nat, 64);
                }
                assert(tail as nat * pow2(pos as nat) < pow2(rest_bits as nat) * pow2(pos as nat))
                    by (nonlinear_arith)
                    requires tail < pow2(rest_bits as nat), pow2(pos as nat) > 0;
                lemma_u64_shl_is_mul(tail as u64, pos as u64);
            }
            intermediate = intermediate + ((tail as u64) << (pos as u64));
        }
        Ok(U::from_u64(intermediate))
    }

    fn skip(&mut self, bits: u8) -> (r: Result<(), BitsReadError>) {
        let ghost c0 = self.cursor();
        let mut left: u8 = bits;
        while left > 64
            invariant
                self.wf(),
                self.stream() == old(self).stream(),
                left <= bits,
                c0 == old(self).cursor(),
                self.cursor() == c0 + (bits - left),
                self.cursor() <= 8 * self.stream().len(),
            decreases left,
        {
            match self.read_n::<u64>(64) {
                Ok(_) => {},
                Err(e) => {
                    return Err(e);
                },
            }
            left = left - 64;
        }
        match self.read_n::<u64>(left) {
            Ok(_) => Ok(()),
            Err(e) => Err(e),
        }
    }
}

/// The value of `s` read as one little-endian integer.
pub open spec fn le_value(s: Seq<u8>) -> nat
    decreases s.len(),
{
    if s.len() == 0 {
        0
    } else {
        le_value(s.drop_last()) + pow2((8 * (s.len() - 1)) as nat) * (s.last() as nat)
    }
}

/// Writes bits to a byte stream, least significant bit of each byte first.
pub trait BitWriter: Sized {
    /// How many bits were written.
    spec fn bit_len(&self) -> nat;

    /// The bits written, as one little-endian integer.
    spec fn value(&self) -> nat;

    spec fn wf(&self) -> bool;

    /// Appends one bit.
    fn write_bit(&mut self, bit: bool)
        requires
            old(self).wf(),
        ensures
            final(self).wf(),
            final(self).bit_len() == old(self).bit_len() + 1,
            final(self).value() == old(self).value() + pow2(old(self).bit_len()) * (if bit {
                1nat
            } else {
                0nat
            }),
    ;

    /// Appends all bytes of `data` but the last whole, then the low `bits`
    /// bits of the last one.
    fn write(&mut self, data: &[u8], bits: u8)
        requires
            old(self).wf(),
            data@.len() >= 1,
            1 <= bits <= 8,
        ensures
            final(self).wf(),
            final(self).bit_len() == old(self).bit_len() + 8 * (data@.len() - 1) + bits,
            final(self).value() == old(self).value() + pow2(old(self).bit_len()) * (le_value(
                data@.drop_last(),
            ) + pow2((8 * (data@.len() - 1)) as nat) * (data@.last() as nat % pow2(bits as nat))),
    ;

    /// Appends the low `n` bits of `data`.
    fn write_n<U: Primitive>(&mut self, data: U, n: u8)
        requires
            old(self).wf(),
            n as nat <= U::spec_bits(),
        ensures
            final(self).wf(),
            final(self).bit_len() == old(self).bit_len() + n,
            final(self).value() == old(self).value() + pow2(old(self).bit_len()) * (
            data.spec_value() % pow2(n as nat)),
    ;
}

/// A bit writer into an in-memory byte vector.
pub struct LittleEndianWriter {
    writer: Vec<u8>,
    /// The bits of the byte being filled, in its low bits.
    buf: u8,
    /// How many bits `buf` holds.
    pos: u8,
}

/// `x % 2^a` and `x / 2^a` put back together give `x`, and the parts are in range.
proof fn lemma_split_low(x: nat, a: nat, b: nat)
    requires
        x < pow2(a + b),
    ensures
        x == x % pow2(a) + pow2(a) * (x / pow2(a)),
        x / pow2(a) < pow2(b),
        x % pow2(a) < pow2(a),
{
    lemma_pow2_pos(a);
    lemma_pow2_pos(b);
    lemma_pow2_adds(a, b);
    vstd::arithmetic::div_mod::lemma_fundamental_div_mod(x as int, pow2(a) as int);
    vstd::arithmetic::div_mod::lemma_multiply_divide_lt(x as int, pow2(a) as int, pow2(b) as int);
    vstd::arithmetic::div_mod::lemma_mod_pos_bound(x as int, pow2(a) as int);
}

impl BitWriter for LittleEndianWriter {
    closed spec fn bit_len(&self) -> nat {
        8 * self.writer@.len() + self.pos as nat
    }

    closed spec fn value(&self) -> nat {
        le_value(self.writer@) + pow2(8 * self.writer@.len()) * (self.buf as nat)
    }

    closed spec fn wf(&self) -> bool {
        &&& self.pos < 8
        &&& self.buf < pow2(self.pos as nat)
    }

    fn write_bit(&mut self, bit: bool) {
        proof {
            lemma2_to64();
        }
        self.write_internal(if bit {
            1
        } else {
            0
        }, 1);
    }

    fn write(&mut self, data: &[u8], bits: u8) {
        let ghost v0 = self.value();
        let ghost t0 = self.bit_len();
        let last = data.len() - 1;
        let mut index: usize = 0;
        proof {
            assert(data@.subrange(0, 0) =~= Seq::<u8>::empty());
            assert(pow2(t0) * 0 == 0);
        }
        while index < last
            invariant
                self.wf(),
                last == data@.len() - 1,
                index <= last,
                self.bit_len() == t0 + 8 * index,
                self.value() == v0 + pow2(t0) * le_value(data@.subrange(0, index as int)),
            decreases last - index,
        {
            let ghost t = self.bit_len();
            self.write_internal(data[index], 8);
            proof {
                lemma2_to64();
                let s = data@.subrange(0, index + 1);
                assert(s.drop_last() =~= data@.subrange(0, index as int));
                lemma_pow2_adds(t0, 8 * index as nat);
                assert(pow2(t) * data@[index as int] == pow2(t0) * (pow2(8 * index as nat)
                    * data@[index as int])) by (nonlinear_arith)
                    requires
                        pow2(t) == pow2(t0) * pow2(8 * index as nat),
                ;
                assert(pow2(t0) * le_value(data@.subrange(0, index as int)) + pow2(t0) * (pow2(
                    8 * index as nat,
                ) * data@[index as int]) == pow2(t0) * (le_value(data@.subrange(0, index as int))
                    + pow2(8 * index as nat) * data@[index as int])) by (nonlinear_arith);
            }
            index = index + 1;
        }
        let ghost t = self.bit_len();
        self.write_internal(data[last], bits);
        proof {
            assert(data@.subrange(0, last as int) =~= data@.drop_last());
            lemma_pow2_adds(t0, 8 * last as nat);
            let tail = data@.last() as nat % pow2(bits as nat);
            assert(pow2(t) * tail == pow2(t0) * (pow2(8 * last as nat) * tail)) by (nonlinear_arith)
                requires
                    pow2(t) == pow2(t0) * pow2(8 * last as nat),
            ;
            assert(pow2(t0) * le_value(data@.drop_last()) + pow2(t0) * (pow2(8 * last as nat)
                * tail) == pow2(t0) * (le_value(data@.drop_last()) + pow2(8 * last as nat) * tail))
                by (nonlinear_arith);
        }
    }

    fn write_n<U: Primitive>(&mut self, data: U, n: u8) {
        let ghost v0 = self.value();
        let ghost t0 = self.bit_len();
        let v = data.to_u64();
        let mut rest: u64 = v;
        let mut left: u8 = n;
        let ghost mut done: nat = 0;
        proof {
            lemma2_to64();
            assert(v as nat % 1 == 0);
        }
        while left > 8
            invariant
                self.wf(),
                done + left == n,
                self.bit_len() == t0 + done,
                rest as nat == v as nat / pow2(done),
                self.value() == v0 + pow2(t0) * (v as nat % pow2(done)),
            decreases left,
        {
            let ghost t = self.bit_len();
            proof {
                lemma2_to64();
                lemma_pow2_pos(done);
            }
            self.write_internal((rest % 256) as u8, 8);
            proof {
                vstd::arithmetic::div_mod::lemma_mod_breakdown(v as int, pow2(done) as int, 256);
                vstd::arithmetic::div_mod::lemma_div_denominator(v as int, pow2(done) as int, 256);
                lemma_pow2_adds(done, 8);
                lemma_pow2_adds(t0, done);
                assert(pow2(t) * (rest as nat % 256) == pow2(t0) * (pow2(done) * (rest as nat
                    % 256))) by (nonlinear_arith)
                    requires
                        pow2(t) == pow2(t0) * pow2(done),
                ;
                let a = pow2(t0);
                let x = v as nat % pow2(done);
                let b = pow2(done);
                let y = rest as nat % 256;
                assert(a * x + a * (b * y) == a * (x + b * y)) by (nonlinear_arith);
            }
            rest = rest / 256;
            left = left - 8;
            proof {
                done = done + 8;
            }
        }
        let ghost t = self.bit_len();
        proof {
            lemma2_to64();
            lemma_pow2_pos(done);
            lemma_pow2_pos(left as nat);
            if left < 8 {
                lemma_pow2_strictly_increases(left as nat, 8);
            }
            lemma_pow2_adds(left as nat, (8 - left) as nat);
            lemma_pow2_pos((8 - left) as nat);
            vstd::arithmetic::div_mod::lemma_mod_mod(
                rest as int,
                pow2(left as nat) as int,
                pow2((8 - left) as nat) as int,
            );
            assert((left + (8 - left)) as nat == 8);
        }
        self.write_internal((rest % 256) as u8, left);
        proof {
            let tail = rest as nat % pow2(left as nat);
            vstd::arithmetic::div_mod::lemma_mod_breakdown(v as int, pow2(done) as int, pow2(left as nat) as int);
            lemma_pow2_adds(done, left as nat);
            lemma_pow2_adds(t0, done);
            assert(pow2(t) * tail == pow2(t0) * (pow2(done) * tail)) by (nonlinear_arith)
                requires
                    pow2(t) == pow2(t0) * pow2(done),
            ;
            let a = pow2(t0);
            let x = v as nat % pow2(done);
            let b = pow2(done);
            assert(a * x + a * (b * tail) == a * (x + b * tail)) by (nonlinear_arith);
        }
    }
}

impl LittleEndianWriter {
    pub fn new(writer: Vec<u8>) -> (r: LittleEndianWriter)
        ensures
            r.wf(),
            r.bit_len() == 8 * writer@.len(),
            r.value() == le_value(writer@),
    {
        proof {
            lemma2_to64();
        }
        LittleEndianWriter { writer, buf: 0, pos: 0 }
    }

    /// The bytes written; bits of a byte not yet full are not included.
    pub fn into_inner(self) -> (r: Vec<u8>)
        requires
            self.wf(),
        ensures
            self.bit_len() % 8 == 0 ==> le_value(r@) == self.value() && 8 * r@.len()
                == self.bit_len(),
    {
        proof {
            lemma2_to64();
            let p = self.pos as nat;
            let l = self.writer@.len();
            assert((8 * l + p) % 8 == p) by (nonlinear_arith)
                requires
                    p < 8,
            ;
            if p == 0 {
                assert(self.buf == 0);
                assert(pow2(8 * l) * (self.buf as nat) == 0);
            }
        }
        self.writer
    }

    /// Writes out the byte being filled, padded with zero bits.
    pub fn flush(&mut self)
        requires
            old(self).wf(),
        ensures
            final(self).wf(),
            final(self).value() == old(self).value(),
            final(self).bit_len() % 8 == 0,
            old(self).bit_len() <= final(self).bit_len() < old(self).bit_len() + 8,
    {
        self.write_out_internal()
    }

    /// Writes out the byte being filled, if it holds any bits.
    fn write_out_internal(&mut self)
        requires
            old(self).wf(),
        ensures
            final(self).wf(),
            final(self).pos == 0,
            final(self).value() == old(self).value(),
            final(self).bit_len() == if old(self).pos == 0 {
                old(self).bit_len()
            } else {
                8 * (old(self).writer@.len() + 1)
            },
    {
        if self.pos > 0 {
            let ghost w = self.writer@;
            self.writer.push(self.buf);
            proof {
                lemma2_to64();
                assert(self.writer@.drop_last() =~= w);
            }
            self.buf = 0;
            self.pos = 0;
        }
        proof {
            lemma2_to64();
        }
    }

    /// Appends `chunk`, which has at most `n` bits, where `n` bits still fit
    /// the byte being filled.
    fn push_bits(&mut self, chunk: u16, n: u8)
        requires
            old(self).wf(),
            n <= 8 - old(self).pos,
            chunk < pow2(n as nat),
        ensures
            final(self).wf(),
            final(self).bit_len() == old(self).bit_len() + n,
            final(self).value() == old(self).value() + pow2(old(self).bit_len()) * chunk,
    {
        let ghost b0 = self.buf as nat;
        let ghost p0 = self.pos as nat;
        let ghost l0 = self.writer@.len();
        proof {
            lemma2_to64();
            lemma_pow2_adds(p0, n as nat);
            lemma_pow2_adds(8 * l0, p0);
            lemma_pow2_pos(p0);
            if p0 + n < 8 {
                lemma_pow2_strictly_increases(p0 + n as nat, 8);
            }
            assert(b0 + chunk * pow2(p0) < pow2(p0 + n as nat)) by (nonlinear_arith)
                requires
                    b0 < pow2(p0),
                    chunk < pow2(n as nat),
                    pow2(p0 + n as nat) == pow2(p0) * pow2(n as nat),
            ;
            vstd::bits::lemma_u16_shl_is_mul(1, self.pos as u16);
            assert(chunk * pow2(p0) <= 255);
            vstd::bits::lemma_u16_shl_is_mul(chunk, self.pos as u16);
        }
        let filled = (self.buf as u16 + (chunk << (self.pos as u16))) as u8;
        proof {
            assert(pow2(8 * l0) * (b0 + chunk * pow2(p0)) == pow2(8 * l0) * b0 + (pow2(8 * l0)
                * pow2(p0)) * chunk) by (nonlinear_arith);
        }
        if self.pos + n == 8 {
            // the byte is full: write it out
            let ghost w = self.writer@;
            self.writer.push(filled);
            self.buf = 0;
            self.pos = 0;
            proof {
                assert(self.writer@.drop_last() =~= w);
                lemma_pow2_adds(8 * l0, 8);
            }
        } else {
            self.buf = filled;
            self.pos = self.pos + n;
        }
    }

    /// Appends the low `bits` bits of `data`, `bits` being at most 8.
    pub fn write_internal(&mut self, data: u8, bits: u8)
        requires
            old(self).wf(),
            bits <= 8,
        ensures
            final(self).wf(),
            final(self).bit_len() == old(self).bit_len() + bits,
            final(self).value() == old(self).value() + pow2(old(self).bit_len()) * (data as nat
                % pow2(bits as nat)),
    {
        let ghost v0 = self.value();
        let ghost t0 = self.bit_len();
        proof {
            lemma2_to64();
            vstd::bits::lemma_u16_shl_is_mul(1, bits as u16);
            vstd::bits::lemma_u16_shl_is_mul(1, (8 - self.pos) as u16);
            lemma_pow2_pos(bits as nat);
        }
        let remaining: u8 = 8 - self.pos;
        let value: u16 = (data as u16) % (1u16 << (bits as u16));
        if bits >= remaining {
            // fill the byte being built, then start the next one
            proof {
                lemma_split_low(value as nat, remaining as nat, (bits - remaining) as nat);
            }
            self.push_bits(value % (1u16 << (remaining as u16)), remaining);
            let ghost t1 = self.bit_len();
            self.push_bits(value / (1u16 << (remaining as u16)), bits - remaining);
            proof {
                lemma_pow2_adds(t0, remaining as nat);
                let lo = value as nat % pow2(remaining as nat);
                let hi = value as nat / pow2(remaining as nat);
                assert(pow2(t0) * lo + pow2(t1) * hi == pow2(t0) * (lo + pow2(remaining as nat) * hi))
                    by (nonlinear_arith)
                    requires
                        pow2(t1) == pow2(t0) * pow2(remaining as nat),
                ;
            }
        } else {
            self.push_bits(value, bits);
        }
    }
}

} // verus!
