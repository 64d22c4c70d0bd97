//! LSB-first bit reader over a byte slice, with the JPEG XL `U32`
//! distributions, the `Varint()` integer coding and `UnpackSigned`.
use vstd::prelude::*;
use vstd::arithmetic::power2::{pow2, lemma_pow2_unfold, lemma_pow2_adds, lemma2_to64};
use crate::error::{JxlError, invalid};

verus! {

/// Bit `i` of the stream: bit `i % 8` (counting from the least
/// significant) of byte `i / 8`.
pub open spec fn bit_of(data: Seq<u8>, i: int) -> int {
    ((data[i / 8] >> ((i % 8) as u8)) & 1u8) as int
}

/// The `n`-bit little-endian value starting at bit `pos`: the first bit
/// read is the least significant one.
pub open spec fn bits_le(data: Seq<u8>, pos: int, n: nat) -> int
    decreases n,
{
    if n == 0 {
        0
    } else {
        bits_le(data, pos, (n - 1) as nat) + bit_of(data, pos + n - 1) * pow2((n - 1) as nat)
    }
}

/// Number of bits in the stream.
pub open spec fn total_bits(data: Seq<u8>) -> int {
    (data.len() * 8) as int
}

/// One of the four `U32()` distributions selected by a 2-bit selector.
#[derive(Debug, Clone, Copy)]
pub enum U32Dist {
    /// A constant value; no further bits are read.
    Val(u32),
    /// `u(n)`.
    Bits(u32),
    /// `u(n) + offset`.
    BitsOffset(u32, u32),
}

/// A distribution is usable when it reads at most 32 bits and the
/// largest value it can produce fits in a `u32`.
pub open spec fn dist_wf(d: U32Dist) -> bool {
    match d {
        U32Dist::Val(_) => true,
        U32Dist::Bits(n) => n <= 32,
        U32Dist::BitsOffset(n, off) => n <= 32 && off + pow2(n as nat) - 1 <= u32::MAX,
    }
}

/// Bits consumed and value produced by a distribution read at `pos`.
pub open spec fn dist_read(data: Seq<u8>, pos: int, d: U32Dist) -> (int, int) {
    match d {
        U32Dist::Val(v) => (0, v as int),
        U32Dist::Bits(n) => (n as int, bits_le(data, pos, n as nat)),
        U32Dist::BitsOffset(n, off) => (n as int, bits_le(data, pos, n as nat) + off),
    }
}

/// `U32(d0, d1, d2, d3)` read at `pos`: `None` when the stream ends
/// early, otherwise the value and the position after the field.
pub open spec fn spec_u32(data: Seq<u8>, pos: int, dists: [U32Dist; 4]) -> Option<(int, int)> {
    if pos + 2 > total_bits(data) {
        None
    } else {
        let sel = bits_le(data, pos, 2);
        let (n, v) = dist_read(data, pos + 2, dists@[sel]);
        if pos + 2 + n > total_bits(data) {
            None
        } else {
            Some((v, pos + 2 + n))
        }
    }
}

/// Largest shift of a `Varint()` group: at most nine groups of seven
/// bits are accepted.
pub open spec fn varint_max_shift() -> nat {
    56
}

/// `Varint()` read at `pos`, whose groups carry bits from `shift`
/// upwards: little-endian groups of seven value bits, each in a `u(8)`
/// whose top bit says whether another group follows. `None` when the
/// stream ends early or more than nine groups would be needed.
pub open spec fn spec_varint_from(data: Seq<u8>, pos: int, shift: nat) -> Option<(int, int)>
    decreases varint_max_shift() + 7 - shift,
{
    if pos + 8 > total_bits(data) || shift > varint_max_shift() {
        None
    } else {
        let g = bits_le(data, pos, 8);
        let low = g % 128;
        if g < 128 {
            Some((low * pow2(shift), pos + 8))
        } else {
            match spec_varint_from(data, pos + 8, shift + 7) {
                None => None,
                Some((v, p)) => Some((low * pow2(shift) + v, p)),
            }
        }
    }
}

/// `Varint()` read at `pos`.
pub open spec fn spec_varint(data: Seq<u8>, pos: int) -> Option<(int, int)> {
    spec_varint_from(data, pos, 0)
}

/// Continuation of a `U64()` whose value bits continue at `shift`: while
/// a `u(1)` is set, eight more value bits follow, or four once `shift`
/// has reached 60, which ends the value. `None` when the stream ends
/// early.
pub open spec fn spec_u64_from(data: Seq<u8>, pos: int, shift: nat) -> Option<(int, int)>
    decreases 68 - shift,
{
    if pos + 1 > total_bits(data) {
        None
    } else if bits_le(data, pos, 1) == 0 {
        Some((0, pos + 1))
    } else if shift >= 60 {
        if pos + 5 > total_bits(data) {
            None
        } else {
            Some((bits_le(data, pos + 1, 4) * pow2(shift), pos + 5))
        }
    } else if pos + 9 > total_bits(data) {
        None
    } else {
        match spec_u64_from(data, pos + 9, shift + 8) {
            None => None,
            Some((v, p)) => Some((bits_le(data, pos + 1, 8) * pow2(shift) + v, p)),
        }
    }
}

/// `U64()` read at `pos`: a 2-bit selector, then 0, `1 + u(4)`,
/// `17 + u(8)`, or `u(12)` followed by continuation groups.
pub open spec fn spec_u64(data: Seq<u8>, pos: int) -> Option<(int, int)> {
    if pos + 2 > total_bits(data) {
        None
    } else {
        let sel = bits_le(data, pos, 2);
        if sel == 0 {
            Some((0, pos + 2))
        } else if sel == 1 {
            if pos + 6 > total_bits(data) { None } else { Some((1 + bits_le(data, pos + 2, 4), pos + 6)) }
        } else if sel == 2 {
            if pos + 10 > total_bits(data) { None } else { Some((17 + bits_le(data, pos + 2, 8), pos + 10)) }
        } else if pos + 14 > total_bits(data) {
            None
        } else {
            match spec_u64_from(data, pos + 14, 12) {
                None => None,
                Some((v, p)) => Some((bits_le(data, pos + 2, 12) + v, p)),
            }
        }
    }
}

/// `UnpackSigned(u)`: even values map to `u / 2`, odd values to
/// `-(u + 1) / 2`.
pub open spec fn spec_unpack_signed(u: u32) -> int {
    if u % 2 == 0 {
        (u / 2) as int
    } else {
        -((u / 2) as int) - 1
    }
}

/// `UnpackSigned` (zig-zag decoding of a signed integer).
pub fn unpack_signed(u: u32) -> (r: i32)
    ensures
        r == spec_unpack_signed(u),
{
    let half: u32 = u / 2;
    let h: i32 = half as i32;
    if u % 2 == 0 {
        h
    } else {
        -h - 1
    }
}

/// The value `bits_le` produces is below `2^n`.
pub proof fn lemma_bits_le_bound(data: Seq<u8>, pos: int, n: nat)
    ensures
        0 <= bits_le(data, pos, n) < pow2(n),
    decreases n,
{
    if n == 0 {
        vstd::arithmetic::power2::lemma2_to64();
    } else {
        lemma_bits_le_bound(data, pos, (n - 1) as nat);
        lemma_pow2_unfold(n);
        lemma_bit_of_01(data, pos + n - 1);
    }
}

/// Every bit of the stream is 0 or 1.
pub proof fn lemma_bit_of_01(data: Seq<u8>, i: int)
    ensures
        0 <= bit_of(data, i) <= 1,
{
    let byte = data[i / 8];
    let s = (i % 8) as u8;
    assert((byte >> s) & 1u8 <= 1u8) by (bit_vector);
}

/// Bits of one reader position are determined by the bytes only.
proof fn lemma_bit_position(byte_pos: int, bit_off: int)
    requires
        0 <= byte_pos,
        0 <= bit_off < 8,
    ensures
        (byte_pos * 8 + bit_off) / 8 == byte_pos,
        (byte_pos * 8 + bit_off) % 8 == bit_off,
{
    vstd::arithmetic::div_mod::lemma_fundamental_div_mod_converse(
        byte_pos * 8 + bit_off,
        8,
        byte_pos,
        bit_off,
    );
}

/// LSB-first bit reader over a borrowed byte slice.
pub struct BitReader<'a> {
    data: &'a [u8],
    byte_pos: usize,
    bit_off: u32,
}

impl<'a> BitReader<'a> {
    /// The bytes being read.
    pub closed spec fn bytes(&self) -> Seq<u8> {
        self.data@
    }

    /// Number of bits consumed so far.
    pub closed spec fn pos(&self) -> int {
        self.byte_pos * 8 + self.bit_off
    }

    /// Internal consistency of the reader's cursor; every reader keeps it.
    #[verifier::type_invariant]
    pub closed spec fn wf(&self) -> bool {
        &&& self.bit_off < 8
        &&& self.byte_pos <= self.data@.len()
        &&& self.byte_pos == self.data@.len() ==> self.bit_off == 0
    }

    /// Start reading at the first bit of `data`.
    pub fn new(data: &'a [u8]) -> (r: Self)
        ensures
            r.wf(),
            r.bytes() == data@,
            r.pos() == 0,
    {
        BitReader { data, byte_pos: 0, bit_off: 0 }
    }

    /// The cursor never passes the end of the stream.
    pub proof fn lemma_pos_bound(&self)
        requires
            self.wf(),
        ensures
            0 <= self.pos() <= total_bits(self.bytes()),
    {
    }

    /// Whether at least `n` more bits are available.
    fn has_bits(&self, n: u32) -> (r: bool)
        requires
            self.wf(),
            n <= 64,
        ensures
            r == (self.pos() + n <= total_bits(self.bytes())),
    {
        let rem_bytes = self.data.len() - self.byte_pos;
        if rem_bytes >= 9 {
            true
        } else {
            let avail: u64 = (rem_bytes as u64) * 8 - (self.bit_off as u64);
            (n as u64) <= avail
        }
    }

    /// Read one bit; the caller has checked that one is available.
    fn take_bit(&mut self) -> (b: u64)
        requires
            old(self).wf(),
            old(self).pos() + 1 <= total_bits(old(self).bytes()),
        ensures
            final(self).wf(),
            final(self).bytes() == old(self).bytes(),
            final(self).pos() == old(self).pos() + 1,
            b == bit_of(old(self).bytes(), old(self).pos()),
    {
        proof {
            lemma_bit_position(self.byte_pos as int, self.bit_off as int);
        }
        let byte = self.data[self.byte_pos];
        let s: u8 = self.bit_off as u8;
        let b: u8 = (byte >> s) & 1u8;
        if self.bit_off == 7 {
            self.bit_off = 0;
            self.byte_pos = self.byte_pos + 1;
        } else {
            self.bit_off = self.bit_off + 1;
        }
        b as u64
    }

    /// `u(n)`: read `n <= 32` bits, least significant first. Fails with
    /// `Eof`, consuming nothing, when fewer than `n` bits remain.
    pub fn read_bits(&mut self, n: u32) -> (r: Result<u32, JxlError>)
        requires
            old(self).wf(),
            n <= 32,
        ensures
            final(self).wf(),
            final(self).bytes() == old(self).bytes(),
            r is Ok <==> old(self).pos() + n <= total_bits(old(self).bytes()),
            r is Ok ==> r->Ok_0 == bits_le(old(self).bytes(), old(self).pos(), n as nat)
                && final(self).pos() == old(self).pos() + n,
            r is Ok ==> r->Ok_0 < pow2(n as nat),
            r is Err ==> r->Err_0 is Eof && final(self).pos() == old(self).pos(),
    {
        if !self.has_bits(n) {
            return Err(JxlError::Eof);
        }
        let ghost p0 = self.pos();
        let ghost data = self.bytes();
        let mut v: u64 = 0;
        let mut pw: u64 = 1;
        let mut k: u32 = 0;
        proof {
            vstd::arithmetic::power2::lemma2_to64();
        }
        while k < n
            invariant
                self.wf(),
                self.bytes() == data,
                data == old(self).bytes(),
                p0 == old(self).pos(),
                k <= n <= 32,
                p0 + n <= total_bits(data),
                self.pos() == p0 + k,
                v == bits_le(data, p0, k as nat),
                pw == pow2(k as nat),
                v < pw,
                pw <= 0x1_0000_0000,
            decreases n - k,
        {
            let b = self.take_bit();
            proof {
                lemma_pow2_unfold((k + 1) as nat);
                lemma_bits_le_bound(data, p0, (k + 1) as nat);
                lemma_bit_of_01(data, p0 + k);
                if k + 1 < 32 {
                    vstd::arithmetic::power2::lemma_pow2_strictly_increases((k + 1) as nat, 32);
                }
                lemma2_to64();
            }
            v = v + b * pw;
            pw = pw * 2;
            k = k + 1;
        }
        proof {
            lemma2_to64();
        }
        Ok(v as u32)
    }

    /// `u(1)` as an integer.
    pub fn read_bit(&mut self) -> (r: Result<u32, JxlError>)
        requires
            old(self).wf(),
        ensures
            final(self).wf(),
            final(self).bytes() == old(self).bytes(),
            r is Ok <==> old(self).pos() + 1 <= total_bits(old(self).bytes()),
            r is Ok ==> r->Ok_0 == bits_le(old(self).bytes(), old(self).pos(), 1)
                && final(self).pos() == old(self).pos() + 1,
            r is Err ==> r->Err_0 is Eof && final(self).pos() == old(self).pos(),
    {
        self.read_bits(1)
    }

    /// `Bool()`: one bit, `true` when it is set.
    pub fn read_bool(&mut self) -> (r: Result<bool, JxlError>)
        requires
            old(self).wf(),
        ensures
            final(self).wf(),
            final(self).bytes() == old(self).bytes(),
            r is Ok <==> old(self).pos() + 1 <= total_bits(old(self).bytes()),
            r is Ok ==> r->Ok_0 == (bits_le(old(self).bytes(), old(self).pos(), 1) == 1)
                && final(self).pos() == old(self).pos() + 1,
            r is Err ==> r->Err_0 is Eof && final(self).pos() == old(self).pos(),
    {
        let b = self.read_bits(1)?;
        Ok(b == 1)
    }

    /// `U32(d0, d1, d2, d3)`: a 2-bit selector followed by the selected
    /// distribution.
    pub fn read_u32(&mut self, dists: [U32Dist; 4]) -> (r: Result<u32, JxlError>)
        requires
            old(self).wf(),
            forall|i: int| 0 <= i < 4 ==> dist_wf(#[trigger] dists@[i]),
        ensures
            final(self).wf(),
            final(self).bytes() == old(self).bytes(),
            r is Ok <==> spec_u32(old(self).bytes(), old(self).pos(), dists) is Some,
            r is Ok ==> r->Ok_0 == spec_u32(old(self).bytes(), old(self).pos(), dists).unwrap().0
                && final(self).pos() == spec_u32(old(self).bytes(), old(self).pos(), dists).unwrap().1,
            r is Err ==> r->Err_0 is Eof,
    {
        let ghost data = self.bytes();
        let ghost p0 = self.pos();
        let sel = self.read_bits(2)?;
        proof {
            lemma_bits_le_bound(data, p0, 2);
            lemma2_to64();
        }
        let d = dists[sel as usize];
        match d {
            U32Dist::Val(v) => Ok(v),
            U32Dist::Bits(n) => self.read_bits(n),
            U32Dist::BitsOffset(n, off) => {
                let v = self.read_bits(n)?;
                proof {
                    lemma_bits_le_bound(data, p0 + 2, n as nat);
                }
                Ok(v + off)
            },
        }
    }

    /// `Varint()`: little-endian groups of seven value
    /// bits, each carried in a `u(8)` whose top bit announces another
    /// group. At most nine groups are accepted.
    pub fn read_varint(&mut self) -> (r: Result<u64, JxlError>)
        requires
            old(self).wf(),
        ensures
            final(self).wf(),
            final(self).bytes() == old(self).bytes(),
            r is Ok <==> spec_varint(old(self).bytes(), old(self).pos()) is Some,
            r is Ok ==> r->Ok_0 == spec_varint(old(self).bytes(), old(self).pos()).unwrap().0
                && final(self).pos() == spec_varint(old(self).bytes(), old(self).pos()).unwrap().1,
            r is Ok ==> r->Ok_0 < pow2(63),
    {
        let ghost data = self.bytes();
        let ghost p0 = self.pos();
        let mut value: u64 = 0;
        let mut mult: u64 = 1;
        let mut shift: u32 = 0;
        proof {
            lemma2_to64();
        }
        loop
            invariant
                self.wf(),
                self.bytes() == data,
                data == old(self).bytes(),
                p0 == old(self).pos(),
                shift <= varint_max_shift(),
                shift % 7 == 0,
                mult == pow2(shift as nat),
                value < mult,
                spec_varint(data, p0) is Some <==> spec_varint_from(data, self.pos(), shift as nat) is Some,
                spec_varint(data, p0) is Some ==> spec_varint(data, p0).unwrap().0
                    == value + spec_varint_from(data, self.pos(), shift as nat).unwrap().0,
                spec_varint(data, p0) is Some ==> spec_varint(data, p0).unwrap().1
                    == spec_varint_from(data, self.pos(), shift as nat).unwrap().1,
            decreases varint_max_shift() - shift,
        {
            let ghost pos = self.pos();
            let g = self.read_bits(8)?;
            proof {
                lemma_bits_le_bound(data, pos, 8);
                lemma2_to64();
                if shift < 56 {
                    vstd::arithmetic::power2::lemma_pow2_strictly_increases(shift as nat, 56);
                }
                lemma_pow2_adds(shift as nat, 7);
                vstd::arithmetic::mul::lemma_mul_inequality((g % 128) as int, 127, mult as int);
                if shift + 7 < 63 {
                    vstd::arithmetic::power2::lemma_pow2_strictly_increases((shift + 7) as nat, 63);
                }
                assert(value + (g % 128) * mult < pow2((shift + 7) as nat));
                vstd::arithmetic::power2::lemma2_to64_rest();
                assert(pow2((shift + 7) as nat) <= 0x8000_0000_0000_0000u64);
            }
            let low: u64 = (g % 128) as u64;
            assert(low * mult <= 127 * mult);
            assert(value + low * mult < 0x8000_0000_0000_0000u64);
            value = value + low * mult;
            if g < 128 {
                return Ok(value);
            }
            if shift >= 56 {
                return Err(invalid("Varint longer than nine groups"));
            }
            shift = shift + 7;
            mult = mult * 128;
        }
    }

    /// `pu0()`: skip to the next byte boundary; the skipped padding bits
    /// must all be zero.
    pub fn pu0(&mut self) -> (r: Result<(), JxlError>)
        requires
            old(self).wf(),
        ensures
            final(self).wf(),
            final(self).bytes() == old(self).bytes(),
            r is Ok ==> final(self).pos() % 8 == 0 && final(self).pos() >= old(self).pos()
                && final(self).pos() < old(self).pos() + 8,
            (r is Ok) <==> (old(self).pos() % 8 == 0
                || bits_le(old(self).bytes(), old(self).pos(), (8 - old(self).pos() % 8) as nat) == 0),
    {
        proof {
            lemma_bit_position(self.byte_pos as int, self.bit_off as int);
        }
        if self.bit_off == 0 {
            return Ok(());
        }
        let n: u32 = 8 - self.bit_off;
        proof {
            assert(self.byte_pos < self.data@.len());
        }
        let pad = self.read_bits(n)?;
        proof {
            lemma_bit_position(self.byte_pos as int, self.bit_off as int);
        }
        if pad != 0 {
            return Err(invalid("non-zero padding before byte boundary"));
        }
        Ok(())
    }

    /// `U64()` (see [`spec_u64`]). Fails with `Eof` when the stream ends
    /// inside the value.
    pub fn read_u64(&mut self) -> (r: Result<u64, JxlError>)
        requires
            old(self).wf(),
        ensures
            final(self).wf(),
            final(self).bytes() == old(self).bytes(),
            r is Ok <==> spec_u64(old(self).bytes(), old(self).pos()) is Some,
            r is Ok ==> r->Ok_0 == spec_u64(old(self).bytes(), old(self).pos()).unwrap().0
                && final(self).pos() == spec_u64(old(self).bytes(), old(self).pos()).unwrap().1,
            r is Err ==> r->Err_0 is Eof,
    {
        let ghost data = self.bytes();
        let ghost p0 = self.pos();
        let sel = self.read_bits(2)?;
        proof {
            lemma_bits_le_bound(data, p0, 2);
            lemma2_to64();
        }
        if sel == 0 {
            return Ok(0);
        }
        if sel == 1 {
            let v = self.read_bits(4)?;
            return Ok(1 + v as u64);
        }
        if sel == 2 {
            let v = self.read_bits(8)?;
            return Ok(17 + v as u64);
        }
        let low = self.read_bits(12)?;
        proof {
            lemma_bits_le_bound(data, p0 + 2, 12);
        }
        let mut value: u64 = low as u64;
        let mut mult: u64 = 4096;
        let mut shift: u32 = 12;
        loop
            invariant
                self.wf(),
                self.bytes() == data,
                data == old(self).bytes(),
                p0 == old(self).pos(),
                12 <= shift <= 60,
                shift % 8 == 4,
                mult == pow2(shift as nat),
                value < mult,
                spec_u64(data, p0) is Some <==> spec_u64_from(data, self.pos(), shift as nat) is Some,
                spec_u64(data, p0) is Some ==> spec_u64(data, p0).unwrap().0
                    == value + spec_u64_from(data, self.pos(), shift as nat).unwrap().0,
                spec_u64(data, p0) is Some ==> spec_u64(data, p0).unwrap().1
                    == spec_u64_from(data, self.pos(), shift as nat).unwrap().1,
            decreases 60 - shift,
        {
            let ghost pos = self.pos();
            let cont = self.read_bits(1)?;
            if cont == 0 {
                return Ok(value);
            }
            if shift == 60 {
                let top = self.read_bits(4)?;
                proof {
                    lemma_bits_le_bound(data, pos + 1, 4);
                    lemma2_to64();
                    lemma_pow2_adds(60, 4);
                    vstd::arithmetic::mul::lemma_mul_inequality(top as int, 15, mult as int);
                    vstd::arithmetic::power2::lemma2_to64_rest();
                }
                return Ok(value + (top as u64) * mult);
            }
            let g = self.read_bits(8)?;
            proof {
                lemma_bits_le_bound(data, pos + 1, 8);
                lemma2_to64();
                lemma_pow2_adds(shift as nat, 8);
                vstd::arithmetic::mul::lemma_mul_inequality(g as int, 255, mult as int);
                vstd::arithmetic::power2::lemma_pow2_strictly_increases((shift + 8) as nat, 64);
                vstd::arithmetic::power2::lemma2_to64_rest();
            }
            value = value + (g as u64) * mult;
            shift = shift + 8;
            mult = mult * 256;
        }
    }

    /// Whether at least `n` more bits are available.
    pub fn has_more_bits(&self, n: u64) -> (r: bool)
        requires
            self.wf(),
        ensures
            r == (self.pos() + n <= total_bits(self.bytes())),
    {
        let rem_bytes = self.data.len() - self.byte_pos;
        let avail: u128 = (rem_bytes as u128) * 8 - (self.bit_off as u128);
        (n as u128) <= avail
    }

    /// Skip `n` bits. Fails with `Eof`, consuming nothing, when fewer
    /// than `n` bits remain.
    pub fn skip_bits(&mut self, n: u64) -> (r: Result<(), JxlError>)
        requires
            old(self).wf(),
        ensures
            final(self).wf(),
            final(self).bytes() == old(self).bytes(),
            r is Ok <==> old(self).pos() + n <= total_bits(old(self).bytes()),
            r is Ok ==> final(self).pos() == old(self).pos() + n,
            r is Err ==> r->Err_0 is Eof && final(self).pos() == old(self).pos(),
    {
        if !self.has_more_bits(n) {
            return Err(JxlError::Eof);
        }
        let whole: u64 = n / 8;
        let part: u32 = (n % 8) as u32;
        let off: u32 = self.bit_off + part;
        let len: usize = self.data.len();
        assert(self.byte_pos + whole + off / 8 <= len);
        let whole_bytes: usize = whole as usize;
        let carry: usize = (off / 8) as usize;
        let byte_pos: usize = self.byte_pos + whole_bytes + carry;
        let bit_off: u32 = off % 8;
        *self = BitReader { data: self.data, byte_pos, bit_off };
        Ok(())
    }

    /// Number of bits consumed so far.
    pub fn bits_read(&self) -> (r: u128)
        requires
            self.wf(),
        ensures
            r == self.pos(),
    {
        (self.byte_pos as u128) * 8 + (self.bit_off as u128)
    }

    /// Number of whole or partial bytes consumed so far.
    pub fn bytes_consumed(&self) -> (r: usize)
        requires
            self.wf(),
        ensures
            r == (self.pos() + 7) / 8,
            r <= self.bytes().len(),
    {
        proof {
            lemma_bit_position(self.byte_pos as int, self.bit_off as int);
        }
        if self.bit_off == 0 {
            self.byte_pos
        } else {
            assert(self.byte_pos < self.data.len());
            proof {
                vstd::arithmetic::div_mod::lemma_fundamental_div_mod_converse(
                    self.byte_pos * 8 + self.bit_off + 7,
                    8,
                    self.byte_pos + 1,
                    self.bit_off - 1,
                );
            }
            self.byte_pos + 1
        }
    }
}

} // verus!
