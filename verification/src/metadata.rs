//! The fixed preamble of a codestream: `SizeHeader` and the leading
//! fields of `ImageMetadata` (orientation, preview / animation flags, bit
//! depth, extra-channel count).
use vstd::prelude::*;
use crate::bitreader::{BitReader, U32Dist, dist_wf, spec_u32, bits_le, total_bits};
use crate::error::{JxlError, invalid, unsupported};

verus! {

/// Why a field sequence fails to parse: the stream ended, a value breaks
/// the format's rules, or the stream uses a feature that is not decoded.
#[derive(Debug, Clone, Copy, PartialEq, Eq, Structural)]
pub enum Failure {
    Short,
    Invalid,
    Unsupported,
}

/// The error `e` is the one `f` stands for.
pub open spec fn fails_as(e: JxlError, f: Failure) -> bool {
    match f {
        Failure::Short => e is Eof,
        Failure::Invalid => e is InvalidData,
        Failure::Unsupported => e is Unsupported,
    }
}

/// A parser returned `r` and left the reader at `pos_after` exactly as the
/// specified outcome `spec` says.
pub open spec fn outcome<T>(r: Result<T, JxlError>, pos_after: int, spec: Result<(T, int), Failure>) -> bool {
    match spec {
        Ok((v, p)) => r == Ok::<T, JxlError>(v) && pos_after == p,
        Err(f) => r matches Err(e) && fails_as(e, f),
    }
}

/// `u(n)` at `pos`: the value and the position after it.
pub open spec fn spec_bits(s: Seq<u8>, pos: int, n: nat) -> Result<(int, int), Failure> {
    if pos + n > total_bits(s) {
        Err(Failure::Short)
    } else {
        Ok((bits_le(s, pos, n), pos + n))
    }
}

/// `U32(d)` at `pos`: the value and the position after it.
pub open spec fn spec_u32_field(s: Seq<u8>, pos: int, d: [U32Dist; 4]) -> Result<(int, int), Failure> {
    match spec_u32(s, pos, d) {
        None => Err(Failure::Short),
        Some((v, p)) => Ok((v, p)),
    }
}

/// Read `u(n)`, failing as [`spec_bits`] says.
pub fn read_bits_field(br: &mut BitReader<'_>, n: u32) -> (r: Result<u32, JxlError>)
    requires
        old(br).wf(),
        n <= 32,
    ensures
        final(br).wf(),
        final(br).bytes() == old(br).bytes(),
        match spec_bits(old(br).bytes(), old(br).pos(), n as nat) {
            Ok((v, p)) => r matches Ok(x) && x == v && final(br).pos() == p && v < vstd::arithmetic::power2::pow2(n as nat),
            Err(f) => r matches Err(e) && fails_as(e, f),
        },
{
    br.read_bits(n)
}

/// Read a `U32` field whose four distributions are usable.
pub fn read_u32_field(br: &mut BitReader<'_>, d: [U32Dist; 4]) -> (r: Result<u32, JxlError>)
    requires
        old(br).wf(),
        forall|i: int| 0 <= i < 4 ==> dist_wf(#[trigger] d@[i]),
    ensures
        final(br).wf(),
        final(br).bytes() == old(br).bytes(),
        match spec_u32_field(old(br).bytes(), old(br).pos(), d) {
            Ok((v, p)) => r matches Ok(x) && x == v && final(br).pos() == p,
            Err(f) => r matches Err(e) && fails_as(e, f),
        },
{
    let ghost s = br.bytes();
    let ghost p = br.pos();
    let r = br.read_u32(d);
    proof {
        if r is Err {
            assert(spec_u32(s, p, d) is None);
        }
    }
    match r {
        Ok(v) => Ok(v),
        Err(_) => Err(JxlError::Eof),
    }
}

/// Decoded image size, with the encoding flags it was read with.
#[derive(Debug, Clone, Copy, PartialEq, Eq, Structural)]
pub struct SizeHeader {
    pub width: u32,
    pub height: u32,
    /// The height (and an explicit width) used the `(u(5) + 1) * 8` form.
    pub small: bool,
    /// Aspect-ratio selector 1..=7 when the width is implied, 0 otherwise.
    pub ratio: u8,
}

/// Numerator of fixed aspect ratio `r` (1..=7):
/// 1:1, 12:10, 4:3, 3:2, 16:9, 5:4, 2:1.
pub open spec fn aspect_num(r: int) -> int {
    if r == 1 { 1 } else if r == 2 { 12 } else if r == 3 { 4 } else if r == 4 { 3 }
    else if r == 5 { 16 } else if r == 6 { 5 } else { 2 }
}

/// Denominator of fixed aspect ratio `r` (1..=7).
pub open spec fn aspect_den(r: int) -> int {
    if r == 1 { 1 } else if r == 2 { 10 } else if r == 3 { 3 } else if r == 4 { 2 }
    else if r == 5 { 9 } else if r == 6 { 4 } else { 1 }
}

/// The fixed aspect ratio `(numerator, denominator)` of selector `r`.
pub(crate) fn aspect_ratio(r: u32) -> (q: (u32, u32))
    requires
        1 <= r <= 7,
    ensures
        q.0 == aspect_num(r as int),
        q.1 == aspect_den(r as int),
{
    if r == 1 { (1, 1) } else if r == 2 { (12, 10) } else if r == 3 { (4, 3) } else if r == 4 { (3, 2) }
    else if r == 5 { (16, 9) } else if r == 6 { (5, 4) } else { (2, 1) }
}

/// `U32` distributions of a dimension in the large form.
pub open spec fn dim_dists() -> [U32Dist; 4] {
    [U32Dist::BitsOffset(9, 1), U32Dist::BitsOffset(13, 1), U32Dist::BitsOffset(18, 1), U32Dist::BitsOffset(30, 1)]
}

/// A dimension at `pos`: `(u(5) + 1) * 8` in the small form, a `U32`
/// otherwise.
pub open spec fn spec_dim(s: Seq<u8>, pos: int, small: bool) -> Result<(int, int), Failure> {
    if small {
        match spec_bits(s, pos, 5) {
            Ok((v, p)) => Ok(((v + 1) * 8, p)),
            Err(f) => Err(f),
        }
    } else {
        spec_u32_field(s, pos, dim_dists())
    }
}

/// Width implied by aspect ratio `r` for height `h`: `h * num / den`,
/// truncated to 32 bits.
pub open spec fn implied_width(h: int, r: int) -> u32 {
    (h * aspect_num(r) / aspect_den(r)) as u32
}

/// The width a fixed aspect ratio implies for height `h` is `h × N / D`
/// rounded down, with `N:D` for selectors 1 to 7 being 1:1, 12:10, 4:3,
/// 3:2, 16:9, 5:4 and 2:1 (so selector 3 and height 48 give 64).
pub proof fn law_implied_width_ratios(h: int, r: int)
    requires
        0 <= h <= 0x0fff_ffff,
        1 <= r <= 7,
    ensures
        ({
            let w = implied_width(h, r) as int;
            &&& r == 1 ==> w == h
            &&& r == 2 ==> 10 * w <= 12 * h < 10 * w + 10
            &&& r == 3 ==> 3 * w <= 4 * h < 3 * w + 3
            &&& r == 4 ==> 2 * w <= 3 * h < 2 * w + 2
            &&& r == 5 ==> 9 * w <= 16 * h < 9 * w + 9
            &&& r == 6 ==> 4 * w <= 5 * h < 4 * w + 4
            &&& r == 7 ==> w == 2 * h
        }),
{
    let n = aspect_num(r);
    let d = aspect_den(r);
    assert(0 <= h * n <= 0x0fff_ffff * 16) by (nonlinear_arith)
        requires 0 <= h <= 0x0fff_ffff, 1 <= n <= 16;
    let q = h * n / d;
    assert(d * q <= h * n < d * q + d) by (nonlinear_arith)
        requires d >= 1, h * n >= 0, q == h * n / d;
    assert(0 <= q <= h * n) by (nonlinear_arith)
        requires d >= 1, h * n >= 0, q == h * n / d;
}

/// The fields of a `SizeHeader` at `pos`, before the zero-size check:
/// `small`, the height, a 3-bit ratio, and the width when the ratio is 0.
pub open spec fn spec_size_fields(s: Seq<u8>, pos: int) -> Result<(SizeHeader, int), Failure> {
    match spec_bits(s, pos, 1) {
        Err(f) => Err(f),
        Ok((sm, p0)) => {
            let small = sm == 1;
            match spec_dim(s, p0, small) {
                Err(f) => Err(f),
                Ok((h, p1)) => match spec_bits(s, p1, 3) {
                    Err(f) => Err(f),
                    Ok((ratio, p2)) => if ratio == 0 {
                        match spec_dim(s, p2, small) {
                            Err(f) => Err(f),
                            Ok((w, p3)) => Ok((SizeHeader { width: w as u32, height: h as u32, small, ratio: 0 }, p3)),
                        }
                    } else {
                        Ok((SizeHeader { width: implied_width(h, ratio), height: h as u32, small, ratio: ratio as u8 }, p2))
                    },
                },
            }
        },
    }
}

/// `SizeHeader` at `pos`: its fields, refused when a dimension is zero.
pub open spec fn spec_size_header(s: Seq<u8>, pos: int) -> Result<(SizeHeader, int), Failure> {
    match spec_size_fields(s, pos) {
        Ok((h, p)) => if h.width == 0 || h.height == 0 { Err(Failure::Invalid) } else { Ok((h, p)) },
        Err(f) => Err(f),
    }
}

/// A `SizeHeader` that parses has both dimensions at least 1.
pub proof fn law_size_header_dims(s: Seq<u8>, pos: int)
    ensures
        spec_size_header(s, pos) matches Ok((h, _)) ==> h.width >= 1 && h.height >= 1,
{
}

/// Read a dimension in the small or the large form.
fn read_dim(br: &mut BitReader<'_>, small: bool) -> (r: Result<u32, JxlError>)
    requires
        old(br).wf(),
    ensures
        final(br).wf(),
        final(br).bytes() == old(br).bytes(),
        match spec_dim(old(br).bytes(), old(br).pos(), small) {
            Ok((v, p)) => r matches Ok(x) && x == v && final(br).pos() == p,
            Err(f) => r matches Err(e) && fails_as(e, f),
        },
{
    if small {
        let v = read_bits_field(br, 5)?;
        proof {
            vstd::arithmetic::power2::lemma2_to64();
            crate::bitreader::lemma_bits_le_bound(old(br).bytes(), old(br).pos(), 5);
        }
        Ok((v + 1) * 8)
    } else {
        let d = [U32Dist::BitsOffset(9, 1), U32Dist::BitsOffset(13, 1), U32Dist::BitsOffset(18, 1), U32Dist::BitsOffset(30, 1)];
        proof {
            vstd::arithmetic::power2::lemma2_to64();
            assert(d == dim_dists());
            assert forall|i: int| 0 <= i < 4 implies dist_wf(#[trigger] d@[i]) by {}
        }
        read_u32_field(br, d)
    }
}

/// Decode a `SizeHeader` (A.3): `small`, the height, a 3-bit aspect-ratio
/// selector and, for selector 0, the width; the width is otherwise the
/// height scaled by the fixed ratio. A zero dimension is refused.
pub fn parse_size_header(br: &mut BitReader<'_>) -> (r: Result<SizeHeader, JxlError>)
    requires
        old(br).wf(),
    ensures
        final(br).wf(),
        final(br).bytes() == old(br).bytes(),
        outcome(r, final(br).pos(), spec_size_header(old(br).bytes(), old(br).pos())),
{
    proof {
        vstd::arithmetic::power2::lemma2_to64();
    }
    let small_bit = read_bits_field(br, 1)?;
    let small = small_bit == 1;
    let height = read_dim(br, small)?;
    let ratio = read_bits_field(br, 3)?;
    let width = if ratio == 0 {
        read_dim(br, small)?
    } else {
        let (num, den) = aspect_ratio(ratio);
        proof {
            assert((height as u64) * (num as u64) <= 0xffff_ffff * 16) by (nonlinear_arith)
                requires height <= 0xffff_ffff, num <= 16;
        }
        let wide: u64 = (height as u64) * (num as u64) / (den as u64);
        #[verifier::truncate] (wide as u32)
    };
    if width == 0 || height == 0 {
        return Err(invalid("SizeHeader: zero-dimensional image"));
    }
    Ok(SizeHeader { width, height, small, ratio: ratio as u8 })
}

/// Sample format of the stored image.
#[derive(Debug, Clone, Copy, PartialEq, Eq, Structural)]
pub struct BitDepth {
    pub floating_point: bool,
    pub bits_per_sample: u32,
    /// Only meaningful for floating-point samples.
    pub exponent_bits: u32,
}

/// 8-bit unsigned integer samples.
pub open spec fn spec_default_u8() -> BitDepth {
    BitDepth { floating_point: false, bits_per_sample: 8, exponent_bits: 0 }
}

impl BitDepth {
    /// 8-bit unsigned integer samples.
    pub fn default_u8() -> (r: BitDepth)
        ensures
            r == spec_default_u8(),
    {
        BitDepth { floating_point: false, bits_per_sample: 8, exponent_bits: 0 }
    }
}

/// `U32` distributions of an integer `bits_per_sample`.
pub open spec fn int_bits_dists() -> [U32Dist; 4] {
    [U32Dist::Val(8), U32Dist::Val(10), U32Dist::Val(12), U32Dist::BitsOffset(6, 1)]
}

/// `U32` distributions of a floating-point `bits_per_sample`.
pub open spec fn float_bits_dists() -> [U32Dist; 4] {
    [U32Dist::Val(32), U32Dist::Val(16), U32Dist::Val(24), U32Dist::BitsOffset(6, 1)]
}

/// The fields of a `BitDepth` at `pos` (A.15): `float_sample`, then
/// `bits_per_sample` and, for floats, `u(4) + 1` exponent bits.
pub open spec fn spec_bit_depth_fields(s: Seq<u8>, pos: int) -> Result<(BitDepth, int), Failure> {
    match spec_bits(s, pos, 1) {
        Err(f) => Err(f),
        Ok((fl, p0)) => if fl == 0 {
            match spec_u32_field(s, p0, int_bits_dists()) {
                Err(f) => Err(f),
                Ok((b, p1)) => Ok((BitDepth { floating_point: false, bits_per_sample: b as u32, exponent_bits: 0 }, p1)),
            }
        } else {
            match spec_u32_field(s, p0, float_bits_dists()) {
                Err(f) => Err(f),
                Ok((b, p1)) => match spec_bits(s, p1, 4) {
                    Err(f) => Err(f),
                    Ok((e, p2)) => Ok((BitDepth { floating_point: true, bits_per_sample: b as u32, exponent_bits: (e + 1) as u32 }, p2)),
                },
            }
        },
    }
}

/// `BitDepth` at `pos`: at most 31 integer bits; for floats 2..=8
/// exponent bits and 2..=23 mantissa bits.
pub open spec fn spec_bit_depth(s: Seq<u8>, pos: int) -> Result<(BitDepth, int), Failure> {
    match spec_bit_depth_fields(s, pos) {
        Err(f) => Err(f),
        Ok((d, p)) => {
            let ok = if !d.floating_point {
                d.bits_per_sample <= 31
            } else {
                2 <= d.exponent_bits <= 8 && 2 <= d.bits_per_sample - d.exponent_bits - 1 <= 23
            };
            if ok { Ok((d, p)) } else { Err(Failure::Invalid) }
        },
    }
}

/// Read a `U32` field with the integer or floating-point
/// `bits_per_sample` distributions.
fn read_bits_per_sample(br: &mut BitReader<'_>, float: bool) -> (r: Result<u32, JxlError>)
    requires
        old(br).wf(),
    ensures
        final(br).wf(),
        final(br).bytes() == old(br).bytes(),
        match spec_u32_field(old(br).bytes(), old(br).pos(), if float { float_bits_dists() } else { int_bits_dists() }) {
            Ok((v, p)) => r matches Ok(x) && x == v && final(br).pos() == p,
            Err(f) => r matches Err(e) && fails_as(e, f),
        },
{
    let d = if float {
        [U32Dist::Val(32), U32Dist::Val(16), U32Dist::Val(24), U32Dist::BitsOffset(6, 1)]
    } else {
        [U32Dist::Val(8), U32Dist::Val(10), U32Dist::Val(12), U32Dist::BitsOffset(6, 1)]
    };
    proof {
        vstd::arithmetic::power2::lemma2_to64();
        assert forall|i: int| 0 <= i < 4 implies dist_wf(#[trigger] d@[i]) by {}
    }
    read_u32_field(br, d)
}

/// Decode a `BitDepth` bundle (A.15), refusing the widths the format does
/// not allow.
pub fn parse_bit_depth(br: &mut BitReader<'_>) -> (r: Result<BitDepth, JxlError>)
    requires
        old(br).wf(),
    ensures
        final(br).wf(),
        final(br).bytes() == old(br).bytes(),
        outcome(r, final(br).pos(), spec_bit_depth(old(br).bytes(), old(br).pos())),
{
    let fl = read_bits_field(br, 1)?;
    if fl == 0 {
        let bits_per_sample = read_bits_per_sample(br, false)?;
        if bits_per_sample > 31 {
            return Err(invalid("BitDepth: integer bits_per_sample above 31"));
        }
        Ok(BitDepth { floating_point: false, bits_per_sample, exponent_bits: 0 })
    } else {
        let bits_per_sample = read_bits_per_sample(br, true)?;
        let e = read_bits_field(br, 4)?;
        proof {
            vstd::arithmetic::power2::lemma2_to64();
            crate::bitreader::lemma_bits_le_bound(br.bytes(), br.pos() - 4, 4);
        }
        let exponent_bits = e + 1;
        if exponent_bits < 2 || exponent_bits > 8 {
            return Err(invalid("BitDepth: exponent bits outside 2..=8"));
        }
        let mantissa_bits: i64 = bits_per_sample as i64 - exponent_bits as i64 - 1;
        if mantissa_bits < 2 || mantissa_bits > 23 {
            return Err(invalid("BitDepth: mantissa bits outside 2..=23"));
        }
        Ok(BitDepth { floating_point: true, bits_per_sample, exponent_bits })
    }
}

/// Skip a `SizeHeader` (the intrinsic size), checking it as
/// [`parse_size_header`] does.
fn skip_size_header(br: &mut BitReader<'_>) -> (r: Result<(), JxlError>)
    requires
        old(br).wf(),
    ensures
        final(br).wf(),
        final(br).bytes() == old(br).bytes(),
        match spec_size_header(old(br).bytes(), old(br).pos()) {
            Ok((_, p)) => r is Ok && final(br).pos() == p,
            Err(f) => r matches Err(e) && fails_as(e, f),
        },
{
    match parse_size_header(br) {
        Ok(_) => Ok(()),
        Err(e) => Err(e),
    }
}

/// The leading fields of `ImageMetadata`.
#[derive(Debug, Clone, Copy, PartialEq, Eq, Structural)]
pub struct ImageMetadata {
    /// The bundle's `all_default` bit was set.
    pub all_default: bool,
    /// EXIF-style orientation, 1 for the identity.
    pub orientation: u8,
    pub have_preview: bool,
    pub have_animation: bool,
    pub have_intrinsic_size: bool,
    /// Whether the XYB colour transform applies to the stored samples.
    pub xyb_encoded: bool,
    pub bit_depth: BitDepth,
    /// Number of declared extra channels.
    pub num_extra_channels: u32,
}

/// Metadata of a bundle whose `all_default` bit is set.
pub open spec fn default_image_metadata() -> ImageMetadata {
    ImageMetadata {
        all_default: true,
        orientation: 1,
        have_preview: false,
        have_animation: false,
        have_intrinsic_size: false,
        xyb_encoded: true,
        bit_depth: spec_default_u8(),
        num_extra_channels: 0,
    }
}

/// `U32` distributions of `num_extra_channels`.
pub open spec fn num_ec_dists() -> [U32Dist; 4] {
    [U32Dist::Val(0), U32Dist::Val(1), U32Dist::BitsOffset(4, 2), U32Dist::BitsOffset(12, 1)]
}

/// After the extra fields, at `pos`: the bit-depth bundle (or its
/// `all_default` bit), `modular_16_bit_buffer_sufficient` and
/// `num_extra_channels`.
pub open spec fn spec_metadata_tail(s: Seq<u8>, pos: int, orientation: u8, have_intrinsic_size: bool)
    -> Result<(ImageMetadata, int), Failure>
{
    match spec_bits(s, pos, 1) {
        Err(f) => Err(f),
        Ok((bd_default, p0)) => {
            let bd = if bd_default == 1 { Ok((spec_default_u8(), p0)) } else { spec_bit_depth(s, p0) };
            match bd {
                Err(f) => Err(f),
                Ok((bit_depth, p1)) => match spec_bits(s, p1, 1) {
                    Err(f) => Err(f),
                    Ok((_, p2)) => match spec_u32_field(s, p2, num_ec_dists()) {
                        Err(f) => Err(f),
                        Ok((n, p3)) => Ok((ImageMetadata {
                            all_default: false,
                            orientation,
                            have_preview: false,
                            have_animation: false,
                            have_intrinsic_size,
                            xyb_encoded: false,
                            bit_depth,
                            num_extra_channels: n as u32,
                        }, p3)),
                    },
                },
            }
        },
    }
}

/// The extra fields at `pos`: orientation `u(3) + 1`, `have_intrinsic_size`
/// and the intrinsic `SizeHeader`, then the preview and animation flags —
/// either of which is not decoded.
pub open spec fn spec_extra_fields(s: Seq<u8>, pos: int) -> Result<((u8, bool), int), Failure> {
    match spec_bits(s, pos, 3) {
        Err(f) => Err(f),
        Ok((o, p2)) => match spec_bits(s, p2, 1) {
            Err(f) => Err(f),
            Ok((is, p3)) => {
                let sz = if is == 1 {
                    match spec_size_header(s, p3) { Err(f) => Err(f), Ok((_, p)) => Ok(p) }
                } else {
                    Ok(p3)
                };
                match sz {
                    Err(f) => Err(f),
                    Ok(p4) => match spec_bits(s, p4, 1) {
                        Err(f) => Err(f),
                        Ok((pv, p5)) => if pv == 1 {
                            Err(Failure::Unsupported)
                        } else {
                            match spec_bits(s, p5, 1) {
                                Err(f) => Err(f),
                                Ok((an, p6)) => if an == 1 {
                                    Err(Failure::Unsupported)
                                } else {
                                    Ok((((o + 1) as u8, is == 1), p6))
                                },
                            }
                        },
                    },
                }
            },
        },
    }
}

/// `ImageMetadata` at `pos`: `all_default`; otherwise `extra_fields` and,
/// when set, the extra fields, then the tail.
pub open spec fn spec_image_metadata(s: Seq<u8>, pos: int) -> Result<(ImageMetadata, int), Failure> {
    match spec_bits(s, pos, 1) {
        Err(f) => Err(f),
        Ok((ad, p0)) => if ad == 1 {
            Ok((default_image_metadata(), p0))
        } else {
            match spec_bits(s, p0, 1) {
                Err(f) => Err(f),
                Ok((ef, p1)) => if ef == 0 {
                    spec_metadata_tail(s, p1, 1, false)
                } else {
                    match spec_extra_fields(s, p1) {
                        Err(f) => Err(f),
                        Ok(((o, is), p6)) => spec_metadata_tail(s, p6, o, is),
                    }
                },
            }
        },
    }
}

/// Read the extra fields (see [`spec_extra_fields`]).
fn parse_extra_fields(br: &mut BitReader<'_>) -> (r: Result<(u8, bool), JxlError>)
    requires
        old(br).wf(),
    ensures
        final(br).wf(),
        final(br).bytes() == old(br).bytes(),
        outcome(r, final(br).pos(), spec_extra_fields(old(br).bytes(), old(br).pos())),
{
    proof {
        vstd::arithmetic::power2::lemma2_to64();
    }
    let o = read_bits_field(br, 3)?;
    let orientation: u8 = (o as u8) + 1;
    let is = read_bits_field(br, 1)?;
    if is == 1 {
        skip_size_header(br)?;
    }
    let pv = read_bits_field(br, 1)?;
    if pv == 1 {
        return Err(unsupported("ImageMetadata: preview header not decoded"));
    }
    let an = read_bits_field(br, 1)?;
    if an == 1 {
        return Err(unsupported("ImageMetadata: animation header not decoded"));
    }
    Ok((orientation, is == 1))
}

/// Read the fields after the extra fields (see [`spec_metadata_tail`]).
fn parse_metadata_tail(br: &mut BitReader<'_>, orientation: u8, have_intrinsic_size: bool) -> (r: Result<ImageMetadata, JxlError>)
    requires
        old(br).wf(),
    ensures
        final(br).wf(),
        final(br).bytes() == old(br).bytes(),
        outcome(r, final(br).pos(), spec_metadata_tail(old(br).bytes(), old(br).pos(), orientation, have_intrinsic_size)),
{
    let bd_default = read_bits_field(br, 1)?;
    let bit_depth = if bd_default == 1 { BitDepth::default_u8() } else { parse_bit_depth(br)? };
    let _modular_16_bit_buffer_sufficient = read_bits_field(br, 1)?;
    let d = [U32Dist::Val(0), U32Dist::Val(1), U32Dist::BitsOffset(4, 2), U32Dist::BitsOffset(12, 1)];
    proof {
        vstd::arithmetic::power2::lemma2_to64();
        assert(d == num_ec_dists());
        assert forall|i: int| 0 <= i < 4 implies dist_wf(#[trigger] d@[i]) by {}
    }
    let num_extra_channels = read_u32_field(br, d)?;
    Ok(ImageMetadata {
        all_default: false,
        orientation,
        have_preview: false,
        have_animation: false,
        have_intrinsic_size,
        xyb_encoded: false,
        bit_depth,
        num_extra_channels,
    })
}

/// Decode the leading fields of `ImageMetadata`; a preview or an
/// animation header is refused as not decoded.
pub fn parse_image_metadata(br: &mut BitReader<'_>) -> (r: Result<ImageMetadata, JxlError>)
    requires
        old(br).wf(),
    ensures
        final(br).wf(),
        final(br).bytes() == old(br).bytes(),
        outcome(r, final(br).pos(), spec_image_metadata(old(br).bytes(), old(br).pos())),
{
    let all_default = read_bits_field(br, 1)?;
    if all_default == 1 {
        return Ok(ImageMetadata {
            all_default: true,
            orientation: 1,
            have_preview: false,
            have_animation: false,
            have_intrinsic_size: false,
            xyb_encoded: true,
            bit_depth: BitDepth::default_u8(),
            num_extra_channels: 0,
        });
    }
    let extra_fields = read_bits_field(br, 1)?;
    if extra_fields == 0 {
        return parse_metadata_tail(br, 1, false);
    }
    let (orientation, is) = parse_extra_fields(br)?;
    parse_metadata_tail(br, orientation, is)
}

} // verus!
