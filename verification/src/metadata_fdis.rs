//! Image-header bundles: `SizeHeader` (A.3),
//! `BitDepth` (A.15), `ColourEncoding` (A.4) with its enumerations and
//! custom chromaticities, `ExtraChannelType` (A.21), `AnimationHeader`
//! (A.19) and `PreviewHeader` (A.5).
use vstd::prelude::*;
use crate::bitreader::{BitReader, U32Dist, dist_wf, spec_unpack_signed, unpack_signed, bits_le, total_bits};
use crate::error::{JxlError, invalid};
use crate::metadata::{
    Failure, fails_as, outcome, spec_bits, spec_u32_field, read_bits_field, read_u32_field, spec_size_header,
    parse_size_header, spec_bit_depth, parse_bit_depth, aspect_num, aspect_den, aspect_ratio,
};

verus! {

/// Decoded `SizeHeader`.
#[derive(Debug, Clone, Copy)]
pub struct SizeHeaderFdis {
    pub width: u32,
    pub height: u32,
    pub small: bool,
    pub ratio: u8,
}

/// `SizeHeader` at `pos` (A.3).
pub open spec fn spec_size_header_fdis(s: Seq<u8>, pos: int) -> Result<(SizeHeaderFdis, int), Failure> {
    match spec_size_header(s, pos) {
        Err(f) => Err(f),
        Ok((h, p)) => Ok((SizeHeaderFdis { width: h.width, height: h.height, small: h.small, ratio: h.ratio }, p)),
    }
}

impl SizeHeaderFdis {
    /// Decode a `SizeHeader` (A.3); a zero dimension is refused.
    pub fn read(br: &mut BitReader<'_>) -> (r: Result<Self, JxlError>)
        requires
            old(br).wf(),
        ensures
            final(br).wf(),
            final(br).bytes() == old(br).bytes(),
            outcome(r, final(br).pos(), spec_size_header_fdis(old(br).bytes(), old(br).pos())),
    {
        let h = parse_size_header(br)?;
        Ok(SizeHeaderFdis { width: h.width, height: h.height, small: h.small, ratio: h.ratio })
    }
}

/// Decoded `BitDepth` (A.15).
#[derive(Debug, Clone, Copy)]
pub struct BitDepthFdis {
    pub float_sample: bool,
    pub bits_per_sample: u32,
    /// Exponent bits of floating-point samples, 0 for integers.
    pub exp_bits: u32,
}

/// `BitDepth` at `pos`: integer samples of 1..=31 bits (the distributions
/// give at least 1), or floats with 2..=8 exponent and 2..=23 mantissa
/// bits.
pub open spec fn spec_bit_depth_fdis(s: Seq<u8>, pos: int) -> Result<(BitDepthFdis, int), Failure> {
    match spec_bit_depth(s, pos) {
        Err(f) => Err(f),
        Ok((d, p)) => Ok((BitDepthFdis { float_sample: d.floating_point, bits_per_sample: d.bits_per_sample, exp_bits: d.exponent_bits }, p)),
    }
}

impl BitDepthFdis {
    /// 8-bit integer samples, the default bit depth.
    pub fn default_depth() -> (r: Self)
        ensures
            r == (BitDepthFdis { float_sample: false, bits_per_sample: 8, exp_bits: 0 }),
    {
        BitDepthFdis { float_sample: false, bits_per_sample: 8, exp_bits: 0 }
    }

    /// Decode a `BitDepth` bundle, refusing widths the format does not allow.
    pub fn read(br: &mut BitReader<'_>) -> (r: Result<Self, JxlError>)
        requires
            old(br).wf(),
        ensures
            final(br).wf(),
            final(br).bytes() == old(br).bytes(),
            outcome(r, final(br).pos(), spec_bit_depth_fdis(old(br).bytes(), old(br).pos())),
    {
        let d = parse_bit_depth(br)?;
        Ok(BitDepthFdis { float_sample: d.floating_point, bits_per_sample: d.bits_per_sample, exp_bits: d.exponent_bits })
    }
}

/// A chromaticity `(x, y)` scaled by 10^6 (A.6).
#[derive(Debug, Clone, Copy)]
pub struct Customxy {
    pub x: i32,
    pub y: i32,
}

/// `U32` distributions of a custom chromaticity coordinate.
pub open spec fn xy_dists() -> [U32Dist; 4] {
    [U32Dist::Bits(19), U32Dist::BitsOffset(19, 524288), U32Dist::BitsOffset(20, 1048576), U32Dist::BitsOffset(21, 2097152)]
}

/// `Customxy` at `pos`: two `U32` fields, each `UnpackSigned`.
pub open spec fn spec_customxy(s: Seq<u8>, pos: int) -> Result<(Customxy, int), Failure> {
    match spec_u32_field(s, pos, xy_dists()) {
        Err(f) => Err(f),
        Ok((ux, p1)) => match spec_u32_field(s, p1, xy_dists()) {
            Err(f) => Err(f),
            Ok((uy, p2)) => Ok((Customxy {
                x: spec_unpack_signed(ux as u32) as i32,
                y: spec_unpack_signed(uy as u32) as i32,
            }, p2)),
        },
    }
}

/// Read one chromaticity coordinate's `U32`.
fn read_xy_field(br: &mut BitReader<'_>) -> (r: Result<u32, JxlError>)
    requires
        old(br).wf(),
    ensures
        final(br).wf(),
        final(br).bytes() == old(br).bytes(),
        match spec_u32_field(old(br).bytes(), old(br).pos(), xy_dists()) {
            Ok((v, p)) => r matches Ok(x) && x == v && final(br).pos() == p,
            Err(f) => r matches Err(e) && fails_as(e, f),
        },
{
    let d = [U32Dist::Bits(19), U32Dist::BitsOffset(19, 524288), U32Dist::BitsOffset(20, 1048576), U32Dist::BitsOffset(21, 2097152)];
    proof {
        vstd::arithmetic::power2::lemma2_to64();
        assert(d == xy_dists());
        assert forall|i: int| 0 <= i < 4 implies dist_wf(#[trigger] d@[i]) by {}
    }
    read_u32_field(br, d)
}

impl Customxy {
    /// Decode a custom chromaticity.
    pub fn read(br: &mut BitReader<'_>) -> (r: Result<Self, JxlError>)
        requires
            old(br).wf(),
        ensures
            final(br).wf(),
            final(br).bytes() == old(br).bytes(),
            outcome(r, final(br).pos(), spec_customxy(old(br).bytes(), old(br).pos())),
    {
        let ux = read_xy_field(br)?;
        let uy = read_xy_field(br)?;
        Ok(Customxy { x: unpack_signed(ux), y: unpack_signed(uy) })
    }
}

/// `ColourSpace` (A.7).
#[derive(Debug, Clone, Copy, PartialEq, Eq, Structural)]
pub enum ColourSpace {
    Rgb,
    Grey,
    Xyb,
    Unknown,
}

/// `ColourSpace` of an enumeration value: 0 RGB, 1 grey, 2 XYB, 3 unknown.
pub open spec fn spec_colour_space(v: int) -> Option<ColourSpace> {
    if v == 0 { Some(ColourSpace::Rgb) } else if v == 1 { Some(ColourSpace::Grey) }
    else if v == 2 { Some(ColourSpace::Xyb) } else if v == 3 { Some(ColourSpace::Unknown) } else { None }
}

impl ColourSpace {
    /// The colour space of value `v`; other values are refused.
    pub fn from_u32(v: u32) -> (r: Result<Self, JxlError>)
        ensures
            match spec_colour_space(v as int) {
                Some(c) => r == Ok::<ColourSpace, JxlError>(c),
                None => r matches Err(e) && e is InvalidData,
            },
    {
        if v == 0 { Ok(ColourSpace::Rgb) } else if v == 1 { Ok(ColourSpace::Grey) }
        else if v == 2 { Ok(ColourSpace::Xyb) } else if v == 3 { Ok(ColourSpace::Unknown) }
        else { Err(invalid("ColourSpace: invalid value")) }
    }
}

/// `WhitePoint` (A.8).
#[derive(Debug, Clone, Copy, PartialEq, Eq, Structural)]
pub enum WhitePoint {
    D65,
    Custom,
    E,
    Dci,
}

/// `WhitePoint` of an enumeration value: 1 D65, 2 custom, 10 E, 11 DCI.
pub open spec fn spec_white_point(v: int) -> Option<WhitePoint> {
    if v == 1 { Some(WhitePoint::D65) } else if v == 2 { Some(WhitePoint::Custom) }
    else if v == 10 { Some(WhitePoint::E) } else if v == 11 { Some(WhitePoint::Dci) } else { None }
}

impl WhitePoint {
    /// The white point of value `v`; other values are refused.
    pub fn from_u32(v: u32) -> (r: Result<Self, JxlError>)
        ensures
            match spec_white_point(v as int) {
                Some(c) => r == Ok::<WhitePoint, JxlError>(c),
                None => r matches Err(e) && e is InvalidData,
            },
    {
        if v == 1 { Ok(WhitePoint::D65) } else if v == 2 { Ok(WhitePoint::Custom) }
        else if v == 10 { Ok(WhitePoint::E) } else if v == 11 { Ok(WhitePoint::Dci) }
        else { Err(invalid("WhitePoint: invalid value")) }
    }
}

/// `Primaries` (A.9).
#[derive(Debug, Clone, Copy, PartialEq, Eq, Structural)]
pub enum Primaries {
    SRgb,
    Custom,
    P2100,
    P3,
}

/// `Primaries` of an enumeration value: 1 sRGB, 2 custom, 9 BT.2100, 11 P3.
pub open spec fn spec_primaries(v: int) -> Option<Primaries> {
    if v == 1 { Some(Primaries::SRgb) } else if v == 2 { Some(Primaries::Custom) }
    else if v == 9 { Some(Primaries::P2100) } else if v == 11 { Some(Primaries::P3) } else { None }
}

impl Primaries {
    /// The primaries of value `v`; other values are refused.
    pub fn from_u32(v: u32) -> (r: Result<Self, JxlError>)
        ensures
            match spec_primaries(v as int) {
                Some(c) => r == Ok::<Primaries, JxlError>(c),
                None => r matches Err(e) && e is InvalidData,
            },
    {
        if v == 1 { Ok(Primaries::SRgb) } else if v == 2 { Ok(Primaries::Custom) }
        else if v == 9 { Ok(Primaries::P2100) } else if v == 11 { Ok(Primaries::P3) }
        else { Err(invalid("Primaries: invalid value")) }
    }
}

/// `TransferFunction` (A.10).
#[derive(Debug, Clone, Copy, PartialEq, Eq, Structural)]
pub enum TransferFunction {
    Bt709,
    Unknown,
    Linear,
    SRgb,
    Pq,
    Dci,
    Hlg,
}

/// `TransferFunction` of an enumeration value: 1 BT.709, 2 unknown,
/// 8 linear, 13 sRGB, 16 PQ, 17 DCI, 18 HLG.
pub open spec fn spec_transfer_function(v: int) -> Option<TransferFunction> {
    if v == 1 { Some(TransferFunction::Bt709) } else if v == 2 { Some(TransferFunction::Unknown) }
    else if v == 8 { Some(TransferFunction::Linear) } else if v == 13 { Some(TransferFunction::SRgb) }
    else if v == 16 { Some(TransferFunction::Pq) } else if v == 17 { Some(TransferFunction::Dci) }
    else if v == 18 { Some(TransferFunction::Hlg) } else { None }
}

impl TransferFunction {
    /// The transfer function of value `v`; other values are refused.
    pub fn from_u32(v: u32) -> (r: Result<Self, JxlError>)
        ensures
            match spec_transfer_function(v as int) {
                Some(c) => r == Ok::<TransferFunction, JxlError>(c),
                None => r matches Err(e) && e is InvalidData,
            },
    {
        if v == 1 { Ok(TransferFunction::Bt709) } else if v == 2 { Ok(TransferFunction::Unknown) }
        else if v == 8 { Ok(TransferFunction::Linear) } else if v == 13 { Ok(TransferFunction::SRgb) }
        else if v == 16 { Ok(TransferFunction::Pq) } else if v == 17 { Ok(TransferFunction::Dci) }
        else if v == 18 { Ok(TransferFunction::Hlg) } else { Err(invalid("TransferFunction: invalid value")) }
    }
}

/// `RenderingIntent` (A.12).
#[derive(Debug, Clone, Copy, PartialEq, Eq, Structural)]
pub enum RenderingIntent {
    Perceptual,
    Relative,
    Saturation,
    Absolute,
}

/// `RenderingIntent` of an enumeration value: 0 perceptual, 1 relative,
/// 2 saturation, 3 absolute.
pub open spec fn spec_rendering_intent(v: int) -> Option<RenderingIntent> {
    if v == 0 { Some(RenderingIntent::Perceptual) } else if v == 1 { Some(RenderingIntent::Relative) }
    else if v == 2 { Some(RenderingIntent::Saturation) } else if v == 3 { Some(RenderingIntent::Absolute) } else { None }
}

impl RenderingIntent {
    /// The rendering intent of value `v`; other values are refused.
    pub fn from_u32(v: u32) -> (r: Result<Self, JxlError>)
        ensures
            match spec_rendering_intent(v as int) {
                Some(c) => r == Ok::<RenderingIntent, JxlError>(c),
                None => r matches Err(e) && e is InvalidData,
            },
    {
        if v == 0 { Ok(RenderingIntent::Perceptual) } else if v == 1 { Ok(RenderingIntent::Relative) }
        else if v == 2 { Ok(RenderingIntent::Saturation) } else if v == 3 { Ok(RenderingIntent::Absolute) }
        else { Err(invalid("RenderingIntent: invalid value")) }
    }
}

/// `U32` distributions of `Enum()`.
pub open spec fn enum_dists() -> [U32Dist; 4] {
    [U32Dist::Val(0), U32Dist::Val(1), U32Dist::BitsOffset(4, 2), U32Dist::BitsOffset(6, 18)]
}

/// `Enum()` at `pos`: a `U32` of at most 63.
pub open spec fn spec_enum(s: Seq<u8>, pos: int) -> Result<(int, int), Failure> {
    match spec_u32_field(s, pos, enum_dists()) {
        Err(f) => Err(f),
        Ok((v, p)) => if v > 63 { Err(Failure::Invalid) } else { Ok((v, p)) },
    }
}

/// An enumeration value at `pos` mapped by `m`; unknown values are invalid.
pub open spec fn spec_enum_as<T>(s: Seq<u8>, pos: int, m: spec_fn(int) -> Option<T>) -> Result<(T, int), Failure> {
    match spec_enum(s, pos) {
        Err(f) => Err(f),
        Ok((v, p)) => match m(v) {
            None => Err(Failure::Invalid),
            Some(c) => Ok((c, p)),
        },
    }
}

/// Read `Enum()`: a `U32` refused above 63.
fn read_enum_u32(br: &mut BitReader<'_>) -> (r: Result<u32, JxlError>)
    requires
        old(br).wf(),
    ensures
        final(br).wf(),
        final(br).bytes() == old(br).bytes(),
        match spec_enum(old(br).bytes(), old(br).pos()) {
            Ok((v, p)) => r matches Ok(x) && x == v && final(br).pos() == p,
            Err(f) => r matches Err(e) && fails_as(e, f),
        },
{
    let d = [U32Dist::Val(0), U32Dist::Val(1), U32Dist::BitsOffset(4, 2), U32Dist::BitsOffset(6, 18)];
    proof {
        vstd::arithmetic::power2::lemma2_to64();
        assert(d == enum_dists());
        assert forall|i: int| 0 <= i < 4 implies dist_wf(#[trigger] d@[i]) by {}
    }
    let v = read_u32_field(br, d)?;
    if v > 63 {
        return Err(invalid("Enum(): value above 63"));
    }
    Ok(v)
}

/// `CustomTransferFunction` (A.11).
#[derive(Debug, Clone, Copy)]
pub struct CustomTransferFunction {
    pub have_gamma: bool,
    /// The exponent times 10^7 when `have_gamma`.
    pub gamma: u32,
    pub transfer_function: TransferFunction,
}

/// The default transfer function: sRGB, gamma 10^7 unused.
pub open spec fn default_ctf() -> CustomTransferFunction {
    CustomTransferFunction { have_gamma: false, gamma: 10_000_000, transfer_function: TransferFunction::SRgb }
}

impl Default for CustomTransferFunction {
    fn default() -> (r: Self)
        ensures
            r == default_ctf(),
    {
        CustomTransferFunction { have_gamma: false, gamma: 10_000_000, transfer_function: TransferFunction::SRgb }
    }
}

/// `CustomTransferFunction` at `pos`: `have_gamma` and a `u(24)` gamma in
/// `(0, 10^7]`, or an enumerated transfer function.
pub open spec fn spec_ctf(s: Seq<u8>, pos: int) -> Result<(CustomTransferFunction, int), Failure> {
    match spec_bits(s, pos, 1) {
        Err(f) => Err(f),
        Ok((hg, p0)) => if hg == 1 {
            match spec_bits(s, p0, 24) {
                Err(f) => Err(f),
                Ok((g, p1)) => if g == 0 || g > 10_000_000 {
                    Err(Failure::Invalid)
                } else {
                    Ok((CustomTransferFunction { have_gamma: true, gamma: g as u32, transfer_function: TransferFunction::SRgb }, p1))
                },
            }
        } else {
            match spec_enum_as(s, p0, |v: int| spec_transfer_function(v)) {
                Err(f) => Err(f),
                Ok((tf, p1)) => Ok((CustomTransferFunction { have_gamma: false, gamma: 10_000_000, transfer_function: tf }, p1)),
            }
        },
    }
}

impl CustomTransferFunction {
    /// Decode a `CustomTransferFunction`.
    pub fn read(br: &mut BitReader<'_>) -> (r: Result<Self, JxlError>)
        requires
            old(br).wf(),
        ensures
            final(br).wf(),
            final(br).bytes() == old(br).bytes(),
            outcome(r, final(br).pos(), spec_ctf(old(br).bytes(), old(br).pos())),
    {
        let hg = read_bits_field(br, 1)?;
        if hg == 1 {
            let gamma = read_bits_field(br, 24)?;
            if gamma == 0 || gamma > 10_000_000 {
                return Err(invalid("CustomTransferFunction: gamma outside (0, 10^7]"));
            }
            Ok(CustomTransferFunction { have_gamma: true, gamma, transfer_function: TransferFunction::SRgb })
        } else {
            let v = read_enum_u32(br)?;
            let transfer_function = TransferFunction::from_u32(v)?;
            Ok(CustomTransferFunction { have_gamma: false, gamma: 10_000_000, transfer_function })
        }
    }
}

/// `ColourEncoding` (A.4).
#[derive(Debug, Clone, Copy)]
pub struct ColourEncoding {
    pub all_default: bool,
    pub want_icc: bool,
    pub colour_space: ColourSpace,
    pub white_point: WhitePoint,
    pub white: Option<Customxy>,
    pub primaries: Primaries,
    pub red: Option<Customxy>,
    pub green: Option<Customxy>,
    pub blue: Option<Customxy>,
    pub tf: CustomTransferFunction,
    pub rendering_intent: RenderingIntent,
}

/// The default colour encoding: sRGB with a D65 white point and the
/// relative rendering intent.
pub open spec fn default_colour_encoding() -> ColourEncoding {
    ColourEncoding {
        all_default: true,
        want_icc: false,
        colour_space: ColourSpace::Rgb,
        white_point: WhitePoint::D65,
        white: None,
        primaries: Primaries::SRgb,
        red: None,
        green: None,
        blue: None,
        tf: default_ctf(),
        rendering_intent: RenderingIntent::Relative,
    }
}

impl Default for ColourEncoding {
    fn default() -> (r: Self)
        ensures
            r == default_colour_encoding(),
    {
        ColourEncoding {
            all_default: true,
            want_icc: false,
            colour_space: ColourSpace::Rgb,
            white_point: WhitePoint::D65,
            white: None,
            primaries: Primaries::SRgb,
            red: None,
            green: None,
            blue: None,
            tf: CustomTransferFunction::default(),
            rendering_intent: RenderingIntent::Relative,
        }
    }
}

/// The white point at `pos` when `present`: an enumerated value and, for a
/// custom one, its chromaticity; D65 otherwise.
pub open spec fn spec_white(s: Seq<u8>, pos: int, present: bool) -> Result<((WhitePoint, Option<Customxy>), int), Failure> {
    if !present {
        Ok(((WhitePoint::D65, None), pos))
    } else {
        match spec_enum_as(s, pos, |v: int| spec_white_point(v)) {
            Err(f) => Err(f),
            Ok((wp, p)) => if wp == WhitePoint::Custom {
                match spec_customxy(s, p) {
                    Err(f) => Err(f),
                    Ok((xy, p1)) => Ok(((wp, Some(xy)), p1)),
                }
            } else {
                Ok(((wp, None), p))
            },
        }
    }
}

/// Custom primaries: red, green and blue chromaticities.
pub open spec fn spec_rgb_xy(s: Seq<u8>, pos: int) -> Result<((Customxy, Customxy, Customxy), int), Failure> {
    match spec_customxy(s, pos) {
        Err(f) => Err(f),
        Ok((r, p1)) => match spec_customxy(s, p1) {
            Err(f) => Err(f),
            Ok((g, p2)) => match spec_customxy(s, p2) {
                Err(f) => Err(f),
                Ok((b, p3)) => Ok(((r, g, b), p3)),
            },
        },
    }
}

/// The primaries at `pos` when `present`: an enumerated value and, for
/// custom ones, three chromaticities; sRGB otherwise.
pub open spec fn spec_prims(s: Seq<u8>, pos: int, present: bool)
    -> Result<((Primaries, Option<Customxy>, Option<Customxy>, Option<Customxy>), int), Failure>
{
    if !present {
        Ok(((Primaries::SRgb, None, None, None), pos))
    } else {
        match spec_enum_as(s, pos, |v: int| spec_primaries(v)) {
            Err(f) => Err(f),
            Ok((pr, p)) => if pr == Primaries::Custom {
                match spec_rgb_xy(s, p) {
                    Err(f) => Err(f),
                    Ok(((r, g, b), p1)) => Ok(((pr, Some(r), Some(g), Some(b)), p1)),
                }
            } else {
                Ok(((pr, None, None, None), p))
            },
        }
    }
}

/// The description fields after the colour space: transfer function and
/// rendering intent when described, defaults with an ICC profile.
pub open spec fn spec_tf_intent(s: Seq<u8>, pos: int, use_desc: bool)
    -> Result<((CustomTransferFunction, RenderingIntent), int), Failure>
{
    if !use_desc {
        Ok(((default_ctf(), RenderingIntent::Relative), pos))
    } else {
        match spec_ctf(s, pos) {
            Err(f) => Err(f),
            Ok((tf, p1)) => match spec_enum_as(s, p1, |v: int| spec_rendering_intent(v)) {
                Err(f) => Err(f),
                Ok((ri, p2)) => Ok(((tf, ri), p2)),
            },
        }
    }
}

/// The fields of a described `ColourEncoding` after its colour space `cs`
/// at `pos`: the white point and primaries where an XYB-free description
/// needs them (no primaries for grey), then transfer function and
/// rendering intent.
pub open spec fn spec_ce_rest(s: Seq<u8>, pos: int, want_icc: bool, cs: ColourSpace) -> Result<(ColourEncoding, int), Failure> {
    let use_desc = !want_icc;
    let not_xyb = cs != ColourSpace::Xyb;
    match spec_white(s, pos, use_desc && not_xyb) {
        Err(f) => Err(f),
        Ok(((wp, white), p3)) => match spec_prims(s, p3, use_desc && not_xyb && cs != ColourSpace::Grey) {
            Err(f) => Err(f),
            Ok(((pr, red, green, blue), p4)) => match spec_tf_intent(s, p4, use_desc) {
                Err(f) => Err(f),
                Ok(((tf, ri), p5)) => Ok((ColourEncoding {
                    all_default: false,
                    want_icc,
                    colour_space: cs,
                    white_point: wp,
                    white,
                    primaries: pr,
                    red,
                    green,
                    blue,
                    tf,
                    rendering_intent: ri,
                }, p5)),
            },
        },
    }
}

/// `ColourEncoding` at `pos`: `all_default`, else `want_icc`, the colour
/// space and the rest of the description.
pub open spec fn spec_colour_encoding(s: Seq<u8>, pos: int) -> Result<(ColourEncoding, int), Failure> {
    match spec_bits(s, pos, 1) {
        Err(f) => Err(f),
        Ok((ad, p0)) => if ad == 1 {
            Ok((default_colour_encoding(), p0))
        } else {
            match spec_bits(s, p0, 1) {
                Err(f) => Err(f),
                Ok((wi, p1)) => match spec_enum_as(s, p1, |v: int| spec_colour_space(v)) {
                    Err(f) => Err(f),
                    Ok((cs, p2)) => spec_ce_rest(s, p2, wi == 1, cs),
                },
            }
        },
    }
}

/// Read the rest of a described `ColourEncoding` (see [`spec_ce_rest`]).
fn read_ce_rest(br: &mut BitReader<'_>, want_icc: bool, colour_space: ColourSpace) -> (r: Result<ColourEncoding, JxlError>)
    requires
        old(br).wf(),
    ensures
        final(br).wf(),
        final(br).bytes() == old(br).bytes(),
        outcome(r, final(br).pos(), spec_ce_rest(old(br).bytes(), old(br).pos(), want_icc, colour_space)),
{
    let use_desc = !want_icc;
    let not_xyb = colour_space != ColourSpace::Xyb;
    let (white_point, white) = read_white(br, use_desc && not_xyb)?;
    let (primaries, red, green, blue) = read_prims(br, use_desc && not_xyb && colour_space != ColourSpace::Grey)?;
    let (tf, rendering_intent) = read_tf_intent(br, use_desc)?;
    Ok(ColourEncoding {
        all_default: false,
        want_icc,
        colour_space,
        white_point,
        white,
        primaries,
        red,
        green,
        blue,
        tf,
        rendering_intent,
    })
}

/// Read the white point (see [`spec_white`]).
fn read_white(br: &mut BitReader<'_>, present: bool) -> (r: Result<(WhitePoint, Option<Customxy>), JxlError>)
    requires
        old(br).wf(),
    ensures
        final(br).wf(),
        final(br).bytes() == old(br).bytes(),
        outcome(r, final(br).pos(), spec_white(old(br).bytes(), old(br).pos(), present)),
{
    if !present {
        return Ok((WhitePoint::D65, None));
    }
    let v = read_enum_u32(br)?;
    let wp = WhitePoint::from_u32(v)?;
    if wp == WhitePoint::Custom {
        let xy = Customxy::read(br)?;
        Ok((wp, Some(xy)))
    } else {
        Ok((wp, None))
    }
}

/// Read the primaries (see [`spec_prims`]).
fn read_prims(br: &mut BitReader<'_>, present: bool)
    -> (r: Result<(Primaries, Option<Customxy>, Option<Customxy>, Option<Customxy>), JxlError>)
    requires
        old(br).wf(),
    ensures
        final(br).wf(),
        final(br).bytes() == old(br).bytes(),
        outcome(r, final(br).pos(), spec_prims(old(br).bytes(), old(br).pos(), present)),
{
    if !present {
        return Ok((Primaries::SRgb, None, None, None));
    }
    let v = read_enum_u32(br)?;
    let pr = Primaries::from_u32(v)?;
    if pr == Primaries::Custom {
        let red = Customxy::read(br)?;
        let green = Customxy::read(br)?;
        let blue = Customxy::read(br)?;
        Ok((pr, Some(red), Some(green), Some(blue)))
    } else {
        Ok((pr, None, None, None))
    }
}

/// Read the transfer function and rendering intent (see
/// [`spec_tf_intent`]).
fn read_tf_intent(br: &mut BitReader<'_>, use_desc: bool) -> (r: Result<(CustomTransferFunction, RenderingIntent), JxlError>)
    requires
        old(br).wf(),
    ensures
        final(br).wf(),
        final(br).bytes() == old(br).bytes(),
        outcome(r, final(br).pos(), spec_tf_intent(old(br).bytes(), old(br).pos(), use_desc)),
{
    if !use_desc {
        return Ok((CustomTransferFunction::default(), RenderingIntent::Relative));
    }
    let tf = CustomTransferFunction::read(br)?;
    let v = read_enum_u32(br)?;
    let ri = RenderingIntent::from_u32(v)?;
    Ok((tf, ri))
}

impl ColourEncoding {
    /// Decode a `ColourEncoding` bundle.
    pub fn read(br: &mut BitReader<'_>) -> (r: Result<Self, JxlError>)
        requires
            old(br).wf(),
        ensures
            final(br).wf(),
            final(br).bytes() == old(br).bytes(),
            outcome(r, final(br).pos(), spec_colour_encoding(old(br).bytes(), old(br).pos())),
    {
        let ad = read_bits_field(br, 1)?;
        if ad == 1 {
            return Ok(ColourEncoding::default());
        }
        let wi = read_bits_field(br, 1)?;
        let v = read_enum_u32(br)?;
        let colour_space = ColourSpace::from_u32(v)?;
        read_ce_rest(br, wi == 1, colour_space)
    }
}

/// `ExtraChannelType` (A.21).
#[derive(Debug, Clone, Copy, PartialEq, Eq, Structural)]
pub enum ExtraChannelType {
    Alpha,
    Depth,
    SpotColour,
    SelectionMask,
    Black,
    Cfa,
    Thermal,
    NonOptional,
    Optional,
}

/// `ExtraChannelType` of an enumeration value: 0 alpha, 1 depth, 2 spot
/// colour, 3 selection mask, 4 black, 5 CFA, 6 thermal, 15 non-optional,
/// 16 optional.
pub open spec fn spec_extra_channel_type(v: int) -> Option<ExtraChannelType> {
    if v == 0 { Some(ExtraChannelType::Alpha) } else if v == 1 { Some(ExtraChannelType::Depth) }
    else if v == 2 { Some(ExtraChannelType::SpotColour) } else if v == 3 { Some(ExtraChannelType::SelectionMask) }
    else if v == 4 { Some(ExtraChannelType::Black) } else if v == 5 { Some(ExtraChannelType::Cfa) }
    else if v == 6 { Some(ExtraChannelType::Thermal) } else if v == 15 { Some(ExtraChannelType::NonOptional) }
    else if v == 16 { Some(ExtraChannelType::Optional) } else { None }
}

impl ExtraChannelType {
    /// The extra-channel type of value `v`; other values are refused.
    pub fn from_u32(v: u32) -> (r: Result<Self, JxlError>)
        ensures
            match spec_extra_channel_type(v as int) {
                Some(c) => r == Ok::<ExtraChannelType, JxlError>(c),
                None => r matches Err(e) && e is InvalidData,
            },
    {
        if v == 0 { Ok(ExtraChannelType::Alpha) } else if v == 1 { Ok(ExtraChannelType::Depth) }
        else if v == 2 { Ok(ExtraChannelType::SpotColour) } else if v == 3 { Ok(ExtraChannelType::SelectionMask) }
        else if v == 4 { Ok(ExtraChannelType::Black) } else if v == 5 { Ok(ExtraChannelType::Cfa) }
        else if v == 6 { Ok(ExtraChannelType::Thermal) } else if v == 15 { Ok(ExtraChannelType::NonOptional) }
        else if v == 16 { Ok(ExtraChannelType::Optional) } else { Err(invalid("ExtraChannelType: invalid value")) }
    }
}

/// `AnimationHeader` (A.19).
#[derive(Debug, Clone, Copy)]
pub struct AnimationHeader {
    pub tps_numerator: u32,
    pub tps_denominator: u32,
    pub num_loops: u32,
    pub have_timecodes: bool,
}

/// `U32` distributions of `tps_numerator`.
pub open spec fn tps_num_dists() -> [U32Dist; 4] {
    [U32Dist::Val(100), U32Dist::Val(1000), U32Dist::BitsOffset(10, 1), U32Dist::BitsOffset(30, 1)]
}

/// `U32` distributions of `tps_denominator`.
pub open spec fn tps_den_dists() -> [U32Dist; 4] {
    [U32Dist::Val(1), U32Dist::Val(1001), U32Dist::BitsOffset(8, 1), U32Dist::BitsOffset(10, 1)]
}

/// `U32` distributions of `num_loops`.
pub open spec fn num_loops_dists() -> [U32Dist; 4] {
    [U32Dist::Val(0), U32Dist::Bits(3), U32Dist::Bits(16), U32Dist::Bits(32)]
}

/// `AnimationHeader` at `pos`: three `U32` fields and `have_timecodes`.
pub open spec fn spec_animation_header(s: Seq<u8>, pos: int) -> Result<(AnimationHeader, int), Failure> {
    match spec_u32_field(s, pos, tps_num_dists()) {
        Err(f) => Err(f),
        Ok((n, p1)) => match spec_u32_field(s, p1, tps_den_dists()) {
            Err(f) => Err(f),
            Ok((d, p2)) => match spec_u32_field(s, p2, num_loops_dists()) {
                Err(f) => Err(f),
                Ok((l, p3)) => match spec_bits(s, p3, 1) {
                    Err(f) => Err(f),
                    Ok((t, p4)) => Ok((AnimationHeader {
                        tps_numerator: n as u32,
                        tps_denominator: d as u32,
                        num_loops: l as u32,
                        have_timecodes: t == 1,
                    }, p4)),
                },
            },
        },
    }
}

impl AnimationHeader {
    /// Decode an `AnimationHeader`.
    pub fn read(br: &mut BitReader<'_>) -> (r: Result<Self, JxlError>)
        requires
            old(br).wf(),
        ensures
            final(br).wf(),
            final(br).bytes() == old(br).bytes(),
            outcome(r, final(br).pos(), spec_animation_header(old(br).bytes(), old(br).pos())),
    {
        let dn = [U32Dist::Val(100), U32Dist::Val(1000), U32Dist::BitsOffset(10, 1), U32Dist::BitsOffset(30, 1)];
        let dd = [U32Dist::Val(1), U32Dist::Val(1001), U32Dist::BitsOffset(8, 1), U32Dist::BitsOffset(10, 1)];
        let dl = [U32Dist::Val(0), U32Dist::Bits(3), U32Dist::Bits(16), U32Dist::Bits(32)];
        proof {
            vstd::arithmetic::power2::lemma2_to64();
            assert(dn == tps_num_dists());
            assert(dd == tps_den_dists());
            assert(dl == num_loops_dists());
            assert forall|i: int| 0 <= i < 4 implies dist_wf(#[trigger] dn@[i]) && dist_wf(#[trigger] dd@[i])
                && dist_wf(#[trigger] dl@[i]) by {}
        }
        let tps_numerator = read_u32_field(br, dn)?;
        let tps_denominator = read_u32_field(br, dd)?;
        let num_loops = read_u32_field(br, dl)?;
        let t = read_bits_field(br, 1)?;
        Ok(AnimationHeader { tps_numerator, tps_denominator, num_loops, have_timecodes: t == 1 })
    }
}

/// `PreviewHeader` (A.5).
#[derive(Debug, Clone, Copy)]
pub struct PreviewHeader {
    pub width: u32,
    pub height: u32,
}

/// `U32` distributions of a preview dimension over 8.
pub open spec fn preview_div8_dists() -> [U32Dist; 4] {
    [U32Dist::Val(16), U32Dist::Val(32), U32Dist::BitsOffset(5, 1), U32Dist::BitsOffset(9, 33)]
}

/// `U32` distributions of a preview dimension.
pub open spec fn preview_dists() -> [U32Dist; 4] {
    [U32Dist::BitsOffset(6, 1), U32Dist::BitsOffset(8, 65), U32Dist::BitsOffset(10, 321), U32Dist::BitsOffset(12, 1345)]
}

/// A preview dimension at `pos`: eight times a `U32` with `div8`, a
/// `U32` otherwise.
pub open spec fn spec_preview_dim(s: Seq<u8>, pos: int, div8: bool) -> Result<(int, int), Failure> {
    if div8 {
        match spec_u32_field(s, pos, preview_div8_dists()) {
            Err(f) => Err(f),
            Ok((v, p)) => Ok((v * 8, p)),
        }
    } else {
        spec_u32_field(s, pos, preview_dists())
    }
}

/// The dimensions of a `PreviewHeader` at `pos`: `div8`, the height, a
/// 3-bit ratio and, for ratio 0, the width — otherwise the height scaled
/// by the fixed ratio, truncated to 32 bits.
pub open spec fn spec_preview_dims(s: Seq<u8>, pos: int) -> Result<((int, int), int), Failure> {
    match spec_bits(s, pos, 1) {
        Err(f) => Err(f),
        Ok((d8, p0)) => match spec_preview_dim(s, p0, d8 == 1) {
            Err(f) => Err(f),
            Ok((h, p1)) => match spec_bits(s, p1, 3) {
                Err(f) => Err(f),
                Ok((ratio, p2)) => if ratio == 0 {
                    match spec_preview_dim(s, p2, d8 == 1) {
                        Err(f) => Err(f),
                        Ok((w, p3)) => Ok(((h, w), p3)),
                    }
                } else {
                    Ok(((h, (h * aspect_num(ratio) / aspect_den(ratio)) as u32 as int), p2))
                },
            },
        },
    }
}

/// `PreviewHeader` at `pos`: its dimensions, each of which must lie in
/// 1..=4096.
pub open spec fn spec_preview_header(s: Seq<u8>, pos: int) -> Result<(PreviewHeader, int), Failure> {
    match spec_preview_dims(s, pos) {
        Err(f) => Err(f),
        Ok(((h, w), p)) => if !(1 <= w <= 4096 && 1 <= h <= 4096) {
            Err(Failure::Invalid)
        } else {
            Ok((PreviewHeader { width: w as u32, height: h as u32 }, p))
        },
    }
}

/// Read the dimensions of a `PreviewHeader` (see [`spec_preview_dims`]).
fn read_preview_dims(br: &mut BitReader<'_>) -> (r: Result<(u32, u32), JxlError>)
    requires
        old(br).wf(),
    ensures
        final(br).wf(),
        final(br).bytes() == old(br).bytes(),
        match spec_preview_dims(old(br).bytes(), old(br).pos()) {
            Ok(((h, w), p)) => r matches Ok((x, y)) && x == h && y == w && final(br).pos() == p,
            Err(f) => r matches Err(e) && fails_as(e, f),
        },
{
    proof {
        vstd::arithmetic::power2::lemma2_to64();
    }
    let d8 = read_bits_field(br, 1)?;
    let div8 = d8 == 1;
    let height = read_preview_dim(br, div8)?;
    let ratio = read_bits_field(br, 3)?;
    let width = if ratio == 0 {
        read_preview_dim(br, div8)?
    } else {
        implied_width_exec(height, ratio)
    };
    Ok((height, width))
}

/// A `PreviewHeader` that parses has both dimensions in 1..=4096.
pub proof fn law_preview_in_bounds(s: Seq<u8>, pos: int)
    ensures
        spec_preview_header(s, pos) matches Ok((p, _)) ==> 1 <= p.width <= 4096 && 1 <= p.height <= 4096,
{
}

/// Read a preview dimension (see [`spec_preview_dim`]).
fn read_preview_dim(br: &mut BitReader<'_>, div8: bool) -> (r: Result<u32, JxlError>)
    requires
        old(br).wf(),
    ensures
        final(br).wf(),
        final(br).bytes() == old(br).bytes(),
        match spec_preview_dim(old(br).bytes(), old(br).pos(), div8) {
            Ok((v, p)) => r matches Ok(x) && x == v && final(br).pos() == p,
            Err(f) => r matches Err(e) && fails_as(e, f),
        },
{
    proof {
        vstd::arithmetic::power2::lemma2_to64();
    }
    if div8 {
        let d = [U32Dist::Val(16), U32Dist::Val(32), U32Dist::BitsOffset(5, 1), U32Dist::BitsOffset(9, 33)];
        proof {
            assert(d == preview_div8_dists());
            assert forall|i: int| 0 <= i < 4 implies dist_wf(#[trigger] d@[i]) by {}
        }
        let ghost s = br.bytes();
        let ghost p = br.pos();
        let v = read_u32_field(br, d)?;
        proof {
            crate::bitreader::lemma_bits_le_bound(s, p, 2);
            let sel = crate::bitreader::bits_le(s, p, 2);
            if sel == 2 {
                crate::bitreader::lemma_bits_le_bound(s, p + 2, 5);
            } else if sel == 3 {
                crate::bitreader::lemma_bits_le_bound(s, p + 2, 9);
            }
            assert(v <= 544);
        }
        Ok(v * 8)
    } else {
        let d = [U32Dist::BitsOffset(6, 1), U32Dist::BitsOffset(8, 65), U32Dist::BitsOffset(10, 321), U32Dist::BitsOffset(12, 1345)];
        proof {
            assert(d == preview_dists());
            assert forall|i: int| 0 <= i < 4 implies dist_wf(#[trigger] d@[i]) by {}
        }
        read_u32_field(br, d)
    }
}

impl PreviewHeader {
    /// Decode a `PreviewHeader`; dimensions outside 1..=4096 are refused.
    pub fn read(br: &mut BitReader<'_>) -> (r: Result<Self, JxlError>)
        requires
            old(br).wf(),
        ensures
            final(br).wf(),
            final(br).bytes() == old(br).bytes(),
            outcome(r, final(br).pos(), spec_preview_header(old(br).bytes(), old(br).pos())),
    {
        let (height, width) = read_preview_dims(br)?;
        if width == 0 || height == 0 || width > 4096 || height > 4096 {
            return Err(invalid("PreviewHeader: dimensions out of bounds"));
        }
        Ok(PreviewHeader { width, height })
    }
}

/// `height * num / den` for fixed aspect ratio `r`, truncated to 32 bits.
fn implied_width_exec(height: u32, r: u32) -> (w: u32)
    requires
        1 <= r <= 7,
    ensures
        w == (height * aspect_num(r as int) / aspect_den(r as int)) as u32,
{
    let (num, den) = aspect_ratio(r);
    proof {
        assert((height as u64) * (num as u64) <= 0xffff_ffff * 16) by (nonlinear_arith)
            requires height <= 0xffff_ffff, num <= 16;
    }
    let wide: u64 = (height as u64) * (num as u64) / (den as u64);
    #[verifier::truncate] (wide as u32)
}


/// `String::from_utf8`: a string of the decoded characters, or `None` for
/// bytes that are not valid UTF-8 (the standard library's documented
/// behaviour, stated with vstd's UTF-8 decoding).
#[verifier::external_body]
fn string_from_utf8(bytes: Vec<u8>) -> (r: Option<String>)
    ensures
        r is Some <==> vstd::utf8::valid_utf8(bytes@),
        r matches Some(st) ==> st@ == vstd::utf8::decode_utf8(bytes@),
{
    String::from_utf8(bytes).ok()
}

/// `ExtraChannelInfo` (A.22). The spot colour is kept as the four
/// `F16()` bit patterns it is coded with.
#[derive(Debug, Clone)]
pub struct ExtraChannelInfo {
    pub all_default: bool,
    pub kind: ExtraChannelType,
    pub bit_depth: BitDepthFdis,
    pub dim_shift: u32,
    pub name: String,
    pub alpha_associated: bool,
    /// Binary16 bits of red, green, blue and solidity.
    pub spot_bits: [u32; 4],
    pub cfa_channel: u32,
}

/// The fields of an [`ExtraChannelInfo`], the name as characters.
pub struct ExtraChannelFields {
    pub all_default: bool,
    pub kind: ExtraChannelType,
    pub bit_depth: BitDepthFdis,
    pub dim_shift: u32,
    pub name: Seq<char>,
    pub alpha_associated: bool,
    pub spot_bits: Seq<u32>,
    pub cfa_channel: u32,
}

impl View for ExtraChannelInfo {
    type V = ExtraChannelFields;

    open spec fn view(&self) -> ExtraChannelFields {
        ExtraChannelFields {
            all_default: self.all_default,
            kind: self.kind,
            bit_depth: self.bit_depth,
            dim_shift: self.dim_shift,
            name: self.name@,
            alpha_associated: self.alpha_associated,
            spot_bits: self.spot_bits@,
            cfa_channel: self.cfa_channel,
        }
    }
}

/// An all-default extra channel: an 8-bit alpha channel without name.
pub open spec fn default_extra_channel() -> ExtraChannelFields {
    ExtraChannelFields {
        all_default: true,
        kind: ExtraChannelType::Alpha,
        bit_depth: BitDepthFdis { float_sample: false, bits_per_sample: 8, exp_bits: 0 },
        dim_shift: 0,
        name: Seq::empty(),
        alpha_associated: false,
        spot_bits: seq![0u32, 0u32, 0u32, 0u32],
        cfa_channel: 1,
    }
}

/// Longest extra-channel name, in bytes.
pub const MAX_EC_NAME_LEN: u32 = 1071;

/// `U32` distributions of `dim_shift`.
pub open spec fn dim_shift_dists() -> [U32Dist; 4] {
    [U32Dist::Val(0), U32Dist::Val(3), U32Dist::Val(4), U32Dist::BitsOffset(3, 1)]
}

/// `U32` distributions of the name length.
pub open spec fn name_len_dists() -> [U32Dist; 4] {
    [U32Dist::Val(0), U32Dist::Bits(4), U32Dist::BitsOffset(5, 16), U32Dist::BitsOffset(10, 48)]
}

/// `U32` distributions of `cfa_channel`.
pub open spec fn cfa_dists() -> [U32Dist; 4] {
    [U32Dist::Val(1), U32Dist::Bits(2), U32Dist::BitsOffset(4, 3), U32Dist::BitsOffset(8, 19)]
}

/// `n` bytes, each a `u(8)`, at `pos`.
pub open spec fn spec_byte_run(s: Seq<u8>, pos: int, n: nat) -> Result<(Seq<u8>, int), Failure> {
    if pos + 8 * n > total_bits(s) {
        Err(Failure::Short)
    } else {
        Ok((Seq::new(n, |i: int| bits_le(s, pos + 8 * i, 8) as u8), pos + 8 * n))
    }
}

/// `F16()` at `pos`: 16 bits whose exponent field is not all ones
/// (infinities and NaNs are refused).
pub open spec fn spec_f16_bits(s: Seq<u8>, pos: int) -> Result<(u32, int), Failure> {
    match spec_bits(s, pos, 16) {
        Err(f) => Err(f),
        Ok((v, p)) => if (v / 1024) % 32 == 31 { Err(Failure::Invalid) } else { Ok((v as u32, p)) },
    }
}

/// Four `F16()` values at `pos`.
pub open spec fn spec_four_f16(s: Seq<u8>, pos: int) -> Result<(Seq<u32>, int), Failure> {
    match spec_f16_bits(s, pos) {
        Err(f) => Err(f),
        Ok((a, p1)) => match spec_f16_bits(s, p1) {
            Err(f) => Err(f),
            Ok((b, p2)) => match spec_f16_bits(s, p2) {
                Err(f) => Err(f),
                Ok((c, p3)) => match spec_f16_bits(s, p3) {
                    Err(f) => Err(f),
                    Ok((d, p4)) => Ok((seq![a, b, c, d], p4)),
                },
            },
        },
    }
}

/// The name at `pos`: a length of at most [`MAX_EC_NAME_LEN`] and that
/// many bytes of valid UTF-8.
pub open spec fn spec_ec_name(s: Seq<u8>, pos: int) -> Result<(Seq<char>, int), Failure> {
    match spec_u32_field(s, pos, name_len_dists()) {
        Err(f) => Err(f),
        Ok((n, p1)) => if n > MAX_EC_NAME_LEN {
            Err(Failure::Invalid)
        } else {
            match spec_byte_run(s, p1, n as nat) {
                Err(f) => Err(f),
                Ok((bytes, p2)) => if vstd::utf8::valid_utf8(bytes) {
                    Ok((vstd::utf8::decode_utf8(bytes), p2))
                } else {
                    Err(Failure::Invalid)
                },
            }
        },
    }
}

/// The fields after the name, at `pos`, for channel type `kind`:
/// `alpha_associated` for alpha, the spot colour for spot channels, the
/// CFA channel for CFA channels.
pub open spec fn spec_ec_tail(s: Seq<u8>, pos: int, kind: ExtraChannelType) -> Result<((bool, Seq<u32>, u32), int), Failure> {
    let aa: Result<(bool, int), Failure> = if kind == ExtraChannelType::Alpha {
        match spec_bits(s, pos, 1) { Err(f) => Err(f), Ok((v, p)) => Ok((v == 1, p)) }
    } else {
        Ok((false, pos))
    };
    match aa {
        Err(f) => Err(f),
        Ok((alpha_associated, p1)) => {
            let spot: Result<(Seq<u32>, int), Failure> = if kind == ExtraChannelType::SpotColour {
                spec_four_f16(s, p1)
            } else {
                Ok((seq![0u32, 0u32, 0u32, 0u32], p1))
            };
            match spot {
                Err(f) => Err(f),
                Ok((spot_bits, p2)) => {
                    let cfa: Result<(int, int), Failure> = if kind == ExtraChannelType::Cfa {
                        spec_u32_field(s, p2, cfa_dists())
                    } else {
                        Ok((1, p2))
                    };
                    match cfa {
                        Err(f) => Err(f),
                        Ok((c, p3)) => Ok(((alpha_associated, spot_bits, c as u32), p3)),
                    }
                },
            }
        },
    }
}

/// `ExtraChannelInfo` at `pos`: `all_default`, else the type, bit depth,
/// `dim_shift`, name and the type's own fields.
pub open spec fn spec_extra_channel_info(s: Seq<u8>, pos: int) -> Result<(ExtraChannelFields, int), Failure> {
    match spec_bits(s, pos, 1) {
        Err(f) => Err(f),
        Ok((ad, p0)) => if ad == 1 {
            Ok((default_extra_channel(), p0))
        } else {
            match spec_enum_as(s, p0, |v: int| spec_extra_channel_type(v)) {
                Err(f) => Err(f),
                Ok((kind, p1)) => match spec_bit_depth_fdis(s, p1) {
                    Err(f) => Err(f),
                    Ok((bd, p2)) => match spec_u32_field(s, p2, dim_shift_dists()) {
                        Err(f) => Err(f),
                        Ok((ds, p3)) => match spec_ec_name(s, p3) {
                            Err(f) => Err(f),
                            Ok((name, p4)) => match spec_ec_tail(s, p4, kind) {
                                Err(f) => Err(f),
                                Ok(((aa, spot, cfa), p5)) => Ok((ExtraChannelFields {
                                    all_default: false,
                                    kind,
                                    bit_depth: bd,
                                    dim_shift: ds as u32,
                                    name,
                                    alpha_associated: aa,
                                    spot_bits: spot,
                                    cfa_channel: cfa,
                                }, p5)),
                            },
                        },
                    },
                },
            }
        },
    }
}

/// Read one `F16()` as its bit pattern, refusing infinities and NaNs.
pub fn read_f16_bits(br: &mut BitReader<'_>) -> (r: Result<u32, JxlError>)
    requires
        old(br).wf(),
    ensures
        final(br).wf(),
        final(br).bytes() == old(br).bytes(),
        outcome(r, final(br).pos(), spec_f16_bits(old(br).bytes(), old(br).pos())),
{
    let v = read_bits_field(br, 16)?;
    proof {
        assert((v >> 10u32) & 31u32 == (v / 1024) % 32) by (bit_vector);
    }
    if (v >> 10u32) & 31u32 == 31 {
        return Err(invalid("F16: infinity or NaN"));
    }
    Ok(v)
}

/// Read the name (see [`spec_ec_name`]).
fn read_ec_name(br: &mut BitReader<'_>) -> (r: Result<String, JxlError>)
    requires
        old(br).wf(),
    ensures
        final(br).wf(),
        final(br).bytes() == old(br).bytes(),
        match spec_ec_name(old(br).bytes(), old(br).pos()) {
            Ok((name, p)) => r matches Ok(st) && st@ == name && final(br).pos() == p,
            Err(f) => r matches Err(e) && fails_as(e, f),
        },
{
    let d = [U32Dist::Val(0), U32Dist::Bits(4), U32Dist::BitsOffset(5, 16), U32Dist::BitsOffset(10, 48)];
    proof {
        vstd::arithmetic::power2::lemma2_to64();
        assert(d == name_len_dists());
        assert forall|i: int| 0 <= i < 4 implies dist_wf(#[trigger] d@[i]) by {}
    }
    let ghost s = br.bytes();
    let ghost p0 = br.pos();
    let n = read_u32_field(br, d)?;
    if n > MAX_EC_NAME_LEN {
        return Err(invalid("ExtraChannelInfo: name too long"));
    }
    let ghost p1 = br.pos();
    proof {
        assert(spec_u32_field(s, p0, name_len_dists()) == Ok::<(int, int), Failure>((n as int, p1)));
    }
    let mut bytes: Vec<u8> = Vec::new();
    let mut i: u32 = 0;
    while i < n
        invariant
            i <= n <= MAX_EC_NAME_LEN,
            s == old(br).bytes(),
            p0 == old(br).pos(),
            spec_u32_field(s, p0, name_len_dists()) == Ok::<(int, int), Failure>((n as int, p1)),
            br.bytes() == s,
            br.pos() == p1 + 8 * i,
            bytes@.len() == i,
            forall|k: int| 0 <= k < i ==> #[trigger] bytes@[k] == bits_le(s, p1 + 8 * k, 8) as u8,
        decreases n - i,
    {
        proof { use_type_invariant(&*br); }
        let b = br.read_bits(8);
        match b {
            Ok(v) => {
                proof {
                    vstd::arithmetic::power2::lemma2_to64();
                }
                bytes.push(v as u8);
            },
            Err(_) => {
                proof {
                    assert(p1 + 8 * n > total_bits(s));
                    use_type_invariant(&*br);
                }
                return Err(JxlError::Eof);
            },
        }
        i = i + 1;
    }
    proof {
        use_type_invariant(&*br);
        br.lemma_pos_bound();
        assert(p1 + 8 * n <= total_bits(s));
        let run = spec_byte_run(s, p1, n as nat);
        assert(run is Ok);
        assert(bytes@ =~= run->Ok_0.0);
        assert(run->Ok_0.1 == br.pos());
    }
    match string_from_utf8(bytes) {
        Some(st) => Ok(st),
        None => Err(invalid("ExtraChannelInfo: name not valid UTF-8")),
    }
}

/// Read the fields after the name (see [`spec_ec_tail`]).
fn read_ec_tail(br: &mut BitReader<'_>, kind: ExtraChannelType) -> (r: Result<(bool, [u32; 4], u32), JxlError>)
    requires
        old(br).wf(),
    ensures
        final(br).wf(),
        final(br).bytes() == old(br).bytes(),
        match spec_ec_tail(old(br).bytes(), old(br).pos(), kind) {
            Ok(((aa, spot, cfa), p)) => r matches Ok((a, sb, c)) && a == aa && sb@ == spot && c == cfa && final(br).pos() == p,
            Err(f) => r matches Err(e) && fails_as(e, f),
        },
{
    let alpha_associated = if kind == ExtraChannelType::Alpha { read_bits_field(br, 1)? == 1 } else { false };
    let spot_bits: [u32; 4] = if kind == ExtraChannelType::SpotColour {
        let a = read_f16_bits(br)?;
        let b = read_f16_bits(br)?;
        let c = read_f16_bits(br)?;
        let d = read_f16_bits(br)?;
        [a, b, c, d]
    } else {
        [0u32, 0u32, 0u32, 0u32]
    };
    let cfa_channel = if kind == ExtraChannelType::Cfa {
        let d = [U32Dist::Val(1), U32Dist::Bits(2), U32Dist::BitsOffset(4, 3), U32Dist::BitsOffset(8, 19)];
        proof {
            vstd::arithmetic::power2::lemma2_to64();
            assert(d == cfa_dists());
            assert forall|i: int| 0 <= i < 4 implies dist_wf(#[trigger] d@[i]) by {}
        }
        read_u32_field(br, d)?
    } else {
        1
    };
    proof {
        if kind == ExtraChannelType::SpotColour {
            assert(spot_bits@ == seq![spot_bits[0], spot_bits[1], spot_bits[2], spot_bits[3]]);
        } else {
            assert(spot_bits@ == seq![0u32, 0u32, 0u32, 0u32]);
        }
    }
    Ok((alpha_associated, spot_bits, cfa_channel))
}

impl ExtraChannelInfo {
    /// An all-default extra channel: an 8-bit alpha channel without name.
    pub fn default_info() -> (r: Self)
        ensures
            r@ == default_extra_channel(),
    {
        let r = ExtraChannelInfo {
            all_default: true,
            kind: ExtraChannelType::Alpha,
            bit_depth: BitDepthFdis::default_depth(),
            dim_shift: 0,
            name: String::new(),
            alpha_associated: false,
            spot_bits: [0u32, 0u32, 0u32, 0u32],
            cfa_channel: 1,
        };
        proof {
            assert(r.spot_bits@ == seq![0u32, 0u32, 0u32, 0u32]);
        }
        r
    }

    /// Decode an `ExtraChannelInfo` bundle.
    pub fn read(br: &mut BitReader<'_>) -> (r: Result<Self, JxlError>)
        requires
            old(br).wf(),
        ensures
            final(br).wf(),
            final(br).bytes() == old(br).bytes(),
            match spec_extra_channel_info(old(br).bytes(), old(br).pos()) {
                Ok((v, p)) => r matches Ok(e) && e@ == v && final(br).pos() == p,
                Err(f) => r matches Err(e) && fails_as(e, f),
            },
    {
        let ad = read_bits_field(br, 1)?;
        if ad == 1 {
            return Ok(ExtraChannelInfo::default_info());
        }
        let v = read_enum_u32(br)?;
        let kind = ExtraChannelType::from_u32(v)?;
        let bit_depth = BitDepthFdis::read(br)?;
        let d = [U32Dist::Val(0), U32Dist::Val(3), U32Dist::Val(4), U32Dist::BitsOffset(3, 1)];
        proof {
            vstd::arithmetic::power2::lemma2_to64();
            assert(d == dim_shift_dists());
            assert forall|i: int| 0 <= i < 4 implies dist_wf(#[trigger] d@[i]) by {}
        }
        let dim_shift = read_u32_field(br, d)?;
        let name = read_ec_name(br)?;
        let (alpha_associated, spot_bits, cfa_channel) = read_ec_tail(br, kind)?;
        Ok(ExtraChannelInfo { all_default: false, kind, bit_depth, dim_shift, name, alpha_associated, spot_bits, cfa_channel })
    }
}
} // verus!
