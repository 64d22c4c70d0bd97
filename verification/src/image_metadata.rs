//! The full `ImageMetadata` bundle (A.16) with the bundles only it
//! holds: `ToneMapping` (A.18), `OpsinInverseMatrix` (A.20) and
//! `Extensions`, and its tail (`default_transform`, `cw_mask` and the
//! custom upsampling weights). `F16()` values are kept as their binary16
//! bit patterns.
use vstd::prelude::*;
use crate::bitreader::{BitReader, spec_u64, spec_u64_from, bits_le, total_bits};
use crate::error::{JxlError, invalid};
use crate::bitreader::{U32Dist, dist_wf};
use crate::metadata::{Failure, fails_as, outcome, spec_bits, spec_u32_field, read_bits_field, read_u32_field};
use crate::metadata_fdis::{
    spec_f16_bits, read_f16_bits, SizeHeaderFdis, spec_size_header_fdis, PreviewHeader, spec_preview_header,
    AnimationHeader, spec_animation_header, BitDepthFdis, spec_bit_depth_fdis, ExtraChannelInfo,
    ExtraChannelFields, spec_extra_channel_info, ColourEncoding, spec_colour_encoding, default_colour_encoding,
};

verus! {

/// Binary16 bits of 255.0, the default peak luminance.
pub const F16_BITS_255: u32 = 0x5bf8;

/// The binary16 value with bits `b` (a finite pattern of 16 bits) is
/// greater than zero: the sign is clear and the magnitude is not zero.
pub open spec fn f16_is_positive(b: u32) -> bool {
    b < 0x8000 && b != 0
}

/// The binary16 value with bits `b` is less than zero: the sign is set
/// and the magnitude is not zero (`-0.0` is not negative).
pub open spec fn f16_is_negative(b: u32) -> bool {
    b >= 0x8000 && b % 0x8000 != 0
}

/// Exponent and mantissa bits of a binary16 pattern. On finite values of
/// one sign they are ordered as the magnitudes are.
pub open spec fn f16_magnitude(b: u32) -> int {
    (b % 0x8000) as int
}

/// `ToneMapping` (A.18). The luminance fields hold `F16()` bit patterns.
#[derive(Debug, Clone, Copy, PartialEq, Eq, Structural)]
pub struct ToneMapping {
    pub all_default: bool,
    /// Peak luminance in nits.
    pub intensity_target: u32,
    /// Lowest luminance in nits.
    pub min_nits: u32,
    pub relative_to_max_display: bool,
    pub linear_below: u32,
}

/// The all-default tone mapping: a peak of 255 nits, nothing else set.
pub open spec fn default_tone_mapping() -> ToneMapping {
    ToneMapping {
        all_default: true,
        intensity_target: F16_BITS_255,
        min_nits: 0,
        relative_to_max_display: false,
        linear_below: 0,
    }
}

impl Default for ToneMapping {
    fn default() -> (r: Self)
        ensures
            r == default_tone_mapping(),
    {
        ToneMapping {
            all_default: true,
            intensity_target: F16_BITS_255,
            min_nits: 0,
            relative_to_max_display: false,
            linear_below: 0,
        }
    }
}

/// `ToneMapping` at `pos`: `all_default`, else three `F16()` values and a
/// flag. The peak must be positive and the lowest luminance within
/// `[0, peak]`; both are checked once every field is read.
pub open spec fn spec_tone_mapping(s: Seq<u8>, pos: int) -> Result<(ToneMapping, int), Failure> {
    match spec_bits(s, pos, 1) {
        Err(f) => Err(f),
        Ok((ad, p0)) => if ad == 1 {
            Ok((default_tone_mapping(), p0))
        } else {
            match spec_f16_bits(s, p0) {
                Err(f) => Err(f),
                Ok((it, p1)) => match spec_f16_bits(s, p1) {
                    Err(f) => Err(f),
                    Ok((mn, p2)) => match spec_bits(s, p2, 1) {
                        Err(f) => Err(f),
                        Ok((rel, p3)) => match spec_f16_bits(s, p3) {
                            Err(f) => Err(f),
                            Ok((lb, p4)) => if !f16_is_positive(it) || f16_is_negative(mn)
                                || f16_magnitude(mn) > f16_magnitude(it) {
                                Err(Failure::Invalid)
                            } else {
                                Ok((ToneMapping {
                                    all_default: false,
                                    intensity_target: it,
                                    min_nits: mn,
                                    relative_to_max_display: rel == 1,
                                    linear_below: lb,
                                }, p4))
                            },
                        },
                    },
                },
            }
        },
    }
}

impl ToneMapping {
    /// Decode a `ToneMapping` bundle (see [`spec_tone_mapping`]).
    pub fn read(br: &mut BitReader<'_>) -> (r: Result<Self, JxlError>)
        requires
            old(br).wf(),
        ensures
            final(br).wf(),
            final(br).bytes() == old(br).bytes(),
            outcome(r, final(br).pos(), spec_tone_mapping(old(br).bytes(), old(br).pos())),
            r matches Ok(t) ==> tone_in_range(t),
    {
        let ad = read_bits_field(br, 1)?;
        if ad == 1 {
            return Ok(ToneMapping::default());
        }
        let intensity_target = read_f16_bits(br)?;
        let min_nits = read_f16_bits(br)?;
        let rel = read_bits_field(br, 1)?;
        let linear_below = read_f16_bits(br)?;
        if !(intensity_target < 0x8000 && intensity_target != 0) {
            return Err(invalid("ToneMapping: intensity_target must be positive"));
        }
        if (min_nits >= 0x8000 && min_nits % 0x8000 != 0) || min_nits % 0x8000 > intensity_target % 0x8000 {
            return Err(invalid("ToneMapping: min_nits outside [0, intensity_target]"));
        }
        Ok(ToneMapping {
            all_default: false,
            intensity_target,
            min_nits,
            relative_to_max_display: rel == 1,
            linear_below,
        })
    }
}

/// `n` `F16()` values at `pos`, in order.
pub open spec fn spec_f16_run(s: Seq<u8>, pos: int, n: nat) -> Result<(Seq<u32>, int), Failure>
    decreases n,
{
    if n == 0 {
        Ok((Seq::empty(), pos))
    } else {
        match spec_f16_run(s, pos, (n - 1) as nat) {
            Err(f) => Err(f),
            Ok((v, p)) => match spec_f16_bits(s, p) {
                Err(f) => Err(f),
                Ok((b, q)) => Ok((v.push(b), q)),
            },
        }
    }
}

/// A run that fails stays failed, with the same failure, when longer.
proof fn lemma_f16_run_err(s: Seq<u8>, pos: int, k: nat, m: nat)
    requires
        k <= m,
        spec_f16_run(s, pos, k) is Err,
    ensures
        spec_f16_run(s, pos, m) == spec_f16_run(s, pos, k),
    decreases m - k,
{
    if k < m {
        lemma_f16_run_err(s, pos, k, (m - 1) as nat);
    }
}

/// Read `n` `F16()` values (see [`spec_f16_run`]).
fn read_f16_run(br: &mut BitReader<'_>, n: u32) -> (r: Result<Vec<u32>, JxlError>)
    requires
        old(br).wf(),
    ensures
        final(br).wf(),
        final(br).bytes() == old(br).bytes(),
        match spec_f16_run(old(br).bytes(), old(br).pos(), n as nat) {
            Ok((v, p)) => r matches Ok(x) && x@ == v && final(br).pos() == p,
            Err(f) => r matches Err(e) && fails_as(e, f),
        },
        r matches Ok(x) ==> x@.len() == n,
{
    let ghost s = br.bytes();
    let ghost p0 = br.pos();
    let mut vals: Vec<u32> = Vec::new();
    let mut i: u32 = 0;
    while i < n
        invariant
            i <= n,
            s == old(br).bytes(),
            p0 == old(br).pos(),
            br.bytes() == s,
            vals@.len() == i,
            spec_f16_run(s, p0, i as nat) == Ok::<(Seq<u32>, int), Failure>((vals@, br.pos())),
        decreases n - i,
    {
        proof { use_type_invariant(&*br); }
        let b = read_f16_bits(br);
        match b {
            Ok(v) => {
                vals.push(v);
            },
            Err(e) => {
                proof {
                    use_type_invariant(&*br);
                    lemma_f16_run_err(s, p0, (i + 1) as nat, n as nat);
                }
                return Err(e);
            },
        }
        i = i + 1;
    }
    proof { use_type_invariant(&*br); }
    Ok(vals)
}

/// Skipping `n` `F16()` values at `pos`: refused as invalid when fewer
/// than `16 n` bits remain, otherwise each value is read and checked.
/// The position after them.
pub open spec fn spec_skip_f16(s: Seq<u8>, pos: int, n: nat) -> Result<int, Failure> {
    if pos + 16 * n > total_bits(s) {
        Err(Failure::Invalid)
    } else {
        match spec_f16_run(s, pos, n) {
            Err(f) => Err(f),
            Ok((_, p)) => Ok(p),
        }
    }
}

/// Skip `n` `F16()` values (see [`spec_skip_f16`]).
fn skip_f16_array(br: &mut BitReader<'_>, n: u32) -> (r: Result<(), JxlError>)
    requires
        old(br).wf(),
    ensures
        final(br).wf(),
        final(br).bytes() == old(br).bytes(),
        match spec_skip_f16(old(br).bytes(), old(br).pos(), n as nat) {
            Ok(p) => r is Ok && final(br).pos() == p,
            Err(f) => r matches Err(e) && fails_as(e, f),
        },
{
    if !br.has_more_bits((n as u64) * 16) {
        return Err(invalid("ImageMetadata: upsampling weights exceed the remaining input"));
    }
    let _ = read_f16_run(br, n)?;
    Ok(())
}

/// `OpsinInverseMatrix` (A.20). Coded values are `F16()` bit patterns;
/// an all-default matrix holds zeros there and stands for the defaults
/// of Table A.20.
#[derive(Debug, Clone, Copy)]
pub struct OpsinInverseMatrix {
    pub all_default: bool,
    pub inv_mat: [[u32; 3]; 3],
    pub opsin_bias: [u32; 3],
    pub quant_bias: [u32; 3],
    pub quant_bias_numerator: u32,
}

/// The sixteen coded values of a matrix, in coding order: the matrix row
/// by row, the opsin biases, the quantisation biases, the numerator.
pub open spec fn opsin_values(o: OpsinInverseMatrix) -> Seq<u32> {
    seq![
        o.inv_mat[0][0], o.inv_mat[0][1], o.inv_mat[0][2],
        o.inv_mat[1][0], o.inv_mat[1][1], o.inv_mat[1][2],
        o.inv_mat[2][0], o.inv_mat[2][1], o.inv_mat[2][2],
        o.opsin_bias[0], o.opsin_bias[1], o.opsin_bias[2],
        o.quant_bias[0], o.quant_bias[1], o.quant_bias[2],
        o.quant_bias_numerator,
    ]
}

/// Sixteen zeros: the coded values of an all-default matrix.
pub open spec fn zero_opsin_values() -> Seq<u32> {
    Seq::new(16, |i: int| 0u32)
}

/// `OpsinInverseMatrix` at `pos`: `all_default`, else sixteen `F16()`
/// values. The flag and the coded values.
pub open spec fn spec_opsin(s: Seq<u8>, pos: int) -> Result<((bool, Seq<u32>), int), Failure> {
    match spec_bits(s, pos, 1) {
        Err(f) => Err(f),
        Ok((ad, p0)) => if ad == 1 {
            Ok(((true, zero_opsin_values()), p0))
        } else {
            match spec_f16_run(s, p0, 16) {
                Err(f) => Err(f),
                Ok((v, p1)) => Ok(((false, v), p1)),
            }
        },
    }
}

impl OpsinInverseMatrix {
    /// The all-default matrix.
    pub fn default_matrix() -> (r: Self)
        ensures
            r.all_default,
            opsin_values(r) == zero_opsin_values(),
    {
        let r = OpsinInverseMatrix {
            all_default: true,
            inv_mat: [[0u32, 0u32, 0u32], [0u32, 0u32, 0u32], [0u32, 0u32, 0u32]],
            opsin_bias: [0u32, 0u32, 0u32],
            quant_bias: [0u32, 0u32, 0u32],
            quant_bias_numerator: 0,
        };
        assert(opsin_values(r) =~= zero_opsin_values());
        r
    }

    /// Decode an `OpsinInverseMatrix` bundle (see [`spec_opsin`]).
    pub fn read(br: &mut BitReader<'_>) -> (r: Result<Self, JxlError>)
        requires
            old(br).wf(),
        ensures
            final(br).wf(),
            final(br).bytes() == old(br).bytes(),
            match spec_opsin(old(br).bytes(), old(br).pos()) {
                Ok(((ad, v), p)) => r matches Ok(o) && o.all_default == ad && opsin_values(o) == v
                    && final(br).pos() == p,
                Err(f) => r matches Err(e) && fails_as(e, f),
            },
    {
        let ad = read_bits_field(br, 1)?;
        if ad == 1 {
            return Ok(OpsinInverseMatrix::default_matrix());
        }
        let v = read_f16_run(br, 16)?;
        let r = OpsinInverseMatrix {
            all_default: false,
            inv_mat: [[v[0], v[1], v[2]], [v[3], v[4], v[5]], [v[6], v[7], v[8]]],
            opsin_bias: [v[9], v[10], v[11]],
            quant_bias: [v[12], v[13], v[14]],
            quant_bias_numerator: v[15],
        };
        assert(opsin_values(r) =~= v@);
        Ok(r)
    }
}

/// The continuation groups of a `U64()` take at most `2 (76 - shift)`
/// bits, and at least one.
proof fn lemma_u64_from_len(s: Seq<u8>, pos: int, shift: nat)
    requires
        shift < 68,
        spec_u64_from(s, pos, shift) is Some,
    ensures
        pos < spec_u64_from(s, pos, shift).unwrap().1 <= pos + 2 * (76 - shift),
    decreases 68 - shift,
{
    if pos + 1 <= total_bits(s) && bits_le(s, pos, 1) != 0 && shift < 60 {
        lemma_u64_from_len(s, pos + 9, shift + 8);
    }
}

/// A `U64()` takes between 1 and 142 bits.
proof fn lemma_u64_len(s: Seq<u8>, pos: int)
    requires
        spec_u64(s, pos) is Some,
    ensures
        pos < spec_u64(s, pos).unwrap().1 <= pos + 142,
{
    crate::bitreader::lemma_bits_le_bound(s, pos, 2);
    vstd::arithmetic::power2::lemma2_to64();
    if pos + 14 <= total_bits(s) && bits_le(s, pos, 2) == 3 {
        lemma_u64_from_len(s, pos + 14, 12);
    }
}

/// Bit `i` of an extension mask is set.
pub open spec fn mask_has(mask: u64, i: int) -> bool {
    (mask >> (i as u64)) & 1u64 == 1u64
}

/// The payload lengths of the extensions of `mask` from bit `i` on, one
/// `U64()` per set bit, lowest bit first.
pub open spec fn spec_ext_lengths(s: Seq<u8>, pos: int, mask: u64, i: nat) -> Option<(Seq<u64>, int)>
    decreases 64 - i,
{
    if i >= 64 {
        Some((Seq::empty(), pos))
    } else if mask_has(mask, i as int) {
        match spec_u64(s, pos) {
            None => None,
            Some((v, p)) => match spec_ext_lengths(s, p, mask, i + 1) {
                None => None,
                Some((rest, q)) => Some((seq![v as u64] + rest, q)),
            },
        }
    } else {
        spec_ext_lengths(s, pos, mask, i + 1)
    }
}

/// `Extensions` at `pos`: the mask and the payload lengths. `None` when
/// the stream ends inside the bundle.
pub open spec fn spec_extensions(s: Seq<u8>, pos: int) -> Option<((u64, Seq<u64>), int)> {
    match spec_u64(s, pos) {
        None => None,
        Some((m, p)) => match spec_ext_lengths(s, p, m as u64, 0) {
            None => None,
            Some((lens, q)) => Some(((m as u64, lens), q)),
        },
    }
}

/// Sum of payload lengths.
pub open spec fn seq_sum(v: Seq<u64>) -> int
    decreases v.len(),
{
    if v.len() == 0 {
        0
    } else {
        seq_sum(v.drop_last()) + v.last()
    }
}

/// A prefix sums to no more than the whole.
proof fn lemma_seq_sum_prefix(v: Seq<u64>, i: int)
    requires
        0 <= i <= v.len(),
    ensures
        0 <= seq_sum(v.take(i)) <= seq_sum(v),
    decreases v.len(),
{
    if v.len() > 0 {
        if i == v.len() {
            assert(v.take(i) =~= v);
            lemma_seq_sum_prefix(v.drop_last(), i - 1);
            assert(v.drop_last().take(i - 1) =~= v.drop_last());
        } else {
            lemma_seq_sum_prefix(v.drop_last(), i);
            assert(v.drop_last().take(i) =~= v.take(i));
        }
    }
}

/// `Extensions`: which extensions are present, the payload length in bits
/// of each present one, and the bits the bundle itself takes. The
/// payloads follow the bundle that holds the extensions.
#[derive(Debug, Clone)]
pub struct Extensions {
    pub mask: u64,
    /// Payload lengths, lowest mask bit first.
    pub extension_bits: Vec<u64>,
    /// Bits of the mask and the lengths, payloads excluded.
    pub bundle_bits: u64,
}

impl Extensions {
    /// No extension.
    pub fn none() -> (r: Self)
        ensures
            r.mask == 0,
            r.extension_bits@ == Seq::<u64>::empty(),
            r.bundle_bits == 0,
    {
        Extensions { mask: 0, extension_bits: Vec::new(), bundle_bits: 0 }
    }

    /// Decode the bundle: a `U64()` mask, then a `U64()` payload length
    /// for each set bit. Fails with `Eof` when the stream ends inside it.
    pub fn read(br: &mut BitReader<'_>) -> (r: Result<Self, JxlError>)
        requires
            old(br).wf(),
        ensures
            final(br).wf(),
            final(br).bytes() == old(br).bytes(),
            match spec_extensions(old(br).bytes(), old(br).pos()) {
                Some(((m, lens), p)) => r matches Ok(x) && x.mask == m && x.extension_bits@ == lens
                    && x.bundle_bits == p - old(br).pos() && final(br).pos() == p,
                None => r matches Err(e) && e is Eof,
            },
    {
        let ghost s = br.bytes();
        let ghost p0 = br.pos();
        let start = br.bits_read();
        let mask = br.read_u64()?;
        let ghost p1 = br.pos();
        proof {
            lemma_u64_len(s, p0);
        }
        let mut lens: Vec<u64> = Vec::new();
        let mut i: u64 = 0;
        while i < 64
            invariant
                i <= 64,
                s == old(br).bytes(),
                p0 == old(br).pos(),
                br.bytes() == s,
                spec_u64(s, p0) == Some((mask as int, p1)),
                p0 < p1 <= p0 + 142,
                p1 <= br.pos() <= p1 + 142 * i,
                spec_ext_lengths(s, p1, mask, 0) is Some <==> spec_ext_lengths(s, br.pos(), mask, i as nat) is Some,
                spec_ext_lengths(s, p1, mask, 0) is Some ==> spec_ext_lengths(s, p1, mask, 0).unwrap().0
                    == lens@ + spec_ext_lengths(s, br.pos(), mask, i as nat).unwrap().0,
                spec_ext_lengths(s, p1, mask, 0) is Some ==> spec_ext_lengths(s, p1, mask, 0).unwrap().1
                    == spec_ext_lengths(s, br.pos(), mask, i as nat).unwrap().1,
            decreases 64 - i,
        {
            proof { use_type_invariant(&*br); }
            let ghost pos = br.pos();
            if (mask >> i) & 1u64 == 1u64 {
                let v = br.read_u64()?;
                proof {
                    lemma_u64_len(s, pos);
                    let rest = spec_ext_lengths(s, br.pos(), mask, (i + 1) as nat);
                    if rest is Some {
                        assert(lens@.push(v) + rest.unwrap().0 =~= lens@ + (seq![v] + rest.unwrap().0));
                    }
                }
                lens.push(v);
            }
            i = i + 1;
        }
        proof {
            use_type_invariant(&*br);
            br.lemma_pos_bound();
            assert(lens@ + Seq::<u64>::empty() =~= lens@);
            assert(br.pos() - p0 <= 142 * 65);
        }
        let end = br.bits_read();
        Ok(Extensions { mask, extension_bits: lens, bundle_bits: (end - start) as u64 })
    }

    /// Skip the payloads of the extensions. Fails as invalid when their
    /// total length does not fit in 64 bits and with `Eof` when the
    /// stream ends first.
    pub fn skip_payload(&self, br: &mut BitReader<'_>) -> (r: Result<(), JxlError>)
        requires
            old(br).wf(),
        ensures
            final(br).wf(),
            final(br).bytes() == old(br).bytes(),
            seq_sum(self.extension_bits@) > u64::MAX ==> (r matches Err(e) && e is InvalidData),
            seq_sum(self.extension_bits@) <= u64::MAX ==> {
                &&& r is Ok <==> old(br).pos() + seq_sum(self.extension_bits@) <= total_bits(old(br).bytes())
                &&& r is Ok ==> final(br).pos() == old(br).pos() + seq_sum(self.extension_bits@)
                &&& r is Err ==> r->Err_0 is Eof
            },
    {
        proof { use_type_invariant(&*br); }
        let mut total: u64 = 0;
        let mut i: usize = 0;
        while i < self.extension_bits.len()
            invariant
                i <= self.extension_bits@.len(),
                total == seq_sum(self.extension_bits@.take(i as int)),
            decreases self.extension_bits@.len() - i,
        {
            let v = self.extension_bits[i];
            proof {
                let w = self.extension_bits@;
                assert(w.take(i + 1).drop_last() =~= w.take(i as int));
                lemma_seq_sum_prefix(w, i + 1);
            }
            match total.checked_add(v) {
                Some(t) => {
                    total = t;
                },
                None => {
                    proof { use_type_invariant(&*br); }
                    return Err(invalid("Extensions: payload length overflows"));
                },
            }
            i = i + 1;
        }
        proof {
            assert(self.extension_bits@.take(i as int) =~= self.extension_bits@);
        }
        br.skip_bits(total)
    }
}

/// Largest number of extra channels accepted.
pub const MAX_NUM_EXTRA_CHANNELS: u32 = 4097;

/// `U32` distributions of the extra-channel count.
pub open spec fn ec_count_dists() -> [U32Dist; 4] {
    [U32Dist::Val(0), U32Dist::Val(1), U32Dist::BitsOffset(4, 2), U32Dist::BitsOffset(12, 1)]
}

/// The `extra_fields` group at `pos`: orientation (`u(3) + 1`), then an
/// intrinsic size, a preview and an animation header, each behind its
/// own flag.
pub open spec fn spec_md_extra(s: Seq<u8>, pos: int)
    -> Result<((u8, Option<SizeHeaderFdis>, Option<PreviewHeader>, Option<AnimationHeader>), int), Failure>
{
    match spec_bits(s, pos, 3) {
        Err(f) => Err(f),
        Ok((o, p0)) => match spec_bits(s, p0, 1) {
            Err(f) => Err(f),
            Ok((hi, p1)) => {
                let intr: Result<(Option<SizeHeaderFdis>, int), Failure> = if hi == 1 {
                    match spec_size_header_fdis(s, p1) { Err(f) => Err(f), Ok((h, q)) => Ok((Some(h), q)) }
                } else {
                    Ok((None, p1))
                };
                match intr {
                    Err(f) => Err(f),
                    Ok((intrinsic, p2)) => match spec_bits(s, p2, 1) {
                        Err(f) => Err(f),
                        Ok((hp, p3)) => {
                            let prev: Result<(Option<PreviewHeader>, int), Failure> = if hp == 1 {
                                match spec_preview_header(s, p3) { Err(f) => Err(f), Ok((h, q)) => Ok((Some(h), q)) }
                            } else {
                                Ok((None, p3))
                            };
                            match prev {
                                Err(f) => Err(f),
                                Ok((preview, p4)) => match spec_bits(s, p4, 1) {
                                    Err(f) => Err(f),
                                    Ok((ha, p5)) => {
                                        let anim: Result<(Option<AnimationHeader>, int), Failure> = if ha == 1 {
                                            match spec_animation_header(s, p5) {
                                                Err(f) => Err(f),
                                                Ok((h, q)) => Ok((Some(h), q)),
                                            }
                                        } else {
                                            Ok((None, p5))
                                        };
                                        match anim {
                                            Err(f) => Err(f),
                                            Ok((animation, p6)) => Ok((((o + 1) as u8, intrinsic, preview, animation), p6)),
                                        }
                                    },
                                },
                            }
                        },
                    },
                }
            },
        },
    }
}

/// `n` `ExtraChannelInfo` bundles at `pos`, in order.
pub open spec fn spec_ec_list(s: Seq<u8>, pos: int, n: nat) -> Result<(Seq<ExtraChannelFields>, int), Failure>
    decreases n,
{
    if n == 0 {
        Ok((Seq::empty(), pos))
    } else {
        match spec_ec_list(s, pos, (n - 1) as nat) {
            Err(f) => Err(f),
            Ok((v, p)) => match spec_extra_channel_info(s, p) {
                Err(f) => Err(f),
                Ok((e, q)) => Ok((v.push(e), q)),
            },
        }
    }
}

/// A list that fails stays failed, with the same failure, when longer.
proof fn lemma_ec_list_err(s: Seq<u8>, pos: int, k: nat, m: nat)
    requires
        k <= m,
        spec_ec_list(s, pos, k) is Err,
    ensures
        spec_ec_list(s, pos, m) == spec_ec_list(s, pos, k),
    decreases m - k,
{
    if k < m {
        lemma_ec_list_err(s, pos, k, (m - 1) as nat);
    }
}

/// The tail at `pos` for an image that is XYB-encoded or not:
/// `default_transform`; unless it is set, an `OpsinInverseMatrix` (XYB
/// only) and `cw_mask` (`u(3)`); then 15, 55 and 210 upsampling weights
/// for mask bits 1, 2 and 4. Gives `default_transform`, the matrix's
/// flag and coded values, and the mask.
pub open spec fn spec_md_tail(s: Seq<u8>, pos: int, xyb: bool) -> Result<((bool, bool, Seq<u32>, u32), int), Failure> {
    match spec_bits(s, pos, 1) {
        Err(f) => Err(f),
        Ok((dt, p1)) => {
            let custom = dt == 0;
            let opsin: Result<((bool, Seq<u32>), int), Failure> = if custom && xyb {
                spec_opsin(s, p1)
            } else {
                Ok(((true, zero_opsin_values()), p1))
            };
            match opsin {
                Err(f) => Err(f),
                Ok(((oad, ov), p2)) => {
                    let cw: Result<(int, int), Failure> = if custom { spec_bits(s, p2, 3) } else { Ok((0, p2)) };
                    match cw {
                        Err(f) => Err(f),
                        Ok((m, p3)) => {
                            let w2: Result<int, Failure> = if m % 2 == 1 { spec_skip_f16(s, p3, 15) } else { Ok(p3) };
                            match w2 {
                                Err(f) => Err(f),
                                Ok(p4) => {
                                    let w4: Result<int, Failure> = if (m / 2) % 2 == 1 { spec_skip_f16(s, p4, 55) } else { Ok(p4) };
                                    match w4 {
                                        Err(f) => Err(f),
                                        Ok(p5) => {
                                            let w8: Result<int, Failure> = if (m / 4) % 2 == 1 {
                                                spec_skip_f16(s, p5, 210)
                                            } else {
                                                Ok(p5)
                                            };
                                            match w8 {
                                                Err(f) => Err(f),
                                                Ok(p6) => Ok(((dt == 1, oad, ov, m as u32), p6)),
                                            }
                                        },
                                    }
                                },
                            }
                        },
                    }
                },
            }
        },
    }
}

/// The fields of an [`ImageMetadataFdis`]: extra channels by their
/// fields, extensions and the matrix by their values.
#[verifier::ext_equal]
pub struct MetadataFdisFields {
    pub all_default: bool,
    pub extra_fields: bool,
    pub orientation: u8,
    pub have_intr_size: bool,
    pub intrinsic_size: Option<SizeHeaderFdis>,
    pub have_preview: bool,
    pub preview: Option<PreviewHeader>,
    pub have_animation: bool,
    pub animation: Option<AnimationHeader>,
    pub bit_depth: BitDepthFdis,
    pub modular_16bit_buffers: bool,
    pub num_extra_channels: u32,
    pub extra_channel_info: Seq<ExtraChannelFields>,
    pub xyb_encoded: bool,
    pub colour_encoding: ColourEncoding,
    pub tone_mapping: ToneMapping,
    pub extensions_mask: u64,
    pub extension_bits: Seq<u64>,
    pub extension_bundle_bits: u64,
    pub default_transform: bool,
    pub opsin_all_default: bool,
    pub opsin_values: Seq<u32>,
    pub cw_mask: u32,
}

/// The all-default metadata: an XYB-encoded, 8-bit image with 16-bit
/// modular buffers, orientation 1, default colour encoding and tone
/// mapping, and nothing else.
pub open spec fn default_metadata_fields() -> MetadataFdisFields {
    MetadataFdisFields {
        all_default: true,
        extra_fields: false,
        orientation: 1,
        have_intr_size: false,
        intrinsic_size: None,
        have_preview: false,
        preview: None,
        have_animation: false,
        animation: None,
        bit_depth: BitDepthFdis { float_sample: false, bits_per_sample: 8, exp_bits: 0 },
        modular_16bit_buffers: true,
        num_extra_channels: 0,
        extra_channel_info: Seq::empty(),
        xyb_encoded: true,
        colour_encoding: default_colour_encoding(),
        tone_mapping: default_tone_mapping(),
        extensions_mask: 0,
        extension_bits: Seq::empty(),
        extension_bundle_bits: 0,
        default_transform: true,
        opsin_all_default: true,
        opsin_values: zero_opsin_values(),
        cw_mask: 0,
    }
}

/// The metadata after the image's own fields, from the extensions on:
/// the extensions bundle, its payloads, then the tail.
pub open spec fn spec_md_after_tm(s: Seq<u8>, pos: int, head: MetadataFdisFields) -> Result<(MetadataFdisFields, int), Failure> {
    match spec_extensions(s, pos) {
        None => Err(Failure::Short),
        Some(((mask, lens), p1)) => if seq_sum(lens) > u64::MAX {
            Err(Failure::Invalid)
        } else if p1 + seq_sum(lens) > total_bits(s) {
            Err(Failure::Short)
        } else {
            match spec_md_tail(s, p1 + seq_sum(lens), head.xyb_encoded) {
                Err(f) => Err(f),
                Ok(((dt, oad, ov, cw), p2)) => Ok((MetadataFdisFields {
                    extensions_mask: mask,
                    extension_bits: lens,
                    extension_bundle_bits: (p1 - pos) as u64,
                    default_transform: dt,
                    opsin_all_default: oad,
                    opsin_values: ov,
                    cw_mask: cw,
                    ..head
                }, p2)),
            }
        },
    }
}

/// The fields of a bundle that is not all-default up to the tone
/// mapping, after its `all_default` bit at `pos`; the rest keep their
/// defaults.
pub open spec fn spec_md_head(s: Seq<u8>, pos: int) -> Result<(MetadataFdisFields, int), Failure> {
    match spec_bits(s, pos, 1) {
        Err(f) => Err(f),
        Ok((ef, p0)) => {
            let extra: Result<((u8, Option<SizeHeaderFdis>, Option<PreviewHeader>, Option<AnimationHeader>), int), Failure> =
                if ef == 1 { spec_md_extra(s, p0) } else { Ok(((1u8, None, None, None), p0)) };
            match extra {
                Err(f) => Err(f),
                Ok(((o, intr, prev, anim), p1)) => match spec_bit_depth_fdis(s, p1) {
                    Err(f) => Err(f),
                    Ok((bd, p2)) => match spec_bits(s, p2, 1) {
                        Err(f) => Err(f),
                        Ok((m16, p3)) => match spec_u32_field(s, p3, ec_count_dists()) {
                            Err(f) => Err(f),
                            Ok((n, p4)) => if n > MAX_NUM_EXTRA_CHANNELS || p4 + n > total_bits(s) {
                                Err(Failure::Invalid)
                            } else {
                                match spec_ec_list(s, p4, n as nat) {
                                    Err(f) => Err(f),
                                    Ok((ecs, p5)) => match spec_bits(s, p5, 1) {
                                        Err(f) => Err(f),
                                        Ok((xyb, p6)) => match spec_colour_encoding(s, p6) {
                                            Err(f) => Err(f),
                                            Ok((ce, p7)) => {
                                                let tm: Result<(ToneMapping, int), Failure> =
                                                    if ef == 1 { spec_tone_mapping(s, p7) } else { Ok((default_tone_mapping(), p7)) };
                                                match tm {
                                                    Err(f) => Err(f),
                                                    Ok((tone, p8)) => Ok((MetadataFdisFields {
                                                        all_default: false,
                                                        extra_fields: ef == 1,
                                                        orientation: o,
                                                        have_intr_size: intr is Some,
                                                        intrinsic_size: intr,
                                                        have_preview: prev is Some,
                                                        preview: prev,
                                                        have_animation: anim is Some,
                                                        animation: anim,
                                                        bit_depth: bd,
                                                        modular_16bit_buffers: m16 == 1,
                                                        num_extra_channels: n as u32,
                                                        extra_channel_info: ecs,
                                                        xyb_encoded: xyb == 1,
                                                        colour_encoding: ce,
                                                        tone_mapping: tone,
                                                        ..default_metadata_fields()
                                                    }, p8)),
                                                }
                                            },
                                        },
                                    },
                                }
                            },
                        },
                    },
                },
            }
        },
    }
}

/// The metadata of a bundle that is not all-default, after its
/// `all_default` bit at `pos`.
pub open spec fn spec_md_body(s: Seq<u8>, pos: int) -> Result<(MetadataFdisFields, int), Failure> {
    match spec_md_head(s, pos) {
        Err(f) => Err(f),
        Ok((head, p)) => spec_md_after_tm(s, p, head),
    }
}

/// `ImageMetadata` at `pos` (A.16). An all-default bundle is one bit and
/// its tail; otherwise every field is read in order. The extra-channel
/// count must not exceed [`MAX_NUM_EXTRA_CHANNELS`] nor the bits left.
pub open spec fn spec_image_metadata_fdis(s: Seq<u8>, pos: int) -> Result<(MetadataFdisFields, int), Failure> {
    match spec_bits(s, pos, 1) {
        Err(f) => Err(f),
        Ok((ad, p0)) => if ad == 1 {
            match spec_md_tail(s, p0, true) {
                Err(f) => Err(f),
                Ok(((dt, oad, ov, cw), p1)) => Ok((MetadataFdisFields {
                    default_transform: dt,
                    opsin_all_default: oad,
                    opsin_values: ov,
                    cw_mask: cw,
                    ..default_metadata_fields()
                }, p1)),
            }
        } else {
            spec_md_body(s, p0)
        },
    }
}

/// The full `ImageMetadata` bundle (A.16).
#[derive(Debug, Clone)]
pub struct ImageMetadataFdis {
    pub all_default: bool,
    pub extra_fields: bool,
    pub orientation: u8,
    pub have_intr_size: bool,
    pub intrinsic_size: Option<SizeHeaderFdis>,
    pub have_preview: bool,
    pub preview: Option<PreviewHeader>,
    pub have_animation: bool,
    pub animation: Option<AnimationHeader>,
    pub bit_depth: BitDepthFdis,
    pub modular_16bit_buffers: bool,
    pub num_extra_channels: u32,
    pub extra_channel_info: Vec<ExtraChannelInfo>,
    pub xyb_encoded: bool,
    pub colour_encoding: ColourEncoding,
    pub tone_mapping: ToneMapping,
    pub extensions: Extensions,
    /// `true`: the matrix and upsampling weights are the defaults and no
    /// further tail field was coded.
    pub default_transform: bool,
    pub opsin_inverse_matrix: OpsinInverseMatrix,
    pub cw_mask: u32,
}

/// The fields of the extra channels of a list.
pub open spec fn ec_fields(v: Seq<ExtraChannelInfo>) -> Seq<ExtraChannelFields> {
    v.map_values(|e: ExtraChannelInfo| e@)
}

impl View for ImageMetadataFdis {
    type V = MetadataFdisFields;

    open spec fn view(&self) -> MetadataFdisFields {
        MetadataFdisFields {
            all_default: self.all_default,
            extra_fields: self.extra_fields,
            orientation: self.orientation,
            have_intr_size: self.have_intr_size,
            intrinsic_size: self.intrinsic_size,
            have_preview: self.have_preview,
            preview: self.preview,
            have_animation: self.have_animation,
            animation: self.animation,
            bit_depth: self.bit_depth,
            modular_16bit_buffers: self.modular_16bit_buffers,
            num_extra_channels: self.num_extra_channels,
            extra_channel_info: ec_fields(self.extra_channel_info@),
            xyb_encoded: self.xyb_encoded,
            colour_encoding: self.colour_encoding,
            tone_mapping: self.tone_mapping,
            extensions_mask: self.extensions.mask,
            extension_bits: self.extensions.extension_bits@,
            extension_bundle_bits: self.extensions.bundle_bits,
            default_transform: self.default_transform,
            opsin_all_default: self.opsin_inverse_matrix.all_default,
            opsin_values: opsin_values(self.opsin_inverse_matrix),
            cw_mask: self.cw_mask,
        }
    }
}

/// Read the `extra_fields` group (see [`spec_md_extra`]).
fn read_md_extra(br: &mut BitReader<'_>)
    -> (r: Result<(u8, Option<SizeHeaderFdis>, Option<PreviewHeader>, Option<AnimationHeader>), JxlError>)
    requires
        old(br).wf(),
    ensures
        final(br).wf(),
        final(br).bytes() == old(br).bytes(),
        outcome(r, final(br).pos(), spec_md_extra(old(br).bytes(), old(br).pos())),
        r matches Ok((o, _, _, _)) ==> 1 <= o <= 8,
{
    let o = read_bits_field(br, 3)?;
    proof {
        vstd::arithmetic::power2::lemma2_to64();
    }
    let orientation: u8 = (o + 1) as u8;
    let intrinsic_size = if read_bits_field(br, 1)? == 1 { Some(SizeHeaderFdis::read(br)?) } else { None };
    let preview = if read_bits_field(br, 1)? == 1 { Some(PreviewHeader::read(br)?) } else { None };
    let animation = if read_bits_field(br, 1)? == 1 { Some(AnimationHeader::read(br)?) } else { None };
    Ok((orientation, intrinsic_size, preview, animation))
}

/// Read `n` `ExtraChannelInfo` bundles (see [`spec_ec_list`]).
fn read_ec_list(br: &mut BitReader<'_>, n: u32) -> (r: Result<Vec<ExtraChannelInfo>, JxlError>)
    requires
        old(br).wf(),
    ensures
        final(br).wf(),
        final(br).bytes() == old(br).bytes(),
        match spec_ec_list(old(br).bytes(), old(br).pos(), n as nat) {
            Ok((v, p)) => r matches Ok(x) && ec_fields(x@) == v && final(br).pos() == p,
            Err(f) => r matches Err(e) && fails_as(e, f),
        },
        r matches Ok(x) ==> x@.len() == n,
{
    let ghost s = br.bytes();
    let ghost p0 = br.pos();
    let mut infos: Vec<ExtraChannelInfo> = Vec::new();
    let mut i: u32 = 0;
    assert(ec_fields(infos@) =~= Seq::<ExtraChannelFields>::empty());
    while i < n
        invariant
            i <= n,
            s == old(br).bytes(),
            p0 == old(br).pos(),
            br.bytes() == s,
            infos@.len() == i,
            spec_ec_list(s, p0, i as nat) == Ok::<(Seq<ExtraChannelFields>, int), Failure>((ec_fields(infos@), br.pos())),
        decreases n - i,
    {
        proof { use_type_invariant(&*br); }
        let e = ExtraChannelInfo::read(br);
        match e {
            Ok(info) => {
                proof {
                    assert(ec_fields(infos@.push(info)) =~= ec_fields(infos@).push(info@));
                }
                infos.push(info);
            },
            Err(err) => {
                proof {
                    use_type_invariant(&*br);
                    lemma_ec_list_err(s, p0, (i + 1) as nat, n as nat);
                }
                return Err(err);
            },
        }
        i = i + 1;
    }
    proof { use_type_invariant(&*br); }
    Ok(infos)
}

/// Read the tail (see [`spec_md_tail`]): `default_transform`, the matrix
/// and the mask.
fn read_tail(br: &mut BitReader<'_>, xyb: bool) -> (r: Result<(bool, OpsinInverseMatrix, u32), JxlError>)
    requires
        old(br).wf(),
    ensures
        final(br).wf(),
        final(br).bytes() == old(br).bytes(),
        match spec_md_tail(old(br).bytes(), old(br).pos(), xyb) {
            Ok(((dt, oad, ov, cw), p)) => r matches Ok((d, o, m)) && d == dt && o.all_default == oad
                && opsin_values(o) == ov && m == cw && final(br).pos() == p,
            Err(f) => r matches Err(e) && fails_as(e, f),
        },
        r matches Ok((d, o, m)) ==> m < 8 && (d ==> m == 0 && o.all_default),
{
    proof {
        vstd::arithmetic::power2::lemma2_to64();
    }
    let default_transform = read_bits_field(br, 1)? == 1;
    let custom = !default_transform;
    let opsin = if custom && xyb { OpsinInverseMatrix::read(br)? } else { OpsinInverseMatrix::default_matrix() };
    let cw_mask = if custom { read_bits_field(br, 3)? } else { 0 };
    proof {
        assert(cw_mask < 8);
        assert(((cw_mask & 1u32) != 0) == (cw_mask % 2 == 1)) by (bit_vector)
            requires cw_mask < 8u32;
        assert(((cw_mask & 2u32) != 0) == ((cw_mask / 2) % 2 == 1)) by (bit_vector)
            requires cw_mask < 8u32;
        assert(((cw_mask & 4u32) != 0) == ((cw_mask / 4) % 2 == 1)) by (bit_vector)
            requires cw_mask < 8u32;
    }
    if cw_mask & 1u32 != 0 {
        skip_f16_array(br, 15)?;
    }
    if cw_mask & 2u32 != 0 {
        skip_f16_array(br, 55)?;
    }
    if cw_mask & 4u32 != 0 {
        skip_f16_array(br, 210)?;
    }
    Ok((default_transform, opsin, cw_mask))
}

impl ImageMetadataFdis {
    /// The all-default metadata (see [`default_metadata_fields`]).
    pub fn defaults() -> (r: Self)
        ensures
            r@ == default_metadata_fields(),
    {
        let r = ImageMetadataFdis {
            all_default: true,
            extra_fields: false,
            orientation: 1,
            have_intr_size: false,
            intrinsic_size: None,
            have_preview: false,
            preview: None,
            have_animation: false,
            animation: None,
            bit_depth: BitDepthFdis::default_depth(),
            modular_16bit_buffers: true,
            num_extra_channels: 0,
            extra_channel_info: Vec::new(),
            xyb_encoded: true,
            colour_encoding: ColourEncoding::default(),
            tone_mapping: ToneMapping::default(),
            extensions: Extensions::none(),
            default_transform: true,
            opsin_inverse_matrix: OpsinInverseMatrix::default_matrix(),
            cw_mask: 0,
        };
        assert(r@ =~= default_metadata_fields());
        r
    }

    /// Decode an `ImageMetadata` bundle (see [`spec_image_metadata_fdis`]).
    /// The `default_transform` bit is read even for an all-default
    /// bundle; when it is set nothing more of the tail is coded.
    pub fn read(br: &mut BitReader<'_>) -> (r: Result<Self, JxlError>)
        requires
            old(br).wf(),
        ensures
            final(br).wf(),
            final(br).bytes() == old(br).bytes(),
            match spec_image_metadata_fdis(old(br).bytes(), old(br).pos()) {
                Ok((v, p)) => r matches Ok(m) && m@ == v && final(br).pos() == p,
                Err(f) => r matches Err(e) && fails_as(e, f),
            },
            r matches Ok(m) ==> metadata_consistent(m@),
    {
        let ad = read_bits_field(br, 1)?;
        if ad == 1 {
            let (default_transform, opsin_inverse_matrix, cw_mask) = read_tail(br, true)?;
            let mut out = ImageMetadataFdis::defaults();
            out.default_transform = default_transform;
            out.opsin_inverse_matrix = opsin_inverse_matrix;
            out.cw_mask = cw_mask;
            return Ok(out);
        }
        Self::read_body(br)
    }

    /// The fields up to the tone mapping (see [`spec_md_head`]).
    #[verifier::rlimit(40)]
    fn read_head(br: &mut BitReader<'_>) -> (r: Result<Self, JxlError>)
        requires
            old(br).wf(),
        ensures
            final(br).wf(),
            final(br).bytes() == old(br).bytes(),
            match spec_md_head(old(br).bytes(), old(br).pos()) {
                Ok((v, p)) => r matches Ok(m) && m@ == v && final(br).pos() == p,
                Err(f) => r matches Err(e) && fails_as(e, f),
            },
            r matches Ok(m) ==> {
                &&& m.extra_channel_info@.len() == m.num_extra_channels
                &&& m.num_extra_channels <= MAX_NUM_EXTRA_CHANNELS
                &&& 1 <= m.orientation <= 8
                &&& tone_in_range(m.tone_mapping)
            },
    {
        proof {
            vstd::arithmetic::power2::lemma2_to64();
        }
        let extra_fields = read_bits_field(br, 1)? == 1;
        let (orientation, intrinsic_size, preview, animation) = if extra_fields {
            read_md_extra(br)?
        } else {
            (1u8, None, None, None)
        };
        let bit_depth = BitDepthFdis::read(br)?;
        let modular_16bit_buffers = read_bits_field(br, 1)? == 1;
        let d = [U32Dist::Val(0), U32Dist::Val(1), U32Dist::BitsOffset(4, 2), U32Dist::BitsOffset(12, 1)];
        proof {
            assert(d == ec_count_dists());
            assert forall|i: int| 0 <= i < 4 implies dist_wf(#[trigger] d@[i]) by {}
        }
        let num_extra_channels = read_u32_field(br, d)?;
        if num_extra_channels > MAX_NUM_EXTRA_CHANNELS {
            return Err(invalid("ImageMetadata: too many extra channels"));
        }
        if !br.has_more_bits(num_extra_channels as u64) {
            return Err(invalid("ImageMetadata: extra channels exceed the remaining input"));
        }
        let extra_channel_info = read_ec_list(br, num_extra_channels)?;
        let xyb_encoded = read_bits_field(br, 1)? == 1;
        let colour_encoding = ColourEncoding::read(br)?;
        let tone_mapping = if extra_fields { ToneMapping::read(br)? } else { ToneMapping::default() };
        let m = ImageMetadataFdis {
            all_default: false,
            extra_fields,
            orientation,
            have_intr_size: intrinsic_size.is_some(),
            intrinsic_size,
            have_preview: preview.is_some(),
            preview,
            have_animation: animation.is_some(),
            animation,
            bit_depth,
            modular_16bit_buffers,
            num_extra_channels,
            extra_channel_info,
            xyb_encoded,
            colour_encoding,
            tone_mapping,
            extensions: Extensions::none(),
            default_transform: true,
            opsin_inverse_matrix: OpsinInverseMatrix::default_matrix(),
            cw_mask: 0,
        };
        Ok(m)
    }

    /// The fields after an `all_default` bit of 0 (see [`spec_md_body`]).
    fn read_body(br: &mut BitReader<'_>) -> (r: Result<Self, JxlError>)
        requires
            old(br).wf(),
        ensures
            final(br).wf(),
            final(br).bytes() == old(br).bytes(),
            match spec_md_body(old(br).bytes(), old(br).pos()) {
                Ok((v, p)) => r matches Ok(m) && m@ == v && final(br).pos() == p,
                Err(f) => r matches Err(e) && fails_as(e, f),
            },
            r matches Ok(m) ==> metadata_consistent(m@),
    {
        let mut m = Self::read_head(br)?;
        let ghost p8 = br.pos();
        let extensions = Extensions::read(br)?;
        proof {
            use_type_invariant(&*br);
        }
        extensions.skip_payload(br)?;
        let (default_transform, opsin_inverse_matrix, cw_mask) = read_tail(br, m.xyb_encoded)?;
        m.extensions = extensions;
        m.default_transform = default_transform;
        m.opsin_inverse_matrix = opsin_inverse_matrix;
        m.cw_mask = cw_mask;
        Ok(m)
    }
}

/// The peak luminance is positive and the lowest one within `[0, peak]`.
pub open spec fn tone_in_range(t: ToneMapping) -> bool {
    &&& f16_is_positive(t.intensity_target)
    &&& !f16_is_negative(t.min_nits)
    &&& f16_magnitude(t.min_nits) <= f16_magnitude(t.intensity_target)
}

/// Every tone mapping that decodes has a positive peak and a lowest
/// luminance within `[0, peak]`, the default one included.
pub proof fn law_tone_mapping_in_range(s: Seq<u8>, pos: int)
    ensures
        spec_tone_mapping(s, pos) matches Ok((t, _)) ==> tone_in_range(t),
{
}

/// A decoded bundle is consistent: one `ExtraChannelInfo` per extra
/// channel, each `have_*` flag set exactly when its header is present,
/// an orientation in 1..=8, a mask of three bits, a default transform
/// with no mask and the default matrix, and a tone mapping within range.
pub open spec fn metadata_consistent(m: MetadataFdisFields) -> bool {
    &&& m.extra_channel_info.len() == m.num_extra_channels
    &&& m.num_extra_channels <= MAX_NUM_EXTRA_CHANNELS
    &&& m.have_intr_size == (m.intrinsic_size is Some)
    &&& m.have_preview == (m.preview is Some)
    &&& m.have_animation == (m.animation is Some)
    &&& 1 <= m.orientation <= 8
    &&& m.cw_mask < 8
    &&& (m.default_transform ==> m.cw_mask == 0 && m.opsin_all_default)
    &&& tone_in_range(m.tone_mapping)
}

} // verus!
