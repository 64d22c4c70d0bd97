//! HF coefficients of a pass group (C.8.3): the group's `hfp` header,
//! the contexts of Listing C.13, the `PredictedNonZeros` recurrence and
//! the per-block coefficient loop of Listing C.14.
//!
//! The entropy-coded symbols are read by the caller: the block loop
//! takes the symbol reader as a function of the context.
use vstd::prelude::*;
use crate::bitreader::{BitReader, bits_le, total_bits, spec_unpack_signed, unpack_signed};
use crate::error::{JxlError, invalid};
use crate::matree::{bit_length, spec_bit_length, lemma_bit_length_le};
use crate::transform::{TransformType, spec_order_id, spec_varblock_size, order_id_for_transform, varblock_size_for_order, coefficient_count};

verus! {

/// `CoeffFreqContext` (Listing C.13), indexed by `k Idiv num_blocks`.
pub const COEFF_FREQ_CONTEXT: [u32; 64] = [
    0, 0, 1, 2, 3, 4, 5, 6, 7, 8, 9, 10, 11, 12, 13, 14, 15, 15, 16, 16, 17, 17, 18, 18, 19, 19,
    20, 20, 21, 21, 22, 22, 23, 23, 23, 23, 24, 24, 24, 24, 25, 25, 25, 25, 26, 26, 26, 26, 27, 27,
    27, 27, 28, 28, 28, 28, 29, 29, 29, 29, 30, 30, 30, 30,
];

/// `CoeffNumNonzeroContext` (Listing C.13), indexed by the remaining
/// non-zero count per block.
pub const COEFF_NUM_NONZERO_CONTEXT: [u32; 64] = [
    0, 0, 31, 62, 62, 93, 93, 93, 93, 123, 123, 123, 123, 152, 152, 152, 152, 152, 152, 152, 152,
    152, 180, 180, 180, 180, 180, 180, 180, 180, 180, 180, 180, 206, 206, 206, 206, 206, 206, 206,
    206, 206, 206, 206, 206, 206, 206, 206, 206, 206, 206, 206, 206, 206, 206, 206, 206, 206, 206,
    206, 206, 206, 206, 206,
];

/// `ceil(log2(n))`, 0 for `n <= 1`.
pub open spec fn spec_ceil_log2(n: u32) -> nat {
    if n <= 1 { 0 } else { spec_bit_length((n - 1) as u32) }
}

/// `ceil(log2(n))` is the least `r` with `n <= 2^r`: for `n >= 2`,
/// `2^(r - 1) < n <= 2^r`.
pub proof fn law_ceil_log2_bounds(n: u32)
    requires
        n >= 2,
    ensures
        (n as nat) <= vstd::arithmetic::power2::pow2(spec_ceil_log2(n)),
        vstd::arithmetic::power2::pow2((spec_ceil_log2(n) - 1) as nat) < n,
{
    crate::matree::law_bit_length_bounds((n - 1) as u32);
}

/// `ceil(log2(n))`, 0 for `n <= 1`.
pub fn ceil_log2_u32(n: u32) -> (r: u32)
    ensures
        r == spec_ceil_log2(n),
        r <= 32,
{
    if n <= 1 {
        0
    } else {
        bit_length(n - 1)
    }
}

/// A pass group's HF header (C.8.3): the preset `hfp` and the histogram
/// offset `495 × nb_block_ctx × hfp` it selects.
#[derive(Debug, Clone, Copy)]
pub struct PassGroupHfHeader {
    pub hfp: u32,
    pub histogram_offset: u64,
}

/// The header read at bit `pos` for `num_hf_presets` presets: `hfp` takes
/// `ceil(log2(num_hf_presets))` bits. `None` for zero presets, a stream
/// that ends early, or `hfp >= num_hf_presets`.
pub open spec fn spec_hf_header(s: Seq<u8>, pos: int, num_hf_presets: u32, nb_block_ctx: u32) -> Option<(PassGroupHfHeader, int)> {
    let nbits = spec_ceil_log2(num_hf_presets);
    if num_hf_presets == 0 || pos + nbits > total_bits(s) {
        None
    } else {
        let hfp = if nbits == 0 { 0 } else { bits_le(s, pos, nbits) };
        if hfp >= num_hf_presets {
            None
        } else {
            Some((PassGroupHfHeader { hfp: hfp as u32, histogram_offset: (495 * nb_block_ctx * hfp) as u64 }, pos + nbits))
        }
    }
}

impl PassGroupHfHeader {
    /// Read `hfp` for `num_hf_presets` presets and derive the histogram
    /// offset.
    pub fn read(br: &mut BitReader<'_>, num_hf_presets: u32, nb_block_ctx: u32) -> (r: Result<Self, JxlError>)
        requires
            old(br).wf(),
            495 * nb_block_ctx * num_hf_presets <= u64::MAX,
        ensures
            final(br).wf(),
            final(br).bytes() == old(br).bytes(),
            r is Ok <==> spec_hf_header(old(br).bytes(), old(br).pos(), num_hf_presets, nb_block_ctx) is Some,
            r is Ok ==> r->Ok_0 == spec_hf_header(old(br).bytes(), old(br).pos(), num_hf_presets, nb_block_ctx).unwrap().0
                && final(br).pos() == spec_hf_header(old(br).bytes(), old(br).pos(), num_hf_presets, nb_block_ctx).unwrap().1,
            num_hf_presets == 0 ==> (r matches Err(e) && e is InvalidData),
    {
        proof {
            br.lemma_pos_bound();
        }
        if num_hf_presets == 0 {
            return Err(invalid("pass group HF: no preset"));
        }
        let nbits = ceil_log2_u32(num_hf_presets);
        let hfp = if nbits == 0 { 0 } else { br.read_bits(nbits)? };
        if hfp >= num_hf_presets {
            return Err(invalid("pass group HF: hfp out of range"));
        }
        proof {
            assert(495 * nb_block_ctx * hfp <= 495 * nb_block_ctx * num_hf_presets) by (nonlinear_arith)
                requires hfp < num_hf_presets;
        }
        let histogram_offset: u64 = 495u64 * (nb_block_ctx as u64) * (hfp as u64);
        Ok(PassGroupHfHeader { hfp, histogram_offset })
    }

    /// The preset of `passes` this group uses.
    pub fn select_pass<'a, T>(&self, passes: &'a [T]) -> (r: Result<&'a T, JxlError>)
        ensures
            r is Ok <==> self.hfp < passes@.len(),
            r matches Ok(p) ==> *p == passes@[self.hfp as int],
            r matches Err(e) ==> e is InvalidData,
    {
        if (self.hfp as usize) < passes.len() {
            Ok(&passes[self.hfp as usize])
        } else {
            Err(invalid("pass group HF: hfp outside the pass list"))
        }
    }
}

/// Number of thresholds `t` with `v > t`.
pub open spec fn count_above_u32(thr: Seq<u32>, v: i32) -> nat
    decreases thr.len(),
{
    if thr.len() == 0 {
        0
    } else {
        count_above_u32(thr.drop_last(), v) + if v > (thr.last() as i32) { 1nat } else { 0nat }
    }
}

/// Number of thresholds `t` with `v > t`.
pub open spec fn count_above_i32(thr: Seq<i32>, v: i32) -> nat
    decreases thr.len(),
{
    if thr.len() == 0 {
        0
    } else {
        count_above_i32(thr.drop_last(), v) + if v > thr.last() { 1nat } else { 0nat }
    }
}

/// Index into `block_ctx_map` computed by `BlockContext()` (Listing C.13).
pub open spec fn spec_block_ctx_index(c: u32, s: u32, qf: i32, qdc: Seq<i32>, qf_thr: Seq<u32>, lf0: Seq<i32>, lf1: Seq<i32>, lf2: Seq<i32>) -> int {
    let c_term: int = if c < 2 { 1 - c } else { 2 };
    let idx = ((c_term * 13 + s) * (qf_thr.len() + 1) + count_above_u32(qf_thr, qf))
        * (lf0.len() + 1) * (lf1.len() + 1) * (lf2.len() + 1);
    let lf_idx = (count_above_i32(lf0, qdc[0]) * (lf2.len() + 1) + count_above_i32(lf2, qdc[2])) * (lf0.len() + 1)
        + count_above_i32(lf1, qdc[1]);
    idx + lf_idx
}

/// The LF part of the block context (Listing C.13) as a mixed-radix
/// number: with no LF threshold passed the index is the channel /
/// order / HF-multiplier part scaled by `(|lf0| + 1)(|lf1| + 1)(|lf2| +
/// 1)`; one more `lf1` threshold passed by `qdc[1]` adds 1, one more
/// `lf2` threshold passed by `qdc[2]` adds `|lf0| + 1`, and one more
/// `lf0` threshold passed by `qdc[0]` adds `(|lf2| + 1)(|lf0| + 1)`.
pub proof fn law_block_ctx_lf_steps(c: u32, s: u32, qf: i32, qdc: Seq<i32>, qdc2: Seq<i32>, qf_thr: Seq<u32>,
    lf0: Seq<i32>, lf1: Seq<i32>, lf2: Seq<i32>, k: int)
    requires
        qdc.len() == 3,
        qdc2.len() == 3,
        0 <= k < 3,
        forall|j: int| 0 <= j < 3 && j != k ==> qdc2[j] == qdc[j],
        k == 0 ==> count_above_i32(lf0, qdc2[0]) == count_above_i32(lf0, qdc[0]) + 1,
        k == 1 ==> count_above_i32(lf1, qdc2[1]) == count_above_i32(lf1, qdc[1]) + 1,
        k == 2 ==> count_above_i32(lf2, qdc2[2]) == count_above_i32(lf2, qdc[2]) + 1,
    ensures
        ({
            let before = spec_block_ctx_index(c, s, qf, qdc, qf_thr, lf0, lf1, lf2);
            let after = spec_block_ctx_index(c, s, qf, qdc2, qf_thr, lf0, lf1, lf2);
            &&& k == 1 ==> after == before + 1
            &&& k == 2 ==> after == before + (lf0.len() + 1)
            &&& k == 0 ==> after == before + (lf2.len() + 1) * (lf0.len() + 1)
        }),
{
    let n0 = lf0.len() as int;
    let n2 = lf2.len() as int;
    let a0 = count_above_i32(lf0, qdc[0]) as int;
    let a2 = count_above_i32(lf2, qdc[2]) as int;
    let a1 = count_above_i32(lf1, qdc[1]) as int;
    if k == 0 {
        assert(((a0 + 1) * (n2 + 1) + a2) * (n0 + 1) == (a0 * (n2 + 1) + a2) * (n0 + 1) + (n2 + 1) * (n0 + 1))
            by (nonlinear_arith);
    } else if k == 2 {
        assert((a0 * (n2 + 1) + a2 + 1) * (n0 + 1) == (a0 * (n2 + 1) + a2) * (n0 + 1) + (n0 + 1)) by (nonlinear_arith);
    }
}

/// With every threshold count zero the block context index is the
/// channel term (`1 - c` for the first two channels, 2 otherwise) times
/// 13 plus the order id, in radix `|qf_thr| + 1` with the HF-multiplier
/// count, scaled by the three LF radices.
pub proof fn law_block_ctx_base(c: u32, s: u32, qf: i32, qdc: Seq<i32>, qf_thr: Seq<u32>, lf0: Seq<i32>, lf1: Seq<i32>,
    lf2: Seq<i32>)
    requires
        qdc.len() == 3,
        count_above_i32(lf0, qdc[0]) == 0,
        count_above_i32(lf1, qdc[1]) == 0,
        count_above_i32(lf2, qdc[2]) == 0,
    ensures
        spec_block_ctx_index(c, s, qf, qdc, qf_thr, lf0, lf1, lf2)
            == (((if c == 0 { 1int } else if c == 1 { 0int } else { 2int }) * 13 + s) * (qf_thr.len() + 1)
                + count_above_u32(qf_thr, qf)) * (lf0.len() + 1) * (lf1.len() + 1) * (lf2.len() + 1),
{
    let n0 = lf0.len() as int;
    let n2 = lf2.len() as int;
    assert((0int * (n2 + 1) + 0) * (n0 + 1) + 0 == 0) by (nonlinear_arith);
    let c_term: int = if c < 2 { 1 - c } else { 2 };
    assert(c_term == (if c == 0 { 1int } else if c == 1 { 0int } else { 2int }));
}

/// Number of thresholds of `thr` below `v`, counted by a loop.
fn count_above_u32_exec(thr: &[u32], v: i32) -> (r: u64)
    requires
        thr@.len() < 256,
    ensures
        r == count_above_u32(thr@, v),
        r <= thr@.len(),
{
    let mut n: u64 = 0;
    let mut i: usize = 0;
    while i < thr.len()
        invariant
            i <= thr@.len() < 256,
            n == count_above_u32(thr@.subrange(0, i as int), v),
            n <= i,
        decreases thr@.len() - i,
    {
        proof {
            assert(thr@.subrange(0, i + 1).drop_last() == thr@.subrange(0, i as int));
        }
        if v > thr[i] as i32 {
            n = n + 1;
        }
        i = i + 1;
    }
    proof {
        assert(thr@.subrange(0, thr@.len() as int) == thr@);
    }
    n
}

/// Number of thresholds of `thr` below `v`, counted by a loop.
fn count_above_i32_exec(thr: &Vec<i32>, v: i32) -> (r: u64)
    requires
        thr@.len() < 256,
    ensures
        r == count_above_i32(thr@, v),
        r <= thr@.len(),
{
    let mut n: u64 = 0;
    let mut i: usize = 0;
    while i < thr.len()
        invariant
            i <= thr@.len() < 256,
            n == count_above_i32(thr@.subrange(0, i as int), v),
            n <= i,
        decreases thr@.len() - i,
    {
        proof {
            assert(thr@.subrange(0, i + 1).drop_last() == thr@.subrange(0, i as int));
        }
        if v > thr[i] {
            n = n + 1;
        }
        i = i + 1;
    }
    proof {
        assert(thr@.subrange(0, thr@.len() as int) == thr@);
    }
    n
}

/// `BlockContext()` of Listing C.13 for channel `c`, order id `s`, HF
/// multiplier `qf` and quantised LF values `qdc`, with the thresholds and
/// the context map of the frame's block-context bundle.
pub fn block_context(
    c: u32,
    s: u32,
    qf: i32,
    qdc: [i32; 3],
    qf_thresholds: &[u32],
    lf_thresholds: &[Vec<i32>; 3],
    block_ctx_map: &[u8],
) -> (r: Result<u32, JxlError>)
    requires
        s <= 0xffff,
        qf_thresholds@.len() < 256,
        lf_thresholds@[0]@.len() < 256,
        lf_thresholds@[1]@.len() < 256,
        lf_thresholds@[2]@.len() < 256,
    ensures
        ({
            let idx = spec_block_ctx_index(c, s, qf, qdc@, qf_thresholds@, lf_thresholds@[0]@,
                lf_thresholds@[1]@, lf_thresholds@[2]@);
            &&& r is Ok <==> idx < block_ctx_map@.len()
            &&& r matches Ok(v) ==> v == block_ctx_map@[idx] as u32
            &&& r matches Err(e) ==> e is InvalidData
        }),
{
    let c_term: u64 = if c < 2 { (1 - c) as u64 } else { 2 };
    let nq = qf_thresholds.len() as u64;
    let n0 = lf_thresholds[0].len() as u64;
    let n1 = lf_thresholds[1].len() as u64;
    let n2 = lf_thresholds[2].len() as u64;
    let cq = count_above_u32_exec(qf_thresholds, qf);
    let c0 = count_above_i32_exec(&lf_thresholds[0], qdc[0]);
    let c1 = count_above_i32_exec(&lf_thresholds[1], qdc[1]);
    let c2 = count_above_i32_exec(&lf_thresholds[2], qdc[2]);
    proof {
        let a = c_term * 13 + s;
        assert(a <= 0x1_0100);
        assert((a * (nq + 1) + cq) <= 0x1_0100 * 256 + 256) by (nonlinear_arith)
            requires a <= 0x1_0100, nq < 256, cq <= nq;
        let b = a * (nq + 1) + cq;
        assert(b * (n0 + 1) <= (0x1_0100 * 256 + 256) * 256) by (nonlinear_arith)
            requires b <= 0x1_0100 * 256 + 256, n0 < 256;
        assert(b * (n0 + 1) * (n1 + 1) <= (0x1_0100 * 256 + 256) * 256 * 256) by (nonlinear_arith)
            requires b * (n0 + 1) <= (0x1_0100 * 256 + 256) * 256, n1 < 256;
        assert(b * (n0 + 1) * (n1 + 1) * (n2 + 1) <= (0x1_0100 * 256 + 256) * 256 * 256 * 256) by (nonlinear_arith)
            requires b * (n0 + 1) * (n1 + 1) <= (0x1_0100 * 256 + 256) * 256 * 256, n2 < 256;
        assert(c0 * (n2 + 1) <= 256 * 256) by (nonlinear_arith)
            requires c0 <= n0 < 256, n2 < 256;
        assert((c0 * (n2 + 1) + c2) * (n0 + 1) <= (256 * 256 + 256) * 256) by (nonlinear_arith)
            requires c0 * (n2 + 1) <= 256 * 256, c2 <= n2 < 256, n0 < 256;
    }
    let idx: u64 = ((c_term * 13 + s as u64) * (nq + 1) + cq) * (n0 + 1) * (n1 + 1) * (n2 + 1);
    let lf_idx: u64 = (c0 * (n2 + 1) + c2) * (n0 + 1) + c1;
    let total = idx + lf_idx;
    if total >= block_ctx_map.len() as u64 {
        return Err(invalid("pass group HF: block context index outside the context map"));
    }
    Ok(block_ctx_map[total as usize] as u32)
}

/// `NonZerosContext(predicted)` of Listing C.13.
pub open spec fn spec_non_zeros_context(predicted: u32, block_ctx: u32, nb_block_ctx: u32) -> int {
    let p = if predicted > 64 { 64 } else { predicted as int };
    if p < 8 { block_ctx + nb_block_ctx * p } else { block_ctx + nb_block_ctx * (4 + p / 2) }
}

/// `NonZerosContext`: predictions above 64 count as 64; below 8 each
/// prediction has its own bucket `p`, from 8 on two predictions share
/// bucket `4 + p / 2`; the context is the block context plus the bucket
/// times the number of block contexts.
pub proof fn law_non_zeros_context_buckets(p: u32, block_ctx: u32, nb_block_ctx: u32)
    ensures
        p < 8 ==> spec_non_zeros_context(p, block_ctx, nb_block_ctx) == block_ctx + nb_block_ctx * p,
        8 <= p <= 64 ==> 2 * (spec_non_zeros_context(p, block_ctx, nb_block_ctx) - block_ctx)
            == nb_block_ctx * (8 + p - p % 2),
        p > 64 ==> spec_non_zeros_context(p, block_ctx, nb_block_ctx) == spec_non_zeros_context(64, block_ctx, nb_block_ctx),
{
    if 8 <= p <= 64 {
        assert(2 * (nb_block_ctx * (4 + p / 2)) == nb_block_ctx * (8 + p - p % 2)) by (nonlinear_arith)
            requires p >= 0;
    }
}

/// `NonZerosContext(predicted)` of Listing C.13, given the block's
/// `BlockContext()` and the number of block contexts.
pub fn non_zeros_context(predicted: u32, block_ctx: u32, nb_block_ctx: u32) -> (r: u32)
    requires
        block_ctx + nb_block_ctx * 36 <= u32::MAX,
    ensures
        r == spec_non_zeros_context(predicted, block_ctx, nb_block_ctx),
{
    let mut pred = predicted;
    if pred > 64 {
        pred = 64;
    }
    if pred < 8 {
        proof {
            assert(nb_block_ctx * pred <= nb_block_ctx * 36) by (nonlinear_arith)
                requires pred < 8;
        }
        return block_ctx + nb_block_ctx * pred;
    }
    proof {
        assert(nb_block_ctx * (4 + pred / 2) <= nb_block_ctx * 36) by (nonlinear_arith)
            requires pred <= 64;
    }
    block_ctx + nb_block_ctx * (4 + pred / 2)
}

/// `CoefficientContext(k, non_zeros, num_blocks, size, prev)` of Listing
/// C.13, reduced to 32 bits; the table indices are capped at 63.
pub open spec fn spec_coefficient_context(k: u32, non_zeros: u32, num_blocks: u32, prev: u32, block_ctx: u32, nb_block_ctx: u32) -> u32 {
    let nz = (non_zeros + num_blocks - 1) / (num_blocks as int);
    let nz_i = if nz > 63 { 63 } else { nz };
    let k_div = k / num_blocks;
    let k_i = if k_div > 63 { 63 } else { k_div as int };
    let base = (COEFF_NUM_NONZERO_CONTEXT@[nz_i] + COEFF_FREQ_CONTEXT@[k_i]) * 2;
    (base + prev + block_ctx * 458 + 37 * nb_block_ctx) as u32
}

/// `CoefficientContext` is the table part
/// `2 (NumNonZeroContext[ceil(non_zeros / num_blocks)] +
/// FreqContext[k / num_blocks])` (indices capped at 63) plus `prev`,
/// plus 458 per block context and 37 per block-context count: raising
/// `prev`, `block_ctx` or `nb_block_ctx` by one raises it by 1, 458 or 37
/// (modulo `2^32`).
pub proof fn law_coefficient_context_offsets(k: u32, non_zeros: u32, num_blocks: u32, prev: u32, block_ctx: u32,
    nb_block_ctx: u32)
    requires
        num_blocks >= 1,
        prev < u32::MAX,
        block_ctx < u32::MAX,
        nb_block_ctx < u32::MAX,
        prev + 458 * block_ctx + 37 * nb_block_ctx + 2 * (206 + 30) + 458 + 37 + 1 <= u32::MAX,
    ensures
        spec_coefficient_context(k, non_zeros, num_blocks, (prev + 1) as u32, block_ctx, nb_block_ctx)
            == spec_coefficient_context(k, non_zeros, num_blocks, prev, block_ctx, nb_block_ctx) + 1,
        spec_coefficient_context(k, non_zeros, num_blocks, prev, (block_ctx + 1) as u32, nb_block_ctx)
            == spec_coefficient_context(k, non_zeros, num_blocks, prev, block_ctx, nb_block_ctx) + 458,
        spec_coefficient_context(k, non_zeros, num_blocks, prev, block_ctx, (nb_block_ctx + 1) as u32)
            == spec_coefficient_context(k, non_zeros, num_blocks, prev, block_ctx, nb_block_ctx) + 37,
        spec_coefficient_context(k, non_zeros, num_blocks, 0, 0, 0) == 2 * (COEFF_NUM_NONZERO_CONTEXT@[
            if (non_zeros + num_blocks - 1) / (num_blocks as int) > 63 { 63 } else { (non_zeros + num_blocks - 1) / (num_blocks as int) }]
            + COEFF_FREQ_CONTEXT@[if k / num_blocks > 63 { 63int } else { (k / num_blocks) as int }]),
{
    let nz = (non_zeros + num_blocks - 1) / (num_blocks as int);
    let nz_i = if nz > 63 { 63 } else { nz };
    let k_div = k / num_blocks;
    let k_i = if k_div > 63 { 63 } else { k_div as int };
    assert(nz >= 0) by (nonlinear_arith) requires non_zeros + num_blocks - 1 >= 0, num_blocks >= 1, nz == (non_zeros + num_blocks - 1) / (num_blocks as int);
    assert(forall|i: int| 0 <= i < 64 ==> #[trigger] COEFF_NUM_NONZERO_CONTEXT@[i] <= 206);
    assert(forall|i: int| 0 <= i < 64 ==> #[trigger] COEFF_FREQ_CONTEXT@[i] <= 30);
    assert(COEFF_NUM_NONZERO_CONTEXT@[nz_i] <= 206 && COEFF_FREQ_CONTEXT@[k_i] <= 30);
}

/// `CoefficientContext` of Listing C.13 for coefficient `k` of a block of
/// `num_blocks` 8×8 blocks with `non_zeros` non-zero coefficients left;
/// `prev` is the context bit of Listing C.14. Fails for `num_blocks == 0`.
pub fn coefficient_context(
    k: u32,
    non_zeros: u32,
    num_blocks: u32,
    size: u32,
    prev: u32,
    block_ctx: u32,
    nb_block_ctx: u32,
) -> (r: Result<u32, JxlError>)
    ensures
        r is Ok <==> num_blocks >= 1,
        r matches Ok(v) ==> v == spec_coefficient_context(k, non_zeros, num_blocks, prev, block_ctx, nb_block_ctx),
        r matches Err(e) ==> e is InvalidData,
{
    if num_blocks == 0 {
        return Err(invalid("coefficient context: no block"));
    }
    let q = non_zeros / num_blocks;
    let rem = non_zeros % num_blocks;
    proof {
        vstd::arithmetic::div_mod::lemma_fundamental_div_mod(non_zeros as int, num_blocks as int);
        if rem != 0 {
            assert(q < u32::MAX) by (nonlinear_arith)
                requires non_zeros == num_blocks * q + rem, rem > 0, rem < num_blocks, non_zeros <= u32::MAX, q >= 0;
        }
    }
    let nz: u32 = if rem != 0 { q + 1 } else { q };
    proof {
        let rr: int = if rem != 0 { rem - 1 } else { num_blocks - 1 };
        assert((non_zeros + num_blocks - 1) == nz * num_blocks + rr) by (nonlinear_arith)
            requires non_zeros == num_blocks * q + rem, nz == (if rem != 0 { q + 1 } else { q as int }),
                rr == (if rem != 0 { rem - 1 } else { num_blocks - 1 });
        vstd::arithmetic::div_mod::lemma_fundamental_div_mod_converse(
            (non_zeros + num_blocks - 1) as int, num_blocks as int, nz as int, rr);
    }
    let nz_i: u32 = if nz > 63 { 63 } else { nz };
    let k_div = k / num_blocks;
    let k_i: u32 = if k_div > 63 { 63 } else { k_div };
    proof {
        assert forall|i: int| 0 <= i < 64 implies #[trigger] COEFF_NUM_NONZERO_CONTEXT@[i] <= 206 by {}
        assert forall|i: int| 0 <= i < 64 implies #[trigger] COEFF_FREQ_CONTEXT@[i] <= 30 by {}
    }
    let base: u64 = ((COEFF_NUM_NONZERO_CONTEXT[nz_i as usize] + COEFF_FREQ_CONTEXT[k_i as usize]) * 2) as u64;
    let total: u64 = base + (prev as u64) + (block_ctx as u64) * 458 + 37 * (nb_block_ctx as u64);
    Ok(total as u32)
}

/// `PredictedNonZeros(x, y)`: 32 at the origin, the upper neighbour in
/// the first column, the left one in the first row, and the rounded-up
/// mean of both elsewhere.
pub open spec fn spec_predicted(x: u32, y: u32, up: u32, left: u32) -> u32 {
    if x == 0 && y == 0 {
        32
    } else if x == 0 {
        up
    } else if y == 0 {
        left
    } else {
        ((up + left + 1) / 2) as u32
    }
}

/// `PredictedNonZeros` away from the first row and column is the mean
/// of the upper and left counts rounded up: twice it is their sum or one
/// more.
pub proof fn law_predicted_is_rounded_up_mean(x: u32, y: u32, up: u32, left: u32)
    requires
        x > 0,
        y > 0,
    ensures
        up + left <= 2 * spec_predicted(x, y, up, left) <= up + left + 1,
{
}

/// `PredictedNonZeros(x, y)` (C.8.3), reading `NonZeros` of decoded
/// blocks through `non_zeros_at(x, y)`.
pub fn predicted_non_zeros<F: Fn(u32, u32) -> u32>(x: u32, y: u32, non_zeros_at: F) -> (r: u32)
    requires
        y > 0 ==> call_requires(non_zeros_at, (x, (y - 1) as u32)),
        x > 0 ==> call_requires(non_zeros_at, ((x - 1) as u32, y)),
    ensures
        x == 0 && y == 0 ==> r == 32,
        x == 0 && y > 0 ==> call_ensures(non_zeros_at, (x, (y - 1) as u32), r),
        x > 0 && y == 0 ==> call_ensures(non_zeros_at, ((x - 1) as u32, y), r),
        x > 0 && y > 0 ==> exists|up: u32, left: u32|
            #![trigger call_ensures(non_zeros_at, (x, (y - 1) as u32), up), call_ensures(non_zeros_at, ((x - 1) as u32, y), left)]
            call_ensures(non_zeros_at, (x, (y - 1) as u32), up)
            && call_ensures(non_zeros_at, ((x - 1) as u32, y), left) && r == spec_predicted(x, y, up, left),
{
    if x == 0 && y == 0 {
        return 32;
    }
    if x == 0 {
        return non_zeros_at(x, y - 1);
    }
    if y == 0 {
        return non_zeros_at(x - 1, y);
    }
    let up = non_zeros_at(x, y - 1);
    let left = non_zeros_at(x - 1, y);
    let r = (((up as u64) + (left as u64) + 1) / 2) as u32;
    assert(r == spec_predicted(x, y, up, left));
    r
}

/// The context bit `prev` of Listing C.14: for the first coefficient
/// (`k == num_blocks`) whether `non_zeros > size / 16`, otherwise whether
/// coefficient `k - 1` was non-zero.
pub fn prev_for_context<F: Fn(u32) -> bool>(k: u32, num_blocks: u32, size: u32, non_zeros: u32, prev_nonzero: F) -> (r: u32)
    requires
        k != num_blocks ==> k >= 1 && call_requires(prev_nonzero, ((k - 1) as u32,)),
    ensures
        k == num_blocks ==> r == (if non_zeros > size / 16 { 1u32 } else { 0u32 }),
        k != num_blocks ==> (r == 1 || r == 0) && call_ensures(prev_nonzero, ((k - 1) as u32,), r == 1),
{
    if k == num_blocks {
        if non_zeros > size / 16 {
            1
        } else {
            0
        }
    } else if prev_nonzero(k - 1) {
        1
    } else {
        0
    }
}

/// Result of the coefficient loop for one block.
#[derive(Debug, Clone, PartialEq, Eq)]
pub struct DecodedHfBlock {
    /// Coefficients indexed by natural-order position: `coeffs[order[k]]`
    /// holds coefficient `k`, positions never decoded hold 0.
    pub coeffs: Vec<i32>,
    /// `non_zeros` left when the loop stopped.
    pub remaining_non_zeros: u32,
    /// Number of symbols read.
    pub coeffs_read: u32,
}

/// The loop's inputs are consistent: at least one block, `num_blocks <=
/// size`, an order of `size` positions below `size`, and at most
/// `size - num_blocks` non-zero coefficients announced.
pub open spec fn block_params_ok(order: Seq<u32>, num_blocks: u32, size: u32, nz0: u32) -> bool {
    &&& num_blocks >= 1
    &&& size >= 1
    &&& num_blocks <= size
    &&& order.len() == size
    &&& forall|i: int| 0 <= i < order.len() ==> #[trigger] order[i] < size
    &&& nz0 <= size - num_blocks
}

/// State of the loop after the symbols `toks`: the coefficients, the
/// `non_zeros` left, and which coefficients were non-zero.
pub open spec fn block_state(order: Seq<u32>, num_blocks: u32, size: u32, nz0: u32, toks: Seq<u32>) -> (Seq<i32>, u32, Seq<bool>)
    decreases toks.len(),
{
    if toks.len() == 0 {
        (Seq::new(size as nat, |i: int| 0i32), nz0, Seq::new(size as nat, |i: int| false))
    } else {
        let st = block_state(order, num_blocks, size, nz0, toks.drop_last());
        let k = num_blocks + toks.len() - 1;
        let u = toks.last();
        (
            st.0.update(order[k] as int, spec_unpack_signed(u) as i32),
            if u != 0 { if st.1 > 0 { (st.1 - 1) as u32 } else { 0 } } else { st.1 },
            if u != 0 { st.2.update(k, true) } else { st.2 },
        )
    }
}

/// Context of the symbol read after `toks` (Listings C.13 and C.14).
pub open spec fn block_symbol_ctx(order: Seq<u32>, num_blocks: u32, size: u32, nz0: u32, toks: Seq<u32>, block_ctx: u32, nb_block_ctx: u32) -> u32 {
    let st = block_state(order, num_blocks, size, nz0, toks);
    let k = num_blocks + toks.len();
    let prev: u32 = if k == num_blocks {
        if st.1 > size / 16 { 1 } else { 0 }
    } else {
        if st.2[k - 1] { 1 } else { 0 }
    };
    spec_coefficient_context(k as u32, st.1, num_blocks, prev, block_ctx, nb_block_ctx)
}

/// `tok` is a symbol `decode_symbol` may return for context `ctx` moved
/// up by `offset`, which stays within 32 bits.
pub open spec fn routed_symbol<F: FnMut(u32) -> Result<u32, JxlError>>(decode_symbol: F, ctx: u32, offset: u64, tok: u32) -> bool {
    ctx + offset <= u32::MAX && call_ensures(decode_symbol, ((ctx + offset) as u32,), Ok::<u32, JxlError>(tok))
}

/// Each of `toks` is a symbol `decode_symbol` may return for the context
/// the loop asked it for, moved up by `offset`.
#[verifier::opaque]
pub open spec fn symbols_read_at<F: FnMut(u32) -> Result<u32, JxlError>>(
    decode_symbol: F, offset: u64, order: Seq<u32>, num_blocks: u32, size: u32, nz0: u32, toks: Seq<u32>, block_ctx: u32, nb_block_ctx: u32,
) -> bool {
    forall|i: int| 0 <= i < toks.len() ==> #[trigger] routed_symbol(decode_symbol,
        block_symbol_ctx(order, num_blocks, size, nz0, toks.take(i), block_ctx, nb_block_ctx), offset, toks[i])
}

/// The loop stopped after `toks`: every coefficient was read, or no
/// non-zero coefficient is left.
pub open spec fn block_done(order: Seq<u32>, num_blocks: u32, size: u32, nz0: u32, toks: Seq<u32>) -> bool {
    num_blocks + toks.len() == size || block_state(order, num_blocks, size, nz0, toks).1 == 0
}

/// Decoded block for the symbols `toks`.
pub open spec fn block_result(order: Seq<u32>, num_blocks: u32, size: u32, nz0: u32, toks: Seq<u32>, d: DecodedHfBlock) -> bool {
    let st = block_state(order, num_blocks, size, nz0, toks);
    &&& d.coeffs@ == st.0
    &&& d.remaining_non_zeros == st.1
    &&& d.coeffs_read == toks.len()
}

/// `d` is what the coefficient loop produces on some run of symbols that
/// `decode_symbol` may return for the contexts the loop asks for, moved
/// up by `offset`, run until every coefficient is read or none is left.
#[verifier::opaque]
pub open spec fn block_outcome_at<F: FnMut(u32) -> Result<u32, JxlError>>(
    decode_symbol: F, offset: u64, order: Seq<u32>, num_blocks: u32, size: u32, nz0: u32, block_ctx: u32, nb_block_ctx: u32, d: DecodedHfBlock,
) -> bool {
    exists|t: Seq<u32>|
        #![trigger block_state(order, num_blocks, size, nz0, t)]
        symbols_read_at(decode_symbol, offset, order, num_blocks, size, nz0, t, block_ctx, nb_block_ctx)
        && block_done(order, num_blocks, size, nz0, t)
        && block_result(order, num_blocks, size, nz0, t, d)
}

/// `d` is what the coefficient loop produces on some run of symbols that
/// `decode_symbol` may return for the contexts the loop asks for, run
/// until every coefficient is read or none is left.
pub open spec fn block_outcome<F: FnMut(u32) -> Result<u32, JxlError>>(
    decode_symbol: F, order: Seq<u32>, num_blocks: u32, size: u32, nz0: u32, block_ctx: u32, nb_block_ctx: u32, d: DecodedHfBlock,
) -> bool {
    block_outcome_at(decode_symbol, 0, order, num_blocks, size, nz0, block_ctx, nb_block_ctx, d)
}

/// The loop state keeps its shape.
proof fn lemma_block_state_shape(order: Seq<u32>, num_blocks: u32, size: u32, nz0: u32, toks: Seq<u32>)
    requires
        block_params_ok(order, num_blocks, size, nz0),
        num_blocks + toks.len() <= size,
    ensures
        block_state(order, num_blocks, size, nz0, toks).0.len() == size,
        block_state(order, num_blocks, size, nz0, toks).2.len() == size,
        block_state(order, num_blocks, size, nz0, toks).1 <= nz0,
    decreases toks.len(),
{
    if toks.len() > 0 {
        lemma_block_state_shape(order, num_blocks, size, nz0, toks.drop_last());
    }
}

/// Check the inputs of the coefficient loop.
fn check_block_params(natural_order: &[u32], num_blocks: u32, size: u32, initial_non_zeros: u32) -> (r: Result<(), JxlError>)
    ensures
        r is Ok <==> block_params_ok(natural_order@, num_blocks, size, initial_non_zeros),
        r matches Err(e) ==> e is InvalidData,
{
    if num_blocks == 0 {
        return Err(invalid("block coefficients: no block"));
    }
    if size == 0 || num_blocks > size {
        return Err(invalid("block coefficients: invalid block size"));
    }
    if natural_order.len() != size as usize {
        return Err(invalid("block coefficients: order length differs from the block size"));
    }
    let mut i: usize = 0;
    while i < natural_order.len()
        invariant
            i <= natural_order@.len(),
            forall|j: int| 0 <= j < i ==> #[trigger] natural_order@[j] < size,
        decreases natural_order@.len() - i,
    {
        if natural_order[i] >= size {
            return Err(invalid("block coefficients: order entry outside the block"));
        }
        i = i + 1;
    }
    if initial_non_zeros > size - num_blocks {
        return Err(invalid("block coefficients: too many non-zero coefficients"));
    }
    Ok(())
}

/// `n` zero coefficients.
fn zero_coeffs(n: u32) -> (r: Vec<i32>)
    ensures
        r@ == Seq::new(n as nat, |i: int| 0i32),
{
    let mut v: Vec<i32> = Vec::new();
    let mut j: u32 = 0;
    while j < n
        invariant
            j <= n,
            v@ == Seq::new(j as nat, |i: int| 0i32),
        decreases n - j,
    {
        v.push(0);
        j = j + 1;
    }
    v
}

/// `n` cleared flags.
fn false_flags(n: u32) -> (r: Vec<bool>)
    ensures
        r@ == Seq::new(n as nat, |i: int| false),
{
    let mut v: Vec<bool> = Vec::new();
    let mut j: u32 = 0;
    while j < n
        invariant
            j <= n,
            v@ == Seq::new(j as nat, |i: int| false),
        decreases n - j,
    {
        v.push(false);
        j = j + 1;
    }
    v
}

/// A symbol read for the next context extends a valid run.
proof fn lemma_symbols_read_push<F: FnMut(u32) -> Result<u32, JxlError>>(
    decode_symbol: F, offset: u64, order: Seq<u32>, num_blocks: u32, size: u32, nz0: u32, toks: Seq<u32>, block_ctx: u32, nb_block_ctx: u32, u: u32,
)
    requires
        symbols_read_at(decode_symbol, offset, order, num_blocks, size, nz0, toks, block_ctx, nb_block_ctx),
        routed_symbol(decode_symbol, block_symbol_ctx(order, num_blocks, size, nz0, toks, block_ctx, nb_block_ctx), offset, u),
    ensures
        symbols_read_at(decode_symbol, offset, order, num_blocks, size, nz0, toks.push(u), block_ctx, nb_block_ctx),
{
    reveal(symbols_read_at);
    let t2 = toks.push(u);
    assert forall|i: int| 0 <= i < t2.len() implies #[trigger] routed_symbol(decode_symbol,
        block_symbol_ctx(order, num_blocks, size, nz0, t2.take(i), block_ctx, nb_block_ctx), offset, t2[i]) by {
        if i < toks.len() {
            assert(t2.take(i) == toks.take(i));
            assert(t2[i] == toks[i]);
            assert(routed_symbol(decode_symbol,
                block_symbol_ctx(order, num_blocks, size, nz0, toks.take(i), block_ctx, nb_block_ctx), offset, toks[i]));
        } else {
            assert(t2.take(i) == toks);
        }
    }
}

/// A coefficient block has at least one 8×8 block, and 64 coefficients
/// per block.
proof fn lemma_varblock_blocks(oid: u32)
    ensures
        (spec_varblock_size(oid).0 / 8) * (spec_varblock_size(oid).1 / 8) >= 1,
        (spec_varblock_size(oid).0 / 8) * (spec_varblock_size(oid).1 / 8) * 64
            == spec_varblock_size(oid).0 * spec_varblock_size(oid).1,
{
    let w = spec_varblock_size(oid).0 as int;
    let h = spec_varblock_size(oid).1 as int;
    assert(8 <= w <= 256 && 8 <= h <= 256);
    assert(w == 8 * (w / 8) && h == 8 * (h / 8));
    assert((w / 8) * (h / 8) >= 1 && (w / 8) * (h / 8) * 64 == w * h) by (nonlinear_arith)
        requires w == 8 * (w / 8), h == 8 * (h / 8), w >= 8, h >= 8;
}

/// The symbols read are a witness for the loop's result.
proof fn lemma_block_witness<F: FnMut(u32) -> Result<u32, JxlError>>(
    decode_symbol: F, offset: u64, order: Seq<u32>, num_blocks: u32, size: u32, nz0: u32, toks: Seq<u32>, block_ctx: u32, nb_block_ctx: u32, d: DecodedHfBlock,
)
    requires
        symbols_read_at(decode_symbol, offset, order, num_blocks, size, nz0, toks, block_ctx, nb_block_ctx),
        block_done(order, num_blocks, size, nz0, toks),
        block_result(order, num_blocks, size, nz0, toks, d),
    ensures
        block_outcome_at(decode_symbol, offset, order, num_blocks, size, nz0, block_ctx, nb_block_ctx, d),
{
    reveal(block_outcome_at);
    let _ = block_state(order, num_blocks, size, nz0, toks);
}

#[verifier::rlimit(40)]
/// Coefficient loop of Listing C.14 reading every symbol for its context
/// moved up by `offset`; a context that the offset takes past 32 bits is
/// refused.
pub(crate) fn decode_block_coefficients_at<F: FnMut(u32) -> Result<u32, JxlError>>(
    natural_order: &[u32],
    num_blocks: u32,
    size: u32,
    initial_non_zeros: u32,
    block_ctx: u32,
    nb_block_ctx: u32,
    offset: u64,
    mut decode_symbol: F,
) -> (r: Result<DecodedHfBlock, JxlError>)
    requires
        forall|ctx: u32| call_requires(decode_symbol, (ctx,)),
    ensures
        !block_params_ok(natural_order@, num_blocks, size, initial_non_zeros) ==> (r matches Err(e) && e is InvalidData),
        r matches Ok(d) ==> block_params_ok(natural_order@, num_blocks, size, initial_non_zeros)
            && block_outcome_at(decode_symbol, offset, natural_order@, num_blocks, size, initial_non_zeros, block_ctx, nb_block_ctx, d),
{
    check_block_params(natural_order, num_blocks, size, initial_non_zeros)?;
    let ghost ds0 = decode_symbol;
    let ghost order = natural_order@;
    let mut coeffs: Vec<i32> = zero_coeffs(size);
    let mut prev_nonzero: Vec<bool> = false_flags(size);
    let mut non_zeros = initial_non_zeros;
    let mut coeffs_read: u32 = 0;
    let ghost mut toks: Seq<u32> = Seq::empty();
    let mut k = num_blocks;
    assert(symbols_read_at(decode_symbol, offset, order, num_blocks, size, initial_non_zeros, toks, block_ctx, nb_block_ctx)) by {
        reveal(symbols_read_at);
    }
    while k < size
        invariant
            block_params_ok(order, num_blocks, size, initial_non_zeros),
            order == natural_order@,
            ds0 == decode_symbol,
            forall|ctx: u32| call_requires(decode_symbol, (ctx,)),
            num_blocks <= k <= size,
            k == num_blocks + toks.len(),
            coeffs_read == toks.len(),
            coeffs@ == block_state(order, num_blocks, size, initial_non_zeros, toks).0,
            non_zeros == block_state(order, num_blocks, size, initial_non_zeros, toks).1,
            prev_nonzero@ == block_state(order, num_blocks, size, initial_non_zeros, toks).2,
            symbols_read_at(decode_symbol, offset, order, num_blocks, size, initial_non_zeros, toks, block_ctx, nb_block_ctx),
        ensures
            k == size || non_zeros == 0,
        decreases size - k,
    {
        proof {
            lemma_block_state_shape(order, num_blocks, size, initial_non_zeros, toks);
        }
        if non_zeros == 0 {
            break;
        }
        let prev = prev_for_context(k, num_blocks, size, non_zeros, |kk: u32| -> (b: bool)
            requires
                kk < prev_nonzero@.len(),
            ensures
                b == prev_nonzero@[kk as int],
        { prev_nonzero[kk as usize] });
        let ctx = match coefficient_context(k, non_zeros, num_blocks, size, prev, block_ctx, nb_block_ctx) {
            Ok(c) => c,
            Err(e) => {
                return Err(e);
            },
        };
        proof {
            assert(ctx == block_symbol_ctx(order, num_blocks, size, initial_non_zeros, toks, block_ctx, nb_block_ctx));
        }
        if offset > 0xffff_ffffu64 - (ctx as u64) {
            return Err(invalid("block coefficients: context and histogram offset exceed 32 bits"));
        }
        let routed: u32 = ((ctx as u64) + offset) as u32;
        let ucoeff = decode_symbol(routed)?;
        let signed = unpack_signed(ucoeff);
        let pos = natural_order[k as usize] as usize;
        coeffs.set(pos, signed);
        if ucoeff != 0 {
            prev_nonzero.set(k as usize, true);
            non_zeros = if non_zeros > 0 { non_zeros - 1 } else { 0 };
        }
        coeffs_read = coeffs_read + 1;
        proof {
            lemma_symbols_read_push(decode_symbol, offset, order, num_blocks, size, initial_non_zeros, toks, block_ctx, nb_block_ctx, ucoeff);
            let old_toks = toks;
            toks = toks.push(ucoeff);
            assert(toks.drop_last() == old_toks);
        }
        k = k + 1;
    }
    let d = DecodedHfBlock { coeffs, remaining_non_zeros: non_zeros, coeffs_read };
    proof {
        assert(block_done(order, num_blocks, size, initial_non_zeros, toks));
        assert(block_result(order, num_blocks, size, initial_non_zeros, toks, d));
        lemma_block_witness(decode_symbol, offset, order, num_blocks, size, initial_non_zeros, toks, block_ctx, nb_block_ctx, d);
    }
    Ok(d)
}

/// Coefficient loop of Listing C.14 for a block of `num_blocks` 8×8
/// blocks and `size` coefficients: from `k = num_blocks` on, read a
/// symbol with `decode_symbol(CoefficientContext(...))`, store
/// `UnpackSigned(symbol)` at `natural_order[k]`, and count down
/// `non_zeros` on non-zero symbols, stopping when it reaches 0.
pub fn decode_block_coefficients<F: FnMut(u32) -> Result<u32, JxlError>>(
    natural_order: &[u32],
    num_blocks: u32,
    size: u32,
    initial_non_zeros: u32,
    block_ctx: u32,
    nb_block_ctx: u32,
    decode_symbol: F,
) -> (r: Result<DecodedHfBlock, JxlError>)
    requires
        forall|ctx: u32| call_requires(decode_symbol, (ctx,)),
    ensures
        !block_params_ok(natural_order@, num_blocks, size, initial_non_zeros) ==> (r matches Err(e) && e is InvalidData),
        r matches Ok(d) ==> block_params_ok(natural_order@, num_blocks, size, initial_non_zeros)
            && block_outcome(decode_symbol, natural_order@, num_blocks, size, initial_non_zeros, block_ctx, nb_block_ctx, d),
{
    decode_block_coefficients_at(natural_order, num_blocks, size, initial_non_zeros, block_ctx, nb_block_ctx, 0, decode_symbol)
}

/// Read a block's `non_zeros` with `read_non_zeros(NonZerosContext(predicted))`,
/// then run [`decode_block_coefficients`]. Returns the block and the
/// `non_zeros` read; fails when more than `size - num_blocks` non-zero
/// coefficients are announced.
pub fn read_non_zeros_and_decode_block<F: FnMut(u32) -> Result<u32, JxlError>, G: FnMut(u32) -> Result<u32, JxlError>>(
    natural_order: &[u32],
    num_blocks: u32,
    size: u32,
    predicted: u32,
    block_ctx: u32,
    nb_block_ctx: u32,
    mut read_non_zeros: F,
    decode_symbol: G,
) -> (r: Result<(DecodedHfBlock, u32), JxlError>)
    requires
        num_blocks <= size,
        block_ctx + nb_block_ctx * 36 <= u32::MAX,
        forall|ctx: u32| call_requires(read_non_zeros, (ctx,)),
        forall|ctx: u32| call_requires(decode_symbol, (ctx,)),
    ensures
        r matches Ok((d, nz)) ==> {
            &&& call_ensures(read_non_zeros, (spec_non_zeros_context(predicted, block_ctx, nb_block_ctx) as u32,), Ok::<u32, JxlError>(nz))
            &&& block_params_ok(natural_order@, num_blocks, size, nz)
            &&& block_outcome(decode_symbol, natural_order@, num_blocks, size, nz, block_ctx, nb_block_ctx, d)
        },
{
    let nz_ctx = non_zeros_context(predicted, block_ctx, nb_block_ctx);
    let non_zeros = read_non_zeros(nz_ctx)?;
    if non_zeros > size - num_blocks {
        return Err(invalid("block coefficients: too many non-zero coefficients"));
    }
    let decoded = decode_block_coefficients(natural_order, num_blocks, size, non_zeros, block_ctx, nb_block_ctx, decode_symbol)?;
    Ok((decoded, non_zeros))
}

/// `(num_blocks, size)` of a transform: its 8×8 block count and its
/// coefficient count.
pub open spec fn spec_block_params(t: TransformType) -> (u32, u32) {
    let (w, h) = spec_varblock_size(spec_order_id(t));
    (((w / 8) * (h / 8)) as u32, (w * h) as u32)
}

/// `(num_blocks, size)` of a transform: the block count
/// `(bwidth / 8) × (bheight / 8)` and the coefficient count
/// `bwidth × bheight` of its coefficient block.
pub fn transform_block_params(t: TransformType) -> (r: (u32, u32))
    ensures
        r == spec_block_params(t),
        1 <= r.0,
        r.0 * 64 == r.1,
{
    let oid = order_id_for_transform(t);
    let (bwidth, bheight) = varblock_size_for_order(oid);
    proof {
        lemma_varblock_blocks(oid);
        assert(bwidth <= 256 && bheight <= 256);
    }
    let num_blocks = (bwidth / 8) * (bheight / 8);
    let size = coefficient_count(oid);
    (num_blocks, size)
}

/// [`decode_block_coefficients`] for a block of transform `t`: its block
/// and coefficient counts come from the transform, and `natural_order`
/// must hold one position per coefficient.
pub fn decode_block_coefficients_for_transform<F: FnMut(u32) -> Result<u32, JxlError>>(
    t: TransformType,
    natural_order: &[u32],
    initial_non_zeros: u32,
    block_ctx: u32,
    nb_block_ctx: u32,
    decode_symbol: F,
) -> (r: Result<DecodedHfBlock, JxlError>)
    requires
        forall|ctx: u32| call_requires(decode_symbol, (ctx,)),
    ensures
        !block_params_ok(natural_order@, spec_block_params(t).0, spec_block_params(t).1, initial_non_zeros)
            ==> (r matches Err(e) && e is InvalidData),
        r matches Ok(d) ==> block_params_ok(natural_order@, spec_block_params(t).0, spec_block_params(t).1, initial_non_zeros)
            && block_outcome(decode_symbol, natural_order@, spec_block_params(t).0, spec_block_params(t).1, initial_non_zeros,
                block_ctx, nb_block_ctx, d),
{
    let (num_blocks, size) = transform_block_params(t);
    decode_block_coefficients(natural_order, num_blocks, size, initial_non_zeros, block_ctx, nb_block_ctx, decode_symbol)
}

/// [`read_non_zeros_and_decode_block`] for a block of transform `t`: its
/// block and coefficient counts come from the transform, and
/// `natural_order` must hold one position per coefficient.
pub fn read_non_zeros_and_decode_block_for_transform<F: FnMut(u32) -> Result<u32, JxlError>, G: FnMut(u32) -> Result<u32, JxlError>>(
    t: TransformType,
    natural_order: &[u32],
    predicted: u32,
    block_ctx: u32,
    nb_block_ctx: u32,
    read_non_zeros: F,
    decode_symbol: G,
) -> (r: Result<(DecodedHfBlock, u32), JxlError>)
    requires
        block_ctx + nb_block_ctx * 36 <= u32::MAX,
        forall|ctx: u32| call_requires(read_non_zeros, (ctx,)),
        forall|ctx: u32| call_requires(decode_symbol, (ctx,)),
    ensures
        r matches Ok((d, nz)) ==> {
            &&& call_ensures(read_non_zeros, (spec_non_zeros_context(predicted, block_ctx, nb_block_ctx) as u32,), Ok::<u32, JxlError>(nz))
            &&& block_params_ok(natural_order@, spec_block_params(t).0, spec_block_params(t).1, nz)
            &&& block_outcome(decode_symbol, natural_order@, spec_block_params(t).0, spec_block_params(t).1, nz, block_ctx,
                nb_block_ctx, d)
        },
{
    let (num_blocks, size) = transform_block_params(t);
    read_non_zeros_and_decode_block(natural_order, num_blocks, size, predicted, block_ctx, nb_block_ctx, read_non_zeros, decode_symbol)
}

} // verus!
