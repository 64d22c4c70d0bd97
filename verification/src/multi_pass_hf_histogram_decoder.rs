//! Routing of HF symbols to the histograms of each pass (C.8.3): every
//! context of Listing C.13 is moved up by the pass's `histogram_offset`
//! before the symbol is read. The entropy-coded stream itself is reached
//! through a `decode_symbol(context)` closure.
use vstd::prelude::*;
use crate::error::{JxlError, invalid};
use crate::multi_pass_hf_header::PerPassHfHeaders;
use crate::pass_group_hf::{
    DecodedHfBlock, block_outcome_at, block_params_ok, routed_symbol, spec_non_zeros_context, spec_coefficient_context,
    spec_block_params, non_zeros_context, coefficient_context, transform_block_params, decode_block_coefficients_at,
};
use crate::transform::TransformType;

verus! {

/// The histogram offset of every pass, in pass order.
#[derive(Debug, Clone)]
pub struct HfHistogramDecodeContext {
    per_pass_offsets: Vec<u64>,
}

impl View for HfHistogramDecodeContext {
    type V = Seq<u64>;

    closed spec fn view(&self) -> Seq<u64> {
        self.per_pass_offsets@
    }
}

/// The offsets of the first `n` passes of `headers`.
pub open spec fn offsets_of(headers: PerPassHfHeaders, n: nat) -> Seq<u64> {
    Seq::new(n, |p: int| headers.view_headers()[p].histogram_offset)
}

impl HfHistogramDecodeContext {
    /// Bind the headers of the passes to histograms of `num_hf_presets`
    /// presets. Fails when there is no pass or a pass selects a preset
    /// at or above `num_hf_presets`. The pass count is taken to 32 bits.
    pub fn new(num_hf_presets: u32, headers: &PerPassHfHeaders) -> (r: Result<Self, JxlError>)
        ensures
            r is Ok <==> (headers.view_headers().len() as u32) > 0 && forall|p: int|
                0 <= p < (headers.view_headers().len() as u32) ==> #[trigger] headers.view_headers()[p].hfp < num_hf_presets,
            r matches Ok(c) ==> c@ == offsets_of(*headers, (headers.view_headers().len() as u32) as nat),
            r matches Err(e) ==> e is InvalidData,
    {
        let num_passes = headers.num_passes();
        let len = headers.as_slice().len();
        proof {
            assert((len as u32) as usize <= len) by (bit_vector);
        }
        if num_passes == 0 {
            return Err(invalid("HF histograms: no pass"));
        }
        let mut p: u32 = 0;
        while p < num_passes
            invariant
                p <= num_passes,
                num_passes == headers.view_headers().len() as u32,
                num_passes <= headers.view_headers().len(),
                forall|q: int| 0 <= q < p ==> #[trigger] headers.view_headers()[q].hfp < num_hf_presets,
            decreases num_passes - p,
        {
            let hfp = headers.hfp(p)?;
            if hfp >= num_hf_presets {
                return Err(invalid("HF histograms: pass selects a preset out of range"));
            }
            p = p + 1;
        }
        let mut offsets: Vec<u64> = Vec::new();
        let mut q: u32 = 0;
        while q < num_passes
            invariant
                q <= num_passes,
                num_passes == headers.view_headers().len() as u32,
                num_passes <= headers.view_headers().len(),
                offsets@ == offsets_of(*headers, q as nat),
            decreases num_passes - q,
        {
            let off = headers.histogram_offset(q)?;
            proof {
                assert(offsets@.push(off) =~= offsets_of(*headers, (q + 1) as nat));
            }
            offsets.push(off);
            q = q + 1;
        }
        Ok(HfHistogramDecodeContext { per_pass_offsets: offsets })
    }

    /// Histogram offset of pass `p`; fails for `p >= num_passes`.
    pub fn histogram_offset(&self, p: u32) -> (r: Result<u64, JxlError>)
        ensures
            r is Ok <==> p < self@.len(),
            r matches Ok(v) ==> v == self@[p as int],
            r matches Err(e) ==> e is InvalidData,
    {
        if (p as usize) < self.per_pass_offsets.len() {
            Ok(self.per_pass_offsets[p as usize])
        } else {
            Err(invalid("HF histograms: pass out of range"))
        }
    }

    /// Number of passes, taken to 32 bits.
    pub fn num_passes(&self) -> (r: u32)
        ensures
            r == self@.len() as u32,
    {
        self.per_pass_offsets.len() as u32
    }

    /// The offsets, pass by pass.
    pub fn per_pass_offsets(&self) -> (r: &[u64])
        ensures
            r@ == self@,
    {
        self.per_pass_offsets.as_slice()
    }

    /// Read a symbol of pass `p` for context `ctx`: `decode_symbol` is
    /// asked for `ctx + histogram_offset(p)`. Fails for a pass out of range
    /// and for a sum beyond 32 bits; otherwise returns what `decode_symbol`
    /// returns.
    pub fn decode_symbol_for_pass<F: FnMut(u32) -> Result<u32, JxlError>>(&self, p: u32, ctx: u32, mut decode_symbol: F)
        -> (r: Result<u32, JxlError>)
        requires
            forall|c: u32| call_requires(decode_symbol, (c,)),
        ensures
            p >= self@.len() ==> (r matches Err(e) && e is InvalidData),
            p < self@.len() && ctx + self@[p as int] > u32::MAX ==> (r matches Err(e) && e is InvalidData),
            p < self@.len() && ctx + self@[p as int] <= u32::MAX
                ==> call_ensures(decode_symbol, ((ctx + self@[p as int]) as u32,), r),
    {
        let offset = self.histogram_offset(p)?;
        if offset > 0xffff_ffffu64 - (ctx as u64) {
            return Err(invalid("HF histograms: context and offset exceed 32 bits"));
        }
        decode_symbol(((ctx as u64) + offset) as u32)
    }

    /// `NonZeros` of a block of pass `p`: the symbol for
    /// `NonZerosContext(predicted)` (Listing C.13) in the pass's
    /// histograms.
    pub fn non_zeros_at<F: FnMut(u32) -> Result<u32, JxlError>>(
        &self,
        p: u32,
        predicted: u32,
        block_ctx: u32,
        nb_block_ctx: u32,
        decode_symbol: F,
    ) -> (r: Result<u32, JxlError>)
        requires
            block_ctx + nb_block_ctx * 36 <= u32::MAX,
            forall|c: u32| call_requires(decode_symbol, (c,)),
        ensures
            ({
                let ctx = spec_non_zeros_context(predicted, block_ctx, nb_block_ctx);
                &&& p >= self@.len() ==> (r matches Err(e) && e is InvalidData)
                &&& p < self@.len() && ctx + self@[p as int] > u32::MAX ==> (r matches Err(e) && e is InvalidData)
                &&& p < self@.len() && ctx + self@[p as int] <= u32::MAX
                    ==> call_ensures(decode_symbol, ((ctx + self@[p as int]) as u32,), r)
            }),
    {
        let ctx = non_zeros_context(predicted, block_ctx, nb_block_ctx);
        self.decode_symbol_for_pass(p, ctx, decode_symbol)
    }

    /// A coefficient symbol of pass `p`: the symbol for
    /// `CoefficientContext(k, non_zeros, num_blocks, size, prev)` (Listing
    /// C.13) in the pass's histograms. Fails first for `num_blocks == 0`.
    pub fn coefficient_at<F: FnMut(u32) -> Result<u32, JxlError>>(
        &self,
        p: u32,
        k: u32,
        non_zeros: u32,
        num_blocks: u32,
        size: u32,
        prev: u32,
        block_ctx: u32,
        nb_block_ctx: u32,
        decode_symbol: F,
    ) -> (r: Result<u32, JxlError>)
        requires
            forall|c: u32| call_requires(decode_symbol, (c,)),
        ensures
            num_blocks == 0 ==> (r matches Err(e) && e is InvalidData),
            num_blocks > 0 ==> ({
                let ctx = spec_coefficient_context(k, non_zeros, num_blocks, prev, block_ctx, nb_block_ctx);
                &&& p >= self@.len() ==> (r matches Err(e) && e is InvalidData)
                &&& p < self@.len() && ctx + self@[p as int] > u32::MAX ==> (r matches Err(e) && e is InvalidData)
                &&& p < self@.len() && ctx + self@[p as int] <= u32::MAX
                    ==> call_ensures(decode_symbol, ((ctx + self@[p as int]) as u32,), r)
            }),
    {
        let ctx = coefficient_context(k, non_zeros, num_blocks, size, prev, block_ctx, nb_block_ctx)?;
        self.decode_symbol_for_pass(p, ctx, decode_symbol)
    }

    /// Decode one block of transform `t` in pass `p` (Listings C.13 and
    /// C.14), every context moved up by the pass's histogram offset: read
    /// `non_zeros`, refuse more than `size - num_blocks`, then run the
    /// coefficient loop over `natural_order`. Returns the block and the
    /// `non_zeros` read. An order whose length is not the transform's
    /// coefficient count, or with an entry outside the block, is refused.
    pub fn decode_block_for_pass_transform<F: FnMut(u32) -> Result<u32, JxlError>>(
        &self,
        p: u32,
        t: TransformType,
        natural_order: &[u32],
        predicted: u32,
        block_ctx: u32,
        nb_block_ctx: u32,
        mut decode_symbol: F,
    ) -> (r: Result<(DecodedHfBlock, u32), JxlError>)
        requires
            block_ctx + nb_block_ctx * 36 <= u32::MAX,
            forall|c: u32| call_requires(decode_symbol, (c,)),
        ensures
            natural_order@.len() != spec_block_params(t).1 ==> (r matches Err(e) && e is InvalidData),
            natural_order@.len() == spec_block_params(t).1 && p >= self@.len() ==> (r matches Err(e) && e is InvalidData),
            r matches Ok((d, nz)) ==> {
                let (num_blocks, size) = spec_block_params(t);
                &&& p < self@.len()
                &&& routed_symbol(decode_symbol, spec_non_zeros_context(predicted, block_ctx, nb_block_ctx) as u32,
                    self@[p as int], nz)
                &&& block_params_ok(natural_order@, num_blocks, size, nz)
                &&& block_outcome_at(decode_symbol, self@[p as int], natural_order@, num_blocks, size, nz, block_ctx,
                    nb_block_ctx, d)
            },
    {
        let (num_blocks, size) = transform_block_params(t);
        if natural_order.len() != size as usize {
            return Err(invalid("HF block: order length differs from the block size"));
        }
        let offset = self.histogram_offset(p)?;
        let nz_ctx = non_zeros_context(predicted, block_ctx, nb_block_ctx);
        if offset > 0xffff_ffffu64 - (nz_ctx as u64) {
            return Err(invalid("HF histograms: context and offset exceed 32 bits"));
        }
        let raw_non_zeros = decode_symbol(((nz_ctx as u64) + offset) as u32)?;
        if raw_non_zeros > size - num_blocks {
            return Err(invalid("HF block: too many non-zero coefficients"));
        }
        let decoded = decode_block_coefficients_at(
            natural_order, num_blocks, size, raw_non_zeros, block_ctx, nb_block_ctx, offset, decode_symbol)?;
        Ok((decoded, raw_non_zeros))
    }
}

} // verus!
