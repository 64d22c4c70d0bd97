//! The HF headers of every pass of a pass group: one `hfp` and histogram
//! offset per pass.
use vstd::prelude::*;
use crate::bitreader::BitReader;
use crate::error::{JxlError, invalid};
use crate::pass_group_hf::{PassGroupHfHeader, spec_hf_header};

verus! {

/// One [`PassGroupHfHeader`] per pass, in pass order.
#[derive(Debug, Clone)]
pub struct PerPassHfHeaders {
    headers: Vec<PassGroupHfHeader>,
}

/// `n` consecutive headers read from bit `pos`.
pub open spec fn spec_hf_headers(s: Seq<u8>, pos: int, n: nat, num_hf_presets: u32, nb_block_ctx: u32) -> Option<(Seq<PassGroupHfHeader>, int)>
    decreases n,
{
    if n == 0 {
        Some((Seq::empty(), pos))
    } else {
        match spec_hf_headers(s, pos, (n - 1) as nat, num_hf_presets, nb_block_ctx) {
            None => None,
            Some((hs, p1)) => match spec_hf_header(s, p1, num_hf_presets, nb_block_ctx) {
                None => None,
                Some((h, p2)) => Some((hs.push(h), p2)),
            },
        }
    }
}

/// Once a header fails to read, any longer run fails too.
proof fn lemma_hf_headers_none(s: Seq<u8>, pos: int, k: nat, m: nat, num_hf_presets: u32, nb_block_ctx: u32)
    requires
        k <= m,
        spec_hf_headers(s, pos, k, num_hf_presets, nb_block_ctx) is None,
    ensures
        spec_hf_headers(s, pos, m, num_hf_presets, nb_block_ctx) is None,
    decreases m - k,
{
    if k < m {
        assert(spec_hf_headers(s, pos, (k + 1) as nat, num_hf_presets, nb_block_ctx) is None);
        lemma_hf_headers_none(s, pos, (k + 1) as nat, m, num_hf_presets, nb_block_ctx);
    }
}

/// `(hfp, histogram_offset)` of one pass.
#[derive(Debug, Clone, Copy, PartialEq, Eq, Structural)]
pub struct PassHfDigest {
    pub hfp: u32,
    pub histogram_offset: u64,
}

impl PerPassHfHeaders {
    /// The headers, pass by pass.
    pub closed spec fn view_headers(&self) -> Seq<PassGroupHfHeader> {
        self.headers@
    }

    /// Read `num_passes` consecutive headers.
    pub fn read(br: &mut BitReader<'_>, num_passes: u32, num_hf_presets: u32, nb_block_ctx: u32) -> (r: Result<Self, JxlError>)
        requires
            old(br).wf(),
            495 * nb_block_ctx * num_hf_presets <= u64::MAX,
        ensures
            final(br).wf(),
            final(br).bytes() == old(br).bytes(),
            r is Ok <==> spec_hf_headers(old(br).bytes(), old(br).pos(), num_passes as nat, num_hf_presets, nb_block_ctx) is Some,
            r matches Ok(h) ==> h.view_headers() == spec_hf_headers(old(br).bytes(), old(br).pos(), num_passes as nat,
                num_hf_presets, nb_block_ctx).unwrap().0 && final(br).pos() == spec_hf_headers(old(br).bytes(), old(br).pos(),
                num_passes as nat, num_hf_presets, nb_block_ctx).unwrap().1,
    {
        let ghost s = br.bytes();
        let ghost p0 = br.pos();
        let mut headers: Vec<PassGroupHfHeader> = Vec::new();
        let mut k: u32 = 0;
        while k < num_passes
            invariant
                br.wf(),
                br.bytes() == s,
                s == old(br).bytes(),
                p0 == old(br).pos(),
                495 * nb_block_ctx * num_hf_presets <= u64::MAX,
                k <= num_passes,
                spec_hf_headers(s, p0, k as nat, num_hf_presets, nb_block_ctx) == Some((headers@, br.pos())),
            decreases num_passes - k,
        {
            let h = match PassGroupHfHeader::read(br, num_hf_presets, nb_block_ctx) {
                Ok(h) => h,
                Err(e) => {
                    proof {
                        lemma_hf_headers_none(s, p0, (k + 1) as nat, num_passes as nat, num_hf_presets, nb_block_ctx);
                    }
                    return Err(e);
                },
            };
            headers.push(h);
            k = k + 1;
        }
        Ok(PerPassHfHeaders { headers })
    }

    /// Wrap headers built by the caller.
    pub fn from_headers(headers: Vec<PassGroupHfHeader>) -> (r: Self)
        ensures
            r.view_headers() == headers@,
    {
        PerPassHfHeaders { headers }
    }

    /// Number of passes, reduced to 32 bits.
    pub fn num_passes(&self) -> (r: u32)
        ensures
            r == self.view_headers().len() as u32,
    {
        self.headers.len() as u32
    }

    /// Header of pass `p`; fails for `p >= num_passes`.
    pub fn get(&self, p: u32) -> (r: Result<&PassGroupHfHeader, JxlError>)
        ensures
            r is Ok <==> p < self.view_headers().len(),
            r matches Ok(h) ==> *h == self.view_headers()[p as int],
            r matches Err(e) ==> e is InvalidData,
    {
        if (p as usize) < self.headers.len() {
            Ok(&self.headers[p as usize])
        } else {
            Err(invalid("per-pass HF headers: pass out of range"))
        }
    }

    /// Histogram offset of pass `p`.
    pub fn histogram_offset(&self, p: u32) -> (r: Result<u64, JxlError>)
        ensures
            r is Ok <==> p < self.view_headers().len(),
            r matches Ok(v) ==> v == self.view_headers()[p as int].histogram_offset,
            r matches Err(e) ==> e is InvalidData,
    {
        let h = self.get(p)?;
        Ok(h.histogram_offset)
    }

    /// `hfp` of pass `p`.
    pub fn hfp(&self, p: u32) -> (r: Result<u32, JxlError>)
        ensures
            r is Ok <==> p < self.view_headers().len(),
            r matches Ok(v) ==> v == self.view_headers()[p as int].hfp,
            r matches Err(e) ==> e is InvalidData,
    {
        let h = self.get(p)?;
        Ok(h.hfp)
    }

    /// The headers, pass by pass.
    pub fn as_slice(&self) -> (r: &[PassGroupHfHeader])
        ensures
            r@ == self.view_headers(),
    {
        self.headers.as_slice()
    }

    /// `(hfp, histogram_offset)` of every pass, in pass order.
    pub fn digest(&self) -> (r: Vec<PassHfDigest>)
        ensures
            r@.len() == self.view_headers().len(),
            forall|p: int| 0 <= p < r@.len() ==> #[trigger] r@[p] == (PassHfDigest {
                hfp: self.view_headers()[p].hfp,
                histogram_offset: self.view_headers()[p].histogram_offset,
            }),
    {
        let mut out: Vec<PassHfDigest> = Vec::new();
        let mut i: usize = 0;
        while i < self.headers.len()
            invariant
                i <= self.headers@.len(),
                out@.len() == i,
                forall|p: int| 0 <= p < i ==> #[trigger] out@[p] == (PassHfDigest {
                    hfp: self.headers@[p].hfp,
                    histogram_offset: self.headers@[p].histogram_offset,
                }),
            decreases self.headers@.len() - i,
        {
            let h = self.headers[i];
            out.push(PassHfDigest { hfp: h.hfp, histogram_offset: h.histogram_offset });
            i = i + 1;
        }
        out
    }
}

/// Every header a run of `n` pass headers reads selects a preset below
/// `num_hf_presets`, and its histogram offset is `495 × nb_block_ctx ×
/// hfp`.
pub proof fn law_headers_select_valid_presets(s: Seq<u8>, pos: int, n: nat, num_hf_presets: u32, nb_block_ctx: u32)
    requires
        495 * nb_block_ctx * num_hf_presets <= u64::MAX,
    ensures
        spec_hf_headers(s, pos, n, num_hf_presets, nb_block_ctx) matches Some((hs, _)) ==> {
            &&& hs.len() == n
            &&& forall|q: int| 0 <= q < hs.len() ==> (#[trigger] hs[q]).hfp < num_hf_presets
                && hs[q].histogram_offset == 495 * nb_block_ctx * hs[q].hfp
        },
    decreases n,
{
    if n > 0 {
        law_headers_select_valid_presets(s, pos, (n - 1) as nat, num_hf_presets, nb_block_ctx);
        if let Some((hs, p1)) = spec_hf_headers(s, pos, (n - 1) as nat, num_hf_presets, nb_block_ctx) {
            if let Some((h, p2)) = spec_hf_header(s, p1, num_hf_presets, nb_block_ctx) {
                let all = hs.push(h);
                let nbits = crate::pass_group_hf::spec_ceil_log2(num_hf_presets);
                crate::bitreader::lemma_bits_le_bound(s, p1, nbits);
                let v: int = if nbits == 0 { 0 } else { crate::bitreader::bits_le(s, p1, nbits) };
                assert(0 <= v < num_hf_presets);
                assert(h.hfp == v);
                assert(495 * nb_block_ctx * v <= 495 * nb_block_ctx * num_hf_presets) by (nonlinear_arith)
                    requires 0 <= v < num_hf_presets, nb_block_ctx >= 0;
                assert(495 * nb_block_ctx * v >= 0) by (nonlinear_arith)
                    requires 0 <= v, nb_block_ctx >= 0;
                assert(h.hfp < num_hf_presets);
                assert(495 * nb_block_ctx * h.hfp <= 495 * nb_block_ctx * num_hf_presets) by (nonlinear_arith)
                    requires h.hfp < num_hf_presets, nb_block_ctx >= 0;
                assert(h.histogram_offset == 495 * nb_block_ctx * h.hfp);
                assert forall|q: int| 0 <= q < all.len() implies (#[trigger] all[q]).hfp < num_hf_presets
                    && all[q].histogram_offset == 495 * nb_block_ctx * all[q].hfp by {
                    if q < hs.len() {
                        assert(all[q] == hs[q]);
                    }
                }
            }
        }
    }
}

} // verus!
