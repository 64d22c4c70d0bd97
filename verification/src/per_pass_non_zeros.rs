//! One [`PerChannelNonZerosGrids`] per pass of a frame: each pass keeps
//! its own `NonZeros` history.
use vstd::prelude::*;
use crate::error::{JxlError, invalid};
use crate::non_zeros_grid::{MAX_GRID_DIM, spec_ceil_div};
use crate::pass_group_hf::{DecodedHfBlock, spec_predicted, spec_block_params};
use crate::per_channel_non_zeros::PerChannelNonZerosGrids;
use crate::transform::{TransformType, spec_block_dims};

verus! {

/// The per-channel `NonZeros` grids of every pass, pass `p` at index `p`.
#[derive(Debug, Clone)]
pub struct PerPassNonZerosGrids {
    passes: Vec<PerChannelNonZerosGrids>,
}

impl PerPassNonZerosGrids {
    /// The passes.
    pub closed spec fn view_passes(&self) -> Seq<PerChannelNonZerosGrids> {
        self.passes@
    }

    /// At least one pass, fewer than `2^32`, each well formed.
    pub closed spec fn wf(&self) -> bool {
        &&& 1 <= self.passes@.len() <= u32::MAX
        &&& forall|p: int| 0 <= p < self.passes@.len() ==> (#[trigger] self.passes@[p]).wf()
    }

    /// One per-channel container per entry of `pass_dims`; fails for no
    /// pass or an invalid per-channel list.
    pub fn new(pass_dims: &[&[(u32, u32)]]) -> (r: Result<Self, JxlError>)
        ensures
            r is Ok <==> 1 <= pass_dims@.len() <= u32::MAX && forall|p: int| 0 <= p < pass_dims@.len() ==> {
                let dims = (#[trigger] pass_dims@[p])@;
                &&& 1 <= dims.len() <= u32::MAX
                &&& forall|c: int| 0 <= c < dims.len() ==> 1 <= (#[trigger] dims[c]).0 <= MAX_GRID_DIM && 1 <= dims[c].1 <= MAX_GRID_DIM
            },
            r matches Err(e) ==> e is InvalidData,
            r matches Ok(pp) ==> pp.wf() && pp.view_passes().len() == pass_dims@.len() && forall|p: int| 0 <= p < pass_dims@.len()
                ==> (#[trigger] pp.view_passes()[p]).view_grids().len() == pass_dims@[p]@.len() && forall|c: int| 0 <= c
                < pass_dims@[p]@.len() ==> (#[trigger] pp.view_passes()[p].view_grids()[c]).spec_width() == pass_dims@[p]@[c].0
                && pp.view_passes()[p].view_grids()[c].spec_height() == pass_dims@[p]@[c].1,
    {
        if pass_dims.len() == 0 {
            return Err(invalid("per-pass grids: no pass"));
        }
        if pass_dims.len() > u32::MAX as usize {
            return Err(invalid("per-pass grids: too many passes"));
        }
        let mut passes: Vec<PerChannelNonZerosGrids> = Vec::new();
        let mut i: usize = 0;
        while i < pass_dims.len()
            invariant
                i <= pass_dims@.len(),
                passes@.len() == i,
                forall|p: int| 0 <= p < i ==> {
                    let dims = (#[trigger] pass_dims@[p])@;
                    &&& 1 <= dims.len() <= u32::MAX
                    &&& forall|c: int| 0 <= c < dims.len() ==> 1 <= (#[trigger] dims[c]).0 <= MAX_GRID_DIM && 1 <= dims[c].1 <= MAX_GRID_DIM
                },
                forall|p: int| 0 <= p < i ==> (#[trigger] passes@[p]).wf() && passes@[p].view_grids().len() == pass_dims@[p]@.len()
                    && forall|c: int| 0 <= c < pass_dims@[p]@.len() ==> (#[trigger] passes@[p].view_grids()[c]).spec_width()
                    == pass_dims@[p]@[c].0 && passes@[p].view_grids()[c].spec_height() == pass_dims@[p]@[c].1,
            decreases pass_dims@.len() - i,
        {
            let pc = PerChannelNonZerosGrids::new(pass_dims[i])?;
            passes.push(pc);
            i = i + 1;
        }
        Ok(PerPassNonZerosGrids { passes })
    }

    /// `num_passes` passes of `num_channels` grids of the same shape.
    pub fn new_uniform(num_passes: u32, num_channels: u32, width: u32, height: u32) -> (r: Result<Self, JxlError>)
        ensures
            r is Ok <==> num_passes >= 1 && num_channels >= 1 && 1 <= width <= MAX_GRID_DIM && 1 <= height <= MAX_GRID_DIM,
            r matches Err(e) ==> e is InvalidData,
            r matches Ok(pp) ==> pp.wf() && pp.view_passes().len() == num_passes && forall|p: int| 0 <= p < num_passes
                ==> (#[trigger] pp.view_passes()[p]).view_grids().len() == num_channels,
    {
        if num_passes == 0 {
            return Err(invalid("per-pass grids: no pass"));
        }
        let mut passes: Vec<PerChannelNonZerosGrids> = Vec::new();
        let mut i: u32 = 0;
        while i < num_passes
            invariant
                i <= num_passes,
                passes@.len() == i,
                i > 0 ==> num_channels >= 1 && 1 <= width <= MAX_GRID_DIM && 1 <= height <= MAX_GRID_DIM,
                forall|p: int| 0 <= p < i ==> (#[trigger] passes@[p]).wf() && passes@[p].view_grids().len() == num_channels,
            decreases num_passes - i,
        {
            let pc = PerChannelNonZerosGrids::new_uniform(num_channels, width, height)?;
            passes.push(pc);
            i = i + 1;
        }
        Ok(PerPassNonZerosGrids { passes })
    }

    /// Number of passes.
    pub fn num_passes(&self) -> (r: u32)
        requires
            self.wf(),
        ensures
            r == self.view_passes().len(),
    {
        self.passes.len() as u32
    }

    /// Per-channel grids of pass `p`; fails for `p >= num_passes`.
    pub fn pass(&self, p: u32) -> (r: Result<&PerChannelNonZerosGrids, JxlError>)
        requires
            self.wf(),
        ensures
            r is Ok <==> p < self.view_passes().len(),
            r matches Ok(pc) ==> *pc == self.view_passes()[p as int] && pc.wf(),
            r matches Err(e) ==> e is InvalidData,
    {
        if (p as usize) < self.passes.len() {
            Ok(&self.passes[p as usize])
        } else {
            Err(invalid("per-pass grids: pass out of range"))
        }
    }

    /// The per-channel grids of pass `p`, to change in place; the
    /// container then holds them as the caller leaves them.
    pub fn pass_mut(&mut self, p: u32) -> (r: Result<&mut PerChannelNonZerosGrids, JxlError>)
        requires
            old(self).wf(),
        ensures
            r is Ok <==> p < old(self).view_passes().len(),
            r matches Ok(pc) ==> *pc == old(self).view_passes()[p as int]
                && final(self).view_passes() == old(self).view_passes().update(p as int, *final(pc)),
            r matches Err(e) ==> e is InvalidData && *final(self) == *old(self),
    {
        if (p as usize) < self.passes.len() {
            Ok(&mut self.passes[p as usize])
        } else {
            Err(invalid("per-pass grids: pass out of range"))
        }
    }

    /// `PredictedNonZeros(x, y)` in channel `c` of pass `p`.
    pub fn predicted(&self, p: u32, c: u32, x: u32, y: u32) -> (r: Result<u32, JxlError>)
        requires
            self.wf(),
        ensures
            r is Ok <==> p < self.view_passes().len() && c < self.view_passes()[p as int].view_grids().len()
                && self.view_passes()[p as int].view_grids()[c as int].inside(x as int, y as int),
            r matches Ok(v) ==> v == spec_predicted(x, y, self.view_passes()[p as int].view_grids()[c as int].cell(x as int, y - 1),
                self.view_passes()[p as int].view_grids()[c as int].cell(x - 1, y as int)),
            r matches Err(e) ==> e is InvalidData,
    {
        let pc = self.pass(p)?;
        pc.predicted(c, x, y)
    }

    /// `NonZeros(x, y)` in channel `c` of pass `p`.
    pub fn get(&self, p: u32, c: u32, x: u32, y: u32) -> (r: Result<u32, JxlError>)
        requires
            self.wf(),
        ensures
            r is Ok <==> p < self.view_passes().len() && c < self.view_passes()[p as int].view_grids().len()
                && self.view_passes()[p as int].view_grids()[c as int].inside(x as int, y as int),
            r matches Ok(v) ==> v == self.view_passes()[p as int].view_grids()[c as int].cell(x as int, y as int),
            r matches Err(e) ==> e is InvalidData,
    {
        let pc = self.pass(p)?;
        pc.get(c, x, y)
    }

    /// Store `NonZeros(x, y) = value` in channel `c` of pass `p`.
    pub fn set(&mut self, p: u32, c: u32, x: u32, y: u32, value: u32) -> (r: Result<(), JxlError>)
        requires
            old(self).wf(),
        ensures
            final(self).wf(),
            final(self).view_passes().len() == old(self).view_passes().len(),
            r is Ok <==> p < old(self).view_passes().len() && c < old(self).view_passes()[p as int].view_grids().len()
                && old(self).view_passes()[p as int].view_grids()[c as int].inside(x as int, y as int),
            forall|q: int| 0 <= q < old(self).view_passes().len() && q != p ==> #[trigger] final(self).view_passes()[q]
                == old(self).view_passes()[q],
            p < old(self).view_passes().len() && c < old(self).view_passes()[p as int].view_grids().len() ==> {
                let g0 = old(self).view_passes()[p as int].view_grids()[c as int];
                let g1 = final(self).view_passes()[p as int].view_grids()[c as int];
                &&& final(self).view_passes()[p as int].view_grids().len() == old(self).view_passes()[p as int].view_grids().len()
                &&& g1.spec_width() == g0.spec_width() && g1.spec_height() == g0.spec_height()
                &&& r is Ok ==> g1.view_cells() == g0.view_cells().update(y * g0.spec_width() + x, value)
                &&& r is Err ==> g1.view_cells() == g0.view_cells()
            },
            r matches Err(e) ==> e is InvalidData,
    {
        if (p as usize) >= self.passes.len() {
            return Err(invalid("per-pass grids: pass out of range"));
        }
        let ghost before = self.passes@;
        let mut pc = self.passes.remove(p as usize);
        let r = pc.set(c, x, y, value);
        self.passes.insert(p as usize, pc);
        proof {
            assert forall|q: int| 0 <= q < self.passes@.len() implies (#[trigger] self.passes@[q]).wf() by {
                if q != p {
                    assert(self.passes@[q] == before[q]);
                }
            }
            assert forall|q: int| 0 <= q < before.len() && q != p implies #[trigger] self.passes@[q] == before[q] by {}
        }
        r
    }

    /// `NonZeros(x, y) = (non_zeros + num_blocks - 1) Idiv num_blocks` in
    /// channel `c` of pass `p`.
    pub fn update_after_block(&mut self, p: u32, c: u32, x: u32, y: u32, non_zeros: u32, num_blocks: u32) -> (r: Result<u32, JxlError>)
        requires
            old(self).wf(),
        ensures
            final(self).wf(),
            final(self).view_passes().len() == old(self).view_passes().len(),
            r is Ok <==> p < old(self).view_passes().len() && c < old(self).view_passes()[p as int].view_grids().len()
                && num_blocks >= 1 && old(self).view_passes()[p as int].view_grids()[c as int].inside(x as int, y as int),
            forall|q: int| 0 <= q < old(self).view_passes().len() && q != p ==> #[trigger] final(self).view_passes()[q]
                == old(self).view_passes()[q],
            r matches Ok(v) ==> {
                let g0 = old(self).view_passes()[p as int].view_grids()[c as int];
                let g1 = final(self).view_passes()[p as int].view_grids()[c as int];
                &&& v == spec_ceil_div(non_zeros, num_blocks)
                &&& g1.view_cells() == g0.view_cells().update(y * g0.spec_width() + x, v)
            },
            r matches Err(e) ==> e is InvalidData,
    {
        if (p as usize) >= self.passes.len() {
            return Err(invalid("per-pass grids: pass out of range"));
        }
        let ghost before = self.passes@;
        let mut pc = self.passes.remove(p as usize);
        let r = pc.update_after_block(c, x, y, non_zeros, num_blocks);
        self.passes.insert(p as usize, pc);
        proof {
            assert forall|q: int| 0 <= q < self.passes@.len() implies (#[trigger] self.passes@[q]).wf() by {
                if q != p {
                    assert(self.passes@[q] == before[q]);
                }
            }
            assert forall|q: int| 0 <= q < before.len() && q != p implies #[trigger] self.passes@[q] == before[q] by {}
        }
        r
    }

    /// Store the transform's `NonZeros` over its footprint at `(x, y)` in
    /// channel `c` of pass `p`.
    pub fn update_after_block_for_transform(&mut self, p: u32, c: u32, x: u32, y: u32, non_zeros: u32, t: TransformType) -> (r: Result<u32, JxlError>)
        requires
            old(self).wf(),
        ensures
            final(self).wf(),
            final(self).view_passes().len() == old(self).view_passes().len(),
            r is Ok <==> p < old(self).view_passes().len() && c < old(self).view_passes()[p as int].view_grids().len()
                && x + spec_block_dims(t).0 <= old(self).view_passes()[p as int].view_grids()[c as int].spec_width()
                && y + spec_block_dims(t).1 <= old(self).view_passes()[p as int].view_grids()[c as int].spec_height(),
            forall|q: int| 0 <= q < old(self).view_passes().len() && q != p ==> #[trigger] final(self).view_passes()[q]
                == old(self).view_passes()[q],
            r matches Ok(v) ==> {
                let g0 = old(self).view_passes()[p as int].view_grids()[c as int];
                let g1 = final(self).view_passes()[p as int].view_grids()[c as int];
                &&& v == spec_ceil_div(non_zeros, spec_block_params(t).0)
                &&& forall|xx: int, yy: int| g0.inside(xx, yy) ==> #[trigger] g1.cell(xx, yy) == if x <= xx < x
                    + spec_block_dims(t).0 && y <= yy < y + spec_block_dims(t).1 { v } else { g0.cell(xx, yy) }
            },
            r matches Err(e) ==> e is InvalidData,
    {
        if (p as usize) >= self.passes.len() {
            return Err(invalid("per-pass grids: pass out of range"));
        }
        let ghost before = self.passes@;
        let mut pc = self.passes.remove(p as usize);
        let r = pc.update_after_block_for_transform(c, x, y, non_zeros, t);
        self.passes.insert(p as usize, pc);
        proof {
            assert forall|q: int| 0 <= q < self.passes@.len() implies (#[trigger] self.passes@[q]).wf() by {
                if q != p {
                    assert(self.passes@[q] == before[q]);
                }
            }
            assert forall|q: int| 0 <= q < before.len() && q != p implies #[trigger] self.passes@[q] == before[q] by {}
        }
        r
    }

    /// [`crate::non_zeros_grid::decode_block_at`] on channel `c` of pass
    /// `p`.
    pub fn decode_block_at_for_pass_channel<F: FnMut(u32) -> Result<u32, JxlError>, G: FnMut(u32) -> Result<u32, JxlError>>(
        &mut self,
        p: u32,
        c: u32,
        x: u32,
        y: u32,
        t: TransformType,
        natural_order: &[u32],
        block_ctx: u32,
        nb_block_ctx: u32,
        read_non_zeros: F,
        decode_symbol: G,
    ) -> (r: Result<(DecodedHfBlock, u32), JxlError>)
        requires
            old(self).wf(),
            block_ctx + nb_block_ctx * 36 <= u32::MAX,
            forall|ctx: u32| call_requires(read_non_zeros, (ctx,)),
            forall|ctx: u32| call_requires(decode_symbol, (ctx,)),
        ensures
            final(self).wf(),
            final(self).view_passes().len() == old(self).view_passes().len(),
            p >= old(self).view_passes().len() ==> (r matches Err(e) && e is InvalidData),
            forall|q: int| 0 <= q < old(self).view_passes().len() && q != p ==> #[trigger] final(self).view_passes()[q]
                == old(self).view_passes()[q],
    {
        if (p as usize) >= self.passes.len() {
            return Err(invalid("per-pass grids: pass out of range"));
        }
        let ghost before = self.passes@;
        let mut pc = self.passes.remove(p as usize);
        let r = pc.decode_block_at_for_channel(c, x, y, t, natural_order, block_ctx, nb_block_ctx, read_non_zeros, decode_symbol);
        self.passes.insert(p as usize, pc);
        proof {
            assert forall|q: int| 0 <= q < self.passes@.len() implies (#[trigger] self.passes@[q]).wf() by {
                if q != p {
                    assert(self.passes@[q] == before[q]);
                }
            }
            assert forall|q: int| 0 <= q < before.len() && q != p implies #[trigger] self.passes@[q] == before[q] by {}
        }
        r
    }
}

} // verus!
