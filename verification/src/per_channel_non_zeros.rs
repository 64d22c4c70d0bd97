//! One [`NonZerosGrid`] per channel of a pass group, each with its own
//! shape (chroma may be subsampled).
use vstd::prelude::*;
use crate::error::{JxlError, invalid};
use crate::non_zeros_grid::{NonZerosGrid, MAX_GRID_DIM, spec_ceil_div, decode_block_at};
use crate::pass_group_hf::{DecodedHfBlock, spec_predicted, spec_block_params};
use crate::transform::{TransformType, spec_block_dims};

verus! {

/// Channel count of a VarDCT frame (three colour channels).
pub const DEFAULT_NUM_CHANNELS: u32 = 3;

/// The `NonZeros` grids of the channels of a pass group, channel `c` at
/// index `c`.
#[derive(Debug, Clone)]
pub struct PerChannelNonZerosGrids {
    grids: Vec<NonZerosGrid>,
}

impl PerChannelNonZerosGrids {
    /// The grids.
    pub closed spec fn view_grids(&self) -> Seq<NonZerosGrid> {
        self.grids@
    }

    /// At least one grid, fewer than `2^32`, each well formed.
    pub closed spec fn wf(&self) -> bool {
        &&& 1 <= self.grids@.len() <= u32::MAX
        &&& forall|c: int| 0 <= c < self.grids@.len() ==> (#[trigger] self.grids@[c]).wf()
    }

    /// One grid per `(width, height)` of `dims`; fails for an empty list
    /// or a side outside `[1, 65535]`.
    pub fn new(dims: &[(u32, u32)]) -> (r: Result<Self, JxlError>)
        ensures
            r is Ok <==> 1 <= dims@.len() <= u32::MAX && forall|c: int| 0 <= c < dims@.len() ==> 1 <= (#[trigger] dims@[c]).0
                <= MAX_GRID_DIM && 1 <= dims@[c].1 <= MAX_GRID_DIM,
            r matches Err(e) ==> e is InvalidData,
            r matches Ok(p) ==> p.wf() && p.view_grids().len() == dims@.len() && forall|c: int| 0 <= c < dims@.len()
                ==> (#[trigger] p.view_grids()[c]).spec_width() == dims@[c].0 && p.view_grids()[c].spec_height() == dims@[c].1
                && p.view_grids()[c].view_cells() == Seq::new((dims@[c].0 * dims@[c].1) as nat, |i: int| 0u32),
    {
        if dims.len() == 0 {
            return Err(invalid("per-channel grids: no channel"));
        }
        if dims.len() > u32::MAX as usize {
            return Err(invalid("per-channel grids: too many channels"));
        }
        let mut grids: Vec<NonZerosGrid> = Vec::new();
        let mut i: usize = 0;
        while i < dims.len()
            invariant
                i <= dims@.len(),
                grids@.len() == i,
                forall|c: int| 0 <= c < i ==> 1 <= (#[trigger] dims@[c]).0 <= MAX_GRID_DIM && 1 <= dims@[c].1 <= MAX_GRID_DIM,
                forall|c: int| 0 <= c < i ==> (#[trigger] grids@[c]).wf() && grids@[c].spec_width() == dims@[c].0
                    && grids@[c].spec_height() == dims@[c].1
                    && grids@[c].view_cells() == Seq::new((dims@[c].0 * dims@[c].1) as nat, |k: int| 0u32),
            decreases dims@.len() - i,
        {
            let (w, h) = dims[i];
            let g = NonZerosGrid::new(w, h)?;
            grids.push(g);
            i = i + 1;
        }
        Ok(PerChannelNonZerosGrids { grids })
    }

    /// `num_channels` grids of the same shape; fails for no channel or a
    /// side outside `[1, 65535]`.
    pub fn new_uniform(num_channels: u32, width: u32, height: u32) -> (r: Result<Self, JxlError>)
        ensures
            r is Ok <==> num_channels >= 1 && 1 <= width <= MAX_GRID_DIM && 1 <= height <= MAX_GRID_DIM,
            r matches Err(e) ==> e is InvalidData,
            r matches Ok(p) ==> p.wf() && p.view_grids().len() == num_channels && forall|c: int| 0 <= c < num_channels
                ==> (#[trigger] p.view_grids()[c]).spec_width() == width && p.view_grids()[c].spec_height() == height,
    {
        if num_channels == 0 {
            return Err(invalid("per-channel grids: no channel"));
        }
        let mut dims: Vec<(u32, u32)> = Vec::new();
        let mut i: u32 = 0;
        while i < num_channels
            invariant
                i <= num_channels,
                dims@.len() == i,
                forall|c: int| 0 <= c < i ==> #[trigger] dims@[c] == (width, height),
            decreases num_channels - i,
        {
            dims.push((width, height));
            i = i + 1;
        }
        let r = Self::new(dims.as_slice());
        proof {
            if !(1 <= width <= MAX_GRID_DIM && 1 <= height <= MAX_GRID_DIM) {
                assert(dims@[0] == (width, height));
            }
        }
        r
    }

    /// Number of channels.
    pub fn num_channels(&self) -> (r: u32)
        requires
            self.wf(),
        ensures
            r == self.view_grids().len(),
    {
        self.grids.len() as u32
    }

    /// Grid of channel `c`; fails for `c >= num_channels`.
    pub fn grid(&self, c: u32) -> (r: Result<&NonZerosGrid, JxlError>)
        requires
            self.wf(),
        ensures
            r is Ok <==> c < self.view_grids().len(),
            r matches Ok(g) ==> *g == self.view_grids()[c as int] && g.wf(),
            r matches Err(e) ==> e is InvalidData,
    {
        if (c as usize) < self.grids.len() {
            Ok(&self.grids[c as usize])
        } else {
            Err(invalid("per-channel grids: channel out of range"))
        }
    }

    /// The grid of channel `c`, to change in place; the container then
    /// holds the grid as the caller leaves it.
    pub fn grid_mut(&mut self, c: u32) -> (r: Result<&mut NonZerosGrid, JxlError>)
        requires
            old(self).wf(),
        ensures
            r is Ok <==> c < old(self).view_grids().len(),
            r matches Ok(g) ==> *g == old(self).view_grids()[c as int]
                && final(self).view_grids() == old(self).view_grids().update(c as int, *final(g)),
            r matches Err(e) ==> e is InvalidData && *final(self) == *old(self),
    {
        if (c as usize) < self.grids.len() {
            Ok(&mut self.grids[c as usize])
        } else {
            Err(invalid("per-channel grids: channel out of range"))
        }
    }

    /// `PredictedNonZeros(x, y)` in channel `c`.
    pub fn predicted(&self, c: u32, x: u32, y: u32) -> (r: Result<u32, JxlError>)
        requires
            self.wf(),
        ensures
            r is Ok <==> c < self.view_grids().len() && self.view_grids()[c as int].inside(x as int, y as int),
            r matches Ok(v) ==> v == spec_predicted(x, y, self.view_grids()[c as int].cell(x as int, y - 1),
                self.view_grids()[c as int].cell(x - 1, y as int)),
            r matches Err(e) ==> e is InvalidData,
    {
        let g = self.grid(c)?;
        g.predicted(x, y)
    }

    /// `NonZeros(x, y)` in channel `c`.
    pub fn get(&self, c: u32, x: u32, y: u32) -> (r: Result<u32, JxlError>)
        requires
            self.wf(),
        ensures
            r is Ok <==> c < self.view_grids().len() && self.view_grids()[c as int].inside(x as int, y as int),
            r matches Ok(v) ==> v == self.view_grids()[c as int].cell(x as int, y as int),
            r matches Err(e) ==> e is InvalidData,
    {
        let g = self.grid(c)?;
        g.get(x, y)
    }

    /// Store `NonZeros(x, y) = value` in channel `c`.
    pub fn set(&mut self, c: u32, x: u32, y: u32, value: u32) -> (r: Result<(), JxlError>)
        requires
            old(self).wf(),
        ensures
            final(self).wf(),
            final(self).view_grids().len() == old(self).view_grids().len(),
            r is Ok <==> c < old(self).view_grids().len() && old(self).view_grids()[c as int].inside(x as int, y as int),
            forall|d: int| 0 <= d < old(self).view_grids().len() && d != c ==> #[trigger] final(self).view_grids()[d]
                == old(self).view_grids()[d],
            c < old(self).view_grids().len() ==> {
                let g0 = old(self).view_grids()[c as int];
                let g1 = final(self).view_grids()[c as int];
                &&& g1.spec_width() == g0.spec_width() && g1.spec_height() == g0.spec_height()
                &&& r is Ok ==> g1.view_cells() == g0.view_cells().update(y * g0.spec_width() + x, value)
                &&& r is Err ==> g1.view_cells() == g0.view_cells()
            },
            r matches Err(e) ==> e is InvalidData,
    {
        if (c as usize) >= self.grids.len() {
            return Err(invalid("per-channel grids: channel out of range"));
        }
        let mut g = self.grids[c as usize].clone_grid();
        let r = g.set(x, y, value);
        self.grids.set(c as usize, g);
        proof {
            assert forall|d: int| 0 <= d < self.grids@.len() implies (#[trigger] self.grids@[d]).wf() by {
                if d != c {
                    assert(self.grids@[d] == old(self).grids@[d]);
                }
            }
        }
        r
    }

    /// `NonZeros(x, y) = (non_zeros + num_blocks - 1) Idiv num_blocks` in
    /// channel `c`.
    pub fn update_after_block(&mut self, c: u32, x: u32, y: u32, non_zeros: u32, num_blocks: u32) -> (r: Result<u32, JxlError>)
        requires
            old(self).wf(),
        ensures
            final(self).wf(),
            final(self).view_grids().len() == old(self).view_grids().len(),
            r is Ok <==> c < old(self).view_grids().len() && num_blocks >= 1 && old(self).view_grids()[c as int].inside(x as int, y as int),
            forall|d: int| 0 <= d < old(self).view_grids().len() && d != c ==> #[trigger] final(self).view_grids()[d]
                == old(self).view_grids()[d],
            r matches Ok(v) ==> {
                let g0 = old(self).view_grids()[c as int];
                let g1 = final(self).view_grids()[c as int];
                &&& v == spec_ceil_div(non_zeros, num_blocks)
                &&& g1.spec_width() == g0.spec_width() && g1.spec_height() == g0.spec_height()
                &&& g1.view_cells() == g0.view_cells().update(y * g0.spec_width() + x, v)
            },
            r matches Err(e) ==> e is InvalidData,
    {
        if (c as usize) >= self.grids.len() {
            return Err(invalid("per-channel grids: channel out of range"));
        }
        let mut g = self.grids[c as usize].clone_grid();
        let r = g.update_after_block(x, y, non_zeros, num_blocks);
        self.grids.set(c as usize, g);
        proof {
            assert forall|d: int| 0 <= d < self.grids@.len() implies (#[trigger] self.grids@[d]).wf() by {
                if d != c {
                    assert(self.grids@[d] == old(self).grids@[d]);
                }
            }
        }
        r
    }

    /// Store the transform's `NonZeros` over its footprint at `(x, y)` in
    /// channel `c`.
    pub fn update_after_block_for_transform(&mut self, c: u32, x: u32, y: u32, non_zeros: u32, t: TransformType) -> (r: Result<u32, JxlError>)
        requires
            old(self).wf(),
        ensures
            final(self).wf(),
            final(self).view_grids().len() == old(self).view_grids().len(),
            r is Ok <==> c < old(self).view_grids().len() && x + spec_block_dims(t).0 <= old(self).view_grids()[c as int].spec_width()
                && y + spec_block_dims(t).1 <= old(self).view_grids()[c as int].spec_height(),
            forall|d: int| 0 <= d < old(self).view_grids().len() && d != c ==> #[trigger] final(self).view_grids()[d]
                == old(self).view_grids()[d],
            r matches Ok(v) ==> {
                let g0 = old(self).view_grids()[c as int];
                let g1 = final(self).view_grids()[c as int];
                &&& v == spec_ceil_div(non_zeros, spec_block_params(t).0)
                &&& g1.spec_width() == g0.spec_width() && g1.spec_height() == g0.spec_height()
                &&& forall|xx: int, yy: int| g0.inside(xx, yy) ==> #[trigger] g1.cell(xx, yy) == if x <= xx < x
                    + spec_block_dims(t).0 && y <= yy < y + spec_block_dims(t).1 { v } else { g0.cell(xx, yy) }
            },
            r matches Err(e) ==> e is InvalidData,
    {
        if (c as usize) >= self.grids.len() {
            return Err(invalid("per-channel grids: channel out of range"));
        }
        let mut g = self.grids[c as usize].clone_grid();
        let r = g.update_after_block_for_transform(x, y, non_zeros, t);
        self.grids.set(c as usize, g);
        proof {
            assert forall|d: int| 0 <= d < self.grids@.len() implies (#[trigger] self.grids@[d]).wf() by {
                if d != c {
                    assert(self.grids@[d] == old(self).grids@[d]);
                }
            }
        }
        r
    }

    /// [`decode_block_at`] on the grid of channel `c`.
    pub fn decode_block_at_for_channel<F: FnMut(u32) -> Result<u32, JxlError>, G: FnMut(u32) -> Result<u32, JxlError>>(
        &mut self,
        c: u32,
        x: u32,
        y: u32,
        t: TransformType,
        natural_order: &[u32],
        block_ctx: u32,
        nb_block_ctx: u32,
        read_non_zeros: F,
        decode_symbol: G,
    ) -> (r: Result<(DecodedHfBlock, u32), JxlError>)
        requires
            old(self).wf(),
            block_ctx + nb_block_ctx * 36 <= u32::MAX,
            forall|ctx: u32| call_requires(read_non_zeros, (ctx,)),
            forall|ctx: u32| call_requires(decode_symbol, (ctx,)),
        ensures
            final(self).wf(),
            final(self).view_grids().len() == old(self).view_grids().len(),
            c >= old(self).view_grids().len() ==> (r matches Err(e) && e is InvalidData),
            forall|d: int| 0 <= d < old(self).view_grids().len() && d != c ==> #[trigger] final(self).view_grids()[d]
                == old(self).view_grids()[d],
    {
        if (c as usize) >= self.grids.len() {
            return Err(invalid("per-channel grids: channel out of range"));
        }
        let mut g = self.grids[c as usize].clone_grid();
        let r = decode_block_at(&mut g, x, y, t, natural_order, block_ctx, nb_block_ctx, read_non_zeros, decode_symbol);
        self.grids.set(c as usize, g);
        proof {
            assert forall|d: int| 0 <= d < self.grids@.len() implies (#[trigger] self.grids@[d]).wf() by {
                if d != c {
                    assert(self.grids@[d] == old(self).grids@[d]);
                }
            }
        }
        r
    }
}

} // verus!
