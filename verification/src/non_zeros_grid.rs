//! `NonZeros(x, y)` storage of one channel of a pass group (C.8.3): the
//! per-varblock non-zero counts `PredictedNonZeros` reads and the block
//! decode updates.
use vstd::prelude::*;
use crate::error::{JxlError, invalid};
use crate::pass_group_hf::{
    DecodedHfBlock, block_outcome, block_params_ok, predicted_non_zeros, read_non_zeros_and_decode_block,
    spec_block_params, spec_non_zeros_context, spec_predicted, transform_block_params,
};
use crate::transform::{TransformType, spec_block_dims};

verus! {

/// Largest grid side.
pub const MAX_GRID_DIM: u32 = 65535;

/// `NonZeros(x, y)` of a `width × height` grid of varblock positions (in
/// 8×8 blocks), row-major.
#[derive(Debug, Clone)]
pub struct NonZerosGrid {
    width: u32,
    height: u32,
    cells: Vec<u32>,
}

/// `(non_zeros + num_blocks - 1) Idiv num_blocks` with the sum saturated
/// at `u32::MAX`.
pub open spec fn spec_ceil_div(non_zeros: u32, num_blocks: u32) -> u32 {
    let s = if non_zeros + num_blocks - 1 > u32::MAX { u32::MAX as int } else { non_zeros + num_blocks - 1 };
    (s / (num_blocks as int)) as u32
}

/// Without saturation, `spec_ceil_div` is the least multiple count
/// covering `non_zeros`: `r * num_blocks >= non_zeros > (r - 1) * num_blocks`.
pub proof fn law_ceil_div_least_cover(non_zeros: u32, num_blocks: u32)
    requires
        num_blocks >= 1,
        non_zeros + num_blocks - 1 <= u32::MAX,
    ensures
        spec_ceil_div(non_zeros, num_blocks) * num_blocks >= non_zeros,
        (spec_ceil_div(non_zeros, num_blocks) - 1) * num_blocks < non_zeros || non_zeros == 0,
{
    let s = non_zeros + num_blocks - 1;
    let r = s / (num_blocks as int);
    assert(r * num_blocks <= s < r * num_blocks + num_blocks) by (nonlinear_arith)
        requires num_blocks >= 1, s >= 0, r == s / (num_blocks as int);
    assert(0 <= r <= s) by (nonlinear_arith)
        requires num_blocks >= 1, s >= 0, r == s / (num_blocks as int);
    assert((r - 1) * num_blocks == r * num_blocks - num_blocks) by (nonlinear_arith);
}

impl NonZerosGrid {
    /// Grid width.
    pub closed spec fn spec_width(&self) -> u32 {
        self.width
    }

    /// Grid height.
    pub closed spec fn spec_height(&self) -> u32 {
        self.height
    }

    /// The cells, row-major.
    pub closed spec fn view_cells(&self) -> Seq<u32> {
        self.cells@
    }

    /// Both sides in `[1, 65535]` and one cell per position.
    pub closed spec fn wf(&self) -> bool {
        &&& 1 <= self.width <= MAX_GRID_DIM
        &&& 1 <= self.height <= MAX_GRID_DIM
        &&& self.cells@.len() == self.width * self.height
    }

    /// `NonZeros(x, y)`.
    pub open spec fn cell(&self, x: int, y: int) -> u32 {
        self.view_cells()[y * self.spec_width() + x]
    }

    /// `(x, y)` lies inside the grid.
    pub open spec fn inside(&self, x: int, y: int) -> bool {
        0 <= x < self.spec_width() && 0 <= y < self.spec_height()
    }

    /// Writing `v` at `(x, y)` changes that cell to `v` and no other:
    /// reading `(x2, y2)` afterwards gives `v` there and the old cell
    /// elsewhere.
    pub proof fn law_set_then_get(&self, x: int, y: int, v: u32, x2: int, y2: int)
        requires
            self.wf(),
            self.inside(x, y),
            self.inside(x2, y2),
        ensures
            ({
                let after = self.view_cells().update(y * self.spec_width() + x, v);
                after[y2 * self.spec_width() + x2] == if x2 == x && y2 == y { v } else { self.cell(x2, y2) }
            }),
    {
        self.lemma_cell_index(x, y);
        self.lemma_cell_index(x2, y2);
        if !(x2 == x && y2 == y) {
            assert(y2 * self.spec_width() + x2 != y * self.spec_width() + x) by (nonlinear_arith)
                requires 0 <= x < self.spec_width(), 0 <= x2 < self.spec_width(), 0 <= y, 0 <= y2, !(x2 == x && y2 == y);
        }
    }

    /// Positions inside a well-formed grid have cells.
    pub proof fn lemma_cell_index(&self, x: int, y: int)
        requires
            self.wf(),
            self.inside(x, y),
        ensures
            0 <= y * self.spec_width() + x < self.view_cells().len(),
            self.view_cells().len() == self.spec_width() * self.spec_height(),
    {
        crate::modular::lemma_index_bounds(self.width as int, self.height as int, x, y);
    }

    /// A `width × height` grid of zeros; both sides must be in
    /// `[1, 65535]`.
    pub fn new(width: u32, height: u32) -> (r: Result<Self, JxlError>)
        ensures
            r is Ok <==> 1 <= width <= MAX_GRID_DIM && 1 <= height <= MAX_GRID_DIM,
            r matches Err(e) ==> e is InvalidData,
            r matches Ok(g) ==> g.wf() && g.spec_width() == width && g.spec_height() == height
                && g.view_cells() == Seq::new((width * height) as nat, |i: int| 0u32),
    {
        if width == 0 || height == 0 {
            return Err(invalid("NonZeros grid: zero side"));
        }
        if width > MAX_GRID_DIM || height > MAX_GRID_DIM {
            return Err(invalid("NonZeros grid: side above 65535"));
        }
        proof {
            assert(width * height <= 65535 * 65535) by (nonlinear_arith)
                requires width <= 65535, height <= 65535;
        }
        let total: usize = (width as usize) * (height as usize);
        let mut cells: Vec<u32> = Vec::new();
        let mut i: usize = 0;
        while i < total
            invariant
                i <= total,
                cells@ == Seq::new(i as nat, |k: int| 0u32),
            decreases total - i,
        {
            cells.push(0);
            i = i + 1;
        }
        Ok(NonZerosGrid { width, height, cells })
    }

    /// Grid width in varblock positions.
    pub fn width(&self) -> (r: u32)
        ensures
            r == self.spec_width(),
    {
        self.width
    }

    /// Grid height in varblock positions.
    pub fn height(&self) -> (r: u32)
        ensures
            r == self.spec_height(),
    {
        self.height
    }

    /// Row-major index of `(x, y)`, `None` outside the grid.
    fn index(&self, x: u32, y: u32) -> (r: Option<usize>)
        requires
            self.wf(),
        ensures
            r is Some <==> self.inside(x as int, y as int),
            r matches Some(i) ==> i == y * self.spec_width() + x && i < self.view_cells().len(),
    {
        if x >= self.width || y >= self.height {
            return None;
        }
        proof {
            self.lemma_cell_index(x as int, y as int);
            assert(self.spec_width() * self.spec_height() <= 65535 * 65535) by (nonlinear_arith)
                requires self.spec_width() <= 65535, self.spec_height() <= 65535;
            assert(y * self.spec_width() <= y * self.spec_width() + x);
        }
        Some((y as usize) * (self.width as usize) + (x as usize))
    }

    /// `NonZeros(x, y)`; fails outside the grid.
    pub fn get(&self, x: u32, y: u32) -> (r: Result<u32, JxlError>)
        requires
            self.wf(),
        ensures
            r is Ok <==> self.inside(x as int, y as int),
            r matches Ok(v) ==> v == self.cell(x as int, y as int),
            r matches Err(e) ==> e is InvalidData,
    {
        match self.index(x, y) {
            Some(i) => Ok(self.cells[i]),
            None => Err(invalid("NonZeros grid: position outside the grid")),
        }
    }

    /// Store `NonZeros(x, y) = value`; fails outside the grid, leaving it
    /// unchanged.
    pub fn set(&mut self, x: u32, y: u32, value: u32) -> (r: Result<(), JxlError>)
        requires
            old(self).wf(),
        ensures
            final(self).wf(),
            final(self).spec_width() == old(self).spec_width(),
            final(self).spec_height() == old(self).spec_height(),
            r is Ok <==> old(self).inside(x as int, y as int),
            r is Ok ==> final(self).view_cells() == old(self).view_cells().update(y * old(self).spec_width() + x, value),
            r is Err ==> final(self).view_cells() == old(self).view_cells(),
            r matches Err(e) ==> e is InvalidData,
    {
        match self.index(x, y) {
            Some(i) => {
                self.cells.set(i, value);
                Ok(())
            },
            None => Err(invalid("NonZeros grid: position outside the grid")),
        }
    }

    /// `PredictedNonZeros(x, y)` from the grid's cells; fails outside the
    /// grid.
    pub fn predicted(&self, x: u32, y: u32) -> (r: Result<u32, JxlError>)
        requires
            self.wf(),
        ensures
            r is Ok <==> self.inside(x as int, y as int),
            r matches Ok(v) ==> v == spec_predicted(x, y, self.cell(x as int, y - 1), self.cell(x - 1, y as int)),
            r matches Err(e) ==> e is InvalidData,
    {
        if x >= self.width || y >= self.height {
            return Err(invalid("NonZeros grid: prediction outside the grid"));
        }
        let up = if y > 0 { self.get(x, y - 1) } else { Ok(0) };
        let left = if x > 0 { self.get(x - 1, y) } else { Ok(0) };
        let f = |xx: u32, yy: u32| -> (v: u32)
            ensures
                (xx == x && y > 0 && yy == y - 1) ==> v == self.cell(x as int, y - 1),
                (x > 0 && xx == x - 1 && yy == y) ==> v == self.cell(x - 1, y as int),
        {
            if xx == x && y > 0 && yy == y - 1 {
                match up {
                    Ok(v) => v,
                    Err(_) => 0,
                }
            } else if x > 0 && xx == x - 1 && yy == y {
                match left {
                    Ok(v) => v,
                    Err(_) => 0,
                }
            } else {
                0
            }
        };
        Ok(predicted_non_zeros(x, y, f))
    }

    /// `NonZeros(x, y) = (non_zeros + num_blocks - 1) Idiv num_blocks`
    /// (the sum saturating); returns the stored value. Fails for
    /// `num_blocks == 0` or outside the grid, leaving it unchanged.
    pub fn update_after_block(&mut self, x: u32, y: u32, non_zeros: u32, num_blocks: u32) -> (r: Result<u32, JxlError>)
        requires
            old(self).wf(),
        ensures
            final(self).wf(),
            final(self).spec_width() == old(self).spec_width(),
            final(self).spec_height() == old(self).spec_height(),
            r is Ok <==> num_blocks >= 1 && old(self).inside(x as int, y as int),
            r matches Ok(v) ==> v == spec_ceil_div(non_zeros, num_blocks)
                && final(self).view_cells() == old(self).view_cells().update(y * old(self).spec_width() + x, v),
            r is Err ==> final(self).view_cells() == old(self).view_cells(),
            r matches Err(e) ==> e is InvalidData,
    {
        if num_blocks == 0 {
            return Err(invalid("NonZeros grid: no block"));
        }
        let updated = ceil_div_sat(non_zeros, num_blocks);
        self.set(x, y, updated)?;
        Ok(updated)
    }

    /// Store `(non_zeros + num_blocks - 1) Idiv num_blocks`, with
    /// `num_blocks` the transform's block count, in every cell of the
    /// varblock's footprint at `(x, y)`; returns the stored value. Fails
    /// when the footprint leaves the grid (cells inside it may then have
    /// been written).
    pub fn update_after_block_for_transform(&mut self, x: u32, y: u32, non_zeros: u32, t: TransformType) -> (r: Result<u32, JxlError>)
        requires
            old(self).wf(),
        ensures
            final(self).wf(),
            final(self).spec_width() == old(self).spec_width(),
            final(self).spec_height() == old(self).spec_height(),
            r is Ok <==> x + spec_block_dims(t).0 <= old(self).spec_width() && y + spec_block_dims(t).1 <= old(self).spec_height(),
            r matches Ok(v) ==> {
                &&& v == spec_ceil_div(non_zeros, spec_block_params(t).0)
                &&& forall|xx: int, yy: int| old(self).inside(xx, yy) ==> #[trigger] final(self).cell(xx, yy) == if x <= xx
                    < x + spec_block_dims(t).0 && y <= yy < y + spec_block_dims(t).1 { v } else { old(self).cell(xx, yy) }
            },
            r matches Err(e) ==> e is InvalidData,
    {
        let (num_blocks, _size) = transform_block_params(t);
        if num_blocks == 0 {
            return Err(invalid("NonZeros grid: no block"));
        }
        let updated = ceil_div_sat(non_zeros, num_blocks);
        let (bcols, brows) = t.block_dims();
        if (x as u64) + (bcols as u64) > (self.width as u64) || (y as u64) + (brows as u64) > (self.height as u64) {
            let mut j: u32 = 0;
            while j < brows
                invariant
                    self.wf(),
                    self.spec_width() == old(self).spec_width(),
                    self.spec_height() == old(self).spec_height(),
                    bcols == spec_block_dims(t).0 && brows == spec_block_dims(t).1,
                    !(x + bcols <= old(self).spec_width() && y + brows <= old(self).spec_height()),
                decreases brows - j,
            {
                let mut i: u32 = 0;
                while i < bcols
                    invariant
                        self.wf(),
                        self.spec_width() == old(self).spec_width(),
                        self.spec_height() == old(self).spec_height(),
                        bcols == spec_block_dims(t).0 && brows == spec_block_dims(t).1,
                        !(x + bcols <= old(self).spec_width() && y + brows <= old(self).spec_height()),
                    decreases bcols - i,
                {
                    if (x as u64) + (i as u64) >= (self.width as u64) || (y as u64) + (j as u64) >= (self.height as u64) {
                        return Err(invalid("NonZeros grid: varblock footprint outside the grid"));
                    }
                    let _ = self.set(x + i, y + j, updated);
                    i = i + 1;
                }
                j = j + 1;
            }
            return Err(invalid("NonZeros grid: varblock footprint outside the grid"));
        }
        let ghost g0 = *self;
        let mut j: u32 = 0;
        while j < brows
            invariant
                self.wf(),
                g0.wf(),
                g0 == *old(self),
                self.spec_width() == g0.spec_width(),
                self.spec_height() == g0.spec_height(),
                x + bcols <= g0.spec_width(),
                y + brows <= g0.spec_height(),
                j <= brows,
                forall|xx: int, yy: int| g0.inside(xx, yy) ==> #[trigger] self.cell(xx, yy) == if x <= xx < x + bcols
                    && y <= yy < y + j { updated } else { g0.cell(xx, yy) },
            decreases brows - j,
        {
            let mut i: u32 = 0;
            while i < bcols
                invariant
                    self.wf(),
                    g0.wf(),
                    self.spec_width() == g0.spec_width(),
                    self.spec_height() == g0.spec_height(),
                    x + bcols <= g0.spec_width(),
                    y + brows <= g0.spec_height(),
                    j < brows,
                    i <= bcols,
                    forall|xx: int, yy: int| g0.inside(xx, yy) ==> #[trigger] self.cell(xx, yy) == if (x <= xx < x + bcols
                        && y <= yy < y + j) || (x <= xx < x + i && yy == y + j) { updated } else { g0.cell(xx, yy) },
                decreases bcols - i,
            {
                let ghost before = *self;
                let _ = self.set(x + i, y + j, updated);
                proof {
                    assert forall|xx: int, yy: int| g0.inside(xx, yy) implies #[trigger] self.cell(xx, yy) == if (x <= xx
                        < x + bcols && y <= yy < y + j) || (x <= xx < x + i + 1 && yy == y + j) { updated } else {
                        g0.cell(xx, yy) } by {
                        g0.lemma_cell_index(xx, yy);
                        g0.lemma_cell_index((x + i) as int, (y + j) as int);
                        assert(before.cell(xx, yy) == if (x <= xx < x + bcols && y <= yy < y + j) || (x <= xx < x + i
                            && yy == y + j) { updated } else { g0.cell(xx, yy) });
                        if xx != x + i || yy != y + j {
                            lemma_distinct_index(g0.spec_width() as int, xx, yy, (x + i) as int, (y + j) as int);
                        }
                    }
                }
                i = i + 1;
            }
            j = j + 1;
        }
        Ok(updated)
    }

    /// A copy of the grid.
    pub fn clone_grid(&self) -> (r: Self)
        ensures
            r.wf() == self.wf(),
            r.spec_width() == self.spec_width(),
            r.spec_height() == self.spec_height(),
            r.view_cells() == self.view_cells(),
    {
        let mut cells: Vec<u32> = Vec::new();
        let mut i: usize = 0;
        while i < self.cells.len()
            invariant
                i <= self.cells@.len(),
                cells@ == self.cells@.subrange(0, i as int),
            decreases self.cells@.len() - i,
        {
            cells.push(self.cells[i]);
            i = i + 1;
        }
        proof {
            assert(cells@ == self.cells@);
        }
        NonZerosGrid { width: self.width, height: self.height, cells }
    }

    /// The cells, row-major.
    pub fn cells(&self) -> (r: &[u32])
        ensures
            r@ == self.view_cells(),
    {
        self.cells.as_slice()
    }
}

/// Distinct positions of a row-major grid have distinct indices.
proof fn lemma_distinct_index(w: int, x1: int, y1: int, x2: int, y2: int)
    requires
        0 <= x1 < w,
        0 <= x2 < w,
        0 <= y1,
        0 <= y2,
        x1 != x2 || y1 != y2,
    ensures
        y1 * w + x1 != y2 * w + x2,
{
    if y1 == y2 {
    } else if y1 < y2 {
        assert(y1 * w + x1 < y2 * w + x2) by (nonlinear_arith)
            requires y1 < y2, 0 <= x1 < w, 0 <= x2;
    } else {
        assert(y2 * w + x2 < y1 * w + x1) by (nonlinear_arith)
            requires y2 < y1, 0 <= x2 < w, 0 <= x1;
    }
}

/// `(non_zeros + num_blocks - 1) Idiv num_blocks`, the sum saturating.
fn ceil_div_sat(non_zeros: u32, num_blocks: u32) -> (r: u32)
    requires
        num_blocks >= 1,
    ensures
        r == spec_ceil_div(non_zeros, num_blocks),
{
    let s: u32 = if (non_zeros as u64) + (num_blocks as u64) - 1 > (u32::MAX as u64) {
        u32::MAX
    } else {
        non_zeros + (num_blocks - 1)
    };
    s / num_blocks
}

/// One varblock of a pass group's channel (C.8.3): predict `non_zeros`
/// from the grid, read it and the block's coefficients (in the order
/// `natural_order` of the transform `t`), then store the block's
/// `NonZeros` in every cell of its footprint. Returns the block and the
/// `non_zeros` read.
pub fn decode_block_at<F: FnMut(u32) -> Result<u32, JxlError>, G: FnMut(u32) -> Result<u32, JxlError>>(
    grid: &mut NonZerosGrid,
    x: u32,
    y: u32,
    t: TransformType,
    natural_order: &[u32],
    block_ctx: u32,
    nb_block_ctx: u32,
    read_non_zeros: F,
    decode_symbol: G,
) -> (r: Result<(DecodedHfBlock, u32), JxlError>)
    requires
        old(grid).wf(),
        block_ctx + nb_block_ctx * 36 <= u32::MAX,
        forall|ctx: u32| call_requires(read_non_zeros, (ctx,)),
        forall|ctx: u32| call_requires(decode_symbol, (ctx,)),
    ensures
        final(grid).wf(),
        final(grid).spec_width() == old(grid).spec_width(),
        final(grid).spec_height() == old(grid).spec_height(),
        !old(grid).inside(x as int, y as int) ==> (r matches Err(e) && e is InvalidData),
        r matches Ok((d, nz)) ==> {
            let predicted = spec_predicted(x, y, old(grid).cell(x as int, y - 1), old(grid).cell(x - 1, y as int));
            let v = spec_ceil_div(nz, spec_block_params(t).0);
            &&& old(grid).inside(x as int, y as int)
            &&& call_ensures(read_non_zeros, (spec_non_zeros_context(predicted, block_ctx, nb_block_ctx) as u32,), Ok::<u32, JxlError>(nz))
            &&& block_params_ok(natural_order@, spec_block_params(t).0, spec_block_params(t).1, nz)
            &&& block_outcome(decode_symbol, natural_order@, spec_block_params(t).0, spec_block_params(t).1, nz, block_ctx, nb_block_ctx, d)
            &&& forall|xx: int, yy: int| old(grid).inside(xx, yy) ==> #[trigger] final(grid).cell(xx, yy) == if x <= xx
                < x + spec_block_dims(t).0 && y <= yy < y + spec_block_dims(t).1 { v } else { old(grid).cell(xx, yy) }
        },
{
    let predicted = grid.predicted(x, y)?;
    let (num_blocks, size) = transform_block_params(t);
    let (decoded, raw_non_zeros) = read_non_zeros_and_decode_block(
        natural_order, num_blocks, size, predicted, block_ctx, nb_block_ctx, read_non_zeros, decode_symbol)?;
    grid.update_after_block_for_transform(x, y, raw_non_zeros, t)?;
    Ok((decoded, raw_non_zeros))
}

} // verus!
