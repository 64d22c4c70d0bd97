//! Patch dictionary (C.4.5): blend modes and the decoding of the
//! dictionary's structure from a stream of hybrid integers.
use vstd::prelude::*;
use crate::bitreader::{spec_unpack_signed, unpack_signed};
use crate::error::{JxlError, invalid};

verus! {

/// Number of clustered distributions of the patch dictionary's stream.
pub const PATCH_NUM_CONTEXTS: usize = 10;

/// Context the blend `mode` is read with, as Listing C.2 prints it.
pub const PATCH_MODE_CTX_DEFAULT: u32 = 5;

/// How a patch sample is blended over the frame (Table K.1).
#[derive(Debug, Clone, Copy, PartialEq, Eq, Structural)]
pub enum PatchBlendMode {
    /// Keep the frame sample.
    NoBlend,
    /// Take the patch sample.
    Replace,
    /// Add the samples.
    Add,
    /// Multiply the samples.
    Mul,
    /// Patch over frame, weighted by alpha.
    BlendAbove,
    /// Frame over patch, weighted by alpha.
    BlendBelow,
    /// Alpha-weighted addition of the patch.
    AlphaWeightedAddAbove,
    /// Alpha-weighted addition with the roles swapped.
    AlphaWeightedAddBelow,
}

/// The blend mode of value `v` (0..=7, in the order of the variants).
pub open spec fn spec_blend_mode(v: int) -> Option<PatchBlendMode> {
    if v == 0 { Some(PatchBlendMode::NoBlend) } else if v == 1 { Some(PatchBlendMode::Replace) }
    else if v == 2 { Some(PatchBlendMode::Add) } else if v == 3 { Some(PatchBlendMode::Mul) }
    else if v == 4 { Some(PatchBlendMode::BlendAbove) } else if v == 5 { Some(PatchBlendMode::BlendBelow) }
    else if v == 6 { Some(PatchBlendMode::AlphaWeightedAddAbove) }
    else if v == 7 { Some(PatchBlendMode::AlphaWeightedAddBelow) } else { None }
}

/// The modes whose blend reads an alpha channel.
pub open spec fn spec_uses_alpha(m: PatchBlendMode) -> bool {
    m == PatchBlendMode::BlendAbove || m == PatchBlendMode::BlendBelow
        || m == PatchBlendMode::AlphaWeightedAddAbove || m == PatchBlendMode::AlphaWeightedAddBelow
}

/// The modes that carry a `clamp` field: the alpha modes and `Mul`.
pub open spec fn spec_has_clamp(m: PatchBlendMode) -> bool {
    spec_uses_alpha(m) || m == PatchBlendMode::Mul
}

impl PatchBlendMode {
    /// The mode of value `v`; values from 8 on are refused.
    pub fn from_u32(v: u32) -> (r: Result<Self, JxlError>)
        ensures
            match spec_blend_mode(v as int) {
                Some(m) => r == Ok::<PatchBlendMode, JxlError>(m),
                None => r matches Err(e) && e is InvalidData,
            },
    {
        if v == 0 { Ok(PatchBlendMode::NoBlend) } else if v == 1 { Ok(PatchBlendMode::Replace) }
        else if v == 2 { Ok(PatchBlendMode::Add) } else if v == 3 { Ok(PatchBlendMode::Mul) }
        else if v == 4 { Ok(PatchBlendMode::BlendAbove) } else if v == 5 { Ok(PatchBlendMode::BlendBelow) }
        else if v == 6 { Ok(PatchBlendMode::AlphaWeightedAddAbove) }
        else if v == 7 { Ok(PatchBlendMode::AlphaWeightedAddBelow) }
        else { Err(invalid("patches: blend mode out of range")) }
    }

    /// Whether the mode's blend reads an alpha channel.
    pub fn uses_alpha(self) -> (r: bool)
        ensures
            r == spec_uses_alpha(self),
    {
        match self {
            PatchBlendMode::BlendAbove | PatchBlendMode::BlendBelow | PatchBlendMode::AlphaWeightedAddAbove
            | PatchBlendMode::AlphaWeightedAddBelow => true,
            _ => false,
        }
    }

    /// Whether the mode carries a `clamp` field.
    pub fn has_clamp(self) -> (r: bool)
        ensures
            r == spec_has_clamp(self),
    {
        self.uses_alpha() || self == PatchBlendMode::Mul
    }
}

/// Blending of one patch position for one group of planes.
#[derive(Debug, Clone, Copy)]
pub struct PatchBlending {
    pub mode: PatchBlendMode,
    /// Extra channel holding the alpha the mode reads; 0 when not sent.
    pub alpha_channel: u32,
    /// Clamp alpha to `[0, 1]` before blending.
    pub clamp: bool,
}

/// One patch: a rectangle of a reference frame and where it is blended.
#[derive(Debug, Clone)]
pub struct Patch {
    /// Reference slot the samples come from.
    pub reference: u32,
    pub x0: u32,
    pub y0: u32,
    pub width: u32,
    pub height: u32,
    /// Top-left frame positions the patch is blended at.
    pub positions: Vec<(i64, i64)>,
    /// One row per position: the colour planes' blending, then one per
    /// extra channel.
    pub blendings: Vec<Vec<PatchBlending>>,
}

/// A blending as Listing C.2 produces it: an alpha channel only for a
/// mode that reads alpha when there are several alpha channels, a clamp
/// only for a mode that has one.
pub open spec fn blending_wf(b: PatchBlending, num_alpha_channels: usize) -> bool {
    &&& !(spec_uses_alpha(b.mode) && num_alpha_channels > 1) ==> b.alpha_channel == 0
    &&& !spec_has_clamp(b.mode) ==> !b.clamp
}

/// A rectangle of `w × h` at `(x, y)` lies inside the frame.
pub open spec fn contained(x: i64, y: i64, w: u32, h: u32, fw: u32, fh: u32) -> bool {
    x >= 0 && y >= 0 && x + w <= fw && y + h <= fh
}

/// A decoded patch: a reference slot below 4, a size within the frame,
/// at least one position, each inside the frame with a row of
/// `num_extra_channels + 1` blendings.
pub open spec fn patch_wf(p: Patch, num_extra_channels: u32, num_alpha_channels: usize, fw: u32, fh: u32) -> bool {
    &&& p.reference < 4
    &&& 1 <= p.width <= fw
    &&& 1 <= p.height <= fh
    &&& p.positions@.len() >= 1
    &&& p.blendings@.len() == p.positions@.len()
    &&& forall|j: int| 0 <= j < p.positions@.len() ==> {
        let (x, y) = #[trigger] p.positions@[j];
        &&& contained(x, y, p.width, p.height, fw, fh)
        &&& p.blendings@[j]@.len() == num_extra_channels + 1
        &&& forall|k: int| 0 <= k < p.blendings@[j]@.len() ==> blending_wf(#[trigger] p.blendings@[j]@[k], num_alpha_channels)
    }
}

/// A value read for the dictionary: the distribution it was read with and
/// the value.
pub type PatchRead = (u32, u32);

/// Each of `rs` is a value `read_uint` may return for its distribution.
pub open spec fn reads_by<F: FnMut(u32) -> Result<u32, JxlError>>(read_uint: F, rs: Seq<PatchRead>) -> bool {
    forall|i: int| 0 <= i < rs.len() ==> #[trigger] call_ensures(read_uint, (rs[i].0,), Ok::<u32, JxlError>(rs[i].1))
}

/// The value read at `pos`, when it was read with distribution `ctx`.
pub open spec fn read_at(rs: Seq<PatchRead>, pos: int, ctx: u32) -> Option<u32> {
    if 0 <= pos < rs.len() && rs[pos].0 == ctx { Some(rs[pos].1) } else { None }
}

/// The blending read at `pos` (Listing C.2): the mode, an alpha channel
/// for a mode that reads alpha when there are several alpha channels, a
/// clamp flag for a mode that has one. The position after it.
pub open spec fn spec_blending(rs: Seq<PatchRead>, pos: int, mode_ctx: u32, num_alpha_channels: usize) -> Option<(PatchBlending, int)> {
    match read_at(rs, pos, mode_ctx) {
        None => None,
        Some(v) => match spec_blend_mode(v as int) {
            None => None,
            Some(m) => {
                let ua = spec_uses_alpha(m) && num_alpha_channels > 1;
                let a: Option<(u32, int)> = if ua {
                    match read_at(rs, pos + 1, 8) { None => None, Some(x) => Some((x, pos + 2)) }
                } else {
                    Some((0u32, pos + 1))
                };
                match a {
                    None => None,
                    Some((alpha, p1)) => {
                        let c: Option<(bool, int)> = if spec_has_clamp(m) {
                            match read_at(rs, p1, 9) { None => None, Some(x) => Some((x != 0, p1 + 1)) }
                        } else {
                            Some((false, p1))
                        };
                        match c {
                            None => None,
                            Some((clamp, p2)) => Some((PatchBlending { mode: m, alpha_channel: alpha, clamp }, p2)),
                        }
                    },
                }
            },
        },
    }
}

/// `k` blendings read from `pos` on.
pub open spec fn spec_row(rs: Seq<PatchRead>, pos: int, mode_ctx: u32, num_alpha_channels: usize, k: nat)
    -> Option<(Seq<PatchBlending>, int)>
    decreases k,
{
    if k == 0 {
        Some((Seq::empty(), pos))
    } else {
        match spec_row(rs, pos, mode_ctx, num_alpha_channels, (k - 1) as nat) {
            None => None,
            Some((bs, p)) => match spec_blending(rs, p, mode_ctx, num_alpha_channels) {
                None => None,
                Some((b, p2)) => Some((bs.push(b), p2)),
            },
        }
    }
}

/// `j` placements of a `w × h` patch read from `pos` on: the first
/// position absolute (distribution 4), the others `UnpackSigned` deltas
/// from the previous one (distribution 5), each inside the frame and
/// followed by its row of `num_extra_channels + 1` blendings.
pub open spec fn spec_placements(rs: Seq<PatchRead>, pos: int, w: u32, h: u32, fw: u32, fh: u32, mode_ctx: u32,
    num_extra_channels: u32, num_alpha_channels: usize, j: nat) -> Option<(Seq<(i64, i64)>, Seq<Seq<PatchBlending>>, int)>
    decreases j,
{
    if j == 0 {
        Some((Seq::empty(), Seq::empty(), pos))
    } else {
        match spec_placements(rs, pos, w, h, fw, fh, mode_ctx, num_extra_channels, num_alpha_channels, (j - 1) as nat) {
            None => None,
            Some((ps, bs, p)) => {
                let ctx: u32 = if j == 1 { 4 } else { 5 };
                match read_at(rs, p, ctx) {
                    None => None,
                    Some(a) => match read_at(rs, p + 1, ctx) {
                        None => None,
                        Some(b) => {
                            let x: int = if j == 1 { a as int } else { spec_unpack_signed(a) + ps.last().0 };
                            let y: int = if j == 1 { b as int } else { spec_unpack_signed(b) + ps.last().1 };
                            if !(x >= 0 && y >= 0 && x + w <= fw && y + h <= fh) {
                                None
                            } else {
                                match spec_row(rs, p + 2, mode_ctx, num_alpha_channels, (num_extra_channels + 1) as nat) {
                                    None => None,
                                    Some((row, p3)) => Some((ps.push((x as i64, y as i64)), bs.push(row), p3)),
                                }
                            }
                        },
                    },
                }
            },
        }
    }
}

/// The fields of a [`Patch`], its blending rows as sequences.
pub struct PatchFields {
    pub reference: u32,
    pub x0: u32,
    pub y0: u32,
    pub width: u32,
    pub height: u32,
    pub positions: Seq<(i64, i64)>,
    pub blendings: Seq<Seq<PatchBlending>>,
}

impl View for Patch {
    type V = PatchFields;

    open spec fn view(&self) -> PatchFields {
        PatchFields {
            reference: self.reference,
            x0: self.x0,
            y0: self.y0,
            width: self.width,
            height: self.height,
            positions: self.positions@,
            blendings: self.blendings@.map_values(|r: Vec<PatchBlending>| r@),
        }
    }
}

/// The patch read at `pos` (Listing C.2): reference slot (below 4,
/// distribution 1), origin (3), size minus one (2), each side at most the
/// frame's, placement count minus one (7), then the placements.
pub open spec fn spec_patch(rs: Seq<PatchRead>, pos: int, mode_ctx: u32, num_extra_channels: u32, num_alpha_channels: usize,
    fw: u32, fh: u32) -> Option<(PatchFields, int)>
{
    match (read_at(rs, pos, 1), read_at(rs, pos + 1, 3), read_at(rs, pos + 2, 3), read_at(rs, pos + 3, 2), read_at(rs, pos + 4, 2),
        read_at(rs, pos + 5, 7)) {
        (Some(reference), Some(x0), Some(y0), Some(wm1), Some(hm1), Some(cm1)) => {
            if reference >= 4 || wm1 == u32::MAX || hm1 == u32::MAX || wm1 + 1 > fw || hm1 + 1 > fh {
                None
            } else {
                match spec_placements(rs, pos + 6, (wm1 + 1) as u32, (hm1 + 1) as u32, fw, fh, mode_ctx, num_extra_channels,
                    num_alpha_channels, (cm1 + 1) as nat) {
                    None => None,
                    Some((ps, bs, p)) => Some((PatchFields {
                        reference, x0, y0, width: (wm1 + 1) as u32, height: (hm1 + 1) as u32, positions: ps, blendings: bs,
                    }, p)),
                }
            }
        },
        _ => None,
    }
}

/// `n` patches read from `pos` on.
pub open spec fn spec_patch_list(rs: Seq<PatchRead>, pos: int, mode_ctx: u32, num_extra_channels: u32, num_alpha_channels: usize,
    fw: u32, fh: u32, n: nat) -> Option<(Seq<PatchFields>, int)>
    decreases n,
{
    if n == 0 {
        Some((Seq::empty(), pos))
    } else {
        match spec_patch_list(rs, pos, mode_ctx, num_extra_channels, num_alpha_channels, fw, fh, (n - 1) as nat) {
            None => None,
            Some((ps, p)) => match spec_patch(rs, p, mode_ctx, num_extra_channels, num_alpha_channels, fw, fh) {
                None => None,
                Some((q, p2)) => Some((ps.push(q), p2)),
            },
        }
    }
}

/// The dictionary read from `rs`: the patch count (distribution 0), then
/// the patches; the position after them.
pub open spec fn spec_patches(rs: Seq<PatchRead>, mode_ctx: u32, num_extra_channels: u32, num_alpha_channels: usize,
    fw: u32, fh: u32) -> Option<(Seq<PatchFields>, int)>
{
    match read_at(rs, 0, 0) {
        None => None,
        Some(n) => spec_patch_list(rs, 1, mode_ctx, num_extra_channels, num_alpha_channels, fw, fh, n as nat),
    }
}

/// Reads below `rs.len()` stay the same when more values follow.
proof fn lemma_read_at_extend(rs: Seq<PatchRead>, more: Seq<PatchRead>, pos: int, ctx: u32)
    ensures
        read_at(rs, pos, ctx) is Some ==> read_at(rs + more, pos, ctx) == read_at(rs, pos, ctx),
{
}

/// A blending that ends within `rs` reads the same when more values follow.
proof fn lemma_blending_extend(rs: Seq<PatchRead>, more: Seq<PatchRead>, pos: int, mode_ctx: u32, na: usize)
    requires
        spec_blending(rs, pos, mode_ctx, na) is Some,
    ensures
        spec_blending(rs + more, pos, mode_ctx, na) == spec_blending(rs, pos, mode_ctx, na),
        pos < spec_blending(rs, pos, mode_ctx, na).unwrap().1 <= rs.len(),
{
    lemma_read_at_extend(rs, more, pos, mode_ctx);
    lemma_read_at_extend(rs, more, pos + 1, 8);
    lemma_read_at_extend(rs, more, pos + 1, 9);
    lemma_read_at_extend(rs, more, pos + 2, 9);
}

/// A row that ends within `rs` reads the same when more values follow.
proof fn lemma_row_extend(rs: Seq<PatchRead>, more: Seq<PatchRead>, pos: int, mode_ctx: u32, na: usize, k: nat)
    requires
        spec_row(rs, pos, mode_ctx, na, k) is Some,
    ensures
        spec_row(rs + more, pos, mode_ctx, na, k) == spec_row(rs, pos, mode_ctx, na, k),
        pos <= spec_row(rs, pos, mode_ctx, na, k).unwrap().1,
        k > 0 ==> spec_row(rs, pos, mode_ctx, na, k).unwrap().1 <= rs.len(),
    decreases k,
{
    if k > 0 {
        lemma_row_extend(rs, more, pos, mode_ctx, na, (k - 1) as nat);
        let p = spec_row(rs, pos, mode_ctx, na, (k - 1) as nat).unwrap().1;
        lemma_blending_extend(rs, more, p, mode_ctx, na);
    }
}

/// Placements that end within `rs` read the same when more values follow.
proof fn lemma_placements_extend(rs: Seq<PatchRead>, more: Seq<PatchRead>, pos: int, w: u32, h: u32, fw: u32, fh: u32,
    mode_ctx: u32, nec: u32, na: usize, j: nat)
    requires
        spec_placements(rs, pos, w, h, fw, fh, mode_ctx, nec, na, j) is Some,
    ensures
        spec_placements(rs + more, pos, w, h, fw, fh, mode_ctx, nec, na, j) == spec_placements(rs, pos, w, h, fw, fh, mode_ctx, nec, na, j),
        pos <= spec_placements(rs, pos, w, h, fw, fh, mode_ctx, nec, na, j).unwrap().2,
        j > 0 ==> spec_placements(rs, pos, w, h, fw, fh, mode_ctx, nec, na, j).unwrap().2 <= rs.len(),
    decreases j,
{
    if j > 0 {
        lemma_placements_extend(rs, more, pos, w, h, fw, fh, mode_ctx, nec, na, (j - 1) as nat);
        let p = spec_placements(rs, pos, w, h, fw, fh, mode_ctx, nec, na, (j - 1) as nat).unwrap().2;
        let ctx: u32 = if j == 1 { 4 } else { 5 };
        lemma_read_at_extend(rs, more, p, ctx);
        lemma_read_at_extend(rs, more, p + 1, ctx);
        lemma_row_extend(rs, more, p + 2, mode_ctx, na, (nec + 1) as nat);
    }
}

/// A patch that ends within `rs` reads the same when more values follow.
proof fn lemma_patch_extend(rs: Seq<PatchRead>, more: Seq<PatchRead>, pos: int, mode_ctx: u32, nec: u32, na: usize, fw: u32, fh: u32)
    requires
        spec_patch(rs, pos, mode_ctx, nec, na, fw, fh) is Some,
    ensures
        spec_patch(rs + more, pos, mode_ctx, nec, na, fw, fh) == spec_patch(rs, pos, mode_ctx, nec, na, fw, fh),
        pos < spec_patch(rs, pos, mode_ctx, nec, na, fw, fh).unwrap().1 <= rs.len(),
{
    lemma_read_at_extend(rs, more, pos, 1);
    lemma_read_at_extend(rs, more, pos + 1, 3);
    lemma_read_at_extend(rs, more, pos + 2, 3);
    lemma_read_at_extend(rs, more, pos + 3, 2);
    lemma_read_at_extend(rs, more, pos + 4, 2);
    lemma_read_at_extend(rs, more, pos + 5, 7);
    let wm1 = read_at(rs, pos + 3, 2).unwrap();
    let hm1 = read_at(rs, pos + 4, 2).unwrap();
    let cm1 = read_at(rs, pos + 5, 7).unwrap();
    lemma_placements_extend(rs, more, pos + 6, (wm1 + 1) as u32, (hm1 + 1) as u32, fw, fh, mode_ctx, nec, na, (cm1 + 1) as nat);
}

/// Patches that end within `rs` read the same when more values follow.
proof fn lemma_patch_list_extend(rs: Seq<PatchRead>, more: Seq<PatchRead>, pos: int, mode_ctx: u32, nec: u32, na: usize,
    fw: u32, fh: u32, n: nat)
    requires
        spec_patch_list(rs, pos, mode_ctx, nec, na, fw, fh, n) is Some,
    ensures
        spec_patch_list(rs + more, pos, mode_ctx, nec, na, fw, fh, n) == spec_patch_list(rs, pos, mode_ctx, nec, na, fw, fh, n),
        pos <= spec_patch_list(rs, pos, mode_ctx, nec, na, fw, fh, n).unwrap().1,
        n > 0 ==> spec_patch_list(rs, pos, mode_ctx, nec, na, fw, fh, n).unwrap().1 <= rs.len(),
    decreases n,
{
    if n > 0 {
        lemma_patch_list_extend(rs, more, pos, mode_ctx, nec, na, fw, fh, (n - 1) as nat);
        let p = spec_patch_list(rs, pos, mode_ctx, nec, na, fw, fh, (n - 1) as nat).unwrap().1;
        lemma_patch_extend(rs, more, p, mode_ctx, nec, na, fw, fh);
    }
}

/// A value read for a distribution extends a run of reads.
proof fn lemma_reads_by_push<F: FnMut(u32) -> Result<u32, JxlError>>(read_uint: F, rs: Seq<PatchRead>, ctx: u32, v: u32)
    requires
        reads_by(read_uint, rs),
        call_ensures(read_uint, (ctx,), Ok::<u32, JxlError>(v)),
    ensures
        reads_by(read_uint, rs.push((ctx, v))),
{
    let r2 = rs.push((ctx, v));
    assert forall|i: int| 0 <= i < r2.len() implies #[trigger] call_ensures(read_uint, (r2[i].0,), Ok::<u32, JxlError>(r2[i].1)) by {
        if i < rs.len() {
            assert(r2[i] == rs[i]);
        }
    }
}

/// `e` is an error `read_uint` may return.
pub open spec fn uint_error<F: FnMut(u32) -> Result<u32, JxlError>>(read_uint: F, e: JxlError) -> bool {
    exists|c: u32| call_ensures(read_uint, (c,), Err::<u32, JxlError>(e))
}

/// `v` is a value `read_uint` may return for distribution `ctx`.
pub open spec fn yields_uint<F: FnMut(u32) -> Result<u32, JxlError>>(read_uint: F, ctx: u32, v: u32) -> bool {
    call_ensures(read_uint, (ctx,), Ok::<u32, JxlError>(v))
}

/// `read_uint` may give a blend mode (distribution `mode_ctx`) of 8 or
/// more.
pub open spec fn bad_mode_read<F: FnMut(u32) -> Result<u32, JxlError>>(read_uint: F, mode_ctx: u32) -> bool {
    exists|v: u32| #[trigger] yields_uint(read_uint, mode_ctx, v) && v >= 8
}

/// What the dictionary decoder itself rejects in values `read_uint` may
/// give: a blend mode of 8 or more, a reference slot of 4 or more, a
/// size minus one that overflows or exceeds the frame, or a position
/// (distribution 4, or a delta with 5) that leaves the patch outside
/// the frame.
pub open spec fn dictionary_rejected<F: FnMut(u32) -> Result<u32, JxlError>>(read_uint: F, mode_ctx: u32, fw: u32, fh: u32) -> bool {
    ||| bad_mode_read(read_uint, mode_ctx)
    ||| exists|r: u32| #[trigger] yields_uint(read_uint, 1, r) && r >= 4
    ||| exists|w: u32| #[trigger] yields_uint(read_uint, 2, w) && (w == u32::MAX || w + 1 > fw || w + 1 > fh)
    ||| exists|a: u32| #![trigger yields_uint(read_uint, 4, a)] #![trigger yields_uint(read_uint, 5, a)]
        yields_uint(read_uint, 4, a) || yields_uint(read_uint, 5, a)
}

/// Read one row of blendings (one per plane group) with `read_uint`,
/// after the reads `rs0`; returns the row and all reads so far.
fn read_blending_row<F: FnMut(u32) -> Result<u32, JxlError>>(
    read_uint: &mut F,
    mode_ctx: u32,
    num_extra_channels: u32,
    num_alpha_channels: usize,
    Ghost(rs0): Ghost<Seq<PatchRead>>,
) -> (r: Result<(Vec<PatchBlending>, Ghost<Seq<PatchRead>>), JxlError>)
    requires
        forall|c: u32| call_requires(*old(read_uint), (c,)),
        reads_by(*old(read_uint), rs0),
    ensures
        *final(read_uint) == *old(read_uint),
        r matches Err(e) ==> uint_error(*old(read_uint), e) || (e is InvalidData && bad_mode_read(*old(read_uint), mode_ctx)),
        r matches Ok((row, g)) ==> {
            &&& row@.len() == num_extra_channels + 1
            &&& forall|k: int| 0 <= k < row@.len() ==> blending_wf(#[trigger] row@[k], num_alpha_channels)
            &&& g@.len() >= rs0.len()
            &&& g@.subrange(0, rs0.len() as int) == rs0
            &&& reads_by(*old(read_uint), g@)
            &&& spec_row(g@, rs0.len() as int, mode_ctx, num_alpha_channels, (num_extra_channels + 1) as nat)
                == Some((row@, g@.len() as int))
        },
{
    let ghost read0 = *read_uint;
    let ghost mut rs = rs0;
    let mut row: Vec<PatchBlending> = Vec::new();
    let n: u64 = num_extra_channels as u64 + 1;
    let mut k: u64 = 0;
    while k < n
        invariant
            *read_uint == read0,
            read0 == *old(read_uint),
            forall|c: u32| call_requires(read0, (c,)),
            n == num_extra_channels + 1,
            k <= n,
            row@.len() == k,
            forall|i: int| 0 <= i < row@.len() ==> blending_wf(#[trigger] row@[i], num_alpha_channels),
            rs.len() >= rs0.len(),
            rs.subrange(0, rs0.len() as int) == rs0,
            reads_by(read0, rs),
            spec_row(rs, rs0.len() as int, mode_ctx, num_alpha_channels, k as nat) == Some((row@, rs.len() as int)),
        decreases n - k,
    {
        let ghost rs_k = rs;
        let v = read_uint(mode_ctx)?;
        proof {
            lemma_reads_by_push(read0, rs, mode_ctx, v);
            rs = rs.push((mode_ctx, v));
        }
        proof { assert(yields_uint(read0, mode_ctx, v)); }
        let mode = PatchBlendMode::from_u32(v)?;
        let alpha_channel = if mode.uses_alpha() && num_alpha_channels > 1 {
            let a = read_uint(8)?;
            proof {
                lemma_reads_by_push(read0, rs, 8, a);
                rs = rs.push((8u32, a));
            }
            a
        } else {
            0
        };
        let clamp = if mode.has_clamp() {
            let c = read_uint(9)?;
            proof {
                lemma_reads_by_push(read0, rs, 9, c);
                rs = rs.push((9u32, c));
            }
            c != 0
        } else {
            false
        };
        let b = PatchBlending { mode, alpha_channel, clamp };
        proof {
            let more = rs.subrange(rs_k.len() as int, rs.len() as int);
            assert(rs == rs_k + more);
            lemma_row_extend(rs_k, more, rs0.len() as int, mode_ctx, num_alpha_channels, k as nat);
            assert(rs.subrange(0, rs0.len() as int) == rs_k.subrange(0, rs0.len() as int));
            assert(spec_blending(rs, rs_k.len() as int, mode_ctx, num_alpha_channels) == Some((b, rs.len() as int)));
        }
        row.push(b);
        k = k + 1;
    }
    Ok((row, Ghost(rs)))
}

/// Decode one patch (Listing C.2) with `read_uint(ctx)`, after the reads
/// `rs0`; returns the patch and all reads so far.
fn read_patch<F: FnMut(u32) -> Result<u32, JxlError>>(
    read_uint: &mut F,
    mode_ctx: u32,
    num_extra_channels: u32,
    num_alpha_channels: usize,
    frame_width: u32,
    frame_height: u32,
    Ghost(rs0): Ghost<Seq<PatchRead>>,
) -> (r: Result<(Patch, Ghost<Seq<PatchRead>>), JxlError>)
    requires
        forall|c: u32| call_requires(*old(read_uint), (c,)),
        reads_by(*old(read_uint), rs0),
    ensures
        *final(read_uint) == *old(read_uint),
        r matches Err(e) ==> uint_error(*old(read_uint), e) || (e is InvalidData
            && dictionary_rejected(*old(read_uint), mode_ctx, frame_width, frame_height)),
        r matches Ok((p, g)) ==> {
            &&& patch_wf(p, num_extra_channels, num_alpha_channels, frame_width, frame_height)
            &&& g@.len() >= rs0.len()
            &&& g@.subrange(0, rs0.len() as int) == rs0
            &&& reads_by(*old(read_uint), g@)
            &&& spec_patch(g@, rs0.len() as int, mode_ctx, num_extra_channels, num_alpha_channels, frame_width, frame_height)
                == Some((p@, g@.len() as int))
        },
{
    let ghost read0 = *read_uint;
    let ghost mut rs = rs0;
    let ghost pos = rs0.len() as int;
    let reference = read_uint(1)?;
    proof {
        lemma_reads_by_push(read0, rs, 1, reference);
        rs = rs.push((1u32, reference));
    }
    if reference >= 4 {
        proof { assert(yields_uint(read0, 1, reference)); }
        return Err(invalid("patches: reference slot out of range"));
    }
    let x0 = read_uint(3)?;
    proof {
        lemma_reads_by_push(read0, rs, 3, x0);
        rs = rs.push((3u32, x0));
    }
    let y0 = read_uint(3)?;
    proof {
        lemma_reads_by_push(read0, rs, 3, y0);
        rs = rs.push((3u32, y0));
    }
    let wm1 = read_uint(2)?;
    proof {
        lemma_reads_by_push(read0, rs, 2, wm1);
        rs = rs.push((2u32, wm1));
    }
    if wm1 == u32::MAX {
        proof { assert(yields_uint(read0, 2, wm1)); }
        return Err(invalid("patches: width overflow"));
    }
    let width = wm1 + 1;
    let hm1 = read_uint(2)?;
    proof {
        lemma_reads_by_push(read0, rs, 2, hm1);
        rs = rs.push((2u32, hm1));
    }
    if hm1 == u32::MAX {
        proof { assert(yields_uint(read0, 2, hm1)); }
        return Err(invalid("patches: height overflow"));
    }
    let height = hm1 + 1;
    if width > frame_width || height > frame_height {
        proof {
            assert(yields_uint(read0, 2, wm1));
            assert(yields_uint(read0, 2, hm1));
        }
        return Err(invalid("patches: patch larger than the frame"));
    }
    let cm1 = read_uint(7)?;
    proof {
        lemma_reads_by_push(read0, rs, 7, cm1);
        rs = rs.push((7u32, cm1));
    }
    let ghost head = rs;
    let count: u64 = cm1 as u64 + 1;
    let mut positions: Vec<(i64, i64)> = Vec::new();
    let mut blendings: Vec<Vec<PatchBlending>> = Vec::new();
    let mut last_x: i64 = 0;
    let mut last_y: i64 = 0;
    let mut j: u64 = 0;
    proof {
        assert(blendings@.map_values(|r: Vec<PatchBlending>| r@) =~= Seq::<Seq<PatchBlending>>::empty());
    }
    while j < count
        invariant
            *read_uint == read0,
            read0 == *old(read_uint),
            forall|c: u32| call_requires(read0, (c,)),
            j <= count,
            count == cm1 + 1,
            positions@.len() == j,
            blendings@.len() == j,
            1 <= width <= frame_width,
            1 <= height <= frame_height,
            width == wm1 + 1,
            height == hm1 + 1,
            0 <= last_x <= frame_width,
            0 <= last_y <= frame_height,
            j > 0 ==> positions@.last() == (last_x, last_y),
            forall|i: int| 0 <= i < positions@.len() ==> {
                let (x, y) = #[trigger] positions@[i];
                &&& contained(x, y, width, height, frame_width, frame_height)
                &&& blendings@[i]@.len() == num_extra_channels + 1
                &&& forall|k: int| 0 <= k < blendings@[i]@.len() ==> blending_wf(#[trigger] blendings@[i]@[k], num_alpha_channels)
            },
            head.len() == pos + 6,
            rs.len() >= head.len(),
            rs.subrange(0, head.len() as int) == head,
            reads_by(read0, rs),
            spec_placements(rs, pos + 6, width, height, frame_width, frame_height, mode_ctx, num_extra_channels,
                num_alpha_channels, j as nat) == Some((positions@, blendings@.map_values(|r: Vec<PatchBlending>| r@), rs.len() as int)),
        decreases count - j,
    {
        let ghost rs_j = rs;
        let ctx: u32 = if j == 0 { 4 } else { 5 };
        let a = read_uint(ctx)?;
        proof {
            lemma_reads_by_push(read0, rs, ctx, a);
            rs = rs.push((ctx, a));
        }
        let b = read_uint(ctx)?;
        proof {
            lemma_reads_by_push(read0, rs, ctx, b);
            rs = rs.push((ctx, b));
        }
        let (x, y) = if j == 0 {
            (a as i64, b as i64)
        } else {
            (unpack_signed(a) as i64 + last_x, unpack_signed(b) as i64 + last_y)
        };
        if x < 0 || y < 0 || x + width as i64 > frame_width as i64 || y + height as i64 > frame_height as i64 {
            proof { assert(yields_uint(read0, ctx, a)); }
            return Err(invalid("patches: patch position not contained within the frame"));
        }
        let ghost rs_ab = rs;
        let (row, g) = read_blending_row(read_uint, mode_ctx, num_extra_channels, num_alpha_channels, Ghost(rs))?;
        proof {
            rs = g@;
        }
        let ghost pos0 = positions@;
        let ghost bl0 = blendings@;
        positions.push((x, y));
        blendings.push(row);
        proof {
            assert forall|i: int| 0 <= i < positions@.len() implies {
                let (px, py) = #[trigger] positions@[i];
                &&& contained(px, py, width, height, frame_width, frame_height)
                &&& blendings@[i]@.len() == num_extra_channels + 1
                &&& forall|k: int| 0 <= k < blendings@[i]@.len() ==> blending_wf(#[trigger] blendings@[i]@[k], num_alpha_channels)
            } by {
                if i < pos0.len() {
                    assert(positions@[i] == pos0[i]);
                    assert(blendings@[i] == bl0[i]);
                }
            }
            let more = rs.subrange(rs_j.len() as int, rs.len() as int);
            assert(rs.len() >= rs_ab.len());
            assert forall|k: int| 0 <= k < rs_j.len() implies rs[k] == rs_j[k] by {
                assert(rs[k] == rs.subrange(0, rs_ab.len() as int)[k]);
                assert(rs_ab[k] == rs_j[k]);
            }
            assert(rs =~= rs_j + more);
            lemma_placements_extend(rs_j, more, pos + 6, width, height, frame_width, frame_height, mode_ctx,
                num_extra_channels, num_alpha_channels, j as nat);
            assert(rs.subrange(0, rs_ab.len() as int) == rs_ab);
            assert(rs[rs_j.len() as int] == rs_ab[rs_j.len() as int]);
            assert(rs[rs_j.len() as int + 1] == rs_ab[rs_j.len() as int + 1]);
            assert(blendings@.map_values(|r: Vec<PatchBlending>| r@) =~= bl0.map_values(|r: Vec<PatchBlending>| r@).push(row@));
            assert(rs.subrange(0, head.len() as int) == rs_j.subrange(0, head.len() as int));
        }
        last_x = x;
        last_y = y;
        j = j + 1;
    }
    let p = Patch { reference, x0, y0, width, height, positions, blendings };
    proof {
        assert(rs.subrange(0, rs0.len() as int) == head.subrange(0, rs0.len() as int));
        assert(rs[pos] == head[pos]);
        assert(rs[pos + 1] == head[pos + 1]);
        assert(rs[pos + 2] == head[pos + 2]);
        assert(rs[pos + 3] == head[pos + 3]);
        assert(rs[pos + 4] == head[pos + 4]);
        assert(rs[pos + 5] == head[pos + 5]);
    }
    Ok((p, Ghost(rs)))
}

/// The patches `ps` are the dictionary decoded from values `read_uint`
/// may return for the distributions the decoder asks for, using all of
/// them (see [`spec_patches`]).
pub open spec fn patches_read_by<F: FnMut(u32) -> Result<u32, JxlError>>(read_uint: F, mode_ctx: u32, num_extra_channels: u32,
    num_alpha_channels: usize, fw: u32, fh: u32, ps: Seq<PatchFields>) -> bool {
    exists|rs: Seq<PatchRead>|
        #![trigger spec_patches(rs, mode_ctx, num_extra_channels, num_alpha_channels, fw, fh), reads_by(read_uint, rs)]
        spec_patches(rs, mode_ctx, num_extra_channels, num_alpha_channels, fw, fh) == Some((ps, rs.len() as int))
            && reads_by(read_uint, rs)
}

/// The fields of each patch of a list.
pub open spec fn patch_fields(ps: Seq<Patch>) -> Seq<PatchFields> {
    ps.map_values(|p: Patch| p@)
}

/// Decode the patch dictionary's structure (Listing C.2) from
/// `read_uint(ctx)`, which reads one hybrid integer of the dictionary's
/// stream with distribution `ctx`, the blend modes being read with
/// `mode_ctx`: the patch count, then per patch its reference slot (below
/// 4), origin, size, positions — the first absolute, the others
/// `UnpackSigned` deltas — each inside the `frame_width × frame_height`
/// frame, and one row of `num_extra_channels + 1` blendings per position.
pub fn decode_patches_with_mode_ctx<F: FnMut(u32) -> Result<u32, JxlError>>(
    read: F,
    mode_ctx: u32,
    num_extra_channels: u32,
    num_alpha_channels: usize,
    frame_width: u32,
    frame_height: u32,
) -> (r: Result<Vec<Patch>, JxlError>)
    requires
        forall|c: u32| call_requires(read, (c,)),
    ensures
        r matches Err(e) ==> uint_error(read, e) || (e is InvalidData
            && dictionary_rejected(read, mode_ctx, frame_width, frame_height)),
        r matches Ok(ps) ==> {
            &&& forall|i: int| 0 <= i < ps@.len()
                ==> patch_wf(#[trigger] ps@[i], num_extra_channels, num_alpha_channels, frame_width, frame_height)
            &&& patches_read_by(read, mode_ctx, num_extra_channels, num_alpha_channels, frame_width, frame_height,
                patch_fields(ps@))
        },
{
    let mut read_uint = read;
    let ghost read0 = read_uint;
    let num_patches = read_uint(0)?;
    let ghost mut rs: Seq<PatchRead> = seq![(0u32, num_patches)];
    proof {
        assert(reads_by(read0, rs)) by {
            assert forall|i: int| 0 <= i < rs.len() implies #[trigger] call_ensures(read0, (rs[i].0,), Ok::<u32, JxlError>(rs[i].1)) by {}
        }
    }
    let mut out: Vec<Patch> = Vec::new();
    let mut i: u32 = 0;
    while i < num_patches
        invariant
            read_uint == read0,
            read0 == read,
            forall|c: u32| call_requires(read0, (c,)),
            i <= num_patches,
            out@.len() == i,
            forall|k: int| 0 <= k < out@.len()
                ==> patch_wf(#[trigger] out@[k], num_extra_channels, num_alpha_channels, frame_width, frame_height),
            rs.len() >= 1,
            rs[0] == (0u32, num_patches),
            reads_by(read0, rs),
            spec_patch_list(rs, 1, mode_ctx, num_extra_channels, num_alpha_channels, frame_width, frame_height, i as nat)
                == Some((patch_fields(out@), rs.len() as int)),
        decreases num_patches - i,
    {
        let ghost rs_i = rs;
        let (p, g) = read_patch(&mut read_uint, mode_ctx, num_extra_channels, num_alpha_channels, frame_width, frame_height,
            Ghost(rs))?;
        proof {
            rs = g@;
            let more = rs.subrange(rs_i.len() as int, rs.len() as int);
            assert(rs == rs_i + more);
            lemma_patch_list_extend(rs_i, more, 1, mode_ctx, num_extra_channels, num_alpha_channels, frame_width, frame_height,
                i as nat);
            assert(rs[0] == rs_i[0]);
            assert(patch_fields(out@.push(p)) =~= patch_fields(out@).push(p@));
        }
        out.push(p);
        i = i + 1;
    }
    proof {
        assert(spec_patches(rs, mode_ctx, num_extra_channels, num_alpha_channels, frame_width, frame_height)
            == Some((patch_fields(out@), rs.len() as int)));
    }
    Ok(out)
}

/// [`decode_patches_with_mode_ctx`] with the blend modes read with
/// context [`PATCH_MODE_CTX_DEFAULT`].
pub fn decode_patches_with<F: FnMut(u32) -> Result<u32, JxlError>>(
    read_uint: F,
    num_extra_channels: u32,
    num_alpha_channels: usize,
    frame_width: u32,
    frame_height: u32,
) -> (r: Result<Vec<Patch>, JxlError>)
    requires
        forall|c: u32| call_requires(read_uint, (c,)),
    ensures
        r matches Err(e) ==> uint_error(read_uint, e) || (e is InvalidData
            && dictionary_rejected(read_uint, PATCH_MODE_CTX_DEFAULT, frame_width, frame_height)),
        r matches Ok(ps) ==> {
            &&& forall|i: int| 0 <= i < ps@.len()
                ==> patch_wf(#[trigger] ps@[i], num_extra_channels, num_alpha_channels, frame_width, frame_height)
            &&& patches_read_by(read_uint, PATCH_MODE_CTX_DEFAULT, num_extra_channels, num_alpha_channels, frame_width,
                frame_height, patch_fields(ps@))
        },
{
    decode_patches_with_mode_ctx(read_uint, PATCH_MODE_CTX_DEFAULT, num_extra_channels, num_alpha_channels, frame_width, frame_height)
}

} // verus!
