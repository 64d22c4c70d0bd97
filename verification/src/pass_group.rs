//! Pass groups (G.4): the rectangle a group covers and the range of
//! channel shifts a pass carries.
use vstd::prelude::*;
use vstd::arithmetic::power2::pow2;
use crate::bitreader::{BitReader, U32Dist, dist_wf, spec_u32, bits_le, total_bits};
use crate::error::{JxlError, invalid, unsupported};
use crate::modular::{pixel_index, lemma_index_bounds};
use crate::modular_fdis::{
    ChannelDesc, ModularImage, MaTreeFdis, WpHeader, TransformInfo, img_wf, chan_wf, spec_wp_header,
    wp_header_wf, fdis_tree_wf, open_ready, decode_ready, decode_channels_at_stream, channel_decoded, max_width,
    tree_uses_wp, tree_read_by_stream,
};
use crate::matree::{bit_length, spec_bit_length, lemma_bit_length_le};

verus! {

/// Frame geometry a pass group depends on.
#[derive(Debug, Clone, Copy)]
pub struct GroupLayout {
    pub width: u32,
    pub height: u32,
    pub group_dim: u32,
    pub num_passes: u32,
}

/// `ceil(a / b)`.
pub open spec fn spec_div_ceil(a: u32, b: u32) -> int {
    (a + b - 1) / (b as int)
}

/// Number of groups of a layout: a grid of `group_dim`-sided cells.
pub open spec fn spec_num_groups(l: GroupLayout) -> int {
    spec_div_ceil(l.width, l.group_dim) * spec_div_ceil(l.height, l.group_dim)
}

/// A `PassGroup` bundle: pass and group index and the group's rectangle.
#[derive(Debug, Clone)]
pub struct PassGroup {
    pub pass_index: u32,
    pub group_index: u32,
    pub modular_group: ModularGroupData,
}

/// Rectangle of a group in frame coordinates.
#[derive(Debug, Clone, Copy)]
pub struct ModularGroupData {
    pub x_origin: u32,
    pub y_origin: u32,
    pub width: u32,
    pub height: u32,
}

/// Rectangle of group `group_index`, groups numbered in raster order over
/// the grid; `None` past the last group.
pub open spec fn spec_rect(l: GroupLayout, group_index: u32) -> Option<ModularGroupData> {
    let nx = spec_div_ceil(l.width, l.group_dim);
    let ny = spec_div_ceil(l.height, l.group_dim);
    if group_index >= nx * ny {
        None
    } else {
        let gx = group_index % (nx as u32);
        let gy = group_index / (nx as u32);
        let x0 = gx * l.group_dim;
        let y0 = gy * l.group_dim;
        let w = if l.width - x0 < l.group_dim { l.width - x0 } else { l.group_dim as int };
        let h = if l.height - y0 < l.group_dim { l.height - y0 } else { l.group_dim as int };
        Some(ModularGroupData { x_origin: x0 as u32, y_origin: y0 as u32, width: w as u32, height: h as u32 })
    }
}

/// `ceil(a / b)` for `b > 0`.
fn div_ceil_u32(a: u32, b: u32) -> (r: u32)
    requires
        b > 0,
    ensures
        r == spec_div_ceil(a, b),
{
    let q = a / b;
    let rem = a % b;
    proof {
        vstd::arithmetic::div_mod::lemma_fundamental_div_mod(a as int, b as int);
        if rem != 0 {
            assert(q < u32::MAX) by (nonlinear_arith)
                requires a == b * q + rem, rem > 0, rem < b, a <= u32::MAX, q >= 0;
        }
    }
    let r: u32 = if rem != 0 { q + 1 } else { q };
    proof {
        let rr: int = if rem != 0 { rem - 1 } else { b - 1 };
        assert(a + b - 1 == r * b + rr) by (nonlinear_arith)
            requires a == b * q + rem, r == (if rem != 0 { q + 1 } else { q as int }), rr == (if rem != 0 { rem - 1 } else { b - 1 });
        vstd::arithmetic::div_mod::lemma_fundamental_div_mod_converse((a + b - 1) as int, b as int, r as int, rr);
    }
    r
}

impl ModularGroupData {
    /// Rectangle of group `group_index` of the layout; fails past the last
    /// group.
    pub fn rect_for_index(l: &GroupLayout, group_index: u32) -> (r: Result<Self, JxlError>)
        requires
            l.group_dim > 0,
        ensures
            r is Ok <==> spec_rect(*l, group_index) is Some,
            r matches Ok(g) ==> g == spec_rect(*l, group_index).unwrap(),
            r matches Err(e) ==> e is InvalidData,
    {
        let g = l.group_dim;
        let nx = div_ceil_u32(l.width, g);
        let ny = div_ceil_u32(l.height, g);
        proof {
            assert(nx * ny <= u32::MAX * u32::MAX) by (nonlinear_arith)
                requires nx <= u32::MAX, ny <= u32::MAX, nx >= 0, ny >= 0;
        }
        let total: u64 = (nx as u64) * (ny as u64);
        if (group_index as u64) >= total {
            return Err(invalid("pass group: group index outside the grid"));
        }
        proof {
            assert(nx > 0) by (nonlinear_arith)
                requires group_index < nx * ny, nx >= 0, ny >= 0;
        }
        let gx = group_index % nx;
        let gy = group_index / nx;
        proof {
            vstd::arithmetic::div_mod::lemma_fundamental_div_mod(group_index as int, nx as int);
            assert(gy < ny) by (nonlinear_arith)
                requires group_index < nx * ny, group_index == nx * gy + gx, 0 <= gx, nx > 0;
            assert(gx * g < l.width) by (nonlinear_arith)
                requires gx < nx, nx == (l.width + g - 1) / (g as int), g > 0;
            assert(gy * g < l.height) by (nonlinear_arith)
                requires gy < ny, ny == (l.height + g - 1) / (g as int), g > 0;
        }
        let x_origin = gx * g;
        let y_origin = gy * g;
        let w = if l.width - x_origin < g { l.width - x_origin } else { g };
        let h = if l.height - y_origin < g { l.height - y_origin } else { g };
        Ok(ModularGroupData { x_origin, y_origin, width: w, height: h })
    }
}

impl PassGroup {
    /// The bundle's geometry for pass `pass_index` and group
    /// `group_index`; fails for a group or pass out of range.
    pub fn read(br: &mut BitReader<'_>, l: &GroupLayout, pass_index: u32, group_index: u32) -> (r: Result<Self, JxlError>)
        requires
            l.group_dim > 0,
        ensures
            *final(br) == *old(br),
            r is Ok <==> group_index < spec_num_groups(*l) && pass_index < l.num_passes,
            r matches Ok(pg) ==> pg.pass_index == pass_index && pg.group_index == group_index
                && pg.modular_group == spec_rect(*l, group_index).unwrap(),
            r matches Err(e) ==> e is InvalidData,
    {
        let nx = div_ceil_u32(l.width, l.group_dim);
        let ny = div_ceil_u32(l.height, l.group_dim);
        proof {
            assert(nx * ny <= u32::MAX * u32::MAX) by (nonlinear_arith)
                requires nx <= u32::MAX, ny <= u32::MAX, nx >= 0, ny >= 0;
        }
        if (group_index as u64) >= (nx as u64) * (ny as u64) {
            return Err(invalid("pass group: group index outside the frame"));
        }
        if pass_index >= l.num_passes {
            return Err(invalid("pass group: pass index outside the frame"));
        }
        let modular_group = ModularGroupData::rect_for_index(l, group_index)?;
        Ok(PassGroup { pass_index, group_index, modular_group })
    }
}

/// `floor(log2(max(ds, 1)))`.
pub open spec fn log2_ds(ds: u32) -> u32 {
    if ds <= 1 { 0 } else { (spec_bit_length(ds) - 1) as u32 }
}

/// Whether some `n < k` has `last_pass[n] == p`, and the least
/// `log2(downsample[n])` over them (`u32::MAX` if none; a missing
/// `downsample[n]` counts as 1).
pub open spec fn spec_min_log_ds(downsample: Seq<u32>, last_pass: Seq<u32>, p: u32, k: int) -> (bool, u32)
    decreases k,
{
    if k <= 0 {
        (false, u32::MAX)
    } else {
        let prev = spec_min_log_ds(downsample, last_pass, p, k - 1);
        if last_pass[k - 1] == p {
            let ds = if k - 1 < downsample.len() { downsample[k - 1] } else { 1 };
            let l = log2_ds(ds);
            (true, if l < prev.1 { l } else { prev.1 })
        } else {
            prev
        }
    }
}

/// `(minshift, maxshift)` of pass `p` (G.4.2): `maxshift` is 3 for the
/// first pass and the previous pass's `minshift` otherwise; `minshift` is
/// the least `log2(downsample[n])` over the `n` with `last_pass[n] == p`
/// — the final pass also counting downsampling 1 — or `maxshift` when
/// there is none.
pub open spec fn spec_shift_range(p: u32, downsample: Seq<u32>, last_pass: Seq<u32>, num_passes: u32) -> (u32, u32)
    decreases p,
{
    let maxshift: u32 = if p == 0 { 3 } else { spec_shift_range((p - 1) as u32, downsample, last_pass, num_passes).0 };
    let found = spec_min_log_ds(downsample, last_pass, p, last_pass.len() as int);
    let final_pass: u32 = if num_passes >= 1 { (num_passes - 1) as u32 } else { 0 };
    let (f, m) = if p == final_pass { (true, 0u32) } else { found };
    (if f { m } else { maxshift }, maxshift)
}

/// `floor(log2(max(ds, 1)))`.
fn log2_ds_exec(ds: u32) -> (r: u32)
    ensures
        r == log2_ds(ds),
{
    if ds <= 1 {
        0
    } else {
        proof {
            lemma_bit_length_le(ds);
        }
        bit_length(ds) - 1
    }
}

/// `(minshift, maxshift)` of pass `pass_index` (G.4.2), where the final
/// pass implicitly carries full resolution.
pub fn compute_pass_shift_range(pass_index: u32, downsample: &[u32], last_pass: &[u32], num_passes: u32) -> (r: (u32, u32))
    ensures
        r == spec_shift_range(pass_index, downsample@, last_pass@, num_passes),
{
    let final_pass: u32 = if num_passes >= 1 { num_passes - 1 } else { 0 };
    let mut prev_minshift: u32 = 3;
    let mut minshift: u32 = 3;
    let mut maxshift: u32 = 3;
    let mut p: u64 = 0;
    while p <= pass_index as u64
        invariant
            p <= pass_index as u64 + 1,
            final_pass == (if num_passes >= 1 { (num_passes - 1) as u32 } else { 0u32 }),
            p > 0 ==> (minshift, maxshift) == spec_shift_range((p - 1) as u32, downsample@, last_pass@, num_passes),
            p > 0 ==> prev_minshift == minshift,
        decreases pass_index as u64 + 1 - p,
    {
        let pp = p as u32;
        maxshift = if pp == 0 { 3 } else { prev_minshift };
        let mut found_for_this = false;
        let mut min_log_ds: u32 = u32::MAX;
        let mut n: usize = 0;
        while n < last_pass.len()
            invariant
                n <= last_pass@.len(),
                (found_for_this, min_log_ds) == spec_min_log_ds(downsample@, last_pass@, pp, n as int),
            decreases last_pass@.len() - n,
        {
            if last_pass[n] == pp {
                let ds = if n < downsample.len() { downsample[n] } else { 1 };
                let log_ds = log2_ds_exec(ds);
                if log_ds < min_log_ds {
                    min_log_ds = log_ds;
                }
                found_for_this = true;
            }
            n = n + 1;
        }
        if pp == final_pass {
            if 0 < min_log_ds {
                min_log_ds = 0;
            }
            found_for_this = true;
        }
        minshift = if found_for_this { min_log_ds } else { maxshift };
        prev_minshift = minshift;
        p = p + 1;
    }
    (minshift, maxshift)
}



/// `x >> s`, a negative shift counting as none.
pub open spec fn shifted(x: u32, s: i32) -> int {
    if s <= 0 { x as int } else { x as int / pow2(s as nat) as int }
}

/// `x >> s` for a shift below 32, a negative shift counting as none.
fn shift_down(x: u32, s: i32) -> (r: u32)
    requires
        s < 32,
    ensures
        r == shifted(x, s),
{
    let hs: u32 = if s > 0 { s as u32 } else { 0 };
    let r = x >> hs;
    proof {
        vstd::bits::lemma_u32_shr_is_div(x, hs);
        vstd::arithmetic::power2::lemma2_to64();
        assert(r == x as nat / pow2(hs as nat));
        if s <= 0 {
            assert(pow2(0) == 1);
            assert(x as nat / 1 == x as nat);
        } else {
            assert(hs as nat == s as nat);
        }
    }
    r
}

/// Whether channel `i` (description `d`) of the partially decoded
/// GlobalModular image has samples in a pass group covering `rect`
/// (G.4.2): it is no meta-channel, it was not decoded whole in
/// GlobalModular, it is no LfGroup channel, `min(hshift, vshift)` lies in
/// `[minshift, maxshift)`, and the group is not empty at its resolution.
pub open spec fn channel_in_group(
    d: ChannelDesc,
    i: int,
    nb_meta: int,
    group_dim: u32,
    minshift: u32,
    maxshift: u32,
    rect: ModularGroupData,
) -> bool {
    let m: int = if d.hshift < d.vshift { d.hshift as int } else { d.vshift as int };
    &&& i >= nb_meta
    &&& !(d.width <= group_dim && d.height <= group_dim)
    &&& !(d.hshift >= 3 && d.vshift >= 3)
    &&& minshift <= m < maxshift
    &&& shifted(rect.width, d.hshift) != 0
    &&& shifted(rect.height, d.vshift) != 0
}

/// A channel's share of a pass group: the channel's index in the full
/// image, the group's origin at the channel's resolution, and the
/// description of the group's part of the channel.
#[derive(Debug, Clone, Copy)]
pub struct GroupChannel {
    pub full_idx: usize,
    pub x0: u32,
    pub y0: u32,
    pub desc: ChannelDesc,
}

/// The share of channel `i` (description `d`) in the group covering
/// `rect`: offsets and sizes shifted by `hshift` horizontally and `vshift`
/// vertically.
pub open spec fn group_channel_of(d: ChannelDesc, i: int, rect: ModularGroupData) -> GroupChannel {
    GroupChannel {
        full_idx: i as usize,
        x0: shifted(rect.x_origin, d.hshift) as u32,
        y0: shifted(rect.y_origin, d.vshift) as u32,
        desc: ChannelDesc {
            width: shifted(rect.width, d.hshift) as u32,
            height: shifted(rect.height, d.vshift) as u32,
            hshift: d.hshift,
            vshift: d.vshift,
        },
    }
}

/// The shares, in channel order, of the first `n` channels of `descs`
/// that have samples in the group.
pub open spec fn group_channels(
    descs: Seq<ChannelDesc>,
    n: int,
    nb_meta: int,
    group_dim: u32,
    minshift: u32,
    maxshift: u32,
    rect: ModularGroupData,
) -> Seq<GroupChannel>
    decreases n,
{
    if n <= 0 {
        Seq::empty()
    } else {
        let prev = group_channels(descs, n - 1, nb_meta, group_dim, minshift, maxshift, rect);
        if channel_in_group(descs[n - 1], n - 1, nb_meta, group_dim, minshift, maxshift, rect) {
            prev.push(group_channel_of(descs[n - 1], n - 1, rect))
        } else {
            prev
        }
    }
}

/// The channel shares pass `pass_index` carries in group `group_index`
/// (empty for a group outside the frame).
pub open spec fn pass_group_channels(
    descs: Seq<ChannelDesc>,
    nb_meta: int,
    l: GroupLayout,
    downsample: Seq<u32>,
    last_pass: Seq<u32>,
    pass_index: u32,
    group_index: u32,
) -> Seq<GroupChannel> {
    match spec_rect(l, group_index) {
        None => Seq::empty(),
        Some(rect) => {
            let (mn, mx) = spec_shift_range(pass_index, downsample, last_pass, l.num_passes);
            group_channels(descs, descs.len() as int, nb_meta, l.group_dim, mn, mx, rect)
        },
    }
}

/// Shares list channels in increasing order, each one that has samples
/// in the group, described by [`group_channel_of`].
proof fn lemma_group_channels(
    descs: Seq<ChannelDesc>,
    n: int,
    nb_meta: int,
    group_dim: u32,
    minshift: u32,
    maxshift: u32,
    rect: ModularGroupData,
)
    requires
        0 <= n <= descs.len(),
        descs.len() <= usize::MAX,
    ensures
        ({
            let g = group_channels(descs, n, nb_meta, group_dim, minshift, maxshift, rect);
            &&& g.len() <= n
            &&& forall|k: int| 0 <= k < g.len() ==> {
                let i = (#[trigger] g[k]).full_idx as int;
                &&& 0 <= i < n
                &&& channel_in_group(descs[i], i, nb_meta, group_dim, minshift, maxshift, rect)
                &&& g[k] == group_channel_of(descs[i], i, rect)
            }
            &&& forall|k1: int, k2: int| 0 <= k1 < k2 < g.len() ==> (#[trigger] g[k1]).full_idx < (#[trigger] g[k2]).full_idx
        }),
    decreases n,
{
    if n > 0 {
        lemma_group_channels(descs, n - 1, nb_meta, group_dim, minshift, maxshift, rect);
        let prev = group_channels(descs, n - 1, nb_meta, group_dim, minshift, maxshift, rect);
        let g = group_channels(descs, n, nb_meta, group_dim, minshift, maxshift, rect);
        if channel_in_group(descs[n - 1], n - 1, nb_meta, group_dim, minshift, maxshift, rect) {
            let c = group_channel_of(descs[n - 1], n - 1, rect);
            assert(g == prev.push(c));
            assert(c.full_idx as int == n - 1);
            assert forall|k: int| 0 <= k < g.len() implies {
                let i = (#[trigger] g[k]).full_idx as int;
                &&& 0 <= i < n
                &&& channel_in_group(descs[i], i, nb_meta, group_dim, minshift, maxshift, rect)
                &&& g[k] == group_channel_of(descs[i], i, rect)
            } by {
                if k < prev.len() {
                    assert(g[k] == prev[k]);
                }
            }
            assert forall|k1: int, k2: int| 0 <= k1 < k2 < g.len() implies (#[trigger] g[k1]).full_idx < (#[trigger] g[k2]).full_idx by {
                assert(g[k1] == prev[k1]);
                if k2 < prev.len() {
                    assert(g[k2] == prev[k2]);
                }
            }
        } else {
            assert(g == prev);
        }
    }
}

/// The shares of the channels of `descs` in the group covering `rect`.
fn contributing_channels(
    descs: &[ChannelDesc],
    nb_meta: usize,
    group_dim: u32,
    minshift: u32,
    maxshift: u32,
    rect: &ModularGroupData,
) -> (r: Vec<GroupChannel>)
    requires
        forall|i: int| 0 <= i < descs@.len() ==> (#[trigger] descs@[i]).hshift < 32 && descs@[i].vshift < 32,
    ensures
        r@ == group_channels(descs@, descs@.len() as int, nb_meta as int, group_dim, minshift, maxshift, *rect),
{
    let mut out: Vec<GroupChannel> = Vec::new();
    let mut i: usize = 0;
    while i < descs.len()
        invariant
            i <= descs@.len(),
            forall|k: int| 0 <= k < descs@.len() ==> (#[trigger] descs@[k]).hshift < 32 && descs@[k].vshift < 32,
            out@ == group_channels(descs@, i as int, nb_meta as int, group_dim, minshift, maxshift, *rect),
        decreases descs@.len() - i,
    {
        let d = descs[i];
        let m: i32 = if d.hshift < d.vshift { d.hshift } else { d.vshift };
        let w = shift_down(rect.width, d.hshift);
        let h = shift_down(rect.height, d.vshift);
        let takes = i >= nb_meta && !(d.width <= group_dim && d.height <= group_dim)
            && !(d.hshift >= 3 && d.vshift >= 3) && (minshift as i64) <= (m as i64)
            && (m as i64) < (maxshift as i64) && w != 0 && h != 0;
        if takes {
            let x0 = shift_down(rect.x_origin, d.hshift);
            let y0 = shift_down(rect.y_origin, d.vshift);
            out.push(GroupChannel {
                full_idx: i,
                x0,
                y0,
                desc: ChannelDesc { width: w, height: h, hshift: d.hshift, vshift: d.vshift },
            });
        }
        i = i + 1;
    }
    out
}

/// Whether `(col, row)` of channel `g.full_idx` lies in the share `g`.
pub open spec fn in_share(g: GroupChannel, col: int, row: int) -> bool {
    g.x0 <= col < g.x0 + g.desc.width && g.y0 <= row < g.y0 + g.desc.height
}

/// Whether `(col, row)` of channel `j` lies in one of the shares.
pub open spec fn in_shares(gs: Seq<GroupChannel>, j: int, col: int, row: int) -> bool {
    exists|k: int| 0 <= k < gs.len() && (#[trigger] gs[k]).full_idx == j && in_share(gs[k], col, row)
}

/// Whether every share fits inside its channel.
pub open spec fn shares_fit(gs: Seq<GroupChannel>, descs: Seq<ChannelDesc>) -> bool {
    forall|k: int| 0 <= k < gs.len() ==> {
        let g = #[trigger] gs[k];
        &&& g.full_idx < descs.len()
        &&& g.x0 + g.desc.width <= descs[g.full_idx as int].width
        &&& g.y0 + g.desc.height <= descs[g.full_idx as int].height
    }
}

/// Samples of `b` equal those of `a` everywhere outside the shares.
pub open spec fn same_outside(a: ModularImage, b: ModularImage, gs: Seq<GroupChannel>) -> bool {
    &&& b.descs@ == a.descs@
    &&& b.channels@.len() == a.channels@.len()
    &&& forall|j: int, col: int, row: int|
        0 <= j < a.channels@.len() && 0 <= col < a.descs@[j].width && 0 <= row < a.descs@[j].height
            && !in_shares(gs, j, col, row) ==> (#[trigger] b.channels@[j]@[pixel_index(a.descs@[j].width as int, col, row)])
            == a.channels@[j]@[pixel_index(a.descs@[j].width as int, col, row)]
}

/// Two row-major positions of one width are equal only for equal
/// coordinates.
proof fn lemma_pixel_index_inj(w: int, c1: int, r1: int, c2: int, r2: int)
    requires
        0 <= c1 < w,
        0 <= c2 < w,
        0 <= r1,
        0 <= r2,
        pixel_index(w, c1, r1) == pixel_index(w, c2, r2),
    ensures
        c1 == c2 && r1 == r2,
{
    assert(r1 == r2) by (nonlinear_arith)
        requires 0 <= c1 < w, 0 <= c2 < w, 0 <= r1, 0 <= r2, r1 * w + c1 == r2 * w + c2;
}

/// Sample `(x, y)` of share `g` in the full image.
pub open spec fn share_sample(img: ModularImage, g: GroupChannel, x: int, y: int) -> i32 {
    img.channels@[g.full_idx as int]@[pixel_index(img.descs@[g.full_idx as int].width as int, g.x0 + x, g.y0 + y)]
}

/// The samples of share `g` before `(x, y)` in raster order hold those of
/// `src` (row-major, the share's width).
pub open spec fn share_holds_before(img: ModularImage, g: GroupChannel, src: Seq<i32>, n: int) -> bool {
    forall|x: int, y: int| 0 <= x < g.desc.width && 0 <= y < g.desc.height && pixel_index(g.desc.width as int, x, y) < n
        ==> #[trigger] share_sample(img, g, x, y) == src[pixel_index(g.desc.width as int, x, y)]
}

/// Every sample of share `g` holds the one of `src`.
pub open spec fn share_holds(img: ModularImage, g: GroupChannel, src: Seq<i32>) -> bool {
    forall|x: int, y: int| 0 <= x < g.desc.width && 0 <= y < g.desc.height
        ==> #[trigger] share_sample(img, g, x, y) == src[pixel_index(g.desc.width as int, x, y)]
}

/// Copy the samples of share `g` (`src`, row-major) into the full image.
fn copy_share(image: &mut ModularImage, g: GroupChannel, src: &Vec<i32>)
    requires
        img_wf(*old(image)),
        g.full_idx < old(image).channels@.len(),
        g.x0 + g.desc.width <= old(image).descs@[g.full_idx as int].width,
        g.y0 + g.desc.height <= old(image).descs@[g.full_idx as int].height,
        src@.len() == g.desc.width * g.desc.height,
    ensures
        img_wf(*final(image)),
        same_outside(*old(image), *final(image), seq![g]),
        share_holds(*final(image), g, src@),
{
    let ghost start = *image;
    let w = g.desc.width;
    let h = g.desc.height;
    let ghost gs = seq![g];
    let n_src: usize = src.len();
    let mut y: u32 = 0;
    while y < h
        invariant
            img_wf(*image),
            img_wf(start),
            start == *old(image),
            gs == seq![g],
            g.full_idx < start.channels@.len(),
            w == g.desc.width && h == g.desc.height,
            g.x0 + w <= start.descs@[g.full_idx as int].width,
            g.y0 + h <= start.descs@[g.full_idx as int].height,
            src@.len() == w * h,
            n_src == src@.len(),
            y <= h,
            same_outside(start, *image, gs),
            share_holds_before(*image, g, src@, pixel_index(w as int, 0, y as int)),
        decreases h - y,
    {
        let mut x: u32 = 0;
        while x < w
            invariant
                img_wf(*image),
                img_wf(start),
                start == *old(image),
                gs == seq![g],
                g.full_idx < start.channels@.len(),
                w == g.desc.width && h == g.desc.height,
                g.x0 + w <= start.descs@[g.full_idx as int].width,
                g.y0 + h <= start.descs@[g.full_idx as int].height,
                src@.len() == w * h,
                n_src == src@.len(),
                y < h,
                x <= w,
                same_outside(start, *image, gs),
                share_holds_before(*image, g, src@, pixel_index(w as int, x as int, y as int)),
            decreases w - x,
        {
            proof {
                lemma_index_bounds(w as int, h as int, x as int, y as int);
                assert(pixel_index(w as int, x as int, y as int) < src@.len());
                assert(y * w + x < src@.len());
            }
            let idx: usize = (y as usize) * (w as usize) + (x as usize);
            let v = src[idx];
            let ghost before = *image;
            image.set(g.full_idx, g.x0 + x, g.y0 + y, v);
            proof {
                let fi = g.full_idx as int;
                let pw = start.descs@[fi].width as int;
                assert forall|j: int, col: int, row: int|
                    0 <= j < start.channels@.len() && 0 <= col < start.descs@[j].width && 0 <= row < start.descs@[j].height
                        && !in_shares(gs, j, col, row) implies (#[trigger] image.channels@[j]@[pixel_index(start.descs@[j].width as int, col, row)])
                        == start.channels@[j]@[pixel_index(start.descs@[j].width as int, col, row)] by {
                    assert(chan_wf(start.descs@[j], start.channels@[j]@));
                    lemma_index_bounds(start.descs@[j].width as int, start.descs@[j].height as int, col, row);
                    assert(before.channels@[j]@[pixel_index(start.descs@[j].width as int, col, row)]
                        == start.channels@[j]@[pixel_index(start.descs@[j].width as int, col, row)]);
                    assert(image.descs@ == start.descs@);
                    if j == fi {
                        assert(gs[0] == g);
                        assert(!in_share(g, col, row));
                        let idx = pixel_index(pw, (g.x0 + x) as int, (g.y0 + y) as int);
                        assert(chan_wf(before.descs@[j], before.channels@[j]@));
                        lemma_index_bounds(pw, start.descs@[j].height as int, (g.x0 + x) as int, (g.y0 + y) as int);
                        assert(0 <= idx < before.channels@[j]@.len());
                        assert(image.channels@[j]@ == before.channels@[j]@.update(idx, v));
                        if pixel_index(pw, col, row) == idx {
                            lemma_pixel_index_inj(pw, col, row, (g.x0 + x) as int, (g.y0 + y) as int);
                        }
                        assert(pixel_index(pw, col, row) != idx);
                        assert(chan_wf(before.descs@[j], before.channels@[j]@));
                        assert(0 <= pixel_index(pw, col, row) < before.channels@[j]@.len());
                        assert(image.channels@[j]@[pixel_index(pw, col, row)] == before.channels@[j]@[pixel_index(pw, col, row)]);
                    } else {
                        assert(image.channels@[j] == before.channels@[j]);
                    }
                }
                let n = pixel_index(w as int, x as int, y as int);
                let idx = pixel_index(pw, (g.x0 + x) as int, (g.y0 + y) as int);
                assert(chan_wf(before.descs@[fi], before.channels@[fi]@));
                lemma_index_bounds(pw, start.descs@[fi].height as int, (g.x0 + x) as int, (g.y0 + y) as int);
                assert(image.channels@[fi]@ == before.channels@[fi]@.update(idx, v));
                assert forall|xx: int, yy: int| 0 <= xx < w && 0 <= yy < h && pixel_index(w as int, xx, yy) < n + 1
                    implies #[trigger] share_sample(*image, g, xx, yy) == src@[pixel_index(w as int, xx, yy)] by {
                    let jdx = pixel_index(pw, g.x0 + xx, g.y0 + yy);
                    lemma_index_bounds(pw, start.descs@[fi].height as int, g.x0 + xx, g.y0 + yy);
                    if pixel_index(w as int, xx, yy) < n {
                        assert(share_sample(before, g, xx, yy) == src@[pixel_index(w as int, xx, yy)]);
                        if jdx == idx {
                            lemma_pixel_index_inj(pw, g.x0 + xx, g.y0 + yy, (g.x0 + x) as int, (g.y0 + y) as int);
                        }
                        assert(jdx != idx);
                    } else {
                        lemma_pixel_index_inj(w as int, xx, yy, x as int, y as int);
                    }
                }
            }
            x = x + 1;
        }
        proof {
            assert(pixel_index(w as int, w as int, y as int) == pixel_index(w as int, 0, (y + 1) as int)) by (nonlinear_arith);
        }
        y = y + 1;
    }
    proof {
        assert forall|xx: int, yy: int| 0 <= xx < w && 0 <= yy < h
            implies #[trigger] share_sample(*image, g, xx, yy) == src@[pixel_index(w as int, xx, yy)] by {
            lemma_index_bounds(w as int, h as int, xx, yy);
            assert(pixel_index(w as int, 0, h as int) == w * h) by (nonlinear_arith);
        }
    }
}

/// `U32` distributions of a ModularHeader's `nb_transforms`.
pub open spec fn nb_transforms_dists() -> [U32Dist; 4] {
    [U32Dist::Val(0), U32Dist::Val(1), U32Dist::BitsOffset(4, 2), U32Dist::BitsOffset(8, 18)]
}

/// Most transforms a ModularHeader may list.
pub const MAX_TRANSFORMS: u32 = 274;

/// The start of a group's ModularHeader (Table H.1) read at bit `pos`:
/// `use_global_tree`, the `WPHeader` and `nb_transforms`, with the
/// position after them; `None` when the stream ends early.
pub open spec fn spec_group_header(s: Seq<u8>, pos: int) -> Option<(bool, WpHeader, u32, int)> {
    if pos + 1 > total_bits(s) {
        None
    } else {
        match spec_wp_header(s, pos + 1) {
            None => None,
            Some((wp, p1)) => match spec_u32(s, p1, nb_transforms_dists()) {
                None => None,
                Some((nb, p2)) => Some((bits_le(s, pos, 1) == 1, wp, nb as u32, p2)),
            },
        }
    }
}

/// Read `nb` `TransformInfo` bundles.
fn skip_transforms(br: &mut BitReader<'_>, nb: u32) -> (r: Result<(), JxlError>)
    requires
        old(br).wf(),
    ensures
        nb == 0 ==> r is Ok && final(br).pos() == old(br).pos() && final(br).bytes() == old(br).bytes(),
{
    if nb == 0 {
        return Ok(());
    }
    let mut t: u32 = 0;
    while t < nb
        invariant
            t <= nb,
        decreases nb - t,
    {
        proof { use_type_invariant(&*br); }
        let _tr = TransformInfo::read(br)?;
        t = t + 1;
    }
    Ok(())
}

/// Stream index of pass group `(pass_index, group_index)`:
/// `1 + 3 num_lf_groups + 17 + num_groups pass_index + group_index`,
/// wrapped to `i32` as property 1 takes it.
pub open spec fn group_stream_index(num_lf_groups: u64, l: GroupLayout, pass_index: u32, group_index: u32) -> i32 {
    (1 + 3 * num_lf_groups + 17 + spec_num_groups(l) * pass_index + group_index) as i32
}

/// The shares `gs` of `img` hold a pass group decoded from its stream:
/// `gi` has one channel per share, with the share's description, each
/// decoded by `decode` with `tree` and `wp` at `stream_index` (distance
/// multiplier the widest share), and every share of `img` holds its
/// channel of `gi`.
pub open spec fn group_decoded<E, D: FnMut(&mut E, &mut BitReader<'_>, u32, u32) -> Result<u32, JxlError>>(
    decode: D, img: ModularImage, gs: Seq<GroupChannel>, gi: ModularImage, tree: MaTreeFdis, wp: WpHeader,
    stream_index: i32,
) -> bool {
    &&& img_wf(gi)
    &&& gi.descs@.len() == gs.len()
    &&& forall|k: int| 0 <= k < gs.len() ==> #[trigger] gi.descs@[k] == gs[k].desc
    &&& forall|k: int| 0 <= k < gs.len() ==> #[trigger] channel_decoded::<E, D>(decode, gi, k, tree, wp, stream_index,
        max_width(gi.descs@, gs.len() as int), tree_uses_wp(tree.nodes@))
    &&& forall|k: int| 0 <= k < gs.len() ==> #[trigger] share_holds(img, gs[k], gi.channels@[k]@)
}

/// A share of another channel keeps its samples while share `g` is
/// copied.
proof fn lemma_share_kept(before: ModularImage, after: ModularImage, h: GroupChannel, g: GroupChannel, src: Seq<i32>)
    requires
        img_wf(before),
        h.full_idx < before.channels@.len(),
        h.x0 + h.desc.width <= before.descs@[h.full_idx as int].width,
        h.y0 + h.desc.height <= before.descs@[h.full_idx as int].height,
        h.full_idx != g.full_idx,
        share_holds(before, h, src),
        same_outside(before, after, seq![g]),
    ensures
        share_holds(after, h, src),
{
    let j = h.full_idx as int;
    assert forall|x: int, y: int| 0 <= x < h.desc.width && 0 <= y < h.desc.height
        implies #[trigger] share_sample(after, h, x, y) == src[pixel_index(h.desc.width as int, x, y)] by {
        assert(share_sample(before, h, x, y) == src[pixel_index(h.desc.width as int, x, y)]);
        if in_shares(seq![g], j, h.x0 + x, h.y0 + y) {
            let kk = choose|kk: int| 0 <= kk < seq![g].len() && (#[trigger] seq![g][kk]).full_idx == j
                && in_share(seq![g][kk], h.x0 + x, h.y0 + y);
            assert(seq![g][kk] == g);
        }
    }
}

/// Samples of two images agree channel by channel.
pub open spec fn same_samples(a: ModularImage, b: ModularImage) -> bool {
    &&& b.descs@ == a.descs@
    &&& b.channels@.len() == a.channels@.len()
    &&& forall|j: int| 0 <= j < a.channels@.len() ==> (#[trigger] b.channels@[j])@ == a.channels@[j]@
}

/// Decode pass group `(pass_index, group_index)`'s modular sub-bitstream
/// (G.4.2) into `image`, the partially decoded GlobalModular image whose
/// first `nb_meta_channels` channels are meta-channels.
///
/// The channels with samples in the group are those of
/// [`pass_group_channels`]; without any, nothing is read. Otherwise the
/// group's ModularHeader is read — `use_global_tree`, `WPHeader`,
/// `nb_transforms` and the transforms, which are refused — then the MA
/// tree: `global_tree` with a stream restarted by `restart`, or a tree of
/// its own read with `open` and `decode` (see [`MaTreeFdis::read`]). The
/// group's channels are decoded with `decode` at stream index
/// `1 + 3 num_lf_groups + 17 + num_groups pass_index + group_index`, and
/// copied into `image` at the group's position.
pub fn decode_modular_group_into<E, O, D, R>(
    br: &mut BitReader<'_>,
    l: &GroupLayout,
    downsample: &[u32],
    last_pass: &[u32],
    num_lf_groups: u64,
    image: &mut ModularImage,
    nb_meta_channels: usize,
    global_tree: Option<&(MaTreeFdis, E)>,
    pass_index: u32,
    group_index: u32,
    open: &mut O,
    decode: &mut D,
    restart: &mut R,
) -> (r: Result<(), JxlError>)
    where
        O: FnMut(&mut BitReader<'_>, usize) -> Result<E, JxlError>,
        D: FnMut(&mut E, &mut BitReader<'_>, u32, u32) -> Result<u32, JxlError>,
        R: FnMut(&E) -> E,
    requires
        l.group_dim > 0,
        img_wf(*old(image)),
        forall|i: int| 0 <= i < old(image).descs@.len() ==> (#[trigger] old(image).descs@[i]).hshift < 32
            && old(image).descs@[i].vshift < 32,
        shares_fit(
            pass_group_channels(old(image).descs@, nb_meta_channels as int, *l, downsample@, last_pass@, pass_index, group_index),
            old(image).descs@,
        ),
        1 + 3 * num_lf_groups + 17 + spec_num_groups(*l) * pass_index + group_index <= u64::MAX,
        global_tree matches Some(g) ==> fdis_tree_wf(g.0.nodes@, g.0.num_ctx as int),
        open_ready::<E, O>(*old(open)),
        decode_ready::<E, D>(*old(decode)),
        forall|e: &E| call_requires(*old(restart), (e,)),
    ensures
        img_wf(*final(image)),
        !(group_index < spec_num_groups(*l) && pass_index < l.num_passes) ==> (r matches Err(e) && e is InvalidData
            && final(br).pos() == old(br).pos() && final(br).bytes() == old(br).bytes()),
        r is Err ==> same_samples(*old(image), *final(image)),
        ({
            let gs = pass_group_channels(old(image).descs@, nb_meta_channels as int, *l, downsample@, last_pass@, pass_index, group_index);
            let hdr = spec_group_header(old(br).bytes(), old(br).pos());
            &&& (group_index < spec_num_groups(*l) && pass_index < l.num_passes && gs.len() == 0) ==> (r is Ok
                && same_samples(*old(image), *final(image)) && final(br).pos() == old(br).pos())
            &&& (group_index < spec_num_groups(*l) && pass_index < l.num_passes && gs.len() > 0) ==> {
                &&& hdr is None ==> r is Err
                &&& (hdr matches Some((_, _, nb, _)) && nb > MAX_TRANSFORMS ==> (r matches Err(e) && e is InvalidData))
                &&& (hdr matches Some((_, _, nb, _)) && 1 <= nb <= MAX_TRANSFORMS ==> r is Err)
                &&& (hdr matches Some((ugt, _, nb, _)) && nb == 0 && ugt && global_tree is None ==> (r matches Err(e) && e is InvalidData))
            }
            &&& r is Ok ==> same_outside(*old(image), *final(image), gs)
            &&& (r is Ok && gs.len() > 0) ==> (hdr matches Some((ugt, wp, _, _)) && exists|gi: ModularImage, t: MaTreeFdis|
                #[trigger] group_decoded::<E, D>(*old(decode), *final(image), gs, gi, t, wp,
                    group_stream_index(num_lf_groups, *l, pass_index, group_index))
                && if ugt {
                    global_tree matches Some(g) && t.nodes@ == g.0.nodes@ && t.num_ctx == g.0.num_ctx
                } else {
                    tree_read_by_stream::<E, D>(*old(decode), t.nodes@)
                })
        }),
{
    let ghost d0 = *decode;
    let nx = div_ceil_u32(l.width, l.group_dim);
    let ny = div_ceil_u32(l.height, l.group_dim);
    proof {
        assert(nx * ny <= u32::MAX * u32::MAX) by (nonlinear_arith)
            requires nx <= u32::MAX, ny <= u32::MAX, nx >= 0, ny >= 0;
    }
    let num_groups: u64 = (nx as u64) * (ny as u64);
    if (group_index as u64) >= num_groups {
        return Err(invalid("pass group: group index outside the frame"));
    }
    if pass_index >= l.num_passes {
        return Err(invalid("pass group: pass index outside the frame"));
    }
    let rect = ModularGroupData::rect_for_index(l, group_index)?;
    let (minshift, maxshift) = compute_pass_shift_range(pass_index, downsample, last_pass, l.num_passes);
    let gs = contributing_channels(&image.descs, nb_meta_channels, l.group_dim, minshift, maxshift, &rect);
    let _nd: usize = image.descs.len();
    proof {
        lemma_group_channels(image.descs@, image.descs@.len() as int, nb_meta_channels as int, l.group_dim, minshift, maxshift, rect);
    }
    if gs.len() == 0 {
        return Ok(());
    }
    proof { use_type_invariant(&*br); }
    let ghost br0 = *br;
    let use_global_tree = br.read_bool()?;
    let wp = WpHeader::read(br)?;
    let nb_dists = [U32Dist::Val(0), U32Dist::Val(1), U32Dist::BitsOffset(4, 2), U32Dist::BitsOffset(8, 18)];
    proof {
        vstd::arithmetic::power2::lemma2_to64();
        assert(nb_dists == nb_transforms_dists());
        assert forall|i: int| 0 <= i < 4 implies dist_wf(#[trigger] nb_dists@[i]) by {}
    }
    let nb_transforms = br.read_u32(nb_dists)?;
    if nb_transforms > MAX_TRANSFORMS {
        return Err(invalid("pass group: too many transforms"));
    }
    proof { use_type_invariant(&*br); }
    skip_transforms(br, nb_transforms)?;
    if nb_transforms > 0 {
        return Err(unsupported("pass group: transforms inside a group's ModularHeader"));
    }
    let (tree, mut stream) = if use_global_tree {
        match global_tree {
            Some(g) => {
                let t = g.0.cloned_with_fresh_state();
                let s = restart(&g.1);
                (t, s)
            },
            None => {
                return Err(invalid("pass group: global tree requested but none was decoded"));
            },
        }
    } else {
        proof { use_type_invariant(&*br); }
        MaTreeFdis::read(br, open, decode)?
    };
    proof {
        let hdr = spec_group_header(br0.bytes(), br0.pos());
        assert(hdr matches Some((ugt, w, _, _)) && ugt == use_global_tree && w == wp);
        if use_global_tree {
            assert(global_tree matches Some(g) && tree.nodes@ == g.0.nodes@ && tree.num_ctx == g.0.num_ctx);
        } else {
            assert(tree_read_by_stream::<E, D>(d0, tree.nodes@));
        }
    }
    let mut group_descs: Vec<ChannelDesc> = Vec::new();
    let mut k: usize = 0;
    while k < gs.len()
        invariant
            k <= gs@.len(),
            group_descs@.len() == k,
            forall|kk: int| 0 <= kk < k ==> group_descs@[kk] == (#[trigger] gs@[kk]).desc,
        decreases gs@.len() - k,
    {
        group_descs.push(gs[k].desc);
        k = k + 1;
    }
    let stream_index_wide: u64 = 1 + 3 * num_lf_groups + 17 + num_groups * (pass_index as u64) + (group_index as u64);
    let stream_index: i32 = #[verifier::truncate] (stream_index_wide as i32);
    proof { use_type_invariant(&*br); }
    proof {
        assert(*decode == d0);
        assert(group_descs@ =~= gs@.map_values(|g: GroupChannel| g.desc));
    }
    let group_image = decode_channels_at_stream(br, &group_descs, &tree, &mut stream, &wp, stream_index, decode)?;
    let ghost start = *image;
    let mut k: usize = 0;
    while k < gs.len()
        invariant
            k <= gs@.len(),
            img_wf(*image),
            img_wf(start),
            img_wf(group_image),
            group_image.descs@ == group_descs@,
            group_descs@.len() == gs@.len(),
            forall|kk: int| 0 <= kk < gs@.len() ==> group_descs@[kk] == (#[trigger] gs@[kk]).desc,
            shares_fit(gs@, start.descs@),
            forall|k1: int, k2: int| 0 <= k1 < k2 < gs@.len() ==> (#[trigger] gs@[k1]).full_idx < (#[trigger] gs@[k2]).full_idx,
            same_outside(start, *image, gs@.subrange(0, k as int)),
            forall|kk: int| 0 <= kk < k ==> #[trigger] share_holds(*image, gs@[kk], group_image.channels@[kk]@),
        decreases gs@.len() - k,
    {
        let g = gs[k];
        proof {
            assert(chan_wf(group_image.descs@[k as int], group_image.channels@[k as int]@));
            assert(shares_fit(gs@, start.descs@));
            assert(gs@[k as int] == g);
        }
        let ghost before = *image;
        copy_share(image, g, &group_image.channels[k]);
        proof {
            assert forall|kk: int| 0 <= kk < k + 1 implies #[trigger] share_holds(*image, gs@[kk],
                group_image.channels@[kk]@) by {
                if kk < k {
                    let h = gs@[kk];
                    assert(h.full_idx < g.full_idx);
                    assert(before.descs@ == start.descs@);
                    lemma_share_kept(before, *image, h, g, group_image.channels@[kk]@);
                }
            }
            let pre = gs@.subrange(0, k as int);
            let post = gs@.subrange(0, k + 1);
            assert forall|j: int, col: int, row: int|
                0 <= j < start.channels@.len() && 0 <= col < start.descs@[j].width && 0 <= row < start.descs@[j].height
                    && !in_shares(post, j, col, row) implies (#[trigger] image.channels@[j]@[pixel_index(start.descs@[j].width as int, col, row)])
                    == start.channels@[j]@[pixel_index(start.descs@[j].width as int, col, row)] by {
                assert(post[k as int] == g);
                if in_shares(pre, j, col, row) {
                    let kk = choose|kk: int| 0 <= kk < pre.len() && (#[trigger] pre[kk]).full_idx == j && in_share(pre[kk], col, row);
                    assert(post[kk] == pre[kk]);
                }
                if in_shares(seq![g], j, col, row) {
                    assert(seq![g][0] == g);
                }
                assert(!in_shares(seq![g], j, col, row));
            }
        }
        k = k + 1;
    }
    proof {
        assert(gs@.subrange(0, gs@.len() as int) == gs@);
        assert(group_decoded::<E, D>(d0, *image, gs@, group_image, tree, wp, stream_index));
        assert(num_groups == spec_num_groups(*l));
        assert(stream_index == group_stream_index(num_lf_groups, *l, pass_index, group_index));
        assert(br0 == *old(br));
        let hdr = spec_group_header(old(br).bytes(), old(br).pos());
        assert(hdr matches Some((ugt, w, _, _)) && ugt == use_global_tree && w == wp);
        assert(if use_global_tree {
            global_tree matches Some(g) && tree.nodes@ == g.0.nodes@ && tree.num_ctx == g.0.num_ctx
        } else {
            tree_read_by_stream::<E, D>(d0, tree.nodes@)
        });
    }
    Ok(())
}
} // verus!
