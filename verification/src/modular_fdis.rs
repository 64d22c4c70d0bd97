//! Modular image sub-bitstream of ISO/IEC 18181-1:2024 Annex H: image
//! storage, neighbours (Table H.2), predictors (Table H.3), properties
//! (Table H.4), MA-tree traversal (H.4.1) and decoding (H.4.2), the
//! self-correcting predictor (H.5), the channel decode loop (H.3) and the
//! inverse transforms RCT, Palette and Squeeze (H.6).
//!
//! The entropy-coded streams (ANS or prefix codes with hybrid integers)
//! are read by the caller; the tree decode and the channel decode take
//! the integer reader as a function of the context.
use vstd::prelude::*;
use crate::bitreader::{BitReader, U32Dist, dist_wf, spec_unpack_signed, unpack_signed, bits_le, total_bits, spec_u32};
use crate::error::{JxlError, invalid, unsupported};
use crate::predictors::fits_i32;
use crate::modular::lemma_index_bounds;
use vstd::arithmetic::power2::pow2;

verus! {

/// Maximum number of channels per modular sub-bitstream.
pub const MAX_CHANNELS: usize = 64;

/// Maximum width or height of a channel.
pub const MAX_DIM: u32 = 65536;

/// Table H.6 — modular transform identifier.
#[derive(Debug, Clone, Copy, PartialEq, Eq, Structural)]
pub enum TransformId {
    /// Reversible colour transform (H.6.3).
    Rct,
    /// (Delta-)palette (H.6.4).
    Palette,
    /// Squeeze (H.6.2).
    Squeeze,
}

impl TransformId {
    /// Transform kind for its 2-bit code.
    pub fn from_u32(v: u32) -> (r: Result<Self, JxlError>)
        ensures
            r is Ok <==> v < 3,
            v == 0 ==> r == Ok::<TransformId, JxlError>(TransformId::Rct),
            v == 1 ==> r == Ok::<TransformId, JxlError>(TransformId::Palette),
            v == 2 ==> r == Ok::<TransformId, JxlError>(TransformId::Squeeze),
            r is Err ==> r->Err_0 is InvalidData,
    {
        match v {
            0 => Ok(TransformId::Rct),
            1 => Ok(TransformId::Palette),
            2 => Ok(TransformId::Squeeze),
            _ => Err(invalid("TransformId: invalid value")),
        }
    }
}

/// `kDeltaPalette`: implicit delta-palette entries (H.6.4).
pub const K_DELTA_PALETTE: [[i32; 3]; 72] = [
    [0, 0, 0], [4, 4, 4], [11, 0, 0], [0, 0, -13], [0, -12, 0], [-10, -10, -10],
    [-18, -18, -18], [-27, -27, -27], [-18, -18, 0], [0, 0, -32], [-32, 0, 0],
    [-37, -37, -37], [0, -32, -32], [24, 24, 45], [50, 50, 50], [-45, -24, -24],
    [-24, -45, -45], [0, -24, -24], [-34, -34, 0], [-24, 0, -24], [-45, -45, -24],
    [64, 64, 64], [-32, 0, -32], [0, -32, 0], [-32, 0, 32], [-24, -45, -24],
    [45, 24, 45], [24, -24, -45], [-45, -24, 24], [80, 80, 80], [64, 0, 0],
    [0, 0, -64], [0, -64, -64], [-24, -24, 45], [96, 96, 96], [64, 64, 0],
    [45, -24, -24], [34, -34, 0], [112, 112, 112], [24, -45, -45], [45, 45, -24],
    [0, -32, 32], [24, -24, 45], [0, 96, 96], [45, -24, 24], [24, -45, -24],
    [-24, -45, 24], [0, -64, 0], [96, 0, 0], [128, 128, 128], [64, 0, 64],
    [144, 144, 144], [96, 96, 0], [-36, -36, 36], [45, -24, -45], [45, -45, -24],
    [0, 0, -96], [0, 128, 128], [0, 96, 0], [45, 24, -45], [-128, 0, 0],
    [24, -45, 24], [-45, 24, -45], [64, 0, -64], [64, -64, -64], [96, 0, 96],
    [45, -45, 24], [24, 45, -45], [64, 64, -64], [128, 128, 0], [0, 0, -128],
    [-24, 45, -45],
];

/// Table H.9 — one squeeze step's parameters.
#[derive(Debug, Clone, Copy)]
pub struct SqueezeParam {
    pub horizontal: bool,
    pub in_place: bool,
    pub begin_c: u32,
    pub num_c: u32,
}

/// `WPHeader` — parameters of the self-correcting predictor (H.5).
#[derive(Debug, Clone, Copy)]
pub struct WpHeader {
    pub default_wp: bool,
    pub p1: u32,
    pub p2: u32,
    pub p3a: u32,
    pub p3b: u32,
    pub p3c: u32,
    pub p3d: u32,
    pub p3e: u32,
    pub w0: u32,
    pub w1: u32,
    pub w2: u32,
    pub w3: u32,
}

/// The header's fields have their signalled widths: five bits for the
/// `p` parameters and four for the weights.
pub open spec fn wp_header_wf(wp: WpHeader) -> bool {
    &&& wp.p1 < 32 && wp.p2 < 32
    &&& wp.p3a < 32 && wp.p3b < 32 && wp.p3c < 32 && wp.p3d < 32 && wp.p3e < 32
    &&& wp.w0 < 16 && wp.w1 < 16 && wp.w2 < 16 && wp.w3 < 16
}

/// The default `WPHeader` values.
pub open spec fn spec_default_wp() -> WpHeader {
    WpHeader {
        default_wp: true,
        p1: 16,
        p2: 10,
        p3a: 7,
        p3b: 7,
        p3c: 7,
        p3d: 0,
        p3e: 0,
        w0: 13,
        w1: 12,
        w2: 12,
        w3: 12,
    }
}

impl Default for WpHeader {
    fn default() -> (r: Self)
        ensures
            r == spec_default_wp(),
    {
        WpHeader {
            default_wp: true,
            p1: 16,
            p2: 10,
            p3a: 7,
            p3b: 7,
            p3c: 7,
            p3d: 0,
            p3e: 0,
            w0: 13,
            w1: 12,
            w2: 12,
            w3: 12,
        }
    }
}

/// `WPHeader` read at bit `pos`: `None` when the stream ends early.
pub open spec fn spec_wp_header(s: Seq<u8>, pos: int) -> Option<(WpHeader, int)> {
    if pos + 1 > total_bits(s) {
        None
    } else if bits_le(s, pos, 1) == 1 {
        Some((spec_default_wp(), pos + 1))
    } else if pos + 52 > total_bits(s) {
        None
    } else {
        let f = |off: int, n: nat| bits_le(s, pos + off, n) as u32;
        Some(
            (
                WpHeader {
                    default_wp: false,
                    p1: f(1, 5),
                    p2: f(6, 5),
                    p3a: f(11, 5),
                    p3b: f(16, 5),
                    p3c: f(21, 5),
                    p3d: f(26, 5),
                    p3e: f(31, 5),
                    w0: f(36, 4),
                    w1: f(40, 4),
                    w2: f(44, 4),
                    w3: f(48, 4),
                },
                pos + 52,
            ),
        )
    }
}

impl WpHeader {
    /// Read a `WPHeader`: a `default_wp` bit, otherwise seven `u(5)` and
    /// four `u(4)` fields.
    pub fn read(br: &mut BitReader<'_>) -> (r: Result<Self, JxlError>)
        requires
            old(br).wf(),
        ensures
            final(br).wf(),
            final(br).bytes() == old(br).bytes(),
            r is Ok <==> spec_wp_header(old(br).bytes(), old(br).pos()) is Some,
            r is Ok ==> r->Ok_0 == spec_wp_header(old(br).bytes(), old(br).pos()).unwrap().0
                && final(br).pos() == spec_wp_header(old(br).bytes(), old(br).pos()).unwrap().1,
            r is Ok ==> wp_header_wf(r->Ok_0),
    {
        let default_wp = br.read_bool()?;
        if default_wp {
            return Ok(Self::default());
        }
        let p1 = br.read_bits(5)?;
        let p2 = br.read_bits(5)?;
        let p3a = br.read_bits(5)?;
        let p3b = br.read_bits(5)?;
        let p3c = br.read_bits(5)?;
        let p3d = br.read_bits(5)?;
        let p3e = br.read_bits(5)?;
        let w0 = br.read_bits(4)?;
        let w1 = br.read_bits(4)?;
        let w2 = br.read_bits(4)?;
        let w3 = br.read_bits(4)?;
        proof {
            vstd::arithmetic::power2::lemma2_to64();
        }
        Ok(WpHeader { default_wp: false, p1, p2, p3a, p3b, p3c, p3d, p3e, w0, w1, w2, w3 })
    }
}

/// MA-tree leaf: context, predictor, offset and multiplier.
#[derive(Debug, Clone, Copy)]
pub struct MaLeaf {
    pub ctx: u32,
    pub predictor: u32,
    pub offset: i32,
    pub multiplier: u32,
}

/// MA-tree node: a decision on `property > value` or a leaf.
#[derive(Debug, Clone, Copy)]
pub enum MaNode {
    Decision { property: u32, value: i32, left_child: u32, right_child: u32 },
    Leaf(MaLeaf),
}

/// Description of one channel to be decoded.
#[derive(Debug, Clone, Copy)]
pub struct ChannelDesc {
    pub width: u32,
    pub height: u32,
    pub hshift: i32,
    pub vshift: i32,
}

/// Decoded modular image: one row-major buffer per channel.
#[derive(Debug, Clone)]
pub struct ModularImage {
    pub channels: Vec<Vec<i32>>,
    pub descs: Vec<ChannelDesc>,
}

/// A channel buffer matches its description, and its sample count fits
/// the 32-bit index arithmetic.
pub open spec fn chan_wf(d: ChannelDesc, data: Seq<i32>) -> bool {
    &&& data.len() == d.width * d.height
    &&& d.width * d.height <= 0x1_0000_0000
}

/// One description per channel, each buffer matching its description.
pub open spec fn img_wf(img: ModularImage) -> bool {
    &&& img.descs@.len() == img.channels@.len()
    &&& forall|i: int| 0 <= i < img.channels@.len() ==> chan_wf(#[trigger] img.descs@[i], img.channels@[i]@)
}

/// Sample `(x, y)` of channel `i`, or 0 outside the channel list or the
/// channel.
pub open spec fn spec_img_get(img: ModularImage, i: int, x: int, y: int) -> int {
    if i < 0 || i >= img.channels@.len() {
        0
    } else {
        let d = img.descs@[i];
        if x < 0 || y < 0 || x >= d.width || y >= d.height {
            0
        } else {
            img.channels@[i]@[y * d.width + x] as int
        }
    }
}

/// In-range pixels of a well-formed channel have in-range indices below
/// `2^32`.
proof fn lemma_chan_index(d: ChannelDesc, data: Seq<i32>, x: int, y: int)
    requires
        chan_wf(d, data),
        0 <= x < d.width,
        0 <= y < d.height,
    ensures
        0 <= y * d.width + x < data.len(),
        y * d.width + x < 0x1_0000_0000,
        0 <= y * d.width <= y * d.width + x,
{
    assert(y * d.width + x < d.width * d.height) by (nonlinear_arith)
        requires
            0 <= x < d.width,
            0 <= y < d.height,
    ;
    assert(0 <= y * d.width) by (nonlinear_arith)
        requires
            0 <= y,
    ;
}

impl ModularImage {
    /// Sample `(x, y)` of channel `i`, or 0 for a read outside the channel
    /// list or the channel (the border behaviour of the predictors).
    pub fn get(&self, i: usize, x: i32, y: i32) -> (r: i32)
        requires
            img_wf(*self),
        ensures
            r == spec_img_get(*self, i as int, x as int, y as int),
    {
        if i >= self.channels.len() {
            return 0;
        }
        let desc = self.descs[i];
        if x < 0 || y < 0 || (x as u32) >= desc.width || (y as u32) >= desc.height {
            return 0;
        }
        proof {
            assert(chan_wf(self.descs@[i as int], self.channels@[i as int]@));
            lemma_chan_index(desc, self.channels@[i as int]@, x as int, y as int);
        }
        self.channels[i][((y as u32) * desc.width + (x as u32)) as usize]
    }

    /// Overwrite sample `(x, y)` of channel `i`.
    pub fn set(&mut self, i: usize, x: u32, y: u32, v: i32)
        requires
            img_wf(*old(self)),
            i < old(self).channels@.len(),
            x < old(self).descs@[i as int].width,
            y < old(self).descs@[i as int].height,
        ensures
            img_wf(*final(self)),
            final(self).descs == old(self).descs,
            final(self).channels@.len() == old(self).channels@.len(),
            forall|j: int| 0 <= j < old(self).channels@.len() && j != i ==>
                final(self).channels@[j] == old(self).channels@[j],
            final(self).channels@[i as int]@ == old(self).channels@[i as int]@.update(
                y * old(self).descs@[i as int].width + x,
                v,
            ),
    {
        let desc = self.descs[i];
        proof {
            assert(chan_wf(self.descs@[i as int], self.channels@[i as int]@));
            lemma_chan_index(desc, self.channels@[i as int]@, x as int, y as int);
        }
        let idx = (y * desc.width + x) as usize;
        self.channels[i].set(idx, v);
        proof {
            assert forall|j: int| 0 <= j < self.channels@.len() implies chan_wf(
                #[trigger] self.descs@[j],
                self.channels@[j]@,
            ) by {
                if j != i {
                    assert(chan_wf(old(self).descs@[j], old(self).channels@[j]@));
                }
            }
        }
    }
}


/// Neighbour set of Table H.2: `w`, `n`, `nw`, `ne`, `nn`, `nee`, `ww`.
#[derive(Debug, Clone, Copy)]
pub struct Neighbours {
    pub w: i32,
    pub n: i32,
    pub nw: i32,
    pub ne: i32,
    pub nn: i32,
    pub nee: i32,
    pub ww: i32,
}

/// The neighbours of `(x, y)` in channel `i` with the edge fallbacks of
/// H.3.
pub open spec fn spec_neighbours(img: ModularImage, i: int, x: int, y: int) -> Neighbours {
    let width = (img.descs@[i].width as i32) as int;
    let g = |xx: int, yy: int| spec_img_get(img, i, xx, yy) as i32;
    let w = if x > 0 { g(x - 1, y) } else if y > 0 { g(x, y - 1) } else { 0i32 };
    let n = if y > 0 { g(x, y - 1) } else { w };
    let nw = if x > 0 && y > 0 { g(x - 1, y - 1) } else { w };
    let ne = if x + 1 < width && y > 0 { g(x + 1, y - 1) } else { n };
    let nn = if y > 1 { g(x, y - 2) } else { n };
    let nee = if x + 2 < width && y > 0 { g(x + 2, y - 1) } else { ne };
    let ww = if x > 1 { g(x - 2, y) } else { w };
    Neighbours { w, n, nw, ne, nn, nee, ww }
}

impl Neighbours {
    /// The seven prediction neighbours of `(x, y)` in channel `i`.
    pub fn at(img: &ModularImage, i: usize, x: i32, y: i32) -> (r: Self)
        requires
            img_wf(*img),
            i < img.descs@.len(),
            x <= i32::MAX - 2,
        ensures
            r == spec_neighbours(*img, i as int, x as int, y as int),
    {
        let width = img.descs[i].width as i32;
        let w = if x > 0 {
            img.get(i, x - 1, y)
        } else if y > 0 {
            img.get(i, x, y - 1)
        } else {
            0
        };
        let n = if y > 0 { img.get(i, x, y - 1) } else { w };
        let nw = if x > 0 && y > 0 { img.get(i, x - 1, y - 1) } else { w };
        let ne = if (x + 1) < width && y > 0 { img.get(i, x + 1, y - 1) } else { n };
        let nn = if y > 1 { img.get(i, x, y - 2) } else { n };
        let nee = if (x + 2) < width && y > 0 { img.get(i, x + 2, y - 1) } else { ne };
        let ww = if x > 1 { img.get(i, x - 2, y) } else { w };
        Neighbours { w, n, nw, ne, nn, nee, ww }
    }
}

/// `a + b` with two's-complement wrap-around.
pub open spec fn wadd(a: i32, b: i32) -> i32 {
    vstd::wrapping::i32_specs::wrapping_add(a, b)
}

/// `a - b` with two's-complement wrap-around.
pub open spec fn wsub(a: i32, b: i32) -> i32 {
    vstd::wrapping::i32_specs::wrapping_sub(a, b)
}

/// Magnitude of `v` reinterpreted as an `i32` (`i32::MIN` maps to
/// itself).
pub open spec fn abs_as_i32(v: i32) -> i32 {
    (if v < 0 { -(v as int) } else { v as int }) as u32 as i32
}

/// `|v|` as a `u32`, reinterpreted as an `i32`.
fn unsigned_abs_as_i32(v: i32) -> (r: i32)
    ensures
        r == abs_as_i32(v),
{
    let u: u32 = if v < 0 { (-(v as i64)) as u32 } else { v as u32 };
    u as i32
}

/// `clamp(v, min(a, b), max(a, b))`.
pub open spec fn clamp_between(v: i32, a: i32, b: i32) -> i32 {
    let lo = if a <= b { a } else { b };
    let hi = if a <= b { b } else { a };
    if v < lo { lo } else if v > hi { hi } else { v }
}

/// `clamp(v, min(a, b), max(a, b))`.
fn clamp_between_exec(v: i32, a: i32, b: i32) -> (r: i32)
    ensures
        r == clamp_between(v, a, b),
{
    let lo = if a <= b { a } else { b };
    let hi = if a <= b { b } else { a };
    if v < lo { lo } else if v > hi { hi } else { v }
}

/// Floor of `a / 2` for the wrapped sum of two samples.
pub open spec fn avg2(a: i32, b: i32) -> i32 {
    (wadd(a, b) as int / 2) as i32
}

/// Floor of `(a + b) / 2` on the wrapped `i32` sum.
fn avg2_exec(a: i32, b: i32) -> (r: i32)
    ensures
        r == avg2(a, b),
{
    let s = a.wrapping_add(b);
    match s.checked_div_euclid(2) {
        Some(q) => q,
        None => 0,
    }
}

/// Table H.3 predictions other than the self-correcting predictor 6;
/// `None` for an unknown predictor.
pub open spec fn spec_simple_prediction(nb: Neighbours, predictor: u32) -> Option<i32> {
    if predictor == 0 {
        Some(0)
    } else if predictor == 1 {
        Some(nb.w)
    } else if predictor == 2 {
        Some(nb.n)
    } else if predictor == 3 {
        Some(avg2(nb.w, nb.n))
    } else if predictor == 4 {
        let lhs = if nb.n - nb.nw < 0 { nb.nw - nb.n } else { nb.n - nb.nw };
        let rhs = if nb.w - nb.nw < 0 { nb.nw - nb.w } else { nb.w - nb.nw };
        Some(if lhs < rhs { nb.w } else { nb.n })
    } else if predictor == 5 {
        Some(clamp_between(wsub(wadd(nb.w, nb.n), nb.nw), nb.w, nb.n))
    } else if predictor == 7 {
        Some(nb.ne)
    } else if predictor == 8 {
        Some(nb.nw)
    } else if predictor == 9 {
        Some(nb.ww)
    } else if predictor == 10 {
        Some(avg2(nb.w, nb.nw))
    } else if predictor == 11 {
        Some(avg2(nb.n, nb.nw))
    } else if predictor == 12 {
        Some(avg2(nb.n, nb.ne))
    } else if predictor == 13 {
        let s = 6 * nb.n - 2 * nb.nn + 7 * nb.w + nb.ww + nb.nee + 3 * nb.ne + 8;
        Some((s / 16) as i32)
    } else {
        None
    }
}

/// Table H.3 prediction for any predictor but 6.
fn simple_prediction(nb: &Neighbours, predictor: u32) -> (r: Option<i32>)
    requires
        predictor != 6,
    ensures
        r == spec_simple_prediction(*nb, predictor),
{
    if predictor == 0 {
        Some(0)
    } else if predictor == 1 {
        Some(nb.w)
    } else if predictor == 2 {
        Some(nb.n)
    } else if predictor == 3 {
        Some(avg2_exec(nb.w, nb.n))
    } else if predictor == 4 {
        let d1 = (nb.n as i64) - (nb.nw as i64);
        let d2 = (nb.w as i64) - (nb.nw as i64);
        let lhs = if d1 < 0 { -d1 } else { d1 };
        let rhs = if d2 < 0 { -d2 } else { d2 };
        Some(if lhs < rhs { nb.w } else { nb.n })
    } else if predictor == 5 {
        let g = nb.w.wrapping_add(nb.n).wrapping_sub(nb.nw);
        Some(clamp_between_exec(g, nb.w, nb.n))
    } else if predictor == 7 {
        Some(nb.ne)
    } else if predictor == 8 {
        Some(nb.nw)
    } else if predictor == 9 {
        Some(nb.ww)
    } else if predictor == 10 {
        Some(avg2_exec(nb.w, nb.nw))
    } else if predictor == 11 {
        Some(avg2_exec(nb.n, nb.nw))
    } else if predictor == 12 {
        Some(avg2_exec(nb.n, nb.ne))
    } else if predictor == 13 {
        let s: i64 = 6i64 * (nb.n as i64) - 2 * (nb.nn as i64) + 7 * (nb.w as i64) + (nb.ww as i64)
            + (nb.nee as i64) + 3 * (nb.ne as i64) + 8;
        let q = match s.checked_div_euclid(16) {
            Some(q) => q,
            None => 0,
        };
        Some(q as i32)
    } else {
        None
    }
}

/// Table H.4 property 8 at `(x, y)`: for `x > 0`, `W` minus the gradient
/// `W' + N' - NW'` of the sample to the left; otherwise `N`.
pub open spec fn spec_prop8(img: ModularImage, i: int, x: int, y: int, nb: Neighbours) -> i32 {
    if x > 0 {
        let g = |xx: int, yy: int| spec_img_get(img, i, xx, yy) as i32;
        let w_prev = if x > 1 { g(x - 2, y) } else if y > 0 { g(x - 1, y - 1) } else { 0i32 };
        let n_prev = if y > 0 { g(x - 1, y - 1) } else { w_prev };
        let nw_prev = if x > 1 && y > 0 { g(x - 2, y - 1) } else { w_prev };
        wsub(nb.w, wsub(wadd(w_prev, n_prev), nw_prev))
    } else {
        nb.n
    }
}

/// The sixteen base properties of Table H.4.
pub open spec fn spec_base_properties(img: ModularImage, i: int, x: i32, y: i32, stream_index: i32, max_error: i32) -> Seq<i32> {
    let nb = spec_neighbours(img, i, x as int, y as int);
    seq![
        i as i32,
        stream_index,
        y,
        x,
        abs_as_i32(nb.n),
        abs_as_i32(nb.w),
        nb.n,
        nb.w,
        spec_prop8(img, i, x as int, y as int, nb),
        wsub(wadd(nb.w, nb.n), nb.nw),
        wsub(nb.w, nb.nw),
        wsub(nb.nw, nb.n),
        wsub(nb.n, nb.ne),
        wsub(nb.n, nb.nn),
        wsub(nb.w, nb.ww),
        max_error
    ]
}

/// Channel `j` has the same dimensions and shifts as channel `i`.
pub open spec fn same_geometry(a: ChannelDesc, b: ChannelDesc) -> bool {
    a.width == b.width && a.height == b.height && a.hshift == b.hshift && a.vshift == b.vshift
}

/// The four properties a previous channel `j` contributes at `(x, y)`:
/// `|rC|`, `rC`, `|rC - rG|`, `rC - rG` with `rG` its clamped gradient.
pub open spec fn spec_prev_props(img: ModularImage, j: int, x: int, y: int) -> Seq<i32> {
    let g = |xx: int, yy: int| spec_img_get(img, j, xx, yy) as i32;
    let r_c = g(x, y);
    let r_w = if x > 0 { g(x - 1, y) } else if y > 0 { g(x, y - 1) } else { 0i32 };
    let r_n = if y > 0 { g(x, y - 1) } else { r_w };
    let r_nw = if x > 0 && y > 0 { g(x - 1, y - 1) } else { r_w };
    let r_g = clamp_between(wsub(wadd(r_w, r_n), r_nw), r_w, r_n);
    seq![abs_as_i32(r_c), r_c, abs_as_i32(wsub(r_c, r_g)), wsub(r_c, r_g)]
}

/// Properties contributed by the channels `j < k` (scanned from `k - 1`
/// down to 0) sharing channel `i`'s geometry.
pub open spec fn spec_prev_channel_props(img: ModularImage, i: int, x: int, y: int, k: int) -> Seq<i32>
    decreases k,
{
    if k <= 0 {
        Seq::empty()
    } else if same_geometry(img.descs@[k - 1], img.descs@[i]) {
        spec_prev_props(img, k - 1, x, y) + spec_prev_channel_props(img, i, x, y, k - 1)
    } else {
        spec_prev_channel_props(img, i, x, y, k - 1)
    }
}

/// Property vector per Table H.4 + H.4.1: sixteen base properties, then
/// four per previous channel with the same dimensions and shifts, in
/// order of decreasing index.
pub fn get_properties(
    img: &ModularImage,
    i: usize,
    x: i32,
    y: i32,
    stream_index: i32,
    max_error: i32,
) -> (r: Vec<i32>)
    requires
        img_wf(*img),
        i < img.descs@.len(),
        0 <= x <= i32::MAX - 2,
        0 <= y,
    ensures
        r@ == spec_base_properties(*img, i as int, x, y, stream_index, max_error)
            + spec_prev_channel_props(*img, i as int, x as int, y as int, i as int),
{
    let nb = Neighbours::at(img, i, x, y);
    let prop8 = if x > 0 {
        let wm1 = nb.w;
        let w_prev = if x > 1 {
            img.get(i, x - 2, y)
        } else if y > 0 {
            img.get(i, x - 1, y - 1)
        } else {
            0
        };
        let n_prev = if y > 0 { img.get(i, x - 1, y - 1) } else { w_prev };
        let nw_prev = if x > 1 && y > 0 { img.get(i, x - 2, y - 1) } else { w_prev };
        let grad_prev = w_prev.wrapping_add(n_prev).wrapping_sub(nw_prev);
        wm1.wrapping_sub(grad_prev)
    } else {
        nb.n
    };
    let mut props: Vec<i32> = Vec::new();
    props.push(i as i32);
    props.push(stream_index);
    props.push(y);
    props.push(x);
    props.push(unsigned_abs_as_i32(nb.n));
    props.push(unsigned_abs_as_i32(nb.w));
    props.push(nb.n);
    props.push(nb.w);
    props.push(prop8);
    props.push(nb.w.wrapping_add(nb.n).wrapping_sub(nb.nw));
    props.push(nb.w.wrapping_sub(nb.nw));
    props.push(nb.nw.wrapping_sub(nb.n));
    props.push(nb.n.wrapping_sub(nb.ne));
    props.push(nb.n.wrapping_sub(nb.nn));
    props.push(nb.w.wrapping_sub(nb.ww));
    props.push(max_error);
    proof {
        assert(props@ == spec_base_properties(*img, i as int, x, y, stream_index, max_error));
    }
    let ghost base = props@;
    let cur = img.descs[i];
    let mut j: usize = i;
    while j > 0
        invariant
            j <= i < img.descs@.len(),
            img_wf(*img),
            cur == img.descs@[i as int],
            0 <= x <= i32::MAX - 2,
            0 <= y,
            props@ + spec_prev_channel_props(*img, i as int, x as int, y as int, j as int)
                == base + spec_prev_channel_props(*img, i as int, x as int, y as int, i as int),
        decreases j,
    {
        let d = img.descs[j - 1];
        if d.width != cur.width || d.height != cur.height || d.hshift != cur.hshift
            || d.vshift != cur.vshift {
            j = j - 1;
            continue;
        }
        let jj = j - 1;
        let r_c = img.get(jj, x, y);
        let r_w = if x > 0 {
            img.get(jj, x - 1, y)
        } else if y > 0 {
            img.get(jj, x, y - 1)
        } else {
            0
        };
        let r_n = if y > 0 { img.get(jj, x, y - 1) } else { r_w };
        let r_nw = if x > 0 && y > 0 { img.get(jj, x - 1, y - 1) } else { r_w };
        let g = r_w.wrapping_add(r_n).wrapping_sub(r_nw);
        let r_g = clamp_between_exec(g, r_w, r_n);
        let ghost before = props@;
        props.push(unsigned_abs_as_i32(r_c));
        props.push(r_c);
        props.push(unsigned_abs_as_i32(r_c.wrapping_sub(r_g)));
        props.push(r_c.wrapping_sub(r_g));
        proof {
            let four = spec_prev_props(*img, jj as int, x as int, y as int);
            assert(props@ == before + four);
            let rest = spec_prev_channel_props(*img, i as int, x as int, y as int, jj as int);
            assert(before + (four + rest) == (before + four) + rest);
        }
        j = j - 1;
    }
    proof {
        assert(props@ + Seq::<i32>::empty() == props@);
    }
    props
}

/// The leaf reached from node `cursor` of `nodes` for `props`, walking
/// at most `fuel` decision nodes; `None` for a child index out of range
/// or a walk longer than the fuel. Missing properties read as 0.
pub open spec fn spec_eval_tree(nodes: Seq<MaNode>, props: Seq<i32>, cursor: int, fuel: nat) -> Option<MaLeaf>
    decreases fuel,
{
    if !(0 <= cursor < nodes.len()) {
        None
    } else {
        match nodes[cursor] {
            MaNode::Leaf(l) => Some(l),
            MaNode::Decision { property, value, left_child, right_child } => {
                let pv = if (property as int) < props.len() { props[property as int] } else { 0i32 };
                let next = if pv > value { left_child } else { right_child };
                if next >= nodes.len() || fuel == 0 {
                    None
                } else {
                    spec_eval_tree(nodes, props, next as int, (fuel - 1) as nat)
                }
            },
        }
    }
}

/// Walk the MA tree per H.4.1 from node 0: a decision node sends the walk
/// to `left_child` when `property[property] > value` and to
/// `right_child` otherwise, until a leaf is reached. Errors on an empty
/// tree, a child index out of range or more steps than nodes.
pub fn evaluate_tree<'a>(nodes: &'a [MaNode], properties: &[i32]) -> (r: Result<&'a MaLeaf, JxlError>)
    ensures
        r is Ok <==> nodes@.len() > 0 && spec_eval_tree(nodes@, properties@, 0, nodes@.len()) is Some,
        r is Ok ==> *r->Ok_0 == spec_eval_tree(nodes@, properties@, 0, nodes@.len())->0,
        r is Err ==> r->Err_0 is InvalidData,
{
    if nodes.len() == 0 {
        return Err(invalid("MA tree: empty tree"));
    }
    let mut cursor: usize = 0;
    let mut steps: usize = 0;
    let n = nodes.len();
    loop
        invariant
            n == nodes@.len(),
            cursor < n,
            steps <= n,
            spec_eval_tree(nodes@, properties@, 0, n as nat)
                == spec_eval_tree(nodes@, properties@, cursor as int, (n - steps) as nat),
        decreases n - steps,
    {
        match &nodes[cursor] {
            MaNode::Leaf(l) => {
                return Ok(l);
            },
            MaNode::Decision { property, value, left_child, right_child } => {
                let p_idx = *property as usize;
                let pv = if p_idx < properties.len() { properties[p_idx] } else { 0 };
                let next = if pv > *value { *left_child as usize } else { *right_child as usize };
                if next >= n {
                    return Err(invalid("MA tree: child index out of range"));
                }
                if steps == n {
                    return Err(invalid("MA tree: traversal exceeded node count"));
                }
                cursor = next;
            },
        }
        steps = steps + 1;
    }
}


/// Number of significant bits of `v` (`64 - leading_zeros(v)` for a
/// `u64`).
pub open spec fn spec_bits(v: nat) -> nat
    decreases v,
{
    if v == 0 {
        0
    } else {
        1 + spec_bits(v / 2)
    }
}

/// A positive value lies in `[2^(bits - 1), 2^bits)`.
pub proof fn lemma_bits_bounds(v: nat)
    ensures
        v < pow2(spec_bits(v)),
        v > 0 ==> pow2((spec_bits(v) - 1) as nat) <= v,
        v > 0 ==> spec_bits(v) >= 1,
    decreases v,
{
    vstd::arithmetic::power2::lemma2_to64();
    if v > 0 {
        lemma_bits_bounds(v / 2);
        vstd::arithmetic::power2::lemma_pow2_unfold(spec_bits(v));
        if v / 2 > 0 {
            vstd::arithmetic::power2::lemma_pow2_unfold((spec_bits(v) - 1) as nat);
        }
    }
}

/// The bit count grows with the value.
pub proof fn lemma_bits_monotone(a: nat, b: nat)
    requires
        a <= b,
    ensures
        spec_bits(a) <= spec_bits(b),
    decreases b,
{
    if a > 0 {
        lemma_bits_monotone(a / 2, b / 2);
    }
}

/// Number of significant bits of a `u64`.
pub fn bit_length_u64(v: u64) -> (r: u32)
    ensures
        r == spec_bits(v as nat),
        r <= 64,
{
    let mut n: u32 = 0;
    let mut w: u64 = v;
    proof {
        lemma_bits_bounds(v as nat);
        lemma_bits_le_64(v as nat);
    }
    while w > 0
        invariant
            n + spec_bits(w as nat) == spec_bits(v as nat),
            spec_bits(v as nat) <= 64,
        decreases w,
    {
        n = n + 1;
        w = w / 2;
    }
    n
}

/// A `u64` has at most 64 significant bits.
proof fn lemma_bits_le_64(v: nat)
    requires
        v <= u64::MAX,
    ensures
        spec_bits(v) <= 64,
{
    lemma_bits_bounds(v);
    vstd::arithmetic::power2::lemma2_to64_rest();
    if spec_bits(v) > 64 {
        vstd::arithmetic::power2::lemma_pow2_strictly_increases(64, (spec_bits(v) - 1) as nat);
        if spec_bits(v) - 1 == 64 {
        }
    }
}

/// Per-channel state of the self-correcting predictor (H.5): the true
/// error (×8 scale) and the four sub-predictor errors of every decoded
/// sample.
#[derive(Debug, Clone)]
pub struct WpState {
    pub width: u32,
    pub height: u32,
    pub true_err: Vec<i32>,
    pub sub_err: [Vec<i32>; 4],
    pub last_max_error: i32,
}

/// Largest sub-predictor error the decoder stores:
/// `(u32::MAX + 3) >> 3` wraps to values below `2^29`.
pub open spec fn sub_err_bound() -> int {
    0x2000_0000
}

/// Buffers match the dimensions, the dimensions fit the `i32` and 32-bit
/// index arithmetic, and every stored sub-predictor error lies in
/// `[0, 2^29)`.
pub open spec fn wp_state_wf(s: WpState) -> bool {
    &&& s.width <= 0x7fff_ffff && s.height <= 0x7fff_ffff
    &&& s.width * s.height <= 0x1_0000_0000
    &&& s.true_err@.len() == s.width * s.height
    &&& forall|k: int| 0 <= k < 4 ==> (#[trigger] s.sub_err@[k])@.len() == s.width * s.height
    &&& forall|k: int, j: int| 0 <= k < 4 && 0 <= j < s.width * s.height
        ==> 0 <= #[trigger] s.sub_err@[k]@[j] < sub_err_bound()
}

/// Entry `(x, y)` of a per-sample buffer, 0 outside the channel.
pub open spec fn spec_wp_at(s: WpState, buf: Seq<i32>, x: int, y: int) -> i32 {
    if x < 0 || y < 0 || x >= s.width || y >= s.height {
        0
    } else {
        buf[y * s.width + x]
    }
}

/// True error at `(x, y)`.
pub open spec fn spec_te(s: WpState, x: int, y: int) -> i32 {
    spec_wp_at(s, s.true_err@, x, y)
}

/// Sub-predictor `k`'s error at `(x, y)`.
pub open spec fn spec_se(s: WpState, k: int, x: int, y: int) -> i32 {
    spec_wp_at(s, s.sub_err@[k]@, x, y)
}

impl WpState {
    /// Zeroed state for a `width × height` channel.
    pub fn new(width: u32, height: u32) -> (r: Self)
        requires
            (width as int) * (height as int) <= usize::MAX,
        ensures
            r.width == width && r.height == height,
            r.last_max_error == 0,
            r.true_err@ == Seq::new((width * height) as nat, |i: int| 0i32),
            forall|k: int| 0 <= k < 4 ==> (#[trigger] r.sub_err@[k])@ == Seq::new((width * height) as nat, |i: int| 0i32),
    {
        let n: usize = (width as usize) * (height as usize);
        let t = zeros(n);
        let a = zeros(n);
        let b = zeros(n);
        let c = zeros(n);
        let d = zeros(n);
        WpState { width, height, true_err: t, sub_err: [a, b, c, d], last_max_error: 0 }
    }

    /// Entry `(x, y)` of `buf`, 0 outside the channel.
    fn at(&self, buf: &Vec<i32>, x: i32, y: i32) -> (r: i32)
        requires
            wp_state_wf(*self),
            buf@.len() == self.width * self.height,
        ensures
            r == spec_wp_at(*self, buf@, x as int, y as int),
    {
        if x < 0 || y < 0 || (x as u32) >= self.width || (y as u32) >= self.height {
            return 0;
        }
        proof {
            let d = ChannelDesc { width: self.width, height: self.height, hshift: 0, vshift: 0 };
            lemma_chan_index(d, buf@, x as int, y as int);
        }
        buf[((y as u32) * self.width + (x as u32)) as usize]
    }

    /// True error at `(x, y)`.
    fn true_err_at(&self, x: i32, y: i32) -> (r: i32)
        requires
            wp_state_wf(*self),
        ensures
            r == spec_te(*self, x as int, y as int),
    {
        self.at(&self.true_err, x, y)
    }

    /// Sub-predictor `i`'s error at `(x, y)`.
    fn sub_err_at(&self, i: usize, x: i32, y: i32) -> (r: i32)
        requires
            wp_state_wf(*self),
            i < 4,
        ensures
            r == spec_se(*self, i as int, x as int, y as int),
    {
        self.at(&self.sub_err[i], x, y)
    }

    /// Store the true error of `(x, y)`.
    fn set_true_err(&mut self, x: u32, y: u32, v: i32)
        requires
            wp_state_wf(*old(self)),
            x < old(self).width,
            y < old(self).height,
        ensures
            wp_state_wf(*final(self)),
            final(self).width == old(self).width && final(self).height == old(self).height,
            final(self).sub_err == old(self).sub_err,
            final(self).last_max_error == old(self).last_max_error,
            final(self).true_err@ == old(self).true_err@.update(y * old(self).width + x, v),
    {
        proof {
            let d = ChannelDesc { width: self.width, height: self.height, hshift: 0, vshift: 0 };
            lemma_chan_index(d, self.true_err@, x as int, y as int);
        }
        let idx = (y * self.width + x) as usize;
        self.true_err.set(idx, v);
    }

    /// Store sub-predictor `i`'s error of `(x, y)`, a value in `[0, 2^29)`.
    fn set_sub_err(&mut self, i: usize, x: u32, y: u32, v: i32)
        requires
            wp_state_wf(*old(self)),
            i < 4,
            x < old(self).width,
            y < old(self).height,
            0 <= v < sub_err_bound(),
        ensures
            wp_state_wf(*final(self)),
            final(self).width == old(self).width && final(self).height == old(self).height,
            final(self).true_err == old(self).true_err,
            final(self).last_max_error == old(self).last_max_error,
            forall|k: int| 0 <= k < 4 && k != i ==> (#[trigger] final(self).sub_err@[k]) == old(self).sub_err@[k],
            final(self).sub_err@[i as int]@ == old(self).sub_err@[i as int]@.update(y * old(self).width + x, v),
    {
        proof {
            let d = ChannelDesc { width: self.width, height: self.height, hshift: 0, vshift: 0 };
            lemma_chan_index(d, self.sub_err@[i as int]@, x as int, y as int);
        }
        let idx = (y * self.width + x) as usize;
        self.sub_err[i].set(idx, v);
        proof {
            let n = self.width * self.height;
            assert forall|k: int, j: int| 0 <= k < 4 && 0 <= j < n implies 0 <= #[trigger] self.sub_err@[k]@[j]
                < sub_err_bound() by {
                if k != i {
                    assert(self.sub_err@[k] == old(self).sub_err@[k]);
                }
            }
        }
    }
}

/// `v × 8` with two's-complement wrap-around: the self-correcting
/// predictor works on samples in eighths.
pub open spec fn x8(v: i32) -> i32 {
    (v * 8) as i32
}

/// `v × 8` with two's-complement wrap-around.
fn x8_exec(v: i32) -> (r: i32)
    ensures
        r == x8(v),
{
    ((v as i64) * 8) as i32
}

/// `v / 32` (floor), reinterpreted as an `i32`: the error-correction
/// term of the sub-predictors of H.5.2.
pub open spec fn corr(v: int) -> i32 {
    (v / 32) as i32
}

/// `v / 32` (floor), reinterpreted as an `i32`.
fn corr_exec(v: i64) -> (r: i32)
    ensures
        r == corr(v as int),
{
    let q = match v.checked_div_euclid(32) {
        Some(q) => q,
        None => 0,
    };
    q as i32
}

/// True error of the north-east neighbour, or of the north one where
/// `(x + 1, y - 1)` is outside the channel.
pub open spec fn spec_te_ne(s: WpState, x: int, y: int) -> i32 {
    if x + 1 < s.width && y > 0 {
        spec_te(s, x + 1, y - 1)
    } else {
        spec_te(s, x, y - 1)
    }
}

/// The four sub-predictions of H.5.2, in eighths.
pub open spec fn spec_subpredictions(s: WpState, nb: Neighbours, x: int, y: int, wp: WpHeader) -> Seq<i32> {
    let n8 = x8(nb.n);
    let w8 = x8(nb.w);
    let nw8 = x8(nb.nw);
    let ne8 = x8(nb.ne);
    let nn8 = x8(nb.nn);
    let te_w = spec_te(s, x - 1, y) as int;
    let te_n = spec_te(s, x, y - 1) as int;
    let te_nw = spec_te(s, x - 1, y - 1) as int;
    let te_ne = spec_te_ne(s, x, y) as int;
    seq![
        wsub(wadd(w8, ne8), n8),
        wsub(n8, corr((te_w + te_n + te_ne) * wp.p1)),
        wsub(w8, corr((te_w + te_n + te_nw) * wp.p2)),
        wsub(n8, corr(te_nw * wp.p3a + te_n * wp.p3b + te_ne * wp.p3c + (nn8 - n8) * wp.p3d
            + (nw8 - w8) * wp.p3e)),
    ]
}

/// Sum of sub-predictor `k`'s errors over the neighbours N, W, NW, WW
/// and NE (missing W, N, WW count 0; missing NW, NE count as N), with W
/// counted twice in the last column.
pub open spec fn spec_err_sum(s: WpState, k: int, x: int, y: int) -> int {
    let n_se = if y > 0 { spec_se(s, k, x, y - 1) as int } else { 0 };
    let w_se = if x > 0 { spec_se(s, k, x - 1, y) as int } else { 0 };
    let nw_se = if x > 0 && y > 0 { spec_se(s, k, x - 1, y - 1) as int } else { n_se };
    let ww_se = if x > 1 { spec_se(s, k, x - 2, y) as int } else { 0 };
    let ne_se = if x + 1 < s.width && y > 0 { spec_se(s, k, x + 1, y - 1) as int } else { n_se };
    let base = n_se + w_se + nw_se + ww_se + ne_se;
    if x == s.width - 1 {
        base + w_se
    } else {
        base
    }
}

/// `error2weight(err_sum, maxweight)` of H.5.2.
pub open spec fn error2weight(err_sum: nat, maxweight: nat) -> nat {
    let b = spec_bits(err_sum + 1);
    let shift: nat = if b >= 6 { (b - 6) as nat } else { 0 };
    4 + (maxweight * 0x100_0000 / (err_sum / pow2(shift) + 1)) / pow2(shift)
}

/// The header's maximum weight of sub-predictor `k`.
pub open spec fn max_weight(wp: WpHeader, k: int) -> nat {
    if k == 0 {
        wp.w0 as nat
    } else if k == 1 {
        wp.w1 as nat
    } else if k == 2 {
        wp.w2 as nat
    } else {
        wp.w3 as nat
    }
}

/// Weight of sub-predictor `k` at `(x, y)`.
pub open spec fn spec_weight(s: WpState, wp: WpHeader, k: int, x: int, y: int) -> nat {
    error2weight(spec_err_sum(s, k, x, y) as nat, max_weight(wp, k))
}

/// Sum of the four weights.
pub open spec fn spec_weight_total(s: WpState, wp: WpHeader, x: int, y: int) -> nat {
    spec_weight(s, wp, 0, x, y) + spec_weight(s, wp, 1, x, y) + spec_weight(s, wp, 2, x, y)
        + spec_weight(s, wp, 3, x, y)
}

/// Right shift that brings the weight total below `2^5`.
pub open spec fn weight_shift(total: nat) -> nat {
    if spec_bits(total) >= 5 {
        (spec_bits(total) - 5) as nat
    } else {
        0
    }
}

/// Weight `k` after the shift of Listing H.5.2.
pub open spec fn spec_scaled_weight(s: WpState, wp: WpHeader, k: int, x: int, y: int) -> nat {
    spec_weight(s, wp, k, x, y) / pow2(weight_shift(spec_weight_total(s, wp, x, y)))
}

/// Sum of the four scaled weights.
pub open spec fn spec_scaled_total(s: WpState, wp: WpHeader, x: int, y: int) -> nat {
    spec_scaled_weight(s, wp, 0, x, y) + spec_scaled_weight(s, wp, 1, x, y)
        + spec_scaled_weight(s, wp, 2, x, y) + spec_scaled_weight(s, wp, 3, x, y)
}

/// `v` clamped to `[min(a, b, c), max(a, b, c)]`.
pub open spec fn clamp3(v: i32, a: i32, b: i32, c: i32) -> i32 {
    let lo0 = if a <= b { a } else { b };
    let lo = if lo0 <= c { lo0 } else { c };
    let hi0 = if a >= b { a } else { b };
    let hi = if hi0 >= c { hi0 } else { c };
    if v < lo {
        lo
    } else if v > hi {
        hi
    } else {
        v
    }
}

/// `true` when `a`, `b` and `c` have the same sign, tested on the sign bits
/// as Listing H.5.2 does.
pub open spec fn same_sign3(a: i32, b: i32, c: i32) -> bool {
    (a ^ b) | (a ^ c) <= 0
}

/// `cand` if its magnitude exceeds that of `cur`, else `cur`.
pub open spec fn larger_magnitude(cur: i32, cand: i32) -> i32 {
    if crate::modular::spec_abs(cand as int) > crate::modular::spec_abs(cur as int) {
        cand
    } else {
        cur
    }
}

/// Output of the self-correcting predictor at `(x, y)`: the prediction
/// in eighths, the four sub-predictions and `max_error` (Listings H.5.2
/// and H.5.3).
pub open spec fn spec_wp_predict(s: WpState, nb: Neighbours, x: int, y: int, wp: WpHeader) -> (i32, Seq<i32>, i32) {
    let preds = spec_subpredictions(s, nb, x, y, wp);
    let sum = spec_scaled_total(s, wp, x, y);
    let n8 = x8(nb.n);
    let w8 = x8(nb.w);
    let nw8 = x8(nb.nw);
    let ne8 = x8(nb.ne);
    let te_w = spec_te(s, x - 1, y);
    let te_n = spec_te(s, x, y - 1);
    let te_nw = spec_te(s, x - 1, y - 1);
    let te_ne = spec_te_ne(s, x, y);
    if sum == 0 {
        (wsub(wadd(w8, n8), nw8), preds, 0i32)
    } else {
        let acc = sum / 2 - 1 + preds[0] * spec_scaled_weight(s, wp, 0, x, y)
            + preds[1] * spec_scaled_weight(s, wp, 1, x, y) + preds[2] * spec_scaled_weight(s, wp, 2, x, y)
            + preds[3] * spec_scaled_weight(s, wp, 3, x, y);
        let p = ((acc * (0x100_0000int / (sum as int))) / 0x100_0000int) as i32;
        let pred = if same_sign3(te_n, te_w, te_nw) { clamp3(p, w8, n8, ne8) } else { p };
        let max_error = larger_magnitude(larger_magnitude(larger_magnitude(te_w, te_n), te_nw), te_ne);
        (pred, preds, max_error)
    }
}

/// Stored sub-predictor errors lie in `[0, 2^29)`.
proof fn lemma_se_bounds(s: WpState, k: int, x: int, y: int)
    requires
        wp_state_wf(s),
        0 <= k < 4,
    ensures
        0 <= spec_se(s, k, x, y) < sub_err_bound(),
{
    if !(x < 0 || y < 0 || x >= s.width || y >= s.height) {
        let d = ChannelDesc { width: s.width, height: s.height, hshift: 0, vshift: 0 };
        lemma_chan_index(d, s.sub_err@[k]@, x, y);
        assert(0 <= s.sub_err@[k]@[y * s.width + x] < sub_err_bound());
    }
}

/// Error sum of sub-predictor `k`.
fn err_sum_exec(state: &WpState, k: usize, x: i32, y: i32) -> (r: u64)
    requires
        wp_state_wf(*state),
        k < 4,
        i32::MIN + 2 <= x < i32::MAX,
        i32::MIN < y,
    ensures
        r == spec_err_sum(*state, k as int, x as int, y as int),
        r < 6 * sub_err_bound(),
{
    proof {
        lemma_se_bounds(*state, k as int, x as int, y - 1);
        lemma_se_bounds(*state, k as int, x - 1, y as int);
        lemma_se_bounds(*state, k as int, x - 1, y - 1);
        lemma_se_bounds(*state, k as int, x - 2, y as int);
        lemma_se_bounds(*state, k as int, x + 1, y - 1);
    }
    let n_se: u64 = if y > 0 { state.sub_err_at(k, x, y - 1) as u64 } else { 0 };
    let w_se: u64 = if x > 0 { state.sub_err_at(k, x - 1, y) as u64 } else { 0 };
    let nw_se: u64 = if x > 0 && y > 0 { state.sub_err_at(k, x - 1, y - 1) as u64 } else { n_se };
    let ww_se: u64 = if x > 1 { state.sub_err_at(k, x - 2, y) as u64 } else { 0 };
    let ne_se: u64 = if (x + 1) < state.width as i32 && y > 0 {
        state.sub_err_at(k, x + 1, y - 1) as u64
    } else {
        n_se
    };
    let base = n_se + w_se + nw_se + ww_se + ne_se;
    if x == (state.width as i32 - 1) {
        base + w_se
    } else {
        base
    }
}

/// `error2weight` of H.5.2.
fn error2weight_exec(err_sum: u64, maxweight: u64) -> (r: u64)
    requires
        err_sum < 6 * sub_err_bound(),
        maxweight < 16,
    ensures
        r == error2weight(err_sum as nat, maxweight as nat),
        4 <= r <= 4 + 15 * 0x100_0000,
{
    let b = bit_length_u64(err_sum + 1);
    let shift: u64 = if b >= 6 { (b - 6) as u64 } else { 0 };
    let shifted = err_sum >> shift;
    proof {
        vstd::bits::lemma_u64_shr_is_div(err_sum, shift);
        vstd::arithmetic::power2::lemma_pow2_pos(shift as nat);
        vstd::arithmetic::div_mod::lemma_div_nonincreasing(err_sum as int, pow2(shift as nat) as int);
    }
    let num: u64 = maxweight * 0x100_0000;
    let denom: u64 = shifted + 1;
    let q = num / denom;
    let inner = q >> shift;
    proof {
        vstd::bits::lemma_u64_shr_is_div(q, shift);
        vstd::arithmetic::div_mod::lemma_div_nonincreasing(num as int, denom as int);
        vstd::arithmetic::div_mod::lemma_div_nonincreasing(q as int, pow2(shift as nat) as int);
    }
    4 + inner
}

/// Weight of sub-predictor `k`.
fn weight_exec(state: &WpState, wp: &WpHeader, k: usize, x: i32, y: i32) -> (r: u64)
    requires
        wp_state_wf(*state),
        wp_header_wf(*wp),
        k < 4,
        i32::MIN + 2 <= x < i32::MAX,
        i32::MIN < y,
    ensures
        r == spec_weight(*state, *wp, k as int, x as int, y as int),
        4 <= r <= 4 + 15 * 0x100_0000,
{
    let e = err_sum_exec(state, k, x, y);
    let mw: u32 = if k == 0 {
        wp.w0
    } else if k == 1 {
        wp.w1
    } else if k == 2 {
        wp.w2
    } else {
        wp.w3
    };
    error2weight_exec(e, mw as u64)
}

/// A weight shifted by `weight_shift(total)` is below `2^5`.
proof fn lemma_scaled_small(wk: nat, total: nat)
    requires
        wk <= total,
    ensures
        wk / pow2(weight_shift(total)) < 32,
        pow2(weight_shift(total)) > 0,
{
    let sh = weight_shift(total);
    lemma_bits_bounds(total);
    vstd::arithmetic::power2::lemma2_to64();
    vstd::arithmetic::power2::lemma_pow2_pos(sh);
    if spec_bits(total) >= 5 {
        vstd::arithmetic::power2::lemma_pow2_adds(sh, 5);
        vstd::arithmetic::div_mod::lemma_div_is_ordered(wk as int, total as int, pow2(sh) as int);
        vstd::arithmetic::div_mod::lemma_multiply_divide_lt(total as int, pow2(sh) as int, 32);
    } else {
        vstd::arithmetic::power2::lemma_pow2_strictly_increases(spec_bits(total), 5);
        if spec_bits(total) == 4 {
        }
        vstd::arithmetic::div_mod::lemma_div_nonincreasing(wk as int, 1);
    }
}

/// Self-correcting predictor at `(x, y)` (Listings H.5.2 and H.5.3):
/// prediction in eighths, the four sub-predictions and `max_error`.
fn wp_predict(state: &WpState, nb: &Neighbours, x: i32, y: i32, wp: &WpHeader) -> (r: (i32, [i32; 4], i32))
    requires
        wp_state_wf(*state),
        wp_header_wf(*wp),
        i32::MIN + 2 <= x < i32::MAX,
        i32::MIN < y,
    ensures
        r.0 == spec_wp_predict(*state, *nb, x as int, y as int, *wp).0,
        r.1@ == spec_wp_predict(*state, *nb, x as int, y as int, *wp).1,
        r.2 == spec_wp_predict(*state, *nb, x as int, y as int, *wp).2,
{
    let n8 = x8_exec(nb.n);
    let w8 = x8_exec(nb.w);
    let nw8 = x8_exec(nb.nw);
    let ne8 = x8_exec(nb.ne);
    let nn8 = x8_exec(nb.nn);
    let te_w = state.true_err_at(x - 1, y);
    let te_n = state.true_err_at(x, y - 1);
    let te_nw = state.true_err_at(x - 1, y - 1);
    let te_ne = if (x + 1) < state.width as i32 && y > 0 {
        state.true_err_at(x + 1, y - 1)
    } else {
        te_n
    };
    let p0 = w8.wrapping_add(ne8).wrapping_sub(n8);
    proof {
        let t1 = te_w + te_n + te_ne;
        let t2 = te_w + te_n + te_nw;
        assert(-0x8000_0000 * 3 * 32 <= t1 * wp.p1 <= 0x8000_0000 * 3 * 32) by (nonlinear_arith)
            requires -0x8000_0000 * 3 <= t1 <= 0x8000_0000 * 3, wp.p1 < 32;
        assert(-0x8000_0000 * 3 * 32 <= t2 * wp.p2 <= 0x8000_0000 * 3 * 32) by (nonlinear_arith)
            requires -0x8000_0000 * 3 <= t2 <= 0x8000_0000 * 3, wp.p2 < 32;
        assert(-0x8000_0000 * 32 <= te_nw * wp.p3a <= 0x8000_0000 * 32) by (nonlinear_arith)
            requires wp.p3a < 32;
        assert(-0x8000_0000 * 32 <= te_n * wp.p3b <= 0x8000_0000 * 32) by (nonlinear_arith)
            requires wp.p3b < 32;
        assert(-0x8000_0000 * 32 <= te_ne * wp.p3c <= 0x8000_0000 * 32) by (nonlinear_arith)
            requires wp.p3c < 32;
        let d1 = nn8 - n8;
        let d2 = nw8 - w8;
        assert(-0x1_0000_0000 * 32 <= d1 * wp.p3d <= 0x1_0000_0000 * 32) by (nonlinear_arith)
            requires -0x1_0000_0000 <= d1 <= 0x1_0000_0000, wp.p3d < 32;
        assert(-0x1_0000_0000 * 32 <= d2 * wp.p3e <= 0x1_0000_0000 * 32) by (nonlinear_arith)
            requires -0x1_0000_0000 <= d2 <= 0x1_0000_0000, wp.p3e < 32;
    }
    let c1: i64 = ((te_w as i64) + (te_n as i64) + (te_ne as i64)) * (wp.p1 as i64);
    let p1 = n8.wrapping_sub(corr_exec(c1));
    let c2: i64 = ((te_w as i64) + (te_n as i64) + (te_nw as i64)) * (wp.p2 as i64);
    let p2 = w8.wrapping_sub(corr_exec(c2));
    let c3: i64 = (te_nw as i64) * (wp.p3a as i64) + (te_n as i64) * (wp.p3b as i64) + (te_ne as i64)
        * (wp.p3c as i64) + ((nn8 as i64) - (n8 as i64)) * (wp.p3d as i64) + ((nw8 as i64) - (w8 as i64))
        * (wp.p3e as i64);
    let p3 = n8.wrapping_sub(corr_exec(c3));
    let preds: [i32; 4] = [p0, p1, p2, p3];
    assert(preds@ == spec_subpredictions(*state, *nb, x as int, y as int, *wp));

    let w0 = weight_exec(state, wp, 0, x, y);
    let w1 = weight_exec(state, wp, 1, x, y);
    let w2 = weight_exec(state, wp, 2, x, y);
    let w3 = weight_exec(state, wp, 3, x, y);
    let total = w0 + w1 + w2 + w3;
    let lw = bit_length_u64(total);
    let sh: u64 = if lw >= 5 { (lw - 5) as u64 } else { 0 };
    let s0 = w0 >> sh;
    let s1 = w1 >> sh;
    let s2 = w2 >> sh;
    let s3 = w3 >> sh;
    proof {
        vstd::bits::lemma_u64_shr_is_div(w0, sh);
        vstd::bits::lemma_u64_shr_is_div(w1, sh);
        vstd::bits::lemma_u64_shr_is_div(w2, sh);
        vstd::bits::lemma_u64_shr_is_div(w3, sh);
        lemma_scaled_small(w0 as nat, total as nat);
        lemma_scaled_small(w1 as nat, total as nat);
        lemma_scaled_small(w2 as nat, total as nat);
        lemma_scaled_small(w3 as nat, total as nat);
    }
    let sum = s0 + s1 + s2 + s3;
    if sum == 0 {
        let g = w8.wrapping_add(n8).wrapping_sub(nw8);
        return (g, preds, 0);
    }
    let s_init: i64 = (sum / 2) as i64 - 1;
    proof {
        assert(-0x8000_0000 * 31 <= p0 * s0 <= 0x8000_0000 * 31) by (nonlinear_arith)
            requires s0 < 32;
        assert(-0x8000_0000 * 31 <= p1 * s1 <= 0x8000_0000 * 31) by (nonlinear_arith)
            requires s1 < 32;
        assert(-0x8000_0000 * 31 <= p2 * s2 <= 0x8000_0000 * 31) by (nonlinear_arith)
            requires s2 < 32;
        assert(-0x8000_0000 * 31 <= p3 * s3 <= 0x8000_0000 * 31) by (nonlinear_arith)
            requires s3 < 32;
    }
    let acc: i64 = s_init + (p0 as i64) * (s0 as i64) + (p1 as i64) * (s1 as i64) + (p2 as i64) * (s2 as i64)
        + (p3 as i64) * (s3 as i64);
    let q2: i64 = 0x100_0000i64 / (sum as i64);
    proof {
        assert(0 <= q2 <= 0x100_0000) by (nonlinear_arith)
            requires q2 == 0x100_0000int / (sum as int), sum >= 1;
        assert(-0x40_0000_0000 * 0x100_0000 <= acc * q2 <= 0x40_0000_0000 * 0x100_0000) by (nonlinear_arith)
            requires -0x40_0000_0000 <= acc <= 0x40_0000_0000, 0 <= q2 <= 0x100_0000;
    }
    let prod: i64 = acc * q2;
    let scaled = match prod.checked_div_euclid(0x100_0000) {
        Some(v) => v,
        None => 0,
    };
    let mut prediction = scaled as i32;
    if ((te_n ^ te_w) | (te_n ^ te_nw)) <= 0 {
        let lo0 = if w8 <= n8 { w8 } else { n8 };
        let lo = if lo0 <= ne8 { lo0 } else { ne8 };
        let hi0 = if w8 >= n8 { w8 } else { n8 };
        let hi = if hi0 >= ne8 { hi0 } else { ne8 };
        prediction = if prediction < lo {
            lo
        } else if prediction > hi {
            hi
        } else {
            prediction
        };
    }
    let mut max_error = te_w;
    if abs_u32(te_n) > abs_u32(max_error) {
        max_error = te_n;
    }
    if abs_u32(te_nw) > abs_u32(max_error) {
        max_error = te_nw;
    }
    if abs_u32(te_ne) > abs_u32(max_error) {
        max_error = te_ne;
    }
    (prediction, preds, max_error)
}

/// `|v|` as a `u32`.
fn abs_u32(v: i32) -> (r: u32)
    ensures
        r == crate::modular::spec_abs(v as int),
{
    if v < 0 {
        (-(v as i64)) as u32
    } else {
        v as u32
    }
}

/// `(p + 3) >> 3` on the wrapped sum: a prediction in eighths rounded
/// to a sample value.
pub open spec fn round_eighths(p: i32) -> i32 {
    (wadd(p, 3) as int / 8) as i32
}

/// Result of [`predict`]: `None` for an unknown predictor or for
/// predictor 6 without a self-correcting state; otherwise the prediction,
/// the four sub-predictions (zero unless predictor 6) and `max_error`
/// (zero unless predictor 6).
pub open spec fn spec_predict(
    img: ModularImage,
    i: int,
    x: int,
    y: int,
    predictor: u32,
    wp: WpHeader,
    wp_state: Option<WpState>,
) -> Option<(i32, Seq<i32>, i32)> {
    let nb = spec_neighbours(img, i, x, y);
    if predictor == 6 {
        match wp_state {
            Some(s) => {
                let o = spec_wp_predict(s, nb, x, y, wp);
                Some((round_eighths(o.0), o.1, o.2))
            },
            None => None,
        }
    } else {
        match spec_simple_prediction(nb, predictor) {
            Some(v) => Some((v, seq![0i32, 0i32, 0i32, 0i32], 0i32)),
            None => None,
        }
    }
}

/// Prediction of Table H.3 for sample `(x, y)` of channel `i` with
/// predictor `predictor`; predictor 6 needs the channel's self-correcting
/// state.
pub fn predict(
    img: &ModularImage,
    i: usize,
    x: i32,
    y: i32,
    predictor: u32,
    wp: &WpHeader,
    wp_state: Option<&WpState>,
) -> (r: Result<(i32, [i32; 4], i32), JxlError>)
    requires
        img_wf(*img),
        i < img.descs@.len(),
        i32::MIN + 2 <= x <= i32::MAX - 2,
        i32::MIN < y,
        predictor == 6 ==> wp_header_wf(*wp),
        predictor == 6 && wp_state is Some ==> wp_state_wf(*wp_state.unwrap()),
    ensures
        match spec_predict(*img, i as int, x as int, y as int, predictor, *wp,
            match wp_state { Some(s) => Some(*s), None => None }) {
            Some(o) => r matches Ok(v) && v.0 == o.0 && v.1@ == o.1 && v.2 == o.2,
            None => r matches Err(e) && e is InvalidData,
        },
{
    let nb = Neighbours::at(img, i, x, y);
    if predictor == 6 {
        match wp_state {
            Some(state) => {
                let (pred8, preds, max_err) = wp_predict(state, &nb, x, y, wp);
                let v = match pred8.wrapping_add(3).checked_div_euclid(8) {
                    Some(q) => q,
                    None => 0,
                };
                Ok((v, preds, max_err))
            },
            None => Err(invalid("self-correcting predictor without its state")),
        }
    } else {
        match simple_prediction(&nb, predictor) {
            Some(v) => {
                let z: [i32; 4] = [0, 0, 0, 0];
                assert(z@ == seq![0i32, 0i32, 0i32, 0i32]);
                Ok((v, z, 0))
            },
            None => Err(invalid("predictor out of range")),
        }
    }
}

/// `2 × v` with two's-complement wrap-around.
pub open spec fn wdouble(v: i32) -> i32 {
    (2 * v) as i32
}

/// The tendency function of H.6.2.
pub open spec fn spec_tendency(a: i32, b: i32, c: i32) -> i32 {
    let x0 = ((4 * a - 3 * c - b + 6) / 12) as i32;
    let two_ab = wdouble(wsub(a, b));
    let two_bc = wdouble(wsub(b, c));
    if a >= b && b >= c {
        let x1 = if wsub(x0, x0 & 1) > two_ab { wadd(two_ab, 1) } else { x0 };
        if wadd(x1, x1 & 1) > two_bc { two_bc } else { x1 }
    } else if a <= b && b <= c {
        let x1 = if wadd(x0, x0 & 1) < two_ab { wsub(two_ab, 1) } else { x0 };
        if wsub(x1, x1 & 1) < two_bc { two_bc } else { x1 }
    } else {
        0
    }
}

/// The tendency function of H.6.2: the expected difference between the
/// two samples that `b` averages, given its neighbours `a` and `c`.
pub fn squeeze_tendency(a: i32, b: i32, c: i32) -> (r: i32)
    ensures
        r == spec_tendency(a, b, c),
{
    let t: i64 = 4i64 * (a as i64) - 3 * (c as i64) - (b as i64) + 6;
    let q = match t.checked_div_euclid(12) {
        Some(q) => q,
        None => 0,
    };
    let mut x = q as i32;
    let two_ab = (2i64 * (a.wrapping_sub(b) as i64)) as i32;
    let two_bc = (2i64 * (b.wrapping_sub(c) as i64)) as i32;
    if a >= b && b >= c {
        if x.wrapping_sub(x & 1) > two_ab {
            x = two_ab.wrapping_add(1);
        }
        if x.wrapping_add(x & 1) > two_bc {
            x = two_bc;
        }
        x
    } else if a <= b && b <= c {
        if x.wrapping_add(x & 1) < two_ab {
            x = two_ab.wrapping_sub(1);
        }
        if x.wrapping_sub(x & 1) < two_bc {
            x = two_bc;
        }
        x
    } else {
        0
    }
}

/// Sign of `v` as -1, 0 or 1.
pub open spec fn signum(v: i32) -> int {
    if v > 0 {
        1
    } else if v < 0 {
        -1
    } else {
        0
    }
}

/// Pair `(first, second)` restored from an average and a difference
/// (H.6.2): `first = (2 avg + diff - sign(diff) (diff & 1)) >> 1`,
/// `second = first - diff`.
pub open spec fn unsqueeze_pair(avg: i32, diff: i32) -> (i32, i32) {
    let first = ((2 * avg + diff - signum(diff) * (diff & 1)) / 2) as i32;
    (first, wsub(first, diff))
}

/// A restored pair differs by the difference it was restored from:
/// `first - second == diff` (wrapping).
pub proof fn law_unsqueeze_pair_difference(avg: i32, diff: i32)
    ensures
        wsub(unsqueeze_pair(avg, diff).0, unsqueeze_pair(avg, diff).1) == diff,
{
    let f = unsqueeze_pair(avg, diff).0;
    assert(wsub(f, wsub(f, diff)) == diff) by (bit_vector);
}

/// The pair restored from `avg`, `residu` and the neighbours `prev`
/// (already restored) and `next_avg`.
#[verifier::opaque]
pub open spec fn squeeze_step(prev: i32, avg: i32, next_avg: i32, residu: i32) -> (i32, i32) {
    unsqueeze_pair(avg, wadd(residu, spec_tendency(prev, avg, next_avg)))
}

/// Exec form of [`squeeze_step`].
fn squeeze_step_exec(prev: i32, avg: i32, next_avg: i32, residu: i32) -> (r: (i32, i32))
    ensures
        r == squeeze_step(prev, avg, next_avg, residu),
{
    reveal(squeeze_step);
    let diff = residu.wrapping_add(squeeze_tendency(prev, avg, next_avg));
    let sgn: i64 = if diff > 0 {
        1
    } else if diff < 0 {
        -1
    } else {
        0
    };
    let t: i64 = 2i64 * (avg as i64) + (diff as i64) - sgn * ((diff & 1) as i64);
    proof {
        assert(0 <= diff & 1 <= 1) by (bit_vector);
    }
    let h = match t.checked_div_euclid(2) {
        Some(v) => v,
        None => 0,
    };
    let first = h as i32;
    (first, first.wrapping_sub(diff))
}

/// Pair `x` of row `y` of a horizontal inverse squeeze: `in1` holds the
/// `w1`-wide averages, `in2` the `w2`-wide residuals.
pub open spec fn hsq_pair(in1: Seq<i32>, w1: int, in2: Seq<i32>, w2: int, y: int, x: int) -> (i32, i32)
    decreases x,
{
    let avg = in1[y * w1 + x];
    let next_avg = if x + 1 < w1 { in1[y * w1 + x + 1] } else { avg };
    let left = if x > 0 { hsq_pair(in1, w1, in2, w2, y, x - 1).1 } else { avg };
    squeeze_step(left, avg, next_avg, in2[y * w2 + x])
}

/// Sample `(x, y)` of a horizontal inverse squeeze's output, whose rows
/// are `w1 + w2` wide: restored pairs, then the unpaired last average.
pub open spec fn hsq_sample(in1: Seq<i32>, w1: int, in2: Seq<i32>, w2: int, x: int, y: int) -> i32 {
    if x < 2 * w2 {
        let p = hsq_pair(in1, w1, in2, w2, y, x / 2);
        if x % 2 == 0 { p.0 } else { p.1 }
    } else {
        in1[y * w1 + w2]
    }
}

/// Sample at flat index `j` of a horizontal inverse squeeze's output.
#[verifier::opaque]
pub open spec fn hsq_flat(in1: Seq<i32>, w1: int, in2: Seq<i32>, w2: int, j: int) -> i32 {
    hsq_sample(in1, w1, in2, w2, j % (w1 + w2), j / (w1 + w2))
}

/// Sample at flat index `j` of a vertical inverse squeeze's output.
#[verifier::opaque]
pub open spec fn vsq_flat(in1: Seq<i32>, in2: Seq<i32>, w: int, h1: int, h2: int, j: int) -> i32 {
    vsq_sample(in1, in2, w, h1, h2, j % w, j / w)
}

/// A horizontal inverse squeeze restores each pair of a row from its
/// average, its residual and its two neighbours: the next average (the
/// pair's own average at the row's end) and, on the left, the sample just
/// restored before the pair (column `2x - 1`; the pair's own average for
/// the first pair). A row with an odd number of columns ends with its
/// unpaired average.
pub proof fn law_hsq_pairs_use_restored_left(in1: Seq<i32>, w1: int, in2: Seq<i32>, w2: int, x: int, y: int)
    requires
        w1 == w2 || w1 == w2 + 1,
        0 <= x < w2,
        0 <= y,
    ensures
        ({
            let avg = in1[y * w1 + x];
            let next_avg = if x + 1 < w1 { in1[y * w1 + x + 1] } else { avg };
            let left = if x > 0 { hsq_sample(in1, w1, in2, w2, 2 * x - 1, y) } else { avg };
            (hsq_sample(in1, w1, in2, w2, 2 * x, y), hsq_sample(in1, w1, in2, w2, 2 * x + 1, y))
                == squeeze_step(left, avg, next_avg, in2[y * w2 + x])
        }),
        w1 == w2 + 1 ==> hsq_sample(in1, w1, in2, w2, 2 * w2, y) == in1[y * w1 + w2],
{
    assert((2 * x) / 2 == x && (2 * x) % 2 == 0);
    assert((2 * x + 1) / 2 == x && (2 * x + 1) % 2 == 1);
    if x > 0 {
        assert((2 * x - 1) / 2 == x - 1 && (2 * x - 1) % 2 == 1);
    }
}

/// A vertical inverse squeeze restores each pair of a column from its
/// average, its residual, the next average below, and above it the sample
/// just restored (row `2y - 1`; the pair's own average for the first
/// pair).
pub proof fn law_vsq_pairs_use_restored_top(in1: Seq<i32>, in2: Seq<i32>, w: int, h1: int, h2: int, x: int, y: int)
    requires
        h1 == h2 || h1 == h2 + 1,
        0 <= y < h2,
        0 <= x,
    ensures
        ({
            let avg = in1[y * w + x];
            let next_avg = if y + 1 < h1 { in1[(y + 1) * w + x] } else { avg };
            let top = if y > 0 { vsq_sample(in1, in2, w, h1, h2, x, 2 * y - 1) } else { avg };
            (vsq_sample(in1, in2, w, h1, h2, x, 2 * y), vsq_sample(in1, in2, w, h1, h2, x, 2 * y + 1))
                == squeeze_step(top, avg, next_avg, in2[y * w + x])
        }),
        h1 == h2 + 1 ==> vsq_sample(in1, in2, w, h1, h2, x, 2 * h2) == in1[h2 * w + x],
{
    assert((2 * y) / 2 == y && (2 * y) % 2 == 0);
    assert((2 * y + 1) / 2 == y && (2 * y + 1) % 2 == 1);
    if y > 0 {
        assert((2 * y - 1) / 2 == y - 1 && (2 * y - 1) % 2 == 1);
    }
}

/// Row `y` of width `w` starts at `y * w`: the quotient and remainder of
/// `y * w + x` by `w` are `y` and `x`.
proof fn lemma_row_split(w: int, x: int, y: int)
    requires
        0 <= x < w,
        0 <= y,
    ensures
        (y * w + x) / w == y,
        (y * w + x) % w == x,
{
    vstd::arithmetic::div_mod::lemma_fundamental_div_mod_converse(y * w + x, w, y, x);
}

/// Horizontal inverse squeeze step (H.6.2): merges `input_1` (`w1 × h`
/// averages) and `input_2` (`w2 × h` residuals) into a `(w1 + w2) × h`
/// channel; `w1` must be `w2` or `w2 + 1`. Returns the samples and the
/// new width.
pub fn horiz_isqueeze(input_1: &[i32], w1: u32, input_2: &[i32], w2: u32, h: u32) -> (r: Result<(Vec<i32>, u32), JxlError>)
    requires
        input_1@.len() >= w1 * h,
        input_2@.len() >= w2 * h,
        w1 + w2 < u32::MAX,
        (w1 + w2) * h <= usize::MAX,
    ensures
        r is Err <==> !(w1 == w2 || w1 == w2 + 1),
        r matches Err(e) ==> e is InvalidData,
        r matches Ok((out, ow)) ==> {
            &&& ow == w1 + w2
            &&& out@.len() == (w1 + w2) * h
            &&& forall|x: int, y: int| 0 <= x < w1 + w2 && 0 <= y < h ==> #[trigger] out@[y * (w1 + w2) + x]
                == hsq_sample(input_1@, w1 as int, input_2@, w2 as int, x, y)
        },
{
    if !(w1 == w2 || w1 == w2 + 1) {
        return Err(invalid("horizontal squeeze widths do not pair"));
    }
    let out_w = w1 + w2;
    let ghost ow = out_w as int;
    let ghost in1 = input_1@;
    let ghost in2 = input_2@;
    let mut out: Vec<i32> = Vec::new();
    let mut y: u32 = 0;
    while y < h
        invariant
            w1 == w2 || w1 == w2 + 1,
            out_w == w1 + w2,
            ow == out_w,
            in1 == input_1@,
            in2 == input_2@,
            input_1@.len() >= w1 * h,
            input_2@.len() >= w2 * h,
            ow * h <= usize::MAX,
            y <= h,
            out@.len() == y * ow,
            forall|j: int| 0 <= j < out@.len() ==> #[trigger] out@[j] == hsq_flat(in1, w1 as int, in2, w2 as int, j),
        decreases h - y,
    {
        proof {
            assert((y + 1) * ow <= ow * h) by (nonlinear_arith)
                requires y < h, ow >= 0;
            assert((y + 1) * w1 <= w1 * h) by (nonlinear_arith)
                requires y < h;
            assert((y + 1) * w2 <= w2 * h) by (nonlinear_arith)
                requires y < h;
            assert(y * ow + ow == (y + 1) * ow) by (nonlinear_arith);
            assert(y * w1 + w1 == (y + 1) * w1) by (nonlinear_arith);
            assert(y * w2 + w2 == (y + 1) * w2) by (nonlinear_arith);
            assert(0 <= y * w1 && 0 <= y * w2) by (nonlinear_arith)
                requires y >= 0;
            assert(w1 * h <= ow * h && w2 * h <= ow * h) by (nonlinear_arith)
                requires ow == w1 + w2, h >= 0;
        }
        let row1: usize = (y as usize) * (w1 as usize);
        let row2: usize = (y as usize) * (w2 as usize);
        let mut prev: i32 = 0;
        let mut x: u32 = 0;
        while x < w2
            invariant
                w1 == w2 || w1 == w2 + 1,
                out_w == w1 + w2,
                ow == out_w,
                in1 == input_1@,
                in2 == input_2@,
                y < h,
                row1 == y * w1,
                row2 == y * w2,
                row1 + w1 <= input_1@.len(),
                row2 + w2 <= input_2@.len(),
                row1 + w1 <= usize::MAX,
                row2 + w2 <= usize::MAX,
                x <= w2,
                out@.len() == y * ow + 2 * x,
                x > 0 ==> prev == hsq_pair(in1, w1 as int, in2, w2 as int, y as int, x - 1).1,
                forall|j: int| 0 <= j < out@.len() ==> #[trigger] out@[j] == hsq_flat(in1, w1 as int, in2, w2 as int, j),
            decreases w2 - x,
        {
            let avg = input_1[row1 + x as usize];
            let residu = input_2[row2 + x as usize];
            let next_avg = if x + 1 < w1 { input_1[row1 + x as usize + 1] } else { avg };
            let left = if x > 0 { prev } else { avg };
            let (first, second) = squeeze_step_exec(left, avg, next_avg, residu);
            proof {
                let pr = hsq_pair(in1, w1 as int, in2, w2 as int, y as int, x as int);
                assert((first, second) == pr);
                let j0 = y * ow + 2 * x;
                assert(hsq_flat(in1, w1 as int, in2, w2 as int, j0) == first) by {
                    reveal(hsq_flat);
                    lemma_row_split(ow, 2 * x, y as int);
                }
                assert(hsq_flat(in1, w1 as int, in2, w2 as int, j0 + 1) == second) by {
                    reveal(hsq_flat);
                    lemma_row_split(ow, 2 * x + 1, y as int);
                }
            }
            out.push(first);
            out.push(second);
            prev = second;
            x = x + 1;
        }
        if w1 > w2 {
            let v = input_1[row1 + w2 as usize];
            proof {
                assert(hsq_flat(in1, w1 as int, in2, w2 as int, y * ow + 2 * w2) == v) by {
                    reveal(hsq_flat);
                    lemma_row_split(ow, 2 * w2, y as int);
                }
            }
            out.push(v);
        }
        y = y + 1;
    }
    proof {
        assert(out@.len() == ow * h) by (nonlinear_arith)
            requires out@.len() == h * ow;
        assert forall|x: int, yy: int| 0 <= x < w1 + w2 && 0 <= yy < h implies #[trigger] out@[yy * (w1 + w2) + x]
            == hsq_sample(input_1@, w1 as int, input_2@, w2 as int, x, yy) by {
            lemma_index_bounds(ow, h as int, x, yy);
            assert(out@[yy * ow + x] == hsq_flat(in1, w1 as int, in2, w2 as int, yy * ow + x));
            assert(hsq_flat(in1, w1 as int, in2, w2 as int, yy * ow + x) == hsq_sample(in1, w1 as int, in2, w2 as int, x, yy)) by {
                reveal(hsq_flat);
                lemma_row_split(ow, x, yy);
            }
        }
    }
    Ok((out, out_w))
}

/// Pair at column `x` of row pair `y` of a vertical inverse squeeze:
/// `in1` holds the `h1` rows of averages, `in2` the `h2` rows of
/// residuals, both `w` wide.
pub open spec fn vsq_pair(in1: Seq<i32>, in2: Seq<i32>, w: int, h1: int, x: int, y: int) -> (i32, i32)
    decreases y,
{
    let avg = in1[y * w + x];
    let next_avg = if y + 1 < h1 { in1[(y + 1) * w + x] } else { avg };
    let top = if y > 0 { vsq_pair(in1, in2, w, h1, x, y - 1).1 } else { avg };
    squeeze_step(top, avg, next_avg, in2[y * w + x])
}

/// Sample `(x, y)` of a vertical inverse squeeze's output: rows `2k` and
/// `2k + 1` are the restored pairs, then the unpaired last row of averages.
pub open spec fn vsq_sample(in1: Seq<i32>, in2: Seq<i32>, w: int, h1: int, h2: int, x: int, y: int) -> i32 {
    if y < 2 * h2 {
        let p = vsq_pair(in1, in2, w, h1, x, y / 2);
        if y % 2 == 0 { p.0 } else { p.1 }
    } else {
        in1[h2 * w + x]
    }
}

/// Vertical inverse squeeze step (H.6.2): merges `input_1` (`w × h1`
/// averages) and `input_2` (`w × h2` residuals) into a `w × (h1 + h2)`
/// channel; `h1` must be `h2` or `h2 + 1`. Returns the samples and the
/// new height.
pub fn vert_isqueeze(input_1: &[i32], h1: u32, input_2: &[i32], h2: u32, w: u32) -> (r: Result<(Vec<i32>, u32), JxlError>)
    requires
        input_1@.len() >= w * h1,
        input_2@.len() >= w * h2,
        h1 + h2 < u32::MAX,
        w * (h1 + h2) <= usize::MAX,
    ensures
        r is Err <==> !(h1 == h2 || h1 == h2 + 1),
        r matches Err(e) ==> e is InvalidData,
        r matches Ok((out, oh)) ==> {
            &&& oh == h1 + h2
            &&& out@.len() == w * (h1 + h2)
            &&& forall|x: int, y: int| 0 <= x < w && 0 <= y < h1 + h2 ==> #[trigger] out@[y * w + x]
                == vsq_sample(input_1@, input_2@, w as int, h1 as int, h2 as int, x, y)
        },
{
    if !(h1 == h2 || h1 == h2 + 1) {
        return Err(invalid("vertical squeeze heights do not pair"));
    }
    let out_h = h1 + h2;
    let ghost in1 = input_1@;
    let ghost in2 = input_2@;
    let ghost wi = w as int;
    let mut out: Vec<i32> = Vec::new();
    let mut prev_sec: Vec<i32> = Vec::new();
    let mut y: u32 = 0;
    while y < h2
        invariant
            h1 == h2 || h1 == h2 + 1,
            wi == w,
            in1 == input_1@,
            in2 == input_2@,
            input_1@.len() >= w * h1,
            input_2@.len() >= w * h2,
            w * (h1 + h2) <= usize::MAX,
            y <= h2,
            out@.len() == 2 * y * wi,
            y > 0 ==> prev_sec@.len() == w,
            y > 0 ==> forall|x: int| 0 <= x < w ==> #[trigger] prev_sec@[x] == vsq_pair(in1, in2, wi, h1 as int, x, y - 1).1,
            forall|j: int| 0 <= j < out@.len() ==> #[trigger] out@[j] == vsq_flat(in1, in2, wi, h1 as int, h2 as int, j),
        decreases h2 - y,
    {
        proof {
            assert((y + 1) * wi <= wi * h2) by (nonlinear_arith)
                requires y < h2, wi >= 0;
            assert((y + 2) * wi <= wi * h1 || y + 1 >= h1) by (nonlinear_arith)
                requires y < h2, h1 == h2 || h1 == h2 + 1, wi >= 0;
            assert(y * wi + wi == (y + 1) * wi) by (nonlinear_arith);
            assert(0 <= y * wi) by (nonlinear_arith)
                requires y >= 0, wi >= 0;
            assert(2 * y * wi + 2 * wi <= wi * (h1 + h2)) by (nonlinear_arith)
                requires y < h2, h1 >= h2, wi >= 0;
            assert(wi * h2 <= wi * h1 && wi * h1 <= wi * (h1 + h2)) by (nonlinear_arith)
                requires h1 >= h2, wi >= 0, h2 >= 0;
            assert(y * wi + 2 * wi <= wi * h1 || y + 1 >= h1) by (nonlinear_arith)
                requires y < h2, h1 == h2 || h1 == h2 + 1, wi >= 0;
            assert(y * wi + 2 * wi <= wi * (h1 + h2)) by (nonlinear_arith)
                requires y < h2, h1 >= h2, wi >= 0;
        }
        let row: usize = (y as usize) * (w as usize);
        let mut sec: Vec<i32> = Vec::new();
        let mut x: u32 = 0;
        while x < w
            invariant
                h1 == h2 || h1 == h2 + 1,
                wi == w,
                in1 == input_1@,
                in2 == input_2@,
                y < h2,
                row == y * wi,
                row + wi <= input_1@.len(),
                row + wi <= input_2@.len(),
                row + 2 * wi <= usize::MAX,
                y + 1 < h1 ==> row + 2 * wi <= input_1@.len(),
                x <= w,
                out@.len() == 2 * y * wi + x,
                sec@.len() == x,
                y > 0 ==> prev_sec@.len() == w,
                y > 0 ==> forall|xx: int| 0 <= xx < w ==> #[trigger] prev_sec@[xx] == vsq_pair(in1, in2, wi, h1 as int, xx, y - 1).1,
                forall|xx: int| 0 <= xx < x ==> #[trigger] sec@[xx] == vsq_pair(in1, in2, wi, h1 as int, xx, y as int).1,
                forall|j: int| 0 <= j < out@.len() ==> #[trigger] out@[j] == vsq_flat(in1, in2, wi, h1 as int, h2 as int, j),
            decreases w - x,
        {
            let avg = input_1[row + x as usize];
            let residu = input_2[row + x as usize];
            let next_avg = if y + 1 < h1 { input_1[row + w as usize + x as usize] } else { avg };
            let top = if y > 0 { prev_sec[x as usize] } else { avg };
            let (first, second) = squeeze_step_exec(top, avg, next_avg, residu);
            proof {
                assert((y + 1) * wi == row + wi) by (nonlinear_arith)
                    requires row == y * wi;
                assert((first, second) == vsq_pair(in1, in2, wi, h1 as int, x as int, y as int));
                assert(vsq_flat(in1, in2, wi, h1 as int, h2 as int, 2 * y * wi + x) == first) by {
                    reveal(vsq_flat);
                    lemma_row_split(wi, x as int, 2 * y);
                    assert(2 * y * wi == (2 * y) * wi);
                }
            }
            out.push(first);
            sec.push(second);
            x = x + 1;
        }
        let mut k: u32 = 0;
        while k < w
            invariant
                h1 == h2 || h1 == h2 + 1,
                wi == w,
                in1 == input_1@,
                in2 == input_2@,
                y < h2,
                k <= w,
                out@.len() == 2 * y * wi + wi + k,
                sec@.len() == w,
                forall|xx: int| 0 <= xx < w ==> #[trigger] sec@[xx] == vsq_pair(in1, in2, wi, h1 as int, xx, y as int).1,
                forall|j: int| 0 <= j < out@.len() ==> #[trigger] out@[j] == vsq_flat(in1, in2, wi, h1 as int, h2 as int, j),
            decreases w - k,
        {
            proof {
                assert(vsq_flat(in1, in2, wi, h1 as int, h2 as int, 2 * y * wi + wi + k) == sec@[k as int]) by {
                    reveal(vsq_flat);
                    lemma_row_split(wi, k as int, 2 * y + 1);
                    assert((2 * y + 1) * wi == 2 * y * wi + wi) by (nonlinear_arith);
                }
            }
            out.push(sec[k as usize]);
            k = k + 1;
        }
        proof {
            assert(2 * (y + 1) * wi == 2 * y * wi + wi + wi) by (nonlinear_arith);
        }
        prev_sec = sec;
        y = y + 1;
    }
    if h1 > h2 {
        proof {
            assert(h2 * wi + wi <= wi * h1) by (nonlinear_arith)
                requires h1 == h2 + 1, wi >= 0;
            assert(0 <= h2 * wi) by (nonlinear_arith)
                requires wi >= 0;
            assert(wi * h1 <= wi * (h1 + h2)) by (nonlinear_arith)
                requires wi >= 0, h2 >= 0;
        }
        let row: usize = (h2 as usize) * (w as usize);
        let mut x: u32 = 0;
        while x < w
            invariant
                h1 == h2 + 1,
                wi == w,
                in1 == input_1@,
                in2 == input_2@,
                row == h2 * wi,
                row + wi <= input_1@.len(),
                row + wi <= usize::MAX,
                x <= w,
                out@.len() == 2 * h2 * wi + x,
                forall|j: int| 0 <= j < out@.len() ==> #[trigger] out@[j] == vsq_flat(in1, in2, wi, h1 as int, h2 as int, j),
            decreases w - x,
        {
            proof {
                assert(vsq_flat(in1, in2, wi, h1 as int, h2 as int, 2 * h2 * wi + x) == input_1@[row + x]) by {
                    reveal(vsq_flat);
                    lemma_row_split(wi, x as int, 2 * h2);
                    assert(2 * h2 * wi == (2 * h2) * wi);
                }
            }
            out.push(input_1[row + x as usize]);
            x = x + 1;
        }
    }
    proof {
        assert(out@.len() == w * (h1 + h2)) by (nonlinear_arith)
            requires out@.len() == 2 * h2 * wi + (if h1 > h2 { wi } else { 0 }), h1 == h2 || h1 == h2 + 1, wi == w;
        assert forall|x: int, yy: int| 0 <= x < w && 0 <= yy < h1 + h2 implies #[trigger] out@[yy * w + x]
            == vsq_sample(input_1@, input_2@, w as int, h1 as int, h2 as int, x, yy) by {
            lemma_index_bounds(wi, (h1 + h2) as int, x, yy);
            assert(out@[yy * wi + x] == vsq_flat(in1, in2, wi, h1 as int, h2 as int, yy * wi + x));
            assert(vsq_flat(in1, in2, wi, h1 as int, h2 as int, yy * wi + x) == vsq_sample(in1, in2, wi, h1 as int, h2 as int, x, yy)) by {
                reveal(vsq_flat);
                lemma_row_split(wi, x, yy);
            }
        }
    }
    Ok((out, out_h))
}

/// `v >> 1` (floor of `v / 2`).
pub open spec fn half(v: i32) -> i32 {
    (v as int / 2) as i32
}

/// `v >> 1` (floor of `v / 2`).
fn half_exec(v: i32) -> (r: i32)
    ensures
        r == half(v),
{
    match v.checked_div_euclid(2) {
        Some(q) => q,
        None => 0,
    }
}

/// The values `(D, E, F)` of H.6.3 for RCT type `typ` on `(A, B, C)`.
pub open spec fn rct_def(typ: u32, a: i32, b: i32, c: i32) -> (i32, i32, i32) {
    if typ == 6 {
        let tmp = wsub(a, half(c));
        let e = wadd(c, tmp);
        let f = wsub(tmp, half(b));
        (wadd(f, b), e, f)
    } else {
        let c1 = if typ % 2 == 1 { wadd(c, a) } else { c };
        let b1 = if typ / 2 == 1 { wadd(b, a) } else { b };
        let b2 = if typ / 2 == 2 { wadd(b1, half(wadd(a, c1))) } else { b1 };
        (a, b2, c1)
    }
}

/// Channel `k` (0, 1 or 2) of the inverse RCT `rct_type` of the samples
/// `(a, b, c)`: `V[p mod 3] = D`, `V[(p + 1 + p / 3) mod 3] = E`,
/// `V[(p + 2 - p / 3) mod 3] = F` for the permutation `p = rct_type / 7`.
pub open spec fn spec_rct_pixel(rct_type: u32, k: int, a: i32, b: i32, c: i32) -> i32 {
    let p = rct_type / 7;
    let def = rct_def(rct_type % 7, a, b, c);
    if k == (p + 2 - p / 3) % 3 {
        def.2
    } else if k == (p + 1 + p / 3) % 3 {
        def.1
    } else {
        def.0
    }
}

/// RCT type 0 (no arithmetic, identity permutation) gives every sample
/// back unchanged.
pub proof fn law_rct_type_zero_is_identity(a: i32, b: i32, c: i32)
    ensures
        spec_rct_pixel(0, 0, a, b, c) == a,
        spec_rct_pixel(0, 1, a, b, c) == b,
        spec_rct_pixel(0, 2, a, b, c) == c,
{
}

/// The inverse RCT (H.6.3) of samples `(A, B, C)` with type `t < 7` and
/// the identity permutation gives `(D, E, F)` on channels 0, 1, 2:
/// for `t < 6`, `D = A`; `F = C + A` for odd `t`, else `C`; `E = B + A`
/// for `t` 2 and 3, `E = B + ((A + F) >> 1)` with the updated `F` for `t`
/// 4 and 5, else `E = B`. Type 6 (YCgCo) has `E - C = A - (C >> 1)`,
/// `F = (E - C) - (B >> 1)` and `D = F + B`. All sums wrap.
pub proof fn law_rct_types(t: u32, a: i32, b: i32, c: i32)
    requires
        t < 7,
    ensures
        ({
            let d = spec_rct_pixel(t, 0, a, b, c);
            let e = spec_rct_pixel(t, 1, a, b, c);
            let f = spec_rct_pixel(t, 2, a, b, c);
            &&& t < 6 ==> d == a
            &&& t < 6 ==> f == (if t % 2 == 1 { wadd(c, a) } else { c })
            &&& (t == 0 || t == 1) ==> e == b
            &&& (t == 2 || t == 3) ==> e == wadd(b, a)
            &&& (t == 4 || t == 5) ==> e == wadd(b, half(wadd(a, f)))
            &&& t == 6 ==> wsub(e, c) == wsub(a, half(c)) && f == wsub(wsub(e, c), half(b)) && d == wadd(f, b)
        }),
{
    if t == 6 {
        let tmp = wsub(a, half(c));
        let e = wadd(c, tmp);
        assert(wsub(wadd(c, tmp), c) == tmp) by (bit_vector);
    }
}

/// The permutation `p = rct_type / 7` only places the values `(D, E, F)`
/// of type `rct_type % 7`: `D` on channel `p mod 3`, `E` on channel
/// `(p + 1 + p / 3) mod 3` and `F` on channel `(p + 2 - p / 3) mod 3`.
pub proof fn law_rct_permutation(t: u32, p: u32, a: i32, b: i32, c: i32)
    requires
        t < 7,
        p <= 5,
    ensures
        spec_rct_pixel((t + 7 * p) as u32, (p % 3) as int, a, b, c) == spec_rct_pixel(t, 0, a, b, c),
        spec_rct_pixel((t + 7 * p) as u32, ((p + 1 + p / 3) % 3) as int, a, b, c) == spec_rct_pixel(t, 1, a, b, c),
        spec_rct_pixel((t + 7 * p) as u32, ((p + 2 - p / 3) % 3) as int, a, b, c) == spec_rct_pixel(t, 2, a, b, c),
{
    assert(((t + 7 * p) as u32) / 7 == p && ((t + 7 * p) as u32) % 7 == t);
}

/// The inverse RCT applies: three channels from `begin_c` exist and
/// share their dimensions, and the permutation is at most 5.
pub open spec fn rct_applies(img: ModularImage, begin_c: int, rct_type: u32) -> bool {
    &&& begin_c + 3 <= img.channels@.len()
    &&& rct_type / 7 <= 5
    &&& img.descs@[begin_c].width == img.descs@[begin_c + 1].width
    &&& img.descs@[begin_c].width == img.descs@[begin_c + 2].width
    &&& img.descs@[begin_c].height == img.descs@[begin_c + 1].height
    &&& img.descs@[begin_c].height == img.descs@[begin_c + 2].height
}

/// Inverse reversible colour transform (H.6.3) on channels `begin_c`,
/// `begin_c + 1`, `begin_c + 2`.
pub fn inverse_rct(img: &mut ModularImage, begin_c: usize, rct_type: u32) -> (r: Result<(), JxlError>)
    requires
        img_wf(*old(img)),
    ensures
        r is Ok <==> rct_applies(*old(img), begin_c as int, rct_type),
        r matches Err(e) ==> e is InvalidData && *final(img) == *old(img),
        r is Ok ==> {
            &&& img_wf(*final(img))
            &&& final(img).descs == old(img).descs
            &&& final(img).channels@.len() == old(img).channels@.len()
            &&& forall|i: int| 0 <= i < old(img).channels@.len() && !(begin_c <= i < begin_c + 3)
                ==> #[trigger] final(img).channels@[i] == old(img).channels@[i]
            &&& forall|k: int| 0 <= k < 3 ==> (#[trigger] final(img).channels@[begin_c + k])@.len()
                == old(img).channels@[begin_c + k]@.len()
            &&& forall|k: int, j: int| 0 <= k < 3 && 0 <= j < old(img).channels@[begin_c as int]@.len()
                ==> #[trigger] final(img).channels@[begin_c + k]@[j] == spec_rct_pixel(rct_type, k,
                    old(img).channels@[begin_c as int]@[j], old(img).channels@[begin_c + 1]@[j],
                    old(img).channels@[begin_c + 2]@[j])
        },
{
    if begin_c >= img.channels.len() || img.channels.len() - begin_c < 3 {
        return Err(invalid("RCT channels out of range"));
    }
    let permutation = rct_type / 7;
    let typ = rct_type % 7;
    if permutation > 5 {
        return Err(invalid("RCT permutation out of range"));
    }
    let d0 = img.descs[begin_c];
    let d1 = img.descs[begin_c + 1];
    let d2 = img.descs[begin_c + 2];
    if d0.width != d1.width || d0.width != d2.width || d0.height != d1.height || d0.height != d2.height {
        return Err(invalid("RCT channels differ in size"));
    }
    let ghost old_img = *img;
    let n = img.channels[begin_c].len();
    proof {
        assert(chan_wf(img.descs@[begin_c + 1], img.channels@[begin_c + 1]@));
        assert(chan_wf(img.descs@[begin_c + 2], img.channels@[begin_c + 2]@));
        assert(chan_wf(img.descs@[begin_c as int], img.channels@[begin_c as int]@));
    }
    let c1: usize = begin_c + 1;
    let c2: usize = begin_c + 2;
    let i_d = (permutation % 3) as usize;
    let i_e = ((permutation + 1 + permutation / 3) % 3) as usize;
    let i_f = ((permutation + 2 - permutation / 3) % 3) as usize;
    let mut idx: usize = 0;
    while idx < n
        invariant
            img_wf(*img),
            img.descs == old_img.descs,
            img.channels@.len() == old_img.channels@.len(),
            begin_c + 3 <= img.channels@.len(),
            n == old_img.channels@[begin_c as int]@.len(),
            n == old_img.channels@[begin_c + 1]@.len(),
            n == old_img.channels@[begin_c + 2]@.len(),
            permutation == rct_type / 7,
            typ == rct_type % 7,
            c1 == begin_c + 1,
            c2 == begin_c + 2,
            permutation <= 5,
            i_d == permutation % 3,
            i_e == (permutation + 1 + permutation / 3) % 3,
            i_f == (permutation + 2 - permutation / 3) % 3,
            idx <= n,
            forall|i: int| 0 <= i < old_img.channels@.len() && !(begin_c <= i < begin_c + 3)
                ==> #[trigger] img.channels@[i] == old_img.channels@[i],
            forall|k: int| 0 <= k < 3 ==> (#[trigger] img.channels@[begin_c + k])@.len() == n,
            forall|k: int, j: int| 0 <= k < 3 && 0 <= j < idx ==> #[trigger] img.channels@[begin_c + k]@[j]
                == spec_rct_pixel(rct_type, k, old_img.channels@[begin_c as int]@[j],
                    old_img.channels@[begin_c + 1]@[j], old_img.channels@[begin_c + 2]@[j]),
            forall|k: int, j: int| 0 <= k < 3 && idx <= j < n ==> #[trigger] img.channels@[begin_c + k]@[j]
                == old_img.channels@[begin_c + k]@[j],
        decreases n - idx,
    {
        proof {
            assert(img.channels@[begin_c + 0] == img.channels@[begin_c as int]);
        }
        let a = img.channels[begin_c][idx];
        let b0 = img.channels[c1][idx];
        let c0 = img.channels[c2][idx];
        let mut b = b0;
        let mut c = c0;
        let d: i32;
        let e: i32;
        let f: i32;
        if typ == 6 {
            let tmp = a.wrapping_sub(half_exec(c));
            e = c.wrapping_add(tmp);
            f = tmp.wrapping_sub(half_exec(b));
            d = f.wrapping_add(b);
        } else {
            if typ % 2 == 1 {
                c = c.wrapping_add(a);
            }
            if typ / 2 == 1 {
                b = b.wrapping_add(a);
            }
            if typ / 2 == 2 {
                b = b.wrapping_add(half_exec(a.wrapping_add(c)));
            }
            d = a;
            e = b;
            f = c;
        }
        assert((d, e, f) == rct_def(typ, a, b0, c0));
        let mut v: [i32; 3] = [0, 0, 0];
        v.set(i_d, d);
        v.set(i_e, e);
        v.set(i_f, f);
        assert(forall|k: int| 0 <= k < 3 ==> v@[k] == spec_rct_pixel(rct_type, k, a, b0, c0));
        let ghost before = *img;
        img.channels[begin_c].set(idx, v[0]);
        img.channels[c1].set(idx, v[1]);
        img.channels[c2].set(idx, v[2]);
        proof {
            assert forall|i: int| 0 <= i < img.channels@.len() implies chan_wf(#[trigger] img.descs@[i], img.channels@[i]@) by {
                assert(chan_wf(before.descs@[i], before.channels@[i]@));
            }
            assert(img.channels@[begin_c + 0] == img.channels@[begin_c as int]);
        }
        idx = idx + 1;
    }
    proof {
        assert forall|k: int| 0 <= k < 3 implies (#[trigger] img.channels@[begin_c + k])@.len() == old(img).channels@[begin_c + k]@.len() by {
        }
    }
    Ok(())
}

/// Sample `(x, y)` of a row-major `w × h` plane, 0 outside it.
pub open spec fn plane_get(data: Seq<i32>, w: int, h: int, x: int, y: int) -> i32 {
    if x < 0 || y < 0 || x >= w || y >= h {
        0
    } else {
        data[y * w + x]
    }
}

/// The neighbours of `(x, y)` in a `w × h` plane, with the edge fallbacks
/// of H.3.
pub open spec fn plane_neighbours(data: Seq<i32>, w: u32, h: u32, x: int, y: int) -> Neighbours {
    let width = (w as i32) as int;
    let g = |xx: int, yy: int| plane_get(data, w as int, h as int, xx, yy);
    let wv = if x > 0 { g(x - 1, y) } else if y > 0 { g(x, y - 1) } else { 0i32 };
    let n = if y > 0 { g(x, y - 1) } else { wv };
    let nw = if x > 0 && y > 0 { g(x - 1, y - 1) } else { wv };
    let ne = if x + 1 < width && y > 0 { g(x + 1, y - 1) } else { n };
    let nn = if y > 1 { g(x, y - 2) } else { n };
    let nee = if x + 2 < width && y > 0 { g(x + 2, y - 1) } else { ne };
    let ww = if x > 1 { g(x - 2, y) } else { wv };
    Neighbours { w: wv, n, nw, ne, nn, nee, ww }
}

/// The neighbours of a channel of a well-formed image are those of its
/// plane.
proof fn lemma_neighbours_plane(img: ModularImage, i: int, x: int, y: int)
    requires
        img_wf(img),
        0 <= i < img.channels@.len(),
    ensures
        spec_neighbours(img, i, x, y) == plane_neighbours(img.channels@[i]@, img.descs@[i].width,
            img.descs@[i].height, x, y),
{
    let d = img.descs@[i];
    assert forall|xx: int, yy: int| #[trigger] plane_get(img.channels@[i]@, d.width as int, d.height as int, xx, yy)
        == spec_img_get(img, i, xx, yy) as i32 by {
    }
}

/// Bit depth used by the palette: at least 1.
pub open spec fn palette_depth(bit_depth: u32) -> nat {
    if bit_depth >= 1 { bit_depth as nat } else { 1 }
}

/// `((1 << bd) - 1) / 4`, with `i32::MAX / 4` from 32 bits up.
pub open spec fn palette_quarter(bd: nat) -> i32 {
    if bd >= 32 {
        (0x7fff_ffffint / 4) as i32
    } else {
        ((pow2(bd) - 1) / 4) as i32
    }
}

/// `1 << (bd - 3)` above 3 bits, else 1 (reinterpreted as an `i32`).
pub open spec fn palette_offset(bd: nat) -> i32 {
    if bd > 3 {
        pow2((bd - 3) as nat) as i32
    } else {
        1
    }
}

/// `5^k`.
pub open spec fn pow5(k: nat) -> nat
    decreases k,
{
    if k == 0 { 1 } else { 5 * pow5((k - 1) as nat) }
}

/// Value of channel `c` for palette index `index`, before any delta
/// prediction (H.6.4): an explicit colour of the table (`None` when the
/// table has no such entry), an implicit colour, or a delta from
/// `kDeltaPalette`.
pub open spec fn palette_base(table: Seq<i32>, table_w: u32, c: int, index: i32, nb_colours: u32, bd: nat) -> Option<i32> {
    let nc = nb_colours as int;
    if 0 <= index && index < nc {
        let k = c * ((table_w as i32) as int) + index;
        if 0 <= k < table.len() { Some(table[k]) } else { None }
    } else if index >= nc {
        let idx = index - nc;
        if idx < 64 {
            Some(wadd((((idx / pow2((2 * c) as nat) as int) % 4) * palette_quarter(bd)) as i32, palette_offset(bd)))
        } else {
            Some(((((idx - 64) / pow5(c as nat) as int) % 5) * palette_quarter(bd)) as i32)
        }
    } else if c < 3 {
        let neg = (-index - 1) % 143;
        let row = (neg + 1) / 2;
        let v0 = K_DELTA_PALETTE@[row]@[c] as int;
        let v1 = if neg % 2 == 0 { -v0 } else { v0 };
        Some(if bd > 8 { (v1 * pow2((bd - 8) as nat)) as i32 } else { v1 as i32 })
    } else {
        Some(0)
    }
}

/// Palette indices (H.6.4): an index below `nb_colours` selects column
/// `index` of the palette's row `c`; the first 64 indices past the table
/// are implicit colours whose channel `c` is base-4 digit `c` of the
/// offset index, scaled by a quarter of the range and raised by the
/// offset.
pub proof fn law_palette_indices(table: Seq<i32>, table_w: u32, c: int, index: i32, nb_colours: u32, bd: nat)
    requires
        0 <= c,
        table_w <= 0x7fff_ffff,
    ensures
        0 <= index < nb_colours && c * table_w + index < table.len() ==>
            palette_base(table, table_w, c, index, nb_colours, bd) == Some(table[c * table_w + index]),
        nb_colours <= index < nb_colours + 64 ==> palette_base(table, table_w, c, index, nb_colours, bd)
            == Some(wadd(((((index - nb_colours) / pow2((2 * c) as nat) as int) % 4) * palette_quarter(bd)) as i32,
                palette_offset(bd))),
{
    assert(0 <= c * table_w) by (nonlinear_arith) requires 0 <= c, 0 <= table_w;
}

/// Inputs of the palette inverse shared by every sample.
pub struct PaletteSpec {
    pub table: Seq<i32>,
    pub table_w: u32,
    pub w: u32,
    pub h: u32,
    pub nb_colours: u32,
    pub nb_deltas: u32,
    pub d_pred: u32,
    pub bd: nat,
}

/// New value of sample `p` of channel `c`, given the channel's current
/// samples `cur` (restored before `p`, indices from `p` on): the base
/// value, plus the prediction from the restored neighbours for a delta
/// index. `None` when the table lacks the colour or the predictor is 6 or
/// unknown.
pub open spec fn palette_value(ps: PaletteSpec, c: int, cur: Seq<i32>, p: int) -> Option<i32> {
    let index = cur[p];
    match palette_base(ps.table, ps.table_w, c, index, ps.nb_colours, ps.bd) {
        None => None,
        Some(base) => if index < (ps.nb_deltas as i32) {
            if ps.d_pred == 6 {
                None
            } else {
                match spec_simple_prediction(plane_neighbours(cur, ps.w, ps.h, p % (ps.w as int), p / (ps.w as int)), ps.d_pred) {
                    Some(pr) => Some(wadd(base, pr)),
                    None => None,
                }
            }
        } else {
            Some(base)
        },
    }
}

/// First `n` restored samples of channel `c`, from the index plane
/// `indices`; `None` if a sample fails.
pub open spec fn palette_prefix(ps: PaletteSpec, c: int, indices: Seq<i32>, n: nat) -> Option<Seq<i32>>
    decreases n,
{
    if n == 0 {
        Some(Seq::empty())
    } else {
        match palette_prefix(ps, c, indices, (n - 1) as nat) {
            None => None,
            Some(pre) => match palette_value(ps, c, pre + indices.subrange(n - 1, indices.len() as int), n - 1) {
                None => None,
                Some(v) => Some(pre.push(v)),
            },
        }
    }
}

/// The palette parameters seen from an image about to be inverted.
pub open spec fn palette_spec_of(img: ModularImage, first: int, nb_colours: u32, nb_deltas: u32, d_pred: u32, bit_depth: u32) -> PaletteSpec {
    PaletteSpec {
        table: img.channels@[0]@,
        table_w: img.descs@[0].width,
        w: img.descs@[first].width,
        h: img.descs@[first].height,
        nb_colours,
        nb_deltas,
        d_pred,
        bd: palette_depth(bit_depth),
    }
}

/// The palette inverse succeeds: at least one channel, an index channel
/// after the meta-channel, and every sample of every restored channel
/// defined.
pub open spec fn palette_ok(img: ModularImage, begin_c: int, num_c: u32, nb_colours: u32, nb_deltas: u32, d_pred: u32, bit_depth: u32) -> bool {
    &&& num_c >= 1
    &&& begin_c + 1 < img.channels@.len()
    &&& forall|c: int| 0 <= c < num_c ==> (#[trigger] palette_prefix(palette_spec_of(img, begin_c + 1, nb_colours, nb_deltas, d_pred, bit_depth), c,
        img.channels@[begin_c + 1]@, img.channels@[begin_c + 1]@.len())) is Some
}

/// Once a palette channel fails, every longer prefix fails too.
proof fn lemma_palette_prefix_none(ps: PaletteSpec, c: int, indices: Seq<i32>, k: nat, m: nat)
    requires
        k <= m,
        palette_prefix(ps, c, indices, k) is None,
    ensures
        palette_prefix(ps, c, indices, m) is None,
    decreases m - k,
{
    if k < m {
        assert(palette_prefix(ps, c, indices, (k + 1) as nat) is None);
        lemma_palette_prefix_none(ps, c, indices, (k + 1) as nat, m);
    }
}

/// A defined prefix has the requested length.
proof fn lemma_palette_prefix_len(ps: PaletteSpec, c: int, indices: Seq<i32>, k: nat)
    ensures
        palette_prefix(ps, c, indices, k) matches Some(pre) ==> pre.len() == k,
    decreases k,
{
    if k > 0 {
        lemma_palette_prefix_len(ps, c, indices, (k - 1) as nat);
    }
}

/// `(1 << bd) - 1) / 4` as [`palette_quarter`] states it.
fn palette_quarter_exec(bd: u32) -> (r: i32)
    requires
        1 <= bd <= 34,
    ensures
        r == palette_quarter(bd as nat),
        0 <= r < 0x2000_0000,
{
    if bd >= 32 {
        0x7fff_ffff / 4
    } else {
        let m: u64 = 1u64 << (bd as u64);
        proof {
            vstd::arithmetic::power2::lemma_pow2_strictly_increases(bd as nat, 32);
            vstd::arithmetic::power2::lemma2_to64();
            vstd::arithmetic::power2::lemma_pow2_pos(bd as nat);
            vstd::bits::lemma_u64_shl_is_mul(1, bd as u64);
        }
        ((m - 1) / 4) as i32
    }
}

/// `1 << (bd - 3)` above 3 bits, else 1.
fn palette_offset_exec(bd: u32) -> (r: i32)
    requires
        1 <= bd <= 34,
    ensures
        r == palette_offset(bd as nat),
{
    if bd > 3 {
        let s: u64 = (bd - 3) as u64;
        proof {
            vstd::arithmetic::power2::lemma_pow2_strictly_increases(s as nat, 32);
            vstd::arithmetic::power2::lemma2_to64();
            vstd::bits::lemma_u64_shl_is_mul(1, s);
        }
        ((1u64 << s) as u32) as i32
    } else {
        1
    }
}

/// Base value of a palette sample, as [`palette_base`] states it.
fn palette_base_exec(table: &Vec<i32>, table_w: u32, c: usize, index: i32, nb_colours: u32, bd: u32, quarter: i32, offset: i32) -> (r: Option<i32>)
    requires
        nb_colours <= i32::MAX,
        c <= i32::MAX,
        1 <= bd <= 34,
        quarter == palette_quarter(bd as nat),
        0 <= quarter < 0x2000_0000,
        offset == palette_offset(bd as nat),
    ensures
        r == palette_base(table@, table_w, c as int, index, nb_colours, bd as nat),
{
    let nc = nb_colours as i32;
    if 0 <= index && index < nc {
        proof {
            let tw = (table_w as i32) as int;
            assert(-0x8000_0000 * 0x8000_0000 <= c * tw <= 0x8000_0000 * 0x8000_0000) by (nonlinear_arith)
                requires 0 <= c <= 0x7fff_ffff, -0x8000_0000 <= tw < 0x8000_0000;
        }
        let k: i64 = (c as i64) * ((table_w as i32) as i64) + (index as i64);
        if 0 <= k && (k as u64) < (table.len() as u64) {
            Some(table[k as usize])
        } else {
            None
        }
    } else if index >= nc {
        let idx = index - nc;
        if idx < 64 {
            let q: u32 = if c >= 16 {
                proof {
                    vstd::arithmetic::power2::lemma_pow2_strictly_increases(6, (2 * c) as nat);
                    vstd::arithmetic::power2::lemma2_to64();
                    vstd::arithmetic::div_mod::lemma_basic_div(idx as int, pow2((2 * c) as nat) as int);
                }
                0
            } else {
                let sh: u32 = (2 * c) as u32;
                proof {
                    vstd::bits::lemma_u32_shr_is_div(idx as u32, sh);
                }
                (idx as u32) >> sh
            };
            let v_part = (q % 4) as i32;
            proof {
                assert(0 <= v_part * quarter <= 3 * 0x2000_0000) by (nonlinear_arith)
                    requires 0 <= v_part < 4, 0 <= quarter < 0x2000_0000;
            }
            Some((v_part * quarter).wrapping_add(offset))
        } else {
            let mut t: i32 = idx - 64;
            let mut k: usize = 0;
            proof {
                assert(pow5(0) == 1);
                assert((idx - 64) / 1 == idx - 64);
            }
            while k < c
                invariant
                    0 <= t,
                    k <= c,
                    0 <= idx - 64,
                    t == (idx - 64) / (pow5(k as nat) as int),
                    pow5(k as nat) >= 1,
                decreases c - k,
            {
                proof {
                    vstd::arithmetic::div_mod::lemma_div_denominator((idx - 64) as int, pow5(k as nat) as int, 5);
                    assert(pow5((k + 1) as nat) == 5 * pow5(k as nat));
                    assert(pow5(k as nat) * 5 == 5 * pow5(k as nat)) by (nonlinear_arith);
                }
                t = t / 5;
                k = k + 1;
            }
            let v_part = t % 5;
            proof {
                assert(0 <= v_part * quarter <= 4 * 0x1fff_ffff) by (nonlinear_arith)
                    requires 0 <= v_part < 5, 0 <= quarter < 0x2000_0000;
            }
            Some(v_part * quarter)
        }
    } else if c < 3 {
        let neg: i32 = (-(index + 1)) % 143;
        let row: usize = ((neg + 1) / 2) as usize;
        let v0: i32 = K_DELTA_PALETTE[row][c];
        let v1: i64 = if neg % 2 == 0 { -(v0 as i64) } else { v0 as i64 };
        proof {
            assert(-200 <= v0 <= 200) by {
                assert forall|rr: int, cc: int| 0 <= rr < 72 && 0 <= cc < 3 implies -200 <= #[trigger] K_DELTA_PALETTE@[rr]@[cc] <= 200 by {
                }
            }
        }
        if bd > 8 {
            let s: u64 = (bd - 8) as u64;
            proof {
                vstd::arithmetic::power2::lemma_pow2_strictly_increases(s as nat, 27);
                vstd::arithmetic::power2::lemma2_to64();
                vstd::bits::lemma_u64_shl_is_mul(1, s);
                assert(-200 * 0x800_0000 <= v1 * pow2(s as nat) <= 200 * 0x800_0000) by (nonlinear_arith)
                    requires -200 <= v1 <= 200, 0 <= pow2(s as nat) < 0x800_0000;
            }
            let m: u64 = 1u64 << s;
            Some((v1 * (m as i64)) as i32)
        } else {
            Some(v1 as i32)
        }
    } else {
        Some(0)
    }
}

/// Restored value of sample `pos` of channel `chan`, the palette's
/// channel `c`, as [`palette_value`] states it.
fn palette_sample(
    img: &ModularImage,
    chan: usize,
    c: usize,
    pos: usize,
    w: u32,
    h: u32,
    table_w: u32,
    nb_colours: u32,
    nb_deltas: u32,
    d_pred: u32,
    bd: u32,
    quarter: i32,
    offset: i32,
    wp: &WpHeader,
) -> (r: Result<i32, JxlError>)
    requires
        img_wf(*img),
        1 <= chan < img.channels@.len(),
        c <= i32::MAX,
        w == img.descs@[chan as int].width,
        h == img.descs@[chan as int].height,
        w <= i32::MAX - 2,
        h <= i32::MAX,
        pos < w * h,
        table_w == img.descs@[0].width,
        nb_colours <= i32::MAX,
        1 <= bd <= 34,
        quarter == palette_quarter(bd as nat),
        0 <= quarter < 0x2000_0000,
        offset == palette_offset(bd as nat),
    ensures
        match palette_value(PaletteSpec { table: img.channels@[0]@, table_w, w, h, nb_colours, nb_deltas, d_pred, bd: bd as nat },
            c as int, img.channels@[chan as int]@, pos as int) {
            Some(v) => r matches Ok(v2) && v2 == v,
            None => r matches Err(e) && (e is InvalidData || (e is Unsupported && d_pred == 6)),
        },
{
    proof {
        assert(chan_wf(img.descs@[chan as int], img.channels@[chan as int]@));
        assert(w > 0) by (nonlinear_arith)
            requires pos < w * h, w >= 0;
    }
    let x: u32 = (pos % (w as usize)) as u32;
    let y: u32 = (pos / (w as usize)) as u32;
    proof {
        vstd::arithmetic::div_mod::lemma_fundamental_div_mod(pos as int, w as int);
        assert(y < h) by (nonlinear_arith)
            requires pos < w * h, y == (pos as int) / (w as int), w > 0;
    }
    let index = img.channels[chan][pos];
    let base = palette_base_exec(&img.channels[0], table_w, c, index, nb_colours, bd, quarter, offset);
    let b = match base {
        Some(b) => b,
        None => {
            return Err(invalid("palette index outside the palette"));
        },
    };
    if index < nb_deltas as i32 {
        if d_pred == 6 {
            return Err(unsupported("delta palette with the self-correcting predictor"));
        }
        proof {
            lemma_neighbours_plane(*img, chan as int, x as int, y as int);
        }
        match predict(img, chan, x as i32, y as i32, d_pred, wp, None) {
            Ok((pv, _, _)) => Ok(b.wrapping_add(pv)),
            Err(e) => Err(e),
        }
    } else {
        Ok(b)
    }
}

/// Inverse palette transform (H.6.4). The meta-channel 0 holds the
/// palette (`nb_colours` columns, one row per restored channel); the
/// indices live in channel `begin_c + 1`. The indices channel is
/// duplicated into `num_c` channels, each restored from the palette
/// (explicit colours, implicit colours, or deltas refined by predictor
/// `d_pred`), and the meta-channel is removed. On an error the image is
/// left partly restored.
#[verifier::spinoff_prover]
pub fn inverse_palette(
    img: &mut ModularImage,
    begin_c: usize,
    num_c: u32,
    nb_colours: u32,
    nb_deltas: u32,
    d_pred: u32,
    bit_depth: u32,
) -> (r: Result<(), JxlError>)
    requires
        img_wf(*old(img)),
        bit_depth <= 34,
        nb_colours <= i32::MAX,
        num_c <= i32::MAX,
        old(img).channels@.len() + num_c <= usize::MAX,
        begin_c + 1 < old(img).channels@.len() ==> old(img).descs@[begin_c + 1].width <= i32::MAX - 2
            && old(img).descs@[begin_c + 1].height <= i32::MAX,
    ensures
        r is Ok <==> palette_ok(*old(img), begin_c as int, num_c, nb_colours, nb_deltas, d_pred, bit_depth),
        r matches Err(e) ==> e is InvalidData || (e is Unsupported && d_pred == 6),
        r is Ok ==> {
            let first = begin_c + 1;
            let ps = palette_spec_of(*old(img), first, nb_colours, nb_deltas, d_pred, bit_depth);
            let indices = old(img).channels@[first]@;
            &&& img_wf(*final(img))
            &&& final(img).channels@.len() == old(img).channels@.len() + num_c - 2
            &&& forall|i: int| 0 <= i < begin_c ==> #[trigger] final(img).channels@[i] == old(img).channels@[i + 1]
                && final(img).descs@[i] == old(img).descs@[i + 1]
            &&& forall|c: int| 0 <= c < num_c ==> final(img).descs@[begin_c + c] == old(img).descs@[first]
                && palette_prefix(ps, c, indices, indices.len()) == Some(#[trigger] final(img).channels@[begin_c + c]@)
            &&& forall|i: int| begin_c + num_c <= i < final(img).channels@.len() ==> #[trigger] final(img).channels@[i]
                == old(img).channels@[i - num_c + 2] && final(img).descs@[i] == old(img).descs@[i - num_c + 2]
        },
{
    if num_c == 0 {
        return Err(invalid("palette restores no channel"));
    }
    if img.channels.len() == 0 || begin_c >= img.channels.len() - 1 {
        return Err(invalid("palette indices channel out of range"));
    }
    let first: usize = begin_c + 1;
    let nc: usize = num_c as usize;
    let ghost old_img = *img;
    let ghost len0 = old_img.channels@.len();
    let mut i: usize = 1;
    while i < nc
        invariant
            old_img == *old(img),
            img_wf(*img),
            1 <= i <= nc,
            nc == num_c,
            first == begin_c + 1,
            first < len0,
            len0 == old_img.channels@.len(),
            len0 + nc <= usize::MAX,
            img.channels@.len() == len0 + i - 1,
            forall|k: int| 0 <= k <= first ==> #[trigger] img.channels@[k] == old_img.channels@[k]
                && img.descs@[k] == old_img.descs@[k],
            forall|k: int| first < k < first + i ==> (#[trigger] img.channels@[k])@ == old_img.channels@[first as int]@
                && img.descs@[k] == old_img.descs@[first as int],
            forall|k: int| first + i <= k < img.channels@.len() ==> #[trigger] img.channels@[k]
                == old_img.channels@[k - i + 1] && img.descs@[k] == old_img.descs@[k - i + 1],
        decreases nc - i,
    {
        let copy = img.channels[first].clone();
        let d = img.descs[first];
        proof {
            assert(copy@ == old_img.channels@[first as int]@);
        }
        let ghost before = *img;
        img.channels.insert(first + i, copy);
        img.descs.insert(first + i, d);
        proof {
            assert forall|k: int| 0 <= k < img.channels@.len() implies chan_wf(#[trigger] img.descs@[k], img.channels@[k]@) by {
                if k < first + i {
                    assert(chan_wf(before.descs@[k], before.channels@[k]@));
                } else if k == first + i {
                    assert(chan_wf(old_img.descs@[first as int], old_img.channels@[first as int]@));
                } else {
                    assert(chan_wf(before.descs@[k - 1], before.channels@[k - 1]@));
                }
            }
        }
        i = i + 1;
    }
    let ghost ins = *img;
    let ghost ps = palette_spec_of(old_img, first as int, nb_colours, nb_deltas, d_pred, bit_depth);
    let ghost indices = old_img.channels@[first as int]@;
    let w = img.descs[first].width;
    let h = img.descs[first].height;
    let n = img.channels[first].len();
    proof {
        assert(chan_wf(img.descs@[first as int], img.channels@[first as int]@));
        assert(img.channels@[0] == old_img.channels@[0]);
    }
    let bd: u32 = if bit_depth >= 1 { bit_depth } else { 1 };
    let quarter = palette_quarter_exec(bd);
    let offset = palette_offset_exec(bd);
    let table_w = img.descs[0].width;
    let wp = WpHeader::default();
    let mut c: usize = 0;
    while c < nc
        invariant
            old_img == *old(img),
            img_wf(*img),
            nc == num_c,
            num_c <= i32::MAX,
            first == begin_c + 1,
            img.descs == ins.descs,
            img.channels@.len() == ins.channels@.len(),
            ins.channels@.len() == len0 + nc - 1,
            len0 == old_img.channels@.len(),
            len0 + nc <= usize::MAX,
            first < len0,
            n == indices.len(),
            n == w * h,
            w == old_img.descs@[first as int].width,
            h == old_img.descs@[first as int].height,
            w <= i32::MAX - 2,
            h <= i32::MAX,
            ps == palette_spec_of(old_img, first as int, nb_colours, nb_deltas, d_pred, bit_depth),
            indices == old_img.channels@[first as int]@,
            ins.descs@[first as int] == old_img.descs@[first as int],
            bd as nat == palette_depth(bit_depth),
            1 <= bd <= 34,
            quarter == palette_quarter(bd as nat),
            0 <= quarter < 0x2000_0000,
            offset == palette_offset(bd as nat),
            table_w == old_img.descs@[0].width,
            img.channels@[0] == old_img.channels@[0],
            nb_colours <= i32::MAX,
            wp == spec_default_wp(),
            c <= nc,
            forall|k: int| 0 <= k <= first ==> #[trigger] ins.channels@[k] == old_img.channels@[k]
                && ins.descs@[k] == old_img.descs@[k],
            forall|k: int| first < k < first + nc ==> (#[trigger] ins.channels@[k])@ == indices
                && ins.descs@[k] == old_img.descs@[first as int],
            forall|k: int| first + nc <= k < ins.channels@.len() ==> #[trigger] ins.channels@[k]
                == old_img.channels@[k - nc + 1] && ins.descs@[k] == old_img.descs@[k - nc + 1],
            forall|k: int| 0 <= k < first ==> #[trigger] img.channels@[k] == ins.channels@[k],
            forall|k: int| first + nc <= k < ins.channels@.len() ==> #[trigger] img.channels@[k] == ins.channels@[k],
            forall|cc: int| 0 <= cc < c ==> palette_prefix(ps, cc, indices, n as nat) == Some(#[trigger] img.channels@[first + cc]@),
            forall|cc: int| c <= cc < nc ==> (#[trigger] img.channels@[first + cc])@ == indices,
        decreases nc - c,
    {
        let chan: usize = first + c;
        let mut pos: usize = 0;
        proof {
            if c == 0 {
                assert(ins.channels@[first as int] == old_img.channels@[first as int]);
            } else {
                assert((ins.channels@[first + c])@ == indices);
            }
            assert(ins.descs@[first + c] == old_img.descs@[first as int]);
            assert(img.channels@[first + c]@ == indices);
            assert(indices.subrange(0, n as int) == indices);
            assert(Seq::<i32>::empty() + indices.subrange(0, n as int) == indices);
        }
        while pos < n
            invariant
                old_img == *old(img),
                img_wf(*img),
                nc == num_c,
                num_c <= i32::MAX,
                first == begin_c + 1,
                chan == first + c,
                c < nc,
                img.descs == ins.descs,
                img.channels@.len() == ins.channels@.len(),
                ins.channels@.len() == len0 + nc - 1,
                first < len0,
                n == indices.len(),
                n == w * h,
                w == img.descs@[chan as int].width,
                h == img.descs@[chan as int].height,
                w == old_img.descs@[first as int].width,
                h == old_img.descs@[first as int].height,
                w <= i32::MAX - 2,
                h <= i32::MAX,
                ps == palette_spec_of(old_img, first as int, nb_colours, nb_deltas, d_pred, bit_depth),
                indices == old_img.channels@[first as int]@,
                forall|k: int| 0 <= k <= first ==> #[trigger] ins.channels@[k] == old_img.channels@[k]
                    && ins.descs@[k] == old_img.descs@[k],
                1 <= bd <= 34,
                quarter == palette_quarter(bd as nat),
                0 <= quarter < 0x2000_0000,
                offset == palette_offset(bd as nat),
                bd as nat == palette_depth(bit_depth),
                table_w == old_img.descs@[0].width,
                img.channels@[0] == old_img.channels@[0],
                nb_colours <= i32::MAX,
                wp == spec_default_wp(),
                pos <= n,
                palette_prefix(ps, c as int, indices, pos as nat) matches Some(pre)
                    && img.channels@[chan as int]@ == pre + indices.subrange(pos as int, n as int),
                forall|k: int| 0 <= k < first ==> #[trigger] img.channels@[k] == ins.channels@[k],
                forall|k: int| first + nc <= k < ins.channels@.len() ==> #[trigger] img.channels@[k] == ins.channels@[k],
                forall|cc: int| 0 <= cc < c ==> palette_prefix(ps, cc, indices, n as nat) == Some(#[trigger] img.channels@[first + cc]@),
                forall|cc: int| c < cc < nc ==> (#[trigger] img.channels@[first + cc])@ == indices,
            decreases n - pos,
        {
            let ghost pre = palette_prefix(ps, c as int, indices, pos as nat)->Some_0;
            let ghost cur = img.channels@[chan as int]@;
            proof {
                lemma_palette_prefix_len(ps, c as int, indices, pos as nat);
                assert(ins.channels@[0] == old_img.channels@[0]);
                assert(img.descs@[0] == old_img.descs@[0]);
                assert(ps == PaletteSpec { table: img.channels@[0]@, table_w, w, h, nb_colours, nb_deltas, d_pred, bd: bd as nat });
                assert(pos < w * h);
            }
            let value = match palette_sample(img, chan, c, pos, w, h, table_w, nb_colours, nb_deltas, d_pred, bd, quarter, offset, &wp) {
                Ok(v) => v,
                Err(e) => {
                    proof {
                        assert(palette_value(ps, c as int, cur, pos as int) is None);
                        assert(palette_prefix(ps, c as int, indices, (pos + 1) as nat) is None);
                        lemma_palette_prefix_none(ps, c as int, indices, (pos + 1) as nat, n as nat);
                        assert(!palette_ok(old_img, begin_c as int, num_c, nb_colours, nb_deltas, d_pred, bit_depth)) by {
                            assert(palette_prefix(palette_spec_of(old_img, begin_c + 1, nb_colours, nb_deltas, d_pred, bit_depth), c as int,
                                old_img.channels@[begin_c + 1]@, old_img.channels@[begin_c + 1]@.len()) is None);
                        }
                    }
                    return Err(e);
                },
            };
            let ghost before = *img;
            img.channels[chan].set(pos, value);
            proof {
                assert(palette_prefix(ps, c as int, indices, (pos + 1) as nat) == Some(pre.push(value)));
                assert(img.channels@[chan as int]@ =~= pre.push(value) + indices.subrange(pos + 1, n as int));
                assert forall|k: int| 0 <= k < img.channels@.len() implies chan_wf(#[trigger] img.descs@[k], img.channels@[k]@) by {
                    assert(chan_wf(before.descs@[k], before.channels@[k]@));
                }
                assert forall|cc: int| 0 <= cc < c implies palette_prefix(ps, cc, indices, n as nat) == Some(#[trigger] img.channels@[first + cc]@) by {
                    assert(before.channels@[first + cc] == img.channels@[first + cc]);
                }
                assert forall|cc: int| c < cc < nc implies (#[trigger] img.channels@[first + cc])@ == indices by {
                    assert(before.channels@[first + cc] == img.channels@[first + cc]);
                }
            }
            pos = pos + 1;
        }
        proof {
            let pre = palette_prefix(ps, c as int, indices, n as nat)->Some_0;
            assert(img.channels@[chan as int]@ =~= pre);
        }
        c = c + 1;
    }
    let ghost done = *img;
    let _meta = img.channels.remove(0);
    let _meta_desc = img.descs.remove(0);
    proof {
        assert forall|k: int| 0 <= k < img.channels@.len() implies chan_wf(#[trigger] img.descs@[k], img.channels@[k]@) by {
            assert(chan_wf(done.descs@[k + 1], done.channels@[k + 1]@));
        }
        assert forall|cc: int| 0 <= cc < num_c implies img.descs@[begin_c + cc] == old_img.descs@[first as int]
            && palette_prefix(ps, cc, indices, indices.len()) == Some(#[trigger] img.channels@[begin_c + cc]@) by {
            assert(img.channels@[begin_c + cc] == done.channels@[first + cc]);
            assert(ins.channels@[first + cc] == ins.channels@[first + cc]);
        }
        assert forall|cc: int| 0 <= cc < num_c implies (#[trigger] palette_prefix(palette_spec_of(old_img, begin_c + 1,
            nb_colours, nb_deltas, d_pred, bit_depth), cc, old_img.channels@[begin_c + 1]@,
            old_img.channels@[begin_c + 1]@.len())) is Some by {
            assert(palette_prefix(ps, cc, indices, n as nat) == Some(done.channels@[first + cc]@));
        }
        assert forall|i: int| 0 <= i < begin_c implies #[trigger] img.channels@[i] == old_img.channels@[i + 1]
            && img.descs@[i] == old_img.descs@[i + 1] by {
            assert(done.channels@[i + 1] == ins.channels@[i + 1]);
            assert(ins.channels@[i + 1] == old_img.channels@[i + 1]);
        }
        assert forall|i: int| begin_c + num_c <= i < img.channels@.len() implies #[trigger] img.channels@[i]
            == old_img.channels@[i - num_c + 2] && img.descs@[i] == old_img.descs@[i - num_c + 2] by {
            assert(done.channels@[i + 1] == ins.channels@[i + 1]);
            assert(ins.channels@[i + 1] == old_img.channels@[i + 1 - nc + 1]);
        }
    }
    Ok(())
}

/// Largest MA tree Listing D.9 decodes here.
pub const MAX_TREE_NODES: usize = 1024;

/// MA tree of Listing D.9. The entropy-coded streams the tree and the
/// samples are read from are owned by the caller, which hands integers
/// to the decoding functions.
#[derive(Debug, Clone)]
pub struct MaTreeFdis {
    pub nodes: Vec<MaNode>,
    /// Number of distinct contexts (the number of leaves).
    pub num_ctx: usize,
}

/// A tree laid out as Listing D.9 lays it out: each decision's children
/// are adjacent and follow it inside the node list, every leaf's context
/// is below `num_ctx`, predictors are at most 13, and there are
/// `(size + 1) / 2` contexts.
pub open spec fn fdis_tree_wf(nodes: Seq<MaNode>, num_ctx: int) -> bool {
    &&& nodes.len() > 0
    &&& num_ctx == (nodes.len() + 1) / 2
    &&& forall|i: int|
        0 <= i < nodes.len() ==> match #[trigger] nodes[i] {
            MaNode::Decision { property, left_child, right_child, .. } => i < left_child && right_child
                == left_child + 1 && right_child < nodes.len() && property <= 256,
            MaNode::Leaf(l) => l.ctx < num_ctx && l.predictor <= 13 && 1 <= l.multiplier < 0x8000_0000,
        }
}

/// Number of decision nodes among the first `k` nodes.
pub open spec fn decisions_before(nodes: Seq<MaNode>, k: int) -> int
    decreases k,
{
    if k <= 0 {
        0
    } else {
        decisions_before(nodes, k - 1) + if nodes[k - 1] is Decision { 1int } else { 0int }
    }
}

/// Node `k` as Listing D.9 reads it with `decode` (contexts 0 to 5 of the
/// tree's stream): a decision's `property + 1` and zig-zag `value`, its
/// children the next free pair of slots (`2 × decisions before it + 1`);
/// a leaf's zero, predictor (at most 13), zig-zag offset, `mul_log` (at
/// most 30) and `mul_bits` (below `2^(31 - mul_log) - 1`) giving the
/// multiplier `(mul_bits + 1) << mul_log`, and its context the number
/// of leaves before it.
pub open spec fn node_read_by<E, D: FnMut(&mut E, &mut BitReader<'_>, u32, u32) -> Result<u32, JxlError>>(
    decode: D, nodes: Seq<MaNode>, k: int,
) -> bool {
    match nodes[k] {
        MaNode::Decision { property, value, left_child, right_child } => {
            &&& property <= 256
            &&& yields_token::<E, D>(decode, 1, 0, (property + 1) as u32)
            &&& exists|u: u32| #[trigger] yields_token::<E, D>(decode, 0, 0, u) && spec_unpack_signed(u) == value
            &&& left_child == 2 * decisions_before(nodes, k) + 1
            &&& right_child == left_child + 1
        },
        MaNode::Leaf(l) => {
            &&& l.predictor <= 13
            &&& yields_token::<E, D>(decode, 1, 0, 0)
            &&& yields_token::<E, D>(decode, 2, 0, l.predictor)
            &&& exists|u: u32| #[trigger] yields_token::<E, D>(decode, 3, 0, u) && spec_unpack_signed(u) == l.offset
            &&& exists|ml: u32, mb: u32|
                #![trigger yields_token::<E, D>(decode, 4, 0, ml), yields_token::<E, D>(decode, 5, 0, mb)]
                ml <= 30 && yields_token::<E, D>(decode, 4, 0, ml) && yields_token::<E, D>(decode, 5, 0, mb)
                    && mb + 2 <= pow2((31 - ml) as nat) && l.multiplier == (mb + 1) * pow2(ml as nat)
            &&& l.ctx == k - decisions_before(nodes, k)
        },
    }
}

/// `nodes` is a whole tree read per Listing D.9 with `decode`: every node
/// is read as [`node_read_by`] says, each while nodes are still pending
/// (no more leaves than decisions before it), and the last leaf closes
/// the tree.
pub open spec fn tree_read_by_stream<E, D: FnMut(&mut E, &mut BitReader<'_>, u32, u32) -> Result<u32, JxlError>>(
    decode: D, nodes: Seq<MaNode>,
) -> bool {
    &&& forall|k: int| 0 <= k < nodes.len() ==> #[trigger] node_read_by::<E, D>(decode, nodes, k)
    &&& forall|k: int| 0 <= k < nodes.len() ==> k - decisions_before(nodes, k) <= #[trigger] decisions_before(nodes, k)
    &&& nodes.len() == 2 * decisions_before(nodes, nodes.len() as int) + 1
}

/// The decision count of a prefix depends only on the prefix.
proof fn lemma_decisions_prefix(a: Seq<MaNode>, b: Seq<MaNode>, k: int)
    requires
        forall|j: int| 0 <= j < k ==> #[trigger] a[j] == b[j],
    ensures
        decisions_before(a, k) == decisions_before(b, k),
    decreases k,
{
    if k > 0 {
        lemma_decisions_prefix(a, b, k - 1);
    }
}

/// Appending a node keeps the earlier nodes read as they were.
proof fn lemma_tree_push<E, D: FnMut(&mut E, &mut BitReader<'_>, u32, u32) -> Result<u32, JxlError>>(
    decode: D, a: Seq<MaNode>, node: MaNode,
)
    requires
        forall|k: int| 0 <= k < a.len() ==> #[trigger] node_read_by::<E, D>(decode, a, k),
        forall|k: int| 0 <= k < a.len() ==> k - decisions_before(a, k) <= #[trigger] decisions_before(a, k),
    ensures
        forall|k: int| 0 <= k <= a.len() ==> #[trigger] decisions_before(a.push(node), k) == decisions_before(a, k),
        forall|k: int| 0 <= k < a.len() ==> #[trigger] node_read_by::<E, D>(decode, a.push(node), k),
        forall|k: int| 0 <= k < a.len() ==> k - decisions_before(a.push(node), k) <= #[trigger] decisions_before(
            a.push(node), k),
{
    let b = a.push(node);
    assert forall|k: int| 0 <= k <= a.len() implies #[trigger] decisions_before(b, k) == decisions_before(a, k) by {
        assert forall|j: int| 0 <= j < k implies #[trigger] b[j] == a[j] by {}
        lemma_decisions_prefix(b, a, k);
    }
    assert forall|k: int| 0 <= k < a.len() implies #[trigger] node_read_by::<E, D>(decode, b, k) by {
        assert(b[k] == a[k]);
        assert(decisions_before(b, k) == decisions_before(a, k));
        assert(node_read_by::<E, D>(decode, a, k));
    }
    assert forall|k: int| 0 <= k < a.len() implies k - decisions_before(b, k) <= #[trigger] decisions_before(b, k) by {
        assert(decisions_before(b, k) == decisions_before(a, k));
    }
}

/// `e` is an error `open` or `decode` may return.
pub open spec fn stream_error<E, O: FnMut(&mut BitReader<'_>, usize) -> Result<E, JxlError>, D: FnMut(&mut E, &mut BitReader<'_>, u32, u32) -> Result<u32, JxlError>>(
    open: O, decode: D, e: JxlError,
) -> bool {
    ||| exists|b: &mut BitReader<'_>, n: usize| call_ensures(open, (b, n), Err::<E, JxlError>(e))
    ||| exists|st: &mut E, b: &mut BitReader<'_>, ctx: u32, dm: u32| call_ensures(decode, (st, b, ctx, dm), Err::<u32, JxlError>(e))
}

/// What the tree reader itself rejects in values `decode` gives: a
/// predictor above 13, a `mul_log` above 30, a `mul_bits` of
/// `2^(31 - mul_log) - 1` or more, a property above 256, or
/// [`MAX_TREE_NODES`] nodes read with nodes still pending.
pub open spec fn tree_rejected<E, D: FnMut(&mut E, &mut BitReader<'_>, u32, u32) -> Result<u32, JxlError>>(decode: D) -> bool {
    ||| exists|u: u32| #[trigger] yields_token::<E, D>(decode, 2, 0, u) && u > 13
    ||| exists|ml: u32| #[trigger] yields_token::<E, D>(decode, 4, 0, ml) && ml > 30
    ||| exists|ml: u32, mb: u32|
        #![trigger yields_token::<E, D>(decode, 4, 0, ml), yields_token::<E, D>(decode, 5, 0, mb)]
        ml <= 30 && yields_token::<E, D>(decode, 4, 0, ml) && yields_token::<E, D>(decode, 5, 0, mb)
            && mb + 2 > pow2((31 - ml) as nat)
    ||| exists|p: u32| #[trigger] yields_token::<E, D>(decode, 1, 0, p) && p > 257
    ||| exists|nodes: Seq<MaNode>| #[trigger] pending_tree_read::<E, D>(decode, nodes) && nodes.len() == MAX_TREE_NODES
}

/// `nodes` is the start of a tree read per Listing D.9 with `decode`
/// (see [`tree_read_by_stream`]) after which nodes are still pending.
pub open spec fn pending_tree_read<E, D: FnMut(&mut E, &mut BitReader<'_>, u32, u32) -> Result<u32, JxlError>>(
    decode: D, nodes: Seq<MaNode>,
) -> bool {
    &&& forall|k: int| 0 <= k < nodes.len() ==> #[trigger] node_read_by::<E, D>(decode, nodes, k)
    &&& forall|k: int| 0 <= k < nodes.len() ==> k - decisions_before(nodes, k) <= #[trigger] decisions_before(nodes, k)
    &&& nodes.len() - decisions_before(nodes, nodes.len() as int) <= decisions_before(nodes, nodes.len() as int)
}

/// `open(br, n)` — reading the prelude of an entropy-coded stream with
/// `n` distributions — accepts every request.
pub open spec fn open_ready<E, O: FnMut(&mut BitReader<'_>, usize) -> Result<E, JxlError>>(open: O) -> bool {
    forall|b: &mut BitReader<'_>, n: usize| call_requires(open, (b, n))
}

/// `stream` is a stream `open` may return, from some reader state, when
/// asked for `n` distributions.
pub open spec fn opens_stream<E, O: FnMut(&mut BitReader<'_>, usize) -> Result<E, JxlError>>(open: O, n: usize, stream: E) -> bool {
    exists|b: &mut BitReader<'_>| call_ensures(open, (b, n), Ok::<E, JxlError>(stream))
}

/// `decode(stream, br, ctx, dist_multiplier)` — decoding one integer of
/// an entropy-coded stream — accepts every request.
pub open spec fn decode_ready<E, D: FnMut(&mut E, &mut BitReader<'_>, u32, u32) -> Result<u32, JxlError>>(decode: D) -> bool {
    forall|e: &mut E, b: &mut BitReader<'_>, ctx: u32, dm: u32| call_requires(decode, (e, b, ctx, dm))
}

impl MaTreeFdis {
    /// Decode an MA tree per Listing D.9, then open the stream its
    /// samples are read from. `open(br, 6)` opens the tree's own
    /// entropy-coded stream, whose integers `decode(stream, br, ctx, 0)`
    /// hands out with context `ctx` (0: value, 1: property + 1,
    /// 2: predictor, 3: offset, 4: `mul_log`, 5: `mul_bits`); after the
    /// tree, `open(br, num_ctx)` opens the sample stream, returned beside
    /// the tree. Trees above [`MAX_TREE_NODES`] nodes are refused.
    pub fn read<E, O, D>(br: &mut BitReader<'_>, open: &mut O, decode: &mut D) -> (r: Result<(Self, E), JxlError>)
        where
            O: FnMut(&mut BitReader<'_>, usize) -> Result<E, JxlError>,
            D: FnMut(&mut E, &mut BitReader<'_>, u32, u32) -> Result<u32, JxlError>,
        requires
            open_ready::<E, O>(*old(open)),
            decode_ready::<E, D>(*old(decode)),
        ensures
            open_ready::<E, O>(*final(open)),
            decode_ready::<E, D>(*final(decode)),
            r matches Ok((t, _)) ==> fdis_tree_wf(t.nodes@, t.num_ctx as int) && t.nodes@.len() <= MAX_TREE_NODES,
            r matches Ok((t, _)) ==> tree_read_by_stream::<E, D>(*old(decode), t.nodes@),
            r matches Ok((t, samples)) ==> opens_stream::<E, O>(*old(open), t.num_ctx, samples),
            *final(decode) == *old(decode),
            *final(open) == *old(open),
            r matches Err(e) ==> stream_error::<E, O, D>(*old(open), *old(decode), e)
                || (e is InvalidData && tree_rejected::<E, D>(*old(decode))),
    {
        let ghost d0 = *decode;
        let ghost o0 = *open;
        let mut ts = open(br, 6)?;
        let mut nodes: Vec<MaNode> = Vec::new();
        let mut nodes_left: u32 = 1;
        let mut ctx_id: u32 = 0;
        let ghost mut n_dec: int = 0;
        while nodes_left > 0 && nodes.len() < MAX_TREE_NODES
            invariant
                open_ready::<E, O>(*open),
                decode_ready::<E, D>(*decode),
                *decode == d0,
                *open == o0,
                d0 == *old(decode),
                o0 == *old(open),
                n_dec == decisions_before(nodes@, nodes@.len() as int),
                forall|k: int| 0 <= k < nodes@.len() ==> #[trigger] node_read_by::<E, D>(d0, nodes@, k),
                forall|k: int| 0 <= k < nodes@.len() ==> k - decisions_before(nodes@, k) <= #[trigger] decisions_before(
                    nodes@, k),
                nodes@.len() <= MAX_TREE_NODES,
                1 <= nodes_left + nodes@.len() <= MAX_TREE_NODES + 2 * nodes@.len() + 1,
                nodes@.len() == ctx_id + n_dec,
                nodes_left == n_dec + 1 - ctx_id,
                forall|i: int|
                    0 <= i < nodes@.len() ==> match #[trigger] nodes@[i] {
                        MaNode::Decision { property, left_child, right_child, .. } => i < left_child
                            && right_child == left_child + 1 && right_child < nodes@.len() + nodes_left
                            && property <= 256,
                        MaNode::Leaf(l) => l.ctx < ctx_id && l.predictor <= 13 && 1 <= l.multiplier < 0x8000_0000,
                    },
            decreases MAX_TREE_NODES - nodes@.len(),
        {
            let ghost before = nodes@;
            let property_plus_1 = decode(&mut ts, br, 1, 0)?;
            if property_plus_1 == 0 {
                let predictor = decode(&mut ts, br, 2, 0)?;
                if predictor > 13 {
                    proof { assert(yields_token::<E, D>(d0, 2, 0, predictor)); }
                    return Err(invalid("MA tree: predictor out of range"));
                }
                let uoffset = decode(&mut ts, br, 3, 0)?;
                let offset = unpack_signed(uoffset);
                let mul_log = decode(&mut ts, br, 4, 0)?;
                if mul_log > 30 {
                    proof { assert(yields_token::<E, D>(d0, 4, 0, mul_log)); }
                    return Err(invalid("MA tree: mul_log out of range"));
                }
                let mul_bits = decode(&mut ts, br, 5, 0)?;
                proof {
                    vstd::arithmetic::power2::lemma2_to64();
                    vstd::arithmetic::power2::lemma_pow2_strictly_increases((31 - mul_log) as nat, 32);
                    vstd::arithmetic::power2::lemma_pow2_strictly_increases(0, (31 - mul_log) as nat);
                    vstd::bits::lemma_u64_shl_is_mul(1, (31 - mul_log) as u64);
                }
                let mul_bits_max: u64 = (1u64 << ((31 - mul_log) as u64)) - 2;
                if mul_bits as u64 > mul_bits_max {
                    proof {
                        assert(yields_token::<E, D>(d0, 4, 0, mul_log));
                        assert(yields_token::<E, D>(d0, 5, 0, mul_bits));
                        assert(mul_bits_max == pow2((31 - mul_log) as nat) - 2);
                    }
                    return Err(invalid("MA tree: mul_bits out of range"));
                }
                let m: u64 = 1u64 << (mul_log as u64);
                proof {
                    vstd::arithmetic::power2::lemma_pow2_strictly_increases(mul_log as nat, 32);
                    vstd::arithmetic::power2::lemma_pow2_pos(mul_log as nat);
                    vstd::bits::lemma_u64_shl_is_mul(1, mul_log as u64);
                    vstd::arithmetic::power2::lemma_pow2_adds(mul_log as nat, (31 - mul_log) as nat);
                    assert((mul_bits + 1) * pow2(mul_log as nat) <= pow2((31 - mul_log) as nat) * pow2(mul_log as nat)) by (nonlinear_arith)
                        requires mul_bits + 1 <= pow2((31 - mul_log) as nat);
                    assert((mul_bits + 1) * pow2(mul_log as nat) >= 1) by (nonlinear_arith)
                        requires pow2(mul_log as nat) >= 1;
                    assert((mul_bits + 1) * pow2(mul_log as nat) < 0x8000_0000) by (nonlinear_arith)
                        requires mul_bits + 2 <= pow2((31 - mul_log) as nat), pow2(mul_log as nat) >= 1,
                            pow2((31 - mul_log) as nat) * pow2(mul_log as nat) == 0x8000_0000;
                }
                let multiplier: u32 = ((mul_bits as u64 + 1) * m) as u32;
                let leaf = MaLeaf { ctx: ctx_id, predictor, offset, multiplier };
                nodes.push(MaNode::Leaf(leaf));
                proof {
                    lemma_tree_push::<E, D>(d0, before, MaNode::Leaf(leaf));
                    assert(yields_token::<E, D>(d0, 1, 0, property_plus_1));
                    assert(yields_token::<E, D>(d0, 2, 0, predictor));
                    assert(yields_token::<E, D>(d0, 3, 0, uoffset));
                    assert(yields_token::<E, D>(d0, 4, 0, mul_log));
                    assert(yields_token::<E, D>(d0, 5, 0, mul_bits));
                    assert(m == pow2(mul_log as nat));
                    assert(mul_bits_max == pow2((31 - mul_log) as nat) - 2);
                    assert(multiplier == (mul_bits + 1) * pow2(mul_log as nat));
                    assert(node_read_by::<E, D>(d0, nodes@, before.len() as int));
                    assert(decisions_before(nodes@, nodes@.len() as int) == decisions_before(nodes@, before.len() as int));
                }
                ctx_id = ctx_id + 1;
                nodes_left = nodes_left - 1;
            } else {
                let property = property_plus_1 - 1;
                if property > 256 {
                    proof { assert(yields_token::<E, D>(d0, 1, 0, property_plus_1)); }
                    return Err(invalid("MA tree: property too large"));
                }
                let uvalue = decode(&mut ts, br, 0, 0)?;
                let value = unpack_signed(uvalue);
                let nodes_now = nodes.len() as u32;
                let left_child = nodes_now + nodes_left;
                let right_child = nodes_now + nodes_left + 1;
                let node = MaNode::Decision { property, value, left_child, right_child };
                nodes.push(node);
                nodes_left = nodes_left + 1;
                proof {
                    lemma_tree_push::<E, D>(d0, before, node);
                    assert(yields_token::<E, D>(d0, 1, 0, property_plus_1));
                    assert(yields_token::<E, D>(d0, 0, 0, uvalue));
                    assert(node_read_by::<E, D>(d0, nodes@, before.len() as int));
                    assert(decisions_before(nodes@, nodes@.len() as int) == decisions_before(nodes@, before.len() as int) + 1);
                    n_dec = n_dec + 1;
                }
            }
            proof {
                assert forall|i: int| 0 <= i < nodes@.len() implies match #[trigger] nodes@[i] {
                    MaNode::Decision { property, left_child, right_child, .. } => i < left_child
                        && right_child == left_child + 1 && right_child < nodes@.len() + nodes_left
                        && property <= 256,
                    MaNode::Leaf(l) => l.ctx < ctx_id && l.predictor <= 13 && 1 <= l.multiplier < 0x8000_0000,
                } by {
                    if i < before.len() {
                        assert(nodes@[i] == before[i]);
                    }
                }
            }
        }
        if nodes_left > 0 {
            proof {
                assert(pending_tree_read::<E, D>(d0, nodes@));
            }
            return Err(invalid("MA tree: node count exceeds cap"));
        }
        let num_ctx = ctx_id as usize;
        let expected_ctx = (nodes.len() + 1) / 2;
        proof {
            assert(num_ctx == expected_ctx);
        }
        if num_ctx != expected_ctx {
            return Err(invalid("MA tree: context count does not match the tree size"));
        }
        let samples = open(br, num_ctx)?;
        proof {
            assert(opens_stream::<E, O>(o0, num_ctx, samples));
        }
        Ok((MaTreeFdis { nodes, num_ctx }, samples))
    }

    /// A copy of the tree for a new sub-bitstream that reuses it.
    pub fn cloned_with_fresh_state(&self) -> (r: Self)
        ensures
            r.nodes@ == self.nodes@,
            r.num_ctx == self.num_ctx,
    {
        let mut nodes: Vec<MaNode> = Vec::new();
        let mut i: usize = 0;
        while i < self.nodes.len()
            invariant
                i <= self.nodes@.len(),
                nodes@ == self.nodes@.subrange(0, i as int),
            decreases self.nodes@.len() - i,
        {
            nodes.push(self.nodes[i]);
            i = i + 1;
        }
        MaTreeFdis { nodes, num_ctx: self.num_ctx }
    }
}

/// `max_error` the self-correcting predictor reports at `(x, y)`, or 0
/// without a predictor state.
pub open spec fn spec_max_error(img: ModularImage, i: int, x: int, y: int, wp: WpHeader, state: Option<WpState>) -> i32 {
    match state {
        Some(s) => spec_wp_predict(s, spec_neighbours(img, i, x, y), x, y, wp).2,
        None => 0,
    }
}

/// Property vector of sample `(x, y)` of channel `i` (Table H.4).
pub open spec fn spec_sample_properties(img: ModularImage, i: int, x: i32, y: i32, wp: WpHeader, state: Option<WpState>, stream_index: i32) -> Seq<i32> {
    spec_base_properties(img, i, x, y, stream_index, spec_max_error(img, i, x as int, y as int, wp, state))
        + spec_prev_channel_props(img, i, x as int, y as int, i)
}

/// Leaf the MA tree selects for sample `(x, y)` of channel `i`; `None`
/// when the walk fails or the leaf's context is not below `num_ctx`.
pub open spec fn spec_sample_leaf(img: ModularImage, i: int, x: i32, y: i32, tree: MaTreeFdis, wp: WpHeader, state: Option<WpState>, stream_index: i32) -> Option<MaLeaf> {
    let props = spec_sample_properties(img, i, x, y, wp, state, stream_index);
    if tree.nodes@.len() == 0 {
        None
    } else {
        match spec_eval_tree(tree.nodes@, props, 0, tree.nodes@.len()) {
            Some(l) => if (l.ctx as int) < tree.num_ctx { Some(l) } else { None },
            None => None,
        }
    }
}

/// Prediction used for sample `(x, y)` with `leaf`: the rounded
/// self-correcting prediction for predictor 6, else Table H.3.
pub open spec fn spec_sample_prediction(img: ModularImage, i: int, x: int, y: int, leaf: MaLeaf, wp: WpHeader, state: Option<WpState>) -> Option<i32> {
    if leaf.predictor == 6 {
        match state {
            Some(s) => Some(round_eighths(spec_wp_predict(s, spec_neighbours(img, i, x, y), x, y, wp).0)),
            None => None,
        }
    } else {
        spec_simple_prediction(spec_neighbours(img, i, x, y), leaf.predictor)
    }
}

/// Sample value from `token`: `UnpackSigned(token) × multiplier + offset
/// + prediction`, or `None` outside the `i32` range.
pub open spec fn spec_sample_value(token: u32, leaf: MaLeaf, p: i32) -> Option<i32> {
    let v = spec_unpack_signed(token) * leaf.multiplier + leaf.offset + p;
    if i32::MIN <= v <= i32::MAX { Some(v as i32) } else { None }
}

/// Leaf, self-correcting prediction (in eighths), sub-predictions and
/// `max_error` for sample `(x, y)` of channel `i`.
pub fn sample_leaf(
    img: &ModularImage,
    i: usize,
    x: u32,
    y: u32,
    tree: &MaTreeFdis,
    wp: &WpHeader,
    state: Option<&WpState>,
    stream_index: i32,
) -> (r: Result<(MaLeaf, i32, [i32; 4], i32), JxlError>)
    requires
        img_wf(*img),
        i < img.descs@.len(),
        x <= MAX_DIM,
        y <= MAX_DIM,
        wp_header_wf(*wp),
        state matches Some(s) ==> wp_state_wf(*s),
    ensures
        ({
            let st = match state { Some(s) => Some(*s), None => None };
            match spec_sample_leaf(*img, i as int, x as i32, y as i32, *tree, *wp, st, stream_index) {
                Some(l) => r matches Ok(o) && o.0 == l && (st matches Some(s) ==> {
                    let w = spec_wp_predict(s, spec_neighbours(*img, i as int, x as int, y as int), x as int, y as int, *wp);
                    o.1 == w.0 && o.2@ == w.1 && o.3 == w.2
                }),
                None => r matches Err(e) && e is InvalidData,
            }
        }),
{
    let (pred8, subpreds, max_error) = match state {
        Some(s) => {
            let nb = Neighbours::at(img, i, x as i32, y as i32);
            wp_predict(s, &nb, x as i32, y as i32, wp)
        },
        None => (0, [0i32; 4], 0),
    };
    let props = get_properties(img, i, x as i32, y as i32, stream_index, max_error);
    let leaf = *evaluate_tree(&tree.nodes, &props)?;
    if (leaf.ctx as usize) >= tree.num_ctx {
        return Err(invalid("leaf context out of range"));
    }
    Ok((leaf, pred8, subpreds, max_error))
}

/// Value of sample `(x, y)` of channel `i` decoded from `token` with
/// `leaf`; `pred8` is the self-correcting prediction at the sample.
pub fn sample_value(
    img: &ModularImage,
    i: usize,
    x: u32,
    y: u32,
    leaf: MaLeaf,
    token: u32,
    wp: &WpHeader,
    state: Option<&WpState>,
    pred8: i32,
) -> (r: Result<i32, JxlError>)
    requires
        img_wf(*img),
        i < img.descs@.len(),
        x <= MAX_DIM,
        y <= MAX_DIM,
        leaf.multiplier < 0x8000_0000,
        state matches Some(s) ==> wp_state_wf(*s) && pred8 == spec_wp_predict(*s, spec_neighbours(*img, i as int, x as int, y as int), x as int, y as int, *wp).0,
    ensures
        ({
            let st = match state { Some(s) => Some(*s), None => None };
            match spec_sample_prediction(*img, i as int, x as int, y as int, leaf, *wp, st) {
                Some(p) => match spec_sample_value(token, leaf, p) {
                    Some(v) => r matches Ok(v2) && v2 == v,
                    None => r matches Err(e) && e is InvalidData,
                },
                None => r matches Err(e) && e is InvalidData,
            }
        }),
{
    let diff = unpack_signed(token);
    let p = if leaf.predictor == 6 {
        if state.is_none() {
            return Err(invalid("self-correcting predictor without its state"));
        }
        match pred8.wrapping_add(3).checked_div_euclid(8) {
            Some(q) => q,
            None => 0,
        }
    } else {
        let nb = Neighbours::at(img, i, x as i32, y as i32);
        match simple_prediction(&nb, leaf.predictor) {
            Some(v) => v,
            None => {
                return Err(invalid("predictor out of range"));
            },
        }
    };
    proof {
        assert(-0x8000_0000 * 0x8000_0000 <= diff * leaf.multiplier <= 0x8000_0000 * 0x8000_0000) by (nonlinear_arith)
            requires -0x8000_0000 <= diff < 0x8000_0000, 0 <= leaf.multiplier < 0x8000_0000;
    }
    let val: i64 = (diff as i64) * (leaf.multiplier as i64) + (leaf.offset as i64) + (p as i64);
    if val < i32::MIN as i64 || val > i32::MAX as i64 {
        return Err(invalid("decoded sample out of range"));
    }
    Ok(val as i32)
}

/// Error of a sub-prediction against the decoded value in eighths:
/// `(|subpred - 8v| + 3) >> 3`.
pub open spec fn sub_error(subpred: i32, v8: i32) -> i32 {
    ((crate::modular::spec_abs(wsub(subpred, v8) as int) + 3) / 8) as i32
}

/// Record the errors of the self-correcting predictor at `(x, y)` once
/// the sample `v` is known (H.5.1): the true error `pred8 - 8v` and each
/// sub-predictor's error.
pub fn wp_record(state: &mut WpState, x: u32, y: u32, pred8: i32, subpreds: &[i32; 4], max_error: i32, v: i32)
    requires
        wp_state_wf(*old(state)),
        x < old(state).width,
        y < old(state).height,
    ensures
        wp_state_wf(*final(state)),
        final(state).width == old(state).width,
        final(state).height == old(state).height,
        final(state).last_max_error == max_error,
        final(state).true_err@ == old(state).true_err@.update(y * old(state).width + x, wsub(pred8, x8(v))),
        forall|k: int| 0 <= k < 4 ==> (#[trigger] final(state).sub_err@[k])@ == old(state).sub_err@[k]@.update(
            y * old(state).width + x, sub_error(subpreds@[k], x8(v))),
{
    state.last_max_error = max_error;
    let v8 = x8_exec(v);
    state.set_true_err(x, y, pred8.wrapping_sub(v8));
    let ghost s1 = *state;
    let mut k: usize = 0;
    while k < 4
        invariant
            wp_state_wf(*state),
            state.width == s1.width && state.height == s1.height,
            x < state.width,
            y < state.height,
            state.last_max_error == max_error,
            state.true_err == s1.true_err,
            v8 == x8(v),
            k <= 4,
            forall|j: int| 0 <= j < k ==> (#[trigger] state.sub_err@[j])@ == s1.sub_err@[j]@.update(
                y * s1.width + x, sub_error(subpreds@[j], v8)),
            forall|j: int| k <= j < 4 ==> #[trigger] state.sub_err@[j] == s1.sub_err@[j],
        decreases 4 - k,
    {
        let d = subpreds[k].wrapping_sub(v8);
        let a: u32 = if d < 0 { (-(d as i64)) as u32 } else { d as u32 };
        let se: u32 = (a + 3) / 8;
        state.set_sub_err(k, x, y, se as i32);
        k = k + 1;
    }
}

/// Decode every channel of `descs` (H.3): for each sample in raster
/// order, pick the MA-tree leaf from the properties, read a token with
/// `decode(stream, br, leaf.ctx, dist_multiplier)` from the tree's
/// sample stream, with `dist_multiplier` the largest channel width —
/// and store `UnpackSigned(token) × multiplier + offset +
/// prediction`; the self-correcting predictor's errors are recorded
/// whenever the tree uses it. `stream_index` is property 1.
pub fn decode_channels_at_stream<E, D>(
    br: &mut BitReader<'_>,
    descs: &[ChannelDesc],
    tree: &MaTreeFdis,
    stream: &mut E,
    wp: &WpHeader,
    stream_index: i32,
    decode: &mut D,
) -> (r: Result<ModularImage, JxlError>)
    where
        D: FnMut(&mut E, &mut BitReader<'_>, u32, u32) -> Result<u32, JxlError>,
    requires
        decode_ready::<E, D>(*old(decode)),
        wp_header_wf(*wp),
        forall|k: int| 0 <= k < tree.nodes@.len() ==> (#[trigger] tree.nodes@[k] matches MaNode::Leaf(l) ==> l.multiplier < 0x8000_0000),
    ensures
        final(br).wf(),
        descs@.len() == 0 ==> (r matches Ok(img) && img.channels@.len() == 0 && img.descs@.len() == 0
            && *final(br) == *old(br)),
        descs@.len() > 0 && (descs@.len() > MAX_CHANNELS || tree.nodes@.len() == 0
            || exists|k: int| 0 <= k < descs@.len() && !(1 <= (#[trigger] descs@[k]).width <= MAX_DIM
                && 1 <= descs@[k].height <= MAX_DIM)) ==> (r matches Err(e) && e is InvalidData
                && *final(br) == *old(br)),
        r matches Ok(img) ==> img_wf(img) && img.descs@ == descs@,
        r matches Ok(img) ==> forall|i: int| 0 <= i < descs@.len() ==> #[trigger] channel_decoded::<E, D>(
            *old(decode), img, i, *tree, *wp, stream_index, max_width(descs@, descs@.len() as int),
            tree_uses_wp(tree.nodes@)),
        decode_ready::<E, D>(*final(decode)),
{
    let ghost d0 = *decode;
    proof { use_type_invariant(&*br); }
    if descs.len() == 0 {
        return Ok(ModularImage { channels: Vec::new(), descs: Vec::new() });
    }
    if descs.len() > MAX_CHANNELS {
        return Err(invalid("too many channels"));
    }
    if tree.nodes.len() == 0 {
        return Err(invalid("empty MA tree"));
    }
    let mut k: usize = 0;
    while k < descs.len()
        invariant
            k <= descs@.len(),
            decode_ready::<E, D>(*decode),
            *decode == d0,
            br.wf(),
            *br == *old(br),
            forall|j: int| 0 <= j < k ==> 1 <= (#[trigger] descs@[j]).width <= MAX_DIM && 1 <= descs@[j].height <= MAX_DIM,
        decreases descs@.len() - k,
    {
        let d = descs[k];
        if d.width == 0 || d.height == 0 || d.width > MAX_DIM || d.height > MAX_DIM {
            return Err(invalid("channel dimensions out of range"));
        }
        k = k + 1;
    }
    let mut channels: Vec<Vec<i32>> = Vec::new();
    let mut dvec: Vec<ChannelDesc> = Vec::new();
    let mut dist_multiplier: u32 = 0;
    let mut k: usize = 0;
    while k < descs.len()
        invariant
            k <= descs@.len(),
            decode_ready::<E, D>(*decode),
            *decode == d0,
            br.wf(),
            *br == *old(br),
            dist_multiplier == max_width(descs@, k as int),
            channels@.len() == k,
            dvec@ == descs@.subrange(0, k as int),
            descs@.len() <= MAX_CHANNELS,
            tree.nodes@.len() > 0,
            forall|j: int| 0 <= j < descs@.len() ==> 1 <= (#[trigger] descs@[j]).width <= MAX_DIM && 1 <= descs@[j].height <= MAX_DIM,
            forall|j: int| 0 <= j < k ==> chan_wf(#[trigger] dvec@[j], channels@[j]@),
        decreases descs@.len() - k,
    {
        let d = descs[k];
        proof {
            assert(d.width * d.height <= 0x1_0000_0000) by (nonlinear_arith)
                requires d.width <= 65536, d.height <= 65536;
        }
        let n = match (d.width as usize).checked_mul(d.height as usize) {
            Some(n) => n,
            None => {
                return Err(JxlError::Other("channel larger than the address space".to_owned()));
            },
        };
        channels.push(zeros(n));
        dvec.push(d);
        if d.width > dist_multiplier {
            dist_multiplier = d.width;
        }
        k = k + 1;
    }
    let mut img = ModularImage { channels, descs: dvec };
    let mut needs_wp_state = false;
    let mut k: usize = 0;
    while k < tree.nodes.len()
        invariant
            k <= tree.nodes@.len(),
            needs_wp_state <==> exists|j: int| 0 <= j < k && node_uses_wp(#[trigger] tree.nodes@[j]),
        decreases tree.nodes@.len() - k,
    {
        match tree.nodes[k] {
            MaNode::Leaf(l) => {
                if l.predictor == 6 {
                    needs_wp_state = true;
                }
            },
            MaNode::Decision { property, .. } => {
                if property == 15 {
                    needs_wp_state = true;
                }
            },
        }
        k = k + 1;
    }
    proof {
        assert(needs_wp_state == tree_uses_wp(tree.nodes@));
    }
    let mut i: usize = 0;
    while i < descs.len()
        invariant
            img_wf(img),
            img.descs@ == descs@,
            i <= descs@.len(),
            descs@.len() <= MAX_CHANNELS,
            tree.nodes@.len() > 0,
            forall|j: int| 0 <= j < descs@.len() ==> 1 <= (#[trigger] descs@[j]).width <= MAX_DIM && 1 <= descs@[j].height <= MAX_DIM,
            decode_ready::<E, D>(*decode),
            *decode == d0,
            br.wf(),
            dist_multiplier == max_width(descs@, descs@.len() as int),
            needs_wp_state == tree_uses_wp(tree.nodes@),
            wp_header_wf(*wp),
            forall|k: int| 0 <= k < tree.nodes@.len() ==> (#[trigger] tree.nodes@[k] matches MaNode::Leaf(l) ==> l.multiplier < 0x8000_0000),
            forall|j: int| 0 <= j < i ==> #[trigger] channel_decoded::<E, D>(d0, img, j, *tree, *wp, stream_index,
                dist_multiplier, needs_wp_state),
        decreases descs@.len() - i,
    {
        let d = descs[i];
        proof {
            assert(d.width * d.height <= 0x1_0000_0000) by (nonlinear_arith)
                requires d.width <= 65536, d.height <= 65536;
        }
        proof {
            assert(chan_wf(img.descs@[i as int], img.channels@[i as int]@));
        }
        let mut state = if needs_wp_state {
            let _n = img.channels[i].len();
            WpState::new(d.width, d.height)
        } else {
            WpState::new(0, 0)
        };
        proof {
            assert(wp_state_wf(state));
        }
        let mut y: u32 = 0;
        while y < d.height
            invariant
                img_wf(img),
                img.descs@ == descs@,
                i < descs@.len(),
                descs@.len() <= MAX_CHANNELS,
                tree.nodes@.len() > 0,
                d == descs@[i as int],
                1 <= d.width <= MAX_DIM && 1 <= d.height <= MAX_DIM,
                y <= d.height,
                wp_state_wf(state),
                needs_wp_state ==> state.width == d.width && state.height == d.height,
                forall|j: int| 0 <= j < descs@.len() ==> 1 <= (#[trigger] descs@[j]).width <= MAX_DIM && 1 <= descs@[j].height <= MAX_DIM,
                decode_ready::<E, D>(*decode),
                *decode == d0,
                br.wf(),
                dist_multiplier == max_width(descs@, descs@.len() as int),
                needs_wp_state == tree_uses_wp(tree.nodes@),
                wp_header_wf(*wp),
                forall|k: int| 0 <= k < tree.nodes@.len() ==> (#[trigger] tree.nodes@[k] matches MaNode::Leaf(l) ==> l.multiplier < 0x8000_0000),
                forall|j: int| 0 <= j < i ==> #[trigger] channel_decoded::<E, D>(d0, img, j, *tree, *wp, stream_index,
                    dist_multiplier, needs_wp_state),
                forall|xx: int, yy: int| 0 <= xx < d.width && 0 <= yy < d.height && yy * d.width + xx < y * d.width
                    ==> #[trigger] sample_decoded::<E, D>(d0, img, i as int, xx, yy, *tree, *wp, stream_index, dist_multiplier,
                        state_if(needs_wp_state, state)),
                needs_wp_state ==> wp_recorded(state, img, i as int, y * d.width, *wp),
            decreases d.height - y,
        {
            let mut x: u32 = 0;
            while x < d.width
                invariant
                    img_wf(img),
                    img.descs@ == descs@,
                    i < descs@.len(),
                    descs@.len() <= MAX_CHANNELS,
                    tree.nodes@.len() > 0,
                    d == descs@[i as int],
                    1 <= d.width <= MAX_DIM && 1 <= d.height <= MAX_DIM,
                    y < d.height,
                    x <= d.width,
                    wp_state_wf(state),
                    needs_wp_state ==> state.width == d.width && state.height == d.height,
                    forall|j: int| 0 <= j < descs@.len() ==> 1 <= (#[trigger] descs@[j]).width <= MAX_DIM && 1 <= descs@[j].height <= MAX_DIM,
                    decode_ready::<E, D>(*decode),
                    *decode == d0,
                    br.wf(),
                    dist_multiplier == max_width(descs@, descs@.len() as int),
                    needs_wp_state == tree_uses_wp(tree.nodes@),
                    wp_header_wf(*wp),
                    forall|k: int| 0 <= k < tree.nodes@.len() ==> (#[trigger] tree.nodes@[k] matches MaNode::Leaf(l) ==> l.multiplier < 0x8000_0000),
                    forall|j: int| 0 <= j < i ==> #[trigger] channel_decoded::<E, D>(d0, img, j, *tree, *wp, stream_index,
                    dist_multiplier, needs_wp_state),
                forall|xx: int, yy: int| 0 <= xx < d.width && 0 <= yy < d.height && yy * d.width + xx < y * d.width + x
                    ==> #[trigger] sample_decoded::<E, D>(d0, img, i as int, xx, yy, *tree, *wp, stream_index, dist_multiplier,
                        state_if(needs_wp_state, state)),
                needs_wp_state ==> wp_recorded(state, img, i as int, y * d.width + x, *wp),
                decreases d.width - x,
            {
                let st: Option<&WpState> = if needs_wp_state { Some(&state) } else { None };
                let (leaf, pred8, subpreds, max_error) = sample_leaf(&img, i, x, y, tree, wp, st, stream_index)?;
                proof {
                    let props = spec_sample_properties(img, i as int, x as i32, y as i32, *wp,
                        match st { Some(s) => Some(*s), None => None }, stream_index);
                    lemma_eval_tree_leaf(tree.nodes@, props, 0, tree.nodes@.len());
                }
                let token = decode(stream, br, leaf.ctx, dist_multiplier);
                proof { use_type_invariant(&*br); }
                let token = token?;
                let v = sample_value(&img, i, x, y, leaf, token, wp, st, pred8)?;
                let ghost before = img;
                let ghost s_before = state;
                img.set(i, x, y, v);
                if needs_wp_state {
                    wp_record(&mut state, x, y, pred8, &subpreds, max_error, v);
                }
                proof {
                    lemma_chan_index(d, before.channels@[i as int]@, x as int, y as int);
                    if needs_wp_state {
                        assert forall|k: int| 0 <= k < y * d.width + x implies #[trigger] before.channels@[i as int]@[k]
                            == img.channels@[i as int]@[k] by {}
                        lemma_wp_record_step(before, img, s_before, state, i as int, x as int, y as int, *wp, v);
                    }
                    lemma_record_sample::<E, D>(d0, before, img, i as int, x as int, y as int, *tree, *wp, stream_index,
                        dist_multiplier, leaf, token, v, needs_wp_state, s_before, state);
                }
                x = x + 1;
            }
            proof {
                assert((y + 1) * d.width == y * d.width + d.width) by (nonlinear_arith);
            }
            y = y + 1;
        }
        proof {
            assert forall|xx: int, yy: int| 0 <= xx < d.width && 0 <= yy < d.height implies #[trigger] sample_decoded::<E, D>(
                d0, img, i as int, xx, yy, *tree, *wp, stream_index, dist_multiplier, state_if(needs_wp_state, state)) by {
                lemma_index_bounds(d.width as int, d.height as int, xx, yy);
            }
            assert(d.height * d.width == d.width * d.height) by (nonlinear_arith);
            if needs_wp_state {
                assert(wp_channel_state(state, img, i as int, *wp));
            }
            assert(channel_decoded::<E, D>(d0, img, i as int, *tree, *wp, stream_index, dist_multiplier, needs_wp_state));
        }
        i = i + 1;
    }
    Ok(img)
}

/// [`decode_channels_at_stream`] for the GlobalModular sub-bitstream
/// (stream index 0).
pub fn decode_channels<E, D>(
    br: &mut BitReader<'_>,
    descs: &[ChannelDesc],
    tree: &MaTreeFdis,
    stream: &mut E,
    wp: &WpHeader,
    decode: &mut D,
) -> (r: Result<ModularImage, JxlError>)
    where
        D: FnMut(&mut E, &mut BitReader<'_>, u32, u32) -> Result<u32, JxlError>,
    requires
        decode_ready::<E, D>(*old(decode)),
        wp_header_wf(*wp),
        forall|k: int| 0 <= k < tree.nodes@.len() ==> (#[trigger] tree.nodes@[k] matches MaNode::Leaf(l) ==> l.multiplier < 0x8000_0000),
    ensures
        final(br).wf(),
        descs@.len() == 0 ==> (r matches Ok(img) && img.channels@.len() == 0 && img.descs@.len() == 0
            && *final(br) == *old(br)),
        descs@.len() > 0 && (descs@.len() > MAX_CHANNELS || tree.nodes@.len() == 0
            || exists|k: int| 0 <= k < descs@.len() && !(1 <= (#[trigger] descs@[k]).width <= MAX_DIM
                && 1 <= descs@[k].height <= MAX_DIM)) ==> (r matches Err(e) && e is InvalidData
                && *final(br) == *old(br)),
        r matches Ok(img) ==> img_wf(img) && img.descs@ == descs@,
        r matches Ok(img) ==> forall|i: int| 0 <= i < descs@.len() ==> #[trigger] channel_decoded::<E, D>(
            *old(decode), img, i, *tree, *wp, 0, max_width(descs@, descs@.len() as int), tree_uses_wp(tree.nodes@)),
        decode_ready::<E, D>(*final(decode)),
{
    decode_channels_at_stream(br, descs, tree, stream, wp, 0, decode)
}

/// A node that consults the self-correcting predictor: a leaf with
/// predictor 6 or a decision on property 15 (`max_error`).
pub open spec fn node_uses_wp(n: MaNode) -> bool {
    match n {
        MaNode::Leaf(l) => l.predictor == 6,
        MaNode::Decision { property, .. } => property == 15,
    }
}

/// Whether any node of the tree consults the self-correcting predictor.
pub open spec fn tree_uses_wp(nodes: Seq<MaNode>) -> bool {
    exists|k: int| 0 <= k < nodes.len() && node_uses_wp(#[trigger] nodes[k])
}

/// Largest width among the first `n` channel descriptions (0 for none).
pub open spec fn max_width(descs: Seq<ChannelDesc>, n: int) -> u32
    decreases n,
{
    if n <= 0 {
        0
    } else {
        let m = max_width(descs, n - 1);
        if descs[n - 1].width > m { descs[n - 1].width } else { m }
    }
}

/// `token` is a value `decode` may return, from some stream and reader
/// state, for context `ctx` and distance multiplier `dist_multiplier`.
pub open spec fn yields_token<E, D: FnMut(&mut E, &mut BitReader<'_>, u32, u32) -> Result<u32, JxlError>>(
    decode: D, ctx: u32, dist_multiplier: u32, token: u32,
) -> bool {
    exists|e: &mut E, b: &mut BitReader<'_>| call_ensures(decode, (e, b, ctx, dist_multiplier), Ok::<u32, JxlError>(token))
}

/// The predictor state a sample is decoded with: `s` when the tree uses
/// the self-correcting predictor, none otherwise.
pub open spec fn state_if(uses_wp: bool, s: WpState) -> Option<WpState> {
    if uses_wp { Some(s) } else { None }
}

/// Sample `(x, y)` of channel `i` holds what the sample stream gave for
/// it: the tree picks a leaf from the sample's properties (computed with
/// the predictor state `state`), `decode` yields a token for the leaf's
/// context, and the sample is `UnpackSigned(token) × multiplier + offset
/// + prediction`.
pub open spec fn sample_decoded<E, D: FnMut(&mut E, &mut BitReader<'_>, u32, u32) -> Result<u32, JxlError>>(
    decode: D, img: ModularImage, i: int, x: int, y: int, tree: MaTreeFdis, wp: WpHeader, stream_index: i32,
    dist_multiplier: u32, state: Option<WpState>,
) -> bool {
    match spec_sample_leaf(img, i, x as i32, y as i32, tree, wp, state, stream_index) {
        Some(leaf) => match spec_sample_prediction(img, i, x, y, leaf, wp, state) {
            Some(p) => exists|t: u32| #[trigger] yields_token::<E, D>(decode, leaf.ctx, dist_multiplier, t)
                && spec_sample_value(t, leaf, p) == Some(spec_img_get(img, i, x, y) as i32),
            None => false,
        },
        None => false,
    }
}

/// Entry `(x, y)` of `s` holds the self-correcting predictor's errors at
/// sample `(x, y)` of channel `i`: its prediction minus the sample, in
/// eighths, and each sub-prediction's error.
pub open spec fn wp_entry_recorded(s: WpState, img: ModularImage, i: int, x: int, y: int, wp: WpHeader) -> bool {
    let p = spec_wp_predict(s, spec_neighbours(img, i, x, y), x, y, wp);
    let v8 = x8(spec_img_get(img, i, x, y) as i32);
    let idx = y * s.width + x;
    &&& s.true_err@[idx] == wsub(p.0, v8)
    &&& forall|c: int| 0 <= c < 4 ==> #[trigger] s.sub_err@[c]@[idx] == sub_error(p.1[c], v8)
}

/// The first `n` entries of `s`, in raster order, hold the errors of
/// channel `i`'s samples.
pub open spec fn wp_recorded(s: WpState, img: ModularImage, i: int, n: int, wp: WpHeader) -> bool {
    forall|x: int, y: int| 0 <= x < s.width && 0 <= y < s.height && y * s.width + x < n
        ==> #[trigger] wp_entry_recorded(s, img, i, x, y, wp)
}

/// `s` is the self-correcting predictor's state after channel `i`: its
/// dimensions, with every entry recorded from the channel's samples.
pub open spec fn wp_channel_state(s: WpState, img: ModularImage, i: int, wp: WpHeader) -> bool {
    &&& wp_state_wf(s)
    &&& s.width == img.descs@[i].width && s.height == img.descs@[i].height
    &&& wp_recorded(s, img, i, s.width * s.height, wp)
}

/// Channel `i` is decoded from the sample stream: every sample is decoded
/// as the stream says — when the tree uses the self-correcting predictor,
/// with the state that records the predictor's errors over the channel
/// (each entry depends only on the samples before it, so that state is
/// the one the decoder builds).
pub open spec fn channel_decoded<E, D: FnMut(&mut E, &mut BitReader<'_>, u32, u32) -> Result<u32, JxlError>>(
    decode: D, img: ModularImage, i: int, tree: MaTreeFdis, wp: WpHeader, stream_index: i32, dist_multiplier: u32,
    uses_wp: bool,
) -> bool {
    let d = img.descs@[i];
    if uses_wp {
        exists|s: WpState| #[trigger] wp_channel_state(s, img, i, wp) && forall|x: int, y: int|
            0 <= x < d.width && 0 <= y < d.height ==> #[trigger] sample_decoded::<E, D>(decode, img, i, x, y, tree, wp,
                stream_index, dist_multiplier, Some(s))
    } else {
        forall|x: int, y: int| 0 <= x < d.width && 0 <= y < d.height ==> #[trigger] sample_decoded::<E, D>(decode, img,
            i, x, y, tree, wp, stream_index, dist_multiplier, None)
    }
}

/// Two images with the same descriptions whose channels before `i` are
/// equal and whose channel `i` agrees before index `n`.
pub open spec fn img_agree(a: ModularImage, b: ModularImage, i: int, n: int) -> bool {
    &&& a.descs@ == b.descs@
    &&& a.channels@.len() == b.channels@.len()
    &&& forall|j: int| 0 <= j < i ==> #[trigger] a.channels@[j]@ == b.channels@[j]@
    &&& forall|k: int| 0 <= k < n ==> #[trigger] a.channels@[i]@[k] == b.channels@[i]@[k]
}

/// Two predictor states of one size that agree before index `n`.
pub open spec fn wp_agree(s1: WpState, s2: WpState, n: int) -> bool {
    &&& s1.width == s2.width && s1.height == s2.height
    &&& forall|k: int| 0 <= k < n ==> #[trigger] s1.true_err@[k] == s2.true_err@[k]
    &&& forall|c: int, k: int| 0 <= c < 4 && 0 <= k < n ==> #[trigger] s1.sub_err@[c]@[k] == s2.sub_err@[c]@[k]
}

/// Reads outside channel `i`, or before index `n` in it, agree.
proof fn lemma_get_agree(a: ModularImage, b: ModularImage, i: int, n: int, xx: int, yy: int)
    requires
        img_wf(a),
        img_wf(b),
        0 <= i < a.channels@.len(),
        img_agree(a, b, i, n),
        0 <= xx < a.descs@[i].width && 0 <= yy < a.descs@[i].height ==> yy * a.descs@[i].width + xx < n,
    ensures
        spec_img_get(a, i, xx, yy) == spec_img_get(b, i, xx, yy),
{
}

/// Reads of a predictor state outside it, or before index `n`, agree.
proof fn lemma_wp_get_agree(s1: WpState, s2: WpState, n: int, xx: int, yy: int)
    requires
        wp_state_wf(s1),
        wp_state_wf(s2),
        wp_agree(s1, s2, n),
        0 <= xx < s1.width && 0 <= yy < s1.height ==> yy * s1.width + xx < n,
    ensures
        spec_te(s1, xx, yy) == spec_te(s2, xx, yy),
        forall|c: int| 0 <= c < 4 ==> #[trigger] spec_se(s1, c, xx, yy) == spec_se(s2, c, xx, yy),
{
    assert forall|c: int| 0 <= c < 4 implies #[trigger] spec_se(s1, c, xx, yy) == spec_se(s2, c, xx, yy) by {
        if 0 <= xx < s1.width && 0 <= yy < s1.height {
            assert(s1.sub_err@[c]@[yy * s1.width + xx] == s2.sub_err@[c]@[yy * s1.width + xx]);
        }
    }
}

/// The self-correcting prediction at `(x, y)` reads only the entries
/// before it.
proof fn lemma_wp_predict_agree(s1: WpState, s2: WpState, nb: Neighbours, x: int, y: int, wp: WpHeader)
    requires
        wp_state_wf(s1),
        wp_state_wf(s2),
        0 <= x < s1.width,
        0 <= y < s1.height,
        wp_agree(s1, s2, y * s1.width + x),
    ensures
        spec_wp_predict(s1, nb, x, y, wp) == spec_wp_predict(s2, nb, x, y, wp),
{
    let w = s1.width as int;
    let n = y * w + x;
    assert((y - 1) * w == y * w - w) by (nonlinear_arith);
    lemma_wp_get_agree(s1, s2, n, x - 1, y);
    lemma_wp_get_agree(s1, s2, n, x - 2, y);
    lemma_wp_get_agree(s1, s2, n, x, y - 1);
    lemma_wp_get_agree(s1, s2, n, x - 1, y - 1);
    lemma_wp_get_agree(s1, s2, n, x + 1, y - 1);
    assert(spec_te_ne(s1, x, y) == spec_te_ne(s2, x, y));
    assert(spec_subpredictions(s1, nb, x, y, wp) == spec_subpredictions(s2, nb, x, y, wp));
    assert forall|c: int| 0 <= c < 4 implies #[trigger] spec_err_sum(s1, c, x, y) == spec_err_sum(s2, c, x, y) by {
        assert(spec_se(s1, c, x, y - 1) == spec_se(s2, c, x, y - 1));
        assert(spec_se(s1, c, x - 1, y) == spec_se(s2, c, x - 1, y));
        assert(spec_se(s1, c, x - 1, y - 1) == spec_se(s2, c, x - 1, y - 1));
        assert(spec_se(s1, c, x - 2, y) == spec_se(s2, c, x - 2, y));
        assert(spec_se(s1, c, x + 1, y - 1) == spec_se(s2, c, x + 1, y - 1));
    }
    assert(spec_err_sum(s1, 0, x, y) == spec_err_sum(s2, 0, x, y));
    assert(spec_err_sum(s1, 1, x, y) == spec_err_sum(s2, 1, x, y));
    assert(spec_err_sum(s1, 2, x, y) == spec_err_sum(s2, 2, x, y));
    assert(spec_err_sum(s1, 3, x, y) == spec_err_sum(s2, 3, x, y));
    assert(spec_weight_total(s1, wp, x, y) == spec_weight_total(s2, wp, x, y));
    assert(spec_scaled_total(s1, wp, x, y) == spec_scaled_total(s2, wp, x, y));
}

/// Reads of a channel before `i` agree.
proof fn lemma_prev_props_agree(a: ModularImage, b: ModularImage, i: int, n: int, x: int, y: int, k: int)
    requires
        img_wf(a),
        img_wf(b),
        0 <= i < a.channels@.len(),
        k <= i,
        img_agree(a, b, i, n),
    ensures
        spec_prev_channel_props(a, i, x, y, k) == spec_prev_channel_props(b, i, x, y, k),
    decreases k,
{
    if k > 0 {
        lemma_prev_props_agree(a, b, i, n, x, y, k - 1);
        let j = k - 1;
        assert(a.channels@[j]@ == b.channels@[j]@);
        assert forall|xx: int, yy: int| spec_img_get(a, j, xx, yy) == spec_img_get(b, j, xx, yy) by {}
        assert(spec_prev_props(a, j, x, y) == spec_prev_props(b, j, x, y));
    }
}

/// The properties and neighbours of sample `(x, y)` of channel `i` depend
/// only on the channels before `i` and on the samples before it.
proof fn lemma_sample_inputs_agree(a: ModularImage, b: ModularImage, i: int, x: int, y: int, wp: WpHeader,
    state: Option<WpState>, stream_index: i32)
    requires
        img_wf(a),
        img_wf(b),
        0 <= i < a.channels@.len(),
        0 <= x < a.descs@[i].width <= MAX_DIM,
        0 <= y < a.descs@[i].height <= MAX_DIM,
        img_agree(a, b, i, y * a.descs@[i].width + x),
    ensures
        spec_neighbours(a, i, x, y) == spec_neighbours(b, i, x, y),
        spec_sample_properties(a, i, x as i32, y as i32, wp, state, stream_index)
            == spec_sample_properties(b, i, x as i32, y as i32, wp, state, stream_index),
{
    let w = a.descs@[i].width as int;
    let n = y * w + x;
    assert((y - 1) * w == y * w - w) by (nonlinear_arith);
    assert((y - 2) * w == y * w - 2 * w) by (nonlinear_arith);
    lemma_get_agree(a, b, i, n, x - 1, y);
    lemma_get_agree(a, b, i, n, x - 2, y);
    lemma_get_agree(a, b, i, n, x, y - 1);
    lemma_get_agree(a, b, i, n, x, y - 2);
    lemma_get_agree(a, b, i, n, x - 1, y - 1);
    lemma_get_agree(a, b, i, n, x - 2, y - 1);
    lemma_get_agree(a, b, i, n, x + 1, y - 1);
    lemma_get_agree(a, b, i, n, x + 2, y - 1);
    assert(spec_neighbours(a, i, x, y) == spec_neighbours(b, i, x, y));
    let nb = spec_neighbours(a, i, x, y);
    let me = spec_max_error(a, i, x, y, wp, state);
    assert(me == spec_max_error(b, i, x, y, wp, state));
    assert(spec_prop8(a, i, x, y, nb) == spec_prop8(b, i, x, y, nb));
    assert(spec_base_properties(a, i, x as i32, y as i32, stream_index, me)
        == spec_base_properties(b, i, x as i32, y as i32, stream_index, me));
    lemma_prev_props_agree(a, b, i, n, x, y, i);
}

/// Predictor states that are both absent, or of the channel's size and
/// agreeing before index `n`.
pub open spec fn states_agree(st1: Option<WpState>, st2: Option<WpState>, w: u32, h: u32, n: int) -> bool {
    match (st1, st2) {
        (None, None) => true,
        (Some(s1), Some(s2)) => wp_state_wf(s1) && wp_state_wf(s2) && s1.width == w && s1.height == h
            && wp_agree(s1, s2, n),
        _ => false,
    }
}

/// Whether a sample is decoded as its stream says depends only on the
/// channels before it, the samples up to it and the predictor entries
/// before it.
proof fn lemma_sample_decoded_agree<E, D: FnMut(&mut E, &mut BitReader<'_>, u32, u32) -> Result<u32, JxlError>>(
    decode: D, a: ModularImage, b: ModularImage, i: int, x: int, y: int, tree: MaTreeFdis, wp: WpHeader,
    stream_index: i32, dist_multiplier: u32, st1: Option<WpState>, st2: Option<WpState>,
)
    requires
        img_wf(a),
        img_wf(b),
        0 <= i < a.channels@.len(),
        0 <= x < a.descs@[i].width <= MAX_DIM,
        0 <= y < a.descs@[i].height <= MAX_DIM,
        img_agree(a, b, i, y * a.descs@[i].width + x + 1),
        states_agree(st1, st2, a.descs@[i].width, a.descs@[i].height, y * a.descs@[i].width + x),
    ensures
        sample_decoded::<E, D>(decode, a, i, x, y, tree, wp, stream_index, dist_multiplier, st1)
            == sample_decoded::<E, D>(decode, b, i, x, y, tree, wp, stream_index, dist_multiplier, st2),
{
    lemma_sample_inputs_agree(a, b, i, x, y, wp, st1, stream_index);
    lemma_get_agree(a, b, i, y * a.descs@[i].width + x + 1, x, y);
    if st1 is Some {
        let s1 = st1->0;
        let s2 = st2->0;
        lemma_wp_predict_agree(s1, s2, spec_neighbours(b, i, x, y), x, y, wp);
        assert(spec_sample_properties(b, i, x as i32, y as i32, wp, st1, stream_index)
            == spec_sample_properties(b, i, x as i32, y as i32, wp, st2, stream_index));
    }
}

/// Whether a predictor entry is recorded from the channel depends only on
/// the channels before it, the samples up to it and the entries up to it.
proof fn lemma_wp_entry_agree(s1: WpState, a: ModularImage, s2: WpState, b: ModularImage, i: int, x: int, y: int,
    wp: WpHeader)
    requires
        img_wf(a),
        img_wf(b),
        0 <= i < a.channels@.len(),
        0 <= x < a.descs@[i].width <= MAX_DIM,
        0 <= y < a.descs@[i].height <= MAX_DIM,
        img_agree(a, b, i, y * a.descs@[i].width + x + 1),
        wp_state_wf(s1),
        wp_state_wf(s2),
        s1.width == a.descs@[i].width && s1.height == a.descs@[i].height,
        wp_agree(s1, s2, y * s1.width + x + 1),
    ensures
        wp_entry_recorded(s1, a, i, x, y, wp) == wp_entry_recorded(s2, b, i, x, y, wp),
{
    lemma_sample_inputs_agree(a, b, i, x, y, wp, None, 0i32);
    lemma_get_agree(a, b, i, y * a.descs@[i].width + x + 1, x, y);
    let dd = ChannelDesc { width: s1.width, height: s1.height, hshift: 0, vshift: 0 };
    lemma_chan_index(dd, s1.true_err@, x, y);
    let nb = spec_neighbours(a, i, x, y);
    assert(nb == spec_neighbours(b, i, x, y));
    lemma_wp_predict_agree(s1, s2, nb, x, y, wp);
    let idx = y * s1.width + x;
    let p = spec_wp_predict(s1, nb, x, y, wp);
    assert(p == spec_wp_predict(s2, spec_neighbours(b, i, x, y), x, y, wp));
    let v8 = x8(spec_img_get(a, i, x, y) as i32);
    assert(v8 == x8(spec_img_get(b, i, x, y) as i32));
    assert(s1.true_err@[idx] == s2.true_err@[idx]);
    if wp_entry_recorded(s1, a, i, x, y, wp) {
        assert forall|c: int| 0 <= c < 4 implies #[trigger] s2.sub_err@[c]@[idx] == sub_error(p.1[c], v8) by {
            assert(s1.sub_err@[c]@[idx] == s2.sub_err@[c]@[idx]);
            assert(s1.sub_err@[c]@[idx] == sub_error(p.1[c], v8));
        }
    }
    if wp_entry_recorded(s2, b, i, x, y, wp) {
        assert forall|c: int| 0 <= c < 4 implies #[trigger] s1.sub_err@[c]@[idx] == sub_error(p.1[c], v8) by {
            assert(s1.sub_err@[c]@[idx] == s2.sub_err@[c]@[idx]);
            assert(s2.sub_err@[c]@[idx] == sub_error(p.1[c], v8));
        }
    }
}

/// A decoded channel stays decoded while only later channels change.
proof fn lemma_channel_decoded_agree<E, D: FnMut(&mut E, &mut BitReader<'_>, u32, u32) -> Result<u32, JxlError>>(
    decode: D, a: ModularImage, b: ModularImage, j: int, tree: MaTreeFdis, wp: WpHeader, stream_index: i32,
    dist_multiplier: u32, uses_wp: bool,
)
    requires
        img_wf(a),
        img_wf(b),
        0 <= j < a.channels@.len(),
        a.descs@[j].width <= MAX_DIM && a.descs@[j].height <= MAX_DIM,
        img_agree(a, b, j + 1, 0),
        channel_decoded::<E, D>(decode, a, j, tree, wp, stream_index, dist_multiplier, uses_wp),
    ensures
        channel_decoded::<E, D>(decode, b, j, tree, wp, stream_index, dist_multiplier, uses_wp),
{
    let d = a.descs@[j];
    assert(a.channels@[j]@ == b.channels@[j]@);
    if uses_wp {
        let s = choose|s: WpState| #[trigger] wp_channel_state(s, a, j, wp) && forall|x: int, y: int|
            0 <= x < d.width && 0 <= y < d.height ==> #[trigger] sample_decoded::<E, D>(decode, a, j, x, y, tree, wp,
                stream_index, dist_multiplier, Some(s));
        assert forall|x: int, y: int| 0 <= x < s.width && 0 <= y < s.height && y * s.width + x < s.width * s.height
            implies #[trigger] wp_entry_recorded(s, b, j, x, y, wp) by {
            assert(wp_entry_recorded(s, a, j, x, y, wp));
            assert(img_agree(a, b, j, y * d.width + x + 1));
            lemma_wp_entry_agree(s, a, s, b, j, x, y, wp);
        }
        assert(wp_channel_state(s, b, j, wp));
        assert forall|x: int, y: int| 0 <= x < d.width && 0 <= y < d.height implies #[trigger] sample_decoded::<E, D>(
            decode, b, j, x, y, tree, wp, stream_index, dist_multiplier, Some(s)) by {
            assert(sample_decoded::<E, D>(decode, a, j, x, y, tree, wp, stream_index, dist_multiplier, Some(s)));
            assert(img_agree(a, b, j, y * d.width + x + 1));
            lemma_sample_decoded_agree::<E, D>(decode, a, b, j, x, y, tree, wp, stream_index, dist_multiplier, Some(s),
                Some(s));
        }
    } else {
        assert forall|x: int, y: int| 0 <= x < d.width && 0 <= y < d.height implies #[trigger] sample_decoded::<E, D>(
            decode, b, j, x, y, tree, wp, stream_index, dist_multiplier, None) by {
            assert(sample_decoded::<E, D>(decode, a, j, x, y, tree, wp, stream_index, dist_multiplier, None));
            assert(img_agree(a, b, j, y * d.width + x + 1));
            lemma_sample_decoded_agree::<E, D>(decode, a, b, j, x, y, tree, wp, stream_index, dist_multiplier, None,
                None);
        }
    }
}

/// Recording the predictor's errors at sample `(x, y)` once it is stored
/// extends the recorded entries by one.
proof fn lemma_wp_record_step(before: ModularImage, after: ModularImage, s_b: WpState, s_a: WpState, i: int, x: int,
    y: int, wp: WpHeader, v: i32)
    requires
        img_wf(before),
        img_wf(after),
        0 <= i < before.channels@.len(),
        0 <= x < before.descs@[i].width <= MAX_DIM,
        0 <= y < before.descs@[i].height <= MAX_DIM,
        img_agree(before, after, i, y * before.descs@[i].width + x),
        spec_img_get(after, i, x, y) == v,
        wp_state_wf(s_b),
        wp_state_wf(s_a),
        s_b.width == before.descs@[i].width && s_b.height == before.descs@[i].height,
        s_a.width == s_b.width && s_a.height == s_b.height,
        wp_recorded(s_b, before, i, y * s_b.width + x, wp),
        ({
            let p = spec_wp_predict(s_b, spec_neighbours(before, i, x, y), x, y, wp);
            &&& s_a.true_err@ == s_b.true_err@.update(y * s_b.width + x, wsub(p.0, x8(v)))
            &&& forall|c: int| 0 <= c < 4 ==> (#[trigger] s_a.sub_err@[c])@ == s_b.sub_err@[c]@.update(
                y * s_b.width + x, sub_error(p.1[c], x8(v)))
        }),
    ensures
        wp_agree(s_b, s_a, y * s_b.width + x),
        wp_recorded(s_a, after, i, y * s_b.width + x + 1, wp),
{
    let w = s_b.width as int;
    let n = y * w + x;
    let dd = ChannelDesc { width: s_b.width, height: s_b.height, hshift: 0, vshift: 0 };
    lemma_chan_index(dd, s_b.true_err@, x, y);
    assert forall|c: int, k: int| 0 <= c < 4 && 0 <= k < n implies #[trigger] s_b.sub_err@[c]@[k]
        == s_a.sub_err@[c]@[k] by {
        assert(s_a.sub_err@[c]@ == s_b.sub_err@[c]@.update(n, sub_error(
            spec_wp_predict(s_b, spec_neighbours(before, i, x, y), x, y, wp).1[c], x8(v))));
    }
    assert(wp_agree(s_b, s_a, n));
    assert forall|xx: int, yy: int| 0 <= xx < s_a.width && 0 <= yy < s_a.height && yy * s_a.width + xx < n + 1
        implies #[trigger] wp_entry_recorded(s_a, after, i, xx, yy, wp) by {
        if yy * w + xx < n {
            assert(wp_entry_recorded(s_b, before, i, xx, yy, wp));
            lemma_wp_entry_kept(before, after, s_b, s_a, i, x, y, xx, yy, wp);
        } else {
            assert(yy == y) by (nonlinear_arith)
                requires
                    0 <= xx < w,
                    0 <= x < w,
                    0 <= yy,
                    0 <= y,
                    yy * w + xx == y * w + x,
            ;
            lemma_wp_entry_new(before, after, s_b, s_a, i, x, y, wp, v);
        }
    }
}

/// An entry recorded before the one at `(x, y)` stays recorded.
proof fn lemma_wp_entry_kept(before: ModularImage, after: ModularImage, s_b: WpState, s_a: WpState, i: int, x: int,
    y: int, xx: int, yy: int, wp: WpHeader)
    requires
        img_wf(before),
        img_wf(after),
        0 <= i < before.channels@.len(),
        0 <= x < before.descs@[i].width <= MAX_DIM,
        0 <= y < before.descs@[i].height <= MAX_DIM,
        0 <= xx < before.descs@[i].width,
        0 <= yy < before.descs@[i].height,
        yy * before.descs@[i].width + xx < y * before.descs@[i].width + x,
        img_agree(before, after, i, y * before.descs@[i].width + x),
        wp_state_wf(s_b),
        wp_state_wf(s_a),
        s_b.width == before.descs@[i].width && s_b.height == before.descs@[i].height,
        wp_agree(s_b, s_a, y * s_b.width + x),
        wp_entry_recorded(s_b, before, i, xx, yy, wp),
    ensures
        wp_entry_recorded(s_a, after, i, xx, yy, wp),
{
    let w = s_b.width as int;
    let m = yy * w + xx + 1;
    assert forall|k: int| 0 <= k < m implies #[trigger] before.channels@[i]@[k] == after.channels@[i]@[k] by {}
    assert(img_agree(before, after, i, m));
    assert forall|k: int| 0 <= k < m implies #[trigger] s_b.true_err@[k] == s_a.true_err@[k] by {}
    assert forall|c: int, k: int| 0 <= c < 4 && 0 <= k < m implies #[trigger] s_b.sub_err@[c]@[k]
        == s_a.sub_err@[c]@[k] by {}
    assert(wp_agree(s_b, s_a, m));
    lemma_wp_entry_agree(s_b, before, s_a, after, i, xx, yy, wp);
}

/// The entry at `(x, y)` holds the errors recorded for the sample.
proof fn lemma_wp_entry_new(before: ModularImage, after: ModularImage, s_b: WpState, s_a: WpState, i: int, x: int,
    y: int, wp: WpHeader, v: i32)
    requires
        img_wf(before),
        img_wf(after),
        0 <= i < before.channels@.len(),
        0 <= x < before.descs@[i].width <= MAX_DIM,
        0 <= y < before.descs@[i].height <= MAX_DIM,
        img_agree(before, after, i, y * before.descs@[i].width + x),
        spec_img_get(after, i, x, y) == v,
        wp_state_wf(s_b),
        wp_state_wf(s_a),
        s_b.width == before.descs@[i].width && s_b.height == before.descs@[i].height,
        s_a.width == s_b.width && s_a.height == s_b.height,
        wp_agree(s_b, s_a, y * s_b.width + x),
        ({
            let p = spec_wp_predict(s_b, spec_neighbours(before, i, x, y), x, y, wp);
            &&& s_a.true_err@ == s_b.true_err@.update(y * s_b.width + x, wsub(p.0, x8(v)))
            &&& forall|c: int| 0 <= c < 4 ==> (#[trigger] s_a.sub_err@[c])@ == s_b.sub_err@[c]@.update(
                y * s_b.width + x, sub_error(p.1[c], x8(v)))
        }),
    ensures
        wp_entry_recorded(s_a, after, i, x, y, wp),
{
    let n = y * s_b.width + x;
    let dd = ChannelDesc { width: s_b.width, height: s_b.height, hshift: 0, vshift: 0 };
    lemma_chan_index(dd, s_b.true_err@, x, y);
    lemma_sample_inputs_agree(before, after, i, x, y, wp, None, 0i32);
    lemma_wp_predict_agree(s_b, s_a, spec_neighbours(before, i, x, y), x, y, wp);
    let p = spec_wp_predict(s_b, spec_neighbours(before, i, x, y), x, y, wp);
    assert(s_a.true_err@[n] == wsub(p.0, x8(v)));
    assert forall|c: int| 0 <= c < 4 implies #[trigger] s_a.sub_err@[c]@[n] == sub_error(p.1[c], x8(v)) by {
        assert(s_a.sub_err@[c]@ == s_b.sub_err@[c]@.update(n, sub_error(p.1[c], x8(v))));
    }
}

/// Storing a sample decoded as its stream says keeps every sample and
/// channel before it decoded and adds it to them.
proof fn lemma_record_sample<E, D: FnMut(&mut E, &mut BitReader<'_>, u32, u32) -> Result<u32, JxlError>>(
    decode: D, before: ModularImage, after: ModularImage, i: int, x: int, y: int, tree: MaTreeFdis, wp: WpHeader,
    stream_index: i32, dist_multiplier: u32, leaf: MaLeaf, token: u32, v: i32, uses_wp: bool, s_b: WpState,
    s_a: WpState,
)
    requires
        img_wf(before),
        img_wf(after),
        0 <= i < before.channels@.len(),
        0 <= x < before.descs@[i].width <= MAX_DIM,
        0 <= y < before.descs@[i].height <= MAX_DIM,
        forall|j: int| 0 <= j < before.descs@.len() ==> (#[trigger] before.descs@[j]).width <= MAX_DIM
            && before.descs@[j].height <= MAX_DIM,
        after.descs == before.descs,
        after.channels@.len() == before.channels@.len(),
        forall|j: int| 0 <= j < before.channels@.len() && j != i ==> after.channels@[j] == before.channels@[j],
        after.channels@[i]@ == before.channels@[i]@.update(y * before.descs@[i].width + x, v),
        uses_wp ==> wp_state_wf(s_b) && s_b.width == before.descs@[i].width && s_b.height == before.descs@[i].height
            && wp_state_wf(s_a) && wp_agree(s_b, s_a, y * s_b.width + x),
        spec_sample_leaf(before, i, x as i32, y as i32, tree, wp, state_if(uses_wp, s_b), stream_index) == Some(leaf),
        spec_sample_prediction(before, i, x, y, leaf, wp, state_if(uses_wp, s_b)) matches Some(p)
            && spec_sample_value(token, leaf, p) == Some(v),
        yields_token::<E, D>(decode, leaf.ctx, dist_multiplier, token),
        forall|j: int| 0 <= j < i ==> #[trigger] channel_decoded::<E, D>(decode, before, j, tree, wp, stream_index,
            dist_multiplier, uses_wp),
        forall|xx: int, yy: int| 0 <= xx < before.descs@[i].width && 0 <= yy < before.descs@[i].height
            && yy * before.descs@[i].width + xx < y * before.descs@[i].width + x
            ==> #[trigger] sample_decoded::<E, D>(decode, before, i, xx, yy, tree, wp, stream_index, dist_multiplier,
                state_if(uses_wp, s_b)),
    ensures
        forall|j: int| 0 <= j < i ==> #[trigger] channel_decoded::<E, D>(decode, after, j, tree, wp, stream_index,
            dist_multiplier, uses_wp),
        forall|xx: int, yy: int| 0 <= xx < after.descs@[i].width && 0 <= yy < after.descs@[i].height
            && yy * after.descs@[i].width + xx < y * after.descs@[i].width + x + 1
            ==> #[trigger] sample_decoded::<E, D>(decode, after, i, xx, yy, tree, wp, stream_index, dist_multiplier,
                state_if(uses_wp, s_a)),
{
    let w = before.descs@[i].width as int;
    let n = y * w + x;
    assert(chan_wf(before.descs@[i], before.channels@[i]@));
    lemma_chan_index(before.descs@[i], before.channels@[i]@, x, y);
    assert forall|j: int| 0 <= j < i implies #[trigger] after.channels@[j]@ == before.channels@[j]@ by {
        assert(after.channels@[j] == before.channels@[j]);
    }
    assert forall|j: int| 0 <= j < i implies #[trigger] channel_decoded::<E, D>(decode, after, j, tree, wp,
        stream_index, dist_multiplier, uses_wp) by {
        assert(chan_wf(before.descs@[j], before.channels@[j]@));
        assert(after.channels@[j]@ == before.channels@[j]@);
        assert(img_agree(before, after, j + 1, 0));
        lemma_channel_decoded_agree::<E, D>(decode, before, after, j, tree, wp, stream_index, dist_multiplier, uses_wp);
    }
    assert forall|xx: int, yy: int| 0 <= xx < after.descs@[i].width && 0 <= yy < after.descs@[i].height
        && yy * after.descs@[i].width + xx < n + 1
        implies #[trigger] sample_decoded::<E, D>(decode, after, i, xx, yy, tree, wp, stream_index, dist_multiplier,
            state_if(uses_wp, s_a)) by {
        if yy * w + xx < n {
            assert forall|k: int| 0 <= k < yy * w + xx + 1 implies #[trigger] before.channels@[i]@[k]
                == after.channels@[i]@[k] by {}
            assert(img_agree(before, after, i, yy * w + xx + 1));
            if uses_wp {
                assert forall|k: int| 0 <= k < yy * w + xx implies #[trigger] s_b.true_err@[k] == s_a.true_err@[k] by {}
                assert forall|c: int, k: int| 0 <= c < 4 && 0 <= k < yy * w + xx implies #[trigger] s_b.sub_err@[c]@[k]
                    == s_a.sub_err@[c]@[k] by {}
                assert(wp_agree(s_b, s_a, yy * w + xx));
            }
            lemma_sample_decoded_agree::<E, D>(decode, before, after, i, xx, yy, tree, wp, stream_index, dist_multiplier,
                state_if(uses_wp, s_b), state_if(uses_wp, s_a));
        } else {
            assert(yy == y) by (nonlinear_arith)
                requires
                    0 <= xx < w,
                    0 <= x < w,
                    0 <= yy,
                    0 <= y,
                    yy * w + xx == y * w + x,
            ;
            assert forall|k: int| 0 <= k < n implies #[trigger] before.channels@[i]@[k] == after.channels@[i]@[k] by {}
            assert(img_agree(before, after, i, n));
            lemma_sample_inputs_agree(before, after, i, x, y, wp, state_if(uses_wp, s_b), stream_index);
            if uses_wp {
                lemma_wp_predict_agree(s_b, s_a, spec_neighbours(after, i, x, y), x, y, wp);
                assert(spec_sample_properties(after, i, x as i32, y as i32, wp, Some(s_b), stream_index)
                    == spec_sample_properties(after, i, x as i32, y as i32, wp, Some(s_a), stream_index));
            }
            assert(spec_img_get(after, i, x, y) == v);
            assert(yields_token::<E, D>(decode, leaf.ctx, dist_multiplier, token));
        }
    }
}

/// A leaf found by the walk is one of the tree's nodes.
proof fn lemma_eval_tree_leaf(nodes: Seq<MaNode>, props: Seq<i32>, cursor: int, fuel: nat)
    ensures
        spec_eval_tree(nodes, props, cursor, fuel) matches Some(l) ==> exists|k: int| 0 <= k < nodes.len()
            && #[trigger] nodes[k] == MaNode::Leaf(l),
    decreases fuel,
{
    if 0 <= cursor < nodes.len() {
        match nodes[cursor] {
            MaNode::Leaf(l) => {},
            MaNode::Decision { property, value, left_child, right_child } => {
                let pv = if (property as int) < props.len() { props[property as int] } else { 0i32 };
                let next = if pv > value { left_child } else { right_child };
                if next < nodes.len() && fuel > 0 {
                    lemma_eval_tree_leaf(nodes, props, next as int, (fuel - 1) as nat);
                }
            },
        }
    }
}

/// `U32` distributions of a `begin_c` field.
pub open spec fn begin_c_dists() -> [U32Dist; 4] {
    [U32Dist::Bits(3), U32Dist::BitsOffset(6, 8), U32Dist::BitsOffset(10, 72), U32Dist::BitsOffset(13, 1096)]
}

/// `U32` distributions of a squeeze step's `num_c`.
pub open spec fn sq_num_c_dists() -> [U32Dist; 4] {
    [U32Dist::Val(1), U32Dist::Val(2), U32Dist::Val(3), U32Dist::BitsOffset(4, 4)]
}

/// `U32` distributions of `rct_type`.
pub open spec fn rct_type_dists() -> [U32Dist; 4] {
    [U32Dist::Val(6), U32Dist::Bits(2), U32Dist::BitsOffset(4, 2), U32Dist::BitsOffset(6, 10)]
}

/// `U32` distributions of a palette's `num_c`.
pub open spec fn pal_num_c_dists() -> [U32Dist; 4] {
    [U32Dist::Val(1), U32Dist::Val(3), U32Dist::Val(4), U32Dist::BitsOffset(13, 1)]
}

/// `U32` distributions of `nb_colours`.
pub open spec fn nb_colours_dists() -> [U32Dist; 4] {
    [U32Dist::BitsOffset(8, 0), U32Dist::BitsOffset(10, 256), U32Dist::BitsOffset(12, 1280), U32Dist::BitsOffset(16, 5376)]
}

/// `U32` distributions of `nb_deltas`.
pub open spec fn nb_deltas_dists() -> [U32Dist; 4] {
    [U32Dist::Val(0), U32Dist::BitsOffset(8, 1), U32Dist::BitsOffset(10, 257), U32Dist::BitsOffset(16, 1281)]
}

/// `U32` distributions of `num_sq`.
pub open spec fn num_sq_dists() -> [U32Dist; 4] {
    [U32Dist::Val(0), U32Dist::BitsOffset(4, 1), U32Dist::BitsOffset(6, 9), U32Dist::BitsOffset(8, 41)]
}

/// Read a `U32` field with one of the distribution tables above.
fn read_u32_with(br: &mut BitReader<'_>, dists: [U32Dist; 4]) -> (r: Result<u32, JxlError>)
    requires
        old(br).wf(),
        dists == begin_c_dists() || dists == sq_num_c_dists() || dists == rct_type_dists() || dists
            == pal_num_c_dists() || dists == nb_colours_dists() || dists == nb_deltas_dists() || dists == num_sq_dists(),
    ensures
        final(br).wf(),
        final(br).bytes() == old(br).bytes(),
        r is Ok <==> spec_u32(old(br).bytes(), old(br).pos(), dists) is Some,
        r is Ok ==> r->Ok_0 == spec_u32(old(br).bytes(), old(br).pos(), dists).unwrap().0
            && final(br).pos() == spec_u32(old(br).bytes(), old(br).pos(), dists).unwrap().1,
        r is Err ==> r->Err_0 is Eof,
{
    proof {
        vstd::arithmetic::power2::lemma2_to64();
        assert forall|i: int| 0 <= i < 4 implies dist_wf(#[trigger] dists@[i]) by {
        }
    }
    br.read_u32(dists)
}

/// Squeeze step parameters read at bit `pos` (Table H.9).
pub open spec fn spec_squeeze_param(s: Seq<u8>, pos: int) -> Option<(SqueezeParam, int)> {
    if pos + 2 > total_bits(s) {
        None
    } else {
        match spec_u32(s, pos + 2, begin_c_dists()) {
            None => None,
            Some((b, p1)) => match spec_u32(s, p1, sq_num_c_dists()) {
                None => None,
                Some((n, p2)) => Some((SqueezeParam {
                    horizontal: bits_le(s, pos, 1) == 1,
                    in_place: bits_le(s, pos + 1, 1) == 1,
                    begin_c: b as u32,
                    num_c: n as u32,
                }, p2)),
            },
        }
    }
}

impl SqueezeParam {
    /// Read a squeeze step's parameters (Table H.9).
    pub fn read(br: &mut BitReader<'_>) -> (r: Result<Self, JxlError>)
        requires
            old(br).wf(),
        ensures
            final(br).wf(),
            final(br).bytes() == old(br).bytes(),
            r is Ok <==> spec_squeeze_param(old(br).bytes(), old(br).pos()) is Some,
            r is Ok ==> r->Ok_0 == spec_squeeze_param(old(br).bytes(), old(br).pos()).unwrap().0
                && final(br).pos() == spec_squeeze_param(old(br).bytes(), old(br).pos()).unwrap().1,
            r is Err ==> r->Err_0 is Eof,
    {
        let horizontal = br.read_bool()?;
        let in_place = br.read_bool()?;
        let begin_c = read_u32_with(br, [U32Dist::Bits(3), U32Dist::BitsOffset(6, 8), U32Dist::BitsOffset(10, 72), U32Dist::BitsOffset(13, 1096)])?;
        let num_c = read_u32_with(br, [U32Dist::Val(1), U32Dist::Val(2), U32Dist::Val(3), U32Dist::BitsOffset(4, 4)])?;
        Ok(SqueezeParam { horizontal, in_place, begin_c, num_c })
    }
}

/// `n` squeeze steps read from bit `pos`.
pub open spec fn spec_squeeze_params(s: Seq<u8>, pos: int, n: nat) -> Option<(Seq<SqueezeParam>, int)>
    decreases n,
{
    if n == 0 {
        Some((Seq::empty(), pos))
    } else {
        match spec_squeeze_params(s, pos, (n - 1) as nat) {
            None => None,
            Some((sps, p1)) => match spec_squeeze_param(s, p1) {
                None => None,
                Some((sp, p2)) => Some((sps.push(sp), p2)),
            },
        }
    }
}

/// Largest number of squeeze steps a transform may list.
pub const MAX_SQUEEZE_STEPS: u32 = 305;

/// Table H.7 — a transform of the modular sub-bitstream, with the fields
/// its kind uses.
#[derive(Debug, Clone)]
pub struct TransformInfo {
    pub tr: TransformId,
    pub begin_c: Option<u32>,
    pub rct_type: Option<u32>,
    pub num_c: Option<u32>,
    pub nb_colours: Option<u32>,
    pub nb_deltas: Option<u32>,
    pub d_pred: Option<u32>,
    pub num_sq: Option<u32>,
    pub squeeze_params: Vec<SqueezeParam>,
}

/// The fields of a [`TransformInfo`], the squeeze steps as a sequence.
pub struct TransformFields {
    pub tr: TransformId,
    pub begin_c: Option<u32>,
    pub rct_type: Option<u32>,
    pub num_c: Option<u32>,
    pub nb_colours: Option<u32>,
    pub nb_deltas: Option<u32>,
    pub d_pred: Option<u32>,
    pub num_sq: Option<u32>,
    pub squeeze_params: Seq<SqueezeParam>,
}

impl View for TransformInfo {
    type V = TransformFields;

    open spec fn view(&self) -> TransformFields {
        TransformFields {
            tr: self.tr,
            begin_c: self.begin_c,
            rct_type: self.rct_type,
            num_c: self.num_c,
            nb_colours: self.nb_colours,
            nb_deltas: self.nb_deltas,
            d_pred: self.d_pred,
            num_sq: self.num_sq,
            squeeze_params: self.squeeze_params@,
        }
    }
}

/// Transform kind of a 2-bit code.
pub open spec fn spec_transform_id(v: int) -> TransformId {
    if v == 0 { TransformId::Rct } else if v == 1 { TransformId::Palette } else { TransformId::Squeeze }
}

/// Palette fields `(num_c, nb_colours, nb_deltas, d_pred)` read at `pos`.
pub open spec fn spec_palette_fields(s: Seq<u8>, pos: int) -> Option<(u32, u32, u32, u32, int)> {
    match spec_u32(s, pos, pal_num_c_dists()) {
        None => None,
        Some((nc, p1)) => match spec_u32(s, p1, nb_colours_dists()) {
            None => None,
            Some((ncol, p2)) => match spec_u32(s, p2, nb_deltas_dists()) {
                None => None,
                Some((nd, p3)) => if p3 + 4 > total_bits(s) {
                    None
                } else {
                    Some((nc as u32, ncol as u32, nd as u32, bits_le(s, p3, 4) as u32, p3 + 4))
                },
            },
        },
    }
}

/// A `TransformInfo` read at bit `pos` (Table H.7): `None` when the
/// stream ends early, the kind code is 3, or more than
/// [`MAX_SQUEEZE_STEPS`] squeeze steps are announced.
pub open spec fn spec_transform_info(s: Seq<u8>, pos: int) -> Option<(TransformFields, int)> {
    if pos + 2 > total_bits(s) || bits_le(s, pos, 2) == 3 {
        None
    } else {
        let tr = spec_transform_id(bits_le(s, pos, 2));
        let p0 = pos + 2;
        let bc = if tr != TransformId::Squeeze { spec_u32(s, p0, begin_c_dists()) } else { Some((0, p0)) };
        match bc {
            None => None,
            Some((b, p1)) => {
                let begin_c = if tr != TransformId::Squeeze { Some(b as u32) } else { None };
                if tr == TransformId::Rct {
                    match spec_u32(s, p1, rct_type_dists()) {
                        None => None,
                        Some((rt, p2)) => Some((TransformFields {
                            tr, begin_c, rct_type: Some(rt as u32), num_c: None, nb_colours: None, nb_deltas: None,
                            d_pred: None, num_sq: None, squeeze_params: Seq::empty(),
                        }, p2)),
                    }
                } else if tr == TransformId::Palette {
                    match spec_palette_fields(s, p1) {
                        None => None,
                        Some((nc, ncol, nd, dp, p2)) => Some((TransformFields {
                            tr, begin_c, rct_type: None, num_c: Some(nc), nb_colours: Some(ncol), nb_deltas: Some(nd),
                            d_pred: Some(dp), num_sq: None, squeeze_params: Seq::empty(),
                        }, p2)),
                    }
                } else {
                    match spec_u32(s, p1, num_sq_dists()) {
                        None => None,
                        Some((nsq, p2)) => if nsq > MAX_SQUEEZE_STEPS {
                            None
                        } else {
                            match spec_squeeze_params(s, p2, nsq as nat) {
                                None => None,
                                Some((sps, p3)) => Some((TransformFields {
                                    tr, begin_c, rct_type: None, num_c: None, nb_colours: None, nb_deltas: None,
                                    d_pred: None, num_sq: Some(nsq as u32), squeeze_params: sps,
                                }, p3)),
                            }
                        },
                    }
                }
            },
        }
    }
}

/// A `TransformInfo` at `pos` that the format rejects outright: kind 3,
/// or a squeeze with more than [`MAX_SQUEEZE_STEPS`] steps.
pub open spec fn transform_info_invalid(s: Seq<u8>, pos: int) -> bool {
    &&& pos + 2 <= total_bits(s)
    &&& (bits_le(s, pos, 2) == 3 || (bits_le(s, pos, 2) == 2 && match spec_u32(s, pos + 2, num_sq_dists()) {
        Some((nsq, _)) => nsq > MAX_SQUEEZE_STEPS,
        None => false,
    }))
}

impl TransformInfo {
    /// Read a `TransformInfo` (Table H.7): a 2-bit kind, then the fields
    /// that kind uses.
    pub fn read(br: &mut BitReader<'_>) -> (r: Result<Self, JxlError>)
        requires
            old(br).wf(),
        ensures
            final(br).wf(),
            final(br).bytes() == old(br).bytes(),
            r is Ok <==> spec_transform_info(old(br).bytes(), old(br).pos()) is Some,
            r is Ok ==> r->Ok_0@ == spec_transform_info(old(br).bytes(), old(br).pos()).unwrap().0
                && final(br).pos() == spec_transform_info(old(br).bytes(), old(br).pos()).unwrap().1,
            r matches Err(e) ==> (e is InvalidData <==> transform_info_invalid(old(br).bytes(), old(br).pos()))
                && (e is InvalidData || e is Eof),
    {
        let ghost s = br.bytes();
        let ghost p0 = br.pos();
        let tr_raw = br.read_bits(2)?;
        proof {
            vstd::arithmetic::power2::lemma2_to64();
        }
        let tr = TransformId::from_u32(tr_raw)?;
        let begin_c = if tr != TransformId::Squeeze {
            Some(read_u32_with(br, [U32Dist::Bits(3), U32Dist::BitsOffset(6, 8), U32Dist::BitsOffset(10, 72), U32Dist::BitsOffset(13, 1096)])?)
        } else {
            None
        };
        let rct_type = if tr == TransformId::Rct {
            Some(read_u32_with(br, [U32Dist::Val(6), U32Dist::Bits(2), U32Dist::BitsOffset(4, 2), U32Dist::BitsOffset(6, 10)])?)
        } else {
            None
        };
        let ghost p_pal = br.pos();
        let (num_c, nb_colours, nb_deltas, d_pred) = if tr == TransformId::Palette {
            let num_c = read_u32_with(br, [U32Dist::Val(1), U32Dist::Val(3), U32Dist::Val(4), U32Dist::BitsOffset(13, 1)])?;
            let nb_colours = read_u32_with(br, [U32Dist::BitsOffset(8, 0), U32Dist::BitsOffset(10, 256), U32Dist::BitsOffset(12, 1280), U32Dist::BitsOffset(16, 5376)])?;
            let nb_deltas = read_u32_with(br, [U32Dist::Val(0), U32Dist::BitsOffset(8, 1), U32Dist::BitsOffset(10, 257), U32Dist::BitsOffset(16, 1281)])?;
            let d_pred = br.read_bits(4)?;
            (Some(num_c), Some(nb_colours), Some(nb_deltas), Some(d_pred))
        } else {
            (None, None, None, None)
        };
        let mut squeeze_params: Vec<SqueezeParam> = Vec::new();
        let num_sq = if tr == TransformId::Squeeze {
            let num_sq = read_u32_with(br, [U32Dist::Val(0), U32Dist::BitsOffset(4, 1), U32Dist::BitsOffset(6, 9), U32Dist::BitsOffset(8, 41)])?;
            if num_sq > MAX_SQUEEZE_STEPS {
                return Err(invalid("too many squeeze steps"));
            }
            squeeze_params = read_squeeze_params(br, num_sq)?;
            Some(num_sq)
        } else {
            None
        };
        Ok(TransformInfo { tr, begin_c, rct_type, num_c, nb_colours, nb_deltas, d_pred, num_sq, squeeze_params })
    }
}

/// Read `num_sq` squeeze steps.
fn read_squeeze_params(br: &mut BitReader<'_>, num_sq: u32) -> (r: Result<Vec<SqueezeParam>, JxlError>)
    requires
        old(br).wf(),
    ensures
        final(br).wf(),
        final(br).bytes() == old(br).bytes(),
        r is Ok <==> spec_squeeze_params(old(br).bytes(), old(br).pos(), num_sq as nat) is Some,
        r is Ok ==> r->Ok_0@ == spec_squeeze_params(old(br).bytes(), old(br).pos(), num_sq as nat).unwrap().0
            && final(br).pos() == spec_squeeze_params(old(br).bytes(), old(br).pos(), num_sq as nat).unwrap().1,
        r is Err ==> r->Err_0 is Eof,
{
    let ghost s = br.bytes();
    let ghost p2 = br.pos();
    let mut squeeze_params: Vec<SqueezeParam> = Vec::new();
    let mut k: u32 = 0;
    while k < num_sq
        invariant
            br.wf(),
            br.bytes() == s,
            s == old(br).bytes(),
            p2 == old(br).pos(),
            k <= num_sq,
            spec_squeeze_params(s, p2, k as nat) == Some((squeeze_params@, br.pos())),
        decreases num_sq - k,
    {
        let sp = match SqueezeParam::read(br) {
            Ok(sp) => sp,
            Err(e) => {
                proof {
                    lemma_squeeze_params_none(s, p2, (k + 1) as nat, num_sq as nat);
                }
                return Err(e);
            },
        };
        squeeze_params.push(sp);
        k = k + 1;
    }
    Ok(squeeze_params)
}

/// Once a squeeze step fails to read, any longer list fails too.
proof fn lemma_squeeze_params_none(s: Seq<u8>, pos: int, k: nat, m: nat)
    requires
        k <= m,
        spec_squeeze_params(s, pos, k) is None,
    ensures
        spec_squeeze_params(s, pos, m) is None,
    decreases m - k,
{
    if k < m {
        assert(spec_squeeze_params(s, pos, (k + 1) as nat) is None);
        lemma_squeeze_params_none(s, pos, (k + 1) as nat, m);
    }
}

/// A buffer of `n` zeros.
fn zeros(n: usize) -> (r: Vec<i32>)
    ensures
        r@ == Seq::new(n as nat, |i: int| 0i32),
{
    let mut v: Vec<i32> = Vec::new();
    let mut i: usize = 0;
    while i < n
        invariant
            i <= n,
            v@ == Seq::new(i as nat, |k: int| 0i32),
        decreases n - i,
    {
        v.push(0);
        i = i + 1;
    }
    v
}


/// LZ77 parameters of an entropy-coded stream.
#[derive(Debug, Clone, Copy)]
pub struct Lz77Params {
    pub enabled: bool,
    pub min_symbol: u32,
    pub min_length: u32,
}

/// Hybrid integer configuration of a cluster (D.3.7).
#[derive(Debug, Clone, Copy)]
pub struct HybridUintConfig {
    pub split_exponent: u32,
    pub msb_in_token: u32,
    pub lsb_in_token: u32,
    pub split: u32,
}

/// Prelude of an entropy-coded stream (D.3): LZ77 settings, the cluster
/// map from contexts to clusters, the alphabet size, and one hybrid
/// integer configuration and one distribution (`C`) per cluster.
#[derive(Debug, Clone)]
pub struct EntropyStream<C> {
    pub use_prefix_code: bool,
    pub log_alphabet_size: u32,
    /// One configuration per cluster.
    pub configs: Vec<HybridUintConfig>,
    /// One distribution per cluster.
    pub entropies: Vec<C>,
    pub lz77: Lz77Params,
    /// Configuration of LZ77 lengths.
    pub lz_len_conf: HybridUintConfig,
    /// Cluster of each context.
    pub cluster_map: Vec<u32>,
}

/// `U32` distributions of LZ77's `min_symbol`.
pub open spec fn lz_min_symbol_dists() -> [U32Dist; 4] {
    [U32Dist::Val(224), U32Dist::Val(512), U32Dist::Val(4096), U32Dist::BitsOffset(15, 8)]
}

/// `U32` distributions of LZ77's `min_length`.
pub open spec fn lz_min_length_dists() -> [U32Dist; 4] {
    [U32Dist::Val(3), U32Dist::Val(4), U32Dist::BitsOffset(2, 5), U32Dist::BitsOffset(8, 9)]
}

/// The LZ77 settings at `pos`: an enable bit and, when set, `min_symbol`
/// and `min_length`; `None` when the stream ends early.
pub open spec fn spec_lz77(s: Seq<u8>, pos: int) -> Option<(Lz77Params, int)> {
    if pos + 1 > total_bits(s) {
        None
    } else if bits_le(s, pos, 1) == 0 {
        Some((Lz77Params { enabled: false, min_symbol: 224, min_length: 3 }, pos + 1))
    } else {
        match spec_u32(s, pos + 1, lz_min_symbol_dists()) {
            None => None,
            Some((ms, p1)) => match spec_u32(s, p1, lz_min_length_dists()) {
                None => None,
                Some((ml, p2)) => Some((Lz77Params { enabled: true, min_symbol: ms as u32, min_length: ml as u32 }, p2)),
            },
        }
    }
}

/// Configuration of LZ77 lengths when LZ77 is off.
pub open spec fn default_lz_len_conf() -> HybridUintConfig {
    HybridUintConfig { split_exponent: 8, msb_in_token: 0, lsb_in_token: 0, split: 256 }
}

/// Largest cluster index plus one (0 for an empty map).
pub open spec fn spec_num_clusters(map: Seq<u32>) -> int
    decreases map.len(),
{
    if map.len() == 0 {
        0
    } else {
        let rest = spec_num_clusters(map.drop_last());
        if map.last() + 1 > rest { map.last() + 1 } else { rest }
    }
}

/// Every entry of the map lies below its cluster count.
proof fn lemma_num_clusters_bound(map: Seq<u32>)
    ensures
        forall|i: int| 0 <= i < map.len() ==> map[i] < spec_num_clusters(map),
        0 <= spec_num_clusters(map) <= u32::MAX + 1,
    decreases map.len(),
{
    if map.len() > 0 {
        lemma_num_clusters_bound(map.drop_last());
        assert forall|i: int| 0 <= i < map.len() implies map[i] < spec_num_clusters(map) by {
            if i < map.len() - 1 {
                assert(map[i] == map.drop_last()[i]);
            }
        }
    }
}

/// Number of clusters a cluster map uses: its largest entry plus one.
pub fn num_clusters(map: &[u32]) -> (r: u64)
    ensures
        r == spec_num_clusters(map@),
{
    let mut n: u64 = 0;
    let mut i: usize = 0;
    while i < map.len()
        invariant
            i <= map@.len(),
            n == spec_num_clusters(map@.subrange(0, i as int)),
            n <= u32::MAX + 1,
        decreases map@.len() - i,
    {
        proof {
            let pre = map@.subrange(0, i as int + 1);
            assert(pre.drop_last() == map@.subrange(0, i as int));
            assert(pre.last() == map@[i as int]);
        }
        let c: u64 = map[i] as u64 + 1;
        if c > n {
            n = c;
        }
        i = i + 1;
    }
    proof {
        assert(map@.subrange(0, map@.len() as int) == map@);
    }
    n
}

/// A stream prelude as [`EntropyStream::read`] leaves it: one
/// configuration and one distribution per cluster, at least one cluster,
/// every context mapped below the cluster count, and an alphabet of
/// `2^15` symbols with prefix codes or `2^5..=2^8` with ANS.
pub open spec fn entropy_stream_wf<C>(e: EntropyStream<C>) -> bool {
    &&& e.configs@.len() == e.entropies@.len()
    &&& e.configs@.len() >= 1
    &&& forall|i: int| 0 <= i < e.cluster_map@.len() ==> (#[trigger] e.cluster_map@[i]) < e.configs@.len()
    &&& if e.use_prefix_code { e.log_alphabet_size == 15 } else { 5 <= e.log_alphabet_size <= 8 }
}

/// `c` is a configuration `read_config` may return, from some reader
/// state, for `log_alphabet_size` `n`.
pub open spec fn config_yield<RC: FnMut(&mut BitReader<'_>, u32) -> Result<HybridUintConfig, JxlError>>(
    read_config: RC, n: u32, c: HybridUintConfig,
) -> bool {
    exists|b: &mut BitReader<'_>| call_ensures(read_config, (b, n), Ok::<HybridUintConfig, JxlError>(c))
}

/// `m` is a cluster map `read_clustering` may return, from some reader
/// state, for `n` distributions.
pub open spec fn clustering_yield<RK: FnMut(&mut BitReader<'_>, usize) -> Result<Vec<u32>, JxlError>>(
    read_clustering: RK, n: usize, m: Seq<u32>,
) -> bool {
    exists|b: &mut BitReader<'_>, v: Vec<u32>| call_ensures(read_clustering, (b, n), Ok::<Vec<u32>, JxlError>(v)) && v@ == m
}

/// `c` is a distribution `read_prefix` may return, from some reader
/// state, for some symbol count in `[1, 2^15]`.
pub open spec fn prefix_dist_yield<C, RD: FnMut(&mut BitReader<'_>, u32) -> Result<C, JxlError>>(read_prefix: RD, c: C) -> bool {
    exists|count: u32| 1 <= count <= 0x8000 && #[trigger] dist_yield::<C, RD>(read_prefix, count, c)
}

/// `c` is a distribution `read` may return, from some reader state, for
/// argument `n`.
pub open spec fn dist_yield<C, RD: FnMut(&mut BitReader<'_>, u32) -> Result<C, JxlError>>(read: RD, n: u32, c: C) -> bool {
    exists|b: &mut BitReader<'_>| call_ensures(read, (b, n), Ok::<C, JxlError>(c))
}

/// `e` is an error `read_config`, `read_clustering`, `read_prefix` or
/// `read_ans` may return.
pub open spec fn reader_error<C, RC, RK, RP, RA>(rc: RC, rk: RK, rp: RP, ra: RA, e: JxlError) -> bool
    where
        RC: FnMut(&mut BitReader<'_>, u32) -> Result<HybridUintConfig, JxlError>,
        RK: FnMut(&mut BitReader<'_>, usize) -> Result<Vec<u32>, JxlError>,
        RP: FnMut(&mut BitReader<'_>, u32) -> Result<C, JxlError>,
        RA: FnMut(&mut BitReader<'_>, u32) -> Result<C, JxlError>,
{
    ||| exists|b: &mut BitReader<'_>, n: u32| call_ensures(rc, (b, n), Err::<HybridUintConfig, JxlError>(e))
    ||| exists|b: &mut BitReader<'_>, n: usize| call_ensures(rk, (b, n), Err::<Vec<u32>, JxlError>(e))
    ||| exists|b: &mut BitReader<'_>, n: u32| call_ensures(rp, (b, n), Err::<C, JxlError>(e))
    ||| exists|b: &mut BitReader<'_>, n: u32| call_ensures(ra, (b, n), Err::<C, JxlError>(e))
}

/// What the prelude reader itself rejects for `nd` distributions: none
/// at all; a cluster map `read_clustering` gives whose length is not
/// `nd` or that uses no cluster or more clusters than distributions; or,
/// in the reader's bytes `s`, a prefix-code symbol count whose exponent
/// exceeds 14 or whose value exceeds `2^15`.
pub open spec fn prelude_rejected<RK: FnMut(&mut BitReader<'_>, usize) -> Result<Vec<u32>, JxlError>>(
    rk: RK, nd: int, s: Seq<u8>,
) -> bool {
    ||| nd == 0
    ||| exists|m: Seq<u32>| #[trigger] clustering_yield::<RK>(rk, nd as usize, m)
        && (m.len() != nd || spec_num_clusters(m) == 0 || spec_num_clusters(m) > nd)
    ||| exists|p: int| 0 <= p && p + 4 <= total_bits(s) && #[trigger] bits_le(s, p, 4) > 14
    ||| exists|p: int, nb: nat| nb <= 14 && 0 <= p && p + nb <= total_bits(s)
        && 1 + pow2(nb) + #[trigger] bits_le(s, p, nb) > 0x8000
}

impl<C> EntropyStream<C> {
    /// Read the prelude of an entropy-coded stream with `num_dist`
    /// distributions (D.3): the LZ77 settings (one more distribution when
    /// LZ77 is on, whose lengths use `read_config(br, 8)`), the cluster map
    /// (`read_clustering(br, n)` for more than one distribution), the
    /// prefix-code flag and alphabet size, one `read_config(br,
    /// log_alphabet_size)` per cluster, then the distributions: with prefix
    /// codes each cluster's symbol count (`u(1)` ? `1 + 2^n + u(n)` with
    /// `n = u(4) <= 14` : 1, at most `2^15`) and `read_prefix(br, count)`,
    /// otherwise `read_ans(br, log_alphabet_size)`. The ANS state is not
    /// read here.
    pub fn read<RC, RK, RP, RA>(
        br: &mut BitReader<'_>,
        num_dist: usize,
        read_config: &mut RC,
        read_clustering: &mut RK,
        read_prefix: &mut RP,
        read_ans: &mut RA,
    ) -> (r: Result<Self, JxlError>)
        where
            RC: FnMut(&mut BitReader<'_>, u32) -> Result<HybridUintConfig, JxlError>,
            RK: FnMut(&mut BitReader<'_>, usize) -> Result<Vec<u32>, JxlError>,
            RP: FnMut(&mut BitReader<'_>, u32) -> Result<C, JxlError>,
            RA: FnMut(&mut BitReader<'_>, u32) -> Result<C, JxlError>,
        requires
            num_dist < usize::MAX,
            forall|b: &mut BitReader<'_>, n: u32| call_requires(*old(read_config), (b, n)),
            forall|b: &mut BitReader<'_>, n: usize| call_requires(*old(read_clustering), (b, n)),
            forall|b: &mut BitReader<'_>, n: u32| call_requires(*old(read_prefix), (b, n)),
            forall|b: &mut BitReader<'_>, n: u32| call_requires(*old(read_ans), (b, n)),
        ensures
            spec_lz77(old(br).bytes(), old(br).pos()) is None ==> r is Err,
            r matches Err(e) ==> e is Eof || reader_error::<C, RC, RK, RP, RA>(*old(read_config),
                *old(read_clustering), *old(read_prefix), *old(read_ans), e)
                || (e is InvalidData && match spec_lz77(old(br).bytes(), old(br).pos()) {
                    Some((lz, _)) => prelude_rejected::<RK>(*old(read_clustering),
                        num_dist + if lz.enabled { 1int } else { 0int }, final(br).bytes()),
                    None => false,
                }),
            r matches Ok(e) ==> {
                &&& entropy_stream_wf(e)
                &&& spec_lz77(old(br).bytes(), old(br).pos()) matches Some((lz, _)) && e.lz77 == lz
                &&& !e.lz77.enabled ==> e.lz_len_conf == default_lz_len_conf()
                &&& e.configs@.len() <= num_dist + (if e.lz77.enabled { 1int } else { 0int })
                &&& e.lz77.enabled ==> config_yield::<RC>(*old(read_config), 8, e.lz_len_conf)
                &&& ({
                    let nd = num_dist + if e.lz77.enabled { 1int } else { 0int };
                    &&& e.cluster_map@.len() == nd
                    &&& e.configs@.len() <= e.cluster_map@.len()
                    &&& nd > 1 ==> clustering_yield::<RK>(*old(read_clustering), nd as usize, e.cluster_map@)
                        && e.configs@.len() == spec_num_clusters(e.cluster_map@)
                    &&& nd <= 1 ==> e.cluster_map@ == seq![0u32] && e.configs@.len() == 1
                })
                &&& forall|k: int| 0 <= k < e.configs@.len() ==> #[trigger] config_yield::<RC>(*old(read_config),
                    e.log_alphabet_size, e.configs@[k])
                &&& e.use_prefix_code ==> forall|k: int| 0 <= k < e.entropies@.len() ==> #[trigger] prefix_dist_yield::<C, RP>(
                    *old(read_prefix), e.entropies@[k])
                &&& !e.use_prefix_code ==> forall|k: int| 0 <= k < e.entropies@.len() ==> #[trigger] dist_yield::<C, RA>(
                    *old(read_ans), e.log_alphabet_size, e.entropies@[k])
            },
    {
        let ghost rc0 = *read_config;
        let ghost rk0 = *read_clustering;
        let ghost rp0 = *read_prefix;
        let ghost ra0 = *read_ans;
        proof { use_type_invariant(&*br); }
        let ghost s0 = br.bytes();
        let ghost p0 = br.pos();
        let lz77_enabled = br.read_bool()?;
        let lz77 = if lz77_enabled {
            let d1 = [U32Dist::Val(224), U32Dist::Val(512), U32Dist::Val(4096), U32Dist::BitsOffset(15, 8)];
            let d2 = [U32Dist::Val(3), U32Dist::Val(4), U32Dist::BitsOffset(2, 5), U32Dist::BitsOffset(8, 9)];
            proof {
                vstd::arithmetic::power2::lemma2_to64();
                assert(d1 == lz_min_symbol_dists());
                assert(d2 == lz_min_length_dists());
                assert forall|i: int| 0 <= i < 4 implies dist_wf(#[trigger] d1@[i]) && dist_wf(#[trigger] d2@[i]) by {}
            }
            let min_symbol = br.read_u32(d1)?;
            let min_length = br.read_u32(d2)?;
            Lz77Params { enabled: true, min_symbol, min_length }
        } else {
            Lz77Params { enabled: false, min_symbol: 224, min_length: 3 }
        };
        proof {
            crate::bitreader::lemma_bits_le_bound(s0, p0, 1);
            vstd::arithmetic::power2::lemma2_to64();
            assert(spec_lz77(s0, p0) == Some((lz77, br.pos())));
        }
        let ghost plz = br.pos();
        let lz_len_conf = if lz77_enabled {
            let c = read_config(br, 8);
            proof { use_type_invariant(&*br); }
            let c = c?;
            proof { assert(config_yield::<RC>(rc0, 8, c)); }
            c
        } else {
            HybridUintConfig { split_exponent: 8, msb_in_token: 0, lsb_in_token: 0, split: 256 }
        };
        let effective_num_dist: usize = if lz77_enabled { num_dist + 1 } else { num_dist };
        let cluster_map: Vec<u32> = if effective_num_dist > 1 {
            let m = read_clustering(br, effective_num_dist);
            proof { use_type_invariant(&*br); }
            let m = m?;
            proof { assert(clustering_yield::<RK>(rk0, effective_num_dist, m@)); }
            if m.len() != effective_num_dist {
                proof {
                    assert(clustering_yield::<RK>(rk0, (effective_num_dist as int) as usize, m@));
                    assert(m@.len() != effective_num_dist as int);
                    assert(prelude_rejected::<RK>(rk0, effective_num_dist as int, br.bytes()));
                }
                return Err(invalid("entropy stream: cluster map of the wrong length"));
            }
            m
        } else {
            let mut m: Vec<u32> = Vec::new();
            let mut k: usize = 0;
            while k < effective_num_dist
                invariant
                    k <= effective_num_dist,
                    m@.len() == k,
                    forall|i: int| 0 <= i < k ==> m@[i] == 0,
                decreases effective_num_dist - k,
            {
                m.push(0);
                k = k + 1;
            }
            m
        };
        let n_clusters: u64 = if effective_num_dist > 1 { num_clusters(&cluster_map) } else { 1 };
        proof {
            if effective_num_dist == 1 {
                assert(cluster_map@ == seq![0u32]);
            }
        }
        proof {
            lemma_num_clusters_bound(cluster_map@);
        }
        if n_clusters == 0 || n_clusters > effective_num_dist as u64 {
            proof {
                if effective_num_dist > 1 {
                    assert(clustering_yield::<RK>(rk0, (effective_num_dist as int) as usize, cluster_map@));
                    assert(cluster_map@.len() == effective_num_dist as int);
                    assert(spec_num_clusters(cluster_map@) == 0 || spec_num_clusters(cluster_map@) > effective_num_dist as int);
                } else {
                    assert(effective_num_dist == 0);
                }
                assert(prelude_rejected::<RK>(rk0, effective_num_dist as int, br.bytes()));
            }
            return Err(invalid("entropy stream: invalid cluster count"));
        }
        proof {
            assert forall|i: int| 0 <= i < cluster_map@.len() implies (#[trigger] cluster_map@[i]) < n_clusters by {
                if effective_num_dist <= 1 {
                    assert(cluster_map@[i] == 0);
                }
            }
        }
        let n: usize = n_clusters as usize;
        let use_prefix_code = br.read_bool()?;
        let log_alphabet_size: u32 = if use_prefix_code {
            15
        } else {
            let b = br.read_bits(2)?;
            proof { vstd::arithmetic::power2::lemma2_to64(); }
            5 + b
        };
        let mut configs: Vec<HybridUintConfig> = Vec::new();
        let mut k: usize = 0;
        while k < n
            invariant
                rc0 == *old(read_config),
            rk0 == *old(read_clustering),
            rp0 == *old(read_prefix),
            ra0 == *old(read_ans),
            spec_lz77(s0, p0) == Some((lz77, plz)),
            s0 == old(br).bytes(),
                    p0 == old(br).pos(),
            effective_num_dist == num_dist + if lz77.enabled { 1int } else { 0int },
            br.wf(),
            k <= n,
                configs@.len() == k,
                forall|b: &mut BitReader<'_>, m: u32| call_requires(*read_config, (b, m)),
                *read_config == rc0,
                forall|j: int| 0 <= j < k ==> #[trigger] config_yield::<RC>(rc0, log_alphabet_size, configs@[j]),
            decreases n - k,
        {
            let c = read_config(br, log_alphabet_size);
            proof { use_type_invariant(&*br); }
            let c = c?;
            proof { assert(config_yield::<RC>(rc0, log_alphabet_size, c)); }
            configs.push(c);
            k = k + 1;
        }
        let mut entropies: Vec<C> = Vec::new();
        if use_prefix_code {
            let mut counts: Vec<u32> = Vec::new();
            let mut k: usize = 0;
            while k < n
                invariant
                    rc0 == *old(read_config),
                    rk0 == *old(read_clustering),
                    rp0 == *old(read_prefix),
                    ra0 == *old(read_ans),
                    spec_lz77(s0, p0) == Some((lz77, plz)),
                    s0 == old(br).bytes(),
                    p0 == old(br).pos(),
                    effective_num_dist == num_dist + if lz77.enabled { 1int } else { 0int },
                    br.wf(),
                    k <= n,
                    counts@.len() == k,
                    forall|j: int| 0 <= j < k ==> 1 <= #[trigger] counts@[j] <= 0x8000,
                decreases n - k,
            {
                proof { use_type_invariant(&*br); }
                let bit = br.read_bit()?;
                let count: u32 = if bit == 0 {
                    1
                } else {
                    proof { br.lemma_pos_bound(); }
                    let ghost pn = br.pos();
                    let nb = br.read_bits(4)?;
                    if nb > 14 {
                        proof {
                            assert(bits_le(br.bytes(), pn, 4) > 14);
                            assert(prelude_rejected::<RK>(rk0, effective_num_dist as int, br.bytes()));
                        }
                        return Err(invalid("entropy stream: prefix count exponent above 14"));
                    }
                    proof { use_type_invariant(&*br); br.lemma_pos_bound(); }
                    let ghost pe = br.pos();
                    let extra = br.read_bits(nb)?;
                    proof {
                        vstd::arithmetic::power2::lemma2_to64();
                        vstd::arithmetic::power2::lemma_pow2_strictly_increases(nb as nat, 15);
                        vstd::bits::lemma_u32_shl_is_mul(1, nb);
                    }
                    let c: u32 = 1 + (1u32 << nb) + extra;
                    if c > (1u32 << 15u32) {
                        proof {
                            vstd::bits::lemma_u32_shl_is_mul(1, 15);
                            assert(1 + pow2(nb as nat) + bits_le(br.bytes(), pe, nb as nat) > 0x8000);
                            assert(prelude_rejected::<RK>(rk0, effective_num_dist as int, br.bytes()));
                        }
                        return Err(invalid("entropy stream: prefix symbol count above 2^15"));
                    }
                    c
                };
                proof {
                    vstd::arithmetic::power2::lemma2_to64();
                    vstd::bits::lemma_u32_shl_is_mul(1, 15);
                }
                counts.push(count);
                k = k + 1;
            }
            let mut k: usize = 0;
            while k < n
                invariant
                    rc0 == *old(read_config),
                    rk0 == *old(read_clustering),
                    rp0 == *old(read_prefix),
                    ra0 == *old(read_ans),
                    spec_lz77(s0, p0) == Some((lz77, plz)),
                    s0 == old(br).bytes(),
                    p0 == old(br).pos(),
                    effective_num_dist == num_dist + if lz77.enabled { 1int } else { 0int },
                    br.wf(),
                    k <= n,
                    counts@.len() == n,
                    entropies@.len() == k,
                    forall|b: &mut BitReader<'_>, m: u32| call_requires(*read_prefix, (b, m)),
                    *read_prefix == rp0,
                    forall|j: int| 0 <= j < n ==> 1 <= #[trigger] counts@[j] <= 0x8000,
                    forall|j: int| 0 <= j < k ==> #[trigger] prefix_dist_yield::<C, RP>(rp0, entropies@[j]),
                decreases n - k,
            {
                let c = read_prefix(br, counts[k]);
                proof { use_type_invariant(&*br); }
                let c = c?;
                proof { assert(dist_yield::<C, RP>(rp0, counts@[k as int], c)); }
                let ghost prev = entropies@;
                entropies.push(c);
                proof {
                    assert(prefix_dist_yield::<C, RP>(rp0, c));
                    assert forall|j: int| 0 <= j < k + 1 implies #[trigger] prefix_dist_yield::<C, RP>(rp0, entropies@[j]) by {
                        if j < k {
                            assert(entropies@[j] == prev[j]);
                        } else {
                            assert(entropies@[j] == c);
                        }
                    }
                }
                k = k + 1;
            }
        } else {
            let mut k: usize = 0;
            while k < n
                invariant
                    rc0 == *old(read_config),
                    rk0 == *old(read_clustering),
                    rp0 == *old(read_prefix),
                    ra0 == *old(read_ans),
                    spec_lz77(s0, p0) == Some((lz77, plz)),
                    s0 == old(br).bytes(),
                    p0 == old(br).pos(),
                    effective_num_dist == num_dist + if lz77.enabled { 1int } else { 0int },
                    br.wf(),
                    k <= n,
                    entropies@.len() == k,
                    forall|b: &mut BitReader<'_>, m: u32| call_requires(*read_ans, (b, m)),
                    *read_ans == ra0,
                    forall|j: int| 0 <= j < k ==> #[trigger] dist_yield::<C, RA>(ra0, log_alphabet_size, entropies@[j]),
                decreases n - k,
            {
                let c = read_ans(br, log_alphabet_size);
                proof { use_type_invariant(&*br); }
                let c = c?;
                proof { assert(dist_yield::<C, RA>(ra0, log_alphabet_size, c)); }
                entropies.push(c);
                k = k + 1;
            }
        }
        let e = EntropyStream { use_prefix_code, log_alphabet_size, configs, entropies, lz77, lz_len_conf, cluster_map };
        proof {
            assert(rc0 == *old(read_config));
            assert(lz77.enabled ==> config_yield::<RC>(rc0, 8, e.lz_len_conf));
            assert(effective_num_dist > 1 ==> clustering_yield::<RK>(rk0, effective_num_dist, e.cluster_map@));
            assert(effective_num_dist > 1 ==> e.configs@.len() == spec_num_clusters(e.cluster_map@));
            assert(effective_num_dist <= 1 ==> e.cluster_map@ == seq![0u32] && e.configs@.len() == 1);
            assert(forall|k: int| 0 <= k < e.configs@.len() ==> #[trigger] config_yield::<RC>(rc0,
                e.log_alphabet_size, e.configs@[k]));
            assert(rp0 == *old(read_prefix));
            assert(ra0 == *old(read_ans));
            assert(rk0 == *old(read_clustering));
        }
        Ok(e)
    }

    /// Configuration of the cluster `ctx` maps to (cluster 0 for a
    /// context outside the map, the last cluster for an index past it).
    pub fn config_for_ctx(&self, ctx: u32) -> (r: HybridUintConfig)
        requires
            self.configs@.len() >= 1,
        ensures
            ({
                let c: int = if (ctx as int) < self.cluster_map@.len() { self.cluster_map@[ctx as int] as int } else { 0 };
                let last: int = self.configs@.len() - 1;
                r == self.configs@[if c < last { c } else { last }]
            }),
    {
        let cluster: usize = if (ctx as usize) < self.cluster_map.len() { self.cluster_map[ctx as usize] as usize } else { 0 };
        let last = self.configs.len() - 1;
        let i = if cluster < last { cluster } else { last };
        self.configs[i]
    }
}
} // verus!
