//! Single-channel Modular decoding (C.9.3, D.7.2):
//! channel storage, the channel header, the property vector and its
//! ranges, and the per-pixel decode loop.
//!
//! The adaptive binary range coder (ABRAC/BEGABRAC) that produces the MA
//! tree and the residuals is not part of this library: the pixel loop
//! takes the residual decoder as a function of the leaf and the residual
//! range, and the single-channel entry point decodes constant channels.
use vstd::prelude::*;
use crate::bitreader::{BitReader, spec_varint, total_bits};
use crate::error::{JxlError, invalid, unsupported};
use crate::matree::{MaTree, Node, PropRange, nodes_wf, spec_walk, bit_length, spec_bit_length, lemma_bit_length_le};
use crate::predictors::{
    Predictor, ch_zero, median3, fits_i32, spec_ch_zero, spec_median3, spec_from_id, spec_predict,
    predict_defined, spec_min, spec_max, law_ch_zero_in_range,
};

verus! {

/// Hard upper bound on a channel's width or height.
pub const MAX_CHANNEL_DIM: u32 = 32768;

/// Hard upper bound on the number of samples of one channel.
pub const MAX_CHANNEL_PIXELS: usize = 268435456;

/// A single Modular channel: a row-major plane of integer samples.
#[derive(Debug, Clone)]
pub struct Channel {
    pub width: u32,
    pub height: u32,
    /// Horizontal subsampling shift; `-1` means "not related to the image
    /// dimensions".
    pub hshift: i32,
    pub vshift: i32,
    /// Smallest sample value signalled for this channel.
    pub min: i32,
    /// Largest sample value signalled for this channel.
    pub max: i32,
    /// Samples, `width * height` of them, row-major.
    pub data: Vec<i32>,
}

/// The sample buffer has exactly one sample per pixel.
pub open spec fn shape_ok(c: Channel) -> bool {
    c.data@.len() == c.width * c.height
}

/// Row-major index of pixel `(x, y)` in a plane of width `w`.
pub open spec fn pixel_index(w: int, x: int, y: int) -> int {
    y * w + x
}

/// Sample at `(x, y)`.
pub open spec fn sample(c: Channel, x: int, y: int) -> int {
    c.data@[pixel_index(c.width as int, x, y)] as int
}

/// In-bounds pixels have in-bounds indices.
pub proof fn lemma_index_bounds(w: int, h: int, x: int, y: int)
    requires
        0 <= x < w,
        0 <= y < h,
    ensures
        0 <= pixel_index(w, x, y) < w * h,
        pixel_index(w, x, y) + 1 <= w * h,
{
    assert(y * w + x < w * h) by (nonlinear_arith)
        requires
            0 <= x < w,
            0 <= y < h,
    ;
    assert(0 <= y * w) by (nonlinear_arith)
        requires
            0 <= y,
            0 <= w,
    ;
}

/// The dimensions `try_new` accepts.
pub open spec fn dims_acceptable(width: u32, height: u32) -> bool {
    &&& width != 0
    &&& height != 0
    &&& width <= MAX_CHANNEL_DIM
    &&& height <= MAX_CHANNEL_DIM
    &&& width * height <= MAX_CHANNEL_PIXELS
}

impl Channel {
    /// Allocate a zeroed channel; dimensions must be acceptable (see
    /// [`Self::try_new`]).
    pub fn new(width: u32, height: u32) -> (r: Self)
        requires
            dims_acceptable(width, height),
        ensures
            r.width == width,
            r.height == height,
            r.hshift == 0 && r.vshift == 0 && r.min == 0 && r.max == 0,
            r.data@ == Seq::new((width * height) as nat, |i: int| 0i32),
    {
        match Self::try_new(width, height) {
            Ok(c) => c,
            Err(_) => {
                proof {
                    assert(false);
                }
                Channel { width, height, hshift: 0, vshift: 0, min: 0, max: 0, data: Vec::new() }
            },
        }
    }

    /// Allocate a zeroed channel, refusing zero dimensions, a side above
    /// [`MAX_CHANNEL_DIM`] or more than [`MAX_CHANNEL_PIXELS`] samples.
    pub fn try_new(width: u32, height: u32) -> (r: Result<Self, JxlError>)
        ensures
            r is Ok <==> dims_acceptable(width, height),
            r is Err ==> r->Err_0 is InvalidData,
            r is Ok ==> {
                let c = r->Ok_0;
                &&& c.width == width && c.height == height
                &&& c.hshift == 0 && c.vshift == 0 && c.min == 0 && c.max == 0
                &&& c.data@ == Seq::new((width * height) as nat, |i: int| 0i32)
            },
    {
        if width == 0 || height == 0 {
            return Err(invalid("Modular channel: zero-dimensional channel"));
        }
        if width > MAX_CHANNEL_DIM || height > MAX_CHANNEL_DIM {
            return Err(invalid("Modular channel: dimensions exceed the per-side cap"));
        }
        assert((width as int) * (height as int) <= 32768 * 32768) by (nonlinear_arith)
            requires
                width <= 32768,
                height <= 32768,
        ;
        let pixels: usize = (width as usize) * (height as usize);
        if pixels > MAX_CHANNEL_PIXELS {
            return Err(invalid("Modular channel: pixels exceed the per-channel cap"));
        }
        let mut data: Vec<i32> = Vec::new();
        let mut i: usize = 0;
        while i < pixels
            invariant
                i <= pixels,
                data@ == Seq::new(i as nat, |k: int| 0i32),
            decreases pixels - i,
        {
            data.push(0);
            i = i + 1;
        }
        Ok(Channel { width, height, hshift: 0, vshift: 0, min: 0, max: 0, data })
    }

    /// Sample at `(x, y)`.
    pub fn get(&self, x: u32, y: u32) -> (r: i32)
        requires
            shape_ok(*self),
            x < self.width,
            y < self.height,
        ensures
            r == sample(*self, x as int, y as int),
    {
        let n = self.data.len();
        proof {
            lemma_index_bounds(self.width as int, self.height as int, x as int, y as int);
            assert((y as int) * (self.width as int) <= (y as int) * (self.width as int) + (x as int));
        }
        self.data[(y as usize) * (self.width as usize) + (x as usize)]
    }

    /// Overwrite the sample at `(x, y)`.
    pub fn set(&mut self, x: u32, y: u32, v: i32)
        requires
            shape_ok(*old(self)),
            x < old(self).width,
            y < old(self).height,
        ensures
            final(self).width == old(self).width,
            final(self).height == old(self).height,
            final(self).hshift == old(self).hshift,
            final(self).vshift == old(self).vshift,
            final(self).min == old(self).min,
            final(self).max == old(self).max,
            final(self).data@ == old(self).data@.update(
                pixel_index(old(self).width as int, x as int, y as int),
                v,
            ),
    {
        let n = self.data.len();
        proof {
            lemma_index_bounds(self.width as int, self.height as int, x as int, y as int);
        }
        let idx = (y as usize) * (self.width as usize) + (x as usize);
        self.data.set(idx, v);
    }
}

/// A sample written with `set` is what `get` reads back at that pixel;
/// every other pixel keeps its sample.
pub proof fn law_set_then_get(c: Channel, x: int, y: int, v: i32, x2: int, y2: int)
    requires
        shape_ok(c),
        0 <= x < c.width && 0 <= y < c.height,
        0 <= x2 < c.width && 0 <= y2 < c.height,
    ensures
        ({
            let d = c.data@.update(pixel_index(c.width as int, x, y), v);
            let s2 = d[pixel_index(c.width as int, x2, y2)] as int;
            &&& (x2 == x && y2 == y) ==> s2 == v
            &&& !(x2 == x && y2 == y) ==> s2 == sample(c, x2, y2)
        }),
{
    lemma_index_bounds(c.width as int, c.height as int, x, y);
    lemma_index_bounds(c.width as int, c.height as int, x2, y2);
    if !(x2 == x && y2 == y) {
        if y2 == y {
        } else if y2 < y {
            assert(y2 * c.width + x2 < y * c.width + x) by (nonlinear_arith)
                requires
                    y2 < y,
                    0 <= x2 < c.width,
                    0 <= x,
            ;
        } else {
            assert(y * c.width + x < y2 * c.width + x2) by (nonlinear_arith)
                requires
                    y < y2,
                    0 <= x < c.width,
                    0 <= x2,
            ;
        }
    }
}

/// Per-channel header decoded just before the MA tree.
#[derive(Debug, Clone, Copy)]
pub struct ChannelHeader {
    pub predictor: Predictor,
    pub entropy_coder: u32,
    pub min: i32,
    pub max: i32,
    /// `min == max`: the channel is a constant and no tree or pixel
    /// stream follows.
    pub constant: bool,
}

/// `min` as encoded after the predictor pack: `Varint() = 1 - min` when
/// non-zero, otherwise a second `Varint() = min - 1` follows.
pub open spec fn spec_header_min(s: Seq<u8>, p2: int, v0: int) -> Option<(int, int)> {
    if v0 == 0 {
        match spec_varint(s, p2) {
            None => None,
            Some((m1, p3)) => Some((m1 + 1, p3)),
        }
    } else {
        Some((1 - v0, p2))
    }
}

/// The channel header (C.9.3) read at bit `pos`: the packed
/// `predictor << 2 | entropy_coder`, the minimum and the span, each a
/// `Varint()`. `None` when a field is missing, the predictor id is
/// unknown or the range leaves `i32`.
pub open spec fn spec_channel_header(s: Seq<u8>, pos: int) -> Option<(ChannelHeader, int)> {
    match spec_varint(s, pos) {
        None => None,
        Some((pack, p1)) => {
            let pack32 = pack as u32;
            match spec_from_id(pack32 >> 2u32) {
                None => None,
                Some(predictor) => match spec_varint(s, p1) {
                    None => None,
                    Some((v0, p2)) => match spec_header_min(s, p2, v0) {
                        None => None,
                        Some((minv, p3)) => match spec_varint(s, p3) {
                            None => None,
                            Some((span, p4)) => {
                                let maxv = minv + span;
                                if minv < i32::MIN || maxv > i32::MAX {
                                    None
                                } else {
                                    Some(
                                        (
                                            ChannelHeader {
                                                predictor,
                                                entropy_coder: pack32 & 3u32,
                                                min: minv as i32,
                                                max: maxv as i32,
                                                constant: minv == maxv,
                                            },
                                            p4,
                                        ),
                                    )
                                }
                            },
                        },
                    },
                },
            }
        },
    }
}

/// A channel header whose fields all read but which the format rejects:
/// an unknown predictor id, or a minimum or maximum outside `i32`.
pub open spec fn channel_header_rejected(s: Seq<u8>, pos: int) -> bool {
    match spec_varint(s, pos) {
        None => false,
        Some((pack, p1)) => match spec_from_id((pack as u32) >> 2u32) {
            None => true,
            Some(_) => match spec_varint(s, p1) {
                None => false,
                Some((v0, p2)) => match spec_header_min(s, p2, v0) {
                    None => false,
                    Some((minv, p3)) => match spec_varint(s, p3) {
                        None => false,
                        Some((span, _)) => minv < i32::MIN || minv + span > i32::MAX,
                    },
                },
            },
        },
    }
}

/// Decode a channel header (C.9.3) from a byte-aligned bit reader.
pub fn decode_channel_header(br: &mut BitReader<'_>) -> (r: Result<ChannelHeader, JxlError>)
    requires
        old(br).wf(),
    ensures
        final(br).wf(),
        final(br).bytes() == old(br).bytes(),
        r is Ok <==> spec_channel_header(old(br).bytes(), old(br).pos()) is Some,
        r is Ok ==> r->Ok_0 == spec_channel_header(old(br).bytes(), old(br).pos()).unwrap().0
            && final(br).pos() == spec_channel_header(old(br).bytes(), old(br).pos()).unwrap().1,
        channel_header_rejected(old(br).bytes(), old(br).pos()) ==> (r matches Err(e) && e is InvalidData),
{
    let ghost s = br.bytes();
    let ghost p0 = br.pos();
    let pack64 = br.read_varint()?;
    let pack = pack64 as u32;
    let predictor_id = pack >> 2;
    let entropy_coder = pack & 3;
    let predictor = match Predictor::from_id(predictor_id) {
        Some(p) => p,
        None => {
            return Err(invalid("Modular: unknown predictor id in channel header"));
        },
    };
    let v0 = br.read_varint()?;
    let min: i128 = if v0 == 0 {
        let m1 = br.read_varint()?;
        (m1 as i128) + 1
    } else {
        1 - (v0 as i128)
    };
    let span = br.read_varint()?;
    let max: i128 = min + (span as i128);
    if min < (i32::MIN as i128) || max > (i32::MAX as i128) {
        return Err(invalid("Modular: channel min/max out of i32 range"));
    }
    let min32 = min as i32;
    let max32 = max as i32;
    Ok(ChannelHeader { predictor, entropy_coder, min: min32, max: max32, constant: min32 == max32 })
}


/// Absolute value over the integers.
pub open spec fn spec_abs(v: int) -> int {
    if v < 0 { -v } else { v }
}

/// Absolute value of an `i32` other than `i32::MIN`.
fn abs_i32(v: i32) -> (r: i32)
    requires
        v != i32::MIN,
    ensures
        r == spec_abs(v as int),
{
    if v < 0 { -v } else { v }
}

/// Prior channels that contribute no properties: constant, empty or
/// unrelated to the image dimensions.
pub open spec fn prior_skipped(p: Channel) -> bool {
    p.min == p.max || p.width == 0 || p.height == 0 || p.hshift < 0
}

/// Shift amount used for a (possibly negative) subsampling shift.
pub open spec fn shift_amt(s: i32) -> u32 {
    if s < 0 { 0 } else { s as u32 }
}

/// Clamp a coordinate to the last row or column.
pub open spec fn clamp_dim(v: u32, dim: u32) -> u32 {
    if v >= dim { (dim - 1) as u32 } else { v }
}

/// Coordinates in prior channel `prev` that correspond to `(x, y)` of
/// `ch`: `(v << shift(ch)) >> shift(prev)`, clamped to the channel.
pub open spec fn prior_coords(ch: Channel, x: u32, y: u32, prev: Channel) -> (u32, u32) {
    let ry = (y << shift_amt(ch.vshift)) >> shift_amt(prev.vshift);
    let rx = (x << shift_amt(ch.hshift)) >> shift_amt(prev.hshift);
    (clamp_dim(rx, prev.width), clamp_dim(ry, prev.height))
}

/// `(value, left, top, topleft)` of a prior channel around `(rx, ry)`
/// with its border rules (left falls back to `ch_zero`, top and topleft
/// to left).
pub open spec fn prior_nbrs(prev: Channel, rx: int, ry: int) -> (int, int, int, int) {
    let pz = spec_ch_zero(prev.min as int, prev.max as int);
    let rv = sample(prev, rx, ry);
    let rleft = if rx > 0 { sample(prev, rx - 1, ry) } else { pz };
    let rtop = if ry > 0 { sample(prev, rx, ry - 1) } else { rleft };
    let rtopleft = if rx > 0 && ry > 0 { sample(prev, rx - 1, ry - 1) } else { rleft };
    (rv, rleft, rtop, rtopleft)
}

/// The four properties one prior channel contributes:
/// `|rv|, rv, |rv - rp|, rv - rp` with `rp` its gradient prediction.
pub open spec fn prior_props(ch: Channel, x: u32, y: u32, prev: Channel) -> Seq<i32> {
    let (rx, ry) = prior_coords(ch, x, y, prev);
    let (rv, rleft, rtop, rtopleft) = prior_nbrs(prev, rx as int, ry as int);
    let rp = spec_median3(rleft + rtop - rtopleft, rleft, rtop);
    seq![spec_abs(rv) as i32, rv as i32, spec_abs(rv - rp) as i32, (rv - rp) as i32]
}

/// The four properties a contributing prior channel adds at a sample are
/// its co-located sample `rv`, the residual of that sample against the
/// prior channel's own Gradient prediction (from its left, top and
/// top-left neighbours), and their magnitudes: `[|rv|, rv, |rv - rp|,
/// rv - rp]`, so the residual plus the prediction gives the sample back.
pub proof fn law_prior_props_are_gradient_residuals(ch: Channel, x: u32, y: u32, prev: Channel)
    requires
        prior_props_defined(ch, x, y, prev),
    ensures
        ({
            let p = prior_props(ch, x, y, prev);
            let (rx, ry) = prior_coords(ch, x, y, prev);
            let (rv, rleft, rtop, rtopleft) = prior_nbrs(prev, rx as int, ry as int);
            let rp = spec_predict(Predictor::Gradient, rleft, rtop, rtopleft, 0);
            &&& p.len() == 4
            &&& p[1] == rv
            &&& p[3] + rp == p[1]
            &&& p[0] == spec_abs(p[1] as int)
            &&& p[2] == spec_abs(p[3] as int)
        }),
{
}

/// The prior channel's properties are computed without a shift or an
/// `i32` overflow and inside its sample buffer.
pub open spec fn prior_props_defined(ch: Channel, x: u32, y: u32, prev: Channel) -> bool {
    let (rx, ry) = prior_coords(ch, x, y, prev);
    let (rv, rleft, rtop, rtopleft) = prior_nbrs(prev, rx as int, ry as int);
    let rp = spec_median3(rleft + rtop - rtopleft, rleft, rtop);
    &&& shift_amt(ch.vshift) < 32 && shift_amt(ch.hshift) < 32
    &&& shift_amt(prev.vshift) < 32 && shift_amt(prev.hshift) < 32
    &&& shape_ok(prev)
    &&& rv != i32::MIN
    &&& fits_i32(rleft + rtop) && fits_i32(rleft + rtop - rtopleft)
    &&& fits_i32(rv - rp) && rv - rp != i32::MIN
}

/// Properties contributed by the prior channels, scanned from the last
/// one backwards (`i` of them remain), until `budget` channels have
/// contributed.
pub open spec fn spec_extras(ch: Channel, x: u32, y: u32, prior: Seq<&Channel>, i: int, budget: int) -> Seq<i32>
    decreases i,
{
    if i <= 0 || budget <= 0 {
        Seq::empty()
    } else if prior_skipped(*prior[i - 1]) {
        spec_extras(ch, x, y, prior, i - 1, budget)
    } else {
        prior_props(ch, x, y, *prior[i - 1]) + spec_extras(ch, x, y, prior, i - 1, budget - 1)
    }
}

/// Every contributing prior channel's properties are defined.
pub open spec fn spec_extras_defined(ch: Channel, x: u32, y: u32, prior: Seq<&Channel>, i: int, budget: int) -> bool
    decreases i,
{
    if i <= 0 || budget <= 0 {
        true
    } else if prior_skipped(*prior[i - 1]) {
        spec_extras_defined(ch, x, y, prior, i - 1, budget)
    } else {
        prior_props_defined(ch, x, y, *prior[i - 1]) && spec_extras_defined(ch, x, y, prior, i - 1, budget - 1)
    }
}

/// Neighbours `(top, left, topleft, topright, leftleft, toptop)` of
/// `(x, y)` with the border rules of D.7.2.
pub open spec fn base_nbrs(ch: Channel, x: int, y: int) -> (int, int, int, int, int, int) {
    let cz = spec_ch_zero(ch.min as int, ch.max as int);
    let top = if y > 0 { sample(ch, x, y - 1) } else { cz };
    let left = if x > 0 { sample(ch, x - 1, y) } else { cz };
    let topleft = if x > 0 && y > 0 { sample(ch, x - 1, y - 1) } else { left };
    let topright = if y > 0 && x + 1 < ch.width { sample(ch, x + 1, y - 1) } else { top };
    let leftleft = if x > 1 { sample(ch, x - 2, y) } else { left };
    let toptop = if y > 1 { sample(ch, x, y - 2) } else { top };
    (top, left, topleft, topright, leftleft, toptop)
}

/// The twelve always-present properties of `(x, y)`.
pub open spec fn base_props(ch: Channel, x: u32, y: u32) -> Seq<i32> {
    let (top, left, topleft, topright, leftleft, toptop) = base_nbrs(ch, x as int, y as int);
    seq![
        spec_abs(top) as i32,
        spec_abs(left) as i32,
        top as i32,
        left as i32,
        y as i32,
        x as i32,
        (left + top - topleft) as i32,
        (topleft + topright - top) as i32,
        (left - topleft) as i32,
        (topleft - top) as i32,
        (top - toptop) as i32,
        (left - leftleft) as i32
    ]
}

/// The always-present properties are computed in bounds and without an
/// `i32` overflow.
pub open spec fn base_props_defined(ch: Channel, x: u32, y: u32) -> bool {
    let (top, left, topleft, topright, leftleft, toptop) = base_nbrs(ch, x as int, y as int);
    &&& shape_ok(ch) && x < ch.width && y < ch.height
    &&& top != i32::MIN && left != i32::MIN
    &&& fits_i32(left + top) && fits_i32(left + top - topleft)
    &&& fits_i32(topleft + topright) && fits_i32(topleft + topright - top)
    &&& fits_i32(left - topleft) && fits_i32(topleft - top)
    &&& fits_i32(top - toptop) && fits_i32(left - leftleft)
}

/// Every always-present property the MA tree can test at a sample lies
/// in the range [`property_ranges`] seeds for it: for a channel whose
/// samples lie in `[min, max]` (magnitudes at most `2^29`), each of the
/// twelve properties of any sample is within its base range.
#[verifier::spinoff_prover]
pub proof fn law_properties_in_seeded_ranges(ch: Channel, x: u32, y: u32)
    requires
        ch.min <= ch.max,
        -0x2000_0000 <= ch.min,
        ch.max <= 0x2000_0000,
        ch.width <= 0x7fff_ffff,
        ch.height <= 0x7fff_ffff,
        shape_ok(ch),
        x < ch.width,
        y < ch.height,
        prefix_in_range(ch, ch.data@.len() as int),
    ensures
        base_props(ch, x, y).len() == 12,
        forall|i: int| 0 <= i < 12 ==> base_ranges(ch.min, ch.max, ch.width, ch.height)[i].min <= #[trigger] base_props(
            ch, x, y)[i] <= base_ranges(ch.min, ch.max, ch.width, ch.height)[i].max,
{
    let w = ch.width as int;
    let h = ch.height as int;
    lemma_earlier(w, h, x as int, y as int);
    crate::predictors::law_ch_zero_in_range(ch.min as int, ch.max as int);
    let (top, left, topleft, topright, leftleft, toptop) = base_nbrs(ch, x as int, y as int);
    if y > 0 {
        assert(ch.min <= ch.data@[pixel_index(w, x as int, y - 1)] <= ch.max);
    }
    if x > 0 {
        assert(ch.min <= ch.data@[pixel_index(w, x - 1, y as int)] <= ch.max);
    }
    if x > 0 && y > 0 {
        assert(ch.min <= ch.data@[pixel_index(w, x - 1, y - 1)] <= ch.max);
    }
    if y > 0 && x + 1 < w {
        assert(ch.min <= ch.data@[pixel_index(w, x + 1, y - 1)] <= ch.max);
    }
    if x > 1 {
        assert(ch.min <= ch.data@[pixel_index(w, x - 2, y as int)] <= ch.max);
    }
    if y > 1 {
        assert(ch.min <= ch.data@[pixel_index(w, x as int, y - 2)] <= ch.max);
    }
    assert(ch.min <= top <= ch.max && ch.min <= left <= ch.max && ch.min <= topleft <= ch.max);
    assert(ch.min <= topright <= ch.max && ch.min <= leftleft <= ch.max && ch.min <= toptop <= ch.max);
    let r = base_ranges(ch.min, ch.max, ch.width, ch.height);
    let p = base_props(ch, x, y);
    let am = spec_max(spec_abs(ch.min as int), spec_abs(ch.max as int));
    assert(spec_abs(top) <= am && spec_abs(left) <= am);
    assert(r[0] == PropRange { min: 0, max: am as i32 });
    assert(p[0] == spec_abs(top) as i32);
    assert(p[1] == spec_abs(left) as i32);
    assert(r[0].min <= p[0] <= r[0].max);
    assert(r[1].min <= p[1] <= r[1].max);
    assert(r[2].min <= p[2] <= r[2].max);
    assert(r[3].min <= p[3] <= r[3].max);
    assert(r[4].min <= p[4] <= r[4].max);
    assert(r[5].min <= p[5] <= r[5].max);
    assert(r[6].min <= p[6] <= r[6].max);
    assert(r[7].min <= p[7] <= r[7].max);
    assert(r[8].min <= p[8] <= r[8].max);
    assert(r[9].min <= p[9] <= r[9].max);
    assert(r[10].min <= p[10] <= r[10].max);
    assert(r[11].min <= p[11] <= r[11].max);
}

/// Append the four properties of a contributing prior channel.
fn push_prior_props(extras: &mut Vec<i32>, channel: &Channel, x: u32, y: u32, prev: &Channel)
    requires
        !prior_skipped(*prev),
        prior_props_defined(*channel, x, y, *prev),
    ensures
        final(extras)@ == old(extras)@ + prior_props(*channel, x, y, *prev),
{
    let cur_h: u32 = if channel.hshift < 0 { 0 } else { channel.hshift as u32 };
    let cur_v: u32 = if channel.vshift < 0 { 0 } else { channel.vshift as u32 };
    let prev_h: u32 = if prev.hshift < 0 { 0 } else { prev.hshift as u32 };
    let prev_v: u32 = if prev.vshift < 0 { 0 } else { prev.vshift as u32 };
    let mut ry = (y << cur_v) >> prev_v;
    let mut rx = (x << cur_h) >> prev_h;
    if ry >= prev.height {
        ry = prev.height - 1;
    }
    if rx >= prev.width {
        rx = prev.width - 1;
    }
    let pz = ch_zero(prev.min, prev.max);
    let rv = prev.get(rx, ry);
    let rleft = if rx > 0 { prev.get(rx - 1, ry) } else { pz };
    let rtop = if ry > 0 { prev.get(rx, ry - 1) } else { rleft };
    let rtopleft = if rx > 0 && ry > 0 { prev.get(rx - 1, ry - 1) } else { rleft };
    let rp = median3(rleft + rtop - rtopleft, rleft, rtop);
    let ghost before = extras@;
    extras.push(abs_i32(rv));
    extras.push(rv);
    extras.push(abs_i32(rv - rp));
    extras.push(rv - rp);
    proof {
        assert(extras@ == before + prior_props(*channel, x, y, *prev));
    }
}

/// Append the twelve always-present properties of `(x, y)`.
fn push_base_props(props: &mut Vec<i32>, channel: &Channel, x: u32, y: u32)
    requires
        base_props_defined(*channel, x, y),
    ensures
        final(props)@ == old(props)@ + base_props(*channel, x, y),
{
    let cz = ch_zero(channel.min, channel.max);
    let top = if y > 0 { channel.get(x, y - 1) } else { cz };
    let left = if x > 0 { channel.get(x - 1, y) } else { cz };
    let topleft = if x > 0 && y > 0 { channel.get(x - 1, y - 1) } else { left };
    let topright = if y > 0 && x + 1 < channel.width { channel.get(x + 1, y - 1) } else { top };
    let leftleft = if x > 1 { channel.get(x - 2, y) } else { left };
    let toptop = if y > 1 { channel.get(x, y - 2) } else { top };
    let ghost ex = props@;
    props.push(abs_i32(top));
    props.push(abs_i32(left));
    props.push(top);
    props.push(left);
    props.push(y as i32);
    props.push(x as i32);
    props.push(left + top - topleft);
    props.push(topleft + topright - top);
    props.push(left - topleft);
    props.push(topleft - top);
    props.push(top - toptop);
    props.push(left - leftleft);
    proof {
        assert(props@ == ex + base_props(*channel, x, y));
    }
}

/// Property vector of one pixel.
pub type PropertyVec = Vec<i32>;

/// Compute the property vector for sample `(x, y)` of `channel` (D.7.2):
/// four properties per contributing prior channel (the most recent
/// first, at most `max_extra_properties` of them), then the twelve
/// always-present ones.
pub fn compute_properties(
    channel: &Channel,
    x: u32,
    y: u32,
    prior: &[&Channel],
    max_extra_properties: usize,
) -> (r: PropertyVec)
    requires
        base_props_defined(*channel, x, y),
        spec_extras_defined(*channel, x, y, prior@, prior@.len() as int, max_extra_properties as int),
        max_extra_properties <= usize::MAX / 4,
    ensures
        r@ == spec_extras(*channel, x, y, prior@, prior@.len() as int, max_extra_properties as int)
            + base_props(*channel, x, y),
{
    let mut extras: Vec<i32> = Vec::new();
    let cap: usize = 4 * max_extra_properties;
    let mut i: usize = prior.len();
    let mut used: usize = 0;
    let ghost all = spec_extras(*channel, x, y, prior@, prior@.len() as int, max_extra_properties as int);
    while i > 0
        invariant
            i <= prior@.len(),
            used <= max_extra_properties,
            cap == 4 * max_extra_properties,
            extras@.len() == 4 * used,
            extras@ + spec_extras(*channel, x, y, prior@, i as int, max_extra_properties - used) == all,
            spec_extras_defined(*channel, x, y, prior@, i as int, max_extra_properties - used),
            all == spec_extras(*channel, x, y, prior@, prior@.len() as int, max_extra_properties as int),
        ensures
            extras@ == all,
        decreases i,
    {
        if extras.len() >= cap {
            proof {
                assert(extras@ + Seq::<i32>::empty() == extras@);
            }
            break;
        }
        proof {
            if i == 1 {
                assert(extras@ + Seq::<i32>::empty() == extras@);
            }
        }
        let prev: &Channel = prior[i - 1];
        if prev.min == prev.max || prev.width == 0 || prev.height == 0 || prev.hshift < 0 {
            i = i - 1;
            continue;
        }
        let ghost before = extras@;
        push_prior_props(&mut extras, channel, x, y, prev);
        proof {
            let four = prior_props(*channel, x, y, *prior@[i - 1]);
            let rest = spec_extras(*channel, x, y, prior@, i - 1, max_extra_properties - used - 1);
            assert(before + (four + rest) == (before + four) + rest);
        }
        used = used + 1;
        i = i - 1;
    }
    let mut props: PropertyVec = extras;
    push_base_props(&mut props, channel, x, y);
    props
}


/// The four ranges a contributing prior channel adds: `|v|`, `v`, the
/// magnitude of the gradient error and the gradient error.
pub open spec fn prior_ranges(p: Channel) -> Seq<PropRange> {
    let abs_max = spec_max(spec_abs(p.min as int), spec_abs(p.max as int));
    let span = (p.max - p.min) as i32;
    seq![
        PropRange { min: 0, max: abs_max as i32 },
        PropRange { min: p.min, max: p.max },
        PropRange { min: 0, max: span },
        PropRange { min: (-span) as i32, max: span }
    ]
}

/// The prior channel's ranges are computed without an `i32` overflow.
pub open spec fn prior_ranges_defined(p: Channel) -> bool {
    p.min != i32::MIN && p.max != i32::MIN && (p.max - p.min) as i32 != i32::MIN
}

/// Ranges contributed by the prior channels, scanned from the last one
/// backwards (`i` of them remain), until `budget` have contributed.
pub open spec fn spec_prior_ranges(prior: Seq<&Channel>, i: int, budget: int) -> Seq<PropRange>
    decreases i,
{
    if i <= 0 || budget <= 0 {
        Seq::empty()
    } else if prior_skipped(*prior[i - 1]) {
        spec_prior_ranges(prior, i - 1, budget)
    } else {
        prior_ranges(*prior[i - 1]) + spec_prior_ranges(prior, i - 1, budget - 1)
    }
}

/// Every contributing prior channel's ranges are defined.
pub open spec fn spec_prior_ranges_defined(prior: Seq<&Channel>, i: int, budget: int) -> bool
    decreases i,
{
    if i <= 0 || budget <= 0 {
        true
    } else if prior_skipped(*prior[i - 1]) {
        spec_prior_ranges_defined(prior, i - 1, budget)
    } else {
        prior_ranges_defined(*prior[i - 1]) && spec_prior_ranges_defined(prior, i - 1, budget - 1)
    }
}

/// Range `[0, dim - 1]` of a coordinate (`[0, 0]` for an empty axis).
pub open spec fn coord_range(dim: u32) -> PropRange {
    if dim == 0 {
        PropRange { min: 0, max: 0 }
    } else {
        PropRange { min: 0, max: ((dim as i32) - 1) as i32 }
    }
}

/// The twelve always-present ranges (D.7.2 table).
pub open spec fn base_ranges(cmin: i32, cmax: i32, width: u32, height: u32) -> Seq<PropRange> {
    let abs_max = spec_max(spec_abs(cmin as int), spec_abs(cmax as int)) as i32;
    let lo = (2 * cmin - cmax) as i32;
    let hi = (2 * cmax - cmin) as i32;
    let span = (cmax - cmin) as i32;
    let neg = (-span) as i32;
    seq![
        PropRange { min: 0, max: abs_max },
        PropRange { min: 0, max: abs_max },
        PropRange { min: cmin, max: cmax },
        PropRange { min: cmin, max: cmax },
        coord_range(height),
        coord_range(width),
        PropRange { min: lo, max: hi },
        PropRange { min: lo, max: hi },
        PropRange { min: neg, max: span },
        PropRange { min: neg, max: span },
        PropRange { min: neg, max: span },
        PropRange { min: neg, max: span }
    ]
}

/// The always-present ranges are computed without an `i32` overflow.
pub open spec fn base_ranges_defined(cmin: i32, cmax: i32, width: u32, height: u32) -> bool {
    &&& cmin != i32::MIN && cmax != i32::MIN
    &&& fits_i32(2 * cmin) && fits_i32(2 * cmin - cmax)
    &&& fits_i32(2 * cmax) && fits_i32(2 * cmax - cmin)
    &&& fits_i32(cmax - cmin) && cmax - cmin != i32::MIN
    &&& height != 0 ==> (height as i32) != i32::MIN
    &&& width != 0 ==> (width as i32) != i32::MIN
}

/// Append the four ranges of a contributing prior channel.
fn push_prior_ranges(ranges: &mut Vec<PropRange>, prev: &Channel)
    requires
        prior_ranges_defined(*prev),
    ensures
        final(ranges)@ == old(ranges)@ + prior_ranges(*prev),
{
    let a = abs_i32(prev.min);
    let b = abs_i32(prev.max);
    let abs_max = if a <= b { b } else { a };
    let span = ((prev.max as i64) - (prev.min as i64)) as i32;
    let ghost before = ranges@;
    ranges.push(PropRange { min: 0, max: abs_max });
    ranges.push(PropRange { min: prev.min, max: prev.max });
    ranges.push(PropRange { min: 0, max: span });
    ranges.push(PropRange { min: -span, max: span });
    proof {
        assert(ranges@ == before + prior_ranges(*prev));
    }
}

/// Range `[0, dim - 1]` of a coordinate (`[0, 0]` for an empty axis).
fn coord_range_exec(dim: u32) -> (r: PropRange)
    requires
        dim != 0 ==> (dim as i32) != i32::MIN,
    ensures
        r == coord_range(dim),
{
    if dim == 0 {
        PropRange { min: 0, max: 0 }
    } else {
        PropRange { min: 0, max: (dim as i32) - 1 }
    }
}

/// Per-property initial ranges (D.7.2 table) used to seed the MA tree
/// decode: four per contributing prior channel (the most recent first,
/// at most `max_extra_properties` of them), then the twelve
/// always-present ones.
pub fn property_ranges(
    channel_min: i32,
    channel_max: i32,
    width: u32,
    height: u32,
    extra_channels: &[&Channel],
    max_extra_properties: usize,
) -> (r: Vec<PropRange>)
    requires
        base_ranges_defined(channel_min, channel_max, width, height),
        spec_prior_ranges_defined(extra_channels@, extra_channels@.len() as int, max_extra_properties as int),
    ensures
        r@ == spec_prior_ranges(extra_channels@, extra_channels@.len() as int, max_extra_properties as int)
            + base_ranges(channel_min, channel_max, width, height),
{
    let mut ranges: Vec<PropRange> = Vec::new();
    let mut taken: usize = 0;
    let mut i: usize = extra_channels.len();
    let ghost all = spec_prior_ranges(extra_channels@, extra_channels@.len() as int, max_extra_properties as int);
    while i > 0
        invariant
            i <= extra_channels@.len(),
            taken <= max_extra_properties,
            ranges@ + spec_prior_ranges(extra_channels@, i as int, max_extra_properties - taken) == all,
            spec_prior_ranges_defined(extra_channels@, i as int, max_extra_properties - taken),
            all == spec_prior_ranges(extra_channels@, extra_channels@.len() as int, max_extra_properties as int),
        ensures
            ranges@ == all,
        decreases i,
    {
        if taken >= max_extra_properties {
            proof {
                assert(ranges@ + Seq::<PropRange>::empty() == ranges@);
            }
            break;
        }
        proof {
            if i == 1 {
                assert(ranges@ + Seq::<PropRange>::empty() == ranges@);
            }
        }
        let prev: &Channel = extra_channels[i - 1];
        if prev.min == prev.max || prev.width == 0 || prev.height == 0 || prev.hshift < 0 {
            i = i - 1;
            continue;
        }
        let ghost before = ranges@;
        push_prior_ranges(&mut ranges, prev);
        proof {
            let four = prior_ranges(*extra_channels@[i - 1]);
            let rest = spec_prior_ranges(extra_channels@, i - 1, max_extra_properties - taken - 1);
            assert(before + (four + rest) == (before + four) + rest);
        }
        taken = taken + 1;
        i = i - 1;
    }
    let a = abs_i32(channel_min);
    let b = abs_i32(channel_max);
    let abs_max = if a <= b { b } else { a };
    let ghost before = ranges@;
    ranges.push(PropRange { min: 0, max: abs_max });
    ranges.push(PropRange { min: 0, max: abs_max });
    ranges.push(PropRange { min: channel_min, max: channel_max });
    ranges.push(PropRange { min: channel_min, max: channel_max });
    ranges.push(coord_range_exec(height));
    ranges.push(coord_range_exec(width));
    let two_min_minus_max = 2 * channel_min - channel_max;
    let two_max_minus_min = 2 * channel_max - channel_min;
    let span = channel_max - channel_min;
    ranges.push(PropRange { min: two_min_minus_max, max: two_max_minus_min });
    ranges.push(PropRange { min: two_min_minus_max, max: two_max_minus_min });
    ranges.push(PropRange { min: -span, max: span });
    ranges.push(PropRange { min: -span, max: span });
    ranges.push(PropRange { min: -span, max: span });
    ranges.push(PropRange { min: -span, max: span });
    proof {
        assert(ranges@ == before + base_ranges(channel_min, channel_max, width, height));
    }
    ranges
}


/// A sample range whose gradient arithmetic stays inside `i32`: twice
/// either bound and `2 * max - min`, `2 * min - max` fit, and `min` is
/// above `i32::MIN`.
pub open spec fn span_safe(lo: i32, hi: i32) -> bool {
    &&& lo <= hi
    &&& lo > i32::MIN
    &&& fits_i32(2 * lo) && fits_i32(2 * hi)
    &&& fits_i32(2 * lo - hi) && fits_i32(2 * hi - lo)
}

/// The first `n` samples of the channel lie in `[min, max]`.
pub open spec fn prefix_in_range(c: Channel, n: int) -> bool {
    forall|k: int| 0 <= k < n ==> c.min <= #[trigger] c.data@[k] <= c.max
}

/// A channel that can be decoded into: consistent buffer, usable shifts
/// and a safe sample range.
pub open spec fn channel_ok(c: Channel) -> bool {
    &&& shape_ok(c)
    &&& shift_amt(c.hshift) < 32 && shift_amt(c.vshift) < 32
    &&& span_safe(c.min, c.max)
}

/// A decoded prior channel: decodable and every sample in range.
pub open spec fn prior_ok(c: Channel) -> bool {
    channel_ok(c) && prefix_in_range(c, c.data@.len() as int)
}

/// Every contributing prior channel is a decoded one.
pub open spec fn priors_ok(prior: Seq<&Channel>) -> bool {
    forall|j: int| 0 <= j < prior.len() && !prior_skipped(*#[trigger] prior[j]) ==> prior_ok(*prior[j])
}

/// Pixels up, left, up-left, up-right, two left and two up of `(x, y)`
/// come before it in raster order.
proof fn lemma_earlier(w: int, h: int, x: int, y: int)
    requires
        0 <= x < w,
        0 <= y < h,
    ensures
        y > 0 ==> 0 <= pixel_index(w, x, y - 1) < pixel_index(w, x, y),
        x > 0 ==> 0 <= pixel_index(w, x - 1, y) < pixel_index(w, x, y),
        x > 0 && y > 0 ==> 0 <= pixel_index(w, x - 1, y - 1) < pixel_index(w, x, y),
        y > 0 && x + 1 < w ==> 0 <= pixel_index(w, x + 1, y - 1) < pixel_index(w, x, y),
        x > 1 ==> 0 <= pixel_index(w, x - 2, y) < pixel_index(w, x, y),
        y > 1 ==> 0 <= pixel_index(w, x, y - 2) < pixel_index(w, x, y),
        0 <= pixel_index(w, x, y) < w * h,
{
    lemma_index_bounds(w, h, x, y);
    assert((y - 1) * w == y * w - w) by (nonlinear_arith);
    assert((y - 2) * w == y * w - 2 * w) by (nonlinear_arith);
    assert(y > 0 ==> (y - 1) * w >= 0) by (nonlinear_arith)
        requires
            w >= 0,
    ;
    assert(y > 1 ==> (y - 2) * w >= 0) by (nonlinear_arith)
        requires
            w >= 0,
    ;
}

/// With the raster-order prefix before `(x, y)` in range, the
/// always-present properties are defined.
proof fn lemma_base_props_defined(c: Channel, x: u32, y: u32)
    requires
        channel_ok(c),
        x < c.width,
        y < c.height,
        prefix_in_range(c, pixel_index(c.width as int, x as int, y as int)),
    ensures
        base_props_defined(c, x, y),
        ({
            let (top, left, topleft, _tr, _ll, _tt) = base_nbrs(c, x as int, y as int);
            &&& c.min <= top <= c.max && c.min <= left <= c.max && c.min <= topleft <= c.max
        }),
{
    let w = c.width as int;
    let h = c.height as int;
    lemma_earlier(w, h, x as int, y as int);
    law_ch_zero_in_range(c.min as int, c.max as int);
    let n = pixel_index(w, x as int, y as int);
    if y > 0 {
        assert(c.min <= c.data@[pixel_index(w, x as int, y - 1)] <= c.max);
    }
    if x > 0 {
        assert(c.min <= c.data@[pixel_index(w, x - 1, y as int)] <= c.max);
    }
    if x > 0 && y > 0 {
        assert(c.min <= c.data@[pixel_index(w, x - 1, y - 1)] <= c.max);
    }
    if y > 0 && x + 1 < w {
        assert(c.min <= c.data@[pixel_index(w, x + 1, y - 1)] <= c.max);
    }
    if x > 1 {
        assert(c.min <= c.data@[pixel_index(w, x - 2, y as int)] <= c.max);
    }
    if y > 1 {
        assert(c.min <= c.data@[pixel_index(w, x as int, y - 2)] <= c.max);
    }
}

/// A contributing, decoded prior channel's properties are defined.
proof fn lemma_prior_props_defined(c: Channel, x: u32, y: u32, prev: Channel)
    requires
        shift_amt(c.hshift) < 32 && shift_amt(c.vshift) < 32,
        prior_ok(prev),
        !prior_skipped(prev),
    ensures
        prior_props_defined(c, x, y, prev),
{
    let (rx, ry) = prior_coords(c, x, y, prev);
    let w = prev.width as int;
    let h = prev.height as int;
    law_ch_zero_in_range(prev.min as int, prev.max as int);
    lemma_index_bounds(w, h, rx as int, ry as int);
    assert(prev.min <= prev.data@[pixel_index(w, rx as int, ry as int)] <= prev.max);
    if rx > 0 {
        lemma_index_bounds(w, h, rx - 1, ry as int);
        assert(prev.min <= prev.data@[pixel_index(w, rx - 1, ry as int)] <= prev.max);
    }
    if ry > 0 {
        lemma_index_bounds(w, h, rx as int, ry - 1);
        assert(prev.min <= prev.data@[pixel_index(w, rx as int, ry - 1)] <= prev.max);
    }
    if rx > 0 && ry > 0 {
        lemma_index_bounds(w, h, rx - 1, ry - 1);
        assert(prev.min <= prev.data@[pixel_index(w, rx - 1, ry - 1)] <= prev.max);
    }
}

/// All contributing prior channels' properties are defined when they are
/// decoded channels.
proof fn lemma_extras_defined(c: Channel, x: u32, y: u32, prior: Seq<&Channel>, i: int, budget: int)
    requires
        shift_amt(c.hshift) < 32 && shift_amt(c.vshift) < 32,
        priors_ok(prior),
        i <= prior.len(),
    ensures
        spec_extras_defined(c, x, y, prior, i, budget),
    decreases i,
{
    if i <= 0 || budget <= 0 {
    } else if prior_skipped(*prior[i - 1]) {
        lemma_extras_defined(c, x, y, prior, i - 1, budget);
    } else {
        assert(prior_ok(*prior[i - 1]));
        lemma_prior_props_defined(c, x, y, *prior[i - 1]);
        lemma_extras_defined(c, x, y, prior, i - 1, budget - 1);
    }
}

/// Every residual the decoder hands back lies in the range it was asked
/// for.
pub open spec fn residuals_in_range<F: FnMut(usize, i32, i32) -> Result<i32, JxlError>>(f: F) -> bool {
    forall|leaf: usize, lo: i32, hi: i32, r: Result<i32, JxlError>|
        #[trigger] call_ensures(f, (leaf, lo, hi), r) ==> (r is Ok ==> lo <= r->Ok_0 <= hi)
}

/// The prediction of sample `(x, y)` of `c` from its decoded neighbours.
pub open spec fn pixel_prediction(c: Channel, predictor: Predictor, x: int, y: int) -> int {
    let (top, left, topleft, _, _, _) = base_nbrs(c, x, y);
    spec_predict(predictor, left, top, topleft, spec_ch_zero(c.min as int, c.max as int))
}

/// The property vector of sample `(x, y)` of `c`.
pub open spec fn pixel_props(c: Channel, x: int, y: int, prior: Seq<&Channel>, max_extra_properties: int) -> Seq<i32> {
    spec_extras(c, x as u32, y as u32, prior, prior.len() as int, max_extra_properties) + base_props(c, x as u32, y as u32)
}

/// Sample `(x, y)` of `c` is its prediction plus a residual that
/// `decode_residual` may return for the leaf the tree selects from the
/// sample's properties and for the residual range that keeps the sample
/// within `[min, max]`.
pub open spec fn pixel_decoded<F: FnMut(usize, i32, i32) -> Result<i32, JxlError>>(
    decode_residual: F, tree: Seq<Node>, c: Channel, predictor: Predictor, prior: Seq<&Channel>, max_extra_properties: int,
    x: int, y: int,
) -> bool {
    let pred = pixel_prediction(c, predictor, x, y);
    match spec_walk(tree, pixel_props(c, x, y, prior, max_extra_properties), 0) {
        None => false,
        Some(leaf) => call_ensures(decode_residual, (leaf, (c.min - pred) as i32, (c.max - pred) as i32),
            Ok::<i32, JxlError>((sample(c, x, y) - pred) as i32)),
    }
}

/// Two channels of one shape whose samples agree before index `k`.
pub open spec fn agree_before(c1: Channel, c2: Channel, k: int) -> bool {
    &&& c1.width == c2.width && c1.height == c2.height
    &&& c1.hshift == c2.hshift && c1.vshift == c2.vshift
    &&& c1.min == c2.min && c1.max == c2.max
    &&& c1.data@.len() == c2.data@.len()
    &&& forall|i: int| 0 <= i < k ==> #[trigger] c1.data@[i] == c2.data@[i]
}

/// The prior channels' properties do not depend on the channel's samples.
proof fn lemma_extras_indep(c1: Channel, c2: Channel, x: u32, y: u32, prior: Seq<&Channel>, i: int, budget: int)
    requires
        c1.hshift == c2.hshift && c1.vshift == c2.vshift,
    ensures
        spec_extras(c1, x, y, prior, i, budget) == spec_extras(c2, x, y, prior, i, budget),
    decreases i,
{
    if i > 0 && budget > 0 {
        if prior_skipped(*prior[i - 1]) {
            lemma_extras_indep(c1, c2, x, y, prior, i - 1, budget);
        } else {
            lemma_extras_indep(c1, c2, x, y, prior, i - 1, budget - 1);
        }
    }
}

/// A pixel index names one pixel of a row of width `w`.
proof fn lemma_index_inverse(w: int, x1: int, y1: int, x2: int, y2: int)
    requires
        0 <= x1 < w,
        0 <= x2 < w,
        0 <= y1,
        0 <= y2,
        pixel_index(w, x1, y1) == pixel_index(w, x2, y2),
    ensures
        x1 == x2 && y1 == y2,
{
    assert(y1 == y2) by (nonlinear_arith)
        requires
            0 <= x1 < w,
            0 <= x2 < w,
            0 <= y1,
            0 <= y2,
            y1 * w + x1 == y2 * w + x2,
    ;
}

/// The properties and the prediction of a sample depend only on the
/// samples before it.
proof fn lemma_pixel_inputs_stable(c1: Channel, c2: Channel, predictor: Predictor, prior: Seq<&Channel>, mep: int, x: int, y: int)
    requires
        0 <= x < c1.width,
        0 <= y < c1.height,
        shape_ok(c1),
        agree_before(c1, c2, pixel_index(c1.width as int, x, y)),
    ensures
        pixel_props(c1, x, y, prior, mep) == pixel_props(c2, x, y, prior, mep),
        pixel_prediction(c1, predictor, x, y) == pixel_prediction(c2, predictor, x, y),
{
    lemma_earlier(c1.width as int, c1.height as int, x, y);
    lemma_extras_indep(c1, c2, x as u32, y as u32, prior, prior.len() as int, mep);
    assert(base_nbrs(c1, x, y) == base_nbrs(c2, x, y));
    assert(base_props(c1, x as u32, y as u32) == base_props(c2, x as u32, y as u32));
}

/// Whether a sample is decoded as its stream says depends only on the
/// samples up to it.
proof fn lemma_pixel_decoded_stable<F: FnMut(usize, i32, i32) -> Result<i32, JxlError>>(
    f: F, tree: Seq<Node>, c1: Channel, c2: Channel, predictor: Predictor, prior: Seq<&Channel>, mep: int, x: int, y: int,
)
    requires
        0 <= x < c1.width,
        0 <= y < c1.height,
        shape_ok(c1),
        agree_before(c1, c2, pixel_index(c1.width as int, x, y) + 1),
    ensures
        pixel_decoded(f, tree, c1, predictor, prior, mep, x, y) == pixel_decoded(f, tree, c2, predictor, prior, mep, x, y),
{
    lemma_earlier(c1.width as int, c1.height as int, x, y);
    lemma_pixel_inputs_stable(c1, c2, predictor, prior, mep, x, y);
    assert(sample(c1, x, y) == sample(c2, x, y));
}

/// Decode the pixel grid of `channel` in raster order (C.9.3.1): for each
/// pixel compute the property vector, walk the MA tree to a leaf,
/// predict from the decoded neighbours, and add the residual that
/// `decode_residual(leaf, min - predicted, max - predicted)` returns.
///
/// `decode_residual` is the leaf-context entropy decoder.
pub fn decode_channel_pixels<F>(
    mut decode_residual: F,
    tree: &MaTree,
    channel: &mut Channel,
    predictor: Predictor,
    prior: &[&Channel],
    max_extra_properties: usize,
) -> (r: Result<(), JxlError>) where F: FnMut(usize, i32, i32) -> Result<i32, JxlError>
    requires
        nodes_wf(tree.nodes@),
        channel_ok(*old(channel)),
        priors_ok(prior@),
        max_extra_properties <= usize::MAX / 4,
        forall|leaf: usize, lo: i32, hi: i32| call_requires(decode_residual, (leaf, lo, hi)),
        residuals_in_range(decode_residual),
    ensures
        final(channel).width == old(channel).width,
        final(channel).height == old(channel).height,
        final(channel).hshift == old(channel).hshift,
        final(channel).vshift == old(channel).vshift,
        final(channel).min == old(channel).min,
        final(channel).max == old(channel).max,
        final(channel).data@.len() == old(channel).data@.len(),
        r is Ok ==> prefix_in_range(*final(channel), final(channel).data@.len() as int),
        r is Ok ==> forall|x: int, y: int| 0 <= x < old(channel).width && 0 <= y < old(channel).height
            ==> #[trigger] pixel_decoded(decode_residual, tree.nodes@, *final(channel), predictor, prior@,
                max_extra_properties as int, x, y),
{
    let cz = ch_zero(channel.min, channel.max);
    proof {
        law_ch_zero_in_range(channel.min as int, channel.max as int);
    }
    let width = channel.width;
    let height = channel.height;
    let ghost c0 = *channel;
    let ghost f0 = decode_residual;
    let mut y: u32 = 0;
    while y < height
        invariant
            y <= height,
            width == c0.width && height == c0.height,
            channel.width == c0.width && channel.height == c0.height,
            channel.hshift == c0.hshift && channel.vshift == c0.vshift,
            channel.min == c0.min && channel.max == c0.max,
            channel_ok(*channel),
            channel.data@.len() == c0.data@.len(),
            cz == spec_ch_zero(c0.min as int, c0.max as int),
            c0.min <= cz <= c0.max,
            prefix_in_range(*channel, pixel_index(width as int, 0, y as int)),
            nodes_wf(tree.nodes@),
            priors_ok(prior@),
            max_extra_properties <= usize::MAX / 4,
            forall|leaf: usize, lo: i32, hi: i32| call_requires(decode_residual, (leaf, lo, hi)),
            residuals_in_range(decode_residual),
            c0 == *old(channel),
            decode_residual == f0,
            forall|xx: int, yy: int| 0 <= xx < width && 0 <= yy < height && pixel_index(width as int, xx, yy)
                < pixel_index(width as int, 0, y as int) ==> #[trigger] pixel_decoded(f0, tree.nodes@, *channel, predictor,
                prior@, max_extra_properties as int, xx, yy),
        decreases height - y,
    {
        let mut x: u32 = 0;
        while x < width
            invariant
                x <= width,
                y < height,
                width == c0.width && height == c0.height,
                channel.width == c0.width && channel.height == c0.height,
                channel.hshift == c0.hshift && channel.vshift == c0.vshift,
                channel.min == c0.min && channel.max == c0.max,
                channel_ok(*channel),
                channel.data@.len() == c0.data@.len(),
                cz == spec_ch_zero(c0.min as int, c0.max as int),
                c0.min <= cz <= c0.max,
                prefix_in_range(*channel, pixel_index(width as int, x as int, y as int)),
                nodes_wf(tree.nodes@),
                priors_ok(prior@),
                max_extra_properties <= usize::MAX / 4,
                forall|leaf: usize, lo: i32, hi: i32| call_requires(decode_residual, (leaf, lo, hi)),
                residuals_in_range(decode_residual),
                c0 == *old(channel),
                decode_residual == f0,
                forall|xx: int, yy: int| 0 <= xx < width && 0 <= yy < height && pixel_index(width as int, xx, yy)
                    < pixel_index(width as int, x as int, y as int) ==> #[trigger] pixel_decoded(f0, tree.nodes@, *channel,
                    predictor, prior@, max_extra_properties as int, xx, yy),
            decreases width - x,
        {
            proof {
                lemma_base_props_defined(*channel, x, y);
                lemma_extras_defined(*channel, x, y, prior@, prior@.len() as int, max_extra_properties as int);
                lemma_earlier(width as int, height as int, x as int, y as int);
            }
            let props = compute_properties(channel, x, y, prior, max_extra_properties);
            let leaf_idx = tree.walk(&props)?;
            let top = if y > 0 { channel.get(x, y - 1) } else { cz };
            let left = if x > 0 { channel.get(x - 1, y) } else { cz };
            let topleft = if x > 0 && y > 0 { channel.get(x - 1, y - 1) } else { left };
            let predicted = predictor.predict(left, top, topleft, cz);
            proof {
                assert(c0.min <= predicted <= c0.max);
            }
            let leaf_min = ((channel.min as i64) - (predicted as i64)) as i32;
            let leaf_max = ((channel.max as i64) - (predicted as i64)) as i32;
            let diff = decode_residual(leaf_idx, leaf_min, leaf_max)?;
            let v = predicted + diff;
            let ghost before = *channel;
            channel.set(x, y, v);
            proof {
                let n = pixel_index(width as int, x as int, y as int);
                lemma_earlier(width as int, height as int, x as int, y as int);
                assert(agree_before(before, *channel, n));
                lemma_pixel_inputs_stable(before, *channel, predictor, prior@, max_extra_properties as int, x as int, y as int);
                assert(sample(*channel, x as int, y as int) == v);
                assert(pixel_decoded(f0, tree.nodes@, *channel, predictor, prior@, max_extra_properties as int, x as int, y as int));
                assert forall|xx: int, yy: int| 0 <= xx < width && 0 <= yy < height && pixel_index(width as int, xx, yy)
                    < pixel_index(width as int, (x + 1) as int, y as int) implies #[trigger] pixel_decoded(f0, tree.nodes@,
                    *channel, predictor, prior@, max_extra_properties as int, xx, yy) by {
                    if pixel_index(width as int, xx, yy) < n {
                        lemma_pixel_decoded_stable(f0, tree.nodes@, before, *channel, predictor, prior@,
                            max_extra_properties as int, xx, yy);
                    } else {
                        assert(pixel_index(width as int, xx, yy) == n);
                        lemma_index_inverse(width as int, xx, yy, x as int, y as int);
                    }
                }
                assert forall|k: int| 0 <= k < n + 1 implies c0.min <= #[trigger] channel.data@[k] <= c0.max by {
                    if k < n {
                        assert(channel.data@[k] == before.data@[k]);
                    }
                }
                assert(pixel_index(width as int, (x + 1) as int, y as int) == n + 1);
            }
            x = x + 1;
        }
        proof {
            assert(pixel_index(width as int, width as int, y as int) == pixel_index(width as int, 0, (y + 1) as int)) by (nonlinear_arith);
        }
        y = y + 1;
    }
    proof {
        assert(pixel_index(width as int, 0, height as int) == channel.data@.len()) by (nonlinear_arith)
            requires
                channel.data@.len() == width * height,
        ;
        assert forall|xx: int, yy: int| 0 <= xx < width && 0 <= yy < height implies #[trigger] pixel_decoded(f0, tree.nodes@,
            *channel, predictor, prior@, max_extra_properties as int, xx, yy) by {
            lemma_index_bounds(width as int, height as int, xx, yy);
        }
    }
    Ok(())
}


/// Result of decoding a single self-contained channel: the header
/// decides; constant channels are filled with their value.
pub open spec fn spec_single_channel_ok(h: ChannelHeader, width: u32, height: u32, c: Channel) -> bool {
    &&& c.width == width && c.height == height
    &&& c.hshift == 0 && c.vshift == 0
    &&& c.min == h.min && c.max == h.max
    &&& c.data@ == Seq::new((width * height) as nat, |i: int| h.min)
}

/// The sample range of a non-constant channel keeps the property-range
/// and prediction arithmetic within `i32`.
pub open spec fn single_channel_range_ok(h: ChannelHeader, width: u32, height: u32) -> bool {
    base_ranges_defined(h.min, h.max, width, height) && span_safe(h.min, h.max)
}

/// `c` is a non-constant channel of header `h` decoded from its stream:
/// `width × height` samples within `[min, max]`, an MA tree `read_tree`
/// gives for the channel's property ranges (with leaf initialisation
/// signalled), and every sample decoded by `decode_residual` at the leaf
/// that tree selects.
pub open spec fn single_channel_decoded<T: FnMut(u32, i32, i32) -> Result<i32, JxlError>, F: FnMut(usize, i32, i32) -> Result<i32, JxlError>>(
    read_tree: T, decode_residual: F, h: ChannelHeader, width: u32, height: u32, max_extra_properties: int, c: Channel,
) -> bool {
    &&& c.width == width && c.height == height
    &&& c.hshift == 0 && c.vshift == 0
    &&& c.min == h.min && c.max == h.max
    &&& c.data@.len() == width * height
    &&& prefix_in_range(c, c.data@.len() as int)
    &&& exists|nodes: Seq<Node>| #[trigger] crate::matree::tree_read_by(read_tree, base_ranges(h.min, h.max, width, height), true, nodes)
        && nodes_wf(nodes)
        && forall|x: int, y: int| 0 <= x < width && 0 <= y < height ==> #[trigger] pixel_decoded(decode_residual, nodes, c,
            h.predictor, Seq::empty(), max_extra_properties, x, y)
}

/// Decode a single self-contained channel from `bytes`, which start at
/// the channel header: a constant channel (`min == max`) is returned
/// filled with its value. Otherwise (only `entropy_coder == 0`,
/// MABEGABRAC, is accepted) the stream is byte-aligned and the ABRAC
/// payload that follows holds the MA tree, decoded with `read_tree` (see
/// [`MaTree::decode`]) over the channel's property ranges with a bit
/// depth covering `[min, max]`, and the residuals, decoded with
/// `decode_residual` (see [`decode_channel_pixels`]).
pub fn decode_single_channel<T, F>(
    bytes: &[u8],
    width: u32,
    height: u32,
    max_extra_properties: usize,
    read_tree: T,
    decode_residual: F,
) -> (r: Result<Channel, JxlError>)
    where
        T: FnMut(u32, i32, i32) -> Result<i32, JxlError>,
        F: FnMut(usize, i32, i32) -> Result<i32, JxlError>,
    requires
        crate::matree::reads_in_range(read_tree),
        forall|leaf: usize, lo: i32, hi: i32| call_requires(decode_residual, (leaf, lo, hi)),
        residuals_in_range(decode_residual),
        max_extra_properties <= usize::MAX / 4,
    ensures
        match spec_channel_header(bytes@, 0) {
            None => r is Err,
            Some((h, p)) => {
                if h.entropy_coder != 0 {
                    r is Err && r->Err_0 is Unsupported
                } else if !dims_acceptable(width, height) {
                    r is Err && r->Err_0 is InvalidData
                } else if h.constant {
                    r is Ok && spec_single_channel_ok(h, width, height, r->Ok_0)
                } else if !(p % 8 == 0 || crate::bitreader::bits_le(bytes@, p, (8 - p % 8) as nat) == 0) {
                    r is Err
                } else if !single_channel_range_ok(h, width, height) {
                    r is Err && r->Err_0 is InvalidData
                } else {
                    r matches Ok(c) ==> single_channel_decoded(read_tree, decode_residual, h, width, height,
                        max_extra_properties as int, c)
                }
            },
        },
{
    let mut br = BitReader::new(bytes);
    let header = decode_channel_header(&mut br)?;
    if header.entropy_coder != 0 {
        return Err(unsupported("Modular: only entropy_coder 0 (MABEGABRAC) is supported"));
    }
    let mut channel = Channel::try_new(width, height)?;
    channel.min = header.min;
    channel.max = header.max;
    if header.constant {
        let n = channel.data.len();
        let mut i: usize = 0;
        while i < n
            invariant
                i <= n,
                n == channel.data@.len(),
                n == width * height,
                forall|k: int| 0 <= k < i ==> channel.data@[k] == header.min,
                channel.width == width && channel.height == height,
                channel.hshift == 0 && channel.vshift == 0,
                channel.min == header.min && channel.max == header.max,
            decreases n - i,
        {
            channel.data.set(i, header.min);
            i = i + 1;
        }
        proof {
            assert(channel.data@ == Seq::new((width * height) as nat, |i: int| header.min));
        }
        return Ok(channel);
    }
    br.pu0()?;
    if !range_ok_exec(header.min, header.max, width, height) {
        return Err(invalid("Modular: sample range overflows the property arithmetic"));
    }
    let no_prior: Vec<&Channel> = Vec::new();
    let ranges = property_ranges(header.min, header.max, width, height, no_prior.as_slice(), max_extra_properties);
    proof {
        assert(ranges@ =~= base_ranges(header.min, header.max, width, height));
    }
    let n_bits = bit_depth_for_range(header.min, header.max);
    let tree = MaTree::decode(read_tree, ranges.as_slice(), n_bits, true)?;
    decode_channel_pixels(decode_residual, &tree, &mut channel, header.predictor, no_prior.as_slice(), max_extra_properties)?;
    proof {
        assert(no_prior@ =~= Seq::<&Channel>::empty());
        assert(crate::matree::tree_read_by(read_tree, base_ranges(header.min, header.max, width, height), true, tree.nodes@));
    }
    Ok(channel)
}

/// Whether `v` lies in the `i32` range.
fn fits_i64(v: i64) -> (r: bool)
    ensures
        r == fits_i32(v as int),
{
    v >= i32::MIN as i64 && v <= i32::MAX as i64
}

/// Whether `[min, max]` keeps the property-range and prediction
/// arithmetic within `i32` for a `width × height` channel.
fn range_ok_exec(min: i32, max: i32, width: u32, height: u32) -> (r: bool)
    ensures
        r == (base_ranges_defined(min, max, width, height) && span_safe(min, max)),
{
    let lo = min as i64;
    let hi = max as i64;
    min != i32::MIN && max != i32::MIN
        && fits_i64(2 * lo) && fits_i64(2 * lo - hi) && fits_i64(2 * hi) && fits_i64(2 * hi - lo)
        && fits_i64(hi - lo) && hi - lo != i32::MIN as i64
        && (height == 0 || (height as i32) != i32::MIN)
        && (width == 0 || (width as i32) != i32::MIN)
        && lo <= hi
}

/// `ceil(log2(max(|min|, |max|)))`-style bit depth: the number of
/// significant bits of the larger magnitude, at least 1.
pub open spec fn spec_bit_depth_for_range(min: i32, max: i32) -> nat {
    let a = spec_abs(min as int);
    let b = spec_abs(max as int);
    let absmax = spec_max(a, b);
    if absmax == 0 { 1 } else { spec_bit_length(absmax as u32) }
}

/// Magnitude of an `i32` as a `u32`.
fn unsigned_abs_i32(v: i32) -> (r: u32)
    ensures
        r == spec_abs(v as int),
{
    if v < 0 {
        (-(v as i64)) as u32
    } else {
        v as u32
    }
}

/// Bit depth sufficient for every value in `[min, max]`.
pub fn bit_depth_for_range(min: i32, max: i32) -> (r: u32)
    ensures
        r == spec_bit_depth_for_range(min, max),
{
    let a = unsigned_abs_i32(min);
    let b = unsigned_abs_i32(max);
    let absmax = if a <= b { b } else { a };
    if absmax == 0 {
        1
    } else {
        bit_length(absmax)
    }
}

} // verus!
