//! Orientation (Table A.17): the flip / rotation applied to the decoded
//! sample grid before presentation, on planes of raw sample bytes.
use vstd::prelude::*;
use crate::error::{JxlError, invalid};

verus! {

/// One plane of samples: `stride` bytes per row, rows back to back.
#[derive(Debug, Clone)]
pub struct Plane {
    pub stride: usize,
    pub data: Vec<u8>,
}

/// The coded-grid sample `(cx, cy)` shown at presented position
/// `(ox, oy)` under orientation `o` (2..=8) of a `w × h` grid: 2 flips
/// horizontally, 3 rotates by 180°, 4 flips vertically, 5 transposes, 6
/// rotates 90° clockwise, 7 anti-transposes, 8 rotates 90°
/// counterclockwise.
pub open spec fn coded_coord(o: int, ox: int, oy: int, w: int, h: int) -> (int, int) {
    if o == 2 { (w - 1 - ox, oy) }
    else if o == 3 { (w - 1 - ox, h - 1 - oy) }
    else if o == 4 { (ox, h - 1 - oy) }
    else if o == 5 { (oy, ox) }
    else if o == 6 { (oy, h - 1 - ox) }
    else if o == 7 { (w - 1 - oy, h - 1 - ox) }
    else { (w - 1 - oy, ox) }
}

/// How each orientation moves through the coded grid: the presented
/// top-left sample and the coded step for one presented step right and
/// one step down. 2 mirrors (right goes left), 3 turns by 180°, 4 flips
/// (down goes up), 5 transposes (right goes down, down goes right), 6
/// turns clockwise (right goes up from the bottom-left corner, down goes
/// right), 7 anti-transposes, 8 turns counterclockwise (right goes down
/// from the top-right corner, down goes left).
pub proof fn law_orientation_steps(o: int, ox: int, oy: int, w: int, h: int)
    requires
        2 <= o <= 8,
    ensures
        ({
            let c = coded_coord(o, ox, oy, w, h);
            let r = coded_coord(o, ox + 1, oy, w, h);
            let d = coded_coord(o, ox, oy + 1, w, h);
            let z = coded_coord(o, 0, 0, w, h);
            &&& o == 2 ==> z == (w - 1, 0int) && r == (c.0 - 1, c.1) && d == (c.0, c.1 + 1)
            &&& o == 3 ==> z == (w - 1, h - 1) && r == (c.0 - 1, c.1) && d == (c.0, c.1 - 1)
            &&& o == 4 ==> z == (0int, h - 1) && r == (c.0 + 1, c.1) && d == (c.0, c.1 - 1)
            &&& o == 5 ==> z == (0int, 0int) && r == (c.0, c.1 + 1) && d == (c.0 + 1, c.1)
            &&& o == 6 ==> z == (0int, h - 1) && r == (c.0, c.1 - 1) && d == (c.0 + 1, c.1)
            &&& o == 7 ==> z == (w - 1, h - 1) && r == (c.0, c.1 - 1) && d == (c.0 - 1, c.1)
            &&& o == 8 ==> z == (w - 1, 0int) && r == (c.0, c.1 + 1) && d == (c.0 - 1, c.1)
        }),
{
}

/// Presented width of a `w × h` grid under orientation `o`: 5..=8 swap
/// the dimensions.
pub open spec fn presented_width(o: int, w: int, h: int) -> int {
    if o >= 5 { h } else { w }
}

/// Byte of the coded plane that lands at byte `k` of the presented
/// plane: `k` is sample `k / bytes` (row-major at the presented width),
/// byte `k % bytes` of it.
pub open spec fn source_byte(o: int, k: int, w: int, h: int, bytes: int) -> int {
    let q = k / bytes;
    let ow = presented_width(o, w, h);
    let (cx, cy) = coded_coord(o, q % ow, q / ow, w, h);
    (cy * w + cx) * bytes + k % bytes
}

/// A plane's geometry is whole samples: a non-zero stride of whole
/// samples and whole rows.
pub open spec fn sample_aligned(stride: int, len: int, bytes: int) -> bool {
    stride != 0 && stride % bytes == 0 && len % stride == 0
}

/// `(a * b + c) / b == a` and `(a * b + c) % b == c` for `0 <= c < b`.
proof fn lemma_split(a: int, b: int, c: int)
    requires
        0 <= a,
        0 <= c < b,
    ensures
        (a * b + c) / b == a,
        (a * b + c) % b == c,
{
    vstd::arithmetic::div_mod::lemma_fundamental_div_mod_converse(a * b + c, b, a, c);
}

/// Copy the sample at presented position `(ox, oy)`, byte by byte.
fn push_sample(out: &mut Vec<u8>, data: &[u8], src: usize, bytes: usize)
    requires
        src + bytes <= data@.len(),
    ensures
        final(out)@ == old(out)@ + data@.subrange(src as int, src + bytes),
{
    let n: usize = data.len();
    let mut b: usize = 0;
    while b < bytes
        invariant
            b <= bytes,
            n == data@.len(),
            src + bytes <= data@.len(),
            out@ == old(out)@ + data@.subrange(src as int, src + b),
        decreases bytes - b,
    {
        out.push(data[src + b]);
        proof {
            assert(data@.subrange(src as int, src + b + 1) == data@.subrange(src as int, src + b).push(data@[src + b]));
        }
        b = b + 1;
    }
}

/// Orient one plane of `bytes`-byte samples (orientation 2..=8). A plane
/// that is not made of whole samples and rows is refused.
pub fn orient_plane(p: &Plane, orientation: u8, bytes: usize) -> (r: Result<Plane, JxlError>)
    requires
        2 <= orientation <= 8,
        bytes >= 1,
    ensures
        !sample_aligned(p.stride as int, p.data@.len() as int, bytes as int) ==> (r matches Err(e) && e is InvalidData),
        sample_aligned(p.stride as int, p.data@.len() as int, bytes as int) ==> (r matches Ok(q) && {
            let w = p.stride / bytes;
            let h = p.data@.len() / (p.stride as nat);
            &&& q.stride == presented_width(orientation as int, w as int, h as int) * bytes
            &&& q.data@.len() == p.data@.len()
            &&& forall|k: int| 0 <= k < q.data@.len() ==> #[trigger] q.data@[k]
                == p.data@[source_byte(orientation as int, k, w as int, h as int, bytes as int)]
        }),
{
    if p.stride == 0 || p.stride % bytes != 0 || p.data.len() % p.stride != 0 {
        return Err(invalid("orientation: plane geometry not sample-aligned"));
    }
    let w = p.stride / bytes;
    let h = p.data.len() / p.stride;
    let ghost o = orientation as int;
    proof {
        vstd::arithmetic::div_mod::lemma_fundamental_div_mod(p.stride as int, bytes as int);
        vstd::arithmetic::div_mod::lemma_fundamental_div_mod(p.data@.len() as int, p.stride as int);
        assert(p.data@.len() == h * (w * bytes)) by (nonlinear_arith)
            requires p.stride == bytes * w + 0, p.data@.len() == p.stride * h + 0;
        assert(w >= 1) by (nonlinear_arith)
            requires p.stride == bytes * w, p.stride != 0;
    }
    let (ow, oh) = if orientation >= 5 { (h, w) } else { (w, h) };
    let len: usize = p.data.len();
    proof {
        assert(ow * bytes <= usize::MAX) by (nonlinear_arith)
            requires (ow == w && w * bytes == p.stride) || (ow == h && w >= 1 && p.data@.len() == h * (w * bytes)),
                p.stride <= usize::MAX, p.data@.len() == len, len <= usize::MAX, bytes >= 1;
        assert(0 * ow * bytes == 0) by (nonlinear_arith);
    }
    let mut out: Vec<u8> = Vec::new();
    let mut oy: usize = 0;
    while oy < oh
        invariant
            2 <= orientation <= 8,
            o == orientation as int,
            bytes >= 1,
            w >= 1,
            w == p.stride / bytes,
            h == p.data@.len() / (p.stride as nat),
            p.data@.len() == h * (w * bytes),
            (ow, oh) == (if orientation >= 5 { (h, w) } else { (w, h) }),
            len == p.data@.len(),
            ow * bytes <= usize::MAX,
            oy <= oh,
            out@.len() == oy * ow * bytes,
            forall|k: int| 0 <= k < out@.len() ==> #[trigger] out@[k] == p.data@[source_byte(o, k, w as int, h as int, bytes as int)],
        decreases oh - oy,
    {
        let mut ox: usize = 0;
        while ox < ow
            invariant
                2 <= orientation <= 8,
                o == orientation as int,
                bytes >= 1,
                w >= 1,
                w == p.stride / bytes,
                h == p.data@.len() / (p.stride as nat),
                p.data@.len() == h * (w * bytes),
                (ow, oh) == (if orientation >= 5 { (h, w) } else { (w, h) }),
                len == p.data@.len(),
                ow * bytes <= usize::MAX,
                oy < oh,
                ox <= ow,
                out@.len() == (oy * ow + ox) * bytes,
                forall|k: int| 0 <= k < out@.len() ==> #[trigger] out@[k] == p.data@[source_byte(o, k, w as int, h as int, bytes as int)],
            decreases ow - ox,
        {
            let (cx, cy) = if orientation == 2 {
                (w - 1 - ox, oy)
            } else if orientation == 3 {
                (w - 1 - ox, h - 1 - oy)
            } else if orientation == 4 {
                (ox, h - 1 - oy)
            } else if orientation == 5 {
                (oy, ox)
            } else if orientation == 6 {
                (oy, h - 1 - ox)
            } else if orientation == 7 {
                (w - 1 - oy, h - 1 - ox)
            } else {
                (w - 1 - oy, ox)
            };
            proof {
                assert(cx < w && cy < h);
                assert((cx as int, cy as int) == coded_coord(o, ox as int, oy as int, w as int, h as int));
                assert((cy * w + cx) * bytes + bytes <= h * (w * bytes)) by (nonlinear_arith)
                    requires cx < w, cy < h, bytes >= 1, cx >= 0, cy >= 0;
                assert(cy * w + cx <= (cy * w + cx) * bytes) by (nonlinear_arith)
                    requires bytes >= 1, cx >= 0, cy >= 0, w >= 0;
                assert(cy * w <= cy * w + cx);
            }
            let src: usize = (cy * w + cx) * bytes;
            let ghost before = out@;
            push_sample(&mut out, &p.data, src, bytes);
            proof {
                let base = (oy * ow + ox) * bytes;
                assert forall|k: int| 0 <= k < out@.len() implies #[trigger] out@[k]
                    == p.data@[source_byte(o, k, w as int, h as int, bytes as int)] by {
                    if k < before.len() {
                        assert(out@[k] == before[k]);
                    } else {
                        let b = k - base;
                        assert(0 <= b < bytes);
                        assert(out@[k] == p.data@[src + b]);
                        lemma_split(oy * ow + ox, bytes as int, b);
                        assert(k == (oy * ow + ox) * bytes + b) by (nonlinear_arith)
                            requires k == base + b, base == (oy * ow + ox) * bytes;
                        assert(k / (bytes as int) == oy * ow + ox && k % (bytes as int) == b);
                        lemma_split(oy as int, ow as int, ox as int);
                    }
                }
                assert(out@.len() == (oy * ow + ox + 1) * bytes) by (nonlinear_arith)
                    requires out@.len() == (oy * ow + ox) * bytes + bytes;
            }
            ox = ox + 1;
        }
        proof {
            assert((oy * ow + ow) * bytes == (oy + 1) * ow * bytes) by (nonlinear_arith);
        }
        oy = oy + 1;
    }
    proof {
        assert(oh * ow * bytes == h * (w * bytes)) by (nonlinear_arith)
            requires (ow == h && oh == w) || (ow == w && oh == h);
    }
    Ok(Plane { stride: ow * bytes, data: out })
}

/// Apply orientation `orientation` (Table A.17) to every plane:
/// orientation 1 (or 0) leaves them as they are, 2..=8 orient each plane
/// with [`orient_plane`], larger values are refused.
pub fn orient_planes(planes: Vec<Plane>, orientation: u8, bytes: usize) -> (r: Result<Vec<Plane>, JxlError>)
    requires
        bytes >= 1,
    ensures
        orientation <= 1 ==> r == Ok::<Vec<Plane>, JxlError>(planes),
        orientation > 8 ==> (r matches Err(e) && e is InvalidData),
        2 <= orientation <= 8 && (forall|i: int| 0 <= i < planes@.len() ==> sample_aligned(
            (#[trigger] planes@[i]).stride as int, planes@[i].data@.len() as int, bytes as int)) ==> r is Ok,
        2 <= orientation <= 8 ==> (r matches Ok(qs) ==> qs@.len() == planes@.len()),
{
    if orientation <= 1 {
        return Ok(planes);
    }
    if orientation > 8 {
        return Err(invalid("orientation: value outside 1..=8"));
    }
    let mut out: Vec<Plane> = Vec::new();
    let mut i: usize = 0;
    while i < planes.len()
        invariant
            2 <= orientation <= 8,
            bytes >= 1,
            i <= planes@.len(),
            out@.len() == i,
        decreases planes@.len() - i,
    {
        let q = orient_plane(&planes[i], orientation, bytes)?;
        out.push(q);
        i = i + 1;
    }
    Ok(out)
}

} // verus!
