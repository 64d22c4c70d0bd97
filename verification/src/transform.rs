//! Varblock transforms of the VarDCT mode (Table C.16 / Table I.1): the
//! transform kinds, the coefficient order each one uses, and the shape of
//! the varblock it covers.
use vstd::prelude::*;

verus! {

/// Transform applied to one varblock, in `DctSelect` order.
#[derive(Debug, Clone, Copy, PartialEq, Eq, Structural)]
pub enum TransformType {
    Dct8x8,
    Hornuss,
    Dct2x2,
    Dct4x4,
    Dct16x16,
    Dct32x32,
    Dct16x8,
    Dct8x16,
    Dct32x8,
    Dct8x32,
    Dct32x16,
    Dct16x32,
    Dct4x8,
    Dct8x4,
    Afv0,
    Afv1,
    Afv2,
    Afv3,
    Dct64x64,
    Dct64x32,
    Dct32x64,
    Dct128x128,
    Dct128x64,
    Dct64x128,
    Dct256x256,
    Dct256x128,
    Dct128x256,
}

/// Number of coefficient orders (order ids 0 to 12).
pub const NUM_ORDERS: u32 = 13;

/// Order id of a transform (Table I.1).
pub open spec fn spec_order_id(t: TransformType) -> u32 {
    match t {
        TransformType::Dct8x8 => 0,
        TransformType::Hornuss | TransformType::Dct2x2 | TransformType::Dct4x4 | TransformType::Dct4x8
        | TransformType::Dct8x4 | TransformType::Afv0 | TransformType::Afv1 | TransformType::Afv2
        | TransformType::Afv3 => 1,
        TransformType::Dct16x16 => 2,
        TransformType::Dct32x32 => 3,
        TransformType::Dct16x8 | TransformType::Dct8x16 => 4,
        TransformType::Dct32x8 | TransformType::Dct8x32 => 5,
        TransformType::Dct32x16 | TransformType::Dct16x32 => 6,
        TransformType::Dct64x64 => 7,
        TransformType::Dct64x32 | TransformType::Dct32x64 => 8,
        TransformType::Dct128x128 => 9,
        TransformType::Dct128x64 | TransformType::Dct64x128 => 10,
        TransformType::Dct256x256 => 11,
        TransformType::Dct256x128 | TransformType::Dct128x256 => 12,
    }
}

/// `(bwidth, bheight)` in samples of the coefficient block an order id
/// describes.
pub open spec fn spec_varblock_size(oid: u32) -> (u32, u32) {
    if oid <= 1 {
        (8, 8)
    } else if oid == 2 {
        (16, 16)
    } else if oid == 3 {
        (32, 32)
    } else if oid == 4 {
        (16, 8)
    } else if oid == 5 {
        (32, 8)
    } else if oid == 6 {
        (32, 16)
    } else if oid == 7 {
        (64, 64)
    } else if oid == 8 {
        (64, 32)
    } else if oid == 9 {
        (128, 128)
    } else if oid == 10 {
        (128, 64)
    } else if oid == 11 {
        (256, 256)
    } else {
        (256, 128)
    }
}

/// Residual block of a transform in samples, `(rows, cols)`: `R × C` for
/// `DctRxC`, 8×8 for the other transforms.
pub open spec fn spec_pixel_dims(t: TransformType) -> (u32, u32) {
    match t {
        TransformType::Dct16x16 => (16, 16),
        TransformType::Dct32x32 => (32, 32),
        TransformType::Dct16x8 => (16, 8),
        TransformType::Dct8x16 => (8, 16),
        TransformType::Dct32x8 => (32, 8),
        TransformType::Dct8x32 => (8, 32),
        TransformType::Dct32x16 => (32, 16),
        TransformType::Dct16x32 => (16, 32),
        TransformType::Dct64x64 => (64, 64),
        TransformType::Dct64x32 => (64, 32),
        TransformType::Dct32x64 => (32, 64),
        TransformType::Dct128x128 => (128, 128),
        TransformType::Dct128x64 => (128, 64),
        TransformType::Dct64x128 => (64, 128),
        TransformType::Dct256x256 => (256, 256),
        TransformType::Dct256x128 => (256, 128),
        TransformType::Dct128x256 => (128, 256),
        _ => (8, 8),
    }
}

/// Footprint of a transform in 8×8 blocks, `(columns, rows)`.
pub open spec fn spec_block_dims(t: TransformType) -> (u32, u32) {
    ((spec_pixel_dims(t).1 / 8) as u32, (spec_pixel_dims(t).0 / 8) as u32)
}

/// Order id of a transform.
pub fn order_id_for_transform(t: TransformType) -> (r: u32)
    ensures
        r == spec_order_id(t),
        r < NUM_ORDERS,
{
    match t {
        TransformType::Dct8x8 => 0,
        TransformType::Hornuss | TransformType::Dct2x2 | TransformType::Dct4x4 | TransformType::Dct4x8
        | TransformType::Dct8x4 | TransformType::Afv0 | TransformType::Afv1 | TransformType::Afv2
        | TransformType::Afv3 => 1,
        TransformType::Dct16x16 => 2,
        TransformType::Dct32x32 => 3,
        TransformType::Dct16x8 | TransformType::Dct8x16 => 4,
        TransformType::Dct32x8 | TransformType::Dct8x32 => 5,
        TransformType::Dct32x16 | TransformType::Dct16x32 => 6,
        TransformType::Dct64x64 => 7,
        TransformType::Dct64x32 | TransformType::Dct32x64 => 8,
        TransformType::Dct128x128 => 9,
        TransformType::Dct128x64 | TransformType::Dct64x128 => 10,
        TransformType::Dct256x256 => 11,
        TransformType::Dct256x128 | TransformType::Dct128x256 => 12,
    }
}

/// `(bwidth, bheight)` of the coefficient block of order id `oid`.
pub fn varblock_size_for_order(oid: u32) -> (r: (u32, u32))
    ensures
        r == spec_varblock_size(oid),
{
    if oid <= 1 {
        (8, 8)
    } else if oid == 2 {
        (16, 16)
    } else if oid == 3 {
        (32, 32)
    } else if oid == 4 {
        (16, 8)
    } else if oid == 5 {
        (32, 8)
    } else if oid == 6 {
        (32, 16)
    } else if oid == 7 {
        (64, 64)
    } else if oid == 8 {
        (64, 32)
    } else if oid == 9 {
        (128, 128)
    } else if oid == 10 {
        (128, 64)
    } else if oid == 11 {
        (256, 256)
    } else {
        (256, 128)
    }
}

/// Number of coefficients of the block of order id `oid`:
/// `bwidth × bheight`.
pub fn coefficient_count(oid: u32) -> (r: u32)
    ensures
        r == spec_varblock_size(oid).0 * spec_varblock_size(oid).1,
{
    let (w, h) = varblock_size_for_order(oid);
    w * h
}

impl TransformType {
    /// Residual block in samples, `(rows, cols)`.
    pub fn pixel_dims(self) -> (r: (u32, u32))
        ensures
            r == spec_pixel_dims(self),
    {
        match self {
            TransformType::Dct16x16 => (16, 16),
            TransformType::Dct32x32 => (32, 32),
            TransformType::Dct16x8 => (16, 8),
            TransformType::Dct8x16 => (8, 16),
            TransformType::Dct32x8 => (32, 8),
            TransformType::Dct8x32 => (8, 32),
            TransformType::Dct32x16 => (32, 16),
            TransformType::Dct16x32 => (16, 32),
            TransformType::Dct64x64 => (64, 64),
            TransformType::Dct64x32 => (64, 32),
            TransformType::Dct32x64 => (32, 64),
            TransformType::Dct128x128 => (128, 128),
            TransformType::Dct128x64 => (128, 64),
            TransformType::Dct64x128 => (64, 128),
            TransformType::Dct256x256 => (256, 256),
            TransformType::Dct256x128 => (256, 128),
            TransformType::Dct128x256 => (128, 256),
            _ => (8, 8),
        }
    }

    /// Footprint in 8×8 blocks, `(columns, rows)`.
    pub fn block_dims(self) -> (r: (u32, u32))
        ensures
            r == spec_block_dims(self),
            1 <= r.0 <= 32 && 1 <= r.1 <= 32,
    {
        let (rows, cols) = self.pixel_dims();
        (cols / 8, rows / 8)
    }
}

/// The statement of [`law_transform_shapes_agree`] for one transform.
pub open spec fn law_holds(t: TransformType) -> bool {
    &&& spec_pixel_dims(t).1 == 8 * spec_block_dims(t).0
    &&& spec_pixel_dims(t).0 == 8 * spec_block_dims(t).1
    &&& spec_varblock_size(spec_order_id(t)).0 * spec_varblock_size(spec_order_id(t)).1
        == spec_pixel_dims(t).0 * spec_pixel_dims(t).1
    &&& spec_varblock_size(spec_order_id(t)).0 * spec_varblock_size(spec_order_id(t)).1
        == 64 * spec_block_dims(t).0 * spec_block_dims(t).1
}

/// A transform's coefficient block holds as many samples as its residual
/// block, and its footprint is a whole number of 8×8 blocks: the
/// residual block is `8 × columns` wide and `8 × rows` high, and the
/// coefficient count is `64 × columns × rows`.
pub proof fn law_transform_shapes_agree(t: TransformType)
    ensures
        spec_pixel_dims(t).1 == 8 * spec_block_dims(t).0,
        spec_pixel_dims(t).0 == 8 * spec_block_dims(t).1,
        spec_varblock_size(spec_order_id(t)).0 * spec_varblock_size(spec_order_id(t)).1
            == spec_pixel_dims(t).0 * spec_pixel_dims(t).1,
        spec_varblock_size(spec_order_id(t)).0 * spec_varblock_size(spec_order_id(t)).1
            == 64 * spec_block_dims(t).0 * spec_block_dims(t).1,
{
    match t {
        TransformType::Dct8x8 => {
            assert(law_holds(TransformType::Dct8x8)) by (nonlinear_arith);
        },
        TransformType::Hornuss => {
            assert(law_holds(TransformType::Hornuss)) by (nonlinear_arith);
        },
        TransformType::Dct2x2 => {
            assert(law_holds(TransformType::Dct2x2)) by (nonlinear_arith);
        },
        TransformType::Dct4x4 => {
            assert(law_holds(TransformType::Dct4x4)) by (nonlinear_arith);
        },
        TransformType::Dct16x16 => {
            assert(law_holds(TransformType::Dct16x16)) by (nonlinear_arith);
        },
        TransformType::Dct32x32 => {
            assert(law_holds(TransformType::Dct32x32)) by (nonlinear_arith);
        },
        TransformType::Dct16x8 => {
            assert(law_holds(TransformType::Dct16x8)) by (nonlinear_arith);
        },
        TransformType::Dct8x16 => {
            assert(law_holds(TransformType::Dct8x16)) by (nonlinear_arith);
        },
        TransformType::Dct32x8 => {
            assert(law_holds(TransformType::Dct32x8)) by (nonlinear_arith);
        },
        TransformType::Dct8x32 => {
            assert(law_holds(TransformType::Dct8x32)) by (nonlinear_arith);
        },
        TransformType::Dct32x16 => {
            assert(law_holds(TransformType::Dct32x16)) by (nonlinear_arith);
        },
        TransformType::Dct16x32 => {
            assert(law_holds(TransformType::Dct16x32)) by (nonlinear_arith);
        },
        TransformType::Dct4x8 => {
            assert(law_holds(TransformType::Dct4x8)) by (nonlinear_arith);
        },
        TransformType::Dct8x4 => {
            assert(law_holds(TransformType::Dct8x4)) by (nonlinear_arith);
        },
        TransformType::Afv0 => {
            assert(law_holds(TransformType::Afv0)) by (nonlinear_arith);
        },
        TransformType::Afv1 => {
            assert(law_holds(TransformType::Afv1)) by (nonlinear_arith);
        },
        TransformType::Afv2 => {
            assert(law_holds(TransformType::Afv2)) by (nonlinear_arith);
        },
        TransformType::Afv3 => {
            assert(law_holds(TransformType::Afv3)) by (nonlinear_arith);
        },
        TransformType::Dct64x64 => {
            assert(law_holds(TransformType::Dct64x64)) by (nonlinear_arith);
        },
        TransformType::Dct64x32 => {
            assert(law_holds(TransformType::Dct64x32)) by (nonlinear_arith);
        },
        TransformType::Dct32x64 => {
            assert(law_holds(TransformType::Dct32x64)) by (nonlinear_arith);
        },
        TransformType::Dct128x128 => {
            assert(law_holds(TransformType::Dct128x128)) by (nonlinear_arith);
        },
        TransformType::Dct128x64 => {
            assert(law_holds(TransformType::Dct128x64)) by (nonlinear_arith);
        },
        TransformType::Dct64x128 => {
            assert(law_holds(TransformType::Dct64x128)) by (nonlinear_arith);
        },
        TransformType::Dct256x256 => {
            assert(law_holds(TransformType::Dct256x256)) by (nonlinear_arith);
        },
        TransformType::Dct256x128 => {
            assert(law_holds(TransformType::Dct256x128)) by (nonlinear_arith);
        },
        TransformType::Dct128x256 => {
            assert(law_holds(TransformType::Dct128x256)) by (nonlinear_arith);
        },
    }
}

} // verus!
