//! Shape of a transform's residual block in the reconstructed plane.
use vstd::prelude::*;
use crate::transform::{TransformType, spec_pixel_dims};

verus! {

/// Pixel shape `(rows, cols)` of a transform's residual block; every
/// transform has one.
pub fn block_pixel_dims(t: TransformType) -> (r: Option<(usize, usize)>)
    ensures
        r == Some((spec_pixel_dims(t).0 as usize, spec_pixel_dims(t).1 as usize)),
{
    let (rows, cols) = t.pixel_dims();
    Some((rows as usize, cols as usize))
}

} // verus!
