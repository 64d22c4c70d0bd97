use jpegxl_decode::error::JxlError;
use jpegxl_decode::non_zeros_grid::{decode_block_at, NonZerosGrid};
use jpegxl_decode::per_channel_non_zeros::PerChannelNonZerosGrids;
use jpegxl_decode::per_pass_non_zeros::PerPassNonZerosGrids;
use jpegxl_decode::transform::TransformType;

/// A stand-in coefficient order of `size` positions (only zero symbols
/// are decoded here, so the order does not show in the results).
fn order(size: u32) -> Vec<u32> {
    (0..size).rev().collect()
}

#[test]
fn decode_block_at_dct8x8_chains_grid_state() {
    let mut g = NonZerosGrid::new(2, 1).unwrap();
    let o = order(64);
    let mut non_zeros_ctxs_seen: Vec<u32> = Vec::new();
    let read_non_zeros = |ctx: u32| -> Result<u32, JxlError> {
        non_zeros_ctxs_seen.push(ctx);
        Ok(3u32)
    };
    let decode_symbol = |_ctx: u32| -> Result<u32, JxlError> { Ok(0u32) };
    let (_decoded, raw_non_zeros) =
        decode_block_at(&mut g, 0, 0, TransformType::Dct8x8, &o, 0, 1, read_non_zeros, decode_symbol).unwrap();
    assert_eq!(raw_non_zeros, 3);
    assert_eq!(g.get(0, 0).unwrap(), 3, "ceil(3/1) = 3");

    let mut second_ctxs: Vec<u32> = Vec::new();
    let read_non_zeros_2 = |ctx: u32| -> Result<u32, JxlError> {
        second_ctxs.push(ctx);
        Ok(5u32)
    };
    let decode_symbol_2 = |_ctx: u32| -> Result<u32, JxlError> { Ok(0u32) };
    let (_decoded, raw_non_zeros_2) =
        decode_block_at(&mut g, 1, 0, TransformType::Dct8x8, &o, 0, 1, read_non_zeros_2, decode_symbol_2).unwrap();
    assert_eq!(raw_non_zeros_2, 5);
    assert_eq!(g.get(1, 0).unwrap(), 5, "ceil(5/1) = 5");
    assert_eq!(second_ctxs, vec![3], "non_zeros context for predicted = 3 must be {}", 3);
}

#[test]
fn decode_block_at_dct16x16_ceil_divides_num_blocks() {
    let mut g = NonZerosGrid::new(2, 2).unwrap();
    let o = order(256);
    let read_non_zeros = |_ctx: u32| -> Result<u32, JxlError> { Ok(17u32) };
    let decode_symbol = |_ctx: u32| -> Result<u32, JxlError> { Ok(0u32) };
    let (_decoded, raw_non_zeros) =
        decode_block_at(&mut g, 0, 0, TransformType::Dct16x16, &o, 0, 1, read_non_zeros, decode_symbol).unwrap();
    assert_eq!(raw_non_zeros, 17);
    for (x, y) in [(0, 0), (1, 0), (0, 1), (1, 1)] {
        assert_eq!(g.get(x, y).unwrap(), 5, "ceil(17/4) = 5 at ({x},{y})");
    }
}

#[test]
fn decode_block_at_oob_errors() {
    let mut g = NonZerosGrid::new(2, 2).unwrap();
    let o = order(64);
    let read_non_zeros = |_ctx: u32| -> Result<u32, JxlError> { Ok(0u32) };
    let decode_symbol = |_ctx: u32| -> Result<u32, JxlError> { Ok(0u32) };
    let r = decode_block_at(&mut g, 2, 0, TransformType::Dct8x8, &o, 0, 1, read_non_zeros, decode_symbol);
    assert!(r.is_err());
}

#[test]
fn decode_block_at_for_channel_routes_per_channel() {
    let mut p = PerChannelNonZerosGrids::new_uniform(3, 2, 2).unwrap();
    let o = order(64);
    let read_non_zeros = |_ctx: u32| -> Result<u32, JxlError> { Ok(3u32) };
    let decode_symbol = |_ctx: u32| -> Result<u32, JxlError> { Ok(0u32) };
    let (_decoded, raw_non_zeros) = p
        .decode_block_at_for_channel(0, 0, 0, TransformType::Dct8x8, &o, 0, 1, read_non_zeros, decode_symbol)
        .unwrap();
    assert_eq!(raw_non_zeros, 3);
    assert_eq!(p.get(0, 0, 0).unwrap(), 3);
    assert_eq!(p.get(1, 0, 0).unwrap(), 0);
    assert_eq!(p.get(2, 0, 0).unwrap(), 0);
}

#[test]
fn decode_block_at_for_channel_oob_channel_errors() {
    let mut p = PerChannelNonZerosGrids::new_uniform(3, 2, 2).unwrap();
    let o = order(64);
    let read_non_zeros = |_ctx: u32| -> Result<u32, JxlError> { Ok(0u32) };
    let decode_symbol = |_ctx: u32| -> Result<u32, JxlError> { Ok(0u32) };
    let r = p.decode_block_at_for_channel(3, 0, 0, TransformType::Dct8x8, &o, 0, 1, read_non_zeros, decode_symbol);
    assert!(r.is_err());
}

#[test]
fn decode_block_at_for_channel_dct16x16_ceil_divides() {
    let mut p = PerChannelNonZerosGrids::new_uniform(3, 2, 2).unwrap();
    let o = order(256);
    let read_non_zeros = |_ctx: u32| -> Result<u32, JxlError> { Ok(17u32) };
    let decode_symbol = |_ctx: u32| -> Result<u32, JxlError> { Ok(0u32) };
    let (_decoded, raw_non_zeros) = p
        .decode_block_at_for_channel(1, 0, 0, TransformType::Dct16x16, &o, 0, 1, read_non_zeros, decode_symbol)
        .unwrap();
    assert_eq!(raw_non_zeros, 17);
    for (x, y) in [(0, 0), (1, 0), (0, 1), (1, 1)] {
        assert_eq!(p.get(1, x, y).unwrap(), 5, "footprint cell ({x},{y})");
    }
    assert_eq!(p.get(0, 0, 0).unwrap(), 0, "channel 0 untouched");
}

#[test]
fn three_channel_raster_walk_independent_evolution() {
    let mut p = PerChannelNonZerosGrids::new_uniform(3, 2, 1).unwrap();
    let o = order(64);
    for (c, nz) in [(0u32, 4u32), (1, 12), (2, 20)] {
        let read_non_zeros = |_ctx: u32| -> Result<u32, JxlError> { Ok(nz) };
        let decode_symbol = |_ctx: u32| -> Result<u32, JxlError> { Ok(0u32) };
        let _ = p
            .decode_block_at_for_channel(c, 0, 0, TransformType::Dct8x8, &o, 0, 1, read_non_zeros, decode_symbol)
            .unwrap();
    }
    assert_eq!(p.predicted(0, 1, 0).unwrap(), 4);
    assert_eq!(p.predicted(1, 1, 0).unwrap(), 12);
    assert_eq!(p.predicted(2, 1, 0).unwrap(), 20);
}

#[test]
fn update_after_block_for_transform_per_pass() {
    let mut p = PerPassNonZerosGrids::new_uniform(3, 3, 4, 4).unwrap();
    let v0 = p.update_after_block_for_transform(0, 0, 0, 0, 17, TransformType::Dct8x8).unwrap();
    let v1 = p.update_after_block_for_transform(1, 1, 0, 0, 17, TransformType::Dct16x16).unwrap();
    let v2 = p.update_after_block_for_transform(2, 2, 0, 0, 17, TransformType::Dct32x32).unwrap();
    assert_eq!(v0, 17, "ceil(17/1) = 17");
    assert_eq!(v1, 5, "ceil(17/4) = 5");
    assert_eq!(v2, 2, "ceil(17/16) = 2");
    assert_eq!(p.get(1, 1, 1, 1).unwrap(), 5, "DCT16x16 2×2 footprint");
    assert_eq!(p.get(2, 2, 3, 3).unwrap(), 2, "DCT32x32 4×4 footprint");
    assert_eq!(p.get(0, 0, 1, 1).unwrap(), 0, "pass 0 only wrote (0,0)");
}

#[test]
fn decode_block_at_for_pass_channel_routes_correctly() {
    let mut p = PerPassNonZerosGrids::new_uniform(2, 3, 2, 2).unwrap();
    let o = order(64);
    let read_non_zeros = |_ctx: u32| -> Result<u32, JxlError> { Ok(3u32) };
    let decode_symbol = |_ctx: u32| -> Result<u32, JxlError> { Ok(0u32) };
    let (_decoded, raw_non_zeros) = p
        .decode_block_at_for_pass_channel(1, 0, 0, 0, TransformType::Dct8x8, &o, 0, 1, read_non_zeros, decode_symbol)
        .unwrap();
    assert_eq!(raw_non_zeros, 3);
    assert_eq!(p.get(1, 0, 0, 0).unwrap(), 3);
    assert_eq!(p.get(0, 0, 0, 0).unwrap(), 0);
    assert_eq!(p.get(1, 1, 0, 0).unwrap(), 0);
    assert_eq!(p.get(1, 2, 0, 0).unwrap(), 0);
}

#[test]
fn decode_block_at_for_pass_channel_oob_pass_errors() {
    let mut p = PerPassNonZerosGrids::new_uniform(2, 3, 2, 2).unwrap();
    let o = order(64);
    let read_non_zeros = |_ctx: u32| -> Result<u32, JxlError> { Ok(0u32) };
    let decode_symbol = |_ctx: u32| -> Result<u32, JxlError> { Ok(0u32) };
    let r = p.decode_block_at_for_pass_channel(2, 0, 0, 0, TransformType::Dct8x8, &o, 0, 1, read_non_zeros, decode_symbol);
    assert!(r.is_err());
}

#[test]
fn decode_block_at_for_pass_channel_oob_channel_errors() {
    let mut p = PerPassNonZerosGrids::new_uniform(2, 3, 2, 2).unwrap();
    let o = order(64);
    let read_non_zeros = |_ctx: u32| -> Result<u32, JxlError> { Ok(0u32) };
    let decode_symbol = |_ctx: u32| -> Result<u32, JxlError> { Ok(0u32) };
    let r = p.decode_block_at_for_pass_channel(0, 3, 0, 0, TransformType::Dct8x8, &o, 0, 1, read_non_zeros, decode_symbol);
    assert!(r.is_err());
}

#[test]
fn decode_block_at_for_pass_channel_dct16x16_ceil_divides() {
    let mut p = PerPassNonZerosGrids::new_uniform(2, 3, 2, 2).unwrap();
    let o = order(256);
    let read_non_zeros = |_ctx: u32| -> Result<u32, JxlError> { Ok(17u32) };
    let decode_symbol = |_ctx: u32| -> Result<u32, JxlError> { Ok(0u32) };
    let (_decoded, raw_non_zeros) = p
        .decode_block_at_for_pass_channel(0, 1, 0, 0, TransformType::Dct16x16, &o, 0, 1, read_non_zeros, decode_symbol)
        .unwrap();
    assert_eq!(raw_non_zeros, 17);
    for (x, y) in [(0, 0), (1, 0), (0, 1), (1, 1)] {
        assert_eq!(p.get(0, 1, x, y).unwrap(), 5, "footprint cell ({x},{y})");
    }
    assert_eq!(p.get(1, 1, 0, 0).unwrap(), 0, "pass 1 untouched");
}

#[test]
fn two_pass_three_channel_raster_walk_independent_evolution() {
    let mut p = PerPassNonZerosGrids::new_uniform(2, 3, 2, 1).unwrap();
    let o = order(64);
    for (c, nz) in [(0u32, 7u32), (1, 9), (2, 11)] {
        let read_non_zeros = |_ctx: u32| -> Result<u32, JxlError> { Ok(nz) };
        let decode_symbol = |_ctx: u32| -> Result<u32, JxlError> { Ok(0u32) };
        let _ = p
            .decode_block_at_for_pass_channel(0, c, 0, 0, TransformType::Dct8x8, &o, 0, 1, read_non_zeros, decode_symbol)
            .unwrap();
    }
    for (c, nz) in [(0u32, 2u32), (1, 4), (2, 6)] {
        let read_non_zeros = |_ctx: u32| -> Result<u32, JxlError> { Ok(nz) };
        let decode_symbol = |_ctx: u32| -> Result<u32, JxlError> { Ok(0u32) };
        let _ = p
            .decode_block_at_for_pass_channel(1, c, 0, 0, TransformType::Dct8x8, &o, 0, 1, read_non_zeros, decode_symbol)
            .unwrap();
    }
    assert_eq!(p.predicted(0, 0, 1, 0).unwrap(), 7);
    assert_eq!(p.predicted(0, 1, 1, 0).unwrap(), 9);
    assert_eq!(p.predicted(0, 2, 1, 0).unwrap(), 11);
    assert_eq!(p.predicted(1, 0, 1, 0).unwrap(), 2);
    assert_eq!(p.predicted(1, 1, 1, 0).unwrap(), 4);
    assert_eq!(p.predicted(1, 2, 1, 0).unwrap(), 6);
}

#[test]
fn pass_independent_default_three_pass_dct8x8_chain() {
    let mut p = PerPassNonZerosGrids::new_uniform(3, 3, 2, 1).unwrap();
    let o = order(64);
    for pp in 0..3 {
        let read_non_zeros = |_ctx: u32| -> Result<u32, JxlError> { Ok(5u32) };
        let decode_symbol = |_ctx: u32| -> Result<u32, JxlError> { Ok(0u32) };
        let _ = p
            .decode_block_at_for_pass_channel(pp, 0, 0, 0, TransformType::Dct8x8, &o, 0, 1, read_non_zeros, decode_symbol)
            .unwrap();
    }
    for pp in 0..3 {
        assert_eq!(p.predicted(pp, 0, 1, 0).unwrap(), 5);
    }
    for pp in 0..3 {
        assert_eq!(p.predicted(pp, 1, 0, 0).unwrap(), 32);
        assert_eq!(p.predicted(pp, 2, 0, 0).unwrap(), 32);
    }
}
