use jpegxl_decode::error::JxlError;
use jpegxl_decode::noise::{split_mix_64, XorShift128Plus};
use jpegxl_decode::patches::{decode_patches_with, PatchBlendMode};
use jpegxl_decode::residual_plane::block_pixel_dims;
use jpegxl_decode::transform::TransformType;
use jpegxl_decode::transform::TransformType as T;

#[test]
fn split_mix_64_is_deterministic_and_nontrivial() {
    let a = split_mix_64(0);
    let b = split_mix_64(1);
    assert_ne!(a, b);
    assert_ne!(split_mix_64(a), split_mix_64(b));
}

#[test]
fn split_mix_64_known_value() {
    // SplitMix64 of 0x9E3779B97F4A7C15 (the first output of the usual
    // seeding from 0).
    assert_eq!(split_mix_64(0x9E37_79B9_7F4A_7C15), 0xE220_A839_7B1D_CDAF);
}

#[test]
fn xorshift_batch_outputs_lane_sums_and_advances() {
    let mut a = XorShift128Plus::new(7);
    let mut b = XorShift128Plus::new(7);
    let first = a.batch();
    assert_eq!(first, b.batch());
    let second = a.batch();
    assert_ne!(first, second);
    let mut c = XorShift128Plus::new(8);
    assert_ne!(c.batch(), first);
}

#[test]
fn scripted_decode_follows_listing_c2() {
    let script: Vec<(u32, u32)> = vec![
        (0, 2),
        (1, 1),
        (3, 3),
        (3, 4),
        (2, 1),
        (2, 2),
        (7, 0),
        (4, 5),
        (4, 6),
        (5, 2),
        (1, 0),
        (3, 0),
        (3, 0),
        (2, 0),
        (2, 0),
        (7, 1),
        (4, 1),
        (4, 1),
        (5, 1),
        (5, 2),
        (5, 4),
        (5, 3),
        (9, 0),
    ];
    let mut idx = 0usize;
    let patches = decode_patches_with(
        |ctx| {
            let (want_ctx, v) = script[idx];
            assert_eq!(ctx, want_ctx, "context mismatch at token {idx}");
            idx += 1;
            Ok(v)
        },
        0,
        0,
        64,
        64,
    )
    .expect("scripted patch decode");
    assert_eq!(idx, script.len(), "every scripted token consumed");
    assert_eq!(patches.len(), 2);
    assert_eq!(patches[0].reference, 1);
    assert_eq!((patches[0].x0, patches[0].y0), (3, 4));
    assert_eq!((patches[0].width, patches[0].height), (2, 3));
    assert_eq!(patches[0].positions, vec![(5, 6)]);
    assert_eq!(patches[0].blendings[0][0].mode, PatchBlendMode::Add);
    assert_eq!(patches[1].positions, vec![(1, 1), (2, 3)]);
    assert_eq!(patches[1].blendings[0][0].mode, PatchBlendMode::Replace);
    assert_eq!(patches[1].blendings[1][0].mode, PatchBlendMode::Mul);
    assert!(!patches[1].blendings[1][0].clamp);
}

#[test]
fn out_of_frame_position_is_rejected() {
    let script: Vec<u32> = vec![1, 0, 0, 0, 3, 3, 0, 62, 0];
    let mut idx = 0usize;
    let err = decode_patches_with(
        |_ctx| {
            let v = script[idx];
            idx += 1;
            Ok(v)
        },
        0,
        0,
        64,
        64,
    )
    .unwrap_err();
    match err {
        JxlError::InvalidData(msg) => assert!(msg.contains("not contained")),
        other => panic!("expected InvalidData, got {other:?}"),
    }
}

#[test]
fn patch_reference_slot_above_three_is_rejected() {
    let script: Vec<u32> = vec![1, 4];
    let mut idx = 0usize;
    let r = decode_patches_with(
        |_ctx| {
            let v = script[idx];
            idx += 1;
            Ok(v)
        },
        0,
        0,
        64,
        64,
    );
    assert!(matches!(r, Err(JxlError::InvalidData(_))));
}

#[test]
fn blend_mode_fields() {
    assert_eq!(PatchBlendMode::from_u32(0).unwrap(), PatchBlendMode::NoBlend);
    assert!(PatchBlendMode::from_u32(8).is_err());
    assert!(PatchBlendMode::BlendBelow.uses_alpha());
    assert!(!PatchBlendMode::Mul.uses_alpha());
    assert!(PatchBlendMode::Mul.has_clamp());
    assert!(!PatchBlendMode::Add.has_clamp());
}

#[test]
fn block_pixel_dims_covers_every_transform() {
    assert_eq!(block_pixel_dims(T::Dct8x8), Some((8, 8)));
    assert_eq!(block_pixel_dims(T::Dct16x8), Some((16, 8)));
    assert_eq!(block_pixel_dims(T::Dct8x16), Some((8, 16)));
    assert_eq!(block_pixel_dims(T::Dct256x256), Some((256, 256)));
    for t in [T::Hornuss, T::Dct2x2, T::Dct4x4, T::Dct4x8, T::Dct8x4, T::Afv0, T::Afv1, T::Afv2, T::Afv3] {
        assert_eq!(block_pixel_dims(t), Some((8, 8)), "{t:?}");
    }
}

#[test]
fn pixel_dims_match_block_dims_times_8_for_every_transform() {
    for t in [
        T::Dct8x8,
        T::Dct16x16,
        T::Dct32x32,
        T::Dct16x8,
        T::Dct8x16,
        T::Dct32x8,
        T::Dct8x32,
        T::Dct32x16,
        T::Dct16x32,
        T::Dct64x64,
        T::Dct64x32,
        T::Dct32x64,
        T::Dct128x128,
        T::Dct128x64,
        T::Dct64x128,
        T::Dct256x256,
        T::Dct256x128,
        T::Dct128x256,
        T::Hornuss,
        T::Dct2x2,
        T::Dct4x4,
        T::Dct4x8,
        T::Dct8x4,
        T::Afv0,
        T::Afv1,
        T::Afv2,
        T::Afv3,
    ] {
        let (rows, cols) = block_pixel_dims(t).unwrap();
        let (bcols, brows) = t.block_dims();
        assert_eq!(cols, bcols as usize * 8, "{t:?} cols vs block_dims");
        assert_eq!(rows, brows as usize * 8, "{t:?} rows vs block_dims");
    }
}
