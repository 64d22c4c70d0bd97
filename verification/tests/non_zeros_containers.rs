use jpegxl_decode::per_channel_non_zeros::{PerChannelNonZerosGrids, DEFAULT_NUM_CHANNELS};
use jpegxl_decode::per_pass_non_zeros::PerPassNonZerosGrids;
use jpegxl_decode::transform::TransformType;

#[test]
fn new_rejects_empty_dims() {
    let r = PerChannelNonZerosGrids::new(&[]);
    assert!(r.is_err());
}

#[test]
fn new_rejects_zero_dim_in_any_channel() {
    let r = PerChannelNonZerosGrids::new(&[(8, 8), (0, 4)]);
    assert!(r.is_err());
    let r2 = PerChannelNonZerosGrids::new(&[(8, 0)]);
    assert!(r2.is_err());
}

#[test]
fn new_rejects_oversize_dim_in_any_channel() {
    let big = u16::MAX as u32 + 1;
    let r = PerChannelNonZerosGrids::new(&[(8, 8), (big, 4)]);
    assert!(r.is_err());
}

#[test]
fn default_num_channels_is_three() {
    assert_eq!(DEFAULT_NUM_CHANNELS, 3);
}

#[test]
fn chroma_subsampled_shapes_persist() {
    let mut p = PerChannelNonZerosGrids::new(&[(16, 16), (8, 8), (8, 8)]).unwrap();
    p.set(0, 15, 15, 50).unwrap();
    assert_eq!(p.get(0, 15, 15).unwrap(), 50);
    assert!(p.set(1, 15, 15, 99).is_err());
    assert!(p.get(2, 15, 15).is_err());
    p.set(1, 7, 7, 77).unwrap();
    assert_eq!(p.get(1, 7, 7).unwrap(), 77);
}

#[test]
fn set_oob_channel_errors() {
    let mut p = PerChannelNonZerosGrids::new_uniform(3, 2, 2).unwrap();
    assert!(p.set(3, 0, 0, 5).is_err());
}

#[test]
fn get_oob_channel_errors() {
    let p = PerChannelNonZerosGrids::new_uniform(3, 2, 2).unwrap();
    assert!(p.get(3, 0, 0).is_err());
}

#[test]
fn per_channel_predicted_reads_own_channel() {
    let mut p = PerChannelNonZerosGrids::new(&[(16, 16), (8, 8), (8, 8)]).unwrap();
    p.set(0, 0, 0, 4).unwrap();
    p.set(1, 0, 0, 12).unwrap();
    p.set(2, 0, 0, 20).unwrap();
    assert_eq!(p.num_channels(), 3);
    assert_eq!(p.grid(0).unwrap().width(), 16);
    assert_eq!(p.predicted(0, 1, 0).unwrap(), 4);
    assert_eq!(p.predicted(1, 1, 0).unwrap(), 12);
    assert_eq!(p.predicted(2, 1, 0).unwrap(), 20);
}

#[test]
fn new_rejects_empty_pass_list() {
    let r = PerPassNonZerosGrids::new(&[]);
    assert!(r.is_err());
}

#[test]
fn new_propagates_per_channel_validation() {
    let empty: &[(u32, u32)] = &[];
    let r = PerPassNonZerosGrids::new(&[empty]);
    assert!(r.is_err());
    let bad: &[(u32, u32)] = &[(0, 8)];
    let r2 = PerPassNonZerosGrids::new(&[bad]);
    assert!(r2.is_err());
}

#[test]
fn per_pass_chroma_subsampled_shapes_persist() {
    let pass0: [(u32, u32); 3] = [(16, 16), (8, 8), (8, 8)];
    let pass1: [(u32, u32); 3] = [(16, 16), (8, 8), (8, 8)];
    let mut p = PerPassNonZerosGrids::new(&[&pass0[..], &pass1[..]]).unwrap();
    p.set(0, 0, 15, 15, 99).unwrap();
    assert_eq!(p.get(0, 0, 15, 15).unwrap(), 99);
    assert!(p.set(0, 1, 15, 15, 50).is_err());
    assert!(p.set(1, 2, 15, 15, 50).is_err());
    p.set(1, 1, 7, 7, 77).unwrap();
    assert_eq!(p.get(1, 1, 7, 7).unwrap(), 77);
}

#[test]
fn update_after_block_oob_pass_errors() {
    let mut p = PerPassNonZerosGrids::new_uniform(2, 3, 2, 2).unwrap();
    assert!(p.update_after_block(2, 0, 0, 0, 5, 1).is_err());
    assert!(p.update_after_block(0, 3, 0, 0, 5, 1).is_err());
}

#[test]
fn per_pass_update_stays_in_its_pass() {
    let mut p = PerPassNonZerosGrids::new_uniform(3, 3, 2, 1).unwrap();
    let v = p.update_after_block(1, 0, 0, 0, 5, 1).unwrap();
    assert_eq!(v, 5);
    assert_eq!(p.predicted(1, 0, 1, 0).unwrap(), 5);
    assert_eq!(p.predicted(0, 0, 1, 0).unwrap(), 0);
    assert_eq!(p.predicted(2, 0, 1, 0).unwrap(), 0);
    assert_eq!(p.num_passes(), 3);
}

#[test]
fn new_accepts_three_channels_chroma_subsampled() {
    let p = PerChannelNonZerosGrids::new(&[(16, 16), (8, 8), (8, 8)]).unwrap();
    assert_eq!(p.num_channels(), 3);
    assert_eq!(p.grid(0).unwrap().width(), 16);
    assert_eq!(p.grid(0).unwrap().height(), 16);
    assert_eq!(p.grid(1).unwrap().width(), 8);
    assert_eq!(p.grid(2).unwrap().width(), 8);
}

#[test]
fn new_uniform_three_channels() {
    let p = PerChannelNonZerosGrids::new_uniform(3, 4, 4).unwrap();
    assert_eq!(p.num_channels(), 3);
    for c in 0..3 {
        assert_eq!(p.grid(c).unwrap().width(), 4);
        assert_eq!(p.grid(c).unwrap().height(), 4);
    }
}

#[test]
fn new_uniform_rejects_zero_channels() {
    let r = PerChannelNonZerosGrids::new_uniform(0, 4, 4);
    assert!(r.is_err());
}

#[test]
fn new_uniform_propagates_grid_validation() {
    let r = PerChannelNonZerosGrids::new_uniform(3, 0, 4);
    assert!(r.is_err());
}

#[test]
fn grid_oob_channel_errors() {
    let p = PerChannelNonZerosGrids::new_uniform(3, 4, 4).unwrap();
    assert!(p.grid(3).is_err());
    assert!(p.grid(100).is_err());
}

#[test]
fn grid_mut_oob_channel_errors() {
    let mut p = PerChannelNonZerosGrids::new_uniform(3, 4, 4).unwrap();
    assert!(p.grid_mut(3).is_err());
}

#[test]
fn grid_mut_writes_through() {
    let mut p = PerChannelNonZerosGrids::new_uniform(3, 4, 4).unwrap();
    p.grid_mut(1).unwrap().set(2, 3, 9).unwrap();
    assert_eq!(p.get(1, 2, 3).unwrap(), 9);
    assert_eq!(p.get(0, 2, 3).unwrap(), 0);
}

#[test]
fn predicted_origin_is_32_for_every_channel() {
    let p = PerChannelNonZerosGrids::new_uniform(3, 4, 4).unwrap();
    for c in 0..3 {
        assert_eq!(p.predicted(c, 0, 0).unwrap(), 32);
    }
}

#[test]
fn predicted_propagates_per_channel_get() {
    let mut p = PerChannelNonZerosGrids::new_uniform(3, 4, 4).unwrap();
    p.set(0, 0, 0, 10).unwrap();
    p.set(1, 0, 0, 20).unwrap();
    p.set(2, 0, 0, 30).unwrap();
    assert_eq!(p.predicted(0, 1, 0).unwrap(), 10);
    assert_eq!(p.predicted(1, 1, 0).unwrap(), 20);
    assert_eq!(p.predicted(2, 1, 0).unwrap(), 30);
}

#[test]
fn per_channel_non_zeros_predicted_oob_position_errors() {
    let p = PerChannelNonZerosGrids::new_uniform(3, 4, 4).unwrap();
    assert!(p.predicted(0, 4, 0).is_err());
    assert!(p.predicted(0, 0, 4).is_err());
}

#[test]
fn per_channel_non_zeros_predicted_oob_channel_errors() {
    let p = PerChannelNonZerosGrids::new_uniform(3, 4, 4).unwrap();
    assert!(p.predicted(3, 0, 0).is_err());
}

#[test]
fn get_set_per_channel_independent() {
    let mut p = PerChannelNonZerosGrids::new_uniform(3, 2, 2).unwrap();
    p.set(0, 0, 0, 7).unwrap();
    assert_eq!(p.get(0, 0, 0).unwrap(), 7);
    assert_eq!(p.get(1, 0, 0).unwrap(), 0);
    assert_eq!(p.get(2, 0, 0).unwrap(), 0);
}

#[test]
fn update_after_block_per_channel_ceiling_divide() {
    let mut p = PerChannelNonZerosGrids::new_uniform(3, 2, 2).unwrap();
    let v = p.update_after_block(1, 0, 0, 17, 4).unwrap();
    assert_eq!(v, 5);
    assert_eq!(p.get(1, 0, 0).unwrap(), 5);
    assert_eq!(p.get(0, 0, 0).unwrap(), 0);
    assert_eq!(p.get(2, 0, 0).unwrap(), 0);
}

#[test]
fn update_after_block_for_transform_per_channel() {
    let mut p = PerChannelNonZerosGrids::new_uniform(3, 4, 4).unwrap();
    let v0 = p.update_after_block_for_transform(0, 0, 0, 17, TransformType::Dct8x8).unwrap();
    let v1 = p.update_after_block_for_transform(1, 0, 0, 17, TransformType::Dct16x16).unwrap();
    let v2 = p.update_after_block_for_transform(2, 0, 0, 17, TransformType::Dct32x32).unwrap();
    assert_eq!(v0, 17, "ceil(17/1) = 17");
    assert_eq!(v1, 5, "ceil(17/4) = 5");
    assert_eq!(v2, 2, "ceil(17/16) = 2");
    assert_eq!(p.get(0, 1, 0).unwrap(), 0, "DCT8x8 footprint is 1×1");
    assert_eq!(p.get(1, 1, 1).unwrap(), 5, "DCT16x16 2×2 footprint");
    assert_eq!(p.get(1, 2, 0).unwrap(), 0, "outside DCT16x16 footprint");
    assert_eq!(p.get(2, 3, 3).unwrap(), 2, "DCT32x32 4×4 footprint");
}

#[test]
fn new_accepts_two_passes_chroma_subsampled() {
    let pass0: [(u32, u32); 3] = [(16, 16), (8, 8), (8, 8)];
    let pass1: [(u32, u32); 3] = [(16, 16), (8, 8), (8, 8)];
    let p = PerPassNonZerosGrids::new(&[&pass0[..], &pass1[..]]).unwrap();
    assert_eq!(p.num_passes(), 2);
    assert_eq!(p.pass(0).unwrap().num_channels(), 3);
    assert_eq!(p.pass(0).unwrap().grid(0).unwrap().width(), 16);
    assert_eq!(p.pass(1).unwrap().grid(2).unwrap().width(), 8);
}

#[test]
fn new_accepts_per_pass_different_channel_counts() {
    let pass0: [(u32, u32); 1] = [(8, 8)];
    let pass1: [(u32, u32); 3] = [(8, 8), (8, 8), (8, 8)];
    let p = PerPassNonZerosGrids::new(&[&pass0[..], &pass1[..]]).unwrap();
    assert_eq!(p.pass(0).unwrap().num_channels(), 1);
    assert_eq!(p.pass(1).unwrap().num_channels(), 3);
}

#[test]
fn new_uniform_two_passes_three_channels() {
    let p = PerPassNonZerosGrids::new_uniform(2, 3, 8, 8).unwrap();
    assert_eq!(p.num_passes(), 2);
    for pp in 0..p.num_passes() {
        assert_eq!(p.pass(pp).unwrap().num_channels(), 3);
        for c in 0..3 {
            assert_eq!(p.pass(pp).unwrap().grid(c).unwrap().width(), 8);
        }
    }
}

#[test]
fn new_uniform_rejects_zero_passes() {
    let r = PerPassNonZerosGrids::new_uniform(0, 3, 8, 8);
    assert!(r.is_err());
}

#[test]
fn new_uniform_propagates_per_channel_validation() {
    let r = PerPassNonZerosGrids::new_uniform(2, 0, 8, 8);
    assert!(r.is_err());
    let r2 = PerPassNonZerosGrids::new_uniform(2, 3, 0, 8);
    assert!(r2.is_err());
}

#[test]
fn pass_oob_errors() {
    let p = PerPassNonZerosGrids::new_uniform(2, 3, 4, 4).unwrap();
    assert!(p.pass(2).is_err());
    assert!(p.pass(100).is_err());
}

#[test]
fn pass_mut_oob_errors() {
    let mut p = PerPassNonZerosGrids::new_uniform(2, 3, 4, 4).unwrap();
    assert!(p.pass_mut(2).is_err());
}

#[test]
fn predicted_origin_is_32_for_every_pass_and_channel() {
    let p = PerPassNonZerosGrids::new_uniform(2, 3, 4, 4).unwrap();
    for pp in 0..p.num_passes() {
        for c in 0..p.pass(pp).unwrap().num_channels() {
            assert_eq!(p.predicted(pp, c, 0, 0).unwrap(), 32);
        }
    }
}

#[test]
fn predicted_propagates_per_pass_per_channel_get() {
    let mut p = PerPassNonZerosGrids::new_uniform(2, 3, 4, 4).unwrap();
    p.set(0, 0, 0, 0, 10).unwrap();
    p.set(0, 1, 0, 0, 20).unwrap();
    p.set(0, 2, 0, 0, 30).unwrap();
    p.set(1, 0, 0, 0, 11).unwrap();
    p.set(1, 1, 0, 0, 22).unwrap();
    p.set(1, 2, 0, 0, 33).unwrap();
    assert_eq!(p.predicted(0, 0, 1, 0).unwrap(), 10);
    assert_eq!(p.predicted(0, 1, 1, 0).unwrap(), 20);
    assert_eq!(p.predicted(0, 2, 1, 0).unwrap(), 30);
    assert_eq!(p.predicted(1, 0, 1, 0).unwrap(), 11);
    assert_eq!(p.predicted(1, 1, 1, 0).unwrap(), 22);
    assert_eq!(p.predicted(1, 2, 1, 0).unwrap(), 33);
}

#[test]
fn predicted_oob_pass_errors() {
    let p = PerPassNonZerosGrids::new_uniform(2, 3, 4, 4).unwrap();
    assert!(p.predicted(2, 0, 0, 0).is_err());
}

#[test]
fn per_pass_non_zeros_predicted_oob_channel_errors() {
    let p = PerPassNonZerosGrids::new_uniform(2, 3, 4, 4).unwrap();
    assert!(p.predicted(0, 3, 0, 0).is_err());
}

#[test]
fn per_pass_non_zeros_predicted_oob_position_errors() {
    let p = PerPassNonZerosGrids::new_uniform(2, 3, 4, 4).unwrap();
    assert!(p.predicted(0, 0, 4, 0).is_err());
    assert!(p.predicted(0, 0, 0, 4).is_err());
}

#[test]
fn get_set_per_pass_independent() {
    let mut p = PerPassNonZerosGrids::new_uniform(2, 3, 2, 2).unwrap();
    p.set(0, 0, 0, 0, 7).unwrap();
    assert_eq!(p.get(0, 0, 0, 0).unwrap(), 7);
    assert_eq!(p.get(1, 0, 0, 0).unwrap(), 0);
    assert_eq!(p.get(0, 1, 0, 0).unwrap(), 0);
    assert_eq!(p.get(0, 2, 0, 0).unwrap(), 0);
}

#[test]
fn set_oob_pass_errors() {
    let mut p = PerPassNonZerosGrids::new_uniform(2, 3, 2, 2).unwrap();
    assert!(p.set(2, 0, 0, 0, 5).is_err());
}

#[test]
fn get_oob_pass_errors() {
    let p = PerPassNonZerosGrids::new_uniform(2, 3, 2, 2).unwrap();
    assert!(p.get(2, 0, 0, 0).is_err());
}

#[test]
fn update_after_block_per_pass_independent() {
    let mut p = PerPassNonZerosGrids::new_uniform(2, 3, 2, 2).unwrap();
    let v = p.update_after_block(1, 1, 0, 0, 17, 4).unwrap();
    assert_eq!(v, 5);
    assert_eq!(p.get(1, 1, 0, 0).unwrap(), 5);
    assert_eq!(p.get(0, 1, 0, 0).unwrap(), 0);
    assert_eq!(p.get(1, 0, 0, 0).unwrap(), 0);
    assert_eq!(p.get(1, 2, 0, 0).unwrap(), 0);
}

#[test]
fn update_does_not_overflow_at_u32_max_via_pass_route() {
    let mut p = PerPassNonZerosGrids::new_uniform(2, 3, 1, 1).unwrap();
    let v = p.update_after_block(0, 0, 0, 0, u32::MAX, 1).unwrap();
    assert_eq!(v, u32::MAX);
}
