use jpegxl_decode::non_zeros_grid::NonZerosGrid;
use jpegxl_decode::pass_group_hf::predicted_non_zeros;
use jpegxl_decode::transform::TransformType;

#[test]
fn new_rejects_zero_dims() {
    assert!(NonZerosGrid::new(0, 5).is_err());
    assert!(NonZerosGrid::new(5, 0).is_err());
    assert!(NonZerosGrid::new(0, 0).is_err());
}

#[test]
fn new_rejects_oversize_dims() {
    assert!(NonZerosGrid::new(65535, 1).is_ok());
    assert!(NonZerosGrid::new(1, 65535).is_ok());
    assert!(NonZerosGrid::new(65536, 1).is_err());
    assert!(NonZerosGrid::new(1, 65536).is_err());
}

#[test]
fn new_zeroes_all_cells() {
    let g = NonZerosGrid::new(4, 3).unwrap();
    assert_eq!(g.width(), 4);
    assert_eq!(g.height(), 3);
    assert_eq!(g.cells().len(), 12);
    assert!(g.cells().iter().all(|&v| v == 0));
}

#[test]
fn get_and_set_roundtrip() {
    let mut g = NonZerosGrid::new(4, 3).unwrap();
    g.set(2, 1, 42).unwrap();
    assert_eq!(g.get(2, 1).unwrap(), 42);
    for y in 0..3 {
        for x in 0..4 {
            if (x, y) != (2, 1) {
                assert_eq!(g.get(x, y).unwrap(), 0);
            }
        }
    }
}

#[test]
fn get_oob_errors() {
    let g = NonZerosGrid::new(4, 3).unwrap();
    assert!(g.get(4, 0).is_err());
    assert!(g.get(0, 3).is_err());
    assert!(g.get(4, 3).is_err());
}

#[test]
fn set_oob_errors() {
    let mut g = NonZerosGrid::new(4, 3).unwrap();
    assert!(g.set(4, 0, 1).is_err());
    assert!(g.set(0, 3, 1).is_err());
}

#[test]
fn predicted_origin_is_32() {
    let g = NonZerosGrid::new(4, 3).unwrap();
    assert_eq!(g.predicted(0, 0).unwrap(), 32);
}

#[test]
fn predicted_top_row_reads_left_neighbour() {
    let mut g = NonZerosGrid::new(4, 3).unwrap();
    g.set(0, 0, 7).unwrap();
    g.set(1, 0, 11).unwrap();
    g.set(2, 0, 13).unwrap();
    assert_eq!(g.predicted(1, 0).unwrap(), 7);
    assert_eq!(g.predicted(2, 0).unwrap(), 11);
    assert_eq!(g.predicted(3, 0).unwrap(), 13);
}

#[test]
fn predicted_left_col_reads_above_neighbour() {
    let mut g = NonZerosGrid::new(4, 3).unwrap();
    g.set(0, 0, 5).unwrap();
    g.set(0, 1, 8).unwrap();
    assert_eq!(g.predicted(0, 1).unwrap(), 5);
    assert_eq!(g.predicted(0, 2).unwrap(), 8);
}

#[test]
fn predicted_interior_averages_above_and_left_rounded_up() {
    let mut g = NonZerosGrid::new(4, 3).unwrap();
    g.set(1, 0, 10).unwrap();
    g.set(0, 1, 3).unwrap();
    assert_eq!(g.predicted(1, 1).unwrap(), 7);
    let mut g2 = NonZerosGrid::new(4, 3).unwrap();
    g2.set(2, 0, 5).unwrap();
    g2.set(1, 1, 4).unwrap();
    assert_eq!(g2.predicted(2, 1).unwrap(), 5);
}

#[test]
fn predicted_oob_errors() {
    let g = NonZerosGrid::new(4, 3).unwrap();
    assert!(g.predicted(4, 0).is_err());
    assert!(g.predicted(0, 3).is_err());
}

#[test]
fn predicted_agrees_with_pass_group_hf_helper() {
    let mut g = NonZerosGrid::new(3, 3).unwrap();
    let seed: [[u32; 3]; 3] = [[10, 4, 9], [7, 2, 6], [3, 1, 5]];
    for y in 0..3 {
        for x in 0..3 {
            g.set(x, y, seed[y as usize][x as usize]).unwrap();
        }
    }
    for y in 0..3 {
        for x in 0..3 {
            let via_grid = g.predicted(x, y).unwrap();
            let via_helper = predicted_non_zeros(x, y, |xx, yy| seed[yy as usize][xx as usize]);
            assert_eq!(via_grid, via_helper, "mismatch at ({x}, {y})");
        }
    }
}

#[test]
fn update_after_block_rejects_zero_num_blocks() {
    let mut g = NonZerosGrid::new(2, 2).unwrap();
    assert!(g.update_after_block(0, 0, 5, 0).is_err());
}

#[test]
fn update_after_block_oob_errors() {
    let mut g = NonZerosGrid::new(2, 2).unwrap();
    assert!(g.update_after_block(2, 0, 5, 1).is_err());
    assert!(g.update_after_block(0, 2, 5, 1).is_err());
}

#[test]
fn update_after_block_dct8x8_is_identity() {
    let mut g = NonZerosGrid::new(2, 2).unwrap();
    let updated = g.update_after_block(0, 0, 17, 1).unwrap();
    assert_eq!(updated, 17);
    assert_eq!(g.get(0, 0).unwrap(), 17);
}

#[test]
fn update_after_block_dct16x16_ceil_div_4() {
    let mut g = NonZerosGrid::new(2, 2).unwrap();
    for (nz, want) in [(0, 0), (1, 1), (3, 1), (4, 1), (5, 2), (16, 4)] {
        let v = g.update_after_block(0, 0, nz, 4).unwrap();
        assert_eq!(v, want, "ceil({nz} / 4) != {want}");
        assert_eq!(g.get(0, 0).unwrap(), want);
    }
}

#[test]
fn update_after_block_dct32x32_ceil_div_16() {
    let mut g = NonZerosGrid::new(1, 1).unwrap();
    for (nz, want) in [(0, 0), (1, 1), (15, 1), (16, 1), (17, 2), (1024, 64)] {
        let v = g.update_after_block(0, 0, nz, 16).unwrap();
        assert_eq!(v, want, "ceil({nz} / 16) != {want}");
    }
}

#[test]
fn update_after_block_for_transform_dispatches_via_table() {
    let mut g = NonZerosGrid::new(4, 4).unwrap();
    let nz = 17;
    let v = g.update_after_block_for_transform(0, 0, nz, TransformType::Dct8x8).unwrap();
    assert_eq!(v, 17, "DCT8x8 num_blocks=1: ceil(17/1)=17");
    assert_eq!(g.get(0, 0).unwrap(), 17);
    assert_eq!(g.get(1, 0).unwrap(), 0, "DCT8x8 footprint is 1×1");
    let v = g.update_after_block_for_transform(0, 0, nz, TransformType::Dct16x16).unwrap();
    assert_eq!(v, 5, "DCT16x16 num_blocks=4: ceil(17/4)=5");
    for (x, y) in [(0, 0), (1, 0), (0, 1), (1, 1)] {
        assert_eq!(g.get(x, y).unwrap(), 5, "DCT16x16 cell ({x},{y})");
    }
    assert_eq!(g.get(2, 0).unwrap(), 0, "outside the 2×2 footprint");
    let v = g.update_after_block_for_transform(0, 0, nz, TransformType::Dct32x32).unwrap();
    assert_eq!(v, 2, "DCT32x32 num_blocks=16: ceil(17/16)=2");
    for y in 0..4 {
        for x in 0..4 {
            assert_eq!(g.get(x, y).unwrap(), 2, "DCT32x32 cell ({x},{y})");
        }
    }
}

#[test]
fn update_after_block_for_transform_footprint_spilling_grid_errors() {
    let mut g = NonZerosGrid::new(2, 2).unwrap();
    let r = g.update_after_block_for_transform(1, 0, 4, TransformType::Dct16x16);
    assert!(r.is_err());
}

#[test]
fn update_after_block_for_transform_rectangular_footprint() {
    let mut g = NonZerosGrid::new(2, 2).unwrap();
    g.update_after_block_for_transform(0, 0, 3, TransformType::Dct16x8).unwrap();
    assert_eq!(g.get(0, 0).unwrap(), 2, "ceil(3/2) = 2");
    assert_eq!(g.get(0, 1).unwrap(), 2, "second row of 1×2-cell footprint");
    assert_eq!(g.get(1, 0).unwrap(), 0, "column 1 untouched by DCT16x8");
    let mut g = NonZerosGrid::new(2, 2).unwrap();
    g.update_after_block_for_transform(0, 1, 3, TransformType::Dct8x16).unwrap();
    assert_eq!(g.get(0, 1).unwrap(), 2);
    assert_eq!(g.get(1, 1).unwrap(), 2, "second column of 2×1-cell footprint");
    assert_eq!(g.get(0, 0).unwrap(), 0, "row 0 untouched by DCT8x16");
}

#[test]
fn predicted_after_update_chains_correctly() {
    let mut g = NonZerosGrid::new(3, 1).unwrap();
    assert_eq!(g.predicted(0, 0).unwrap(), 32);
    g.update_after_block_for_transform(0, 0, 13, TransformType::Dct8x8).unwrap();
    assert_eq!(g.get(0, 0).unwrap(), 13);
    assert_eq!(g.predicted(1, 0).unwrap(), 13);
}

#[test]
fn update_does_not_overflow_at_u32_max() {
    let mut g = NonZerosGrid::new(1, 1).unwrap();
    let v = g.update_after_block(0, 0, u32::MAX, 1).unwrap();
    assert_eq!(v, u32::MAX);
}
