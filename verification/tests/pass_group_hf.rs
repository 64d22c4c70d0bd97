use jpegxl_decode::bitreader::BitReader;
use jpegxl_decode::error::JxlError;
use jpegxl_decode::pass_group_hf::{
    block_context, ceil_log2_u32, coefficient_context, decode_block_coefficients, decode_block_coefficients_for_transform,
    non_zeros_context, predicted_non_zeros, prev_for_context, read_non_zeros_and_decode_block,
    read_non_zeros_and_decode_block_for_transform,
    transform_block_params, PassGroupHfHeader, COEFF_FREQ_CONTEXT, COEFF_NUM_NONZERO_CONTEXT,
};
use jpegxl_decode::transform::{order_id_for_transform, varblock_size_for_order, TransformType};

/// Pack `(value, n_bits)` fields least significant bit first.
fn pack_bits(fields: &[(u32, u32)]) -> Vec<u8> {
    let mut out: Vec<u8> = Vec::new();
    let mut pos = 0usize;
    for &(v, n) in fields {
        for i in 0..n {
            if pos % 8 == 0 {
                out.push(0);
            }
            let bit = ((v >> i) & 1) as u8;
            let last = out.len() - 1;
            out[last] |= bit << (pos % 8);
            pos += 1;
        }
    }
    if out.is_empty() {
        out.push(0);
    }
    out
}

#[test]
fn ceil_log2_u32_edges() {
    assert_eq!(ceil_log2_u32(0), 0);
    assert_eq!(ceil_log2_u32(1), 0);
    assert_eq!(ceil_log2_u32(2), 1);
    assert_eq!(ceil_log2_u32(3), 2);
    assert_eq!(ceil_log2_u32(4), 2);
    assert_eq!(ceil_log2_u32(8), 3);
    assert_eq!(ceil_log2_u32(9), 4);
}

#[test]
fn pass_group_hf_header_single_preset() {
    let bytes = pack_bits(&[(0, 0)]);
    let mut br = BitReader::new(&bytes);
    let h = PassGroupHfHeader::read(&mut br, 1, 15).unwrap();
    assert_eq!(h.hfp, 0);
    assert_eq!(h.histogram_offset, 0);
}

#[test]
fn pass_group_hf_header_two_presets_hfp_1() {
    let bytes = pack_bits(&[(1, 1)]);
    let mut br = BitReader::new(&bytes);
    let h = PassGroupHfHeader::read(&mut br, 2, 15).unwrap();
    assert_eq!(h.hfp, 1);
    assert_eq!(h.histogram_offset, 7425);
}

#[test]
fn pass_group_hf_header_rejects_oob_hfp() {
    let bytes = pack_bits(&[(3, 2)]);
    let mut br = BitReader::new(&bytes);
    let r = PassGroupHfHeader::read(&mut br, 3, 1);
    assert!(matches!(r, Err(JxlError::InvalidData(_))));
}

#[test]
fn pass_group_hf_header_zero_presets_rejected() {
    let bytes = pack_bits(&[(0, 0)]);
    let mut br = BitReader::new(&bytes);
    let r = PassGroupHfHeader::read(&mut br, 0, 1);
    assert!(matches!(r, Err(JxlError::InvalidData(_))));
}

#[test]
fn block_context_invalid_idx_rejected() {
    let map = [0u8; 1];
    let r = block_context(0, 0, 0, [0, 0, 0], &[], &[Vec::new(), Vec::new(), Vec::new()], &map);
    assert!(matches!(r, Err(JxlError::InvalidData(_))));
}

#[test]
fn block_context_without_thresholds_indexes_by_channel_and_shape() {
    // No thresholds: idx = (c < 2 ? c ^ 1 : 2) * 13 + s.
    let map: Vec<u8> = (0..39u8).collect();
    let none = [Vec::new(), Vec::new(), Vec::new()];
    assert_eq!(block_context(0, 0, 0, [0, 0, 0], &[], &none, &map).unwrap(), 13);
    assert_eq!(block_context(1, 0, 0, [0, 0, 0], &[], &none, &map).unwrap(), 0);
    assert_eq!(block_context(2, 5, 0, [0, 0, 0], &[], &none, &map).unwrap(), 31);
}

#[test]
fn non_zeros_context_branches() {
    assert_eq!(non_zeros_context(0, 5, 15), 5);
    assert_eq!(non_zeros_context(7, 5, 15), 5 + 15 * 7);
    assert_eq!(non_zeros_context(8, 5, 15), 5 + 15 * 8);
    assert_eq!(non_zeros_context(64, 5, 15), 5 + 15 * 36);
    assert_eq!(non_zeros_context(100, 5, 15), 5 + 15 * 36);
}

#[test]
fn coefficient_context_basic() {
    let r = coefficient_context(0, 0, 1, 64, 0, 0, 1).unwrap();
    assert_eq!(r, 37);
    let r = coefficient_context(5, 32, 1, 64, 1, 3, 15).unwrap();
    assert_eq!(r, 2298);
}

#[test]
fn coefficient_context_rejects_zero_num_blocks() {
    let r = coefficient_context(0, 0, 0, 64, 0, 0, 1);
    assert!(matches!(r, Err(JxlError::InvalidData(_))));
}

#[test]
fn predicted_non_zeros_origin_is_32() {
    assert_eq!(predicted_non_zeros(0, 0, |_, _| 99), 32);
}

#[test]
fn predicted_non_zeros_first_row() {
    assert_eq!(predicted_non_zeros(1, 0, |_, _| 7), 7);
    assert_eq!(predicted_non_zeros(5, 0, |_, _| 7), 7);
}

#[test]
fn predicted_non_zeros_first_column() {
    assert_eq!(predicted_non_zeros(0, 1, |_, _| 12), 12);
}

#[test]
fn predicted_non_zeros_interior_averages_two_neighbours() {
    let nz = |x: u32, y: u32| {
        if x == 1 && y == 0 {
            4
        } else if x == 0 && y == 1 {
            6
        } else {
            0
        }
    };
    assert_eq!(predicted_non_zeros(1, 1, nz), 5);
}

#[test]
fn coeff_freq_context_well_formed() {
    assert_eq!(COEFF_FREQ_CONTEXT[0], 0);
    assert_eq!(COEFF_FREQ_CONTEXT[1], 0);
    assert_eq!(COEFF_FREQ_CONTEXT[2], 1);
    assert_eq!(COEFF_FREQ_CONTEXT[15], 14);
    assert_eq!(COEFF_FREQ_CONTEXT[16], 15);
    assert_eq!(COEFF_FREQ_CONTEXT[63], 30);
}

#[test]
fn coeff_num_nonzero_context_well_formed() {
    assert_eq!(COEFF_NUM_NONZERO_CONTEXT[0], 0);
    assert_eq!(COEFF_NUM_NONZERO_CONTEXT[1], 0);
    assert_eq!(COEFF_NUM_NONZERO_CONTEXT[2], 31);
    assert_eq!(COEFF_NUM_NONZERO_CONTEXT[3], 62);
    assert_eq!(COEFF_NUM_NONZERO_CONTEXT[5], 93);
    assert_eq!(COEFF_NUM_NONZERO_CONTEXT[9], 123);
    assert_eq!(COEFF_NUM_NONZERO_CONTEXT[13], 152);
    assert_eq!(COEFF_NUM_NONZERO_CONTEXT[22], 180);
    assert_eq!(COEFF_NUM_NONZERO_CONTEXT[33], 206);
    assert_eq!(COEFF_NUM_NONZERO_CONTEXT[63], 206);
}

#[test]
fn prev_for_context_first_iteration_high_non_zeros() {
    assert_eq!(prev_for_context(1, 1, 64, 5, |_| panic!("never called")), 1);
}

#[test]
fn prev_for_context_first_iteration_low_non_zeros() {
    assert_eq!(prev_for_context(1, 1, 64, 4, |_| panic!("never called")), 0);
    assert_eq!(prev_for_context(1, 1, 64, 0, |_| panic!("never called")), 0);
}

#[test]
fn prev_for_context_subsequent_iteration_follows_prev_nonzero_flag() {
    let f = |kk: u32| kk == 2;
    assert_eq!(prev_for_context(3, 1, 64, 7, f), 1);
    assert_eq!(prev_for_context(4, 1, 64, 7, f), 0);
    assert_eq!(prev_for_context(5, 1, 64, 7, f), 0);
}

#[test]
fn transform_block_params_known_shapes() {
    assert_eq!(transform_block_params(TransformType::Dct8x8), (1, 64));
    assert_eq!(transform_block_params(TransformType::Hornuss), (1, 64));
    assert_eq!(transform_block_params(TransformType::Dct2x2), (1, 64));
    assert_eq!(transform_block_params(TransformType::Dct4x4), (1, 64));
    assert_eq!(transform_block_params(TransformType::Dct4x8), (1, 64));
    assert_eq!(transform_block_params(TransformType::Dct8x4), (1, 64));
    assert_eq!(transform_block_params(TransformType::Afv0), (1, 64));
    assert_eq!(transform_block_params(TransformType::Afv3), (1, 64));
    assert_eq!(transform_block_params(TransformType::Dct16x16), (4, 256));
    assert_eq!(transform_block_params(TransformType::Dct16x8), (2, 128));
    assert_eq!(transform_block_params(TransformType::Dct8x16), (2, 128));
    assert_eq!(transform_block_params(TransformType::Dct32x32), (16, 1024));
    assert_eq!(transform_block_params(TransformType::Dct256x256), (1024, 65536));
}

#[test]
fn transform_block_params_size_equals_bwidth_times_bheight() {
    let all = [
        TransformType::Dct8x8,
        TransformType::Hornuss,
        TransformType::Dct2x2,
        TransformType::Dct4x4,
        TransformType::Dct16x16,
        TransformType::Dct32x32,
        TransformType::Dct16x8,
        TransformType::Dct8x16,
        TransformType::Dct32x8,
        TransformType::Dct8x32,
        TransformType::Dct32x16,
        TransformType::Dct16x32,
        TransformType::Dct4x8,
        TransformType::Dct8x4,
        TransformType::Afv0,
        TransformType::Afv1,
        TransformType::Afv2,
        TransformType::Afv3,
        TransformType::Dct64x64,
        TransformType::Dct64x32,
        TransformType::Dct32x64,
        TransformType::Dct128x128,
        TransformType::Dct128x64,
        TransformType::Dct64x128,
        TransformType::Dct256x256,
        TransformType::Dct256x128,
        TransformType::Dct128x256,
    ];
    for t in all {
        let (num_blocks, size) = transform_block_params(t);
        let oid = order_id_for_transform(t);
        let (bwidth, bheight) = varblock_size_for_order(oid);
        assert!(num_blocks >= 1, "{t:?}: num_blocks {num_blocks} < 1",);
        assert_eq!(num_blocks, (bwidth / 8) * (bheight / 8), "{t:?}: num_blocks derivation",);
        assert_eq!(size, bwidth * bheight, "{t:?}: size derivation",);
        assert_eq!(num_blocks * 64, size, "{t:?}: num_blocks * 64 != size",);
    }
}

#[test]
fn prev_for_context_dct16x16_threshold_at_17() {
    for nz in 0..=16 {
        assert_eq!(prev_for_context(4, 4, 256, nz, |_| panic!("never called")), 0, "DCT16×16 prev at nz={nz}",);
    }
    for nz in 17..=63 {
        assert_eq!(prev_for_context(4, 4, 256, nz, |_| panic!("never called")), 1, "DCT16×16 prev at nz={nz}",);
    }
}

/// A stand-in coefficient order of `size` positions: the positions
/// backwards.
fn reversed_order(size: u32) -> Vec<u32> {
    (0..size).rev().collect()
}

#[test]
fn decode_block_coefficients_for_transform_dct8x8_matches_raw() {
    let order = reversed_order(64);
    let typed = decode_block_coefficients_for_transform(TransformType::Dct8x8, &order, 1, 0, 1, |_| Ok(2)).unwrap();
    let raw = decode_block_coefficients(&order, 1, 64, 1, 0, 1, |_| Ok(2)).unwrap();
    assert_eq!(typed, raw);
}

#[test]
fn decode_block_coefficients_for_transform_dct16x16_first_nonzero() {
    let order = reversed_order(256);
    assert_eq!(order.len(), 256);
    let mut calls = 0;
    let decoded = decode_block_coefficients_for_transform(TransformType::Dct16x16, &order, 1, 0, 1, |_| {
        calls += 1;
        Ok(1)
    })
    .unwrap();
    assert_eq!(calls, 1);
    assert_eq!(decoded.coeffs.len(), 256);
    let first_hf_pos = order[4] as usize;
    assert_eq!(decoded.coeffs[first_hf_pos], -1, "UnpackSigned(1) == -1");
    for (i, &v) in decoded.coeffs.iter().enumerate() {
        if i == first_hf_pos {
            continue;
        }
        assert_eq!(v, 0);
    }
}

#[test]
fn read_non_zeros_and_decode_block_for_transform_dct16x16() {
    let order = reversed_order(256);
    let predicted = 4u32;
    let expected_nz_ctx = non_zeros_context(predicted, 0, 1);
    assert_eq!(expected_nz_ctx, 4);
    let mut nz_seen = u32::MAX;
    let mut coeff_calls = 0u32;
    let (decoded, non_zeros) = read_non_zeros_and_decode_block_for_transform(
        TransformType::Dct16x16,
        &order,
        predicted,
        0,
        1,
        |ctx| {
            nz_seen = ctx;
            Ok(3)
        },
        |_| {
            coeff_calls += 1;
            Ok(2)
        },
    )
    .unwrap();
    assert_eq!(nz_seen, expected_nz_ctx);
    assert_eq!(non_zeros, 3);
    assert_eq!(coeff_calls, 3);
    assert_eq!(decoded.coeffs_read, 3);
    assert_eq!(decoded.remaining_non_zeros, 0);
    assert_eq!(decoded.coeffs[order[4] as usize], 1);
    assert_eq!(decoded.coeffs[order[5] as usize], 1);
    assert_eq!(decoded.coeffs[order[6] as usize], 1);
}

#[test]
fn decode_block_coefficients_for_transform_dct16x8_all_zero() {
    let order = reversed_order(128);
    let mut calls = 0;
    let decoded = decode_block_coefficients_for_transform(TransformType::Dct16x8, &order, 0, 0, 1, |_| {
        calls += 1;
        Ok(0)
    })
    .unwrap();
    assert_eq!(calls, 0);
    assert_eq!(decoded.coeffs.len(), 128);
    assert_eq!(decoded.coeffs_read, 0);
    assert!(decoded.coeffs.iter().all(|&v| v == 0));
}

#[test]
fn decode_block_coefficients_for_transform_rejects_oob_non_zeros() {
    let order = reversed_order(256);
    let r = decode_block_coefficients_for_transform(TransformType::Dct16x16, &order, 253, 0, 1, |_| Ok(0));
    assert!(matches!(r, Err(JxlError::InvalidData(_))));
    let mut calls = 0;
    let decoded = decode_block_coefficients_for_transform(TransformType::Dct16x16, &order, 252, 0, 1, |_| {
        calls += 1;
        Ok(0)
    })
    .unwrap();
    assert_eq!(calls, 252);
    assert_eq!(decoded.coeffs_read, 252);
    assert!(decoded.coeffs.iter().all(|&v| v == 0));
}

#[test]
fn decode_block_coefficients_for_transform_rejects_order_of_wrong_length() {
    let order = reversed_order(64);
    let r = decode_block_coefficients_for_transform(TransformType::Dct16x16, &order, 0, 0, 1, |_| Ok(0));
    assert!(matches!(r, Err(JxlError::InvalidData(_))));
}

#[test]
fn pass_group_hf_header_select_pass_works() {
    // Two presets; hfp = 1 picks the second.
    let bytes = pack_bits(&[(1, 1)]);
    let mut br = BitReader::new(&bytes);
    let h = PassGroupHfHeader::read(&mut br, 2, 1).unwrap();
    let passes = [10u32, 20u32];
    let chosen = h.select_pass(&passes).unwrap();
    assert_eq!(*chosen, 20);
}

#[test]
fn pass_group_hf_header_select_pass_out_of_range() {
    let h = PassGroupHfHeader { hfp: 5, histogram_offset: 0 };
    let passes = [10u32];
    assert!(h.select_pass(&passes).is_err());
}

#[test]
fn decode_block_coefficients_rejects_zero_num_blocks() {
    let order = reversed_order(64);
    let r = decode_block_coefficients(&order, 0, 64, 0, 0, 1, |_| Ok(0));
    assert!(matches!(r, Err(JxlError::InvalidData(_))));
}

#[test]
fn decode_block_coefficients_rejects_bad_natural_order_len() {
    let bad = vec![0u32; 32];
    let r = decode_block_coefficients(&bad, 1, 64, 0, 0, 1, |_| Ok(0));
    assert!(matches!(r, Err(JxlError::InvalidData(_))));
}

#[test]
fn decode_block_coefficients_rejects_oob_natural_order_entry() {
    let mut bad = reversed_order(64);
    bad[5] = 99;
    let r = decode_block_coefficients(&bad, 1, 64, 0, 0, 1, |_| Ok(0));
    assert!(matches!(r, Err(JxlError::InvalidData(_))));
}

#[test]
fn decode_block_coefficients_rejects_too_many_non_zeros() {
    let order = reversed_order(64);
    let r = decode_block_coefficients(&order, 1, 64, 64, 0, 1, |_| Ok(0));
    assert!(matches!(r, Err(JxlError::InvalidData(_))));
}

#[test]
fn decode_block_coefficients_all_zero_block_reads_nothing() {
    let order = reversed_order(64);
    let mut call_count = 0;
    let decoded = decode_block_coefficients(&order, 1, 64, 0, 0, 1, |_| {
        call_count += 1;
        Ok(0)
    })
    .unwrap();
    assert_eq!(call_count, 0);
    assert_eq!(decoded.coeffs_read, 0);
    assert_eq!(decoded.remaining_non_zeros, 0);
    assert!(decoded.coeffs.iter().all(|&v| v == 0));
    assert_eq!(decoded.coeffs.len(), 64);
}

#[test]
fn decode_block_coefficients_single_nonzero_stops_after_one_read() {
    let order = reversed_order(64);
    let mut call_count = 0;
    let decoded = decode_block_coefficients(&order, 1, 64, 1, 3, 15, |_ctx| {
        call_count += 1;
        Ok(1)
    })
    .unwrap();
    assert_eq!(call_count, 1);
    assert_eq!(decoded.coeffs_read, 1);
    assert_eq!(decoded.remaining_non_zeros, 0);
    let nonzero_positions: Vec<(usize, i32)> =
        decoded.coeffs.iter().enumerate().filter(|&(_, &v)| v != 0).map(|(i, &v)| (i, v)).collect();
    assert_eq!(nonzero_positions.len(), 1);
    assert_eq!(nonzero_positions[0].1, -1);
}

#[test]
fn decode_block_coefficients_zero_ucoeff_does_not_decrement_non_zeros() {
    let order = reversed_order(64);
    let sequence = [0u32, 2, 4];
    let mut idx = 0;
    let decoded = decode_block_coefficients(&order, 1, 64, 2, 0, 1, |_ctx| {
        let v = sequence[idx];
        idx += 1;
        Ok(v)
    })
    .unwrap();
    assert_eq!(decoded.coeffs_read, 3);
    assert_eq!(decoded.remaining_non_zeros, 0);
    let nonzero_count = decoded.coeffs.iter().filter(|&&v| v != 0).count();
    assert_eq!(nonzero_count, 2);
}

#[test]
fn decode_block_coefficients_prev_flag_tracks_decoded_nonzero() {
    let order = reversed_order(64);
    let sequence = [2u32, 0, 2];
    let mut idx = 0;
    let mut seen_ctx: Vec<u32> = Vec::new();
    let block_ctx = 4;
    let nb_block_ctx = 15;
    let num_blocks = 1;
    let size = 64;
    let _ = decode_block_coefficients(&order, num_blocks, size, 2, block_ctx, nb_block_ctx, |ctx| {
        seen_ctx.push(ctx);
        let v = sequence[idx];
        idx += 1;
        Ok(v)
    })
    .unwrap();
    assert_eq!(seen_ctx.len(), 3);
    let expected_ctx_0 = coefficient_context(1, 2, num_blocks, size, 0, block_ctx, nb_block_ctx).unwrap();
    assert_eq!(seen_ctx[0], expected_ctx_0);
    let expected_ctx_1 = coefficient_context(2, 1, num_blocks, size, 1, block_ctx, nb_block_ctx).unwrap();
    assert_eq!(seen_ctx[1], expected_ctx_1);
    let expected_ctx_2 = coefficient_context(3, 1, num_blocks, size, 0, block_ctx, nb_block_ctx).unwrap();
    assert_eq!(seen_ctx[2], expected_ctx_2);
}

#[test]
fn decode_block_coefficients_places_at_natural_order_position() {
    let order = reversed_order(64);
    let decoded = decode_block_coefficients(&order, 1, 64, 1, 0, 1, |_| Ok(2)).unwrap();
    let expected_pos = order[1] as usize;
    assert_eq!(decoded.coeffs[expected_pos], 1);
    for (i, &v) in decoded.coeffs.iter().enumerate() {
        if i == expected_pos {
            continue;
        }
        assert_eq!(v, 0, "slot {i} should be zero, got {v}");
    }
}

#[test]
fn read_non_zeros_and_decode_block_threads_predicted_through_context() {
    let order = reversed_order(64);
    let block_ctx = 5;
    let nb_block_ctx = 15;
    let predicted = 32;
    let mut saw_nz_ctx: Option<u32> = None;
    let read_non_zeros = |ctx: u32| -> Result<u32, JxlError> {
        saw_nz_ctx = Some(ctx);
        Ok(1)
    };
    let mut saw_coeff_ctx: Option<u32> = None;
    let decode_symbol = |ctx: u32| -> Result<u32, JxlError> {
        saw_coeff_ctx = Some(ctx);
        Ok(2)
    };
    let (decoded, non_zeros) =
        read_non_zeros_and_decode_block(&order, 1, 64, predicted, block_ctx, nb_block_ctx, read_non_zeros, decode_symbol)
            .unwrap();
    let expected_nz_ctx = non_zeros_context(predicted, block_ctx, nb_block_ctx);
    assert_eq!(saw_nz_ctx, Some(expected_nz_ctx));
    assert_eq!(non_zeros, 1);
    let expected_coeff_ctx = coefficient_context(1, 1, 1, 64, 0, block_ctx, nb_block_ctx).unwrap();
    assert_eq!(saw_coeff_ctx, Some(expected_coeff_ctx));
    assert_eq!(decoded.coeffs_read, 1);
    assert_eq!(decoded.remaining_non_zeros, 0);
}

#[test]
fn read_non_zeros_and_decode_block_rejects_oversized_non_zeros() {
    let order = reversed_order(64);
    let read_non_zeros = |_| Ok(64);
    let r = read_non_zeros_and_decode_block(&order, 1, 64, 0, 0, 1, read_non_zeros, |_| -> Result<u32, JxlError> {
        panic!("decode_symbol should not be called")
    });
    assert!(matches!(r, Err(JxlError::InvalidData(_))));
}

#[test]
fn decode_block_coefficients_full_block_decodes_all_size_reads() {
    let order = reversed_order(64);
    let mut call_count = 0;
    let decoded = decode_block_coefficients(&order, 1, 64, 63, 0, 1, |_| {
        call_count += 1;
        Ok(2)
    })
    .unwrap();
    assert_eq!(call_count, 63);
    assert_eq!(decoded.coeffs_read, 63);
    assert_eq!(decoded.remaining_non_zeros, 0);
    let nonzero_count = decoded.coeffs.iter().filter(|&&v| v != 0).count();
    assert_eq!(nonzero_count, 63);
    assert_eq!(decoded.coeffs[order[0] as usize], 0);
}
