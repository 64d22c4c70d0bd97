use jpegxl_decode::bitreader::BitReader;
use jpegxl_decode::error::JxlError;
use jpegxl_decode::multi_pass_hf_header::PerPassHfHeaders;
use jpegxl_decode::multi_pass_hf_histogram_decoder::HfHistogramDecodeContext;
use jpegxl_decode::pass_group_hf::{coefficient_context, decode_block_coefficients, non_zeros_context, PassGroupHfHeader};
use jpegxl_decode::transform::TransformType;

fn header(hfp: u32, histogram_offset: u64) -> PassGroupHfHeader {
    PassGroupHfHeader { hfp, histogram_offset }
}

/// The coefficient order `0, 1, ..., size - 1`.
fn identity_order(size: u32) -> Vec<u32> {
    (0..size).collect()
}

#[test]
fn r252_new_rejects_zero_passes() {
    let headers = PerPassHfHeaders::from_headers(vec![]);
    let r = HfHistogramDecodeContext::new(1, &headers);
    assert!(matches!(r, Err(JxlError::InvalidData(_))));
}

#[test]
fn r252_new_rejects_hfp_ge_num_hf_presets() {
    // two presets; a header with hfp = 3
    let headers = PerPassHfHeaders::from_headers(vec![header(3, 495 * 3)]);
    let r = HfHistogramDecodeContext::new(2, &headers);
    assert!(matches!(r, Err(JxlError::InvalidData(_))));
}

#[test]
fn r252_new_caches_per_pass_offsets() {
    // nb_block_ctx = 15: offset = 495 * 15 * hfp = 7425 * hfp
    let headers = PerPassHfHeaders::from_headers(vec![header(0, 0), header(1, 7425), header(3, 22_275)]);
    let ctx = HfHistogramDecodeContext::new(4, &headers).unwrap();
    assert_eq!(ctx.num_passes(), 3);
    assert_eq!(ctx.per_pass_offsets(), &[0, 7425, 22_275]);
    assert_eq!(ctx.histogram_offset(0).unwrap(), 0);
    assert_eq!(ctx.histogram_offset(1).unwrap(), 7425);
    assert_eq!(ctx.histogram_offset(2).unwrap(), 22_275);
    assert!(ctx.histogram_offset(3).is_err());
}

#[test]
fn r252_decode_symbol_for_pass_routes_through_offset() {
    let headers = PerPassHfHeaders::from_headers(vec![header(0, 0), header(1, 495)]);
    let ctx = HfHistogramDecodeContext::new(2, &headers).unwrap();
    let mut seen: Vec<u32> = Vec::new();
    let s00 = ctx.decode_symbol_for_pass(0, 0, |c: u32| { seen.push(c); Ok(0) }).unwrap();
    assert_eq!(s00, 0);
    let s0_100 = ctx.decode_symbol_for_pass(0, 100, |c: u32| { seen.push(c); Ok(0) }).unwrap();
    assert_eq!(s0_100, 0);
    let s10 = ctx.decode_symbol_for_pass(1, 0, |c: u32| { seen.push(c); Ok(0) }).unwrap();
    assert_eq!(s10, 0);
    let s1_100 = ctx.decode_symbol_for_pass(1, 100, |c: u32| { seen.push(c); Ok(0) }).unwrap();
    assert_eq!(s1_100, 0);
    assert_eq!(seen, vec![0, 100, 495, 595]);
}

#[test]
fn r252_decode_symbol_for_pass_rejects_out_of_range_pass() {
    let headers = PerPassHfHeaders::from_headers(vec![header(0, 0)]);
    let ctx = HfHistogramDecodeContext::new(1, &headers).unwrap();
    let r = ctx.decode_symbol_for_pass(1, 0, |_c: u32| Ok(0));
    assert!(matches!(r, Err(JxlError::InvalidData(_))));
}

#[test]
fn r252_decode_symbol_for_pass_rejects_u32_overflow_sum() {
    let headers = PerPassHfHeaders::from_headers(vec![header(0, u64::from(u32::MAX) + 10)]);
    let ctx = HfHistogramDecodeContext::new(1, &headers).unwrap();
    let r = ctx.decode_symbol_for_pass(0, 0, |_c: u32| Ok(0));
    assert!(matches!(r, Err(JxlError::InvalidData(_))));
}

#[test]
fn r252_non_zeros_at_uses_non_zeros_context_plus_offset() {
    let headers = PerPassHfHeaders::from_headers(vec![header(0, 0)]);
    let ctx = HfHistogramDecodeContext::new(1, &headers).unwrap();
    let mut seen: Vec<u32> = Vec::new();
    let s = ctx.non_zeros_at(0, 0, 5, 15, |c: u32| { seen.push(c); Ok(0) }).unwrap();
    assert_eq!(s, 0);
    assert_eq!(non_zeros_context(0, 5, 15), 5);
    assert_eq!(seen, vec![5]);
}

#[test]
fn r252_coefficient_at_uses_coefficient_context_plus_offset() {
    let expected_ctx = coefficient_context(1, 16, 1, 64, 0, 0, 15).unwrap();
    let headers = PerPassHfHeaders::from_headers(vec![header(0, 0)]);
    let ctx_dec = HfHistogramDecodeContext::new(1, &headers).unwrap();
    let mut seen: Vec<u32> = Vec::new();
    let s = ctx_dec.coefficient_at(0, 1, 16, 1, 64, 0, 0, 15, |c: u32| { seen.push(c); Ok(0) }).unwrap();
    assert_eq!(s, 0);
    assert_eq!(seen, vec![expected_ctx]);
}

#[test]
fn r252_coefficient_at_propagates_num_blocks_zero_error() {
    let headers = PerPassHfHeaders::from_headers(vec![header(0, 0)]);
    let ctx_dec = HfHistogramDecodeContext::new(1, &headers).unwrap();
    let mut calls = 0u32;
    let r = ctx_dec.coefficient_at(0, 1, 16, 0, 64, 0, 0, 15, |_c: u32| { calls += 1; Ok(0) });
    assert!(matches!(r, Err(JxlError::InvalidData(_))));
    assert_eq!(calls, 0);
}

#[test]
fn r252_per_pass_offset_sequence_matches_headers() {
    // two presets: one bit per pass; pass 0 hfp = 0, pass 1 hfp = 1
    let header_bytes = [0b0000_0010u8];
    let mut br = BitReader::new(&header_bytes);
    let headers = PerPassHfHeaders::read(&mut br, 2, 2, 15).unwrap();
    let ctx = HfHistogramDecodeContext::new(2, &headers).unwrap();
    assert_eq!(ctx.num_passes(), 2);
    assert_eq!(ctx.per_pass_offsets(), &[0u64, 7425u64]);
}

#[test]
fn r255_decode_block_for_pass_transform_dct8x8_short_circuits_on_zero_non_zeros() {
    let headers = PerPassHfHeaders::from_headers(vec![header(0, 0)]);
    let ctx_dec = HfHistogramDecodeContext::new(1, &headers).unwrap();
    let order = identity_order(64);
    let mut calls = 0u32;
    let (decoded, raw_non_zeros) = ctx_dec
        .decode_block_for_pass_transform(0, TransformType::Dct8x8, &order, 0, 0, 15, |_c: u32| { calls += 1; Ok(0) })
        .unwrap();
    assert_eq!(raw_non_zeros, 0);
    assert_eq!(decoded.remaining_non_zeros, 0);
    assert_eq!(decoded.coeffs_read, 0);
    assert_eq!(decoded.coeffs.len(), 64);
    assert!(decoded.coeffs.iter().all(|&c| c == 0));
    assert_eq!(calls, 1);
}

#[test]
fn r255_decode_block_for_pass_transform_rejects_out_of_range_pass() {
    let headers = PerPassHfHeaders::from_headers(vec![header(0, 0)]);
    let ctx_dec = HfHistogramDecodeContext::new(1, &headers).unwrap();
    let order = identity_order(64);
    let r = ctx_dec.decode_block_for_pass_transform(5, TransformType::Dct8x8, &order, 0, 0, 15, |_c: u32| Ok(0));
    assert!(matches!(r, Err(JxlError::InvalidData(_))));
}

#[test]
fn r255_decode_block_for_pass_transform_dct16x16_short_circuits() {
    let headers = PerPassHfHeaders::from_headers(vec![header(0, 0)]);
    let ctx_dec = HfHistogramDecodeContext::new(1, &headers).unwrap();
    let order = identity_order(256);
    let (decoded, raw_non_zeros) = ctx_dec
        .decode_block_for_pass_transform(0, TransformType::Dct16x16, &order, 32, 0, 15, |_c: u32| Ok(0))
        .unwrap();
    assert_eq!(raw_non_zeros, 0);
    assert_eq!(decoded.coeffs.len(), 256);
    assert_eq!(decoded.coeffs_read, 0);
    assert!(decoded.coeffs.iter().all(|&c| c == 0));
}

#[test]
fn r255_decode_block_for_pass_transform_routes_through_per_pass_offset() {
    let headers = PerPassHfHeaders::from_headers(vec![header(0, 0), header(1, 495)]);
    let ctx_dec = HfHistogramDecodeContext::new(2, &headers).unwrap();
    let order = identity_order(64);
    let mut seen: Vec<u32> = Vec::new();
    let (decoded, raw_non_zeros) = ctx_dec
        .decode_block_for_pass_transform(1, TransformType::Dct8x8, &order, 0, 0, 1, |c: u32| { seen.push(c); Ok(0) })
        .unwrap();
    assert_eq!(raw_non_zeros, 0);
    assert_eq!(decoded.coeffs_read, 0);
    assert_eq!(seen, vec![non_zeros_context(0, 0, 1) + 495]);
}

#[test]
fn r255_decode_block_for_pass_transform_propagates_u32_overflow() {
    let headers = PerPassHfHeaders::from_headers(vec![header(0, u64::from(u32::MAX) + 10)]);
    let ctx_dec = HfHistogramDecodeContext::new(1, &headers).unwrap();
    let order = identity_order(64);
    let r = ctx_dec.decode_block_for_pass_transform(0, TransformType::Dct8x8, &order, 0, 0, 1, |_c: u32| Ok(0));
    assert!(matches!(r, Err(JxlError::InvalidData(_))));
}

#[test]
fn r255_decode_block_for_pass_transform_dct8x16_short_circuits() {
    let headers = PerPassHfHeaders::from_headers(vec![header(0, 0)]);
    let ctx_dec = HfHistogramDecodeContext::new(1, &headers).unwrap();
    let order = identity_order(128);
    let (decoded, raw_non_zeros) = ctx_dec
        .decode_block_for_pass_transform(0, TransformType::Dct8x16, &order, 0, 0, 15, |_c: u32| Ok(0))
        .unwrap();
    assert_eq!(raw_non_zeros, 0);
    assert_eq!(decoded.coeffs.len(), 128);
    assert_eq!(decoded.coeffs_read, 0);
}

#[test]
fn r255_decode_block_for_pass_transform_does_not_advance_br_when_short_circuited() {
    // The only symbol read is NonZeros; the coefficient loop never runs.
    let headers = PerPassHfHeaders::from_headers(vec![header(0, 0)]);
    let ctx_dec = HfHistogramDecodeContext::new(1, &headers).unwrap();
    let order = identity_order(64);
    let mut calls = 0u32;
    let _ = ctx_dec
        .decode_block_for_pass_transform(0, TransformType::Dct8x8, &order, 0, 0, 15, |_c: u32| { calls += 1; Ok(0) })
        .unwrap();
    assert_eq!(calls, 1);
}

#[test]
fn pass_block_matches_single_pass_block_with_shifted_contexts() {
    // Three non-zero coefficients announced; symbols 2, 0, 5, 1 then zeros.
    let order = identity_order(64);
    let script = [2u32, 0, 5, 1];
    let mut plain_ctx: Vec<u32> = Vec::new();
    let mut i = 0usize;
    let plain = decode_block_coefficients(&order, 1, 64, 3, 0, 15, |c: u32| {
        plain_ctx.push(c);
        let v = if i < script.len() { script[i] } else { 0 };
        i += 1;
        Ok(v)
    })
    .unwrap();

    let headers = PerPassHfHeaders::from_headers(vec![header(0, 0), header(1, 7425)]);
    let ctx_dec = HfHistogramDecodeContext::new(2, &headers).unwrap();
    let mut pass_ctx: Vec<u32> = Vec::new();
    let mut j = 0usize;
    let (decoded, nz) = ctx_dec
        .decode_block_for_pass_transform(1, TransformType::Dct8x8, &order, 0, 0, 15, |c: u32| {
            pass_ctx.push(c);
            let v = if j == 0 { 3 } else if j - 1 < script.len() { script[j - 1] } else { 0 };
            j += 1;
            Ok(v)
        })
        .unwrap();
    assert_eq!(nz, 3);
    assert_eq!(decoded, plain);
    assert_eq!(decoded.coeffs[1], 1);
    assert_eq!(decoded.coeffs[3], -3);
    assert_eq!(decoded.coeffs[4], -1);
    assert_eq!(decoded.coeffs_read, 4);
    assert_eq!(pass_ctx[0], non_zeros_context(0, 0, 15) + 7425);
    let shifted: Vec<u32> = plain_ctx.iter().map(|c| c + 7425).collect();
    assert_eq!(pass_ctx[1..].to_vec(), shifted);
}

#[test]
fn pass_block_refuses_too_many_non_zeros() {
    let headers = PerPassHfHeaders::from_headers(vec![header(0, 0)]);
    let ctx_dec = HfHistogramDecodeContext::new(1, &headers).unwrap();
    let order = identity_order(64);
    let r = ctx_dec.decode_block_for_pass_transform(0, TransformType::Dct8x8, &order, 0, 0, 15, |_c: u32| Ok(64));
    assert!(matches!(r, Err(JxlError::InvalidData(_))));
}

#[test]
fn pass_block_refuses_order_of_wrong_length() {
    let headers = PerPassHfHeaders::from_headers(vec![header(0, 0)]);
    let ctx_dec = HfHistogramDecodeContext::new(1, &headers).unwrap();
    let order = identity_order(63);
    let mut calls = 0u32;
    let r = ctx_dec.decode_block_for_pass_transform(0, TransformType::Dct8x8, &order, 0, 0, 15, |_c: u32| { calls += 1; Ok(0) });
    assert!(matches!(r, Err(JxlError::InvalidData(_))));
    assert_eq!(calls, 0);
}
