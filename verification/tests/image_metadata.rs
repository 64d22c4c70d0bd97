use jpegxl_decode::bitreader::BitReader;
use jpegxl_decode::error::JxlError;
use jpegxl_decode::image_metadata::{Extensions, ImageMetadataFdis, OpsinInverseMatrix, ToneMapping, F16_BITS_255};
use jpegxl_decode::metadata_fdis::ColourSpace;
use jpegxl_decode::noise::read_noise_codes;

/// Bytes holding each `(value, n)` as `n` bits, least significant first.
fn pack_lsb(parts: &[(u32, u32)]) -> Vec<u8> {
    let mut out: Vec<u8> = Vec::new();
    let mut bit_pos: u32 = 0;
    for &(value, n) in parts {
        for i in 0..n {
            let bit = ((value >> i) & 1) as u8;
            if bit_pos % 8 == 0 {
                out.push(0);
            }
            let last = out.len() - 1;
            out[last] |= bit << (bit_pos % 8);
            bit_pos += 1;
        }
    }
    out
}

/// The value of a finite binary16 pattern.
fn f16_value(bits: u32) -> f32 {
    let sign = if bits & 0x8000 != 0 { -1.0f32 } else { 1.0f32 };
    let exp = ((bits >> 10) & 0x1f) as i32;
    let mantissa = (bits & 0x3ff) as f32;
    let v = if exp == 0 { mantissa / 1024.0 * 2f32.powi(-14) } else { (1.0 + mantissa / 1024.0) * 2f32.powi(exp - 15) };
    sign * v
}

#[test]
fn image_metadata_all_default_short_circuit() {
    // all_default = 1, then the unconditional tail bit default_transform = 1.
    let bytes = pack_lsb(&[(1, 1), (1, 1)]);
    let mut br = BitReader::new(&bytes);
    let im = ImageMetadataFdis::read(&mut br).unwrap();
    assert!(im.all_default);
    assert_eq!(im.orientation, 1);
    assert!(!im.bit_depth.float_sample);
    assert_eq!(im.bit_depth.bits_per_sample, 8);
    assert_eq!(im.bit_depth.exp_bits, 0);
    assert!(im.xyb_encoded);
    assert!(im.default_transform);
    assert_eq!(im.cw_mask, 0);
    assert_eq!(br.bits_read(), 2);
}

#[test]
fn image_metadata_tail_inverted_gating_custom_opsin() {
    // all_default = 1, default_transform = 0: the tail reads the opsin
    // matrix (all_default = 1) and cw_mask = 0.
    let bytes = pack_lsb(&[(1, 1), (0, 1), (1, 1), (0, 3)]);
    let mut br = BitReader::new(&bytes);
    let im = ImageMetadataFdis::read(&mut br).unwrap();
    assert!(im.all_default);
    assert!(!im.default_transform);
    assert!(im.opsin_inverse_matrix.all_default);
    assert_eq!(im.cw_mask, 0);
    assert_eq!(br.bits_read(), 6);
}

#[test]
fn malicious_huge_extra_channels_rejected() {
    let bytes = pack_lsb(&[
        (0, 1),     // all_default
        (0, 1),     // extra_fields
        (0, 1),     // bit_depth float_sample
        (0, 2),     // bits selector 0 -> 8
        (1, 1),     // modular_16bit_buffers
        (3, 2),     // num_extra_channels selector 3
        (4095, 12), // 4095 + 1 = 4096
    ]);
    let mut br = BitReader::new(&bytes);
    let res = ImageMetadataFdis::read(&mut br);
    assert!(res.is_err(), "expected huge num_extra_channels rejection");
}

#[test]
fn tone_mapping_all_default() {
    let bytes = pack_lsb(&[(1, 1)]);
    let mut br = BitReader::new(&bytes);
    let tm = ToneMapping::read(&mut br).unwrap();
    assert!(tm.all_default);
    assert_eq!(f16_value(tm.intensity_target), 255.0);
}

#[test]
fn tone_mapping_custom_values() {
    // peak 255, lowest 1.0, relative, linear below 2.0
    let bytes = pack_lsb(&[(0, 1), (0x5bf8, 16), (0x3c00, 16), (1, 1), (0x4000, 16)]);
    let mut br = BitReader::new(&bytes);
    let tm = ToneMapping::read(&mut br).unwrap();
    assert!(!tm.all_default);
    assert_eq!(tm.intensity_target, F16_BITS_255);
    assert_eq!(f16_value(tm.min_nits), 1.0);
    assert!(tm.relative_to_max_display);
    assert_eq!(f16_value(tm.linear_below), 2.0);
    assert_eq!(br.bits_read(), 50);
}

#[test]
fn tone_mapping_rejects_zero_peak() {
    let bytes = pack_lsb(&[(0, 1), (0, 16), (0, 16), (0, 1), (0, 16)]);
    let mut br = BitReader::new(&bytes);
    assert!(matches!(ToneMapping::read(&mut br), Err(JxlError::InvalidData(_))));
}

#[test]
fn tone_mapping_rejects_lowest_above_peak() {
    // peak 1.0, lowest 2.0
    let bytes = pack_lsb(&[(0, 1), (0x3c00, 16), (0x4000, 16), (0, 1), (0, 16)]);
    let mut br = BitReader::new(&bytes);
    assert!(matches!(ToneMapping::read(&mut br), Err(JxlError::InvalidData(_))));
}

#[test]
fn tone_mapping_rejects_negative_lowest() {
    // lowest -1.0
    let bytes = pack_lsb(&[(0, 1), (0x3c00, 16), (0xbc00, 16), (0, 1), (0, 16)]);
    let mut br = BitReader::new(&bytes);
    assert!(matches!(ToneMapping::read(&mut br), Err(JxlError::InvalidData(_))));
}

#[test]
fn tone_mapping_accepts_negative_zero_lowest() {
    let bytes = pack_lsb(&[(0, 1), (0x3c00, 16), (0x8000, 16), (0, 1), (0, 16)]);
    let mut br = BitReader::new(&bytes);
    let tm = ToneMapping::read(&mut br).unwrap();
    assert_eq!(tm.min_nits, 0x8000);
}

#[test]
fn tone_mapping_rejects_nan() {
    let bytes = pack_lsb(&[(0, 1), (0x7e00, 16), (0, 16), (0, 1), (0, 16)]);
    let mut br = BitReader::new(&bytes);
    assert!(matches!(ToneMapping::read(&mut br), Err(JxlError::InvalidData(_))));
}

#[test]
fn tone_mapping_truncated_is_eof() {
    let bytes = pack_lsb(&[(0, 1), (0x3c00, 7)]);
    let mut br = BitReader::new(&bytes);
    assert!(matches!(ToneMapping::read(&mut br), Err(JxlError::Eof)));
}

#[test]
fn opsin_matrix_custom_values_in_coding_order() {
    let mut parts: Vec<(u32, u32)> = vec![(0, 1)];
    for i in 0..16u32 {
        parts.push((0x3c00 + i, 16));
    }
    let bytes = pack_lsb(&parts);
    let mut br = BitReader::new(&bytes);
    let om = OpsinInverseMatrix::read(&mut br).unwrap();
    assert!(!om.all_default);
    assert_eq!(om.inv_mat[0][0], 0x3c00);
    assert_eq!(om.inv_mat[1][2], 0x3c05);
    assert_eq!(om.inv_mat[2][2], 0x3c08);
    assert_eq!(om.opsin_bias, [0x3c09, 0x3c0a, 0x3c0b]);
    assert_eq!(om.quant_bias, [0x3c0c, 0x3c0d, 0x3c0e]);
    assert_eq!(om.quant_bias_numerator, 0x3c0f);
    assert_eq!(br.bits_read(), 1 + 16 * 16);
}

#[test]
fn opsin_matrix_all_default_is_one_bit() {
    let bytes = pack_lsb(&[(1, 1)]);
    let mut br = BitReader::new(&bytes);
    let om = OpsinInverseMatrix::read(&mut br).unwrap();
    assert!(om.all_default);
    assert_eq!(br.bits_read(), 1);
}

#[test]
fn u64_forms() {
    // 0; 1 + 4; 17 + 3; 0xabc + (0x12 << 12)
    let bytes = pack_lsb(&[(0, 2), (1, 2), (4, 4), (2, 2), (3, 8), (3, 2), (0xabc, 12), (1, 1), (0x12, 8), (0, 1)]);
    let mut br = BitReader::new(&bytes);
    assert_eq!(br.read_u64().unwrap(), 0);
    assert_eq!(br.read_u64().unwrap(), 5);
    assert_eq!(br.read_u64().unwrap(), 20);
    assert_eq!(br.read_u64().unwrap(), 0x12abc);
    assert_eq!(br.bits_read(), 2 + 6 + 10 + 24);
}

#[test]
fn u64_largest_value() {
    let mut parts: Vec<(u32, u32)> = vec![(3, 2), (0xfff, 12)];
    for _ in 0..6 {
        parts.push((1, 1));
        parts.push((0xff, 8));
    }
    parts.push((1, 1));
    parts.push((0xf, 4));
    let bytes = pack_lsb(&parts);
    let mut br = BitReader::new(&bytes);
    assert_eq!(br.read_u64().unwrap(), u64::MAX);
    assert_eq!(br.bits_read(), 73);
}

#[test]
fn extensions_mask_lengths_and_payload() {
    // mask 5 (1 + u(4) = 4), lengths 0 and 17 + 3 = 20, then 20 payload bits
    let bytes = pack_lsb(&[(1, 2), (4, 4), (0, 2), (2, 2), (3, 8), (0xfffff, 20)]);
    let mut br = BitReader::new(&bytes);
    let ext = Extensions::read(&mut br).unwrap();
    assert_eq!(ext.mask, 5);
    assert_eq!(ext.extension_bits, vec![0, 20]);
    assert_eq!(ext.bundle_bits, 18);
    ext.skip_payload(&mut br).unwrap();
    assert_eq!(br.bits_read(), 38);
}

#[test]
fn extensions_payload_past_end_is_eof() {
    let bytes = pack_lsb(&[(1, 2), (0, 4), (2, 2), (100, 8)]);
    let mut br = BitReader::new(&bytes);
    let ext = Extensions::read(&mut br).unwrap();
    assert_eq!(ext.extension_bits, vec![117]);
    assert!(matches!(ext.skip_payload(&mut br), Err(JxlError::Eof)));
}

#[test]
fn extensions_payload_length_overflow_is_invalid() {
    // mask 3: two lengths of u64::MAX
    let mut parts: Vec<(u32, u32)> = vec![(1, 2), (2, 4)];
    for _ in 0..2 {
        parts.push((3, 2));
        parts.push((0xfff, 12));
        for _ in 0..6 {
            parts.push((1, 1));
            parts.push((0xff, 8));
        }
        parts.push((1, 1));
        parts.push((0xf, 4));
    }
    let bytes = pack_lsb(&parts);
    let mut br = BitReader::new(&bytes);
    let ext = Extensions::read(&mut br).unwrap();
    assert_eq!(ext.extension_bits, vec![u64::MAX, u64::MAX]);
    assert!(matches!(ext.skip_payload(&mut br), Err(JxlError::InvalidData(_))));
}

#[test]
fn image_metadata_tail_skips_upsampling_weights() {
    // all_default, default_transform = 0, opsin all_default, cw_mask = 1,
    // fifteen weights
    let mut parts: Vec<(u32, u32)> = vec![(1, 1), (0, 1), (1, 1), (1, 3)];
    for _ in 0..15 {
        parts.push((0x3c00, 16));
    }
    let bytes = pack_lsb(&parts);
    let mut br = BitReader::new(&bytes);
    let im = ImageMetadataFdis::read(&mut br).unwrap();
    assert_eq!(im.cw_mask, 1);
    assert_eq!(br.bits_read(), 6 + 15 * 16);
}

#[test]
fn image_metadata_weights_past_end_are_invalid() {
    let bytes = pack_lsb(&[(1, 1), (0, 1), (1, 1), (4, 3), (0, 16)]);
    let mut br = BitReader::new(&bytes);
    assert!(matches!(ImageMetadataFdis::read(&mut br), Err(JxlError::InvalidData(_))));
}

#[test]
fn image_metadata_without_xyb_reads_no_matrix() {
    // all_default = 0, extra_fields = 0, 8-bit integer, 16-bit buffers,
    // no extra channel, xyb = 0, default colour encoding, no extension,
    // default_transform = 0, cw_mask = 0
    let bytes = pack_lsb(&[(0, 1), (0, 1), (0, 1), (0, 2), (1, 1), (0, 2), (0, 1), (1, 1), (0, 2), (0, 1), (0, 3)]);
    let mut br = BitReader::new(&bytes);
    let im = ImageMetadataFdis::read(&mut br).unwrap();
    assert!(!im.all_default);
    assert!(!im.extra_fields);
    assert!(!im.xyb_encoded);
    assert_eq!(im.num_extra_channels, 0);
    assert!(im.colour_encoding.all_default);
    assert_eq!(im.colour_encoding.colour_space, ColourSpace::Rgb);
    assert!(im.tone_mapping.all_default);
    assert!(!im.default_transform);
    assert!(im.opsin_inverse_matrix.all_default);
    assert_eq!(br.bits_read(), 16);
}

#[test]
fn image_metadata_extra_fields_and_extra_channel() {
    // extra_fields: orientation u(3) = 5 -> 6, no intrinsic size, preview
    // or animation; 8-bit; 16-bit buffers; one all-default extra channel;
    // xyb; default colour encoding; default tone mapping; no extension;
    // default_transform = 1
    let bytes = pack_lsb(&[
        (0, 1),
        (1, 1),
        (5, 3),
        (0, 1),
        (0, 1),
        (0, 1),
        (0, 1),
        (0, 2),
        (1, 1),
        (1, 2),
        (1, 1),
        (1, 1),
        (1, 1),
        (1, 1),
        (0, 2),
        (1, 1),
    ]);
    let mut br = BitReader::new(&bytes);
    let im = ImageMetadataFdis::read(&mut br).unwrap();
    assert!(im.extra_fields);
    assert_eq!(im.orientation, 6);
    assert!(!im.have_intr_size && im.intrinsic_size.is_none());
    assert!(!im.have_preview && !im.have_animation);
    assert_eq!(im.num_extra_channels, 1);
    assert_eq!(im.extra_channel_info.len(), 1);
    assert!(im.extra_channel_info[0].all_default);
    assert!(im.xyb_encoded);
    assert!(im.tone_mapping.all_default);
    assert!(im.default_transform);
    assert_eq!(br.bits_read(), 21);
}

#[test]
fn image_metadata_defaults_match_an_all_default_bundle() {
    let d = ImageMetadataFdis::defaults();
    assert!(d.all_default);
    assert!(d.xyb_encoded);
    assert!(d.modular_16bit_buffers);
    assert_eq!(d.orientation, 1);
    assert!(d.default_transform);
    assert_eq!(d.tone_mapping, ToneMapping::default());
    assert_eq!(d.extensions.mask, 0);
}

#[test]
fn noise_codes_are_eight_ten_bit_values() {
    let parts: Vec<(u32, u32)> = (0..8u32).map(|i| (i * 100 + 3, 10)).collect();
    let bytes = pack_lsb(&parts);
    let mut br = BitReader::new(&bytes);
    let codes = read_noise_codes(&mut br).unwrap();
    assert_eq!(codes, [3, 103, 203, 303, 403, 503, 603, 703]);
    assert_eq!(br.bits_read(), 80);
}

#[test]
fn noise_codes_truncated_is_eof() {
    let bytes = pack_lsb(&[(1, 10), (2, 10), (3, 10)]);
    let mut br = BitReader::new(&bytes);
    assert!(matches!(read_noise_codes(&mut br), Err(JxlError::Eof)));
}

#[test]
fn noise_parameters_read_ten_bit_lut() {
    // 8 × u(10): values 0, 1, 2, ..., 7 packed LSB-first; strength i is
    // code i / 1024.
    let parts: Vec<(u32, u32)> = (0..8u32).map(|v| (v, 10)).collect();
    let bytes = pack_lsb(&parts);
    let mut br = BitReader::new(&bytes);
    let codes = read_noise_codes(&mut br).unwrap();
    for (i, c) in codes.iter().enumerate() {
        let v = *c as f32 / 1024.0;
        assert!((v - i as f32 / 1024.0).abs() < 1e-9, "lut[{i}] = {v}");
    }
}
