use jpegxl_decode::bitreader::BitReader;
use jpegxl_decode::error::JxlError;
use jpegxl_decode::metadata::{parse_bit_depth, parse_image_metadata, parse_size_header, BitDepth};
use jpegxl_decode::metadata_fdis::{
    AnimationHeader, BitDepthFdis, ColourEncoding, ColourSpace, Customxy, ExtraChannelInfo, ExtraChannelType, PreviewHeader,
    Primaries, RenderingIntent, SizeHeaderFdis, TransferFunction, WhitePoint,
};

/// Append `value` as `n` bits, least significant first.
struct BitWriter {
    out: Vec<u8>,
    bit_pos: u8,
}

impl BitWriter {
    fn new() -> Self {
        Self { out: Vec::new(), bit_pos: 0 }
    }

    fn write_bits(&mut self, value: u32, n: u32) {
        for i in 0..n {
            let bit = ((value >> i) & 1) as u8;
            if self.bit_pos == 0 {
                self.out.push(0);
            }
            let last = self.out.len() - 1;
            self.out[last] |= bit << self.bit_pos;
            self.bit_pos = (self.bit_pos + 1) % 8;
        }
    }

    fn finish(self) -> Vec<u8> {
        self.out
    }
}

#[test]
fn size_header_small_square_8x8() {
    let mut bw = BitWriter::new();
    bw.write_bits(1, 1);
    bw.write_bits(0, 5);
    bw.write_bits(1, 3);
    bw.write_bits(1, 1);
    let bytes = bw.finish();
    let mut br = BitReader::new(&bytes);
    let s = parse_size_header(&mut br).unwrap();
    assert_eq!((s.width, s.height, s.ratio, s.small), (8, 8, 1, true));
    let m = parse_image_metadata(&mut br).unwrap();
    assert!(m.all_default);
    assert_eq!(m.bit_depth, BitDepth::default_u8());
}

#[test]
fn size_header_small_16x24_explicit_ratio() {
    let mut bw = BitWriter::new();
    bw.write_bits(1, 1);
    bw.write_bits(2, 5);
    bw.write_bits(0, 3);
    bw.write_bits(1, 5);
    let bytes = bw.finish();
    let mut br = BitReader::new(&bytes);
    let s = parse_size_header(&mut br).unwrap();
    assert_eq!((s.width, s.height), (16, 24));
    assert_eq!(s.ratio, 0);
}

#[test]
fn size_header_large_non_multiple_of_8() {
    let mut bw = BitWriter::new();
    bw.write_bits(0, 1);
    bw.write_bits(0, 2);
    bw.write_bits(99, 9);
    bw.write_bits(0, 3);
    bw.write_bits(0, 2);
    bw.write_bits(149, 9);
    let bytes = bw.finish();
    let mut br = BitReader::new(&bytes);
    let s = parse_size_header(&mut br).unwrap();
    assert_eq!((s.width, s.height), (150, 100));
    assert!(!s.small);
}

#[test]
fn size_header_implicit_aspect_ratio_16_9() {
    let mut bw = BitWriter::new();
    bw.write_bits(1, 1);
    bw.write_bits(8, 5);
    bw.write_bits(5, 3);
    let bytes = bw.finish();
    let mut br = BitReader::new(&bytes);
    let s = parse_size_header(&mut br).unwrap();
    assert_eq!((s.width, s.height), (128, 72));
    assert_eq!(s.ratio, 5);
    let mut br2 = BitReader::new(&bytes);
    let f = SizeHeaderFdis::read(&mut br2).unwrap();
    assert_eq!((f.width, f.height, f.ratio), (128, 72, 5));
}

#[test]
fn size_header_truncated_stream_is_eof() {
    let bytes: Vec<u8> = vec![];
    let mut br = BitReader::new(&bytes);
    assert!(matches!(parse_size_header(&mut br), Err(JxlError::Eof)));
}

#[test]
fn image_metadata_non_default_u16() {
    let mut bw = BitWriter::new();
    bw.write_bits(0, 1);
    bw.write_bits(0, 1);
    bw.write_bits(0, 1);
    bw.write_bits(0, 1);
    bw.write_bits(3, 2);
    bw.write_bits(15, 6);
    bw.write_bits(1, 1);
    bw.write_bits(0, 2);
    let bytes = bw.finish();
    let mut br = BitReader::new(&bytes);
    let m = parse_image_metadata(&mut br).unwrap();
    assert!(!m.all_default);
    assert_eq!(m.bit_depth.bits_per_sample, 16);
    assert!(!m.bit_depth.floating_point);
    assert_eq!(m.orientation, 1);
    assert_eq!(m.num_extra_channels, 0);
}

#[test]
fn image_metadata_preview_is_unsupported() {
    // all_default 0, extra_fields 1, orientation 0, no intrinsic size, preview 1.
    let mut bw = BitWriter::new();
    bw.write_bits(0, 1);
    bw.write_bits(1, 1);
    bw.write_bits(0, 3);
    bw.write_bits(0, 1);
    bw.write_bits(1, 1);
    let bytes = bw.finish();
    let mut br = BitReader::new(&bytes);
    assert!(matches!(parse_image_metadata(&mut br), Err(JxlError::Unsupported(_))));
}

#[test]
fn bit_depth_float_rejects_bad_exponent() {
    // float, bits_per_sample 32, exponent bits u(4) = 0 → 1 (< 2).
    let mut bw = BitWriter::new();
    bw.write_bits(1, 1);
    bw.write_bits(0, 2);
    bw.write_bits(0, 4);
    let bytes = bw.finish();
    let mut br = BitReader::new(&bytes);
    assert!(matches!(parse_bit_depth(&mut br), Err(JxlError::InvalidData(_))));
}

#[test]
fn bit_depth_integer_8() {
    let mut bw = BitWriter::new();
    bw.write_bits(0, 1);
    bw.write_bits(0, 2);
    let bytes = bw.finish();
    let mut br = BitReader::new(&bytes);
    let bd = BitDepthFdis::read(&mut br).unwrap();
    assert!(!bd.float_sample);
    assert_eq!(bd.bits_per_sample, 8);
}

#[test]
fn bit_depth_float_32_8() {
    let mut bw = BitWriter::new();
    bw.write_bits(1, 1);
    bw.write_bits(0, 2);
    bw.write_bits(7, 4);
    let bytes = bw.finish();
    let mut br = BitReader::new(&bytes);
    let bd = BitDepthFdis::read(&mut br).unwrap();
    assert!(bd.float_sample);
    assert_eq!(bd.bits_per_sample, 32);
    assert_eq!(bd.exp_bits, 8);
}

#[test]
fn colour_encoding_all_default() {
    let bytes = vec![0x01u8];
    let mut br = BitReader::new(&bytes);
    let ce = ColourEncoding::read(&mut br).unwrap();
    assert!(ce.all_default);
    assert_eq!(ce.colour_space, ColourSpace::Rgb);
    assert_eq!(ce.white_point, WhitePoint::D65);
}

#[test]
fn colour_encoding_grey_with_pq_transfer() {
    // all_default 0, want_icc 0, colour space Enum sel 1 → 1 (grey),
    // white point Enum sel 1 → 1 (D65), no primaries for grey,
    // transfer: have_gamma 0, Enum sel 2 → 2 + u(4)=14 → 16 (PQ),
    // rendering intent Enum sel 0 → 0 (perceptual).
    let mut bw = BitWriter::new();
    bw.write_bits(0, 1);
    bw.write_bits(0, 1);
    bw.write_bits(1, 2);
    bw.write_bits(1, 2);
    bw.write_bits(0, 1);
    bw.write_bits(2, 2);
    bw.write_bits(14, 4);
    bw.write_bits(0, 2);
    let bytes = bw.finish();
    let mut br = BitReader::new(&bytes);
    let ce = ColourEncoding::read(&mut br).unwrap();
    assert_eq!(ce.colour_space, ColourSpace::Grey);
    assert_eq!(ce.white_point, WhitePoint::D65);
    assert_eq!(ce.primaries, Primaries::SRgb);
    assert_eq!(ce.tf.transfer_function, TransferFunction::Pq);
    assert_eq!(ce.rendering_intent, RenderingIntent::Perceptual);
}

#[test]
fn animation_header_default_path() {
    let mut bw = BitWriter::new();
    bw.write_bits(0, 2);
    bw.write_bits(0, 2);
    bw.write_bits(0, 2);
    bw.write_bits(0, 1);
    let bytes = bw.finish();
    let mut br = BitReader::new(&bytes);
    let a = AnimationHeader::read(&mut br).unwrap();
    assert_eq!(a.tps_numerator, 100);
    assert_eq!(a.tps_denominator, 1);
    assert_eq!(a.num_loops, 0);
    assert!(!a.have_timecodes);
}

#[test]
fn customxy_round_trip() {
    let mut bw = BitWriter::new();
    bw.write_bits(0, 2);
    bw.write_bits(4, 19);
    bw.write_bits(0, 2);
    bw.write_bits(5, 19);
    let bytes = bw.finish();
    let mut br = BitReader::new(&bytes);
    let xy = Customxy::read(&mut br).unwrap();
    assert_eq!(xy.x, 2);
    assert_eq!(xy.y, -3);
}

#[test]
fn extra_channel_info_all_default_is_alpha() {
    let bytes = vec![0x01u8];
    let mut br = BitReader::new(&bytes);
    let eci = ExtraChannelInfo::read(&mut br).unwrap();
    assert!(eci.all_default);
    assert_eq!(eci.kind, ExtraChannelType::Alpha);
}

#[test]
fn extra_channel_info_named_spot_colour() {
    // all_default 0, kind Enum sel 2 → 2 + u(4)=0 → 2 (spot colour),
    // bit depth integer sel 0 (8 bits), dim_shift sel 0 (0), name length
    // sel 1 → u(4) = 2, "ab", then four F16 values 0x3C00 (1.0).
    let mut bw = BitWriter::new();
    bw.write_bits(0, 1);
    bw.write_bits(2, 2);
    bw.write_bits(0, 4);
    bw.write_bits(0, 1);
    bw.write_bits(0, 2);
    bw.write_bits(0, 2);
    bw.write_bits(1, 2);
    bw.write_bits(2, 4);
    bw.write_bits(b'a' as u32, 8);
    bw.write_bits(b'b' as u32, 8);
    for _ in 0..4 {
        bw.write_bits(0x3C00, 16);
    }
    let bytes = bw.finish();
    let mut br = BitReader::new(&bytes);
    let eci = ExtraChannelInfo::read(&mut br).unwrap();
    assert!(!eci.all_default);
    assert_eq!(eci.kind, ExtraChannelType::SpotColour);
    assert_eq!(eci.name, "ab");
    assert_eq!(eci.spot_bits, [0x3C00; 4]);
    assert_eq!(eci.cfa_channel, 1);
}

#[test]
fn extra_channel_info_rejects_invalid_utf8_name() {
    // kind 0 (alpha), 8-bit, dim_shift 0, name of one byte 0xFF.
    let mut bw = BitWriter::new();
    bw.write_bits(0, 1);
    bw.write_bits(0, 2);
    bw.write_bits(0, 1);
    bw.write_bits(0, 2);
    bw.write_bits(0, 2);
    bw.write_bits(1, 2);
    bw.write_bits(1, 4);
    bw.write_bits(0xFF, 8);
    bw.write_bits(0, 8);
    let bytes = bw.finish();
    let mut br = BitReader::new(&bytes);
    assert!(matches!(ExtraChannelInfo::read(&mut br), Err(JxlError::InvalidData(_))));
}

#[test]
fn preview_header_div8_square() {
    // div8 1, height selector 0 → 16 * 8 = 128, ratio 1 → width 128.
    let mut bw = BitWriter::new();
    bw.write_bits(1, 1);
    bw.write_bits(0, 2);
    bw.write_bits(1, 3);
    let bytes = bw.finish();
    let mut br = BitReader::new(&bytes);
    let p = PreviewHeader::read(&mut br).unwrap();
    assert_eq!((p.width, p.height), (128, 128));
}

#[test]
fn enumerations_map_their_values() {
    assert_eq!(ExtraChannelType::from_u32(16).unwrap(), ExtraChannelType::Optional);
    assert!(ExtraChannelType::from_u32(7).is_err());
    assert_eq!(WhitePoint::from_u32(11).unwrap(), WhitePoint::Dci);
    assert!(Primaries::from_u32(3).is_err());
    assert_eq!(TransferFunction::from_u32(18).unwrap(), TransferFunction::Hlg);
    assert_eq!(RenderingIntent::from_u32(3).unwrap(), RenderingIntent::Absolute);
    assert!(ColourSpace::from_u32(4).is_err());
}
