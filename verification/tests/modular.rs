use jpegxl_decode::bitreader::BitReader;
use jpegxl_decode::error::JxlError;
use jpegxl_decode::modular::{
    compute_properties, decode_channel_header, decode_single_channel, property_ranges, Channel,
    MAX_CHANNEL_DIM,
};
use jpegxl_decode::matree::{MaTree, Node, PropRange, MAX_VALUE_BIT_DEPTH};
use jpegxl_decode::predictors::{ch_zero, Predictor};

/// Encode a `u64` as a `Varint()` and append it to `out`.
fn push_varint(out: &mut Vec<u8>, mut v: u64) {
    while v >= 0x80 {
        out.push(((v & 0x7f) as u8) | 0x80);
        v >>= 7;
    }
    out.push(v as u8);
}

/// Tree reader for channels whose payload must not be read.
fn no_tree(_k: u32, _lo: i32, _hi: i32) -> Result<i32, JxlError> {
    unreachable!("the MA tree is not read for this channel")
}

/// Residual decoder for channels whose payload must not be read.
fn no_residual(_leaf: usize, _lo: i32, _hi: i32) -> Result<i32, JxlError> {
    unreachable!("no residual is read for this channel")
}

/// Header of a single Gradient-predicted MABEGABRAC channel covering the
/// pixels' range, as the channel encoder writes it.
fn gradient_channel_header(pixels: &[i32]) -> (Vec<u8>, i32, i32) {
    let min = *pixels.iter().min().unwrap();
    let max = *pixels.iter().max().unwrap();
    let mut bytes = Vec::new();
    push_varint(&mut bytes, (Predictor::Gradient as u64) << 2);
    if min <= 0 {
        push_varint(&mut bytes, (1 - min) as u64);
    } else {
        push_varint(&mut bytes, 0);
        push_varint(&mut bytes, (min - 1) as u64);
    }
    push_varint(&mut bytes, (max - min) as u64);
    (bytes, min, max)
}

/// Residuals of the pixels under the Gradient predictor, in raster order:
/// what the entropy coder hands out for them.
fn gradient_residuals(width: u32, height: u32, pixels: &[i32], min: i32, max: i32) -> Vec<i32> {
    let cz = ch_zero(min, max);
    let w = width as usize;
    let mut out = Vec::new();
    for y in 0..height as usize {
        for x in 0..w {
            let top = if y > 0 { pixels[(y - 1) * w + x] } else { cz };
            let left = if x > 0 { pixels[y * w + x - 1] } else { cz };
            let topleft = if x > 0 && y > 0 { pixels[(y - 1) * w + x - 1] } else { left };
            let predicted = Predictor::Gradient.predict(left, top, topleft, cz);
            out.push(pixels[y * w + x] - predicted);
        }
    }
    out
}

/// Encode the pixels as a single-leaf-tree Gradient channel and decode
/// them back: the tree stream holds one leaf (property value 0, then a
/// zero-probability seed that needs no sign seed), the residual stream
/// the Gradient residuals.
fn round_trip(width: u32, height: u32, pixels: &[i32]) -> Channel {
    let (bytes, min, max) = gradient_channel_header(pixels);
    let mut tree_values = vec![(1u32, 0i32), (2u32, 0i32)].into_iter();
    let read_tree = move |k: u32, lo: i32, hi: i32| -> Result<i32, JxlError> {
        let (want, v) = tree_values.next().expect("tree stream exhausted");
        assert_eq!(k, want);
        assert!(lo <= v && v <= hi);
        Ok(v)
    };
    let mut residuals = gradient_residuals(width, height, pixels, min, max).into_iter();
    let decode_residual = move |leaf: usize, lo: i32, hi: i32| -> Result<i32, JxlError> {
        assert_eq!(leaf, 0);
        let r = residuals.next().expect("residual stream exhausted");
        assert!(lo <= r && r <= hi);
        Ok(r)
    };
    decode_single_channel(&bytes, width, height, 0, read_tree, decode_residual).unwrap()
}

#[test]
fn round_trip_4x4_gradient_modular_channel() {
    let pixels = [0i32, 1, 2, 3, 4, 5, 6, 7, 8, 9, 10, 11, 12, 13, 14, 15];
    let ch = round_trip(4, 4, &pixels);
    assert_eq!(ch.data, pixels);
}

#[test]
fn round_trip_2x2_single_pixel_value() {
    let pixels = [7i32, 7, 7, 7];
    let ch = round_trip(2, 2, &pixels);
    assert_eq!(ch.data, pixels);
}

#[test]
fn round_trip_8x8_random_in_range() {
    let mut state: u32 = 0x1234_5678;
    let mut pixels = [0i32; 64];
    for p in pixels.iter_mut() {
        state = state.wrapping_mul(1_103_515_245).wrapping_add(12_345);
        *p = ((state >> 17) & 0xF) as i32;
    }
    let ch = round_trip(8, 8, &pixels);
    assert_eq!(ch.data, pixels);
}

#[test]
fn channel_set_get_round_trip() {
    let mut ch = Channel::new(3, 2);
    ch.set(2, 1, 42);
    assert_eq!(ch.get(2, 1), 42);
    assert_eq!(ch.get(0, 0), 0);
}

#[test]
fn property_ranges_no_extras_basic() {
    let r = property_ranges(0, 255, 8, 8, &[], 0);
    assert_eq!(r.len(), 12);
    assert_eq!(r[0].min, 0);
    assert_eq!(r[0].max, 255);
    assert_eq!(r[2].min, 0);
    assert_eq!(r[2].max, 255);
    assert_eq!(r[4].min, 0);
    assert_eq!(r[4].max, 7);
    assert_eq!(r[5].min, 0);
    assert_eq!(r[5].max, 7);
}

#[test]
fn compute_properties_first_pixel() {
    let ch = Channel { width: 4, height: 4, hshift: 0, vshift: 0, min: 0, max: 255, data: vec![0; 16] };
    let p = compute_properties(&ch, 0, 0, &[], 0);
    assert_eq!(p.len(), 12);
    assert_eq!(p[0], 0);
    assert_eq!(p[1], 0);
    assert_eq!(p[4], 0);
    assert_eq!(p[5], 0);
}

#[test]
fn channel_header_constant_channel_round_trips() {
    let mut bytes = Vec::new();
    push_varint(&mut bytes, 8);
    push_varint(&mut bytes, 0);
    push_varint(&mut bytes, 41);
    push_varint(&mut bytes, 0);
    let mut br = BitReader::new(&bytes);
    let h = decode_channel_header(&mut br).unwrap();
    assert_eq!(h.entropy_coder, 0);
    assert_eq!(h.predictor, Predictor::Gradient);
    assert_eq!(h.min, 42);
    assert_eq!(h.max, 42);
    assert!(h.constant);
}

#[test]
fn decode_single_channel_constant_yields_constant_grid() {
    let mut bytes = Vec::new();
    push_varint(&mut bytes, (Predictor::Zero as u64) << 2);
    push_varint(&mut bytes, 0);
    push_varint(&mut bytes, 41);
    push_varint(&mut bytes, 0);
    let ch = decode_single_channel(&bytes, 4, 3, 0, no_tree, no_residual).unwrap();
    assert_eq!(ch.width, 4);
    assert_eq!(ch.height, 3);
    assert_eq!(ch.data, vec![42; 12]);
}

#[test]
fn rejects_oversized_channel_dimensions() {
    let mut bytes = Vec::new();
    push_varint(&mut bytes, (Predictor::Zero as u64) << 2);
    push_varint(&mut bytes, 1);
    push_varint(&mut bytes, 255);
    bytes.extend_from_slice(&[0u8; 64]);
    let err = decode_single_channel(&bytes, 1_000_000, 1_000_000, 0, no_tree, no_residual).unwrap_err();
    match err {
        JxlError::InvalidData(msg) => {
            assert!(msg.contains("dimensions") || msg.contains("pixels"), "{msg}");
        }
        other => panic!("expected InvalidData, got {other:?}"),
    }
}

#[test]
fn try_new_rejects_zero_dim() {
    let err = Channel::try_new(0, 8).unwrap_err();
    assert!(matches!(err, JxlError::InvalidData(_)));
    let err = Channel::try_new(8, 0).unwrap_err();
    assert!(matches!(err, JxlError::InvalidData(_)));
}

#[test]
fn try_new_rejects_overlarge_side() {
    let err = Channel::try_new(MAX_CHANNEL_DIM + 1, 1).unwrap_err();
    assert!(matches!(err, JxlError::InvalidData(_)));
}

#[test]
fn try_new_rejects_overlarge_pixel_count() {
    let err = Channel::try_new(32_768, 16_384).unwrap_err();
    assert!(matches!(err, JxlError::InvalidData(_)));
}

#[test]
fn rejects_unsupported_entropy_coder() {
    let mut bytes = Vec::new();
    push_varint(&mut bytes, ((Predictor::Gradient as u64) << 2) | 2);
    push_varint(&mut bytes, 1);
    push_varint(&mut bytes, 255);
    let err = decode_single_channel(&bytes, 4, 4, 0, no_tree, no_residual).unwrap_err();
    assert!(matches!(err, JxlError::Unsupported(_)));
}

#[test]
fn rejects_overlarge_bit_depth() {
    // The range check fires before any value is read.
    let ranges = vec![PropRange { min: 0, max: 255 }; 2];
    let mut reads = 0u32;
    let err = MaTree::decode(
        |_k: u32, _lo: i32, _hi: i32| {
            reads += 1;
            Ok(0)
        },
        &ranges,
        MAX_VALUE_BIT_DEPTH + 1,
        false,
    )
    .unwrap_err();
    assert!(matches!(err, JxlError::InvalidData(_)));
    assert_eq!(reads, 0);
}

#[test]
fn decode_single_leaf_tree_from_scripted_reads() {
    // property 0 (a leaf), then the zero-probability seed 5
    let ranges = vec![PropRange { min: 0, max: 255 }; 4];
    let script = [(1u32, 0i32), (2, 5)];
    let mut at = 0usize;
    let mut seen: Vec<(u32, i32, i32)> = Vec::new();
    let tree = MaTree::decode(
        |k: u32, lo: i32, hi: i32| {
            seen.push((k, lo, hi));
            let (want_k, v) = script[at];
            assert_eq!(k, want_k);
            at += 1;
            Ok(v)
        },
        &ranges,
        9,
        true,
    )
    .unwrap();
    assert_eq!(tree.nodes.len(), 1);
    assert!(matches!(tree.nodes[0], Node::Leaf));
    assert_eq!(seen, vec![(1, 0, 3), (2, -5, 5)]);
    assert_eq!(tree.walk(&[1, 2, 3, 4]).unwrap(), 0);
}

#[test]
fn decode_decision_then_two_leaves_from_scripted_reads() {
    // decision on property 1 (coded as 2) at threshold 49, then two leaves
    let ranges = vec![PropRange { min: 0, max: 255 }, PropRange { min: 0, max: 100 }, PropRange { min: 0, max: 7 }];
    let script = [(1u32, 2i32), (4, 49), (1, 0), (1, 0)];
    let mut at = 0usize;
    let mut seen: Vec<(u32, i32, i32)> = Vec::new();
    let tree = MaTree::decode(
        |k: u32, lo: i32, hi: i32| {
            seen.push((k, lo, hi));
            let (want_k, v) = script[at];
            assert_eq!(k, want_k);
            at += 1;
            Ok(v)
        },
        &ranges,
        9,
        false,
    )
    .unwrap();
    assert_eq!(seen, vec![(1, 0, 2), (4, 0, 99), (1, 0, 2), (1, 0, 2)]);
    let (left, right) = match tree.nodes[0] {
        Node::Decision { property_index, threshold, left, right } => {
            assert_eq!(property_index, 1);
            assert_eq!(threshold, 49);
            (left, right)
        },
        Node::Leaf => panic!("expected a decision node"),
    };
    assert_eq!(tree.walk(&[100, 60, 0]).unwrap(), left);
    assert_eq!(tree.walk(&[100, 10, 0]).unwrap(), right);
}

#[test]
fn every_property_lies_in_its_seeded_range() {
    let (w, h) = (5u32, 4u32);
    let mut state: u32 = 7;
    let mut data = vec![0i32; (w * h) as usize];
    for v in data.iter_mut() {
        state = state.wrapping_mul(1_103_515_245).wrapping_add(12_345);
        *v = ((state >> 16) % 21) as i32 - 10;
    }
    let ch = Channel { width: w, height: h, hshift: 0, vshift: 0, min: -10, max: 10, data };
    let r = property_ranges(-10, 10, w, h, &[], 0);
    for y in 0..h {
        for x in 0..w {
            let p = compute_properties(&ch, x, y, &[], 0);
            assert_eq!(p.len(), r.len());
            for i in 0..p.len() {
                assert!(r[i].min <= p[i] && p[i] <= r[i].max, "property {i} at ({x}, {y})");
            }
        }
    }
}
