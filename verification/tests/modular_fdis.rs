use jpegxl_decode::bitreader::BitReader;
use jpegxl_decode::error::JxlError;
use jpegxl_decode::modular_fdis::{
    decode_channels, evaluate_tree, get_properties, horiz_isqueeze, inverse_palette, inverse_rct, predict,
    squeeze_tendency, vert_isqueeze, ChannelDesc, MaLeaf, MaNode, MaTreeFdis, ModularImage, TransformId,
    TransformInfo, WpHeader, WpState,
};

fn one_channel(w: u32, h: u32, data: Vec<i32>) -> ModularImage {
    ModularImage { channels: vec![data], descs: vec![ChannelDesc { width: w, height: h, hshift: 0, vshift: 0 }] }
}

#[test]
fn wp_header_default_values() {
    let bytes = vec![0x01u8];
    let mut br = BitReader::new(&bytes);
    let wp = WpHeader::read(&mut br).unwrap();
    assert!(wp.default_wp);
    assert_eq!(wp.p1, 16);
    assert_eq!(wp.w0, 13);
}

#[test]
fn predict_zero_is_zero() {
    let img = one_channel(2, 2, vec![10, 20, 30, 40]);
    let wp = WpHeader::default();
    assert_eq!(predict(&img, 0, 0, 0, 0, &wp, None).unwrap().0, 0);
    assert_eq!(predict(&img, 0, 1, 1, 0, &wp, None).unwrap().0, 0);
}

#[test]
fn predict_left_returns_left_neighbour() {
    let img = one_channel(2, 2, vec![5, 7, 11, 13]);
    let wp = WpHeader::default();
    assert_eq!(predict(&img, 0, 1, 0, 1, &wp, None).unwrap().0, 5);
}

#[test]
fn predict_top_returns_top_neighbour() {
    let img = one_channel(2, 2, vec![5, 7, 11, 13]);
    let wp = WpHeader::default();
    assert_eq!(predict(&img, 0, 0, 1, 2, &wp, None).unwrap().0, 5);
}

#[test]
fn predict_average_left_top() {
    let img = one_channel(2, 2, vec![10, 0, 30, 0]);
    let wp = WpHeader::default();
    assert_eq!(predict(&img, 0, 1, 1, 3, &wp, None).unwrap().0, 15);
}

#[test]
fn predict_predictor_6_at_origin_returns_zero() {
    let img = one_channel(2, 2, vec![0; 4]);
    let wp = WpHeader::default();
    let state = WpState::new(2, 2);
    let (v, _, _) = predict(&img, 0, 0, 0, 6, &wp, Some(&state)).unwrap();
    assert_eq!(v, 0);
}

#[test]
fn predict_rejects_unknown_predictor() {
    let img = one_channel(2, 2, vec![0; 4]);
    let wp = WpHeader::default();
    assert!(matches!(predict(&img, 0, 0, 0, 14, &wp, None), Err(JxlError::InvalidData(_))));
}

#[test]
fn evaluate_tree_single_leaf() {
    let leaf = MaLeaf { ctx: 0, predictor: 1, offset: 0, multiplier: 1 };
    let nodes = vec![MaNode::Leaf(leaf)];
    let result = evaluate_tree(&nodes, &[]).unwrap();
    assert_eq!(result.ctx, 0);
    assert_eq!(result.predictor, 1);
}

#[test]
fn evaluate_tree_decision_walks_correctly() {
    let nodes = vec![
        MaNode::Decision { property: 3, value: 10, left_child: 1, right_child: 2 },
        MaNode::Leaf(MaLeaf { ctx: 1, predictor: 0, offset: 0, multiplier: 1 }),
        MaNode::Leaf(MaLeaf { ctx: 2, predictor: 0, offset: 0, multiplier: 1 }),
    ];
    let mut props = vec![0i32; 16];
    props[3] = 5;
    let leaf = evaluate_tree(&nodes, &props).unwrap();
    assert_eq!(leaf.ctx, 2);
    props[3] = 100;
    let leaf = evaluate_tree(&nodes, &props).unwrap();
    assert_eq!(leaf.ctx, 1);
}

#[test]
fn evaluate_tree_rejects_out_of_range_child() {
    let nodes = vec![MaNode::Decision { property: 0, value: 0, left_child: 99, right_child: 1 }];
    let props = vec![1i32];
    assert!(evaluate_tree(&nodes, &props).is_err());
}

#[test]
fn inverse_rct_type_0_identity_after_no_op() {
    let mut img = ModularImage {
        channels: vec![vec![10i32], vec![20i32], vec![30i32]],
        descs: vec![ChannelDesc { width: 1, height: 1, hshift: 0, vshift: 0 }; 3],
    };
    inverse_rct(&mut img, 0, 0).unwrap();
    assert_eq!(img.channels[0][0], 10);
    assert_eq!(img.channels[1][0], 20);
    assert_eq!(img.channels[2][0], 30);
}

#[test]
fn inverse_rct_type_6_ycgco_round_trip() {
    let mut img = ModularImage {
        channels: vec![vec![128i32], vec![0i32], vec![0i32]],
        descs: vec![ChannelDesc { width: 1, height: 1, hshift: 0, vshift: 0 }; 3],
    };
    inverse_rct(&mut img, 0, 6).unwrap();
    assert_eq!(img.channels[0][0], 128);
    assert_eq!(img.channels[1][0], 128);
    assert_eq!(img.channels[2][0], 128);
}

#[test]
fn inverse_rct_rejects_type_above_41() {
    let mut img = ModularImage {
        channels: vec![vec![1i32], vec![2i32], vec![3i32]],
        descs: vec![ChannelDesc { width: 1, height: 1, hshift: 0, vshift: 0 }; 3],
    };
    assert!(inverse_rct(&mut img, 0, 42).is_err());
}

#[test]
fn inverse_palette_explicit_colour_lookup() {
    let mut img = ModularImage {
        channels: vec![vec![10, 20, 30, 40], vec![0, 1, 2, 3]],
        descs: vec![
            ChannelDesc { width: 4, height: 1, hshift: -1, vshift: -1 },
            ChannelDesc { width: 2, height: 2, hshift: 0, vshift: 0 },
        ],
    };
    inverse_palette(&mut img, 0, 1, 4, 0, 0, 8).unwrap();
    assert_eq!(img.channels.len(), 1);
    assert_eq!(img.channels[0], vec![10, 20, 30, 40]);
}

#[test]
fn squeeze_tendency_zero_when_neighbours_disagree() {
    assert_eq!(squeeze_tendency(10, 5, 8), 0);
    assert_eq!(squeeze_tendency(20, 10, 5), 5);
}

#[test]
fn horiz_isqueeze_simple_pair() {
    let (out, w) = horiz_isqueeze(&[10], 1, &[0], 1, 1).unwrap();
    assert_eq!(w, 2);
    assert_eq!(out, vec![10, 10]);
}

#[test]
fn vert_isqueeze_residual_splits_pair() {
    // average 10, residual 4, no neighbours: tendency 0, so the pair is
    // first = (2 * 10 + 4 + 1) >> 1 = 12 and second = 12 - 4 = 8.
    let (out, h) = vert_isqueeze(&[10], 1, &[4], 1, 1).unwrap();
    assert_eq!(h, 2);
    assert_eq!(out, vec![12, 8]);
}

#[test]
fn get_properties_first_pixel_grey_image() {
    let img = one_channel(2, 2, vec![0i32; 4]);
    let p = get_properties(&img, 0, 0, 0, 0, 0);
    assert_eq!(p[0], 0);
    assert_eq!(p[1], 0);
    assert_eq!(p[2], 0);
    assert_eq!(p[3], 0);
    assert!(p.len() >= 16);
}

#[test]
fn transform_info_reads_rct_kind() {
    // kind 0 (RCT): begin_c selector 0 → u(3) = 2, rct_type selector 0 → 6.
    // Bits LSB first: 00 | 00 010 | 00 → byte 0 = 0b0010_0000, byte 1 = 0.
    let bytes = vec![0b0010_0000u8, 0];
    let mut br = BitReader::new(&bytes);
    let t = TransformInfo::read(&mut br).unwrap();
    assert_eq!(t.tr, TransformId::Rct);
    assert_eq!(t.begin_c, Some(2));
    assert_eq!(t.rct_type, Some(6));
}

#[test]
fn decode_channels_uses_tree_leaf_and_tokens() {
    // One zero-predictor leaf with offset 1 and multiplier 2: every
    // sample is UnpackSigned(token) * 2 + 1. Tokens 0, 1, 2, 3 unpack to
    // 0, -1, 1, -2.
    let tree = MaTreeFdis { nodes: vec![MaNode::Leaf(MaLeaf { ctx: 0, predictor: 0, offset: 1, multiplier: 2 })], num_ctx: 1 };
    let descs = vec![ChannelDesc { width: 2, height: 2, hshift: 0, vshift: 0 }];
    let wp = WpHeader::default();
    let bytes: Vec<u8> = vec![];
    let mut br = BitReader::new(&bytes);
    let mut next: u32 = 0;
    let mut decode = |n: &mut u32, _br: &mut BitReader<'_>, _ctx: u32, _dm: u32| -> Result<u32, JxlError> {
        let v = *n;
        *n += 1;
        Ok(v)
    };
    let img = decode_channels(&mut br, &descs, &tree, &mut next, &wp, &mut decode).unwrap();
    assert_eq!(img.channels[0], vec![1, -1, 3, -3]);
}
