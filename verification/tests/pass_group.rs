use jpegxl_decode::bitreader::BitReader;
use jpegxl_decode::error::JxlError;
use jpegxl_decode::modular_fdis::{ChannelDesc, MaLeaf, MaNode, MaTreeFdis, ModularImage};
use jpegxl_decode::pass_group::{compute_pass_shift_range, decode_modular_group_into, GroupLayout, ModularGroupData, PassGroup};

fn layout(w: u32, h: u32) -> GroupLayout {
    GroupLayout { width: w, height: h, group_dim: 256, num_passes: 1 }
}

#[test]
fn rect_for_single_group_default_group_dim() {
    let r = ModularGroupData::rect_for_index(&layout(64, 64), 0).unwrap();
    assert_eq!((r.x_origin, r.y_origin, r.width, r.height), (0, 0, 64, 64));
}

#[test]
fn rect_for_2x2_grid() {
    let l = layout(512, 512);
    let r0 = ModularGroupData::rect_for_index(&l, 0).unwrap();
    let r1 = ModularGroupData::rect_for_index(&l, 1).unwrap();
    let r2 = ModularGroupData::rect_for_index(&l, 2).unwrap();
    let r3 = ModularGroupData::rect_for_index(&l, 3).unwrap();
    assert_eq!((r0.x_origin, r0.y_origin), (0, 0));
    assert_eq!((r1.x_origin, r1.y_origin), (256, 0));
    assert_eq!((r2.x_origin, r2.y_origin), (0, 256));
    assert_eq!((r3.x_origin, r3.y_origin), (256, 256));
    for r in [r0, r1, r2, r3] {
        assert_eq!((r.width, r.height), (256, 256));
    }
}

#[test]
fn rect_for_clipped_last_column() {
    let l = layout(300, 300);
    let r1 = ModularGroupData::rect_for_index(&l, 1).unwrap();
    assert_eq!((r1.x_origin, r1.y_origin, r1.width, r1.height), (256, 0, 44, 256));
    let r3 = ModularGroupData::rect_for_index(&l, 3).unwrap();
    assert_eq!((r3.x_origin, r3.y_origin, r3.width, r3.height), (256, 256, 44, 44));
}

#[test]
fn pass_group_read_succeeds_round_7() {
    let bytes = vec![0u8; 16];
    let mut br = BitReader::new(&bytes);
    let pg = PassGroup::read(&mut br, &layout(64, 64), 0, 0).unwrap();
    assert_eq!(pg.pass_index, 0);
    assert_eq!(pg.group_index, 0);
    assert_eq!(pg.modular_group.width, 64);
    assert_eq!(pg.modular_group.height, 64);
}

#[test]
fn rect_out_of_range_errors() {
    assert!(ModularGroupData::rect_for_index(&layout(64, 64), 1).is_err());
}

#[test]
fn pass_group_read_rejects_out_of_range_pass() {
    let bytes = vec![0u8; 16];
    let mut br = BitReader::new(&bytes);
    let r = PassGroup::read(&mut br, &layout(64, 64), 99, 0);
    assert!(matches!(r, Err(JxlError::InvalidData(_))));
}

#[test]
fn shift_range_single_pass_implicit_final() {
    let (minshift, maxshift) = compute_pass_shift_range(0, &[], &[], 1);
    assert_eq!(minshift, 0);
    assert_eq!(maxshift, 3);
}

#[test]
fn shift_range_two_passes_first_pass() {
    let (m0, x0) = compute_pass_shift_range(0, &[1], &[0], 2);
    assert_eq!((m0, x0), (0, 3));
}

#[test]
fn shift_range_two_passes_implicit_final() {
    let (m1, x1) = compute_pass_shift_range(1, &[2], &[0], 2);
    assert_eq!((m1, x1), (0, 1));
}

type Stream = u32;

fn open(_br: &mut BitReader<'_>, _n: usize) -> Result<Stream, JxlError> {
    Ok(0)
}

fn restart(_s: &Stream) -> Stream {
    0
}

#[test]
fn group_decode_copies_samples_into_its_rectangle() {
    // A 300x8 grey channel spans two 256-wide groups; group 1 covers
    // columns 256..300. Its header: use_global_tree = 1, default WP,
    // nb_transforms selector 0 → bits 1, 1, 00 → byte 0b0000_0011.
    let mut image = ModularImage {
        channels: vec![vec![-1; 300 * 8]],
        descs: vec![ChannelDesc { width: 300, height: 8, hshift: 0, vshift: 0 }],
    };
    let tree = MaTreeFdis { nodes: vec![MaNode::Leaf(MaLeaf { ctx: 0, predictor: 0, offset: 5, multiplier: 1 })], num_ctx: 1 };
    let global = (tree, 0u32);
    let bytes = vec![0b0000_0011u8, 0, 0, 0];
    let mut br = BitReader::new(&bytes);
    let l = GroupLayout { width: 300, height: 8, group_dim: 256, num_passes: 1 };
    let mut o = open;
    let mut d = |_s: &mut Stream, _b: &mut BitReader<'_>, _c: u32, _m: u32| -> Result<u32, JxlError> { Ok(0) };
    let mut r = restart;
    decode_modular_group_into(&mut br, &l, &[], &[], 1, &mut image, 0, Some(&global), 0, 1, &mut o, &mut d, &mut r)
        .unwrap();
    for y in 0..8usize {
        for x in 0..300usize {
            let want = if x >= 256 { 5 } else { -1 };
            assert_eq!(image.channels[0][y * 300 + x], want, "({x},{y})");
        }
    }
}

#[test]
fn group_decode_without_contributing_channels_reads_nothing() {
    // A channel no larger than a group was decoded whole by GlobalModular.
    let mut image = ModularImage {
        channels: vec![vec![9; 16]],
        descs: vec![ChannelDesc { width: 4, height: 4, hshift: 0, vshift: 0 }],
    };
    let bytes: Vec<u8> = vec![];
    let mut br = BitReader::new(&bytes);
    let l = GroupLayout { width: 4, height: 4, group_dim: 256, num_passes: 1 };
    let mut o = open;
    let mut d = |_s: &mut Stream, _b: &mut BitReader<'_>, _c: u32, _m: u32| -> Result<u32, JxlError> { Ok(0) };
    let mut r = restart;
    decode_modular_group_into(&mut br, &l, &[], &[], 1, &mut image, 0, None, 0, 0, &mut o, &mut d, &mut r).unwrap();
    assert_eq!(image.channels[0], vec![9; 16]);
}

#[test]
fn group_decode_rejects_group_outside_frame() {
    let mut image = ModularImage { channels: vec![], descs: vec![] };
    let bytes: Vec<u8> = vec![];
    let mut br = BitReader::new(&bytes);
    let l = GroupLayout { width: 4, height: 4, group_dim: 256, num_passes: 1 };
    let mut o = open;
    let mut d = |_s: &mut Stream, _b: &mut BitReader<'_>, _c: u32, _m: u32| -> Result<u32, JxlError> { Ok(0) };
    let mut r = restart;
    let res = decode_modular_group_into(&mut br, &l, &[], &[], 1, &mut image, 0, None, 0, 1, &mut o, &mut d, &mut r);
    assert!(matches!(res, Err(JxlError::InvalidData(_))));
}
