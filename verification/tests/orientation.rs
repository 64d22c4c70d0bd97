use jpegxl_decode::error::JxlError;
use jpegxl_decode::orientation::{orient_planes, Plane};

/// 2×3 coded plane:
/// ```text
/// 1 2
/// 3 4
/// 5 6
/// ```
fn plane_2x3() -> Plane {
    Plane { stride: 2, data: vec![1, 2, 3, 4, 5, 6] }
}

fn oriented(orientation: u8) -> (usize, Vec<u8>) {
    let out = orient_planes(vec![plane_2x3()], orientation, 1).unwrap();
    (out[0].stride, out[0].data.clone())
}

#[test]
fn identity_and_flips() {
    assert_eq!(oriented(1), (2, vec![1, 2, 3, 4, 5, 6]));
    assert_eq!(oriented(2), (2, vec![2, 1, 4, 3, 6, 5]));
    assert_eq!(oriented(3), (2, vec![6, 5, 4, 3, 2, 1]));
    assert_eq!(oriented(4), (2, vec![5, 6, 3, 4, 1, 2]));
}

#[test]
fn transposing_orientations() {
    assert_eq!(oriented(5), (3, vec![1, 3, 5, 2, 4, 6]));
    assert_eq!(oriented(6), (3, vec![5, 3, 1, 6, 4, 2]));
    assert_eq!(oriented(7), (3, vec![6, 4, 2, 5, 3, 1]));
    assert_eq!(oriented(8), (3, vec![2, 4, 6, 1, 3, 5]));
}

#[test]
fn two_byte_samples_move_as_units() {
    let p = Plane { stride: 4, data: vec![1, 10, 2, 20, 3, 30, 4, 40] };
    let out = orient_planes(vec![p], 3, 2).unwrap();
    assert_eq!(out[0].stride, 4);
    assert_eq!(out[0].data, vec![4, 40, 3, 30, 2, 20, 1, 10]);
}

#[test]
fn out_of_range_orientation_rejected() {
    assert!(orient_planes(vec![plane_2x3()], 9, 1).is_err());
}

#[test]
fn misaligned_plane_rejected() {
    let p = Plane { stride: 3, data: vec![1, 2, 3, 4, 5, 6] };
    assert!(matches!(orient_planes(vec![p], 2, 2), Err(JxlError::InvalidData(_))));
}

#[test]
fn rotating_four_times_restores_the_plane() {
    let mut planes = vec![plane_2x3()];
    for _ in 0..4 {
        planes = orient_planes(planes, 6, 1).unwrap();
    }
    assert_eq!(planes[0].stride, 2);
    assert_eq!(planes[0].data, vec![1, 2, 3, 4, 5, 6]);
}
