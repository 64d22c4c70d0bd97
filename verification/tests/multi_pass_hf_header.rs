use jpegxl_decode::bitreader::BitReader;
use jpegxl_decode::multi_pass_hf_header::{PassHfDigest, PerPassHfHeaders};
use jpegxl_decode::pass_group_hf::PassGroupHfHeader;

#[test]
fn r232_per_pass_headers_single_preset_zero_bits() {
    let data = [0u8];
    let mut br = BitReader::new(&data);
    let headers = PerPassHfHeaders::read(&mut br, 3, 1, 15).unwrap();
    assert_eq!(headers.num_passes(), 3);
    for p in 0..3 {
        assert_eq!(headers.hfp(p).unwrap(), 0);
        assert_eq!(headers.histogram_offset(p).unwrap(), 0);
    }
}

#[test]
fn r232_per_pass_headers_get_out_of_range_errors() {
    let headers = PerPassHfHeaders::from_headers(vec![PassGroupHfHeader { hfp: 0, histogram_offset: 0 }]);
    let r = headers.get(1);
    assert!(r.is_err());
}

#[test]
fn r232_per_pass_headers_digest_matches_per_pass_state() {
    let headers = PerPassHfHeaders::from_headers(vec![
        PassGroupHfHeader { hfp: 0, histogram_offset: 0 },
        PassGroupHfHeader { hfp: 2, histogram_offset: 7425 * 2 },
    ]);
    let digest = headers.digest();
    assert_eq!(
        digest,
        vec![PassHfDigest { hfp: 0, histogram_offset: 0 }, PassHfDigest { hfp: 2, histogram_offset: 14850 }]
    );
}

#[test]
fn r232_per_pass_headers_zero_passes_returns_empty() {
    let data = [0u8];
    let mut br = BitReader::new(&data);
    let headers = PerPassHfHeaders::read(&mut br, 0, 4, 15).unwrap();
    assert_eq!(headers.num_passes(), 0);
    assert!(headers.as_slice().is_empty());
}

#[test]
fn r232_per_pass_headers_rejects_zero_num_hf_presets() {
    let data = [0u8; 4];
    let mut br = BitReader::new(&data);
    let r = PerPassHfHeaders::read(&mut br, 1, 0, 15);
    assert!(r.is_err());
}

#[test]
fn r232_per_pass_headers_four_presets_two_bits_per_pass() {
    let data = [0b0010_1101u8];
    let mut br = BitReader::new(&data);
    let headers = PerPassHfHeaders::read(&mut br, 3, 4, 15).unwrap();
    assert_eq!(headers.hfp(0).unwrap(), 1);
    assert_eq!(headers.hfp(1).unwrap(), 3);
    assert_eq!(headers.hfp(2).unwrap(), 2);
    assert_eq!(headers.histogram_offset(0).unwrap(), 7425);
    assert_eq!(headers.histogram_offset(1).unwrap(), 22275);
    assert_eq!(headers.histogram_offset(2).unwrap(), 14850);
}

#[test]
fn r232_per_pass_headers_read_two_passes_two_presets() {
    let data = [0b0000_0010u8];
    let mut br = BitReader::new(&data);
    let headers = PerPassHfHeaders::read(&mut br, 2, 2, 15).unwrap();
    assert_eq!(headers.num_passes(), 2);
    assert_eq!(headers.hfp(0).unwrap(), 0);
    assert_eq!(headers.hfp(1).unwrap(), 1);
    assert_eq!(headers.histogram_offset(0).unwrap(), 0);
    assert_eq!(headers.histogram_offset(1).unwrap(), 7425);
}
