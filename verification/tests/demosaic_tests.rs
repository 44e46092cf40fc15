use aravis_camera::demosaic::{bayer_plane_16bit, bayer_plane_8bit};
use aravis_camera::{BayerPattern, CameraError};

#[test]
fn test_detect_pattern() {
    assert_eq!(BayerPattern::detect("BayerRG8"), Some(BayerPattern::Rggb));
    assert_eq!(BayerPattern::detect("BayerGR8"), Some(BayerPattern::Grbg));
    assert_eq!(BayerPattern::detect("BayerGB8"), Some(BayerPattern::Gbrg));
    assert_eq!(BayerPattern::detect("BayerBG8"), Some(BayerPattern::Bggr));
    assert_eq!(BayerPattern::detect("BayerRG12"), Some(BayerPattern::Rggb));
    assert_eq!(
        BayerPattern::detect("BayerGR10Packed"),
        Some(BayerPattern::Grbg)
    );
    assert_eq!(BayerPattern::detect("Mono8"), None);
    assert_eq!(BayerPattern::detect("RGB8"), None);
}

#[test]
fn detect_ignores_ascii_case() {
    assert_eq!(BayerPattern::detect("bayerrg8"), Some(BayerPattern::Rggb));
    assert_eq!(BayerPattern::detect("bAyErBg16"), Some(BayerPattern::Bggr));
    assert_eq!(BayerPattern::detect("xxBAYERGBxx"), Some(BayerPattern::Gbrg));
    assert_eq!(BayerPattern::detect(""), None);
    assert_eq!(BayerPattern::detect("Bayer"), None);
    // The first tag in the order RG, GR, GB, BG wins.
    assert_eq!(BayerPattern::detect("BayerGR_BayerRG"), Some(BayerPattern::Rggb));
}

#[test]
fn test_demosaic_insufficient_data() {
    let raw = vec![1, 2, 3];
    let result = bayer_plane_8bit(&raw, 4, 4, 0);
    assert!(result.is_err());
}

#[test]
fn plane_8bit_error_message() {
    match bayer_plane_8bit(&[1, 2, 3], 4, 4, 0) {
        Err(CameraError::GenericError(m)) => {
            assert_eq!(m, "demosaic: data too short, need 16 bytes (4x4, stride=4), got 3")
        }
        other => panic!("unexpected {:?}", other),
    }
}

#[test]
fn plane_8bit_drops_row_padding() {
    let raw = vec![200, 100, 0, 0, 120, 50, 0, 0];
    assert_eq!(bayer_plane_8bit(&raw, 2, 2, 4).unwrap(), vec![200, 100, 120, 50]);
    // The last row needs no padding.
    assert_eq!(bayer_plane_8bit(&raw[..6], 2, 2, 4).unwrap(), vec![200, 100, 120, 50]);
    assert!(bayer_plane_8bit(&raw[..5], 2, 2, 4).is_err());
}

#[test]
fn plane_8bit_with_packed_rows_is_the_image() {
    let raw: Vec<u8> = (0..16).collect();
    assert_eq!(bayer_plane_8bit(&raw, 4, 4, 0).unwrap(), raw);
    assert_eq!(bayer_plane_8bit(&raw, 4, 4, 4).unwrap(), raw);
    assert_eq!(bayer_plane_8bit(&raw, 4, 3, 0).unwrap(), raw[..12].to_vec());
    assert_eq!(bayer_plane_8bit(&[], 0, 0, 0).unwrap(), Vec::<u8>::new());
}

#[test]
fn plane_16bit_shifts_and_clamps() {
    // 2x2 12-bit RGGB, little-endian: 3200, 1600, 1920, 800.
    let raw: Vec<u8> = vec![0x80, 0x0C, 0x40, 0x06, 0x80, 0x07, 0x20, 0x03];
    assert_eq!(bayer_plane_16bit(&raw, 2, 2, 0, 12).unwrap(), vec![200, 100, 120, 50]);
    // 8 bits: no shift, clamped to 255.
    assert_eq!(bayer_plane_16bit(&raw, 2, 2, 0, 8).unwrap(), vec![255, 255, 255, 255]);
    // 16 bits: shift by 8.
    assert_eq!(bayer_plane_16bit(&raw, 2, 2, 0, 16).unwrap(), vec![12, 6, 7, 3]);
}

#[test]
fn plane_16bit_with_stride_and_error() {
    let raw: Vec<u8> = vec![0x00, 0x04, 9, 9, 0xFF, 0x03, 9, 9];
    assert_eq!(bayer_plane_16bit(&raw, 1, 2, 4, 10).unwrap(), vec![255, 255]);
    match bayer_plane_16bit(&raw[..5], 1, 2, 4, 10) {
        Err(CameraError::GenericError(m)) => {
            assert_eq!(m, "demosaic_16bit: data too short, need 6 bytes, got 5")
        }
        other => panic!("unexpected {:?}", other),
    }
}

#[test]
fn plane_16bit_any_depth_where_no_sample_is_read() {
    match bayer_plane_16bit(&[1, 2, 3], 2, 2, 0, 30) {
        Err(CameraError::GenericError(m)) => {
            assert_eq!(m, "demosaic_16bit: data too short, need 8 bytes, got 3")
        }
        other => panic!("unexpected {:?}", other),
    }
    assert_eq!(bayer_plane_16bit(&[], 0, 3, 0, 40).unwrap(), Vec::<u8>::new());
    assert_eq!(bayer_plane_16bit(&[], 5, 0, 0, 40).unwrap(), Vec::<u8>::new());
}
