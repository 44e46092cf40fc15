use aravis_camera::frame::{RawBuffer, RgbConversion};
use aravis_camera::{BayerPattern, CameraError, Frame};

fn rgb_of(frame: &Frame) -> Vec<u8> {
    match frame.to_rgb().unwrap() {
        RgbConversion::Rgb(v) => v,
        RgbConversion::Demosaic { .. } => panic!("expected RGB data"),
    }
}

#[test]
fn test_frame_shape() {
    let frame = Frame {
        width: 640,
        height: 480,
        pixel_format: "RGB8".to_string(),
        bits_per_pixel: 24,
        stride: 640 * 3,
        data: vec![0u8; 640 * 480 * 3],
        timestamp_ns: 0,
        system_timestamp_ns: 0,
        frame_id: 1,
    };
    assert_eq!(frame.shape(), (480, 640, 3));
    assert!(frame.is_rgb());
    assert!(!frame.is_mono());
    assert!(!frame.is_bayer());
    assert_eq!(frame.data_size(), 640 * 480 * 3);
}

#[test]
fn test_mono_frame() {
    let frame = Frame {
        width: 320,
        height: 240,
        pixel_format: "Mono8".to_string(),
        bits_per_pixel: 8,
        stride: 320,
        data: vec![128u8; 320 * 240],
        timestamp_ns: 1000,
        system_timestamp_ns: 2000,
        frame_id: 42,
    };
    assert!(!frame.is_rgb());
    assert!(frame.is_mono());
    assert!(!frame.is_bayer());

    let rgb = rgb_of(&frame);
    assert_eq!(rgb.len(), 320 * 240 * 3);
    assert_eq!(rgb[0], 128);
    assert_eq!(rgb[1], 128);
    assert_eq!(rgb[2], 128);
}

fn small(format: &str, bits: u32, width: u32, height: u32, stride: u32, data: Vec<u8>) -> Frame {
    Frame {
        width,
        height,
        pixel_format: format.to_string(),
        bits_per_pixel: bits,
        stride,
        data,
        timestamp_ns: 0,
        system_timestamp_ns: 0,
        frame_id: 1,
    }
}

#[test]
fn test_bayer_frame() {
    let data = vec![
        50, 200, 55, 210, 30, 100, 35, 110, 60, 190, 65, 195, 25, 105, 28, 108,
    ];
    let frame = small("BayerGR8", 8, 4, 4, 4, data.clone());
    assert!(frame.is_bayer());
    assert!(!frame.is_mono());
    assert!(!frame.is_rgb());
    match frame.to_rgb().unwrap() {
        RgbConversion::Demosaic { plane, width, height, pattern } => {
            assert_eq!(plane, data);
            assert_eq!((width, height), (4, 4));
            assert_eq!(pattern, BayerPattern::Grbg);
        }
        RgbConversion::Rgb(_) => panic!("expected a Bayer plane"),
    }
}

#[test]
fn wide_bayer_frame_is_reduced_to_8_bits() {
    let raw: Vec<u8> = vec![0x80, 0x0C, 0x40, 0x06, 0x80, 0x07, 0x20, 0x03];
    let frame = small("BayerRG12", 12, 2, 2, 4, raw);
    match frame.to_rgb().unwrap() {
        RgbConversion::Demosaic { plane, pattern, .. } => {
            assert_eq!(plane, vec![200, 100, 120, 50]);
            assert_eq!(pattern, BayerPattern::Rggb);
        }
        RgbConversion::Rgb(_) => panic!("expected a Bayer plane"),
    }
}

#[test]
fn bayer_frame_errors() {
    match small("BayerGR8", 8, 4, 4, 4, vec![1, 2, 3]).to_rgb() {
        Err(CameraError::GenericError(m)) => {
            assert_eq!(m, "demosaic: data too short, need 16 bytes (4x4, stride=4), got 3")
        }
        _ => panic!("expected an error"),
    }
    match small("BayerGR14", 14, 2, 2, 4, vec![0; 8]).to_rgb() {
        Err(CameraError::GenericError(m)) => assert_eq!(m, "不支持 14bpp 的 Bayer 去马赛克"),
        _ => panic!("expected an error"),
    }
}

#[test]
fn mono_frame_pads_missing_pixels_black() {
    let frame = small("Mono8", 8, 2, 2, 2, vec![7, 9, 11]);
    assert_eq!(rgb_of(&frame), vec![7, 7, 7, 9, 9, 9, 11, 11, 11, 0, 0, 0]);
}

#[test]
fn rgb_frame_is_cut_or_padded() {
    let frame = small("RGB8", 24, 1, 1, 3, vec![1, 2, 3, 4, 5]);
    assert_eq!(rgb_of(&frame), vec![1, 2, 3]);
    let frame = small("RGB8", 24, 1, 2, 3, vec![1, 2, 3, 4]);
    assert_eq!(rgb_of(&frame), vec![1, 2, 3, 4, 0, 0]);
}

#[test]
fn unsupported_format_error() {
    match small("YUV422", 16, 2, 2, 4, vec![0; 8]).to_rgb() {
        Err(CameraError::GenericError(m)) => {
            assert_eq!(m, "to_rgb: 不支持的像素格式 YUV422 (16bpp)")
        }
        _ => panic!("expected an error"),
    }
}

#[test]
fn shape_rounds_bits_up_to_bytes() {
    assert_eq!(small("Mono8", 8, 3, 2, 3, vec![]).shape(), (2, 3, 1));
    assert_eq!(small("BayerRG12", 12, 3, 2, 6, vec![]).shape(), (2, 3, 2));
    assert_eq!(small("X", 0, 3, 2, 0, vec![]).shape(), (2, 3, 0));
}

fn buffer(width: i32, height: i32, code: u32, data: Vec<u8>) -> RawBuffer {
    RawBuffer {
        image_width: width,
        image_height: height,
        pixel_format: code,
        data,
        timestamp: 5,
        system_timestamp: 6,
        frame_id: 7,
    }
}

// GenICam codes: Mono8 0x01080001, BayerGR8 0x01080008, RGB8 0x02180014, BayerRG12 0x01100011.
#[test]
fn frame_from_buffer_reads_fields() {
    let f = Frame::from_buffer(buffer(4, 2, 0x01080008, vec![1; 8]), "BayerGR8").unwrap();
    assert_eq!((f.width, f.height, f.bits_per_pixel, f.stride), (4, 2, 8, 4));
    assert_eq!(f.pixel_format, "BayerGR8");
    assert_eq!((f.timestamp_ns, f.system_timestamp_ns, f.frame_id), (5, 6, 7));
    assert_eq!(f.data, vec![1; 8]);
}

#[test]
fn frame_from_buffer_stride_and_name() {
    // 12-bit samples take two bytes; padded rows give stride len / height.
    let f = Frame::from_buffer(buffer(3, 2, 0x01100011, vec![0; 16]), "").unwrap();
    assert_eq!(f.bits_per_pixel, 16);
    assert_eq!(f.stride, 8);
    assert_eq!(f.pixel_format, "0x01100011");
    let f = Frame::from_buffer(buffer(2, 1, 0x02180014, vec![0; 9]), "RGB8").unwrap();
    assert_eq!(f.stride, 6);
}

#[test]
fn frame_from_empty_buffer_is_invalid() {
    assert!(matches!(
        Frame::from_buffer(buffer(0, 2, 0x01080001, vec![1]), "Mono8"),
        Err(CameraError::InvalidBuffer)
    ));
    assert!(matches!(
        Frame::from_buffer(buffer(2, -1, 0x01080001, vec![1]), "Mono8"),
        Err(CameraError::InvalidBuffer)
    ));
    assert!(matches!(
        Frame::from_buffer(buffer(2, 2, 0x01080001, vec![]), "Mono8"),
        Err(CameraError::InvalidBuffer)
    ));
}
