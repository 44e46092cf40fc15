use aravis_camera::discovery::{force_ip_settings, CameraInfo};
use aravis_camera::{get_all_camera_ids, ip_str_to_u32, u32_to_ip_str};

#[test]
fn test_ip_str_to_u32() {
    assert_eq!(ip_str_to_u32("192.168.1.100"), 0xC0A80164);
    assert_eq!(ip_str_to_u32("10.0.0.1"), 0x0A000001);
    assert_eq!(ip_str_to_u32("255.255.255.0"), 0xFFFFFF00);
}

#[test]
fn test_u32_to_ip_str() {
    assert_eq!(u32_to_ip_str(0xC0A80164), "192.168.1.100");
    assert_eq!(u32_to_ip_str(0x0A000001), "10.0.0.1");
    assert_eq!(u32_to_ip_str(0xFFFFFF00), "255.255.255.0");
}

#[test]
fn test_ip_roundtrip() {
    let ips = ["192.168.1.100", "10.0.0.1", "172.16.0.254", "0.0.0.0"];
    for ip in &ips {
        assert_eq!(u32_to_ip_str(ip_str_to_u32(ip)), *ip);
    }
}

#[test]
fn ip_value_roundtrip_of_any_address() {
    for &v in &[0u32, 1, 0x7F000001, 0xC0A80164, 0xFFFFFFFF, 0x00FF00FF, 0x12345678] {
        assert_eq!(ip_str_to_u32(&u32_to_ip_str(v)), v);
    }
}

#[test]
fn ip_text_without_four_parts_is_zero() {
    assert_eq!(ip_str_to_u32(""), 0);
    assert_eq!(ip_str_to_u32("1.2.3"), 0);
    assert_eq!(ip_str_to_u32("1.2.3.4.5"), 0);
    assert_eq!(ip_str_to_u32("a.b.c.d"), 0);
}

#[test]
fn ip_text_skips_pieces_that_are_not_numbers() {
    // Pieces that do not parse are dropped before counting.
    assert_eq!(ip_str_to_u32("1.x.2.3.4"), 0x01020304);
    assert_eq!(ip_str_to_u32("1..2.3.4"), 0x01020304);
    assert_eq!(ip_str_to_u32("+1.2.3.4"), 0x01020304);
    assert_eq!(ip_str_to_u32("-1.2.3.4.5"), 0x02030405);
}

#[test]
fn ip_text_with_large_parts_combines_in_32_bits() {
    // 256 << 24 loses its bits; 300 overlaps the byte above it.
    assert_eq!(ip_str_to_u32("256.0.0.1"), 1);
    assert_eq!(ip_str_to_u32("0.0.0.300"), 300);
    assert_eq!(ip_str_to_u32("0.0.1.300"), 0x100 | 300);
    assert_eq!(ip_str_to_u32("4294967296.0.0.1"), 0);
    assert_eq!(ip_str_to_u32("4294967295.0.0.0"), 0xFF000000);
}

#[test]
fn u32_to_ip_str_renders_each_byte() {
    assert_eq!(u32_to_ip_str(0), "0.0.0.0");
    assert_eq!(u32_to_ip_str(0xFFFFFFFF), "255.255.255.255");
    assert_eq!(u32_to_ip_str(0x0102030A), "1.2.3.10");
}

fn info(id: &str) -> CameraInfo {
    CameraInfo {
        id: id.to_string(),
        physical_id: String::new(),
        address: String::new(),
        vendor: "Hik".to_string(),
        model: "MV".to_string(),
        protocol: "GigEVision".to_string(),
    }
}

#[test]
fn camera_ids_keep_order() {
    let cams = vec![info("cam-b"), info("cam-a"), info("cam-c")];
    assert_eq!(get_all_camera_ids(&cams), vec!["cam-b", "cam-a", "cam-c"]);
    assert!(get_all_camera_ids(&Vec::new()).is_empty());
}

#[test]
fn force_ip_writes_in_order() {
    let w = force_ip_settings("192.168.1.100", "255.255.255.0", "192.168.1.1");
    let expected: Vec<(String, i64)> = vec![
        ("GevCurrentIPConfigurationLLA".to_string(), 0),
        ("GevCurrentIPConfigurationDHCP".to_string(), 0),
        ("GevCurrentIPConfigurationPersistentIP".to_string(), 1),
        ("GevPersistentIPAddress".to_string(), 0xC0A80164),
        ("GevPersistentSubnetMask".to_string(), 0xFFFFFF00),
        ("GevPersistentDefaultGateway".to_string(), 0xC0A80101),
    ];
    assert_eq!(w, expected);
}
