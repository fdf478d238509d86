use rmreader::device::{get_device, DeviceError};

#[test]
fn move_geometry_points() {
    let d = get_device("paper-pro-move").unwrap();
    // 954/264*72 ≈ 260.18, 1696/264*72 ≈ 462.55
    let w = d.width_px as f32 / d.ppi as f32 * 72.0;
    let h = d.height_px as f32 / d.ppi as f32 * 72.0;
    assert!((w - 260.18).abs() < 0.1);
    assert!((h - 462.55).abs() < 0.1);
}

#[test]
fn unknown_device_errs() {
    assert!(get_device("nope").is_err());
}

#[test]
fn pro_device_and_error_key() {
    let d = get_device("paper-pro").unwrap();
    assert_eq!((d.key, d.width_px, d.height_px, d.ppi), ("paper-pro", 1620, 2160, 229));
    assert_eq!(get_device("x"), Err(DeviceError::Unknown { key: "x".into() }));
}
