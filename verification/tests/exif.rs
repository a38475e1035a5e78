use jietu_viewer::exif_groups::{
    build_groups, cn_name, exif_container, exposure_program_cn, field_of, flash_cn, gps_ref_negative,
    has_exif, orientation_cn, parse, read_fields, CnTable, ExifField, ExifTag, GpsCoord,
};

/// A little-endian TIFF with Make = "Abc" and Orientation = 6.
fn tiff_bytes() -> Vec<u8> {
    let mut v = vec![b'I', b'I', 0x2A, 0, 8, 0, 0, 0, 2, 0];
    v.extend_from_slice(&[0x0F, 0x01, 2, 0, 4, 0, 0, 0, b'A', b'b', b'c', 0]);
    v.extend_from_slice(&[0x12, 0x01, 3, 0, 1, 0, 0, 0, 6, 0, 0, 0]);
    v.extend_from_slice(&[0, 0, 0, 0]);
    v
}

fn field(context: u8, number: u16, text: &str, first_uint: Option<u32>) -> ExifField {
    ExifField {
        tag: ExifTag { context, number },
        text: text.to_string(),
        raw_text: text.to_string(),
        first_uint,
        rationals: Vec::new(),
    }
}

#[test]
fn decodes_tiff_fields() {
    let fields = read_fields(&tiff_bytes());
    assert_eq!(fields.len(), 2);
    assert_eq!(fields[0].tag, ExifTag { context: 0, number: 0x10f });
    assert_eq!(fields[1].first_uint, Some(6));
    let data = parse(&fields, &None, &None);
    assert_eq!(data.groups.len(), 1);
    assert_eq!(data.groups[0].title, "设备与拍摄");
    assert_eq!(data.groups[0].items[0].label, "制造商");
    assert_eq!(data.groups[0].items[0].value, "\"Abc\"");
    assert_eq!(data.groups[0].items[1].label, "方向");
    assert_eq!(data.groups[0].items[1].value, "顺时针旋转 90°");
}

#[test]
fn has_exif_needs_extension_and_fields() {
    assert!(exif_container("a/b/c.JPG"));
    assert!(!exif_container("c.png"));
    assert!(has_exif("photo.tif", &tiff_bytes()));
    assert!(!has_exif("photo.png", &tiff_bytes()));
    assert!(!has_exif("photo.jpg", b"no exif here"));
    assert!(read_fields(b"no exif here").is_empty());
}

#[test]
fn empty_fields_give_no_groups() {
    let lat = Some(GpsCoord { negative: false, decimal: "1.000000".into(), dms: "1° 0′ 0.00″".into() });
    assert!(parse(&[], &lat, &None).groups.is_empty());
}

#[test]
fn groups_in_order_and_skips() {
    let fields = vec![
        field(1, 0x829a, " 1/125 s ", None),
        field(1, 0x8822, "", Some(3)),
        field(1, 0x9209, "", Some(0x77)),
        field(0, 0x110, "\"\"", None),
        field(0, 0x132, "2024-01-02 03:04:05", None),
        field(0, 0x132, "ignored second copy", None),
    ];
    let lat = Some(GpsCoord { negative: true, decimal: "33.500000".into(), dms: "33° 30′ 0.00″".into() });
    let lon = Some(GpsCoord { negative: false, decimal: "151.250000".into(), dms: "151° 15′ 0.00″".into() });
    let groups = build_groups(&fields, &lat, &lon);
    let titles: Vec<&str> = groups.iter().map(|g| g.title.as_str()).collect();
    assert_eq!(titles, vec!["曝光", "GPS", "时间"]);
    assert_eq!(groups[0].items.len(), 2);
    assert_eq!(groups[0].items[0].value, "1/125 s");
    assert_eq!(groups[0].items[1].label, "曝光程序");
    assert_eq!(groups[0].items[1].value, "光圈优先");
    assert_eq!(groups[1].items[0].label, "纬度");
    assert_eq!(groups[1].items[0].value, "南纬 33.500000°（33° 30′ 0.00″）");
    assert_eq!(groups[1].items[1].value, "东经 151.250000°（151° 15′ 0.00″）");
    assert_eq!(groups[2].items[0].value, "2024-01-02 03:04:05");
    assert_eq!(field_of(&fields, ExifTag { context: 0, number: 0x132 }), Some(4));
    assert_eq!(field_of(&fields, ExifTag { context: 2, number: 0x132 }), None);
}

#[test]
fn chinese_names() {
    assert_eq!(exposure_program_cn(8), Some("风景模式"));
    assert_eq!(exposure_program_cn(9), None);
    assert_eq!(flash_cn(0x65), Some("已闪光（补光模式，红眼消除）"));
    assert_eq!(flash_cn(0x02), None);
    assert_eq!(orientation_cn(1), Some("正常（水平）"));
    assert_eq!(orientation_cn(0), None);
    assert_eq!(cn_name(CnTable::ResolutionUnit, 2), Some("英寸"));
    assert_eq!(cn_name(CnTable::WhiteBalance, 1), Some("手动白平衡"));
    assert_eq!(cn_name(CnTable::MeteringMode, 6), Some("局部测光"));
    assert_eq!(cn_name(CnTable::ExposureMode, 2), Some("包围曝光"));
}

#[test]
fn gps_reference_sign() {
    assert!(gps_ref_negative("\"S\""));
    assert!(gps_ref_negative("W"));
    assert!(!gps_ref_negative("\"N\""));
    assert!(!gps_ref_negative(""));
}
