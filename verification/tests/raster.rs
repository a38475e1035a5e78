use jietu_viewer::decode::{Decoder, ImageKind};
use jietu_viewer::raster::{
    convert_bytes, decode_raster, decode_sdr_rgba, encode_png, rgba_to_rgb, temp_png_of,
    tiff_dimensions, RasterImage,
};

fn two_pixels() -> RasterImage {
    RasterImage { width: 2, height: 1, rgba: vec![255, 0, 0, 255, 0, 0, 255, 128] }
}

#[test]
fn png_round_trip_keeps_pixels() {
    let png = encode_png(&two_pixels()).unwrap();
    assert_eq!(&png[1..4], b"PNG");
    let back = decode_raster(ImageKind::Native, &png).unwrap();
    assert_eq!((back.width, back.height), (2, 1));
    assert_eq!(back.rgba, two_pixels().rgba);
    let sdr = decode_sdr_rgba(&png).unwrap();
    assert_eq!(sdr.rgba, two_pixels().rgba, "no orientation tag, nothing turned");
    assert_eq!(tiff_dimensions(&png), (2, 1));
}

#[test]
fn decode_errors_by_category() {
    match decode_raster(ImageKind::Unsupported, b"x") {
        Err(m) => assert_eq!(m, "暂不支持此格式"),
        Ok(_) => panic!("unsupported"),
    }
    match decode_raster(ImageKind::Exr, b"x") {
        Err(m) => assert_eq!(m, "此构建未包含该格式的解码器"),
        Ok(_) => panic!("no EXR decoder"),
    }
    match decode_raster(ImageKind::Tiff, b"not an image") {
        Err(m) => assert!(m.starts_with("解码失败: "), "{}", m),
        Ok(_) => panic!("garbage"),
    }
    match temp_png_of(Decoder::Tiff, b"not an image") {
        Err(m) => assert!(m.starts_with("TIFF 解码失败: "), "{}", m),
        Ok(_) => panic!("garbage"),
    }
    match temp_png_of(Decoder::Ico, b"not an image") {
        Err(m) => assert!(m.starts_with("ICO 解码失败: "), "{}", m),
        Ok(_) => panic!("garbage"),
    }
    match decode_sdr_rgba(b"not an image") {
        Err(m) => assert!(m.starts_with("解码图片失败: "), "{}", m),
        Ok(_) => panic!("garbage"),
    }
    assert_eq!(tiff_dimensions(b"not an image"), (0, 0));
}

#[test]
fn convert_targets_and_alpha_drop() {
    assert_eq!(rgba_to_rgb(&two_pixels().rgba, 2), vec![255, 0, 0, 0, 0, 255]);
    let png = encode_png(&two_pixels()).unwrap();
    let jpg = convert_bytes(ImageKind::Native, &png, "JPG", 0).unwrap();
    assert_eq!(&jpg[0..2], &[0xFF, 0xD8]);
    let webp = convert_bytes(ImageKind::Native, &png, "webp", 90).unwrap();
    assert_eq!(&webp[0..4], b"RIFF");
    let again = convert_bytes(ImageKind::Native, &png, "png", 90).unwrap();
    assert_eq!(decode_raster(ImageKind::Native, &again).unwrap().rgba, two_pixels().rgba);
    assert_eq!(convert_bytes(ImageKind::Native, &png, "gif", 90), Err("不支持的目标格式: gif".to_string()));
    match convert_bytes(ImageKind::Native, b"junk", "gif", 90) {
        Err(m) => assert!(m.starts_with("解码失败: "), "decoding comes first: {}", m),
        Ok(_) => panic!("junk"),
    }
}

#[test]
fn temp_png_keeps_the_source_colour_type() {
    let png = encode_png(&two_pixels()).unwrap();
    let (w, h, out) = temp_png_of(Decoder::Ico, &png).unwrap();
    assert_eq!((w, h), (2, 1));
    assert_eq!(decode_raster(ImageKind::Native, &out).unwrap().rgba, two_pixels().rgba);
    assert_eq!(out[25], 6, "an RGBA source stays RGBA (IHDR colour type)");
    let rgb = image::RgbImage::from_raw(1, 1, vec![9, 8, 7]).unwrap();
    let mut src = std::io::Cursor::new(Vec::new());
    image::DynamicImage::ImageRgb8(rgb).write_to(&mut src, image::ImageFormat::Png).unwrap();
    let again = convert_bytes(ImageKind::Native, src.get_ref(), "png", 90).unwrap();
    assert_eq!(again[25], 2, "an RGB source stays RGB (IHDR colour type)");
    match temp_png_of(Decoder::Exr, b"x") {
        Err(m) => assert_eq!(m, "此构建未包含该格式的解码器"),
        Ok(_) => panic!("no EXR decoder here"),
    }
}
