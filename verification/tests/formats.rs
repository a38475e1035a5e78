use jietu_viewer::decode::{
    check_pdf_page, check_psd_frame, cicp_gamut, convert_quality, target_format, TargetFormat, classify, classify_with_content, decode_psd, decode_to_temp_png,
    find_cicp, is_hdr_kind, is_hdr_png, needs_png_head, pdf_temp_name, rgba_buffer_fits, sdr_gate,
    temp_png_name, CicpGamut, Decoder, ImageKind,
};
use jietu_viewer::native::{
    gif_frame_count, jpeg_info, probe_avif, probe_bmp, probe_gif_header, probe_header,
    probe_ico_dimensions, probe_png, probe_psd_dimensions, probe_webp, scan_jpeg_sof,
    jpeg_rescan_step, skip_sub_blocks, unknown_format_error, ProbeStep, RescanStep,
};

fn png_header(w: u32, h: u32) -> Vec<u8> {
    let mut v = vec![0x89, b'P', b'N', b'G', 0x0D, 0x0A, 0x1A, 0x0A, 0, 0, 0, 13];
    v.extend_from_slice(b"IHDR");
    v.extend_from_slice(&w.to_be_bytes());
    v.extend_from_slice(&h.to_be_bytes());
    v.extend_from_slice(&[8, 6, 0, 0, 0]);
    v.extend_from_slice(&[0, 0, 0, 0]);
    v
}

fn png_with_cicp(primaries: u8, transfer: u8) -> Vec<u8> {
    let mut v = png_header(4, 4);
    v.extend_from_slice(&[0, 0, 0, 4]);
    v.extend_from_slice(b"cICP");
    v.extend_from_slice(&[primaries, transfer, 0, 1]);
    v.extend_from_slice(&[0, 0, 0, 0]);
    v
}

#[test]
fn png_size_from_ihdr() {
    assert_eq!(probe_png(&png_header(640, 480)), Some((640, 480)));
    assert_eq!(probe_png(&png_header(640, 480)[..20]), None);
    let mut bad = png_header(1, 1);
    bad[12] = b'X';
    assert_eq!(probe_png(&bad), None);
}

#[test]
fn jpeg_sof_after_app_segment() {
    let mut j = vec![0xFF, 0xD8, 0xFF, 0xE0, 0x00, 0x04, 0x00, 0x00];
    j.extend_from_slice(&[0xFF, 0xC0, 0x00, 0x11, 0x08, 0x01, 0xE0, 0x02, 0x80, 0x03]);
    assert_eq!(scan_jpeg_sof(&j), Some((640, 480)));
    match probe_header(&j) {
        ProbeStep::Found(i) => {
            assert_eq!(i.format, "jpeg");
            assert_eq!((i.width, i.height, i.frame_count), (640, 480, 1));
        }
        _ => panic!("JPEG with SOF"),
    }
    let sos = vec![0xFF, 0xD8, 0xFF, 0xDA, 0x00, 0x04, 0, 0, 0, 0, 0, 0];
    assert_eq!(scan_jpeg_sof(&sos), None);
    assert!(matches!(probe_header(&sos), ProbeStep::JpegRescan));
    let i = jpeg_info(None);
    assert_eq!((i.format.as_str(), i.width, i.height), ("jpeg", 0, 0));
}

#[test]
fn gif_header_and_frames() {
    let mut g = b"GIF89a".to_vec();
    g.extend_from_slice(&[10, 0, 20, 0, 0x80, 0, 0]);
    g.extend_from_slice(&[0u8; 6]);
    for _ in 0..3 {
        g.extend_from_slice(&[0x21, 0xF9, 4, 0, 0, 0, 0, 0]);
        g.extend_from_slice(&[0x2C, 0, 0, 0, 0, 10, 0, 20, 0, 0]);
        g.extend_from_slice(&[2, 1, 0x44, 0]);
    }
    g.push(0x3B);
    assert_eq!(probe_gif_header(&g), Some((10, 20)));
    assert_eq!(gif_frame_count(&g), 3);
    assert_eq!(gif_frame_count(&g[..10]), 1);
    assert!(matches!(probe_header(&g), ProbeStep::GifFrames(10, 20)));
    assert_eq!(skip_sub_blocks(&[2, 9, 9, 0, 7], 0), 4);
    assert_eq!(skip_sub_blocks(&[5, 1], 0), 2);
}

#[test]
fn bmp_webp_avif_psd_ico() {
    let mut b = vec![b'B', b'M'];
    b.extend_from_slice(&[0u8; 16]);
    b.extend_from_slice(&100i32.to_le_bytes());
    b.extend_from_slice(&(-50i32).to_le_bytes());
    assert_eq!(probe_bmp(&b), Some((100, 50)));

    let mut w = b"RIFF\0\0\0\0WEBPVP8X".to_vec();
    w.extend_from_slice(&[0, 0, 0, 0]);
    w.extend_from_slice(&[0x1F, 0x03, 0x00, 0xDF, 0x01, 0x00]);
    assert_eq!(probe_webp(&w), Some((800, 480)));
    let unknown = b"RIFF\0\0\0\0WEBPANIM".to_vec();
    assert_eq!(probe_webp(&unknown), Some((0, 0)));

    let avif = b"\0\0\0\x1cftypmif1\0\0\0\0avifmif1".to_vec();
    assert!(probe_avif(&avif));
    assert!(!probe_avif(b"\0\0\0\x1cftypheic\0\0\0\0mif1"));

    let mut p = b"8BPS".to_vec();
    p.extend_from_slice(&[0, 1, 0, 0, 0, 0, 0, 0, 0, 3]);
    p.extend_from_slice(&300u32.to_be_bytes());
    p.extend_from_slice(&200u32.to_be_bytes());
    p.extend_from_slice(&[0, 8, 0, 3]);
    assert_eq!(probe_psd_dimensions(&p), Some((200, 300)));

    let ico = [0u8, 0, 1, 0, 1, 0, 0, 48, 0, 0];
    assert_eq!(probe_ico_dimensions(&ico), Some((256, 48)));
    assert_eq!(probe_ico_dimensions(&[0u8, 0, 2, 0, 1, 0, 16, 16, 0, 0]), None);
}

#[test]
fn classify_by_extension() {
    assert_eq!(classify("C:/p/photo.JPG"), ImageKind::Native);
    assert_eq!(classify("a.TIFF"), ImageKind::Tiff);
    assert_eq!(classify("a.wdp"), ImageKind::Jxr);
    assert_eq!(classify("a.jxl"), ImageKind::Jxl);
    assert_eq!(classify("a.pdf"), ImageKind::Pdf);
    assert_eq!(classify("a.exr"), ImageKind::Exr);
    assert_eq!(classify("noext"), ImageKind::Unsupported);
    assert_eq!(classify(".png"), ImageKind::Unsupported);
    assert_eq!(classify("a.txt"), ImageKind::Unsupported);
}

#[test]
fn hdr_png_by_cicp() {
    let hdr = png_with_cicp(9, 12);
    assert_eq!(find_cicp(&hdr), Some([9, 12, 0, 1]));
    assert!(is_hdr_png(&hdr));
    assert!(!is_hdr_png(&png_with_cicp(9, 13)));
    assert!(!is_hdr_png(&png_header(4, 4)));
    assert_eq!(cicp_gamut(&png_with_cicp(11, 12)), CicpGamut::P3);
    assert_eq!(cicp_gamut(&hdr), CicpGamut::Bt2020);
    assert_eq!(cicp_gamut(&png_with_cicp(1, 12)), CicpGamut::Bt709);
    assert_eq!(cicp_gamut(&png_header(4, 4)), CicpGamut::Default);
    assert!(needs_png_head("x.PNG"));
    assert!(!needs_png_head("x.jpg"));
    assert_eq!(classify_with_content("x.png", &hdr), ImageKind::PngHdr);
    assert_eq!(classify_with_content("x.png", &png_header(4, 4)), ImageKind::Native);
    assert_eq!(classify_with_content("x.jpg", &hdr), ImageKind::Native);
}

#[test]
fn decoder_routes() {
    assert_eq!(decode_to_temp_png(ImageKind::Psd), Ok(Decoder::Psd));
    assert_eq!(decode_to_temp_png(ImageKind::PngHdr), Ok(Decoder::PngHdr));
    assert_eq!(
        decode_to_temp_png(ImageKind::Native),
        Err("浏览器原生格式无需解码".to_string())
    );
    assert_eq!(
        decode_to_temp_png(ImageKind::Unsupported),
        Err("暂不支持此格式".to_string())
    );
    assert!(is_hdr_kind(ImageKind::Exr) && is_hdr_kind(ImageKind::Jxr));
    assert!(!is_hdr_kind(ImageKind::Native));
    assert!(sdr_gate(ImageKind::Pdf) && !sdr_gate(ImageKind::Jxl));
}

#[test]
fn temp_names_and_pages() {
    assert_eq!(temp_png_name(0x1234), "decode_0000000000001234.png");
    assert_eq!(temp_png_name(u64::MAX), "decode_ffffffffffffffff.png");
    assert_eq!(pdf_temp_name(0xabc, 3), "pdf_0000000000000abc_p3.png");
    assert_eq!(check_pdf_page(0, 0), Err("PDF 无页面".to_string()));
    assert_eq!(check_pdf_page(5, 3), Err("页码越界: 第 6 页 / 共 3 页".to_string()));
    assert_eq!(check_pdf_page(2, 3), Ok(()));
}

#[test]
fn rgba_buffer_and_psd_errors() {
    assert!(rgba_buffer_fits(2, 2, 16));
    assert!(!rgba_buffer_fits(2, 2, 15));
    assert!(rgba_buffer_fits(0, 5, 0));
    match decode_psd(b"not a psd file at all") {
        Err(m) => assert!(m.starts_with("PSD 解析失败: "), "{}", m),
        Ok(_) => panic!("garbage is refused"),
    }
}

#[test]
fn conversion_targets() {
    assert_eq!(target_format("PNG"), Ok(TargetFormat::Png));
    assert_eq!(target_format("Jpg"), Ok(TargetFormat::Jpeg));
    assert_eq!(target_format("webp"), Ok(TargetFormat::Webp));
    assert_eq!(target_format("GIF"), Err("不支持的目标格式: gif".to_string()));
    assert_eq!(convert_quality(0), 1);
    assert_eq!(convert_quality(90), 90);
    assert_eq!(convert_quality(1000), 100);
}

/// A 1×1 RGB, 8-bit PSD header.
fn psd_header() -> Vec<u8> {
    let mut b = b"8BPS".to_vec();
    b.extend_from_slice(&[0, 1, 0, 0, 0, 0, 0, 0, 0, 3, 0, 0, 0, 1, 0, 0, 0, 1, 0, 8, 0, 3]);
    b
}

#[test]
fn psd_frame_refusals() {
    let header = psd_header();
    assert_eq!(header.len(), 26);
    assert_eq!(check_psd_frame(b"not a psd file at all"), None);
    match decode_psd(&header) {
        Err(m) => assert_eq!(m, "PSD 解析失败: 文件分段长度越界"),
        Ok(_) => panic!("a bare header is refused"),
    }
    let mut long_section = header.clone();
    long_section.extend_from_slice(&[0, 0, 0, 9, 0, 0]);
    assert_eq!(check_psd_frame(&long_section), Some("PSD 解析失败: 文件分段长度越界".to_string()));
    let mut no_data = header.clone();
    no_data.extend_from_slice(&[0; 12]);
    assert_eq!(check_psd_frame(&no_data), Some("PSD 解析失败: 缺少图像数据压缩方式".to_string()));
    let mut zip = no_data.clone();
    zip.extend_from_slice(&[0, 2]);
    match decode_psd(&zip) {
        Err(m) => assert_eq!(m, "PSD 解析失败: 不支持 ZIP 压缩的图像数据"),
        Ok(_) => panic!("ZIP image data is refused"),
    }
    let mut raw = no_data.clone();
    raw.extend_from_slice(&[0, 0, 10, 20, 30]);
    assert_eq!(check_psd_frame(&raw), None);
}

#[test]
fn psd_tiny_raw_image_decodes() {
    let mut raw = psd_header();
    raw.extend_from_slice(&[0; 12]);
    raw.extend_from_slice(&[0, 0, 10, 20, 30]);
    let img = decode_psd(&raw).unwrap();
    assert_eq!((img.width, img.height), (1, 1));
    assert_eq!(img.rgba.len(), 4);
}

/// A 1×1 PSD with one visible 1×1 layer of blend mode `key` whose raw channels hold
/// 10, 20, 30, and a raw merged image of 1, 2, 3.
fn psd_with_layer(key: &[u8; 4]) -> Vec<u8> {
    let mut rec: Vec<u8> = Vec::new();
    rec.extend_from_slice(&[0, 0, 0, 0, 0, 0, 0, 0, 0, 0, 0, 1, 0, 0, 0, 1]);
    rec.extend_from_slice(&[0, 3]);
    for id in 0..3u8 {
        rec.extend_from_slice(&[0, id, 0, 0, 0, 3]);
    }
    rec.extend_from_slice(b"8BIM");
    rec.extend_from_slice(key);
    rec.extend_from_slice(&[255, 0, 2, 0]);
    rec.extend_from_slice(&[0, 0, 0, 12, 0, 0, 0, 0, 0, 0, 0, 0]);
    rec.extend_from_slice(&[0, 0, 0, 0]);
    let mut layer: Vec<u8> = Vec::new();
    layer.extend_from_slice(&[0, 0, 0, 0, 0, 1]);
    layer.extend_from_slice(&rec);
    for v in [10u8, 20, 30] {
        layer.extend_from_slice(&[0, 0, v]);
    }
    let mut b = psd_header();
    b.extend_from_slice(&[0; 8]);
    b.extend_from_slice(&(layer.len() as u32).to_be_bytes());
    b.extend_from_slice(&layer);
    b.extend_from_slice(&[0, 0, 1, 2, 3]);
    b
}

#[test]
fn psd_layers_are_flattened_or_refused() {
    let ok = psd_with_layer(b"norm");
    assert_eq!(check_psd_frame(&ok), None);
    let img = decode_psd(&ok).unwrap();
    assert_eq!((img.width, img.height), (1, 1));
    assert_eq!(img.rgba, vec![10, 20, 30, 255]);
    let hue = psd_with_layer(b"hue ");
    match decode_psd(&hue) {
        Err(m) => assert_eq!(m, "PSD 解析失败: 文件结构超出解析器支持范围"),
        Ok(_) => panic!("a layer in a blend mode the parser cannot blend is refused"),
    }
}

#[test]
fn jpeg_rescan_steps() {
    let mut j = vec![0xFF, 0xD8, 0xFF, 0xE0, 0x00, 0x04, 0x00, 0x00];
    j.extend_from_slice(&[0xFF, 0xC0, 0x00, 0x11, 0x08, 0x01, 0xE0, 0x02, 0x80, 0x03]);
    let sos = vec![0xFF, 0xD8, 0xFF, 0xDA, 0x00, 0x04, 0, 0, 0, 0, 0, 0];
    assert!(matches!(jpeg_rescan_step(0, Some(&sos)), RescanStep::Read(1024)));
    assert!(matches!(jpeg_rescan_step(0, None), RescanStep::Read(1024)));
    match jpeg_rescan_step(1, Some(&j)) {
        RescanStep::Done(i) => assert_eq!((i.width, i.height), (640, 480)),
        _ => panic!("the SOF answers"),
    }
    match jpeg_rescan_step(1, None) {
        RescanStep::Done(i) => assert_eq!((i.format.as_str(), i.width, i.height), ("jpeg", 0, 0)),
        _ => panic!("the last window answers"),
    }
}

#[test]
fn unknown_format_message() {
    assert_eq!(unknown_format_error(), "无法识别的图片格式");
    assert!(matches!(probe_header(b"plain text, no image"), ProbeStep::Unknown));
}

#[test]
fn psd_raw_layer_partly_left_of_the_canvas() {
    let mut rec: Vec<u8> = Vec::new();
    rec.extend_from_slice(&[0, 0, 0, 0, 0xff, 0xff, 0xff, 0xff, 0, 0, 0, 1, 0, 0, 0, 1]);
    rec.extend_from_slice(&[0, 3]);
    for id in 0..3u8 {
        rec.extend_from_slice(&[0, id, 0, 0, 0, 4]);
    }
    rec.extend_from_slice(b"8BIMnorm");
    rec.extend_from_slice(&[255, 0, 2, 0]);
    rec.extend_from_slice(&[0, 0, 0, 12, 0, 0, 0, 0, 0, 0, 0, 0]);
    rec.extend_from_slice(&[0, 0, 0, 0]);
    let mut layer: Vec<u8> = vec![0, 0, 0, 0, 0, 1];
    layer.extend_from_slice(&rec);
    for v in [10u8, 20, 30] {
        layer.extend_from_slice(&[0, 0, 99, v]);
    }
    let mut b = psd_header();
    b.extend_from_slice(&[0; 8]);
    b.extend_from_slice(&(layer.len() as u32).to_be_bytes());
    b.extend_from_slice(&layer);
    b.extend_from_slice(&[0, 0, 1, 2, 3]);
    assert_eq!(check_psd_frame(&b), None);
    let img = decode_psd(&b).unwrap();
    assert_eq!(img.rgba, vec![10, 20, 30, 255], "the column left of the canvas is dropped");
}
