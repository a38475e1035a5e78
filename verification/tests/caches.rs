use jietu_viewer::anim::{AnimBackend, AnimFileCache, HybridPipedDecoder, ANIM_CACHE_BYTES};
use jietu_viewer::decode::ImageKind;
use jietu_viewer::hdr::{
    after_hdr_decode, ensure_hdr_source, ensure_itm_source, itm_key, parse_itm_key, HdrCache,
    HdrSource, HdrStep, ItmStep, PixelFormat, HDR_CACHE_MAX,
};
use jietu_viewer::hdr::{check_itm_size, f32_bits_to_f16, itm_gate, SdrDecode, ITM_INPUT_MAX};
use jietu_viewer::lru::LruCache;
use jietu_viewer::hybrid::{data_tag, mirror_gab, GoldenOpts, GoldenStats, HybridDecodeSession};

fn src(w: u32) -> HdrSource {
    HdrSource { width: w, height: 1, data: vec![w as u8; 8] }
}

#[test]
fn hdr_cache_read_after_write() {
    let mut c = HdrCache::new();
    c.cache_hdr_source("a.exr", src(1));
    c.cache_hdr_source("b.exr", src(2));
    assert_eq!(c.take_hdr_source("a.exr").map(|s| s.width), Some(1));
    assert!(c.take_hdr_source("c.exr").is_none());
    c.cache_hdr_source("a.exr", src(3));
    assert_eq!(c.len(), 2, "same key replaces");
    assert_eq!(c.take_hdr_source("a.exr").map(|s| s.width), Some(3));
}

#[test]
fn hdr_cache_evicts_least_recent() {
    let mut c = HdrCache::new();
    for i in 0..HDR_CACHE_MAX as u32 {
        c.cache_hdr_source(&format!("{}.exr", i), src(i));
    }
    assert!(c.take_hdr_source("0.exr").is_some(), "0 becomes the most recent");
    c.cache_hdr_source("new.exr", src(99));
    assert_eq!(c.len(), HDR_CACHE_MAX);
    assert!(c.take_hdr_source("1.exr").is_none(), "1 was the least recently used");
    assert!(c.take_hdr_source("0.exr").is_some());
    assert!(c.take_hdr_source("new.exr").is_some());
}

#[test]
fn hdr_steps() {
    let mut c = HdrCache::new();
    assert!(matches!(ensure_hdr_source(&mut c, "x.png", ImageKind::Native), HdrStep::Unavailable));
    assert!(matches!(ensure_hdr_source(&mut c, "x.exr", ImageKind::Exr), HdrStep::Decode));
    assert!(matches!(after_hdr_decode(&mut c, "x.exr", 1), HdrStep::Decode));
    assert!(matches!(after_hdr_decode(&mut c, "x.exr", 2), HdrStep::Unavailable));
    c.cache_hdr_source("x.exr", src(5));
    match after_hdr_decode(&mut c, "x.exr", 1) {
        HdrStep::Ready(s) => assert_eq!(s.width, 5),
        _ => panic!("cached after decode"),
    }
    let tex = src(4).to_texture();
    assert_eq!((tex.width, tex.row_pitch, tex.format, tex.via_gdi), (4, 32, PixelFormat::R16g16b16a16Float, false));
}

#[test]
fn itm_keys() {
    let k = itm_key("C:/pics/a.png");
    assert_eq!(k, "itm:C:/pics/a.png");
    assert_eq!(parse_itm_key(&k), Some("C:/pics/a.png".to_string()));
    assert_eq!(parse_itm_key("C:/pics/a.png"), None);
    assert_eq!(parse_itm_key("itm:"), Some(String::new()));
    let mut c = HdrCache::new();
    match ensure_itm_source(&mut c, &k) {
        ItmStep::Rerun(p) => assert_eq!(p, "C:/pics/a.png"),
        _ => panic!("rerun"),
    }
    assert!(matches!(ensure_itm_source(&mut c, "plain"), ItmStep::Unavailable));
    c.cache_hdr_source(&k, src(7));
    assert!(matches!(ensure_itm_source(&mut c, &k), ItmStep::Ready(_)));
}

#[test]
fn anim_file_cache_limits() {
    let mut c: AnimFileCache<u32> = AnimFileCache::new();
    let key_a = Some((10u64, 5i128));
    assert_eq!(c.lookup("a.jxl", key_a, 1), None);
    c.insert("a.jxl", key_a, 10, 5, 100, 1);
    assert_eq!(c.lookup("a.jxl", key_a, 2), Some(0));
    assert_eq!(*c.data(0), 100);
    assert_eq!(c.hits(), 1);
    assert_eq!(c.lookup("a.jxl", Some((11, 5)), 3), None, "changed file misses");
    assert_eq!(c.lookup("a.jxl", None, 3), None, "unknown metadata misses");
    c.insert("b.jxl", Some((20, 1)), 20, 1, 200, 4);
    c.insert("c.jxl", Some((30, 1)), 30, 1, 300, 5);
    assert_eq!(c.len(), 2);
    assert_eq!(c.lookup("a.jxl", key_a, 6), None, "a was the least recently used");
    assert!(c.lookup("c.jxl", Some((30, 1)), 7).is_some());
    c.anim_file_cache_evict("b.jxl");
    assert_eq!(c.len(), 1);
    let big = ANIM_CACHE_BYTES - 10;
    c.insert("d.jxl", Some((big, 0)), big, 0, 400, 8);
    assert_eq!(c.len(), 1, "over the byte cap only the new file stays");
    assert_eq!(*c.data(0), 400);
}

#[test]
fn backend_and_stream() {
    assert_eq!(AnimBackend::parse(" HyBrid \n"), AnimBackend::Hybrid);
    assert_eq!(AnimBackend::parse(""), AnimBackend::Native);
    assert_eq!(AnimBackend::parse("gpu"), AnimBackend::Native);
    let mut d = HybridPipedDecoder::new(64, 32);
    assert_eq!(d.dims(), (64, 32));
    assert_eq!(d.next_frame_snapshot(Some(Ok(Some(7u32)))), Ok(Some(7)));
    assert!(!d.is_drained());
    assert_eq!(d.next_frame_snapshot::<u32>(Some(Err("boom".to_string()))), Err("boom".to_string()));
    assert!(d.is_drained());
    assert_eq!(d.next_frame_snapshot(Some(Ok(Some(8u32)))), Ok(None), "drained stays drained");
    let mut e = HybridPipedDecoder::new(1, 1);
    assert_eq!(e.next_frame_snapshot::<u32>(None), Ok(None));
    assert!(e.is_drained());
}

#[test]
fn hybrid_helpers() {
    assert_eq!(data_tag(b""), 0xcbf2_9ce4_8422_2325);
    assert_eq!(data_tag(b"a"), 0xaf63_dc4c_8601_ec8c);
    assert_eq!(mirror_gab(-1, 5), 0);
    assert_eq!(mirror_gab(5, 5), 4);
    assert_eq!(mirror_gab(-2, 5), 1);
    assert_eq!(mirror_gab(7, 5), 2);
    assert_eq!(mirror_gab(12, 5), 2);
    assert_eq!(mirror_gab(3, 5), 3);
    assert!(!HybridDecodeSession::is_available());
    assert!(HybridDecodeSession::open("x.jxl").is_err());
    assert_eq!(GoldenStats::default().non_dct8_blocks, 0);
    assert!(!GoldenOpts::default().transpose_coeffs);
}

#[test]
fn half_precision_bits() {
    assert_eq!(f32_bits_to_f16(1.0f32.to_bits()), 0x3C00);
    assert_eq!(f32_bits_to_f16((-2.0f32).to_bits()), 0xC000);
    assert_eq!(f32_bits_to_f16(0.5f32.to_bits()), 0x3800);
    assert_eq!(f32_bits_to_f16(f32::NAN.to_bits()), 0x7E00);
    assert_eq!(f32_bits_to_f16(f32::INFINITY.to_bits()), 0x7C00);
    assert_eq!(f32_bits_to_f16(65536.0f32.to_bits()), 0x7C00);
    assert_eq!(f32_bits_to_f16(1.0e-10f32.to_bits()), 0);
    assert_eq!(f32_bits_to_f16((-1.0e-10f32).to_bits()), 0x8000);
}

#[test]
fn generic_lru_and_itm_checks() {
    use_lru();
    assert!(check_itm_size(32, 32).is_ok());
    assert_eq!(check_itm_size(31, 100), Err("图片过小（31×100），AI 模型要求至少 32×32".to_string()));
    assert_eq!(check_itm_size(16384, 4097), Err("图片过大，暂不支持 SDR→HDR".to_string()));
    assert!(check_itm_size(16384, 4096).is_ok());
    assert!(itm_gate(ImageKind::Tiff).is_ok());
    assert_eq!(itm_gate(ImageKind::Exr), Err("该格式已是 HDR 源或不受支持，无需 SDR→HDR".to_string()));
}

fn use_lru() {
    let mut c: LruCache<SdrDecode> = LruCache::with_capacity(ITM_INPUT_MAX);
    for i in 0..5u32 {
        c.insert(&format!("k{}", i), SdrDecode { w: i, h: 1, rgba: vec![i as u8] });
    }
    assert_eq!(c.len(), ITM_INPUT_MAX);
    assert!(c.take("k0").is_none(), "k0 was dropped as least recently used");
    assert_eq!(c.take("k4").map(|d| d.rgba), Some(vec![4]));
}

#[test]
fn anim_file_cache_compares_paths_by_component() {
    let mut c: AnimFileCache<u32> = AnimFileCache::new();
    c.insert("dir//x.jxl", Some((1, 1)), 1, 1, 7, 1);
    assert_eq!(c.lookup("dir/x.jxl", Some((1, 1)), 2), Some(0), "a doubled separator names the same file");
    c.anim_file_cache_evict("dir/x.jxl");
    assert_eq!(c.len(), 0);
}
