//! Decoder selection by file extension (and, for PNG, by content), the cICP chunk of
//! HDR PNGs, and the PSD flattening step.
//!
//! Tier 1 (browser-native: png/jpg/jpeg/gif/bmp/webp/avif) is shown as is; tier 2
//! (tif/tiff/ico) and tier 3 (psd, exr, HDR PNG, jxl, jxr, pdf) are decoded to a
//! temporary PNG.

use vstd::prelude::*;
use crate::bytes::{be16, be32, spec_be16, spec_be32, spec_tag_at, tag_at};
use crate::native::{tag4, spec_probe_psd};
use crate::psd_check::{check_psd_structure, psd_layerless, psd_structure_ok, section_starts};
use crate::strs::{plain_name, all_ascii, ext_of_name, lower_ascii_str, str_eq, eq_ignore_ascii_case, eq_ascii_ci, path_extension, spec_extension, to_lowercase,
    spec_lowercase};
use crate::text::push_str;

verus! {

/// Image category, decided by extension.
#[derive(PartialEq, Eq, Structural, Clone, Copy, Debug)]
pub enum ImageKind {
    /// Browser-native: png / jpg / jpeg / gif / bmp / webp / avif.
    Native,
    /// TIFF.
    Tiff,
    /// ICO.
    Ico,
    /// Photoshop document.
    Psd,
    /// OpenEXR (HDR, tone-mapped for preview).
    Exr,
    /// PNG with a cICP chunk whose transfer function is PQ (HDR).
    PngHdr,
    /// JPEG XR.
    Jxr,
    /// JPEG XL.
    Jxl,
    /// PDF (first page rendered).
    Pdf,
    /// Not supported.
    Unsupported,
}

/// The category of a lower-cased extension.
pub open spec fn kind_of_ext(e: Seq<char>) -> ImageKind {
    if e == "png"@ || e == "jpg"@ || e == "jpeg"@ || e == "gif"@ || e == "bmp"@ || e == "webp"@
        || e == "avif"@ {
        ImageKind::Native
    } else if e == "tif"@ || e == "tiff"@ {
        ImageKind::Tiff
    } else if e == "ico"@ {
        ImageKind::Ico
    } else if e == "psd"@ {
        ImageKind::Psd
    } else if e == "exr"@ {
        ImageKind::Exr
    } else if e == "jxr"@ || e == "wdp"@ {
        ImageKind::Jxr
    } else if e == "jxl"@ {
        ImageKind::Jxl
    } else if e == "pdf"@ {
        ImageKind::Pdf
    } else {
        ImageKind::Unsupported
    }
}

/// The category of a path: its lower-cased extension decides; none is unsupported.
pub open spec fn spec_classify(p: Seq<char>) -> ImageKind {
    match spec_extension(p) {
        Some(e) => kind_of_ext(spec_lowercase(e)),
        None => ImageKind::Unsupported,
    }
}

fn kind_of_lower_ext(e: &str) -> (r: ImageKind)
    ensures
        r == kind_of_ext(e@),
{
    if str_eq(e, "png") || str_eq(e, "jpg") || str_eq(e, "jpeg") || str_eq(e, "gif") || str_eq(e, "bmp")
        || str_eq(e, "webp") || str_eq(e, "avif") {
        ImageKind::Native
    } else if str_eq(e, "tif") || str_eq(e, "tiff") {
        ImageKind::Tiff
    } else if str_eq(e, "ico") {
        ImageKind::Ico
    } else if str_eq(e, "psd") {
        ImageKind::Psd
    } else if str_eq(e, "exr") {
        ImageKind::Exr
    } else if str_eq(e, "jxr") || str_eq(e, "wdp") {
        ImageKind::Jxr
    } else if str_eq(e, "jxl") {
        ImageKind::Jxl
    } else if str_eq(e, "pdf") {
        ImageKind::Pdf
    } else {
        ImageKind::Unsupported
    }
}

/// Category by extension (compared lower-cased; no extension is unsupported).
pub fn classify(path: &str) -> (r: ImageKind)
    ensures
        r == spec_classify(path@),
        plain_name(path@) && all_ascii(path@) ==> r == ascii_name_kind(path@),
{
    match path_extension(path) {
        Some(e) => {
            let l = to_lowercase(e.as_str());
            kind_of_lower_ext(l.as_str())
        },
        None => ImageKind::Unsupported,
    }
}

/// The category of a plain ASCII file name: its extension lower-cased.
pub open spec fn ascii_name_kind(name: Seq<char>) -> ImageKind {
    match ext_of_name(name) {
        Some(e) => kind_of_ext(lower_ascii_str(e)),
        None => ImageKind::Unsupported,
    }
}

/// The PNG signature.
pub open spec fn png_signature() -> Seq<u8> {
    seq![0x89u8, 0x50, 0x4E, 0x47, 0x0D, 0x0A, 0x1A, 0x0A]
}

/// The cICP payload (primaries, transfer, matrix, full range) found by walking the
/// chunks from `pos`, stopping at IDAT, IEND or a truncated chunk.
pub open spec fn cicp_scan(buf: Seq<u8>, pos: int) -> Option<Seq<u8>>
    decreases buf.len() - pos,
{
    if pos < 0 || pos + 8 > buf.len() {
        None
    } else if spec_tag_at(buf, pos + 4, tag4(0x49, 0x44, 0x41, 0x54)) || spec_tag_at(buf, pos + 4, tag4(0x49, 0x45, 0x4E, 0x44)) {
        None
    } else if pos + 12 > buf.len() {
        None
    } else if spec_tag_at(buf, pos + 4, tag4(0x63, 0x49, 0x43, 0x50)) {
        Some(buf.subrange(pos + 8, pos + 12))
    } else {
        let next = pos + 8 + spec_be32(buf, pos) + 4;
        if next > buf.len() {
            None
        } else {
            cicp_scan(buf, next)
        }
    }
}

/// The cICP payload of a PNG stream.
pub open spec fn spec_find_cicp(buf: Seq<u8>) -> Option<Seq<u8>> {
    if buf.len() >= 8 && buf.take(8) == png_signature() {
        cicp_scan(buf, 8)
    } else {
        None
    }
}

/// Finds the cICP chunk of a PNG (metadata chunks precede IDAT).
pub fn find_cicp(buf: &[u8]) -> (r: Option<[u8; 4]>)
    ensures
        r is Some <==> spec_find_cicp(buf@) is Some,
        r matches Some(c) ==> spec_find_cicp(buf@) == Some(c@),
{
    let sig = [0x89u8, 0x50, 0x4E, 0x47, 0x0D, 0x0A, 0x1A, 0x0A];
    let idat = [0x49u8, 0x44, 0x41, 0x54];
    let iend = [0x49u8, 0x45, 0x4E, 0x44];
    let cicp = [0x63u8, 0x49, 0x43, 0x50];
    assert(sig@ =~= png_signature());
    assert(idat@ =~= tag4(0x49, 0x44, 0x41, 0x54));
    assert(iend@ =~= tag4(0x49, 0x45, 0x4E, 0x44));
    assert(cicp@ =~= tag4(0x63, 0x49, 0x43, 0x50));
    if buf.len() < 8 || !tag_at(buf, 0, &sig) {
        proof {
            if buf@.len() >= 8 {
                assert(buf@.subrange(0, 8) =~= buf@.take(8));
            }
        }
        return None;
    }
    assert(buf@.subrange(0, 8) =~= buf@.take(8));
    let mut pos: usize = 8;
    while pos <= buf.len() && buf.len() - pos >= 8
        invariant
            pos >= 8,
            idat@ == tag4(0x49, 0x44, 0x41, 0x54),
            iend@ == tag4(0x49, 0x45, 0x4E, 0x44),
            cicp@ == tag4(0x63, 0x49, 0x43, 0x50),
            cicp_scan(buf@, 8) == cicp_scan(buf@, pos as int),
            spec_find_cicp(buf@) == cicp_scan(buf@, 8),
        decreases buf@.len() - pos,
    {
        if tag_at(buf, pos + 4, &idat) || tag_at(buf, pos + 4, &iend) {
            return None;
        }
        let data_start = pos + 8;
        if data_start > buf.len() || buf.len() - data_start < 4 {
            return None;
        }
        if tag_at(buf, pos + 4, &cicp) {
            let c = [buf[data_start], buf[data_start + 1], buf[data_start + 2], buf[data_start + 3]];
            assert(c@ =~= buf@.subrange(pos + 8, pos + 12));
            return Some(c);
        }
        let len = be32(buf, pos) as usize;
        let next = data_start.saturating_add(len).saturating_add(4);
        if next > buf.len() {
            return None;
        }
        pos = next;
    }
    None
}

/// A PNG head whose cICP transfer function is PQ (12).
pub open spec fn spec_is_hdr_png(head: Seq<u8>) -> bool {
    match spec_find_cicp(head) {
        Some(c) => c[1] == 12,
        None => false,
    }
}

/// Whether a PNG (its first bytes, up to 64 KiB) is an HDR PNG: cICP with PQ transfer.
pub fn is_hdr_png(head: &[u8]) -> (r: bool)
    ensures
        r == spec_is_hdr_png(head@),
{
    match find_cicp(head) {
        Some(c) => c[1] == 12,
        None => false,
    }
}

/// Source gamut named by the cICP primaries code.
#[derive(PartialEq, Eq, Structural, Clone, Copy, Debug)]
pub enum CicpGamut {
    /// Display P3 (code 11).
    P3,
    /// BT.2020 (code 9).
    Bt2020,
    /// BT.709 / sRGB (code 1): no conversion.
    Bt709,
    /// No or another code: treated as BT.2020.
    Default,
}

/// The gamut for the primaries code of a PNG head.
pub open spec fn spec_cicp_gamut(head: Seq<u8>) -> CicpGamut {
    match spec_find_cicp(head) {
        Some(c) => if c[0] == 11 {
            CicpGamut::P3
        } else if c[0] == 9 {
            CicpGamut::Bt2020
        } else if c[0] == 1 {
            CicpGamut::Bt709
        } else {
            CicpGamut::Default
        },
        None => CicpGamut::Default,
    }
}

/// Gamut of an HDR PNG from its cICP primaries.
pub fn cicp_gamut(head: &[u8]) -> (r: CicpGamut)
    ensures
        r == spec_cicp_gamut(head@),
{
    match find_cicp(head) {
        Some(c) => if c[0] == 11 {
            CicpGamut::P3
        } else if c[0] == 9 {
            CicpGamut::Bt2020
        } else if c[0] == 1 {
            CicpGamut::Bt709
        } else {
            CicpGamut::Default
        },
        None => CicpGamut::Default,
    }
}

/// The extension is "png" ignoring ASCII case.
pub open spec fn png_ext(p: Seq<char>) -> bool {
    match spec_extension(p) {
        Some(e) => eq_ascii_ci(e, "png"@),
        None => false,
    }
}

/// Whether classifying `path` needs the head of the file (a .png that may be HDR).
pub fn needs_png_head(path: &str) -> (r: bool)
    ensures
        r == (spec_classify(path@) == ImageKind::Native && png_ext(path@)),
{
    if classify(path) != ImageKind::Native {
        return false;
    }
    match path_extension(path) {
        Some(e) => eq_ignore_ascii_case(e.as_str(), "png"),
        None => false,
    }
}

/// Category by extension, then by content: a .png whose head is an HDR PNG.
pub open spec fn spec_classify_with_content(p: Seq<char>, png_head: Seq<u8>) -> ImageKind {
    let k = spec_classify(p);
    if k == ImageKind::Native && png_ext(p) && spec_is_hdr_png(png_head) {
        ImageKind::PngHdr
    } else {
        k
    }
}

/// Category by extension and content (`png_head`: the first bytes of the file, read
/// when `needs_png_head` says so).
pub fn classify_with_content(path: &str, png_head: &[u8]) -> (r: ImageKind)
    ensures
        r == spec_classify_with_content(path@, png_head@),
{
    let k = classify(path);
    if k == ImageKind::Native {
        let is_png = match path_extension(path) {
            Some(e) => eq_ignore_ascii_case(e.as_str(), "png"),
            None => false,
        };
        if is_png && is_hdr_png(png_head) {
            ImageKind::PngHdr
        } else {
            ImageKind::Native
        }
    } else {
        k
    }
}

/// Decoder that writes the temporary PNG of a non-native image.
#[derive(PartialEq, Eq, Structural, Clone, Copy, Debug)]
pub enum Decoder {
    Tiff,
    Ico,
    Psd,
    Exr,
    PngHdr,
    Jxr,
    Jxl,
    Pdf,
}

/// The decoder for a category, or the message for one that is not decoded.
pub open spec fn spec_decode_route(k: ImageKind) -> Result<Decoder, Seq<char>> {
    match k {
        ImageKind::Tiff => Ok(Decoder::Tiff),
        ImageKind::Ico => Ok(Decoder::Ico),
        ImageKind::Psd => Ok(Decoder::Psd),
        ImageKind::Exr => Ok(Decoder::Exr),
        ImageKind::PngHdr => Ok(Decoder::PngHdr),
        ImageKind::Jxr => Ok(Decoder::Jxr),
        ImageKind::Jxl => Ok(Decoder::Jxl),
        ImageKind::Pdf => Ok(Decoder::Pdf),
        ImageKind::Native => Err("浏览器原生格式无需解码"@),
        ImageKind::Unsupported => Err("暂不支持此格式"@),
    }
}

/// Chooses the decoder that produces the temporary PNG (native images need none).
pub fn decode_to_temp_png(kind: ImageKind) -> (r: Result<Decoder, String>)
    ensures
        r matches Ok(d) ==> spec_decode_route(kind) == Ok::<Decoder, Seq<char>>(d),
        r matches Err(m) ==> spec_decode_route(kind) == Err::<Decoder, Seq<char>>(m@),
{
    match kind {
        ImageKind::Tiff => Ok(Decoder::Tiff),
        ImageKind::Ico => Ok(Decoder::Ico),
        ImageKind::Psd => Ok(Decoder::Psd),
        ImageKind::Exr => Ok(Decoder::Exr),
        ImageKind::PngHdr => Ok(Decoder::PngHdr),
        ImageKind::Jxr => Ok(Decoder::Jxr),
        ImageKind::Jxl => Ok(Decoder::Jxl),
        ImageKind::Pdf => Ok(Decoder::Pdf),
        ImageKind::Native => Err(String::from_str("浏览器原生格式无需解码")),
        ImageKind::Unsupported => Err(String::from_str("暂不支持此格式")),
    }
}

/// The categories decoded as HDR sources (tone-mapped for the SDR preview).
pub open spec fn spec_is_hdr_kind(k: ImageKind) -> bool {
    k == ImageKind::Exr || k == ImageKind::PngHdr || k == ImageKind::Jxl || k == ImageKind::Jxr
}

/// Whether a category carries an HDR source.
pub fn is_hdr_kind(k: ImageKind) -> (r: bool)
    ensures
        r == spec_is_hdr_kind(k),
{
    k == ImageKind::Exr || k == ImageKind::PngHdr || k == ImageKind::Jxl || k == ImageKind::Jxr
}

/// The categories decodable as SDR images (input of the SDR→HDR conversion).
pub open spec fn spec_sdr_gate(k: ImageKind) -> bool {
    k == ImageKind::Native || k == ImageKind::Tiff || k == ImageKind::Ico || k == ImageKind::Psd
        || k == ImageKind::Pdf
}

/// Whether an image of this category can be converted from SDR to HDR.
pub fn sdr_gate(k: ImageKind) -> (r: bool)
    ensures
        r == spec_sdr_gate(k),
{
    k == ImageKind::Native || k == ImageKind::Tiff || k == ImageKind::Ico || k == ImageKind::Psd
        || k == ImageKind::Pdf
}

/// An RGBA8 buffer of `len` bytes holds a `width` × `height` image (4 × w × h bytes,
/// computable in `usize`).
pub open spec fn rgba_fits(width: u32, height: u32, len: nat) -> bool {
    4 * width <= usize::MAX && 4 * width * height <= usize::MAX && 4 * width * height <= len
}

/// Whether an RGBA8 buffer of `len` bytes is large enough for the image.
pub fn rgba_buffer_fits(width: u32, height: u32, len: usize) -> (r: bool)
    ensures
        r == rgba_fits(width, height, len as nat),
{
    match 4usize.checked_mul(width as usize) {
        Some(a) => match a.checked_mul(height as usize) {
            Some(b) => {
                assert(b == 4 * width * height);
                b <= len
            },
            None => {
                assert(4 * width * height > usize::MAX) by (nonlinear_arith)
                    requires
                        a == 4 * width,
                        a * height > usize::MAX,
                ;
                false
            },
        },
        None => false,
    }
}

/// Lower-case hexadecimal digit.
pub open spec fn hex_char(d: nat) -> char {
    if d < 10 { ((48 + d) as u32) as char } else { ((87 + d) as u32) as char }
}

/// The last `k` hexadecimal digits of `n`, most significant first.
pub open spec fn hex_digits(n: nat, k: nat) -> Seq<char>
    decreases k,
{
    if k == 0 {
        Seq::empty()
    } else {
        hex_digits(n / 16, (k - 1) as nat).push(hex_char(n % 16))
    }
}

fn push_hex16(out: &mut String, n: u64)
    ensures
        final(out)@ == old(out)@ + hex_digits(n as nat, 16),
{
    let mut digits: Vec<char> = Vec::new();
    let mut k: usize = 0;
    let mut m: u64 = n;
    assert(pow16(0) == 1);
    assert((n as nat) / 1 == n as nat);
    while k < 16
        invariant
            k <= 16,
            digits@.len() == k,
            forall|j: int| 0 <= j < k ==> #[trigger] digits@[j] == hex_char(((n as nat) / pow16(j as nat)) % 16),
            m == (n as nat) / pow16(k as nat),
        decreases 16 - k,
    {
        let d = m % 16;
        let c: char = if d < 10 { ((48 + d) as u8) as char } else { ((87 + d) as u8) as char };
        assert(c == hex_char(d as nat));
        digits.push(c);
        proof {
            lemma_div_pow16(n as nat, k as nat);
        }
        m = m / 16;
        k = k + 1;
    }
    let ghost start = out@;
    let mut i: usize = 16;
    while i > 0
        invariant
            i <= 16,
            digits@.len() == 16,
            forall|j: int| 0 <= j < 16 ==> #[trigger] digits@[j] == hex_char(((n as nat) / pow16(j as nat)) % 16),
            out@ == start + hex_digits((n as nat) / pow16(i as nat), (16 - i) as nat),
        decreases i,
    {
        i = i - 1;
        out.push(digits[i]);
        proof {
            lemma_div_pow16(n as nat, i as nat);
            assert(hex_digits((n as nat) / pow16(i as nat), (16 - i) as nat)
                == hex_digits((n as nat) / pow16(i as nat) / 16, (16 - i - 1) as nat).push(hex_char(((n as nat) / pow16(i as nat)) % 16)));
        }
    }
    proof {
        assert(pow16(0) == 1);
    }
}

/// Sixteen to the power `k`.
pub open spec fn pow16(k: nat) -> nat
    decreases k,
{
    if k == 0 { 1 } else { 16 * pow16((k - 1) as nat) }
}

proof fn lemma_div_pow16(n: nat, k: nat)
    ensures
        n / pow16(k) / 16 == n / pow16(k + 1),
        pow16(k) > 0,
    decreases k,
{
    if k > 0 {
        lemma_div_pow16(n, (k - 1) as nat);
    }
    assert(pow16(k + 1) == pow16(k) * 16);
    vstd::arithmetic::div_mod::lemma_div_denominator(n as int, pow16(k) as int, 16);
}

/// Name of the temporary PNG of a decoded image: `decode_<hash as 16 hex digits>.png`.
pub open spec fn decode_temp_name(hash: u64) -> Seq<char> {
    "decode_"@ + hex_digits(hash as nat, 16) + ".png"@
}

/// The temporary PNG's file name for a path hash.
pub fn temp_png_name(hash: u64) -> (r: String)
    ensures
        r@ == decode_temp_name(hash),
{
    let mut s = String::from_str("decode_");
    push_hex16(&mut s, hash);
    push_str(&mut s, ".png");
    s
}

/// Name of the temporary PNG of a PDF page: `pdf_<hash>_p<page>.png`.
pub open spec fn pdf_page_temp_name(hash: u64, page: u32) -> Seq<char> {
    "pdf_"@ + hex_digits(hash as nat, 16) + "_p"@ + crate::text::decimal(page as nat) + ".png"@
}

/// The temporary PNG's file name of page `page` (0-based) for a path hash.
pub fn pdf_temp_name(hash: u64, page: u32) -> (r: String)
    ensures
        r@ == pdf_page_temp_name(hash, page),
{
    let mut s = String::from_str("pdf_");
    push_hex16(&mut s, hash);
    push_str(&mut s, "_p");
    crate::text::push_decimal(&mut s, page as u64);
    push_str(&mut s, ".png");
    s
}

/// The refusal for page `page_index` (0-based) of a document of `count` pages.
pub open spec fn spec_check_pdf_page(page_index: u32, count: u32) -> Option<Seq<char>> {
    if count == 0 {
        Some("PDF 无页面"@)
    } else if page_index >= count {
        Some("页码越界: 第 "@ + crate::text::decimal((page_index + 1) as nat) + " 页 / 共 "@
            + crate::text::decimal(count as nat) + " 页"@)
    } else {
        None
    }
}

/// Checks that a page exists before it is rendered.
pub fn check_pdf_page(page_index: u32, count: u32) -> (r: Result<(), String>)
    requires
        page_index < u32::MAX,
    ensures
        r is Ok <==> spec_check_pdf_page(page_index, count) is None,
        r matches Err(m) ==> spec_check_pdf_page(page_index, count) == Some(m@),
{
    if count == 0 {
        return Err(String::from_str("PDF 无页面"));
    }
    if page_index >= count {
        let mut s = String::from_str("页码越界: 第 ");
        crate::text::push_decimal(&mut s, (page_index + 1) as u64);
        push_str(&mut s, " 页 / 共 ");
        crate::text::push_decimal(&mut s, count as u64);
        push_str(&mut s, " 页");
        return Err(s);
    }
    Ok(())
}

/// Target of a format conversion ("save as").
#[derive(PartialEq, Eq, Structural, Clone, Copy, Debug)]
pub enum TargetFormat {
    Png,
    /// JPEG at the given quality (alpha dropped).
    Jpeg,
    /// Lossless WebP (the quality does not apply).
    Webp,
}

/// The target named by a lower-cased format name.
pub open spec fn spec_target_format(lower: Seq<char>) -> Result<TargetFormat, Seq<char>> {
    if lower == "png"@ {
        Ok(TargetFormat::Png)
    } else if lower == "jpeg"@ || lower == "jpg"@ {
        Ok(TargetFormat::Jpeg)
    } else if lower == "webp"@ {
        Ok(TargetFormat::Webp)
    } else {
        Err("不支持的目标格式: "@ + lower)
    }
}

/// Chooses the conversion target from its name (compared lower-cased).
pub fn target_format(format: &str) -> (r: Result<TargetFormat, String>)
    ensures
        r matches Ok(t) ==> spec_target_format(spec_lowercase(format@)) == Ok::<TargetFormat, Seq<char>>(t),
        r matches Err(m) ==> spec_target_format(spec_lowercase(format@)) == Err::<TargetFormat, Seq<char>>(m@),
{
    let l = to_lowercase(format);
    if str_eq(l.as_str(), "png") {
        Ok(TargetFormat::Png)
    } else if str_eq(l.as_str(), "jpeg") || str_eq(l.as_str(), "jpg") {
        Ok(TargetFormat::Jpeg)
    } else if str_eq(l.as_str(), "webp") {
        Ok(TargetFormat::Webp)
    } else {
        let mut m = String::from_str("不支持的目标格式: ");
        push_str(&mut m, l.as_str());
        Err(m)
    }
}

/// JPEG quality clamped to 1..=100.
pub fn convert_quality(quality: u32) -> (q: u8)
    ensures
        q == (if quality < 1 { 1 } else if quality > 100 { 100 } else { quality }),
{
    if quality < 1 {
        1
    } else if quality > 100 {
        100
    } else {
        quality as u8
    }
}

/// Declared so that the PSD parser's error can be handed back.
#[verifier::external_type_specification]
#[verifier::external_body]
pub struct ExPsdError(psd::PsdError);

/// Declared so that a parsed PSD document can be held.
#[verifier::external_type_specification]
#[verifier::external_body]
pub struct ExPsd(psd::Psd);

/// The PSD signature "8BPS".
pub open spec fn psd_signature() -> Seq<u8> {
    tag4(0x38, 0x42, 0x50, 0x53)
}

/// End of the length-prefixed section that starts at `at`: a big-endian 32-bit length,
/// then that many bytes.
pub open spec fn psd_section_end(b: Seq<u8>, at: int) -> int {
    at + 4 + spec_be32(b, at)
}

/// Start of the image data: the 26-byte header is followed by the colour mode data, the
/// image resources and the layer and mask information, each length-prefixed. `None`
/// when one of them runs past the end of the bytes.
pub open spec fn psd_image_data_start(b: Seq<u8>) -> Option<int> {
    let r = psd_section_end(b, 26);
    let l = psd_section_end(b, r);
    let d = psd_section_end(b, l);
    if 30 > b.len() || r + 4 > b.len() || l + 4 > b.len() || d > b.len() {
        None
    } else {
        Some(d)
    }
}

/// What the check says of a file's bytes before they go to the PSD parser: short or
/// unsigned bytes pass (the parser refuses them itself); a signed file whose sections
/// run past the end, that has no compression code for its image data, whose image data
/// is ZIP-compressed (code 2 or 3, which the parser does not implement), or whose
/// records would make the parser or its flattening panic (`psd_structure_ok`) is
/// refused with the message given.
pub open spec fn psd_frame_error(b: Seq<u8>) -> Option<Seq<char>> {
    if b.len() < 26 || !spec_tag_at(b, 0, psd_signature()) {
        None
    } else {
        match psd_image_data_start(b) {
            None => Some("PSD 解析失败: 文件分段长度越界"@),
            Some(d) => if d + 2 > b.len() {
                Some("PSD 解析失败: 缺少图像数据压缩方式"@)
            } else if spec_be16(b, d) == 2 || spec_be16(b, d) == 3 {
                Some("PSD 解析失败: 不支持 ZIP 压缩的图像数据"@)
            } else if !psd_structure_ok(b) {
                Some("PSD 解析失败: 文件结构超出解析器支持范围"@)
            } else {
                None
            },
        }
    }
}

/// Checks a PSD file before parsing (see `psd_frame_error`): `None` when the bytes may go
/// to the parser, else the message of the refusal.
pub fn check_psd_frame(bytes: &[u8]) -> (r: Option<String>)
    ensures
        r is None <==> psd_frame_error(bytes@) is None,
        r matches Some(m) ==> psd_frame_error(bytes@) == Some(m@),
{
    let sig: [u8; 4] = [0x38, 0x42, 0x50, 0x53];
    assert(sig@ =~= psd_signature());
    if bytes.len() < 26 || !tag_at(bytes, 0, &sig) {
        return None;
    }
    let n: u64 = bytes.len() as u64;
    let overrun = "PSD 解析失败: 文件分段长度越界";
    proof { reveal_strlit("PSD 解析失败: 文件分段长度越界"); }
    if 30 > n {
        return Some(String::from_str(overrun));
    }
    let r: u64 = 30 + be32(bytes, 26) as u64;
    if r + 4 > n {
        return Some(String::from_str(overrun));
    }
    let l: u64 = r + 4 + be32(bytes, r as usize) as u64;
    if l + 4 > n {
        return Some(String::from_str(overrun));
    }
    let d: u64 = l + 4 + be32(bytes, l as usize) as u64;
    if d > n {
        return Some(String::from_str(overrun));
    }
    if d + 2 > n {
        let m = String::from_str("PSD 解析失败: 缺少图像数据压缩方式");
        proof { reveal_strlit("PSD 解析失败: 缺少图像数据压缩方式"); }
        return Some(m);
    }
    let c = be16(bytes, d as usize);
    if c == 2 || c == 3 {
        let m = String::from_str("PSD 解析失败: 不支持 ZIP 压缩的图像数据");
        proof { reveal_strlit("PSD 解析失败: 不支持 ZIP 压缩的图像数据"); }
        return Some(m);
    }
    assert(section_starts(bytes@) == (r as int, l as int, d as int));
    if !check_psd_structure(bytes) {
        let m = String::from_str("PSD 解析失败: 文件结构超出解析器支持范围");
        proof { reveal_strlit("PSD 解析失败: 文件结构超出解析器支持范围"); }
        return Some(m);
    }
    None
}

/// Whether the psd crate's `Psd::from_bytes` parses these bytes.
pub uninterp spec fn psd_parses(bytes: Seq<u8>) -> bool;

/// `Psd::from_bytes`. The contract names whether it succeeds and states the header
/// check it starts with. `psd_frame_error` being `None` keeps out every input on which
/// its section, layer, channel, image-data and resource readers would panic.
#[verifier::external_body]
fn psd_from_bytes(bytes: &[u8]) -> (r: Result<psd::Psd, psd::PsdError>)
    requires
        psd_frame_error(bytes@) is None,
    ensures
        r is Ok <==> psd_parses(bytes@),
        r is Ok ==> bytes@.len() >= 26 && spec_tag_at(bytes@, 0, psd_signature()),
{
    psd::Psd::from_bytes(bytes)
}

/// A document the psd crate parsed, with the bytes it was parsed from.
pub struct PsdDoc {
    doc: psd::Psd,
    src: Ghost<Seq<u8>>,
}

impl PsdDoc {
    /// The bytes the document was parsed from.
    pub closed spec fn source(&self) -> Seq<u8> {
        self.src@
    }

    /// Parses `bytes` with the psd crate; the error is the crate's.
    pub fn parse(bytes: &[u8]) -> (r: Result<PsdDoc, psd::PsdError>)
        requires
            psd_frame_error(bytes@) is None,
        ensures
            r is Ok <==> psd_parses(bytes@),
            r is Ok ==> bytes@.len() >= 26 && spec_tag_at(bytes@, 0, psd_signature()),
            r matches Ok(d) ==> d.source() == bytes@,
    {
        match psd_from_bytes(bytes) {
            Ok(doc) => Ok(PsdDoc { doc, src: Ghost(bytes@) }),
            Err(e) => Err(e),
        }
    }
}

/// Canvas width of a PSD: the big-endian 32-bit value at header offset 18.
pub open spec fn psd_width_of(bytes: Seq<u8>) -> u32 {
    spec_be32(bytes, 18) as u32
}

/// Canvas height of a PSD: the big-endian 32-bit value at header offset 14.
pub open spec fn psd_height_of(bytes: Seq<u8>) -> u32 {
    spec_be32(bytes, 14) as u32
}

/// What `Psd::flatten_layers_rgba` with every layer gives for the document parsed from
/// `bytes`: the RGBA8 pixels, or `None` when it fails.
pub uninterp spec fn psd_flattened_of(bytes: Seq<u8>) -> Option<Seq<u8>>;

/// What `Psd::rgba` (the merged image data as RGBA8) gives for the document parsed from
/// `bytes`.
pub uninterp spec fn psd_merged_of(bytes: Seq<u8>) -> Seq<u8>;

/// `Psd::width`: the header's canvas width, read big-endian at offset 18 of the bytes
/// the document was parsed from (`FileHeaderSection::from_bytes`). Every `PsdDoc` is
/// built by `PsdDoc::parse` from its `source`.
#[verifier::external_body]
fn psd_width(d: &PsdDoc) -> (r: u32)
    ensures
        r == psd_width_of(d.source()),
{
    d.doc.width()
}

/// `Psd::height`: the header's canvas height, read big-endian at offset 14.
#[verifier::external_body]
fn psd_height(d: &PsdDoc) -> (r: u32)
    ensures
        r == psd_height_of(d.source()),
{
    d.doc.height()
}

/// `Psd::flatten_layers_rgba` with a filter that keeps every layer: it returns `Ok` on
/// every path (the merged image data for a file without layers). The requirement keeps
/// out the layers it cannot render (see `psd_structure_ok`).
#[verifier::external_body]
fn psd_flatten_layers(d: &PsdDoc) -> (r: Result<Vec<u8>, psd::PsdError>)
    requires
        psd_frame_error(d.source()) is None,
    ensures
        r is Ok,
        r is Ok <==> psd_flattened_of(d.source()) is Some,
        r matches Ok(px) ==> psd_flattened_of(d.source()) == Some(px@),
{
    d.doc.flatten_layers_rgba(&|layer| every_layer(layer))
}

/// `Psd::rgba`: the merged image data as RGBA8. The requirement (a file whose layer
/// section has no layers, checked by `psd_structure_ok`) keeps raw channels within the
/// canvas.
#[verifier::external_body]
fn psd_rgba(d: &PsdDoc) -> (r: Vec<u8>)
    requires
        psd_frame_error(d.source()) is None,
        psd_layerless(d.source()),
    ensures
        r@ == psd_merged_of(d.source()),
{
    d.doc.rgba()
}

/// The layer filter of the flattening: every layer takes part.
pub fn every_layer<L>(_layer: L) -> (r: bool)
    ensures
        r,
{
    true
}

/// `PsdError`'s `Display` text.
#[verifier::external_body]
fn psd_error_text(e: &psd::PsdError) -> String {
    e.to_string()
}

/// A decoded PSD: canvas size and RGBA8 pixels.
pub struct PsdImage {
    pub width: u32,
    pub height: u32,
    pub rgba: Vec<u8>,
}

/// The pixels of a document: its layers flattened, or its merged image data when the
/// flattening fails.
pub open spec fn psd_pixels_of(bytes: Seq<u8>) -> Seq<u8> {
    match psd_flattened_of(bytes) {
        Some(px) => px,
        None => psd_merged_of(bytes),
    }
}

/// Pixels of a parsed document (see `psd_pixels_of`).
pub fn psd_doc_pixels(d: &PsdDoc) -> (r: Vec<u8>)
    requires
        psd_frame_error(d.source()) is None,
    ensures
        r@ == psd_pixels_of(d.source()),
{
    match psd_flatten_layers(d) {
        Ok(px) => px,
        Err(_) => psd_rgba(d),
    }
}

/// The decoded PSD (canvas size and pixels) when the frame check passes, the parser
/// accepts the bytes and the pixels cover the canvas.
pub open spec fn psd_decoded(b: Seq<u8>) -> Option<(u32, u32, Seq<u8>)> {
    if b.len() >= 26 && spec_tag_at(b, 0, psd_signature()) && psd_frame_error(b) is None && psd_parses(b)
        && rgba_fits(psd_width_of(b), psd_height_of(b), psd_pixels_of(b).len()) {
        Some((psd_width_of(b), psd_height_of(b), psd_pixels_of(b)))
    } else {
        None
    }
}

/// Decodes a PSD file's bytes to RGBA8 (layers flattened) for the temporary PNG: the
/// frame check's refusal, the parser's error, or the canvas with its pixels when they
/// cover it.
pub fn decode_psd(bytes: &[u8]) -> (r: Result<PsdImage, String>)
    ensures
        r is Ok <==> psd_decoded(bytes@) is Some,
        r matches Ok(img) ==> psd_decoded(bytes@) == Some((img.width, img.height, img.rgba@)),
        psd_frame_error(bytes@) is Some ==> (r matches Err(m) && psd_frame_error(bytes@) == Some(m@)),
        psd_frame_error(bytes@) is None && !psd_parses(bytes@) ==> (r matches Err(m) && m@.len() >= 10
            && m@.take(10) == "PSD 解析失败: "@),
        psd_frame_error(bytes@) is None && psd_parses(bytes@) ==> ({
            let w = psd_width_of(bytes@);
            let h = psd_height_of(bytes@);
            let px = psd_pixels_of(bytes@);
            if rgba_fits(w, h, px.len()) {
                r matches Ok(img) && img.width == w && img.height == h && img.rgba@ == px
            } else {
                r matches Err(m) && m@ == "PSD 像素数据与画布尺寸不符"@
            }
        }),
{
    if let Some(m) = check_psd_frame(bytes) {
        return Err(m);
    }
    match PsdDoc::parse(bytes) {
        Ok(doc) => {
            let w = psd_width(&doc);
            let h = psd_height(&doc);
            let px = psd_doc_pixels(&doc);
            if rgba_buffer_fits(w, h, px.len()) {
                Ok(PsdImage { width: w, height: h, rgba: px })
            } else {
                let m = String::from_str("PSD 像素数据与画布尺寸不符");
                proof { reveal_strlit("PSD 像素数据与画布尺寸不符"); }
                Err(m)
            }
        },
        Err(e) => {
            let mut m = String::from_str("PSD 解析失败: ");
            let t = psd_error_text(&e);
            push_str(&mut m, t.as_str());
            proof {
                reveal_strlit("PSD 解析失败: ");
                assert(m@.take(10) =~= "PSD 解析失败: "@);
            }
            Err(m)
        },
    }
}

/// A decoded PSD has the size that the header probe reports for the same bytes.
pub proof fn law_psd_size_matches_probe(b: Seq<u8>)
    requires
        psd_decoded(b) is Some,
    ensures
        ({
            let (w, h, px) = psd_decoded(b)->0;
            spec_probe_psd(b) == Some((w, h))
        }),
{
}

/// Classification by extension: whatever the path, when its extension lower-cases to
/// png, jpg, jpeg, gif, bmp, webp or avif the file is browser-native; tif or tiff is
/// TIFF, ico ICO, psd PSD, exr EXR, jxr or wdp JPEG XR, jxl JPEG XL, pdf PDF; any other
/// extension, or none, is unsupported.
pub proof fn law_classify_by_extension(p: Seq<char>)
    ensures
        ({
            let k = spec_classify(p);
            match spec_extension(p) {
                None => k == ImageKind::Unsupported,
                Some(e) => {
                    let l = spec_lowercase(e);
                    &&& (l == "png"@ || l == "jpg"@ || l == "jpeg"@ || l == "gif"@ || l == "bmp"@
                        || l == "webp"@ || l == "avif"@) ==> k == ImageKind::Native
                    &&& (l == "tif"@ || l == "tiff"@) ==> k == ImageKind::Tiff
                    &&& l == "ico"@ ==> k == ImageKind::Ico
                    &&& l == "psd"@ ==> k == ImageKind::Psd
                    &&& l == "exr"@ ==> k == ImageKind::Exr
                    &&& (l == "jxr"@ || l == "wdp"@) ==> k == ImageKind::Jxr
                    &&& l == "jxl"@ ==> k == ImageKind::Jxl
                    &&& l == "pdf"@ ==> k == ImageKind::Pdf
                    &&& k == ImageKind::Unsupported <==> !(l == "png"@ || l == "jpg"@ || l == "jpeg"@
                        || l == "gif"@ || l == "bmp"@ || l == "webp"@ || l == "avif"@ || l == "tif"@
                        || l == "tiff"@ || l == "ico"@ || l == "psd"@ || l == "exr"@ || l == "jxr"@
                        || l == "wdp"@ || l == "jxl"@ || l == "pdf"@)
                },
            }
        }),
{
    reveal_strlit("png");
    reveal_strlit("jpg");
    reveal_strlit("jpeg");
    reveal_strlit("gif");
    reveal_strlit("bmp");
    reveal_strlit("webp");
    reveal_strlit("avif");
    reveal_strlit("tif");
    reveal_strlit("tiff");
    reveal_strlit("ico");
    reveal_strlit("psd");
    reveal_strlit("exr");
    reveal_strlit("jxr");
    reveal_strlit("wdp");
    reveal_strlit("jxl");
    reveal_strlit("pdf");
    assert("png"@.len() == 3 && "png"@[0] == 'p' && "png"@[1] == 'n' && "png"@[2] == 'g');
    assert("jpg"@.len() == 3 && "jpg"@[0] == 'j' && "jpg"@[1] == 'p' && "jpg"@[2] == 'g');
    assert("jpeg"@.len() == 4 && "jpeg"@[0] == 'j' && "jpeg"@[1] == 'p' && "jpeg"@[2] == 'e');
    assert("gif"@.len() == 3 && "gif"@[0] == 'g' && "gif"@[1] == 'i' && "gif"@[2] == 'f');
    assert("bmp"@.len() == 3 && "bmp"@[0] == 'b' && "bmp"@[1] == 'm' && "bmp"@[2] == 'p');
    assert("webp"@.len() == 4 && "webp"@[0] == 'w' && "webp"@[1] == 'e' && "webp"@[2] == 'b');
    assert("avif"@.len() == 4 && "avif"@[0] == 'a' && "avif"@[1] == 'v' && "avif"@[2] == 'i');
    assert("tif"@.len() == 3 && "tif"@[0] == 't' && "tif"@[1] == 'i' && "tif"@[2] == 'f');
    assert("tiff"@.len() == 4 && "tiff"@[0] == 't' && "tiff"@[1] == 'i' && "tiff"@[2] == 'f');
    assert("ico"@.len() == 3 && "ico"@[0] == 'i' && "ico"@[1] == 'c' && "ico"@[2] == 'o');
    assert("psd"@.len() == 3 && "psd"@[0] == 'p' && "psd"@[1] == 's' && "psd"@[2] == 'd');
    assert("exr"@.len() == 3 && "exr"@[0] == 'e' && "exr"@[1] == 'x' && "exr"@[2] == 'r');
    assert("jxr"@.len() == 3 && "jxr"@[0] == 'j' && "jxr"@[1] == 'x' && "jxr"@[2] == 'r');
    assert("wdp"@.len() == 3 && "wdp"@[0] == 'w' && "wdp"@[1] == 'd' && "wdp"@[2] == 'p');
    assert("jxl"@.len() == 3 && "jxl"@[0] == 'j' && "jxl"@[1] == 'x' && "jxl"@[2] == 'l');
    assert("pdf"@.len() == 3 && "pdf"@[0] == 'p' && "pdf"@[1] == 'd' && "pdf"@[2] == 'f');
}

} // verus!
