//! Raster decoding and encoding through the `image` crate: the decoder route of each
//! category, the Exif orientation of SDR inputs, and the encoders of "save as".

use vstd::prelude::*;
use crate::decode::{convert_quality, decode_psd, psd_decoded, rgba_fits, rgba_buffer_fits, target_format,
    spec_target_format, Decoder, ImageKind, TargetFormat};
use crate::strs::spec_lowercase;
use crate::text::push_str;

verus! {

/// An RGBA8 image: `width`×`height` pixels, four bytes each, row-major; `rgba` may be
/// longer than the canvas needs, never shorter.
pub struct RasterImage {
    pub width: u32,
    pub height: u32,
    pub rgba: Vec<u8>,
}

impl RasterImage {
    /// The pixels cover the canvas.
    pub open spec fn wf(&self) -> bool {
        4 * self.width * self.height <= self.rgba@.len()
    }

    /// Number of pixels, and their bytes as a prefix of `rgba`.
    fn canvas(&self) -> (r: (usize, &[u8]))
        requires
            self.wf(),
        ensures
            r.0 == self.width * self.height,
            r.1@ == self.rgba@.take(4 * self.width * self.height),
    {
        let len: usize = self.rgba.len();
        let w = self.width as usize;
        let h = self.height as usize;
        assert(w * h <= 4 * w * h && 4 * (w * h) == 4 * w * h) by (nonlinear_arith);
        let n = w * h;
        let (head, _) = self.rgba.as_slice().split_at(4 * n);
        assert(head@ =~= self.rgba@.take(4 * self.width * self.height));
        (n, head)
    }
}

/// `m` begins with `p`.
pub open spec fn starts_with(m: Seq<char>, p: Seq<char>) -> bool {
    m.len() >= p.len() && m.take(p.len() as int) == p
}

/// `prefix` followed by `text`.
fn prefixed(prefix: &str, text: String) -> (m: String)
    ensures
        m@ == prefix@ + text@,
        starts_with(m@, prefix@),
{
    let mut m = String::new();
    push_str(&mut m, prefix);
    push_str(&mut m, text.as_str());
    assert(m@.take(prefix@.len() as int) =~= prefix@);
    m
}

/// What `image::load_from_memory` (format guessed from the content) followed by
/// `to_rgba8` gives for `bytes`: width, height and RGBA8 pixels, or `None` on an error.
pub uninterp spec fn decoded_rgba(bytes: Seq<u8>) -> Option<(u32, u32, Seq<u8>)>;

/// `image::load_from_memory`, the decoded image converted by `to_rgba8` (whose buffer
/// is exactly `4·width·height` bytes); the error is the crate's message.
#[verifier::external_body]
fn image_decode_rgba(bytes: &[u8]) -> (r: Result<RasterImage, String>)
    ensures
        r is Ok <==> decoded_rgba(bytes@) is Some,
        r matches Ok(i) ==> decoded_rgba(bytes@) == Some((i.width, i.height, i.rgba@))
            && i.rgba@.len() == 4 * i.width * i.height,
{
    match image::load_from_memory(bytes) {
        Ok(img) => {
            let buf = img.to_rgba8();
            Ok(RasterImage { width: buf.width(), height: buf.height(), rgba: buf.into_raw() })
        },
        Err(e) => Err(e.to_string()),
    }
}

/// What `ImageReader::into_dimensions` (format guessed from the content) gives for
/// `bytes`, or `None` on an error.
pub uninterp spec fn decoded_dimensions(bytes: Seq<u8>) -> Option<(u32, u32)>;

/// `ImageReader::new(Cursor::new(bytes)).with_guessed_format()`, then `into_dimensions`.
#[verifier::external_body]
fn image_dimensions(bytes: &[u8]) -> (r: Option<(u32, u32)>)
    ensures
        r == decoded_dimensions(bytes@),
{
    image::ImageReader::new(std::io::Cursor::new(bytes))
        .with_guessed_format()
        .ok()
        .and_then(|r| r.into_dimensions().ok())
}

/// The Exif orientation code (1..=8) that the decoder of `bytes` reports, 1 when the
/// format is not recognised or the decoder reports none.
pub uninterp spec fn exif_orientation_of(bytes: Seq<u8>) -> u8;

/// `ImageDecoder::orientation` of the decoder made by `into_decoder` for `bytes`, as its
/// Exif code (`Orientation::to_exif`, in 1..=8); `NoTransforms` (1) when a step fails.
#[verifier::external_body]
fn image_orientation(bytes: &[u8]) -> (r: u8)
    ensures
        r == exif_orientation_of(bytes@),
        1 <= r <= 8,
{
    let o = image::ImageReader::new(std::io::Cursor::new(bytes))
        .with_guessed_format()
        .ok()
        .and_then(|r| r.into_decoder().ok())
        .and_then(|mut d| image::ImageDecoder::orientation(&mut d).ok());
    o.unwrap_or(image::metadata::Orientation::NoTransforms).to_exif()
}

/// What `DynamicImage::apply_orientation` with Exif code `code` makes of the RGBA8
/// image `width`×`height` with pixels `rgba`.
pub uninterp spec fn oriented(width: u32, height: u32, rgba: Seq<u8>, code: u8) -> (u32, u32, Seq<u8>);

/// `DynamicImage::apply_orientation(Orientation::from_exif(code))` on the image; the
/// result is an RGBA8 buffer of exactly `4·width·height` bytes.
#[verifier::external_body]
fn image_orient(img: RasterImage, code: u8) -> (r: RasterImage)
    requires
        img.rgba@.len() == 4 * img.width * img.height,
        1 <= code <= 8,
    ensures
        (r.width, r.height, r.rgba@) == oriented(img.width, img.height, img.rgba@, code),
        r.rgba@.len() == 4 * r.width * r.height,
{
    let buf = image::RgbaImage::from_raw(img.width, img.height, img.rgba).unwrap_or_default();
    let mut d = image::DynamicImage::ImageRgba8(buf);
    d.apply_orientation(image::metadata::Orientation::from_exif(code).unwrap_or(image::metadata::Orientation::NoTransforms));
    let out = d.into_rgba8();
    RasterImage { width: out.width(), height: out.height(), rgba: out.into_raw() }
}

/// What `PngEncoder::write_image` writes for an RGBA8 image, or `None` on an error.
pub uninterp spec fn png_encoded(width: u32, height: u32, rgba: Seq<u8>) -> Option<Seq<u8>>;

/// `PngEncoder::new(..).write_image(rgba, width, height, Rgba8)` into a byte vector
/// (it panics unless the buffer holds exactly `4·width·height` bytes).
#[verifier::external_body]
fn png_encode(width: u32, height: u32, rgba: &[u8]) -> (r: Result<Vec<u8>, String>)
    requires
        rgba@.len() == 4 * width * height,
    ensures
        r is Ok <==> png_encoded(width, height, rgba@) is Some,
        r matches Ok(b) ==> png_encoded(width, height, rgba@) == Some(b@),
{
    let mut out: Vec<u8> = Vec::new();
    let enc = image::codecs::png::PngEncoder::new(&mut out);
    image::ImageEncoder::write_image(enc, rgba, width, height, image::ExtendedColorType::Rgba8)
        .map_err(|e| e.to_string())?;
    Ok(out)
}

/// What `JpegEncoder::new_with_quality(.., quality).write_image` writes for an RGB8
/// image, or `None` on an error.
pub uninterp spec fn jpeg_encoded(width: u32, height: u32, rgb: Seq<u8>, quality: u8) -> Option<Seq<u8>>;

/// `JpegEncoder::new_with_quality(.., quality).write_image(rgb, width, height, Rgb8)`.
#[verifier::external_body]
fn jpeg_encode(width: u32, height: u32, rgb: &[u8], quality: u8) -> (r: Result<Vec<u8>, String>)
    requires
        rgb@.len() == 3 * width * height,
    ensures
        r is Ok <==> jpeg_encoded(width, height, rgb@, quality) is Some,
        r matches Ok(b) ==> jpeg_encoded(width, height, rgb@, quality) == Some(b@),
{
    let mut out: Vec<u8> = Vec::new();
    let enc = image::codecs::jpeg::JpegEncoder::new_with_quality(&mut out, quality);
    image::ImageEncoder::write_image(enc, rgb, width, height, image::ExtendedColorType::Rgb8)
        .map_err(|e| e.to_string())?;
    Ok(out)
}

/// What `WebPEncoder::new_lossless(..).write_image` writes for an RGBA8 image, or
/// `None` on an error.
pub uninterp spec fn webp_encoded(width: u32, height: u32, rgba: Seq<u8>) -> Option<Seq<u8>>;

/// `WebPEncoder::new_lossless(..).write_image(rgba, width, height, Rgba8)`.
#[verifier::external_body]
fn webp_encode(width: u32, height: u32, rgba: &[u8]) -> (r: Result<Vec<u8>, String>)
    requires
        rgba@.len() == 4 * width * height,
    ensures
        r is Ok <==> webp_encoded(width, height, rgba@) is Some,
        r matches Ok(b) ==> webp_encoded(width, height, rgba@) == Some(b@),
{
    let mut out: Vec<u8> = Vec::new();
    let enc = image::codecs::webp::WebPEncoder::new_lossless(&mut out);
    image::ImageEncoder::write_image(enc, rgba, width, height, image::ExtendedColorType::Rgba8)
        .map_err(|e| e.to_string())?;
    Ok(out)
}

/// What `image::load_from_memory` followed by `DynamicImage::write_to(.., Png)` gives
/// for `bytes`: width, height and the PNG (in the decoded image's own colour type and
/// bit depth), or which step failed (`true`: decoding, `false`: encoding).
pub uninterp spec fn png_reencoding(bytes: Seq<u8>) -> Result<(u32, u32, Seq<u8>), bool>;

/// `image::load_from_memory(bytes)`, then `write_to` a byte buffer as PNG; the error
/// names the failing step and carries the crate's message. Decoding fails exactly when
/// it fails in `image_decode_rgba`, which makes the same call.
#[verifier::external_body]
fn image_to_png(bytes: &[u8]) -> (r: Result<(u32, u32, Vec<u8>), (bool, String)>)
    ensures
        r is Ok <==> png_reencoding(bytes@) is Ok,
        r matches Ok((w, h, b)) ==> (png_reencoding(bytes@) matches Ok((pw, ph, pb)) && pw == w && ph == h && pb == b@),
        r matches Err((d, m)) ==> (png_reencoding(bytes@) matches Err(pd) && pd == d),
        r matches Err((d, m)) ==> (d <==> decoded_rgba(bytes@) is None),
        r is Ok ==> decoded_rgba(bytes@) is Some,
{
    let img = image::load_from_memory(bytes).map_err(|e| (true, e.to_string()))?;
    let mut out = std::io::Cursor::new(Vec::new());
    img.write_to(&mut out, image::ImageFormat::Png).map_err(|e| (false, e.to_string()))?;
    Ok((img.width(), img.height(), out.into_inner()))
}

/// The RGB bytes of RGBA pixels: every fourth byte (alpha) dropped.
pub open spec fn rgb_of(rgba: Seq<u8>, n: nat) -> Seq<u8> {
    Seq::new(3 * n, |i: int| rgba[(i / 3) * 4 + i % 3])
}

/// The first `n` pixels of `rgba` as RGB (the `to_rgb8` of an RGBA8 image).
pub fn rgba_to_rgb(rgba: &[u8], n: usize) -> (r: Vec<u8>)
    requires
        4 * n <= rgba@.len(),
    ensures
        r@ == rgb_of(rgba@, n as nat),
{
    let total: usize = rgba.len();
    let mut out: Vec<u8> = Vec::new();
    let mut k: usize = 0;
    while k < n
        invariant
            k <= n,
            total == rgba@.len(),
            4 * n <= rgba@.len(),
            out@ =~= rgb_of(rgba@, k as nat),
        decreases n - k,
    {
        let ghost before = out@;
        out.push(rgba[4 * k]);
        out.push(rgba[4 * k + 1]);
        out.push(rgba[4 * k + 2]);
        proof {
            assert forall|i: int| 0 <= i < 3 * (k + 1) implies out@[i] == rgb_of(rgba@, (k + 1) as nat)[i] by {
                if i < 3 * k {
                    assert(out@[i] == before[i]);
                } else {
                    assert(i / 3 == k as int) by (nonlinear_arith)
                        requires 3 * k <= i < 3 * k + 3;
                    assert(i % 3 == i - 3 * k) by (nonlinear_arith)
                        requires 3 * k <= i < 3 * k + 3, i / 3 == k;
                }
            }
        }
        k = k + 1;
    }
    out
}

/// The image a PSD decode gives, as a raster.
fn psd_raster(bytes: &[u8]) -> (r: Result<RasterImage, String>)
    ensures
        r is Ok <==> psd_decoded(bytes@) is Some,
        r matches Ok(i) ==> psd_decoded(bytes@) == Some((i.width, i.height, i.rgba@)) && i.wf(),
{
    match decode_psd(bytes) {
        Ok(p) => Ok(RasterImage { width: p.width, height: p.height, rgba: p.rgba }),
        Err(m) => Err(m),
    }
}

/// Message of a category this build has no decoder for.
pub open spec fn no_decoder_text() -> Seq<char> {
    "此构建未包含该格式的解码器"@
}

/// The raster of a file of category `kind` with contents `bytes`, for display and
/// conversion: native, TIFF and ICO files through the `image` crate (an error is
/// prefixed "解码失败: "), PSD files through `decode_psd`; an unsupported category, or
/// an HDR or document category (decoded by native components absent here), fails.
pub fn decode_raster(kind: ImageKind, bytes: &[u8]) -> (r: Result<RasterImage, String>)
    ensures
        r matches Ok(i) ==> i.wf(),
        (kind == ImageKind::Native || kind == ImageKind::Tiff || kind == ImageKind::Ico) ==> {
            &&& r is Ok <==> decoded_rgba(bytes@) is Some
            &&& r matches Ok(i) ==> decoded_rgba(bytes@) == Some((i.width, i.height, i.rgba@))
            &&& r matches Err(m) ==> starts_with(m@, "解码失败: "@)
        },
        kind == ImageKind::Psd ==> {
            &&& r is Ok <==> psd_decoded(bytes@) is Some
            &&& r matches Ok(i) ==> psd_decoded(bytes@) == Some((i.width, i.height, i.rgba@))
        },
        kind == ImageKind::Unsupported ==> (r matches Err(m) && m@ == "暂不支持此格式"@),
        (kind == ImageKind::Exr || kind == ImageKind::PngHdr || kind == ImageKind::Jxr
            || kind == ImageKind::Jxl || kind == ImageKind::Pdf) ==> (r matches Err(m) && m@ == no_decoder_text()),
{
    match kind {
        ImageKind::Native | ImageKind::Tiff | ImageKind::Ico => match image_decode_rgba(bytes) {
            Ok(i) => Ok(i),
            Err(e) => Err(prefixed("解码失败: ", e)),
        },
        ImageKind::Psd => psd_raster(bytes),
        ImageKind::Unsupported => {
            let m = String::from_str("暂不支持此格式");
            Err(m)
        },
        _ => {
            let m = String::from_str("此构建未包含该格式的解码器");
            Err(m)
        },
    }
}

/// The SDR input of the HDR conversion: the decoded RGBA8 image with its Exif
/// orientation applied.
pub open spec fn sdr_decoded(bytes: Seq<u8>) -> Option<(u32, u32, Seq<u8>)> {
    match decoded_rgba(bytes) {
        None => None,
        Some((w, h, px)) => if exif_orientation_of(bytes) == 1 {
            Some((w, h, px))
        } else {
            Some(oriented(w, h, px, exif_orientation_of(bytes)))
        },
    }
}

/// Decodes an SDR image to RGBA8 and applies its Exif orientation (none for code 1);
/// a decoding error is prefixed "解码图片失败: ".
pub fn decode_sdr_rgba(bytes: &[u8]) -> (r: Result<RasterImage, String>)
    ensures
        r is Ok <==> sdr_decoded(bytes@) is Some,
        r matches Ok(i) ==> sdr_decoded(bytes@) == Some((i.width, i.height, i.rgba@))
            && i.rgba@.len() == 4 * i.width * i.height,
        r matches Err(m) ==> starts_with(m@, "解码图片失败: "@),
{
    match image_decode_rgba(bytes) {
        Ok(img) => {
            let code = image_orientation(bytes);
            if code == 1 {
                Ok(img)
            } else {
                Ok(image_orient(img, code))
            }
        },
        Err(e) => Err(prefixed("解码图片失败: ", e)),
    }
}

/// Size of a TIFF for a directory listing: the decoder's header size, (0, 0) when it
/// cannot be read.
pub fn tiff_dimensions(bytes: &[u8]) -> (r: (u32, u32))
    ensures
        r == (match decoded_dimensions(bytes@) { Some(d) => d, None => (0u32, 0u32) }),
{
    match image_dimensions(bytes) {
        Some(d) => d,
        None => (0, 0),
    }
}

/// The PNG of a raster (the temporary PNG); an encoder error is prefixed "PNG 编码失败: ".
pub fn encode_png(img: &RasterImage) -> (r: Result<Vec<u8>, String>)
    requires
        img.wf(),
    ensures
        r is Ok <==> png_encoded(img.width, img.height, img.rgba@.take(4 * img.width * img.height)) is Some,
        r matches Ok(b) ==> png_encoded(img.width, img.height, img.rgba@.take(4 * img.width * img.height)) == Some(b@),
        r matches Err(m) ==> starts_with(m@, "PNG 编码失败: "@),
{
    let (_, head) = img.canvas();
    match png_encode(img.width, img.height, head) {
        Ok(b) => Ok(b),
        Err(e) => Err(prefixed("PNG 编码失败: ", e)),
    }
}

/// The bytes "save as" writes for target `t` at JPEG quality `q`.
pub open spec fn encoded_as(w: u32, h: u32, px: Seq<u8>, t: TargetFormat, q: u8) -> Option<Seq<u8>> {
    let canvas = px.take(4 * w * h);
    match t {
        TargetFormat::Png => png_encoded(w, h, canvas),
        TargetFormat::Jpeg => jpeg_encoded(w, h, rgb_of(canvas, (w * h) as nat), q),
        TargetFormat::Webp => webp_encoded(w, h, canvas),
    }
}

/// "Save as": decodes `src` (a file of category `kind`), then encodes it in `format`
/// (png / jpeg / jpg / webp, compared lower-cased; JPEG at `quality` clamped to 1..=100,
/// alpha dropped; WebP lossless; PNG in the decoded image's own colour type for the
/// categories the `image` crate decodes, RGBA8 for PSD). Fails with the decoding error,
/// then the format error, then the encoder's error prefixed "PNG 编码失败: ",
/// "JPEG 编码失败: " or "WebP 编码失败: ".
pub fn convert_bytes(kind: ImageKind, src: &[u8], format: &str, quality: u32) -> (r: Result<Vec<u8>, String>)
    ensures
        ({
            let q = (if quality < 1 { 1 } else if quality > 100 { 100 } else { quality }) as u8;
            match decode_raster_result(kind, src@) {
                None => r is Err,
                Some((w, h, px)) => match spec_target_format(spec_lowercase(format@)) {
                    Err(m) => r matches Err(e) && e@ == m,
                    Ok(t) => if t == TargetFormat::Png && image_crate_kind(kind) {
                        &&& r is Ok <==> png_reencoding(src@) is Ok
                        &&& r matches Ok(b) ==> png_reencoding(src@) matches Ok((pw, ph, pb)) && pb == b@
                    } else {
                        &&& r is Ok <==> encoded_as(w, h, px, t, q) is Some
                        &&& r matches Ok(b) ==> encoded_as(w, h, px, t, q) == Some(b@)
                    },
                },
            }
        }),
{
    let q = convert_quality(quality);
    let target = target_format(format);
    if image_kind(kind) {
        if let Ok(TargetFormat::Png) = target {
            return match image_to_png(src) {
                Ok((_, _, b)) => Ok(b),
                Err((true, e)) => Err(prefixed("解码失败: ", e)),
                Err((false, e)) => Err(prefixed("PNG 编码失败: ", e)),
            };
        }
    }
    let img = match decode_raster(kind, src) {
        Ok(i) => i,
        Err(m) => return Err(m),
    };
    let t = match target {
        Ok(t) => t,
        Err(m) => return Err(m),
    };
    let (n, head) = img.canvas();
    match t {
        TargetFormat::Png => match png_encode(img.width, img.height, head) {
            Ok(b) => Ok(b),
            Err(e) => Err(prefixed("PNG 编码失败: ", e)),
        },
        TargetFormat::Jpeg => {
            assert(4 * n == 4 * img.width * img.height && 3 * n == 3 * img.width * img.height) by (nonlinear_arith)
                requires n == img.width * img.height;
            let rgb = rgba_to_rgb(head, n);
            match jpeg_encode(img.width, img.height, rgb.as_slice(), q) {
                Ok(b) => Ok(b),
                Err(e) => Err(prefixed("JPEG 编码失败: ", e)),
            }
        },
        TargetFormat::Webp => match webp_encode(img.width, img.height, head) {
            Ok(b) => Ok(b),
            Err(e) => Err(prefixed("WebP 编码失败: ", e)),
        },
    }
}

fn image_kind(kind: ImageKind) -> (r: bool)
    ensures
        r == image_crate_kind(kind),
{
    match kind {
        ImageKind::Native | ImageKind::Tiff | ImageKind::Ico => true,
        _ => false,
    }
}

/// The raster `decode_raster` gives for a category and contents (`None` when it fails).
pub open spec fn decode_raster_result(kind: ImageKind, b: Seq<u8>) -> Option<(u32, u32, Seq<u8>)> {
    match kind {
        ImageKind::Native | ImageKind::Tiff | ImageKind::Ico => decoded_rgba(b),
        ImageKind::Psd => psd_decoded(b),
        _ => None,
    }
}

/// The category decoded by the `image` crate.
pub open spec fn image_crate_kind(kind: ImageKind) -> bool {
    kind == ImageKind::Native || kind == ImageKind::Tiff || kind == ImageKind::Ico
}

/// The temporary PNG of decoder route `route`: TIFF and ICO decoded and written as PNG by
/// the `image` crate in their own colour type (a decoding error prefixed
/// "TIFF 解码失败: " or "ICO 解码失败: ", an encoding error "PNG 编码失败: "); PSD as
/// its RGBA8 flattening; the HDR and document routes need native components absent
/// here. The result is (width, height, PNG bytes).
pub fn temp_png_of(route: Decoder, bytes: &[u8]) -> (r: Result<(u32, u32, Vec<u8>), String>)
    ensures
        (route == Decoder::Tiff || route == Decoder::Ico) ==> {
            &&& r is Ok <==> png_reencoding(bytes@) is Ok
            &&& r matches Ok((w, h, b)) ==> (png_reencoding(bytes@) matches Ok((pw, ph, pb)) && pw == w && ph == h && pb == b@)
            &&& (png_reencoding(bytes@) matches Err(pd) && !pd) ==> (r matches Err(m) && starts_with(m@, "PNG 编码失败: "@))
        },
        route == Decoder::Tiff && (png_reencoding(bytes@) matches Err(pd) && pd)
            ==> (r matches Err(m) && starts_with(m@, "TIFF 解码失败: "@)),
        route == Decoder::Ico && (png_reencoding(bytes@) matches Err(pd) && pd)
            ==> (r matches Err(m) && starts_with(m@, "ICO 解码失败: "@)),
        route == Decoder::Psd ==> match psd_decoded(bytes@) {
            None => r is Err,
            Some((w, h, px)) => {
                &&& r is Ok <==> png_encoded(w, h, px.take(4 * w * h)) is Some
                &&& r matches Ok((rw, rh, b)) ==> rw == w && rh == h && png_encoded(w, h, px.take(4 * w * h)) == Some(b@)
            },
        },
        (route == Decoder::Exr || route == Decoder::PngHdr || route == Decoder::Jxr
            || route == Decoder::Jxl || route == Decoder::Pdf) ==> (r matches Err(m) && m@ == no_decoder_text()),
{
    match route {
        Decoder::Tiff | Decoder::Ico => match image_to_png(bytes) {
            Ok(x) => Ok(x),
            Err((true, e)) => {
                if route == Decoder::Tiff {
                    Err(prefixed("TIFF 解码失败: ", e))
                } else {
                    Err(prefixed("ICO 解码失败: ", e))
                }
            },
            Err((false, e)) => Err(prefixed("PNG 编码失败: ", e)),
        },
        Decoder::Psd => {
            let img = psd_raster(bytes)?;
            let png = encode_png(&img)?;
            Ok((img.width, img.height, png))
        },
        _ => {
            let m = String::from_str("此构建未包含该格式的解码器");
            Err(m)
        },
    }
}

} // verus!
