//! Browser-native formats: format and size from the leading bytes, without decoding.
//!
//! PNG (IHDR), JPEG (SOF segment), GIF (logical screen + block walk for the frame
//! count), BMP (DIB header), WebP (VP8/VP8L/VP8X chunk), AVIF (ftyp brand only; its
//! size is left to the front end). PSD and ICO header sizes for directory listings.

use vstd::prelude::*;
use crate::bytes::{be16, be32, le16, le24, le32, tag_at, spec_be16, spec_be32, spec_le16, spec_le24, spec_le32, spec_tag_at};

verus! {

/// Result of probing a native format.
pub struct NativeInfo {
    /// Normalised format name: png / jpeg / gif / bmp / webp / avif.
    pub format: String,
    /// Width in pixels; 0 when it cannot be read.
    pub width: u32,
    /// Height in pixels; 0 when it cannot be read.
    pub height: u32,
    /// Frame count (GIF image descriptors; 1 for every other format).
    pub frame_count: u32,
}

/// PNG signature.
pub open spec fn png_sig() -> Seq<u8> {
    seq![0x89u8, 0x50, 0x4E, 0x47, 0x0D, 0x0A, 0x1A, 0x0A]
}

/// PNG size from the IHDR chunk.
pub open spec fn spec_probe_png(h: Seq<u8>) -> Option<(u32, u32)> {
    if h.len() >= 24 && spec_tag_at(h, 0, png_sig()) && spec_tag_at(h, 12, seq![0x49u8, 0x48, 0x44, 0x52]) {
        Some((spec_be32(h, 16) as u32, spec_be32(h, 20) as u32))
    } else {
        None
    }
}

/// PNG: signature + IHDR (width and height big-endian at offsets 16 and 20).
pub fn probe_png(h: &[u8]) -> (r: Option<(u32, u32)>)
    ensures
        r == spec_probe_png(h@),
{
    if h.len() < 24 || !tag_at(h, 0, &[0x89u8, 0x50, 0x4E, 0x47, 0x0D, 0x0A, 0x1A, 0x0A])
        || !tag_at(h, 12, &[0x49u8, 0x48, 0x44, 0x52]) {
        assert(h@.len() >= 24 ==> ([0x89u8, 0x50, 0x4E, 0x47, 0x0D, 0x0A, 0x1A, 0x0A]@ =~= png_sig()));
        assert([0x49u8, 0x48, 0x44, 0x52]@ =~= seq![0x49u8, 0x48, 0x44, 0x52]);
        return None;
    }
    assert([0x89u8, 0x50, 0x4E, 0x47, 0x0D, 0x0A, 0x1A, 0x0A]@ =~= png_sig());
    assert([0x49u8, 0x48, 0x44, 0x52]@ =~= seq![0x49u8, 0x48, 0x44, 0x52]);
    Some((be32(h, 16), be32(h, 20)))
}

/// Markers of SOF segments carrying the frame size (C0..CF except C4, C8, CC).
pub open spec fn is_sof_marker(m: u8) -> bool {
    0xC0 <= m <= 0xCF && m != 0xC4 && m != 0xC8 && m != 0xCC
}

/// JPEG segment walk from offset `i` up to the first SOF (size) or SOS (stop).
pub open spec fn sof_from(h: Seq<u8>, i: int) -> Option<(u32, u32)>
    decreases if i < h.len() { h.len() - i } else { 0 },
{
    if i < 0 || i + 9 >= h.len() {
        None
    } else if h[i] != 0xFF {
        sof_from(h, i + 1)
    } else if h[i + 1] == 0xFF {
        sof_from(h, i + 1)
    } else if h[i + 1] == 0xD8 || h[i + 1] == 0x01 || (0xD0 <= h[i + 1] <= 0xD7) {
        sof_from(h, i + 2)
    } else if h[i + 1] == 0xDA {
        None
    } else if is_sof_marker(h[i + 1]) {
        Some((spec_be16(h, i + 7) as u32, spec_be16(h, i + 5) as u32))
    } else {
        sof_from(h, i + 2 + spec_be16(h, i + 2))
    }
}

/// Scans JPEG segments (after SOI) for the first SOF0..SOF15 segment and returns its
/// (width, height); stops at SOS, whose data is entropy coded.
pub fn scan_jpeg_sof(h: &[u8]) -> (r: Option<(u32, u32)>)
    requires
        h@.len() <= isize::MAX,
    ensures
        r == sof_from(h@, 2),
{
    let mut i: usize = 2;
    while i + 9 < h.len()
        invariant
            2 <= i <= h@.len() + 65540,
            h@.len() <= isize::MAX,
            sof_from(h@, 2) == sof_from(h@, i as int),
        decreases h@.len() + 65540 - i,
    {
        if h[i] != 0xFF {
            i = i + 1;
            continue;
        }
        let marker = h[i + 1];
        if marker == 0xFF {
            i = i + 1;
            continue;
        }
        if marker == 0xD8 || marker == 0x01 || (0xD0 <= marker && marker <= 0xD7) {
            i = i + 2;
            continue;
        }
        if marker == 0xDA {
            return None;
        }
        let seg_len = be16(h, i + 2) as usize;
        if 0xC0 <= marker && marker <= 0xCF && marker != 0xC4 && marker != 0xC8 && marker != 0xCC {
            return Some((be16(h, i + 7), be16(h, i + 5)));
        }
        i = i + 2 + seg_len;
    }
    None
}

/// Spec of the JPEG header check: the SOI marker starts the data.
pub open spec fn is_jpeg_header(h: Seq<u8>) -> bool {
    h.len() >= 4 && h[0] == 0xFF && h[1] == 0xD8
}

/// The bytes "GIF87a".
pub open spec fn gif87a() -> Seq<u8> {
    seq![0x47u8, 0x49, 0x46, 0x38, 0x37, 0x61]
}

/// The bytes "GIF89a".
pub open spec fn gif89a() -> Seq<u8> {
    seq![0x47u8, 0x49, 0x46, 0x38, 0x39, 0x61]
}

/// GIF size (little-endian width/height at offsets 6 and 8) after "GIF87a"/"GIF89a".
pub open spec fn spec_gif_header(h: Seq<u8>) -> Option<(u32, u32)> {
    if h.len() >= 10 && (spec_tag_at(h, 0, gif87a()) || spec_tag_at(h, 0, gif89a())) {
        Some((spec_le16(h, 6) as u32, spec_le16(h, 8) as u32))
    } else {
        None
    }
}

/// GIF: GIF87a/GIF89a + logical screen descriptor.
pub fn probe_gif_header(h: &[u8]) -> (r: Option<(u32, u32)>)
    ensures
        r == spec_gif_header(h@),
{
    let a = [0x47u8, 0x49, 0x46, 0x38, 0x37, 0x61];
    let b = [0x47u8, 0x49, 0x46, 0x38, 0x39, 0x61];
    assert(a@ =~= gif87a());
    assert(b@ =~= gif89a());
    if h.len() < 10 || (!tag_at(h, 0, &a) && !tag_at(h, 0, &b)) {
        return None;
    }
    Some((le16(h, 6), le16(h, 8)))
}

/// Offset after a chain of GIF sub-blocks starting at `i` (each sub-block is a length
/// byte and that many bytes; a zero length ends the chain), clamped to the data.
pub open spec fn sub_blocks_end(d: Seq<u8>, i: int) -> int
    decreases if i < d.len() { d.len() - i } else { 0 },
{
    if i < 0 || i >= d.len() {
        if i < d.len() { i } else { d.len() as int }
    } else if d[i] == 0 {
        i + 1
    } else {
        sub_blocks_end(d, i + 1 + d[i])
    }
}

/// Skips a chain of GIF sub-blocks and returns the new offset (at most the data length).
pub fn skip_sub_blocks(data: &[u8], start: usize) -> (r: usize)
    requires
        data@.len() <= isize::MAX,
        start <= data@.len() + 1024,
    ensures
        r == sub_blocks_end(data@, start as int),
        r <= data@.len(),
        start <= data@.len() ==> start <= r,
{
    let ghost i0 = start;
    let mut i = start;
    while i < data.len()
        invariant
            i <= data@.len() + 1024,
            i0 == start,
            i0 <= data@.len() ==> i0 <= i,
            data@.len() <= isize::MAX,
            sub_blocks_end(data@, i as int) == sub_blocks_end(data@, i0 as int),
        decreases data@.len() + 1024 - i,
    {
        let len = data[i] as usize;
        assert(sub_blocks_end(data@, i as int) == if data@[i as int] == 0 { i + 1 } else {
            sub_blocks_end(data@, i + 1 + data@[i as int]) });
        i = i + 1;
        if len == 0 {
            return i;
        }
        i = i + len;
    }
    if i < data.len() { i } else { data.len() }
}

/// Bytes of a GIF colour table announced by a packed field (`3 × 2^(n+1)` when bit 7
/// is set, else none).
pub open spec fn color_table_len(packed: u8) -> int {
    if packed < 0x80 { 0 }
    else if packed % 8 == 0 { 6 }
    else if packed % 8 == 1 { 12 }
    else if packed % 8 == 2 { 24 }
    else if packed % 8 == 3 { 48 }
    else if packed % 8 == 4 { 96 }
    else if packed % 8 == 5 { 192 }
    else if packed % 8 == 6 { 384 }
    else { 768 }
}

fn color_table_bytes(packed: u8) -> (r: usize)
    ensures
        r == color_table_len(packed),
        r <= 768,
{
    if packed < 0x80 {
        return 0;
    }
    let n = packed % 8;
    if n == 0 { 6 }
    else if n == 1 { 12 }
    else if n == 2 { 24 }
    else if n == 3 { 48 }
    else if n == 4 { 96 }
    else if n == 5 { 192 }
    else if n == 6 { 384 }
    else { 768 }
}

/// Bounds of the offset after a sub-block chain.
pub proof fn lemma_sub_blocks_end_ge(d: Seq<u8>, i: int)
    ensures
        sub_blocks_end(d, i) >= if i < d.len() { i } else { d.len() as int },
        sub_blocks_end(d, i) <= d.len() || i > d.len(),
        i <= d.len() ==> sub_blocks_end(d, i) <= d.len(),
    decreases if i < d.len() { d.len() - i } else { 0 },
{
    if 0 <= i < d.len() && d[i] != 0 {
        lemma_sub_blocks_end_ge(d, i + 1 + d[i]);
    }
}

/// Frames counted by the GIF block walk from offset `i` (`frames` so far): extension
/// blocks are skipped, image descriptors counted, the trailer or any other byte stops.
pub open spec fn gif_walk(d: Seq<u8>, i: int, frames: nat) -> nat
    decreases if i < d.len() { d.len() - i } else { 0 },
{
    if i < 0 || i >= d.len() {
        frames
    } else if d[i] == 0x21 {
        proof { lemma_sub_blocks_end_ge(d, i + 2); }
        gif_walk(d, sub_blocks_end(d, i + 2), frames)
    } else if d[i] == 0x2C {
        if i + 10 > d.len() {
            frames + 1
        } else {
            let j = i + 10 + color_table_len(d[i + 9]) + 1;
            proof { lemma_sub_blocks_end_ge(d, j); }
            gif_walk(d, sub_blocks_end(d, j), frames + 1)
        }
    } else {
        frames
    }
}

/// GIF frame count: image descriptors after the header, logical screen descriptor
/// and global colour table; at least 1.
pub open spec fn gif_frames(d: Seq<u8>) -> nat {
    if d.len() < 13 {
        1
    } else {
        let n = gif_walk(d, 13 + color_table_len(d[10]), 0);
        if n >= 1 { n } else { 1 }
    }
}

proof fn lemma_gif_walk_ge(d: Seq<u8>, i: int, frames: nat)
    ensures
        gif_walk(d, i, frames) >= frames,
    decreases if i < d.len() { d.len() - i } else { 0 },
{
    if 0 <= i < d.len() {
        if d[i] == 0x21 {
            lemma_sub_blocks_end_ge(d, i + 2);
            lemma_gif_walk_ge(d, sub_blocks_end(d, i + 2), frames);
        } else if d[i] == 0x2C && i + 10 <= d.len() {
            let j = i + 10 + color_table_len(d[i + 9]) + 1;
            lemma_sub_blocks_end_ge(d, j);
            lemma_gif_walk_ge(d, sub_blocks_end(d, j), frames + 1);
        }
    }
}

/// The frame count as a `u32`, saturating (a count past `u32::MAX` would need a file
/// of tens of gigabytes).
pub open spec fn gif_frames_u32(d: Seq<u8>) -> u32 {
    if gif_frames(d) <= u32::MAX { gif_frames(d) as u32 } else { u32::MAX }
}

fn saturate(n: u64) -> (r: u32)
    ensures
        r == (if n <= u32::MAX { n as u32 } else { u32::MAX }),
{
    if n <= 0xffff_ffff { n as u32 } else { 0xffff_ffff }
}

/// GIF frame count: walks the data blocks counting image descriptors (0x2C).
pub fn gif_frame_count(data: &[u8]) -> (r: u32)
    requires
        data@.len() <= isize::MAX,
    ensures
        r == gif_frames_u32(data@),
{
    if data.len() < 13 {
        return 1;
    }
    let mut i: usize = 13;
    let mut frames: u64 = 0;
    i = i + color_table_bytes(data[10]);
    let ghost total = gif_walk(data@, i as int, 0);
    proof { lemma_gif_walk_ge(data@, i as int, 0); }
    while i < data.len()
        invariant
            data@.len() <= isize::MAX,
            i <= data@.len() + 1024,
            frames <= i,
            gif_walk(data@, i as int, frames as nat) == total,
            total == gif_walk(data@, 13 + color_table_len(data@[10]), 0),
            gif_frames(data@) == if total >= 1 { total } else { 1 },
        decreases data@.len() - i,
    {
        if data[i] == 0x21 {
            proof { lemma_sub_blocks_end_ge(data@, i + 2); }
            i = skip_sub_blocks(data, i + 2);
        } else if data[i] == 0x2C {
            frames = frames + 1;
            if i + 10 > data.len() {
                return saturate(frames);
            }
            let lp = data[i + 9];
            i = i + 10;
            i = i + color_table_bytes(lp);
            i = i + 1;
            proof { lemma_sub_blocks_end_ge(data@, i as int); }
            i = skip_sub_blocks(data, i);
        } else {
            return if frames >= 1 { saturate(frames) } else { 1 };
        }
    }
    if frames >= 1 { saturate(frames) } else { 1 }
}

/// Absolute value of a little-endian 32-bit field read as a signed integer
/// (`(v as i32).unsigned_abs()`).
pub open spec fn signed_abs32(v: int) -> int {
    if v < 0x8000_0000 { v } else { 0x1_0000_0000 - v }
}

/// BMP size from the DIB header.
pub open spec fn spec_probe_bmp(h: Seq<u8>) -> Option<(u32, u32)> {
    if h.len() >= 26 && h[0] == 0x42 && h[1] == 0x4D {
        Some((signed_abs32(spec_le32(h, 18)) as u32, signed_abs32(spec_le32(h, 22)) as u32))
    } else {
        None
    }
}

fn abs32(v: u32) -> (r: u32)
    ensures
        r == signed_abs32(v as int),
{
    if v < 0x8000_0000 { v } else { u32::MAX - v + 1 }
}

/// BMP: "BM" + DIB header (width/height little-endian at 18/22; negative = bottom-up,
/// the absolute value is taken).
pub fn probe_bmp(h: &[u8]) -> (r: Option<(u32, u32)>)
    ensures
        r == spec_probe_bmp(h@),
{
    if h.len() < 26 || h[0] != 0x42 || h[1] != 0x4D {
        return None;
    }
    Some((abs32(le32(h, 18)), abs32(le32(h, 22))))
}

/// The four bytes of an ASCII tag.
pub open spec fn tag4(a: u8, b: u8, c: u8, d: u8) -> Seq<u8> {
    seq![a, b, c, d]
}

/// WebP size from the first chunk (VP8X canvas, VP8L bit fields, VP8 frame header);
/// (0, 0) for a short or unknown chunk.
pub open spec fn spec_probe_webp(h: Seq<u8>) -> Option<(u32, u32)> {
    if h.len() >= 16 && spec_tag_at(h, 0, tag4(0x52, 0x49, 0x46, 0x46)) && spec_tag_at(h, 8, tag4(0x57, 0x45, 0x42, 0x50)) {
        if spec_tag_at(h, 12, tag4(0x56, 0x50, 0x38, 0x58)) {
            if h.len() >= 26 {
                Some(((spec_le24(h, 20) + 1) as u32, (spec_le24(h, 23) + 1) as u32))
            } else {
                Some((0, 0))
            }
        } else if spec_tag_at(h, 12, tag4(0x56, 0x50, 0x38, 0x4C)) {
            if h.len() >= 21 {
                let bits = spec_le32(h, 17);
                Some(((bits % 16384 + 1) as u32, ((bits / 16384) % 16384 + 1) as u32))
            } else {
                Some((0, 0))
            }
        } else if spec_tag_at(h, 12, tag4(0x56, 0x50, 0x38, 0x20)) {
            if h.len() >= 22 {
                Some(((spec_le16(h, 18) % 16384) as u32, (spec_le16(h, 20) % 16384) as u32))
            } else {
                Some((0, 0))
            }
        } else {
            Some((0, 0))
        }
    } else {
        None
    }
}

/// WebP: RIFF....WEBP + VP8X (extended) / VP8L (lossless) / VP8 (lossy) chunk.
pub fn probe_webp(h: &[u8]) -> (r: Option<(u32, u32)>)
    ensures
        r == spec_probe_webp(h@),
{
    let riff = [0x52u8, 0x49, 0x46, 0x46];
    let webp = [0x57u8, 0x45, 0x42, 0x50];
    let vp8x = [0x56u8, 0x50, 0x38, 0x58];
    let vp8l = [0x56u8, 0x50, 0x38, 0x4C];
    let vp8 = [0x56u8, 0x50, 0x38, 0x20];
    assert(riff@ =~= tag4(0x52, 0x49, 0x46, 0x46));
    assert(webp@ =~= tag4(0x57, 0x45, 0x42, 0x50));
    assert(vp8x@ =~= tag4(0x56, 0x50, 0x38, 0x58));
    assert(vp8l@ =~= tag4(0x56, 0x50, 0x38, 0x4C));
    assert(vp8@ =~= tag4(0x56, 0x50, 0x38, 0x20));
    if h.len() < 16 || !tag_at(h, 0, &riff) || !tag_at(h, 8, &webp) {
        return None;
    }
    if tag_at(h, 12, &vp8x) {
        if h.len() >= 26 {
            Some((le24(h, 20) + 1, le24(h, 23) + 1))
        } else {
            Some((0, 0))
        }
    } else if tag_at(h, 12, &vp8l) {
        if h.len() >= 21 {
            let bits = le32(h, 17);
            Some((bits % 16384 + 1, (bits / 16384) % 16384 + 1))
        } else {
            Some((0, 0))
        }
    } else if tag_at(h, 12, &vp8) {
        if h.len() >= 22 {
            Some((le16(h, 18) % 16384, le16(h, 20) % 16384))
        } else {
            Some((0, 0))
        }
    } else {
        Some((0, 0))
    }
}

/// An AVIF brand ("avif" or "avis") at offset `off`.
pub open spec fn avif_brand_at(h: Seq<u8>, off: int) -> bool {
    spec_tag_at(h, off, tag4(0x61, 0x76, 0x69, 0x66)) || spec_tag_at(h, off, tag4(0x61, 0x76, 0x69, 0x73))
}

/// The `k`-th complete compatible brand (from offset 16) is avif/avis.
pub open spec fn compat_brand_is_avif(h: Seq<u8>, k: int) -> bool {
    0 <= k && 16 + 4 * k + 4 <= h.len() && avif_brand_at(h, 16 + 4 * k)
}

/// AVIF: ISO BMFF "ftyp" box at offset 4 whose major brand, or one of the complete
/// 4-byte compatible brands from offset 16 on, is avif/avis.
pub open spec fn spec_probe_avif(h: Seq<u8>) -> bool {
    &&& h.len() >= 12
    &&& spec_tag_at(h, 4, tag4(0x66, 0x74, 0x79, 0x70))
    &&& (avif_brand_at(h, 8) || (h.len() >= 16 && exists|k: int| #[trigger] compat_brand_is_avif(h, k)))
}

/// AVIF detection (its size is not parsed; the front end reads it from the image).
pub fn probe_avif(h: &[u8]) -> (r: bool)
    requires
        h@.len() <= isize::MAX,
    ensures
        r == spec_probe_avif(h@),
{
    let ftyp = [0x66u8, 0x74, 0x79, 0x70];
    let avif = [0x61u8, 0x76, 0x69, 0x66];
    let avis = [0x61u8, 0x76, 0x69, 0x73];
    assert(ftyp@ =~= tag4(0x66, 0x74, 0x79, 0x70));
    assert(avif@ =~= tag4(0x61, 0x76, 0x69, 0x66));
    assert(avis@ =~= tag4(0x61, 0x76, 0x69, 0x73));
    if h.len() < 12 || !tag_at(h, 4, &ftyp) {
        return false;
    }
    if tag_at(h, 8, &avif) || tag_at(h, 8, &avis) {
        return true;
    }
    if h.len() < 16 {
        return false;
    }
    let mut off: usize = 16;
    let ghost mut slot: int = 0;
    while off + 4 <= h.len()
        invariant
            16 <= off <= h@.len() + 4,
            off == 16 + 4 * slot,
            16 <= h@.len() <= isize::MAX,
            spec_tag_at(h@, 4, tag4(0x66, 0x74, 0x79, 0x70)),
            avif@ == tag4(0x61, 0x76, 0x69, 0x66),
            avis@ == tag4(0x61, 0x76, 0x69, 0x73),
            forall|k: int| 16 + 4 * k < off ==> !#[trigger] compat_brand_is_avif(h@, k),
        decreases h@.len() + 4 - off,
    {
        if tag_at(h, off, &avif) || tag_at(h, off, &avis) {
            assert(compat_brand_is_avif(h@, slot));
            return true;
        }
        off = off + 4;
        proof {
            slot = slot + 1;
        }
    }
    proof {
        assert forall|k: int| !compat_brand_is_avif(h@, k) by {
            if 0 <= k && 16 + 4 * k + 4 <= h@.len() {
                assert(16 + 4 * k < off);
            }
        }
    }
    false
}

/// PSD size from the header.
pub open spec fn spec_probe_psd(h: Seq<u8>) -> Option<(u32, u32)> {
    if h.len() >= 26 && spec_tag_at(h, 0, tag4(0x38, 0x42, 0x50, 0x53)) {
        Some((spec_be32(h, 18) as u32, spec_be32(h, 14) as u32))
    } else {
        None
    }
}

/// PSD header size ("8BPS" + version + reserved + channels + height + width).
pub fn probe_psd_dimensions(h: &[u8]) -> (r: Option<(u32, u32)>)
    ensures
        r == spec_probe_psd(h@),
{
    let sig = [0x38u8, 0x42, 0x50, 0x53];
    assert(sig@ =~= tag4(0x38, 0x42, 0x50, 0x53));
    if h.len() < 26 || !tag_at(h, 0, &sig) {
        return None;
    }
    Some((be32(h, 18), be32(h, 14)))
}

/// ICO size of the first directory entry (0 stands for 256).
pub open spec fn spec_probe_ico(h: Seq<u8>) -> Option<(u32, u32)> {
    if h.len() >= 10 && h[0] == 0 && h[1] == 0 && h[2] == 1 && h[3] == 0 {
        Some((if h[6] == 0 { 256u32 } else { h[6] as u32 }, if h[7] == 0 { 256u32 } else { h[7] as u32 }))
    } else {
        None
    }
}

/// ICO header size (00 00 01 00 + count + entry width/height bytes, 0 = 256).
pub fn probe_ico_dimensions(h: &[u8]) -> (r: Option<(u32, u32)>)
    ensures
        r == spec_probe_ico(h@),
{
    if h.len() < 10 || h[0] != 0 || h[1] != 0 || h[2] != 1 || h[3] != 0 {
        return None;
    }
    let w = if h[6] == 0 { 256 } else { h[6] as u32 };
    let hh = if h[7] == 0 { 256 } else { h[7] as u32 };
    Some((w, hh))
}

/// What a probe of the leading bytes decides.
pub enum ProbeStep {
    /// The format and size are known.
    Found(NativeInfo),
    /// JPEG whose SOF is not in the header: rescan larger windows of the file.
    JpegRescan,
    /// GIF of this size: its frames are counted over the whole file.
    GifFrames(u32, u32),
    /// Not a recognised native format.
    Unknown,
}

/// Abstract probe outcome.
pub enum ProbeOutcome {
    Found { format: Seq<char>, width: u32, height: u32, frame_count: u32 },
    JpegRescan,
    GifFrames(u32, u32),
    Unknown,
}

impl ProbeStep {
    /// Abstract value.
    pub open spec fn outcome(&self) -> ProbeOutcome {
        match self {
            ProbeStep::Found(i) => ProbeOutcome::Found {
                format: i.format@,
                width: i.width,
                height: i.height,
                frame_count: i.frame_count,
            },
            ProbeStep::JpegRescan => ProbeOutcome::JpegRescan,
            ProbeStep::GifFrames(w, h) => ProbeOutcome::GifFrames(*w, *h),
            ProbeStep::Unknown => ProbeOutcome::Unknown,
        }
    }
}

/// The decision on a header, checked in the order PNG, JPEG, GIF, BMP, WebP, AVIF.
pub open spec fn spec_probe_header(h: Seq<u8>) -> ProbeOutcome {
    if let Some((w, hh)) = spec_probe_png(h) {
        ProbeOutcome::Found { format: "png"@, width: w, height: hh, frame_count: 1 }
    } else if is_jpeg_header(h) {
        match sof_from(h, 2) {
            Some((w, hh)) => ProbeOutcome::Found { format: "jpeg"@, width: w, height: hh, frame_count: 1 },
            None => ProbeOutcome::JpegRescan,
        }
    } else if let Some((w, hh)) = spec_gif_header(h) {
        ProbeOutcome::GifFrames(w, hh)
    } else if let Some((w, hh)) = spec_probe_bmp(h) {
        ProbeOutcome::Found { format: "bmp"@, width: w, height: hh, frame_count: 1 }
    } else if let Some((w, hh)) = spec_probe_webp(h) {
        ProbeOutcome::Found { format: "webp"@, width: w, height: hh, frame_count: 1 }
    } else if spec_probe_avif(h) {
        ProbeOutcome::Found { format: "avif"@, width: 0, height: 0, frame_count: 1 }
    } else {
        ProbeOutcome::Unknown
    }
}

/// Builds a probe result.
pub fn native_info(format: &str, width: u32, height: u32, frame_count: u32) -> (r: NativeInfo)
    ensures
        r.format@ == format@,
        r.width == width,
        r.height == height,
        r.frame_count == frame_count,
{
    NativeInfo { format: String::from_str(format), width, height, frame_count }
}

/// Decides the format from the leading bytes of a file.
pub fn probe_header(h: &[u8]) -> (r: ProbeStep)
    requires
        h@.len() <= isize::MAX,
    ensures
        r.outcome() == spec_probe_header(h@),
{
    if let Some((w, hh)) = probe_png(h) {
        return ProbeStep::Found(native_info("png", w, hh, 1));
    }
    if h.len() >= 4 && h[0] == 0xFF && h[1] == 0xD8 {
        return match scan_jpeg_sof(h) {
            Some((w, hh)) => ProbeStep::Found(native_info("jpeg", w, hh, 1)),
            None => ProbeStep::JpegRescan,
        };
    }
    if let Some((w, hh)) = probe_gif_header(h) {
        return ProbeStep::GifFrames(w, hh);
    }
    if let Some((w, hh)) = probe_bmp(h) {
        return ProbeStep::Found(native_info("bmp", w, hh, 1));
    }
    if let Some((w, hh)) = probe_webp(h) {
        return ProbeStep::Found(native_info("webp", w, hh, 1));
    }
    if probe_avif(h) {
        return ProbeStep::Found(native_info("avif", 0, 0, 1));
    }
    ProbeStep::Unknown
}

/// Windows (bytes) re-read when the JPEG header holds no SOF, in order.
pub const JPEG_RESCAN_WINDOWS: [usize; 2] = [256, 1024];

/// Result for a JPEG whose size came from a rescan (`(0, 0)` when none found one).
pub fn jpeg_info(dims: Option<(u32, u32)>) -> (r: NativeInfo)
    ensures
        r.format@ == "jpeg"@,
        r.frame_count == 1,
        dims matches Some((w, h)) ==> r.width == w && r.height == h,
        dims is None ==> r.width == 0 && r.height == 0,
{
    match dims {
        Some((w, h)) => native_info("jpeg", w, h, 1),
        None => native_info("jpeg", 0, 0, 1),
    }
}

/// Result for a GIF with its counted frames.
pub fn gif_info(width: u32, height: u32, data: &[u8]) -> (r: NativeInfo)
    requires
        data@.len() <= isize::MAX,
    ensures
        r.format@ == "gif"@,
        r.width == width,
        r.height == height,
        r.frame_count == gif_frames_u32(data@),
{
    native_info("gif", width, height, gif_frame_count(data))
}


/// What a JPEG rescan does next: read the first `n` bytes of the file, or answer.
pub enum RescanStep {
    Read(usize),
    Done(NativeInfo),
}

/// One step of the JPEG rescan: after window `i` of `JPEG_RESCAN_WINDOWS` was read
/// (`None` when reading it failed), the size of its first SOF answers; otherwise the
/// next window is read, and after the last one the answer is a JPEG of unknown size.
pub fn jpeg_rescan_step(i: usize, window: Option<&[u8]>) -> (r: RescanStep)
    requires
        i < 2,
        window matches Some(w) ==> w@.len() <= isize::MAX,
    ensures
        ({
            let found = match window { Some(w) => sof_from(w@, 2), None => None };
            match found {
                Some((w, h)) => r matches RescanStep::Done(info)
                    && info.format@ == "jpeg"@ && info.width == w && info.height == h && info.frame_count == 1,
                None => if i == 0 {
                    r matches RescanStep::Read(n) && n == 1024
                } else {
                    r matches RescanStep::Done(info)
                        && info.format@ == "jpeg"@ && info.width == 0 && info.height == 0 && info.frame_count == 1
                },
            }
        }),
{
    let found = match window {
        Some(w) => scan_jpeg_sof(w),
        None => None,
    };
    match found {
        Some(d) => RescanStep::Done(jpeg_info(Some(d))),
        None => if i == 0 {
            RescanStep::Read(JPEG_RESCAN_WINDOWS[1])
        } else {
            RescanStep::Done(jpeg_info(None))
        },
    }
}

/// The answer of a probe that recognises no native format.
pub fn unknown_format_error() -> (r: String)
    ensures
        r@ == "无法识别的图片格式"@,
{
    String::from_str("无法识别的图片格式")
}

/// A JPEG whose first segment after SOI is a start-of-frame segment (SOF0 to SOF15:
/// marker FF C0 to FF CF, except C4, C8 and CC, which are DHT, JPG and DAC) gives its
/// frame size: width from bytes 9 and 10, height from bytes 7 and 8 (big-endian), whatever
/// the kind of frame (baseline, progressive, lossless, arithmetic); the header probe
/// reports that size.
pub proof fn law_sof_first_segment(h: Seq<u8>)
    requires
        h.len() >= 12,
        h[0] == 0xFF,
        h[1] == 0xD8,
        h[2] == 0xFF,
        0xC0 <= h[3] <= 0xCF,
        h[3] != 0xC4,
        h[3] != 0xC8,
        h[3] != 0xCC,
    ensures
        sof_from(h, 2) == Some(((h[9] * 256 + h[10]) as u32, (h[7] * 256 + h[8]) as u32)),
        spec_probe_header(h) == (ProbeOutcome::Found {
            format: "jpeg"@,
            width: (h[9] * 256 + h[10]) as u32,
            height: (h[7] * 256 + h[8]) as u32,
            frame_count: 1,
        }),
{
    assert(h.subrange(0, 8)[0] == h[0]);
    assert(!spec_tag_at(h, 0, png_sig()));
}

/// A PNG header (the 8-byte signature, then an IHDR chunk) gives a PNG of the size in
/// IHDR: width big-endian at bytes 16..20, height at 20..24.
pub proof fn law_png_header(h: Seq<u8>)
    requires
        h.len() >= 24,
        h[0] == 0x89 && h[1] == 0x50 && h[2] == 0x4E && h[3] == 0x47,
        h[4] == 0x0D && h[5] == 0x0A && h[6] == 0x1A && h[7] == 0x0A,
        h[12] == 0x49 && h[13] == 0x48 && h[14] == 0x44 && h[15] == 0x52,
    ensures
        spec_probe_header(h) == (ProbeOutcome::Found {
            format: "png"@,
            width: (h[16] * 16777216 + h[17] * 65536 + h[18] * 256 + h[19]) as u32,
            height: (h[20] * 16777216 + h[21] * 65536 + h[22] * 256 + h[23]) as u32,
            frame_count: 1,
        }),
{
    assert(h.subrange(0, 8) =~= png_sig());
    assert(h.subrange(12, 16) =~= seq![0x49u8, 0x48, 0x44, 0x52]);
}

/// A GIF header ("GIF87a" or "GIF89a") gives a GIF whose frames are still to be counted,
/// of the logical screen size: width little-endian at bytes 6..8, height at 8..10.
pub proof fn law_gif_header(h: Seq<u8>)
    requires
        h.len() >= 10,
        h[0] == 0x47 && h[1] == 0x49 && h[2] == 0x46 && h[3] == 0x38,
        h[4] == 0x37 || h[4] == 0x39,
        h[5] == 0x61,
    ensures
        spec_probe_header(h) == ProbeOutcome::GifFrames((h[7] * 256 + h[6]) as u32, (h[9] * 256 + h[8]) as u32),
{
    assert(h.subrange(0, 8)[0] == h[0]);
    assert(!spec_tag_at(h, 0, png_sig()));
    if h[4] == 0x37 {
        assert(h.subrange(0, 6) =~= gif87a());
    } else {
        assert(h.subrange(0, 6) =~= gif89a());
    }
}

/// A BMP header ("BM") gives a BMP whose size is the magnitude of the signed 32-bit
/// little-endian width at byte 18 and height at byte 22 (a negative height marks a
/// top-down bitmap).
pub proof fn law_bmp_header(h: Seq<u8>)
    requires
        h.len() >= 26,
        h[0] == 0x42,
        h[1] == 0x4D,
    ensures
        ({
            let w = h[21] * 16777216 + h[20] * 65536 + h[19] * 256 + h[18];
            let hh = h[25] * 16777216 + h[24] * 65536 + h[23] * 256 + h[22];
            spec_probe_header(h) == (ProbeOutcome::Found {
                format: "bmp"@,
                width: (if w < 0x8000_0000 { w } else { 0x1_0000_0000 - w }) as u32,
                height: (if hh < 0x8000_0000 { hh } else { 0x1_0000_0000 - hh }) as u32,
                frame_count: 1,
            })
        }),
{
    assert(h.subrange(0, 8)[0] == h[0]);
    assert(!spec_tag_at(h, 0, png_sig()));
    assert(h.subrange(0, 6)[0] == h[0]);
    assert(!spec_tag_at(h, 0, gif87a()));
    assert(!spec_tag_at(h, 0, gif89a()));
}

} // verus!
