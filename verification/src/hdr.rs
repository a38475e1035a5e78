//! HDR sources and their least-recently-used cache.
//!
//! An HDR source is an image normalised to scRGB f16 (8 bytes per pixel, 1.0 = 80 nits).
//! Decoders of HDR formats put the source in the cache keyed by file path, so that a
//! brightness change re-runs only the tone mapping. The cache holds at most
//! `HDR_CACHE_MAX` sources; inserting into a full cache first drops the source used
//! longest ago. Results of the SDR→HDR conversion share the cache under `itm:<path>`.

use vstd::prelude::*;
use crate::decode::{ImageKind, spec_is_hdr_kind, is_hdr_kind, spec_sdr_gate, sdr_gate};
use crate::lru::{cache_wf, key_index, lookup, spec_cache, spec_take, CacheView, Duplicate, LruCache};
use crate::strs::{chars_of, string_from_chars};
use crate::text::{decimal, push_decimal, push_str};

verus! {

/// An HDR image: RGBA f16 (8 bytes per pixel), BT.709 primaries.
pub struct HdrSource {
    pub width: u32,
    pub height: u32,
    pub data: Vec<u8>,
}

/// Abstract HDR source.
pub struct HdrSourceView {
    pub width: u32,
    pub height: u32,
    pub data: Seq<u8>,
}

impl View for HdrSource {
    type V = HdrSourceView;

    open spec fn view(&self) -> HdrSourceView {
        HdrSourceView { width: self.width, height: self.height, data: self.data@ }
    }
}

impl Duplicate for HdrSource {
    fn duplicate(&self) -> (r: Self)
        ensures
            r@ == self@,
    {
        let data = self.data.clone();
        assert(data@ =~= self.data@);
        HdrSource { width: self.width, height: self.height, data }
    }
}

/// Pixel layouts of a captured texture.
#[derive(PartialEq, Eq, Structural, Clone, Copy, Debug)]
pub enum PixelFormat {
    /// Four f16 channels per pixel.
    R16g16b16a16Float,
}

/// A texture as the HDR-to-SDR pipeline takes it.
pub struct CapturedTexture {
    pub width: u32,
    pub height: u32,
    pub format: PixelFormat,
    pub data: Vec<u8>,
    pub row_pitch: usize,
    pub via_gdi: bool,
}

impl HdrSource {
    /// The texture handed to the tone-mapping pipeline (f16 RGBA, 8 bytes per pixel).
    pub fn to_texture(&self) -> (t: CapturedTexture)
        requires
            self.width * 8 <= usize::MAX,
        ensures
            t.width == self.width,
            t.height == self.height,
            t.format == PixelFormat::R16g16b16a16Float,
            t.data@ == self.data@,
            t.row_pitch == self.width * 8,
            !t.via_gdi,
    {
        let data = self.data.clone();
        assert(data@ =~= self.data@);
        CapturedTexture {
            width: self.width,
            height: self.height,
            format: PixelFormat::R16g16b16a16Float,
            data,
            row_pitch: self.width as usize * 8,
            via_gdi: false,
        }
    }
}

/// Half-precision encoding of the single-precision value with bit pattern `bits`:
/// NaN stays a quiet NaN, exponents past the half range give infinity, exponents below
/// it give a signed zero (no subnormals), otherwise the mantissa is truncated.
pub open spec fn half_of_bits(bits: u32) -> u16 {
    let sign: int = if bits >= 0x8000_0000 { 0x8000 } else { 0 };
    let e: int = (bits as int / 0x80_0000) % 256;
    let frac: int = bits as int % 0x80_0000;
    let exp: int = e - 112;
    if e == 255 && frac != 0 {
        (sign + 0x7E00) as u16
    } else if exp >= 31 {
        (sign + 0x7C00) as u16
    } else if exp <= 0 {
        sign as u16
    } else {
        (sign + exp * 1024 + frac / 0x2000) as u16
    }
}

/// f32 → f16 conversion on bit patterns (used when building scRGB f16 textures).
pub fn f32_bits_to_f16(bits: u32) -> (h: u16)
    ensures
        h == half_of_bits(bits),
{
    let s32: u32 = (bits >> 16) & 0x8000;
    assert(s32 <= 0x8000) by (bit_vector)
        requires
            s32 == (bits >> 16) & 0x8000,
    ;
    let sign: u16 = s32 as u16;
    let e: u32 = (bits >> 23) & 0xFF;
    let frac: u32 = bits & 0x007F_FFFF;
    let mant: u32 = frac >> 13;
    proof {
        assert(s32 == (if bits >= 0x8000_0000 { 0x8000u32 } else { 0u32 })) by (bit_vector)
            requires
                s32 == (bits >> 16) & 0x8000,
        ;
        assert(sign | 0x7E00 == sign + 0x7E00 && sign | 0x7C00 == sign + 0x7C00) by (bit_vector)
            requires
                sign == 0 || sign == 0x8000,
        ;
        assert(e == (bits / 0x80_0000) % 256) by (bit_vector)
            requires
                e == (bits >> 23) & 0xFF,
        ;
        assert(frac == bits % 0x80_0000) by (bit_vector)
            requires
                frac == bits & 0x007F_FFFF,
        ;
        assert(mant == frac / 0x2000 && mant < 1024) by (bit_vector)
            requires
                mant == frac >> 13,
                frac == bits & 0x007F_FFFF,
        ;
    }
    if e == 255 && frac != 0 {
        return sign | 0x7E00;
    }
    if e >= 143 {
        return sign | 0x7C00;
    }
    if e <= 112 {
        return sign;
    }
    let exp: u16 = (e - 112) as u16;
    proof {
        assert((sign | (exp << 10)) | (mant as u16) == sign + exp * 1024 + mant) by (bit_vector)
            requires
                sign == 0 || sign == 0x8000,
                1 <= exp < 31,
                mant < 1024,
        ;
    }
    sign | (exp << 10) | (mant as u16)
}

/// Most sources the cache keeps (eight native HDR images plus converted results).
pub const HDR_CACHE_MAX: usize = 10;

/// LRU cache of HDR sources keyed by path.
pub type HdrCache = LruCache<HdrSource>;

impl LruCache<HdrSource> {
    /// An empty cache of `HDR_CACHE_MAX` sources.
    pub fn new() -> (c: Self)
        ensures
            c.view().entries.len() == 0,
            c.view().next_tick == 0,
            c.view().max == HDR_CACHE_MAX,
            cache_wf(c.view()),
    {
        LruCache::with_capacity(HDR_CACHE_MAX)
    }

    /// Stores `src` under `key`; a full cache first drops its least recently used source.
    pub fn cache_hdr_source(&mut self, key: &str, src: HdrSource)
        requires
            cache_wf(old(self).view()),
            old(self).view().max > 0,
            old(self).view().next_tick < u64::MAX,
        ensures
            cache_wf(final(self).view()),
            spec_cache(old(self).view(), key@, src@, final(self).view()),
    {
        self.insert(key, src)
    }

    /// The source cached under `key`, marking it as just used.
    pub fn take_hdr_source(&mut self, key: &str) -> (r: Option<HdrSource>)
        requires
            cache_wf(old(self).view()),
            old(self).view().next_tick < u64::MAX,
        ensures
            cache_wf(final(self).view()),
            spec_take(old(self).view(), key@, match r { Some(s) => Some(s@), None => None }, final(self).view()),
    {
        self.take(key)
    }
}

/// A decoded SDR image (RGBA8), input of the SDR→HDR conversion.
pub struct SdrDecode {
    pub w: u32,
    pub h: u32,
    pub rgba: Vec<u8>,
}

/// Abstract decoded image.
pub struct SdrDecodeView {
    pub w: u32,
    pub h: u32,
    pub rgba: Seq<u8>,
}

impl View for SdrDecode {
    type V = SdrDecodeView;

    open spec fn view(&self) -> SdrDecodeView {
        SdrDecodeView { w: self.w, h: self.h, rgba: self.rgba@ }
    }
}

impl Duplicate for SdrDecode {
    fn duplicate(&self) -> (r: Self)
        ensures
            r@ == self@,
    {
        let rgba = self.rgba.clone();
        assert(rgba@ =~= self.rgba@);
        SdrDecode { w: self.w, h: self.h, rgba }
    }
}

/// Decoded SDR images kept for repeated conversions (slider changes skip decoding).
pub const ITM_INPUT_MAX: usize = 4;

/// Whether an image of this category may be converted from SDR to HDR.
pub fn itm_gate(kind: ImageKind) -> (r: Result<(), String>)
    ensures
        r is Ok <==> spec_sdr_gate(kind),
        r matches Err(m) ==> m@ == "该格式已是 HDR 源或不受支持，无需 SDR→HDR"@,
{
    if sdr_gate(kind) {
        Ok(())
    } else {
        Err(String::from_str("该格式已是 HDR 源或不受支持，无需 SDR→HDR"))
    }
}

/// The refusal of an input size: below 32×32, or over 512 MiB as f16 RGBA.
pub open spec fn spec_itm_size_error(w: u32, h: u32) -> Option<Seq<char>> {
    if w < 32 || h < 32 {
        Some("图片过小（"@ + decimal(w as nat) + "×"@ + decimal(h as nat) + "），AI 模型要求至少 32×32"@)
    } else if w * h * 8 > 512 * 1024 * 1024 {
        Some("图片过大，暂不支持 SDR→HDR"@)
    } else {
        None
    }
}

/// Checks the size of an image before the conversion model runs.
pub fn check_itm_size(w: u32, h: u32) -> (r: Result<(), String>)
    ensures
        r is Ok <==> spec_itm_size_error(w, h) is None,
        r matches Err(m) ==> spec_itm_size_error(w, h) == Some(m@),
{
    if w < 32 || h < 32 {
        let mut s = String::from_str("图片过小（");
        push_decimal(&mut s, w as u64);
        push_str(&mut s, "×");
        push_decimal(&mut s, h as u64);
        push_str(&mut s, "），AI 模型要求至少 32×32");
        return Err(s);
    }
    assert((w as u64) * (h as u64) <= u64::MAX) by (nonlinear_arith)
        requires
            w <= u32::MAX,
            h <= u32::MAX,
    ;
    let area: u64 = (w as u64) * (h as u64);
    if area > 67108864 {
        assert(w * h * 8 > 512 * 1024 * 1024);
        return Err(String::from_str("图片过大，暂不支持 SDR→HDR"));
    }
    Ok(())
}

/// The prefix of the cache keys of SDR→HDR conversion results.
pub open spec fn itm_prefix() -> Seq<char> {
    seq!['i', 't', 'm', ':']
}

/// The cache key of the SDR→HDR result of `path`: `itm:<path>` (a real path never
/// starts with `itm:`).
pub fn itm_key(path: &str) -> (r: String)
    ensures
        r@ == itm_prefix() + path@,
{
    let mut s = String::new();
    s.push('i');
    s.push('t');
    s.push('m');
    s.push(':');
    push_str(&mut s, path);
    assert(s@ =~= itm_prefix() + path@);
    s
}

/// The source path of an `itm:` key.
pub open spec fn spec_parse_itm_key(key: Seq<char>) -> Option<Seq<char>> {
    if key.len() >= 4 && key.take(4) == itm_prefix() {
        Some(key.skip(4))
    } else {
        None
    }
}

/// The source path of an `itm:` key (`None` for any other key).
pub fn parse_itm_key(key: &str) -> (r: Option<String>)
    ensures
        r is Some <==> spec_parse_itm_key(key@) is Some,
        r matches Some(p) ==> spec_parse_itm_key(key@) == Some(p@),
{
    let cs = chars_of(key);
    let n = cs.len();
    if n >= 4 && cs[0] == 'i' && cs[1] == 't' && cs[2] == 'm' && cs[3] == ':' {
        assert(key@.take(4) =~= itm_prefix());
        let p = string_from_chars(&cs, 4, n);
        assert(p@ =~= key@.skip(4));
        Some(p)
    } else {
        proof {
            if key@.len() >= 4 && key@.take(4) == itm_prefix() {
                assert(key@.take(4)[0] == 'i' && key@.take(4)[1] == 't');
                assert(key@.take(4)[2] == 'm' && key@.take(4)[3] == ':');
            }
        }
        None
    }
}

/// Parsing a key made by `itm_key` gives back the path.
pub proof fn law_itm_key_round_trip(path: Seq<char>)
    ensures
        spec_parse_itm_key(itm_prefix() + path) == Some(path),
{
    assert((itm_prefix() + path).take(4) =~= itm_prefix());
    assert((itm_prefix() + path).skip(4) =~= path);
}

/// Result of an SDR→HDR conversion, as reported to the front end.
pub struct ItmInfo {
    /// Cache key (`itm:<source path>`) under which the result is found.
    pub itm_path: String,
    pub width: u32,
    pub height: u32,
    /// Inference time in milliseconds (model loading included the first time).
    pub elapsed_ms: u64,
}

/// The next step towards an HDR source.
pub enum HdrStep {
    /// The source (found in the cache).
    Ready(HdrSource),
    /// Decode the file (its decoder caches the source), then call `after_hdr_decode`.
    Decode,
    /// No source: not an HDR format, or still missing after the last attempt.
    Unavailable,
}

/// Abstract step.
pub enum StepView {
    Ready(HdrSourceView),
    Decode,
    Unavailable,
    Rerun(Seq<char>),
}

impl HdrStep {
    /// Abstract value.
    pub open spec fn view(&self) -> StepView {
        match self {
            HdrStep::Ready(s) => StepView::Ready(s@),
            HdrStep::Decode => StepView::Decode,
            HdrStep::Unavailable => StepView::Unavailable,
        }
    }
}

/// Attempts at decoding before giving up (a concurrent prefetch may push the source
/// out of the cache between the decoder's insertion and the lookup).
pub const HDR_DECODE_ATTEMPTS: u32 = 2;

/// The step after a lookup: the source on a hit, else `miss`.
pub open spec fn step_after(old: CacheView<HdrSourceView>, k: Seq<char>, miss: StepView) -> StepView {
    match key_index(old.entries, k) {
        Some(i) => StepView::Ready(old.entries[i].value),
        None => miss,
    }
}

fn lookup_step(cache: &mut HdrCache, key: &str, miss: HdrStep) -> (r: HdrStep)
    requires
        cache_wf(old(cache).view()),
        old(cache).view().next_tick < u64::MAX,
    ensures
        cache_wf(final(cache).view()),
        r.view() == step_after(old(cache).view(), key@, miss.view()),
        spec_take(old(cache).view(), key@, lookup(old(cache).view().entries, key@), final(cache).view()),
{
    match cache.take_hdr_source(key) {
        Some(s) => HdrStep::Ready(s),
        None => miss,
    }
}

/// First step of obtaining the HDR source of an image of category `kind` cached under
/// `key`: the cached source, else a decode for an HDR category, else none.
pub fn ensure_hdr_source(cache: &mut HdrCache, key: &str, kind: ImageKind) -> (r: HdrStep)
    requires
        cache_wf(old(cache).view()),
        old(cache).view().next_tick < u64::MAX,
    ensures
        cache_wf(final(cache).view()),
        r.view() == step_after(old(cache).view(), key@,
            if spec_is_hdr_kind(kind) { StepView::Decode } else { StepView::Unavailable }),
        spec_take(old(cache).view(), key@, lookup(old(cache).view().entries, key@), final(cache).view()),
{
    let miss = if is_hdr_kind(kind) { HdrStep::Decode } else { HdrStep::Unavailable };
    lookup_step(cache, key, miss)
}

/// Step after decoding attempt `attempt` (1-based): the source if now cached, else
/// another decode until `HDR_DECODE_ATTEMPTS` attempts were made.
pub fn after_hdr_decode(cache: &mut HdrCache, key: &str, attempt: u32) -> (r: HdrStep)
    requires
        cache_wf(old(cache).view()),
        old(cache).view().next_tick < u64::MAX,
    ensures
        cache_wf(final(cache).view()),
        r.view() == step_after(old(cache).view(), key@,
            if attempt < HDR_DECODE_ATTEMPTS { StepView::Decode } else { StepView::Unavailable }),
        spec_take(old(cache).view(), key@, lookup(old(cache).view().entries, key@), final(cache).view()),
{
    let miss = if attempt < HDR_DECODE_ATTEMPTS { HdrStep::Decode } else { HdrStep::Unavailable };
    lookup_step(cache, key, miss)
}

/// The next step towards the source of an SDR→HDR result.
pub enum ItmStep {
    /// The cached result.
    Ready(HdrSource),
    /// Not cached: convert the file at this path again (and cache the result).
    Rerun(String),
    /// The key is not an `itm:` key.
    Unavailable,
}

impl ItmStep {
    /// Abstract value.
    pub open spec fn view(&self) -> StepView {
        match self {
            ItmStep::Ready(s) => StepView::Ready(s@),
            ItmStep::Rerun(p) => StepView::Rerun(p@),
            ItmStep::Unavailable => StepView::Unavailable,
        }
    }
}

/// Restores an SDR→HDR result for display: the cached source, else a rerun on the path
/// the key names.
pub fn ensure_itm_source(cache: &mut HdrCache, key: &str) -> (r: ItmStep)
    requires
        cache_wf(old(cache).view()),
        old(cache).view().next_tick < u64::MAX,
    ensures
        cache_wf(final(cache).view()),
        r.view() == step_after(old(cache).view(), key@, match spec_parse_itm_key(key@) {
            Some(p) => StepView::Rerun(p),
            None => StepView::Unavailable,
        }),
        spec_take(old(cache).view(), key@, lookup(old(cache).view().entries, key@), final(cache).view()),
{
    match cache.take_hdr_source(key) {
        Some(s) => ItmStep::Ready(s),
        None => match parse_itm_key(key) {
            Some(p) => ItmStep::Rerun(p),
            None => ItmStep::Unavailable,
        },
    }
}

} // verus!
