//! EXIF metadata grouped for display under Chinese headings.
//!
//! The Exif block of a JPEG/TIFF (or other container) is decoded by kamadak-exif; each
//! field is held here as plain values (its tag, its display text, its first unsigned
//! integer and its rationals). The groups are: device, exposure, lens, image
//! properties, GPS and time; a group without items is left out.

use vstd::prelude::*;
use crate::strs::{trim, trimmed, str_eq, path_extension, spec_extension, to_lowercase, spec_lowercase, plain_name,
    all_ascii, ext_of_name, lower_ascii_str};
use crate::text::push_str;

verus! {

/// Tag context of the TIFF (0th/1st IFD) attributes.
pub const CTX_TIFF: u8 = 0;
/// Tag context of the Exif IFD attributes.
pub const CTX_EXIF: u8 = 1;
/// Tag context of the GPS IFD attributes.
pub const CTX_GPS: u8 = 2;

/// An Exif tag: its context (TIFF, Exif, GPS, interoperability) and its number.
#[derive(PartialEq, Eq, Structural, Clone, Copy, Debug)]
pub struct ExifTag {
    pub context: u8,
    pub number: u16,
}

/// One decoded Exif field, as plain values.
pub struct ExifField {
    pub tag: ExifTag,
    /// The value as displayed, with its unit.
    pub text: String,
    /// The value as displayed, without a unit.
    pub raw_text: String,
    /// The first unsigned integer (BYTE, SHORT or LONG value), if any.
    pub first_uint: Option<u32>,
    /// The (numerator, denominator) pairs of a RATIONAL value; empty for other types.
    pub rationals: Vec<(u32, u32)>,
}

/// Abstract field.
pub struct ExifFieldView {
    pub tag: ExifTag,
    pub text: Seq<char>,
    pub raw_text: Seq<char>,
    pub first_uint: Option<u32>,
    pub rationals: Seq<(u32, u32)>,
}

impl View for ExifField {
    type V = ExifFieldView;

    open spec fn view(&self) -> ExifFieldView {
        ExifFieldView {
            tag: self.tag,
            text: self.text@,
            raw_text: self.raw_text@,
            first_uint: self.first_uint,
            rationals: self.rationals@,
        }
    }
}

/// One displayed line: a label and its value.
pub struct ExifItem {
    pub label: String,
    pub value: String,
}

/// Abstract item.
pub struct ExifItemView {
    pub label: Seq<char>,
    pub value: Seq<char>,
}

impl View for ExifItem {
    type V = ExifItemView;

    open spec fn view(&self) -> ExifItemView {
        ExifItemView { label: self.label@, value: self.value@ }
    }
}

/// A titled group of items.
pub struct ExifGroup {
    pub title: String,
    pub items: Vec<ExifItem>,
}

/// Abstract group.
pub struct ExifGroupView {
    pub title: Seq<char>,
    pub items: Seq<ExifItemView>,
}

impl View for ExifGroup {
    type V = ExifGroupView;

    open spec fn view(&self) -> ExifGroupView {
        ExifGroupView { title: self.title@, items: items_view(self.items@) }
    }
}

/// The grouped metadata of one file (no groups when it has no Exif).
pub struct ExifData {
    pub groups: Vec<ExifGroup>,
}

/// Abstract values of fields.
pub open spec fn fields_view(v: Seq<ExifField>) -> Seq<ExifFieldView> {
    Seq::new(v.len(), |i: int| v[i]@)
}

/// Abstract values of items.
pub open spec fn items_view(v: Seq<ExifItem>) -> Seq<ExifItemView> {
    Seq::new(v.len(), |i: int| v[i]@)
}

/// Abstract values of groups.
pub open spec fn groups_view(v: Seq<ExifGroup>) -> Seq<ExifGroupView> {
    Seq::new(v.len(), |i: int| v[i]@)
}

/// Abstract value of a decoding result.
pub open spec fn opt_fields_view(r: Option<Vec<ExifField>>) -> Option<Seq<ExifFieldView>> {
    match r {
        Some(v) => Some(fields_view(v@)),
        None => None,
    }
}

/// The fields that kamadak-exif decodes from a file's bytes (`None` when it finds no
/// readable Exif block); their order and rendering are the crate's.
pub uninterp spec fn exif_read(data: Seq<u8>) -> Option<Seq<ExifFieldView>>;

/// `Reader::read_from_container` on the bytes, then every field of `Exif::fields`
/// converted: the tag (its `Context` as the variant's position in the declaration:
/// TIFF 0, Exif 1, GPS 2, interoperability 3; and its number),
/// `display_value().with_unit(..)`, `display_value()`, `value.get_uint(0)` and the
/// RATIONAL pairs. The contract names the result only: nothing is claimed of which
/// inputs parse, and no input is known to make the crate panic or loop.
#[verifier::external_body]
fn decode_exif_fields(data: &[u8]) -> (r: Option<Vec<ExifField>>)
    ensures
        opt_fields_view(r) == exif_read(data@),
{
    let exif = ::exif::Reader::new().read_from_container(&mut std::io::Cursor::new(data)).ok()?;
    let mut out = Vec::new();
    for f in exif.fields() {
        let rationals = match &f.value {
            ::exif::Value::Rational(v) => v.iter().map(|q| (q.num, q.denom)).collect(),
            _ => Vec::new(),
        };
        let tag = ExifTag { context: f.tag.0 as u8, number: f.tag.1 };
        let text = f.display_value().with_unit(&exif).to_string();
        out.push(ExifField { tag, text, raw_text: f.display_value().to_string(), first_uint: f.value.get_uint(0), rationals });
    }
    Some(out)
}

/// The fields of a file's bytes; none when it holds no readable Exif block.
pub open spec fn exif_fields_of(data: Seq<u8>) -> Seq<ExifFieldView> {
    match exif_read(data) {
        Some(s) => s,
        None => Seq::empty(),
    }
}

/// Decodes the Exif fields of a file's bytes (empty when there is no Exif block).
pub fn read_fields(data: &[u8]) -> (r: Vec<ExifField>)
    ensures
        fields_view(r@) == exif_fields_of(data@),
{
    match decode_exif_fields(data) {
        Some(v) => v,
        None => {
            let v: Vec<ExifField> = Vec::new();
            assert(fields_view(v@) =~= Seq::<ExifFieldView>::empty());
            v
        }
    }
}

/// The lower-cased extension is one of the containers that carry Exif here.
pub open spec fn exif_container_ext(e: Option<Seq<char>>) -> bool {
    match e {
        Some(x) => {
            let l = spec_lowercase(x);
            l == "jpg"@ || l == "jpeg"@ || l == "tif"@ || l == "tiff"@
        },
        None => false,
    }
}

/// A plain ASCII file name whose extension, lower-cased, is jpg, jpeg, tif or tiff.
pub open spec fn ascii_exif_name(name: Seq<char>) -> bool {
    match ext_of_name(name) {
        Some(x) => {
            let l = lower_ascii_str(x);
            l == "jpg"@ || l == "jpeg"@ || l == "tif"@ || l == "tiff"@
        },
        None => false,
    }
}

/// Whether the path's extension is jpg/jpeg/tif/tiff (case-insensitively).
pub fn exif_container(path: &str) -> (r: bool)
    ensures
        r == exif_container_ext(spec_extension(path@)),
        plain_name(path@) && all_ascii(path@) ==> r == ascii_exif_name(path@),
{
    match path_extension(path) {
        Some(e) => {
            let l = to_lowercase(e.as_str());
            str_eq(l.as_str(), "jpg") || str_eq(l.as_str(), "jpeg") || str_eq(l.as_str(), "tif")
                || str_eq(l.as_str(), "tiff")
        },
        None => false,
    }
}

/// Whether a file has Exif: its extension is a JPEG/TIFF one and its bytes `data`
/// decode to at least one field.
pub fn has_exif(path: &str, data: &[u8]) -> (r: bool)
    ensures
        r == (exif_container_ext(spec_extension(path@)) && exif_fields_of(data@).len() > 0),
        plain_name(path@) && all_ascii(path@) ==> r == (ascii_exif_name(path@) && exif_fields_of(data@).len() > 0),
{
    if !exif_container(path) {
        return false;
    }
    let fields = read_fields(data);
    fields.len() > 0
}

/// Index of the first field at or after `k` whose tag is `tag`.
pub open spec fn first_from(fields: Seq<ExifFieldView>, tag: ExifTag, k: int) -> Option<int>
    decreases fields.len() - k,
{
    if k < 0 || k >= fields.len() {
        None
    } else if fields[k].tag == tag {
        Some(k)
    } else {
        first_from(fields, tag, k + 1)
    }
}

/// Index of the first field with tag `tag`, over every IFD.
pub open spec fn first_field(fields: Seq<ExifFieldView>, tag: ExifTag) -> Option<int> {
    first_from(fields, tag, 0)
}

proof fn lemma_first_from_range(fields: Seq<ExifFieldView>, tag: ExifTag, k: int)
    ensures
        first_from(fields, tag, k) matches Some(i) ==> k <= i < fields.len() && fields[i].tag == tag,
    decreases fields.len() - k,
{
    if 0 <= k < fields.len() && fields[k].tag != tag {
        lemma_first_from_range(fields, tag, k + 1);
    }
}

/// Finds the first field with the given tag (fields of all IFDs are searched in order).
pub fn field_of(fields: &[ExifField], tag: ExifTag) -> (r: Option<usize>)
    ensures
        r matches Some(i) ==> first_field(fields_view(fields@), tag) == Some(i as int),
        r is None ==> first_field(fields_view(fields@), tag) is None,
{
    let ghost fv = fields_view(fields@);
    let mut k: usize = 0;
    while k < fields.len()
        invariant
            k <= fields@.len(),
            fv == fields_view(fields@),
            first_from(fv, tag, 0) == first_from(fv, tag, k as int),
        decreases fields@.len() - k,
    {
        if fields[k].tag == tag {
            assert(fv[k as int].tag == tag);
            return Some(k);
        }
        assert(fv[k as int].tag != tag);
        k = k + 1;
    }
    None
}

/// The item for a plain field: its display text with unit, trimmed; none when the
/// field is absent, the text is empty or is `""`.
pub open spec fn text_item(fields: Seq<ExifFieldView>, tag: ExifTag, label: Seq<char>) -> Option<ExifItemView> {
    match first_field(fields, tag) {
        Some(i) => {
            let v = trimmed(fields[i].text);
            if v.len() > 0 && v != "\"\""@ {
                Some(ExifItemView { label, value: v })
            } else {
                None
            }
        },
        None => None,
    }
}

/// A sequence of zero or one item.
pub open spec fn opt_seq(o: Option<ExifItemView>) -> Seq<ExifItemView> {
    match o {
        Some(x) => seq![x],
        None => Seq::empty(),
    }
}

fn push_item(items: &mut Vec<ExifItem>, label: &str, value: String)
    ensures
        items_view(final(items)@) == items_view(old(items)@).push(ExifItemView { label: label@, value: value@ }),
{
    let item = ExifItem { label: String::from_str(label), value };
    items.push(item);
    assert(items_view(items@) =~= items_view(old(items)@).push(ExifItemView { label: label@, value: value@ }));
}

/// Appends a plain field (display text with unit, trimmed) unless it is absent or empty.
pub fn push_field(fields: &[ExifField], items: &mut Vec<ExifItem>, tag: ExifTag, label: &str)
    ensures
        items_view(final(items)@) == items_view(old(items)@) + opt_seq(text_item(fields_view(fields@), tag, label@)),
{
    proof {
        lemma_first_from_range(fields_view(fields@), tag, 0);
        reveal_strlit("");
    }
    match field_of(fields, tag) {
        Some(i) => {
            let value = trim(fields[i].text.as_str());
            if !str_eq(value.as_str(), "") && !str_eq(value.as_str(), "\"\"") {
                assert(value@.len() > 0) by {
                    if value@.len() == 0 {
                        assert(value@ =~= ""@);
                    }
                }
                push_item(items, label, value);
            } else {
                assert(items_view(items@) =~= items_view(items@) + Seq::<ExifItemView>::empty());
            }
        },
        None => {
            assert(items_view(items@) =~= items_view(items@) + Seq::<ExifItemView>::empty());
        },
    }
}

/// Tables that name a numeric Exif value in Chinese.
#[derive(PartialEq, Eq, Structural, Clone, Copy, Debug)]
pub enum CnTable {
    ExposureProgram,
    MeteringMode,
    Flash,
    ExposureMode,
    WhiteBalance,
    ResolutionUnit,
}

/// ExposureProgram names (0-8).
pub open spec fn spec_exposure_program(v: u32) -> Option<Seq<char>> {
    if v == 0 { Some("未定义"@) }
    else if v == 1 { Some("手动"@) }
    else if v == 2 { Some("程序自动"@) }
    else if v == 3 { Some("光圈优先"@) }
    else if v == 4 { Some("快门优先"@) }
    else if v == 5 { Some("创意自动"@) }
    else if v == 6 { Some("动作模式"@) }
    else if v == 7 { Some("人像模式"@) }
    else if v == 8 { Some("风景模式"@) }
    else { None }
}

/// MeteringMode names (0-6).
pub open spec fn spec_metering_mode(v: u32) -> Option<Seq<char>> {
    if v == 0 { Some("未知"@) }
    else if v == 1 { Some("平均测光"@) }
    else if v == 2 { Some("中央重点测光"@) }
    else if v == 3 { Some("点测光"@) }
    else if v == 4 { Some("多区测光"@) }
    else if v == 5 { Some("评价测光"@) }
    else if v == 6 { Some("局部测光"@) }
    else { None }
}

/// Flash names (the common combinations).
pub open spec fn spec_flash(v: u32) -> Option<Seq<char>> {
    if v == 0x00 { Some("未闪光"@) }
    else if v == 0x01 { Some("已闪光"@) }
    else if v == 0x05 { Some("已闪光（返回光未检测）"@) }
    else if v == 0x07 { Some("已闪光（返回光检测到）"@) }
    else if v == 0x09 { Some("已闪光（补光模式）"@) }
    else if v == 0x10 { Some("闪光灯关闭"@) }
    else if v == 0x18 { Some("自动模式，未闪光"@) }
    else if v == 0x19 { Some("自动模式，已闪光"@) }
    else if v == 0x41 { Some("已闪光（红眼消除）"@) }
    else if v == 0x65 { Some("已闪光（补光模式，红眼消除）"@) }
    else { None }
}

/// ExposureMode names (0-2).
pub open spec fn spec_exposure_mode(v: u32) -> Option<Seq<char>> {
    if v == 0 { Some("自动曝光"@) }
    else if v == 1 { Some("手动曝光"@) }
    else if v == 2 { Some("包围曝光"@) }
    else { None }
}

/// WhiteBalance names (0/1).
pub open spec fn spec_white_balance(v: u32) -> Option<Seq<char>> {
    if v == 0 { Some("自动白平衡"@) }
    else if v == 1 { Some("手动白平衡"@) }
    else { None }
}

/// ResolutionUnit names (1-3).
pub open spec fn spec_resolution_unit(v: u32) -> Option<Seq<char>> {
    if v == 1 { Some("无单位"@) }
    else if v == 2 { Some("英寸"@) }
    else if v == 3 { Some("厘米"@) }
    else { None }
}

/// Orientation names (1-8, the standard Exif orientations).
pub open spec fn spec_orientation(v: u32) -> Option<Seq<char>> {
    if v == 1 { Some("正常（水平）"@) }
    else if v == 2 { Some("水平镜像"@) }
    else if v == 3 { Some("旋转 180°"@) }
    else if v == 4 { Some("垂直镜像"@) }
    else if v == 5 { Some("旋转 90° + 水平镜像"@) }
    else if v == 6 { Some("顺时针旋转 90°"@) }
    else if v == 7 { Some("旋转 270° + 水平镜像"@) }
    else if v == 8 { Some("顺时针旋转 270°"@) }
    else { None }
}

/// The name of `v` in table `t`.
pub open spec fn spec_cn(t: CnTable, v: u32) -> Option<Seq<char>> {
    match t {
        CnTable::ExposureProgram => spec_exposure_program(v),
        CnTable::MeteringMode => spec_metering_mode(v),
        CnTable::Flash => spec_flash(v),
        CnTable::ExposureMode => spec_exposure_mode(v),
        CnTable::WhiteBalance => spec_white_balance(v),
        CnTable::ResolutionUnit => spec_resolution_unit(v),
    }
}

/// Abstract value of an optional name.
pub open spec fn opt_str(o: Option<&'static str>) -> Option<Seq<char>> {
    match o {
        Some(s) => Some(s@),
        None => None,
    }
}

/// Exposure program name.
pub fn exposure_program_cn(v: u32) -> (r: Option<&'static str>)
    ensures
        opt_str(r) == spec_exposure_program(v),
{
    match v {
        0 => Some("未定义"),
        1 => Some("手动"),
        2 => Some("程序自动"),
        3 => Some("光圈优先"),
        4 => Some("快门优先"),
        5 => Some("创意自动"),
        6 => Some("动作模式"),
        7 => Some("人像模式"),
        8 => Some("风景模式"),
        _ => None,
    }
}

/// Metering mode name.
pub fn metering_mode_cn(v: u32) -> (r: Option<&'static str>)
    ensures
        opt_str(r) == spec_metering_mode(v),
{
    match v {
        0 => Some("未知"),
        1 => Some("平均测光"),
        2 => Some("中央重点测光"),
        3 => Some("点测光"),
        4 => Some("多区测光"),
        5 => Some("评价测光"),
        6 => Some("局部测光"),
        _ => None,
    }
}

/// Flash name.
pub fn flash_cn(v: u32) -> (r: Option<&'static str>)
    ensures
        opt_str(r) == spec_flash(v),
{
    match v {
        0x00 => Some("未闪光"),
        0x01 => Some("已闪光"),
        0x05 => Some("已闪光（返回光未检测）"),
        0x07 => Some("已闪光（返回光检测到）"),
        0x09 => Some("已闪光（补光模式）"),
        0x10 => Some("闪光灯关闭"),
        0x18 => Some("自动模式，未闪光"),
        0x19 => Some("自动模式，已闪光"),
        0x41 => Some("已闪光（红眼消除）"),
        0x65 => Some("已闪光（补光模式，红眼消除）"),
        _ => None,
    }
}

/// Exposure mode name.
pub fn exposure_mode_cn(v: u32) -> (r: Option<&'static str>)
    ensures
        opt_str(r) == spec_exposure_mode(v),
{
    match v {
        0 => Some("自动曝光"),
        1 => Some("手动曝光"),
        2 => Some("包围曝光"),
        _ => None,
    }
}

/// White balance name.
pub fn white_balance_cn(v: u32) -> (r: Option<&'static str>)
    ensures
        opt_str(r) == spec_white_balance(v),
{
    match v {
        0 => Some("自动白平衡"),
        1 => Some("手动白平衡"),
        _ => None,
    }
}

/// Resolution unit name.
pub fn resolution_unit_cn(v: u32) -> (r: Option<&'static str>)
    ensures
        opt_str(r) == spec_resolution_unit(v),
{
    match v {
        1 => Some("无单位"),
        2 => Some("英寸"),
        3 => Some("厘米"),
        _ => None,
    }
}

/// Orientation name.
pub fn orientation_cn(v: u32) -> (r: Option<&'static str>)
    ensures
        opt_str(r) == spec_orientation(v),
{
    match v {
        1 => Some("正常（水平）"),
        2 => Some("水平镜像"),
        3 => Some("旋转 180°"),
        4 => Some("垂直镜像"),
        5 => Some("旋转 90° + 水平镜像"),
        6 => Some("顺时针旋转 90°"),
        7 => Some("旋转 270° + 水平镜像"),
        8 => Some("顺时针旋转 270°"),
        _ => None,
    }
}

/// Name of `v` in table `t`.
pub fn cn_name(t: CnTable, v: u32) -> (r: Option<&'static str>)
    ensures
        opt_str(r) == spec_cn(t, v),
{
    match t {
        CnTable::ExposureProgram => exposure_program_cn(v),
        CnTable::MeteringMode => metering_mode_cn(v),
        CnTable::Flash => flash_cn(v),
        CnTable::ExposureMode => exposure_mode_cn(v),
        CnTable::WhiteBalance => white_balance_cn(v),
        CnTable::ResolutionUnit => resolution_unit_cn(v),
    }
}

/// The item for an enumerated field: the name of its first unsigned integer; none when
/// the field is absent, holds no unsigned integer or the value has no name.
pub open spec fn named_item(
    fields: Seq<ExifFieldView>,
    tag: ExifTag,
    label: Seq<char>,
    names: spec_fn(u32) -> Option<Seq<char>>,
) -> Option<ExifItemView> {
    match first_field(fields, tag) {
        Some(i) => match fields[i].first_uint {
            Some(v) => match names(v) {
                Some(s) => Some(ExifItemView { label, value: s }),
                None => None,
            },
            None => None,
        },
        None => None,
    }
}

/// Appends an enumerated field under its Chinese name (nothing when it has none).
pub fn push_enum(fields: &[ExifField], items: &mut Vec<ExifItem>, tag: ExifTag, label: &str, table: CnTable)
    ensures
        items_view(final(items)@) == items_view(old(items)@) + opt_seq(
            named_item(fields_view(fields@), tag, label@, |v: u32| spec_cn(table, v)),
        ),
{
    proof {
        lemma_first_from_range(fields_view(fields@), tag, 0);
    }
    let mut name: Option<&'static str> = None;
    if let Some(i) = field_of(fields, tag) {
        if let Some(v) = fields[i].first_uint {
            name = cn_name(table, v);
        }
    }
    match name {
        Some(s) => push_item(items, label, String::from_str(s)),
        None => {
            assert(items_view(items@) =~= items_view(items@) + Seq::<ExifItemView>::empty());
        },
    }
}

/// The Orientation tag.
pub open spec fn orientation_tag() -> ExifTag {
    ExifTag { context: CTX_TIFF, number: 0x112 }
}

/// Appends the orientation (1-8) under its Chinese name.
pub fn push_orientation(fields: &[ExifField], items: &mut Vec<ExifItem>)
    ensures
        items_view(final(items)@) == items_view(old(items)@) + opt_seq(
            named_item(fields_view(fields@), orientation_tag(), "方向"@, |v: u32| spec_orientation(v)),
        ),
{
    proof {
        lemma_first_from_range(fields_view(fields@), orientation_tag(), 0);
    }
    let tag = ExifTag { context: CTX_TIFF, number: 0x112 };
    let mut name: Option<&'static str> = None;
    if let Some(i) = field_of(fields, tag) {
        if let Some(v) = fields[i].first_uint {
            name = orientation_cn(v);
        }
    }
    match name {
        Some(s) => push_item(items, "方向", String::from_str(s)),
        None => {
            assert(items_view(items@) =~= items_view(items@) + Seq::<ExifItemView>::empty());
        },
    }
}

/// A GPS coordinate rendered by the caller: whether its signed decimal degrees are
/// negative, the absolute value with six decimals, and its degrees-minutes-seconds text.
pub struct GpsCoord {
    pub negative: bool,
    pub decimal: String,
    pub dms: String,
}

/// The GPS line: direction, decimal degrees and the DMS text in brackets.
pub open spec fn gps_value(dir: Seq<char>, c: GpsCoord) -> Seq<char> {
    dir + " "@ + c.decimal@ + "°（"@ + c.dms@ + "）"@
}

/// The latitude item (south when negative, else north).
pub open spec fn latitude_item(c: Option<GpsCoord>) -> Option<ExifItemView> {
    match c {
        Some(c) => Some(ExifItemView {
            label: "纬度"@,
            value: gps_value(if c.negative { "南纬"@ } else { "北纬"@ }, c),
        }),
        None => None,
    }
}

/// The longitude item (west when negative, else east).
pub open spec fn longitude_item(c: Option<GpsCoord>) -> Option<ExifItemView> {
    match c {
        Some(c) => Some(ExifItemView {
            label: "经度"@,
            value: gps_value(if c.negative { "西经"@ } else { "东经"@ }, c),
        }),
        None => None,
    }
}

fn gps_text(dir: &str, c: &GpsCoord) -> (r: String)
    ensures
        r@ == gps_value(dir@, *c),
{
    let mut s = String::from_str(dir);
    push_str(&mut s, " ");
    push_str(&mut s, c.decimal.as_str());
    push_str(&mut s, "°（");
    push_str(&mut s, c.dms.as_str());
    push_str(&mut s, "）");
    s
}

/// Appends the latitude line.
pub fn push_gps_latitude(items: &mut Vec<ExifItem>, lat: &Option<GpsCoord>)
    ensures
        items_view(final(items)@) == items_view(old(items)@) + opt_seq(latitude_item(*lat)),
{
    match lat {
        Some(c) => {
            let dir = if c.negative { "南纬" } else { "北纬" };
            let v = gps_text(dir, c);
            push_item(items, "纬度", v);
        },
        None => {
            assert(items_view(items@) =~= items_view(items@) + Seq::<ExifItemView>::empty());
        },
    }
}

/// Appends the longitude line.
pub fn push_gps_longitude(items: &mut Vec<ExifItem>, lon: &Option<GpsCoord>)
    ensures
        items_view(final(items)@) == items_view(old(items)@) + opt_seq(longitude_item(*lon)),
{
    match lon {
        Some(c) => {
            let dir = if c.negative { "西经" } else { "东经" };
            let v = gps_text(dir, c);
            push_item(items, "经度", v);
        },
        None => {
            assert(items_view(items@) =~= items_view(items@) + Seq::<ExifItemView>::empty());
        },
    }
}

/// A GPS reference value ("N", "S", "E", "W") that makes the coordinate negative.
pub open spec fn ref_is_negative(raw: Seq<char>) -> bool {
    raw.contains('S') || raw.contains('W')
}

/// Whether a GPS reference text holds 'S' or 'W'.
pub fn gps_ref_negative(raw: &str) -> (r: bool)
    ensures
        r == ref_is_negative(raw@),
{
    let cs = crate::strs::chars_of(raw);
    let mut i: usize = 0;
    while i < cs.len()
        invariant
            i <= cs@.len(),
            cs@ == raw@,
            forall|j: int| 0 <= j < i ==> cs@[j] != 'S' && cs@[j] != 'W',
        decreases cs@.len() - i,
    {
        if cs[i] == 'S' || cs[i] == 'W' {
            assert(raw@[i as int] == cs@[i as int]);
            return true;
        }
        i = i + 1;
    }
    false
}

/// Tag constant.
pub open spec fn tag(context: u8, number: u16) -> ExifTag {
    ExifTag { context, number }
}

/// Items of the device group: make, model, software, orientation.
pub open spec fn device_items(f: Seq<ExifFieldView>) -> Seq<ExifItemView> {
    Seq::empty()
        + opt_seq(text_item(f, tag(CTX_TIFF, 0x10f), "制造商"@))
        + opt_seq(text_item(f, tag(CTX_TIFF, 0x110), "型号"@))
        + opt_seq(text_item(f, tag(CTX_TIFF, 0x131), "软件"@))
        + opt_seq(named_item(f, orientation_tag(), "方向"@, |v: u32| spec_orientation(v)))
}

/// Items of the exposure group.
pub open spec fn exposure_items(f: Seq<ExifFieldView>) -> Seq<ExifItemView> {
    Seq::empty()
        + opt_seq(text_item(f, tag(CTX_EXIF, 0x829a), "曝光时间"@))
        + opt_seq(text_item(f, tag(CTX_EXIF, 0x829d), "光圈值"@))
        + opt_seq(text_item(f, tag(CTX_EXIF, 0x8833), "ISO 感光度"@))
        + opt_seq(named_item(f, tag(CTX_EXIF, 0x8822), "曝光程序"@, |v: u32| spec_cn(CnTable::ExposureProgram, v)))
        + opt_seq(text_item(f, tag(CTX_EXIF, 0x9204), "曝光补偿"@))
        + opt_seq(named_item(f, tag(CTX_EXIF, 0x9207), "测光模式"@, |v: u32| spec_cn(CnTable::MeteringMode, v)))
        + opt_seq(named_item(f, tag(CTX_EXIF, 0x9209), "闪光灯"@, |v: u32| spec_cn(CnTable::Flash, v)))
        + opt_seq(named_item(f, tag(CTX_EXIF, 0xa402), "曝光模式"@, |v: u32| spec_cn(CnTable::ExposureMode, v)))
        + opt_seq(named_item(f, tag(CTX_EXIF, 0xa403), "白平衡"@, |v: u32| spec_cn(CnTable::WhiteBalance, v)))
}

/// Items of the lens group.
pub open spec fn lens_items(f: Seq<ExifFieldView>) -> Seq<ExifItemView> {
    Seq::empty()
        + opt_seq(text_item(f, tag(CTX_EXIF, 0xa433), "镜头制造商"@))
        + opt_seq(text_item(f, tag(CTX_EXIF, 0xa434), "镜头型号"@))
        + opt_seq(text_item(f, tag(CTX_EXIF, 0x920a), "焦距"@))
        + opt_seq(text_item(f, tag(CTX_EXIF, 0xa405), "等效 35mm 焦距"@))
}

/// Items of the image-properties group.
pub open spec fn image_items(f: Seq<ExifFieldView>) -> Seq<ExifItemView> {
    Seq::empty()
        + opt_seq(text_item(f, tag(CTX_TIFF, 0x100), "图像宽度"@))
        + opt_seq(text_item(f, tag(CTX_TIFF, 0x101), "图像高度"@))
        + opt_seq(text_item(f, tag(CTX_TIFF, 0x11a), "水平分辨率"@))
        + opt_seq(text_item(f, tag(CTX_TIFF, 0x11b), "垂直分辨率"@))
        + opt_seq(named_item(f, tag(CTX_TIFF, 0x128), "分辨率单位"@, |v: u32| spec_cn(CnTable::ResolutionUnit, v)))
        + opt_seq(text_item(f, tag(CTX_EXIF, 0xa001), "色彩空间"@))
        + opt_seq(text_item(f, tag(CTX_EXIF, 0xa002), "Exif 像素宽度"@))
        + opt_seq(text_item(f, tag(CTX_EXIF, 0xa003), "Exif 像素高度"@))
}

/// Items of the GPS group.
pub open spec fn gps_items(f: Seq<ExifFieldView>, lat: Option<GpsCoord>, lon: Option<GpsCoord>) -> Seq<ExifItemView> {
    Seq::empty()
        + opt_seq(latitude_item(lat))
        + opt_seq(longitude_item(lon))
        + opt_seq(text_item(f, tag(CTX_GPS, 0x6), "海拔"@))
}

/// Items of the time group.
pub open spec fn time_items(f: Seq<ExifFieldView>) -> Seq<ExifItemView> {
    Seq::empty()
        + opt_seq(text_item(f, tag(CTX_TIFF, 0x132), "修改时间"@))
        + opt_seq(text_item(f, tag(CTX_EXIF, 0x9003), "拍摄时间"@))
        + opt_seq(text_item(f, tag(CTX_EXIF, 0x9004), "数字化时间"@))
}

/// A group, left out when it has no items.
pub open spec fn opt_group(title: Seq<char>, items: Seq<ExifItemView>) -> Seq<ExifGroupView> {
    if items.len() > 0 {
        seq![ExifGroupView { title, items }]
    } else {
        Seq::empty()
    }
}

/// All groups, in display order.
pub open spec fn spec_groups(f: Seq<ExifFieldView>, lat: Option<GpsCoord>, lon: Option<GpsCoord>) -> Seq<ExifGroupView> {
    Seq::empty()
        + opt_group("设备与拍摄"@, device_items(f))
        + opt_group("曝光"@, exposure_items(f))
        + opt_group("镜头"@, lens_items(f))
        + opt_group("图像属性"@, image_items(f))
        + opt_group("GPS"@, gps_items(f, lat, lon))
        + opt_group("时间"@, time_items(f))
}

fn new_items() -> (r: Vec<ExifItem>)
    ensures
        items_view(r@) == Seq::<ExifItemView>::empty(),
{
    let r: Vec<ExifItem> = Vec::new();
    assert(items_view(r@) =~= Seq::<ExifItemView>::empty());
    r
}

fn push_group(groups: &mut Vec<ExifGroup>, title: &str, items: Vec<ExifItem>)
    ensures
        groups_view(final(groups)@) == groups_view(old(groups)@) + opt_group(title@, items_view(items@)),
{
    if items.len() > 0 {
        let g = ExifGroup { title: String::from_str(title), items };
        groups.push(g);
        assert(groups_view(groups@) =~= groups_view(old(groups)@) + opt_group(title@, items_view(items@)));
    } else {
        assert(groups_view(groups@) =~= groups_view(groups@) + opt_group(title@, items_view(items@)));
    }
}

/// Builds every non-empty group from the fields and the caller's GPS coordinates.
pub fn build_groups(fields: &[ExifField], lat: &Option<GpsCoord>, lon: &Option<GpsCoord>) -> (r: Vec<ExifGroup>)
    ensures
        groups_view(r@) == spec_groups(fields_view(fields@), *lat, *lon),
{
    let mut groups: Vec<ExifGroup> = Vec::new();
    assert(groups_view(groups@) =~= Seq::<ExifGroupView>::empty());

    let mut g = new_items();
    push_field(fields, &mut g, ExifTag { context: CTX_TIFF, number: 0x10f }, "制造商");
    push_field(fields, &mut g, ExifTag { context: CTX_TIFF, number: 0x110 }, "型号");
    push_field(fields, &mut g, ExifTag { context: CTX_TIFF, number: 0x131 }, "软件");
    push_orientation(fields, &mut g);
    push_group(&mut groups, "设备与拍摄", g);

    let mut g = new_items();
    push_field(fields, &mut g, ExifTag { context: CTX_EXIF, number: 0x829a }, "曝光时间");
    push_field(fields, &mut g, ExifTag { context: CTX_EXIF, number: 0x829d }, "光圈值");
    push_field(fields, &mut g, ExifTag { context: CTX_EXIF, number: 0x8833 }, "ISO 感光度");
    push_enum(fields, &mut g, ExifTag { context: CTX_EXIF, number: 0x8822 }, "曝光程序", CnTable::ExposureProgram);
    push_field(fields, &mut g, ExifTag { context: CTX_EXIF, number: 0x9204 }, "曝光补偿");
    push_enum(fields, &mut g, ExifTag { context: CTX_EXIF, number: 0x9207 }, "测光模式", CnTable::MeteringMode);
    push_enum(fields, &mut g, ExifTag { context: CTX_EXIF, number: 0x9209 }, "闪光灯", CnTable::Flash);
    push_enum(fields, &mut g, ExifTag { context: CTX_EXIF, number: 0xa402 }, "曝光模式", CnTable::ExposureMode);
    push_enum(fields, &mut g, ExifTag { context: CTX_EXIF, number: 0xa403 }, "白平衡", CnTable::WhiteBalance);
    push_group(&mut groups, "曝光", g);

    let mut g = new_items();
    push_field(fields, &mut g, ExifTag { context: CTX_EXIF, number: 0xa433 }, "镜头制造商");
    push_field(fields, &mut g, ExifTag { context: CTX_EXIF, number: 0xa434 }, "镜头型号");
    push_field(fields, &mut g, ExifTag { context: CTX_EXIF, number: 0x920a }, "焦距");
    push_field(fields, &mut g, ExifTag { context: CTX_EXIF, number: 0xa405 }, "等效 35mm 焦距");
    push_group(&mut groups, "镜头", g);

    let mut g = new_items();
    push_field(fields, &mut g, ExifTag { context: CTX_TIFF, number: 0x100 }, "图像宽度");
    push_field(fields, &mut g, ExifTag { context: CTX_TIFF, number: 0x101 }, "图像高度");
    push_field(fields, &mut g, ExifTag { context: CTX_TIFF, number: 0x11a }, "水平分辨率");
    push_field(fields, &mut g, ExifTag { context: CTX_TIFF, number: 0x11b }, "垂直分辨率");
    push_enum(fields, &mut g, ExifTag { context: CTX_TIFF, number: 0x128 }, "分辨率单位", CnTable::ResolutionUnit);
    push_field(fields, &mut g, ExifTag { context: CTX_EXIF, number: 0xa001 }, "色彩空间");
    push_field(fields, &mut g, ExifTag { context: CTX_EXIF, number: 0xa002 }, "Exif 像素宽度");
    push_field(fields, &mut g, ExifTag { context: CTX_EXIF, number: 0xa003 }, "Exif 像素高度");
    push_group(&mut groups, "图像属性", g);

    let mut g = new_items();
    push_gps_latitude(&mut g, lat);
    push_gps_longitude(&mut g, lon);
    push_field(fields, &mut g, ExifTag { context: CTX_GPS, number: 0x6 }, "海拔");
    push_group(&mut groups, "GPS", g);

    let mut g = new_items();
    push_field(fields, &mut g, ExifTag { context: CTX_TIFF, number: 0x132 }, "修改时间");
    push_field(fields, &mut g, ExifTag { context: CTX_EXIF, number: 0x9003 }, "拍摄时间");
    push_field(fields, &mut g, ExifTag { context: CTX_EXIF, number: 0x9004 }, "数字化时间");
    push_group(&mut groups, "时间", g);

    groups
}

/// The grouped metadata: no groups when there are no fields, else every non-empty group.
pub open spec fn spec_parse(f: Seq<ExifFieldView>, lat: Option<GpsCoord>, lon: Option<GpsCoord>) -> Seq<ExifGroupView> {
    if f.len() == 0 {
        Seq::empty()
    } else {
        spec_groups(f, lat, lon)
    }
}

/// Groups the decoded fields (see `read_fields`) with the caller's GPS coordinates.
pub fn parse(fields: &[ExifField], lat: &Option<GpsCoord>, lon: &Option<GpsCoord>) -> (r: ExifData)
    ensures
        groups_view(r.groups@) == spec_parse(fields_view(fields@), *lat, *lon),
{
    if fields.len() == 0 {
        let groups: Vec<ExifGroup> = Vec::new();
        assert(groups_view(groups@) =~= Seq::<ExifGroupView>::empty());
        return ExifData { groups };
    }
    ExifData { groups: build_groups(fields, lat, lon) }
}

/// The GPS lines name the hemisphere from the sign: a negative longitude is west (西经),
/// any other east (东经); a negative latitude is south (南纬), any other north (北纬). The
/// direction is followed by a space, the decimal degrees, "°" and the DMS text in
/// full-width brackets.
pub proof fn law_gps_hemisphere(c: GpsCoord)
    ensures
        ({
            let lon = longitude_item(Some(c))->0;
            let lat = latitude_item(Some(c))->0;
            let rest = " "@ + c.decimal@ + "°（"@ + c.dms@ + "）"@;
            &&& lon.label == "经度"@ && lat.label == "纬度"@
            &&& lon.value.len() == 2 + rest.len() && lat.value.len() == 2 + rest.len()
            &&& lon.value.skip(2) == rest && lat.value.skip(2) == rest
            &&& c.negative ==> lon.value.take(2) == seq!['西', '经'] && lat.value.take(2) == seq!['南', '纬']
            &&& !c.negative ==> lon.value.take(2) == seq!['东', '经'] && lat.value.take(2) == seq!['北', '纬']
        }),
{
    reveal_strlit("西经");
    reveal_strlit("东经");
    reveal_strlit("南纬");
    reveal_strlit("北纬");
    let rest = " "@ + c.decimal@ + "°（"@ + c.dms@ + "）"@;
    let lon = longitude_item(Some(c))->0;
    let lat = latitude_item(Some(c))->0;
    assert(lon.value =~= (if c.negative { "西经"@ } else { "东经"@ }) + rest);
    assert(lat.value =~= (if c.negative { "南纬"@ } else { "北纬"@ }) + rest);
    assert(lon.value.skip(2) =~= rest);
    assert(lat.value.skip(2) =~= rest);
    if c.negative {
        assert(lon.value.take(2) =~= seq!['西', '经']);
        assert(lat.value.take(2) =~= seq!['南', '纬']);
    } else {
        assert(lon.value.take(2) =~= seq!['东', '经']);
        assert(lat.value.take(2) =~= seq!['北', '纬']);
    }
}

} // verus!
