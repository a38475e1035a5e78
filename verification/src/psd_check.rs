//! The structural check a PSD file passes before it is handed to the psd crate: a walk
//! over the same records the crate reads, refusing every file on which one of the
//! crate's readers would index past its input, overflow, meet a part it leaves
//! unimplemented (ZIP channels, unknown slice resource versions, blend modes it cannot
//! blend) or unwrap a missing value.

use vstd::prelude::*;
use crate::bytes::{be16, be32, spec_be16, spec_be32};

verus! {

/// `n` bytes can be read at `pos` without passing `end`.
pub open spec fn can_read(pos: int, end: int, n: int) -> bool {
    0 <= pos && 0 <= n && pos + n <= end
}

/// Signed big-endian 32-bit value at `p`.
pub open spec fn si32(b: Seq<u8>, p: int) -> int {
    if spec_be32(b, p) >= 0x8000_0000 { spec_be32(b, p) - 0x1_0000_0000 } else { spec_be32(b, p) }
}

/// Signed big-endian 16-bit value at `p`.
pub open spec fn si16(b: Seq<u8>, p: int) -> int {
    if spec_be16(b, p) >= 0x8000 { spec_be16(b, p) - 0x1_0000 } else { spec_be16(b, p) }
}

/// An executable position and a specified one agree.
pub open spec fn same_pos(r: Option<usize>, s: Option<int>) -> bool {
    match (r, s) {
        (None, None) => true,
        (Some(a), Some(c)) => a as int == c,
        _ => false,
    }
}

fn read_ok(pos: usize, end: usize, n: u64) -> (r: bool)
    requires
        pos <= end,
    ensures
        r == can_read(pos as int, end as int, n as int),
{
    n <= (end - pos) as u64
}

fn rd_si32(b: &[u8], p: usize) -> (r: i64)
    requires
        p + 4 <= b.len(),
    ensures
        r == si32(b@, p as int),
{
    let v = be32(b, p) as i64;
    if v >= 0x8000_0000 { v - 0x1_0000_0000 } else { v }
}

fn rd_si16(b: &[u8], p: usize) -> (r: i64)
    requires
        p + 2 <= b.len(),
    ensures
        r == si16(b@, p as int),
{
    let v = be16(b, p) as i64;
    if v >= 0x8000 { v - 0x1_0000 } else { v }
}

/// The `n` UTF-16 code units from unit `i` on, at byte `s`, pair their surrogates.
pub open spec fn utf16_ok(b: Seq<u8>, s: int, n: int, i: int) -> bool
    decreases n - i,
{
    if i >= n || i < 0 {
        true
    } else {
        let u = spec_be16(b, s + 2 * i);
        if 0xD800 <= u < 0xDC00 {
            i + 1 < n && 0xDC00 <= spec_be16(b, s + 2 * (i + 1)) < 0xE000 && utf16_ok(b, s, n, i + 2)
        } else if 0xDC00 <= u < 0xE000 {
            false
        } else {
            utf16_ok(b, s, n, i + 1)
        }
    }
}

fn check_utf16(b: &[u8], s: usize, n: usize) -> (r: bool)
    requires
        s + 2 * n <= b.len(),
    ensures
        r == utf16_ok(b@, s as int, n as int, 0),
{
    let mut i: usize = 0;
    while i < n
        invariant
            s + 2 * n <= b.len(),
            utf16_ok(b@, s as int, n as int, 0) == utf16_ok(b@, s as int, n as int, i as int),
        decreases n - i,
    {
        let u = be16(b, s + 2 * i);
        if 0xD800 <= u && u < 0xDC00 {
            if i + 1 >= n {
                return false;
            }
            let v = be16(b, s + 2 * (i + 1));
            if !(0xDC00 <= v && v < 0xE000) {
                return false;
            }
            i = i + 2;
        } else if 0xDC00 <= u && u < 0xE000 {
            return false;
        } else {
            i = i + 1;
        }
    }
    true
}

/// End of a "Unicode string" at `pos` (a 32-bit count of UTF-16 units, the units, then
/// padding of the whole to a multiple of `pad`), when it is readable and well-formed.
pub open spec fn ustr_end(b: Seq<u8>, pos: int, end: int, pad: int) -> Option<int> {
    if !can_read(pos, end, 4) {
        None
    } else {
        let n = spec_be32(b, pos);
        let size = 4 + 2 * n;
        let rem = size % pad;
        let fill = if rem > 0 { pad - rem } else { 0 };
        if 2 * n < 0x1_0000_0000 && can_read(pos + 4, end, 2 * n) && utf16_ok(b, pos + 4, n, 0)
            && can_read(pos + size, end, fill) {
            Some(pos + size + fill)
        } else {
            None
        }
    }
}

fn ustr(b: &[u8], pos: usize, end: usize, pad: usize) -> (r: Option<usize>)
    requires
        pos <= end <= b.len(),
        pad == 1 || pad == 4,
    ensures
        same_pos(r, ustr_end(b@, pos as int, end as int, pad as int)),
        r matches Some(q) ==> pos < q <= end,
{
    if !read_ok(pos, end, 4) {
        return None;
    }
    let n = be32(b, pos) as u64;
    if 2 * n >= 0x1_0000_0000 || !read_ok(pos + 4, end, 2 * n) {
        return None;
    }
    let units = n as usize;
    if !check_utf16(b, pos + 4, units) {
        return None;
    }
    let size = 4 + 2 * n;
    let rem = size % (pad as u64);
    let fill: u64 = if rem > 0 { pad as u64 - rem } else { 0 };
    let at = pos + size as usize;
    if !read_ok(at, end, fill) {
        return None;
    }
    Some(at + fill as usize)
}

/// End of a key at `pos` (a 32-bit length, 0 meaning 4, then the key's bytes).
pub open spec fn key_end(b: Seq<u8>, pos: int, end: int) -> Option<int> {
    if !can_read(pos, end, 4) {
        None
    } else {
        let k = if spec_be32(b, pos) > 0 { spec_be32(b, pos) } else { 4 };
        if can_read(pos + 4, end, k) { Some(pos + 4 + k) } else { None }
    }
}

/// The key at `pos` is four zero bytes.
pub open spec fn key_is_zero(b: Seq<u8>, pos: int) -> bool {
    (spec_be32(b, pos) == 0 || spec_be32(b, pos) == 4) && spec_be32(b, pos + 4) == 0
}

fn key(b: &[u8], pos: usize, end: usize) -> (r: Option<usize>)
    requires
        pos <= end <= b.len(),
    ensures
        same_pos(r, key_end(b@, pos as int, end as int)),
        r matches Some(q) ==> pos < q <= end,
{
    if !read_ok(pos, end, 4) {
        return None;
    }
    let k0 = be32(b, pos);
    let k: u64 = if k0 > 0 { k0 as u64 } else { 4 };
    if !read_ok(pos + 4, end, k) {
        return None;
    }
    Some(pos + 4 + k as usize)
}

/// Four bytes at `p` spell `t`.
pub open spec fn tag_is(b: Seq<u8>, p: int, t: Seq<u8>) -> bool {
    b[p] == t[0] && b[p + 1] == t[1] && b[p + 2] == t[2] && b[p + 3] == t[3]
}

fn tag_eq(b: &[u8], p: usize, t0: u8, t1: u8, t2: u8, t3: u8) -> (r: bool)
    requires
        p + 4 <= b.len(),
    ensures
        r == tag_is(b@, p as int, seq![t0, t1, t2, t3]),
{
    b[p] == t0 && b[p + 1] == t1 && b[p + 2] == t2 && b[p + 3] == t3
}

/// Byte tags of the descriptor grammar.
pub open spec fn tag(a: u8, c: u8, d: u8, e: u8) -> Seq<u8> {
    seq![a, c, d, e]
}

/// End of a descriptor at `pos`: its name, class key and fields. A field, list or
/// reference count larger than the bytes left is refused (the crate reserves room for
/// that many entries before reading them).
pub open spec fn desc_end(b: Seq<u8>, pos: int, end: int) -> Option<int>
    decreases end - pos, 0int,
{
    match ustr_end(b, pos, end, 1) {
        None => None,
        Some(a) => match key_end(b, a, end) {
            None => None,
            Some(c) => if a > pos && c > a && can_read(c, end, 4) && spec_be32(b, c) <= end - (c + 4) {
                fields_end(b, c + 4, end, spec_be32(b, c))
            } else {
                None
            },
        },
    }
}

/// End of `n` keyed fields from `pos`.
pub open spec fn fields_end(b: Seq<u8>, pos: int, end: int, n: int) -> Option<int>
    decreases end - pos, n + 1,
{
    if n <= 0 {
        Some(pos)
    } else {
        match key_end(b, pos, end) {
            None => None,
            Some(a) => if a > pos {
                match field_end(b, a, end) {
                    None => None,
                    Some(c) => if pos < c <= end { fields_end(b, c, end, n - 1) } else { None },
                }
            } else {
                None
            },
        }
    }
}

/// End of `n` list items from `pos`.
pub open spec fn list_end(b: Seq<u8>, pos: int, end: int, n: int) -> Option<int>
    decreases end - pos, n + 1,
{
    if n <= 0 {
        Some(pos)
    } else {
        match field_end(b, pos, end) {
            None => None,
            Some(c) => if pos < c <= end { list_end(b, c, end, n - 1) } else { None },
        }
    }
}

/// End of a class structure (name with padding 4, then a key).
pub open spec fn class_end(b: Seq<u8>, pos: int, end: int) -> Option<int> {
    match ustr_end(b, pos, end, 4) {
        None => None,
        Some(a) => key_end(b, a, end),
    }
}

/// End of `n` reference items from `pos`.
pub open spec fn refs_end(b: Seq<u8>, pos: int, end: int, n: int) -> Option<int>
    decreases end - pos, n + 1,
{
    if n <= 0 {
        Some(pos)
    } else {
        match key_end(b, pos, end) {
            None => None,
            Some(a) => if !can_read(a, end, 4) || a <= pos {
                None
            } else {
                let q = a + 4;
                let item = if tag_is(b, a, tag(0x70, 0x72, 0x6f, 0x70 /* prop */)) {
                    match class_end(b, q, end) { None => None, Some(c) => key_end(b, c, end) }
                } else if tag_is(b, a, tag(0x43, 0x6c, 0x73, 0x73 /* Clss */)) {
                    class_end(b, q, end)
                } else if tag_is(b, a, tag(0x45, 0x6e, 0x6d, 0x72 /* Enmr */)) {
                    match class_end(b, q, end) {
                        None => None,
                        Some(c) => match key_end(b, c, end) { None => None, Some(d) => key_end(b, d, end) },
                    }
                } else if tag_is(b, a, tag(0x72, 0x65, 0x6c, 0x65 /* rele */)) {
                    match class_end(b, q, end) {
                        None => None,
                        Some(c) => if can_read(c, end, 4) { Some(c + 4) } else { None },
                    }
                } else if tag_is(b, a, tag(0x49, 0x64, 0x6e, 0x74 /* Idnt */)) || tag_is(b, a, tag(0x69, 0x6e, 0x64, 0x78 /* indx */)) {
                    if can_read(q, end, 4) { Some(q + 4) } else { None }
                } else if tag_is(b, a, tag(0x6e, 0x61, 0x6d, 0x65 /* name */)) {
                    match class_end(b, q, end) { None => None, Some(c) => ustr_end(b, c, end, 4) }
                } else {
                    None
                };
                match item {
                    None => None,
                    Some(c) => if pos < c <= end { refs_end(b, c, end, n - 1) } else { None },
                }
            },
        }
    }
}

/// The kind of a descriptor field type tag at `p` (0 for an unknown one).
pub open spec fn field_kind(b: Seq<u8>, p: int) -> int {
    if tag_is(b, p, tag(0x6f, 0x62, 0x6a, 0x20 /* obj  */)) { 1 }
    else if tag_is(b, p, tag(0x4f, 0x62, 0x6a, 0x63 /* Objc */)) || tag_is(b, p, tag(0x47, 0x6c, 0x62, 0x4f /* GlbO */)) { 2 }
    else if tag_is(b, p, tag(0x56, 0x6c, 0x4c, 0x73 /* VlLs */)) { 3 }
    else if tag_is(b, p, tag(0x64, 0x6f, 0x75, 0x62 /* doub */)) || tag_is(b, p, tag(0x63, 0x6f, 0x6d, 0x70 /* comp */)) { 4 }
    else if tag_is(b, p, tag(0x6c, 0x6f, 0x6e, 0x67 /* long */)) { 5 }
    else if tag_is(b, p, tag(0x62, 0x6f, 0x6f, 0x6c /* bool */)) { 6 }
    else if tag_is(b, p, tag(0x55, 0x6e, 0x74, 0x46 /* UntF */)) { 7 }
    else if tag_is(b, p, tag(0x54, 0x45, 0x58, 0x54 /* TEXT */)) { 8 }
    else if tag_is(b, p, tag(0x65, 0x6e, 0x75, 0x6d /* enum */)) { 9 }
    else if tag_is(b, p, tag(0x74, 0x79, 0x70, 0x65 /* type */)) || tag_is(b, p, tag(0x47, 0x6c, 0x62, 0x43 /* GlbC */)) { 10 }
    else if tag_is(b, p, tag(0x61, 0x6c, 0x69, 0x73 /* alis */)) || tag_is(b, p, tag(0x74, 0x64, 0x74, 0x61 /* tdta */)) { 11 }
    else { 0 }
}

/// Size of the value of a unit float whose unit tag is at `q` (`None` for an unknown unit).
pub open spec fn unit_size(b: Seq<u8>, q: int) -> Option<int> {
    if tag_is(b, q, tag(0x23, 0x4e, 0x6e, 0x65 /* #Nne */)) {
        Some(0)
    } else if tag_is(b, q, tag(0x23, 0x41, 0x6e, 0x67 /* #Ang */)) || tag_is(b, q, tag(0x23, 0x52, 0x73, 0x6c /* #Rsl */))
        || tag_is(b, q, tag(0x23, 0x52, 0x6c, 0x74 /* #Rlt */)) || tag_is(b, q, tag(0x23, 0x50, 0x72, 0x63 /* #Prc */))
        || tag_is(b, q, tag(0x23, 0x50, 0x78, 0x6c /* #Pxl */)) {
        Some(8)
    } else {
        None
    }
}

/// End of one typed field at `pos` (its 4-byte type, then its value).
pub open spec fn field_end(b: Seq<u8>, pos: int, end: int) -> Option<int>
    decreases end - pos, 0int,
{
    if !can_read(pos, end, 4) {
        None
    } else {
        let q = pos + 4;
        let k = field_kind(b, pos);
        if k == 1 {
            if can_read(q, end, 4) && spec_be32(b, q) <= end - (q + 4) { refs_end(b, q + 4, end, spec_be32(b, q)) } else { None }
        } else if k == 2 {
            desc_end(b, q, end)
        } else if k == 3 {
            if can_read(q, end, 4) && spec_be32(b, q) <= end - (q + 4) { list_end(b, q + 4, end, spec_be32(b, q)) } else { None }
        } else if k == 4 {
            if can_read(q, end, 8) { Some(q + 8) } else { None }
        } else if k == 5 {
            if can_read(q, end, 4) { Some(q + 4) } else { None }
        } else if k == 6 {
            if can_read(q, end, 1) { Some(q + 1) } else { None }
        } else if k == 7 {
            if !can_read(q, end, 4) {
                None
            } else {
                match unit_size(b, q) {
                    None => None,
                    Some(z) => if can_read(q + 4, end, z) { Some(q + 4 + z) } else { None },
                }
            }
        } else if k == 8 {
            ustr_end(b, q, end, 1)
        } else if k == 9 {
            match key_end(b, q, end) { None => None, Some(c) => key_end(b, c, end) }
        } else if k == 10 {
            class_end(b, q, end)
        } else if k == 11 {
            if can_read(q, end, 4) && can_read(q + 4, end, spec_be32(b, q)) {
                Some(q + 4 + spec_be32(b, q))
            } else {
                None
            }
        } else {
            None
        }
    }
}

fn class(b: &[u8], pos: usize, end: usize) -> (r: Option<usize>)
    requires
        pos <= end <= b.len(),
    ensures
        same_pos(r, class_end(b@, pos as int, end as int)),
        r matches Some(q) ==> pos < q <= end,
{
    match ustr(b, pos, end, 4) {
        None => None,
        Some(a) => key(b, a, end),
    }
}

fn desc(b: &[u8], pos: usize, end: usize) -> (r: Option<usize>)
    requires
        pos <= end <= b.len(),
    ensures
        same_pos(r, desc_end(b@, pos as int, end as int)),
        r matches Some(q) ==> pos < q <= end,
    decreases end - pos, 0int,
{
    let a = match ustr(b, pos, end, 1) {
        None => return None,
        Some(a) => a,
    };
    let c = match key(b, a, end) {
        None => return None,
        Some(c) => c,
    };
    if !read_ok(c, end, 4) {
        return None;
    }
    let n = be32(b, c) as u64;
    if n > (end - (c + 4)) as u64 {
        return None;
    }
    fields(b, c + 4, end, n)
}

fn fields(b: &[u8], pos: usize, end: usize, n: u64) -> (r: Option<usize>)
    requires
        pos <= end <= b.len(),
    ensures
        same_pos(r, fields_end(b@, pos as int, end as int, n as int)),
        r matches Some(q) ==> pos <= q <= end,
    decreases end - pos, n + 1,
{
    let mut p = pos;
    let mut k = n;
    while k > 0
        invariant
            pos <= p <= end <= b.len(),
            k <= n,
            fields_end(b@, pos as int, end as int, n as int) == fields_end(b@, p as int, end as int, k as int),
        decreases k,
    {
        let a = match key(b, p, end) {
            None => return None,
            Some(a) => a,
        };
        let c = match field(b, a, end) {
            None => return None,
            Some(c) => c,
        };
        p = c;
        k = k - 1;
    }
    Some(p)
}

fn list(b: &[u8], pos: usize, end: usize, n: u64) -> (r: Option<usize>)
    requires
        pos <= end <= b.len(),
    ensures
        same_pos(r, list_end(b@, pos as int, end as int, n as int)),
        r matches Some(q) ==> pos <= q <= end,
    decreases end - pos, n + 1,
{
    let mut p = pos;
    let mut k = n;
    while k > 0
        invariant
            pos <= p <= end <= b.len(),
            k <= n,
            list_end(b@, pos as int, end as int, n as int) == list_end(b@, p as int, end as int, k as int),
        decreases k,
    {
        let c = match field(b, p, end) {
            None => return None,
            Some(c) => c,
        };
        p = c;
        k = k - 1;
    }
    Some(p)
}

#[verifier::rlimit(60)]
fn refs(b: &[u8], pos: usize, end: usize, n: u64) -> (r: Option<usize>)
    requires
        pos <= end <= b.len(),
    ensures
        same_pos(r, refs_end(b@, pos as int, end as int, n as int)),
        r matches Some(q) ==> pos <= q <= end,
{
    let mut p = pos;
    let mut k = n;
    while k > 0
        invariant
            pos <= p <= end <= b.len(),
            k <= n,
            refs_end(b@, pos as int, end as int, n as int) == refs_end(b@, p as int, end as int, k as int),
        decreases k,
    {
        let a = match key(b, p, end) {
            None => return None,
            Some(a) => a,
        };
        if !read_ok(a, end, 4) {
            return None;
        }
        let q = a + 4;
        let item: Option<usize> = if tag_eq(b, a, 0x70, 0x72, 0x6f, 0x70 /* prop */) {
            match class(b, q, end) { None => None, Some(c) => key(b, c, end) }
        } else if tag_eq(b, a, 0x43, 0x6c, 0x73, 0x73 /* Clss */) {
            class(b, q, end)
        } else if tag_eq(b, a, 0x45, 0x6e, 0x6d, 0x72 /* Enmr */) {
            match class(b, q, end) {
                None => None,
                Some(c) => match key(b, c, end) { None => None, Some(d) => key(b, d, end) },
            }
        } else if tag_eq(b, a, 0x72, 0x65, 0x6c, 0x65 /* rele */) {
            match class(b, q, end) {
                None => None,
                Some(c) => if read_ok(c, end, 4) { Some(c + 4) } else { None },
            }
        } else if tag_eq(b, a, 0x49, 0x64, 0x6e, 0x74 /* Idnt */) || tag_eq(b, a, 0x69, 0x6e, 0x64, 0x78 /* indx */) {
            if read_ok(q, end, 4) { Some(q + 4) } else { None }
        } else if tag_eq(b, a, 0x6e, 0x61, 0x6d, 0x65 /* name */) {
            match class(b, q, end) { None => None, Some(c) => ustr(b, c, end, 4) }
        } else {
            None
        };
        match item {
            None => return None,
            Some(c) => { p = c; },
        }
        k = k - 1;
    }
    Some(p)
}

fn kind_of_field(b: &[u8], p: usize) -> (k: u8)
    requires
        p + 4 <= b.len(),
    ensures
        k as int == field_kind(b@, p as int),
{
    if tag_eq(b, p, 0x6f, 0x62, 0x6a, 0x20 /* obj  */) { 1 }
    else if tag_eq(b, p, 0x4f, 0x62, 0x6a, 0x63 /* Objc */) || tag_eq(b, p, 0x47, 0x6c, 0x62, 0x4f /* GlbO */) { 2 }
    else if tag_eq(b, p, 0x56, 0x6c, 0x4c, 0x73 /* VlLs */) { 3 }
    else if tag_eq(b, p, 0x64, 0x6f, 0x75, 0x62 /* doub */) || tag_eq(b, p, 0x63, 0x6f, 0x6d, 0x70 /* comp */) { 4 }
    else if tag_eq(b, p, 0x6c, 0x6f, 0x6e, 0x67 /* long */) { 5 }
    else if tag_eq(b, p, 0x62, 0x6f, 0x6f, 0x6c /* bool */) { 6 }
    else if tag_eq(b, p, 0x55, 0x6e, 0x74, 0x46 /* UntF */) { 7 }
    else if tag_eq(b, p, 0x54, 0x45, 0x58, 0x54 /* TEXT */) { 8 }
    else if tag_eq(b, p, 0x65, 0x6e, 0x75, 0x6d /* enum */) { 9 }
    else if tag_eq(b, p, 0x74, 0x79, 0x70, 0x65 /* type */) || tag_eq(b, p, 0x47, 0x6c, 0x62, 0x43 /* GlbC */) { 10 }
    else if tag_eq(b, p, 0x61, 0x6c, 0x69, 0x73 /* alis */) || tag_eq(b, p, 0x74, 0x64, 0x74, 0x61 /* tdta */) { 11 }
    else { 0 }
}

fn unit(b: &[u8], q: usize) -> (r: Option<u64>)
    requires
        q + 4 <= b.len(),
    ensures
        match (r, unit_size(b@, q as int)) {
            (None, None) => true,
            (Some(x), Some(y)) => x as int == y,
            _ => false,
        },
{
    if tag_eq(b, q, 0x23, 0x4e, 0x6e, 0x65 /* #Nne */) {
        Some(0)
    } else if tag_eq(b, q, 0x23, 0x41, 0x6e, 0x67 /* #Ang */) || tag_eq(b, q, 0x23, 0x52, 0x73, 0x6c /* #Rsl */)
        || tag_eq(b, q, 0x23, 0x52, 0x6c, 0x74 /* #Rlt */) || tag_eq(b, q, 0x23, 0x50, 0x72, 0x63 /* #Prc */)
        || tag_eq(b, q, 0x23, 0x50, 0x78, 0x6c /* #Pxl */) {
        Some(8)
    } else {
        None
    }
}

fn field(b: &[u8], pos: usize, end: usize) -> (r: Option<usize>)
    requires
        pos <= end <= b.len(),
    ensures
        same_pos(r, field_end(b@, pos as int, end as int)),
        r matches Some(q) ==> pos < q <= end,
    decreases end - pos, 0int,
{
    if !read_ok(pos, end, 4) {
        return None;
    }
    let q = pos + 4;
    let k = kind_of_field(b, pos);
    if k == 1 {
        if read_ok(q, end, 4) && be32(b, q) as u64 <= (end - (q + 4)) as u64 { refs(b, q + 4, end, be32(b, q) as u64) } else { None }
    } else if k == 2 {
        desc(b, q, end)
    } else if k == 3 {
        if read_ok(q, end, 4) && be32(b, q) as u64 <= (end - (q + 4)) as u64 { list(b, q + 4, end, be32(b, q) as u64) } else { None }
    } else if k == 4 {
        if read_ok(q, end, 8) { Some(q + 8) } else { None }
    } else if k == 5 {
        if read_ok(q, end, 4) { Some(q + 4) } else { None }
    } else if k == 6 {
        if read_ok(q, end, 1) { Some(q + 1) } else { None }
    } else if k == 7 {
        if !read_ok(q, end, 4) {
            None
        } else {
            match unit(b, q) {
                None => None,
                Some(z) => if read_ok(q + 4, end, z) { Some(q + 4 + z as usize) } else { None },
            }
        }
    } else if k == 8 {
        ustr(b, q, end, 1)
    } else if k == 9 {
        match key(b, q, end) { None => None, Some(c) => key(b, c, end) }
    } else if k == 10 {
        class(b, q, end)
    } else if k == 11 {
        if read_ok(q, end, 4) && read_ok(q + 4, end, be32(b, q) as u64) {
            Some(q + 4 + be32(b, q) as usize)
        } else {
            None
        }
    } else {
        None
    }
}

/// End of one slice of a version-6 slices resource at `p`; a slice whose trailing
/// descriptor has an all-zero class is re-read from before that descriptor.
pub open spec fn slice_end(b: Seq<u8>, p: int, e: int) -> Option<int> {
    if !can_read(p, e, 12) {
        None
    } else {
        let q = p + 12 + if si32(b, p + 8) == 1 { 4int } else { 0int };
        if !can_read(p + 12, e, q - p - 12) {
            None
        } else {
            match ustr_end(b, q, e, 1) {
                None => None,
                Some(a1) => if !can_read(a1, e, 20) {
                    None
                } else {
                    match ustr_end(b, a1 + 20, e, 1) {
                        None => None,
                        Some(a3) => match ustr_end(b, a3, e, 1) {
                            None => None,
                            Some(a4) => match ustr_end(b, a4, e, 1) {
                                None => None,
                                Some(a5) => match ustr_end(b, a5, e, 1) {
                                    None => None,
                                    Some(a6) => if !can_read(a6, e, 1) {
                                        None
                                    } else {
                                        match ustr_end(b, a6 + 1, e, 1) {
                                            None => None,
                                            Some(a8) => if !can_read(a8, e, 16) {
                                                None
                                            } else {
                                                let pos = a8 + 12;
                                                if spec_be32(b, pos) == 16 {
                                                    match desc_end(b, pos + 4, e) {
                                                        None => None,
                                                        Some(d) => if key_is_zero(b, ustr_end(b, pos + 4, e, 1)->0) {
                                                            Some(pos)
                                                        } else {
                                                            Some(d)
                                                        },
                                                    }
                                                } else {
                                                    Some(pos)
                                                }
                                            },
                                        }
                                    },
                                },
                            },
                        },
                    }
                },
            }
        }
    }
}

/// End of `n` slices from `p`.
pub open spec fn slices_end(b: Seq<u8>, p: int, e: int, n: int) -> Option<int>
    decreases n,
{
    if n <= 0 {
        Some(p)
    } else {
        match slice_end(b, p, e) {
            None => None,
            Some(q) => slices_end(b, q, e, n - 1),
        }
    }
}

/// The slices resource whose data is `b[s..e]` is read without a panic: version 6
/// with its slices, or version 7 or 8 with a version-16 descriptor.
pub open spec fn slices_ok(b: Seq<u8>, s: int, e: int) -> bool {
    if !can_read(s, e, 4) {
        false
    } else if si32(b, s) == 6 {
        can_read(s + 4, e, 16) && match ustr_end(b, s + 20, e, 1) {
            None => false,
            Some(a) => can_read(a, e, 4) && slices_end(b, a + 4, e, spec_be32(b, a)) is Some,
        }
    } else if si32(b, s) == 7 || si32(b, s) == 8 {
        can_read(s + 4, e, 4) && spec_be32(b, s + 4) == 16 && desc_end(b, s + 8, e) is Some
    } else {
        false
    }
}

/// End of one image resource block at `p` (signature "8BIM", id, Pascal name padded to
/// even, 32-bit data length padded to even, data); the slices resource (id 1050) is read.
pub open spec fn res_block_end(b: Seq<u8>, p: int, e: int) -> Option<int> {
    if !can_read(p, e, 7) || !tag_is(b, p, tag(0x38, 0x42, 0x49, 0x4d /* 8BIM */)) {
        None
    } else {
        let nl = b[p + 6] as int;
        let q = p + 7 + nl + if nl % 2 == 0 { 1int } else { 0int };
        if !can_read(p + 7, e, q - p - 7) || !can_read(q, e, 4) {
            None
        } else {
            let dl = spec_be32(b, q);
            let pd = dl + dl % 2;
            if dl == 0xffff_ffff || !can_read(q + 4, e, pd) {
                None
            } else if si16(b, p + 4) == 1050 && !slices_ok(b, q + 4, q + 4 + pd) {
                None
            } else {
                Some(q + 4 + pd)
            }
        }
    }
}

/// Walk of the resource blocks from `p` while `p - base` is below `len`.
pub open spec fn res_walk(b: Seq<u8>, base: int, p: int, e: int, len: int) -> Option<int>
    decreases e - p,
{
    if p - base >= len {
        Some(p)
    } else {
        match res_block_end(b, p, e) {
            None => None,
            Some(q) => if p < q <= e { res_walk(b, base, q, e, len) } else { None },
        }
    }
}

/// The image resources section `b[r..e]` (its length field first) is read without a
/// panic: the blocks end exactly at the end of the section.
pub open spec fn resources_ok(b: Seq<u8>, r: int, e: int) -> bool {
    can_read(r, e, 4) && match res_walk(b, r, r + 4, e, spec_be32(b, r)) {
        None => false,
        Some(p) => p - r == spec_be32(b, r) + 4,
    }
}

#[verifier::rlimit(60)]
fn slice(b: &[u8], p: usize, e: usize) -> (r: Option<usize>)
    requires
        p <= e <= b.len(),
    ensures
        same_pos(r, slice_end(b@, p as int, e as int)),
        r matches Some(q) ==> p < q <= e,
{
    if !read_ok(p, e, 12) {
        return None;
    }
    let extra: u64 = if rd_si32(b, p + 8) == 1 { 4 } else { 0 };
    if !read_ok(p + 12, e, extra) {
        return None;
    }
    let q = p + 12 + extra as usize;
    let a1 = match ustr(b, q, e, 1) { None => return None, Some(x) => x };
    if !read_ok(a1, e, 20) {
        return None;
    }
    let a3 = match ustr(b, a1 + 20, e, 1) { None => return None, Some(x) => x };
    let a4 = match ustr(b, a3, e, 1) { None => return None, Some(x) => x };
    let a5 = match ustr(b, a4, e, 1) { None => return None, Some(x) => x };
    let a6 = match ustr(b, a5, e, 1) { None => return None, Some(x) => x };
    if !read_ok(a6, e, 1) {
        return None;
    }
    let a8 = match ustr(b, a6 + 1, e, 1) { None => return None, Some(x) => x };
    if !read_ok(a8, e, 16) {
        return None;
    }
    let pos = a8 + 12;
    if be32(b, pos) == 16 {
        match desc(b, pos + 4, e) {
            None => None,
            Some(d) => {
                let a = ustr(b, pos + 4, e, 1);
                match a {
                    Some(a) => {
                        if read_ok(a, e, 8) && (be32(b, a) == 0 || be32(b, a) == 4) && be32(b, a + 4) == 0 {
                            Some(pos)
                        } else {
                            if !read_ok(a, e, 8) {
                                assert(key_end(b@, a as int, e as int) is Some);
                                assert(desc_end(b@, (pos + 4) as int, e as int) is Some);
                            }
                            Some(d)
                        }
                    },
                    None => None,
                }
            },
        }
    } else {
        Some(pos)
    }
}

fn slices(b: &[u8], p: usize, e: usize, n: u64) -> (r: Option<usize>)
    requires
        p <= e <= b.len(),
    ensures
        same_pos(r, slices_end(b@, p as int, e as int, n as int)),
{
    let mut q = p;
    let mut k = n;
    while k > 0
        invariant
            p <= q <= e <= b.len(),
            k <= n,
            slices_end(b@, p as int, e as int, n as int) == slices_end(b@, q as int, e as int, k as int),
        decreases k,
    {
        match slice(b, q, e) {
            None => return None,
            Some(x) => { q = x; },
        }
        k = k - 1;
    }
    Some(q)
}

fn slices_check(b: &[u8], s: usize, e: usize) -> (r: bool)
    requires
        s <= e <= b.len(),
    ensures
        r == slices_ok(b@, s as int, e as int),
{
    if !read_ok(s, e, 4) {
        return false;
    }
    let v = rd_si32(b, s);
    if v == 6 {
        if !read_ok(s + 4, e, 16) {
            return false;
        }
        match ustr(b, s + 20, e, 1) {
            None => false,
            Some(a) => read_ok(a, e, 4) && slices(b, a + 4, e, be32(b, a) as u64).is_some(),
        }
    } else if v == 7 || v == 8 {
        read_ok(s + 4, e, 4) && be32(b, s + 4) == 16 && desc(b, s + 8, e).is_some()
    } else {
        false
    }
}

fn res_block(b: &[u8], p: usize, e: usize) -> (r: Option<usize>)
    requires
        p <= e <= b.len(),
    ensures
        same_pos(r, res_block_end(b@, p as int, e as int)),
        r matches Some(q) ==> p < q <= e,
{
    if !read_ok(p, e, 7) || !tag_eq(b, p, 0x38, 0x42, 0x49, 0x4d /* 8BIM */) {
        return None;
    }
    let nl = b[p + 6] as u64;
    let skip: u64 = nl + if nl % 2 == 0 { 1 } else { 0 };
    if !read_ok(p + 7, e, skip) {
        return None;
    }
    let q = p + 7 + skip as usize;
    if !read_ok(q, e, 4) {
        return None;
    }
    let dl = be32(b, q) as u64;
    let pd = dl + dl % 2;
    if dl == 0xffff_ffff || !read_ok(q + 4, e, pd) {
        return None;
    }
    let end = q + 4 + pd as usize;
    if rd_si16(b, p + 4) == 1050 && !slices_check(b, q + 4, end) {
        return None;
    }
    Some(end)
}

fn resources_check(b: &[u8], r: usize, e: usize) -> (ok: bool)
    requires
        r <= e <= b.len(),
    ensures
        ok == resources_ok(b@, r as int, e as int),
{
    if !read_ok(r, e, 4) {
        return false;
    }
    let len = be32(b, r) as usize;
    let mut p = r + 4;
    while p - r < len
        invariant
            r + 4 <= p <= e <= b.len(),
            len == spec_be32(b@, r as int),
            res_walk(b@, r as int, (r + 4) as int, e as int, len as int)
                == res_walk(b@, r as int, p as int, e as int, len as int),
        decreases e - p,
    {
        match res_block(b, p, e) {
            None => return false,
            Some(q) => { p = q; },
        }
    }
    (p - r) as u64 == len as u64 + 4
}

/// What a layer record holds for the checks: its rectangle (bottom and right already
/// made inclusive, as the crate does), its channels (id, data length after the 2-byte
/// compression), blend-mode key, opacity, clipping and flag bytes, and its section
/// divider type (-1 for none).
pub struct RecordView {
    pub top: int,
    pub left: int,
    pub bottom: int,
    pub right: int,
    pub channels: Seq<(int, int)>,
    pub key: Seq<u8>,
    pub opacity: int,
    pub clipping: int,
    pub flags: int,
    pub divider: int,
}

/// A layer record as read by the check.
pub struct LayerRecordInfo {
    top: i64,
    left: i64,
    bottom: i64,
    right: i64,
    channels: Vec<(i64, u64)>,
    key: (u8, u8, u8, u8),
    opacity: u8,
    clipping: u8,
    flags: u8,
    divider: i64,
}

impl LayerRecordInfo {
    /// Abstract value.
    pub closed spec fn view(&self) -> RecordView {
        RecordView {
            top: self.top as int,
            left: self.left as int,
            bottom: self.bottom as int,
            right: self.right as int,
            channels: Seq::new(self.channels@.len(), |i: int| (self.channels@[i].0 as int, self.channels@[i].1 as int)),
            key: seq![self.key.0, self.key.1, self.key.2, self.key.3],
            opacity: self.opacity as int,
            clipping: self.clipping as int,
            flags: self.flags as int,
            divider: self.divider as int,
        }
    }
}

/// Channel ids the crate knows: red, green, blue and the three masks.
pub open spec fn known_channel(id: int) -> bool {
    id == 0 || id == 1 || id == 2 || id == -1 || id == -2 || id == -3
}

/// The `n` channel entries at `p` (6 bytes each) are readable, known, and give a data
/// length of at least the 2 compression bytes.
pub open spec fn chans_ok(b: Seq<u8>, p: int, e: int, n: int) -> bool {
    &&& can_read(p, e, 6 * n)
    &&& forall|i: int| 0 <= i < n ==> known_channel(#[trigger] si16(b, p + 6 * i)) && spec_be32(b, p + 6 * i + 2) >= 2
}

/// The channel entries at `p`: (id, data length).
pub open spec fn chans_of(b: Seq<u8>, p: int, n: int) -> Seq<(int, int)> {
    Seq::new(n as nat, |i: int| (si16(b, p + 6 * i), spec_be32(b, p + 6 * i + 2) - 2))
}

/// Blend-mode keys the crate knows.
pub open spec fn known_blend(k: Seq<u8>) -> bool {
    k == tag(0x70, 0x61, 0x73, 0x73 /* pass */) || k == tag(0x6e, 0x6f, 0x72, 0x6d /* norm */)
    || k == tag(0x64, 0x69, 0x73, 0x73 /* diss */) || k == tag(0x64, 0x61, 0x72, 0x6b /* dark */)
    || k == tag(0x6d, 0x75, 0x6c, 0x20 /* mul  */) || k == tag(0x69, 0x64, 0x69, 0x76 /* idiv */)
    || k == tag(0x6c, 0x62, 0x72, 0x6e /* lbrn */) || k == tag(0x64, 0x6b, 0x43, 0x6c /* dkCl */)
    || k == tag(0x6c, 0x69, 0x74, 0x65 /* lite */) || k == tag(0x73, 0x63, 0x72, 0x6e /* scrn */)
    || k == tag(0x64, 0x69, 0x76, 0x20 /* div  */) || k == tag(0x6c, 0x64, 0x64, 0x67 /* lddg */)
    || k == tag(0x6c, 0x67, 0x43, 0x6c /* lgCl */) || k == tag(0x6f, 0x76, 0x65, 0x72 /* over */)
    || k == tag(0x73, 0x4c, 0x69, 0x74 /* sLit */) || k == tag(0x68, 0x4c, 0x69, 0x74 /* hLit */)
    || k == tag(0x76, 0x4c, 0x69, 0x74 /* vLit */) || k == tag(0x6c, 0x4c, 0x69, 0x74 /* lLit */)
    || k == tag(0x70, 0x4c, 0x69, 0x74 /* pLit */) || k == tag(0x68, 0x4d, 0x69, 0x78 /* hMix */)
    || k == tag(0x64, 0x69, 0x66, 0x66 /* diff */) || k == tag(0x73, 0x6d, 0x75, 0x64 /* smud */)
    || k == tag(0x66, 0x73, 0x75, 0x62 /* fsub */) || k == tag(0x66, 0x64, 0x69, 0x76 /* fdiv */)
    || k == tag(0x68, 0x75, 0x65, 0x20 /* hue  */) || k == tag(0x73, 0x61, 0x74, 0x20 /* sat  */)
    || k == tag(0x63, 0x6f, 0x6c, 0x72 /* colr */) || k == tag(0x6c, 0x75, 0x6d, 0x20 /* lum  */)
}

/// Blend-mode keys the crate can blend (the others reach `unimplemented!`).
pub open spec fn blendable(k: Seq<u8>) -> bool {
    k == tag(0x6e, 0x6f, 0x72, 0x6d /* norm */) || k == tag(0x64, 0x61, 0x72, 0x6b /* dark */)
    || k == tag(0x6d, 0x75, 0x6c, 0x20 /* mul  */) || k == tag(0x69, 0x64, 0x69, 0x76 /* idiv */)
    || k == tag(0x6c, 0x62, 0x72, 0x6e /* lbrn */) || k == tag(0x6c, 0x69, 0x74, 0x65 /* lite */)
    || k == tag(0x73, 0x63, 0x72, 0x6e /* scrn */) || k == tag(0x64, 0x69, 0x76, 0x20 /* div  */)
    || k == tag(0x6c, 0x64, 0x64, 0x67 /* lddg */) || k == tag(0x6f, 0x76, 0x65, 0x72 /* over */)
    || k == tag(0x73, 0x4c, 0x69, 0x74 /* sLit */) || k == tag(0x68, 0x4c, 0x69, 0x74 /* hLit */)
    || k == tag(0x64, 0x69, 0x66, 0x66 /* diff */) || k == tag(0x73, 0x6d, 0x75, 0x64 /* smud */)
    || k == tag(0x66, 0x73, 0x75, 0x62 /* fsub */) || k == tag(0x66, 0x64, 0x69, 0x76 /* fdiv */)
}

/// The additional layer information blocks from `p` (each "8BIM" or "8B64", a key, a
/// 32-bit length): end position and section divider type. "luni" holds a Unicode
/// name; "lsct" a divider type (and, for lengths of 12 and 16, more fields); others
/// are skipped by their length. The walk stops at the first other signature; four bytes
/// must be there to look at.
pub open spec fn extras_end(b: Seq<u8>, p: int, e: int, div: int) -> Option<(int, int)>
    decreases e - p,
{
    if !can_read(p, e, 4) {
        None
    } else if !tag_is(b, p, tag(0x38, 0x42, 0x49, 0x4d /* 8BIM */)) && !tag_is(b, p, tag(0x38, 0x42, 0x36, 0x34 /* 8B64 */)) {
        Some((p, div))
    } else if !can_read(p, e, 12) {
        None
    } else {
        let len = spec_be32(b, p + 8);
        let q = p + 12;
        let next: Option<(int, int)> = if tag_is(b, p + 4, tag(0x6c, 0x75, 0x6e, 0x69 /* luni */)) {
            if ustr_end(b, q, e, 1) is Some { Some((q + len, div)) } else { None }
        } else if tag_is(b, p + 4, tag(0x6c, 0x73, 0x63, 0x74 /* lsct */)) {
            let d = si32(b, q);
            let nd = if 0 <= d <= 3 { d } else { -1 };
            let more = (if len >= 12 { 8int } else { 0int }) + (if len >= 16 { 4int } else { 0int });
            if can_read(q, e, 4 + more) { Some((q + 4 + more, nd)) } else { None }
        } else {
            if can_read(q, e, len) { Some((q + len, div)) } else { None }
        };
        match next {
            None => None,
            Some((n, d)) => if p < n <= e { extras_end(b, n, e, d) } else { None },
        }
    }
}

/// A layer record at `p`: its end and what it holds, when every read stays in bounds,
/// its channels and blend key are known, and no arithmetic of the crate overflows.
pub open spec fn record_at(b: Seq<u8>, p: int, e: int) -> Option<(int, RecordView)> {
    if !can_read(p, e, 18) {
        None
    } else {
        let top = si32(b, p);
        let left = si32(b, p + 4);
        let bot = si32(b, p + 8);
        let right = si32(b, p + 12);
        let n = spec_be16(b, p + 16);
        let p2 = p + 18 + 6 * n;
        if bot == -0x8000_0000 || right == -0x8000_0000 || !chans_ok(b, p + 18, e, n) || !can_read(p2, e, 16) {
            None
        } else {
            let key = seq![b[p2 + 4], b[p2 + 5], b[p2 + 6], b[p2 + 7]];
            let p5 = p2 + 16;
            if !known_blend(key) || !can_read(p5, e, 4) {
                None
            } else {
                let ml = spec_be32(b, p5);
                let p6 = p5 + 4 + ml;
                if !can_read(p5 + 4, e, ml) || !can_read(p6, e, 4) {
                    None
                } else {
                    let bl = spec_be32(b, p6);
                    let p7 = p6 + 4 + bl;
                    if !can_read(p6 + 4, e, bl) || !can_read(p7, e, 1) {
                        None
                    } else {
                        let nl = b[p7] as int;
                        let pad = (4 - (nl + 1) % 4) % 4;
                        if nl == 255 || !can_read(p7 + 1, e, nl + pad) {
                            None
                        } else {
                            match extras_end(b, p7 + 1 + nl + pad, e, -1) {
                                None => None,
                                Some((q, div)) => Some((q, RecordView {
                                    top,
                                    left,
                                    bottom: if bot == 0 { 0 } else { bot - 1 },
                                    right: if right == 0 { 0 } else { right - 1 },
                                    channels: chans_of(b, p + 18, n),
                                    key,
                                    opacity: b[p2 + 8] as int,
                                    clipping: b[p2 + 9] as int,
                                    flags: b[p2 + 10] as int,
                                    divider: div,
                                })),
                            }
                        }
                    }
                }
            }
        }
    }
}

/// `n` layer records from `p`: the end and the records.
pub open spec fn records_at(b: Seq<u8>, p: int, e: int, n: int) -> Option<(int, Seq<RecordView>)>
    decreases n,
{
    if n <= 0 {
        Some((p, Seq::empty()))
    } else {
        match record_at(b, p, e) {
            None => None,
            Some((q, r)) => match records_at(b, q, e, n - 1) {
                None => None,
                Some((z, rs)) => Some((z, seq![r] + rs)),
            },
        }
    }
}

fn extras(b: &[u8], p0: usize, e: usize) -> (r: Option<(usize, i64)>)
    requires
        p0 <= e <= b.len(),
    ensures
        match (r, extras_end(b@, p0 as int, e as int, -1)) {
            (None, None) => true,
            (Some((q, d)), Some((sq, sd))) => q as int == sq && d as int == sd && p0 <= q <= e,
            _ => false,
        },
{
    let mut p = p0;
    let mut div: i64 = -1;
    loop
        invariant
            p0 <= p <= e <= b.len(),
            extras_end(b@, p0 as int, e as int, -1) == extras_end(b@, p as int, e as int, div as int),
            -1 <= div <= 3,
        decreases e - p,
    {
        if !read_ok(p, e, 4) {
            return None;
        }
        if !tag_eq(b, p, 0x38, 0x42, 0x49, 0x4d /* 8BIM */) && !tag_eq(b, p, 0x38, 0x42, 0x36, 0x34 /* 8B64 */) {
            return Some((p, div));
        }
        if !read_ok(p, e, 12) {
            return None;
        }
        let len = be32(b, p + 8) as u64;
        let q = p + 12;
        let next: usize;
        if tag_eq(b, p + 4, 0x6c, 0x75, 0x6e, 0x69 /* luni */) {
            if ustr(b, q, e, 1).is_none() {
                return None;
            }
            if len > (e - q) as u64 {
                return None;
            }
            next = q + len as usize;
        } else if tag_eq(b, p + 4, 0x6c, 0x73, 0x63, 0x74 /* lsct */) {
            if !read_ok(q, e, 4) {
                return None;
            }
            let d = rd_si32(b, q);
            let more: u64 = (if len >= 12 { 8 } else { 0 }) + (if len >= 16 { 4 } else { 0 });
            if !read_ok(q, e, 4 + more) {
                return None;
            }
            div = if 0 <= d && d <= 3 { d } else { -1 };
            next = q + 4 + more as usize;
        } else {
            if !read_ok(q, e, len) {
                return None;
            }
            next = q + len as usize;
        }
        p = next;
    }
}

fn read_chans(b: &[u8], p: usize, e: usize, n: usize) -> (r: Option<Vec<(i64, u64)>>)
    requires
        p <= e <= b.len(),
        n <= 0xffff,
    ensures
        r is Some <==> chans_ok(b@, p as int, e as int, n as int),
        r matches Some(v) ==> Seq::new(v@.len(), |i: int| (v@[i].0 as int, v@[i].1 as int))
            == chans_of(b@, p as int, n as int),
{
    if !read_ok(p, e, 6 * n as u64) {
        return None;
    }
    let mut v: Vec<(i64, u64)> = Vec::new();
    let mut i: usize = 0;
    while i < n
        invariant
            i <= n,
            p + 6 * n <= e <= b.len(),
            v@.len() == i,
            forall|j: int| 0 <= j < i ==> known_channel(#[trigger] si16(b@, p + 6 * j)) && spec_be32(b@, p + 6 * j + 2) >= 2,
            forall|j: int| 0 <= j < i ==> v@[j].0 as int == si16(b@, p + 6 * j) && v@[j].1 as int == spec_be32(b@, p + 6 * j + 2) - 2,
        decreases n - i,
    {
        let at = p + 6 * i;
        let id = rd_si16(b, at);
        let len = be32(b, at + 2) as u64;
        if !(id == 0 || id == 1 || id == 2 || id == -1 || id == -2 || id == -3) || len < 2 {
            assert(!(known_channel(si16(b@, p + 6 * i)) && spec_be32(b@, p + 6 * i + 2) >= 2));
            return None;
        }
        assert(known_channel(si16(b@, p + 6 * i)) && spec_be32(b@, p + 6 * i + 2) >= 2);
        v.push((id, len - 2));
        i = i + 1;
    }
    assert(Seq::new(v@.len(), |i: int| (v@[i].0 as int, v@[i].1 as int)) =~= chans_of(b@, p as int, n as int));
    Some(v)
}

fn key_is(k0: u8, k1: u8, k2: u8, k3: u8, t0: u8, t1: u8, t2: u8, t3: u8) -> (r: bool)
    ensures
        r == (seq![k0, k1, k2, k3] == tag(t0, t1, t2, t3)),
{
    let r = k0 == t0 && k1 == t1 && k2 == t2 && k3 == t3;
    proof {
        if r {
            assert(seq![k0, k1, k2, k3] =~= tag(t0, t1, t2, t3));
        } else if seq![k0, k1, k2, k3] == tag(t0, t1, t2, t3) {
            assert(seq![k0, k1, k2, k3][0] == tag(t0, t1, t2, t3)[0]);
            assert(seq![k0, k1, k2, k3][1] == tag(t0, t1, t2, t3)[1]);
            assert(seq![k0, k1, k2, k3][2] == tag(t0, t1, t2, t3)[2]);
            assert(seq![k0, k1, k2, k3][3] == tag(t0, t1, t2, t3)[3]);
        }
    }
    r
}

fn is_known_blend(k0: u8, k1: u8, k2: u8, k3: u8) -> (r: bool)
    ensures
        r == known_blend(seq![k0, k1, k2, k3]),
{
    key_is(k0, k1, k2, k3, 0x70, 0x61, 0x73, 0x73) ||
    key_is(k0, k1, k2, k3, 0x6e, 0x6f, 0x72, 0x6d) ||
    key_is(k0, k1, k2, k3, 0x64, 0x69, 0x73, 0x73) ||
    key_is(k0, k1, k2, k3, 0x64, 0x61, 0x72, 0x6b) ||
    key_is(k0, k1, k2, k3, 0x6d, 0x75, 0x6c, 0x20) ||
    key_is(k0, k1, k2, k3, 0x69, 0x64, 0x69, 0x76) ||
    key_is(k0, k1, k2, k3, 0x6c, 0x62, 0x72, 0x6e) ||
    key_is(k0, k1, k2, k3, 0x64, 0x6b, 0x43, 0x6c) ||
    key_is(k0, k1, k2, k3, 0x6c, 0x69, 0x74, 0x65) ||
    key_is(k0, k1, k2, k3, 0x73, 0x63, 0x72, 0x6e) ||
    key_is(k0, k1, k2, k3, 0x64, 0x69, 0x76, 0x20) ||
    key_is(k0, k1, k2, k3, 0x6c, 0x64, 0x64, 0x67) ||
    key_is(k0, k1, k2, k3, 0x6c, 0x67, 0x43, 0x6c) ||
    key_is(k0, k1, k2, k3, 0x6f, 0x76, 0x65, 0x72) ||
    key_is(k0, k1, k2, k3, 0x73, 0x4c, 0x69, 0x74) ||
    key_is(k0, k1, k2, k3, 0x68, 0x4c, 0x69, 0x74) ||
    key_is(k0, k1, k2, k3, 0x76, 0x4c, 0x69, 0x74) ||
    key_is(k0, k1, k2, k3, 0x6c, 0x4c, 0x69, 0x74) ||
    key_is(k0, k1, k2, k3, 0x70, 0x4c, 0x69, 0x74) ||
    key_is(k0, k1, k2, k3, 0x68, 0x4d, 0x69, 0x78) ||
    key_is(k0, k1, k2, k3, 0x64, 0x69, 0x66, 0x66) ||
    key_is(k0, k1, k2, k3, 0x73, 0x6d, 0x75, 0x64) ||
    key_is(k0, k1, k2, k3, 0x66, 0x73, 0x75, 0x62) ||
    key_is(k0, k1, k2, k3, 0x66, 0x64, 0x69, 0x76) ||
    key_is(k0, k1, k2, k3, 0x68, 0x75, 0x65, 0x20) ||
    key_is(k0, k1, k2, k3, 0x73, 0x61, 0x74, 0x20) ||
    key_is(k0, k1, k2, k3, 0x63, 0x6f, 0x6c, 0x72) ||
    key_is(k0, k1, k2, k3, 0x6c, 0x75, 0x6d, 0x20)
}

#[verifier::rlimit(60)]
fn record(b: &[u8], p: usize, e: usize) -> (r: Option<(usize, LayerRecordInfo)>)
    requires
        p <= e <= b.len(),
    ensures
        match (r, record_at(b@, p as int, e as int)) {
            (None, None) => true,
            (Some((q, info)), Some((sq, sv))) => q as int == sq && info.view() == sv && p < q <= e,
            _ => false,
        },
{
    if !read_ok(p, e, 18) {
        return None;
    }
    let top = rd_si32(b, p);
    let left = rd_si32(b, p + 4);
    let bot = rd_si32(b, p + 8);
    let right = rd_si32(b, p + 12);
    let n = be16(b, p + 16) as usize;
    if bot == -0x8000_0000 || right == -0x8000_0000 {
        return None;
    }
    let channels = match read_chans(b, p + 18, e, n) {
        None => return None,
        Some(v) => v,
    };
    let p2 = p + 18 + 6 * n;
    if !read_ok(p2, e, 16) {
        return None;
    }
    let k = (b[p2 + 4], b[p2 + 5], b[p2 + 6], b[p2 + 7]);
    let p5 = p2 + 16;
    if !is_known_blend(k.0, k.1, k.2, k.3) || !read_ok(p5, e, 4) {
        return None;
    }
    let ml = be32(b, p5) as u64;
    if !read_ok(p5 + 4, e, ml) {
        return None;
    }
    let p6 = p5 + 4 + ml as usize;
    if !read_ok(p6, e, 4) {
        return None;
    }
    let bl = be32(b, p6) as u64;
    if !read_ok(p6 + 4, e, bl) {
        return None;
    }
    let p7 = p6 + 4 + bl as usize;
    if !read_ok(p7, e, 1) {
        return None;
    }
    let nl = b[p7] as u64;
    let pad = (4 - (nl + 1) % 4) % 4;
    if nl == 255 || !read_ok(p7 + 1, e, nl + pad) {
        return None;
    }
    match extras(b, p7 + 1 + (nl + pad) as usize, e) {
        None => None,
        Some((q, div)) => {
            let info = LayerRecordInfo {
                top,
                left,
                bottom: if bot == 0 { 0 } else { bot - 1 },
                right: if right == 0 { 0 } else { right - 1 },
                channels,
                key: k,
                opacity: b[p2 + 8],
                clipping: b[p2 + 9],
                flags: b[p2 + 10],
                divider: div,
            };
            proof {
                assert(info.view().key =~= seq![b@[p2 + 4], b@[p2 + 5], b@[p2 + 6], b@[p2 + 7]]);
                assert(info.view().channels == chans_of(b@, p + 18, n as int));
            }
            Some((q, info))
        },
    }
}

fn records(b: &[u8], p: usize, e: usize, n: usize) -> (r: Option<(usize, Vec<LayerRecordInfo>)>)
    requires
        p <= e <= b.len(),
    ensures
        match (r, records_at(b@, p as int, e as int, n as int)) {
            (None, None) => true,
            (Some((q, v)), Some((sq, sv))) => q as int == sq && q <= e
                && Seq::new(v@.len(), |i: int| v@[i].view()) == sv,
            _ => false,
        },
{
    let mut q = p;
    let mut k = n;
    let mut v: Vec<LayerRecordInfo> = Vec::new();
    while k > 0
        invariant
            p <= q <= e <= b.len(),
            k <= n,
            records_at(b@, p as int, e as int, n as int) == (match records_at(b@, q as int, e as int, k as int) {
                None => None,
                Some((z, rs)) => Some((z, Seq::new(v@.len(), |i: int| v@[i].view()) + rs)),
            }),
        decreases k,
    {
        let ghost vs = Seq::new(v@.len(), |i: int| v@[i].view());
        match record(b, q, e) {
            None => return None,
            Some((nq, info)) => {
                let ghost iv = info.view();
                v.push(info);
                proof {
                    assert(Seq::new(v@.len(), |i: int| v@[i].view()) =~= vs.push(iv));
                    match records_at(b@, nq as int, e as int, k - 1) {
                        None => {},
                        Some((z, rs)) => {
                            assert(vs + (seq![iv] + rs) =~= vs.push(iv) + rs);
                        },
                    }
                }
                q = nq;
            },
        }
        k = k - 1;
    }
    proof {
        assert(Seq::new(v@.len(), |i: int| v@[i].view()) + Seq::<RecordView>::empty()
            =~= Seq::new(v@.len(), |i: int| v@[i].view()));
    }
    Some((q, v))
}

/// Bytes the crate's run-length decoder writes for the PackBits data `b[pos..e]`: a
/// header byte h (as i8) of -128 is skipped, h >= 0 copies h + 1 bytes, h < 0 repeats
/// one byte 1 - h times; a run cut short by the end stops the decoding.
pub open spec fn rle_count(b: Seq<u8>, pos: int, e: int) -> int
    decreases e - pos,
{
    if pos < 0 || pos >= e {
        0
    } else {
        let h = if b[pos] >= 128 { b[pos] - 256 } else { b[pos] as int };
        let p = pos + 1;
        if h == -128 {
            rle_count(b, p, e)
        } else if h >= 0 {
            if p + h + 1 > e { 0 } else { h + 1 + rle_count(b, p + h + 1, e) }
        } else {
            if p + 1 > e { 0 } else { 1 - h + rle_count(b, p + 1, e) }
        }
    }
}

fn rle_decoded_len(b: &[u8], s: usize, e: usize) -> (r: u64)
    requires
        s <= e <= b.len(),
        e <= 0x1_0000_0000_0000,
    ensures
        r == rle_count(b@, s as int, e as int),
        r <= 129 * (e - s),
{
    let mut pos = s;
    let mut acc: u64 = 0;
    while pos < e
        invariant
            s <= pos <= e <= b.len(),
            e <= 0x1_0000_0000_0000,
            acc <= 129 * (pos - s),
            acc + rle_count(b@, pos as int, e as int) == rle_count(b@, s as int, e as int),
        decreases e - pos,
    {
        let byte = b[pos];
        let p = pos + 1;
        if byte == 128 {
            pos = p;
        } else if byte < 128 {
            let n = byte as usize + 1;
            if n > e - p {
                assert(rle_count(b@, pos as int, e as int) == 0);
                return acc;
            }
            acc = acc + n as u64;
            pos = p + n;
        } else {
            if 1 > e - p {
                assert(rle_count(b@, pos as int, e as int) == 0);
                return acc;
            }
            acc = acc + (257 - byte as u64);
            pos = p + 1;
        }
    }
    acc
}

/// The record is a layer (not a group's opening, closing or bounding record).
pub open spec fn is_layer(r: RecordView) -> bool {
    !(r.divider == 1 || r.divider == 2 || r.divider == 3)
}

/// The layer takes part in flattening: visible with some opacity, or a clipping base.
pub open spec fn flattened(r: RecordView) -> bool {
    (r.opacity > 0 && (r.flags / 2) % 2 == 1) || r.clipping == 0
}

/// One of the channels that make a layer's RGBA pixels.
pub open spec fn colour_channel(id: int) -> bool {
    id == 0 || id == 1 || id == 2 || id == -1
}

/// The rectangle is ordered, at most 65534 wide and within ±60000, so the crate's
/// index arithmetic stays in `i32`.
pub open spec fn rect_ok(r: RecordView) -> bool {
    &&& -60000 <= r.top <= r.bottom <= 60000
    &&& -60000 <= r.left <= r.right <= 60000
    &&& r.right - r.left <= 65533
}

/// A flattened layer can be rendered: its blend mode is implemented, its rectangle is
/// fine (`rect_ok`), and it has a red channel.
pub open spec fn layer_renders(r: RecordView) -> bool {
    !is_layer(r) || !flattened(r) || {
        &&& blendable(r.key)
        &&& rect_ok(r)
        &&& exists|j: int| 0 <= j < r.channels.len() && (#[trigger] r.channels[j]).0 == 0
    }
}

/// Where the crate writes the `n` decoded bytes of a layer channel: byte `k` goes to
/// canvas pixel `(top + k / lw) * w + left + k % lw` (`lw` the layer's width); `None`
/// when that index arithmetic would leave `i32`, else the largest such pixel index.
pub open spec fn last_pixel(r: RecordView, n: int, w: int) -> Option<int> {
    let lw = r.right - r.left + 1;
    let rr = (n - 1) / lw;
    let t = r.top + rr;
    if rr > 0x7fff_ffff || t > 0x7fff_ffff || t * w > 0x7fff_ffff || t * w + r.right > 0x7fff_ffff {
        None
    } else if rr >= 1 && (t - 1) * w + r.right > t * w + r.left + (n - 1 - rr * lw) {
        Some((t - 1) * w + r.right)
    } else {
        Some(t * w + r.left + (n - 1 - rr * lw))
    }
}

/// A colour channel's data of a flattened layer can be written: the crate's index
/// arithmetic stays in `i32`, and raw data (written without a bounds check) lands
/// inside the canvas; run-length data is written with one.
pub open spec fn channel_renders(b: Seq<u8>, r: RecordView, id: int, rle: bool, start: int, len: int, w: int, h: int) -> bool {
    let n = if rle { rle_count(b, start, start + len) } else { len };
    !is_layer(r) || !flattened(r) || !colour_channel(id) || rect_ok(r) && (n == 0 || match last_pixel(r, n, w) {
        None => false,
        Some(v) => rle || v < w * h,
    })
}

/// The channel data of record `r` from its channel `j` on, at `pos`: the end, and
/// whether every channel renders. A compression code above 3, ZIP data, data past the
/// end, or run-length data shorter than its scan-line table is refused.
pub open spec fn rec_chans(b: Seq<u8>, pos: int, e: int, r: RecordView, j: int, w: int, h: int) -> Option<(int, bool)>
    decreases r.channels.len() - j,
{
    if j < 0 || j >= r.channels.len() {
        Some((pos, true))
    } else if !can_read(pos, e, 2) {
        None
    } else {
        let c = spec_be16(b, pos);
        let id = r.channels[j].0;
        let ln = r.channels[j].1;
        let rows = r.bottom - r.top + 1;
        if c > 3 || (ln > 0 && (c == 2 || c == 3)) || !can_read(pos + 2, e, ln) {
            None
        } else if ln > 0 && c == 1 && (rows < 0 || 2 * rows > ln) {
            None
        } else {
            let rle = ln > 0 && c == 1;
            let start = if rle { pos + 2 + 2 * rows } else { pos + 2 };
            let len = if rle { ln - 2 * rows } else { ln };
            let here = channel_renders(b, r, id, rle, start, len, w, h);
            match rec_chans(b, pos + 2 + ln, e, r, j + 1, w, h) {
                None => None,
                Some((q, ok)) => Some((q, ok && here)),
            }
        }
    }
}

/// The crate's `bottom - top + 1` of a record stays in `i32`.
pub open spec fn rows_fit(r: RecordView) -> bool {
    -0x8000_0000 <= r.bottom - r.top <= 0x7fff_fffe
}

/// The channel data of records `i..` from `pos`: the end, and whether every channel
/// renders.
pub open spec fn recs_chans(b: Seq<u8>, pos: int, e: int, rs: Seq<RecordView>, i: int, w: int, h: int) -> Option<(int, bool)>
    decreases rs.len() - i,
{
    if i < 0 || i >= rs.len() {
        Some((pos, true))
    } else if !rows_fit(rs[i]) {
        None
    } else {
        match rec_chans(b, pos, e, rs[i], 0, w, h) {
            None => None,
            Some((q, ok1)) => if pos <= q <= e {
                match recs_chans(b, q, e, rs, i + 1, w, h) {
                    None => None,
                    Some((z, ok2)) => Some((z, ok1 && ok2)),
                }
            } else {
                None
            },
        }
    }
}

/// The group nesting, read from the last record back to the first as the crate does,
/// never closes more groups than are open when a record follows.
pub open spec fn nesting_ok(rs: Seq<RecordView>, i: int, depth: int) -> bool
    decreases i + 1,
{
    if i < 0 {
        true
    } else if depth <= 0 {
        false
    } else {
        let d = rs[i].divider;
        let nd = if d == 1 || d == 2 { depth + 1 } else if d == 3 { depth - 1 } else { depth };
        nesting_ok(rs, i - 1, nd)
    }
}

fn is_blendable(k0: u8, k1: u8, k2: u8, k3: u8) -> (r: bool)
    ensures
        r == blendable(seq![k0, k1, k2, k3]),
{
    key_is(k0, k1, k2, k3, 0x6e, 0x6f, 0x72, 0x6d) || key_is(k0, k1, k2, k3, 0x64, 0x61, 0x72, 0x6b)
    || key_is(k0, k1, k2, k3, 0x6d, 0x75, 0x6c, 0x20) || key_is(k0, k1, k2, k3, 0x69, 0x64, 0x69, 0x76)
    || key_is(k0, k1, k2, k3, 0x6c, 0x62, 0x72, 0x6e) || key_is(k0, k1, k2, k3, 0x6c, 0x69, 0x74, 0x65)
    || key_is(k0, k1, k2, k3, 0x73, 0x63, 0x72, 0x6e) || key_is(k0, k1, k2, k3, 0x64, 0x69, 0x76, 0x20)
    || key_is(k0, k1, k2, k3, 0x6c, 0x64, 0x64, 0x67) || key_is(k0, k1, k2, k3, 0x6f, 0x76, 0x65, 0x72)
    || key_is(k0, k1, k2, k3, 0x73, 0x4c, 0x69, 0x74) || key_is(k0, k1, k2, k3, 0x68, 0x4c, 0x69, 0x74)
    || key_is(k0, k1, k2, k3, 0x64, 0x69, 0x66, 0x66) || key_is(k0, k1, k2, k3, 0x73, 0x6d, 0x75, 0x64)
    || key_is(k0, k1, k2, k3, 0x66, 0x73, 0x75, 0x62) || key_is(k0, k1, k2, k3, 0x66, 0x64, 0x69, 0x76)
}

impl LayerRecordInfo {
    fn is_layer(&self) -> (r: bool)
        ensures
            r == is_layer(self.view()),
    {
        !(self.divider == 1 || self.divider == 2 || self.divider == 3)
    }

    fn flattened(&self) -> (r: bool)
        ensures
            r == flattened(self.view()),
    {
        (self.opacity > 0 && (self.flags / 2) % 2 == 1) || self.clipping == 0
    }

    fn rect_ok(&self) -> (r: bool)
        ensures
            r == rect_ok(self.view()),
    {
        -60000 <= self.top && self.top <= self.bottom && self.bottom <= 60000
            && -60000 <= self.left && self.left <= self.right && self.right <= 60000
            && self.right - self.left <= 65533
    }

    fn renders(&self) -> (r: bool)
        ensures
            r == layer_renders(self.view()),
    {
        if !self.is_layer() || !self.flattened() {
            return true;
        }
        if !is_blendable(self.key.0, self.key.1, self.key.2, self.key.3) || !self.rect_ok() {
            return false;
        }
        let ghost v = self.view();
        let mut j: usize = 0;
        while j < self.channels.len()
            invariant
                j <= self.channels@.len(),
                v == self.view(),
                is_layer(v) && flattened(v) && blendable(v.key) && rect_ok(v),
                forall|k: int| 0 <= k < j ==> (#[trigger] v.channels[k]).0 != 0,
            decreases self.channels@.len() - j,
        {
            if self.channels[j].0 == 0 {
                assert(v.channels[j as int].0 == 0);
                assert(exists|k: int| 0 <= k < v.channels.len() && (#[trigger] v.channels[k]).0 == 0);
                return true;
            }
            j = j + 1;
        }
        false
    }

    fn channel_renders(&self, b: &[u8], id: i64, rle: bool, start: usize, len: usize, w: u32, h: u32) -> (r: bool)
        requires
            start + len <= b.len(),
            b.len() <= 0x1_0000_0000_0000,
        ensures
            r == channel_renders(b@, self.view(), id as int, rle, start as int, len as int, w as int, h as int),
    {
        if !self.is_layer() || !self.flattened() || !(id == 0 || id == 1 || id == 2 || id == -1) {
            return true;
        }
        if !self.rect_ok() {
            return false;
        }
        let n: u64 = if rle { rle_decoded_len(b, start, start + len) } else { len as u64 };
        if n == 0 {
            return true;
        }
        let ghost rv = self.view();
        let lw: i128 = (self.right - self.left + 1) as i128;
        let rr: i128 = (n as i128 - 1) / lw;
        let t: i128 = self.top as i128 + rr;
        let w2: i128 = w as i128;
        proof {
            let ni: int = n as int - 1;
            let li: int = lw as int;
            assert(rr as int == ni / li);
            assert(0 <= ni / li <= ni) by (nonlinear_arith)
                requires ni >= 0, li >= 1;
            assert((ni / li) * li <= ni) by (nonlinear_arith)
                requires ni >= 0, li >= 1;
        }
        assert(t * w2 <= (0x1_0000_0000_0000 * 130) * 0xffff_ffff) by (nonlinear_arith)
            requires t <= n + 60000, n <= 0x1_0000_0000_0000 * 129, 0 <= w2 <= 0xffff_ffff, t >= -60000;
        assert(t * w2 >= -60000 * 0xffff_ffff) by (nonlinear_arith)
            requires t >= -60000, 0 <= w2 <= 0xffff_ffff;
        if rr > 0x7fff_ffff || t > 0x7fff_ffff || t * w2 > 0x7fff_ffff || t * w2 + self.right as i128 > 0x7fff_ffff {
            return false;
        }
        assert((t - 1) * w2 == t * w2 - w2) by (nonlinear_arith);
        assert(0 <= w2 * (h as i128) <= 0xffff_ffff * 0xffff_ffff) by (nonlinear_arith)
            requires 0 <= w2 <= 0xffff_ffff, 0 <= h <= 0xffff_ffff;
        let last_row: i128 = t * w2 + self.left as i128 + (n as i128 - 1 - rr * lw);
        let v: i128 = if rr >= 1 && (t - 1) * w2 + self.right as i128 > last_row {
            (t - 1) * w2 + self.right as i128
        } else {
            last_row
        };
        assert(last_pixel(rv, n as int, w as int) == Some(v as int));
        rle || v < w2 * (h as i128)
    }
}

fn rec_chans_check(b: &[u8], pos0: usize, e: usize, r: &LayerRecordInfo, w: u32, h: u32) -> (res: Option<(usize, bool)>)
    requires
        pos0 <= e <= b.len(),
        b.len() <= 0x1_0000_0000_0000,
        rows_fit(r.view()),
    ensures
        match (res, rec_chans(b@, pos0 as int, e as int, r.view(), 0, w as int, h as int)) {
            (None, None) => true,
            (Some((q, ok)), Some((sq, sok))) => q as int == sq && ok == sok && pos0 <= q <= e,
            _ => false,
        },
{
    let ghost v = r.view();
    let mut pos = pos0;
    let mut all = true;
    let mut j: usize = 0;
    let rows: i64 = r.bottom - r.top + 1;
    while j < r.channels.len()
        invariant
            pos0 <= pos <= e <= b.len(),
            b.len() <= 0x1_0000_0000_0000,
            j <= r.channels@.len(),
            v == r.view(),
            rows == v.bottom - v.top + 1,
            rec_chans(b@, pos0 as int, e as int, v, 0, w as int, h as int) == (match rec_chans(b@, pos as int, e as int, v, j as int, w as int, h as int) {
                None => None,
                Some((q, ok)) => Some((q, ok && all)),
            }),
        decreases r.channels@.len() - j,
    {
        if !read_ok(pos, e, 2) {
            return None;
        }
        let c = be16(b, pos);
        let id = r.channels[j].0;
        let ln = r.channels[j].1;
        assert(v.channels[j as int] == (id as int, ln as int));
        if c > 3 || (ln > 0 && (c == 2 || c == 3)) || !read_ok(pos + 2, e, ln) {
            return None;
        }
        let rle = ln > 0 && c == 1;
        if rle && (rows < 0 || 2 * rows as i128 > ln as i128) {
            return None;
        }
        let start = if rle { pos + 2 + 2 * rows as usize } else { pos + 2 };
        let len = if rle { ln as usize - 2 * rows as usize } else { ln as usize };
        let here = r.channel_renders(b, id, rle, start, len, w, h);
        all = all && here;
        pos = pos + 2 + ln as usize;
        j = j + 1;
    }
    Some((pos, all))
}

fn recs_chans_check(b: &[u8], pos0: usize, e: usize, rs: &Vec<LayerRecordInfo>, w: u32, h: u32) -> (res: Option<(usize, bool)>)
    requires
        pos0 <= e <= b.len(),
        b.len() <= 0x1_0000_0000_0000,
    ensures
        match (res, recs_chans(b@, pos0 as int, e as int, Seq::new(rs@.len(), |i: int| rs@[i].view()), 0, w as int, h as int)) {
            (None, None) => true,
            (Some((q, ok)), Some((sq, sok))) => q as int == sq && ok == sok,
            _ => false,
        },
{
    let ghost sv = Seq::new(rs@.len(), |i: int| rs@[i].view());
    let mut pos = pos0;
    let mut all = true;
    let mut i: usize = 0;
    while i < rs.len()
        invariant
            pos0 <= pos <= e <= b.len(),
            b.len() <= 0x1_0000_0000_0000,
            i <= rs@.len(),
            sv == Seq::new(rs@.len(), |i: int| rs@[i].view()),
            recs_chans(b@, pos0 as int, e as int, sv, 0, w as int, h as int) == (match recs_chans(b@, pos as int, e as int, sv, i as int, w as int, h as int) {
                None => None,
                Some((q, ok)) => Some((q, ok && all)),
            }),
        decreases rs@.len() - i,
    {
        let r = &rs[i];
        assert(sv[i as int] == r.view());
        let d: i128 = r.bottom as i128 - r.top as i128;
        if !(-0x8000_0000 <= d && d <= 0x7fff_fffe) {
            return None;
        }
        match rec_chans_check(b, pos, e, r, w, h) {
            None => return None,
            Some((q, ok)) => {
                all = all && ok;
                pos = q;
            },
        }
        i = i + 1;
    }
    Some((pos, all))
}

fn nesting_check(rs: &Vec<LayerRecordInfo>) -> (r: bool)
    ensures
        r == nesting_ok(Seq::new(rs@.len(), |i: int| rs@[i].view()), rs@.len() - 1, 1),
{
    let ghost sv = Seq::new(rs@.len(), |i: int| rs@[i].view());
    let mut depth: u128 = 1;
    let n: usize = rs.len();
    let mut i: usize = n;
    while i > 0
        invariant
            n == rs@.len(),
            i <= rs@.len(),
            depth <= rs@.len() + 1 - i,
            sv == Seq::new(rs@.len(), |i: int| rs@[i].view()),
            nesting_ok(sv, rs@.len() - 1, 1) == nesting_ok(sv, i - 1, depth as int),
        decreases i,
    {
        if depth == 0 {
            return false;
        }
        let d = rs[i - 1].divider;
        assert(sv[i - 1].divider == d as int);
        if d == 1 || d == 2 {
            depth = depth + 1;
        } else if d == 3 {
            depth = depth - 1;
        }
        i = i - 1;
    }
    true
}

/// The header fields the crate validates (version 1, reserved zeros, 1 to 56 channels,
/// a size of 1 to 30000 each way, depth 1, 8, 16 or 32, a known colour mode); the crate
/// refuses other headers with an error.
pub open spec fn header_valid(b: Seq<u8>) -> bool {
    &&& b[4] == 0 && b[5] == 1
    &&& b[6] == 0 && b[7] == 0 && b[8] == 0 && b[9] == 0 && b[10] == 0 && b[11] == 0
    &&& 1 <= b[13] <= 56
    &&& 1 <= spec_be32(b, 14) <= 30000
    &&& 1 <= spec_be32(b, 18) <= 30000
    &&& (b[23] == 1 || b[23] == 8 || b[23] == 16 || b[23] == 32)
    &&& (b[25] <= 4 || b[25] == 7 || b[25] == 8 || b[25] == 9)
}

/// Every flattened layer renders.
pub open spec fn all_render(rs: Seq<RecordView>) -> bool {
    forall|i: int| 0 <= i < rs.len() ==> layer_renders(#[trigger] rs[i])
}

/// No record is a layer (the file has only group records, or none).
pub open spec fn no_layer(rs: Seq<RecordView>) -> bool {
    forall|i: int| 0 <= i < rs.len() ==> !is_layer(#[trigger] rs[i])
}

/// The layer and mask section `b[l..d]`: whether every flattened layer renders, and
/// whether the file has no layer at all; `None` when the crate's reading of it would
/// fail or panic.
pub open spec fn layer_section(b: Seq<u8>, l: int, d: int, w: int, h: int) -> Option<(bool, bool)> {
    if !can_read(l, d, 4) {
        None
    } else if spec_be32(b, l) == 0 {
        Some((true, true))
    } else if !can_read(l, d, 10) || si16(b, l + 8) == -0x8000 {
        None
    } else {
        let n = if si16(b, l + 8) < 0 { -si16(b, l + 8) } else { si16(b, l + 8) };
        match records_at(b, l + 10, d, n) {
            None => None,
            Some((q, rs)) => if !(l + 10 <= q <= d) {
                None
            } else {
                match recs_chans(b, q, d, rs, 0, w, h) {
                    None => None,
                    Some((z, ok)) => if nesting_ok(rs, rs.len() - 1, 1) {
                        Some((ok && all_render(rs), no_layer(rs)))
                    } else {
                        None
                    },
                }
            },
        }
    }
}

/// Sum of the `k` big-endian 16-bit values at `s`.
pub open spec fn be16_sum(b: Seq<u8>, s: int, k: int) -> int
    decreases k,
{
    if k <= 0 { 0 } else { be16_sum(b, s, k - 1) + spec_be16(b, s + 2 * (k - 1)) }
}

/// The image data `b[d..n]` of a file with `cc` channels of `w`×`h` pixels: 1 when the
/// crate refuses it with an error (an unknown compression, or raw data of a depth other
/// than 8 or 16), 2 when it is read and its pixels fit, 0 when reading it would panic:
/// run-length byte counts past the end, or (for a file without layers, whose merged
/// image is rendered) raw channels longer than the canvas.
pub open spec fn image_stage(b: Seq<u8>, d: int, n: int, cc: int, w: int, h: int, depth: int, mode: int, no_layers: bool) -> int {
    let c = spec_be16(b, d);
    if c > 3 {
        1
    } else if c == 0 {
        if depth != 8 && depth != 16 {
            1
        } else if !no_layers {
            2
        } else {
            let bpc = (n - d - 2) / cc;
            let red = if depth == 16 { bpc / 2 } else { bpc };
            if red <= w * h && ((cc >= 2 && mode != 1) ==> bpc <= w * h) && (cc >= 3 ==> bpc <= w * h) {
                2
            } else {
                0
            }
        }
    } else if c == 1 {
        let nch = 1 + (if cc >= 2 { 1int } else { 0int }) + (if cc >= 3 { 1int } else { 0int }) + (if cc == 4 { 1int } else { 0int });
        if !can_read(d + 2, n, 2 * nch * h) {
            0
        } else if d + 2 + 2 * cc * h + be16_sum(b, d + 2, nch * h) <= n {
            2
        } else {
            0
        }
    } else {
        0
    }
}

/// Positions of the image resources, the layer and mask information and the image data
/// of a file whose frame is in bounds.
pub open spec fn section_starts(b: Seq<u8>) -> (int, int, int) {
    let r = 30 + spec_be32(b, 26);
    let l = r + 4 + spec_be32(b, r);
    let d = l + 4 + spec_be32(b, l);
    (r, l, d)
}

/// The psd crate parses, flattens and renders a file whose frame is in bounds without a
/// panic: its header is refused with an error, or its layers, image data and resources
/// pass the checks above (files of 2^48 bytes or more are not looked at).
pub open spec fn psd_structure_ok(b: Seq<u8>) -> bool {
    let (r, l, d) = section_starts(b);
    let w = spec_be32(b, 18);
    let h = spec_be32(b, 14);
    if !header_valid(b) {
        true
    } else if b.len() > 0x1_0000_0000_0000 {
        false
    } else {
        match layer_section(b, l, d, w, h) {
            None => false,
            Some((fok, empty)) => {
                let st = image_stage(b, d, b.len() as int, b[13] as int, w, h, b[23] as int, b[25] as int, empty);
                st == 1 || (st == 2 && resources_ok(b, r, l) && (empty || fok))
            },
        }
    }
}

proof fn lemma_be16_sum_bound(b: Seq<u8>, s: int, k: int)
    requires
        k >= 0,
    ensures
        0 <= be16_sum(b, s, k) <= 65535 * k,
    decreases k,
{
    if k > 0 {
        lemma_be16_sum_bound(b, s, k - 1);
        assert(0 <= spec_be16(b, s + 2 * (k - 1)) <= 65535) by {
            assert(0 <= b[s + 2 * (k - 1)] <= 255);
            assert(0 <= b[s + 2 * (k - 1) + 1] <= 255);
        }
    }
}

/// The file has no layer records other than group records, so flattening renders its
/// merged image data.
pub open spec fn psd_layerless(b: Seq<u8>) -> bool {
    let (r, l, d) = section_starts(b);
    match layer_section(b, l, d, spec_be32(b, 18), spec_be32(b, 14)) {
        Some((ok, empty)) => empty,
        None => false,
    }
}

fn be16_total(b: &[u8], s: usize, k: usize) -> (r: u64)
    requires
        s + 2 * k <= b.len(),
        b.len() <= 0x1_0000_0000_0000,
    ensures
        r == be16_sum(b@, s as int, k as int),
{
    let mut acc: u64 = 0;
    let mut i: usize = 0;
    while i < k
        invariant
            i <= k,
            s + 2 * k <= b.len(),
            b.len() <= 0x1_0000_0000_0000,
            acc == be16_sum(b@, s as int, i as int),
            acc <= 65535 * i,
        decreases k - i,
    {
        acc = acc + be16(b, s + 2 * i) as u64;
        i = i + 1;
    }
    acc
}

fn header_ok(b: &[u8]) -> (r: bool)
    requires
        b.len() >= 26,
    ensures
        r == header_valid(b@),
{
    let h = be32(b, 14);
    let w = be32(b, 18);
    b[4] == 0 && b[5] == 1 && b[6] == 0 && b[7] == 0 && b[8] == 0 && b[9] == 0 && b[10] == 0 && b[11] == 0
        && 1 <= b[13] && b[13] <= 56 && 1 <= h && h <= 30000 && 1 <= w && w <= 30000
        && (b[23] == 1 || b[23] == 8 || b[23] == 16 || b[23] == 32)
        && (b[25] <= 4 || b[25] == 7 || b[25] == 8 || b[25] == 9)
}

fn layer_check(b: &[u8], l: usize, d: usize, w: u32, h: u32) -> (r: Option<(bool, bool)>)
    requires
        l <= d <= b.len(),
        b.len() <= 0x1_0000_0000_0000,
    ensures
        r == layer_section(b@, l as int, d as int, w as int, h as int),
{
    if !read_ok(l, d, 4) {
        return None;
    }
    if be32(b, l) == 0 {
        return Some((true, true));
    }
    if !read_ok(l, d, 10) {
        return None;
    }
    let c = rd_si16(b, l + 8);
    if c == -0x8000 {
        return None;
    }
    let n: usize = if c < 0 { (-c) as usize } else { c as usize };
    let (q, rs) = match records(b, l + 10, d, n) {
        None => return None,
        Some(x) => x,
    };
    let ghost sv = Seq::new(rs@.len(), |i: int| rs@[i].view());
    if !(l + 10 <= q) {
        return None;
    }
    let (_, ok) = match recs_chans_check(b, q, d, &rs, w, h) {
        None => return None,
        Some(x) => x,
    };
    if !nesting_check(&rs) {
        return None;
    }
    let mut all = true;
    let mut empty = true;
    let mut i: usize = 0;
    while i < rs.len()
        invariant
            i <= rs@.len(),
            sv == Seq::new(rs@.len(), |i: int| rs@[i].view()),
            all == (forall|k: int| 0 <= k < i ==> layer_renders(#[trigger] sv[k])),
            empty == (forall|k: int| 0 <= k < i ==> !is_layer(#[trigger] sv[k])),
        decreases rs@.len() - i,
    {
        assert(sv[i as int] == rs@[i as int].view());
        let lr = rs[i].renders();
        let il = rs[i].is_layer();
        all = all && lr;
        empty = empty && !il;
        i = i + 1;
    }
    let ghost n_spec: int = if si16(b@, l + 8) < 0 { -si16(b@, l + 8) } else { si16(b@, l + 8) };
    assert(n as int == n_spec);
    assert(all == all_render(sv));
    assert(empty == no_layer(sv));
    Some((ok && all, empty))
}

fn image_check(b: &[u8], d: usize, cc: u8, w: u32, h: u32, depth: u8, mode: u8, no_layers: bool) -> (r: u8)
    requires
        d + 2 <= b.len(),
        b.len() <= 0x1_0000_0000_0000,
        1 <= cc,
        h <= 30000,
        w <= 30000,
    ensures
        r as int == image_stage(b@, d as int, b@.len() as int, cc as int, w as int, h as int, depth as int, mode as int, no_layers),
{
    let n = b.len();
    let c = be16(b, d);
    if c > 3 {
        1
    } else if c == 0 {
        if depth != 8 && depth != 16 {
            1
        } else if !no_layers {
            2
        } else {
            let bpc = ((n - d - 2) / cc as usize) as u64;
            let red = if depth == 16 { bpc / 2 } else { bpc };
            assert(w * h <= 30000 * 30000) by (nonlinear_arith)
                requires w <= 30000, h <= 30000;
            let wh = w as u64 * h as u64;
            if red <= wh && (!(cc >= 2 && mode != 1) || bpc <= wh) && (!(cc >= 3) || bpc <= wh) {
                2
            } else {
                0
            }
        }
    } else if c == 1 {
        let nch: u64 = 1 + (if cc >= 2 { 1 } else { 0 }) + (if cc >= 3 { 1 } else { 0 }) + (if cc == 4 { 1 } else { 0 });
        assert(2 * nch * h <= 240000 && nch * h <= 120000 && 2 * nch * h == 2 * (nch * h)) by (nonlinear_arith)
            requires nch <= 4, h <= 30000;
        assert(cc * h <= 255 * 30000) by (nonlinear_arith)
            requires cc <= 255, h <= 30000;
        if !read_ok(d + 2, n, 2 * nch * h as u64) {
            0
        } else {
            let k: usize = (nch * h as u64) as usize;
            let sum = be16_total(b, d + 2, k);
            assert(be16_sum(b@, (d + 2) as int, k as int) <= 65535 * k) by {
                lemma_be16_sum_bound(b@, (d + 2) as int, k as int);
            }
            assert(65535 * k <= 65535 * 120000) by (nonlinear_arith)
                requires k <= 120000;
            let ch: u64 = cc as u64 * h as u64;
            assert(2 * cc * h == 2 * ch) by (nonlinear_arith)
                requires ch == cc * h;
            if d as u64 + 2 + 2 * ch + sum <= n as u64 {
                2
            } else {
                0
            }
        }
    } else {
        0
    }
}

/// Whether the psd crate can parse, flatten and render `b` without a panic (see
/// `psd_structure_ok`); the frame (header, three length-prefixed sections, two bytes of
/// image data) must be in bounds.
pub fn check_psd_structure(b: &[u8]) -> (r: bool)
    requires
        b@.len() >= 26,
        ({
            let (r, l, d) = section_starts(b@);
            30 <= b@.len() && r + 4 <= b@.len() && l + 4 <= b@.len() && d + 2 <= b@.len()
        }),
    ensures
        r == psd_structure_ok(b@),
{
    let ghost (rs, ls, ds) = section_starts(b@);
    let n: usize = b.len();
    let r = 30 + be32(b, 26) as usize;
    let l = r + 4 + be32(b, r) as usize;
    let d = l + 4 + be32(b, l) as usize;
    assert(r as int == rs && l as int == ls && d as int == ds);
    if !header_ok(b) {
        return true;
    }
    if b.len() as u64 > 0x1_0000_0000_0000 {
        return false;
    }
    let w = be32(b, 18);
    let h = be32(b, 14);
    match layer_check(b, l, d, w, h) {
        None => false,
        Some((fok, empty)) => {
            let st = image_check(b, d, b[13], w, h, b[23], b[25], empty);
            st == 1 || (st == 2 && resources_check(b, r, l) && (empty || fok))
        },
    }
}

} // verus!
