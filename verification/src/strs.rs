//! Character-level string helpers.

use vstd::prelude::*;

verus! {

/// The characters of `s`.
pub fn chars_of(s: &str) -> (v: Vec<char>)
    ensures
        v@ == s@,
{
    broadcast use vstd::string::group_string_axioms;
    let mut v: Vec<char> = Vec::new();
    for c in it: s.chars()
        invariant
            v@ == it.seq().take(it.index() as int),
    {
        v.push(c);
    }
    assert(v@ =~= s@);
    v
}

/// Unicode White_Space property (the characters `char::is_whitespace` accepts).
pub open spec fn is_ws(c: char) -> bool {
    let u = c as u32;
    ||| (0x9 <= u && u <= 0xD)
    ||| u == 0x20
    ||| u == 0x85
    ||| u == 0xA0
    ||| u == 0x1680
    ||| (0x2000 <= u && u <= 0x200A)
    ||| u == 0x2028
    ||| u == 0x2029
    ||| u == 0x202F
    ||| u == 0x205F
    ||| u == 0x3000
}

/// Whether `c` is Unicode white space.
pub fn char_is_ws(c: char) -> (r: bool)
    ensures
        r == is_ws(c),
{
    let u = c as u32;
    (0x9 <= u && u <= 0xD) || u == 0x20 || u == 0x85 || u == 0xA0 || u == 0x1680
        || (0x2000 <= u && u <= 0x200A) || u == 0x2028 || u == 0x2029 || u == 0x202F
        || u == 0x205F || u == 0x3000
}

/// `s` without leading white space.
pub open spec fn trim_start(s: Seq<char>) -> Seq<char>
    decreases s.len(),
{
    if s.len() > 0 && is_ws(s[0]) { trim_start(s.drop_first()) } else { s }
}

/// `s` without trailing white space.
pub open spec fn trim_end(s: Seq<char>) -> Seq<char>
    decreases s.len(),
{
    if s.len() > 0 && is_ws(s.last()) { trim_end(s.drop_last()) } else { s }
}

/// `s` without leading and trailing white space (`str::trim`).
pub open spec fn trimmed(s: Seq<char>) -> Seq<char> {
    trim_end(trim_start(s))
}

proof fn lemma_trim_start_skip(s: Seq<char>, a: int)
    requires
        0 <= a <= s.len(),
        forall|j: int| 0 <= j < a ==> is_ws(#[trigger] s[j]),
        a == s.len() || !is_ws(s[a]),
    ensures
        trim_start(s) == s.skip(a),
    decreases a,
{
    if a == 0 {
        assert(s.skip(0) =~= s);
    } else {
        assert forall|j: int| 0 <= j < a - 1 implies is_ws(#[trigger] s.drop_first()[j]) by {
            assert(s.drop_first()[j] == s[j + 1]);
        }
        if a - 1 < s.drop_first().len() {
            assert(s.drop_first()[a - 1] == s[a]);
        }
        lemma_trim_start_skip(s.drop_first(), a - 1);
        assert(s.drop_first().skip(a - 1) =~= s.skip(a));
    }
}

proof fn lemma_trim_end_take(s: Seq<char>, b: int)
    requires
        0 <= b <= s.len(),
        forall|j: int| b <= j < s.len() ==> is_ws(#[trigger] s[j]),
        b == 0 || !is_ws(s[b - 1]),
    ensures
        trim_end(s) == s.take(b),
    decreases s.len() - b,
{
    if b == s.len() {
        assert(s.take(b) =~= s);
    } else {
        assert forall|j: int| b <= j < s.drop_last().len() implies is_ws(#[trigger] s.drop_last()[j]) by {
            assert(s.drop_last()[j] == s[j]);
        }
        if b > 0 {
            assert(s.drop_last()[b - 1] == s[b - 1]);
        }
        lemma_trim_end_take(s.drop_last(), b);
        assert(s.drop_last().take(b) =~= s.take(b));
    }
}

/// Builds a string from `cs[from..to]`.
pub fn string_from_chars(cs: &Vec<char>, from: usize, to: usize) -> (r: String)
    requires
        from <= to <= cs@.len(),
    ensures
        r@ == cs@.subrange(from as int, to as int),
{
    let mut r = String::new();
    let mut i = from;
    while i < to
        invariant
            from <= i <= to <= cs@.len(),
            r@ == cs@.subrange(from as int, i as int),
        decreases to - i,
    {
        r.push(cs[i]);
        i = i + 1;
        assert(r@ =~= cs@.subrange(from as int, i as int));
    }
    r
}

/// `s` without leading and trailing white space.
pub fn trim(s: &str) -> (r: String)
    ensures
        r@ == trimmed(s@),
{
    let cs = chars_of(s);
    let n = cs.len();
    let mut a: usize = 0;
    while a < n && char_is_ws(cs[a])
        invariant
            a <= n == cs@.len(),
            forall|j: int| 0 <= j < a ==> is_ws(#[trigger] cs@[j]),
        decreases n - a,
    {
        a = a + 1;
    }
    proof { lemma_trim_start_skip(cs@, a as int); }
    let mut b: usize = n;
    while b > a && char_is_ws(cs[b - 1])
        invariant
            a <= b <= n == cs@.len(),
            forall|j: int| b <= j < n ==> is_ws(#[trigger] cs@[j]),
        decreases b,
    {
        b = b - 1;
    }
    proof {
        let t = cs@.skip(a as int);
        assert forall|j: int| b - a <= j < t.len() implies is_ws(#[trigger] t[j]) by {
            assert(t[j] == cs@[a + j]);
        }
        if b > a {
            assert(t[b - a - 1] == cs@[b - 1]);
        }
        lemma_trim_end_take(t, b - a);
        assert(t.take(b - a) =~= cs@.subrange(a as int, b as int));
    }
    string_from_chars(&cs, a, b)
}

/// ASCII lower-case of one character.
pub open spec fn lower_ascii(c: char) -> char {
    if 'A' <= c && c <= 'Z' { ((c as u32) + 32) as char } else { c }
}

/// Equality ignoring ASCII case (`str::eq_ignore_ascii_case`).
pub open spec fn eq_ascii_ci(a: Seq<char>, b: Seq<char>) -> bool {
    &&& a.len() == b.len()
    &&& forall|i: int| 0 <= i < a.len() ==> lower_ascii(#[trigger] a[i]) == lower_ascii(b[i])
}

/// ASCII lower-case of one character.
pub fn char_lower_ascii(c: char) -> (r: char)
    ensures
        r == lower_ascii(c),
{
    if 'A' <= c && c <= 'Z' {
        let u = (c as u32) + 32;
        assert(u <= 0x7A);
        char_from_ascii(u)
    } else {
        c
    }
}

fn char_from_ascii(u: u32) -> (c: char)
    requires
        u < 0x80,
    ensures
        c == u as char,
{
    (u as u8) as char
}

/// Whether `a` and `b` are equal ignoring ASCII case.
pub fn eq_ignore_ascii_case(a: &str, b: &str) -> (r: bool)
    ensures
        r == eq_ascii_ci(a@, b@),
{
    let ca = chars_of(a);
    let cb = chars_of(b);
    if ca.len() != cb.len() {
        return false;
    }
    let mut i: usize = 0;
    while i < ca.len()
        invariant
            i <= ca@.len() == cb@.len(),
            ca@ == a@,
            cb@ == b@,
            forall|j: int| 0 <= j < i ==> lower_ascii(#[trigger] ca@[j]) == lower_ascii(cb@[j]),
        decreases ca@.len() - i,
    {
        if char_lower_ascii(ca[i]) != char_lower_ascii(cb[i]) {
            assert(!(lower_ascii(a@[i as int]) == lower_ascii(b@[i as int])));
            return false;
        }
        i = i + 1;
    }
    true
}

/// ASCII lower-case of a string (`str::to_ascii_lowercase`).
pub open spec fn lower_ascii_str(s: Seq<char>) -> Seq<char> {
    s.map_values(|c: char| lower_ascii(c))
}

/// ASCII lower-case copy of `s`.
pub fn to_ascii_lowercase(s: &str) -> (r: String)
    ensures
        r@ == lower_ascii_str(s@),
{
    let cs = chars_of(s);
    let mut r = String::new();
    let mut i: usize = 0;
    while i < cs.len()
        invariant
            i <= cs@.len(),
            r@ == lower_ascii_str(cs@.take(i as int)),
        decreases cs@.len() - i,
    {
        r.push(char_lower_ascii(cs[i]));
        i = i + 1;
        assert(lower_ascii_str(cs@.take(i as int)) =~= lower_ascii_str(cs@.take(i - 1)).push(lower_ascii(cs@[i - 1])));
    }
    assert(cs@.take(cs@.len() as int) =~= cs@);
    r
}

/// Final component of a file-system path, as `Path::file_name` returns it (lossy
/// UTF-8) under the path rules of the platform the library is built for; its value is
/// left to the standard library.
pub uninterp spec fn spec_file_name(p: Seq<char>) -> Option<Seq<char>>;

/// A single path component on every platform: not empty, not "." or "..", and free of
/// '/', '\\' and ':'.
pub open spec fn plain_name(p: Seq<char>) -> bool {
    &&& p.len() > 0
    &&& p != "."@
    &&& p != ".."@
    &&& forall|i: int| 0 <= i < p.len() ==> p[i] != '/' && p[i] != '\\' && p[i] != ':'
}

/// `Path::new(p).file_name()`, converted with `to_string_lossy`; a plain name is its own
/// file name.
#[verifier::external_body]
pub(crate) fn path_file_name(p: &str) -> (r: Option<String>)
    ensures
        r is None <==> spec_file_name(p@) is None,
        r matches Some(n) ==> spec_file_name(p@) == Some(n@),
        plain_name(p@) ==> r is Some && r->0@ == p@,
{
    std::path::Path::new(p).file_name().map(|n| n.to_string_lossy().into_owned())
}

/// Unicode lower-case of a string, as `str::to_lowercase` computes it.
pub uninterp spec fn spec_lowercase(s: Seq<char>) -> Seq<char>;

/// Every character is ASCII.
pub open spec fn all_ascii(s: Seq<char>) -> bool {
    forall|i: int| 0 <= i < s.len() ==> (s[i] as u32) < 128
}

/// `s.to_lowercase()`; on ASCII text it maps 'A'..='Z' to 'a'..='z' and keeps the rest.
#[verifier::external_body]
pub(crate) fn to_lowercase(s: &str) -> (r: String)
    ensures
        r@ == spec_lowercase(s@),
        all_ascii(s@) ==> r@ == lower_ascii_str(s@),
{
    s.to_lowercase()
}

/// Extension of a file name (`Path::extension`): `None` when the name has no '.'
/// or its only '.' is the first character; otherwise the part after the last '.'.
pub open spec fn ext_of_name(name: Seq<char>) -> Option<Seq<char>> {
    if exists|i: int| 0 < i < name.len() && name[i] == '.' {
        let k = choose|i: int| 0 < i < name.len() && name[i] == '.'
            && forall|j: int| i < j < name.len() ==> name[j] != '.';
        Some(name.skip(k + 1))
    } else {
        None
    }
}

/// Extension of a path (`Path::extension`).
pub open spec fn spec_extension(p: Seq<char>) -> Option<Seq<char>> {
    match spec_file_name(p) {
        Some(n) => ext_of_name(n),
        None => None,
    }
}

/// Extension of the file name `name`.
pub fn extension_of_name(name: &str) -> (r: Option<String>)
    ensures
        r is None <==> ext_of_name(name@) is None,
        r matches Some(e) ==> ext_of_name(name@) == Some(e@),
{
    let cs = chars_of(name);
    let n = cs.len();
    let mut k: usize = n;
    while k > 1 && cs[k - 1] != '.'
        invariant
            0 <= k <= n == cs@.len(),
            forall|j: int| k <= j < n ==> cs@[j] != '.',
        decreases k,
    {
        k = k - 1;
    }
    // k - 1 is the last '.' when k > 1 and cs[k - 1] == '.'
    if k > 1 {
        proof {
            let i = k - 1;
            assert(0 < i < name@.len() && name@[i as int] == '.');
            let c = choose|c: int| 0 < c < name@.len() && name@[c] == '.'
                && forall|j: int| c < j < name@.len() ==> name@[j] != '.';
            if c < i {
                assert(name@[i as int] != '.');
            } else if c > i {
                assert(name@[c] != '.');
            }
        }
        let e = string_from_chars(&cs, k, n);
        assert(e@ =~= name@.skip(k as int));
        Some(e)
    } else {
        proof {
            assert forall|i: int| 0 < i < name@.len() implies name@[i] != '.' by {
                assert(i >= k);
            }
        }
        None
    }
}

/// Extension of the path `p` (`Path::new(p).extension()`).
pub fn path_extension(p: &str) -> (r: Option<String>)
    ensures
        r is None <==> spec_extension(p@) is None,
        r matches Some(e) ==> spec_extension(p@) == Some(e@),
        plain_name(p@) ==> (r is None <==> ext_of_name(p@) is None)
            && (r matches Some(e) ==> ext_of_name(p@) == Some(e@) && (all_ascii(p@) ==> all_ascii(e@))),
{
    match path_file_name(p) {
        Some(n) => {
            let r = extension_of_name(n.as_str());
            proof {
                lemma_ext_suffix(n@);
            }
            r
        },
        None => None,
    }
}

proof fn lemma_last_dot(name: Seq<char>, i: int)
    requires
        0 < i < name.len(),
        name[i] == '.',
    ensures
        exists|c: int| 0 < c < name.len() && name[c] == '.' && forall|j: int| c < j < name.len() ==> name[j] != '.',
    decreases name.len() - i,
{
    if exists|j: int| i < j < name.len() && name[j] == '.' {
        let j = choose|j: int| i < j < name.len() && name[j] == '.';
        lemma_last_dot(name, j);
    } else {
        assert(forall|j: int| i < j < name.len() ==> name[j] != '.');
    }
}

/// An extension is made of characters of the name.
proof fn lemma_ext_suffix(name: Seq<char>)
    ensures
        ext_of_name(name) matches Some(e) ==> (all_ascii(name) ==> all_ascii(e)),
{
    if exists|i: int| 0 < i < name.len() && name[i] == '.' {
        let i0 = choose|i: int| 0 < i < name.len() && name[i] == '.';
        lemma_last_dot(name, i0);
        let k = choose|i: int| 0 < i < name.len() && name[i] == '.'
            && forall|j: int| i < j < name.len() ==> name[j] != '.';
        let e = name.skip(k + 1);
        if all_ascii(name) {
            assert forall|i: int| 0 <= i < e.len() implies (e[i] as u32) < 128 by {
                assert(e[i] == name[k + 1 + i]);
            }
        }
    }
}

/// Whether `a` and `b` hold the same characters.
pub fn str_eq(a: &str, b: &str) -> (r: bool)
    ensures
        r == (a@ == b@),
{
    let ca = chars_of(a);
    let cb = chars_of(b);
    if ca.len() != cb.len() {
        return false;
    }
    let mut i: usize = 0;
    while i < ca.len()
        invariant
            i <= ca@.len() == cb@.len(),
            ca@ == a@,
            cb@ == b@,
            forall|j: int| 0 <= j < i ==> ca@[j] == cb@[j],
        decreases ca@.len() - i,
    {
        if ca[i] != cb[i] {
            return false;
        }
        i = i + 1;
    }
    assert(ca@ =~= cb@);
    true
}

} // verus!
