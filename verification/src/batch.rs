//! Batch renaming: the preview of new names and the checks made before one rename.
//!
//! A new name is prefix + date (optional) + sequence number + the file's own extension;
//! the number starts at `start_num` and is zero-padded to `digits` digits. The date is
//! the local time formatted with the tokens yyyy / MM / dd / HH / mm / ss, every other
//! character being copied.

use vstd::prelude::*;
use crate::calendar::{civil_from_days, days_from_civil, valid_date};
use crate::strs::{chars_of, trim, trimmed, str_eq, eq_ignore_ascii_case, eq_ascii_ci, path_extension,
    spec_extension, path_file_name, spec_file_name};
use crate::text::{push_str, push_zero_padded, zero_padded};
use vstd::arithmetic::div_mod::{lemma_fundamental_div_mod, lemma_fundamental_div_mod_converse_div,
    lemma_fundamental_div_mod_converse_mod, lemma_mod_bound};

verus! {

/// One rename request: the source file's full path and the new file name.
pub struct RenamePair {
    pub old: String,
    pub new: String,
}

/// A local date and time.
#[derive(PartialEq, Eq, Structural, Clone, Copy, Debug)]
pub struct CivilNow {
    pub year: i64,
    pub month: u32,
    pub day: u32,
    pub hour: u32,
    pub minute: u32,
    pub second: u32,
}

/// The local date and time at `secs` Unix seconds with the zone offset `offset_secs`.
pub open spec fn civil_at(local: int, t: CivilNow) -> bool {
    let days = local / 86_400;
    let sod = local % 86_400;
    &&& valid_date(t.year as int, t.month as int, t.day as int)
    &&& days_from_civil(t.year as int, t.month as int, t.day as int) == days
    &&& t.hour == sod / 3600
    &&& t.minute == (sod % 3600) / 60
    &&& t.second == sod % 60
}

/// Local time from Unix seconds and the zone offset in seconds (east positive).
pub fn local_now(secs: i64, offset_secs: i64) -> (t: CivilNow)
    requires
        i64::MIN <= secs + offset_secs <= i64::MAX,
    ensures
        civil_at(secs + offset_secs, t),
{
    let local: i64 = secs + offset_secs;
    let days: i64;
    let sod: i64;
    if local >= 0 {
        days = (local as u64 / 86_400) as i64;
        sod = (local as u64 % 86_400) as i64;
    } else {
        let n: u64 = (-(local + 1)) as u64;
        days = -((n / 86_400) as i64) - 1;
        sod = 86_399 - (n % 86_400) as i64;
    }
    proof {
        lemma_fundamental_div_mod(local as int, 86_400);
        lemma_mod_bound(local as int, 86_400);
        if local < 0 {
            let n = -(local + 1);
            lemma_fundamental_div_mod(n, 86_400);
            lemma_mod_bound(n, 86_400);
            lemma_fundamental_div_mod_converse_div(local as int, 86_400, -(n / 86_400) - 1, 86_399 - n % 86_400);
            lemma_fundamental_div_mod_converse_mod(local as int, 86_400, -(n / 86_400) - 1, 86_399 - n % 86_400);
        }
        assert(days == (local as int) / 86_400);
        assert(sod == (local as int) % 86_400);
    }
    let (year, month, day) = civil_from_days(days);
    CivilNow {
        year,
        month,
        day,
        hour: (sod / 3600) as u32,
        minute: ((sod % 3600) / 60) as u32,
        second: (sod % 60) as u32,
    }
}

/// `{:04}` of the year: zero-padded to four characters, the sign counting as one.
pub open spec fn year_text(y: int) -> Seq<char> {
    if y >= 0 {
        zero_padded(y as nat, 4)
    } else {
        seq!['-'] + zero_padded((-y) as nat, 3)
    }
}

/// `{:02}` of a field.
pub open spec fn two(n: u32) -> Seq<char> {
    zero_padded(n as nat, 2)
}

/// `s` starts with `tok`.
pub open spec fn starts(s: Seq<char>, tok: Seq<char>) -> bool {
    s.len() >= tok.len() && s.take(tok.len() as int) == tok
}

/// The format string with each token replaced (longest token first at each position).
pub open spec fn fmt_date(s: Seq<char>, t: CivilNow) -> Seq<char>
    decreases s.len(),
{
    if s.len() == 0 {
        Seq::empty()
    } else if starts(s, seq!['y', 'y', 'y', 'y']) {
        year_text(t.year as int) + fmt_date(s.skip(4), t)
    } else if starts(s, seq!['M', 'M']) {
        two(t.month) + fmt_date(s.skip(2), t)
    } else if starts(s, seq!['d', 'd']) {
        two(t.day) + fmt_date(s.skip(2), t)
    } else if starts(s, seq!['H', 'H']) {
        two(t.hour) + fmt_date(s.skip(2), t)
    } else if starts(s, seq!['m', 'm']) {
        two(t.minute) + fmt_date(s.skip(2), t)
    } else if starts(s, seq!['s', 's']) {
        two(t.second) + fmt_date(s.skip(2), t)
    } else {
        seq![s[0]] + fmt_date(s.skip(1), t)
    }
}

fn push_year(out: &mut String, y: i64)
    ensures
        final(out)@ == old(out)@ + year_text(y as int),
{
    if y >= 0 {
        push_zero_padded(out, y as u64, 4);
    } else {
        out.push('-');
        let a: u64 = ((-(y + 1)) as u64) + 1;
        push_zero_padded(out, a, 3);
        assert(out@ =~= old(out)@ + year_text(y as int));
    }
}

fn pair_at(cs: &Vec<char>, i: usize, c: char) -> (r: bool)
    requires
        i <= cs@.len(),
    ensures
        r == starts(cs@.skip(i as int), seq![c, c]),
        r ==> i + 2 <= cs.len(),
{
    if cs.len() - i >= 2 && cs[i] == c && cs[i + 1] == c {
        assert(cs@.skip(i as int).take(2) =~= seq![c, c]);
        true
    } else {
        proof {
            if starts(cs@.skip(i as int), seq![c, c]) {
                assert(cs@.skip(i as int).take(2)[0] == c);
                assert(cs@.skip(i as int).take(2)[1] == c);
            }
        }
        false
    }
}

fn year_at(cs: &Vec<char>, i: usize) -> (r: bool)
    requires
        i <= cs@.len(),
    ensures
        r == starts(cs@.skip(i as int), seq!['y', 'y', 'y', 'y']),
        r ==> i + 4 <= cs.len(),
{
    let rest = Ghost(cs@.skip(i as int));
    if cs.len() - i >= 4 && cs[i] == 'y' && cs[i + 1] == 'y' && cs[i + 2] == 'y' && cs[i + 3] == 'y' {
        assert(rest@.take(4) =~= seq!['y', 'y', 'y', 'y']);
        true
    } else {
        proof {
            if starts(rest@, seq!['y', 'y', 'y', 'y']) {
                assert(rest@.take(4)[0] == 'y' && rest@.take(4)[1] == 'y');
                assert(rest@.take(4)[2] == 'y' && rest@.take(4)[3] == 'y');
            }
        }
        false
    }
}

/// Formats one token (or copies one character) at `i`; returns the next position.
fn date_step(cs: &Vec<char>, i: usize, t: &CivilNow, out: &mut String) -> (j: usize)
    requires
        i < cs.len(),
    ensures
        i < j <= cs.len(),
        final(out)@ + fmt_date(cs@.skip(j as int), *t) == old(out)@ + fmt_date(cs@.skip(i as int), *t),
{
    let ghost rest = cs@.skip(i as int);
    assert(rest.len() == cs@.len() - i);
    if year_at(cs, i) {
        push_year(out, t.year);
        assert(rest.skip(4) =~= cs@.skip(i + 4));
        assert(out@ + fmt_date(cs@.skip(i + 4), *t) =~= old(out)@ + fmt_date(rest, *t));
        return i + 4;
    }
    let j: usize;
    if pair_at(cs, i, 'M') {
        push_zero_padded(out, t.month as u64, 2);
        j = i + 2;
    } else if pair_at(cs, i, 'd') {
        push_zero_padded(out, t.day as u64, 2);
        j = i + 2;
    } else if pair_at(cs, i, 'H') {
        push_zero_padded(out, t.hour as u64, 2);
        j = i + 2;
    } else if pair_at(cs, i, 'm') {
        push_zero_padded(out, t.minute as u64, 2);
        j = i + 2;
    } else if pair_at(cs, i, 's') {
        push_zero_padded(out, t.second as u64, 2);
        j = i + 2;
    } else {
        out.push(cs[i]);
        assert(rest[0] == cs@[i as int]);
        j = i + 1;
    }
    assert(rest.skip((j - i) as int) =~= cs@.skip(j as int));
    assert(out@ + fmt_date(cs@.skip(j as int), *t) =~= old(out)@ + fmt_date(rest, *t));
    j
}

/// Formats `t` with the tokens yyyy / MM / dd / HH / mm / ss; other characters are copied.
pub fn format_date(fmt: &str, t: &CivilNow) -> (r: String)
    ensures
        r@ == fmt_date(fmt@, *t),
{
    let cs = chars_of(fmt);
    let n = cs.len();
    let mut out = String::new();
    let mut i: usize = 0;
    assert(cs@.skip(0) =~= cs@);
    assert(out@ + fmt_date(cs@, *t) =~= fmt_date(cs@, *t));
    while i < n
        invariant
            i <= n == cs@.len(),
            cs@ == fmt@,
            out@ + fmt_date(cs@.skip(i as int), *t) == fmt_date(fmt@, *t),
        decreases n - i,
    {
        i = date_step(&cs, i, t, &mut out);
    }
    assert(cs@.skip(n as int) =~= Seq::<char>::empty());
    assert(out@ + Seq::<char>::empty() =~= out@);
    out
}

/// The extension of a file name with its dot ("" when it has none).
pub open spec fn ext_dot(name: Seq<char>) -> Seq<char> {
    match spec_extension(name) {
        Some(e) => seq!['.'] + e,
        None => Seq::empty(),
    }
}

/// The extension of `name` with its dot, or "" (kept when renaming).
pub fn ext_with_dot(name: &str) -> (r: String)
    ensures
        r@ == ext_dot(name@),
{
    match path_extension(name) {
        Some(e) => {
            let mut s = String::new();
            s.push('.');
            push_str(&mut s, e.as_str());
            assert(s@ =~= seq!['.'] + e@);
            s
        },
        None => String::new(),
    }
}

/// Sequence number of the `i`-th name: `start + i` (with `i` taken modulo 2^32),
/// saturating at `u32::MAX`.
pub open spec fn seq_number(start: u32, i: int) -> nat {
    let k = i % 0x1_0000_0000;
    if start + k > u32::MAX { u32::MAX as nat } else { (start + k) as nat }
}

/// The new name of the `i`-th file.
pub open spec fn preview_name(
    name: Seq<char>,
    prefix: Seq<char>,
    date: Seq<char>,
    start: u32,
    digits: u32,
    i: int,
) -> Seq<char> {
    prefix + date + zero_padded(seq_number(start, i), digits as nat) + ext_dot(name)
}

/// The date part: the formatted time, or nothing.
pub open spec fn date_part(use_date: bool, fmt: Seq<char>, now: CivilNow) -> Seq<char> {
    if use_date { fmt_date(fmt, now) } else { Seq::empty() }
}

/// New names for `names`, in the same order (nothing is renamed).
pub fn batch_rename_preview(
    names: &Vec<String>,
    prefix: &str,
    start_num: u32,
    digits: u32,
    use_date: bool,
    date_fmt: &str,
    now: &CivilNow,
) -> (r: Vec<String>)
    ensures
        r@.len() == names@.len(),
        forall|i: int| 0 <= i < names@.len() ==> #[trigger] r@[i]@ == preview_name(
            names@[i]@, prefix@, date_part(use_date, date_fmt@, *now), start_num, digits, i),
{
    let date = if use_date { format_date(date_fmt, now) } else { String::new() };
    let ghost dp = date_part(use_date, date_fmt@, *now);
    assert(date@ == dp);
    let mut out: Vec<String> = Vec::new();
    let mut i: usize = 0;
    while i < names.len()
        invariant
            i <= names@.len(),
            out@.len() == i,
            date@ == dp,
            dp == date_part(use_date, date_fmt@, *now),
            forall|j: int| 0 <= j < i ==> #[trigger] out@[j]@ == preview_name(
                names@[j]@, prefix@, dp, start_num, digits, j),
        decreases names@.len() - i,
    {
        let k: u32 = i as u32;
        let num: u32 = start_num.saturating_add(k);
        proof {
            assert(k == (i as int) % 0x1_0000_0000) by (bit_vector)
                requires
                    k == i as u32,
            ;
        }
        let mut s = String::new();
        push_str(&mut s, prefix);
        push_str(&mut s, date.as_str());
        push_zero_padded(&mut s, num as u64, digits as usize);
        let ext = ext_with_dot(names[i].as_str());
        push_str(&mut s, ext.as_str());
        assert(s@ =~= preview_name(names@[i as int]@, prefix@, dp, start_num, digits, i as int));
        out.push(s);
        i = i + 1;
    }
    out
}

/// Parent directory of a path, as `Path::parent` gives it under the path rules of the
/// platform the library is built for.
pub uninterp spec fn spec_parent(p: Seq<char>) -> Option<Seq<char>>;

/// `Path::new(p).parent()`, converted with `to_string_lossy`.
#[verifier::external_body]
fn path_parent(p: &str) -> (r: Option<String>)
    ensures
        r is None <==> spec_parent(p@) is None,
        r matches Some(s) ==> spec_parent(p@) == Some(s@),
{
    std::path::Path::new(p).parent().map(|x| x.to_string_lossy().into_owned())
}

/// A path joined with one more component, as `Path::join` gives it under the path rules
/// of the platform the library is built for.
pub uninterp spec fn spec_join(base: Seq<char>, name: Seq<char>) -> Seq<char>;

/// `Path::new(base).join(name)`, converted with `to_string_lossy`.
#[verifier::external_body]
fn path_join(base: &str, name: &str) -> (r: String)
    ensures
        r@ == spec_join(base@, name@),
{
    std::path::Path::new(base).join(name).to_string_lossy().into_owned()
}

/// Equality of two paths component by component, as `Path`'s `==` decides it under the
/// path rules of the platform the library is built for.
pub uninterp spec fn spec_path_eq(a: Seq<char>, b: Seq<char>) -> bool;

/// `Path::new(a) == Path::new(b)`.
#[verifier::external_body]
pub(crate) fn paths_equal(a: &str, b: &str) -> (r: bool)
    ensures
        r == spec_path_eq(a@, b@),
{
    std::path::Path::new(a) == std::path::Path::new(b)
}

/// What to do for one rename request.
pub enum RenamePlan {
    /// Refused, with the message reported for it.
    Fail(String),
    /// The new path is the old one: nothing to do.
    Keep,
    /// Rename to `new_path` once the target is checked (`case_only`: the names differ
    /// only in ASCII case, so an existing target is the file itself).
    Move { new_path: String, case_only: bool },
}

/// Abstract plan.
pub enum PlanView {
    Fail(Seq<char>),
    Keep,
    Move(Seq<char>, bool),
}

impl RenamePlan {
    /// Abstract value.
    pub open spec fn view(&self) -> PlanView {
        match self {
            RenamePlan::Fail(m) => PlanView::Fail(m@),
            RenamePlan::Keep => PlanView::Keep,
            RenamePlan::Move { new_path, case_only } => PlanView::Move(new_path@, *case_only),
        }
    }
}

/// A new name that is not a single file name.
pub open spec fn illegal_name(n: Seq<char>) -> bool {
    n.contains('/') || n.contains('\\') || n == seq!['.'] || n == seq!['.', '.']
}

/// The plan for renaming `old` to `new` (`old_is_file`: the source exists as a file).
pub open spec fn spec_plan(old: Seq<char>, new: Seq<char>, old_is_file: bool) -> PlanView {
    let nn = trimmed(new);
    if !old_is_file {
        PlanView::Fail(old + "：源文件不存在"@)
    } else if nn.len() == 0 {
        PlanView::Fail(old + "：新文件名为空"@)
    } else if illegal_name(nn) {
        PlanView::Fail(old + " → "@ + nn + "：新文件名非法（不能包含路径分隔符）"@)
    } else {
        match spec_parent(old) {
            None => PlanView::Fail(old + "：路径缺少父目录"@),
            Some(p) => {
                let np = spec_join(p, nn);
                if spec_path_eq(old, np) {
                    PlanView::Keep
                } else {
                    PlanView::Move(np, match spec_file_name(old) {
                        Some(f) => eq_ascii_ci(f, nn),
                        None => false,
                    })
                }
            },
        }
    }
}

fn has_char(cs: &Vec<char>, c: char) -> (r: bool)
    ensures
        r == cs@.contains(c),
{
    let mut i: usize = 0;
    while i < cs.len()
        invariant
            i <= cs@.len(),
            forall|j: int| 0 <= j < i ==> cs@[j] != c,
        decreases cs@.len() - i,
    {
        if cs[i] == c {
            assert(cs@[i as int] == c);
            return true;
        }
        i = i + 1;
    }
    false
}

fn message2(a: &str, b: &str) -> (r: String)
    ensures
        r@ == a@ + b@,
{
    let mut s = String::new();
    push_str(&mut s, a);
    push_str(&mut s, b);
    assert(s@ =~= a@ + b@);
    s
}

fn message4(a: &str, b: &str, c: &str, d: &str) -> (r: String)
    ensures
        r@ == a@ + b@ + c@ + d@,
{
    let mut s = String::new();
    push_str(&mut s, a);
    push_str(&mut s, b);
    push_str(&mut s, c);
    push_str(&mut s, d);
    assert(s@ =~= a@ + b@ + c@ + d@);
    s
}

/// Checks one rename request up to the existence of its target.
pub fn plan_rename(old: &str, new: &str, old_is_file: bool) -> (r: RenamePlan)
    ensures
        r.view() == spec_plan(old@, new@, old_is_file),
{
    if !old_is_file {
        return RenamePlan::Fail(message2(old, "：源文件不存在"));
    }
    let new_name = trim(new);
    let cs = chars_of(new_name.as_str());
    if cs.len() == 0 {
        return RenamePlan::Fail(message2(old, "：新文件名为空"));
    }
    proof {
        reveal_strlit(".");
        reveal_strlit("..");
    }
    if has_char(&cs, '/') || has_char(&cs, '\\') || str_eq(new_name.as_str(), ".") || str_eq(new_name.as_str(), "..") {
        assert(".."@ =~= seq!['.', '.']);
        assert("."@ =~= seq!['.']);
        return RenamePlan::Fail(message4(old, " → ", new_name.as_str(), "：新文件名非法（不能包含路径分隔符）"));
    }
    assert(".."@ =~= seq!['.', '.']);
    assert("."@ =~= seq!['.']);
    let parent = match path_parent(old) {
        Some(p) => p,
        None => {
            return RenamePlan::Fail(message2(old, "：路径缺少父目录"));
        },
    };
    let new_path = path_join(parent.as_str(), new_name.as_str());
    if paths_equal(old, new_path.as_str()) {
        return RenamePlan::Keep;
    }
    let case_only = match path_file_name(old) {
        Some(f) => eq_ignore_ascii_case(f.as_str(), new_name.as_str()),
        None => false,
    };
    RenamePlan::Move { new_path, case_only }
}

/// The refusal for an existing target (none when only the case changes).
pub open spec fn spec_target_verdict(old: Seq<char>, new: Seq<char>, case_only: bool, target_exists: bool) -> Option<Seq<char>> {
    if !case_only && target_exists {
        Some(old + " → "@ + trimmed(new) + "：目标已存在，已跳过"@)
    } else {
        None
    }
}

/// Decides on a planned move once the target's existence is known.
pub fn target_verdict(old: &str, new: &str, case_only: bool, target_exists: bool) -> (r: Result<(), String>)
    ensures
        r is Ok <==> spec_target_verdict(old@, new@, case_only, target_exists) is None,
        r matches Err(m) ==> spec_target_verdict(old@, new@, case_only, target_exists) == Some(m@),
{
    if !case_only && target_exists {
        let new_name = trim(new);
        return Err(message4(old, " → ", new_name.as_str(), "：目标已存在，已跳过"));
    }
    Ok(())
}

/// Shape of a preview name: it begins with the prefix, the date part follows right
/// after it, then the zero-padded sequence number, and it ends with the file's own
/// extension (with its dot).
pub proof fn law_preview_name_shape(
    name: Seq<char>,
    prefix: Seq<char>,
    date: Seq<char>,
    start: u32,
    digits: u32,
    i: int,
)
    ensures
        ({
            let n = preview_name(name, prefix, date, start, digits, i);
            let num = zero_padded(seq_number(start, i), digits as nat);
            &&& n.len() == prefix.len() + date.len() + num.len() + ext_dot(name).len()
            &&& n.take(prefix.len() as int) == prefix
            &&& n.subrange(prefix.len() as int, (prefix.len() + date.len()) as int) == date
            &&& n.subrange((prefix.len() + date.len()) as int, (prefix.len() + date.len() + num.len()) as int) == num
            &&& n.skip((prefix.len() + date.len() + num.len()) as int) == ext_dot(name)
        }),
{
    let n = preview_name(name, prefix, date, start, digits, i);
    let num = zero_padded(seq_number(start, i), digits as nat);
    let a = prefix.len() as int;
    let b = a + date.len();
    let c = b + num.len();
    assert(n.take(a) =~= prefix);
    assert(n.subrange(a, b) =~= date);
    assert(n.subrange(b, c) =~= num);
    assert(n.skip(c) =~= ext_dot(name));
}

} // verus!
