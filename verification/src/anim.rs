//! Animation playback bookkeeping: the in-memory cache of animation files, the choice
//! of decoding backend, and the state of the prefetching decoder's frame stream.

use vstd::prelude::*;
use crate::batch::{paths_equal, spec_path_eq};
use crate::strs::{str_eq, trim, trimmed, to_ascii_lowercase, lower_ascii_str};

verus! {

/// Files the cache keeps at most.
pub const ANIM_CACHE_FILES: usize = 2;

/// Bytes the cached files may total before the oldest are dropped (1 GiB); the file
/// just read always stays.
pub const ANIM_CACHE_BYTES: u64 = 1073741824;

/// A cached animation file: path, the metadata it was read with (length and
/// modification time in nanoseconds from the Unix epoch), its bytes and the tick of
/// its last use.
pub struct AnimFileEntry<D> {
    pub path: String,
    pub len: u64,
    pub mtime: i128,
    pub data: D,
    pub last_used: u64,
}

/// Abstract entry.
pub struct AnimEntryView<D> {
    pub path: Seq<char>,
    pub len: u64,
    pub mtime: i128,
    pub data: D,
    pub last_used: u64,
}

impl<D> AnimFileEntry<D> {
    /// Abstract value.
    pub open spec fn view(&self) -> AnimEntryView<D> {
        AnimEntryView { path: self.path@, len: self.len, mtime: self.mtime, data: self.data, last_used: self.last_used }
    }
}

/// Abstract values of entries.
pub open spec fn anim_view<D>(v: Seq<AnimFileEntry<D>>) -> Seq<AnimEntryView<D>> {
    Seq::new(v.len(), |i: int| v[i].view())
}

/// The entry is the file `path` (read with metadata `key`, or in any version when
/// `any_version`).
pub open spec fn is_file<D>(e: AnimEntryView<D>, path: Seq<char>, key: Option<(u64, i128)>, any_version: bool) -> bool {
    spec_path_eq(e.path, path) && (any_version || key == Some((e.len, e.mtime)))
}

/// The entries other than the file `path` (see `is_file`), in order.
pub open spec fn others<D>(es: Seq<AnimEntryView<D>>, path: Seq<char>, key: Option<(u64, i128)>, any_version: bool) -> Seq<AnimEntryView<D>>
    decreases es.len(),
{
    if es.len() == 0 {
        es
    } else {
        let rest = others(es.skip(1), path, key, any_version);
        if is_file(es[0], path, key, any_version) { rest } else { seq![es[0]] + rest }
    }
}

/// `i` is the first entry with the smallest last-use tick.
pub open spec fn first_lru<D>(es: Seq<AnimEntryView<D>>, i: int) -> bool {
    &&& 0 <= i < es.len()
    &&& forall|j: int| 0 <= j < es.len() ==> es[i].last_used <= #[trigger] es[j].last_used
    &&& forall|j: int| 0 <= j < i ==> es[i].last_used < #[trigger] es[j].last_used
}

/// Total bytes of the entries.
pub open spec fn total_len<D>(es: Seq<AnimEntryView<D>>) -> int
    decreases es.len(),
{
    if es.len() == 0 { 0 } else { total_len(es.drop_last()) + es.last().len }
}

/// The first least recently used entry.
pub open spec fn lru_of<D>(a: Seq<AnimEntryView<D>>) -> int {
    choose|i: int| first_lru(a, i)
}

/// Whether eviction goes on: more than `ANIM_CACHE_FILES` entries, or more than one
/// entry and more than `ANIM_CACHE_BYTES` in total.
pub open spec fn over_limit<D>(a: Seq<AnimEntryView<D>>) -> bool {
    a.len() > ANIM_CACHE_FILES || (total_len(a) > ANIM_CACHE_BYTES && a.len() > 1)
}

/// `a` after dropping the least recently used entry while over the limits.
pub open spec fn evict<D>(a: Seq<AnimEntryView<D>>) -> Seq<AnimEntryView<D>>
    decreases a.len(),
{
    if over_limit(a) && 0 <= lru_of(a) < a.len() {
        evict(a.remove(lru_of(a)))
    } else {
        a
    }
}

proof fn lemma_first_lru_unique<D>(a: Seq<AnimEntryView<D>>, i: int, k: int)
    requires
        first_lru(a, i),
        first_lru(a, k),
    ensures
        i == k,
{
    if i < k {
        assert(a[k].last_used < a[i].last_used);
    } else if k < i {
        assert(a[i].last_used < a[k].last_used);
    }
}

/// In-memory cache of animation files (reopening at the end of a loop reads no disk).
pub struct AnimFileCache<D> {
    entries: Vec<AnimFileEntry<D>>,
    hits: u64,
}

impl<D> AnimFileCache<D> {
    /// Abstract entries.
    pub closed spec fn view(&self) -> Seq<AnimEntryView<D>> {
        anim_view(self.entries@)
    }

    /// Hits counted so far.
    pub closed spec fn spec_hits(&self) -> u64 {
        self.hits
    }

    /// An empty cache.
    pub fn new() -> (c: Self)
        ensures
            c.view().len() == 0,
            c.spec_hits() == 0,
    {
        let c = AnimFileCache { entries: Vec::new(), hits: 0 };
        assert(c.view() =~= Seq::<AnimEntryView<D>>::empty());
        c
    }

    /// Number of cached files.
    pub fn len(&self) -> (n: usize)
        ensures
            n == self.view().len(),
    {
        self.entries.len()
    }

    /// Lookups that found their file.
    pub fn hits(&self) -> (n: u64)
        ensures
            n == self.spec_hits(),
    {
        self.hits
    }

    /// Bytes of entry `i`.
    pub fn data(&self, i: usize) -> (d: &D)
        requires
            i < self.view().len(),
        ensures
            *d == self.view()[i as int].data,
    {
        &self.entries[i]
            .data
    }

    /// Finds `path` read with metadata `key` (`None`: the metadata could not be read,
    /// which never matches); a hit is marked used at tick `now` and counted.
    pub fn lookup(&mut self, path: &str, key: Option<(u64, i128)>, now: u64) -> (r: Option<usize>)
        requires
            old(self).spec_hits() < u64::MAX,
        ensures
            r matches Some(i) ==> {
                &&& 0 <= i < old(self).view().len()
                &&& is_file(old(self).view()[i as int], path@, key, false)
                &&& forall|j: int| 0 <= j < i ==> !is_file(#[trigger] old(self).view()[j], path@, key, false)
                &&& final(self).view() == old(self).view().update(i as int, AnimEntryView { last_used: now, ..old(self).view()[i as int] })
                &&& final(self).spec_hits() == old(self).spec_hits() + 1
            },
            r is None ==> {
                &&& forall|j: int| 0 <= j < old(self).view().len() ==> !is_file(#[trigger] old(self).view()[j], path@, key, false)
                &&& final(self).view() == old(self).view()
                &&& final(self).spec_hits() == old(self).spec_hits()
            },
    {
        let ghost es = self.view();
        let mut i: usize = 0;
        while i < self.entries.len()
            invariant
                i <= self.entries@.len(),
                es == self.view(),
                es == old(self).view(),
                self.spec_hits() == old(self).spec_hits(),
                old(self).spec_hits() < u64::MAX,
                es.len() == self.entries@.len(),
                forall|j: int| 0 <= j < i ==> !is_file(#[trigger] es[j], path@, key, false),
            decreases self.entries@.len() - i,
        {
            let same = match key {
                Some((l, t)) => self.entries[i].len == l && self.entries[i].mtime == t,
                None => false,
            };
            if same && paths_equal(self.entries[i].path.as_str(), path) {
                self.entries[i].last_used = now;
                self.hits = self.hits + 1;
                assert(self.view() =~= es.update(i as int, AnimEntryView { last_used: now, ..es[i as int] }));
                return Some(i);
            }
            assert(!is_file(es[i as int], path@, key, false));
            i = i + 1;
        }
        None
    }

    fn drop_file(&mut self, path: &str, key: Option<(u64, i128)>, any_version: bool)
        ensures
            final(self).view() == others(old(self).view(), path@, key, any_version),
            final(self).spec_hits() == old(self).spec_hits(),
    {
        let mut rest: Vec<AnimFileEntry<D>> = Vec::new();
        std::mem::swap(&mut rest, &mut self.entries);
        let ghost orig = anim_view(rest@);
        assert(anim_view(self.entries@) =~= Seq::<AnimEntryView<D>>::empty());
        while rest.len() > 0
            invariant
                anim_view(self.entries@) + others(anim_view(rest@), path@, key, any_version)
                    == others(orig, path@, key, any_version),
                self.spec_hits() == old(self).spec_hits(),
            decreases rest@.len(),
        {
            let ghost before = anim_view(rest@);
            let ghost kept = anim_view(self.entries@);
            let e = rest.remove(0);
            assert(anim_view(rest@) =~= before.skip(1));
            let same_version = match key {
                Some((l, t)) => e.len == l && e.mtime == t,
                None => false,
            };
            if paths_equal(e.path.as_str(), path) && (any_version || same_version) {
                assert(is_file(before[0], path@, key, any_version));
            } else {
                assert(!is_file(before[0], path@, key, any_version));
                self.entries.push(e);
                assert(anim_view(self.entries@) =~= kept.push(before[0]));
                assert(kept.push(before[0]) + others(before.skip(1), path@, key, any_version)
                    =~= kept + (seq![before[0]] + others(before.skip(1), path@, key, any_version)));
            }
        }
        assert(anim_view(rest@) =~= Seq::<AnimEntryView<D>>::empty());
        assert(anim_view(self.entries@) + Seq::<AnimEntryView<D>>::empty() =~= anim_view(self.entries@));
    }

    fn lru_index(&self) -> (r: usize)
        requires
            self.view().len() > 0,
        ensures
            first_lru(self.view(), r as int),
    {
        let ghost es = self.view();
        let mut best: usize = 0;
        let mut i: usize = 1;
        while i < self.entries.len()
            invariant
                1 <= i <= self.entries@.len(),
                best < i,
                es == self.view(),
                es.len() == self.entries@.len(),
                forall|j: int| 0 <= j < i ==> es[best as int].last_used <= #[trigger] es[j].last_used,
                forall|j: int| 0 <= j < best ==> es[best as int].last_used < #[trigger] es[j].last_used,
            decreases self.entries@.len() - i,
        {
            if self.entries[i].last_used < self.entries[best].last_used {
                best = i;
            }
            i = i + 1;
        }
        best
    }

    fn total_bytes(&self) -> (t: u128)
        requires
            self.view().len() <= 3,
        ensures
            t == total_len(self.view()),
    {
        let ghost es = self.view();
        let mut t: u128 = 0;
        let mut i: usize = 0;
        while i < self.entries.len()
            invariant
                i <= self.entries@.len() <= 3,
                es == self.view(),
                es.len() == self.entries@.len(),
                t == total_len(es.take(i as int)),
                t <= i * 0x1_0000_0000_0000_0000,
            decreases self.entries@.len() - i,
        {
            assert(es.take(i + 1).drop_last() =~= es.take(i as int));
            t = t + self.entries[i].len as u128;
            i = i + 1;
        }
        assert(es.take(es.len() as int) =~= es);
        t
    }

    /// Stores a file just read (after a failed `lookup`): drops any entry of the same
    /// path and metadata, appends the new one used at `now`, then drops the least
    /// recently used entries while more than `ANIM_CACHE_FILES` remain, and while the
    /// total exceeds `ANIM_CACHE_BYTES` and more than one remains.
    pub fn insert(&mut self, path: &str, key: Option<(u64, i128)>, len: u64, mtime: i128, data: D, now: u64)
        requires
            old(self).view().len() <= ANIM_CACHE_FILES,
        ensures
            final(self).spec_hits() == old(self).spec_hits(),
            final(self).view().len() <= ANIM_CACHE_FILES,
            final(self).view() == evict(
                others(old(self).view(), path@, key, false).push(
                    AnimEntryView { path: path@, len, mtime, data, last_used: now },
                ),
            ),
    {
        self.drop_file(path, key, false);
        proof {
            lemma_others_len(old(self).view(), path@, key, false);
        }
        let e = AnimFileEntry { path: String::from_str(path), len, mtime, data, last_used: now };
        let ghost ev = e.view();
        let ghost start = self.view().push(ev);
        self.entries.push(e);
        assert(self.view() =~= start);
        while self.entries.len() > ANIM_CACHE_FILES
            || (self.entries.len() > 1 && self.total_bytes() > ANIM_CACHE_BYTES as u128)
            invariant
                self.view().len() <= 3,
                evict(self.view()) == evict(start),
                self.spec_hits() == old(self).spec_hits(),
            decreases self.view().len(),
        {
            let ghost cur = self.view();
            assert(over_limit(cur));
            let i = self.lru_index();
            let _gone = self.entries.remove(i);
            assert(self.view() =~= cur.remove(i as int));
            proof {
                lemma_first_lru_unique(cur, i as int, lru_of(cur));
            }
        }
    }

    /// Drops every cached version of `path` (the player window closed).
    pub fn anim_file_cache_evict(&mut self, path: &str)
        ensures
            final(self).view() == others(old(self).view(), path@, None, true),
            final(self).spec_hits() == old(self).spec_hits(),
    {
        self.drop_file(path, None, true);
    }
}

/// JPEG XL decoding backend (one libjxl, its modified paths switched on at run time).
#[derive(PartialEq, Eq, Structural, Clone, Copy, Debug)]
pub enum JxlDecodeBackend {
    /// Plain libjxl decoding.
    Native,
    /// Coefficient export + GPU reconstruction of the DCT8 blocks.
    Hybrid,
}

/// Decoding backend of animation playback (configuration `anim_backend`).
#[derive(PartialEq, Eq, Structural, Clone, Copy, Debug)]
pub enum AnimBackend {
    /// CPU libjxl output (the default).
    Native,
    /// Coefficient snapshots reconstructed on the GPU.
    Hybrid,
}

impl AnimBackend {
    /// The backend a configuration string names: "hybrid" (trimmed, any ASCII case),
    /// anything else the default.
    pub open spec fn spec_parse(s: Seq<char>) -> AnimBackend {
        if lower_ascii_str(trimmed(s)) == seq!['h', 'y', 'b', 'r', 'i', 'd'] {
            AnimBackend::Hybrid
        } else {
            AnimBackend::Native
        }
    }

    /// Parses the configuration value (unknown or empty values give `Native`).
    pub fn parse(s: &str) -> (r: AnimBackend)
        ensures
            r == Self::spec_parse(s@),
    {
        let t = trim(s);
        let l = to_ascii_lowercase(t.as_str());
        proof {
            reveal_strlit("hybrid");
        }
        assert("hybrid"@ =~= seq!['h', 'y', 'b', 'r', 'i', 'd']);
        if str_eq(l.as_str(), "hybrid") {
            AnimBackend::Hybrid
        } else {
            AnimBackend::Native
        }
    }
}

/// One animation frame: scRGB f16 RGBA (8 bytes per pixel) and its duration.
pub struct AnimFrame {
    pub data: Vec<u8>,
    pub duration_ms: u32,
}

/// The frame stream of the prefetching hybrid decoder: a decoding thread sends one
/// message per frame (a snapshot, end of file, or an error) over a channel. Once the
/// end or an error has been seen, or the channel has closed, the stream is drained and
/// yields nothing more.
pub struct HybridPipedDecoder {
    width: u32,
    height: u32,
    drained: bool,
}

impl HybridPipedDecoder {
    /// Whether the stream has ended.
    pub closed spec fn spec_drained(&self) -> bool {
        self.drained
    }

    /// Canvas size.
    pub closed spec fn spec_dims(&self) -> (u32, u32) {
        (self.width, self.height)
    }

    /// A stream just opened on an image of this size.
    pub fn new(width: u32, height: u32) -> (d: Self)
        ensures
            d.spec_dims() == (width, height),
            !d.spec_drained(),
    {
        HybridPipedDecoder { width, height, drained: false }
    }

    /// Canvas size.
    pub fn dims(&self) -> (r: (u32, u32))
        ensures
            r == self.spec_dims(),
    {
        (self.width, self.height)
    }

    /// Whether the stream has ended (no message is to be received then).
    pub fn is_drained(&self) -> (r: bool)
        ensures
            r == self.spec_drained(),
    {
        self.drained
    }

    /// The next frame snapshot given the received message (`None`: the channel is
    /// closed; ignored once drained). A snapshot is passed on; the end of the file, a
    /// closed channel or an error drains the stream.
    pub fn next_frame_snapshot<T>(&mut self, msg: Option<Result<Option<T>, String>>) -> (r: Result<Option<T>, String>)
        ensures
            final(self).spec_dims() == old(self).spec_dims(),
            old(self).spec_drained() ==> (r matches Ok(None) && final(self).spec_drained()),
            !old(self).spec_drained() ==> match msg {
                Some(Ok(Some(x))) => r == Ok::<Option<T>, String>(Some(x)) && !final(self).spec_drained(),
                Some(Err(e)) => r == Err::<Option<T>, String>(e) && final(self).spec_drained(),
                _ => (r matches Ok(None) && final(self).spec_drained()),
            },
    {
        if self.drained {
            return Ok(None);
        }
        match msg {
            None => {
                self.drained = true;
                Ok(None)
            },
            Some(Ok(Some(x))) => Ok(Some(x)),
            Some(Ok(None)) => {
                self.drained = true;
                Ok(None)
            },
            Some(Err(e)) => {
                self.drained = true;
                Err(e)
            },
        }
    }
}

proof fn lemma_first_lru_exists<D>(a: Seq<AnimEntryView<D>>)
    requires
        a.len() > 0,
    ensures
        first_lru(a, lru_of(a)),
    decreases a.len(),
{
    if a.len() == 1 {
        assert(first_lru(a, 0));
    } else {
        let p = a.drop_last();
        lemma_first_lru_exists(p);
        let k = lru_of(p);
        let last = a.len() - 1;
        if a[last].last_used < a[k].last_used {
            assert forall|j: int| 0 <= j < last implies a[last].last_used < #[trigger] a[j].last_used by {
                assert(p[k].last_used <= p[j].last_used);
            }
            assert(first_lru(a, last));
        } else {
            assert forall|j: int| 0 <= j < a.len() implies a[k].last_used <= #[trigger] a[j].last_used by {
                if j < last {
                    assert(p[k].last_used <= p[j].last_used);
                }
            }
            assert forall|j: int| 0 <= j < k implies a[k].last_used < #[trigger] a[j].last_used by {
                assert(p[k].last_used < p[j].last_used);
            }
            assert(first_lru(a, k));
        }
    }
}

/// After eviction the cache is within its limits: at most `ANIM_CACHE_FILES` files, and
/// at most `ANIM_CACHE_BYTES` bytes unless a single file remains.
pub proof fn law_evict_within_limits<D>(a: Seq<AnimEntryView<D>>)
    ensures
        !over_limit(evict(a)),
    decreases a.len(),
{
    if over_limit(a) {
        lemma_first_lru_exists(a);
        law_evict_within_limits(a.remove(lru_of(a)));
    }
}

/// The entry used last (the file just read) survives eviction, as the last entry.
pub proof fn law_evict_keeps_newest<D>(a: Seq<AnimEntryView<D>>)
    requires
        a.len() > 0,
        forall|j: int| 0 <= j < a.len() ==> #[trigger] a[j].last_used <= a.last().last_used,
    ensures
        evict(a).len() > 0,
        evict(a).last() == a.last(),
    decreases a.len(),
{
    if over_limit(a) {
        lemma_first_lru_exists(a);
        let i = lru_of(a);
        let last = a.len() - 1;
        if i == last {
            assert(a[last].last_used < a[0].last_used);
        }
        let b = a.remove(i);
        assert(b.last() == a.last());
        assert forall|j: int| 0 <= j < b.len() implies #[trigger] b[j].last_used <= b.last().last_used by {
            if j < i {
                assert(b[j] == a[j]);
            } else {
                assert(b[j] == a[j + 1]);
            }
        }
        law_evict_keeps_newest(b);
    }
}

proof fn lemma_others_len<D>(es: Seq<AnimEntryView<D>>, path: Seq<char>, key: Option<(u64, i128)>, any: bool)
    ensures
        others(es, path, key, any).len() <= es.len(),
    decreases es.len(),
{
    if es.len() > 0 {
        lemma_others_len(es.skip(1), path, key, any);
    }
}

proof fn lemma_others_from<D>(es: Seq<AnimEntryView<D>>, path: Seq<char>, key: Option<(u64, i128)>, any: bool, now: u64)
    requires
        forall|j: int| 0 <= j < es.len() ==> #[trigger] es[j].last_used <= now,
    ensures
        forall|j: int| 0 <= j < others(es, path, key, any).len()
            ==> #[trigger] others(es, path, key, any)[j].last_used <= now,
    decreases es.len(),
{
    if es.len() > 0 {
        let rest = others(es.skip(1), path, key, any);
        assert forall|j: int| 0 <= j < es.skip(1).len() implies #[trigger] es.skip(1)[j].last_used <= now by {
            assert(es.skip(1)[j] == es[j + 1]);
        }
        lemma_others_from(es.skip(1), path, key, any, now);
        if !is_file(es[0], path, key, any) {
            let o = seq![es[0]] + rest;
            assert forall|j: int| 0 <= j < o.len() implies #[trigger] o[j].last_used <= now by {
                if j > 0 {
                    assert(o[j] == rest[j - 1]);
                }
            }
        }
    }
}

/// Reopening a file just stored hits the cache: after `insert` at a tick no older than
/// any entry, the entry of that path and metadata is there (and `lookup` finds it,
/// whenever the path compares equal to itself).
pub proof fn law_reopen_hits<D>(old: Seq<AnimEntryView<D>>, path: Seq<char>, len: u64, mtime: i128, data: D, now: u64)
    requires
        forall|j: int| 0 <= j < old.len() ==> #[trigger] old[j].last_used <= now,
        spec_path_eq(path, path),
    ensures
        ({
            let new = evict(others(old, path, Some((len, mtime)), false).push(
                AnimEntryView { path, len, mtime, data, last_used: now }));
            exists|i: int| 0 <= i < new.len() && is_file(#[trigger] new[i], path, Some((len, mtime)), false)
        }),
{
    let e = AnimEntryView { path, len, mtime, data, last_used: now };
    let o = others(old, path, Some((len, mtime)), false);
    lemma_others_from(old, path, Some((len, mtime)), false, now);
    let a = o.push(e);
    assert forall|j: int| 0 <= j < a.len() implies #[trigger] a[j].last_used <= a.last().last_used by {
        if j < o.len() {
            assert(a[j] == o[j]);
        }
    }
    law_evict_keeps_newest(a);
    let new = evict(a);
    assert(is_file(new[new.len() - 1], path, Some((len, mtime)), false));
}

} // verus!
