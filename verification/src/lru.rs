//! A least-recently-used cache keyed by string.
//!
//! Every insertion and lookup takes a fresh tick; a hit marks its entry with it.
//! Inserting into a full cache first drops the entry whose tick is the oldest, then
//! stores the value (replacing an entry of the same key).

use vstd::prelude::*;
use crate::strs::str_eq;

verus! {

/// A value that can be copied with the same abstract value.
pub trait Duplicate: View + Sized {
    /// A copy of the value.
    fn duplicate(&self) -> (r: Self)
        ensures
            r@ == self@,
    ;
}

/// A cached value: its key, the value and the tick of its last use.
pub struct LruEntry<V> {
    pub key: String,
    pub value: V,
    pub tick: u64,
}

/// Abstract entry.
pub struct EntryView<W> {
    pub key: Seq<char>,
    pub value: W,
    pub tick: u64,
}

impl<V: View> View for LruEntry<V> {
    type V = EntryView<V::V>;

    open spec fn view(&self) -> EntryView<V::V> {
        EntryView { key: self.key@, value: self.value@, tick: self.tick }
    }
}

/// Least-recently-used cache keyed by string, holding at most `max` values.
pub struct LruCache<V> {
    entries: Vec<LruEntry<V>>,
    next_tick: u64,
    max: usize,
}

/// Abstract cache: its entries, the tick the next use gets, and its capacity.
pub struct CacheView<W> {
    pub entries: Seq<EntryView<W>>,
    pub next_tick: u64,
    pub max: nat,
}

/// Keys are distinct, ticks are distinct and all earlier than the next tick, and the
/// cache holds at most `max` entries.
pub open spec fn cache_wf<W>(c: CacheView<W>) -> bool {
    &&& c.entries.len() <= c.max
    &&& forall|i: int, j: int| 0 <= i < c.entries.len() && 0 <= j < c.entries.len() && i != j
        ==> #[trigger] c.entries[i].key != #[trigger] c.entries[j].key
    &&& forall|i: int, j: int| 0 <= i < c.entries.len() && 0 <= j < c.entries.len() && i != j
        ==> c.entries[i].tick != c.entries[j].tick
    &&& forall|i: int| 0 <= i < c.entries.len() ==> #[trigger] c.entries[i].tick < c.next_tick
}

/// Index of the entry with key `k`.
pub open spec fn key_index<W>(es: Seq<EntryView<W>>, k: Seq<char>) -> Option<int> {
    if exists|i: int| 0 <= i < es.len() && es[i].key == k {
        Some(choose|i: int| 0 <= i < es.len() && es[i].key == k)
    } else {
        None
    }
}

/// The entry `i` was used least recently.
pub open spec fn is_oldest<W>(es: Seq<EntryView<W>>, i: int) -> bool {
    0 <= i < es.len() && forall|j: int| 0 <= j < es.len() ==> es[i].tick <= #[trigger] es[j].tick
}

/// The entries after storing `v` under `k` with tick `t` (replacing an entry of the
/// same key, else appended).
pub open spec fn store<W>(es: Seq<EntryView<W>>, k: Seq<char>, v: W, t: u64) -> Seq<EntryView<W>> {
    let e = EntryView { key: k, value: v, tick: t };
    match key_index(es, k) {
        Some(i) => es.update(i, e),
        None => es.push(e),
    }
}

/// The effect of caching: a full cache first drops its least recently used entry, then
/// `v` is stored under `k` with the next tick.
pub open spec fn spec_cache<W>(old: CacheView<W>, k: Seq<char>, v: W, new: CacheView<W>) -> bool {
    &&& new.next_tick == old.next_tick + 1
    &&& new.max == old.max
    &&& if old.entries.len() >= old.max {
        exists|i: int| is_oldest(old.entries, i) && new.entries == store(old.entries.remove(i), k, v, old.next_tick)
    } else {
        new.entries == store(old.entries, k, v, old.next_tick)
    }
}

/// The effect of a lookup: on a hit the entry gets the next tick.
pub open spec fn spec_take<W>(old: CacheView<W>, k: Seq<char>, r: Option<W>, new: CacheView<W>) -> bool {
    &&& new.next_tick == old.next_tick + 1
    &&& new.max == old.max
    &&& match key_index(old.entries, k) {
        Some(i) => {
            &&& r == Some(old.entries[i].value)
            &&& new.entries == old.entries.update(i, EntryView { tick: old.next_tick, ..old.entries[i] })
        },
        None => r is None && new.entries == old.entries,
    }
}

/// Abstract values of entries.
pub open spec fn entries_view<V: View>(v: Seq<LruEntry<V>>) -> Seq<EntryView<V::V>> {
    Seq::new(v.len(), |i: int| v[i]@)
}

proof fn lemma_key_index<W>(es: Seq<EntryView<W>>, k: Seq<char>, i: int)
    requires
        0 <= i < es.len(),
        es[i].key == k,
        forall|a: int, b: int| 0 <= a < es.len() && 0 <= b < es.len() && a != b
            ==> #[trigger] es[a].key != #[trigger] es[b].key,
    ensures
        key_index(es, k) == Some(i),
{
    let j = choose|j: int| 0 <= j < es.len() && es[j].key == k;
    if j != i {
        assert(es[j].key != es[i].key);
    }
}

impl<V: Duplicate> LruCache<V> {
    /// Abstract value.
    pub closed spec fn view(&self) -> CacheView<V::V> {
        CacheView { entries: entries_view(self.entries@), next_tick: self.next_tick, max: self.max as nat }
    }

    /// An empty cache holding at most `max` values.
    pub fn with_capacity(max: usize) -> (c: Self)
        ensures
            c.view().entries.len() == 0,
            c.view().next_tick == 0,
            c.view().max == max,
            cache_wf(c.view()),
    {
        let c = LruCache { entries: Vec::new(), next_tick: 0, max };
        assert(c.view().entries =~= Seq::<EntryView<V::V>>::empty());
        c
    }

    /// Whether another use can still be ticked (the tick counter is not exhausted).
    pub fn can_tick(&self) -> (r: bool)
        ensures
            r == (self.view().next_tick < u64::MAX),
    {
        self.next_tick < u64::MAX
    }

    /// Number of cached values.
    pub fn len(&self) -> (n: usize)
        ensures
            n == self.view().entries.len(),
    {
        self.entries.len()
    }

    fn find(&self, key: &str) -> (r: Option<usize>)
        requires
            cache_wf(self.view()),
        ensures
            r matches Some(i) ==> key_index(self.view().entries, key@) == Some(i as int),
            r is None ==> key_index(self.view().entries, key@) is None,
    {
        let ghost es = self.view().entries;
        let mut i: usize = 0;
        while i < self.entries.len()
            invariant
                i <= self.entries@.len(),
                es == self.view().entries,
                es.len() == self.entries@.len(),
                cache_wf(self.view()),
                forall|j: int| 0 <= j < i ==> es[j].key != key@,
            decreases self.entries@.len() - i,
        {
            if str_eq(self.entries[i].key.as_str(), key) {
                proof {
                    lemma_key_index(es, key@, i as int);
                }
                return Some(i);
            }
            assert(es[i as int].key == self.entries@[i as int].key@);
            i = i + 1;
        }
        None
    }

    fn oldest(&self) -> (r: usize)
        requires
            self.view().entries.len() > 0,
        ensures
            is_oldest(self.view().entries, r as int),
    {
        let ghost es = self.view().entries;
        let mut best: usize = 0;
        let mut i: usize = 1;
        while i < self.entries.len()
            invariant
                1 <= i <= self.entries@.len(),
                best < i,
                es == self.view().entries,
                es.len() == self.entries@.len(),
                forall|j: int| 0 <= j < i ==> es[best as int].tick <= #[trigger] es[j].tick,
            decreases self.entries@.len() - i,
        {
            if self.entries[i].tick < self.entries[best].tick {
                best = i;
            }
            i = i + 1;
        }
        best
    }

    /// Stores `value` under `key`; a full cache first drops its least recently used entry.
    pub fn insert(&mut self, key: &str, value: V)
        requires
            cache_wf(old(self).view()),
            old(self).view().max > 0,
            old(self).view().next_tick < u64::MAX,
        ensures
            cache_wf(final(self).view()),
            spec_cache(old(self).view(), key@, value@, final(self).view()),
    {
        let ghost old_es = self.view().entries;
        let tick = self.next_tick;
        self.next_tick = self.next_tick + 1;
        if self.entries.len() >= self.max {
            let i = self.oldest();
            let _dropped = self.entries.remove(i);
            assert(self.view().entries =~= old_es.remove(i as int));
        }
        let ghost mid = self.view().entries;
        proof {
            assert forall|a: int, b: int| 0 <= a < mid.len() && 0 <= b < mid.len() && a != b
                implies #[trigger] mid[a].key != #[trigger] mid[b].key by {
                if old_es.len() >= self.max {
                    let i = choose|i: int| is_oldest(old_es, i) && mid == old_es.remove(i);
                }
            }
        }
        let entry = LruEntry { key: String::from_str(key), value, tick };
        let ghost e = entry@;
        match self.find(key) {
            Some(j) => {
                self.entries.set(j, entry);
                assert(self.view().entries =~= mid.update(j as int, e));
            },
            None => {
                self.entries.push(entry);
                assert(self.view().entries =~= mid.push(e));
            },
        }
        assert(cache_wf(self.view()));
    }

    /// A copy of the value cached under `key`, marking it as just used.
    pub fn take(&mut self, key: &str) -> (r: Option<V>)
        requires
            cache_wf(old(self).view()),
            old(self).view().next_tick < u64::MAX,
        ensures
            cache_wf(final(self).view()),
            spec_take(old(self).view(), key@, match r { Some(s) => Some(s@), None => None }, final(self).view()),
    {
        let ghost old_es = self.view().entries;
        let tick = self.next_tick;
        self.next_tick = self.next_tick + 1;
        match self.find(key) {
            Some(j) => {
                self.entries[j].tick = tick;
                assert(self.view().entries =~= old_es.update(j as int, EntryView { tick, ..old_es[j as int] }));
                let s = self.entries[j].value.duplicate();
                Some(s)
            },
            None => None,
        }
    }
}

/// The value cached under `k`.
pub open spec fn lookup<W>(es: Seq<EntryView<W>>, k: Seq<char>) -> Option<W> {
    match key_index(es, k) {
        Some(i) => Some(es[i].value),
        None => None,
    }
}

/// A value just cached is found by the next lookup of its key.
pub proof fn law_take_after_cache<W>(
    old: CacheView<W>,
    k: Seq<char>,
    src: W,
    mid: CacheView<W>,
    r: Option<W>,
    new: CacheView<W>,
)
    requires
        cache_wf(old),
        cache_wf(mid),
        spec_cache(old, k, src, mid),
        spec_take(mid, k, r, new),
    ensures
        r == Some(src),
{
    let base = if old.entries.len() >= old.max {
        let i = choose|i: int| is_oldest(old.entries, i) && mid.entries == store(old.entries.remove(i), k, src, old.next_tick);
        old.entries.remove(i)
    } else {
        old.entries
    };
    assert(mid.entries == store(base, k, src, old.next_tick));
    let n = match key_index(base, k) {
        Some(i) => i,
        None => base.len() as int,
    };
    assert(mid.entries[n].key == k);
    lemma_key_index(mid.entries, k, n);
}

/// Caching keeps every entry but the least recently used one (and the one replaced
/// under the same key): any entry that some other entry predates survives unchanged.
pub proof fn law_cache_keeps_recent<W>(old: CacheView<W>, k: Seq<char>, src: W, new: CacheView<W>, j: int)
    requires
        cache_wf(old),
        cache_wf(new),
        spec_cache(old, k, src, new),
        0 <= j < old.entries.len(),
        !is_oldest(old.entries, j),
        old.entries[j].key != k,
    ensures
        key_index(new.entries, old.entries[j].key) matches Some(n) && new.entries[n] == old.entries[j],
{
    let e = old.entries[j];
    let base = if old.entries.len() >= old.max {
        let i = choose|i: int| is_oldest(old.entries, i) && new.entries == store(old.entries.remove(i), k, src, old.next_tick);
        assert(i != j);
        let b = old.entries.remove(i);
        let p = if j < i { j } else { j - 1 };
        assert(b[p] == e);
        b
    } else {
        old.entries
    };
    assert(new.entries == store(base, k, src, old.next_tick));
    let p = choose|p: int| 0 <= p < base.len() && base[p] == e;
    match key_index(base, k) {
        Some(i) => {
            if i == p {
                assert(base[i].key == k);
            }
            assert(new.entries[p] == e);
        },
        None => {
            assert(new.entries[p] == e);
        },
    }
    lemma_key_index(new.entries, e.key, p);
}

/// A lookup that hits makes its entry the most recently used one.
pub proof fn law_take_refreshes<W>(old: CacheView<W>, k: Seq<char>, r: Option<W>, new: CacheView<W>)
    requires
        cache_wf(old),
        spec_take(old, k, r, new),
        r is Some,
    ensures
        key_index(new.entries, k) matches Some(i) && forall|j: int| 0 <= j < new.entries.len() && j != i
            ==> #[trigger] new.entries[j].tick < new.entries[i].tick,
{
    let i = key_index(old.entries, k)->0;
    assert(new.entries[i].key == k);
    lemma_key_index(new.entries, k, i);
}

/// Caching stores the value under its key as the most recently used entry, and the
/// cache stays within its bound.
pub proof fn law_cache_stores_newest<W>(old: CacheView<W>, k: Seq<char>, src: W, new: CacheView<W>)
    requires
        cache_wf(old),
        cache_wf(new),
        spec_cache(old, k, src, new),
    ensures
        key_index(new.entries, k) matches Some(i) && new.entries[i].value == src
            && forall|j: int| 0 <= j < new.entries.len() && j != i ==> #[trigger] new.entries[j].tick < new.entries[i].tick,
        new.entries.len() <= new.max,
{
    let base = if old.entries.len() >= old.max {
        let i = choose|i: int| is_oldest(old.entries, i) && new.entries == store(old.entries.remove(i), k, src, old.next_tick);
        old.entries.remove(i)
    } else {
        old.entries
    };
    assert(new.entries == store(base, k, src, old.next_tick));
    assert(forall|j: int| 0 <= j < base.len() ==> #[trigger] base[j].tick < old.next_tick) by {
        assert forall|j: int| 0 <= j < base.len() implies #[trigger] base[j].tick < old.next_tick by {
            if old.entries.len() >= old.max {
                let i = choose|i: int| is_oldest(old.entries, i) && new.entries == store(old.entries.remove(i), k, src, old.next_tick);
                if j < i {
                    assert(base[j] == old.entries[j]);
                } else {
                    assert(base[j] == old.entries[j + 1]);
                }
            }
        }
    }
    let n = match key_index(base, k) {
        Some(i) => i,
        None => base.len() as int,
    };
    assert(new.entries[n].key == k);
    lemma_key_index(new.entries, k, n);
    assert forall|j: int| 0 <= j < new.entries.len() && j != n implies #[trigger] new.entries[j].tick < new.entries[n].tick by {
        assert(new.entries[j] == base[j]);
    }
}

} // verus!
