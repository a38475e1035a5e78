//! Bookkeeping of the animation frame texture pool (producer/consumer slots).
//!
//! The pool owns `capacity` textures allocated once at creation. A producer takes a
//! free slot (`acquire_free`), writes a frame into its texture and `publish`es it; the
//! consumer takes a ready frame out of its slot (`get`), which removes the texture
//! from the pool until the frame is handed back with `release`. A texture that is out
//! (on screen) is never reachable from the free list, so it is never overwritten.
//!
//! This type holds the state only; blocking waits are expressed as one step each
//! (`acquire_free_wait`, `wait_frame`, `wait_closed` return `WaitStep::Block` when the
//! caller must sleep until the next change of the pool and try again).

use vstd::prelude::*;
use crate::text::{push_decimal, push_str, decimal};

verus! {

/// One slot: a texture and the frame it currently carries.
pub struct PoolSlot<T> {
    /// `u64::MAX` when nothing is published (never matches a real frame).
    pub frame_idx: u64,
    pub duration_ms: u32,
    pub ready: bool,
    pub tex: Option<T>,
}

/// Pool state.
#[derive(Debug, Clone, Copy, PartialEq, Eq, Structural)]
pub enum PoolState {
    /// Filling (first frames / not fully resident yet).
    Filling,
    /// Fully resident: filled_frames reached the known total.
    FullResident,
    /// Degraded (marked by the caller); publish never turns it back.
    Degraded,
}

/// Statistics snapshot.
#[derive(Debug, Clone, Copy, PartialEq, Eq, Structural)]
pub struct PoolStats {
    pub filled_frames: u64,
    pub filled_ms: u64,
    pub capacity: usize,
    pub state: PoolState,
}

/// Result of one step of a blocking operation.
#[derive(Debug)]
pub enum WaitStep<R> {
    /// The operation completed with this result.
    Done(R),
    /// Nothing to do yet: wait for the next change of the pool, then retry.
    Block,
}

/// Abstract state of a pool.
pub struct PoolModel<T> {
    pub slots: Seq<PoolSlot<T>>,
    pub free: Seq<usize>,
    pub filled_frames: u64,
    pub total_frames: Option<u64>,
    pub filled_ms: u64,
    pub state: PoolState,
    pub closed: bool,
    pub producer_waiting: bool,
    pub dims: (u32, u32),
    pub frame_bytes: u64,
    /// Per slot, the texture that is out on screen (taken by `get`, not yet released).
    pub held: Seq<Option<T>>,
    /// Per slot, the texture created for it.
    pub own: Seq<T>,
}

/// Frame texture pool.
pub struct GpuFramePool<T: Clone + Send> {
    slots: Vec<PoolSlot<T>>,
    /// Free slot stack (LIFO reuse).
    free: Vec<usize>,
    filled_frames: u64,
    total_frames: Option<u64>,
    filled_ms: u64,
    state: PoolState,
    closed: bool,
    /// The producer is waiting for a free slot.
    producer_waiting: bool,
    dims: (u32, u32),
    frame_bytes: u64,
    /// Per slot, the texture out on screen.
    held: Ghost<Seq<Option<T>>>,
    /// Per slot, the texture created for it.
    own: Ghost<Seq<T>>,
}

/// A frame taken out of the pool (its texture is on screen until `release`). Only
/// `get` makes one.
pub struct GpuFrame<T> {
    /// Slot the frame came from (where `release` puts the texture back).
    idx: usize,
    /// The slot's texture, out of the pool while the frame is on screen.
    tex: T,
    pub frame_idx: u64,
    pub duration_ms: u32,
}

impl<T> GpuFrame<T> {
    /// Slot the frame came from.
    pub closed spec fn spec_slot(&self) -> usize {
        self.idx
    }

    /// Frame index carried.
    pub closed spec fn spec_frame_idx(&self) -> u64 {
        self.frame_idx
    }

    /// Duration carried.
    pub closed spec fn spec_duration(&self) -> u32 {
        self.duration_ms
    }

    /// Texture held by the frame.
    pub closed spec fn spec_tex(&self) -> T {
        self.tex
    }

    /// Texture handle of the frame on screen.
    pub fn tex(&self) -> (r: &T)
        ensures
            *r == self.spec_tex(),
    {
        &self.tex
    }

    /// Slot index (bookkeeping).
    pub fn slot(&self) -> (r: usize)
        ensures
            r == self.spec_slot(),
    {
        self.idx
    }

    /// Frame index carried.
    pub fn frame(&self) -> (r: u64)
        ensures
            r == self.spec_frame_idx(),
    {
        self.frame_idx
    }

    /// Display duration carried.
    pub fn duration(&self) -> (r: u32)
        ensures
            r == self.spec_duration(),
    {
        self.duration_ms
    }
}

/// A slot carries frame `f` and is ready.
pub open spec fn slot_matches<T>(s: PoolSlot<T>, f: u64) -> bool {
    s.ready && s.frame_idx == f
}

/// Lowest index of a ready slot carrying frame `f`.
pub open spec fn first_ready<T>(slots: Seq<PoolSlot<T>>, f: u64) -> Option<int> {
    if exists|i: int| 0 <= i < slots.len() && slot_matches(slots[i], f) {
        Some(choose|i: int|
            0 <= i < slots.len() && slot_matches(slots[i], f)
            && forall|j: int| 0 <= j < i ==> !slot_matches(#[trigger] slots[j], f))
    } else {
        None
    }
}

/// Error text of a failed pre-allocation.
pub open spec fn prealloc_error(built: nat, capacity: nat, cause: Seq<char>) -> Seq<char> {
    "纹理池预分配失败（"@ + decimal(built) + "/"@ + decimal(capacity) + " 张已建）: "@ + cause
}

/// Error text of invalid pool dimensions.
pub open spec fn dims_error(w: nat, h: nat) -> Seq<char> {
    "纹理池尺寸非法: ("@ + decimal(w) + ", "@ + decimal(h) + ")"@
}

/// Error text of a zero capacity.
pub open spec fn capacity_error() -> Seq<char> {
    "纹理池容量必须 > 0"@
}

/// The state right after creation with textures `texs`.
pub open spec fn initial_model<T>(dims: (u32, u32), texs: Seq<T>) -> PoolModel<T> {
    PoolModel {
        slots: Seq::new(texs.len(), |i: int| PoolSlot {
            frame_idx: u64::MAX,
            duration_ms: 0,
            ready: false,
            tex: Some(texs[i]),
        }),
        free: Seq::new(texs.len(), |i: int| i as usize),
        filled_frames: 0,
        total_frames: None,
        filled_ms: 0,
        state: PoolState::Filling,
        closed: false,
        producer_waiting: false,
        dims: dims,
        frame_bytes: (dims.0 * dims.1 * 8) as u64,
        held: Seq::new(texs.len(), |i: int| None),
        own: texs,
    }
}

/// State change of `publish(idx, f, d)`.
pub open spec fn after_publish<T>(m: PoolModel<T>, idx: int, f: u64, d: u32) -> PoolModel<T> {
    if 0 <= idx < m.slots.len() {
        let filled = (m.filled_frames + 1) as u64;
        PoolModel {
            slots: m.slots.update(idx, PoolSlot {
                frame_idx: f,
                duration_ms: d,
                ready: true,
                tex: m.slots[idx].tex,
            }),
            filled_frames: filled,
            filled_ms: (m.filled_ms + d) as u64,
            state: if m.state == PoolState::Filling && m.total_frames is Some
                && filled >= m.total_frames->0 {
                PoolState::FullResident
            } else {
                m.state
            },
            ..m
        }
    } else {
        m
    }
}

/// State change of `set_total(t)`.
pub open spec fn after_set_total<T>(m: PoolModel<T>, t: u64) -> PoolModel<T> {
    PoolModel {
        total_frames: Some(t),
        state: if m.state == PoolState::Filling && m.filled_frames >= t {
            PoolState::FullResident
        } else {
            m.state
        },
        ..m
    }
}

/// State change of handing frame (slot `idx`, texture `tex`) back.
pub open spec fn after_release<T>(m: PoolModel<T>, idx: int, tex: T) -> PoolModel<T> {
    PoolModel {
        slots: m.slots.update(idx, PoolSlot {
            frame_idx: u64::MAX,
            duration_ms: m.slots[idx].duration_ms,
            ready: false,
            tex: Some(tex),
        }),
        free: m.free.push(idx as usize),
        held: m.held.update(idx, None),
        ..m
    }
}

/// State change of a successful `get` from slot `idx`.
pub open spec fn after_take<T>(m: PoolModel<T>, idx: int) -> PoolModel<T> {
    PoolModel {
        slots: m.slots.update(idx, PoolSlot {
            ready: false,
            tex: None,
            ..m.slots[idx]
        }),
        held: m.held.update(idx, m.slots[idx].tex),
        ..m
    }
}

/// Structural well-formedness kept by every operation.
pub open spec fn model_wf<T>(m: PoolModel<T>) -> bool {
    &&& m.slots.len() > 0
    &&& m.dims.0 > 0
    &&& m.dims.1 > 0
    &&& m.frame_bytes == m.dims.0 * m.dims.1 * 8
    &&& forall|k: int| 0 <= k < m.free.len() ==> (#[trigger] m.free[k]) < m.slots.len()
    &&& on_screen_ok(m)
}

/// Where every texture is: a slot whose texture is out on screen holds none (so
/// nothing can reach that texture through the pool until it is handed back), a slot that
/// holds one holds its own, and the texture on screen for a slot is that slot's own.
pub open spec fn on_screen_ok<T>(m: PoolModel<T>) -> bool {
    &&& m.held.len() == m.slots.len()
    &&& m.own.len() == m.slots.len()
    &&& forall|i: int| 0 <= i < m.slots.len() ==> ((#[trigger] m.slots[i]).tex is None <==> m.held[i] is Some)
    &&& forall|i: int| 0 <= i < m.slots.len() && (#[trigger] m.slots[i]).tex is Some ==> m.slots[i].tex == Some(m.own[i])
    &&& forall|i: int| 0 <= i < m.slots.len() && (#[trigger] m.held[i]) is Some ==> m.held[i] == Some(m.own[i])
}

/// Correct use: free slots are distinct, hold their texture and are not ready;
/// ready slots hold their texture and are not free.
pub open spec fn disciplined<T>(m: PoolModel<T>) -> bool {
    &&& forall|a: int, b: int| 0 <= a < b < m.free.len() ==> m.free[a] != m.free[b]
    &&& forall|k: int| 0 <= k < m.free.len() ==> {
        let s = #[trigger] m.slots[m.free[k] as int];
        s.tex is Some && !s.ready
    }
    &&& forall|i: int| 0 <= i < m.slots.len() && (#[trigger] m.slots[i]).ready ==> m.slots[i].tex is Some
}

impl<T: Clone + Send> View for GpuFramePool<T> {
    type V = PoolModel<T>;

    closed spec fn view(&self) -> PoolModel<T> {
        PoolModel {
            slots: self.slots@,
            free: self.free@,
            filled_frames: self.filled_frames,
            total_frames: self.total_frames,
            filled_ms: self.filled_ms,
            state: self.state,
            closed: self.closed,
            producer_waiting: self.producer_waiting,
            dims: self.dims,
            frame_bytes: self.frame_bytes,
            held: self.held@,
            own: self.own@,
        }
    }
}

fn dims_error_text(w: u32, h: u32) -> (s: String)
    ensures
        s@ == dims_error(w as nat, h as nat),
{
    let mut s = String::new();
    push_str(&mut s, "纹理池尺寸非法: (");
    push_decimal(&mut s, w as u64);
    push_str(&mut s, ", ");
    push_decimal(&mut s, h as u64);
    push_str(&mut s, ")");
    proof {
        reveal_strlit("纹理池尺寸非法: (");
        reveal_strlit(", ");
        reveal_strlit(")");
    }
    s
}

fn prealloc_error_text(built: usize, capacity: usize, cause: String) -> (s: String)
    ensures
        s@ == prealloc_error(built as nat, capacity as nat, cause@),
{
    let mut s = String::new();
    push_str(&mut s, "纹理池预分配失败（");
    push_decimal(&mut s, built as u64);
    push_str(&mut s, "/");
    push_decimal(&mut s, capacity as u64);
    push_str(&mut s, " 张已建）: ");
    push_str(&mut s, cause.as_str());
    s
}

impl<T: Clone + Send> GpuFramePool<T> {
    /// Well-formedness of the pool.
    pub open spec fn wf(&self) -> bool {
        model_wf(self@)
    }

    /// Creates the pool and allocates all `capacity` textures at once through `factory`.
    ///
    /// Fails on a zero dimension or a zero capacity (without calling `factory`), or on
    /// the first factory failure, whose message counts the textures built before it
    /// (those are dropped). On success the textures built are handed to `from_textures`
    /// in call order.
    pub fn new<F: FnMut() -> Result<T, String>>(dims: (u32, u32), capacity: usize, factory: F) -> (r: Result<Self, String>)
        requires
            call_requires(factory, ()),
            dims.0 * dims.1 * 8 <= u64::MAX,
        ensures
            (dims.0 == 0 || dims.1 == 0) ==> r is Err && r->Err_0@ == dims_error(dims.0 as nat, dims.1 as nat),
            (dims.0 > 0 && dims.1 > 0 && capacity == 0) ==> r is Err && r->Err_0@ == capacity_error(),
            (dims.0 > 0 && dims.1 > 0 && capacity > 0
                && forall|o: Result<T, String>| #[trigger] call_ensures(factory, (), o) ==> o is Ok) ==> r is Ok,
            r matches Ok(p) ==> dims.0 > 0 && dims.1 > 0 && capacity > 0 && p.wf() && disciplined(p@)
                && exists|texs: Seq<T>| {
                    &&& texs.len() == capacity
                    &&& forall|i: int| 0 <= i < texs.len() ==> call_ensures(factory, (), Ok::<T, String>(#[trigger] texs[i]))
                    &&& p@ == initial_model(dims, texs)
                },
            r matches Err(e) ==> (dims.0 == 0 || dims.1 == 0 || capacity == 0 || exists|built: Seq<T>, cause: String| {
                &&& built.len() < capacity
                &&& forall|i: int| 0 <= i < built.len() ==> call_ensures(factory, (), Ok::<T, String>(#[trigger] built[i]))
                &&& call_ensures(factory, (), Err::<T, String>(cause))
                &&& e@ == prealloc_error(built.len(), capacity as nat, cause@)
            }),
    {
        if dims.0 == 0 || dims.1 == 0 {
            return Err(dims_error_text(dims.0, dims.1));
        }
        if capacity == 0 {
            let r = String::from_str("纹理池容量必须 > 0");
            proof { reveal_strlit("纹理池容量必须 > 0"); }
            return Err(r);
        }
        let ghost f_in = factory;
        let mut make = factory;
        let mut created: Vec<T> = Vec::new();
        let mut i: usize = 0;
        while i < capacity
            invariant
                i <= capacity,
                created@.len() == i,
                dims.0 > 0,
                dims.1 > 0,
                make == f_in,
                f_in == factory,
                call_requires(f_in, ()),
                forall|j: int| 0 <= j < created@.len() ==> call_ensures(f_in, (), Ok::<T, String>(#[trigger] created@[j])),
            decreases capacity - i,
        {
            let out = make();
            match out {
                Ok(t) => created.push(t),
                Err(e) => {
                    let ghost cause = e;
                    let msg = prealloc_error_text(i, capacity, e);
                    assert(call_ensures(f_in, (), Err::<T, String>(cause)));
                    return Err(msg);
                }
            }
            i = i + 1;
        }
        Self::from_textures(dims, created)
    }

    /// Builds the pool around textures that are already created: slot `i` holds
    /// `texs[i]`, every slot is free and nothing is published. Fails on a zero dimension
    /// or when `texs` is empty.
    pub fn from_textures(dims: (u32, u32), texs: Vec<T>) -> (r: Result<Self, String>)
        requires
            dims.0 * dims.1 * 8 <= u64::MAX,
        ensures
            (dims.0 == 0 || dims.1 == 0) ==> r is Err && r->Err_0@ == dims_error(dims.0 as nat, dims.1 as nat),
            (dims.0 > 0 && dims.1 > 0 && texs.len() == 0) ==> r is Err && r->Err_0@ == capacity_error(),
            (dims.0 > 0 && dims.1 > 0 && texs.len() > 0) ==> (r matches Ok(p) && p.wf() && disciplined(p@)
                && p@ == initial_model(dims, texs@)),
    {
        if dims.0 == 0 || dims.1 == 0 {
            return Err(dims_error_text(dims.0, dims.1));
        }
        if texs.len() == 0 {
            let r = String::from_str("纹理池容量必须 > 0");
            proof { reveal_strlit("纹理池容量必须 > 0"); }
            return Err(r);
        }
        let ghost texs_v = texs@;
        let frame_bytes = (dims.0 as u64) * (dims.1 as u64) * 8;
        let mut slots: Vec<PoolSlot<T>> = Vec::new();
        let mut free: Vec<usize> = Vec::new();
        let mut rest = texs;
        let mut rev: Vec<T> = Vec::new();
        // Move the textures out in order (pop reverses, so reverse twice).
        while rest.len() > 0
            invariant
                rev@.len() + rest@.len() == texs_v.len(),
                forall|k: int| 0 <= k < rest@.len() ==> rest@[k] == texs_v[k],
                forall|k: int| 0 <= k < rev@.len() ==> rev@[k] == texs_v[texs_v.len() - 1 - k],
            decreases rest@.len(),
        {
            let t = rest.pop().unwrap();
            rev.push(t);
        }
        let mut k: usize = 0;
        while rev.len() > 0
            invariant
                k + rev@.len() == texs_v.len(),
                texs_v.len() <= usize::MAX,
                slots@.len() == k,
                free@.len() == k,
                forall|j: int| 0 <= j < rev@.len() ==> rev@[j] == texs_v[texs_v.len() - 1 - j],
                forall|j: int| 0 <= j < k ==> slots@[j] == (PoolSlot {
                    frame_idx: u64::MAX,
                    duration_ms: 0,
                    ready: false,
                    tex: Some(texs_v[j]),
                }),
                forall|j: int| 0 <= j < k ==> free@[j] == j,
            decreases rev@.len(),
        {
            let t = rev.pop().unwrap();
            slots.push(PoolSlot { frame_idx: u64::MAX, duration_ms: 0, ready: false, tex: Some(t) });
            free.push(k);
            k = k + 1;
        }
        let pool = GpuFramePool {
            slots,
            free,
            filled_frames: 0,
            total_frames: None,
            filled_ms: 0,
            state: PoolState::Filling,
            closed: false,
            producer_waiting: false,
            dims,
            frame_bytes,
            held: Ghost(Seq::new(texs_v.len(), |i: int| None)),
            own: Ghost(texs_v),
        };
        assert(pool@.slots =~= initial_model(dims, texs_v).slots);
        assert(pool@.free =~= initial_model(dims, texs_v).free);
        Ok(pool)
    }

    /// Takes a free slot without waiting (LIFO); `None` when no slot is free.
    pub fn acquire_free(&mut self) -> (r: Option<usize>)
        requires
            old(self).wf(),
        ensures
            final(self).wf(),
            old(self)@.free.len() == 0 ==> r is None && final(self)@ == old(self)@,
            old(self)@.free.len() > 0 ==> r == Some(old(self)@.free.last())
                && final(self)@ == (PoolModel { free: old(self)@.free.drop_last(), ..old(self)@ }),
    {
        let r = self.free.pop();
        proof {
            assert(self@ == (PoolModel { free: self@.free, ..old(self)@ }));
        }
        r
    }

    /// One step of waiting for a free slot: `Done(None)` once closed, `Done(Some(idx))`
    /// when a slot is free (clears the starvation mark), else marks the producer as
    /// waiting and returns `Block`.
    pub fn acquire_free_wait(&mut self) -> (r: WaitStep<Option<usize>>)
        requires
            old(self).wf(),
        ensures
            final(self).wf(),
            old(self)@.closed ==> r == WaitStep::Done(None::<usize>) && final(self)@ == old(self)@,
            !old(self)@.closed && old(self)@.free.len() > 0 ==> r == WaitStep::Done(Some(old(self)@.free.last()))
                && final(self)@ == (PoolModel { free: old(self)@.free.drop_last(), producer_waiting: false, ..old(self)@ }),
            !old(self)@.closed && old(self)@.free.len() == 0 ==> r == WaitStep::<Option<usize>>::Block
                && final(self)@ == (PoolModel { producer_waiting: true, ..old(self)@ }),
    {
        if self.closed {
            return WaitStep::Done(None);
        }
        match self.free.pop() {
            Some(idx) => {
                self.producer_waiting = false;
                WaitStep::Done(Some(idx))
            },
            None => {
                self.producer_waiting = true;
                WaitStep::Block
            },
        }
    }

    /// The producer is starved (blocked waiting for a free slot).
    pub fn producer_starved(&self) -> (r: bool)
        ensures
            r == self@.producer_waiting,
    {
        self.producer_waiting
    }

    /// Marks slot `idx` as carrying ready frame `frame_idx` and accounts for it.
    /// Becomes FullResident when filling reaches the known total (never from Degraded).
    /// An out-of-range `idx` changes nothing.
    pub fn publish(&mut self, idx: usize, frame_idx: u64, duration_ms: u32)
        requires
            old(self).wf(),
            old(self)@.filled_frames < u64::MAX,
            old(self)@.filled_ms + duration_ms <= u64::MAX,
        ensures
            final(self).wf(),
            final(self)@ == after_publish(old(self)@, idx as int, frame_idx, duration_ms),
    {
        if idx < self.slots.len() {
            self.slots[idx].frame_idx = frame_idx;
            self.slots[idx].duration_ms = duration_ms;
            self.slots[idx].ready = true;
            self.filled_frames = self.filled_frames + 1;
            self.filled_ms = self.filled_ms + duration_ms as u64;
            if self.state == PoolState::Filling {
                if let Some(total) = self.total_frames {
                    if self.filled_frames >= total {
                        self.state = PoolState::FullResident;
                    }
                }
            }
            proof {
                assert(self@.slots =~= after_publish(old(self)@, idx as int, frame_idx, duration_ms).slots);
            }
        }
    }

    /// One step of waiting for frame `frame_idx`: `Done(true)` when it is ready,
    /// `Done(false)` when the pool is closed, else `Block`.
    pub fn wait_frame(&self, frame_idx: u64) -> (r: WaitStep<bool>)
        ensures
            first_ready(self@.slots, frame_idx) is Some ==> r == WaitStep::Done(true),
            first_ready(self@.slots, frame_idx) is None && self@.closed ==> r == WaitStep::Done(false),
            first_ready(self@.slots, frame_idx) is None && !self@.closed ==> r == WaitStep::<bool>::Block,
    {
        match self.find_ready(frame_idx) {
            Some(_) => WaitStep::Done(true),
            None => if self.closed { WaitStep::Done(false) } else { WaitStep::Block },
        }
    }

    fn find_ready(&self, frame_idx: u64) -> (r: Option<usize>)
        ensures
            r is None <==> first_ready(self@.slots, frame_idx) is None,
            r matches Some(i) ==> i < self@.slots.len() && first_ready(self@.slots, frame_idx) == Some(i as int),
    {
        let mut i: usize = 0;
        while i < self.slots.len()
            invariant
                i <= self.slots@.len(),
                forall|j: int| 0 <= j < i ==> !slot_matches(#[trigger] self.slots@[j], frame_idx),
            decreases self.slots@.len() - i,
        {
            if self.slots[i].ready && self.slots[i].frame_idx == frame_idx {
                proof {
                    let s = self.slots@;
                    assert(slot_matches(s[i as int], frame_idx));
                    let c = choose|c: int| 0 <= c < s.len() && slot_matches(s[c], frame_idx)
                        && forall|j: int| 0 <= j < c ==> !slot_matches(#[trigger] s[j], frame_idx);
                    if c < i as int {
                        assert(!slot_matches(s[c], frame_idx));
                    } else if c > i as int {
                        assert(!slot_matches(s[i as int], frame_idx));
                    }
                }
                return Some(i);
            }
            i = i + 1;
        }
        None
    }

    /// Takes ready frame `frame_idx` out of its slot (first such slot); `None` when the
    /// frame is not ready. The texture leaves the pool until `release`.
    pub fn get(&mut self, frame_idx: u64) -> (r: Option<GpuFrame<T>>)
        requires
            old(self).wf(),
        ensures
            final(self).wf(),
            first_ready(old(self)@.slots, frame_idx) is None ==> r is None && final(self)@ == old(self)@,
            first_ready(old(self)@.slots, frame_idx) matches Some(i) ==> {
                let s = old(self)@.slots[i];
                &&& s.tex is None ==> r is None && final(self)@ == old(self)@
                &&& s.tex matches Some(t) ==> r matches Some(g) && g.spec_slot() == i && g.spec_tex() == t
                    && t == old(self)@.own[i]
                    && g.spec_frame_idx() == frame_idx && g.spec_duration() == s.duration_ms
                    && final(self)@ == after_take(old(self)@, i)
            },
    {
        match self.find_ready(frame_idx) {
            None => None,
            Some(idx) => {
                let taken = self.slots[idx].tex.take();
                match taken {
                    Some(tex) => {
                        let duration_ms = self.slots[idx].duration_ms;
                        self.slots[idx].ready = false;
                        self.held = Ghost(self.held@.update(idx as int, Some(tex)));
                        proof {
                            assert(self@.slots =~= after_take(old(self)@, idx as int).slots);
                            assert(self@ == after_take(old(self)@, idx as int));
                        }
                        Some(GpuFrame { idx, tex, frame_idx, duration_ms })
                    },
                    None => {
                        proof {
                            assert(self@.slots =~= old(self)@.slots);
                        }
                        None
                    },
                }
            },
        }
    }

    /// Hands a frame back: its texture returns to its slot, which becomes free again.
    /// The frame must be the one out on screen for its slot (as `get` made it).
    pub fn release(&mut self, frame: GpuFrame<T>)
        requires
            old(self).wf(),
            frame.spec_slot() < old(self)@.slots.len(),
            old(self)@.held[frame.spec_slot() as int] == Some(frame.spec_tex()),
        ensures
            final(self).wf(),
            final(self)@ == after_release(old(self)@, frame.spec_slot() as int, frame.spec_tex()),
    {
        let GpuFrame { idx, tex, frame_idx: _, duration_ms: _ } = frame;
        self.slots[idx].tex = Some(tex);
        self.slots[idx].ready = false;
        self.slots[idx].frame_idx = u64::MAX;
        self.free.push(idx);
        self.held = Ghost(self.held@.update(idx as int, None));
        proof {
            assert(self@.slots =~= after_release(old(self)@, idx as int, tex).slots);
            assert(self@ == after_release(old(self)@, idx as int, tex));
        }
    }

    /// Texture handle of slot `idx` (a clone; the slot keeps its texture).
    pub fn slot_tex(&self, idx: usize) -> (r: Option<T>)
        ensures
            idx >= self@.slots.len() ==> r is None,
            idx < self@.slots.len() ==> match self@.slots[idx as int].tex {
                None => r is None,
                Some(t) => r matches Some(c) && cloned(t, c),
            },
    {
        if idx < self.slots.len() {
            match &self.slots[idx].tex {
                Some(t) => Some(t.clone()),
                None => None,
            }
        } else {
            None
        }
    }

    /// Total frame count of the animation (`None` = unknown).
    pub fn total_frames(&self) -> (r: Option<u64>)
        ensures
            r == self@.total_frames,
    {
        self.total_frames
    }

    /// Sets the total frame count; becomes FullResident at once when already filled.
    pub fn set_total(&mut self, total: u64)
        requires
            old(self).wf(),
        ensures
            final(self).wf(),
            final(self)@ == after_set_total(old(self)@, total),
    {
        self.total_frames = Some(total);
        if self.state == PoolState::Filling && self.filled_frames >= total {
            self.state = PoolState::FullResident;
        }
    }

    /// Marks the pool degraded (publish never turns it back to FullResident).
    pub fn set_degraded(&mut self)
        requires
            old(self).wf(),
        ensures
            final(self).wf(),
            final(self)@ == (PoolModel { state: PoolState::Degraded, ..old(self)@ }),
    {
        self.state = PoolState::Degraded;
    }

    /// Statistics snapshot.
    pub fn stats(&self) -> (r: PoolStats)
        ensures
            r == (PoolStats {
                filled_frames: self@.filled_frames,
                filled_ms: self@.filled_ms,
                capacity: self@.slots.len() as usize,
                state: self@.state,
            }),
    {
        PoolStats {
            filled_frames: self.filled_frames,
            filled_ms: self.filled_ms,
            capacity: self.slots.len(),
            state: self.state,
        }
    }

    /// Pool dimensions in pixels.
    pub fn dims(&self) -> (r: (u32, u32))
        ensures
            r == self@.dims,
    {
        self.dims
    }

    /// Number of slots.
    pub fn capacity(&self) -> (r: usize)
        ensures
            r == self@.slots.len(),
    {
        self.slots.len()
    }

    /// Bytes of one RGBA16F frame (w × h × 8).
    pub fn frame_bytes(&self) -> (r: u64)
        ensures
            r == self@.frame_bytes,
    {
        self.frame_bytes
    }

    /// Closes the pool: every waiter ends (`acquire_free_wait` → None,
    /// `wait_frame` → false). Ready frames can still be taken.
    pub fn close(&mut self)
        requires
            old(self).wf(),
        ensures
            final(self).wf(),
            final(self)@ == (PoolModel { closed: true, ..old(self)@ }),
    {
        self.closed = true;
    }

    /// One step of waiting for the pool to close.
    pub fn wait_closed(&self) -> (r: WaitStep<()>)
        ensures
            self@.closed ==> r == WaitStep::Done(()),
            !self@.closed ==> r == WaitStep::<()>::Block,
    {
        if self.closed { WaitStep::Done(()) } else { WaitStep::Block }
    }
}

proof fn lemma_minimal_match<T>(slots: Seq<PoolSlot<T>>, f: u64, w: int)
    requires
        0 <= w < slots.len(),
        slot_matches(slots[w], f),
    ensures
        exists|i: int| 0 <= i < slots.len() && slot_matches(slots[i], f)
            && forall|j: int| 0 <= j < i ==> !slot_matches(#[trigger] slots[j], f),
    decreases w,
{
    if exists|j: int| 0 <= j < w && slot_matches(slots[j], f) {
        let j = choose|j: int| 0 <= j < w && slot_matches(slots[j], f);
        lemma_minimal_match(slots, f, j);
    } else {
        assert(forall|j: int| 0 <= j < w ==> !slot_matches(#[trigger] slots[j], f));
    }
}

/// What `first_ready` returns: the lowest index of a ready slot carrying `f`.
pub proof fn lemma_first_ready<T>(slots: Seq<PoolSlot<T>>, f: u64)
    ensures
        first_ready(slots, f) matches Some(i) ==> 0 <= i < slots.len() && slot_matches(slots[i], f)
            && forall|j: int| 0 <= j < i ==> !slot_matches(#[trigger] slots[j], f),
        first_ready(slots, f) is None ==> forall|j: int| 0 <= j < slots.len() ==> !slot_matches(#[trigger] slots[j], f),
{
    if exists|i: int| 0 <= i < slots.len() && slot_matches(slots[i], f) {
        let w = choose|i: int| 0 <= i < slots.len() && slot_matches(slots[i], f);
        lemma_minimal_match(slots, f, w);
    }
}

/// Publishing frame `f` into a slot that holds its texture makes `f` ready to be taken:
/// the first ready slot carrying `f` exists and still holds its texture.
pub proof fn law_publish_then_get<T>(m: PoolModel<T>, idx: int, f: u64, d: u32)
    requires
        model_wf(m),
        disciplined(m),
        0 <= idx < m.slots.len(),
        m.slots[idx].tex is Some,
    ensures
        ({
            let m2 = after_publish(m, idx, f, d);
            &&& first_ready(m2.slots, f) is Some
            &&& m2.slots[first_ready(m2.slots, f)->0].tex is Some
            &&& m2.slots[first_ready(m2.slots, f)->0].frame_idx == f
        }),
{
    let m2 = after_publish(m, idx, f, d);
    assert(slot_matches(m2.slots[idx], f));
    lemma_first_ready(m2.slots, f);
    let i = first_ready(m2.slots, f)->0;
    if i != idx {
        assert(m2.slots[i] == m.slots[i]);
        assert(m.slots[i].ready);
    }
}

/// A frame taken out of the pool cannot be taken a second time while it is out,
/// when no other slot carries the same frame.
pub proof fn law_get_is_exclusive<T>(m: PoolModel<T>, f: u64)
    requires
        first_ready(m.slots, f) is Some,
        forall|j: int| 0 <= j < m.slots.len() && j != first_ready(m.slots, f)->0
            ==> !slot_matches(#[trigger] m.slots[j], f),
    ensures
        first_ready(after_take(m, first_ready(m.slots, f)->0).slots, f) is None,
{
    lemma_first_ready(m.slots, f);
    let i = first_ready(m.slots, f)->0;
    let m2 = after_take(m, i);
    assert forall|j: int| 0 <= j < m2.slots.len() implies !slot_matches(#[trigger] m2.slots[j], f) by {
        if j != i {
            assert(m2.slots[j] == m.slots[j]);
        }
    }
}

/// A frame that is out (taken by `get`) is never handed to the producer: its slot is
/// not on the free list, so `acquire_free` cannot return it until `release`.
pub proof fn law_taken_slot_not_free<T>(m: PoolModel<T>, f: u64)
    requires
        model_wf(m),
        disciplined(m),
        first_ready(m.slots, f) is Some,
    ensures
        ({
            let i = first_ready(m.slots, f)->0;
            let m2 = after_take(m, i);
            &&& forall|k: int| 0 <= k < m2.free.len() ==> m2.free[k] != i
            &&& disciplined(m2)
        }),
{
    lemma_first_ready(m.slots, f);
    let i = first_ready(m.slots, f)->0;
    let m2 = after_take(m, i);
    assert forall|k: int| 0 <= k < m2.free.len() implies m2.free[k] != i by {
        if m2.free[k] == i {
            assert(!m.slots[m.free[k] as int].ready);
        }
    }
    assert forall|k: int| 0 <= k < m2.free.len() implies {
        let s = #[trigger] m2.slots[m2.free[k] as int];
        s.tex is Some && !s.ready
    } by {
        assert(m2.slots[m2.free[k] as int] == m.slots[m.free[k] as int]);
    }
    assert forall|j: int| 0 <= j < m2.slots.len() && (#[trigger] m2.slots[j]).ready implies m2.slots[j].tex is Some by {
        if j != i {
            assert(m2.slots[j] == m.slots[j]);
        }
    }
}

/// In a disciplined pool the slot `acquire_free` hands to the producer is never one
/// whose frame is ready (a ready frame is not overwritten) and never one whose texture
/// is on screen (the slot still holds its texture).
pub proof fn law_acquire_spares_ready_and_shown<T>(m: PoolModel<T>)
    requires
        model_wf(m),
        disciplined(m),
        m.free.len() > 0,
    ensures
        !m.slots[m.free.last() as int].ready,
        m.slots[m.free.last() as int].tex is Some,
{
    let k = m.free.len() - 1;
    assert(m.free[k] == m.free.last());
    let s = m.slots[m.free[k] as int];
    assert(s.tex is Some && !s.ready);
}

/// Handing a frame back makes its slot the next one `acquire_free` returns, with the
/// texture back in place (reuse without a new allocation).
pub proof fn law_release_then_acquire<T>(m: PoolModel<T>, idx: int, t: T)
    requires
        model_wf(m),
        0 <= idx < m.slots.len(),
        m.slots.len() <= usize::MAX,
    ensures
        ({
            let m2 = after_release(m, idx, t);
            &&& m2.free.len() > 0
            &&& m2.free.last() == idx
            &&& m2.slots[idx].tex == Some(t)
            &&& !m2.slots[idx].ready
            &&& m2.slots.len() == m.slots.len()
        }),
{
}

/// Correct use keeps the pool disciplined: acquiring, publishing an acquired slot,
/// taking a ready frame and releasing a taken frame all preserve `disciplined`.
pub proof fn law_discipline_preserved<T>(m: PoolModel<T>, idx: int, f: u64, d: u32, t: T)
    requires
        model_wf(m),
        disciplined(m),
    ensures
        m.free.len() > 0 ==> disciplined(PoolModel { free: m.free.drop_last(), ..m }),
        0 <= idx < m.slots.len() && m.slots[idx].tex is Some
            && (forall|k: int| 0 <= k < m.free.len() ==> m.free[k] != idx)
            ==> disciplined(after_publish(m, idx, f, d)),
        0 <= idx < m.slots.len() && m.slots[idx].ready ==> disciplined(after_take(m, idx)),
        0 <= idx < m.slots.len() && m.slots.len() <= usize::MAX && m.slots[idx].tex is None
            && (forall|k: int| 0 <= k < m.free.len() ==> m.free[k] != idx)
            ==> disciplined(after_release(m, idx, t)),
        disciplined(after_set_total(m, f)),
        disciplined(PoolModel { state: PoolState::Degraded, ..m }),
        disciplined(PoolModel { closed: true, ..m }),
{
    if m.free.len() > 0 {
        let m1 = PoolModel { free: m.free.drop_last(), ..m };
        assert forall|k: int| 0 <= k < m1.free.len() implies {
            let s = #[trigger] m1.slots[m1.free[k] as int];
            s.tex is Some && !s.ready
        } by {
            assert(m1.free[k] == m.free[k]);
        }
    }
    if 0 <= idx < m.slots.len() && m.slots[idx].tex is Some
        && (forall|k: int| 0 <= k < m.free.len() ==> m.free[k] != idx) {
        let m2 = after_publish(m, idx, f, d);
        assert forall|k: int| 0 <= k < m2.free.len() implies {
            let s = #[trigger] m2.slots[m2.free[k] as int];
            s.tex is Some && !s.ready
        } by {
            assert(m.free[k] != idx);
            assert(m2.slots[m.free[k] as int] == m.slots[m.free[k] as int]);
        }
        assert forall|j: int| 0 <= j < m2.slots.len() && (#[trigger] m2.slots[j]).ready implies m2.slots[j].tex is Some by {
            if j != idx {
                assert(m2.slots[j] == m.slots[j]);
            }
        }
    }
    if 0 <= idx < m.slots.len() && m.slots[idx].ready {
        let m3 = after_take(m, idx);
        assert forall|k: int| 0 <= k < m3.free.len() implies {
            let s = #[trigger] m3.slots[m3.free[k] as int];
            s.tex is Some && !s.ready
        } by {
            if m.free[k] == idx {
                assert(!m.slots[m.free[k] as int].ready);
            }
            assert(m3.slots[m.free[k] as int] == m.slots[m.free[k] as int]);
        }
        assert forall|j: int| 0 <= j < m3.slots.len() && (#[trigger] m3.slots[j]).ready implies m3.slots[j].tex is Some by {
            if j != idx {
                assert(m3.slots[j] == m.slots[j]);
            }
        }
    }
    if 0 <= idx < m.slots.len() && m.slots.len() <= usize::MAX && m.slots[idx].tex is None
        && (forall|k: int| 0 <= k < m.free.len() ==> m.free[k] != idx) {
        let m4 = after_release(m, idx, t);
        assert forall|a: int, b: int| 0 <= a < b < m4.free.len() implies m4.free[a] != m4.free[b] by {
            if b == m.free.len() {
                assert(m4.free[a] == m.free[a]);
            }
        }
        assert forall|k: int| 0 <= k < m4.free.len() implies {
            let s = #[trigger] m4.slots[m4.free[k] as int];
            s.tex is Some && !s.ready
        } by {
            if k < m.free.len() {
                assert(m4.free[k] == m.free[k]);
                assert(m4.slots[m.free[k] as int] == m.slots[m.free[k] as int]);
            }
        }
        assert forall|j: int| 0 <= j < m4.slots.len() && (#[trigger] m4.slots[j]).ready implies m4.slots[j].tex is Some by {
            if j != idx {
                assert(m4.slots[j] == m.slots[j]);
            }
        }
    }
}

/// Degraded is sticky: neither publishing nor setting the total leaves it.
pub proof fn law_degraded_sticky<T>(m: PoolModel<T>, idx: int, f: u64, d: u32, t: u64)
    requires
        m.state == PoolState::Degraded,
    ensures
        after_publish(m, idx, f, d).state == PoolState::Degraded,
        after_set_total(m, t).state == PoolState::Degraded,
{
}

/// Full residency: while filling with a known total, the publish that brings the
/// filled count to the total switches the pool to FullResident; setting a total at
/// or below the filled count does the same at once.
pub proof fn law_full_resident<T>(m: PoolModel<T>, idx: int, f: u64, d: u32, t: u64)
    requires
        m.state == PoolState::Filling,
        m.filled_frames < u64::MAX,
    ensures
        0 <= idx < m.slots.len() && m.total_frames == Some(t) && m.filled_frames + 1 >= t
            ==> after_publish(m, idx, f, d).state == PoolState::FullResident,
        m.filled_frames >= t ==> after_set_total(m, t).state == PoolState::FullResident,
        m.filled_frames < t ==> after_set_total(m, t).state == PoolState::Filling,
{
}

/// No operation changes the number of slots (no texture is ever allocated after
/// creation), and each publish adds one frame and its duration to the accounting.
pub proof fn law_capacity_and_accounting<T>(m: PoolModel<T>, idx: int, f: u64, d: u32, t: T, total: u64)
    requires
        0 <= idx < m.slots.len(),
        m.filled_frames < u64::MAX,
        m.filled_ms + d <= u64::MAX,
    ensures
        after_publish(m, idx, f, d).slots.len() == m.slots.len(),
        after_take(m, idx).slots.len() == m.slots.len(),
        after_release(m, idx, t).slots.len() == m.slots.len(),
        after_set_total(m, total).slots.len() == m.slots.len(),
        after_publish(m, idx, f, d).filled_frames == m.filled_frames + 1,
        after_publish(m, idx, f, d).filled_ms == m.filled_ms + d,
{
}

/// Closing is final and ends every wait: once closed, waiting for a slot yields
/// `None` and waiting for a frame that is not ready yields `false`.
pub proof fn law_closed_monotone<T>(m: PoolModel<T>, idx: int, f: u64, d: u32, t: T, total: u64)
    requires
        m.closed,
        0 <= idx < m.slots.len(),
    ensures
        after_publish(m, idx, f, d).closed,
        after_take(m, idx).closed,
        after_release(m, idx, t).closed,
        after_set_total(m, total).closed,
        (PoolModel { state: PoolState::Degraded, ..m }).closed,
{
}

/// One call on a pool, as its effect on the model: taking a free slot, publishing into
/// slot `idx`, taking the ready frame out of slot `idx`, handing texture `t` back to slot
/// `idx`, setting the total, degrading, closing.
pub enum PoolOp<T> {
    Acquire,
    Publish(int, u64, u32),
    Take(int),
    Release(int, T),
    SetTotal(u64),
    Degrade,
    Close,
}

/// The model after one call. Taking succeeds only from a ready slot that holds its
/// texture (as `get` does); handing back needs the texture out on screen for that slot
/// (what `release` requires), anything else changes nothing.
pub open spec fn pool_step<T>(m: PoolModel<T>, op: PoolOp<T>) -> PoolModel<T> {
    match op {
        PoolOp::Acquire => if m.free.len() > 0 { PoolModel { free: m.free.drop_last(), ..m } } else { m },
        PoolOp::Publish(i, f, d) => after_publish(m, i, f, d),
        PoolOp::Take(i) => if 0 <= i < m.slots.len() && m.slots[i].ready && m.slots[i].tex is Some {
            after_take(m, i)
        } else {
            m
        },
        PoolOp::Release(i, t) => if 0 <= i < m.slots.len() && m.held[i] == Some(t) { after_release(m, i, t) } else { m },
        PoolOp::SetTotal(t) => after_set_total(m, t),
        PoolOp::Degrade => PoolModel { state: PoolState::Degraded, ..m },
        PoolOp::Close => PoolModel { closed: true, ..m },
    }
}

/// The model after a sequence of calls.
pub open spec fn pool_run<T>(m: PoolModel<T>, ops: Seq<PoolOp<T>>) -> PoolModel<T>
    decreases ops.len(),
{
    if ops.len() == 0 { m } else { pool_run(pool_step(m, ops[0]), ops.skip(1)) }
}

/// Slot `i` is not on the free list.
pub open spec fn not_free<T>(m: PoolModel<T>, i: int) -> bool {
    forall|k: int| 0 <= k < m.free.len() ==> m.free[k] != i
}

/// A call made as the pool is meant to be used: the producer publishes only a slot it
/// acquired (holding its texture, not ready, not free), the consumer takes only a ready
/// frame and hands back only a taken one.
pub open spec fn proper_op<T>(m: PoolModel<T>, op: PoolOp<T>) -> bool {
    match op {
        PoolOp::Publish(i, f, d) => 0 <= i < m.slots.len() && m.slots[i].tex is Some && !m.slots[i].ready && not_free(m, i),
        PoolOp::Take(i) => 0 <= i < m.slots.len() && m.slots[i].ready,
        PoolOp::Release(i, t) => 0 <= i < m.slots.len() && m.held[i] == Some(t) && not_free(m, i),
        _ => true,
    }
}

/// A call that the library's own `requires` admit: handing back only the frame out on
/// screen for its slot; every other call is always admitted.
pub open spec fn admitted<T>(m: PoolModel<T>, op: PoolOp<T>) -> bool {
    match op {
        PoolOp::Release(i, t) => 0 <= i < m.slots.len() && m.held[i] == Some(t),
        _ => true,
    }
}

/// Every call of the sequence is admitted in the state it meets.
pub open spec fn admitted_run<T>(m: PoolModel<T>, ops: Seq<PoolOp<T>>) -> bool
    decreases ops.len(),
{
    ops.len() == 0 || (admitted(m, ops[0]) && admitted_run(pool_step(m, ops[0]), ops.skip(1)))
}

proof fn lemma_step_wf<T>(m: PoolModel<T>, op: PoolOp<T>)
    requires
        model_wf(m),
        m.slots.len() <= usize::MAX,
        admitted(m, op),
    ensures
        model_wf(pool_step(m, op)),
        pool_step(m, op).slots.len() == m.slots.len(),
{
    let n = pool_step(m, op);
    match op {
        PoolOp::Acquire => {
            if m.free.len() > 0 {
                assert forall|k: int| 0 <= k < n.free.len() implies (#[trigger] n.free[k]) < n.slots.len() by {
                    assert(n.free[k] == m.free[k]);
                }
            }
        },
        PoolOp::Publish(i, f, d) => {
            if 0 <= i < m.slots.len() {
                assert forall|j: int| 0 <= j < n.slots.len() implies (#[trigger] n.slots[j]).tex == m.slots[j].tex by {}
            }
        },
        PoolOp::Take(i) => {
            if 0 <= i < m.slots.len() && m.slots[i].ready && m.slots[i].tex is Some {
                assert forall|j: int| 0 <= j < n.slots.len() && j != i implies (#[trigger] n.slots[j]) == m.slots[j] && n.held[j] == m.held[j] by {}
            }
        },
        PoolOp::Release(i, t) => {
            assert forall|k: int| 0 <= k < n.free.len() implies (#[trigger] n.free[k]) < n.slots.len() by {
                if k < m.free.len() {
                    assert(n.free[k] == m.free[k]);
                }
            }
            assert forall|j: int| 0 <= j < n.slots.len() && j != i implies (#[trigger] n.slots[j]) == m.slots[j] && n.held[j] == m.held[j] by {}
        },
        _ => {},
    }
}

/// The central rule, over any sequence of calls the library admits: a texture that is
/// on screen is never reused. Its slot holds no texture until the frame is handed back,
/// so neither `slot_tex` nor a producer that acquires the slot can reach it; every
/// slot that holds a texture holds its own, and the frame on screen holds its slot's
/// own texture.
pub proof fn law_run_on_screen<T>(m: PoolModel<T>, ops: Seq<PoolOp<T>>)
    requires
        model_wf(m),
        m.slots.len() <= usize::MAX,
        admitted_run(m, ops),
    ensures
        model_wf(pool_run(m, ops)),
        pool_run(m, ops).slots.len() == m.slots.len(),
        pool_run(m, ops).own == m.own,
    decreases ops.len(),
{
    if ops.len() > 0 {
        lemma_step_wf(m, ops[0]);
        law_run_on_screen(pool_step(m, ops[0]), ops.skip(1));
    }
}

/// In a well-formed pool whose slots were given distinct textures, no slot holds a
/// texture that a frame on screen holds, and the frame's texture is its own slot's.
pub proof fn law_on_screen_not_in_pool<T>(m: PoolModel<T>, i: int, t: T)
    requires
        model_wf(m),
        0 <= i < m.slots.len(),
        m.held[i] == Some(t),
        forall|a: int, b: int| 0 <= a < m.own.len() && 0 <= b < m.own.len() && a != b ==> m.own[a] != m.own[b],
    ensures
        t == m.own[i],
        m.slots[i].tex is None,
        forall|j: int| 0 <= j < m.slots.len() ==> (#[trigger] m.slots[j]).tex != Some(t),
{
    assert(m.slots[i].tex is None);
    assert forall|j: int| 0 <= j < m.slots.len() implies (#[trigger] m.slots[j]).tex != Some(t) by {
        if j != i && m.slots[j].tex is Some {
            assert(m.slots[j].tex == Some(m.own[j]));
        }
    }
}

/// Every call of the sequence is proper in the state it meets.
pub open spec fn proper_run<T>(m: PoolModel<T>, ops: Seq<PoolOp<T>>) -> bool
    decreases ops.len(),
{
    ops.len() == 0 || (proper_op(m, ops[0]) && proper_run(pool_step(m, ops[0]), ops.skip(1)))
}

proof fn lemma_step_keeps<T>(m: PoolModel<T>, op: PoolOp<T>)
    requires
        model_wf(m),
        disciplined(m),
        m.slots.len() <= usize::MAX,
        proper_op(m, op),
    ensures
        model_wf(pool_step(m, op)),
        disciplined(pool_step(m, op)),
        pool_step(m, op).slots.len() == m.slots.len(),
{
    let (i, f, d, t) = match op {
        PoolOp::Publish(i, f, d) => (i, f, d, m.slots[0].tex->0),
        PoolOp::Take(i) => (i, 0u64, 0u32, m.slots[0].tex->0),
        PoolOp::Release(i, t) => (i, 0u64, 0u32, t),
        PoolOp::SetTotal(f) => (0int, f, 0u32, m.slots[0].tex->0),
        _ => (0int, 0u64, 0u32, m.slots[0].tex->0),
    };
    law_discipline_preserved(m, i, f, d, t);
    lemma_step_wf(m, op);
    let n = pool_step(m, op);
    match op {
        PoolOp::Acquire => {
            if m.free.len() > 0 {
                assert forall|k: int| 0 <= k < n.free.len() implies (#[trigger] n.free[k]) < n.slots.len() by {
                    assert(n.free[k] == m.free[k]);
                }
            }
        },
        PoolOp::Release(i, t) => {
            assert forall|k: int| 0 <= k < n.free.len() implies (#[trigger] n.free[k]) < n.slots.len() by {
                if k < m.free.len() {
                    assert(n.free[k] == m.free[k]);
                }
            }
        },
        _ => {},
    }
}

/// Correct use keeps the pool disciplined over any sequence of calls: free slots stay
/// distinct, hold their texture and are never ready, so `acquire_free` never hands the
/// producer a slot whose frame is ready or whose texture is on screen
/// (`law_acquire_spares_ready_and_shown`). No call adds or removes a slot.
pub proof fn law_run_disciplined<T>(m: PoolModel<T>, ops: Seq<PoolOp<T>>)
    requires
        model_wf(m),
        disciplined(m),
        m.slots.len() <= usize::MAX,
        proper_run(m, ops),
    ensures
        model_wf(pool_run(m, ops)),
        disciplined(pool_run(m, ops)),
        pool_run(m, ops).slots.len() == m.slots.len(),
    decreases ops.len(),
{
    if ops.len() > 0 {
        lemma_step_keeps(m, ops[0]);
        law_run_disciplined(pool_step(m, ops[0]), ops.skip(1));
    }
}

/// A ready frame is never evicted: under correct use, a ready slot keeps its frame,
/// duration and texture through any sequence of calls that does not take it.
pub proof fn law_ready_frame_kept<T>(m: PoolModel<T>, ops: Seq<PoolOp<T>>, i: int)
    requires
        model_wf(m),
        disciplined(m),
        m.slots.len() <= usize::MAX,
        proper_run(m, ops),
        0 <= i < m.slots.len(),
        m.slots[i].ready,
        forall|k: int| 0 <= k < ops.len() ==> ops[k] != PoolOp::<T>::Take(i),
    ensures
        pool_run(m, ops).slots[i] == m.slots[i],
    decreases ops.len(),
{
    if ops.len() > 0 {
        let op = ops[0];
        lemma_step_keeps(m, op);
        let n = pool_step(m, op);
        match op {
            PoolOp::Take(j) => {
                assert(ops[0] != PoolOp::<T>::Take(i));
                assert(j != i);
            },
            _ => {},
        }
        assert(n.slots[i] == m.slots[i]);
        assert forall|k: int| 0 <= k < ops.skip(1).len() implies ops.skip(1)[k] != PoolOp::<T>::Take(i) by {
            assert(ops.skip(1)[k] == ops[k + 1]);
        }
        law_ready_frame_kept(n, ops.skip(1), i);
    }
}

/// Publishes of the sequence into an existing slot, and the sum of their durations.
pub open spec fn published<T>(ops: Seq<PoolOp<T>>, n: int) -> (int, int)
    decreases ops.len(),
{
    if ops.len() == 0 {
        (0, 0)
    } else {
        let (c, s) = published(ops.skip(1), n);
        match ops[0] {
            PoolOp::Publish(i, f, d) => if 0 <= i < n { (c + 1, s + d) } else { (c, s) },
            _ => (c, s),
        }
    }
}

/// Accounting over any sequence of calls: the filled-frame count grows by one and the
/// filled time by the duration for each publish into a slot, and nothing else changes
/// them; the pool never gains or loses a slot (no allocation after creation).
pub proof fn law_run_accounting<T>(m: PoolModel<T>, ops: Seq<PoolOp<T>>)
    requires
        m.filled_frames + published(ops, m.slots.len() as int).0 <= u64::MAX,
        m.filled_ms + published(ops, m.slots.len() as int).1 <= u64::MAX,
    ensures
        pool_run(m, ops).filled_frames == m.filled_frames + published(ops, m.slots.len() as int).0,
        pool_run(m, ops).filled_ms == m.filled_ms + published(ops, m.slots.len() as int).1,
        pool_run(m, ops).slots.len() == m.slots.len(),
    decreases ops.len(),
{
    if ops.len() > 0 {
        let n = pool_step(m, ops[0]);
        assert(n.slots.len() == m.slots.len());
        let (c, s) = published(ops.skip(1), m.slots.len() as int);
        assert(0 <= c && 0 <= s) by { lemma_published_nonneg(ops.skip(1), m.slots.len() as int); }
        law_run_accounting(n, ops.skip(1));
    }
}

proof fn lemma_published_nonneg<T>(ops: Seq<PoolOp<T>>, n: int)
    ensures
        published(ops, n).0 >= 0,
        published(ops, n).1 >= 0,
    decreases ops.len(),
{
    if ops.len() > 0 {
        lemma_published_nonneg(ops.skip(1), n);
    }
}

/// Once degraded, a pool stays degraded through any sequence of calls: nothing but
/// `set_degraded` changes a degraded state.
pub proof fn law_run_degraded_sticky<T>(m: PoolModel<T>, ops: Seq<PoolOp<T>>)
    requires
        m.state == PoolState::Degraded,
    ensures
        pool_run(m, ops).state == PoolState::Degraded,
    decreases ops.len(),
{
    if ops.len() > 0 {
        law_run_degraded_sticky(pool_step(m, ops[0]), ops.skip(1));
    }
}

} // verus!
