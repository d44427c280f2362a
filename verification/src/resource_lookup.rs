use vstd::prelude::*;
use std::collections::HashMap;
use std::collections::hash_map::DefaultHasher;
use std::hash::{Hash, Hasher};
use vstd::std_specs::hash::DefaultHasherAdditionalSpecFns;
use std::marker::PhantomData;

verus! {

broadcast use vstd::std_specs::hash::group_hash_axioms;

/// The id a resource handle carries.
#[derive(Clone, Copy, Debug, PartialEq, Eq, Hash, Structural)]
pub struct ResourceId(pub u64);

/// Hash of a GPU resource's key.
#[derive(Clone, Copy, Debug, PartialEq, Eq, Hash, Structural)]
pub struct ResourceHash(pub u64);

/// Feeds `key` to `hasher` through the key type's `Hash` impl (`Hash::hash`). What the impl
/// writes is not stated.
#[verifier::external_body]
fn write_key<KeyT: Hash>(key: &KeyT, hasher: &mut DefaultHasher) {
    key.hash(hasher);
}

impl ResourceHash {
    /// Hashes a key with std's `DefaultHasher`.
    pub fn from_key<KeyT: Hash>(key: &KeyT) -> (r: ResourceHash)
        ensures
            exists|writes: Seq<Seq<u8>>| r.0 == DefaultHasher::spec_finish(writes),
    {
        let mut hasher = DefaultHasher::new();
        write_key(key, &mut hasher);
        ResourceHash(hasher.finish())
    }
}

impl From<ResourceId> for ResourceHash {
    fn from(resource_id: ResourceId) -> (r: Self) {
        ResourceHash(resource_id.0)
    }
}

impl vstd::std_specs::convert::FromSpecImpl<ResourceId> for ResourceHash {
    open spec fn obeys_from_spec() -> bool {
        true
    }

    open spec fn from_spec(v: ResourceId) -> Self {
        ResourceHash(v.0)
    }
}

impl From<ResourceHash> for ResourceId {
    fn from(resource_hash: ResourceHash) -> (r: Self) {
        ResourceId(resource_hash.0)
    }
}

impl vstd::std_specs::convert::FromSpecImpl<ResourceHash> for ResourceId {
    open spec fn obeys_from_spec() -> bool {
        true
    }

    open spec fn from_spec(v: ResourceHash) -> Self {
        ResourceId(v.0)
    }
}

/// An error code of the Vulkan API (`VkResult`).
#[derive(Clone, Copy, Debug, PartialEq, Eq, Structural)]
pub struct VkError(pub i32);

/// `VK_ERROR_TOO_MANY_OBJECTS`
pub const VK_ERROR_TOO_MANY_OBJECTS: i32 = -10;
/// `VK_ERROR_UNKNOWN`
pub const VK_ERROR_UNKNOWN: i32 = -13;

/// A resource waiting for the GPU to finish the frames that may still use it.
#[derive(Clone, Copy, Debug)]
pub struct RetiredResource<ResourceT> {
    pub resource: ResourceT,
    pub frames_left: u32,
}

/// Of the retired resources, those whose wait ends with this frame.
pub open spec fn expired<ResourceT>(s: Seq<RetiredResource<ResourceT>>) -> Seq<ResourceT>
    decreases s.len(),
{
    if s.len() == 0 {
        Seq::empty()
    } else {
        let prev = expired(s.drop_last());
        if s.last().frames_left <= 1 {
            prev.push(s.last().resource)
        } else {
            prev
        }
    }
}

/// Of the retired resources, those still waiting after this frame, with one frame less to wait.
pub open spec fn still_waiting<ResourceT>(s: Seq<RetiredResource<ResourceT>>) -> Seq<RetiredResource<ResourceT>>
    decreases s.len(),
{
    if s.len() == 0 {
        Seq::empty()
    } else {
        let prev = still_waiting(s.drop_last());
        let r = s.last();
        if r.frames_left <= 1 {
            prev
        } else {
            prev.push(RetiredResource { resource: r.resource, frames_left: (r.frames_left - 1) as u32 })
        }
    }
}

/// What a lookup holds: the resources by hash, how many handles each has, the hashes whose last
/// handle was dropped (in order), the retired resources, and the call counters.
pub struct LookupModel<ResourceT> {
    pub resources: Map<u64, ResourceT>,
    pub strong_counts: Map<u64, u64>,
    pub pending_drops: Seq<u64>,
    pub in_flight: Seq<RetiredResource<ResourceT>>,
    pub max_frames_in_flight: u32,
    pub lock_call_count: u64,
    pub lock_call_count_previous_frame: u64,
}

/// The resource has a handle, so it can be handed out again.
pub open spec fn is_live<ResourceT>(m: LookupModel<ResourceT>, h: u64) -> bool {
    m.strong_counts.contains_key(h) && m.strong_counts[h] > 0
}

/// The lookup after dropping a handle to `h`: one handle fewer, and the resource queued to be
/// retired when that was its last handle. Nothing changes when `h` has no handle.
pub open spec fn spec_drop<ResourceT>(m: LookupModel<ResourceT>, h: u64) -> LookupModel<ResourceT> {
    if is_live(m, h) {
        LookupModel {
            strong_counts: m.strong_counts.insert(h, (m.strong_counts[h] - 1) as u64),
            pending_drops: if m.strong_counts[h] == 1 {
                m.pending_drops.push(h)
            } else {
                m.pending_drops
            },
            ..m
        }
    } else {
        m
    }
}

/// The lookup after dropping one handle to each hash of `hs`, the last one first.
pub open spec fn spec_drop_all<ResourceT>(m: LookupModel<ResourceT>, hs: Seq<u64>) -> LookupModel<ResourceT>
    decreases hs.len(),
{
    if hs.len() == 0 {
        m
    } else {
        spec_drop_all(spec_drop(m, hs.last()), hs.drop_last())
    }
}

/// The lookup after taking one more handle to each hash of `hs`, in order; `None` when one of
/// them has no handle or no more can be counted.
pub open spec fn spec_clone_all<ResourceT>(m: LookupModel<ResourceT>, hs: Seq<u64>) -> Option<LookupModel<ResourceT>>
    decreases hs.len(),
{
    if hs.len() == 0 {
        Some(m)
    } else {
        match spec_clone_all(m, hs.drop_last()) {
            None => None,
            Some(m1) => {
                let h = hs.last();
                if is_live(m1, h) && m1.strong_counts[h] < u64::MAX {
                    Some(LookupModel { strong_counts: m1.strong_counts.insert(h, (m1.strong_counts[h] + 1) as u64), ..m1 })
                } else {
                    None
                }
            },
        }
    }
}

/// Once taking handles fails, taking more fails too.
pub proof fn lemma_clone_all_fails_on<ResourceT>(m: LookupModel<ResourceT>, hs: Seq<u64>, i: int)
    requires
        0 <= i <= hs.len(),
        spec_clone_all(m, hs.take(i)) is None,
    ensures
        spec_clone_all(m, hs) is None,
    decreases hs.len() - i,
{
    if i < hs.len() {
        assert(hs.take(i + 1).drop_last() =~= hs.take(i));
        lemma_clone_all_fails_on(m, hs, i + 1);
    } else {
        assert(hs.take(i) =~= hs);
    }
}

/// Dropping the handles just taken, the last first, gives back the lookup as it was.
pub proof fn lemma_drop_undoes_clone<ResourceT>(m: LookupModel<ResourceT>, hs: Seq<u64>)
    requires
        spec_clone_all(m, hs) is Some,
    ensures
        spec_drop_all(spec_clone_all(m, hs)->0, hs) == m,
    decreases hs.len(),
{
    if hs.len() > 0 {
        let m1 = spec_clone_all(m, hs.drop_last())->0;
        let h = hs.last();
        let m2 = spec_clone_all(m, hs)->0;
        assert(m2.strong_counts[h] == m1.strong_counts[h] + 1);
        assert(spec_drop(m2, h).strong_counts =~= m1.strong_counts);
        assert(spec_drop(m2, h) == m1);
        lemma_drop_undoes_clone(m, hs.drop_last());
    }
}

/// The lookup with one more use counted, as each `get` and `get_or_create` counts one.
pub open spec fn counted_use<ResourceT>(m: LookupModel<ResourceT>) -> LookupModel<ResourceT> {
    LookupModel { lock_call_count: wrapping_inc(m.lock_call_count), ..m }
}

/// A lookup that holds nothing and has counted no use.
pub open spec fn empty_lookup<ResourceT>(max_frames_in_flight: u32) -> LookupModel<ResourceT> {
    LookupModel {
        resources: Map::empty(),
        strong_counts: Map::empty(),
        pending_drops: Seq::empty(),
        in_flight: Seq::empty(),
        max_frames_in_flight,
        lock_call_count: 0,
        lock_call_count_previous_frame: 0,
    }
}

/// The hashes of the handles of `s`, in order.
pub open spec fn arc_hashes<ResourceT>(s: Seq<ResourceArc<ResourceT>>) -> Seq<u64> {
    s.map_values(|a: ResourceArc<ResourceT>| a.spec_hash())
}

/// Retires every resource whose last handle was dropped, in the order they were dropped.
pub open spec fn spec_handle_dropped<ResourceT>(m: LookupModel<ResourceT>) -> LookupModel<ResourceT> {
    LookupModel {
        resources: m.resources.remove_keys(m.pending_drops.to_set()),
        strong_counts: m.strong_counts.remove_keys(m.pending_drops.to_set()),
        pending_drops: Seq::empty(),
        in_flight: m.in_flight + m.pending_drops.map_values(|h: u64| RetiredResource { resource: m.resources[h], frames_left: m.max_frames_in_flight }),
        ..m
    }
}

/// What asking for hash `h` does to a lookup in state `m0`, ending in `m1` with result `r`: a
/// live resource gets one more handle (unless its handles can no longer be counted);
/// otherwise dropped resources are retired and, if creating succeeded, the new resource is
/// stored with one handle.
pub open spec fn get_or_create_step<ResourceT>(
    m0: LookupModel<ResourceT>,
    h: u64,
    m1: LookupModel<ResourceT>,
    r: Result<ResourceArc<ResourceT>, VkError>,
) -> bool {
    let dropped = spec_handle_dropped(m0);
    &&& (is_live(m0, h) && m0.strong_counts[h] < u64::MAX) ==> {
        &&& r is Ok
        &&& r->Ok_0.spec_hash() == h
        &&& m1 == (LookupModel { strong_counts: m0.strong_counts.insert(h, (m0.strong_counts[h] + 1) as u64), ..m0 })
    }
    &&& (is_live(m0, h) && m0.strong_counts[h] == u64::MAX) ==> {
        &&& r == Err::<ResourceArc<ResourceT>, VkError>(VkError(VK_ERROR_TOO_MANY_OBJECTS))
        &&& m1 == m0
    }
    &&& !is_live(m0, h) ==> match r {
        Ok(arc) => {
            &&& arc.spec_hash() == h
            &&& m1 == (LookupModel {
                resources: dropped.resources.insert(h, m1.resources[h]),
                strong_counts: dropped.strong_counts.insert(h, 1),
                ..dropped
            })
        },
        Err(_) => m1 == dropped,
    }
}

/// Retiring the dropped resources keeps every live resource as it is.
pub proof fn lemma_dropped_keeps_live<ResourceT>(m: LookupModel<ResourceT>, h: u64)
    requires
        lookup_wf(m),
        is_live(m, h),
    ensures
        is_live(spec_handle_dropped(m), h),
        spec_handle_dropped(m).resources[h] == m.resources[h],
{
    assert(!m.pending_drops.contains(h));
    assert(!m.pending_drops.to_set().contains(h));
}

/// The number of handles of the resource with hash `h` (none when the lookup holds none).
pub open spec fn count_of<ResourceT>(m: LookupModel<ResourceT>, h: u64) -> int {
    if m.strong_counts.contains_key(h) {
        m.strong_counts[h] as int
    } else {
        0
    }
}

/// Asking for a resource adds at most one handle to any resource.
pub proof fn lemma_step_adds_at_most_one<ResourceT>(
    m0: LookupModel<ResourceT>,
    h0: u64,
    m1: LookupModel<ResourceT>,
    r: Result<ResourceArc<ResourceT>, VkError>,
)
    requires
        get_or_create_step(counted_use(m0), h0, m1, r),
    ensures
        forall|h: u64| #[trigger] count_of(m1, h) <= count_of(m0, h) + 1,
{
}

/// Dropping handles adds none.
pub proof fn lemma_drop_all_adds_none<ResourceT>(m: LookupModel<ResourceT>, hs: Seq<u64>)
    ensures
        forall|h: u64| #[trigger] count_of(spec_drop_all(m, hs), h) <= count_of(m, h),
    decreases hs.len(),
{
    if hs.len() > 0 {
        let m1 = spec_drop(m, hs.last());
        assert forall|h: u64| #[trigger] count_of(m1, h) <= count_of(m, h) by {}
        lemma_drop_all_adds_none(m1, hs.drop_last());
        assert(spec_drop_all(m, hs) == spec_drop_all(m1, hs.drop_last()));
        assert forall|h: u64| #[trigger] count_of(spec_drop_all(m, hs), h) <= count_of(m, h) by {
            assert(count_of(spec_drop_all(m1, hs.drop_last()), h) <= count_of(m1, h));
            assert(count_of(m1, h) <= count_of(m, h));
        }
    }
}

/// A frame completed: retire what was dropped, then release what has waited long enough.
pub open spec fn spec_frame_complete<ResourceT>(m: LookupModel<ResourceT>) -> LookupModel<ResourceT> {
    let h = spec_handle_dropped(m);
    LookupModel {
        in_flight: still_waiting(h.in_flight),
        lock_call_count: wrapping_inc(m.lock_call_count),
        lock_call_count_previous_frame: wrapping_inc(wrapping_inc(m.lock_call_count)),
        ..h
    }
}

pub open spec fn wrapping_inc(x: u64) -> u64 {
    if x == u64::MAX {
        0
    } else {
        (x + 1) as u64
    }
}

/// A counted handle to a resource of a lookup (the resource stays alive while a handle exists).
/// Handles are given back with `ResourceLookup::drop_arc`, which is what retires a resource
/// once its last handle is gone. The type has no `Drop`: a handle that simply goes out of scope
/// keeps its resource counted, and the lookup reports it as still held (see `destroy`).
#[derive(Debug)]
pub struct ResourceArc<ResourceT> {
    resource_hash: ResourceHash,
    phantom: PhantomData<ResourceT>,
}

impl<ResourceT> ResourceArc<ResourceT> {
    pub closed spec fn spec_hash(&self) -> u64 {
        self.resource_hash.0
    }

    /// The hash of the resource this handle refers to.
    pub fn resource_hash(&self) -> (r: ResourceHash)
        ensures
            r.0 == self.spec_hash(),
    {
        self.resource_hash
    }
}

fn new_arc<ResourceT>(h: ResourceHash) -> (r: ResourceArc<ResourceT>)
    ensures
        r.spec_hash() == h.0,
{
    ResourceArc { resource_hash: h, phantom: PhantomData }
}

/// Resources deduplicated by the hash of their key. Handles are counted; when the last one is
/// dropped the resource is retired and released only after the frames that may still use it
/// have completed.
pub struct ResourceLookup<KeyT, ResourceT> {
    resources: HashMap<u64, ResourceT>,
    strong_counts: HashMap<u64, u64>,
    pending_drops: Vec<u64>,
    in_flight: Vec<RetiredResource<ResourceT>>,
    max_frames_in_flight: u32,
    lock_call_count: u64,
    lock_call_count_previous_frame: u64,
    phantom: PhantomData<KeyT>,
}

impl<KeyT, ResourceT> View for ResourceLookup<KeyT, ResourceT> {
    type V = LookupModel<ResourceT>;

    closed spec fn view(&self) -> LookupModel<ResourceT> {
        LookupModel {
            resources: self.resources@,
            strong_counts: self.strong_counts@,
            pending_drops: self.pending_drops@,
            in_flight: self.in_flight@,
            max_frames_in_flight: self.max_frames_in_flight,
            lock_call_count: self.lock_call_count,
            lock_call_count_previous_frame: self.lock_call_count_previous_frame,
        }
    }
}

/// The lookup's bookkeeping agrees with itself: every resource has a handle count, and the
/// hashes waiting to be retired are exactly those whose count dropped to zero, each once.
pub open spec fn lookup_wf<ResourceT>(m: LookupModel<ResourceT>) -> bool {
    &&& m.resources.dom() == m.strong_counts.dom()
    &&& m.pending_drops.no_duplicates()
    &&& forall|h: u64| #[trigger] m.pending_drops.contains(h) <==> (m.strong_counts.contains_key(h) && m.strong_counts[h] == 0)
}

impl<KeyT, ResourceT> ResourceLookup<KeyT, ResourceT> {
    pub closed spec fn wf(&self) -> bool {
        lookup_wf(self@)
    }

    /// A well-formed lookup's model agrees with itself.
    pub proof fn lemma_wf_model(&self)
        requires
            self.wf(),
        ensures
            lookup_wf(self@),
    {
    }

    /// An empty lookup whose retired resources wait for `max_frames_in_flight` frames.
    pub fn new(max_frames_in_flight: u32) -> (r: Self)
        ensures
            r.wf(),
            r@.resources == Map::<u64, ResourceT>::empty(),
            r@.strong_counts == Map::<u64, u64>::empty(),
            r@.pending_drops == Seq::<u64>::empty(),
            r@.in_flight == Seq::<RetiredResource<ResourceT>>::empty(),
            r@.max_frames_in_flight == max_frames_in_flight,
            r@.lock_call_count == 0,
            r@.lock_call_count_previous_frame == 0,
    {
        let r = ResourceLookup {
            resources: HashMap::new(),
            strong_counts: HashMap::new(),
            pending_drops: Vec::new(),
            in_flight: Vec::new(),
            max_frames_in_flight,
            lock_call_count: 0,
            lock_call_count_previous_frame: 0,
            phantom: PhantomData,
        };
        proof {
            assert(r.resources@.dom() =~= r.strong_counts@.dom());
        }
        r
    }

    /// A new handle to the live resource with this hash, if there is one.
    pub fn get(&mut self, hash: ResourceHash, _key: &KeyT) -> (r: Option<ResourceArc<ResourceT>>)
        requires
            old(self).wf(),
        ensures
            final(self).wf(),
            final(self)@.lock_call_count == wrapping_inc(old(self)@.lock_call_count),
            r is Some <==> is_live(old(self)@, hash.0) && old(self)@.strong_counts[hash.0] < u64::MAX,
            r is Some ==> r->0.spec_hash() == hash.0,
            r is Some ==> final(self)@ == (LookupModel {
                strong_counts: old(self)@.strong_counts.insert(hash.0, (old(self)@.strong_counts[hash.0] + 1) as u64),
                lock_call_count: final(self)@.lock_call_count,
                ..old(self)@
            }),
            r is None ==> final(self)@ == (LookupModel { lock_call_count: final(self)@.lock_call_count, ..old(self)@ }),
    {
        self.lock_call_count = self.lock_call_count.wrapping_add(1);
        self.acquire(hash)
    }

    /// Counts a new handle to the live resource with this hash.
    fn acquire(&mut self, hash: ResourceHash) -> (r: Option<ResourceArc<ResourceT>>)
        requires
            old(self).wf(),
        ensures
            final(self).wf(),
            r is Some <==> is_live(old(self)@, hash.0) && old(self)@.strong_counts[hash.0] < u64::MAX,
            r is Some ==> r->0.spec_hash() == hash.0,
            r is Some ==> final(self)@ == (LookupModel {
                strong_counts: old(self)@.strong_counts.insert(hash.0, (old(self)@.strong_counts[hash.0] + 1) as u64),
                ..old(self)@
            }),
            r is None ==> final(self)@ == old(self)@,
    {
        let count = match self.strong_counts.get(&hash.0) {
            Some(c) => *c,
            None => {
                return None;
            },
        };
        if count == 0 || count == u64::MAX {
            return None;
        }
        self.strong_counts.insert(hash.0, count + 1);
        proof {
            assert(self@.resources.dom() =~= self@.strong_counts.dom());
            assert forall|h: u64| #[trigger] self@.pending_drops.contains(h) <==> (self@.strong_counts.contains_key(h) && self@.strong_counts[h] == 0) by {
                if h == hash.0 {
                    assert(!old(self)@.pending_drops.contains(h));
                }
            }
        }
        Some(new_arc(hash))
    }

    /// A second handle to the resource of `arc`.
    pub fn clone_arc(&mut self, arc: &ResourceArc<ResourceT>) -> (r: Option<ResourceArc<ResourceT>>)
        requires
            old(self).wf(),
        ensures
            final(self).wf(),
            r is Some <==> is_live(old(self)@, arc.spec_hash()) && old(self)@.strong_counts[arc.spec_hash()] < u64::MAX,
            r is Some ==> r->0.spec_hash() == arc.spec_hash(),
            r is Some ==> final(self)@ == (LookupModel {
                strong_counts: old(self)@.strong_counts.insert(arc.spec_hash(), (old(self)@.strong_counts[arc.spec_hash()] + 1) as u64),
                ..old(self)@
            }),
            r is None ==> final(self)@ == old(self)@,
    {
        self.acquire(arc.resource_hash)
    }

    /// Drops a handle. When it was the last one, the resource is queued to be retired.
    pub fn drop_arc(&mut self, arc: ResourceArc<ResourceT>)
        requires
            old(self).wf(),
        ensures
            final(self).wf(),
            is_live(old(self)@, arc.spec_hash()) ==> final(self)@ == (LookupModel {
                strong_counts: old(self)@.strong_counts.insert(arc.spec_hash(), (old(self)@.strong_counts[arc.spec_hash()] - 1) as u64),
                pending_drops: if old(self)@.strong_counts[arc.spec_hash()] == 1 {
                    old(self)@.pending_drops.push(arc.spec_hash())
                } else {
                    old(self)@.pending_drops
                },
                ..old(self)@
            }),
            !is_live(old(self)@, arc.spec_hash()) ==> final(self)@ == old(self)@,
            final(self)@ == spec_drop(old(self)@, arc.spec_hash()),
    {
        let h = arc.resource_hash.0;
        let count = match self.strong_counts.get(&h) {
            Some(c) => *c,
            None => {
                return;
            },
        };
        if count == 0 {
            return;
        }
        self.strong_counts.insert(h, count - 1);
        if count == 1 {
            proof {
                assert(!old(self)@.pending_drops.contains(h));
            }
            self.pending_drops.push(h);
        }
        proof {
            assert(self@.resources.dom() =~= self@.strong_counts.dom());
            assert forall|x: u64| #[trigger] self@.pending_drops.contains(x) <==> (self@.strong_counts.contains_key(x) && self@.strong_counts[x] == 0) by {
                if x != h {
                    if self@.pending_drops.contains(x) {
                        let i = choose|i: int| 0 <= i < self@.pending_drops.len() && self@.pending_drops[i] == x;
                        assert(old(self)@.pending_drops[i] == x);
                    }
                    if old(self)@.pending_drops.contains(x) {
                        let i = choose|i: int| 0 <= i < old(self)@.pending_drops.len() && old(self)@.pending_drops[i] == x;
                        assert(self@.pending_drops[i] == x);
                    }
                } else if count == 1 {
                    assert(self@.pending_drops[self@.pending_drops.len() - 1] == h);
                } else {
                    assert(!old(self)@.pending_drops.contains(h));
                }
            }
        }
    }

    /// The resource stored under a hash.
    pub fn resource_at(&self, hash: ResourceHash) -> (r: Option<&ResourceT>)
        ensures
            r is Some <==> self@.resources.contains_key(hash.0),
            r is Some ==> *r->0 == self@.resources[hash.0],
    {
        self.resources.get(&hash.0)
    }

    /// The resource a handle refers to.
    pub fn resource(&self, arc: &ResourceArc<ResourceT>) -> (r: Option<&ResourceT>)
        ensures
            r is Some <==> self@.resources.contains_key(arc.spec_hash()),
            r is Some ==> *r->0 == self@.resources[arc.spec_hash()],
    {
        self.resources.get(&arc.resource_hash.0)
    }
}


/// How many resources a lookup holds, and how often it was used up to the last completed frame.
#[derive(Clone, Copy, Debug, PartialEq, Eq, Structural)]
pub struct ResourceLookupMetric {
    pub count: usize,
    pub previous_frame_lock_call_count: u64,
}

/// The metric a lookup in state `m` reports: how many resources it holds and how often it was
/// used in the last completed frame.
pub open spec fn metric_of<R>(m: LookupModel<R>) -> ResourceLookupMetric {
    ResourceLookupMetric { count: m.resources.len() as usize, previous_frame_lock_call_count: m.lock_call_count_previous_frame }
}

/// The lookup in state `m` after `destroy`: dropped handles are retired and nothing is left in
/// flight.
pub open spec fn spec_destroyed<R>(m: LookupModel<R>) -> LookupModel<R> {
    let dropped = spec_handle_dropped(LookupModel { lock_call_count: wrapping_inc(m.lock_call_count), ..m });
    LookupModel { in_flight: Seq::empty(), ..dropped }
}

/// What `destroy` hands back, in state `m`, for the caller to destroy: every retired resource.
pub open spec fn spec_destroy_released<R>(m: LookupModel<R>) -> Seq<R> {
    let dropped = spec_handle_dropped(LookupModel { lock_call_count: wrapping_inc(m.lock_call_count), ..m });
    dropped.in_flight.map_values(|x: RetiredResource<R>| x.resource)
}

/// Splits the retired resources into those released now and those still waiting.
fn complete_frame<ResourceT>(in_flight: Vec<RetiredResource<ResourceT>>) -> (r: (Vec<ResourceT>, Vec<RetiredResource<ResourceT>>))
    ensures
        r.0@ == expired(in_flight@),
        r.1@ == still_waiting(in_flight@),
{
    let ghost s = in_flight@;
    let mut remaining = in_flight;
    let mut destroyed: Vec<ResourceT> = Vec::new();
    let mut kept: Vec<RetiredResource<ResourceT>> = Vec::new();
    let n = remaining.len();
    for i in 0..n
        invariant
            n == s.len(),
            remaining@ == s.skip(i as int),
            destroyed@ == expired(s.take(i as int)),
            kept@ == still_waiting(s.take(i as int)),
    {
        proof {
            assert(s.take(i + 1).drop_last() =~= s.take(i as int));
            assert(s.take(i + 1).last() == s[i as int]);
        }
        let r = remaining.remove(0);
        proof {
            assert(remaining@ =~= s.skip(i + 1));
        }
        if r.frames_left <= 1 {
            destroyed.push(r.resource);
        } else {
            kept.push(RetiredResource { resource: r.resource, frames_left: r.frames_left - 1 });
        }
    }
    proof {
        assert(s.take(n as int) =~= s);
    }
    (destroyed, kept)
}

impl<KeyT, ResourceT> ResourceLookup<KeyT, ResourceT> {
    /// Retires every resource whose last handle was dropped, in the order they were dropped.
    fn handle_dropped_resources(&mut self)
        requires
            old(self).wf(),
        ensures
            final(self).wf(),
            final(self)@ == spec_handle_dropped(old(self)@),
    {
        let ghost m = self@;
        let mut pending: Vec<u64> = Vec::new();
        std::mem::swap(&mut pending, &mut self.pending_drops);
        let n = pending.len();
        for i in 0..n
            invariant
                n == pending@.len(),
                pending@ == m.pending_drops,
                lookup_wf(m),
                self.pending_drops@ == Seq::<u64>::empty(),
                self.max_frames_in_flight == m.max_frames_in_flight,
                self.lock_call_count == m.lock_call_count,
                self.lock_call_count_previous_frame == m.lock_call_count_previous_frame,
                self.resources@ == m.resources.remove_keys(pending@.take(i as int).to_set()),
                self.strong_counts@ == m.strong_counts.remove_keys(pending@.take(i as int).to_set()),
                self.in_flight@ == m.in_flight + pending@.take(i as int).map_values(|h: u64| RetiredResource { resource: m.resources[h], frames_left: m.max_frames_in_flight }),
        {
            let h = pending[i];
            proof {
                assert(m.pending_drops.contains(h));
                assert(!pending@.take(i as int).contains(h)) by {
                    if pending@.take(i as int).contains(h) {
                        let j = choose|j: int| 0 <= j < i && pending@.take(i as int)[j] == h;
                        assert(pending@[j] == pending@[i as int]);
                    }
                }
                assert(pending@.take(i + 1).to_set() =~= pending@.take(i as int).to_set().insert(h)) by {
                    assert(pending@.take(i + 1) =~= pending@.take(i as int).push(h));
                    pending@.take(i as int).lemma_push_to_set_commute(h);
                }
            }
            let removed = self.resources.remove(&h);
            self.strong_counts.remove(&h);
            match removed {
                Some(resource) => {
                    self.in_flight.push(RetiredResource { resource, frames_left: self.max_frames_in_flight });
                },
                None => {
                    proof {
                        assert(false);
                    }
                },
            }
            proof {
                assert(self.resources@ =~= m.resources.remove_keys(pending@.take(i + 1).to_set()));
                assert(self.strong_counts@ =~= m.strong_counts.remove_keys(pending@.take(i + 1).to_set()));
                assert(pending@.take(i + 1).map_values(|h: u64| RetiredResource { resource: m.resources[h], frames_left: m.max_frames_in_flight })
                    =~= pending@.take(i as int).map_values(|h: u64| RetiredResource { resource: m.resources[h], frames_left: m.max_frames_in_flight }).push(RetiredResource { resource: m.resources[h], frames_left: m.max_frames_in_flight }));
            }
        }
        proof {
            assert(pending@.take(n as int) =~= pending@);
            assert(self@ =~= spec_handle_dropped(m));
            assert(self@.resources.dom() =~= self@.strong_counts.dom());
            assert forall|h: u64| #[trigger] self@.pending_drops.contains(h) <==> (self@.strong_counts.contains_key(h) && self@.strong_counts[h] == 0) by {
                if self@.strong_counts.contains_key(h) && self@.strong_counts[h] == 0 {
                    assert(m.strong_counts.contains_key(h) && m.strong_counts[h] == 0);
                    assert(m.pending_drops.contains(h));
                    assert(m.pending_drops.to_set().contains(h));
                }
            }
        }
    }

    /// The live resource with this hash, or a new one made by `create_resource_fn`. Before
    /// creating, the resources whose last handle was dropped are retired.
    pub fn get_or_create<F>(&mut self, hash: ResourceHash, _key: &KeyT, create_resource_fn: F) -> (r: Result<ResourceArc<ResourceT>, VkError>)
        where
            F: FnOnce() -> Result<ResourceT, VkError>,
        requires
            old(self).wf(),
            create_resource_fn.requires(()),
        ensures
            final(self).wf(),
            final(self)@.lock_call_count == wrapping_inc(old(self)@.lock_call_count),
            get_or_create_step(LookupModel { lock_call_count: final(self)@.lock_call_count, ..old(self)@ }, hash.0, final(self)@, r),
            !is_live(old(self)@, hash.0) ==> match r {
                Ok(arc) => create_resource_fn.ensures((), Ok::<ResourceT, VkError>(final(self)@.resources[hash.0])),
                Err(e) => create_resource_fn.ensures((), Err::<ResourceT, VkError>(e)),
            },
    {
        self.lock_call_count = self.lock_call_count.wrapping_add(1);
        let ghost m0 = self@;
        match self.strong_counts.get(&hash.0) {
            Some(c) => {
                if *c == u64::MAX {
                    return Err(VkError(VK_ERROR_TOO_MANY_OBJECTS));
                }
            },
            None => {},
        }
        match self.acquire(hash) {
            Some(arc) => {
                return Ok(arc);
            },
            None => {},
        }
        // Retire what was dropped first, so that a pending drop cannot remove what is about to
        // be inserted.
        self.handle_dropped_resources();
        let ghost dropped = self@;
        proof {
            assert(!self@.strong_counts.contains_key(hash.0)) by {
                if m0.strong_counts.contains_key(hash.0) {
                    assert(m0.strong_counts[hash.0] == 0);
                    assert(m0.pending_drops.contains(hash.0));
                    assert(m0.pending_drops.to_set().contains(hash.0));
                }
            }
        }
        let resource = match create_resource_fn() {
            Ok(resource) => resource,
            Err(e) => {
                return Err(e);
            },
        };
        let old = self.resources.insert(hash.0, resource);
        self.strong_counts.insert(hash.0, 1);
        proof {
            assert(old is None);
            assert(self@.resources.dom() =~= self@.strong_counts.dom());
            assert forall|x: u64| #[trigger] self@.pending_drops.contains(x) <==> (self@.strong_counts.contains_key(x) && self@.strong_counts[x] == 0) by {
                if x != hash.0 && self@.strong_counts.contains_key(x) {
                    assert(dropped.strong_counts.contains_key(x));
                }
            }
        }
        Ok(new_arc(hash))
    }

    /// A frame completed: retires what was dropped and returns the resources that no frame in
    /// flight can use anymore, for the caller to destroy.
    pub fn on_frame_complete(&mut self) -> (r: Vec<ResourceT>)
        requires
            old(self).wf(),
        ensures
            final(self).wf(),
            final(self)@ == spec_frame_complete(old(self)@),
            r@ == expired(spec_handle_dropped(old(self)@).in_flight),
    {
        self.lock_call_count = self.lock_call_count.wrapping_add(1);
        self.lock_call_count_previous_frame = self.lock_call_count.wrapping_add(1);
        self.handle_dropped_resources();
        let mut in_flight: Vec<RetiredResource<ResourceT>> = Vec::new();
        std::mem::swap(&mut in_flight, &mut self.in_flight);
        let (destroyed, kept) = complete_frame(in_flight);
        self.in_flight = kept;
        destroyed
    }

    /// The number of resources held and the use count of the last completed frame.
    pub fn metrics(&self) -> (r: ResourceLookupMetric)
        ensures
            r.count == self@.resources.len(),
            r.previous_frame_lock_call_count == self@.lock_call_count_previous_frame,
            r == metric_of(self@),
    {
        ResourceLookupMetric { count: self.resources.len(), previous_frame_lock_call_count: self.lock_call_count_previous_frame }
    }

    /// Retires what was dropped and returns every retired resource for the caller to destroy
    /// now, with the number of resources that still have handles (they leak).
    pub fn destroy(&mut self) -> (r: (Vec<ResourceT>, usize))
        requires
            old(self).wf(),
        ensures
            final(self).wf(),
            ({
                let dropped = spec_handle_dropped(LookupModel { lock_call_count: wrapping_inc(old(self)@.lock_call_count), ..old(self)@ });
                &&& r.0@ == dropped.in_flight.map_values(|x: RetiredResource<ResourceT>| x.resource)
                &&& r.1 == dropped.resources.len()
                &&& final(self)@ == (LookupModel { in_flight: Seq::empty(), ..dropped })
            }),
            r.0@ == spec_destroy_released(old(self)@),
            final(self)@ == spec_destroyed(old(self)@),
    {
        self.lock_call_count = self.lock_call_count.wrapping_add(1);
        self.handle_dropped_resources();
        let leaked = self.resources.len();
        let mut in_flight: Vec<RetiredResource<ResourceT>> = Vec::new();
        std::mem::swap(&mut in_flight, &mut self.in_flight);
        let ghost s = in_flight@;
        let mut destroyed: Vec<ResourceT> = Vec::new();
        let mut remaining = in_flight;
        let n = remaining.len();
        for i in 0..n
            invariant
                n == s.len(),
                remaining@ == s.skip(i as int),
                destroyed@ == s.take(i as int).map_values(|x: RetiredResource<ResourceT>| x.resource),
        {
            let r = remaining.remove(0);
            proof {
                assert(remaining@ =~= s.skip(i + 1));
                assert(s.take(i + 1).map_values(|x: RetiredResource<ResourceT>| x.resource) =~= s.take(i as int).map_values(|x: RetiredResource<ResourceT>| x.resource).push(s[i as int].resource));
            }
            destroyed.push(r.resource);
        }
        proof {
            assert(s.take(n as int) =~= s);
        }
        (destroyed, leaked)
    }
}


/// The frame (counting from one) at whose completion a retired resource is released.
pub open spec fn release_frame<ResourceT>(r: RetiredResource<ResourceT>) -> nat {
    if r.frames_left <= 1 {
        1
    } else {
        r.frames_left as nat
    }
}

/// The retired resources released at the completion of frame `k`, in retirement order.
pub open spec fn released_at<ResourceT>(s: Seq<RetiredResource<ResourceT>>, k: nat) -> Seq<ResourceT>
    decreases s.len(),
{
    if s.len() == 0 {
        Seq::empty()
    } else {
        let prev = released_at(s.drop_last(), k);
        if release_frame(s.last()) == k {
            prev.push(s.last().resource)
        } else {
            prev
        }
    }
}

/// The retired resources still waiting after `j` frames complete with nothing newly retired.
pub open spec fn waiting_after<ResourceT>(s: Seq<RetiredResource<ResourceT>>, j: nat) -> Seq<RetiredResource<ResourceT>>
    decreases j,
{
    if j == 0 {
        s
    } else {
        waiting_after(still_waiting(s), (j - 1) as nat)
    }
}

proof fn lemma_first_frame<ResourceT>(s: Seq<RetiredResource<ResourceT>>)
    ensures
        expired(s) == released_at(s, 1),
    decreases s.len(),
{
    if s.len() > 0 {
        lemma_first_frame(s.drop_last());
    }
}

proof fn lemma_waiting_shifts<ResourceT>(s: Seq<RetiredResource<ResourceT>>, k: nat)
    requires
        k >= 2,
    ensures
        released_at(still_waiting(s), (k - 1) as nat) == released_at(s, k),
    decreases s.len(),
{
    if s.len() > 0 {
        lemma_waiting_shifts(s.drop_last(), k);
        let r = s.last();
        if r.frames_left > 1 {
            let sw = still_waiting(s);
            assert(sw.drop_last() == still_waiting(s.drop_last()));
        }
    }
}

/// Deferred release: with nothing newly retired, the `k`-th frame to complete releases exactly
/// the retired resources whose wait ends with it, those retired to wait `k` frames (or, for
/// the first frame, at most one), in the order they were retired.
pub proof fn lemma_release_after_frames<ResourceT>(s: Seq<RetiredResource<ResourceT>>, k: nat)
    requires
        k >= 1,
    ensures
        expired(waiting_after(s, (k - 1) as nat)) == released_at(s, k),
    decreases k,
{
    if k == 1 {
        lemma_first_frame(s);
    } else {
        lemma_release_after_frames(still_waiting(s), (k - 1) as nat);
        lemma_waiting_shifts(s, k);
    }
}


/// Asking twice for the same hash creates at most once: once a resource was handed out for a
/// hash, asking for it again (whatever the use count in between) hands out the same resource
/// with one more handle, as long as its handles can still be counted.
pub proof fn lemma_get_or_create_dedups<ResourceT>(
    m0: LookupModel<ResourceT>,
    m1: LookupModel<ResourceT>,
    m2: LookupModel<ResourceT>,
    h: u64,
    a: ResourceArc<ResourceT>,
    lock_call_count: u64,
    r2: Result<ResourceArc<ResourceT>, VkError>,
)
    requires
        get_or_create_step(m0, h, m1, Ok::<ResourceArc<ResourceT>, VkError>(a)),
        m1.strong_counts[h] < u64::MAX,
        get_or_create_step(LookupModel { lock_call_count, ..m1 }, h, m2, r2),
    ensures
        r2 is Ok,
        r2->Ok_0.spec_hash() == a.spec_hash(),
        m2.resources == m1.resources,
        m2.strong_counts[h] == m1.strong_counts[h] + 1,
{
    let m1b = LookupModel { lock_call_count, ..m1 };
    assert(is_live(m1, h));
    assert(is_live(m1b, h));
}

/// A get-or-create returned a handle to `h`: the resource is live, and it is the one that was
/// live before, if there was one.
pub open spec fn handed_out<ResourceT>(m0: LookupModel<ResourceT>, m1: LookupModel<ResourceT>, h: u64) -> bool {
    &&& is_live(m1, h)
    &&& is_live(m0, h) ==> m1.resources[h] == m0.resources[h]
}

impl<KeyT, ResourceT> ResourceLookup<KeyT, ResourceT> {
    /// Whether the resource with this hash has a handle.
    pub fn is_live_hash(&self, hash: ResourceHash) -> (r: bool)
        ensures
            r == is_live(self@, hash.0),
    {
        match self.strong_counts.get(&hash.0) {
            Some(c) => *c > 0,
            None => false,
        }
    }

    /// The number of handles of the resource with this hash.
    pub fn strong_count(&self, hash: ResourceHash) -> (r: u64)
        ensures
            self@.strong_counts.contains_key(hash.0) ==> r == self@.strong_counts[hash.0],
            !self@.strong_counts.contains_key(hash.0) ==> r == 0,
    {
        match self.strong_counts.get(&hash.0) {
            Some(c) => *c,
            None => 0,
        }
    }
}

} // verus!
