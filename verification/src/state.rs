//! What a host's scanner knows at one moment: the latest event for each block
//! device, the known pools, and the current mounts.
//!
//! The three collections are persistent collections of the `im` crate. Verus
//! does not look inside them: what each holds is given a name below, and the
//! functions at the end of this file state, without proof, what the methods
//! of `im` do to it.

use crate::mount::{Mount, MountView};
use crate::pool::{Pool, PoolView};
use crate::uevent::{UEvent, UEventView};
use vstd::prelude::*;

verus! {

/// `im::HashMap`: a persistent map.
#[verifier::external_type_specification]
#[verifier::external_body]
#[verifier::reject_recursive_types(K)]
#[verifier::reject_recursive_types(V)]
#[verifier::reject_recursive_types(S)]
pub struct ExHashMap<K, V, S>(im::HashMap<K, V, S>);

/// `im::HashSet`: a persistent set.
#[verifier::external_type_specification]
#[verifier::external_body]
#[verifier::reject_recursive_types(A)]
#[verifier::reject_recursive_types(S)]
pub struct ExHashSet<A, S>(im::HashSet<A, S>);

/// The latest event of each block device, by `devpath`.
pub type UEvents = im::HashMap<String, UEvent>;

/// The known pools, by GUID.
pub type ZedEvents = im::HashMap<u64, Pool>;

/// The current mounts.
pub type Mounts = im::HashSet<Mount>;

/// The events a map holds, by the text of their key.
pub uninterp spec fn uevent_map(m: im::HashMap<String, UEvent>) -> Map<Seq<char>, UEventView>;

/// The pools a map holds, by their key.
pub uninterp spec fn pool_map(m: im::HashMap<u64, Pool>) -> Map<u64, PoolView>;

/// The mounts a set holds.
pub uninterp spec fn mount_set(s: im::HashSet<Mount>) -> Set<MountView>;

/// The whole of a scanner's state.
#[derive(Debug)]
pub struct State {
    pub uevents: UEvents,
    pub zed_events: ZedEvents,
    pub local_mounts: Mounts,
}

/// Every event is stored under its own `devpath`.
pub open spec fn uevents_wf(m: Map<Seq<char>, UEventView>) -> bool {
    forall|k: Seq<char>| #[trigger] m.contains_key(k) ==> m[k].devpath == k
}

/// Every pool is stored under its own GUID.
pub open spec fn pools_wf(m: Map<u64, PoolView>) -> bool {
    forall|k: u64| #[trigger] m.contains_key(k) ==> m[k].guid == k
}

impl State {
    /// Each event is filed under its `devpath` and each pool under its GUID.
    pub open spec fn wf(&self) -> bool {
        uevents_wf(uevent_map(self.uevents)) && pools_wf(pool_map(self.zed_events))
    }

    /// The state of a scanner that has seen nothing yet.
    pub fn new() -> (s: State)
        ensures
            uevent_map(s.uevents) == (Map::<Seq<char>, UEventView>::empty()),
            pool_map(s.zed_events) == (Map::<u64, PoolView>::empty()),
            mount_set(s.local_mounts) == Set::<MountView>::empty(),
            s.wf(),
    {
        State { uevents: uevents_new(), zed_events: pools_new(), local_mounts: mounts_new() }
    }
}

/// `r` lists the bindings of `m`: each entry of `r` is a binding of `m`, each
/// key of `m` occurs in `r`, and none occurs twice.
pub open spec fn lists_map<K, V>(r: Seq<(K, V)>, m: Map<K, V>) -> bool {
    &&& forall|i: int| 0 <= i < r.len() ==> m.contains_pair((#[trigger] r[i]).0, r[i].1)
    &&& forall|k: K| m.contains_key(k) ==> exists|i: int| 0 <= i < r.len() && (#[trigger] r[i]).0 == k
    &&& forall|i: int, j: int| 0 <= i < j < r.len() ==> (#[trigger] r[i]).0 != (#[trigger] r[j]).0
}

/// `r` lists the members of `s`: each entry of `r` is in `s`, each member of
/// `s` occurs in `r`, and none occurs twice.
pub open spec fn lists_set<A>(r: Seq<A>, s: Set<A>) -> bool {
    &&& forall|i: int| 0 <= i < r.len() ==> s.contains(#[trigger] r[i])
    &&& forall|a: A| s.contains(a) ==> r.contains(a)
    &&& r.no_duplicates()
}

/// `im::HashMap::new`: a map that holds nothing.
#[verifier::external_body]
pub(crate) fn uevents_new() -> (r: UEvents)
    ensures
        uevent_map(r) == (Map::<Seq<char>, UEventView>::empty()),
{
    im::HashMap::new()
}

/// `im::HashMap::update`: a copy of the map in which `k` maps to `v`,
/// whether or not `k` was bound before; all other keys are as they were.
#[verifier::external_body]
pub(crate) fn uevents_update(m: &UEvents, k: String, v: UEvent) -> (r: UEvents)
    ensures
        uevent_map(r) == uevent_map(*m).insert(k@, v@),
{
    m.update(k, v)
}

/// `im::HashMap::without`: a copy of the map that lacks `k`; all other keys
/// are as they were.
#[verifier::external_body]
pub(crate) fn uevents_without(m: &UEvents, k: &String) -> (r: UEvents)
    ensures
        uevent_map(r) == uevent_map(*m).remove(k@),
{
    m.without(k)
}

/// `im::HashMap::iter`: the entries of the map, each key once, in an order
/// that `im` does not promise.
#[verifier::external_body]
pub(crate) fn uevents_entries(m: &UEvents) -> (r: Vec<(String, UEvent)>)
    ensures
        lists_map(r.deep_view(), uevent_map(*m)),
{
    m.iter().map(|(k, v)| (k.clone(), v.clone())).collect()
}

/// `im::HashMap::new`: a map that holds nothing.
#[verifier::external_body]
pub(crate) fn pools_new() -> (r: ZedEvents)
    ensures
        pool_map(r) == (Map::<u64, PoolView>::empty()),
{
    im::HashMap::new()
}

/// `im::HashMap::update`: a copy of the map in which `k` maps to `v`,
/// whether or not `k` was bound before; all other keys are as they were.
#[verifier::external_body]
pub(crate) fn pools_update(m: &ZedEvents, k: u64, v: Pool) -> (r: ZedEvents)
    ensures
        pool_map(r) == pool_map(*m).insert(k, v@),
{
    m.update(k, v)
}

/// `im::HashMap::remove`: takes the binding of `k` out of the map and hands
/// its value back, or leaves the map as it is and returns `None` where `k`
/// is not bound.
#[verifier::external_body]
pub(crate) fn pools_remove(m: &mut ZedEvents, k: u64) -> (r: Option<Pool>)
    ensures
        pool_map(*final(m)) == pool_map(*old(m)).remove(k),
        r is Some <==> pool_map(*old(m)).contains_key(k),
        r is Some ==> r->0@ == pool_map(*old(m))[k],
{
    m.remove(&k)
}

/// `Clone::clone` of an `im::HashMap`: a map with the same bindings.
#[verifier::external_body]
pub(crate) fn pools_clone(m: &ZedEvents) -> (r: ZedEvents)
    ensures
        pool_map(r) == pool_map(*m),
{
    m.clone()
}

/// `im::HashMap::iter`: the entries of the map, each key once, in an order
/// that `im` does not promise.
#[verifier::external_body]
pub(crate) fn pools_entries(m: &ZedEvents) -> (r: Vec<(u64, Pool)>)
    ensures
        lists_map(r.deep_view(), pool_map(*m)),
{
    m.iter().map(|(k, v)| (*k, v.clone())).collect()
}

/// `im::HashSet::new`: a set that holds nothing.
#[verifier::external_body]
pub(crate) fn mounts_new() -> (r: Mounts)
    ensures
        mount_set(r) == Set::<MountView>::empty(),
{
    im::HashSet::new()
}

/// `im::HashSet::update`: a copy of the set to which `a` is added.
#[verifier::external_body]
pub(crate) fn mounts_update(s: &Mounts, a: Mount) -> (r: Mounts)
    ensures
        mount_set(r) == mount_set(*s).insert(a@),
{
    s.update(a)
}

/// `im::HashSet::without`: a copy of the set from which `a` is taken away.
#[verifier::external_body]
pub(crate) fn mounts_without(s: &Mounts, a: &Mount) -> (r: Mounts)
    ensures
        mount_set(r) == mount_set(*s).remove(a@),
{
    s.without(a)
}

/// `im::HashSet::remove`: takes `a` out of the set, if it is there.
#[verifier::external_body]
pub(crate) fn mounts_remove(s: &mut Mounts, a: &Mount)
    ensures
        mount_set(*final(s)) == mount_set(*old(s)).remove(a@),
{
    s.remove(a);
}

/// `im::HashSet::iter`: the members of the set, each once, in an order that
/// `im` does not promise.
#[verifier::external_body]
pub(crate) fn mounts_items(s: &Mounts) -> (r: Vec<Mount>)
    ensures
        lists_set(r.deep_view(), mount_set(*s)),
{
    s.iter().cloned().collect()
}

} // verus!
