//! One step of the scanner: a command arrives, the state moves on, and the
//! step says what is to be written to whom. The caller owns the sockets: it
//! reads commands, hands them in one by one and sends what comes back.

use crate::command::Command;
use crate::devices::{Device, DeviceView};
use crate::error::Error;
use crate::graph::{bucket_devices, device_tree, of_class, tree_of, BucketsView};
use crate::mount::{Mount, MountView};
use crate::node::DeviceType;
use crate::pool::{Pool, PoolView};
use crate::reducers::mount::{next_mounts, update_mount};
use crate::reducers::udev::{next_uevents, update_udev};
use crate::reducers::zed::{next_pools, update_zed_events};
use crate::state::{
    lists_map, lists_set, mount_set, mounts_items, pool_map, pools_clone, pools_entries,
    uevent_map, uevents_entries, State, UEvents, ZedEvents,
};
use crate::uevent::{UEvent, UEventView};
use vstd::prelude::*;

verus! {

/// The usable events among the values of a listing, in its order.
pub open spec fn usable_values(es: Seq<(Seq<char>, UEventView)>) -> Seq<UEventView> {
    es.map_values(|e: (Seq<char>, UEventView)| e.1).filter(|x: UEventView| x.usable())
}

/// The pools of a listing, in its order.
pub open spec fn pool_values(ps: Seq<(u64, PoolView)>) -> Seq<PoolView> {
    ps.map_values(|p: (u64, PoolView)| p.1)
}

/// The events by class, and the pools beside them.
pub open spec fn buckets_of(evs: Seq<UEventView>, pools: Seq<PoolView>) -> BucketsView {
    BucketsView {
        dms: of_class(evs, DeviceType::VolumeGroup),
        mds: of_class(evs, DeviceType::MdRaid),
        mpaths: of_class(evs, DeviceType::Mpath),
        partitions: of_class(evs, DeviceType::Partition),
        pools,
        rest: of_class(evs, DeviceType::ScsiDevice),
    }
}

/// `t` is a device tree of the state: the tree over some listing of its
/// events, its pools and its mounts. The collections of the state have no
/// order of their own, so the order of siblings in the tree is not fixed.
pub open spec fn is_tree_of(
    t: DeviceView,
    uevents: Map<Seq<char>, UEventView>,
    pools: Map<u64, PoolView>,
    mounts: Set<MountView>,
) -> bool {
    exists|es: Seq<(Seq<char>, UEventView)>, ps: Seq<(u64, PoolView)>, ms: Seq<MountView>|
        #![trigger lists_map(es, uevents), lists_map(ps, pools), lists_set(ms, mounts)]
        lists_map(es, uevents) && lists_map(ps, pools) && lists_set(ms, mounts) && t == tree_of(
            buckets_of(usable_values(es), pool_values(ps)),
            ms,
        )
}

/// The usable events of the state, in the order in which the map hands them
/// out.
pub fn build_device_list(xs: &UEvents) -> (r: Vec<UEvent>)
    ensures
        exists|es: Seq<(Seq<char>, UEventView)>| #[trigger]
            lists_map(es, uevent_map(*xs)) && r.deep_view() == usable_values(es),
{
    let entries = uevents_entries(xs);
    let ghost es = entries.deep_view();
    let ghost vals = es.map_values(|e: (Seq<char>, UEventView)| e.1);
    let ghost keep = |x: UEventView| x.usable();
    let mut r: Vec<UEvent> = Vec::new();
    let mut i: usize = 0;
    proof {
        reveal(Seq::filter);
        assert(vals.subrange(0, 0) =~= Seq::<UEventView>::empty());
        assert(r.deep_view() =~= vals.subrange(0, 0).filter(keep));
    }
    while i < entries.len()
        invariant
            i <= entries.len(),
            es == entries.deep_view(),
            vals == es.map_values(|e: (Seq<char>, UEventView)| e.1),
            keep == |x: UEventView| x.usable(),
            r.deep_view() == vals.subrange(0, i as int).filter(keep),
        decreases entries.len() - i,
    {
        let ghost before = r.deep_view();
        let x = &entries[i].1;
        proof {
            assert(vals[i as int] == x@);
            assert(vals.subrange(0, i + 1) =~= vals.subrange(0, i as int).push(x@));
            vals.subrange(0, i as int).lemma_filter_push(x@, keep);
        }
        if x.keep_usable() {
            r.push(x.clone());
            assert(r.deep_view() =~= before.push(x@));
        }
        i += 1;
    }
    assert(vals.subrange(0, entries.len() as int) =~= vals);
    assert(lists_map(es, uevent_map(*xs)));
    r
}

/// The pools of the state, in the order in which the map hands them out.
fn pool_list(xs: &ZedEvents) -> (r: Vec<Pool>)
    ensures
        exists|ps: Seq<(u64, PoolView)>| #[trigger]
            lists_map(ps, pool_map(*xs)) && r.deep_view() == pool_values(ps),
{
    let entries = pools_entries(xs);
    let ghost ps = entries.deep_view();
    let mut r: Vec<Pool> = Vec::new();
    let mut i: usize = 0;
    while i < entries.len()
        invariant
            i <= entries.len(),
            r.len() == i,
            forall|j: int| 0 <= j < i ==> r[j]@ == entries[j].1@,
        decreases entries.len() - i,
    {
        r.push(entries[i].1.clone());
        i += 1;
    }
    assert(r.deep_view() =~= pool_values(ps));
    assert(lists_map(ps, pool_map(*xs)));
    r
}

impl State {
    /// Builds the device tree of the host from what the state holds.
    pub fn device_tree(&self) -> (root: Device)
        ensures
            is_tree_of(
                root@,
                uevent_map(self.uevents),
                pool_map(self.zed_events),
                mount_set(self.local_mounts),
            ),
    {
        let evs = build_device_list(&self.uevents);
        let pools = pool_list(&self.zed_events);
        let ms = mounts_items(&self.local_mounts);
        let b = bucket_devices(&evs, &pools);
        let root = device_tree(&b, &ms);
        proof {
            let es = choose|es: Seq<(Seq<char>, UEventView)>| #[trigger]
                lists_map(es, uevent_map(self.uevents)) && evs.deep_view() == usable_values(es);
            let ps = choose|ps: Seq<(u64, PoolView)>| #[trigger]
                lists_map(ps, pool_map(self.zed_events)) && pools.deep_view() == pool_values(ps);
            assert(b@ == buckets_of(usable_values(es), pool_values(ps)));
            assert(lists_map(es, uevent_map(self.uevents)) && lists_map(
                ps,
                pool_map(self.zed_events),
            ) && lists_set(ms.deep_view(), mount_set(self.local_mounts)));
        }
        root
    }
}

/// What a step asks the caller to write.
#[derive(Debug)]
pub enum Output {
    /// The current mounts, for the client that asked and for nobody else.
    Mounts(Vec<Mount>),
    /// The new device tree, for every subscriber.
    Tree(Device),
}

/// The result of a step.
#[derive(Debug)]
pub struct Step {
    /// The state after the command.
    pub state: State,
    /// Whether the connection the command came on joins the subscribers.
    pub subscribe: bool,
    /// What to write, or why the command failed.
    pub output: Result<Output, Error>,
}

/// Applies one command to the state.
///
/// `GetMounts` changes nothing and is answered with the mounts. Every other
/// command subscribes its connection; `Stream` changes nothing, the others
/// go to the reducer of their kind. A pool command that fails leaves the
/// state as it was and the failure is the output. Otherwise the output is
/// the device tree of the new state.
pub fn handler(state: State, cmd: Command) -> (r: Step)
    ensures
        uevent_map(r.state.uevents) == match cmd {
            Command::UdevCommand(x) => next_uevents(uevent_map(state.uevents), x@),
            _ => uevent_map(state.uevents),
        },
        mount_set(r.state.local_mounts) == match cmd {
            Command::MountCommand(x) => next_mounts(mount_set(state.local_mounts), x@),
            _ => mount_set(state.local_mounts),
        },
        pool_map(r.state.zed_events) == match cmd {
            Command::PoolCommand(x) => match next_pools(pool_map(state.zed_events), x@) {
                Ok(m) => m,
                Err(_) => pool_map(state.zed_events),
            },
            _ => pool_map(state.zed_events),
        },
        state.wf() ==> r.state.wf(),
        r.subscribe == !(cmd is GetMounts),
        match cmd {
            Command::GetMounts => r.output is Ok && r.output->Ok_0 is Mounts && lists_set(
                r.output->Ok_0->Mounts_0.deep_view(),
                mount_set(state.local_mounts),
            ),
            Command::PoolCommand(x) if next_pools(pool_map(state.zed_events), x@) is Err
                => r.output is Err && r.output->Err_0 == next_pools(
                pool_map(state.zed_events),
                x@,
            )->Err_0,
            _ => r.output is Ok && r.output->Ok_0 is Tree && is_tree_of(
                r.output->Ok_0->Tree_0@,
                uevent_map(r.state.uevents),
                pool_map(r.state.zed_events),
                mount_set(r.state.local_mounts),
            ),
        },
{
    let State { uevents, zed_events, local_mounts } = state;
    match cmd {
        Command::GetMounts => {
            let ms = mounts_items(&local_mounts);
            Step {
                state: State { uevents, zed_events, local_mounts },
                subscribe: false,
                output: Ok(Output::Mounts(ms)),
            }
        },
        Command::Stream => {
            let state = State { uevents, zed_events, local_mounts };
            let tree = state.device_tree();
            Step { state, subscribe: true, output: Ok(Output::Tree(tree)) }
        },
        Command::UdevCommand(x) => {
            let uevents = update_udev(&uevents, x);
            let state = State { uevents, zed_events, local_mounts };
            let tree = state.device_tree();
            Step { state, subscribe: true, output: Ok(Output::Tree(tree)) }
        },
        Command::MountCommand(x) => {
            let local_mounts = update_mount(local_mounts, x);
            let state = State { uevents, zed_events, local_mounts };
            let tree = state.device_tree();
            Step { state, subscribe: true, output: Ok(Output::Tree(tree)) }
        },
        Command::PoolCommand(x) => {
            let kept = pools_clone(&zed_events);
            match update_zed_events(zed_events, x) {
                Ok(zed_events) => {
                    let state = State { uevents, zed_events, local_mounts };
                    let tree = state.device_tree();
                    Step { state, subscribe: true, output: Ok(Output::Tree(tree)) }
                },
                Err(e) => Step {
                    state: State { uevents, zed_events: kept, local_mounts },
                    subscribe: true,
                    output: Err(e),
                },
            }
        },
    }
}

} // verus!
