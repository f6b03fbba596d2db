//! From the aggregator's graph to its records: the devices at the bottom of
//! the graph, each with the hosts that can use it.

use crate::dag::{get_all_node_children, get_all_node_parents, get_device, Dag, Graph};
use crate::hosts::{get_active_hosts, get_distinct_hosts};
use crate::db::{
    contains_row, create_records_from_device_and_hosts, record_of, row_of, rows_of, Device,
    DeviceHost, DeviceHostRow, DeviceRecord, HostUse,
};
use crate::error::Error;
use crate::node::{contains_host, DeviceView};
use vstd::prelude::*;

verus! {

/// A device of a kind that every host which sees it uses: a SCSI device, a
/// multipath device or a partition. The other kinds are used by one host at
/// a time.
pub open spec fn direct(d: DeviceView) -> bool {
    d is ScsiDevice || d is Mpath || d is Partition
}

impl Graph {
    /// Node `nx` is at the bottom of the graph: neither it nor any of its
    /// shared siblings has a child, and one of them has a parent.
    pub open spec fn leaf(self, nx: usize) -> bool {
        &&& nx < self.nodes.len()
        &&& forall|c: usize| !self.peer_child(nx, c)
        &&& exists|p: usize| self.peer_parent(nx, p)
    }

    /// The host called `h` can use the device at `nx`, and `active` says
    /// whether it uses it now. Every host that can use a device of a direct
    /// kind uses it. Of the hosts that can use another device, those use it
    /// that the device hangs below.
    pub open spec fn uses(self, nx: usize, h: Seq<char>, active: bool) -> bool {
        if direct(self.nodes[nx as int]) {
            active && self.distinct_host(nx, h)
        } else if active {
            self.active_host(nx, h)
        } else {
            self.distinct_host(nx, h) && !self.active_host(nx, h)
        }
    }

    /// Some SCSI ancestor of `nx`, or a shared sibling of one, has a parent
    /// that is not a host.
    pub open spec fn stray(self, nx: usize) -> bool {
        exists|s: usize| #[trigger] self.scsi_ancestor(nx, s) && self.peer_stray(s)
    }

    /// Some host can use the device at `nx`.
    pub open spec fn served(self, nx: usize) -> bool {
        exists|h: Seq<char>| self.distinct_host(nx, h)
    }

    /// The device at `nx` gets a record: it is at the bottom of the graph
    /// and some host can use it.
    pub open spec fn emits(self, nx: usize) -> bool {
        self.leaf(nx) && self.served(nx)
    }

    /// `rec` is the record of some device that gets one.
    pub open spec fn is_leaf_record(self, rec: (Seq<DeviceHostRow>, DeviceRecord)) -> bool {
        exists|nx: usize| #[trigger] self.emits(nx) && self.is_record(nx, rec)
    }

    /// `rec` is the record of the device at `nx`: the record of the device
    /// with one row for each host that can use it.
    #[verifier::opaque]
    pub open spec fn is_record(self, nx: usize, rec: (Seq<DeviceHostRow>, DeviceRecord)) -> bool {
        &&& rec.1 == record_of(self.nodes[nx as int])
        &&& rec.0.no_duplicates()
        &&& forall|row: DeviceHostRow| #[trigger]
            rec.0.contains(row) <==> exists|h: Seq<char>, active: bool| #[trigger]
                self.uses(nx, h, active) && row == row_of(self.nodes[nx as int], h, active)
    }
}

/// Two records are the same record: the same device with the same rows, in
/// whatever order.
#[verifier::opaque]
pub open spec fn same_record(
    a: (Seq<DeviceHostRow>, DeviceRecord),
    b: (Seq<DeviceHostRow>, DeviceRecord),
) -> bool {
    a.1 == b.1 && forall|row: DeviceHostRow| a.0.contains(row) <==> b.0.contains(row)
}

/// The hosts that can use the device at `nx`, each with the mark of whether
/// it uses it now. Fails with `NodeNotFound` where `nx` is not a node, with
/// `UnmountableRecord` for a host or a volume group, and with `HostNotFound`
/// where a SCSI device above `nx` has a parent that is not a host.
pub fn host_uses(dag: &Dag, nx: usize) -> (r: Result<Vec<HostUse>, Error>)
    ensures
        r is Ok <==> nx < dag@.nodes.len() && dag@.nodes[nx as int].mountable() && !dag@.stray(nx),
        r is Ok ==> r->Ok_0.deep_view().no_duplicates() && forall|h: Seq<char>, active: bool|
            r->Ok_0.deep_view().contains((h, active)) <==> #[trigger] dag@.uses(nx, h, active),
        r is Err ==> r->Err_0 == if nx >= dag@.nodes.len() {
            Error::NodeNotFound
        } else if !dag@.nodes[nx as int].mountable() {
            Error::UnmountableRecord
        } else {
            Error::HostNotFound
        },
{
    let ghost g = dag@;
    let d = get_device(dag, nx)?;
    if !d.is_mountable() {
        return Err(Error::UnmountableRecord);
    }
    let is_direct = match d {
        crate::node::Device::ScsiDevice(_) => true,
        crate::node::Device::Mpath(_) => true,
        crate::node::Device::Partition(_) => true,
        _ => false,
    };
    let distinct = get_distinct_hosts(dag, nx)?;
    let mut r: Vec<HostUse> = Vec::new();
    assert(r.deep_view() =~= Seq::<(Seq<char>, bool)>::empty());
    if is_direct {
        let mut i: usize = 0;
        while i < distinct.len()
            invariant
                i <= distinct.len(),
                r.len() == i,
                forall|j: int| 0 <= j < i ==> (#[trigger] r[j])@ == (distinct[j]@, true),
            decreases distinct.len() - i,
        {
            r.push(HostUse::Active(distinct[i].clone()));
            i += 1;
        }
        proof {
            lemma_marked_hosts(distinct.deep_view(), r.deep_view(), true);
            assert forall|h: Seq<char>, active: bool|
                r.deep_view().contains((h, active)) <==> #[trigger] g.uses(nx, h, active) by {}
        }
        Ok(r)
    } else {
        let active = match get_active_hosts(dag, nx) {
            Ok(a) => a,
            Err(e) => {
                return Err(e);
            },
        };
        let mut i: usize = 0;
        while i < active.len()
            invariant
                i <= active.len(),
                r.len() == i,
                forall|j: int| 0 <= j < i ==> (#[trigger] r[j])@ == (active[j]@, true),
            decreases active.len() - i,
        {
            r.push(HostUse::Active(active[i].clone()));
            i += 1;
        }
        let ghost first = r.deep_view();
        proof {
            lemma_marked_hosts(active.deep_view(), first, true);
        }
        let mut rest: Vec<HostUse> = Vec::new();
        let ghost mut kept: Seq<Seq<char>> = Seq::empty();
        let mut k: usize = 0;
        assert(rest.deep_view() =~= Seq::<(Seq<char>, bool)>::empty());
        while k < distinct.len()
            invariant
                k <= distinct.len(),
                distinct.deep_view().no_duplicates(),
                rest.len() == kept.len(),
                forall|j: int| 0 <= j < rest.len() ==> (#[trigger] rest[j])@ == (kept[j], false),
                kept.no_duplicates(),
                forall|h: Seq<char>|
                    kept.contains(h) <==> distinct.deep_view().subrange(0, k as int).contains(h)
                        && !active.deep_view().contains(h),
            decreases distinct.len() - k,
        {
            let ghost prefix = distinct.deep_view().subrange(0, k as int);
            let ghost next = distinct.deep_view().subrange(0, k + 1);
            let ghost name = distinct[k as int]@;
            let ghost kept_before = kept;
            proof {
                assert(next =~= prefix.push(name));
                assert(distinct.deep_view()[k as int] == name);
                assert(!prefix.contains(name)) by {
                    if prefix.contains(name) {
                        let j = choose|j: int| 0 <= j < prefix.len() && prefix[j] == name;
                        assert(distinct.deep_view()[j] == distinct.deep_view()[k as int]);
                    }
                }
                assert forall|h: Seq<char>| next.contains(h) <==> prefix.contains(h) || h
                    == name by {
                    if prefix.contains(h) {
                        let j = choose|j: int| 0 <= j < prefix.len() && prefix[j] == h;
                        assert(next[j] == h);
                    }
                    if h == name {
                        assert(next[k as int] == h);
                    }
                    if next.contains(h) {
                        let j = choose|j: int| 0 <= j < next.len() && next[j] == h;
                        if j < k {
                            assert(prefix[j] == h);
                        }
                    }
                }
            }
            if !contains_host(&active, &distinct[k]) {
                rest.push(HostUse::Inactive(distinct[k].clone()));
                proof {
                    kept = kept.push(name);
                    assert(!kept_before.contains(name));
                    assert(kept.no_duplicates()) by {
                        assert forall|i: int, j: int| 0 <= i < j < kept.len() implies kept[i]
                            != kept[j] by {
                            if j == kept_before.len() {
                                assert(kept_before.contains(kept_before[i]));
                            } else {
                                assert(kept_before[i] != kept_before[j]);
                            }
                        }
                    }
                    assert forall|h: Seq<char>|
                        kept.contains(h) <==> kept_before.contains(h) || h == name by {
                        if kept_before.contains(h) {
                            let j = choose|j: int| 0 <= j < kept_before.len() && kept_before[j] == h;
                            assert(kept[j] == h);
                        }
                        if h == name {
                            assert(kept[kept_before.len() as int] == h);
                        }
                        if kept.contains(h) {
                            let j = choose|j: int| 0 <= j < kept.len() && kept[j] == h;
                            if j < kept_before.len() {
                                assert(kept_before[j] == h);
                            }
                        }
                    }
                }
            }
            k += 1;
        }
        proof {
            assert(distinct.deep_view().subrange(0, distinct.len() as int)
                =~= distinct.deep_view());
            lemma_marked_hosts(kept, rest.deep_view(), false);
        }
        let ghost second = rest.deep_view();
        r.append(&mut rest);
        proof {
            assert(r.deep_view() =~= first + second);
            lemma_concat_members(first, second);
            assert(r.deep_view().no_duplicates()) by {
                assert forall|i: int, j: int|
                    0 <= i < j < r.deep_view().len() implies r.deep_view()[i]
                    != r.deep_view()[j] by {
                    if j < first.len() {
                        assert(first[i] != first[j]);
                    } else if i >= first.len() {
                        assert(second[i - first.len()] != second[j - first.len()]);
                    } else {
                        assert(first[i].1 == true) by {
                            assert(first.contains(first[i]));
                        }
                        assert(second[j - first.len()].1 == false) by {
                            assert(second.contains(second[j - first.len()]));
                        }
                    }
                }
            }
            assert forall|h: Seq<char>, a: bool|
                r.deep_view().contains((h, a)) <==> #[trigger] g.uses(nx, h, a) by {}
        }
        Ok(r)
    }
}

/// A list of hosts that all carry the same mark has the marked names of a
/// list of names without repetitions.
proof fn lemma_marked_hosts(names: Seq<Seq<char>>, marked: Seq<(Seq<char>, bool)>, mark: bool)
    requires
        names.no_duplicates(),
        marked.len() == names.len(),
        forall|j: int| 0 <= j < marked.len() ==> #[trigger] marked[j] == (names[j], mark),
    ensures
        marked.no_duplicates(),
        forall|h: Seq<char>, a: bool|
            #[trigger] marked.contains((h, a)) <==> a == mark && names.contains(h),
{
    assert forall|h: Seq<char>, a: bool| #[trigger] marked.contains((h, a)) <==> a == mark
        && names.contains(h) by {
        if marked.contains((h, a)) {
            let j = choose|j: int| 0 <= j < marked.len() && marked[j] == (h, a);
            assert(names[j] == h);
        }
        if a == mark && names.contains(h) {
            let j = choose|j: int| 0 <= j < names.len() && names[j] == h;
            assert(marked[j] == (h, a));
        }
    }
}

/// What two lists hold together is what either holds.
proof fn lemma_concat_members<A>(a: Seq<A>, b: Seq<A>)
    ensures
        forall|x: A| #[trigger] (a + b).contains(x) <==> a.contains(x) || b.contains(x),
{
    let c = a + b;
    assert forall|x: A| #[trigger] c.contains(x) <==> a.contains(x) || b.contains(x) by {
        if a.contains(x) {
            let j = choose|j: int| 0 <= j < a.len() && a[j] == x;
            assert(c[j] == x);
        }
        if b.contains(x) {
            let j = choose|j: int| 0 <= j < b.len() && b[j] == x;
            assert(c[a.len() + j] == x);
        }
        if c.contains(x) {
            let j = choose|j: int| 0 <= j < c.len() && c[j] == x;
            if j < a.len() {
                assert(a[j] == x);
            } else {
                assert(b[j - a.len()] == x);
            }
        }
    }
}

/// A row is among the rows of a device on a list of hosts exactly if it is
/// the row of one of the hosts.
proof fn lemma_rows_of_members(d: DeviceView, hs: Seq<(Seq<char>, bool)>, row: DeviceHostRow)
    ensures
        rows_of(d, hs).contains(row) <==> exists|h: Seq<char>, a: bool| #[trigger]
            hs.contains((h, a)) && row == row_of(d, h, a),
    decreases hs.len(),
{
    if hs.len() > 0 {
        let r = rows_of(d, hs.drop_last());
        let last = row_of(d, hs.last().0, hs.last().1);
        lemma_rows_of_members(d, hs.drop_last(), row);
        assert(hs.contains(hs.last())) by {
            assert(hs[hs.len() - 1] == hs.last());
        }
        if rows_of(d, hs).contains(row) {
            if r.contains(row) {
                let (h, a) = choose|h: Seq<char>, a: bool| #[trigger]
                    hs.drop_last().contains((h, a)) && row == row_of(d, h, a);
                let j = choose|j: int|
                    0 <= j < hs.drop_last().len() && hs.drop_last()[j] == (h, a);
                assert(hs[j] == (h, a));
                assert(hs.contains((h, a)) && row == row_of(d, h, a));
            } else {
                let j = choose|j: int| 0 <= j < r.push(last).len() && r.push(last)[j] == row;
                if j < r.len() {
                    assert(r[j] == row);
                }
                assert(hs.contains((hs.last().0, hs.last().1)) && row == row_of(
                    d,
                    hs.last().0,
                    hs.last().1,
                ));
            }
        }
        if exists|h: Seq<char>, a: bool| #[trigger] hs.contains((h, a)) && row == row_of(d, h, a) {
            let (h, a) = choose|h: Seq<char>, a: bool| #[trigger]
                hs.contains((h, a)) && row == row_of(d, h, a);
            let j = choose|j: int| 0 <= j < hs.len() && hs[j] == (h, a);
            if j < hs.len() - 1 {
                assert(hs.drop_last()[j] == (h, a));
                assert(hs.drop_last().contains((h, a)));
                assert(r.contains(row));
                if !r.contains(last) {
                    let m = choose|m: int| 0 <= m < r.len() && r[m] == row;
                    assert(r.push(last)[m] == row);
                }
            } else {
                if !r.contains(last) {
                    assert(r.push(last)[r.len() as int] == row);
                }
            }
        }
    }
}

/// No row occurs twice among the rows of a device on a list of hosts.
proof fn lemma_rows_of_distinct(d: DeviceView, hs: Seq<(Seq<char>, bool)>)
    ensures
        rows_of(d, hs).no_duplicates(),
    decreases hs.len(),
{
    if hs.len() > 0 {
        lemma_rows_of_distinct(d, hs.drop_last());
    }
}

/// Whether every row of `a` is among `b`.
fn rows_within(a: &Vec<DeviceHost>, b: &Vec<DeviceHost>) -> (r: bool)
    ensures
        r == forall|row: DeviceHostRow| a.deep_view().contains(row) ==> b.deep_view().contains(row),
{
    let mut i: usize = 0;
    while i < a.len()
        invariant
            i <= a.len(),
            forall|j: int| 0 <= j < i ==> b.deep_view().contains(#[trigger] a.deep_view()[j]),
        decreases a.len() - i,
    {
        if !contains_row(b, &a[i]) {
            assert(a.deep_view()[i as int] == a[i as int]@);
            assert(a.deep_view().contains(a[i as int]@));
            return false;
        }
        assert(a.deep_view()[i as int] == a[i as int]@);
        i += 1;
    }
    true
}

/// Whether two records are the same record.
fn same_records(a: &(Vec<DeviceHost>, Device), b: &(Vec<DeviceHost>, Device)) -> (r: bool)
    ensures
        r == same_record(a.deep_view(), b.deep_view()),
{
    let r = a.1.same(&b.1) && rows_within(&a.0, &b.0) && rows_within(&b.0, &a.0);
    proof {
        reveal(same_record);
        let x = a.deep_view();
        let y = b.deep_view();
        assert(x.0 == a.0.deep_view() && y.0 == b.0.deep_view());
        assert(x.1 == a.1@ && y.1 == b.1@);
        if r {
            assert forall|row: DeviceHostRow| x.0.contains(row) <==> y.0.contains(row) by {}
        }
        if same_record(x, y) {
            assert forall|row: DeviceHostRow| x.0.contains(row) implies y.0.contains(row) by {}
            assert forall|row: DeviceHostRow| y.0.contains(row) implies x.0.contains(row) by {}
        }
    }
    r
}

/// The place of a record that is the same record as `rec`, if there is one.
fn find_record(rs: &Vec<(Vec<DeviceHost>, Device)>, rec: &(Vec<DeviceHost>, Device)) -> (r: Option<
    usize,
>)
    ensures
        r is Some ==> r->0 < rs.len() && same_record(
            rs.deep_view()[r->0 as int],
            rec.deep_view(),
        ),
        r is None ==> forall|q: int|
            0 <= q < rs.len() ==> !same_record(#[trigger] rs.deep_view()[q], rec.deep_view()),
{
    let mut j: usize = 0;
    while j < rs.len()
        invariant
            j <= rs.len(),
            forall|q: int|
                0 <= q < j ==> !same_record(#[trigger] rs.deep_view()[q], rec.deep_view()),
        decreases rs.len() - j,
    {
        assert(rs.deep_view()[j as int] == rs[j as int].deep_view());
        if same_records(&rs[j], rec) {
            return Some(j);
        }
        j += 1;
    }
    None
}

/// The records `rs` are those of the leaves below `upto`: record `i` is the
/// record of the leaf `owner[i]`, every leaf below `upto` is fit for a
/// record and, if some host can use it, has its record at `slot`, and no
/// record occurs twice.
spec fn records_upto(
    g: Graph,
    rs: Seq<(Seq<DeviceHostRow>, DeviceRecord)>,
    owner: Seq<usize>,
    slot: Seq<int>,
    upto: usize,
) -> bool {
    &&& owner.len() == rs.len()
    &&& slot.len() == upto
    &&& forall|i: int|
        0 <= i < rs.len() ==> (#[trigger] owner[i]) < upto && g.emits(owner[i]) && g.is_record(
            owner[i],
            rs[i],
        )
    &&& forall|m: usize|
        m < upto && #[trigger] g.leaf(m) ==> {
            &&& g.nodes[m as int].mountable()
            &&& !g.stray(m)
            &&& g.served(m) ==> 0 <= slot[m as int] < rs.len() && g.is_record(
                m,
                rs[slot[m as int]],
            )
        }
    &&& forall|i: int, j: int|
        0 <= i < j < rs.len() ==> !same_record((#[trigger] rs[i]), (#[trigger] rs[j]))
}

proof fn lemma_records_skip(
    g: Graph,
    rs: Seq<(Seq<DeviceHostRow>, DeviceRecord)>,
    owner: Seq<usize>,
    slot: Seq<int>,
    nx: usize,
)
    requires
        records_upto(g, rs, owner, slot, nx),
        !g.emits(nx),
        g.leaf(nx) ==> !unfit(g, nx),
        nx < usize::MAX,
    ensures
        records_upto(g, rs, owner, slot.push(0), (nx + 1) as usize),
{
    let slot2 = slot.push(0);
    assert forall|m: usize| m < nx + 1 && #[trigger] g.leaf(m) implies {
        &&& g.nodes[m as int].mountable()
        &&& !g.stray(m)
        &&& g.served(m) ==> 0 <= slot2[m as int] < rs.len() && g.is_record(
            m,
            rs[slot2[m as int]],
        )
    } by {
        if m < nx {
            assert(slot2[m as int] == slot[m as int]);
        }
    }
}

proof fn lemma_records_known(
    g: Graph,
    rs: Seq<(Seq<DeviceHostRow>, DeviceRecord)>,
    owner: Seq<usize>,
    slot: Seq<int>,
    nx: usize,
    rec: (Seq<DeviceHostRow>, DeviceRecord),
    q: int,
)
    requires
        records_upto(g, rs, owner, slot, nx),
        g.emits(nx),
        g.nodes[nx as int].mountable(),
        !g.stray(nx),
        g.is_record(nx, rec),
        0 <= q < rs.len(),
        same_record(rs[q], rec),
        nx < usize::MAX,
    ensures
        records_upto(g, rs, owner, slot.push(q), (nx + 1) as usize),
{
    let slot2 = slot.push(q);
    assert(g.is_record(owner[q], rs[q]));
    assert(rs[q].0.no_duplicates()) by {
        reveal(Graph::is_record);
    }
    lemma_same_record_is_record(g, nx, rec, rs[q]);
    assert forall|m: usize| m < nx + 1 && #[trigger] g.leaf(m) implies {
        &&& g.nodes[m as int].mountable()
        &&& !g.stray(m)
        &&& g.served(m) ==> 0 <= slot2[m as int] < rs.len() && g.is_record(
            m,
            rs[slot2[m as int]],
        )
    } by {
        if m < nx {
            assert(slot2[m as int] == slot[m as int]);
        } else {
            assert(slot2[m as int] == q);
        }
    }
}

proof fn lemma_records_new(
    g: Graph,
    rs: Seq<(Seq<DeviceHostRow>, DeviceRecord)>,
    owner: Seq<usize>,
    slot: Seq<int>,
    nx: usize,
    rec: (Seq<DeviceHostRow>, DeviceRecord),
)
    requires
        records_upto(g, rs, owner, slot, nx),
        g.emits(nx),
        g.nodes[nx as int].mountable(),
        !g.stray(nx),
        g.is_record(nx, rec),
        forall|q: int| 0 <= q < rs.len() ==> !same_record(#[trigger] rs[q], rec),
        nx < usize::MAX,
    ensures
        records_upto(
            g,
            rs.push(rec),
            owner.push(nx),
            slot.push(rs.len() as int),
            (nx + 1) as usize,
        ),
{
    let rs2 = rs.push(rec);
    let owner2 = owner.push(nx);
    let slot2 = slot.push(rs.len() as int);
    assert forall|i: int| 0 <= i < rs2.len() implies (#[trigger] owner2[i]) < nx + 1 && g.emits(
        owner2[i],
    ) && g.is_record(owner2[i], rs2[i]) by {
        if i < rs.len() {
            assert(owner2[i] == owner[i] && rs2[i] == rs[i]);
        }
    }
    assert forall|m: usize| m < nx + 1 && #[trigger] g.leaf(m) implies {
        &&& g.nodes[m as int].mountable()
        &&& !g.stray(m)
        &&& g.served(m) ==> 0 <= slot2[m as int] < rs2.len() && g.is_record(
            m,
            rs2[slot2[m as int]],
        )
    } by {
        if m < nx {
            assert(slot2[m as int] == slot[m as int]);
            if g.served(m) {
                assert(rs2[slot[m as int]] == rs[slot[m as int]]);
            }
        } else {
            assert(slot2[m as int] == rs.len());
        }
    }
    assert forall|i: int, j: int| 0 <= i < j < rs2.len() implies !same_record(
        (#[trigger] rs2[i]),
        (#[trigger] rs2[j]),
    ) by {
        if j < rs.len() {
            assert(!same_record(rs[i], rs[j]));
        } else {
            assert(!same_record(rs[i], rec));
        }
    }
}

/// Whether some host can use the device at `nx`.
fn is_served(dag: &Dag, nx: usize) -> (r: bool)
    requires
        nx < dag@.nodes.len(),
        !dag@.stray(nx),
    ensures
        r == dag@.served(nx),
{
    match get_distinct_hosts(dag, nx) {
        Ok(hs) => {
            proof {
                if hs.len() > 0 {
                    assert(hs.deep_view().contains(hs.deep_view()[0]));
                    assert(dag@.distinct_host(nx, hs.deep_view()[0]));
                } else {
                    assert forall|h: Seq<char>| !dag@.distinct_host(nx, h) by {
                        if dag@.distinct_host(nx, h) {
                            assert(hs.deep_view().contains(h));
                        }
                    }
                }
            }
            hs.len() > 0
        },
        Err(_) => {
            proof {
                assert(false);
            }
            false
        },
    }
}

/// Whether the node is at the bottom of the graph.
fn is_leaf(dag: &Dag, nx: usize) -> (r: bool)
    requires
        nx < dag@.nodes.len(),
    ensures
        r == dag@.leaf(nx),
{
    let ghost g = dag@;
    let kids = get_all_node_children(dag, nx);
    let ups = get_all_node_parents(dag, nx);
    proof {
        if kids.len() > 0 {
            assert(kids@.contains(kids@[0]));
            assert(g.peer_child(nx, kids@[0]));
        }
        if ups.len() > 0 {
            assert(ups@.contains(ups@[0]));
            assert(g.peer_parent(nx, ups@[0]));
        }
        if ups.len() == 0 {
            assert forall|p: usize| !g.peer_parent(nx, p) by {
                if g.peer_parent(nx, p) {
                    assert(ups@.contains(p));
                }
            }
        }
        if kids.len() == 0 {
            assert forall|c: usize| !g.peer_child(nx, c) by {
                if g.peer_child(nx, c) {
                    assert(kids@.contains(c));
                }
            }
        }
    }
    kids.len() == 0 && ups.len() > 0
}


/// One record for each device at the bottom of the graph that some host can
/// use, with a row for each such host. A device at the bottom that no host
/// can use gives no record. Two devices with the same record give one
/// record. Fails with
/// `UnmountableRecord` where a host or a volume group is at the bottom, and
/// with `HostNotFound` where a SCSI device above a device at the bottom has
/// a parent that is not a host.
pub fn into_db_records(dag: &Dag) -> (r: Result<Vec<(Vec<DeviceHost>, Device)>, Error>)
    ensures
        r is Ok <==> all_fit(dag@),
        r is Ok ==> records_of(dag@, r->Ok_0.deep_view()),
        r is Err ==> exists|nx: usize| #[trigger]
            dag@.leaf(nx) && unfit(dag@, nx) && r->Err_0 == unfit_error(dag@, nx),
{
    let ghost g = dag@;
    let n = dag.node_count();
    let mut rs: Vec<(Vec<DeviceHost>, Device)> = Vec::new();
    let mut nx: usize = 0;
    let mut failed: Option<Error> = None;
    let ghost mut owner: Seq<usize> = Seq::empty();
    let ghost mut slot: Seq<int> = Seq::empty();
    while nx < n && failed.is_none()
        invariant
            nx <= n,
            n == g.nodes.len(),
            g == dag@,
            failed is None ==> records_upto(g, rs.deep_view(), owner, slot, nx),
            failed is Some ==> nx < n && g.leaf(nx) && unfit(g, nx) && failed->0 == unfit_error(
                g,
                nx,
            ),
        decreases
                n - nx,
                if failed is None {
                    1nat
                } else {
                    0nat
                },
    {
        if is_leaf(dag, nx) {
            match record_at(dag, nx) {
                Err(e) => {
                    failed = Some(e);
                },
                Ok(rec) => {
                    let ghost old_rs = rs.deep_view();
                    let ghost view = rec.deep_view();
                    if !is_served(dag, nx) {
                        proof {
                            lemma_records_skip(g, old_rs, owner, slot, nx);
                            slot = slot.push(0);
                        }
                    } else {
                        match find_record(&rs, &rec) {
                            Some(q) => {
                                proof {
                                    lemma_records_known(g, old_rs, owner, slot, nx, view, q as int);
                                    slot = slot.push(q as int);
                                }
                            },
                            None => {
                                rs.push(rec);
                                proof {
                                    assert(rs.deep_view() =~= old_rs.push(view));
                                    lemma_records_new(g, old_rs, owner, slot, nx, view);
                                    owner = owner.push(nx);
                                    slot = slot.push(old_rs.len() as int);
                                }
                            },
                        }
                    }
                    nx += 1;
                },
            }
        } else {
            proof {
                lemma_records_skip(g, rs.deep_view(), owner, slot, nx);
                slot = slot.push(0);
            }
            nx += 1;
        }
    }
    match failed {
        Some(e) => Err(e),
        None => {
            proof {
                lemma_records_done(g, rs.deep_view(), owner, slot);
            }
            Ok(rs)
        },
    }
}

/// Every device at the bottom of the graph is fit for a record.
pub open spec fn all_fit(g: Graph) -> bool {
    forall|nx: usize| #[trigger] g.leaf(nx) ==> !unfit(g, nx)
}

/// `rs` are the records of the graph: each is the record of a device at the
/// bottom of the graph that some host can use, each such device has its
/// record among them, and no record occurs twice. A device at the bottom
/// that no host can use has no record.
pub open spec fn records_of(g: Graph, rs: Seq<(Seq<DeviceHostRow>, DeviceRecord)>) -> bool {
    &&& forall|i: int| 0 <= i < rs.len() ==> #[trigger] g.is_leaf_record(rs[i])
    &&& forall|nx: usize|
        #![trigger g.emits(nx)]
        g.emits(nx) ==> exists|i: int|
            #![trigger rs[i]]
            0 <= i < rs.len() && g.is_record(nx, rs[i])
    &&& forall|i: int, j: int|
        #![trigger rs[i], rs[j]]
        0 <= i < j < rs.len() ==> !same_record(rs[i], rs[j])
}

proof fn lemma_records_done(
    g: Graph,
    rs: Seq<(Seq<DeviceHostRow>, DeviceRecord)>,
    owner: Seq<usize>,
    slot: Seq<int>,
)
    requires
        g.nodes.len() <= usize::MAX,
        records_upto(g, rs, owner, slot, g.nodes.len() as usize),
    ensures
        all_fit(g),
        records_of(g, rs),
{
    lemma_each_record_has_leaf(g, rs, owner);
    assert forall|m: usize| #[trigger] g.emits(m) implies 0 <= slot[m as int] < rs.len()
        && g.is_record(m, rs[slot[m as int]]) by {
        assert(g.leaf(m));
    }
    lemma_each_leaf_has_record(g, rs, slot);
}

proof fn lemma_each_record_has_leaf(
    g: Graph,
    rs: Seq<(Seq<DeviceHostRow>, DeviceRecord)>,
    owner: Seq<usize>,
)
    requires
        owner.len() == rs.len(),
        forall|i: int|
            0 <= i < rs.len() ==> g.emits(#[trigger] owner[i]) && g.is_record(owner[i], rs[i]),
    ensures
        forall|i: int| 0 <= i < rs.len() ==> #[trigger] g.is_leaf_record(rs[i]),
{
    assert forall|i: int| 0 <= i < rs.len() implies #[trigger] g.is_leaf_record(rs[i]) by {
        assert(g.emits(owner[i]) && g.is_record(owner[i], rs[i]));
    }
}

proof fn lemma_each_leaf_has_record(
    g: Graph,
    rs: Seq<(Seq<DeviceHostRow>, DeviceRecord)>,
    slot: Seq<int>,
)
    requires
        forall|m: usize| #[trigger]
            g.emits(m) ==> 0 <= slot[m as int] < rs.len() && g.is_record(m, rs[slot[m as int]]),
    ensures
        forall|nx: usize|
            #![trigger g.emits(nx)]
            g.emits(nx) ==> exists|i: int|
                #![trigger rs[i]]
                0 <= i < rs.len() && g.is_record(nx, rs[i]),
{
    assert forall|m: usize| #![trigger g.emits(m)] g.emits(m) implies exists|i: int|
        #![trigger rs[i]]
        0 <= i < rs.len() && g.is_record(m, rs[i]) by {
        let i = slot[m as int];
        assert(0 <= i < rs.len() && g.is_record(m, rs[i]));
    }
}

/// The device at `nx` is not fit for a record: it is a host or a volume
/// group, or a SCSI device above it has a parent that is not a host.
pub open spec fn unfit(g: Graph, nx: usize) -> bool {
    !g.nodes[nx as int].mountable() || g.stray(nx)
}

/// The error that an unfit device at `nx` gives.
pub open spec fn unfit_error(g: Graph, nx: usize) -> Error {
    if !g.nodes[nx as int].mountable() {
        Error::UnmountableRecord
    } else {
        Error::HostNotFound
    }
}

/// A record with the same device and the same rows as the record of a node
/// is a record of that node.
proof fn lemma_same_record_is_record(
    g: Graph,
    nx: usize,
    rec: (Seq<DeviceHostRow>, DeviceRecord),
    other: (Seq<DeviceHostRow>, DeviceRecord),
)
    requires
        g.is_record(nx, rec),
        same_record(other, rec),
        other.0.no_duplicates(),
    ensures
        g.is_record(nx, other),
{
    reveal(same_record);
    reveal(Graph::is_record);
    assert forall|row: DeviceHostRow| #[trigger]
        other.0.contains(row) <==> exists|h: Seq<char>, active: bool| #[trigger]
            g.uses(nx, h, active) && row == row_of(g.nodes[nx as int], h, active) by {
        assert(other.0.contains(row) <==> rec.0.contains(row));
    }
}

/// The record of the device at `nx`.
pub fn record_at(dag: &Dag, nx: usize) -> (r: Result<(Vec<DeviceHost>, Device), Error>)
    ensures
        r is Ok <==> nx < dag@.nodes.len() && dag@.nodes[nx as int].mountable() && !dag@.stray(nx),
        r is Ok ==> dag@.is_record(nx, r->Ok_0.deep_view()),
        r is Err ==> r->Err_0 == if nx >= dag@.nodes.len() {
            Error::NodeNotFound
        } else if !dag@.nodes[nx as int].mountable() {
            Error::UnmountableRecord
        } else {
            Error::HostNotFound
        },
{
    let ghost g = dag@;
    let hosts = host_uses(dag, nx)?;
    let d = get_device(dag, nx)?;
    let rec = create_records_from_device_and_hosts(d, &hosts)?;
    proof {
        reveal(Graph::is_record);
        let node = g.nodes[nx as int];
        lemma_rows_of_distinct(node, hosts.deep_view());
        assert forall|row: DeviceHostRow| #[trigger]
            rec.0.deep_view().contains(row) <==> exists|h: Seq<char>, active: bool| #[trigger]
                g.uses(nx, h, active) && row == row_of(node, h, active) by {
            lemma_rows_of_members(node, hosts.deep_view(), row);
            if rec.0.deep_view().contains(row) {
                let (h, a) = choose|h: Seq<char>, a: bool| #[trigger]
                    hosts.deep_view().contains((h, a)) && row == row_of(node, h, a);
                assert(g.uses(nx, h, a));
            }
            if exists|h: Seq<char>, active: bool| #[trigger]
                g.uses(nx, h, active) && row == row_of(node, h, active) {
                let (h, a) = choose|h: Seq<char>, active: bool| #[trigger]
                    g.uses(nx, h, active) && row == row_of(node, h, active);
                assert(hosts.deep_view().contains((h, a)));
            }
        }
    }
    Ok(rec)
}

} // verus!
