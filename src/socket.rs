use vstd::prelude::*;

verus! {

/// Transport protocol of a socket.
#[derive(Clone, Copy, Debug, PartialEq, Eq, Structural)]
pub enum Protocol {
    Tcp,
    Udp,
}

/// Which protocols a query asks for.
#[derive(Clone, Copy, Debug, PartialEq, Eq, Structural)]
pub enum ProtoFilter {
    Tcp,
    Udp,
    Any,
}

/// Which address families a query reads.
#[derive(Clone, Copy, Debug, PartialEq, Eq, Structural)]
pub enum Families {
    Ipv4,
    Ipv6,
    Both,
}

/// One entry of the socket table: protocol, local port, TCP state and owners.
#[derive(Debug)]
pub struct SocketRecord {
    pub protocol: Protocol,
    pub local_port: u16,
    /// Connection state; present for TCP, absent for UDP.
    pub state: Option<String>,
    /// Process ids that the kernel associates with the socket (may be empty).
    pub owning_pids: Vec<u32>,
}

/// Mathematical model of a `SocketRecord`.
pub struct SocketModel {
    pub protocol: Protocol,
    pub local_port: u16,
    pub state: Option<Seq<char>>,
    pub owning_pids: Seq<u32>,
}

pub open spec fn text_of(o: Option<String>) -> Option<Seq<char>> {
    match o {
        Some(s) => Some(s@),
        None => None,
    }
}

impl View for SocketRecord {
    type V = SocketModel;

    open spec fn view(&self) -> SocketModel {
        SocketModel {
            protocol: self.protocol,
            local_port: self.local_port,
            state: text_of(self.state),
            owning_pids: self.owning_pids@,
        }
    }
}

pub open spec fn socket_models(v: Seq<SocketRecord>) -> Seq<SocketModel> {
    v.map_values(|r: SocketRecord| r@)
}

/// A TCP entry carries a connection state; a UDP entry none.
pub open spec fn state_fits(p: Protocol, state: Option<Seq<char>>) -> bool {
    (p == Protocol::Tcp) == (state is Some)
}

/// Whether a protocol is admitted by a filter.
pub open spec fn admits(filter: ProtoFilter, p: Protocol) -> bool {
    match filter {
        ProtoFilter::Tcp => p == Protocol::Tcp,
        ProtoFilter::Udp => p == Protocol::Udp,
        ProtoFilter::Any => true,
    }
}

/// Whether a record answers a query for `port` under `filter`.
pub open spec fn answers(r: SocketModel, port: u16, filter: ProtoFilter) -> bool {
    r.local_port == port && admits(filter, r.protocol)
}

/// The records that answer a query, in the order given.
pub open spec fn selected(records: Seq<SocketModel>, port: u16, filter: ProtoFilter) -> Seq<
    SocketModel,
> {
    records.filter(|r: SocketModel| answers(r, port, filter))
}

/// Every process id that owns at least one of the records.
pub open spec fn owners(records: Seq<SocketModel>) -> Set<u32> {
    Set::new(|p: u32| exists|i: int| 0 <= i < records.len() && records[i].owning_pids.contains(p))
}

fn protocol_admitted(filter: ProtoFilter, p: Protocol) -> (r: bool)
    ensures
        r == admits(filter, p),
{
    match filter {
        ProtoFilter::Tcp => p == Protocol::Tcp,
        ProtoFilter::Udp => p == Protocol::Udp,
        ProtoFilter::Any => true,
    }
}

pub(crate) fn copy_text(o: &Option<String>) -> (r: Option<String>)
    ensures
        text_of(r) == text_of(*o),
{
    match o {
        Some(s) => Some(s.clone()),
        None => None,
    }
}

fn copy_pids(v: &Vec<u32>) -> (r: Vec<u32>)
    ensures
        r@ == v@,
{
    let mut r: Vec<u32> = Vec::new();
    let mut i: usize = 0;
    while i < v.len()
        invariant
            i <= v.len(),
            r@ == v@.subrange(0, i as int),
        decreases v.len() - i,
    {
        r.push(v[i]);
        i = i + 1;
    }
    assert(r@ =~= v@);
    r
}

impl SocketRecord {
    /// A copy of the record with the same model.
    pub fn duplicate(&self) -> (r: SocketRecord)
        ensures
            r@ == self@,
    {
        SocketRecord {
            protocol: self.protocol,
            local_port: self.local_port,
            state: copy_text(&self.state),
            owning_pids: copy_pids(&self.owning_pids),
        }
    }
}

/// Keeps the records bound to `port` whose protocol `filter` admits.
pub fn select_records(records: &Vec<SocketRecord>, port: u16, filter: ProtoFilter) -> (r: Vec<
    SocketRecord,
>)
    ensures
        socket_models(r@) == selected(socket_models(records@), port, filter),
{
    let ghost all = socket_models(records@);
    let mut r: Vec<SocketRecord> = Vec::new();
    let mut i: usize = 0;
    while i < records.len()
        invariant
            i <= records.len(),
            all == socket_models(records@),
            socket_models(r@) == selected(all.subrange(0, i as int), port, filter),
        decreases records.len() - i,
    {
        let rec = &records[i];
        proof {
            assert(all.subrange(0, i + 1).drop_last() =~= all.subrange(0, i as int));
            assert(all.subrange(0, i + 1).last() == rec@);
            reveal_with_fuel(Seq::filter, 1);
        }
        if rec.local_port == port && protocol_admitted(filter, rec.protocol) {
            let c = rec.duplicate();
            let ghost before = r@;
            r.push(c);
            assert(socket_models(r@) =~= socket_models(before).push(c@));
        }
        i = i + 1;
    }
    assert(all.subrange(0, records.len() as int) =~= all);
    r
}

/// Whether `p` occurs in `v`.
fn contains_pid(v: &Vec<u32>, p: u32) -> (r: bool)
    ensures
        r == v@.contains(p),
{
    let mut i: usize = 0;
    while i < v.len()
        invariant
            i <= v.len(),
            forall|k: int| 0 <= k < i ==> v@[k] != p,
        decreases v.len() - i,
    {
        if v[i] == p {
            return true;
        }
        i = i + 1;
    }
    false
}

proof fn lemma_owners_push(s: Seq<SocketModel>, m: SocketModel)
    ensures
        owners(s.push(m)) == owners(s).union(m.owning_pids.to_set()),
{
    let t = s.push(m);
    assert forall|p: u32| owners(t).contains(p) <==> owners(s).contains(p) || m.owning_pids.contains(p) by {
        if owners(t).contains(p) {
            let i = choose|i: int| 0 <= i < t.len() && t[i].owning_pids.contains(p);
            if i < s.len() {
                assert(s[i] == t[i]);
            }
        }
        if owners(s).contains(p) {
            let i = choose|i: int| 0 <= i < s.len() && s[i].owning_pids.contains(p);
            assert(t[i] == s[i]);
        }
        if m.owning_pids.contains(p) {
            assert(t[s.len() as int] == m);
        }
    }
    assert(owners(t) =~= owners(s).union(m.owning_pids.to_set()));
}

/// The process ids that own any of `records`, each once.
pub fn extract_pids(records: &Vec<SocketRecord>) -> (r: Vec<u32>)
    ensures
        r@.no_duplicates(),
        r@.to_set() == owners(socket_models(records@)),
{
    let ghost all = socket_models(records@);
    let mut r: Vec<u32> = Vec::new();
    let mut i: usize = 0;
    while i < records.len()
        invariant
            i <= records.len(),
            all == socket_models(records@),
            r@.no_duplicates(),
            r@.to_set() == owners(all.subrange(0, i as int)),
        decreases records.len() - i,
    {
        let pids = &records[i].owning_pids;
        let ghost done = owners(all.subrange(0, i as int));
        let mut j: usize = 0;
        while j < pids.len()
            invariant
                i < records.len(),
                pids == records@[i as int].owning_pids,
                j <= pids.len(),
                r@.no_duplicates(),
                r@.to_set() == done.union(pids@.subrange(0, j as int).to_set()),
            decreases pids.len() - j,
        {
            let p = pids[j];
            let ghost before = r@;
            if !contains_pid(&r, p) {
                r.push(p);
                assert(r@.no_duplicates()) by {
                    assert forall|a: int, b: int| 0 <= a < b < r@.len() implies r@[a] != r@[b] by {
                        if b == before.len() {
                            assert(before.contains(before[a]));
                        }
                    }
                }
            }
            assert(r@.to_set() =~= done.union(pids@.subrange(0, j + 1).to_set())) by {
                assert(pids@.subrange(0, j + 1) =~= pids@.subrange(0, j as int).push(p));
                assert forall|x: u32| r@.contains(x) <==> before.contains(x) || x == p by {
                    if r@.contains(x) && !before.contains(x) {
                        let k = choose|k: int| 0 <= k < r@.len() && r@[k] == x;
                        if k < before.len() {
                            assert(before[k] == r@[k]);
                        }
                    }
                    if before.contains(x) {
                        let k = choose|k: int| 0 <= k < before.len() && before[k] == x;
                        assert(r@[k] == x);
                    }
                    if x == p && !before.contains(x) {
                        assert(r@[before.len() as int] == x);
                    }
                }
                assert forall|x: u32| pids@.subrange(0, j + 1).contains(x) <==> pids@.subrange(
                    0,
                    j as int,
                ).contains(x) || x == p by {
                    let s1 = pids@.subrange(0, j as int);
                    let s2 = pids@.subrange(0, j + 1);
                    if s2.contains(x) && x != p {
                        let k = choose|k: int| 0 <= k < s2.len() && s2[k] == x;
                        assert(s1[k] == x);
                    }
                    if s1.contains(x) {
                        let k = choose|k: int| 0 <= k < s1.len() && s1[k] == x;
                        assert(s2[k] == x);
                    }
                    if x == p {
                        assert(s2[j as int] == x);
                    }
                }
                let goal = done.union(pids@.subrange(0, j + 1).to_set());
                assert forall|x: u32| r@.to_set().contains(x) == goal.contains(x) by {
                    assert(before.to_set().contains(x) == done.union(
                        pids@.subrange(0, j as int).to_set(),
                    ).contains(x));
                }
            }
            j = j + 1;
        }
        proof {
            assert(pids@.subrange(0, pids@.len() as int) =~= pids@);
            assert(all.subrange(0, i + 1) =~= all.subrange(0, i as int).push(all[i as int]));
            lemma_owners_push(all.subrange(0, i as int), all[i as int]);
        }
        i = i + 1;
    }
    assert(all.subrange(0, records.len() as int) =~= all);
    r
}

proof fn lemma_owners_same_records(a: Seq<SocketModel>, b: Seq<SocketModel>)
    requires
        forall|m: SocketModel| a.contains(m) ==> b.contains(m),
    ensures
        owners(a).subset_of(owners(b)),
{
    assert forall|p: u32| owners(a).contains(p) implies owners(b).contains(p) by {
        let i = choose|i: int| 0 <= i < a.len() && a[i].owning_pids.contains(p);
        assert(a.contains(a[i]));
        let j = choose|j: int| 0 <= j < b.len() && b[j] == a[i];
        assert(b[j].owning_pids.contains(p));
    }
}

/// The owners of a list of records do not depend on the order of the records:
/// any permutation of the list has the same owners.
pub proof fn law_owners_order_independent(a: Seq<SocketModel>, b: Seq<SocketModel>)
    requires
        a.to_multiset() == b.to_multiset(),
    ensures
        owners(a) == owners(b),
{
    broadcast use vstd::seq_lib::group_to_multiset_ensures;

    assert forall|m: SocketModel| a.contains(m) <==> b.contains(m) by {
        assert(a.contains(m) <==> a.to_multiset().count(m) > 0);
        assert(b.contains(m) <==> b.to_multiset().count(m) > 0);
    }
    lemma_owners_same_records(a, b);
    lemma_owners_same_records(b, a);
    assert(owners(a) =~= owners(b));
}

/// Taking the union of owners is idempotent: listing every record twice
/// gives the same owners as listing each once.
pub proof fn law_owners_idempotent(a: Seq<SocketModel>)
    ensures
        owners(a + a) == owners(a),
{
    let d = a + a;
    assert forall|m: SocketModel| d.contains(m) implies a.contains(m) by {
        {
            let i = choose|i: int| 0 <= i < d.len() && d[i] == m;
            if i < a.len() {
                assert(a[i] == m);
            } else {
                assert(a[i - a.len()] == m);
            }
        }
    }
    assert forall|m: SocketModel| a.contains(m) implies d.contains(m) by {
        {
            let i = choose|i: int| 0 <= i < a.len() && a[i] == m;
            assert(d[i] == m);
        }
    }
    lemma_owners_same_records(a, d);
    lemma_owners_same_records(d, a);
    assert(owners(d) =~= owners(a));
}

/// A port that no record is bound to selects no record and has no owner.
pub proof fn law_unbound_port_selects_nothing(
    records: Seq<SocketModel>,
    port: u16,
    filter: ProtoFilter,
)
    requires
        forall|i: int| 0 <= i < records.len() ==> records[i].local_port != port,
    ensures
        selected(records, port, filter) == Seq::<SocketModel>::empty(),
        owners(selected(records, port, filter)) == Set::<u32>::empty(),
{
    let s = selected(records, port, filter);
    if s.len() > 0 {
        records.lemma_filter_pred(|r: SocketModel| answers(r, port, filter), 0);
        assert(answers(s[0], port, filter));
        lemma_filter_member(records, port, filter, 0);
    }
    assert(s =~= Seq::<SocketModel>::empty());
    assert(owners(s) =~= Set::<u32>::empty());
}

pub(crate) proof fn lemma_filter_member(records: Seq<SocketModel>, port: u16, filter: ProtoFilter, i: int)
    requires
        0 <= i < selected(records, port, filter).len(),
    ensures
        records.contains(selected(records, port, filter)[i]),
    decreases records.len(),
{
    reveal_with_fuel(Seq::filter, 1);
    let s = selected(records, port, filter);
    if records.len() > 0 {
        let rest = records.drop_last();
        let t = selected(rest, port, filter);
        if i < t.len() {
            lemma_filter_member(rest, port, filter, i);
            let k = choose|k: int| 0 <= k < rest.len() && rest[k] == t[i];
            assert(records[k] == rest[k]);
        } else {
            assert(records[records.len() - 1] == s[i]);
        }
    }
}

/// A socket as the kernel lists it, before its owners are known.
#[derive(Debug)]
pub struct RawSocket {
    pub protocol: Protocol,
    pub local_port: u16,
    pub state: Option<String>,
    /// The kernel's inode number for the socket.
    pub inode: u32,
}

/// Mathematical model of a `RawSocket`.
pub struct RawModel {
    pub protocol: Protocol,
    pub local_port: u16,
    pub state: Option<Seq<char>>,
    pub inode: u32,
}

impl View for RawSocket {
    type V = RawModel;

    open spec fn view(&self) -> RawModel {
        RawModel {
            protocol: self.protocol,
            local_port: self.local_port,
            state: text_of(self.state),
            inode: self.inode,
        }
    }
}

pub open spec fn raw_models(v: Seq<RawSocket>) -> Seq<RawModel> {
    v.map_values(|r: RawSocket| r@)
}

/// A process that holds a descriptor for the socket with inode `inode`.
#[derive(Clone, Copy, Debug, PartialEq, Eq, Structural)]
pub struct SocketOwner {
    pub inode: u32,
    pub pid: u32,
}

/// The ids of the processes that hold the socket `inode`, in the order listed.
pub open spec fn owners_of(inode: u32, owners: Seq<SocketOwner>) -> Seq<u32> {
    owners.filter(|o: SocketOwner| o.inode == inode).map_values(|o: SocketOwner| o.pid)
}

/// The record of a raw socket once its owners are attached.
pub open spec fn attached(r: RawModel, owners: Seq<SocketOwner>) -> SocketModel {
    SocketModel {
        protocol: r.protocol,
        local_port: r.local_port,
        state: r.state,
        owning_pids: owners_of(r.inode, owners),
    }
}

pub open spec fn attach_all(raw: Seq<RawModel>, owners: Seq<SocketOwner>) -> Seq<SocketModel> {
    raw.map_values(|r: RawModel| attached(r, owners))
}

fn pids_of_inode(inode: u32, owners: &Vec<SocketOwner>) -> (r: Vec<u32>)
    ensures
        r@ == owners_of(inode, owners@),
{
    let mut r: Vec<u32> = Vec::new();
    let mut i: usize = 0;
    while i < owners.len()
        invariant
            i <= owners@.len(),
            r@ == owners_of(inode, owners@.subrange(0, i as int)),
        decreases owners.len() - i,
    {
        let o = owners[i];
        proof {
            reveal_with_fuel(Seq::filter, 1);
            assert(owners@.subrange(0, i + 1).drop_last() =~= owners@.subrange(0, i as int));
            assert(owners@.subrange(0, i + 1).last() == o);
        }
        if o.inode == inode {
            let ghost before = r@;
            r.push(o.pid);
            let ghost f = owners@.subrange(0, i as int).filter(|o: SocketOwner| o.inode == inode);
            assert(f.push(o).map_values(|o: SocketOwner| o.pid) =~= f.map_values(
                |o: SocketOwner| o.pid,
            ).push(o.pid));
        }
        i = i + 1;
    }
    assert(owners@.subrange(0, owners@.len() as int) =~= owners@);
    r
}

/// Gives each raw socket the owners that `owners` lists for its inode.
pub fn attach_owners(raw: &Vec<RawSocket>, owners: &Vec<SocketOwner>) -> (r: Vec<SocketRecord>)
    ensures
        socket_models(r@) == attach_all(raw_models(raw@), owners@),
{
    let mut r: Vec<SocketRecord> = Vec::new();
    let mut i: usize = 0;
    while i < raw.len()
        invariant
            i <= raw@.len(),
            socket_models(r@) == attach_all(raw_models(raw@.subrange(0, i as int)), owners@),
        decreases raw.len() - i,
    {
        let s = &raw[i];
        let rec = SocketRecord {
            protocol: s.protocol,
            local_port: s.local_port,
            state: copy_text(&s.state),
            owning_pids: pids_of_inode(s.inode, owners),
        };
        let ghost before = r@;
        r.push(rec);
        assert(socket_models(r@) =~= socket_models(before).push(rec@));
        assert(raw_models(raw@.subrange(0, i + 1)) =~= raw_models(raw@.subrange(0, i as int)).push(s@));
        assert(attach_all(raw_models(raw@.subrange(0, i + 1)), owners@) =~= attach_all(
            raw_models(raw@.subrange(0, i as int)),
            owners@,
        ).push(attached(s@, owners@)));
        i = i + 1;
    }
    assert(raw@.subrange(0, raw@.len() as int) =~= raw@);
    r
}

} // verus!
