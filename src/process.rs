use vstd::prelude::*;
use crate::socket::{Protocol, SocketRecord, SocketModel, text_of, socket_models, copy_text, state_fits};

verus! {

/// What is known of a running process.
#[derive(Debug)]
pub struct ProcessInfo {
    pub pid: u32,
    pub name: String,
    /// Path of the executable, when the system exposes one.
    pub executable_path: Option<String>,
}

/// Mathematical model of a `ProcessInfo`.
pub struct ProcessModel {
    pub pid: u32,
    pub name: Seq<char>,
    pub executable_path: Option<Seq<char>>,
}

impl View for ProcessInfo {
    type V = ProcessModel;

    open spec fn view(&self) -> ProcessModel {
        ProcessModel { pid: self.pid, name: self.name@, executable_path: text_of(self.executable_path) }
    }
}

impl ProcessInfo {
    /// A copy with the same model.
    pub fn duplicate(&self) -> (r: ProcessInfo)
        ensures
            r@ == self@,
    {
        ProcessInfo {
            pid: self.pid,
            name: self.name.clone(),
            executable_path: copy_text(&self.executable_path),
        }
    }
}

/// A snapshot of the process table: at most one entry per process id.
pub struct ProcessTable {
    entries: Vec<ProcessInfo>,
    model: Ghost<Map<u32, ProcessModel>>,
}

impl View for ProcessTable {
    type V = Map<u32, ProcessModel>;

    closed spec fn view(&self) -> Map<u32, ProcessModel> {
        self.model@
    }
}

impl ProcessTable {
    /// Entries have distinct ids and the model maps each id to its entry.
    pub closed spec fn wf(&self) -> bool {
        &&& forall|i: int, j: int|
            0 <= i < self.entries@.len() && 0 <= j < self.entries@.len()
                && self.entries@[i].pid == self.entries@[j].pid ==> i == j
        &&& forall|i: int|
            0 <= i < self.entries@.len() ==> self.model@.contains_key(#[trigger] self.entries@[i].pid)
                && self.model@[self.entries@[i].pid] == self.entries@[i]@
        &&& forall|p: u32|
            #[trigger] self.model@.contains_key(p) ==> exists|i: int|
                0 <= i < self.entries@.len() && self.entries@[i].pid == p
        &&& forall|p: u32| #[trigger] self.model@.contains_key(p) ==> self.model@[p].pid == p
    }

    /// An empty snapshot.
    pub fn new() -> (r: ProcessTable)
        ensures
            r.wf(),
            r@ == Map::<u32, ProcessModel>::empty(),
    {
        ProcessTable { entries: Vec::new(), model: Ghost(Map::empty()) }
    }

    fn position(&self, pid: u32) -> (r: Option<usize>)
        requires
            self.wf(),
        ensures
            match r {
                Some(k) => k < self.entries@.len() && self.entries@[k as int].pid == pid,
                None => !self@.contains_key(pid),
            },
    {
        let mut i: usize = 0;
        while i < self.entries.len()
            invariant
                self.wf(),
                i <= self.entries@.len(),
                forall|k: int| 0 <= k < i ==> self.entries@[k].pid != pid,
            decreases self.entries.len() - i,
        {
            if self.entries[i].pid == pid {
                return Some(i);
            }
            i = i + 1;
        }
        None
    }

    /// Records `info`, replacing any earlier entry for the same process id.
    pub fn insert(&mut self, info: ProcessInfo)
        requires
            old(self).wf(),
        ensures
            final(self).wf(),
            final(self)@ == old(self)@.insert(info.pid, info@),
    {
        let ghost m = info@;
        let pid = info.pid;
        let ghost mut at: int = 0;
        match self.position(pid) {
            Some(k) => {
                self.entries.set(k, info);
                proof {
                    at = k as int;
                }
            },
            None => {
                self.entries.push(info);
                proof {
                    at = self.entries@.len() - 1;
                }
            },
        }
        assert(0 <= at < self.entries@.len() && self.entries@[at].pid == pid);
        self.model = Ghost(self.model@.insert(pid, m));
        assert forall|p: u32| #[trigger] self.model@.contains_key(p) implies exists|i: int|
            0 <= i < self.entries@.len() && self.entries@[i].pid == p by {
            if p != pid {
                let i = choose|i: int| 0 <= i < old(self).entries@.len() && old(self).entries@[i].pid == p;
                assert(self.entries@[i].pid == p);
            } else {
                assert(self.entries@[at].pid == p);
            }
        }
    }

    /// The entry for `pid`, or `None` when the snapshot has no such process.
    pub fn resolve(&self, pid: u32) -> (r: Option<ProcessInfo>)
        requires
            self.wf(),
        ensures
            match r {
                Some(info) => self@.contains_key(pid) && info@ == self@[pid],
                None => !self@.contains_key(pid),
            },
    {
        match self.position(pid) {
            Some(k) => Some(self.entries[k].duplicate()),
            None => None,
        }
    }
}

/// One line of a `who` report: a socket with one owner, or with no known owner.
#[derive(Debug)]
pub struct WhoLine {
    pub protocol: Protocol,
    pub port: u16,
    /// The owning process id; `None` when the kernel reported no owner.
    pub pid: Option<u32>,
    pub state: Option<String>,
    /// Process details; `None` when the owner is unknown or not in the snapshot.
    pub process: Option<ProcessInfo>,
}

/// Mathematical model of a `WhoLine`.
pub struct WhoModel {
    pub protocol: Protocol,
    pub port: u16,
    pub pid: Option<u32>,
    pub state: Option<Seq<char>>,
    pub process: Option<ProcessModel>,
}

pub open spec fn process_model(o: Option<ProcessInfo>) -> Option<ProcessModel> {
    match o {
        Some(info) => Some(info@),
        None => None,
    }
}

impl View for WhoLine {
    type V = WhoModel;

    open spec fn view(&self) -> WhoModel {
        WhoModel {
            protocol: self.protocol,
            port: self.port,
            pid: self.pid,
            state: text_of(self.state),
            process: process_model(self.process),
        }
    }
}

pub open spec fn who_models(v: Seq<WhoLine>) -> Seq<WhoModel> {
    v.map_values(|l: WhoLine| l@)
}

/// What the snapshot knows of `pid`.
pub open spec fn lookup(table: Map<u32, ProcessModel>, pid: u32) -> Option<ProcessModel> {
    if table.contains_key(pid) {
        Some(table[pid])
    } else {
        None
    }
}

/// The line for record `r` and one of its owners.
pub open spec fn owner_line(r: SocketModel, pid: u32, table: Map<u32, ProcessModel>) -> WhoModel {
    WhoModel {
        protocol: r.protocol,
        port: r.local_port,
        pid: Some(pid),
        state: r.state,
        process: lookup(table, pid),
    }
}

/// The lines for one record: one per owner, or a single owner-unknown line.
pub open spec fn lines_of_record(r: SocketModel, table: Map<u32, ProcessModel>) -> Seq<WhoModel> {
    if r.owning_pids.len() == 0 {
        seq![WhoModel { protocol: r.protocol, port: r.local_port, pid: None, state: r.state, process: None }]
    } else {
        r.owning_pids.map_values(|p: u32| owner_line(r, p, table))
    }
}

/// The lines for a list of records, record by record.
pub open spec fn lines_of(records: Seq<SocketModel>, table: Map<u32, ProcessModel>) -> Seq<WhoModel>
    decreases records.len(),
{
    if records.len() == 0 {
        Seq::empty()
    } else {
        lines_of(records.drop_last(), table) + lines_of_record(records.last(), table)
    }
}

/// Appends to `out` the lines that describe `rec`.
pub fn record_lines(rec: &SocketRecord, table: &ProcessTable, out: &mut Vec<WhoLine>)
    requires
        table.wf(),
    ensures
        who_models(final(out)@) == who_models(old(out)@) + lines_of_record(rec@, table@),
{
    let ghost start = who_models(out@);
    let pids = &rec.owning_pids;
    if pids.len() == 0 {
        let line = WhoLine {
            protocol: rec.protocol,
            port: rec.local_port,
            pid: None,
            state: copy_text(&rec.state),
            process: None,
        };
        out.push(line);
        assert(who_models(out@) =~= start + lines_of_record(rec@, table@));
        return;
    }
    let mut j: usize = 0;
    while j < pids.len()
        invariant
            pids == rec.owning_pids,
            table.wf(),
            j <= pids@.len(),
            who_models(out@) == start + pids@.subrange(0, j as int).map_values(
                |p: u32| owner_line(rec@, p, table@),
            ),
        decreases pids.len() - j,
    {
        let pid = pids[j];
        let line = WhoLine {
            protocol: rec.protocol,
            port: rec.local_port,
            pid: Some(pid),
            state: copy_text(&rec.state),
            process: table.resolve(pid),
        };
        let ghost before = who_models(out@);
        out.push(line);
        proof {
            assert(line@ == owner_line(rec@, pid, table@));
            assert(who_models(out@) =~= before.push(line@));
            assert(pids@.subrange(0, j + 1).map_values(|p: u32| owner_line(rec@, p, table@))
                =~= pids@.subrange(0, j as int).map_values(|p: u32| owner_line(rec@, p, table@)).push(
                line@,
            ));
        }
        j = j + 1;
    }
    assert(pids@.subrange(0, pids@.len() as int) =~= pids@);
}

/// The report lines for `records`, resolving owners against `table`.
pub fn who_lines(records: &Vec<SocketRecord>, table: &ProcessTable) -> (r: Vec<WhoLine>)
    requires
        table.wf(),
    ensures
        who_models(r@) == lines_of(socket_models(records@), table@),
{
    let ghost all = socket_models(records@);
    let mut r: Vec<WhoLine> = Vec::new();
    let mut i: usize = 0;
    assert(who_models(r@) =~= Seq::<WhoModel>::empty());
    while i < records.len()
        invariant
            table.wf(),
            i <= records.len(),
            all == socket_models(records@),
            who_models(r@) == lines_of(all.subrange(0, i as int), table@),
        decreases records.len() - i,
    {
        record_lines(&records[i], table, &mut r);
        proof {
            assert(all.subrange(0, i + 1).drop_last() =~= all.subrange(0, i as int));
            assert(all.subrange(0, i + 1).last() == records@[i as int]@);
        }
        i = i + 1;
    }
    assert(all.subrange(0, records.len() as int) =~= all);
    r
}

/// Lines keep the protocol and state of their record, so when every record
/// has a state exactly when it is TCP, so does every line.
pub proof fn lemma_lines_keep_state(records: Seq<SocketModel>, table: Map<u32, ProcessModel>)
    requires
        forall|i: int|
            0 <= i < records.len() ==> state_fits(
                (#[trigger] records[i]).protocol,
                records[i].state,
            ),
    ensures
        forall|k: int|
            0 <= k < lines_of(records, table).len() ==> state_fits(
                (#[trigger] lines_of(records, table)[k]).protocol,
                lines_of(records, table)[k].state,
            ),
    decreases records.len(),
{
    if records.len() > 0 {
        let rest = records.drop_last();
        let r = records.last();
        assert forall|i: int| 0 <= i < rest.len() implies state_fits(
            (#[trigger] rest[i]).protocol,
            rest[i].state,
        ) by {
            assert(rest[i] == records[i]);
        }
        lemma_lines_keep_state(rest, table);
        assert(state_fits(records[records.len() - 1].protocol, records[records.len() - 1].state));
        let a = lines_of(rest, table);
        let b = lines_of_record(r, table);
        assert forall|k: int| 0 <= k < (a + b).len() implies state_fits(
            (#[trigger] (a + b)[k]).protocol,
            (a + b)[k].state,
        ) by {
            if k < a.len() {
                assert((a + b)[k] == a[k]);
            } else {
                assert((a + b)[k] == b[k - a.len()]);
            }
        }
    }
}

/// An owner that the snapshot does not know still gets its line, marked as
/// having no process details.
pub proof fn law_unknown_owner_unavailable(r: SocketModel, pid: u32, table: Map<u32, ProcessModel>)
    requires
        r.owning_pids.contains(pid),
        !table.contains_key(pid),
    ensures
        lines_of_record(r, table).contains(
            WhoModel {
                protocol: r.protocol,
                port: r.local_port,
                pid: Some(pid),
                state: r.state,
                process: None,
            },
        ),
{
    let k = choose|k: int| 0 <= k < r.owning_pids.len() && r.owning_pids[k] == pid;
    assert(lines_of_record(r, table)[k] == owner_line(r, pid, table));
}

} // verus!
