use vstd::prelude::*;
use crate::socket::{
    Families, ProtoFilter, Protocol, SocketRecord, SocketModel, SocketOwner, RawSocket, RawModel,
    raw_models, attach_all, attach_owners, attached, socket_models, selected, owners,
    select_records, extract_pids, law_unbound_port_selects_nothing, state_fits, lemma_filter_member,
};
use crate::process::{
    ProcessTable, ProcessModel, WhoLine, who_lines, who_models, lines_of, lemma_lines_keep_state,
};
use crate::terminate::{KillReport, kill_pids, outcomes_for, outcome_models};
use crate::os::{socket_table, record_of, enumeration_cause, process_snapshot, process_info};

verus! {

/// The socket table could not be read.
#[derive(Debug)]
pub struct EnumerationError {
    pub cause: String,
}

/// Turns one read of the socket table into raw sockets: an error exactly
/// when the read failed, else one raw socket per entry read.
pub fn records_from(res: Result<Vec<netstat2::SocketInfo>, netstat2::error::Error>) -> (r: Result<
    Vec<RawSocket>,
    EnumerationError,
>)
    ensures
        r is Err <==> res is Err,
        r matches Err(e) ==> e.cause@.len() > 0,
        r matches Ok(v) ==> (res matches Ok(infos) && v@.len() == infos@.len()),
        r matches Ok(v) ==> forall|i: int|
            0 <= i < v@.len() ==> state_fits(
                (#[trigger] raw_models(v@)[i]).protocol,
                raw_models(v@)[i].state,
            ),
{
    match res {
        Err(e) => Err(EnumerationError { cause: enumeration_cause(&e) }),
        Ok(infos) => {
            let mut v: Vec<RawSocket> = Vec::new();
            let mut i: usize = 0;
            while i < infos.len()
                invariant
                    i <= infos@.len(),
                    v@.len() == i,
                    forall|k: int|
                        0 <= k < v@.len() ==> ((#[trigger] v@[k]).protocol == Protocol::Tcp) == (
                        v@[k].state is Some),
                decreases infos.len() - i,
            {
                v.push(record_of(&infos[i]));
                i = i + 1;
            }
            assert forall|i: int| 0 <= i < v@.len() implies state_fits(
                (#[trigger] raw_models(v@)[i]).protocol,
                raw_models(v@)[i].state,
            ) by {
                assert(raw_models(v@)[i] == v@[i]@);
            }
            Ok(v)
        },
    }
}

/// Reads the socket table once (IPv4 and IPv6 sockets of the protocols that
/// `filter` names) and gives each socket the owners that `holders` lists for it.
pub fn socket_records(filter: ProtoFilter, holders: &Vec<SocketOwner>) -> (r: Result<
    Vec<SocketRecord>,
    EnumerationError,
>)
    ensures
        r matches Err(e) ==> e.cause@.len() > 0,
        r matches Ok(v) ==> exists|raw: Seq<RawModel>|
            socket_models(v@) == attach_all(raw, holders@),
        r matches Ok(v) ==> forall|i: int|
            0 <= i < v@.len() ==> state_fits(
                (#[trigger] socket_models(v@)[i]).protocol,
                socket_models(v@)[i].state,
            ),
{
    let raw = records_from(socket_table(Families::Both, filter))?;
    let v = attach_owners(&raw, holders);
    assert(raw_models(raw@).len() == raw@.len());
    assert(socket_models(v@).len() == v@.len());
    assert forall|i: int| 0 <= i < v@.len() implies state_fits(
        (#[trigger] socket_models(v@)[i]).protocol,
        socket_models(v@)[i].state,
    ) by {
        assert(socket_models(v@)[i] == attach_all(raw_models(raw@), holders@)[i]);
        assert(attach_all(raw_models(raw@), holders@)[i] == attached(raw_models(raw@)[i], holders@));
        assert(state_fits(raw_models(raw@)[i].protocol, raw_models(raw@)[i].state));
    }
    Ok(v)
}

/// A snapshot of the processes `pids` taken from `sys`; an id that `sys`
/// does not know has no entry.
pub fn capture(sys: &sysinfo::System, pids: &Vec<u32>) -> (r: ProcessTable)
    ensures
        r.wf(),
        forall|p: u32| #[trigger] r@.contains_key(p) ==> pids@.contains(p) && r@[p].pid == p,
{
    let mut table = ProcessTable::new();
    let mut i: usize = 0;
    while i < pids.len()
        invariant
            i <= pids@.len(),
            table.wf(),
            forall|p: u32|
                #[trigger] table@.contains_key(p) ==> pids@.subrange(0, i as int).contains(p)
                    && table@[p].pid == p,
        decreases pids.len() - i,
    {
        let ghost before = table@;
        match process_info(sys, pids[i]) {
            Some(info) => {
                table.insert(info);
            },
            None => {},
        }
        proof {
            let sub = pids@.subrange(0, i + 1);
            assert(sub[i as int] == pids@[i as int]);
            assert forall|p: u32| #[trigger] table@.contains_key(p) implies sub.contains(p)
                && table@[p].pid == p by {
                if before.contains_key(p) && p != pids@[i as int] {
                    let k = choose|k: int| 0 <= k < i && pids@.subrange(0, i as int)[k] == p;
                    assert(sub[k] == p);
                }
            }
        }
        i = i + 1;
    }
    assert(pids@.subrange(0, pids@.len() as int) =~= pids@);
    table
}

/// The process ids that own `port` in `records`, each once, whatever the protocol.
pub fn pids_for_port(records: &Vec<SocketRecord>, port: u16) -> (r: Vec<u32>)
    ensures
        r@.no_duplicates(),
        r@.to_set() == owners(selected(socket_models(records@), port, ProtoFilter::Any)),
{
    let matched = select_records(records, port, ProtoFilter::Any);
    extract_pids(&matched)
}

/// The `who` lines for `port` under `filter`, given a socket table and a
/// process snapshot.
pub fn who_report(
    records: &Vec<SocketRecord>,
    port: u16,
    filter: ProtoFilter,
    table: &ProcessTable,
) -> (r: Vec<WhoLine>)
    requires
        table.wf(),
    ensures
        who_models(r@) == lines_of(selected(socket_models(records@), port, filter), table@),
{
    let matched = select_records(records, port, filter);
    who_lines(&matched, table)
}

/// Lists the sockets bound to `port` that `filter` admits, one line per
/// owner, with what the live process table knows of each owner.
pub fn who(port: u16, filter: ProtoFilter, holders: &Vec<SocketOwner>) -> (r: Result<
    Vec<WhoLine>,
    EnumerationError,
>)
    ensures
        r matches Err(e) ==> e.cause@.len() > 0,
        r matches Ok(lines) ==> exists|raw: Seq<RawModel>, tab: Map<u32, ProcessModel>|
            who_models(lines@) == lines_of(
                selected(attach_all(raw, holders@), port, filter),
                tab,
            ) && forall|p: u32| #[trigger] tab.contains_key(p) ==> tab[p].pid == p,
        r matches Ok(lines) ==> forall|k: int|
            0 <= k < lines@.len() ==> state_fits(
                (#[trigger] who_models(lines@)[k]).protocol,
                who_models(lines@)[k].state,
            ),
{
    let records = socket_records(filter, holders)?;
    let matched = select_records(&records, port, filter);
    let pids = extract_pids(&matched);
    let sys = process_snapshot();
    let table = capture(&sys, &pids);
    let lines = who_lines(&matched, &table);
    proof {
        let all = socket_models(records@);
        let sel = selected(all, port, filter);
        assert forall|i: int| 0 <= i < sel.len() implies state_fits(
            (#[trigger] sel[i]).protocol,
            sel[i].state,
        ) by {
            lemma_filter_member(all, port, filter, i);
        }
        lemma_lines_keep_state(sel, table@);
    }
    assert(who_models(lines@) == lines_of(selected(socket_models(records@), port, filter), table@));
    Ok(lines)
}

/// The process ids that own `port`, each once, read from the live socket table.
pub fn collect_pids_for_port(port: u16, holders: &Vec<SocketOwner>) -> (r: Result<
    Vec<u32>,
    EnumerationError,
>)
    ensures
        r matches Err(e) ==> e.cause@.len() > 0,
        r matches Ok(v) ==> v@.no_duplicates() && exists|raw: Seq<RawModel>|
            v@.to_set() == owners(selected(attach_all(raw, holders@), port, ProtoFilter::Any)),
{
    let records = socket_records(ProtoFilter::Any, holders)?;
    let pids = pids_for_port(&records, port);
    assert(pids@.to_set() == owners(selected(socket_models(records@), port, ProtoFilter::Any)));
    Ok(pids)
}

/// Stops every process that owns `port`: gracefully, or by force. Each
/// process is tried once, whatever became of the others.
pub fn kill_port(port: u16, force: bool, holders: &Vec<SocketOwner>) -> (r: Result<
    KillReport,
    EnumerationError,
>)
    ensures
        r matches Err(e) ==> e.cause@.len() > 0,
        r matches Ok(report) ==> exists|pids: Seq<u32>, raw: Seq<RawModel>|
            {
                &&& pids.no_duplicates()
                &&& pids.to_set() == owners(selected(attach_all(raw, holders@), port, ProtoFilter::Any))
                &&& (pids.len() == 0 <==> report is NothingToDo)
                &&& (report matches KillReport::Attempted(o) ==> outcomes_for(
                    pids,
                    force,
                    outcome_models(o@),
                ))
            },
{
    let pids = collect_pids_for_port(port, holders)?;
    let report = kill_pids(&pids, force);
    Ok(report)
}

/// A port that no socket is bound to gives an empty `who` report and no
/// process to stop: every list of its owners is empty, so `kill_pids` on it
/// reports that there is nothing to do.
pub proof fn law_unbound_port_nothing_to_report(
    records: Seq<SocketModel>,
    port: u16,
    filter: ProtoFilter,
    table: Map<u32, ProcessModel>,
)
    requires
        forall|i: int| 0 <= i < records.len() ==> records[i].local_port != port,
    ensures
        lines_of(selected(records, port, filter), table) == Seq::<crate::process::WhoModel>::empty(),
        owners(selected(records, port, ProtoFilter::Any)) == Set::<u32>::empty(),
        forall|pids: Seq<u32>|
            #[trigger] pids.to_set() == owners(selected(records, port, ProtoFilter::Any))
                ==> pids.len() == 0,
{
    law_unbound_port_selects_nothing(records, port, filter);
    law_unbound_port_selects_nothing(records, port, ProtoFilter::Any);
    assert forall|pids: Seq<u32>|
        #[trigger] pids.to_set() == owners(selected(records, port, ProtoFilter::Any))
            implies pids.len() == 0 by {
        if pids.len() > 0 {
            assert(pids.to_set().contains(pids[0]));
        }
    }
}

} // verus!
