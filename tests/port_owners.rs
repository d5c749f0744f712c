use portdog::commands::{pids_for_port, records_from, socket_records, who, who_report};
use portdog::process::{ProcessInfo, ProcessTable};
use portdog::procfs::{parse_decimal, socket_inode};
use portdog::socket::{
    attach_owners, extract_pids, select_records, ProtoFilter, Protocol, RawSocket, SocketOwner,
    SocketRecord,
};
use portdog::terminate::{
    kill_pid, kill_pids, outcome_of, request_result, request_stop, signal_for, summarize,
    FailureKind, KillReport, StopSignal, TerminationError, TerminationOutcome,
};

fn tcp(port: u16, state: &str, pids: Vec<u32>) -> SocketRecord {
    SocketRecord {
        protocol: Protocol::Tcp,
        local_port: port,
        state: Some(state.to_string()),
        owning_pids: pids,
    }
}

fn udp(port: u16, pids: Vec<u32>) -> SocketRecord {
    SocketRecord { protocol: Protocol::Udp, local_port: port, state: None, owning_pids: pids }
}

fn info(pid: u32, name: &str, exe: Option<&str>) -> ProcessInfo {
    ProcessInfo {
        pid,
        name: name.to_string(),
        executable_path: exe.map(|e| e.to_string()),
    }
}

fn sorted(mut v: Vec<u32>) -> Vec<u32> {
    v.sort();
    v
}

#[test]
fn unbound_port_gives_empty_who_and_nothing_to_kill() {
    let records = vec![tcp(80, "LISTEN", vec![10]), udp(53, vec![11])];
    let table = ProcessTable::new();
    assert!(who_report(&records, 9999, ProtoFilter::Any, &table).is_empty());
    let pids = pids_for_port(&records, 9999);
    assert!(pids.is_empty());
    assert!(matches!(kill_pids(&pids, false), KillReport::NothingToDo));
}

#[test]
fn empty_socket_table_gives_nothing_to_do() {
    let records: Vec<SocketRecord> = Vec::new();
    let pids = pids_for_port(&records, 9999);
    assert!(pids.is_empty());
    assert!(matches!(kill_pids(&pids, true), KillReport::NothingToDo));
}

#[test]
fn pid_union_ignores_record_order() {
    let a = vec![tcp(8080, "LISTEN", vec![1, 2]), udp(8080, vec![3]), tcp(8080, "ESTABLISHED", vec![2, 4])];
    let b = vec![tcp(8080, "ESTABLISHED", vec![2, 4]), tcp(8080, "LISTEN", vec![1, 2]), udp(8080, vec![3])];
    assert_eq!(sorted(extract_pids(&a)), vec![1, 2, 3, 4]);
    assert_eq!(sorted(extract_pids(&a)), sorted(extract_pids(&b)));
}

#[test]
fn pid_union_is_idempotent() {
    let once = vec![tcp(8080, "LISTEN", vec![7, 8]), udp(8080, vec![9])];
    let twice = vec![
        tcp(8080, "LISTEN", vec![7, 8]),
        udp(8080, vec![9]),
        tcp(8080, "LISTEN", vec![7, 8]),
        udp(8080, vec![9]),
    ];
    assert_eq!(sorted(extract_pids(&once)), sorted(extract_pids(&twice)));
    assert_eq!(extract_pids(&twice).len(), 3);
}

#[test]
fn dual_stack_owner_appears_once() {
    let records = vec![tcp(8080, "LISTEN", vec![4321]), tcp(8080, "LISTEN", vec![4321]), udp(8080, vec![4321])];
    assert_eq!(pids_for_port(&records, 8080), vec![4321]);
}

#[test]
fn selection_keeps_port_and_protocol() {
    let records = vec![tcp(8080, "LISTEN", vec![1]), udp(8080, vec![2]), tcp(8081, "LISTEN", vec![3])];
    let only_udp = select_records(&records, 8080, ProtoFilter::Udp);
    assert_eq!(only_udp.len(), 1);
    assert_eq!(only_udp[0].owning_pids, vec![2]);
    let only_tcp = select_records(&records, 8080, ProtoFilter::Tcp);
    assert_eq!(only_tcp.len(), 1);
    assert_eq!(only_tcp[0].owning_pids, vec![1]);
    assert_eq!(select_records(&records, 8080, ProtoFilter::Any).len(), 2);
}

#[test]
fn absent_pid_resolves_to_unavailable() {
    let mut table = ProcessTable::new();
    table.insert(info(1, "init", Some("/sbin/init")));
    assert!(table.resolve(4321).is_none());
    let r = table.resolve(1).unwrap();
    assert_eq!(r.name, "init");
    assert_eq!(r.executable_path, Some("/sbin/init".to_string()));
}

#[test]
fn insert_replaces_entry_with_same_pid() {
    let mut table = ProcessTable::new();
    table.insert(info(5, "old", None));
    table.insert(info(5, "new", None));
    let r = table.resolve(5).unwrap();
    assert_eq!(r.name, "new");
    assert_eq!(r.executable_path, None);
}

#[test]
fn who_8080_with_tcp_listener_owned_by_4321() {
    let records = vec![tcp(8080, "LISTEN", vec![4321]), udp(53, vec![1])];
    let mut table = ProcessTable::new();
    table.insert(info(4321, "server", Some("/usr/bin/server")));
    let lines = who_report(&records, 8080, ProtoFilter::Any, &table);
    assert_eq!(lines.len(), 1);
    let l = &lines[0];
    assert_eq!(l.protocol, Protocol::Tcp);
    assert_eq!(l.port, 8080);
    assert_eq!(l.state, Some("LISTEN".to_string()));
    assert_eq!(l.pid, Some(4321));
    let p = l.process.as_ref().unwrap();
    assert_eq!(p.name, "server");
    assert_eq!(p.executable_path, Some("/usr/bin/server".to_string()));
}

#[test]
fn who_line_without_process_info() {
    let records = vec![tcp(8080, "LISTEN", vec![4321])];
    let table = ProcessTable::new();
    let lines = who_report(&records, 8080, ProtoFilter::Any, &table);
    assert_eq!(lines.len(), 1);
    assert_eq!(lines[0].pid, Some(4321));
    assert!(lines[0].process.is_none());
}

#[test]
fn who_line_for_unknown_owner() {
    let records = vec![udp(5353, vec![])];
    let table = ProcessTable::new();
    let lines = who_report(&records, 5353, ProtoFilter::Any, &table);
    assert_eq!(lines.len(), 1);
    assert_eq!(lines[0].protocol, Protocol::Udp);
    assert_eq!(lines[0].pid, None);
    assert_eq!(lines[0].state, None);
    assert!(lines[0].process.is_none());
}

#[test]
fn who_lines_one_per_owner() {
    let records = vec![tcp(8080, "LISTEN", vec![10, 11]), udp(8080, vec![12])];
    let table = ProcessTable::new();
    let lines = who_report(&records, 8080, ProtoFilter::Tcp, &table);
    assert_eq!(lines.iter().map(|l| l.pid).collect::<Vec<_>>(), vec![Some(10), Some(11)]);
    let all = who_report(&records, 8080, ProtoFilter::Any, &table);
    assert_eq!(all.len(), 3);
}

#[test]
fn graceful_and_forced_signals() {
    assert_eq!(signal_for(false), StopSignal::Terminate);
    assert_eq!(signal_for(true), StopSignal::Kill);
}

#[test]
fn invalid_pids_fail_without_signal() {
    let e = kill_pid(0, false).unwrap_err();
    assert_eq!(e.kind, FailureKind::InvalidPid);
    assert_eq!(e.cause, "not a valid process id");
    let e = kill_pid(u32::MAX, true).unwrap_err();
    assert_eq!(e.kind, FailureKind::InvalidPid);
    assert_eq!(e.cause, "not a valid process id");
}

#[test]
fn missing_process_reports_cause() {
    let e = kill_pid(i32::MAX as u32, false).unwrap_err();
    assert_eq!(e.kind, FailureKind::Refused);
    assert!(!e.cause.is_empty());
    assert_ne!(e.cause, "not a valid process id");
}

#[test]
fn batch_reports_one_outcome_per_pid() {
    let pids = vec![0, i32::MAX as u32, u32::MAX];
    match kill_pids(&pids, false) {
        KillReport::Attempted(outcomes) => {
            assert_eq!(outcomes.len(), 3);
            for (o, p) in outcomes.iter().zip(pids.iter()) {
                assert_eq!(o.pid, *p);
                assert_eq!(o.signal, StopSignal::Terminate);
                assert!(!o.succeeded);
                assert!(o.error_detail.is_some());
            }
            let s = summarize(&outcomes);
            assert!(s.stopped.is_empty());
            assert_eq!(s.failures.len(), 3);
        }
        KillReport::NothingToDo => panic!("expected attempts"),
    }
}

#[test]
fn summary_partitions_successes_and_failures() {
    let outcomes = vec![
        outcome_of(10, StopSignal::Kill, Ok(())),
        outcome_of(
            11,
            StopSignal::Kill,
            Err(TerminationError {
                kind: FailureKind::Refused,
                cause: "EPERM: Operation not permitted".to_string(),
            }),
        ),
        outcome_of(12, StopSignal::Kill, Ok(())),
    ];
    assert!(outcomes[0].succeeded && outcomes[0].error_detail.is_none());
    assert!(outcomes[0].failure_kind.is_none());
    assert_eq!(outcomes[1].failure_kind, Some(FailureKind::Refused));
    assert_eq!(outcomes[1].signal, StopSignal::Kill);
    let s = summarize(&outcomes);
    assert_eq!(s.stopped, vec![10, 12]);
    assert_eq!(s.failures.len(), 1);
    assert_eq!(s.failures[0].pid, 11);
    assert_eq!(s.failures[0].cause, "EPERM: Operation not permitted");
}

#[test]
fn summary_of_hand_built_outcomes() {
    let outcomes = vec![TerminationOutcome {
        pid: 3,
        signal: StopSignal::Terminate,
        succeeded: false,
        failure_kind: Some(FailureKind::Refused),
        error_detail: Some("ESRCH: No such process".to_string()),
    }];
    let s = summarize(&outcomes);
    assert!(s.stopped.is_empty());
    assert_eq!(s.failures[0].pid, 3);
    assert_eq!(s.failures[0].cause, "ESRCH: No such process");
}

#[test]
fn live_socket_table_states_match_protocols() {
    match socket_records(ProtoFilter::Any, &Vec::new()) {
        Ok(records) => {
            for r in &records {
                assert_eq!(r.protocol == Protocol::Tcp, r.state.is_some());
            }
        }
        Err(e) => assert!(!e.cause.is_empty()),
    }
}

#[test]
fn live_who_lines_match_query() {
    let port: u16 = 1;
    match who(port, ProtoFilter::Tcp, &Vec::new()) {
        Ok(lines) => {
            for l in &lines {
                assert_eq!(l.port, port);
                assert_eq!(l.protocol, Protocol::Tcp);
                if let (Some(pid), Some(p)) = (l.pid, &l.process) {
                    assert_eq!(p.pid, pid);
                }
            }
        }
        Err(e) => assert!(!e.cause.is_empty()),
    }
}

#[test]
fn kill_tries_each_owner_once_gracefully() {
    let records = vec![tcp(8080, "LISTEN", vec![i32::MAX as u32]), tcp(8080, "LISTEN", vec![i32::MAX as u32])];
    let pids = pids_for_port(&records, 8080);
    assert_eq!(pids, vec![i32::MAX as u32]);
    match kill_pids(&pids, false) {
        KillReport::Attempted(outcomes) => {
            assert_eq!(outcomes.len(), 1);
            assert_eq!(outcomes[0].pid, i32::MAX as u32);
            assert_eq!(outcomes[0].signal, StopSignal::Terminate);
            assert_eq!(outcomes[0].failure_kind, Some(FailureKind::Refused));
        }
        KillReport::NothingToDo => panic!("expected one attempt"),
    }
}

#[test]
fn accepted_request_is_success_and_refusal_keeps_cause() {
    assert!(request_result(Ok(())).is_ok());
    let e = request_result(Err(nix::errno::Errno::ESRCH)).unwrap_err();
    assert_eq!(e.kind, FailureKind::Refused);
    assert_eq!(e.cause, "ESRCH: No such process");
    let e = request_result(Err(nix::errno::Errno::EPERM)).unwrap_err();
    assert_eq!(e.cause, "EPERM: Operation not permitted");
}

#[test]
fn forced_request_for_missing_process_is_refused() {
    let e = request_stop(i32::MAX as u32, StopSignal::Kill).unwrap_err();
    assert_eq!(e.kind, FailureKind::Refused);
    assert_eq!(e.cause, "ESRCH: No such process");
}

#[test]
fn who_line_states_follow_protocol() {
    let records = vec![tcp(7000, "LISTEN", vec![1]), udp(7000, vec![2]), udp(7000, vec![])];
    let table = ProcessTable::new();
    for l in who_report(&records, 7000, ProtoFilter::Any, &table) {
        assert_eq!(l.protocol == Protocol::Tcp, l.state.is_some());
    }
}

#[test]
fn owners_attach_by_inode() {
    let raw = vec![
        RawSocket { protocol: Protocol::Tcp, local_port: 8080, state: Some("LISTEN".to_string()), inode: 100 },
        RawSocket { protocol: Protocol::Udp, local_port: 8080, state: None, inode: 200 },
        RawSocket { protocol: Protocol::Udp, local_port: 53, state: None, inode: 300 },
    ];
    let owners = vec![
        SocketOwner { inode: 100, pid: 4321 },
        SocketOwner { inode: 200, pid: 4321 },
        SocketOwner { inode: 100, pid: 77 },
    ];
    let records = attach_owners(&raw, &owners);
    assert_eq!(records.len(), 3);
    assert_eq!(records[0].owning_pids, vec![4321, 77]);
    assert_eq!(records[0].state, Some("LISTEN".to_string()));
    assert_eq!(records[1].owning_pids, vec![4321]);
    assert!(records[2].owning_pids.is_empty());
    assert_eq!(sorted(pids_for_port(&records, 8080)), vec![77, 4321]);
}

#[test]
fn failed_enumeration_is_an_error() {
    let res: Result<Vec<netstat2::SocketInfo>, netstat2::error::Error> =
        Err(netstat2::error::Error::NetLinkError);
    let e = records_from(res).unwrap_err();
    assert_eq!(e.cause, "NetLink Error");
    let ok: Result<Vec<netstat2::SocketInfo>, netstat2::error::Error> = Ok(Vec::new());
    assert!(records_from(ok).unwrap().is_empty());
}

#[test]
fn decimal_parsing() {
    assert_eq!(parse_decimal(b"4321"), Some(4321));
    assert_eq!(parse_decimal(b"0"), Some(0));
    assert_eq!(parse_decimal(b"4294967295"), Some(u32::MAX));
    assert_eq!(parse_decimal(b"4294967296"), None);
    assert_eq!(parse_decimal(b""), None);
    assert_eq!(parse_decimal(b"12a"), None);
    assert_eq!(parse_decimal(b"self"), None);
}

#[test]
fn descriptor_links_name_socket_inodes() {
    assert_eq!(socket_inode(b"socket:[123456]"), Some(123456));
    assert_eq!(socket_inode(b"socket:[]"), None);
    assert_eq!(socket_inode(b"pipe:[123]"), None);
    assert_eq!(socket_inode(b"/dev/null"), None);
    assert_eq!(socket_inode(b"socket:[12"), None);
}
