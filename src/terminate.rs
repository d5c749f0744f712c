use vstd::prelude::*;
use crate::socket::text_of;
use crate::os::{send_signal, errno_text};

verus! {

/// The signal that stops a process: catchable, or not.
#[derive(Clone, Copy, Debug, PartialEq, Eq, Structural)]
pub enum StopSignal {
    /// A request to stop, which the process may handle or ignore (SIGTERM).
    Terminate,
    /// An unconditional stop (SIGKILL).
    Kill,
}

/// Graceful stops use the catchable signal; forced stops the unconditional one.
pub open spec fn signal_spec(force: bool) -> StopSignal {
    if force {
        StopSignal::Kill
    } else {
        StopSignal::Terminate
    }
}

/// The signal for a stop of the given severity.
pub fn signal_for(force: bool) -> (r: StopSignal)
    ensures
        r == signal_spec(force),
{
    if force {
        StopSignal::Kill
    } else {
        StopSignal::Terminate
    }
}

/// Who turned a stop request down.
#[derive(Clone, Copy, Debug, PartialEq, Eq, Structural)]
pub enum FailureKind {
    /// The id names no single process, so no signal was sent.
    InvalidPid,
    /// The system refused the signal (no such process, no permission, ...).
    Refused,
}

/// Why one process could not be stopped.
#[derive(Debug)]
pub struct TerminationError {
    pub kind: FailureKind,
    pub cause: String,
}

/// Whether `pid` names exactly one process to the kernel.
pub open spec fn signalable(pid: u32) -> bool {
    0 < pid <= i32::MAX
}

/// The cause given for a process id that names no single process.
pub open spec fn invalid_pid_cause() -> Seq<char> {
    "not a valid process id"@
}

/// What a stop request for `pid` may come to: the library's own rejection
/// exactly when the id names no single process, else the system's answer,
/// which is either acceptance or a refusal.
pub open spec fn stop_result_allowed(pid: u32, r: Result<(), TerminationError>) -> bool {
    if signalable(pid) {
        r matches Err(e) ==> e.kind == FailureKind::Refused
    } else {
        r matches Err(e) && e.kind == FailureKind::InvalidPid && e.cause@ == invalid_pid_cause()
    }
}

/// Maps the system's answer to a signal: acceptance is success, and a
/// refusal is a failure that carries the system's cause.
pub fn request_result(sent: Result<(), nix::errno::Errno>) -> (r: Result<(), TerminationError>)
    ensures
        r is Ok <==> sent is Ok,
        r matches Err(e) ==> e.kind == FailureKind::Refused && e.cause@.len() > 0,
{
    match sent {
        Ok(()) => Ok(()),
        Err(e) => Err(TerminationError { kind: FailureKind::Refused, cause: errno_text(e) }),
    }
}

/// Asks the system to deliver `signal` to `pid`. Success means that the
/// kernel accepted the request, not that the process has exited.
pub fn request_stop(pid: u32, signal: StopSignal) -> (r: Result<(), TerminationError>)
    ensures
        stop_result_allowed(pid, r),
{
    if pid == 0 || pid > i32::MAX as u32 {
        proof {
            reveal_strlit("not a valid process id");
        }
        return Err(
            TerminationError {
                kind: FailureKind::InvalidPid,
                cause: "not a valid process id".to_owned(),
            },
        );
    }
    request_result(send_signal(pid as i32, signal))
}

/// Sends the stop signal for `force` (see `signal_for`) to `pid`.
pub fn kill_pid(pid: u32, force: bool) -> (r: Result<(), TerminationError>)
    ensures
        stop_result_allowed(pid, r),
{
    request_stop(pid, signal_for(force))
}

/// The result of trying to stop one process.
#[derive(Debug)]
pub struct TerminationOutcome {
    pub pid: u32,
    /// The signal that was requested.
    pub signal: StopSignal,
    pub succeeded: bool,
    /// Who turned the request down; absent on success.
    pub failure_kind: Option<FailureKind>,
    /// The cause of a failure; absent on success.
    pub error_detail: Option<String>,
}

/// Mathematical model of a `TerminationOutcome`.
pub struct OutcomeModel {
    pub pid: u32,
    pub signal: StopSignal,
    pub succeeded: bool,
    pub failure_kind: Option<FailureKind>,
    pub error_detail: Option<Seq<char>>,
}

impl View for TerminationOutcome {
    type V = OutcomeModel;

    open spec fn view(&self) -> OutcomeModel {
        OutcomeModel {
            pid: self.pid,
            signal: self.signal,
            succeeded: self.succeeded,
            failure_kind: self.failure_kind,
            error_detail: text_of(self.error_detail),
        }
    }
}

pub open spec fn outcome_models(v: Seq<TerminationOutcome>) -> Seq<OutcomeModel> {
    v.map_values(|o: TerminationOutcome| o@)
}

/// The outcome that records `result` of requesting `signal` for `pid`.
pub open spec fn outcome_spec(
    pid: u32,
    signal: StopSignal,
    result: Result<(), (FailureKind, Seq<char>)>,
) -> OutcomeModel {
    match result {
        Ok(()) => OutcomeModel {
            pid,
            signal,
            succeeded: true,
            failure_kind: None,
            error_detail: None,
        },
        Err((k, c)) => OutcomeModel {
            pid,
            signal,
            succeeded: false,
            failure_kind: Some(k),
            error_detail: Some(c),
        },
    }
}

pub open spec fn result_model(r: Result<(), TerminationError>) -> Result<(), (FailureKind, Seq<char>)> {
    match r {
        Ok(()) => Ok(()),
        Err(e) => Err((e.kind, e.cause@)),
    }
}

/// Records the result of requesting `signal` for `pid`: success exactly
/// when the request was accepted.
pub fn outcome_of(pid: u32, signal: StopSignal, result: Result<(), TerminationError>) -> (r:
    TerminationOutcome)
    ensures
        r@ == outcome_spec(pid, signal, result_model(result)),
{
    match result {
        Ok(()) => TerminationOutcome {
            pid,
            signal,
            succeeded: true,
            failure_kind: None,
            error_detail: None,
        },
        Err(e) => TerminationOutcome {
            pid,
            signal,
            succeeded: false,
            failure_kind: Some(e.kind),
            error_detail: Some(e.cause),
        },
    }
}

/// What a kill request came to.
#[derive(Debug)]
pub enum KillReport {
    /// No process owned the port.
    NothingToDo,
    /// One outcome per owning process, in the order they were tried.
    Attempted(Vec<TerminationOutcome>),
}

/// `outcomes` holds one outcome per id of `pids`, in order. Each records the
/// signal for `force`, and the result of one stop request for that id: a
/// success, a refusal by the system, or, exactly for an id that names no
/// single process, the library's own rejection.
pub open spec fn outcomes_for(pids: Seq<u32>, force: bool, outcomes: Seq<OutcomeModel>) -> bool {
    &&& outcomes.len() == pids.len()
    &&& forall|i: int| 0 <= i < pids.len() ==> outcome_allowed(pids[i], force, #[trigger] outcomes[i])
}

/// `o` records, with the signal for `force`, the result of one stop request
/// for `pid`.
pub open spec fn outcome_allowed(pid: u32, force: bool, o: OutcomeModel) -> bool {
    exists|r: Result<(), TerminationError>|
        stop_result_allowed(pid, r) && o == outcome_spec(pid, signal_spec(force), result_model(r))
}

/// Tries to stop every process of `pids`, whatever became of the others.
pub fn kill_pids(pids: &Vec<u32>, force: bool) -> (r: KillReport)
    ensures
        pids@.len() == 0 <==> r is NothingToDo,
        r matches KillReport::Attempted(o) ==> outcomes_for(pids@, force, outcome_models(o@)),
{
    if pids.len() == 0 {
        return KillReport::NothingToDo;
    }
    let signal = signal_for(force);
    let mut outcomes: Vec<TerminationOutcome> = Vec::new();
    let mut i: usize = 0;
    while i < pids.len()
        invariant
            i <= pids@.len(),
            signal == signal_spec(force),
            outcomes_for(pids@.subrange(0, i as int), force, outcome_models(outcomes@)),
        decreases pids.len() - i,
    {
        let pid = pids[i];
        let result = request_stop(pid, signal);
        let o = outcome_of(pid, signal, result);
        let ghost before = outcome_models(outcomes@);
        outcomes.push(o);
        proof {
            let now = outcome_models(outcomes@);
            assert(now =~= before.push(o@));
            let sub = pids@.subrange(0, i + 1);
            assert forall|k: int| 0 <= k < sub.len() implies outcome_allowed(
                sub[k],
                force,
                #[trigger] now[k],
            ) by {
                if k < i {
                    assert(sub[k] == pids@.subrange(0, i as int)[k]);
                    assert(now[k] == before[k]);
                } else {
                    assert(stop_result_allowed(sub[k], result));
                }
            }
        }
        i = i + 1;
    }
    assert(pids@.subrange(0, pids@.len() as int) =~= pids@);
    KillReport::Attempted(outcomes)
}

/// A process that could not be stopped, and why.
#[derive(Debug)]
pub struct Failure {
    pub pid: u32,
    pub cause: String,
}

/// The outcomes of a kill request, split into successes and failures.
#[derive(Debug)]
pub struct KillSummary {
    pub stopped: Vec<u32>,
    pub failures: Vec<Failure>,
}

pub open spec fn detail_of(o: OutcomeModel) -> Seq<char> {
    match o.error_detail {
        Some(d) => d,
        None => Seq::empty(),
    }
}

/// The ids of the successful outcomes, in order.
pub open spec fn stopped_of(o: Seq<OutcomeModel>) -> Seq<u32>
    decreases o.len(),
{
    if o.len() == 0 {
        Seq::empty()
    } else if o.last().succeeded {
        stopped_of(o.drop_last()).push(o.last().pid)
    } else {
        stopped_of(o.drop_last())
    }
}

/// The ids and causes of the failed outcomes, in order.
pub open spec fn failures_of(o: Seq<OutcomeModel>) -> Seq<(u32, Seq<char>)>
    decreases o.len(),
{
    if o.len() == 0 {
        Seq::empty()
    } else if o.last().succeeded {
        failures_of(o.drop_last())
    } else {
        failures_of(o.drop_last()).push((o.last().pid, detail_of(o.last())))
    }
}

pub open spec fn failure_models(v: Seq<Failure>) -> Seq<(u32, Seq<char>)> {
    v.map_values(|f: Failure| (f.pid, f.cause@))
}

/// Splits `outcomes` into the stopped ids and the failures with their causes.
pub fn summarize(outcomes: &Vec<TerminationOutcome>) -> (r: KillSummary)
    ensures
        r.stopped@ == stopped_of(outcome_models(outcomes@)),
        failure_models(r.failures@) == failures_of(outcome_models(outcomes@)),
{
    let ghost all = outcome_models(outcomes@);
    let mut stopped: Vec<u32> = Vec::new();
    let mut failures: Vec<Failure> = Vec::new();
    let mut i: usize = 0;
    assert(failure_models(failures@) =~= Seq::<(u32, Seq<char>)>::empty());
    while i < outcomes.len()
        invariant
            i <= outcomes@.len(),
            all == outcome_models(outcomes@),
            stopped@ == stopped_of(all.subrange(0, i as int)),
            failure_models(failures@) == failures_of(all.subrange(0, i as int)),
        decreases outcomes.len() - i,
    {
        let o = &outcomes[i];
        proof {
            assert(all.subrange(0, i + 1).drop_last() =~= all.subrange(0, i as int));
            assert(all.subrange(0, i + 1).last() == o@);
        }
        if o.succeeded {
            stopped.push(o.pid);
        } else {
            let cause = match &o.error_detail {
                Some(d) => d.clone(),
                None => String::new(),
            };
            let ghost before = failure_models(failures@);
            failures.push(Failure { pid: o.pid, cause });
            assert(failure_models(failures@) =~= before.push((o.pid, detail_of(o@))));
        }
        i = i + 1;
    }
    assert(all.subrange(0, outcomes@.len() as int) =~= all);
    KillSummary { stopped, failures }
}

proof fn lemma_stopped_attributed(o: Seq<OutcomeModel>, k: int)
    requires
        0 <= k < stopped_of(o).len(),
    ensures
        exists|i: int| 0 <= i < o.len() && (#[trigger] o[i]).succeeded && o[i].pid == stopped_of(o)[k],
    decreases o.len(),
{
    let rest = o.drop_last();
    if k < stopped_of(rest).len() {
        lemma_stopped_attributed(rest, k);
        let i = choose|i: int| 0 <= i < rest.len() && (#[trigger] rest[i]).succeeded && rest[i].pid == stopped_of(rest)[k];
        assert(o[i] == rest[i]);
    } else {
        assert(o[o.len() - 1].pid == stopped_of(o)[k]);
    }
}

proof fn lemma_failure_attributed(o: Seq<OutcomeModel>, k: int)
    requires
        0 <= k < failures_of(o).len(),
    ensures
        exists|i: int| 0 <= i < o.len() && !(#[trigger] o[i]).succeeded && failures_of(o)[k] == (o[i].pid, detail_of(o[i])),
    decreases o.len(),
{
    let rest = o.drop_last();
    if k < failures_of(rest).len() {
        lemma_failure_attributed(rest, k);
        let i = choose|i: int| 0 <= i < rest.len() && !(#[trigger] rest[i]).succeeded && failures_of(rest)[k] == (rest[i].pid, detail_of(rest[i]));
        assert(o[i] == rest[i]);
    } else {
        assert(failures_of(o)[k] == (o[o.len() - 1].pid, detail_of(o[o.len() - 1])));
    }
}

proof fn lemma_partition_len(o: Seq<OutcomeModel>)
    ensures
        stopped_of(o).len() + failures_of(o).len() == o.len(),
    decreases o.len(),
{
    if o.len() > 0 {
        lemma_partition_len(o.drop_last());
    }
}

proof fn lemma_no_failures(o: Seq<OutcomeModel>)
    requires
        failures_of(o).len() == 0,
    ensures
        forall|i: int| 0 <= i < o.len() ==> (#[trigger] o[i]).succeeded,
    decreases o.len(),
{
    if o.len() > 0 {
        let rest = o.drop_last();
        lemma_no_failures(rest);
        assert forall|i: int| 0 <= i < o.len() implies (#[trigger] o[i]).succeeded by {
            if i < rest.len() {
                assert(o[i] == rest[i]);
            }
        }
    }
}

/// Some successful outcome of `o` is for `pid`.
pub open spec fn stopped_in(o: Seq<OutcomeModel>, pid: u32) -> bool {
    exists|i: int| 0 <= i < o.len() && (#[trigger] o[i]).succeeded && o[i].pid == pid
}

/// Some failed outcome of `o` is for `f.0`, with cause `f.1`.
pub open spec fn failed_in(o: Seq<OutcomeModel>, f: (u32, Seq<char>)) -> bool {
    exists|i: int| 0 <= i < o.len() && !(#[trigger] o[i]).succeeded && f == (o[i].pid, detail_of(o[i]))
}

/// A batch's outcomes split exactly: every outcome is counted once, as a
/// success or as a failure, each success and each failure names the process
/// id (and, for a failure, the cause) of an outcome of the batch, and there
/// is a failure exactly when some outcome failed.
pub proof fn law_outcomes_partition(o: Seq<OutcomeModel>)
    ensures
        stopped_of(o).len() + failures_of(o).len() == o.len(),
        forall|k: int| 0 <= k < stopped_of(o).len() ==> stopped_in(o, #[trigger] stopped_of(o)[k]),
        forall|k: int| 0 <= k < failures_of(o).len() ==> failed_in(o, #[trigger] failures_of(o)[k]),
        failures_of(o).len() == 0 <==> forall|i: int| 0 <= i < o.len() ==> (#[trigger] o[i]).succeeded,
{
    lemma_partition_len(o);
    assert forall|k: int| 0 <= k < stopped_of(o).len() implies stopped_in(o, #[trigger] stopped_of(o)[k]) by {
        lemma_stopped_attributed(o, k);
    }
    assert forall|k: int| 0 <= k < failures_of(o).len() implies failed_in(o, #[trigger] failures_of(o)[k]) by {
        lemma_failure_attributed(o, k);
    }
    if failures_of(o).len() == 0 {
        lemma_no_failures(o);
    } else {
        lemma_failure_attributed(o, 0);
    }
}

/// The process ids of the failures, in order.
pub open spec fn failed_ids(o: Seq<OutcomeModel>) -> Seq<u32> {
    failures_of(o).map_values(|f: (u32, Seq<char>)| f.0)
}

/// Some failed outcome of `o` is for `pid`.
pub open spec fn failed_for(o: Seq<OutcomeModel>, pid: u32) -> bool {
    exists|i: int| 0 <= i < o.len() && !(#[trigger] o[i]).succeeded && o[i].pid == pid
}

proof fn lemma_push_contains(s: Seq<u32>, x: u32, p: u32)
    ensures
        s.push(x).contains(p) <==> (s.contains(p) || x == p),
{
    if s.push(x).contains(p) && x != p {
        let k = choose|k: int| 0 <= k < s.push(x).len() && s.push(x)[k] == p;
        assert(s[k] == p);
    }
    if s.contains(p) {
        let k = choose|k: int| 0 <= k < s.len() && s[k] == p;
        assert(s.push(x)[k] == p);
    }
    if x == p {
        assert(s.push(x)[s.len() as int] == p);
    }
}

proof fn lemma_membership(o: Seq<OutcomeModel>, p: u32)
    ensures
        stopped_of(o).contains(p) <==> stopped_in(o, p),
        failed_ids(o).contains(p) <==> failed_for(o, p),
    decreases o.len(),
{
    if o.len() == 0 {
        assert(failed_ids(o) =~= Seq::<u32>::empty());
    } else {
        let rest = o.drop_last();
        let x = o.last();
        lemma_membership(rest, p);
        if x.succeeded {
            lemma_push_contains(stopped_of(rest), x.pid, p);
            assert(failed_ids(o) =~= failed_ids(rest));
        } else {
            lemma_push_contains(failed_ids(rest), x.pid, p);
            assert(failed_ids(o) =~= failed_ids(rest).push(x.pid));
        }
        if stopped_in(rest, p) {
            let i = choose|i: int| 0 <= i < rest.len() && (#[trigger] rest[i]).succeeded && rest[i].pid == p;
            assert(o[i] == rest[i]);
        }
        if failed_for(rest, p) {
            let i = choose|i: int| 0 <= i < rest.len() && !(#[trigger] rest[i]).succeeded && rest[i].pid == p;
            assert(o[i] == rest[i]);
        }
        if stopped_in(o, p) {
            let i = choose|i: int| 0 <= i < o.len() && (#[trigger] o[i]).succeeded && o[i].pid == p;
            if i < rest.len() {
                assert(rest[i] == o[i]);
            }
        }
        if failed_for(o, p) {
            let i = choose|i: int| 0 <= i < o.len() && !(#[trigger] o[i]).succeeded && o[i].pid == p;
            if i < rest.len() {
                assert(rest[i] == o[i]);
            }
        }
    }
}

/// When a batch tried each process id once, its stopped ids and its failed
/// ids split the batch's ids: each id is stopped exactly when its request
/// succeeded, failed exactly when it did not, and never both.
pub proof fn law_outcomes_cover(o: Seq<OutcomeModel>)
    requires
        forall|i: int, j: int| 0 <= i < j < o.len() ==> o[i].pid != o[j].pid,
    ensures
        forall|i: int|
            0 <= i < o.len() ==> (stopped_of(o).contains(#[trigger] o[i].pid) <==> o[i].succeeded),
        forall|i: int|
            0 <= i < o.len() ==> (failed_ids(o).contains(#[trigger] o[i].pid) <==> !o[i].succeeded),
        forall|p: u32| !(stopped_of(o).contains(p) && #[trigger] failed_ids(o).contains(p)),
{
    assert forall|i: int| 0 <= i < o.len() implies (stopped_of(o).contains(#[trigger] o[i].pid)
        <==> o[i].succeeded) && (failed_ids(o).contains(o[i].pid) <==> !o[i].succeeded) by {
        lemma_membership(o, o[i].pid);
        if stopped_in(o, o[i].pid) {
            let j = choose|j: int| 0 <= j < o.len() && (#[trigger] o[j]).succeeded && o[j].pid == o[i].pid;
            assert(i == j || (i < j && o[i].pid != o[j].pid) || (j < i && o[j].pid != o[i].pid));
        }
        if failed_for(o, o[i].pid) {
            let j = choose|j: int| 0 <= j < o.len() && !(#[trigger] o[j]).succeeded && o[j].pid == o[i].pid;
            assert(i == j || (i < j && o[i].pid != o[j].pid) || (j < i && o[j].pid != o[i].pid));
        }
    }
    assert forall|p: u32| !(stopped_of(o).contains(p) && #[trigger] failed_ids(o).contains(p)) by {
        lemma_membership(o, p);
        if stopped_in(o, p) && failed_for(o, p) {
            let i = choose|i: int| 0 <= i < o.len() && (#[trigger] o[i]).succeeded && o[i].pid == p;
            let j = choose|j: int| 0 <= j < o.len() && !(#[trigger] o[j]).succeeded && o[j].pid == p;
            assert(i == j || (i < j && o[i].pid != o[j].pid) || (j < i && o[j].pid != o[i].pid));
        }
    }
}

} // verus!
