//! One reconciliation tick of the session monitor.
//!
//! The caller gathers the probe results for this tick — which probed process
//! ids turned out dead, the batch-queried set of open iTerm2 window ids, and
//! the exit markers found on disk, already parsed — and hands them in as
//! plain data. The tick applies the transitions to the registry and reports
//! every event to emit, every desktop notification to show and every marker
//! file to delete; the caller performs those effects. A probe that could not
//! complete simply leaves its session out of the report, and that session is
//! left unchanged until a later tick resolves it.

use vstd::prelude::*;
use vstd::string::StringExecFns;
use crate::session::{lemma_filter_push, unique_ids, Session, SessionManager, SessionStatus};
use crate::terminal::TerminalType;
use crate::text::{append_decimal_i32, spec_dec_int, str_eq};

verus! {

/// The kind of event a transition reports to the interface layer.
#[derive(Debug, Clone, Copy, PartialEq, Eq, Structural)]
pub enum EventKind {
    SessionUpdated,
    TaskCompleted,
    TaskError,
    SessionInterrupted,
}

/// A desktop notification to show: fire-and-forget, failures ignored.
pub struct Notice {
    pub title: String,
    pub body: String,
}

/// One outbound effect of a tick: the event to emit with the updated record,
/// an optional desktop notification, and whether the session's exit-marker
/// file has been consumed and should be deleted.
pub struct Emission {
    pub event: EventKind,
    pub session: Session,
    pub notice: Option<Notice>,
    pub remove_marker: bool,
}

/// What the probes reported for this tick. A process id absent from
/// `dead_pids` was seen alive or could not be checked; a session id absent
/// from `exit_markers` has no readable marker; `open_windows` is the full
/// set of currently open iTerm2 window ids, empty when iTerm2 is not running.
pub struct ProbeReport {
    pub dead_pids: Vec<u32>,
    pub open_windows: Vec<String>,
    pub exit_markers: Vec<(String, i32)>,
}

/// The exit code of the first marker recorded for this session id.
pub open spec fn marker_code_in(ms: Seq<(String, i32)>, id: Seq<char>) -> Option<i32>
    decreases ms.len(),
{
    if ms.len() == 0 {
        None
    } else if ms[0].0@ == id {
        Some(ms[0].1)
    } else {
        marker_code_in(ms.drop_first(), id)
    }
}

impl ProbeReport {
    /// The probe saw this process id dead.
    pub open spec fn pid_dead(self, pid: u32) -> bool {
        self.dead_pids@.contains(pid)
    }

    /// The batch window query listed this window id.
    pub open spec fn window_open(self, w: Seq<char>) -> bool {
        exists|i: int| 0 <= i < self.open_windows@.len() && self.open_windows@[i]@ == w
    }

    /// The exit code recorded for this session, if a marker was found.
    pub open spec fn marker_code(self, id: Seq<char>) -> Option<i32> {
        marker_code_in(self.exit_markers@, id)
    }
}

/// The process-liveness pass stops this session: it is running, has a
/// process id, and the probe saw that process dead.
pub open spec fn pid_stops(s: Session, r: ProbeReport) -> bool {
    s.is_running_with_pid() && r.pid_dead(s.pid->0)
}

/// A session after the process-liveness pass.
pub open spec fn after_pid_pass(s: Session, r: ProbeReport) -> Session {
    if pid_stops(s, r) {
        s.with_status(SessionStatus::Stopped)
    } else {
        s
    }
}

/// The terminal pass stops this session through its exit marker: it is
/// running with terminal metadata and a marker was found for it.
pub open spec fn marker_stops(s: Session, r: ProbeReport) -> bool {
    s.is_running_with_terminal() && r.marker_code(s.id@) is Some
}

/// The terminal pass interrupts this session: it is running with terminal
/// metadata, no exit marker was found, its terminal kind supports precise
/// window enumeration (only iTerm2 does; Terminal.app sessions are assumed
/// alive), it has a window id, and that window is no longer open.
pub open spec fn window_interrupts(s: Session, r: ProbeReport) -> bool {
    &&& s.is_running_with_terminal()
    &&& r.marker_code(s.id@) is None
    &&& s.terminal_type == Some(TerminalType::ITerm2)
    &&& s.window_id is Some
    &&& !r.window_open(s.window_id->0@)
}

/// The terminal pass moves this session to a terminal state.
pub open spec fn terminal_transitions(s: Session, r: ProbeReport) -> bool {
    marker_stops(s, r) || window_interrupts(s, r)
}

/// A session after the terminal pass: the exit-marker check always precedes
/// the window check, so a clean exit whose window also closed is classified
/// stopped, not interrupted.
pub open spec fn after_terminal_pass(s: Session, r: ProbeReport) -> Session {
    if marker_stops(s, r) {
        s.with_status(SessionStatus::Stopped)
    } else if window_interrupts(s, r) {
        s.with_status(SessionStatus::Interrupted)
    } else {
        s
    }
}

/// A session after one whole tick: the process pass, then the terminal pass
/// on its outcome.
pub open spec fn after_tick(s: Session, r: ProbeReport) -> Session {
    after_terminal_pass(after_pid_pass(s, r), r)
}

/// The event reported when a dead process stops a session: one
/// `session-updated` event with the stopped record, no desktop notification,
/// no marker to delete.
pub open spec fn is_pid_emission(e: Emission, s: Session) -> bool {
    &&& e.event == EventKind::SessionUpdated
    &&& e.session == s.with_status(SessionStatus::Stopped)
    &&& e.notice is None
    &&& !e.remove_marker
}

/// Notification body for a clean exit.
pub open spec fn spec_completed_body(env: Seq<char>) -> Seq<char> {
    env + " task completed"@
}

/// Notification body for a failed exit; it carries the exit code.
pub open spec fn spec_error_body(env: Seq<char>, code: int) -> Seq<char> {
    env + " exited with code: "@ + spec_dec_int(code)
}

/// Notification body for a window closed without a recorded exit.
pub open spec fn spec_interrupted_body(env: Seq<char>) -> Seq<char> {
    env + " window was closed"@
}

/// The event reported when an exit marker stops a session: `task-completed`
/// on exit code zero, `task-error` otherwise, each with its notification,
/// the stopped record, and the consumed marker flagged for deletion.
pub open spec fn is_marker_emission(e: Emission, s: Session, code: i32) -> bool {
    &&& e.session == s.with_status(SessionStatus::Stopped)
    &&& e.remove_marker
    &&& e.notice is Some
    &&& if code == 0 {
        &&& e.event == EventKind::TaskCompleted
        &&& e.notice->0.title@ == "Task Completed"@
        &&& e.notice->0.body@ == spec_completed_body(s.env_name@)
    } else {
        &&& e.event == EventKind::TaskError
        &&& e.notice->0.title@ == "Task Error"@
        &&& e.notice->0.body@ == spec_error_body(s.env_name@, code as int)
    }
}

/// The event reported when a session's window disappeared with no marker:
/// one `session-interrupted` event with the interrupted record and its
/// notification; no marker is deleted.
pub open spec fn is_interrupt_emission(e: Emission, s: Session) -> bool {
    &&& e.event == EventKind::SessionInterrupted
    &&& e.session == s.with_status(SessionStatus::Interrupted)
    &&& !e.remove_marker
    &&& e.notice is Some
    &&& e.notice->0.title@ == "Session Interrupted"@
    &&& e.notice->0.body@ == spec_interrupted_body(s.env_name@)
}

/// The event the terminal pass reports for a transitioning session.
pub open spec fn is_terminal_emission(e: Emission, s: Session, r: ProbeReport) -> bool {
    if marker_stops(s, r) {
        is_marker_emission(e, s, r.marker_code(s.id@)->0)
    } else {
        is_interrupt_emission(e, s)
    }
}

/// True when the sequence holds this process id.
fn pids_contain(pids: &Vec<u32>, pid: u32) -> (r: bool)
    ensures
        r == pids@.contains(pid),
{
    let n = pids.len();
    let mut i: usize = 0;
    while i < n
        invariant
            n == pids@.len(),
            i <= n,
            forall|j: int| 0 <= j < i ==> pids@[j] != pid,
        decreases n - i,
    {
        if pids[i] == pid {
            return true;
        }
        i += 1;
    }
    false
}

/// True when the batch-queried window set holds this window id.
fn windows_contain(windows: &Vec<String>, w: &str) -> (r: bool)
    ensures
        r == exists|i: int| 0 <= i < windows@.len() && windows@[i]@ == w@,
{
    let n = windows.len();
    let mut i: usize = 0;
    while i < n
        invariant
            n == windows@.len(),
            i <= n,
            forall|j: int| 0 <= j < i ==> windows@[j]@ != w@,
        decreases n - i,
    {
        if str_eq(windows[i].as_str(), w) {
            return true;
        }
        i += 1;
    }
    false
}

/// The first exit code recorded for this session id, if any.
fn marker_lookup(markers: &Vec<(String, i32)>, id: &str) -> (r: Option<i32>)
    ensures
        r == marker_code_in(markers@, id@),
{
    let n = markers.len();
    proof {
        assert(markers@.skip(0) =~= markers@);
    }
    let mut i: usize = 0;
    while i < n
        invariant
            n == markers@.len(),
            i <= n,
            marker_code_in(markers@, id@) == marker_code_in(markers@.skip(i as int), id@),
        decreases n - i,
    {
        proof {
            let cur = markers@.skip(i as int);
            assert(cur[0] == markers@[i as int]);
            assert(cur.drop_first() =~= markers@.skip(i as int + 1));
        }
        if str_eq(markers[i].0.as_str(), id) {
            return Some(markers[i].1);
        }
        i += 1;
    }
    None
}

/// The process-liveness pass: every running session whose probed process id
/// is dead moves to `stopped`, and exactly one `session-updated` event is
/// reported for each, in registry order. Nothing else changes.
pub fn pid_liveness_pass(manager: &mut SessionManager, report: &ProbeReport) -> (emissions: Vec<
    Emission,
>)
    ensures
        final(manager)@ == old(manager)@.map_values(|s: Session| after_pid_pass(s, *report)),
        emissions@.len() == old(manager)@.filter(|s: Session| pid_stops(s, *report)).len(),
        forall|j: int|
            0 <= j < emissions@.len() ==> is_pid_emission(
                emissions@[j],
                old(manager)@.filter(|s: Session| pid_stops(s, *report))[j],
            ),
{
    let ghost v0 = manager@;
    let ghost pred = |s: Session| pid_stops(s, *report);
    let ghost f = |s: Session| after_pid_pass(s, *report);
    let n = manager.sessions.len();
    let mut updated: Vec<Session> = Vec::new();
    let mut emissions: Vec<Emission> = Vec::new();
    let mut i: usize = 0;
    while i < n
        invariant
            n == v0.len(),
            i <= n,
            v0 == manager@,
            pred == (|s: Session| pid_stops(s, *report)),
            f == (|s: Session| after_pid_pass(s, *report)),
            updated@ == v0.subrange(0, i as int).map_values(f),
            emissions@.len() == v0.subrange(0, i as int).filter(pred).len(),
            forall|j: int|
                0 <= j < emissions@.len() ==> is_pid_emission(
                    emissions@[j],
                    v0.subrange(0, i as int).filter(pred)[j],
                ),
        decreases n - i,
    {
        let ghost prefix = v0.subrange(0, i as int);
        let ghost x = v0[i as int];
        let s = &manager.sessions[i];
        let mut stops = false;
        if matches!(s.status, SessionStatus::Running) {
            if let Some(pid) = s.pid {
                stops = pids_contain(&report.dead_pids, pid);
            }
        }
        proof {
            assert(stops == pred(x));
        }
        if stops {
            let mut upd = s.clone();
            upd.status = SessionStatus::Stopped;
            updated.push(upd.clone());
            emissions.push(
                Emission {
                    event: EventKind::SessionUpdated,
                    session: upd,
                    notice: None,
                    remove_marker: false,
                },
            );
        } else {
            updated.push(s.clone());
        }
        proof {
            let ext = v0.subrange(0, i as int + 1);
            assert(ext =~= prefix.push(x));
            crate::session::lemma_filter_push(prefix, pred, x);
            assert(ext.map_values(f) =~= prefix.map_values(f).push(f(x)));
            if pred(x) {
                assert(ext.filter(pred) =~= prefix.filter(pred).push(x));
            }
        }
        i += 1;
    }
    proof {
        assert(v0.subrange(0, n as int) =~= v0);
    }
    manager.sessions = updated;
    emissions
}

/// The terminal pass: for every running session with terminal metadata, the
/// exit-marker check first — a marker stops the session, reports completion
/// or error by its code, and flags the marker for deletion — and otherwise
/// the window check, which interrupts the session when its iTerm2 window is
/// gone. One event is reported per transition, in registry order.
pub fn terminal_pass(manager: &mut SessionManager, report: &ProbeReport) -> (emissions: Vec<
    Emission,
>)
    ensures
        final(manager)@ == old(manager)@.map_values(|s: Session| after_terminal_pass(s, *report)),
        emissions@.len() == old(manager)@.filter(
            |s: Session| terminal_transitions(s, *report),
        ).len(),
        forall|j: int|
            0 <= j < emissions@.len() ==> is_terminal_emission(
                emissions@[j],
                old(manager)@.filter(|s: Session| terminal_transitions(s, *report))[j],
                *report,
            ),
{
    let ghost v0 = manager@;
    let ghost pred = |s: Session| terminal_transitions(s, *report);
    let ghost f = |s: Session| after_terminal_pass(s, *report);
    let n = manager.sessions.len();
    let mut updated: Vec<Session> = Vec::new();
    let mut emissions: Vec<Emission> = Vec::new();
    let mut i: usize = 0;
    while i < n
        invariant
            n == v0.len(),
            i <= n,
            v0 == manager@,
            pred == (|s: Session| terminal_transitions(s, *report)),
            f == (|s: Session| after_terminal_pass(s, *report)),
            updated@ == v0.subrange(0, i as int).map_values(f),
            emissions@.len() == v0.subrange(0, i as int).filter(pred).len(),
            forall|j: int|
                0 <= j < emissions@.len() ==> is_terminal_emission(
                    emissions@[j],
                    v0.subrange(0, i as int).filter(pred)[j],
                    *report,
                ),
        decreases n - i,
    {
        let ghost prefix = v0.subrange(0, i as int);
        let ghost x = v0[i as int];
        let s = &manager.sessions[i];
        if matches!(s.status, SessionStatus::Running) && s.terminal_type.is_some() {
            match marker_lookup(&report.exit_markers, s.id.as_str()) {
                Some(code) => {
                    let mut upd = s.clone();
                    upd.status = SessionStatus::Stopped;
                    updated.push(upd.clone());
                    let notice = if code == 0 {
                        let mut body = s.env_name.clone();
                        body.append(" task completed");
                        Notice { title: String::from_str("Task Completed"), body }
                    } else {
                        let mut body = s.env_name.clone();
                        body.append(" exited with code: ");
                        append_decimal_i32(&mut body, code);
                        Notice { title: String::from_str("Task Error"), body }
                    };
                    let event = if code == 0 {
                        EventKind::TaskCompleted
                    } else {
                        EventKind::TaskError
                    };
                    emissions.push(
                        Emission { event, session: upd, notice: Some(notice), remove_marker: true },
                    );
                    proof {
                        assert(marker_stops(x, *report));
                    }
                },
                None => {
                    let mut gone = false;
                    if matches!(s.terminal_type, Some(TerminalType::ITerm2)) {
                        if let Some(w) = &s.window_id {
                            gone = !windows_contain(&report.open_windows, w.as_str());
                        }
                    }
                    proof {
                        assert(gone == window_interrupts(x, *report));
                    }
                    if gone {
                        let mut upd = s.clone();
                        upd.status = SessionStatus::Interrupted;
                        updated.push(upd.clone());
                        let mut body = s.env_name.clone();
                        body.append(" window was closed");
                        let notice = Notice { title: String::from_str("Session Interrupted"), body };
                        emissions.push(
                            Emission {
                                event: EventKind::SessionInterrupted,
                                session: upd,
                                notice: Some(notice),
                                remove_marker: false,
                            },
                        );
                    } else {
                        updated.push(s.clone());
                    }
                },
            }
        } else {
            proof {
                assert(!pred(x));
                assert(f(x) == x);
            }
            updated.push(s.clone());
        }
        proof {
            let ext = v0.subrange(0, i as int + 1);
            assert(ext =~= prefix.push(x));
            crate::session::lemma_filter_push(prefix, pred, x);
            assert(ext.map_values(f) =~= prefix.map_values(f).push(f(x)));
            if pred(x) {
                assert(ext.filter(pred) =~= prefix.filter(pred).push(x));
            }
        }
        i += 1;
    }
    proof {
        assert(v0.subrange(0, n as int) =~= v0);
    }
    manager.sessions = updated;
    emissions
}

/// One whole monitor tick: the process-liveness pass, then the terminal
/// pass over its outcome. Every session ends at `after_tick` of its old
/// record; the reported events are the process-pass events, in registry
/// order, followed by the terminal-pass events, in registry order.
pub fn monitor_tick(manager: &mut SessionManager, report: &ProbeReport) -> (emissions: Vec<
    Emission,
>)
    ensures
        final(manager)@.len() == old(manager)@.len(),
        forall|i: int|
            0 <= i < old(manager)@.len() ==> final(manager)@[i] == after_tick(
                old(manager)@[i],
                *report,
            ),
        ({
            let stopped = old(manager)@.filter(|s: Session| pid_stops(s, *report));
            let mid = old(manager)@.map_values(|s: Session| after_pid_pass(s, *report));
            let transitioned = mid.filter(|s: Session| terminal_transitions(s, *report));
            &&& emissions@.len() == stopped.len() + transitioned.len()
            &&& forall|j: int|
                0 <= j < stopped.len() ==> is_pid_emission(emissions@[j], stopped[j])
            &&& forall|j: int|
                0 <= j < transitioned.len() ==> is_terminal_emission(
                    emissions@[stopped.len() + j],
                    transitioned[j],
                    *report,
                )
        }),
{
    let mut emissions = pid_liveness_pass(manager, report);
    let mut more = terminal_pass(manager, report);
    emissions.append(&mut more);
    emissions
}

/// How many records in the sequence carry this id.
pub open spec fn count_for_id(v: Seq<Session>, id: Seq<char>) -> nat
    decreases v.len(),
{
    if v.len() == 0 {
        0
    } else {
        count_for_id(v.drop_last(), id) + if v.last().id@ == id {
            1nat
        } else {
            0nat
        }
    }
}

/// In a registry with unique ids, a selection holds exactly one record with
/// a given id when some record with that id is selected, and none otherwise.
pub proof fn lemma_count_in_filter(v: Seq<Session>, pred: spec_fn(Session) -> bool, id: Seq<char>)
    requires
        unique_ids(v),
    ensures
        count_for_id(v.filter(pred), id) == if exists|i: int|
            0 <= i < v.len() && v[i].id@ == id && pred(v[i]) {
            1nat
        } else {
            0nat
        },
    decreases v.len(),
{
    reveal(Seq::filter);
    if v.len() == 0 {
        assert(v.filter(pred).len() == 0);
    } else {
        let w = v.drop_last();
        let x = v.last();
        assert(unique_ids(w)) by {
            assert(forall|k: int| 0 <= k < w.len() ==> w[k] == v[k]);
        }
        lemma_count_in_filter(w, pred, id);
        assert(v =~= w.push(x));
        lemma_filter_push(w, pred, x);
        let matches_x = x.id@ == id && pred(x);
        let exists_w = exists|i: int| 0 <= i < w.len() && w[i].id@ == id && pred(w[i]);
        let exists_v = exists|i: int| 0 <= i < v.len() && v[i].id@ == id && pred(v[i]);
        if matches_x {
            // uniqueness rules the id out of the rest
            assert(forall|k: int| 0 <= k < w.len() ==> w[k] == v[k] && #[trigger] w[k].id@ != id);
            assert(!exists_w);
            assert(count_for_id(w.filter(pred), id) == 0);
            assert(v.filter(pred) == w.filter(pred).push(x));
            assert(w.filter(pred).push(x).drop_last() =~= w.filter(pred));
            assert(count_for_id(v.filter(pred), id) == 1);
            assert(exists_v) by {
                assert(v[v.len() - 1].id@ == id && pred(v[v.len() - 1]));
            }
        } else {
            if pred(x) {
                assert(v.filter(pred) == w.filter(pred).push(x));
                assert(w.filter(pred).push(x).drop_last() =~= w.filter(pred));
            } else {
                assert(v.filter(pred) == w.filter(pred));
            }
            assert(count_for_id(v.filter(pred), id) == count_for_id(w.filter(pred), id));
            if exists_v {
                let i = choose|i: int| 0 <= i < v.len() && v[i].id@ == id && pred(v[i]);
                assert(i < w.len() && w[i] == v[i]);
                assert(exists_w);
            }
            if exists_w {
                let i = choose|i: int| 0 <= i < w.len() && w[i].id@ == id && pred(w[i]);
                assert(v[i] == w[i]);
                assert(exists_v);
            }
        }
    }
}

/// The registry after one tick, record by record.
pub open spec fn tick_result(v: Seq<Session>, r: ProbeReport) -> Seq<Session> {
    v.map_values(|s: Session| after_tick(s, r))
}

/// A tick never changes which session a record is — ids survive, so unique
/// ids stay unique.
pub proof fn lemma_tick_preserves_ids(v: Seq<Session>, r: ProbeReport)
    ensures
        tick_result(v, r).len() == v.len(),
        forall|i: int| 0 <= i < v.len() ==> (#[trigger] tick_result(v, r)[i]).id@ == v[i].id@,
        unique_ids(v) ==> unique_ids(tick_result(v, r)),
{
}

/// Law: an inconclusive tick is harmless. A session whose process was not
/// reported dead, with no exit marker recorded and whose window — where it
/// has one — is still listed open, comes out of the tick unchanged and
/// reports nothing; a probe that could not complete simply leaves its
/// session out of the report, so a failed probe never moves a session.
pub proof fn lemma_inconclusive_probes_leave_unchanged(s: Session, r: ProbeReport)
    requires
        s.pid matches Some(p) ==> !r.pid_dead(p),
        r.marker_code(s.id@) is None,
        s.window_id matches Some(w) ==> r.window_open(w@),
    ensures
        after_tick(s, r) == s,
        !pid_stops(s, r),
        !terminal_transitions(s, r),
{
}

/// A session already in a terminal state is never touched by a tick and
/// never selected by either pass.
pub proof fn lemma_settled_session_unchanged(s: Session, r: ProbeReport)
    requires
        s.status != SessionStatus::Running,
    ensures
        after_tick(s, r) == s,
        !pid_stops(s, r),
        !terminal_transitions(s, r),
{
}

/// In a registry whose record with this id is no longer running, a tick
/// selects nothing with that id: no process-pass event and no terminal-pass
/// event is reported for it.
pub proof fn lemma_settled_session_silent(w: Seq<Session>, r: ProbeReport, id: Seq<char>)
    requires
        unique_ids(w),
        forall|k: int|
            0 <= k < w.len() && (#[trigger] w[k]).id@ == id ==> w[k].status
                != SessionStatus::Running,
    ensures
        count_for_id(w.filter(|s: Session| pid_stops(s, r)), id) == 0,
        count_for_id(
            w.map_values(|s: Session| after_pid_pass(s, r)).filter(
                |s: Session| terminal_transitions(s, r),
            ),
            id,
        ) == 0,
{
    lemma_count_in_filter(w, |s: Session| pid_stops(s, r), id);
    let mid = w.map_values(|s: Session| after_pid_pass(s, r));
    assert(unique_ids(mid)) by {
        assert(forall|k: int| 0 <= k < w.len() ==> (#[trigger] mid[k]).id@ == w[k].id@);
    }
    assert(forall|k: int|
        0 <= k < mid.len() && (#[trigger] mid[k]).id@ == id ==> !terminal_transitions(mid[k], r))
        by {
        assert(forall|k: int|
            0 <= k < mid.len() && (#[trigger] mid[k]).id@ == id ==> mid[k] == w[k]);
    }
    lemma_count_in_filter(mid, |s: Session| terminal_transitions(s, r), id);
}

/// Law: a running session whose probed process id is dead moves to `stopped`
/// in one tick, and the tick reports exactly one event for it: a
/// `session-updated` one from the process pass, and none from the terminal
/// pass.
pub proof fn lemma_dead_pid_one_tick(v: Seq<Session>, r: ProbeReport, i: int)
    requires
        unique_ids(v),
        0 <= i < v.len(),
        v[i].status == SessionStatus::Running,
        v[i].pid is Some,
        r.pid_dead(v[i].pid->0),
    ensures
        after_tick(v[i], r) == v[i].with_status(SessionStatus::Stopped),
        count_for_id(v.filter(|s: Session| pid_stops(s, r)), v[i].id@) == 1,
        count_for_id(
            v.map_values(|s: Session| after_pid_pass(s, r)).filter(
                |s: Session| terminal_transitions(s, r),
            ),
            v[i].id@,
        ) == 0,
{
    let id = v[i].id@;
    lemma_count_in_filter(v, |s: Session| pid_stops(s, r), id);
    assert(exists|k: int| 0 <= k < v.len() && v[k].id@ == id && pid_stops(v[k], r)) by {
        assert(v[i].id@ == id && pid_stops(v[i], r));
    }
    let mid = v.map_values(|s: Session| after_pid_pass(s, r));
    assert(unique_ids(mid)) by {
        assert(forall|k: int| 0 <= k < v.len() ==> (#[trigger] mid[k]).id@ == v[k].id@);
    }
    assert(forall|k: int|
        0 <= k < mid.len() && (#[trigger] mid[k]).id@ == id ==> !terminal_transitions(mid[k], r))
        by {
        assert forall|k: int|
            0 <= k < mid.len() && (#[trigger] mid[k]).id@ == id implies !terminal_transitions(
            mid[k],
            r,
        ) by {
            assert(v[k].id@ == id);
            if k != i {
                assert(false);
            }
            assert(mid[i] == v[i].with_status(SessionStatus::Stopped));
        }
    }
    lemma_count_in_filter(mid, |s: Session| terminal_transitions(s, r), id);
}

/// Law: a running terminal session with a recorded exit marker — and no dead
/// probed process of its own — is stopped by one tick, with exactly one
/// event, from the terminal pass; that event flags the marker for deletion,
/// reads `task-completed` on exit code zero and `task-error` otherwise, and
/// in the error case its notification ends with the code's decimal writing.
pub proof fn lemma_exit_marker_one_tick(v: Seq<Session>, r: ProbeReport, i: int, code: i32)
    requires
        unique_ids(v),
        0 <= i < v.len(),
        v[i].is_running_with_terminal(),
        !pid_stops(v[i], r),
        r.marker_code(v[i].id@) == Some(code),
    ensures
        after_tick(v[i], r) == v[i].with_status(SessionStatus::Stopped),
        count_for_id(v.filter(|s: Session| pid_stops(s, r)), v[i].id@) == 0,
        count_for_id(
            v.map_values(|s: Session| after_pid_pass(s, r)).filter(
                |s: Session| terminal_transitions(s, r),
            ),
            v[i].id@,
        ) == 1,
        forall|e: Emission|
            #[trigger] is_terminal_emission(e, after_pid_pass(v[i], r), r) ==> {
                &&& e.remove_marker
                &&& e.session == v[i].with_status(SessionStatus::Stopped)
                &&& (code == 0 ==> e.event == EventKind::TaskCompleted)
                &&& (code != 0 ==> e.event == EventKind::TaskError && e.notice->0.body@.skip(
                    e.notice->0.body@.len() - spec_dec_int(code as int).len(),
                ) == spec_dec_int(code as int))
            },
{
    let id = v[i].id@;
    assert(after_pid_pass(v[i], r) == v[i]);
    lemma_count_in_filter(v, |s: Session| pid_stops(s, r), id);
    assert(forall|k: int| 0 <= k < v.len() && (#[trigger] v[k]).id@ == id ==> k == i);
    let mid = v.map_values(|s: Session| after_pid_pass(s, r));
    assert(unique_ids(mid)) by {
        assert(forall|k: int| 0 <= k < v.len() ==> (#[trigger] mid[k]).id@ == v[k].id@);
    }
    assert(exists|k: int| 0 <= k < mid.len() && mid[k].id@ == id && terminal_transitions(mid[k], r))
        by {
        assert(mid[i] == v[i] && mid[i].id@ == id && marker_stops(v[i], r));
    }
    lemma_count_in_filter(mid, |s: Session| terminal_transitions(s, r), id);
    assert forall|e: Emission|
        #[trigger] is_terminal_emission(e, after_pid_pass(v[i], r), r) implies {
        &&& e.remove_marker
        &&& e.session == v[i].with_status(SessionStatus::Stopped)
        &&& (code == 0 ==> e.event == EventKind::TaskCompleted)
        &&& (code != 0 ==> e.event == EventKind::TaskError && e.notice->0.body@.skip(
            e.notice->0.body@.len() - spec_dec_int(code as int).len(),
        ) == spec_dec_int(code as int))
    } by {
        assert(marker_stops(v[i], r));
        assert(is_marker_emission(e, v[i], code));
        if code != 0 {
            let body = e.notice->0.body@;
            let dec = spec_dec_int(code as int);
            assert(body == v[i].env_name@ + " exited with code: "@ + dec);
            assert(body.skip(body.len() - dec.len()) =~= dec);
        }
    }
}

/// Law: a running iTerm2 session with no exit marker whose window id is
/// absent from the batch-queried window set — and no dead probed process —
/// is interrupted by one tick, with exactly one event, a
/// `session-interrupted` one from the terminal pass; and a second tick, on
/// any report, changes nothing for it and reports nothing: `interrupted` is
/// terminal.
pub proof fn lemma_window_closed_one_tick(
    v: Seq<Session>,
    r: ProbeReport,
    r2: ProbeReport,
    i: int,
)
    requires
        unique_ids(v),
        0 <= i < v.len(),
        v[i].is_running_with_terminal(),
        !pid_stops(v[i], r),
        r.marker_code(v[i].id@) is None,
        v[i].terminal_type == Some(TerminalType::ITerm2),
        v[i].window_id is Some,
        !r.window_open(v[i].window_id->0@),
    ensures
        after_tick(v[i], r) == v[i].with_status(SessionStatus::Interrupted),
        count_for_id(v.filter(|s: Session| pid_stops(s, r)), v[i].id@) == 0,
        count_for_id(
            v.map_values(|s: Session| after_pid_pass(s, r)).filter(
                |s: Session| terminal_transitions(s, r),
            ),
            v[i].id@,
        ) == 1,
        forall|e: Emission|
            #[trigger] is_terminal_emission(e, after_pid_pass(v[i], r), r)
                ==> is_interrupt_emission(e, v[i]),
        after_tick(after_tick(v[i], r), r2) == after_tick(v[i], r),
        count_for_id(tick_result(v, r).filter(|s: Session| pid_stops(s, r2)), v[i].id@) == 0,
        count_for_id(
            tick_result(v, r).map_values(|s: Session| after_pid_pass(s, r2)).filter(
                |s: Session| terminal_transitions(s, r2),
            ),
            v[i].id@,
        ) == 0,
{
    let id = v[i].id@;
    assert(after_pid_pass(v[i], r) == v[i]);
    assert(window_interrupts(v[i], r));
    lemma_count_in_filter(v, |s: Session| pid_stops(s, r), id);
    assert(forall|k: int| 0 <= k < v.len() && (#[trigger] v[k]).id@ == id ==> k == i);
    let mid = v.map_values(|s: Session| after_pid_pass(s, r));
    assert(unique_ids(mid)) by {
        assert(forall|k: int| 0 <= k < v.len() ==> (#[trigger] mid[k]).id@ == v[k].id@);
    }
    assert(exists|k: int| 0 <= k < mid.len() && mid[k].id@ == id && terminal_transitions(mid[k], r))
        by {
        assert(mid[i] == v[i] && mid[i].id@ == id);
    }
    lemma_count_in_filter(mid, |s: Session| terminal_transitions(s, r), id);
    let after = tick_result(v, r);
    lemma_tick_preserves_ids(v, r);
    assert(after[i] == v[i].with_status(SessionStatus::Interrupted));
    assert(forall|k: int|
        0 <= k < after.len() && (#[trigger] after[k]).id@ == id ==> after[k].status
            != SessionStatus::Running) by {
        assert(forall|k: int|
            0 <= k < after.len() && (#[trigger] after[k]).id@ == id ==> v[k].id@ == id && k == i);
    }
    lemma_settled_session_silent(after, r2, id);
}

/// Law: two ticks in immediate succession never both report a stop for a
/// process that was already dead before the first. The first tick stops the
/// session and reports exactly once; the second finds it no longer running —
/// the liveness pass only looks at running sessions — and reports nothing.
pub proof fn lemma_no_duplicate_dead_report(
    v: Seq<Session>,
    r1: ProbeReport,
    r2: ProbeReport,
    i: int,
)
    requires
        unique_ids(v),
        0 <= i < v.len(),
        v[i].status == SessionStatus::Running,
        v[i].pid is Some,
        r1.pid_dead(v[i].pid->0),
    ensures
        count_for_id(v.filter(|s: Session| pid_stops(s, r1)), v[i].id@) == 1,
        tick_result(v, r1)[i].status == SessionStatus::Stopped,
        count_for_id(tick_result(v, r1).filter(|s: Session| pid_stops(s, r2)), v[i].id@) == 0,
        count_for_id(
            tick_result(v, r1).map_values(|s: Session| after_pid_pass(s, r2)).filter(
                |s: Session| terminal_transitions(s, r2),
            ),
            v[i].id@,
        ) == 0,
{
    let id = v[i].id@;
    lemma_dead_pid_one_tick(v, r1, i);
    let after = tick_result(v, r1);
    lemma_tick_preserves_ids(v, r1);
    assert(after[i] == v[i].with_status(SessionStatus::Stopped));
    assert(forall|k: int| 0 <= k < v.len() && (#[trigger] v[k]).id@ == id ==> k == i);
    assert(forall|k: int|
        0 <= k < after.len() && (#[trigger] after[k]).id@ == id ==> after[k].status
            != SessionStatus::Running) by {
        assert(forall|k: int|
            0 <= k < after.len() && (#[trigger] after[k]).id@ == id ==> v[k].id@ == id);
    }
    lemma_settled_session_silent(after, r2, id);
}

} // verus!
