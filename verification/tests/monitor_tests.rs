use ccem_core::monitor::{monitor_tick, EventKind, ProbeReport};
use ccem_core::session::{Session, SessionManager, SessionStatus};
use ccem_core::terminal::TerminalType;

fn terminal_session(id: &str, window: &str) -> Session {
    Session {
        id: id.to_string(),
        pid: None,
        env_name: "official".to_string(),
        perm_mode: "dev".to_string(),
        working_dir: "/home/user/project".to_string(),
        start_time: "2026-02-07T01:06:29.622Z".to_string(),
        status: SessionStatus::Running,
        terminal_type: Some(TerminalType::ITerm2),
        window_id: Some(window.to_string()),
    }
}

fn pid_session(id: &str, pid: u32) -> Session {
    Session {
        id: id.to_string(),
        pid: Some(pid),
        env_name: "official".to_string(),
        perm_mode: "dev".to_string(),
        working_dir: "/home/user/project".to_string(),
        start_time: "2026-02-07T01:06:29.622Z".to_string(),
        status: SessionStatus::Running,
        terminal_type: None,
        window_id: None,
    }
}

fn empty_report() -> ProbeReport {
    ProbeReport { dead_pids: Vec::new(), open_windows: Vec::new(), exit_markers: Vec::new() }
}

#[test]
fn test_dead_pid_stops_session_once() {
    let mut manager = SessionManager::default();
    manager.add_session(pid_session("p1", 42)).unwrap();
    let report = ProbeReport { dead_pids: vec![42], ..empty_report() };

    let emissions = monitor_tick(&mut manager, &report);

    assert_eq!(manager.get_session("p1").unwrap().status, SessionStatus::Stopped);
    assert_eq!(emissions.len(), 1);
    assert_eq!(emissions[0].event, EventKind::SessionUpdated);
    assert_eq!(emissions[0].session.id, "p1");
    assert_eq!(emissions[0].session.status, SessionStatus::Stopped);
    assert!(emissions[0].notice.is_none());
    assert!(!emissions[0].remove_marker);
}

#[test]
fn test_live_pid_left_alone() {
    let mut manager = SessionManager::default();
    manager.add_session(pid_session("p1", 42)).unwrap();
    let emissions = monitor_tick(&mut manager, &empty_report());
    assert!(emissions.is_empty());
    assert_eq!(manager.get_session("p1").unwrap().status, SessionStatus::Running);
}

#[test]
fn test_exit_marker_zero_completes_task() {
    let mut manager = SessionManager::default();
    manager.add_session(terminal_session("t1", "w-1")).unwrap();
    let report = ProbeReport {
        exit_markers: vec![("t1".to_string(), 0)],
        open_windows: vec!["w-1".to_string()],
        ..empty_report()
    };

    let emissions = monitor_tick(&mut manager, &report);

    assert_eq!(manager.get_session("t1").unwrap().status, SessionStatus::Stopped);
    assert_eq!(emissions.len(), 1);
    assert_eq!(emissions[0].event, EventKind::TaskCompleted);
    assert!(emissions[0].remove_marker);
    let notice = emissions[0].notice.as_ref().unwrap();
    assert_eq!(notice.title, "Task Completed");
    assert_eq!(notice.body, "official task completed");
}

#[test]
fn test_exit_marker_two_reports_error_with_code() {
    let mut manager = SessionManager::default();
    manager.add_session(terminal_session("t1", "w-1")).unwrap();
    let report = ProbeReport {
        exit_markers: vec![("t1".to_string(), 2)],
        open_windows: vec!["w-1".to_string()],
        ..empty_report()
    };

    let emissions = monitor_tick(&mut manager, &report);

    assert_eq!(manager.get_session("t1").unwrap().status, SessionStatus::Stopped);
    assert_eq!(emissions.len(), 1);
    assert_eq!(emissions[0].event, EventKind::TaskError);
    assert!(emissions[0].remove_marker);
    let notice = emissions[0].notice.as_ref().unwrap();
    assert_eq!(notice.title, "Task Error");
    assert_eq!(notice.body, "official exited with code: 2");
    assert!(notice.body.contains("2"));
}

#[test]
fn test_closed_window_interrupts_once() {
    let mut manager = SessionManager::default();
    manager.add_session(terminal_session("t1", "w-1")).unwrap();
    // no marker, and the batch query does not list w-1
    let report = ProbeReport { open_windows: vec!["w-2".to_string()], ..empty_report() };

    let emissions = monitor_tick(&mut manager, &report);

    assert_eq!(manager.get_session("t1").unwrap().status, SessionStatus::Interrupted);
    assert_eq!(emissions.len(), 1);
    assert_eq!(emissions[0].event, EventKind::SessionInterrupted);
    assert!(!emissions[0].remove_marker);
    let notice = emissions[0].notice.as_ref().unwrap();
    assert_eq!(notice.title, "Session Interrupted");
    assert_eq!(notice.body, "official window was closed");

    // a second tick makes no further transition and reports nothing
    let again = monitor_tick(&mut manager, &report);
    assert!(again.is_empty());
    assert_eq!(manager.get_session("t1").unwrap().status, SessionStatus::Interrupted);
}

#[test]
fn test_marker_wins_over_closed_window() {
    let mut manager = SessionManager::default();
    manager.add_session(terminal_session("t1", "w-1")).unwrap();
    // marker present and window gone: the marker check runs first
    let report = ProbeReport {
        exit_markers: vec![("t1".to_string(), 0)],
        ..empty_report()
    };

    let emissions = monitor_tick(&mut manager, &report);

    assert_eq!(manager.get_session("t1").unwrap().status, SessionStatus::Stopped);
    assert_eq!(emissions.len(), 1);
    assert_eq!(emissions[0].event, EventKind::TaskCompleted);
}

#[test]
fn test_terminal_app_window_assumed_alive() {
    let mut manager = SessionManager::default();
    let mut s = terminal_session("t1", "w-1");
    s.terminal_type = Some(TerminalType::TerminalApp);
    manager.add_session(s).unwrap();
    // Terminal.app cannot be enumerated precisely: no interruption
    let emissions = monitor_tick(&mut manager, &empty_report());
    assert!(emissions.is_empty());
    assert_eq!(manager.get_session("t1").unwrap().status, SessionStatus::Running);
}

#[test]
fn test_no_duplicate_dead_report_across_ticks() {
    let mut manager = SessionManager::default();
    manager.add_session(pid_session("p1", 42)).unwrap();
    let report = ProbeReport { dead_pids: vec![42], ..empty_report() };

    let first = monitor_tick(&mut manager, &report);
    assert_eq!(first.len(), 1);

    // the process was already dead before the first tick; the second tick
    // finds the session stopped and skips it
    let second = monitor_tick(&mut manager, &report);
    assert!(second.is_empty());
    assert_eq!(manager.get_session("p1").unwrap().status, SessionStatus::Stopped);
}

#[test]
fn test_tick_order_pid_events_before_terminal_events() {
    let mut manager = SessionManager::default();
    manager.add_session(terminal_session("t1", "w-gone")).unwrap();
    manager.add_session(pid_session("p1", 42)).unwrap();
    let report = ProbeReport { dead_pids: vec![42], ..empty_report() };

    let emissions = monitor_tick(&mut manager, &report);

    assert_eq!(emissions.len(), 2);
    assert_eq!(emissions[0].event, EventKind::SessionUpdated);
    assert_eq!(emissions[0].session.id, "p1");
    assert_eq!(emissions[1].event, EventKind::SessionInterrupted);
    assert_eq!(emissions[1].session.id, "t1");
}

#[test]
fn test_unprobed_sessions_stay_running() {
    let mut manager = SessionManager::default();
    let mut s = terminal_session("t1", "w-1");
    s.window_id = None;
    manager.add_session(s).unwrap();
    // an iTerm2 session without a recorded window id is never interrupted
    let emissions = monitor_tick(&mut manager, &empty_report());
    assert!(emissions.is_empty());
    assert_eq!(manager.get_session("t1").unwrap().status, SessionStatus::Running);
}
