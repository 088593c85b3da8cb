use ccem_core::session::{
    generate_session_id, parse_exit_code, session_id_for, RegistryError, Session, SessionManager,
    SessionStatus,
};
use ccem_core::terminal::TerminalType;

fn sample_session(id: &str, pid: Option<u32>) -> Session {
    Session {
        id: id.to_string(),
        pid,
        env_name: "official".to_string(),
        perm_mode: "dev".to_string(),
        working_dir: "/home/user/project".to_string(),
        start_time: "2026-02-07T01:06:29.622Z".to_string(),
        status: SessionStatus::Running,
        terminal_type: Some(TerminalType::ITerm2),
        window_id: Some("w-1".to_string()),
    }
}

#[test]
fn test_add_and_list_keeps_records() {
    let mut manager = SessionManager::default();
    manager.add_session(sample_session("s-1", Some(10))).unwrap();
    manager.add_session(sample_session("s-2", None)).unwrap();
    manager.add_session(sample_session("s-3", Some(30))).unwrap();

    let listed = manager.list_sessions();
    assert_eq!(listed.len(), 3);
    let ids: Vec<&str> = listed.iter().map(|s| s.id.as_str()).collect();
    assert_eq!(ids, vec!["s-1", "s-2", "s-3"]);
    // immutable fields unchanged
    assert_eq!(listed[0].pid, Some(10));
    assert_eq!(listed[0].env_name, "official");
    assert_eq!(listed[0].perm_mode, "dev");
    assert_eq!(listed[0].working_dir, "/home/user/project");
    assert_eq!(listed[0].start_time, "2026-02-07T01:06:29.622Z");
    assert_eq!(listed[0].status, SessionStatus::Running);
    assert_eq!(listed[0].terminal_type, Some(TerminalType::ITerm2));
    assert_eq!(listed[0].window_id, Some("w-1".to_string()));
}

#[test]
fn test_add_duplicate_id_is_refused() {
    let mut manager = SessionManager::default();
    manager.add_session(sample_session("dup", None)).unwrap();
    let r = manager.add_session(sample_session("dup", Some(7)));
    assert_eq!(r, Err(RegistryError::DuplicateId));
    assert_eq!(manager.list_sessions().len(), 1);
    assert_eq!(manager.list_sessions()[0].pid, None);
}

#[test]
fn test_remove_then_update_is_noop() {
    let mut manager = SessionManager::default();
    manager.add_session(sample_session("gone", None)).unwrap();
    manager.add_session(sample_session("stays", None)).unwrap();
    manager.remove_session("gone");
    manager.update_session_status("gone", SessionStatus::Stopped);

    let listed = manager.list_sessions();
    assert_eq!(listed.len(), 1);
    assert_eq!(listed[0].id, "stays");
    assert!(manager.get_session("gone").is_none());
}

#[test]
fn test_remove_absent_id_is_noop() {
    let mut manager = SessionManager::default();
    manager.add_session(sample_session("a", None)).unwrap();
    manager.remove_session("missing");
    assert_eq!(manager.list_sessions().len(), 1);
}

#[test]
fn test_update_status_changes_only_status() {
    let mut manager = SessionManager::default();
    manager.add_session(sample_session("a", Some(1))).unwrap();
    manager.update_session_status("a", SessionStatus::Interrupted);
    let got = manager.get_session("a").unwrap();
    assert_eq!(got.status, SessionStatus::Interrupted);
    assert_eq!(got.pid, Some(1));
    assert_eq!(got.env_name, "official");
}

#[test]
fn test_running_filters() {
    let mut manager = SessionManager::default();
    let mut with_pid = sample_session("p", Some(42));
    with_pid.terminal_type = None;
    with_pid.window_id = None;
    manager.add_session(with_pid).unwrap();
    let mut term_only = sample_session("t", None);
    term_only.window_id = None;
    manager.add_session(term_only).unwrap();
    let mut stopped = sample_session("s", Some(9));
    stopped.status = SessionStatus::Stopped;
    manager.add_session(stopped).unwrap();

    let pids = manager.get_running_sessions_with_pid();
    assert_eq!(pids, vec![("p".to_string(), 42u32)]);

    let running = manager.get_running_sessions();
    assert_eq!(running.len(), 2);

    let terminals = manager.get_running_terminal_sessions();
    assert_eq!(terminals.len(), 1);
    assert_eq!(terminals[0].id, "t");
}

#[test]
fn test_session_id_for_writes_decimal() {
    assert_eq!(session_id_for(0), "session-0");
    assert_eq!(session_id_for(1707267989622), "session-1707267989622");
}

#[test]
fn test_generate_session_id_shape() {
    let id = generate_session_id();
    assert!(id.starts_with("session-"));
    assert!(id.len() > "session-".len());
    assert!(id["session-".len()..].chars().all(|c| c.is_ascii_digit()));
}

#[test]
fn test_parse_exit_code_trims_and_parses() {
    assert_eq!(parse_exit_code("0\n"), Some(0));
    assert_eq!(parse_exit_code(" 2 \n"), Some(2));
    assert_eq!(parse_exit_code("-15"), Some(-15));
    assert_eq!(parse_exit_code("130"), Some(130));
}

#[test]
fn test_parse_exit_code_rejects_malformed() {
    assert_eq!(parse_exit_code(""), None);
    assert_eq!(parse_exit_code("ok"), None);
    assert_eq!(parse_exit_code("1 2"), None);
    assert_eq!(parse_exit_code("+"), None);
    assert_eq!(parse_exit_code("99999999999999999999"), None);
}
