use ccem_core::terminal::{
    build_shell_command, choose_preferred_terminal, detect_terminals, iterm2_script,
    terminal_app_script, TerminalType,
};

#[test]
fn test_build_shell_command() {
    let env_vars = vec![
        ("KEY1".to_string(), "value1".to_string()),
        ("KEY2".to_string(), "value2".to_string()),
    ];

    let cmd = build_shell_command(&env_vars, "/home/user", "test-session-123");

    assert!(cmd.contains("mkdir -p ~/.ccem/sessions"));
    assert!(cmd.contains("cd \"/home/user\""));
    assert!(cmd.contains("export KEY1='value1'"));
    assert!(cmd.contains("export KEY2='value2'"));
    assert!(cmd.contains("agent; echo $? > ~/.ccem/sessions/'test-session-123'.exit"));
}

#[test]
fn test_terminal_type_display_name() {
    assert_eq!(TerminalType::TerminalApp.display_name(), "Terminal.app");
    assert_eq!(TerminalType::ITerm2.display_name(), "iTerm2");
}

#[test]
fn test_terminal_type_app_name() {
    assert_eq!(TerminalType::TerminalApp.app_name(), "Terminal");
    assert_eq!(TerminalType::ITerm2.app_name(), "iTerm2");
}

#[test]
fn test_build_shell_command_exact() {
    let env_vars = vec![("A".to_string(), "b".to_string())];
    let cmd = build_shell_command(&env_vars, "/w", "s1");
    assert_eq!(
        cmd,
        "mkdir -p ~/.ccem/sessions && cd \"/w\" && export A='b' && agent; echo $? > ~/.ccem/sessions/'s1'.exit"
    );
}

#[test]
fn test_build_shell_command_escapes_working_dir() {
    let env_vars: Vec<(String, String)> = Vec::new();
    let cmd = build_shell_command(&env_vars, "/my \"dir\"\\x", "s");
    assert!(cmd.contains("cd \"/my \\\"dir\\\"\\\\x\""));
}

#[test]
fn test_build_shell_command_escapes_values_and_id() {
    let env_vars = vec![("K".to_string(), "it's".to_string())];
    let cmd = build_shell_command(&env_vars, "/w", "a'b");
    assert!(cmd.contains("export K='it'\\''s'"));
    assert!(cmd.contains("~/.ccem/sessions/'a'\\''b'.exit"));
}

#[test]
fn test_terminal_app_script_wraps_command() {
    let script = terminal_app_script("echo \"hi\"");
    assert_eq!(
        script,
        "tell application \"Terminal\"\n    do script \"echo \\\"hi\\\"\"\n    activate\nend tell"
    );
}

#[test]
fn test_iterm2_script_wraps_command() {
    let script = iterm2_script("run \\ it");
    assert!(script.starts_with("tell application \"iTerm2\""));
    assert!(script.contains("write text \"run \\\\ it\""));
    assert!(script.ends_with("return id of newWindow\nend tell"));
}

#[test]
fn test_detect_terminals_reports_both() {
    let with_iterm = detect_terminals(true);
    assert_eq!(with_iterm.len(), 2);
    assert_eq!(with_iterm[0].terminal_type, TerminalType::TerminalApp);
    assert_eq!(with_iterm[0].name, "Terminal.app");
    assert!(with_iterm[0].installed);
    assert_eq!(with_iterm[1].terminal_type, TerminalType::ITerm2);
    assert_eq!(with_iterm[1].name, "iTerm2");
    assert!(with_iterm[1].installed);

    let without = detect_terminals(false);
    assert!(!without[1].installed);
}

#[test]
fn test_choose_preferred_terminal() {
    assert_eq!(
        choose_preferred_terminal(Some(TerminalType::TerminalApp), true),
        TerminalType::TerminalApp
    );
    assert_eq!(
        choose_preferred_terminal(Some(TerminalType::ITerm2), true),
        TerminalType::ITerm2
    );
    // a stored preference that is no longer installed falls back
    assert_eq!(
        choose_preferred_terminal(Some(TerminalType::ITerm2), false),
        TerminalType::TerminalApp
    );
    assert_eq!(choose_preferred_terminal(None, true), TerminalType::ITerm2);
    assert_eq!(choose_preferred_terminal(None, false), TerminalType::TerminalApp);
}
