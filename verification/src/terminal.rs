//! Terminal kinds that can host a launched session, and the shell/AppleScript
//! command text built for them.

use vstd::prelude::*;
use vstd::string::StringExecFns;
use crate::text::{append_escaped_dq, append_escaped_sq, spec_escape_dq, spec_escape_sq};

verus! {

/// Supported terminal applications on macOS.
#[derive(Debug, Clone, Copy, PartialEq, Eq, Structural)]
pub enum TerminalType {
    TerminalApp,
    ITerm2,
}

impl TerminalType {
    /// The name shown to the user for this terminal kind.
    pub fn display_name(&self) -> (r: &'static str)
        ensures
            *self == TerminalType::TerminalApp ==> r@ == "Terminal.app"@,
            *self == TerminalType::ITerm2 ==> r@ == "iTerm2"@,
    {
        match self {
            TerminalType::TerminalApp => "Terminal.app",
            TerminalType::ITerm2 => "iTerm2",
        }
    }

    /// The application name used when scripting this terminal kind.
    pub fn app_name(&self) -> (r: &'static str)
        ensures
            *self == TerminalType::TerminalApp ==> r@ == "Terminal"@,
            *self == TerminalType::ITerm2 ==> r@ == "iTerm2"@,
    {
        match self {
            TerminalType::TerminalApp => "Terminal",
            TerminalType::ITerm2 => "iTerm2",
        }
    }
}

/// Availability of one terminal application on this machine.
pub struct TerminalInfo {
    pub terminal_type: TerminalType,
    pub name: String,
    pub installed: bool,
}

/// Builds the list of known terminals. Terminal.app ships with macOS and is
/// always reported as installed; whether iTerm2 is installed is probed by the
/// caller and passed in.
pub fn detect_terminals(iterm2_installed: bool) -> (r: Vec<TerminalInfo>)
    ensures
        r@.len() == 2,
        r@[0].terminal_type == TerminalType::TerminalApp,
        r@[0].name@ == "Terminal.app"@,
        r@[0].installed,
        r@[1].terminal_type == TerminalType::ITerm2,
        r@[1].name@ == "iTerm2"@,
        r@[1].installed == iterm2_installed,
{
    let mut terminals: Vec<TerminalInfo> = Vec::new();
    terminals.push(TerminalInfo {
        terminal_type: TerminalType::TerminalApp,
        name: String::from_str("Terminal.app"),
        installed: true,
    });
    terminals.push(TerminalInfo {
        terminal_type: TerminalType::ITerm2,
        name: String::from_str("iTerm2"),
        installed: iterm2_installed,
    });
    terminals
}

/// Which terminal a launch should use: the stored preference where it is
/// still installed — Terminal.app always is, iTerm2 only when detected —
/// and otherwise iTerm2 when installed, falling back to Terminal.app.
pub fn choose_preferred_terminal(
    stored: Option<TerminalType>,
    iterm2_installed: bool,
) -> (r: TerminalType)
    ensures
        stored == Some(TerminalType::TerminalApp) ==> r == TerminalType::TerminalApp,
        stored == Some(TerminalType::ITerm2) && iterm2_installed ==> r == TerminalType::ITerm2,
        (stored is None || (stored == Some(TerminalType::ITerm2) && !iterm2_installed)) ==> r == (
        if iterm2_installed {
            TerminalType::ITerm2
        } else {
            TerminalType::TerminalApp
        }),
{
    match stored {
        Some(TerminalType::TerminalApp) => TerminalType::TerminalApp,
        Some(TerminalType::ITerm2) if iterm2_installed => TerminalType::ITerm2,
        _ => {
            if iterm2_installed {
                TerminalType::ITerm2
            } else {
                TerminalType::TerminalApp
            }
        },
    }
}

/// One `export` clause of the launch command, with the joining `&&`.
pub open spec fn spec_export_clause(key: Seq<char>, value: Seq<char>) -> Seq<char> {
    " && export "@ + key + "='"@ + spec_escape_sq(value) + "'"@
}

/// The `export` clauses for all variables, in order.
pub open spec fn spec_export_clauses(env: Seq<(String, String)>) -> Seq<char>
    decreases env.len(),
{
    if env.len() == 0 {
        Seq::empty()
    } else {
        spec_export_clauses(env.drop_last()) + spec_export_clause(
            env.last().0@,
            env.last().1@,
        )
    }
}

/// The whole shell command the terminal runs: prepare the marker directory,
/// enter the working directory (double-quoted, escaped), export each variable
/// (single-quoted, escaped), then run the assistant and record its exit code
/// in the session's marker file.
pub open spec fn spec_shell_command(
    env: Seq<(String, String)>,
    dir: Seq<char>,
    id: Seq<char>,
) -> Seq<char> {
    "mkdir -p ~/.ccem/sessions && cd \""@ + spec_escape_dq(dir) + "\""@ + spec_export_clauses(env)
        + " && agent; echo $? > ~/.ccem/sessions/'"@ + spec_escape_sq(id) + "'.exit"@
}

/// Builds the shell command that sets the environment and launches the
/// assistant, recording its exit code under the session id when it ends.
pub fn build_shell_command(
    env_vars: &Vec<(String, String)>,
    working_dir: &str,
    session_id: &str,
) -> (r: String)
    ensures
        r@ == spec_shell_command(env_vars@, working_dir@, session_id@),
{
    let mut out = String::from_str("mkdir -p ~/.ccem/sessions && cd \"");
    append_escaped_dq(&mut out, working_dir);
    out.append("\"");
    let ghost head = out@;
    let n = env_vars.len();
    let mut i: usize = 0;
    while i < n
        invariant
            n == env_vars@.len(),
            i <= n,
            head == "mkdir -p ~/.ccem/sessions && cd \""@ + spec_escape_dq(working_dir@)
                + "\""@,
            out@ == head + spec_export_clauses(env_vars@.subrange(0, i as int)),
        decreases n - i,
    {
        let ghost prefix = env_vars@.subrange(0, i as int);
        let pair = &env_vars[i];
        out.append(" && export ");
        out.append(pair.0.as_str());
        out.append("='");
        append_escaped_sq(&mut out, pair.1.as_str());
        out.append("'");
        proof {
            let ext = env_vars@.subrange(0, i as int + 1);
            assert(ext.drop_last() =~= prefix);
            assert(out@ =~= head + spec_export_clauses(ext));
        }
        i += 1;
    }
    proof {
        assert(env_vars@.subrange(0, n as int) =~= env_vars@);
    }
    out.append(" && agent; echo $? > ~/.ccem/sessions/'");
    append_escaped_sq(&mut out, session_id);
    out.append("'.exit");
    proof {
        assert(out@ =~= spec_shell_command(env_vars@, working_dir@, session_id@));
    }
    out
}

/// The AppleScript that opens a Terminal.app window running the command.
pub open spec fn spec_terminal_app_script(cmd: Seq<char>) -> Seq<char> {
    "tell application \"Terminal\"\n    do script \""@ + spec_escape_dq(cmd)
        + "\"\n    activate\nend tell"@
}

/// Writes the Terminal.app launch script around the (escaped) shell command.
pub fn terminal_app_script(shell_command: &str) -> (r: String)
    ensures
        r@ == spec_terminal_app_script(shell_command@),
{
    let mut out = String::from_str("tell application \"Terminal\"\n    do script \"");
    append_escaped_dq(&mut out, shell_command);
    out.append("\"\n    activate\nend tell");
    proof {
        assert(out@ =~= spec_terminal_app_script(shell_command@));
    }
    out
}

/// The AppleScript that opens an iTerm2 window running the command and hands
/// back the new window's id.
pub open spec fn spec_iterm2_script(cmd: Seq<char>) -> Seq<char> {
    "tell application \"iTerm2\"\n    set newWindow to (create window with default profile)\n    tell current session of newWindow\n        write text \""@
        + spec_escape_dq(cmd)
        + "\"\n    end tell\n    activate\n    return id of newWindow\nend tell"@
}

/// Writes the iTerm2 launch script around the (escaped) shell command.
pub fn iterm2_script(shell_command: &str) -> (r: String)
    ensures
        r@ == spec_iterm2_script(shell_command@),
{
    let mut out = String::from_str(
        "tell application \"iTerm2\"\n    set newWindow to (create window with default profile)\n    tell current session of newWindow\n        write text \"",
    );
    append_escaped_dq(&mut out, shell_command);
    out.append("\"\n    end tell\n    activate\n    return id of newWindow\nend tell");
    proof {
        assert(out@ =~= spec_iterm2_script(shell_command@));
    }
    out
}

} // verus!
