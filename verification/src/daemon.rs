//! The auto-switch daemon: a launchd agent on macOS, a scheduled task on
//! Windows. What its state is, and what installing and removing it take.
use vstd::prelude::*;
use vstd::string::StringExecFns;
use crate::models::{AutoSwitchRuntimeState, CoreError, Platform};
use crate::text::{
    ascii_lower_seq, chars_of, contains, contains_exec, eq_ignore_ascii_case, push_all, push_str,
    replace_char, replace_char_vec, string_of, trim, trim_vec,
};

verus! {

/// What was found out about the daemon.
#[derive(Debug, Clone, PartialEq)]
pub enum DaemonProbe {
    /// macOS: whether the launch agent file exists and whether launchd lists
    /// the agent's label.
    LaunchAgent { plist_exists: bool, label_loaded: bool },
    /// Windows: the state of the scheduled task, when there is one.
    ScheduledTask { state: Option<String> },
    /// Elsewhere no daemon is managed.
    Unsupported,
}

/// The state of the daemon (`check_daemon_state`): on macOS not installed
/// without its launch agent, running when launchd lists it, stopped
/// otherwise; on Windows running when the task's state is `running` (in any
/// case), stopped for another state, not installed without a task; not
/// installed elsewhere.
pub fn check_daemon_state(probe: &DaemonProbe) -> (s: AutoSwitchRuntimeState)
    ensures
        match probe {
            DaemonProbe::LaunchAgent { plist_exists, label_loaded } => s == if !*plist_exists {
                AutoSwitchRuntimeState::NotInstalled
            } else if *label_loaded {
                AutoSwitchRuntimeState::Running
            } else {
                AutoSwitchRuntimeState::Stopped
            },
            DaemonProbe::ScheduledTask { state } => s == match state {
                Some(t) => if ascii_lower_seq(t@) == "running"@ {
                    AutoSwitchRuntimeState::Running
                } else {
                    AutoSwitchRuntimeState::Stopped
                },
                None => AutoSwitchRuntimeState::NotInstalled,
            },
            DaemonProbe::Unsupported => s == AutoSwitchRuntimeState::NotInstalled,
        },
{
    match probe {
        DaemonProbe::LaunchAgent { plist_exists, label_loaded } => {
            if !*plist_exists {
                AutoSwitchRuntimeState::NotInstalled
            } else if *label_loaded {
                AutoSwitchRuntimeState::Running
            } else {
                AutoSwitchRuntimeState::Stopped
            }
        },
        DaemonProbe::ScheduledTask { state } => match state {
            Some(t) => {
                let tc = chars_of(t.as_str());
                let running = chars_of("running");
                proof {
                    reveal_strlit("running");
                    assert(ascii_lower_seq("running"@) =~= "running"@);
                }
                if eq_ignore_ascii_case(tc.as_slice(), running.as_slice()) {
                    AutoSwitchRuntimeState::Running
                } else {
                    AutoSwitchRuntimeState::Stopped
                }
            },
            None => AutoSwitchRuntimeState::NotInstalled,
        },
        DaemonProbe::Unsupported => AutoSwitchRuntimeState::NotInstalled,
    }
}

/// What a command printed: whether it succeeded and its output as text.
#[derive(Debug, Clone, PartialEq)]
pub struct CommandOutput {
    pub success: bool,
    pub stdout: String,
}

/// The state of the scheduled task from what the two queries printed
///: PowerShell's answer when it succeeded with
/// a non-blank one; else, when `schtasks` succeeded, `Running` if its listing
/// says so and `Ready` otherwise; nothing when a query could not be run or
/// `schtasks` failed.
pub fn task_state_from_queries(powershell: Option<CommandOutput>, schtasks: Option<CommandOutput>) -> (r: Option<String>)
    ensures
        match powershell {
            None => r is None,
            Some(ps) => if ps.success && trim(ps.stdout@).len() > 0 {
                r matches Some(t) && t@ == trim(ps.stdout@)
            } else {
                match schtasks {
                    None => r is None,
                    Some(st) => if !st.success {
                        r is None
                    } else if contains(st.stdout@, "Running"@) {
                        r matches Some(t) && t@ == "Running"@
                    } else {
                        r matches Some(t) && t@ == "Ready"@
                    },
                }
            },
        },
{
    let ps = match powershell {
        Some(ps) => ps,
        None => {
            return None;
        },
    };
    if ps.success {
        let c = chars_of(ps.stdout.as_str());
        let t = trim_vec(c.as_slice());
        if t.len() > 0 {
            return Some(string_of(t.as_slice()));
        }
    }
    let st = match schtasks {
        Some(st) => st,
        None => {
            return None;
        },
    };
    if !st.success {
        return None;
    }
    let out = chars_of(st.stdout.as_str());
    let running = chars_of("Running");
    if contains_exec(out.as_slice(), running.as_slice()) {
        Some(String::from_str("Running"))
    } else {
        Some(String::from_str("Ready"))
    }
}

// ---------------------------------------------------------------------------
// Installing
// ---------------------------------------------------------------------------
/// The label of the launch agent.
pub open spec fn agent_label() -> Seq<char> {
    "dev.ai.strategist.auto-switch"@
}

pub open spec fn plist_head() -> Seq<char> {
    "<?xml version=\"1.0\" encoding=\"UTF-8\"?>\n<!DOCTYPE plist PUBLIC \"-//Apple//DTD PLIST 1.0//EN\" \"http://www.apple.com/DTDs/PropertyList-1.0.dtd\">\n<plist version=\"1.0\">\n<dict>\n    <key>Label</key>\n    <string>"@
}

pub open spec fn plist_before_binary() -> Seq<char> {
    "</string>\n    <key>ProgramArguments</key>\n    <array>\n        <string>"@
}

pub open spec fn plist_before_home() -> Seq<char> {
    "</string>\n        <string>daemon-run-once</string>\n    </array>\n    <key>EnvironmentVariables</key>\n    <dict>\n        <key>CODEX_HOME</key>\n        <string>"@
}

pub open spec fn plist_tail() -> Seq<char> {
    "</string>\n    </dict>\n    <key>StartInterval</key>\n    <integer>300</integer>\n    <key>RunAtLoad</key>\n    <true/>\n    <key>StandardOutPath</key>\n    <string>/tmp/codexmate-auto-switch.log</string>\n    <key>StandardErrorPath</key>\n    <string>/tmp/codexmate-auto-switch-error.log</string>\n</dict>\n</plist>"@
}

/// The launch agent that runs the app's `daemon-run-once` every five minutes
/// with `CODEX_HOME` set.
pub open spec fn launch_agent_plist(app_binary: Seq<char>, codex_home: Seq<char>) -> Seq<char> {
    plist_head() + agent_label() + plist_before_binary() + app_binary + plist_before_home() + codex_home + plist_tail()
}

/// A text as a single-quoted PowerShell literal holds it: quotes doubled.
pub open spec fn powershell_literal(value: Seq<char>) -> Seq<char> {
    replace_char(value, '\'', seq!['\'', '\''])
}

/// The command that the scheduled task runs.
pub open spec fn windows_task_command(app_binary: Seq<char>, codex_home: Seq<char>) -> Seq<char> {
    "powershell -NoProfile -WindowStyle Hidden -Command \"$env:CODEX_HOME='"@ + powershell_literal(codex_home)
        + "'; & '"@ + powershell_literal(app_binary) + "' daemon-run-once\""@
}

/// The arguments of `schtasks` that create the task, every five minutes.
pub open spec fn create_task_args(command: Seq<char>) -> Seq<Seq<char>> {
    seq![
        "/Create"@,
        "/SC"@,
        "MINUTE"@,
        "/MO"@,
        "5"@,
        "/TN"@,
        "CodexMateAutoSwitch"@,
        "/TR"@,
        command,
        "/F"@,
    ]
}

pub open spec fn strings_view(v: Seq<String>) -> Seq<Seq<char>> {
    v.map_values(|s: String| s@)
}

/// What installing the daemon takes.
#[derive(Debug, Clone, PartialEq)]
pub enum DaemonInstall {
    /// Write this launch agent and load it with `launchctl load -w`.
    LaunchAgent { plist_content: String },
    /// Run `schtasks` with these arguments.
    ScheduledTask { args: Vec<String> },
}

fn powershell_literal_exec(value: &str) -> (out: Vec<char>)
    ensures
        out@ == powershell_literal(value@),
{
    let c = chars_of(value);
    let two: Vec<char> = vec!['\'', '\''];
    replace_char_vec(c.as_slice(), '\'', two.as_slice())
}

/// The command line of the scheduled task (`windows_task_command`).
pub fn task_command(app_binary: &str, codex_home: &str) -> (out: String)
    ensures
        out@ == windows_task_command(app_binary@, codex_home@),
{
    let mut c = chars_of("powershell -NoProfile -WindowStyle Hidden -Command \"$env:CODEX_HOME='");
    let h = powershell_literal_exec(codex_home);
    push_all(&mut c, h.as_slice());
    push_str(&mut c, "'; & '");
    let a = powershell_literal_exec(app_binary);
    push_all(&mut c, a.as_slice());
    push_str(&mut c, "' daemon-run-once\"");
    string_of(c.as_slice())
}

/// What installing the daemon takes (`install_daemon`): the launch agent on
/// macOS, the scheduled task on Windows; elsewhere it is refused.
pub fn install_daemon(platform: Platform, app_binary: &str, codex_home: &str) -> (r: Result<DaemonInstall, CoreError>)
    ensures
        match platform {
            Platform::MacOs => r matches Ok(DaemonInstall::LaunchAgent { plist_content }) && plist_content@
                == launch_agent_plist(app_binary@, codex_home@),
            Platform::Windows => r matches Ok(DaemonInstall::ScheduledTask { args }) && strings_view(args@)
                == create_task_args(windows_task_command(app_binary@, codex_home@)),
            Platform::Other => r matches Err(CoreError::OperationFailed(m)) && m@
                == "Daemon not supported on this platform"@,
        },
{
    match platform {
        Platform::MacOs => {
            let mut c = chars_of("<?xml version=\"1.0\" encoding=\"UTF-8\"?>\n<!DOCTYPE plist PUBLIC \"-//Apple//DTD PLIST 1.0//EN\" \"http://www.apple.com/DTDs/PropertyList-1.0.dtd\">\n<plist version=\"1.0\">\n<dict>\n    <key>Label</key>\n    <string>");
            push_str(&mut c, "dev.ai.strategist.auto-switch");
            push_str(&mut c, "</string>\n    <key>ProgramArguments</key>\n    <array>\n        <string>");
            push_str(&mut c, app_binary);
            push_str(&mut c, "</string>\n        <string>daemon-run-once</string>\n    </array>\n    <key>EnvironmentVariables</key>\n    <dict>\n        <key>CODEX_HOME</key>\n        <string>");
            push_str(&mut c, codex_home);
            push_str(&mut c, "</string>\n    </dict>\n    <key>StartInterval</key>\n    <integer>300</integer>\n    <key>RunAtLoad</key>\n    <true/>\n    <key>StandardOutPath</key>\n    <string>/tmp/codexmate-auto-switch.log</string>\n    <key>StandardErrorPath</key>\n    <string>/tmp/codexmate-auto-switch-error.log</string>\n</dict>\n</plist>");
            Ok(DaemonInstall::LaunchAgent { plist_content: string_of(c.as_slice()) })
        },
        Platform::Windows => {
            let command = task_command(app_binary, codex_home);
            let mut args: Vec<String> = Vec::new();
            args.push(String::from_str("/Create"));
            args.push(String::from_str("/SC"));
            args.push(String::from_str("MINUTE"));
            args.push(String::from_str("/MO"));
            args.push(String::from_str("5"));
            args.push(String::from_str("/TN"));
            args.push(String::from_str("CodexMateAutoSwitch"));
            args.push(String::from_str("/TR"));
            args.push(command);
            args.push(String::from_str("/F"));
            assert(strings_view(args@) =~= create_task_args(windows_task_command(app_binary@, codex_home@)));
            Ok(DaemonInstall::ScheduledTask { args })
        },
        Platform::Other => Err(CoreError::OperationFailed(String::from_str("Daemon not supported on this platform"))),
    }
}

/// What creating the task came to: a failure carries what `schtasks` wrote to
/// its error output, trimmed.
pub fn task_creation_result(success: bool, stderr: &str) -> (r: Result<(), CoreError>)
    ensures
        success ==> r is Ok,
        !success ==> (r matches Err(CoreError::OperationFailed(m)) && m@ == "schtasks create failed: "@ + trim(stderr@)),
{
    if success {
        return Ok(());
    }
    let mut m = chars_of("schtasks create failed: ");
    let c = chars_of(stderr);
    let t = trim_vec(c.as_slice());
    push_all(&mut m, t.as_slice());
    Err(CoreError::OperationFailed(string_of(m.as_slice())))
}

// ---------------------------------------------------------------------------
// Removing
// ---------------------------------------------------------------------------
/// What removing the daemon takes.
#[derive(Debug, Clone, PartialEq)]
pub enum DaemonUninstall {
    /// Unload the launch agent (`launchctl unload -w`) and delete its file.
    UnloadAgent,
    /// Run `schtasks` with these arguments.
    DeleteTask { args: Vec<String> },
    /// Nothing is there to remove.
    Nothing,
}

/// What removing the daemon takes (`uninstall_daemon`): on macOS the launch
/// agent when its file exists, on Windows the scheduled task, nothing elsewhere.
pub fn uninstall_daemon(platform: Platform, plist_exists: bool) -> (r: DaemonUninstall)
    ensures
        match platform {
            Platform::MacOs => if plist_exists {
                r is UnloadAgent
            } else {
                r is Nothing
            },
            Platform::Windows => r matches DaemonUninstall::DeleteTask { args } && strings_view(args@)
                == seq!["/Delete"@, "/TN"@, "CodexMateAutoSwitch"@, "/F"@],
            Platform::Other => r is Nothing,
        },
{
    match platform {
        Platform::MacOs => if plist_exists {
            DaemonUninstall::UnloadAgent
        } else {
            DaemonUninstall::Nothing
        },
        Platform::Windows => {
            let mut args: Vec<String> = Vec::new();
            args.push(String::from_str("/Delete"));
            args.push(String::from_str("/TN"));
            args.push(String::from_str("CodexMateAutoSwitch"));
            args.push(String::from_str("/F"));
            assert(strings_view(args@) =~= seq!["/Delete"@, "/TN"@, "CodexMateAutoSwitch"@, "/F"@]);
            DaemonUninstall::DeleteTask { args }
        },
        Platform::Other => DaemonUninstall::Nothing,
    }
}

/// The command-line entry of the daemon (`run_daemon_once_cli`): this build
/// ships no background work, so a run always succeeds.
pub fn run_daemon_once_cli() -> (r: Result<(), String>)
    ensures
        r is Ok,
{
    Ok(())
}

} // verus!
