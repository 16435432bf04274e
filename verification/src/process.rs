//! Stopping, killing and launching the Codex desktop app: which commands run,
//! which processes count as writing Codex's data, and what each answer of the
//! system leads to.
use vstd::prelude::*;
use vstd::string::StringExecFns;
use crate::lines::{lines_of, seqs, split_lines};
use crate::models::{CoreError, Platform};
use crate::numbers::{parse_usize, parse_usize_spec};
use crate::text::{
    ascii_lower_seq, chars_of, contains, contains_exec, copy_range, decimal, decimal_u64,
    ends_with, ends_with_exec, eq_chars, is_ws, is_ws_char, push_all, push_str, replace_char,
    replace_char_vec, starts_with, starts_with_exec, string_of, trim, trim_start, trim_vec,
};

verus! {

/// A command to run: the program and its arguments.
#[derive(Debug, Clone, PartialEq)]
pub struct ProcessCommand {
    pub program: String,
    pub args: Vec<String>,
}

pub open spec fn strings_view(v: Seq<String>) -> Seq<Seq<char>> {
    v.map_values(|s: String| s@)
}

/// The name of the Codex app's process.
pub open spec fn codex_process_name_spec(platform: Platform) -> Seq<char> {
    match platform {
        Platform::Other => "codex"@,
        _ => "Codex"@,
    }
}

/// The name of the Codex app's process (`codex_process_name`).
pub fn codex_process_name(platform: Platform) -> (n: String)
    ensures
        n@ == codex_process_name_spec(platform),
{
    match platform {
        Platform::Other => String::from_str("codex"),
        _ => String::from_str("Codex"),
    }
}

/// The command that kills a process by name (`kill_process`): `killall -9`
/// on macOS, `taskkill /F /IM <name>.exe` on Windows, `pkill -9` elsewhere.
pub fn kill_process(platform: Platform, name: &str) -> (c: ProcessCommand)
    ensures
        match platform {
            Platform::MacOs => c.program@ == "killall"@ && strings_view(c.args@) == seq!["-9"@, name@],
            Platform::Windows => c.program@ == "taskkill"@ && strings_view(c.args@) == seq![
                "/F"@,
                "/IM"@,
                name@ + ".exe"@,
            ],
            Platform::Other => c.program@ == "pkill"@ && strings_view(c.args@) == seq!["-9"@, name@],
        },
{
    let mut args: Vec<String> = Vec::new();
    match platform {
        Platform::MacOs => {
            args.push(String::from_str("-9"));
            args.push(String::from_str(name));
            assert(strings_view(args@) =~= seq!["-9"@, name@]);
            ProcessCommand { program: String::from_str("killall"), args }
        },
        Platform::Windows => {
            args.push(String::from_str("/F"));
            args.push(String::from_str("/IM"));
            let mut exe = chars_of(name);
            push_str(&mut exe, ".exe");
            args.push(string_of(exe.as_slice()));
            assert(strings_view(args@) =~= seq!["/F"@, "/IM"@, name@ + ".exe"@]);
            ProcessCommand { program: String::from_str("taskkill"), args }
        },
        Platform::Other => {
            args.push(String::from_str("-9"));
            args.push(String::from_str(name));
            assert(strings_view(args@) =~= seq!["-9"@, name@]);
            ProcessCommand { program: String::from_str("pkill"), args }
        },
    }
}

// ---------------------------------------------------------------------------
// Stopping the app
// ---------------------------------------------------------------------------
/// The error when Codex would not quit.
pub open spec fn quit_timeout_message() -> Seq<char> {
    "CODEX_APP_QUIT_TIMEOUT: Codex did not quit in time; please quit Codex manually and try again"@
}

/// Where stopping the app stands, with what was just found out.
#[derive(Debug, Clone, PartialEq)]
pub enum StopStep {
    /// Whether the app was running when the stop began.
    Started { running: bool },
    /// Whether the app exited within the wait after it was asked to quit.
    AskedToQuit { exited: bool },
    /// Whether the app exited within the wait after it was killed.
    Killed { exited: bool },
}

/// What to do next when stopping the app.
#[derive(Debug, PartialEq)]
pub enum StopAction {
    /// The stop is over, with this outcome.
    Finish(Result<(), CoreError>),
    /// Ask the app to quit and wait this many milliseconds for it to exit.
    AskToQuit { wait_ms: u64 },
    /// Kill the app and wait this many milliseconds for it to exit.
    Kill { wait_ms: u64 },
}

/// The decisions of a graceful stop (`stop_codex_app_gracefully`): nothing to
/// do when the app is not running; otherwise ask it to quit and wait up to
/// the timeout, then kill it and wait five seconds; an app that still runs is
/// an error.
pub fn stop_codex_app_gracefully(step: &StopStep, timeout_ms: u64) -> (a: StopAction)
    ensures
        match step {
            StopStep::Started { running } => if *running {
                a matches StopAction::AskToQuit { wait_ms } && wait_ms == timeout_ms
            } else {
                a matches StopAction::Finish(r) && r is Ok
            },
            StopStep::AskedToQuit { exited } => if *exited {
                a matches StopAction::Finish(r) && r is Ok
            } else {
                a matches StopAction::Kill { wait_ms } && wait_ms == 5000
            },
            StopStep::Killed { exited } => if *exited {
                a matches StopAction::Finish(r) && r is Ok
            } else {
                a matches StopAction::Finish(Err(CoreError::OperationFailed(m))) && m@ == quit_timeout_message()
            },
        },
{
    match step {
        StopStep::Started { running } => if *running {
            StopAction::AskToQuit { wait_ms: timeout_ms }
        } else {
            StopAction::Finish(Ok(()))
        },
        StopStep::AskedToQuit { exited } => if *exited {
            StopAction::Finish(Ok(()))
        } else {
            StopAction::Kill { wait_ms: 5000 }
        },
        StopStep::Killed { exited } => if *exited {
            StopAction::Finish(Ok(()))
        } else {
            StopAction::Finish(
                Err(
                    CoreError::OperationFailed(
                        String::from_str(
                            "CODEX_APP_QUIT_TIMEOUT: Codex did not quit in time; please quit Codex manually and try again",
                        ),
                    ),
                ),
            )
        },
    }
}

/// What to do next when stopping the app before its configuration is edited.
#[derive(Debug, PartialEq)]
pub enum ConfigEditAction {
    /// The stop is over, with this outcome.
    Finish(Result<(), CoreError>),
    /// Remember where the running app lives, ask it to quit and wait this long.
    RememberPathAndAskToQuit { wait_ms: u64 },
    /// Kill the app and wait this many milliseconds for it to exit.
    Kill { wait_ms: u64 },
    /// Make sure no process writes Codex's data any more.
    CheckWriters,
}

/// The decisions of stopping the app before its configuration is edited
/// (`stop_codex_for_config_edit`): nothing to do when it is not running;
/// otherwise remember its path and stop it as a graceful stop does, then check
/// that nothing else writes Codex's data.
pub fn stop_codex_for_config_edit(step: &StopStep, timeout_ms: u64) -> (a: ConfigEditAction)
    ensures
        match step {
            StopStep::Started { running } => if *running {
                a matches ConfigEditAction::RememberPathAndAskToQuit { wait_ms } && wait_ms == timeout_ms
            } else {
                a matches ConfigEditAction::Finish(r) && r is Ok
            },
            StopStep::AskedToQuit { exited } => if *exited {
                a is CheckWriters
            } else {
                a matches ConfigEditAction::Kill { wait_ms } && wait_ms == 5000
            },
            StopStep::Killed { exited } => if *exited {
                a is CheckWriters
            } else {
                a matches ConfigEditAction::Finish(Err(CoreError::OperationFailed(m))) && m@ == quit_timeout_message()
            },
        },
{
    match step {
        StopStep::Started { running } => if *running {
            ConfigEditAction::RememberPathAndAskToQuit { wait_ms: timeout_ms }
        } else {
            ConfigEditAction::Finish(Ok(()))
        },
        StopStep::AskedToQuit { exited } => if *exited {
            ConfigEditAction::CheckWriters
        } else {
            ConfigEditAction::Kill { wait_ms: 5000 }
        },
        StopStep::Killed { exited } => if *exited {
            ConfigEditAction::CheckWriters
        } else {
            ConfigEditAction::Finish(
                Err(
                    CoreError::OperationFailed(
                        String::from_str(
                            "CODEX_APP_QUIT_TIMEOUT: Codex did not quit in time; please quit Codex manually and try again",
                        ),
                    ),
                ),
            )
        },
    }
}

// ---------------------------------------------------------------------------
// Processes that write Codex's data
// ---------------------------------------------------------------------------
/// A command line of a process that may write Codex's data (macOS): the app,
/// its helpers or the CLI, but not Cursor's copy nor the crash reporter.
pub open spec fn is_codex_writer(c: Seq<char>) -> bool {
    if contains(c, "/.cursor/extensions/"@) || contains(c, "/Cursor.app/"@) {
        false
    } else if contains(c, "crashpad_handler"@) {
        false
    } else {
        contains(c, "Codex.app/"@) || contains(c, "Codex Helper"@) || c == "codex"@ || starts_with(c, "codex "@)
            || ends_with(c, "/codex"@) || contains(c, "/codex "@)
    }
}

/// Whether a command line is one of a process that may write Codex's data
/// (`is_codex_writer_command`).
pub fn is_codex_writer_command(command: &[char]) -> (b: bool)
    ensures
        b == is_codex_writer(command@),
{
    let cursor_ext = chars_of("/.cursor/extensions/");
    let cursor_app = chars_of("/Cursor.app/");
    let crashpad = chars_of("crashpad_handler");
    if contains_exec(command, cursor_ext.as_slice()) || contains_exec(command, cursor_app.as_slice()) {
        return false;
    }
    if contains_exec(command, crashpad.as_slice()) {
        return false;
    }
    let app = chars_of("Codex.app/");
    let helper = chars_of("Codex Helper");
    let cli = chars_of("codex");
    let cli_args = chars_of("codex ");
    let cli_path = chars_of("/codex");
    let cli_path_args = chars_of("/codex ");
    contains_exec(command, app.as_slice()) || contains_exec(command, helper.as_slice()) || eq_chars(command, cli.as_slice())
        || starts_with_exec(command, cli_args.as_slice()) || ends_with_exec(command, cli_path.as_slice())
        || contains_exec(command, cli_path_args.as_slice())
}

/// Whether an executable name is Codex's (Windows): `codex.exe`, or starting
/// with `codex `, in any ASCII case.
pub open spec fn is_windows_codex_writer(exe: Seq<char>) -> bool {
    ascii_lower_seq(exe) == "codex.exe"@ || starts_with(ascii_lower_seq(exe), "codex "@)
}

/// Whether a process's executable name is Codex's (Windows).
pub fn is_windows_codex_writer_exe(exe: &[char]) -> (b: bool)
    ensures
        b == is_windows_codex_writer(exe@),
{
    let l = crate::text::ascii_lower_vec(exe);
    let exe_name = chars_of("codex.exe");
    let prefix = chars_of("codex ");
    eq_chars(l.as_slice(), exe_name.as_slice()) || starts_with_exec(l.as_slice(), prefix.as_slice())
}

/// The first index of a whitespace character in `s`.
pub open spec fn first_ws(s: Seq<char>) -> Option<int>
    decreases s.len(),
{
    if s.len() == 0 {
        None
    } else if is_ws(s[0]) {
        Some(0)
    } else {
        match first_ws(s.drop_first()) {
            Some(i) => Some(i + 1),
            None => None,
        }
    }
}

/// `str::parse::<u32>`: a `usize` reading that fits in 32 bits.
pub open spec fn parse_u32_spec(s: Seq<char>) -> Option<u32> {
    match parse_usize_spec(s) {
        Some(v) => if v <= u32::MAX {
            Some(v as u32)
        } else {
            None
        },
        None => None,
    }
}

/// What one line of `ps -ax -o pid=,command=` says of a writer: the process
/// id and command, unless the line cannot be read, is this process's, or is
/// not a writer's.
pub open spec fn ps_line_writer(line: Seq<char>, current_pid: u32) -> Option<Seq<char>> {
    let t = trim_start(line);
    match first_ws(t) {
        None => None,
        Some(i) => match parse_u32_spec(t.take(i)) {
            None => None,
            Some(pid) => {
                let command = trim_start(t.skip(i + 1));
                if pid == current_pid || !is_codex_writer(command) {
                    None
                } else {
                    Some(decimal(pid as int) + seq![' '] + command)
                }
            },
        },
    }
}

/// The writers that the lines of `ps` list, in order.
pub open spec fn ps_writers(ls: Seq<Seq<char>>, current_pid: u32) -> Seq<Seq<char>>
    decreases ls.len(),
{
    if ls.len() == 0 {
        Seq::empty()
    } else {
        let rest = ps_writers(ls.drop_last(), current_pid);
        match ps_line_writer(ls.last(), current_pid) {
            Some(w) => rest.push(w),
            None => rest,
        }
    }
}

proof fn lemma_first_ws(s: Seq<char>, k: int)
    requires
        0 <= k <= s.len(),
        forall|j: int| 0 <= j < k ==> !is_ws(#[trigger] s[j]),
        k == s.len() || is_ws(s[k]),
    ensures
        first_ws(s) == (if k == s.len() {
            None::<int>
        } else {
            Some(k)
        }),
    decreases k,
{
    if k > 0 {
        assert forall|j: int| 0 <= j < k - 1 implies !is_ws(#[trigger] s.drop_first()[j]) by {
            assert(s.drop_first()[j] == s[j + 1]);
        }
        lemma_first_ws(s.drop_first(), k - 1);
    }
}

fn trim_start_vec(s: &[char]) -> (out: Vec<char>)
    ensures
        out@ == trim_start(s@),
{
    let (a, _b) = crate::text::trim_bounds(s);
    copy_range(s, a, s.len())
}

fn ps_line_writer_exec(line: &[char], current_pid: u32) -> (r: Option<Vec<char>>)
    ensures
        match r {
            Some(w) => ps_line_writer(line@, current_pid) == Some(w@),
            None => ps_line_writer(line@, current_pid) is None,
        },
{
    let t = trim_start_vec(line);
    let mut i: usize = 0;
    while i < t.len() && !is_ws_char(t[i])
        invariant
            i <= t@.len(),
            forall|j: int| 0 <= j < i ==> !is_ws(#[trigger] t@[j]),
        decreases t@.len() - i,
    {
        i = i + 1;
    }
    proof {
        lemma_first_ws(t@, i as int);
    }
    if i >= t.len() {
        return None;
    }
    let pid_text = copy_range(t.as_slice(), 0, i);
    let pid = match parse_usize(pid_text.as_slice()) {
        Some(v) => {
            if v > 4294967295 {
                return None;
            }
            v as u32
        },
        None => {
            return None;
        },
    };
    let after = copy_range(t.as_slice(), i + 1, t.len());
    let command = trim_start_vec(after.as_slice());
    if pid == current_pid || !is_codex_writer_command(command.as_slice()) {
        return None;
    }
    let mut w = decimal_u64(pid as u64);
    w.push(' ');
    push_all(&mut w, command.as_slice());
    Some(w)
}

/// The processes that `ps -ax -o pid=,command=` lists as writing Codex's data,
/// as `<pid> <command>`, leaving out the app itself (on macOS).
pub fn parse_ps_writers(stdout: &str, current_pid: u32) -> (r: Vec<String>)
    ensures
        strings_view(r@) == ps_writers(lines_of(stdout@), current_pid),
{
    let c = chars_of(stdout);
    let ls = split_lines(c.as_slice());
    let ghost all = seqs(ls@);
    let mut out: Vec<String> = Vec::new();
    let mut i: usize = 0;
    while i < ls.len()
        invariant
            i <= ls@.len(),
            all == seqs(ls@),
            all == lines_of(stdout@),
            strings_view(out@) == ps_writers(all.take(i as int), current_pid),
        decreases ls@.len() - i,
    {
        assert(all.take(i as int + 1).drop_last() =~= all.take(i as int));
        assert(all.take(i as int + 1).last() == ls@[i as int]@);
        match ps_line_writer_exec(ls[i].as_slice(), current_pid) {
            Some(w) => {
                let ghost before = out@;
                out.push(string_of(w.as_slice()));
                assert(strings_view(out@) =~= strings_view(before).push(w@));
            },
            None => {},
        }
        i = i + 1;
    }
    assert(all.take(ls@.len() as int) =~= all);
    out
}

/// The lines of `pgrep -af codex` that are not this process's, trimmed (on
/// Linux and other systems).
pub open spec fn pgrep_writers(ls: Seq<Seq<char>>, current_pid: Seq<char>) -> Seq<Seq<char>>
    decreases ls.len(),
{
    if ls.len() == 0 {
        Seq::empty()
    } else {
        let rest = pgrep_writers(ls.drop_last(), current_pid);
        if starts_with(ls.last(), current_pid) {
            rest
        } else {
            rest.push(trim(ls.last()))
        }
    }
}

/// The processes that `pgrep -af codex` lists, other than this one.
pub fn parse_pgrep_writers(stdout: &str, current_pid: u32) -> (r: Vec<String>)
    ensures
        strings_view(r@) == pgrep_writers(lines_of(stdout@), decimal(current_pid as int)),
{
    let c = chars_of(stdout);
    let ls = split_lines(c.as_slice());
    let me = decimal_u64(current_pid as u64);
    let ghost all = seqs(ls@);
    let mut out: Vec<String> = Vec::new();
    let mut i: usize = 0;
    while i < ls.len()
        invariant
            i <= ls@.len(),
            all == seqs(ls@),
            all == lines_of(stdout@),
            me@ == decimal(current_pid as int),
            strings_view(out@) == pgrep_writers(all.take(i as int), me@),
        decreases ls@.len() - i,
    {
        assert(all.take(i as int + 1).drop_last() =~= all.take(i as int));
        assert(all.take(i as int + 1).last() == ls@[i as int]@);
        if !starts_with_exec(ls[i].as_slice(), me.as_slice()) {
            let t = trim_vec(ls[i].as_slice());
            let ghost before = out@;
            out.push(string_of(t.as_slice()));
            assert(strings_view(out@) =~= strings_view(before).push(t@));
        }
        i = i + 1;
    }
    assert(all.take(ls@.len() as int) =~= all);
    out
}

/// The parts joined with ` | `.
pub open spec fn joined_with_bars(parts: Seq<Seq<char>>) -> Seq<char>
    decreases parts.len(),
{
    if parts.len() == 0 {
        Seq::empty()
    } else if parts.len() == 1 {
        parts[0]
    } else {
        joined_with_bars(parts.drop_last()) + " | "@ + parts.last()
    }
}

/// The error while writers remain.
pub open spec fn writers_message(writers: Seq<Seq<char>>) -> Seq<char> {
    "CODEX_WRITER_RUNNING: 检测到仍有 Codex 相关进程可能正在写入线程数据。请完全退出 Codex 和 codex CLI 后再试："@
        + joined_with_bars(writers)
}

/// What to do after a look for writers.
#[derive(Debug, Clone, PartialEq)]
pub enum WriterCheck {
    /// No writer is left.
    Clear,
    /// Look again after this many milliseconds.
    RetryAfter { wait_ms: u64 },
    /// Writers remain; the stop fails.
    Fail(CoreError),
}

/// The decision after a look for writers (`ensure_no_codex_writer_processes`):
/// none left is fine; on Windows the first two looks that find some are
/// retried after half a second, since the app's helpers take a moment to go;
/// otherwise writers that remain are an error that lists them.
pub fn writer_check(platform: Platform, attempt: u32, writers: &Vec<String>) -> (c: WriterCheck)
    ensures
        writers@.len() == 0 ==> c is Clear,
        writers@.len() > 0 && platform == Platform::Windows && attempt < 2 ==> (c matches WriterCheck::RetryAfter { wait_ms } && wait_ms == 500),
        writers@.len() > 0 && !(platform == Platform::Windows && attempt < 2) ==> (c matches WriterCheck::Fail(CoreError::OperationFailed(m))
            && m@ == writers_message(strings_view(writers@))),
{
    if writers.len() == 0 {
        return WriterCheck::Clear;
    }
    match platform {
        Platform::Windows => {
            if attempt < 2 {
                return WriterCheck::RetryAfter { wait_ms: 500 };
            }
        },
        _ => {},
    }
    let mut m = chars_of("CODEX_WRITER_RUNNING: 检测到仍有 Codex 相关进程可能正在写入线程数据。请完全退出 Codex 和 codex CLI 后再试：");
    let ghost head = m@;
    let ghost ws = strings_view(writers@);
    let mut i: usize = 0;
    while i < writers.len()
        invariant
            i <= writers@.len(),
            ws == strings_view(writers@),
            m@ == head + joined_with_bars(ws.take(i as int)),
        decreases writers@.len() - i,
    {
        assert(ws.take(i as int + 1).drop_last() =~= ws.take(i as int));
        if i > 0 {
            push_str(&mut m, " | ");
        }
        push_str(&mut m, writers[i].as_str());
        proof {
            if i == 0 {
                assert(ws.take(1) =~= seq![ws[0]]);
            }
        }
        i = i + 1;
    }
    assert(ws.take(writers@.len() as int) =~= ws);
    WriterCheck::Fail(CoreError::OperationFailed(string_of(m.as_slice())))
}

// ---------------------------------------------------------------------------
// Launching the app
// ---------------------------------------------------------------------------
/// One way of launching the app on macOS.
#[derive(Debug, Clone, PartialEq)]
pub enum LaunchStep {
    /// `open -b <bundle id>`, then wait for the app to start.
    OpenBundle(String),
    /// When the bundle exists, `open <path>` and wait for the app to start.
    OpenPath(String),
    /// Wait this many milliseconds.
    Pause(u64),
}

/// The ways of launching the app on macOS, in order:
/// both bundle ids, then the app in `/Applications` and in the user's
/// `Applications`, a short pause, and all of it once more.
pub open spec fn launch_round(home: Seq<char>) -> Seq<(u8, Seq<char>)> {
    seq![
        (0u8, "com.openai.codex"@),
        (0u8, "com.openai.Codex"@),
        (1u8, "/Applications/Codex.app"@),
        (1u8, home + "/Applications/Codex.app"@),
        (2u8, Seq::empty()),
    ]
}

pub open spec fn step_view(s: LaunchStep) -> (u8, Seq<char>) {
    match s {
        LaunchStep::OpenBundle(b) => (0u8, b@),
        LaunchStep::OpenPath(p) => (1u8, p@),
        LaunchStep::Pause(_) => (2u8, Seq::empty()),
    }
}

/// The ways of launching the app on macOS, in order; every pause is a
/// quarter of a second.
pub fn macos_launch_plan(home: &str) -> (plan: Vec<LaunchStep>)
    ensures
        plan@.map_values(|s: LaunchStep| step_view(s)) == launch_round(home@) + launch_round(home@),
        forall|i: int| 0 <= i < plan@.len() ==> (#[trigger] plan@[i] matches LaunchStep::Pause(ms) ==> ms == 250),
{
    let mut plan: Vec<LaunchStep> = Vec::new();
    let mut round: usize = 0;
    while round < 2
        invariant
            round <= 2,
            plan@.map_values(|s: LaunchStep| step_view(s)) == if round == 0 {
                Seq::empty()
            } else if round == 1 {
                launch_round(home@)
            } else {
                launch_round(home@) + launch_round(home@)
            },
            forall|i: int| 0 <= i < plan@.len() ==> (#[trigger] plan@[i] matches LaunchStep::Pause(ms) ==> ms == 250),
        decreases 2 - round,
    {
        let ghost before = plan@;
        plan.push(LaunchStep::OpenBundle(String::from_str("com.openai.codex")));
        plan.push(LaunchStep::OpenBundle(String::from_str("com.openai.Codex")));
        plan.push(LaunchStep::OpenPath(String::from_str("/Applications/Codex.app")));
        let mut user_app = chars_of(home);
        push_str(&mut user_app, "/Applications/Codex.app");
        plan.push(LaunchStep::OpenPath(string_of(user_app.as_slice())));
        plan.push(LaunchStep::Pause(250));
        assert(plan@.map_values(|s: LaunchStep| step_view(s)) =~= before.map_values(|s: LaunchStep| step_view(s))
            + launch_round(home@));
        round = round + 1;
    }
    plan
}

/// The error when no way of launching the app worked (macOS).
pub fn launch_timed_out() -> (e: CoreError)
    ensures
        e matches CoreError::OperationFailed(m) && m@ == "Codex launch timed out"@,
{
    CoreError::OperationFailed(String::from_str("Codex launch timed out"))
}

/// Which executable to launch on Windows: the
/// path of the app that was running before it was stopped, when that file
/// still exists, else the installed app that was found; none is an error.
pub fn windows_launch_path(remembered: Option<String>, remembered_exists: bool, installed: Option<String>) -> (r: Result<String, CoreError>)
    ensures
        match remembered {
            Some(p) if remembered_exists => r matches Ok(q) && q@ == p@,
            _ => match installed {
                Some(p) => r matches Ok(q) && q@ == p@,
                None => r matches Err(CoreError::NotFound(m)) && m@ == "Codex.exe not found"@,
            },
        },
{
    match remembered {
        Some(p) => {
            if remembered_exists {
                return Ok(p);
            }
        },
        None => {},
    }
    match installed {
        Some(p) => Ok(p),
        None => Err(CoreError::NotFound(String::from_str("Codex.exe not found"))),
    }
}

/// The PowerShell command that starts the app at `path` when starting it
/// directly did not work.
pub fn start_process_command(path: &str) -> (c: String)
    ensures
        c@ == "Start-Process -FilePath '"@ + replace_char(path@, '\'', seq!['\'', '\'']) + "'"@,
{
    let p = chars_of(path);
    let two: Vec<char> = vec!['\'', '\''];
    let lit = replace_char_vec(p.as_slice(), '\'', two.as_slice());
    let mut c = chars_of("Start-Process -FilePath '");
    push_all(&mut c, lit.as_slice());
    push_str(&mut c, "'");
    string_of(c.as_slice())
}

/// The error when the app did not start after it was launched from `path`.
pub fn launch_not_started(path: &str) -> (e: CoreError)
    ensures
        e matches CoreError::OperationFailed(m) && m@ == "Codex did not start after launch: "@ + path@,
{
    let mut m = chars_of("Codex did not start after launch: ");
    push_str(&mut m, path);
    CoreError::OperationFailed(string_of(m.as_slice()))
}

/// The AppleScript that opens Terminal with a command on macOS: the command
/// escaped for an AppleScript string.
pub fn terminal_script(command: &str) -> (s: String)
    ensures
        s@ == "tell application \"Terminal\"\n    activate\n    do script \""@ + replace_char(
            replace_char(command@, '\\', seq!['\\', '\\']),
            '"',
            seq!['\\', '"'],
        ) + "\"\nend tell"@,
{
    let c = chars_of(command);
    let two: Vec<char> = vec!['\\', '\\'];
    let esc: Vec<char> = vec!['\\', '"'];
    let a = replace_char_vec(c.as_slice(), '\\', two.as_slice());
    let b = replace_char_vec(a.as_slice(), '"', esc.as_slice());
    let mut out = chars_of("tell application \"Terminal\"\n    activate\n    do script \"");
    push_all(&mut out, b.as_slice());
    push_str(&mut out, "\"\nend tell");
    string_of(out.as_slice())
}

} // verus!
