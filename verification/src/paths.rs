//! Where Codex and the app keep their files, under one Codex home directory.
use vstd::prelude::*;

verus! {

/// A path component that is joined as it is: nonempty, without separators or
/// a drive colon.
pub open spec fn plain_component(part: Seq<char>) -> bool {
    part.len() > 0 && forall|i: int| 0 <= i < part.len() ==> part[i] != '/' && part[i] != '\\' && part[i] != ':'
}

/// A relative path that is appended as it is: it does not start with a
/// separator and holds no drive colon.
pub open spec fn relative_part(part: Seq<char>) -> bool {
    (part.len() == 0 || (part[0] != '/' && part[0] != '\\')) && forall|i: int| 0 <= i < part.len() ==> part[i] != ':'
}

/// The index of the last `c` in `n`, if any.
pub open spec fn last_index_of(n: Seq<char>, c: char) -> Option<int>
    decreases n.len(),
{
    if n.len() == 0 {
        None
    } else if n.last() == c {
        Some(n.len() - 1)
    } else {
        last_index_of(n.drop_last(), c)
    }
}

/// The extension of a file name that is a plain path component: nothing for
/// `..`, for a name without a dot, or for one whose only dot comes first;
/// otherwise what follows the last dot.
pub open spec fn name_extension(n: Seq<char>) -> Option<Seq<char>> {
    if n == ".."@ {
        None
    } else {
        match last_index_of(n, '.') {
            Some(k) => if k > 0 {
                Some(n.subrange(k + 1, n.len() as int))
            } else {
                None
            },
            None => None,
        }
    }
}

/// The file name of a path written with `/` alone (no backslash, no drive
/// colon, not opening with `//`, which Windows may read as a share): what
/// follows its last `/`, when that is neither empty nor `.`.  Such a path is
/// split the same way on every platform.
pub open spec fn slash_file_name(p: Seq<char>) -> Option<Seq<char>> {
    let n = match last_index_of(p, '/') {
        Some(k) => p.subrange(k + 1, p.len() as int),
        None => p,
    };
    if (forall|i: int| 0 <= i < p.len() ==> p[i] != '\\' && p[i] != ':') && !(p.len() >= 2 && p[0] == '/'
        && p[1] == '/') && n.len() > 0 && n != "."@ {
        Some(n)
    } else {
        None
    }
}

/// The stem of a file name that is a plain path component: nothing for `..`;
/// the whole name when it has no dot or its only dot comes first; otherwise
/// what comes before the last dot.
pub open spec fn name_stem(n: Seq<char>) -> Option<Seq<char>> {
    if n == ".."@ {
        None
    } else {
        match last_index_of(n, '.') {
            Some(k) => if k > 0 {
                Some(n.subrange(0, k))
            } else {
                Some(n)
            },
            None => Some(n),
        }
    }
}

/// A path separator on some platform.
pub open spec fn is_separator(c: char) -> bool {
    c == '/' || c == '\\'
}

/// What follows the last separator of either kind (the whole path when it
/// has none).
pub open spec fn final_part(p: Seq<char>) -> Seq<char>
    decreases p.len(),
{
    if p.len() == 0 {
        p
    } else if is_separator(p.last()) {
        Seq::empty()
    } else {
        final_part(p.drop_last()).push(p.last())
    }
}

/// The extension that every platform reads off a path whose last part (after
/// the last separator of either kind) is a name with a dot after its first
/// character and no colon, and which does not open with two separators: what
/// follows that last dot.
pub open spec fn dotted_extension(p: Seq<char>) -> Option<Seq<char>> {
    let n = final_part(p);
    if !(p.len() >= 2 && is_separator(p[0]) && is_separator(p[1])) && (forall|i: int| 0 <= i < n.len() ==> n[i] != ':')
        && n != ".."@ {
        match last_index_of(n, '.') {
            Some(k) => if k > 0 {
                Some(n.subrange(k + 1, n.len() as int))
            } else {
                None
            },
            None => None,
        }
    } else {
        None
    }
}

/// The extension of a path where every platform agrees on it: that of the
/// last part of a path written with `/`; the one `dotted_extension` gives;
/// none for a path without a dot.  `None` where it is left to the platform.
pub open spec fn known_extension(p: Seq<char>) -> Option<Option<Seq<char>>> {
    if slash_file_name(p) is Some {
        Some(name_extension(slash_file_name(p)->0))
    } else if dotted_extension(p) is Some {
        Some(dotted_extension(p))
    } else if forall|i: int| 0 <= i < p.len() ==> p[i] != '.' {
        Some(None)
    } else {
        None
    }
}

/// A path without `?`, so without the verbatim prefix (`\\?\`) under which
/// Windows normalises what is joined on.
pub open spec fn verbatim_free(base: Seq<char>) -> bool {
    forall|i: int| 0 <= i < base.len() ==> base[i] != '?'
}

/// `base` followed by `part`, with one separator between them or none (when
/// `base` is empty or already ends with one, or is a bare drive); this is
/// claimed only of a base that is `verbatim_free`.
pub open spec fn joined(base: Seq<char>, part: Seq<char>, out: Seq<char>) -> bool {
    verbatim_free(base) ==> (out == base + part || exists|c: char| (c == '/' || c == '\\') && out == base + seq![c] + part)
}

/// `Path::join`. Of a relative part and a base without a verbatim prefix the
/// result is the base, possibly one separator (which one depends on the
/// platform), and the part.  A single plain component other than `.` and
/// `..` ends the result whatever the base (a verbatim base is normalised, but
/// the component is pushed last).  What it makes of a part with a root or a
/// drive is not stated here.
#[verifier::external_body]
pub(crate) fn join_path(base: &str, part: &str) -> (out: String)
    ensures
        relative_part(part@) ==> joined(base@, part@, out@),
        plain_component(part@) && part@ != "."@ && part@ != ".."@ ==> crate::text::ends_with(out@, part@),
{
    std::path::Path::new(base).join(part).to_string_lossy().into_owned()
}

/// The files and directories that the app reads and writes.
#[derive(Debug, Clone, PartialEq)]
pub struct CodexPaths {
    pub codex_home: String,
    pub auth_path: String,
    pub config_path: String,
    pub session_index_path: String,
    pub codex_state_db_path: String,
    pub sessions_dir: String,
    pub archived_sessions_dir: String,
    pub skills_dir: String,
    pub accounts_dir: String,
    pub registry_path: String,
    pub snapshots_dir: String,
    pub auth_backups_dir: String,
    pub registry_backups_dir: String,
    pub auto_switch_log_path: String,
    pub codexmate_dir: String,
    pub skill_backups_dir: String,
    pub quota_history_path: String,
    pub quota_store_path: String,
    pub settings_path: String,
    pub bootstrap_cache_path: String,
    pub skill_translations_path: String,
    pub auto_switch_pending_path: String,
    pub auto_switch_snooze_path: String,
    pub voice_workspace_path: String,
    pub voice_runtime_path: String,
    pub launch_agent_path: String,
    pub global_agents_path: String,
    pub custom_instructions_dir: String,
    pub custom_instruction_history_dir: String,
}


/// The files and directories under `p.codex_home` as `from_home` lays them out.
pub open spec fn layout_under(p: CodexPaths) -> bool {
    &&& joined(p.codex_home@, "auth.json"@, p.auth_path@)
    &&& joined(p.codex_home@, "config.toml"@, p.config_path@)
    &&& joined(p.codex_home@, "session_index.jsonl"@, p.session_index_path@)
    &&& joined(p.codex_home@, "state_5.sqlite"@, p.codex_state_db_path@)
    &&& joined(p.codex_home@, "sessions"@, p.sessions_dir@)
    &&& joined(p.codex_home@, "archived_sessions"@, p.archived_sessions_dir@)
    &&& joined(p.codex_home@, "skills"@, p.skills_dir@)
    &&& joined(p.codex_home@, "accounts"@, p.accounts_dir@)
    &&& joined(p.codex_home@, "codexmate"@, p.codexmate_dir@)
    &&& joined(p.codex_home@, "AGENTS.md"@, p.global_agents_path@)
    &&& joined(p.accounts_dir@, "registry.json"@, p.registry_path@)
    &&& joined(p.accounts_dir@, "snapshots"@, p.snapshots_dir@)
    &&& joined(p.accounts_dir@, "backups"@, p.auth_backups_dir@)
    &&& joined(p.accounts_dir@, "registry-backups"@, p.registry_backups_dir@)
    &&& joined(p.accounts_dir@, "auto-switch.log"@, p.auto_switch_log_path@)
    &&& joined(p.codexmate_dir@, "skill-backups"@, p.skill_backups_dir@)
    &&& joined(p.codexmate_dir@, "quota-history.jsonl"@, p.quota_history_path@)
    &&& joined(p.codexmate_dir@, "quota-store.json"@, p.quota_store_path@)
    &&& joined(p.codexmate_dir@, "settings.json"@, p.settings_path@)
    &&& joined(p.codexmate_dir@, "bootstrap-cache.json"@, p.bootstrap_cache_path@)
    &&& joined(p.codexmate_dir@, "skill-translations.json"@, p.skill_translations_path@)
    &&& joined(p.codexmate_dir@, "auto-switch-pending.json"@, p.auto_switch_pending_path@)
    &&& joined(p.codexmate_dir@, "auto-switch-snooze.json"@, p.auto_switch_snooze_path@)
    &&& joined(p.codexmate_dir@, "voice-workspace.json"@, p.voice_workspace_path@)
    &&& joined(p.codexmate_dir@, "voice-runtime.json"@, p.voice_runtime_path@)
    &&& joined(p.codexmate_dir@, "custom-instructions"@, p.custom_instructions_dir@)
    &&& joined(p.custom_instructions_dir@, "history"@, p.custom_instruction_history_dir@)
}

impl CodexPaths {
    /// The layout under `codex_home` (`from_home`): Codex's own files at the
    /// top, accounts under `accounts`, the app's data under `codexmate`.
    #[verifier::rlimit(50)]
    pub fn from_home(codex_home: String, launch_agent_path: String) -> (p: CodexPaths)
        ensures
            p.codex_home@ == codex_home@,
            p.launch_agent_path@ == launch_agent_path@,
            layout_under(p),
    {
        proof {
            reveal_strlit("auth.json");
            reveal_strlit("config.toml");
            reveal_strlit("session_index.jsonl");
            reveal_strlit("state_5.sqlite");
            reveal_strlit("sessions");
            reveal_strlit("archived_sessions");
            reveal_strlit("skills");
            reveal_strlit("accounts");
            reveal_strlit("codexmate");
            reveal_strlit("AGENTS.md");
            reveal_strlit("registry.json");
            reveal_strlit("snapshots");
            reveal_strlit("backups");
            reveal_strlit("registry-backups");
            reveal_strlit("auto-switch.log");
            reveal_strlit("skill-backups");
            reveal_strlit("quota-history.jsonl");
            reveal_strlit("quota-store.json");
            reveal_strlit("settings.json");
            reveal_strlit("bootstrap-cache.json");
            reveal_strlit("skill-translations.json");
            reveal_strlit("auto-switch-pending.json");
            reveal_strlit("auto-switch-snooze.json");
            reveal_strlit("voice-workspace.json");
            reveal_strlit("voice-runtime.json");
            reveal_strlit("custom-instructions");
            reveal_strlit("history");
        }
        let h = codex_home.as_str();
        let accounts_dir = join_path(h, "accounts");
        let codexmate_dir = join_path(h, "codexmate");
        let custom_instructions_dir = join_path(codexmate_dir.as_str(), "custom-instructions");
        let a = accounts_dir.as_str();
        let c = codexmate_dir.as_str();
        CodexPaths {
            auth_path: join_path(h, "auth.json"),
            config_path: join_path(h, "config.toml"),
            session_index_path: join_path(h, "session_index.jsonl"),
            codex_state_db_path: join_path(h, "state_5.sqlite"),
            sessions_dir: join_path(h, "sessions"),
            archived_sessions_dir: join_path(h, "archived_sessions"),
            skills_dir: join_path(h, "skills"),
            registry_path: join_path(a, "registry.json"),
            snapshots_dir: join_path(a, "snapshots"),
            auth_backups_dir: join_path(a, "backups"),
            registry_backups_dir: join_path(a, "registry-backups"),
            auto_switch_log_path: join_path(a, "auto-switch.log"),
            skill_backups_dir: join_path(c, "skill-backups"),
            quota_history_path: join_path(c, "quota-history.jsonl"),
            quota_store_path: join_path(c, "quota-store.json"),
            settings_path: join_path(c, "settings.json"),
            bootstrap_cache_path: join_path(c, "bootstrap-cache.json"),
            skill_translations_path: join_path(c, "skill-translations.json"),
            auto_switch_pending_path: join_path(c, "auto-switch-pending.json"),
            auto_switch_snooze_path: join_path(c, "auto-switch-snooze.json"),
            voice_workspace_path: join_path(c, "voice-workspace.json"),
            voice_runtime_path: join_path(c, "voice-runtime.json"),
            global_agents_path: join_path(h, "AGENTS.md"),
            custom_instruction_history_dir: join_path(custom_instructions_dir.as_str(), "history"),
            accounts_dir,
            codexmate_dir,
            custom_instructions_dir,
            launch_agent_path,
            codex_home,
        }
    }

    /// The layout under the Codex home in effect (`new`): `CODEX_HOME` when it
    /// is set, else `.codex` in the user's home directory (the current
    /// directory when none is known); the launch agent only on macOS.
    pub fn new(codex_home_env: Option<String>, on_macos: bool) -> (p: CodexPaths)
        ensures
            codex_home_env matches Some(h) ==> p.codex_home@ == h@,
            codex_home_env is None ==> exists|h: Seq<char>| joined(h, ".codex"@, p.codex_home@),
            !on_macos ==> p.launch_agent_path@.len() == 0,
            layout_under(p),
    {
        let home = home_dir();
        let codex_home = resolve_codex_home(codex_home_env, home.clone());
        let launch_agent_path = resolve_launch_agent_path(home, on_macos);
        Self::from_home(codex_home, launch_agent_path)
    }
}

/// The user's home directory (`dirs::home_dir`), as text. It depends on the
/// environment and the system, so nothing is stated of it.
#[verifier::external_body]
pub(crate) fn home_dir() -> (r: Option<String>) {
    dirs::home_dir().map(|p| p.to_string_lossy().into_owned())
}

/// The Codex home in effect: `CODEX_HOME` when set, else `.codex` in the home
/// directory, or in `.` when there is none (`resolve_codex_home`).
pub fn resolve_codex_home(codex_home_env: Option<String>, home: Option<String>) -> (r: String)
    ensures
        match codex_home_env {
            Some(h) => r@ == h@,
            None => match home {
                Some(h) => joined(h@, ".codex"@, r@),
                None => joined("."@, ".codex"@, r@),
            },
        },
{
    proof {
        reveal_strlit(".codex");
    }
    match codex_home_env {
        Some(h) => h,
        None => match home {
            Some(h) => join_path(h.as_str(), ".codex"),
            None => join_path(".", ".codex"),
        },
    }
}

/// Where the launch agent of the auto-switch daemon lives: under the home
/// directory's `Library/LaunchAgents` on macOS, nowhere elsewhere
/// (`resolve_launch_agent_path`).
pub fn resolve_launch_agent_path(home: Option<String>, on_macos: bool) -> (r: String)
    ensures
        !on_macos ==> r@.len() == 0,
        on_macos ==> match home {
            Some(h) => joined(h@, "Library/LaunchAgents/dev.ai.strategist.auto-switch.plist"@, r@),
            None => joined("."@, "Library/LaunchAgents/dev.ai.strategist.auto-switch.plist"@, r@),
        },
{
    proof {
        reveal_strlit("Library/LaunchAgents/dev.ai.strategist.auto-switch.plist");
    }
    if !on_macos {
        return String::new();
    }
    match home {
        Some(h) => join_path(h.as_str(), "Library/LaunchAgents/dev.ai.strategist.auto-switch.plist"),
        None => join_path(".", "Library/LaunchAgents/dev.ai.strategist.auto-switch.plist"),
    }
}

} // verus!
