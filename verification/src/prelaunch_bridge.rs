//! Finding the pre-launch bridge program and building its command lines.
use vstd::prelude::*;
use vstd::string::StringExecFns;
use crate::models::{opt_str, strs};
use crate::paths::known_extension;
use crate::runtime_resolver::{
    join_all, joined_all, lemma_first_usable_in_range, resolve_python_runtime, first_usable, RuntimeProbe,
};
use crate::text::{ascii_lower_seq, chars_of, eq_ignore_ascii_case, string_of};

verus! {

/// The extension of a path's file name (`Path::extension`), when it has one;
/// an extension holds no dot.  Where every platform splits the path alike
/// (`known_extension`: a path written with `/`, a last part after the last
/// separator of either kind that holds a dot after its first character, or
/// a path without a dot), the extension is the documented one: what follows
/// the last dot of a name that does not start with its only dot.  How a
/// platform splits other paths is not stated.
#[verifier::external_body]
pub(crate) fn path_extension(path: &str) -> (ext: Option<String>)
    ensures
        ext matches Some(e) ==> forall|i: int| 0 <= i < e@.len() ==> e@[i] != '.',
        known_extension(path@) matches Some(e) ==> opt_str(ext) == e,
{
    std::path::Path::new(path).extension().and_then(|e| e.to_str()).map(|e| e.to_string())
}

/// Whether an extension names a Windows program.
pub open spec fn is_exe_extension(ext: Option<Seq<char>>) -> bool {
    match ext {
        Some(e) => ascii_lower_seq(e) == ascii_lower_seq("exe"@),
        None => false,
    }
}

/// Whether the path names a Windows program (`is_windows_executable`); the
/// extension that decides is returned with the answer; where every platform
/// reads the same extension off the path, it is that one.
pub fn is_windows_executable(path: &str) -> (r: (bool, Option<String>))
    ensures
        r.0 == is_exe_extension(opt_str(r.1)),
        known_extension(path@) matches Some(e) ==> opt_str(r.1) == e,
{
    let ext = path_extension(path);
    let b = match &ext {
        Some(e) => {
            let c = chars_of(e.as_str());
            eq_ignore_ascii_case(c.as_slice(), chars_of("exe").as_slice())
        },
        None => false,
    };
    (b, ext)
}

/// The bridge program to use (`bridge_program_path`): the path that the
/// environment names, when it exists, or else the first bundled candidate
/// that exists.
pub fn bridge_program_path(explicit_existing: Option<String>, candidates: &Vec<String>, exists: &Vec<bool>) -> (r: Option<String>)
    requires
        candidates@.len() == exists@.len(),
    ensures
        match explicit_existing {
            Some(p) => r matches Some(x) && x@ == p@,
            None => match first_true(exists@) {
                Some(i) => r matches Some(x) && x@ == candidates@[i]@,
                None => r is None,
            },
        },
{
    match explicit_existing {
        Some(p) => Some(p),
        None => {
            let mut i: usize = 0;
            while i < exists.len()
                invariant
                    i <= exists@.len(),
                    explicit_existing is None,
                    candidates@.len() == exists@.len(),
                    forall|j: int| 0 <= j < i ==> !(#[trigger] exists@[j]),
                decreases exists@.len() - i,
            {
                if exists[i] {
                    proof {
                        lemma_first_true(exists@, i as int);
                    }
                    return Some(candidates[i].clone());
                }
                i = i + 1;
            }
            proof {
                lemma_first_true(exists@, i as int);
            }
            None
        },
    }
}

/// The index of the first `true`.
pub open spec fn first_true(s: Seq<bool>) -> Option<int>
    decreases s.len(),
{
    if s.len() == 0 {
        None
    } else if s[0] {
        Some(0)
    } else {
        match first_true(s.drop_first()) {
            Some(i) => Some(i + 1),
            None => None,
        }
    }
}

proof fn lemma_first_true(s: Seq<bool>, k: int)
    requires
        0 <= k <= s.len(),
        forall|j: int| 0 <= j < k ==> !(#[trigger] s[j]),
        k == s.len() || s[k],
    ensures
        first_true(s) == (if k == s.len() {
            None::<int>
        } else {
            Some(k)
        }),
    decreases s.len(),
{
    if s.len() > 0 && k > 0 {
        let t = s.drop_first();
        assert forall|j: int| 0 <= j < k - 1 implies !(#[trigger] t[j]) by {
            assert(t[j] == s[j + 1]);
        }
        lemma_first_true(t, k - 1);
    }
}

/// The bridge as a script (`bridge_script_path`): the program unless it is a
/// Windows program.
pub fn bridge_script_path(program: Option<String>) -> (r: Option<String>)
    ensures
        match program {
            Some(p) => (r is None || (r matches Some(x) && x@ == p@))
                && (known_extension(p@) matches Some(e) ==> (r is Some <==> !is_exe_extension(e))),
            None => r is None,
        },
{
    match program {
        Some(p) => {
            let (exe, _) = is_windows_executable(p.as_str());
            if exe {
                None
            } else {
                Some(p)
            }
        },
        None => None,
    }
}

/// The bridge as a Windows program (`bridge_exe_path`).
pub fn bridge_exe_path(program: Option<String>) -> (r: Option<String>)
    ensures
        match program {
            Some(p) => (r is None || (r matches Some(x) && x@ == p@))
                && (known_extension(p@) matches Some(e) ==> (r is Some <==> is_exe_extension(e))),
            None => r is None,
        },
{
    match program {
        Some(p) => {
            let (exe, _) = is_windows_executable(p.as_str());
            if exe {
                Some(p)
            } else {
                None
            }
        },
        None => None,
    }
}

/// The command that runs the Python runtime (`python_command`).
pub fn python_command(probes: &Vec<RuntimeProbe>) -> (s: String)
    ensures
        s@ == (match first_usable(probes@) {
            Some(i) => probes@[i].path@,
            None => "python"@,
        }),
        (forall|i: int| 0 <= i < probes@.len() ==> #[trigger] probes@[i].path@.len() > 0) ==> s@.len() > 0,
{
    proof {
        reveal_strlit("python");
        lemma_first_usable_in_range(probes@);
    }
    resolve_python_runtime(probes).path
}

pub open spec fn bridge_missing_message() -> Seq<char> {
    "prelaunch_bridge_missing: could not find bundled prelaunch_bridge.exe or prelaunch_bridge.py"@
}

/// How the bridge starts (`bridge_command_prefix`): a Windows program runs
/// directly, a script through Python; without either the bridge is missing.
/// Where every platform reads the same extension off the program path, the
/// choice follows it.
pub fn bridge_command_prefix(program: Option<String>, python: &str) -> (r: Result<Vec<String>, String>)
    ensures
        match program {
            None => r matches Err(m) && m@ == bridge_missing_message(),
            Some(p) => r matches Ok(v) && (strs(v@) == seq![p@] || strs(v@) == seq![python@, p@])
                && (known_extension(p@) matches Some(e) ==> (strs(v@) == seq![p@] <==> is_exe_extension(e))),
        },
{
    match program {
        None => Err(String::from_str(
            "prelaunch_bridge_missing: could not find bundled prelaunch_bridge.exe or prelaunch_bridge.py",
        )),
        Some(p) => {
            let (exe, _) = is_windows_executable(p.as_str());
            if exe {
                let v = vec![p];
                assert(strs(v@) =~= seq![v@[0]@]);
                Ok(v)
            } else {
                let v = vec![String::from_str(python), p];
                assert(strs(v@) =~= seq![python@, v@[1]@]);
                Ok(v)
            }
        },
    }
}

/// Options that widen what a repair recovers.
#[derive(Debug, Clone, Default)]
pub struct RecoveryOptions<'a> {
    pub include_archived: bool,
    pub allow_missing_cwd: bool,
    pub allow_empty_cwd: bool,
    pub allow_missing_session: bool,
    pub projectless_mode: Option<&'a str>,
    pub unarchive_selected: bool,
}

/// The flags for the recovery options, in a fixed order.
pub open spec fn recovery_flags(o: RecoveryOptions) -> Seq<Seq<char>> {
    (if o.include_archived {
        seq!["--include-archived"@]
    } else {
        Seq::empty()
    }) + (if o.allow_missing_cwd {
        seq!["--allow-missing-cwd"@]
    } else {
        Seq::empty()
    }) + (if o.allow_empty_cwd {
        seq!["--allow-empty-cwd"@]
    } else {
        Seq::empty()
    }) + (if o.allow_missing_session {
        seq!["--allow-missing-session"@]
    } else {
        Seq::empty()
    }) + (match o.projectless_mode {
        Some(m) => seq!["--projectless-mode"@, m@],
        None => Seq::empty(),
    }) + (if o.unarchive_selected {
        seq!["--unarchive-selected"@]
    } else {
        Seq::empty()
    })
}

fn push_arg(v: &mut Vec<String>, a: &str)
    ensures
        strs(final(v)@) == strs(old(v)@).push(a@),
{
    let ghost before = v@;
    v.push(String::from_str(a));
    assert(strs(v@) =~= strs(before).push(a@));
}

/// Adds the flags for the recovery options (`append_recovery_options`).
pub fn append_recovery_options(command: &mut Vec<String>, options: RecoveryOptions<'_>)
    ensures
        strs(final(command)@) == strs(old(command)@) + recovery_flags(options),
{
    let ghost start = strs(command@);
    if options.include_archived {
        push_arg(command, "--include-archived");
    }
    let ghost s1 = strs(command@);
    if options.allow_missing_cwd {
        push_arg(command, "--allow-missing-cwd");
    }
    let ghost s2 = strs(command@);
    if options.allow_empty_cwd {
        push_arg(command, "--allow-empty-cwd");
    }
    let ghost s3 = strs(command@);
    if options.allow_missing_session {
        push_arg(command, "--allow-missing-session");
    }
    let ghost s4 = strs(command@);
    match options.projectless_mode {
        Some(m) => {
            push_arg(command, "--projectless-mode");
            push_arg(command, m);
        },
        None => {},
    }
    let ghost s5 = strs(command@);
    if options.unarchive_selected {
        push_arg(command, "--unarchive-selected");
    }
    assert(strs(command@) =~= start + recovery_flags(options));
}

/// The bridge's arguments after its program: the subcommand, the Codex home,
/// then the mode, provider, and flags that are given.
pub open spec fn mode_args(subcommand: Seq<char>, codex_home: Seq<char>, mode: Option<Seq<char>>, provider_json: Option<Seq<char>>, hide: bool, restore: bool) -> Seq<Seq<char>> {
    seq![subcommand, "--codex-home"@, codex_home] + (match mode {
        Some(m) => seq!["--mode"@, m],
        None => Seq::empty(),
    }) + (match provider_json {
        Some(p) => seq!["--provider-json"@, p],
        None => Seq::empty(),
    }) + (if hide {
        seq!["--hide-official-quota-notice"@]
    } else {
        Seq::empty()
    }) + (if restore {
        seq!["--restore-history"@]
    } else {
        Seq::empty()
    })
}

pub open spec fn opt_strref(o: Option<&str>) -> Option<Seq<char>> {
    match o {
        Some(s) => Some(s@),
        None => None,
    }
}

/// A bridge command line (`bridge_command_with_mode`): the program's prefix
/// and the arguments; the prefix's error when the bridge is missing.
pub fn bridge_command_with_mode(
    prefix: Result<Vec<String>, String>,
    subcommand: &str,
    codex_home: &str,
    mode: Option<&str>,
    provider_json: Option<&str>,
    hide_official_quota_notice: bool,
    restore_history: bool,
) -> (r: Result<Vec<String>, String>)
    ensures
        match prefix {
            Err(e) => r matches Err(x) && x@ == e@,
            Ok(p) => r matches Ok(v) && strs(v@) == strs(p@) + mode_args(
                subcommand@,
                codex_home@,
                opt_strref(mode),
                opt_strref(provider_json),
                hide_official_quota_notice,
                restore_history,
            ),
        },
{
    let mut command = match prefix {
        Err(e) => {
            return Err(e);
        },
        Ok(p) => p,
    };
    let ghost start = strs(command@);
    push_arg(&mut command, subcommand);
    push_arg(&mut command, "--codex-home");
    push_arg(&mut command, codex_home);
    let ghost s1 = strs(command@);
    match mode {
        Some(m) => {
            push_arg(&mut command, "--mode");
            push_arg(&mut command, m);
        },
        None => {},
    }
    let ghost s2 = strs(command@);
    match provider_json {
        Some(p) => {
            push_arg(&mut command, "--provider-json");
            push_arg(&mut command, p);
        },
        None => {},
    }
    let ghost s3 = strs(command@);
    if hide_official_quota_notice {
        push_arg(&mut command, "--hide-official-quota-notice");
    }
    let ghost s4 = strs(command@);
    if restore_history {
        push_arg(&mut command, "--restore-history");
    }
    assert(strs(command@) =~= start + mode_args(
        subcommand@,
        codex_home@,
        opt_strref(mode),
        opt_strref(provider_json),
        hide_official_quota_notice,
        restore_history,
    ));
    Ok(command)
}

/// A bridge command line with only the subcommand and the Codex home (`bridge_command`).
pub fn bridge_command(prefix: Result<Vec<String>, String>, subcommand: &str, codex_home: &str) -> (r: Result<Vec<String>, String>)
    ensures
        match prefix {
            Err(e) => r matches Err(x) && x@ == e@,
            Ok(p) => r matches Ok(v) && strs(v@) == strs(p@) + seq![subcommand@, "--codex-home"@, codex_home@],
        },
{
    let r = bridge_command_with_mode(prefix, subcommand, codex_home, None, None, false, false);
    proof {
        let ms = mode_args(subcommand@, codex_home@, None, None, false, false);
        assert(ms =~= seq![subcommand@, "--codex-home"@, codex_home@]);
    }
    r
}

/// A repair command line with recovery options (`bridge_command_with_recovery_options`).
pub fn bridge_command_with_recovery_options(
    prefix: Result<Vec<String>, String>,
    subcommand: &str,
    codex_home: &str,
    options: RecoveryOptions<'_>,
) -> (r: Result<Vec<String>, String>)
    ensures
        match prefix {
            Err(e) => r matches Err(x) && x@ == e@,
            Ok(p) => r matches Ok(v) && strs(v@) == strs(p@) + seq![subcommand@, "--codex-home"@, codex_home@]
                + recovery_flags(options),
        },
{
    let r = bridge_command(prefix, subcommand, codex_home);
    match r {
        Ok(mut command) => {
            append_recovery_options(&mut command, options);
            Ok(command)
        },
        Err(e) => Err(e),
    }
}

/// Where a bundled bridge may lie next to the app's executable
/// (`bundled_bridge_candidates`): for the program and then the script, the
/// directory itself, `prelaunch`, `resources`, `resources/prelaunch`, `_up_`,
/// `_up_/prelaunch`, `../Resources` and `../Resources/prelaunch`.
pub fn bundled_bridge_candidates(exe_dir: &str) -> (out: Vec<String>)
    ensures
        out@.len() == 16,
        forall|k: int| 0 <= k < 16 ==> joined_all(
            exe_dir@,
            #[trigger] bridge_candidate_parts(k),
            out@[k]@,
        ),
{
    proof {
        reveal_strlit("prelaunch_bridge.exe");
        reveal_strlit("prelaunch_bridge.py");
        reveal_strlit("prelaunch");
        reveal_strlit("resources");
        reveal_strlit("_up_");
        reveal_strlit("..");
        reveal_strlit("Resources");
    }
    let mut out: Vec<String> = Vec::new();
    let f = "prelaunch_bridge.exe";
    {
        let parts: Vec<&str> = vec![f];
        assert(Seq::new(parts@.len(), |i: int| parts@[i]@) =~= bridge_candidate_parts(0));
        let c = join_all(exe_dir, &parts);
        out.push(c);
    }
    {
        let parts: Vec<&str> = vec!["prelaunch", f];
        assert(Seq::new(parts@.len(), |i: int| parts@[i]@) =~= bridge_candidate_parts(1));
        let c = join_all(exe_dir, &parts);
        out.push(c);
    }
    {
        let parts: Vec<&str> = vec!["resources", f];
        assert(Seq::new(parts@.len(), |i: int| parts@[i]@) =~= bridge_candidate_parts(2));
        let c = join_all(exe_dir, &parts);
        out.push(c);
    }
    {
        let parts: Vec<&str> = vec!["resources", "prelaunch", f];
        assert(Seq::new(parts@.len(), |i: int| parts@[i]@) =~= bridge_candidate_parts(3));
        let c = join_all(exe_dir, &parts);
        out.push(c);
    }
    {
        let parts: Vec<&str> = vec!["_up_", f];
        assert(Seq::new(parts@.len(), |i: int| parts@[i]@) =~= bridge_candidate_parts(4));
        let c = join_all(exe_dir, &parts);
        out.push(c);
    }
    {
        let parts: Vec<&str> = vec!["_up_", "prelaunch", f];
        assert(Seq::new(parts@.len(), |i: int| parts@[i]@) =~= bridge_candidate_parts(5));
        let c = join_all(exe_dir, &parts);
        out.push(c);
    }
    {
        let parts: Vec<&str> = vec!["..", "Resources", f];
        assert(Seq::new(parts@.len(), |i: int| parts@[i]@) =~= bridge_candidate_parts(6));
        let c = join_all(exe_dir, &parts);
        out.push(c);
    }
    {
        let parts: Vec<&str> = vec!["..", "Resources", "prelaunch", f];
        assert(Seq::new(parts@.len(), |i: int| parts@[i]@) =~= bridge_candidate_parts(7));
        let c = join_all(exe_dir, &parts);
        out.push(c);
    }
    let f = "prelaunch_bridge.py";
    {
        let parts: Vec<&str> = vec![f];
        assert(Seq::new(parts@.len(), |i: int| parts@[i]@) =~= bridge_candidate_parts(8));
        let c = join_all(exe_dir, &parts);
        out.push(c);
    }
    {
        let parts: Vec<&str> = vec!["prelaunch", f];
        assert(Seq::new(parts@.len(), |i: int| parts@[i]@) =~= bridge_candidate_parts(9));
        let c = join_all(exe_dir, &parts);
        out.push(c);
    }
    {
        let parts: Vec<&str> = vec!["resources", f];
        assert(Seq::new(parts@.len(), |i: int| parts@[i]@) =~= bridge_candidate_parts(10));
        let c = join_all(exe_dir, &parts);
        out.push(c);
    }
    {
        let parts: Vec<&str> = vec!["resources", "prelaunch", f];
        assert(Seq::new(parts@.len(), |i: int| parts@[i]@) =~= bridge_candidate_parts(11));
        let c = join_all(exe_dir, &parts);
        out.push(c);
    }
    {
        let parts: Vec<&str> = vec!["_up_", f];
        assert(Seq::new(parts@.len(), |i: int| parts@[i]@) =~= bridge_candidate_parts(12));
        let c = join_all(exe_dir, &parts);
        out.push(c);
    }
    {
        let parts: Vec<&str> = vec!["_up_", "prelaunch", f];
        assert(Seq::new(parts@.len(), |i: int| parts@[i]@) =~= bridge_candidate_parts(13));
        let c = join_all(exe_dir, &parts);
        out.push(c);
    }
    {
        let parts: Vec<&str> = vec!["..", "Resources", f];
        assert(Seq::new(parts@.len(), |i: int| parts@[i]@) =~= bridge_candidate_parts(14));
        let c = join_all(exe_dir, &parts);
        out.push(c);
    }
    {
        let parts: Vec<&str> = vec!["..", "Resources", "prelaunch", f];
        assert(Seq::new(parts@.len(), |i: int| parts@[i]@) =~= bridge_candidate_parts(15));
        let c = join_all(exe_dir, &parts);
        out.push(c);
    }
    out
}

/// The components of the `k`-th bridge candidate below the executable's directory.
pub open spec fn bridge_candidate_parts(k: int) -> Seq<Seq<char>> {
    let f = if k < 8 {
        "prelaunch_bridge.exe"@
    } else {
        "prelaunch_bridge.py"@
    };
    let l = k % 8;
    if l == 0 {
        seq![f]
    } else if l == 1 {
        seq!["prelaunch"@, f]
    } else if l == 2 {
        seq!["resources"@, f]
    } else if l == 3 {
        seq!["resources"@, "prelaunch"@, f]
    } else if l == 4 {
        seq!["_up_"@, f]
    } else if l == 5 {
        seq!["_up_"@, "prelaunch"@, f]
    } else if l == 6 {
        seq![".."@, "Resources"@, f]
    } else {
        seq![".."@, "Resources"@, "prelaunch"@, f]
    }
}

} // verus!
