//! Choosing the helper runtimes (Python, Codex, threadripper) among the
//! places where they may be installed.  Which candidates exist and work is
//! found out by the caller; the choice among them is made here.
use vstd::prelude::*;
use vstd::string::StringExecFns;
use crate::paths::{join_path, joined, plain_component};
use crate::text::{chars_of, contains, contains_exec, ends_with, ends_with_exec, lowercase, replace_char, replace_char_vec, string_of, to_lowercase_chars};

verus! {

#[derive(Debug, Clone, Copy, PartialEq, Eq, Structural)]
pub enum ResolvedRuntimeSource {
    ManagedLocal,
    BundledCache,
    PathFallback,
}

impl ResolvedRuntimeSource {
    /// The source's name as reports show it.
    pub fn as_str(&self) -> (s: &'static str)
        ensures
            s@ == (match self {
                ResolvedRuntimeSource::ManagedLocal => "managedLocal"@,
                ResolvedRuntimeSource::BundledCache => "bundledCache"@,
                ResolvedRuntimeSource::PathFallback => "pathFallback"@,
            }),
    {
        match self {
            ResolvedRuntimeSource::ManagedLocal => "managedLocal",
            ResolvedRuntimeSource::BundledCache => "bundledCache",
            ResolvedRuntimeSource::PathFallback => "pathFallback",
        }
    }
}

#[derive(Debug, Clone, PartialEq, Eq)]
pub struct ResolvedRuntime {
    pub path: String,
    pub source: ResolvedRuntimeSource,
}

/// A place where a runtime may be, in the order of preference, with whether
/// it exists and works there.
#[derive(Debug, Clone, PartialEq, Eq)]
pub struct RuntimeProbe {
    pub path: String,
    pub source: ResolvedRuntimeSource,
    pub usable: bool,
}

/// The index of the first usable probe.
pub open spec fn first_usable(probes: Seq<RuntimeProbe>) -> Option<int>
    decreases probes.len(),
{
    if probes.len() == 0 {
        None
    } else if probes[0].usable {
        Some(0)
    } else {
        match first_usable(probes.drop_first()) {
            Some(i) => Some(i + 1),
            None => None,
        }
    }
}

/// The first usable probe, when there is one, is one of the probes.
pub proof fn lemma_first_usable_in_range(probes: Seq<RuntimeProbe>)
    ensures
        first_usable(probes) matches Some(i) ==> 0 <= i < probes.len(),
    decreases probes.len(),
{
    if probes.len() > 0 && !probes[0].usable {
        lemma_first_usable_in_range(probes.drop_first());
    }
}

proof fn lemma_first_usable(probes: Seq<RuntimeProbe>, k: int)
    requires
        0 <= k <= probes.len(),
        forall|j: int| 0 <= j < k ==> !(#[trigger] probes[j]).usable,
        k == probes.len() || probes[k].usable,
    ensures
        first_usable(probes) == (if k == probes.len() {
            None::<int>
        } else {
            Some(k)
        }),
    decreases probes.len(),
{
    if probes.len() > 0 && k > 0 {
        let t = probes.drop_first();
        assert forall|j: int| 0 <= j < k - 1 implies !(#[trigger] t[j]).usable by {
            assert(t[j] == probes[j + 1]);
        }
        lemma_first_usable(t, k - 1);
    }
}

fn find_usable(probes: &Vec<RuntimeProbe>) -> (r: Option<usize>)
    ensures
        match r {
            Some(i) => first_usable(probes@) == Some(i as int) && i < probes@.len(),
            None => first_usable(probes@) is None,
        },
{
    let mut i: usize = 0;
    while i < probes.len()
        invariant
            i <= probes@.len(),
            forall|j: int| 0 <= j < i ==> !(#[trigger] probes@[j]).usable,
        decreases probes@.len() - i,
    {
        if probes[i].usable {
            proof {
                lemma_first_usable(probes@, i as int);
            }
            return Some(i);
        }
        i = i + 1;
    }
    proof {
        lemma_first_usable(probes@, i as int);
    }
    None
}

/// The Python runtime to use (`resolve_python_runtime`): the first usable
/// candidate, or `python` from the `PATH` when none is.
pub fn resolve_python_runtime(probes: &Vec<RuntimeProbe>) -> (r: ResolvedRuntime)
    ensures
        match first_usable(probes@) {
            Some(i) => r.path@ == probes@[i].path@ && r.source == probes@[i].source,
            None => r.path@ == "python"@ && r.source == ResolvedRuntimeSource::PathFallback,
        },
{
    match find_usable(probes) {
        Some(i) => ResolvedRuntime { path: probes[i].path.clone(), source: probes[i].source },
        None => ResolvedRuntime { path: String::from_str("python"), source: ResolvedRuntimeSource::PathFallback },
    }
}

/// A helper program (`resolve_helper_binary`): the first usable candidate, if any.
pub fn resolve_helper_binary(probes: &Vec<RuntimeProbe>) -> (r: Option<ResolvedRuntime>)
    ensures
        match first_usable(probes@) {
            Some(i) => r matches Some(x) && x.path@ == probes@[i].path@ && x.source == probes@[i].source,
            None => r is None,
        },
{
    match find_usable(probes) {
        Some(i) => Some(ResolvedRuntime { path: probes[i].path.clone(), source: probes[i].source }),
        None => None,
    }
}

/// A path, with `/` made `\` and lower-cased, as Windows paths are compared.
pub open spec fn windows_key(path: Seq<char>) -> Seq<char> {
    lowercase(replace_char(path, '/', seq!['\\']))
}

/// Whether a path is the Codex Desktop stub that the Microsoft Store installs
/// (`is_windowsapps_codex_desktop_shim`).
pub open spec fn is_store_shim(path: Seq<char>) -> bool {
    let k = windows_key(path);
    contains(k, "\\windowsapps\\openai.codex_"@) && ends_with(k, "\\app\\codex.exe"@)
}

/// `path` normalised for Windows comparisons.
pub fn windows_key_exec(path: &str) -> (out: Vec<char>)
    ensures
        out@ == windows_key(path@),
{
    let c = chars_of(path);
    let bs: Vec<char> = vec!['\\'];
    assert(bs@ =~= seq!['\\']);
    let r = replace_char_vec(c.as_slice(), '/', bs.as_slice());
    to_lowercase_chars(r.as_slice())
}

/// Whether a path is the Store's Codex Desktop stub.
pub fn is_windowsapps_codex_desktop_shim(path: &str) -> (b: bool)
    ensures
        b == is_store_shim(path@),
{
    let k = windows_key_exec(path);
    let a = chars_of("\\windowsapps\\openai.codex_");
    let e = chars_of("\\app\\codex.exe");
    contains_exec(k.as_slice(), a.as_slice()) && ends_with_exec(k.as_slice(), e.as_slice())
}

/// The Codex Desktop that the environment names, as a candidate: usable when
/// it exists and is not the Store's stub, which cannot be started directly.
pub fn explicit_codex_desktop_probe(path: String, exists: bool) -> (p: RuntimeProbe)
    ensures
        p.path@ == path@,
        p.source == ResolvedRuntimeSource::ManagedLocal,
        p.usable == (exists && !is_store_shim(path@)),
{
    let shim = is_windowsapps_codex_desktop_shim(path.as_str());
    RuntimeProbe { path, source: ResolvedRuntimeSource::ManagedLocal, usable: exists && !shim }
}

/// The Python modules that the bridge needs.
pub open spec fn required_modules_import() -> Seq<char> {
    "import requests, websocket"@
}

/// The arguments that make a Python runtime import the bridge's modules
///.
pub fn python_import_check_args() -> (args: Vec<String>)
    ensures
        crate::models::strs(args@) == seq!["-c"@, required_modules_import()],
{
    let mut m = chars_of("import ");
    crate::text::push_str(&mut m, "requests");
    crate::text::push_str(&mut m, ", ");
    crate::text::push_str(&mut m, "websocket");
    proof {
        reveal_strlit("import ");
        reveal_strlit("requests");
        reveal_strlit(", ");
        reveal_strlit("websocket");
        reveal_strlit("import requests, websocket");
        assert(m@ =~= required_modules_import());
    }
    let args = vec![String::from_str("-c"), string_of(m.as_slice())];
    assert(crate::models::strs(args@) =~= seq!["-c"@, required_modules_import()]);
    args
}

/// A path below `base`, one component at a time.
pub open spec fn joined_all(base: Seq<char>, parts: Seq<Seq<char>>, out: Seq<char>) -> bool
    decreases parts.len(),
{
    if parts.len() == 0 {
        out == base
    } else {
        exists|mid: Seq<char>| joined_all(base, parts.drop_last(), mid) && joined(mid, parts.last(), out)
    }
}

/// Joins the components onto `base`.
pub fn join_all(base: &str, parts: &Vec<&str>) -> (out: String)
    requires
        forall|i: int| 0 <= i < parts@.len() ==> plain_component(#[trigger] parts@[i]@),
    ensures
        joined_all(base@, Seq::new(parts@.len(), |i: int| parts@[i]@), out@),
{
    let ghost ps = Seq::new(parts@.len(), |i: int| parts@[i]@);
    let mut out = String::from_str(base);
    let mut i: usize = 0;
    assert(ps.subrange(0, 0).len() == 0);
    while i < parts.len()
        invariant
            i <= parts@.len(),
            ps == Seq::new(parts@.len(), |i: int| parts@[i]@),
            forall|i: int| 0 <= i < parts@.len() ==> plain_component(#[trigger] parts@[i]@),
            joined_all(base@, ps.subrange(0, i as int), out@),
        decreases parts@.len() - i,
    {
        let next = join_path(out.as_str(), parts[i]);
        proof {
            let sub = ps.subrange(0, i + 1);
            assert(sub.drop_last() =~= ps.subrange(0, i as int));
            assert(sub.last() == parts@[i as int]@);
        }
        out = next;
        i = i + 1;
    }
    assert(ps.subrange(0, parts@.len() as int) =~= ps);
    out
}

/// Where a bundled Python may lie next to the app's executable
/// (`bundled_python_candidates`): `python/python.exe` beside it, under
/// `resources`, under `_up_`, and under `../Resources`.
pub fn bundled_python_candidates(exe_dir: &str) -> (out: Vec<String>)
    ensures
        out@.len() == 4,
        joined_all(exe_dir@, seq!["python"@, "python.exe"@], out@[0]@),
        joined_all(exe_dir@, seq!["resources"@, "python"@, "python.exe"@], out@[1]@),
        joined_all(exe_dir@, seq!["_up_"@, "python"@, "python.exe"@], out@[2]@),
        joined_all(exe_dir@, seq![".."@, "Resources"@, "python"@, "python.exe"@], out@[3]@),
{
    proof {
        reveal_strlit("python");
        reveal_strlit("python.exe");
        reveal_strlit("resources");
        reveal_strlit("_up_");
        reveal_strlit("..");
        reveal_strlit("Resources");
    }
    let p1: Vec<&str> = vec!["python", "python.exe"];
    let p2: Vec<&str> = vec!["resources", "python", "python.exe"];
    let p3: Vec<&str> = vec!["_up_", "python", "python.exe"];
    let p4: Vec<&str> = vec!["..", "Resources", "python", "python.exe"];
    assert(Seq::new(p1@.len(), |i: int| p1@[i]@) =~= seq!["python"@, "python.exe"@]);
    assert(Seq::new(p2@.len(), |i: int| p2@[i]@) =~= seq!["resources"@, "python"@, "python.exe"@]);
    assert(Seq::new(p3@.len(), |i: int| p3@[i]@) =~= seq!["_up_"@, "python"@, "python.exe"@]);
    assert(Seq::new(p4@.len(), |i: int| p4@[i]@) =~= seq![".."@, "Resources"@, "python"@, "python.exe"@]);
    let a = join_all(exe_dir, &p1);
    let b = join_all(exe_dir, &p2);
    let c = join_all(exe_dir, &p3);
    let d = join_all(exe_dir, &p4);
    vec![a, b, c, d]
}

} // verus!
