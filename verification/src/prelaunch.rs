//! The pre-launch checks and the bridge program that launches and repairs
//! Codex: the bridge's command lines, its environment, what the status
//! helpers print, and which Codex processes are found running.
use vstd::prelude::*;
use vstd::string::StringExecFns;
use crate::lines::{lines_of, seqs, split_lines};
use crate::models::strs;
use crate::numbers::{parse_i64, parse_i64_spec};
use crate::paths::{join_path, joined, plain_component};
use crate::runtime_resolver::{join_all, joined_all, windows_key, windows_key_exec, ResolvedRuntime, ResolvedRuntimeSource};
use crate::text::{
    ascii_lower_seq, chars_of, contains, contains_exec, copy_range, ends_with, ends_with_exec,
    eq_ignore_ascii_case, lowercase, push_all, push_str, split_str, split_str_exec,
    starts_with, starts_with_exec, string_of, strip_prefix, to_lowercase_chars, trim, trim_char,
    trim_char_bounds, trim_vec,
};
use crate::toml_scan::copy_range_all;

verus! {

// ---------------------------------------------------------------------------
// Logging
// ---------------------------------------------------------------------------
/// The first `max` characters of a value, marked when some were cut.
pub open spec fn truncated(value: Seq<char>, max: nat) -> Seq<char> {
    if value.len() > max {
        value.take(max as int) + "...<truncated>"@
    } else {
        value
    }
}

/// Shortens a value for the log (`truncate_for_log`).
pub fn truncate_for_log(value: &str, max_chars: usize) -> (out: String)
    ensures
        out@ == truncated(value@, max_chars as nat),
{
    let c = chars_of(value);
    if c.len() > max_chars {
        let mut t = copy_range(c.as_slice(), 0, max_chars);
        push_str(&mut t, "...<truncated>");
        string_of(t.as_slice())
    } else {
        string_of(c.as_slice())
    }
}

/// A command-line part as the log shows it: parts that name a secret are hidden.
pub open spec fn redacted_part(part: Seq<char>) -> Seq<char> {
    if contains(part, "api_key"@) || contains(part, "OPENAI_API_KEY"@) || contains(
        part,
        "experimental_bearer_token"@,
    ) {
        "<redacted>"@
    } else {
        part
    }
}

/// The parts joined with single spaces.
pub open spec fn join_spaces(parts: Seq<Seq<char>>) -> Seq<char>
    decreases parts.len(),
{
    if parts.len() == 0 {
        Seq::empty()
    } else if parts.len() == 1 {
        parts[0]
    } else {
        join_spaces(parts.drop_last()) + seq![' '] + parts.last()
    }
}

/// A command line for the log (`redact_command`).
pub fn redact_command(command: &Vec<String>) -> (out: String)
    ensures
        out@ == join_spaces(strs(command@).map_values(|p: Seq<char>| redacted_part(p))),
{
    let ghost parts = strs(command@).map_values(|p: Seq<char>| redacted_part(p));
    let mut out: Vec<char> = Vec::new();
    let mut i: usize = 0;
    while i < command.len()
        invariant
            i <= command@.len(),
            parts == strs(command@).map_values(|p: Seq<char>| redacted_part(p)),
            out@ == join_spaces(parts.subrange(0, i as int)),
        decreases command@.len() - i,
    {
        let ghost pre = parts.subrange(0, i as int);
        let ghost next = parts.subrange(0, i + 1);
        proof {
            assert(next.drop_last() =~= pre);
        }
        if i > 0 {
            out.push(' ');
        } else {
            assert(out@ =~= Seq::<char>::empty());
        }
        let p = chars_of(command[i].as_str());
        let secret = contains_exec(p.as_slice(), chars_of("api_key").as_slice()) || contains_exec(
            p.as_slice(),
            chars_of("OPENAI_API_KEY").as_slice(),
        ) || contains_exec(p.as_slice(), chars_of("experimental_bearer_token").as_slice());
        if secret {
            push_str(&mut out, "<redacted>");
        } else {
            push_all(&mut out, p.as_slice());
        }
        proof {
            assert(next.last() == redacted_part(command@[i as int]@));
        }
        i = i + 1;
        proof {
            if i == 1 {
                assert(out@ =~= join_spaces(next));
            } else {
                assert(out@ =~= join_spaces(next));
            }
        }
    }
    assert(parts.subrange(0, command@.len() as int) =~= parts);
    string_of(out.as_slice())
}

// ---------------------------------------------------------------------------
// The threadripper status helper
// ---------------------------------------------------------------------------
/// The status read so far: the target provider and the rows to reconcile.
pub open spec fn status_step(st: (Option<Seq<char>>, Option<i64>), line: Seq<char>) -> (Option<Seq<char>>, Option<i64>) {
    let t = trim(line);
    match strip_prefix(t, "Target provider:"@) {
        Some(v) => (Some(trim(v)), st.1),
        None => match strip_prefix(t, "Rows needing reconcile:"@) {
            Some(v) => (st.0, parse_i64_spec(trim(v))),
            None => st,
        },
    }
}

pub open spec fn status_scan(ls: Seq<Seq<char>>, n: nat) -> (Option<Seq<char>>, Option<i64>)
    decreases n,
{
    if n == 0 {
        (None, None)
    } else {
        status_step(status_scan(ls, (n - 1) as nat), ls[n - 1])
    }
}

/// What the status output says (`parse_threadripper_status_output`): the
/// last `Target provider:` line and the last `Rows needing reconcile:` line
/// (whose number may fail to read) decide.
pub open spec fn threadripper_status(text: Seq<char>) -> (Option<Seq<char>>, Option<i64>) {
    let ls = lines_of(text);
    status_scan(ls, ls.len())
}

/// Reads the status helper's output.
pub fn parse_threadripper_status_output(text: &str) -> (r: (Option<String>, Option<i64>))
    ensures
        crate::models::opt_str(r.0) == threadripper_status(text@).0,
        r.1 == threadripper_status(text@).1,
{
    let c = chars_of(text);
    let ls = split_lines(c.as_slice());
    let ghost s = seqs(ls@);
    let mut target: Option<String> = None;
    let mut rows: Option<i64> = None;
    let tp = chars_of("Target provider:");
    let rn = chars_of("Rows needing reconcile:");
    let mut i: usize = 0;
    while i < ls.len()
        invariant
            i <= ls@.len(),
            s == seqs(ls@),
            s == lines_of(text@),
            tp@ == "Target provider:"@,
            rn@ == "Rows needing reconcile:"@,
            status_scan(s, i as nat) == (crate::models::opt_str(target), rows),
        decreases ls@.len() - i,
    {
        assert(s[i as int] == ls@[i as int]@);
        let t = trim_vec(ls[i].as_slice());
        if starts_with_exec(t.as_slice(), tp.as_slice()) {
            let v = copy_range(t.as_slice(), tp.len(), t.len());
            let tv = trim_vec(v.as_slice());
            target = Some(string_of(tv.as_slice()));
        } else if starts_with_exec(t.as_slice(), rn.as_slice()) {
            let v = copy_range(t.as_slice(), rn.len(), t.len());
            let tv = trim_vec(v.as_slice());
            rows = parse_i64(tv.as_slice());
        }
        i = i + 1;
    }
    (target, rows)
}

// ---------------------------------------------------------------------------
// Stopping processes
// ---------------------------------------------------------------------------
/// The arguments of `taskkill` that stop one process, without its children
/// (`taskkill_args`).
pub fn taskkill_args(pid: i64) -> (args: Vec<String>)
    ensures
        strs(args@) == seq!["/PID"@, crate::text::decimal(pid as int), "/F"@],
{
    let d = crate::text::decimal_i64(pid);
    let args = vec![String::from_str("/PID"), string_of(d.as_slice()), String::from_str("/F")];
    assert(strs(args@) =~= seq!["/PID"@, crate::text::decimal(pid as int), "/F"@]);
    args
}

// ---------------------------------------------------------------------------
// Process lists
// ---------------------------------------------------------------------------
/// A running process as the process lists report it.
#[derive(Debug, Clone, PartialEq)]
pub struct ProcessRow {
    pub image: String,
    pub pid: Option<i64>,
    pub exe: Option<String>,
}

pub struct ProcessView {
    pub image: Seq<char>,
    pub pid: Option<i64>,
    pub exe: Option<Seq<char>>,
}

impl View for ProcessRow {
    type V = ProcessView;

    open spec fn view(&self) -> ProcessView {
        ProcessView { image: self.image@, pid: self.pid, exe: crate::models::opt_str(self.exe) }
    }
}

/// Two reports of the same process: the same image name, compared in lower
/// case, and the same process id.
pub open spec fn same_process(a: ProcessView, b: ProcessView) -> bool {
    lowercase(a.image) == lowercase(b.image) && a.pid == b.pid
}

/// The processes reported, each once: a report of a process already listed
/// is dropped (`codex_running_processes_from_rust`).
pub open spec fn distinct_processes(s: Seq<ProcessView>) -> Seq<ProcessView>
    decreases s.len(),
{
    if s.len() == 0 {
        Seq::empty()
    } else {
        let d = distinct_processes(s.drop_last());
        if exists|i: int| 0 <= i < d.len() && same_process(#[trigger] d[i], s.last()) {
            d
        } else {
            d.push(s.last())
        }
    }
}

fn copy_row(r: &ProcessRow) -> (out: ProcessRow)
    ensures
        out@ == r@,
{
    ProcessRow { image: r.image.clone(), pid: r.pid, exe: crate::text::clone_opt_string(&r.exe) }
}

/// Lists each running process once, in the order first reported.
pub fn distinct_process_rows(rows: &Vec<ProcessRow>) -> (out: Vec<ProcessRow>)
    ensures
        row_views(out@) == distinct_processes(row_views(rows@)),
{
    let ghost rv = row_views(rows@);
    let mut out: Vec<ProcessRow> = Vec::new();
    let mut keys: Vec<Vec<char>> = Vec::new();
    let mut i: usize = 0;
    assert(rv.take(0) =~= Seq::<ProcessView>::empty());
    while i < rows.len()
        invariant
            i <= rows@.len(),
            rv == row_views(rows@),
            row_views(out@) == distinct_processes(rv.take(i as int)),
            keys@.len() == out@.len(),
            forall|j: int| 0 <= j < keys@.len() ==> #[trigger] keys@[j]@ == lowercase(out@[j].image@),
        decreases rows@.len() - i,
    {
        let ghost before = row_views(out@);
        let key = to_lowercase_chars(chars_of(rows[i].image.as_str()).as_slice());
        let mut found = false;
        let mut j: usize = 0;
        while j < out.len()
            invariant
                j <= out@.len(),
                keys@.len() == out@.len(),
                forall|m: int| 0 <= m < keys@.len() ==> #[trigger] keys@[m]@ == lowercase(out@[m].image@),
                key@ == lowercase(rows@[i as int].image@),
                i < rows@.len(),
                found == exists|m: int| 0 <= m < j && same_process(#[trigger] row_views(out@)[m], rows@[i as int]@),
            decreases out@.len() - j,
        {
            if crate::text::eq_chars(keys[j].as_slice(), key.as_slice()) && out[j].pid == rows[i].pid {
                assert(same_process(row_views(out@)[j as int], rows@[i as int]@));
                found = true;
            } else {
                assert(!same_process(row_views(out@)[j as int], rows@[i as int]@));
            }
            j = j + 1;
        }
        proof {
            assert(rv.take(i as int + 1).drop_last() =~= rv.take(i as int));
            assert(rv.take(i as int + 1).last() == rows@[i as int]@);
        }
        if !found {
            let row = copy_row(&rows[i]);
            out.push(row);
            keys.push(key);
            proof {
                assert(row_views(out@) =~= before.push(rows@[i as int]@));
            }
        }
        i = i + 1;
    }
    assert(rv.take(rows@.len() as int) =~= rv);
    out
}

/// A CSV cell: trimmed, without surrounding double quotes.
pub open spec fn cell(part: Seq<char>) -> Seq<char> {
    trim_char(trim(part), '"')
}

fn cell_exec(part: &[char]) -> (out: Vec<char>)
    ensures
        out@ == cell(part@),
{
    let t = trim_vec(part);
    let (a, b) = trim_char_bounds(t.as_slice(), '"');
    copy_range(t.as_slice(), a, b)
}

/// The cells of a row split on `sep`.
pub open spec fn cells(line: Seq<char>, sep: Seq<char>) -> Seq<Seq<char>> {
    split_str(line, sep).map_values(|p: Seq<char>| cell(p))
}

fn cells_exec(line: &[char], sep: &[char]) -> (out: Vec<Vec<char>>)
    requires
        sep@.len() > 0,
    ensures
        seqs(out@) == cells(line@, sep@),
{
    let parts = split_str_exec(line, sep);
    let mut out: Vec<Vec<char>> = Vec::new();
    let mut i: usize = 0;
    while i < parts.len()
        invariant
            i <= parts@.len(),
            parts@.len() == split_str(line@, sep@).len(),
            forall|k: int| 0 <= k < parts@.len() ==> (#[trigger] parts@[k])@ == split_str(line@, sep@)[k],
            seqs(out@) == cells(line@, sep@).subrange(0, i as int),
        decreases parts@.len() - i,
    {
        let c = cell_exec(parts[i].as_slice());
        let ghost before = out@;
        out.push(c);
        assert(seqs(out@) =~= seqs(before).push(c@));
        assert(cells(line@, sep@).subrange(0, i + 1) =~= cells(line@, sep@).subrange(0, i as int).push(c@));
        i = i + 1;
    }
    assert(cells(line@, sep@).subrange(0, parts@.len() as int) =~= cells(line@, sep@));
    out
}

/// The process id in a cell, when it reads as an integer.
pub open spec fn pid_of(cols: Seq<Seq<char>>) -> Option<i64> {
    if cols.len() > 1 {
        parse_i64_spec(cols[1])
    } else {
        None
    }
}

/// The row that a `tasklist /FO CSV` line gives for the image `name`: lines
/// that are empty, informational, or about another image give none
/// (`parse_tasklist_processes`).
pub open spec fn tasklist_row(name: Seq<char>, raw: Seq<char>) -> Option<ProcessView> {
    let line = trim(raw);
    if line.len() == 0 || contains(line, "INFO:"@) {
        None
    } else {
        let cols = cells(line, "\",\""@);
        if lowercase(cols[0]) != lowercase(name) {
            None
        } else {
            Some(ProcessView { image: cols[0], pid: pid_of(cols), exe: None })
        }
    }
}

/// The row that a CIM CSV line gives: the header and rows without an image
/// give none (`parse_cim_processes`).
pub open spec fn cim_row(raw: Seq<char>) -> Option<ProcessView> {
    let line = trim(raw);
    if line.len() == 0 || starts_with(trim_char(line, '"'), "Name\",\""@) || starts_with(line, "Name,"@) {
        None
    } else {
        let cols = cells(line, seq![',']);
        if cols[0].len() == 0 {
            None
        } else {
            Some(ProcessView {
                image: cols[0],
                pid: pid_of(cols),
                exe: Some(
                    if cols.len() > 2 {
                        cols[2]
                    } else {
                        Seq::empty()
                    },
                ),
            })
        }
    }
}

/// The rows that the lines give, in order.
pub open spec fn collect_rows(ls: Seq<Seq<char>>, f: spec_fn(Seq<char>) -> Option<ProcessView>) -> Seq<ProcessView>
    decreases ls.len(),
{
    if ls.len() == 0 {
        Seq::empty()
    } else {
        let rest = collect_rows(ls.drop_last(), f);
        match f(ls.last()) {
            Some(r) => rest.push(r),
            None => rest,
        }
    }
}

pub open spec fn row_views(v: Seq<ProcessRow>) -> Seq<ProcessView> {
    Seq::new(v.len(), |i: int| v[i]@)
}

proof fn lemma_split_nonempty(s: Seq<char>, sep: Seq<char>)
    requires
        sep.len() > 0,
    ensures
        split_str(s, sep).len() > 0,
{
    crate::text::lemma_find_from(s, sep, 0);
}

fn tasklist_row_exec(name: &[char], raw: &[char]) -> (r: Option<ProcessRow>)
    ensures
        match r {
            Some(x) => tasklist_row(name@, raw@) == Some(x@),
            None => tasklist_row(name@, raw@) is None,
        },
{
    let line = trim_vec(raw);
    if line.len() == 0 || contains_exec(line.as_slice(), chars_of("INFO:").as_slice()) {
        return None;
    }
    let sep = chars_of("\",\"");
    proof {
        reveal_strlit("\",\"");
        lemma_split_nonempty(line@, sep@);
    }
    let cols = cells_exec(line.as_slice(), sep.as_slice());
    assert(cols@.len() > 0);
    assert(seqs(cols@)[0] == cols@[0]@);
    let a = to_lowercase_chars(cols[0].as_slice());
    let b = to_lowercase_chars(name);
    if !crate::text::eq_chars(a.as_slice(), b.as_slice()) {
        return None;
    }
    let pid = if cols.len() > 1 {
        assert(seqs(cols@)[1] == cols@[1]@);
        parse_i64(cols[1].as_slice())
    } else {
        None
    };
    Some(ProcessRow { image: string_of(cols[0].as_slice()), pid, exe: None })
}

fn cim_row_exec(raw: &[char]) -> (r: Option<ProcessRow>)
    ensures
        match r {
            Some(x) => cim_row(raw@) == Some(x@),
            None => cim_row(raw@) is None,
        },
{
    let line = trim_vec(raw);
    if line.len() == 0 {
        return None;
    }
    let (a, b) = trim_char_bounds(line.as_slice(), '"');
    let unq = copy_range(line.as_slice(), a, b);
    if starts_with_exec(unq.as_slice(), chars_of("Name\",\"").as_slice()) || starts_with_exec(
        line.as_slice(),
        chars_of("Name,").as_slice(),
    ) {
        return None;
    }
    let sep: Vec<char> = vec![','];
    assert(sep@ =~= seq![',']);
    proof {
        lemma_split_nonempty(line@, sep@);
    }
    let cols = cells_exec(line.as_slice(), sep.as_slice());
    assert(seqs(cols@)[0] == cols@[0]@);
    if cols[0].len() == 0 {
        return None;
    }
    let pid = if cols.len() > 1 {
        assert(seqs(cols@)[1] == cols@[1]@);
        parse_i64(cols[1].as_slice())
    } else {
        None
    };
    let exe = if cols.len() > 2 {
        assert(seqs(cols@)[2] == cols@[2]@);
        string_of(cols[2].as_slice())
    } else {
        String::new()
    };
    Some(ProcessRow { image: string_of(cols[0].as_slice()), pid, exe: Some(exe) })
}

/// The processes that `tasklist` lists for an image (`parse_tasklist_processes`).
pub fn parse_tasklist_processes(image_name: &str, text: &str) -> (out: Vec<ProcessRow>)
    ensures
        row_views(out@) == collect_rows(lines_of(text@), |l: Seq<char>| tasklist_row(image_name@, l)),
{
    let name = chars_of(image_name);
    let c = chars_of(text);
    let ls = split_lines(c.as_slice());
    let ghost s = seqs(ls@);
    let ghost f = |l: Seq<char>| tasklist_row(image_name@, l);
    let mut out: Vec<ProcessRow> = Vec::new();
    let mut i: usize = 0;
    assert(row_views(out@) =~= collect_rows(s.subrange(0, 0), f));
    while i < ls.len()
        invariant
            i <= ls@.len(),
            s == seqs(ls@),
            name@ == image_name@,
            f == (|l: Seq<char>| tasklist_row(image_name@, l)),
            row_views(out@) == collect_rows(s.subrange(0, i as int), f),
        decreases ls@.len() - i,
    {
        let ghost next = s.subrange(0, i + 1);
        assert(next.drop_last() =~= s.subrange(0, i as int));
        assert(next.last() == ls@[i as int]@);
        let ghost before = out@;
        match tasklist_row_exec(name.as_slice(), ls[i].as_slice()) {
            Some(r) => {
                out.push(r);
                assert(row_views(out@) =~= row_views(before).push(r@));
            },
            None => {},
        }
        i = i + 1;
    }
    assert(s.subrange(0, ls@.len() as int) =~= s);
    out
}

/// The processes that the CIM query lists (`parse_cim_processes`).
pub fn parse_cim_processes(text: &str) -> (out: Vec<ProcessRow>)
    ensures
        row_views(out@) == collect_rows(lines_of(text@), |l: Seq<char>| cim_row(l)),
{
    let c = chars_of(text);
    let ls = split_lines(c.as_slice());
    let ghost s = seqs(ls@);
    let ghost f = |l: Seq<char>| cim_row(l);
    let mut out: Vec<ProcessRow> = Vec::new();
    let mut i: usize = 0;
    assert(row_views(out@) =~= collect_rows(s.subrange(0, 0), f));
    while i < ls.len()
        invariant
            i <= ls@.len(),
            s == seqs(ls@),
            f == (|l: Seq<char>| cim_row(l)),
            row_views(out@) == collect_rows(s.subrange(0, i as int), f),
        decreases ls@.len() - i,
    {
        let ghost next = s.subrange(0, i + 1);
        assert(next.drop_last() =~= s.subrange(0, i as int));
        assert(next.last() == ls@[i as int]@);
        let ghost before = out@;
        match cim_row_exec(ls[i].as_slice()) {
            Some(r) => {
                out.push(r);
                assert(row_views(out@) =~= row_views(before).push(r@));
            },
            None => {},
        }
        i = i + 1;
    }
    assert(s.subrange(0, ls@.len() as int) =~= s);
    out
}

/// The executable path of a process as Windows compares paths.
pub open spec fn exe_key(p: ProcessView) -> Seq<char> {
    windows_key(
        match p.exe {
            Some(e) => e,
            None => Seq::empty(),
        },
    )
}

/// A Codex runtime helper (`codex.exe` among the app's resources).
pub open spec fn is_runtime_helper(p: ProcessView) -> bool {
    let exe = exe_key(p);
    ascii_lower_seq(p.image) == ascii_lower_seq("codex.exe"@) && (contains(
        exe,
        "\\app\\resources\\codex.exe"@,
    ) || ends_with(exe, "\\resources\\codex.exe"@) || ends_with(exe, "\\codex\\codex.exe"@))
}

/// The Codex Desktop app installed from the Store.
pub open spec fn is_codex_desktop(p: ProcessView) -> bool {
    let exe = exe_key(p);
    ascii_lower_seq(p.image) == ascii_lower_seq("Codex.exe"@) && contains(
        exe,
        "\\windowsapps\\openai.codex_"@,
    ) && ends_with(exe, "\\app\\codex.exe"@)
}

fn exe_key_exec(p: &ProcessRow) -> (k: Vec<char>)
    ensures
        k@ == exe_key(p@),
{
    match &p.exe {
        Some(e) => windows_key_exec(e.as_str()),
        None => {
            proof {
                reveal_strlit("");
                assert(""@ =~= Seq::<char>::empty());
            }
            windows_key_exec("")
        },
    }
}

/// Whether a process is a Codex runtime helper (`is_runtime_helper_process`).
pub fn is_runtime_helper_process(p: &ProcessRow) -> (b: bool)
    ensures
        b == is_runtime_helper(p@),
{
    let exe = exe_key_exec(p);
    let image = chars_of(p.image.as_str());
    eq_ignore_ascii_case(image.as_slice(), chars_of("codex.exe").as_slice()) && (contains_exec(
        exe.as_slice(),
        chars_of("\\app\\resources\\codex.exe").as_slice(),
    ) || ends_with_exec(exe.as_slice(), chars_of("\\resources\\codex.exe").as_slice())
        || ends_with_exec(exe.as_slice(), chars_of("\\codex\\codex.exe").as_slice()))
}

/// Whether a process is the Store's Codex Desktop (`is_codex_desktop_process`).
pub fn is_codex_desktop_process(p: &ProcessRow) -> (b: bool)
    ensures
        b == is_codex_desktop(p@),
{
    let exe = exe_key_exec(p);
    let image = chars_of(p.image.as_str());
    eq_ignore_ascii_case(image.as_slice(), chars_of("Codex.exe").as_slice()) && contains_exec(
        exe.as_slice(),
        chars_of("\\windowsapps\\openai.codex_").as_slice(),
    ) && ends_with_exec(exe.as_slice(), chars_of("\\app\\codex.exe").as_slice())
}

/// Whether a process is one that the app stops before launching.
pub fn is_managed_codex_process(p: &ProcessRow) -> (b: bool)
    ensures
        b == (is_runtime_helper(p@) || is_codex_desktop(p@)),
{
    is_runtime_helper_process(p) || is_codex_desktop_process(p)
}

// ---------------------------------------------------------------------------
// The environment of the bridge and the pre-launch report
// ---------------------------------------------------------------------------
/// The variables of the bridge environment are named once each.
proof fn lemma_environment_keys_distinct(
    all: Seq<(Seq<char>, Seq<char>)>,
    cli: Seq<(Seq<char>, Seq<char>)>,
    desk: Seq<(Seq<char>, Seq<char>)>,
    tr: Seq<(Seq<char>, Seq<char>)>,
    py: Seq<char>,
    py_source: Seq<char>,
    reports: Seq<char>,
)
    requires
        cli.len() == 0 || cli.len() == 2 && cli[0].0 == "AI_STRATEGIST_CODEX_CLI"@ && cli[1].0
            == "AI_STRATEGIST_CODEX_CLI_SOURCE"@,
        desk.len() == 0 || desk.len() == 2 && desk[0].0 == "AI_STRATEGIST_CODEX_DESKTOP"@
            && desk[1].0 == "AI_STRATEGIST_CODEX_DESKTOP_SOURCE"@,
        tr.len() == 0 || tr.len() == 1 && tr[0].0 == "AI_STRATEGIST_THREADRIPPER"@,
        all == seq![("AI_STRATEGIST_PYTHON_RUNTIME"@, py), ("AI_STRATEGIST_PYTHON_RUNTIME_SOURCE"@, py_source)]
            + cli + desk + tr + seq![("AI_STRATEGIST_REPORTS_DIR"@, reports)],
    ensures
        forall|i: int, j: int| 0 <= i < j < all.len() ==> all[i].0 != all[j].0,
{
    reveal_strlit("AI_STRATEGIST_PYTHON_RUNTIME");
    reveal_strlit("AI_STRATEGIST_PYTHON_RUNTIME_SOURCE");
    reveal_strlit("AI_STRATEGIST_CODEX_CLI");
    reveal_strlit("AI_STRATEGIST_CODEX_CLI_SOURCE");
    reveal_strlit("AI_STRATEGIST_CODEX_DESKTOP");
    reveal_strlit("AI_STRATEGIST_CODEX_DESKTOP_SOURCE");
    reveal_strlit("AI_STRATEGIST_THREADRIPPER");
    reveal_strlit("AI_STRATEGIST_REPORTS_DIR");
    let keys = seq![
        "AI_STRATEGIST_PYTHON_RUNTIME"@,
        "AI_STRATEGIST_PYTHON_RUNTIME_SOURCE"@,
        "AI_STRATEGIST_CODEX_CLI"@,
        "AI_STRATEGIST_CODEX_CLI_SOURCE"@,
        "AI_STRATEGIST_CODEX_DESKTOP"@,
        "AI_STRATEGIST_CODEX_DESKTOP_SOURCE"@,
        "AI_STRATEGIST_THREADRIPPER"@,
        "AI_STRATEGIST_REPORTS_DIR"@,
    ];
    // Each key differs from every other in its length or in a character.
    assert forall|a: int, b: int| 0 <= a < b < 8 implies keys[a] != keys[b] by {
        if keys[a].len() == keys[b].len() {
            assert(keys[a][15] != keys[b][15] || keys[a][16] != keys[b][16] || keys[a][14] != keys[b][14]);
        }
    }
    assert forall|i: int| 0 <= i < all.len() implies all[i].0 == keys[key_slot(i, cli.len() as int, desk.len() as int, tr.len() as int)] by {
        if i >= 2 && i < 2 + cli.len() {
            assert(all[i] == cli[i - 2]);
        } else if i >= 2 + cli.len() && i < 2 + cli.len() + desk.len() {
            assert(all[i] == desk[i - 2 - cli.len()]);
        } else if i >= 2 + cli.len() + desk.len() && i < all.len() - 1 {
            assert(all[i] == tr[i - 2 - cli.len() - desk.len()]);
        }
    }
    assert forall|i: int, j: int| 0 <= i < j < all.len() implies all[i].0 != all[j].0 by {
        let a = key_slot(i, cli.len() as int, desk.len() as int, tr.len() as int);
        let b = key_slot(j, cli.len() as int, desk.len() as int, tr.len() as int);
        assert(0 <= a < b < 8);
        assert(all[i].0 == keys[a]);
        assert(all[j].0 == keys[b]);
    }
}

/// Which of the eight variable names stands at position `i` of the
/// environment when the optional groups have `c`, `d` and `t` entries.
spec fn key_slot(i: int, c: int, d: int, t: int) -> int {
    if i < 2 {
        i
    } else if i < 2 + c {
        i
    } else if i < 2 + c + d {
        4 + (i - 2 - c)
    } else if i < 2 + c + d + t {
        6
    } else {
        7
    }
}

/// The variables that tell the bridge where the runtimes are
/// (`bridge_runtime_environment`): Python always; the Codex CLI, Codex
/// Desktop and threadripper when found; and the reports directory.
pub fn bridge_runtime_environment(
    python: &ResolvedRuntime,
    codex_cli: Option<&ResolvedRuntime>,
    codex_desktop: Option<&ResolvedRuntime>,
    threadripper: Option<String>,
    codexmate_dir: &str,
) -> (env: Vec<(String, String)>)
    ensures
        env@.len() >= 3,
        env@[0].0@ == "AI_STRATEGIST_PYTHON_RUNTIME"@ && env@[0].1@ == python.path@,
        env@[1].0@ == "AI_STRATEGIST_PYTHON_RUNTIME_SOURCE"@,
        env@.last().0@ == "AI_STRATEGIST_REPORTS_DIR"@,
        joined(codexmate_dir@, "reports"@, env@.last().1@),
        crate::text::ends_with(env@.last().1@, "reports"@),
        forall|i: int, j: int| 0 <= i < j < env@.len() ==> env@[i].0@ != env@[j].0@,
        crate::models::str_pairs(env@) == seq![
            ("AI_STRATEGIST_PYTHON_RUNTIME"@, python.path@),
            ("AI_STRATEGIST_PYTHON_RUNTIME_SOURCE"@, source_name(python.source)),
        ] + (match codex_cli {
            Some(r) => seq![
                ("AI_STRATEGIST_CODEX_CLI"@, r.path@),
                ("AI_STRATEGIST_CODEX_CLI_SOURCE"@, source_name(r.source)),
            ],
            None => Seq::empty(),
        }) + (match codex_desktop {
            Some(r) => seq![
                ("AI_STRATEGIST_CODEX_DESKTOP"@, r.path@),
                ("AI_STRATEGIST_CODEX_DESKTOP_SOURCE"@, source_name(r.source)),
            ],
            None => Seq::empty(),
        }) + (match threadripper {
            Some(t) => seq![("AI_STRATEGIST_THREADRIPPER"@, t@)],
            None => Seq::empty(),
        }) + seq![("AI_STRATEGIST_REPORTS_DIR"@, env@.last().1@)],
{
    let mut env: Vec<(String, String)> = Vec::new();
    env.push((String::from_str("AI_STRATEGIST_PYTHON_RUNTIME"), python.path.clone()));
    env.push((String::from_str("AI_STRATEGIST_PYTHON_RUNTIME_SOURCE"), String::from_str(python.source.as_str())));
    let ghost base = crate::models::str_pairs(env@);
    assert(base =~= seq![
        ("AI_STRATEGIST_PYTHON_RUNTIME"@, python.path@),
        ("AI_STRATEGIST_PYTHON_RUNTIME_SOURCE"@, source_name(python.source)),
    ]);
    match codex_cli {
        Some(r) => {
            env.push((String::from_str("AI_STRATEGIST_CODEX_CLI"), r.path.clone()));
            env.push((String::from_str("AI_STRATEGIST_CODEX_CLI_SOURCE"), String::from_str(r.source.as_str())));
        },
        None => {},
    }
    let ghost with_cli = crate::models::str_pairs(env@);
    match codex_desktop {
        Some(r) => {
            env.push((String::from_str("AI_STRATEGIST_CODEX_DESKTOP"), r.path.clone()));
            env.push((String::from_str("AI_STRATEGIST_CODEX_DESKTOP_SOURCE"), String::from_str(r.source.as_str())));
        },
        None => {},
    }
    let ghost with_desktop = crate::models::str_pairs(env@);
    let ghost t_view = crate::models::opt_str(threadripper);
    match threadripper {
        Some(t) => {
            env.push((String::from_str("AI_STRATEGIST_THREADRIPPER"), t));
        },
        None => {},
    }
    let ghost with_tr = crate::models::str_pairs(env@);
    proof {
        reveal_strlit("reports");
    }
    let reports = join_path(codexmate_dir, "reports");
    proof {
        assert(crate::paths::plain_component("reports"@));
        assert("reports"@ != "."@ && "reports"@ != ".."@) by {
            assert("reports"@.len() != "."@.len() && "reports"@.len() != ".."@.len()) by {
                reveal_strlit(".");
                reveal_strlit("..");
            }
        }
    }
    env.push((String::from_str("AI_STRATEGIST_REPORTS_DIR"), reports));
    proof {
        let cli: Seq<(Seq<char>, Seq<char>)> = match codex_cli {
            Some(r) => seq![
                ("AI_STRATEGIST_CODEX_CLI"@, r.path@),
                ("AI_STRATEGIST_CODEX_CLI_SOURCE"@, source_name(r.source)),
            ],
            None => Seq::empty(),
        };
        let desk: Seq<(Seq<char>, Seq<char>)> = match codex_desktop {
            Some(r) => seq![
                ("AI_STRATEGIST_CODEX_DESKTOP"@, r.path@),
                ("AI_STRATEGIST_CODEX_DESKTOP_SOURCE"@, source_name(r.source)),
            ],
            None => Seq::empty(),
        };
        let tr: Seq<(Seq<char>, Seq<char>)> = match t_view {
            Some(t) => seq![("AI_STRATEGIST_THREADRIPPER"@, t)],
            None => Seq::empty(),
        };
        assert(with_cli =~= base + cli);
        assert(with_desktop =~= base + cli + desk);
        assert(with_tr =~= base + cli + desk + tr);
        assert(crate::models::str_pairs(env@) =~= base + cli + desk + tr + seq![
            ("AI_STRATEGIST_REPORTS_DIR"@, env@.last().1@),
        ]);
        lemma_environment_keys_distinct(crate::models::str_pairs(env@), cli, desk, tr, python.path@,
            source_name(python.source), env@.last().1@);
        assert forall|i: int, j: int| 0 <= i < j < env@.len() implies env@[i].0@ != env@[j].0@ by {
            assert(crate::models::str_pairs(env@)[i].0 == env@[i].0@);
            assert(crate::models::str_pairs(env@)[j].0 == env@[j].0@);
        }
    }
    env
}

/// The name of a runtime's source.
pub open spec fn source_name(s: ResolvedRuntimeSource) -> Seq<char> {
    match s {
        ResolvedRuntimeSource::ManagedLocal => "managedLocal"@,
        ResolvedRuntimeSource::BundledCache => "bundledCache"@,
        ResolvedRuntimeSource::PathFallback => "pathFallback"@,
    }
}

/// What the environment check found on this machine.
#[derive(Debug, Clone, PartialEq)]
pub struct PrelaunchFacts {
    pub codex_home_exists: bool,
    pub bridge_program_found: bool,
    pub codex_desktop_found: bool,
    pub config_exists: bool,
    pub auth_mode_found: bool,
    pub threadripper_found: bool,
    pub hybrid_provider_found: bool,
}

/// Whether Codex can be launched, what blocks it, and what is worth a warning.
#[derive(Debug, Clone, PartialEq)]
pub struct PrelaunchReadiness {
    pub ok: bool,
    pub launch_available: bool,
    pub blockers: Vec<String>,
    pub warnings: Vec<String>,
}

/// The names of the blockers, in order.
pub open spec fn blocker_names(f: PrelaunchFacts) -> Seq<Seq<char>> {
    (if !f.codex_home_exists {
        seq!["codex_home_missing"@]
    } else {
        Seq::empty()
    }) + (if !f.bridge_program_found {
        seq!["prelaunch_bridge_missing"@]
    } else {
        Seq::empty()
    }) + (if !(f.bridge_program_found && f.codex_desktop_found) {
        seq!["codex_desktop_not_found"@]
    } else {
        Seq::empty()
    })
}

/// The names of the warnings, in order.
pub open spec fn warning_names(f: PrelaunchFacts) -> Seq<Seq<char>> {
    (if !f.config_exists {
        seq!["config_missing"@]
    } else {
        Seq::empty()
    }) + (if !f.auth_mode_found {
        seq!["auth_missing"@]
    } else {
        Seq::empty()
    }) + (if !f.threadripper_found {
        seq!["threadripper_unavailable"@]
    } else {
        Seq::empty()
    }) + (if !f.hybrid_provider_found {
        seq!["hybrid_provider_missing"@]
    } else {
        Seq::empty()
    })
}

fn push_name(v: &mut Vec<String>, name: &str)
    ensures
        strs(final(v)@) == strs(old(v)@).push(name@),
{
    let ghost before = v@;
    v.push(String::from_str(name));
    assert(strs(v@) =~= strs(before).push(name@));
}

/// The outcome of the environment check:
/// launching needs the bridge and Codex Desktop; a missing Codex home, bridge
/// or Desktop blocks; missing configuration, login, threadripper or hybrid
/// provider only warn.
pub fn prelaunch_readiness(f: &PrelaunchFacts) -> (r: PrelaunchReadiness)
    ensures
        r.launch_available == (f.bridge_program_found && f.codex_desktop_found),
        strs(r.blockers@) == blocker_names(*f),
        strs(r.warnings@) == warning_names(*f),
        r.ok == (blocker_names(*f).len() == 0),
{
    let launch_available = f.bridge_program_found && f.codex_desktop_found;
    let mut blockers: Vec<String> = Vec::new();
    let mut warnings: Vec<String> = Vec::new();
    assert(strs(blockers@) =~= Seq::<Seq<char>>::empty());
    assert(strs(warnings@) =~= Seq::<Seq<char>>::empty());
    if !f.codex_home_exists {
        push_name(&mut blockers, "codex_home_missing");
    }
    let ghost b1 = strs(blockers@);
    if !f.bridge_program_found {
        push_name(&mut blockers, "prelaunch_bridge_missing");
    }
    let ghost b2 = strs(blockers@);
    if !launch_available {
        push_name(&mut blockers, "codex_desktop_not_found");
    }
    assert(strs(blockers@) =~= blocker_names(*f));
    if !f.config_exists {
        push_name(&mut warnings, "config_missing");
    }
    if !f.auth_mode_found {
        push_name(&mut warnings, "auth_missing");
    }
    if !f.threadripper_found {
        push_name(&mut warnings, "threadripper_unavailable");
    }
    if !f.hybrid_provider_found {
        push_name(&mut warnings, "hybrid_provider_missing");
    }
    assert(strs(warnings@) =~= warning_names(*f));
    let ok = blockers.len() == 0;
    PrelaunchReadiness { ok, launch_available, blockers, warnings }
}

/// A login mode read from `auth.json`: trimmed, and absent when blank
///.
pub fn auth_mode_from_value(value: Option<&str>) -> (r: Option<String>)
    ensures
        crate::models::opt_str(r) == (match value {
            Some(v) => if trim(v@).len() > 0 {
                Some(trim(v@))
            } else {
                None
            },
            None => None,
        }),
{
    match value {
        Some(v) => {
            let c = chars_of(v);
            let t = trim_vec(c.as_slice());
            if t.len() > 0 {
                Some(string_of(t.as_slice()))
            } else {
                None
            }
        },
        None => None,
    }
}

} // verus!
