//! What the app reports about the machine it runs on, and how it reads the
//! Windows version from `reg query`.  Running the commands is the caller's
//! part.
use vstd::prelude::*;
use vstd::string::StringExecFns;
use crate::lines::{lines_of, seqs, split_lines};
use crate::models::opt_str;
use crate::text::{
    ascii_lower_seq, chars_of, contains, contains_exec, copy_range, eq_ignore_ascii_case,
    find_from, find_from_exec, push_all, push_str, string_of, trim, trim_vec,
};
use crate::words::{join_spaced, join_spaced_from, split_whitespace_exec, words};

verus! {

#[derive(Debug, Clone, PartialEq)]
pub struct SystemInfo {
    pub os: String,
    pub os_version: String,
    pub arch: String,
    pub hostname: String,
}

/// The text, or `unknown` when there is none.
pub open spec fn or_unknown(o: Option<Seq<char>>) -> Seq<char> {
    match o {
        Some(t) => t,
        None => "unknown"@,
    }
}

fn or_unknown_exec(o: Option<String>) -> (s: String)
    ensures
        s@ == or_unknown(
            match o {
                Some(t) => Some(t@),
                None => None,
            },
        ),
{
    match o {
        Some(t) => t,
        None => String::from_str("unknown"),
    }
}

/// The machine's description: the operating system and
/// architecture as given, and the host name and system version when they
/// could be found, `unknown` otherwise.
pub fn system_info(os: String, arch: String, hostname: Option<String>, os_version: Option<String>) -> (i: SystemInfo)
    ensures
        i.os == os,
        i.arch == arch,
        i.hostname@ == or_unknown(
            match hostname {
                Some(t) => Some(t@),
                None => None,
            },
        ),
        i.os_version@ == or_unknown(
            match os_version {
                Some(t) => Some(t@),
                None => None,
            },
        ),
{
    SystemInfo { os, os_version: or_unknown_exec(os_version), arch, hostname: or_unknown_exec(hostname) }
}

/// The macOS version from what `sw_vers -productVersion` printed, trimmed.
pub fn macos_version(stdout: Option<String>) -> (v: Option<String>)
    ensures
        match (stdout, v) {
            (Some(o), Some(t)) => t@ == trim(o@),
            (None, None) => true,
            _ => false,
        },
{
    match stdout {
        Some(o) => Some(string_of(trim_vec(chars_of(o.as_str()).as_slice()).as_slice())),
        None => None,
    }
}

/// The value of `name` on one line of `reg query` output: the line names it,
/// its first word is the name in any ASCII case, a type word follows, and the
/// rest, trimmed, is not blank.
pub open spec fn reg_line_value(line: Seq<char>, name: Seq<char>) -> Option<Seq<char>> {
    if !contains(line, name) {
        None
    } else {
        let ws = words(line);
        if ws.len() < 2 {
            None
        } else {
            let value = join_spaced(ws.subrange(2, ws.len() as int));
            if ascii_lower_seq(ws[0]) == ascii_lower_seq(name) && trim(value).len() > 0 {
                Some(trim(value))
            } else {
                None
            }
        }
    }
}

/// The value of `name` in `reg query` output: from the first line that has one.
pub open spec fn reg_query_value(ls: Seq<Seq<char>>, name: Seq<char>) -> Option<Seq<char>>
    decreases ls.len(),
{
    if ls.len() == 0 {
        None
    } else {
        match reg_line_value(ls[0], name) {
            Some(v) => Some(v),
            None => reg_query_value(ls.drop_first(), name),
        }
    }
}

fn reg_line_value_exec(line: &Vec<char>, name: &[char]) -> (r: Option<String>)
    ensures
        match r {
            Some(v) => reg_line_value(line@, name@) == Some(v@),
            None => reg_line_value(line@, name@) is None,
        },
{
    if !contains_exec(line.as_slice(), name) {
        return None;
    }
    let ws = split_whitespace_exec(line.as_slice());
    if ws.len() < 2 {
        return None;
    }
    let value = join_spaced_from(&ws, 2);
    let t = trim_vec(value.as_slice());
    proof {
        assert(seqs(ws@)[0] == ws@[0]@);
    }
    if eq_ignore_ascii_case(ws[0].as_slice(), name) && t.len() > 0 {
        Some(string_of(t.as_slice()))
    } else {
        None
    }
}

/// Reads the value of `name` from what `reg query` printed.
pub fn reg_query_value_exec(stdout: &str, name: &str) -> (r: Option<String>)
    ensures
        match r {
            Some(v) => reg_query_value(lines_of(stdout@), name@) == Some(v@),
            None => reg_query_value(lines_of(stdout@), name@) is None,
        },
{
    let ls = split_lines(chars_of(stdout).as_slice());
    let nc = chars_of(name);
    let ghost all = seqs(ls@);
    let mut i: usize = 0;
    assert(all.subrange(0, all.len() as int) =~= all);
    while i < ls.len()
        invariant
            i <= ls@.len(),
            all == seqs(ls@),
            all == lines_of(stdout@),
            nc@ == name@,
            reg_query_value(all, name@) == reg_query_value(
                all.subrange(i as int, all.len() as int),
                name@,
            ),
        decreases ls@.len() - i,
    {
        let ghost rest = all.subrange(i as int, all.len() as int);
        assert(rest.drop_first() =~= all.subrange(i as int + 1, all.len() as int));
        assert(rest[0] == ls@[i as int]@);
        match reg_line_value_exec(&ls[i], nc.as_slice()) {
            Some(v) => return Some(v),
            None => {},
        }
        i = i + 1;
    }
    None
}

/// The default value on a line of `reg query ... /ve` output: on a line that
/// names a string type (`REG_SZ`, `REG_EXPAND_SZ`), the trimmed text after
/// the second run of four spaces, when it is not empty.
pub open spec fn reg_default_line(l: Seq<char>) -> Option<Seq<char>> {
    let t = trim(l);
    let sep = "    "@;
    if contains(t, "REG_SZ"@) || contains(t, "REG_EXPAND_SZ"@) {
        match find_from(t, sep, 0) {
            Some(i) => match find_from(t, sep, i + 4) {
                Some(j) => {
                    let v = trim(t.subrange(j + 4, t.len() as int));
                    if v.len() > 0 {
                        Some(v)
                    } else {
                        None
                    }
                },
                None => None,
            },
            None => None,
        }
    } else {
        None
    }
}

/// The default value of a registry key from what `reg query /ve` printed:
/// that of the first line that has one.
pub open spec fn reg_default_value(ls: Seq<Seq<char>>) -> Option<Seq<char>>
    decreases ls.len(),
{
    if ls.len() == 0 {
        None
    } else {
        match reg_default_line(ls[0]) {
            Some(v) => Some(v),
            None => reg_default_value(ls.drop_first()),
        }
    }
}

fn reg_default_line_exec(line: &Vec<char>) -> (r: Option<String>)
    ensures
        match r {
            Some(v) => reg_default_line(line@) == Some(v@),
            None => reg_default_line(line@) is None,
        },
{
    proof {
        reveal_strlit("REG_SZ");
        reveal_strlit("REG_EXPAND_SZ");
        reveal_strlit("    ");
    }
    let t = trim_vec(line.as_slice());
    let tl = t.len();
    let sep = chars_of("    ");
    assert(sep@.len() == 4);
    if !(contains_exec(t.as_slice(), chars_of("REG_SZ").as_slice())
        || contains_exec(t.as_slice(), chars_of("REG_EXPAND_SZ").as_slice())) {
        return None;
    }
    let i = match find_from_exec(t.as_slice(), sep.as_slice(), 0) {
        Some(i) => i,
        None => return None,
    };
    proof {
        lemma_find_from_in_range(t@, sep@, 0, i as int);
    }
    let j = match find_from_exec(t.as_slice(), sep.as_slice(), i + 4) {
        Some(j) => j,
        None => return None,
    };
    proof {
        lemma_find_from_in_range(t@, sep@, (i + 4) as int, j as int);
    }
    let rest = copy_range(t.as_slice(), j + 4, tl);
    let v = trim_vec(rest.as_slice());
    if v.len() > 0 {
        Some(string_of(v.as_slice()))
    } else {
        None
    }
}

proof fn lemma_find_from_in_range(s: Seq<char>, p: Seq<char>, from: int, j: int)
    requires
        find_from(s, p, from) == Some(j),
    ensures
        from <= j,
        j + p.len() <= s.len(),
    decreases s.len() + 1 - from,
{
    if from >= 0 && from + p.len() <= s.len() && !crate::text::occurs_at(s, p, from) {
        lemma_find_from_in_range(s, p, from + 1, j);
    }
}

/// Reads the default value of a registry key from what `reg query /ve`
/// printed.
pub fn reg_default_value_exec(stdout: &str) -> (r: Option<String>)
    ensures
        match r {
            Some(v) => reg_default_value(lines_of(stdout@)) == Some(v@),
            None => reg_default_value(lines_of(stdout@)) is None,
        },
{
    let ls = split_lines(chars_of(stdout).as_slice());
    let ghost all = seqs(ls@);
    let mut i: usize = 0;
    assert(all.subrange(0, all.len() as int) =~= all);
    while i < ls.len()
        invariant
            i <= ls@.len(),
            all == seqs(ls@),
            all == lines_of(stdout@),
            reg_default_value(all) == reg_default_value(all.subrange(i as int, all.len() as int)),
        decreases ls@.len() - i,
    {
        let ghost rest = all.subrange(i as int, all.len() as int);
        assert(rest.drop_first() =~= all.subrange(i as int + 1, all.len() as int));
        assert(rest[0] == ls@[i as int]@);
        match reg_default_line_exec(&ls[i]) {
            Some(v) => return Some(v),
            None => {},
        }
        i = i + 1;
    }
    None
}

/// The Windows version from its registry values:
/// the product name, the display version (else the release id) and
/// `build` with the build number, those present joined with spaces.
pub open spec fn windows_version(
    product: Option<Seq<char>>,
    display: Option<Seq<char>>,
    release: Option<Seq<char>>,
    build: Option<Seq<char>>,
) -> Option<Seq<char>> {
    let parts = (match product {
        Some(p) => seq![p],
        None => Seq::empty(),
    }) + (match display {
        Some(d) => seq![d],
        None => match release {
            Some(r) => seq![r],
            None => Seq::empty(),
        },
    }) + (match build {
        Some(b) => seq!["build "@ + b],
        None => Seq::empty(),
    });
    if parts.len() == 0 {
        None
    } else {
        Some(join_spaced(parts))
    }
}

/// Composes the Windows version from the registry values read.
pub fn windows_os_version(
    product: Option<String>,
    display: Option<String>,
    release: Option<String>,
    build: Option<String>,
) -> (v: Option<String>)
    ensures
        match v {
            Some(t) => windows_version(
                opt_str(product),
                opt_str(display),
                opt_str(release),
                opt_str(build),
            ) == Some(t@),
            None => windows_version(
                opt_str(product),
                opt_str(display),
                opt_str(release),
                opt_str(build),
            ) is None,
        },
{
    let mut parts: Vec<Vec<char>> = Vec::new();
    match &product {
        Some(p) => parts.push(chars_of(p.as_str())),
        None => {},
    }
    let middle = match &display {
        Some(d) => Some(d),
        None => match &release {
            Some(r) => Some(r),
            None => None,
        },
    };
    match middle {
        Some(m) => parts.push(chars_of(m.as_str())),
        None => {},
    }
    match &build {
        Some(b) => {
            let mut w = chars_of("build ");
            push_all(&mut w, chars_of(b.as_str()).as_slice());
            parts.push(w);
        },
        None => {},
    }
    let ghost expected = (match opt_str(product) {
        Some(p) => seq![p],
        None => Seq::<Seq<char>>::empty(),
    }) + (match opt_str(display) {
        Some(d) => seq![d],
        None => match opt_str(release) {
            Some(r) => seq![r],
            None => Seq::<Seq<char>>::empty(),
        },
    }) + (match opt_str(build) {
        Some(b) => seq!["build "@ + b],
        None => Seq::<Seq<char>>::empty(),
    });
    assert(seqs(parts@) =~= expected);
    if parts.len() == 0 {
        None
    } else {
        let joined = join_spaced_from(&parts, 0);
        assert(seqs(parts@).subrange(0, parts@.len() as int) =~= seqs(parts@));
        Some(string_of(joined.as_slice()))
    }
}

} // verus!
