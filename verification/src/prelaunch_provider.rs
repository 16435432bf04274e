//! The model provider that Codex is launched with: reading `model_provider`
//! from `config.toml`, choosing a provider profile for a launch mode, and
//! rewriting the configuration so that Codex starts with it.
use vstd::prelude::*;
use vstd::string::StringExecFns;
use toml::Value;
use crate::lines::{join_lines, lines_of, seqs, split_lines};
use crate::text::{
    chars_of, contains, find_from, occurs_at, contains_exec, copy_range, eq_chars, find_char, find_char_exec,
    lemma_find_from, push_all, push_str, replace_char, replace_char_vec, split_once, starts_with,
    starts_with_exec, string_of, trim, trim_char, trim_char_bounds, trim_vec,
};

verus! {

// ---------------------------------------------------------------------------
// Reading `model_provider`
// ---------------------------------------------------------------------------
/// The value that one line of `config.toml` gives `model_provider`, if it
/// gives one: comment and table-header lines give none, nor does an empty value.
pub open spec fn provider_line_value(line: Seq<char>) -> Option<Seq<char>> {
    let stripped = trim(line);
    if starts_with(stripped, seq!['#']) || starts_with(stripped, seq!['[']) {
        None
    } else {
        match split_once(stripped, '=') {
            None => None,
            Some((key, value)) => {
                let v = trim(trim_char(trim(value), '"'));
                if trim(key) == "model_provider"@ && v.len() > 0 {
                    Some(v)
                } else {
                    None
                }
            },
        }
    }
}

/// The first value that the lines give `model_provider`.
pub open spec fn first_provider_value(ls: Seq<Seq<char>>) -> Option<Seq<char>>
    decreases ls.len(),
{
    if ls.len() == 0 {
        None
    } else {
        match provider_line_value(ls[0]) {
            Some(v) => Some(v),
            None => first_provider_value(ls.drop_first()),
        }
    }
}

/// The `model_provider` that the text of a `config.toml` names.
pub open spec fn configured_provider(contents: Seq<char>) -> Option<Seq<char>> {
    first_provider_value(lines_of(contents))
}

pub open spec fn opt_string_view(o: Option<String>) -> Option<Seq<char>> {
    match o {
        Some(s) => Some(s@),
        None => None,
    }
}

fn line_provider_value(line: &[char]) -> (r: Option<Vec<char>>)
    ensures
        match r {
            Some(v) => provider_line_value(line@) == Some(v@),
            None => provider_line_value(line@) is None,
        },
{
    let stripped = trim_vec(line);
    let hash: Vec<char> = vec!['#'];
    let bracket: Vec<char> = vec!['['];
    assert(hash@ =~= seq!['#']);
    assert(bracket@ =~= seq!['[']);
    if starts_with_exec(stripped.as_slice(), hash.as_slice()) || starts_with_exec(stripped.as_slice(), bracket.as_slice()) {
        return None;
    }
    let n = stripped.len();
    match find_char_exec(stripped.as_slice(), '=') {
        None => None,
        Some(i) => {
            proof {
                lemma_find_from(stripped@, seq!['='], 0);
                assert(find_char(stripped@, '=') == find_from(stripped@, seq!['='], 0));
                assert(occurs_at(stripped@, seq!['='], i as int));
                assert(seq!['='].len() == 1);
                assert(i + 1 <= stripped@.len());
            }
            let key = copy_range(stripped.as_slice(), 0, i);
            let value = copy_range(stripped.as_slice(), i + 1, n);
            let tv = trim_vec(value.as_slice());
            let (a, b) = trim_char_bounds(tv.as_slice(), '"');
            let inner = copy_range(tv.as_slice(), a, b);
            let v = trim_vec(inner.as_slice());
            let tk = trim_vec(key.as_slice());
            let name = chars_of("model_provider");
            if eq_chars(tk.as_slice(), name.as_slice()) && v.len() > 0 {
                Some(v)
            } else {
                None
            }
        },
    }
}

/// The `model_provider` that the text of a `config.toml` names
/// (`read_model_provider_from_config_contents`): the first line outside
/// comments and table headers whose key is `model_provider` and whose value,
/// without surrounding quotes and whitespace, is not empty.
pub fn read_model_provider_from_config_contents(contents: &str) -> (r: Option<String>)
    ensures
        opt_string_view(r) == configured_provider(contents@),
{
    let c = chars_of(contents);
    let ls = split_lines(c.as_slice());
    let ghost all = seqs(ls@);
    let mut i: usize = 0;
    assert(all.subrange(0, all.len() as int) =~= all);
    while i < ls.len()
        invariant
            i <= ls@.len(),
            all == seqs(ls@),
            all == lines_of(contents@),
            first_provider_value(all) == first_provider_value(all.subrange(i as int, all.len() as int)),
        decreases ls@.len() - i,
    {
        let ghost rest = all.subrange(i as int, all.len() as int);
        assert(rest[0] == ls@[i as int]@);
        assert(rest.drop_first() =~= all.subrange(i as int + 1, all.len() as int));
        match line_provider_value(ls[i].as_slice()) {
            Some(v) => {
                return Some(string_of(v.as_slice()));
            },
            None => {},
        }
        i = i + 1;
    }
    None
}

// ---------------------------------------------------------------------------
// Writing `model_provider`
// ---------------------------------------------------------------------------
/// A value escaped for a basic TOML string: backslashes doubled, quotes escaped.
pub open spec fn toml_quoted(value: Seq<char>) -> Seq<char> {
    replace_char(replace_char(value, '\\', seq!['\\', '\\']), '"', seq!['\\', '"'])
}

/// `key = "value"` with the value escaped.
pub open spec fn toml_string_line(key: Seq<char>, value: Seq<char>) -> Seq<char> {
    key + " = \""@ + toml_quoted(value) + "\""@
}

/// The line that sets `model_provider` to `target`.
pub open spec fn provider_setting(target: Seq<char>) -> Seq<char> {
    toml_string_line("model_provider"@, target)
}

fn toml_quoted_exec(value: &[char]) -> (out: Vec<char>)
    ensures
        out@ == toml_quoted(value@),
{
    let two: Vec<char> = vec!['\\', '\\'];
    let esc: Vec<char> = vec!['\\', '"'];
    let a = replace_char_vec(value, '\\', two.as_slice());
    replace_char_vec(a.as_slice(), '"', esc.as_slice())
}

fn toml_string_line_exec(key: &str, value: &[char]) -> (out: Vec<char>)
    ensures
        out@ == toml_string_line(key@, value@),
{
    let mut out = chars_of(key);
    push_str(&mut out, " = \"");
    let q = toml_quoted_exec(value);
    push_all(&mut out, q.as_slice());
    push_str(&mut out, "\"");
    out
}

/// Where the rewrite of the root table stands after some lines.
pub struct ProviderRewrite {
    pub out: Seq<Seq<char>>,
    pub replaced: bool,
    pub inserted: bool,
    pub in_root: bool,
}

/// One line of the rewrite: the setting replaces an existing root-level
/// `model_provider` line, else it follows `model_reasoning_effort`, else it
/// closes the root table just before the first table header.
pub open spec fn rewrite_step(st: ProviderRewrite, line: Seq<char>, setting: Seq<char>) -> ProviderRewrite {
    let t = trim(line);
    let header = starts_with(t, seq!['[']);
    let closes = header && !st.replaced && st.in_root && !st.inserted;
    let out1 = if closes { st.out.push(setting) } else { st.out };
    let inserted1 = st.inserted || closes;
    let in_root1 = st.in_root && !header;
    if in_root1 && starts_with(t, "model_provider"@) && contains(t, seq!['=']) {
        ProviderRewrite { out: out1.push(setting), replaced: true, inserted: inserted1, in_root: in_root1 }
    } else if !st.replaced && in_root1 && starts_with(t, "model_reasoning_effort"@) && contains(t, seq!['=']) {
        ProviderRewrite { out: out1.push(line).push(setting), replaced: st.replaced, inserted: true, in_root: in_root1 }
    } else {
        ProviderRewrite { out: out1.push(line), replaced: st.replaced, inserted: inserted1, in_root: in_root1 }
    }
}

pub open spec fn rewrite_scan(ls: Seq<Seq<char>>, setting: Seq<char>) -> ProviderRewrite
    decreases ls.len(),
{
    if ls.len() == 0 {
        ProviderRewrite { out: Seq::empty(), replaced: false, inserted: false, in_root: true }
    } else {
        rewrite_step(rewrite_scan(ls.drop_last(), setting), ls.last(), setting)
    }
}

/// `raw` with its root table setting `model_provider` to `target`: the lines
/// after the rewrite, the setting put first when no place was found, joined
/// with `'\n'`, and a final `'\n'` kept when `raw` had one.
pub open spec fn with_model_provider(raw: Seq<char>, target: Seq<char>) -> Seq<char> {
    let setting = provider_setting(target);
    let st = rewrite_scan(lines_of(raw), setting);
    let out = if !st.replaced && !st.inserted {
        seq![setting] + st.out
    } else {
        st.out
    };
    let joined = join_lines(out);
    if raw.len() > 0 && raw.last() == '\n' {
        joined.push('\n')
    } else {
        joined
    }
}

/// Sets `model_provider` in the root table of `raw` (`upsert_model_provider`).
pub fn upsert_model_provider(raw: &str, target: &str) -> (out: String)
    ensures
        out@ == with_model_provider(raw@, target@),
{
    let tchars = chars_of(target);
    let setting = toml_string_line_exec("model_provider", tchars.as_slice());
    let rc = chars_of(raw);
    let ls = split_lines(rc.as_slice());
    let ghost all = seqs(ls@);
    let ghost sv = setting@;
    let mut output: Vec<Vec<char>> = Vec::new();
    let mut replaced = false;
    let mut inserted = false;
    let mut in_root = true;
    let bracket: Vec<char> = vec!['['];
    let eq: Vec<char> = vec!['='];
    let mp = chars_of("model_provider");
    let mre = chars_of("model_reasoning_effort");
    assert(bracket@ =~= seq!['[']);
    assert(eq@ =~= seq!['=']);
    let mut i: usize = 0;
    while i < ls.len()
        invariant
            i <= ls@.len(),
            all == seqs(ls@),
            all == lines_of(raw@),
            sv == setting@,
            sv == provider_setting(target@),
            bracket@ == seq!['['],
            eq@ == seq!['='],
            mp@ == "model_provider"@,
            mre@ == "model_reasoning_effort"@,
            ({
                let st = rewrite_scan(all.take(i as int), sv);
                &&& seqs(output@) == st.out
                &&& replaced == st.replaced
                &&& inserted == st.inserted
                &&& in_root == st.in_root
            }),
        decreases ls@.len() - i,
    {
        let ghost before = seqs(output@);
        assert(all.take(i as int + 1).drop_last() =~= all.take(i as int));
        assert(all.take(i as int + 1).last() == ls@[i as int]@);
        let line = &ls[i];
        let t = trim_vec(line.as_slice());
        let header = starts_with_exec(t.as_slice(), bracket.as_slice());
        if header && !replaced && in_root && !inserted {
            output.push(copy_range(setting.as_slice(), 0, setting.len()));
            inserted = true;
        }
        if header {
            in_root = false;
        }
        if in_root && starts_with_exec(t.as_slice(), mp.as_slice()) && contains_exec(t.as_slice(), eq.as_slice()) {
            output.push(copy_range(setting.as_slice(), 0, setting.len()));
            replaced = true;
        } else {
            output.push(copy_range(line.as_slice(), 0, line.len()));
            if !replaced && in_root && starts_with_exec(t.as_slice(), mre.as_slice()) && contains_exec(t.as_slice(), eq.as_slice()) {
                output.push(copy_range(setting.as_slice(), 0, setting.len()));
                inserted = true;
            }
        }
        proof {
            assert(setting@.subrange(0, setting@.len() as int) =~= setting@);
            assert(line@.subrange(0, line@.len() as int) =~= line@);
        }
        assert(seqs(output@) =~= rewrite_scan(all.take(i as int + 1), sv).out);
        i = i + 1;
    }
    assert(all.take(ls@.len() as int) =~= all);
    if !replaced && !inserted {
        output.insert(0, copy_range(setting.as_slice(), 0, setting.len()));
        proof {
            assert(setting@.subrange(0, setting@.len() as int) =~= setting@);
        }
    }
    let ghost st = rewrite_scan(all, sv);
    assert(seqs(output@) =~= (if !st.replaced && !st.inserted { seq![sv] + st.out } else { st.out }));
    let mut joined = crate::lines::join_with_newlines(output.as_slice());
    if rc.len() > 0 && rc[rc.len() - 1] == '\n' {
        joined.push('\n');
    }
    string_of(joined.as_slice())
}

// ---------------------------------------------------------------------------
// Provider profiles and their tables
// ---------------------------------------------------------------------------
/// A model provider profile of `config.toml` (`[model_providers.<key>]`).
#[derive(Debug, Clone, PartialEq)]
pub struct ProviderProfile {
    pub key: String,
    pub name: String,
    pub base_url: String,
    pub wire_api: String,
    pub env_key: String,
    pub requires_openai_auth: bool,
    pub experimental_bearer_token: String,
}

/// What a profile holds, as text and a flag.
#[verifier::ext_equal]
pub struct ProviderProfileView {
    pub key: Seq<char>,
    pub name: Seq<char>,
    pub base_url: Seq<char>,
    pub wire_api: Seq<char>,
    pub env_key: Seq<char>,
    pub requires_openai_auth: bool,
    pub experimental_bearer_token: Seq<char>,
}

impl View for ProviderProfile {
    type V = ProviderProfileView;

    open spec fn view(&self) -> ProviderProfileView {
        ProviderProfileView {
            key: self.key@,
            name: self.name@,
            base_url: self.base_url@,
            wire_api: self.wire_api@,
            env_key: self.env_key@,
            requires_openai_auth: self.requires_openai_auth,
            experimental_bearer_token: self.experimental_bearer_token@,
        }
    }
}

impl ProviderProfile {
    /// A field-by-field copy.
    pub fn copy(&self) -> (out: ProviderProfile)
        ensures
            out == *self,
    {
        ProviderProfile {
            key: self.key.clone(),
            name: self.name.clone(),
            base_url: self.base_url.clone(),
            wire_api: self.wire_api.clone(),
            env_key: self.env_key.clone(),
            requires_openai_auth: self.requires_openai_auth,
            experimental_bearer_token: self.experimental_bearer_token.clone(),
        }
    }
}

/// The header line of a profile's table.
pub open spec fn profile_header(key: Seq<char>) -> Seq<char> {
    "[model_providers."@ + key + "]"@
}

/// The lines of a profile's table: name, base URL and wire API always; the
/// environment key when it is not blank; then either the OpenAI-auth flag and
/// the bearer token (when not blank), or the trimmed environment key (when not
/// blank) and `supports_websockets = false`.
pub open spec fn provider_block_lines(p: ProviderProfileView) -> Seq<Seq<char>> {
    let base = seq![
        profile_header(p.key),
        toml_string_line("name"@, p.name),
        toml_string_line("base_url"@, p.base_url),
        toml_string_line("wire_api"@, p.wire_api),
    ];
    let l1 = if trim(p.env_key).len() > 0 {
        base.push(toml_string_line("env_key"@, p.env_key))
    } else {
        base
    };
    if p.requires_openai_auth {
        let l2 = l1.push("requires_openai_auth = true"@);
        let token = trim(p.experimental_bearer_token);
        if token.len() > 0 {
            l2.push(toml_string_line("experimental_bearer_token"@, token))
        } else {
            l2
        }
    } else {
        let env_key = trim(p.env_key);
        let l2 = if env_key.len() > 0 {
            l1.push(toml_string_line("env_key"@, env_key))
        } else {
            l1
        };
        l2.push("supports_websockets = false"@)
    }
}

/// A profile's table as text: its lines joined, with a final `'\n'`.
pub open spec fn provider_block(p: ProviderProfileView) -> Seq<char> {
    join_lines(provider_block_lines(p)).push('\n')
}

fn profile_header_exec(key: &str) -> (out: Vec<char>)
    ensures
        out@ == profile_header(key@),
{
    let mut h = chars_of("[model_providers.");
    push_str(&mut h, key);
    push_str(&mut h, "]");
    h
}

fn provider_block_exec(p: &ProviderProfile) -> (out: Vec<char>)
    ensures
        out@ == provider_block(p@),
{
    let mut lines: Vec<Vec<char>> = Vec::new();
    lines.push(profile_header_exec(p.key.as_str()));
    let name = chars_of(p.name.as_str());
    let base_url = chars_of(p.base_url.as_str());
    let wire_api = chars_of(p.wire_api.as_str());
    let env_key = chars_of(p.env_key.as_str());
    lines.push(toml_string_line_exec("name", name.as_slice()));
    lines.push(toml_string_line_exec("base_url", base_url.as_slice()));
    lines.push(toml_string_line_exec("wire_api", wire_api.as_slice()));
    let ghost base = seqs(lines@);
    let tek = trim_vec(env_key.as_slice());
    if tek.len() > 0 {
        lines.push(toml_string_line_exec("env_key", env_key.as_slice()));
    }
    if p.requires_openai_auth {
        lines.push(chars_of("requires_openai_auth = true"));
        let token_chars = chars_of(p.experimental_bearer_token.as_str());
        let token = trim_vec(token_chars.as_slice());
        if token.len() > 0 {
            lines.push(toml_string_line_exec("experimental_bearer_token", token.as_slice()));
        }
    } else {
        if tek.len() > 0 {
            lines.push(toml_string_line_exec("env_key", tek.as_slice()));
        }
        lines.push(chars_of("supports_websockets = false"));
    }
    assert(seqs(lines@) =~= provider_block_lines(p@));
    let mut out = crate::lines::join_with_newlines(lines.as_slice());
    out.push('\n');
    out
}

/// Length of the first piece of `s` as `str::split_inclusive('\n')` cuts it.
pub open spec fn piece_len(s: Seq<char>) -> nat {
    if crate::lines::first_nl(s) < s.len() {
        crate::lines::first_nl(s) + 1
    } else {
        s.len()
    }
}

/// The character range of the table whose header line is `header`, scanning
/// the pieces of `s` (which starts at offset `off` of the whole text): it
/// starts at the header line and ends before the next line that opens a table,
/// or at the end of the text.
pub open spec fn table_range_from(s: Seq<char>, off: nat, start: Option<nat>, header: Seq<char>) -> Option<(nat, nat)>
    decreases s.len(),
{
    if s.len() == 0 {
        match start {
            Some(a) => Some((a, off)),
            None => None,
        }
    } else {
        let k = piece_len(s);
        let t = trim(s.take(k as int));
        if start is Some && starts_with(t, seq!['[']) {
            Some((start->0, off))
        } else {
            let next = if t == header {
                Some(off)
            } else {
                start
            };
            table_range_from(s.skip(k as int), off + k, next, header)
        }
    }
}

pub open spec fn table_range(raw: Seq<char>, header: Seq<char>) -> Option<(nat, nat)> {
    table_range_from(raw, 0, None, header)
}

proof fn lemma_table_range_bounds(s: Seq<char>, off: nat, start: Option<nat>, header: Seq<char>)
    requires
        start matches Some(a) ==> a <= off,
    ensures
        table_range_from(s, off, start, header) matches Some((a, b)) ==> a <= b <= off + s.len(),
    decreases s.len(),
{
    if s.len() > 0 {
        let k = piece_len(s);
        let t = trim(s.take(k as int));
        let next = if t == header {
            Some(off)
        } else {
            start
        };
        lemma_table_range_bounds(s.skip(k as int), off + k, next, header);
    }
}

fn table_range_exec(raw: &[char], header: &[char]) -> (r: Option<(usize, usize)>)
    ensures
        match r {
            Some((a, b)) => table_range(raw@, header@) == Some((a as nat, b as nat)),
            None => table_range(raw@, header@) is None,
        },
{
    let n = raw.len();
    let mut pos: usize = 0;
    let mut start: Option<usize> = None;
    let bracket: Vec<char> = vec!['['];
    assert(bracket@ =~= seq!['[']);
    assert(raw@.skip(0) =~= raw@);
    while pos < n
        invariant
            pos <= n == raw@.len(),
            bracket@ == seq!['['],
            start matches Some(a) ==> a <= pos,
            table_range(raw@, header@) == table_range_from(
                raw@.skip(pos as int),
                pos as nat,
                match start {
                    Some(a) => Some(a as nat),
                    None => None,
                },
                header@,
            ),
        decreases n - pos,
    {
        let ghost s = raw@.skip(pos as int);
        let mut j: usize = pos;
        while j < n && raw[j] != '\n'
            invariant
                pos <= j <= n == raw@.len(),
                forall|q: int| pos <= q < j ==> raw@[q] != '\n',
            decreases n - j,
        {
            j = j + 1;
        }
        proof {
            crate::lines::lemma_first_nl(s, j - pos);
        }
        let end = if j < n {
            j + 1
        } else {
            n
        };
        assert(piece_len(s) == end - pos);
        let piece = copy_range(raw, pos, end);
        assert(piece@ =~= s.take((end - pos) as int));
        let t = trim_vec(piece.as_slice());
        if start.is_some() && starts_with_exec(t.as_slice(), bracket.as_slice()) {
            let a = start.unwrap();
            return Some((a, pos));
        }
        if eq_chars(t.as_slice(), header) {
            start = Some(pos);
        }
        assert(s.skip((end - pos) as int) =~= raw@.skip(end as int));
        pos = end;
    }
    match start {
        Some(a) => Some((a, n)),
        None => None,
    }
}

/// `raw` with the profile's table in it (`upsert_provider_block`): an existing
/// table with the same header is replaced, otherwise the table is added at the
/// end after an empty line.
pub open spec fn with_provider_block(raw: Seq<char>, p: ProviderProfileView) -> Seq<char> {
    let block = provider_block(p);
    match table_range(raw, profile_header(p.key)) {
        Some((a, b)) => raw.take(a as int) + block + raw.skip(b as int),
        None => {
            let ended = if raw.len() > 0 && raw.last() == '\n' {
                raw
            } else {
                raw.push('\n')
            };
            ended.push('\n') + block
        },
    }
}

/// Puts the profile's table into `raw` (`upsert_provider_block`).
pub fn upsert_provider_block(raw: &str, p: &ProviderProfile) -> (out: String)
    ensures
        out@ == with_provider_block(raw@, p@),
{
    let rc = chars_of(raw);
    let header = profile_header_exec(p.key.as_str());
    let block = provider_block_exec(p);
    proof {
        lemma_table_range_bounds(rc@, 0, None, header@);
    }
    match table_range_exec(rc.as_slice(), header.as_slice()) {
        Some((a, b)) => {
            let mut out = copy_range(rc.as_slice(), 0, a);
            push_all(&mut out, block.as_slice());
            let tail = copy_range(rc.as_slice(), b, rc.len());
            push_all(&mut out, tail.as_slice());
            string_of(out.as_slice())
        },
        None => {
            let mut out = copy_range(rc.as_slice(), 0, rc.len());
            if !(rc.len() > 0 && rc[rc.len() - 1] == '\n') {
                out.push('\n');
            }
            out.push('\n');
            push_all(&mut out, block.as_slice());
            proof {
                assert(rc@.subrange(0, rc@.len() as int) =~= rc@);
            }
            string_of(out.as_slice())
        },
    }
}

// ---------------------------------------------------------------------------
// Reading profiles from the parsed configuration
// ---------------------------------------------------------------------------
/// A scalar of a TOML table, as far as the profiles read it.
#[derive(Debug, Clone, PartialEq)]
pub enum TomlScalar {
    Text(String),
    Flag(bool),
    Other,
}

pub enum TomlScalarView {
    Text(Seq<char>),
    Flag(bool),
    Other,
}

impl View for TomlScalar {
    type V = TomlScalarView;

    open spec fn view(&self) -> TomlScalarView {
        match self {
            TomlScalar::Text(s) => TomlScalarView::Text(s@),
            TomlScalar::Flag(b) => TomlScalarView::Flag(*b),
            TomlScalar::Other => TomlScalarView::Other,
        }
    }
}

/// The entries of one table.
pub type TomlFields = Vec<(String, TomlScalar)>;

/// The entries of `model_providers`: each key with its table's entries, or
/// nothing where the value is not a table.
pub type ProviderTables = Vec<(String, Option<TomlFields>)>;

pub open spec fn fields_view(f: Seq<(String, TomlScalar)>) -> Seq<(Seq<char>, TomlScalarView)> {
    f.map_values(|e: (String, TomlScalar)| (e.0@, e.1@))
}

pub open spec fn tables_view(t: Seq<(String, Option<TomlFields>)>) -> Seq<(Seq<char>, Option<Seq<(Seq<char>, TomlScalarView)>>)> {
    t.map_values(
        |e: (String, Option<TomlFields>)|
            (
                e.0@,
                match e.1 {
                    Some(f) => Some(fields_view(f@)),
                    None => None,
                },
            ),
    )
}

pub open spec fn tables_result_view(r: Result<ProviderTables, String>) -> Result<Seq<(Seq<char>, Option<Seq<(Seq<char>, TomlScalarView)>>)>, Seq<char>> {
    match r {
        Ok(t) => Ok(tables_view(t@)),
        Err(e) => Err(e@),
    }
}

/// A parsed TOML document as far as the profiles read it: each top-level key
/// with, where its value is a table, that table's entries and their tables.
pub type TomlDocument = Vec<(String, Option<ProviderTables>)>;

pub open spec fn document_view(d: Seq<(String, Option<ProviderTables>)>) -> Seq<(Seq<char>, Option<Seq<(Seq<char>, Option<Seq<(Seq<char>, TomlScalarView)>>)>>)> {
    d.map_values(
        |e: (String, Option<ProviderTables>)|
            (
                e.0@,
                match e.1 {
                    Some(t) => Some(tables_view(t@)),
                    None => None,
                },
            ),
    )
}

pub open spec fn document_result_view(r: Result<TomlDocument, String>) -> Result<Seq<(Seq<char>, Option<Seq<(Seq<char>, Option<Seq<(Seq<char>, TomlScalarView)>>)>>)>, Seq<char>> {
    match r {
        Ok(d) => Ok(document_view(d@)),
        Err(e) => Err(e@),
    }
}

/// What the `toml` crate makes of a `config.toml`: the error text when the
/// document does not parse, otherwise its top-level entries, two levels of
/// tables deep.
pub uninterp spec fn toml_document(raw: Seq<char>) -> Result<Seq<(Seq<char>, Option<Seq<(Seq<char>, Option<Seq<(Seq<char>, TomlScalarView)>>)>>)>, Seq<char>>;

/// Parses `raw` with `toml` (`str::parse::<toml::Table>`) and hands out its
/// entries, tables as their entries, strings and booleans as they are and
/// other values as `Other`.  The result is `toml_document(raw)`.
#[verifier::external_body]
fn parse_toml_document(raw: &str) -> (r: Result<TomlDocument, String>)
    ensures
        document_result_view(r) == toml_document(raw@),
{
    let scalar = |x: &Value| match x {
        Value::String(s) => TomlScalar::Text(s.clone()),
        Value::Boolean(b) => TomlScalar::Flag(*b),
        _ => TomlScalar::Other,
    };
    let doc = raw.parse::<toml::Table>().map_err(|e| e.to_string())?;
    Ok(doc.iter().map(|(k, v)| (k.clone(), v.as_table().map(|t| t.iter().map(|(n, w)| (n.clone(),
        w.as_table().map(|u| u.iter().map(|(f, x)| (f.clone(), scalar(x))).collect()))).collect()))).collect())
}

/// The entries of the document's `model_providers` table: none when there is
/// no such table (`Value::get` and `as_table`).
pub open spec fn providers_in(d: Seq<(Seq<char>, Option<Seq<(Seq<char>, Option<Seq<(Seq<char>, TomlScalarView)>>)>>)>) -> Seq<(Seq<char>, Option<Seq<(Seq<char>, TomlScalarView)>>)>
    decreases d.len(),
{
    if d.len() == 0 {
        Seq::empty()
    } else if d[0].0 == "model_providers"@ {
        match d[0].1 {
            Some(t) => t,
            None => Seq::empty(),
        }
    } else {
        providers_in(d.drop_first())
    }
}

/// The entries of `model_providers` in a `config.toml`, or the error text
/// when it does not parse.
pub open spec fn model_provider_tables(raw: Seq<char>) -> Result<Seq<(Seq<char>, Option<Seq<(Seq<char>, TomlScalarView)>>)>, Seq<char>> {
    match toml_document(raw) {
        Ok(d) => Ok(providers_in(d)),
        Err(e) => Err(e),
    }
}

/// Reads the `model_providers` table of a `config.toml`.
fn parse_model_provider_tables(raw: &str) -> (r: Result<ProviderTables, String>)
    ensures
        tables_result_view(r) == model_provider_tables(raw@),
{
    let doc = match parse_toml_document(raw) {
        Ok(d) => d,
        Err(e) => return Err(e),
    };
    let ghost dv = document_view(doc@);
    let mut rest = doc;
    let ghost mut i: int = 0;
    proof {
        assert(document_view(rest@) =~= dv.subrange(0, dv.len() as int));
    }
    while rest.len() > 0
        invariant
            0 <= i <= dv.len(),
            document_view(rest@) == dv.subrange(i, dv.len() as int),
            providers_in(dv) == providers_in(dv.subrange(i, dv.len() as int)),
            toml_document(raw@) == Ok::<_, Seq<char>>(dv),
        decreases rest@.len(),
    {
        let ghost old_rest = rest@;
        proof {
            assert(document_view(old_rest).len() == old_rest.len());
            assert(i < dv.len());
            assert(document_view(old_rest)[0] == dv.subrange(i, dv.len() as int)[0]);
        }
        let (key, value) = rest.remove(0);
        let ghost tail = dv.subrange(i, dv.len() as int);
        proof {
            assert(rest@ =~= old_rest.subrange(1, old_rest.len() as int));
            assert forall|j: int| 0 <= j < rest@.len() implies #[trigger] document_view(rest@)[j]
                == dv.subrange(i + 1, dv.len() as int)[j] by {
                assert(rest@[j] == old_rest[j + 1]);
                assert(document_view(old_rest)[j + 1] == tail[j + 1]);
            }
            assert(document_view(rest@) =~= dv.subrange(i + 1, dv.len() as int));
            assert(tail.drop_first() =~= dv.subrange(i + 1, dv.len() as int));
            assert(tail[0] == document_view(old_rest)[0]);
            assert(old_rest[0] == (key, value));
            assert(tail[0].0 == key@);
            reveal_strlit("model_providers");
        }
        if crate::text::eq_str(key.as_str(), "model_providers") {
            match value {
                Some(t) => {
                    assert(tail[0].1 == Some(tables_view(t@)));
                    return Ok(t);
                },
                None => {
                    let none: ProviderTables = Vec::new();
                    assert(tables_view(none@) =~= Seq::empty());
                    return Ok(none);
                },
            }
        }
        proof {
            i = i + 1;
        }
    }
    let e: ProviderTables = Vec::new();
    assert(tables_view(e@) =~= Seq::empty());
    Ok(e)
}

/// The first value that the entries give `key`.
pub open spec fn field_of(f: Seq<(Seq<char>, TomlScalarView)>, key: Seq<char>) -> Option<TomlScalarView>
    decreases f.len(),
{
    if f.len() == 0 {
        None
    } else if f[0].0 == key {
        Some(f[0].1)
    } else {
        field_of(f.drop_first(), key)
    }
}

/// A string entry, trimmed; empty when missing or not a string.
pub open spec fn text_field(f: Seq<(Seq<char>, TomlScalarView)>, key: Seq<char>) -> Seq<char> {
    match field_of(f, key) {
        Some(TomlScalarView::Text(s)) => trim(s),
        _ => Seq::empty(),
    }
}

/// A boolean entry; false when missing or not a boolean.
pub open spec fn flag_field(f: Seq<(Seq<char>, TomlScalarView)>, key: Seq<char>) -> bool {
    match field_of(f, key) {
        Some(TomlScalarView::Flag(b)) => b,
        _ => false,
    }
}

/// The profile that a table describes: the name falls back to the key and the
/// wire API to `responses`.
pub open spec fn table_profile(key: Seq<char>, f: Seq<(Seq<char>, TomlScalarView)>) -> ProviderProfileView {
    let name = text_field(f, "name"@);
    let wire_api = text_field(f, "wire_api"@);
    ProviderProfileView {
        key: key,
        name: if name.len() == 0 { key } else { name },
        base_url: text_field(f, "base_url"@),
        wire_api: if wire_api.len() == 0 { "responses"@ } else { wire_api },
        env_key: text_field(f, "env_key"@),
        requires_openai_auth: flag_field(f, "requires_openai_auth"@),
        experimental_bearer_token: text_field(f, "experimental_bearer_token"@),
    }
}

/// `p` is the profile that the table describes.
pub open spec fn profile_from_table(p: ProviderProfile, key: Seq<char>, f: Seq<(Seq<char>, TomlScalarView)>) -> bool {
    p@ == table_profile(key, f)
}

/// The tables among the entries, in order.
pub open spec fn provider_entries(t: Seq<(Seq<char>, Option<Seq<(Seq<char>, TomlScalarView)>>)>) -> Seq<(Seq<char>, Seq<(Seq<char>, TomlScalarView)>)>
    decreases t.len(),
{
    if t.len() == 0 {
        Seq::empty()
    } else {
        let rest = provider_entries(t.drop_last());
        match t.last().1 {
            Some(f) => rest.push((t.last().0, f)),
            None => rest,
        }
    }
}

fn field_lookup<'a>(f: &'a Vec<(String, TomlScalar)>, key: &str) -> (r: Option<&'a TomlScalar>)
    ensures
        match r {
            Some(x) => field_of(fields_view(f@), key@) == Some(x@),
            None => field_of(fields_view(f@), key@) is None,
        },
{
    let ghost fv = fields_view(f@);
    let mut i: usize = 0;
    assert(fv.subrange(0, fv.len() as int) =~= fv);
    while i < f.len()
        invariant
            i <= f@.len(),
            fv == fields_view(f@),
            field_of(fv, key@) == field_of(fv.subrange(i as int, fv.len() as int), key@),
        decreases f@.len() - i,
    {
        let ghost rest = fv.subrange(i as int, fv.len() as int);
        assert(rest.drop_first() =~= fv.subrange(i as int + 1, fv.len() as int));
        assert(rest[0] == (f@[i as int].0@, f@[i as int].1@));
        let name = chars_of(f[i].0.as_str());
        let wanted = chars_of(key);
        if eq_chars(name.as_slice(), wanted.as_slice()) {
            return Some(&f[i].1);
        }
        i = i + 1;
    }
    None
}

fn text_field_exec(f: &Vec<(String, TomlScalar)>, key: &str) -> (out: Vec<char>)
    ensures
        out@ == text_field(fields_view(f@), key@),
{
    match field_lookup(f, key) {
        Some(TomlScalar::Text(s)) => {
            let c = chars_of(s.as_str());
            trim_vec(c.as_slice())
        },
        _ => Vec::new(),
    }
}

fn flag_field_exec(f: &Vec<(String, TomlScalar)>, key: &str) -> (b: bool)
    ensures
        b == flag_field(fields_view(f@), key@),
{
    match field_lookup(f, key) {
        Some(TomlScalar::Flag(b)) => *b,
        _ => false,
    }
}

fn profile_of_table(key: &String, f: &Vec<(String, TomlScalar)>) -> (p: ProviderProfile)
    ensures
        profile_from_table(p, key@, fields_view(f@)),
{
    let name = text_field_exec(f, "name");
    let wire_api = text_field_exec(f, "wire_api");
    let base_url = text_field_exec(f, "base_url");
    let env_key = text_field_exec(f, "env_key");
    let token = text_field_exec(f, "experimental_bearer_token");
    ProviderProfile {
        key: key.clone(),
        name: if name.len() == 0 {
            key.clone()
        } else {
            string_of(name.as_slice())
        },
        base_url: string_of(base_url.as_slice()),
        wire_api: if wire_api.len() == 0 {
            String::from_str("responses")
        } else {
            string_of(wire_api.as_slice())
        },
        env_key: string_of(env_key.as_slice()),
        requires_openai_auth: flag_field_exec(f, "requires_openai_auth"),
        experimental_bearer_token: string_of(token.as_slice()),
    }
}

/// The profiles that the tables describe, in their order.
fn profiles_of_tables(t: &ProviderTables) -> (ps: Vec<ProviderProfile>)
    ensures
        ps@.len() == provider_entries(tables_view(t@)).len(),
        forall|i: int|
            0 <= i < ps@.len() ==> #[trigger] profile_from_table(
                ps@[i],
                provider_entries(tables_view(t@))[i].0,
                provider_entries(tables_view(t@))[i].1,
            ),
{
    let ghost tv = tables_view(t@);
    let mut ps: Vec<ProviderProfile> = Vec::new();
    let mut i: usize = 0;
    while i < t.len()
        invariant
            i <= t@.len(),
            tv == tables_view(t@),
            ps@.len() == provider_entries(tv.take(i as int)).len(),
            forall|j: int|
                0 <= j < ps@.len() ==> #[trigger] profile_from_table(
                    ps@[j],
                    provider_entries(tv.take(i as int))[j].0,
                    provider_entries(tv.take(i as int))[j].1,
                ),
        decreases t@.len() - i,
    {
        assert(tv.take(i as int + 1).drop_last() =~= tv.take(i as int));
        let ghost prev = provider_entries(tv.take(i as int));
        match &t[i].1 {
            Some(f) => {
                let p = profile_of_table(&t[i].0, f);
                ps.push(p);
            },
            None => {},
        }
        i = i + 1;
    }
    assert(tv.take(t@.len() as int) =~= tv);
    ps
}

// ---------------------------------------------------------------------------
// Choosing a profile for a launch
// ---------------------------------------------------------------------------
/// `key` trimmed and added unless blank or already there (`push_candidate`).
pub open spec fn push_candidate(c: Seq<Seq<char>>, key: Seq<char>) -> Seq<Seq<char>> {
    let t = trim(key);
    if t.len() > 0 && !c.contains(t) {
        c.push(t)
    } else {
        c
    }
}

/// `key` is `openai` up to ASCII case.
pub open spec fn is_openai(key: Seq<char>) -> bool {
    crate::text::ascii_lower_seq(key) == "openai"@
}

pub open spec fn push_profile_keys(c: Seq<Seq<char>>, keys: Seq<Seq<char>>) -> Seq<Seq<char>>
    decreases keys.len(),
{
    if keys.len() == 0 {
        c
    } else {
        let c1 = push_profile_keys(c, keys.drop_last());
        if is_openai(keys.last()) {
            c1
        } else {
            push_candidate(c1, keys.last())
        }
    }
}

/// The keys of the entries, in order.
pub open spec fn entry_keys(e: Seq<(Seq<char>, Seq<(Seq<char>, TomlScalarView)>)>) -> Seq<Seq<char>> {
    e.map_values(|x: (Seq<char>, Seq<(Seq<char>, TomlScalarView)>)| x.0)
}

/// The providers to try, in order: the configured one unless it is OpenAI,
/// then `lac`, `cliproxy`, and every other profile that is not OpenAI.
pub open spec fn provider_candidates(current: Option<Seq<char>>, keys: Seq<Seq<char>>) -> Seq<Seq<char>> {
    let c0 = match current {
        Some(p) => if is_openai(p) {
            Seq::empty()
        } else {
            push_candidate(Seq::empty(), p)
        },
        None => Seq::empty(),
    };
    push_profile_keys(push_candidate(push_candidate(c0, "lac"@), "cliproxy"@), keys)
}

/// The index of the first entry whose key is `key`.
pub open spec fn entry_index(e: Seq<(Seq<char>, Seq<(Seq<char>, TomlScalarView)>)>, key: Seq<char>) -> Option<int>
    decreases e.len(),
{
    if e.len() == 0 {
        None
    } else if e[0].0 == key {
        Some(0)
    } else {
        match entry_index(e.drop_first(), key) {
            Some(i) => Some(i + 1),
            None => None,
        }
    }
}

/// A profile that can serve a hybrid launch: it uses OpenAI auth and has a bearer token.
pub open spec fn hybrid_capable(f: Seq<(Seq<char>, TomlScalarView)>) -> bool {
    flag_field(f, "requires_openai_auth"@) && trim(text_field(f, "experimental_bearer_token"@)).len() > 0
}

/// The entry of the first candidate that has a profile (that can serve a
/// hybrid launch, for a hybrid launch).
pub open spec fn chosen_entry(cands: Seq<Seq<char>>, e: Seq<(Seq<char>, Seq<(Seq<char>, TomlScalarView)>)>, hybrid: bool) -> Option<int>
    decreases cands.len(),
{
    if cands.len() == 0 {
        None
    } else {
        match entry_index(e, cands[0]) {
            Some(i) if !hybrid || hybrid_capable(e[i].1) => Some(i),
            _ => chosen_entry(cands.drop_first(), e, hybrid),
        }
    }
}

pub open spec fn no_profiles_message() -> Seq<char> {
    "No model provider profiles found in config.toml."@
}

pub open spec fn no_hybrid_message() -> Seq<char> {
    "No hybrid-capable provider found in config.toml. Expected requires_openai_auth=true and experimental_bearer_token."@
}

pub open spec fn no_api_message() -> Seq<char> {
    "No API provider profile found in config.toml."@
}

/// What choosing a profile comes to: the index of the chosen entry, or the error text.
pub open spec fn profile_choice(current: Option<Seq<char>>, e: Seq<(Seq<char>, Seq<(Seq<char>, TomlScalarView)>)>, mode: Seq<char>) -> Result<int, Seq<char>> {
    let hybrid = mode == "hybrid"@;
    if e.len() == 0 {
        Err(no_profiles_message())
    } else {
        match chosen_entry(provider_candidates(current, entry_keys(e)), e, hybrid) {
            Some(i) => Ok(i),
            None => Err(if hybrid { no_hybrid_message() } else { no_api_message() }),
        }
    }
}

proof fn lemma_entry_index(e: Seq<(Seq<char>, Seq<(Seq<char>, TomlScalarView)>)>, key: Seq<char>)
    ensures
        match entry_index(e, key) {
            Some(i) => 0 <= i < e.len() && e[i].0 == key && forall|j: int| 0 <= j < i ==> e[j].0 != key,
            None => forall|j: int| 0 <= j < e.len() ==> e[j].0 != key,
        },
    decreases e.len(),
{
    if e.len() > 0 {
        lemma_entry_index(e.drop_first(), key);
        if e[0].0 != key {
            assert forall|j: int| 0 < j < e.len() implies e[j].0 == e.drop_first()[j - 1].0 by {}
        }
    }
}

proof fn lemma_chosen_bound(cands: Seq<Seq<char>>, e: Seq<(Seq<char>, Seq<(Seq<char>, TomlScalarView)>)>, hybrid: bool)
    ensures
        chosen_entry(cands, e, hybrid) matches Some(i) ==> 0 <= i < e.len(),
    decreases cands.len(),
{
    if cands.len() > 0 {
        lemma_entry_index(e, cands[0]);
        lemma_chosen_bound(cands.drop_first(), e, hybrid);
    }
}

fn push_candidate_exec(c: &mut Vec<Vec<char>>, key: &[char])
    ensures
        seqs(final(c)@) == push_candidate(seqs(old(c)@), key@),
{
    let t = trim_vec(key);
    if t.len() == 0 {
        return;
    }
    let ghost cs = seqs(c@);
    let mut i: usize = 0;
    while i < c.len()
        invariant
            i <= c@.len(),
            cs == seqs(c@),
            cs == seqs(old(c)@),
            c@ == old(c)@,
            t@ == trim(key@),
            forall|j: int| 0 <= j < i ==> cs[j] != t@,
        decreases c@.len() - i,
    {
        if eq_chars(c[i].as_slice(), t.as_slice()) {
            assert(cs[i as int] == t@);
            assert(cs.contains(t@));
            return;
        }
        i = i + 1;
    }
    assert(!cs.contains(t@));
    c.push(t);
    assert(seqs(c@) =~= cs.push(t@));
}

fn is_openai_exec(key: &[char]) -> (b: bool)
    ensures
        b == is_openai(key@),
{
    let l = crate::text::ascii_lower_vec(key);
    let o = chars_of("openai");
    eq_chars(l.as_slice(), o.as_slice())
}

fn entry_index_exec(ps: &Vec<ProviderProfile>, key: &[char], Ghost(e): Ghost<Seq<(Seq<char>, Seq<(Seq<char>, TomlScalarView)>)>>) -> (r: Option<usize>)
    requires
        ps@.len() == e.len(),
        forall|i: int| 0 <= i < ps@.len() ==> #[trigger] ps@[i].key@ == e[i].0,
    ensures
        match r {
            Some(i) => entry_index(e, key@) == Some(i as int),
            None => entry_index(e, key@) is None,
        },
{
    proof {
        lemma_entry_index(e, key@);
    }
    let mut i: usize = 0;
    while i < ps.len()
        invariant
            i <= ps@.len() == e.len(),
            forall|j: int| 0 <= j < ps@.len() ==> #[trigger] ps@[j].key@ == e[j].0,
            forall|j: int| 0 <= j < i ==> e[j].0 != key@,
        decreases ps@.len() - i,
    {
        let kc = chars_of(ps[i].key.as_str());
        assert(kc@ == ps@[i as int].key@);
        if eq_chars(kc.as_slice(), key) {
            assert(e[i as int].0 == key@);
            proof {
                lemma_entry_index(e, key@);
                match entry_index(e, key@) {
                    Some(i0) => {
                        if i0 < i {
                            assert(e[i0].0 != key@);
                        }
                        if i0 > i {
                            assert(e[i as int].0 != key@);
                        }
                    },
                    None => {
                        assert(e[i as int].0 != key@);
                    },
                }
            }
            return Some(i);
        }
        i = i + 1;
    }
    None
}

/// Chooses the profile to launch with (`load_provider_profile_from_config`
/// after the file is read and parsed): among the profiles that the parsed
/// tables describe, the first candidate of `provider_candidates` that has one,
/// and for a hybrid launch one that uses OpenAI auth with a bearer token.
pub fn provider_profile_from_tables(current: Option<String>, tables: &ProviderTables, mode: &str) -> (r: Result<ProviderProfile, String>)
    ensures
        ({
            let e = provider_entries(tables_view(tables@));
            match profile_choice(opt_string_view(current), e, mode@) {
                Ok(i) => r matches Ok(p) && profile_from_table(p, e[i].0, e[i].1),
                Err(msg) => r matches Err(m) && m@ == msg,
            }
        }),
{
    let ghost e = provider_entries(tables_view(tables@));
    let ps = profiles_of_tables(tables);
    let hybrid_word = chars_of("hybrid");
    let mode_chars = chars_of(mode);
    let hybrid = eq_chars(mode_chars.as_slice(), hybrid_word.as_slice());
    if ps.len() == 0 {
        return Err(String::from_str("No model provider profiles found in config.toml."));
    }
    let mut cands: Vec<Vec<char>> = Vec::new();
    assert(seqs(cands@) =~= Seq::<Seq<char>>::empty());
    match &current {
        Some(p) => {
            let pc = chars_of(p.as_str());
            if !is_openai_exec(pc.as_slice()) {
                push_candidate_exec(&mut cands, pc.as_slice());
            }
        },
        None => {},
    }
    let lac = chars_of("lac");
    let cliproxy = chars_of("cliproxy");
    push_candidate_exec(&mut cands, lac.as_slice());
    push_candidate_exec(&mut cands, cliproxy.as_slice());
    let ghost c_start = seqs(cands@);
    let ghost keys = entry_keys(e);
    assert forall|i: int| 0 <= i < ps@.len() implies #[trigger] ps@[i].key@ == e[i].0 by {
        assert(profile_from_table(ps@[i], e[i].0, e[i].1));
    }
    let mut k: usize = 0;
    while k < ps.len()
        invariant
            k <= ps@.len() == e.len(),
            keys == entry_keys(e),
            forall|i: int| 0 <= i < ps@.len() ==> #[trigger] ps@[i].key@ == e[i].0,
            seqs(cands@) == push_profile_keys(c_start, keys.take(k as int)),
        decreases ps@.len() - k,
    {
        assert(keys.take(k as int + 1).drop_last() =~= keys.take(k as int));
        assert(keys[k as int] == ps@[k as int].key@);
        let kc = chars_of(ps[k].key.as_str());
        if !is_openai_exec(kc.as_slice()) {
            push_candidate_exec(&mut cands, kc.as_slice());
        }
        k = k + 1;
    }
    assert(keys.take(ps@.len() as int) =~= keys);
    assert(seqs(cands@) == provider_candidates(opt_string_view(current), keys));
    let ghost all = seqs(cands@);
    let mut j: usize = 0;
    assert(all.skip(0) =~= all);
    while j < cands.len()
        invariant
            j <= cands@.len(),
            all == seqs(cands@),
            ps@.len() == e.len(),
            forall|i: int| 0 <= i < ps@.len() ==> #[trigger] ps@[i].key@ == e[i].0,
            forall|i: int|
                0 <= i < ps@.len() ==> #[trigger] profile_from_table(ps@[i], e[i].0, e[i].1),
            chosen_entry(all, e, hybrid) == chosen_entry(all.skip(j as int), e, hybrid),
            all == provider_candidates(opt_string_view(current), entry_keys(e)),
            hybrid == (mode@ == "hybrid"@),
            e.len() > 0,
            e == provider_entries(tables_view(tables@)),
        decreases cands@.len() - j,
    {
        let ghost rest = all.skip(j as int);
        assert(rest.drop_first() =~= all.skip(j as int + 1));
        assert(rest[0] == cands@[j as int]@);
        match entry_index_exec(&ps, cands[j].as_slice(), Ghost(e)) {
            Some(i) => {
                proof {
                    lemma_entry_index(e, cands@[j as int]@);
                }
                let p = &ps[i];
                let tok_chars = chars_of(p.experimental_bearer_token.as_str());
                let tok = trim_vec(tok_chars.as_slice());
                assert(profile_from_table(ps@[i as int], e[i as int].0, e[i as int].1));
                if !hybrid || (p.requires_openai_auth && tok.len() > 0) {
                    assert(chosen_entry(rest, e, hybrid) == Some(i as int));
                    return Ok(p.copy());
                }
            },
            None => {},
        }
        j = j + 1;
    }
    if hybrid {
        Err(String::from_str("No hybrid-capable provider found in config.toml. Expected requires_openai_auth=true and experimental_bearer_token."))
    } else {
        Err(String::from_str("No API provider profile found in config.toml."))
    }
}

/// The error text for a configuration that `toml` does not parse.
pub open spec fn parse_failure_message(e: Seq<char>) -> Seq<char> {
    "Failed to parse config.toml: "@ + e
}

/// The profile chosen from the text of `config.toml` for a launch mode, or
/// the error text, over what `toml` makes of the text.
pub open spec fn config_profile(raw: Seq<char>, mode: Seq<char>) -> Result<ProviderProfileView, Seq<char>> {
    match model_provider_tables(raw) {
        Err(e) => Err(parse_failure_message(e)),
        Ok(t) => {
            let e = provider_entries(t);
            match profile_choice(configured_provider(raw), e, mode) {
                Ok(i) => Ok(table_profile(e[i].0, e[i].1)),
                Err(msg) => Err(msg),
            }
        },
    }
}

pub open spec fn profile_result_view(r: Result<ProviderProfile, String>) -> Result<ProviderProfileView, Seq<char>> {
    match r {
        Ok(p) => Ok(p@),
        Err(e) => Err(e@),
    }
}

/// Chooses the profile to launch with from the text of `config.toml`
/// (`load_provider_profile_from_config` once the file is read).
pub fn load_provider_profile_from_config(raw: &str, mode: &str) -> (r: Result<ProviderProfile, String>)
    ensures
        profile_result_view(r) == config_profile(raw@, mode@),
{
    let current = read_model_provider_from_config_contents(raw);
    match parse_model_provider_tables(raw) {
        Err(e) => {
            let mut m = chars_of("Failed to parse config.toml: ");
            push_str(&mut m, e.as_str());
            Err(string_of(m.as_slice()))
        },
        Ok(t) => provider_profile_from_tables(current, &t, mode),
    }
}

/// The index of the first entry that can serve a hybrid launch.
pub open spec fn first_hybrid_entry(e: Seq<(Seq<char>, Seq<(Seq<char>, TomlScalarView)>)>) -> Option<int>
    decreases e.len(),
{
    if e.len() == 0 {
        None
    } else if hybrid_capable(e[0].1) {
        Some(0)
    } else {
        match first_hybrid_entry(e.drop_first()) {
            Some(i) => Some(i + 1),
            None => None,
        }
    }
}

proof fn lemma_first_hybrid_entry(e: Seq<(Seq<char>, Seq<(Seq<char>, TomlScalarView)>)>, k: int)
    requires
        0 <= k <= e.len(),
        forall|j: int| 0 <= j < k ==> !hybrid_capable(#[trigger] e[j].1),
    ensures
        first_hybrid_entry(e) == (if k < e.len() && hybrid_capable(e[k].1) {
            Some(k)
        } else {
            match first_hybrid_entry(e.skip(k)) {
                Some(i) => Some(i + k),
                None => None,
            }
        }),
    decreases k,
{
    if k > 0 {
        assert forall|j: int| 0 <= j < k - 1 implies !hybrid_capable(#[trigger] e.drop_first()[j].1) by {
            assert(e.drop_first()[j] == e[j + 1]);
        }
        lemma_first_hybrid_entry(e.drop_first(), k - 1);
        assert(e.drop_first().skip(k - 1) =~= e.skip(k));
    } else {
        assert(e.skip(0) =~= e);
    }
}

/// The key of the first profile that can serve a hybrid launch, among the
/// profiles that the parsed tables describe.
pub fn hybrid_provider_key_from_tables(tables: &ProviderTables) -> (r: Option<String>)
    ensures
        ({
            let e = provider_entries(tables_view(tables@));
            match first_hybrid_entry(e) {
                Some(i) => r matches Some(k) && k@ == e[i].0,
                None => r is None,
            }
        }),
{
    let ghost e = provider_entries(tables_view(tables@));
    let ps = profiles_of_tables(tables);
    let mut i: usize = 0;
    while i < ps.len()
        invariant
            i <= ps@.len() == e.len(),
            e == provider_entries(tables_view(tables@)),
            forall|j: int| 0 <= j < ps@.len() ==> #[trigger] profile_from_table(ps@[j], e[j].0, e[j].1),
            forall|j: int| 0 <= j < i ==> !hybrid_capable(#[trigger] e[j].1),
        decreases ps@.len() - i,
    {
        let tok_chars = chars_of(ps[i].experimental_bearer_token.as_str());
        let tok = trim_vec(tok_chars.as_slice());
        assert(profile_from_table(ps@[i as int], e[i as int].0, e[i as int].1));
        if ps[i].requires_openai_auth && tok.len() > 0 {
            proof {
                lemma_first_hybrid_entry(e, i as int);
            }
            return Some(ps[i].key.clone());
        }
        i = i + 1;
    }
    proof {
        lemma_first_hybrid_entry(e, e.len() as int);
        assert(e.skip(e.len() as int) =~= Seq::<(Seq<char>, Seq<(Seq<char>, TomlScalarView)>)>::empty());
    }
    None
}

/// The key of a profile of `config.toml` that a hybrid launch can reuse
/// (`reusable_hybrid_provider_key` once the file is read): none when the
/// text does not parse.
pub fn reusable_hybrid_provider_key(raw: &str) -> (r: Option<String>)
    ensures
        match model_provider_tables(raw@) {
            Err(_) => r is None,
            Ok(t) => {
                let e = provider_entries(t);
                match first_hybrid_entry(e) {
                    Some(i) => r matches Some(k) && k@ == e[i].0,
                    None => r is None,
                }
            },
        },
{
    match parse_model_provider_tables(raw) {
        Err(_) => None,
        Ok(t) => hybrid_provider_key_from_tables(&t),
    }
}

/// The provider that Codex is configured with, `openai` when the file could
/// not be read or names none (`read_model_provider_from_codex_config`).
pub fn model_provider_or_default(contents: Option<&str>) -> (r: String)
    ensures
        r@ == (match contents {
            Some(c) => match configured_provider(c@) {
                Some(p) => p,
                None => "openai"@,
            },
            None => "openai"@,
        }),
{
    match contents {
        Some(c) => match read_model_provider_from_config_contents(c) {
            Some(p) => p,
            None => String::from_str("openai"),
        },
        None => String::from_str("openai"),
    }
}

// ---------------------------------------------------------------------------
// Rewriting the configuration for a launch
// ---------------------------------------------------------------------------
/// The provider to set and the rewritten configuration for a launch mode
/// (`configure_provider_for_launch`): `official` sets `openai`; `api` and
/// `hybrid` set the given profile, or the one chosen from the configuration,
/// and write its table, a hybrid launch needing OpenAI auth and a bearer
/// token; any other mode is refused.
pub open spec fn provider_update(raw: Seq<char>, mode: Seq<char>, profile: Option<ProviderProfileView>) -> Result<(Seq<char>, Seq<char>), Seq<char>> {
    if mode == "official"@ {
        Ok(("openai"@, with_model_provider(raw, "openai"@)))
    } else if mode == "api"@ || mode == "hybrid"@ {
        let chosen = match profile {
            Some(p) => Ok(p),
            None => config_profile(raw, mode),
        };
        match chosen {
            Err(m) => Err(m),
            Ok(p) => if mode == "hybrid"@ && !p.requires_openai_auth {
                Err("Hybrid mode requires requires_openai_auth=true."@)
            } else if mode == "hybrid"@ && trim(p.experimental_bearer_token).len() == 0 {
                Err("Hybrid mode requires experimental_bearer_token."@)
            } else {
                Ok((p.key, with_provider_block(with_model_provider(raw, p.key), p)))
            },
        }
    } else {
        Err("Unsupported launch mode: "@ + mode)
    }
}

pub open spec fn update_view(r: Result<(String, String), String>) -> Result<(Seq<char>, Seq<char>), Seq<char>> {
    match r {
        Ok((t, u)) => Ok((t@, u@)),
        Err(e) => Err(e@),
    }
}

pub open spec fn opt_profile_view(p: Option<ProviderProfile>) -> Option<ProviderProfileView> {
    match p {
        Some(q) => Some(q@),
        None => None,
    }
}

/// The provider to set and the new text of `config.toml` for a launch
/// (`configure_provider_for_launch`, between reading the file and writing it).
pub fn provider_config_update(raw: &str, mode: &str, profile: Option<ProviderProfile>) -> (r: Result<(String, String), String>)
    ensures
        update_view(r) == provider_update(raw@, mode@, opt_profile_view(profile)),
{
    let m = chars_of(mode);
    let official = chars_of("official");
    let api = chars_of("api");
    let hybrid_word = chars_of("hybrid");
    if eq_chars(m.as_slice(), official.as_slice()) {
        return Ok((String::from_str("openai"), upsert_model_provider(raw, "openai")));
    }
    let hybrid = eq_chars(m.as_slice(), hybrid_word.as_slice());
    if !(eq_chars(m.as_slice(), api.as_slice()) || hybrid) {
        let mut msg = chars_of("Unsupported launch mode: ");
        push_str(&mut msg, mode);
        return Err(string_of(msg.as_slice()));
    }
    let p = match profile {
        Some(p) => p,
        None => match load_provider_profile_from_config(raw, mode) {
            Ok(p) => p,
            Err(e) => {
                return Err(e);
            },
        },
    };
    if hybrid {
        if !p.requires_openai_auth {
            return Err(String::from_str("Hybrid mode requires requires_openai_auth=true."));
        }
        let tok_chars = chars_of(p.experimental_bearer_token.as_str());
        let tok = trim_vec(tok_chars.as_slice());
        if tok.len() == 0 {
            return Err(String::from_str("Hybrid mode requires experimental_bearer_token."));
        }
    }
    let with_provider = upsert_model_provider(raw, p.key.as_str());
    let updated = upsert_provider_block(with_provider.as_str(), &p);
    Ok((p.key, updated))
}

/// How `{:?}` shows an optional string (`Option<String>` as `Debug` writes it).
pub uninterp spec fn debug_option_text(o: Option<Seq<char>>) -> Seq<char>;

/// `format!("{:?}", o)`: the text is `debug_option_text` of the option, and
/// `None` for no value.
#[verifier::external_body]
fn debug_option(o: &Option<String>) -> (s: String)
    ensures
        s@ == debug_option_text(opt_string_view(*o)),
        o is None ==> s@ == "None"@,
{
    format!("{:?}", o)
}

/// The error text when the written configuration names another provider.
pub open spec fn verification_failure(target: Seq<char>, found: Option<Seq<char>>) -> Seq<char> {
    "Config verification failed: expected model_provider="@ + target + ", got "@ + debug_option_text(found)
}

/// Checks the configuration as written back (`configure_provider_for_launch`
/// after the write): it must name `target` as its provider.
pub fn verify_configured_provider(written: &str, target: &str) -> (r: Result<(), String>)
    ensures
        configured_provider(written@) == Some(target@) ==> r is Ok,
        configured_provider(written@) != Some(target@) ==> (r matches Err(m) && m@ == verification_failure(
            target@,
            configured_provider(written@),
        )),
{
    let found = read_model_provider_from_config_contents(written);
    let same = match &found {
        Some(f) => {
            let fc = chars_of(f.as_str());
            let tc = chars_of(target);
            eq_chars(fc.as_slice(), tc.as_slice())
        },
        None => false,
    };
    if same {
        Ok(())
    } else {
        let mut msg = chars_of("Config verification failed: expected model_provider=");
        push_str(&mut msg, target);
        push_str(&mut msg, ", got ");
        let shown = debug_option(&found);
        push_str(&mut msg, shown.as_str());
        Err(string_of(msg.as_slice()))
    }
}

/// What a launch that was configured reports.
#[derive(Debug, Clone, PartialEq)]
pub struct ProviderConfigResult {
    pub config_path: String,
    pub backup_path: Option<String>,
    pub mode: String,
    pub target_model_provider: String,
    pub verified_model_provider: String,
}

/// The report of a configured launch: the provider set is the one found on
/// reading the file back.
pub fn provider_config_result(config_path: String, backup_path: String, mode: &str, target: String) -> (r: ProviderConfigResult)
    ensures
        r.config_path@ == config_path@,
        r.backup_path matches Some(b) && b@ == backup_path@,
        r.mode@ == mode@,
        r.target_model_provider@ == target@,
        r.verified_model_provider@ == target@,
{
    ProviderConfigResult {
        config_path,
        backup_path: Some(backup_path),
        mode: String::from_str(mode),
        target_model_provider: target.clone(),
        verified_model_provider: target,
    }
}

/// The refusal of an API or hybrid launch that was given no provider.
pub open spec fn missing_provider_error() -> Seq<char> {
    "No enabled model bucket relay is configured for this launch mode."@
}

/// Whether a launch mode sends model requests through a provider.
pub open spec fn needs_provider(mode: Option<Seq<char>>) -> bool {
    mode == Some("api"@) || mode == Some("hybrid"@)
}

/// The provider that a launch hands to the bridge, as JSON: a non-blank
/// provider given by the caller (trimmed); nothing for launches that need
/// none; and a refusal for an `api` or `hybrid` launch without one, which
/// never falls back to a profile left in `config.toml`.
pub fn launch_provider_source(mode: Option<&str>, provider_json: Option<&str>) -> (r: Result<Option<String>, String>)
    ensures
        match provider_json {
            Some(j) if trim(j@).len() > 0 => r matches Ok(Some(g)) && g@ == trim(j@),
            _ => if needs_provider(match mode { Some(m) => Some(m@), None => None }) {
                r matches Err(e) && e@ == missing_provider_error()
            } else {
                r matches Ok(None)
            },
        },
{
    match provider_json {
        Some(j) => {
            let jc = chars_of(j);
            let t = trim_vec(jc.as_slice());
            if t.len() > 0 {
                return Ok(Some(string_of(t.as_slice())));
            }
        },
        None => {},
    }
    proof {
        reveal_strlit("api");
        reveal_strlit("hybrid");
    }
    match mode {
        Some(m) => {
            let mc = chars_of(m);
            let api = chars_of("api");
            let hybrid = chars_of("hybrid");
            if eq_chars(mc.as_slice(), api.as_slice()) || eq_chars(mc.as_slice(), hybrid.as_slice()) {
                Err(String::from_str("No enabled model bucket relay is configured for this launch mode."))
            } else {
                Ok(None)
            }
        },
        None => Ok(None),
    }
}

// ---------------------------------------------------------------------------
// The Codex home that a launch names
// ---------------------------------------------------------------------------
/// `%NAME%` placeholders replaced by the values of the variables, one variable
/// after the other, in the order given.
pub open spec fn expand_vars(s: Seq<char>, vars: Seq<(Seq<char>, Seq<char>)>) -> Seq<char>
    decreases vars.len(),
{
    if vars.len() == 0 {
        s
    } else {
        let (k, v) = vars.last();
        crate::custom_instructions::replace_all(expand_vars(s, vars.drop_last()), seq!['%'] + k + seq!['%'], v)
    }
}

pub open spec fn vars_view(vars: Seq<(String, String)>) -> Seq<(Seq<char>, Seq<char>)> {
    vars.map_values(|e: (String, String)| (e.0@, e.1@))
}

/// What a Codex home written by the user comes to (`normalize_codex_home`):
/// nothing when it is blank (the default home is meant), else the trimmed text
/// with the variables expanded, and a leading `~/` taken against the home
/// directory when one is known.
pub open spec fn normalized_codex_home(codex_home: Seq<char>, vars: Seq<(Seq<char>, Seq<char>)>, home: Option<Seq<char>>, out: Option<Seq<char>>) -> bool {
    let t = trim(codex_home);
    if t.len() == 0 {
        out is None
    } else {
        let expanded = expand_vars(t, vars);
        match (crate::text::strip_prefix(expanded, "~/"@), home) {
            (Some(rest), Some(h)) => out matches Some(o) && (crate::paths::relative_part(rest) ==> crate::paths::joined(h, rest, o)),
            _ => out == Some(expanded),
        }
    }
}

/// Expands a Codex home written by the user (`normalize_codex_home`), with
/// the environment given as a list of variables and the home directory
/// (`USERPROFILE`, else `HOME`).
pub fn normalize_codex_home(codex_home: &str, vars: &Vec<(String, String)>, home: Option<String>) -> (r: Option<String>)
    ensures
        normalized_codex_home(
            codex_home@,
            vars_view(vars@),
            opt_string_view(home),
            opt_string_view(r),
        ),
{
    let hc = chars_of(codex_home);
    let t = trim_vec(hc.as_slice());
    if t.len() == 0 {
        return None;
    }
    let ghost vv = vars_view(vars@);
    let mut expanded = t;
    let mut i: usize = 0;
    while i < vars.len()
        invariant
            i <= vars@.len(),
            vv == vars_view(vars@),
            expanded@ == expand_vars(trim(codex_home@), vv.take(i as int)),
        decreases vars@.len() - i,
    {
        assert(vv.take(i as int + 1).drop_last() =~= vv.take(i as int));
        let mut pat: Vec<char> = vec!['%'];
        push_str(&mut pat, vars[i].0.as_str());
        pat.push('%');
        let val = chars_of(vars[i].1.as_str());
        assert(pat@ =~= seq!['%'] + vv[i as int].0 + seq!['%']);
        expanded = crate::custom_instructions::replace_all_exec(expanded.as_slice(), pat.as_slice(), val.as_slice());
        i = i + 1;
    }
    assert(vv.take(vars@.len() as int) =~= vv);
    let tilde: Vec<char> = vec!['~', '/'];
    proof {
        reveal_strlit("~/");
    }
    assert(tilde@ =~= "~/"@);
    if starts_with_exec(expanded.as_slice(), tilde.as_slice()) {
        match home {
            Some(h) => {
                let rest = copy_range(expanded.as_slice(), 2, expanded.len());
                let rest_s = string_of(rest.as_slice());
                return Some(crate::paths::join_path(h.as_str(), rest_s.as_str()));
            },
            None => {},
        }
    }
    Some(string_of(expanded.as_slice()))
}

} // verus!
