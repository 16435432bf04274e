//! MCP server entries of the Codex `config.toml`: finding them, rendering
//! them, and placing them outside the blocks that the app manages.
use vstd::prelude::*;
use crate::lines::{
    join_lines, join_with_newlines, lines_of, seqs, split_lines, with_final_newline,
    ensure_final_newline,
};
use crate::models::{CoreError, McpServerSummary, McpServerView, McpTransport, opt_str, str_pairs, strs};
use crate::sorting::{
    key_index, sort_by_key_exec, sort_keyed, keyed_view, key_index_exec, keyed_insert, map_get, map_insert,
    lemma_key_index, lemma_key_index_found, lemma_map_insert_get,
};
use crate::text::{lowercase, to_lowercase_chars, contains, contains_exec, find_char, find_char_exec, string_of, push_str, replace_char, replace_char_vec, chars_of, copy_range, eq_chars, push_all, starts_with, starts_with_exec, trim, trim_vec};
use crate::toml_scan::{
    copy_range_all, header_slices_badly, opt_view, parse_toml_array, toml_array, unquote, unquote_toml, parse_section_header, section_header, strip_comment,
    strip_toml_comment,
};

verus! {

// ---------------------------------------------------------------------------
// Markers of the managed blocks
// ---------------------------------------------------------------------------
pub open spec fn block_begin_prefix() -> Seq<char> {
    "# --- AI Strategist Managed"@
}

pub open spec fn legacy_block_begin_prefix() -> Seq<char> {
    "# --- AiMaMi Managed"@
}

pub open spec fn block_end_prefix() -> Seq<char> {
    "# --- End AI Strategist Managed"@
}

pub open spec fn legacy_block_end_prefix() -> Seq<char> {
    "# --- End AiMaMi Managed"@
}

pub open spec fn bottom_marker() -> Seq<char> {
    "# --- AI Strategist Managed Block (bottom) ---"@
}

pub open spec fn legacy_bottom_marker() -> Seq<char> {
    "# --- AiMaMi Managed Block (bottom) ---"@
}

pub open spec fn top_marker() -> Seq<char> {
    "# --- AI Strategist Managed Block (top) ---"@
}

pub open spec fn router_top_marker() -> Seq<char> {
    "# --- AI Strategist Managed Block (router-top) ---"@
}

pub open spec fn legacy_top_marker() -> Seq<char> {
    "# --- AiMaMi Managed Block (top) ---"@
}

pub open spec fn legacy_router_top_marker() -> Seq<char> {
    "# --- AiMaMi Managed Block (router-top) ---"@
}

/// A (trimmed) line that opens a managed block.
pub open spec fn is_block_begin(t: Seq<char>) -> bool {
    starts_with(t, block_begin_prefix()) || starts_with(t, legacy_block_begin_prefix())
}

/// A (trimmed) line that closes a managed block.
pub open spec fn is_block_end(t: Seq<char>) -> bool {
    starts_with(t, block_end_prefix()) || starts_with(t, legacy_block_end_prefix())
}

/// A line that opens the bottom managed block.
pub open spec fn is_bottom_line(l: Seq<char>) -> bool {
    trim(l) == bottom_marker() || trim(l) == legacy_bottom_marker()
}

/// A line that opens one of the top managed blocks.
pub open spec fn is_top_line(l: Seq<char>) -> bool {
    let t = trim(l);
    t == top_marker() || t == router_top_marker() || t == legacy_top_marker() || t
        == legacy_router_top_marker()
}

/// A line that is empty or whitespace.
pub open spec fn is_blank(l: Seq<char>) -> bool {
    trim(l).len() == 0
}

fn is_block_begin_exec(t: &[char]) -> (b: bool)
    ensures
        b == is_block_begin(t@),
{
    let a = chars_of("# --- AI Strategist Managed");
    let b = chars_of("# --- AiMaMi Managed");
    starts_with_exec(t, a.as_slice()) || starts_with_exec(t, b.as_slice())
}

fn is_block_end_exec(t: &[char]) -> (b: bool)
    ensures
        b == is_block_end(t@),
{
    let a = chars_of("# --- End AI Strategist Managed");
    let b = chars_of("# --- End AiMaMi Managed");
    starts_with_exec(t, a.as_slice()) || starts_with_exec(t, b.as_slice())
}

fn is_bottom_line_exec(l: &[char]) -> (b: bool)
    ensures
        b == is_bottom_line(l@),
{
    let t = trim_vec(l);
    let a = chars_of("# --- AI Strategist Managed Block (bottom) ---");
    let b = chars_of("# --- AiMaMi Managed Block (bottom) ---");
    eq_chars(t.as_slice(), a.as_slice()) || eq_chars(t.as_slice(), b.as_slice())
}

fn is_top_line_exec(l: &[char]) -> (b: bool)
    ensures
        b == is_top_line(l@),
{
    let t = trim_vec(l);
    let a = chars_of("# --- AI Strategist Managed Block (top) ---");
    let b = chars_of("# --- AI Strategist Managed Block (router-top) ---");
    let c = chars_of("# --- AiMaMi Managed Block (top) ---");
    let d = chars_of("# --- AiMaMi Managed Block (router-top) ---");
    eq_chars(t.as_slice(), a.as_slice()) || eq_chars(t.as_slice(), b.as_slice()) || eq_chars(
        t.as_slice(),
        c.as_slice(),
    ) || eq_chars(t.as_slice(), d.as_slice())
}

fn is_blank_exec(l: &[char]) -> (b: bool)
    ensures
        b == is_blank(l@),
{
    let t = trim_vec(l);
    t.len() == 0
}

// ---------------------------------------------------------------------------
// Positions in the configuration
// ---------------------------------------------------------------------------
/// The index of the first line that opens the bottom managed block, or the
/// number of lines.
pub open spec fn first_bottom(ls: Seq<Seq<char>>) -> nat
    decreases ls.len(),
{
    if ls.len() == 0 {
        0
    } else if is_bottom_line(ls[0]) {
        0
    } else {
        1 + first_bottom(ls.drop_first())
    }
}

/// The index of the first line that opens a top managed block, or the number
/// of lines.
pub open spec fn first_top(ls: Seq<Seq<char>>) -> nat
    decreases ls.len(),
{
    if ls.len() == 0 {
        0
    } else if is_top_line(ls[0]) {
        0
    } else {
        1 + first_top(ls.drop_first())
    }
}

pub proof fn lemma_first_bottom(ls: Seq<Seq<char>>, k: int)
    requires
        0 <= k <= ls.len(),
        forall|j: int| 0 <= j < k ==> !is_bottom_line(#[trigger] ls[j]),
        k == ls.len() || is_bottom_line(ls[k]),
    ensures
        first_bottom(ls) == k,
    decreases ls.len(),
{
    if ls.len() > 0 && k > 0 {
        let t = ls.drop_first();
        assert forall|j: int| 0 <= j < k - 1 implies !is_bottom_line(#[trigger] t[j]) by {
            assert(t[j] == ls[j + 1]);
        }
        lemma_first_bottom(t, k - 1);
    }
}

pub proof fn lemma_first_top(ls: Seq<Seq<char>>, k: int)
    requires
        0 <= k <= ls.len(),
        forall|j: int| 0 <= j < k ==> !is_top_line(#[trigger] ls[j]),
        k == ls.len() || is_top_line(ls[k]),
    ensures
        first_top(ls) == k,
    decreases ls.len(),
{
    if ls.len() > 0 && k > 0 {
        let t = ls.drop_first();
        assert forall|j: int| 0 <= j < k - 1 implies !is_top_line(#[trigger] t[j]) by {
            assert(t[j] == ls[j + 1]);
        }
        lemma_first_top(t, k - 1);
    }
}

/// Where new MCP entries go: at the bottom managed block, or at the end.
pub open spec fn insert_pos(ls: Seq<Seq<char>>) -> nat {
    first_bottom(ls)
}

/// Whether line `index` comes before the first top managed block.
pub open spec fn before_top_block(ls: Seq<Seq<char>>, index: int) -> bool {
    let p = first_top(ls);
    p < ls.len() && index < p
}

/// Whether a managed block is open after the first `n` lines.
pub open spec fn inside_after(ls: Seq<Seq<char>>, n: nat) -> bool
    decreases n,
{
    if n == 0 {
        false
    } else {
        let t = trim(ls[n - 1]);
        if is_block_begin(t) {
            true
        } else if is_block_end(t) {
            false
        } else {
            inside_after(ls, (n - 1) as nat)
        }
    }
}

/// Whether line `index` lies inside a managed block.
pub open spec fn inside_block(ls: Seq<Seq<char>>, index: int) -> bool {
    0 <= index < ls.len() && inside_after(ls, index as nat)
}

/// An entry at line `start` must move: it sits inside a managed block or
/// above the top managed block.
pub open spec fn must_relocate(ls: Seq<Seq<char>>, start: int) -> bool {
    inside_block(ls, start) || before_top_block(ls, start)
}

/// The start of the run of blank lines that ends at `p`.
pub open spec fn blank_run_start(ls: Seq<Seq<char>>, p: nat) -> nat
    decreases p,
{
    if p > 0 && p <= ls.len() && is_blank(ls[p - 1]) {
        blank_run_start(ls, (p - 1) as nat)
    } else {
        p
    }
}

/// `rendered` placed at the insertion point, after the blank lines before that
/// point are dropped and one blank separator line is put in their place
/// (none at the very top).
pub open spec fn insert_block(ls: Seq<Seq<char>>, rendered: Seq<Seq<char>>) -> Seq<Seq<char>> {
    let p = insert_pos(ls);
    let q = blank_run_start(ls, p);
    let sep: Seq<Seq<char>> = if q > 0 {
        seq![Seq::<char>::empty()]
    } else {
        Seq::empty()
    };
    ls.subrange(0, q as int) + sep + rendered + ls.subrange(p as int, ls.len() as int)
}

fn find_insert_pos(ls: &Vec<Vec<char>>) -> (p: usize)
    ensures
        p == insert_pos(seqs(ls@)),
        p <= ls@.len(),
{
    let ghost s = seqs(ls@);
    let mut i: usize = 0;
    while i < ls.len()
        invariant
            i <= ls@.len(),
            s == seqs(ls@),
            forall|j: int| 0 <= j < i ==> !is_bottom_line(#[trigger] s[j]),
        decreases ls@.len() - i,
    {
        if is_bottom_line_exec(ls[i].as_slice()) {
            proof {
                lemma_first_bottom(s, i as int);
            }
            return i;
        }
        i = i + 1;
    }
    proof {
        lemma_first_bottom(s, i as int);
    }
    i
}

fn is_before_top_managed_block(ls: &Vec<Vec<char>>, index: usize) -> (b: bool)
    ensures
        b == before_top_block(seqs(ls@), index as int),
{
    let ghost s = seqs(ls@);
    let mut i: usize = 0;
    while i < ls.len()
        invariant
            i <= ls@.len(),
            s == seqs(ls@),
            forall|j: int| 0 <= j < i ==> !is_top_line(#[trigger] s[j]),
        decreases ls@.len() - i,
    {
        if is_top_line_exec(ls[i].as_slice()) {
            proof {
                lemma_first_top(s, i as int);
            }
            return index < i;
        }
        i = i + 1;
    }
    proof {
        lemma_first_top(s, i as int);
    }
    false
}

fn is_inside_managed_block(ls: &Vec<Vec<char>>, index: usize) -> (b: bool)
    ensures
        b == inside_block(seqs(ls@), index as int),
{
    let ghost s = seqs(ls@);
    let mut inside = false;
    let mut i: usize = 0;
    while i < ls.len()
        invariant
            i <= ls@.len(),
            s == seqs(ls@),
            i <= index,
            inside == inside_after(s, i as nat),
        decreases ls@.len() - i,
    {
        if i == index {
            return inside;
        }
        let t = trim_vec(ls[i].as_slice());
        assert(s[i as int] == ls@[i as int]@);
        if is_block_begin_exec(t.as_slice()) {
            inside = true;
        } else if is_block_end_exec(t.as_slice()) {
            inside = false;
        }
        i = i + 1;
    }
    false
}

fn should_relocate_mcp_block(ls: &Vec<Vec<char>>, start: usize) -> (b: bool)
    ensures
        b == must_relocate(seqs(ls@), start as int),
{
    is_inside_managed_block(ls, start) || is_before_top_managed_block(ls, start)
}

/// A copy of `ls[a..b]`.
fn copy_lines(ls: &Vec<Vec<char>>, a: usize, b: usize) -> (out: Vec<Vec<char>>)
    requires
        a <= b <= ls@.len(),
    ensures
        seqs(out@) == seqs(ls@).subrange(a as int, b as int),
{
    let mut out: Vec<Vec<char>> = Vec::new();
    let mut i = a;
    while i < b
        invariant
            a <= i <= b <= ls@.len(),
            seqs(out@) == seqs(ls@).subrange(a as int, i as int),
        decreases b - i,
    {
        let line = copy_range(ls[i].as_slice(), 0, ls[i].len());
        assert(ls@[i as int]@.subrange(0, ls@[i as int]@.len() as int) =~= ls@[i as int]@);
        let ghost before = out@;
        out.push(line);
        assert(seqs(out@) =~= seqs(before).push(line@));
        assert(seqs(ls@).subrange(a as int, i + 1) =~= seqs(ls@).subrange(a as int, i as int).push(
            seqs(ls@)[i as int],
        ));
        i = i + 1;
    }
    out
}

/// Appends `ls[a..b]` to `out`.
fn extend_lines(out: &mut Vec<Vec<char>>, ls: &Vec<Vec<char>>, a: usize, b: usize)
    requires
        a <= b <= ls@.len(),
    ensures
        seqs(final(out)@) == seqs(old(out)@) + seqs(ls@).subrange(a as int, b as int),
{
    let ghost start = seqs(out@);
    let mut i = a;
    while i < b
        invariant
            a <= i <= b <= ls@.len(),
            seqs(out@) == start + seqs(ls@).subrange(a as int, i as int),
        decreases b - i,
    {
        let line = copy_range(ls[i].as_slice(), 0, ls[i].len());
        assert(ls@[i as int]@.subrange(0, ls@[i as int]@.len() as int) =~= ls@[i as int]@);
        let ghost before = out@;
        out.push(line);
        assert(seqs(out@) =~= seqs(before).push(line@));
        assert(seqs(ls@).subrange(a as int, i + 1) =~= seqs(ls@).subrange(a as int, i as int).push(
            seqs(ls@)[i as int],
        ));
        assert(start + seqs(ls@).subrange(a as int, i + 1) =~= (start + seqs(ls@).subrange(
            a as int,
            i as int,
        )).push(seqs(ls@)[i as int]));
        i = i + 1;
    }
}

/// Places rendered lines at the insertion point (`insert_mcp_block`).
fn insert_mcp_block(ls: &Vec<Vec<char>>, rendered: &Vec<Vec<char>>) -> (out: Vec<Vec<char>>)
    ensures
        seqs(out@) == insert_block(seqs(ls@), seqs(rendered@)),
{
    let ghost s = seqs(ls@);
    let p = find_insert_pos(ls);
    let mut q = p;
    while q > 0 && is_blank_exec(ls[q - 1].as_slice())
        invariant
            q <= p <= ls@.len(),
            s == seqs(ls@),
            blank_run_start(s, p as nat) == blank_run_start(s, q as nat),
        decreases q,
    {
        q = q - 1;
    }
    let mut out = copy_lines(ls, 0, q);
    let ghost head = seqs(out@);
    if q > 0 {
        out.push(Vec::new());
    }
    let ghost sep: Seq<Seq<char>> = if q > 0 {
        seq![Seq::<char>::empty()]
    } else {
        Seq::empty()
    };
    assert(seqs(out@) =~= head + sep);
    extend_lines(&mut out, rendered, 0, rendered.len());
    assert(seqs(rendered@).subrange(0, rendered@.len() as int) =~= seqs(rendered@));
    extend_lines(&mut out, ls, p, ls.len());
    out
}

// ---------------------------------------------------------------------------
// Where each server's entry lies
// ---------------------------------------------------------------------------
/// The view of a parsed section header.
pub open spec fn sec_view(o: Option<(Vec<char>, Option<Vec<char>>)>) -> Option<(Seq<char>, Option<Seq<char>>)> {
    match o {
        Some(p) => Some((p.0@, opt_view(p.1))),
        None => None,
    }
}

/// A line without its comment, trimmed.
pub open spec fn content_of(l: Seq<char>) -> Seq<char> {
    trim(strip_comment(l))
}

/// Whether a line's content is a section header `[...]`.
pub open spec fn is_header_line(l: Seq<char>) -> bool {
    let t = content_of(l);
    t.len() > 0 && t[0] == '[' && t.last() == ']'
}

/// The text inside a header line's brackets.
pub open spec fn header_inner(l: Seq<char>) -> Seq<char> {
    let t = content_of(l);
    t.subrange(1, t.len() - 1)
}

/// For a section header line, the MCP server and subsection it names (or
/// `None` inside when it names none); `None` for other lines.
pub open spec fn line_section(l: Seq<char>) -> Option<Option<(Seq<char>, Option<Seq<char>>)>> {
    if is_header_line(l) {
        Some(section_header(header_inner(l)))
    } else {
        None
    }
}

/// A header line that the header parser cannot slice (see `header_slices_badly`).
pub open spec fn line_slices_badly(l: Seq<char>) -> bool {
    is_header_line(l) && header_slices_badly(header_inner(l))
}

/// No header line of the configuration is one that the parser cannot slice.
pub open spec fn config_ok(ls: Seq<Seq<char>>) -> bool {
    forall|i: int| 0 <= i < ls.len() ==> !line_slices_badly(#[trigger] ls[i])
}

fn line_section_exec(l: &[char]) -> (r: Option<Option<(Vec<char>, Option<Vec<char>>)>>)
    requires
        !line_slices_badly(l@),
    ensures
        match r {
            Some(sec) => line_section(l@) == Some(sec_view(sec)),
            None => line_section(l@) is None,
        },
{
    let stripped = strip_toml_comment(l);
    let t = trim_vec(stripped.as_slice());
    let n = t.len();
    if n > 0 && t[0] == '[' && t[n - 1] == ']' {
        let inner = copy_range(t.as_slice(), 1, n - 1);
        match parse_section_header(inner.as_slice()) {
            Some(p) => Some(Some(p)),
            None => Some(None),
        }
    } else {
        None
    }
}

/// Whether the configuration text has no header line that the parser cannot slice.
pub fn mcp_config_is_parsable(text: &str) -> (b: bool)
    ensures
        b == config_ok(lines_of(text@)),
{
    let chars = chars_of(text);
    let ls = split_lines(chars.as_slice());
    let ghost s = seqs(ls@);
    let mut i: usize = 0;
    while i < ls.len()
        invariant
            i <= ls@.len(),
            s == seqs(ls@),
            s == lines_of(text@),
            forall|j: int| 0 <= j < i ==> !line_slices_badly(#[trigger] s[j]),
        decreases ls@.len() - i,
    {
        assert(s[i as int] == ls@[i as int]@);
        if header_line_slices_badly(ls[i].as_slice()) {
            return false;
        }
        i = i + 1;
    }
    true
}

fn header_line_slices_badly(l: &[char]) -> (b: bool)
    ensures
        b == line_slices_badly(l@),
{
    let stripped = strip_toml_comment(l);
    let t = trim_vec(stripped.as_slice());
    let n = t.len();
    if !(n > 0 && t[0] == '[' && t[n - 1] == ']') {
        return false;
    }
    let inner = copy_range(t.as_slice(), 1, n - 1);
    crate::toml_scan::header_slices_badly_exec(inner.as_slice())
}

/// The scan over lines that finds each server's entry: the ranges found so
/// far, and the server whose entry is open with the line where it started.
pub struct DocScan {
    pub blocks: Seq<(Seq<char>, (usize, usize))>,
    pub name: Option<Seq<char>>,
    pub start: usize,
}

pub open spec fn doc_step(st: DocScan, l: Seq<char>, i: usize) -> DocScan {
    match line_section(l) {
        None => st,
        Some(sec) => {
            let st1 = match st.name {
                Some(n) => if (match sec {
                    Some(p) => p.0 == n,
                    None => false,
                }) {
                    st
                } else {
                    DocScan { blocks: map_insert(st.blocks, n, (st.start, i)), name: None, start: st.start }
                },
                None => st,
            };
            match sec {
                Some(p) => if st1.name is None {
                    DocScan { name: Some(p.0), start: i, ..st1 }
                } else {
                    st1
                },
                None => st1,
            }
        },
    }
}

pub open spec fn doc_scan(ls: Seq<Seq<char>>, n: nat) -> DocScan
    decreases n,
{
    if n == 0 {
        DocScan { blocks: Seq::empty(), name: None, start: 0 }
    } else {
        doc_step(doc_scan(ls, (n - 1) as nat), ls[n - 1], (n - 1) as usize)
    }
}

/// Each server's entry as a range of lines `[start, end)`: from its first
/// header line up to the next header line of another table (the last range
/// found for a name wins).
pub open spec fn doc_blocks(ls: Seq<Seq<char>>) -> Seq<(Seq<char>, (usize, usize))> {
    let st = doc_scan(ls, ls.len());
    match st.name {
        Some(n) => map_insert(st.blocks, n, (st.start, ls.len() as usize)),
        None => st.blocks,
    }
}

/// Ranges that lie within `n` lines.
pub open spec fn ranges_within(b: Seq<(Seq<char>, (usize, usize))>, n: int) -> bool {
    forall|j: int| 0 <= j < b.len() ==> #[trigger] b[j].1.0 <= b[j].1.1 <= n
}

pub proof fn lemma_insert_range(b: Seq<(Seq<char>, (usize, usize))>, k: Seq<char>, r: (usize, usize), n: int)
    requires
        ranges_within(b, n),
        r.0 <= r.1 <= n,
    ensures
        ranges_within(map_insert(b, k, r), n),
{
    lemma_key_index_found(b, k);
    let m = map_insert(b, k, r);
    assert forall|j: int| 0 <= j < m.len() implies #[trigger] m[j].1.0 <= m[j].1.1 <= n by {
        if j < b.len() && m[j] == b[j] {
        }
    }
}

/// Finds each server's entry (`parse_mcp_document`).
fn parse_mcp_document(ls: &Vec<Vec<char>>) -> (blocks: Vec<(Vec<char>, (usize, usize))>)
    requires
        config_ok(seqs(ls@)),
    ensures
        keyed_view(blocks@) == doc_blocks(seqs(ls@)),
        ranges_within(keyed_view(blocks@), ls@.len() as int),
{
    let ghost s = seqs(ls@);
    let mut blocks: Vec<(Vec<char>, (usize, usize))> = Vec::new();
    let mut name: Option<Vec<char>> = None;
    let mut start: usize = 0;
    let mut i: usize = 0;
    assert(keyed_view(blocks@) =~= Seq::<(Seq<char>, (usize, usize))>::empty());
    while i < ls.len()
        invariant
            i <= ls@.len(),
            s == seqs(ls@),
            config_ok(s),
            doc_scan(s, i as nat) == (DocScan { blocks: keyed_view(blocks@), name: opt_view(name), start }),
            ranges_within(keyed_view(blocks@), i as int),
            name is Some ==> start < i,
        decreases ls@.len() - i,
    {
        assert(s[i as int] == ls@[i as int]@);
        assert(!line_slices_badly(s[i as int]));
        let sec = line_section_exec(ls[i].as_slice());
        match sec {
            None => {},
            Some(sec) => {
                let continues = match (&name, &sec) {
                    (Some(n), Some(p)) => eq_chars(p.0.as_slice(), n.as_slice()),
                    _ => false,
                };
                if !continues {
                    match name {
                        Some(n) => {
                            proof {
                                lemma_insert_range(keyed_view(blocks@), n@, (start, i), i as int);
                            }
                            keyed_insert(&mut blocks, n, (start, i));
                            name = None;
                        },
                        None => {},
                    }
                }
                match sec {
                    Some(p) => {
                        if name.is_none() {
                            name = Some(p.0);
                            start = i;
                        }
                    },
                    None => {},
                }
            },
        }
        proof {
            assert forall|j: int| 0 <= j < keyed_view(blocks@).len() implies #[trigger] keyed_view(
                blocks@,
            )[j].1.0 <= keyed_view(blocks@)[j].1.1 <= i + 1 by {}
        }
        i = i + 1;
    }
    match name {
        Some(n) => {
            proof {
                lemma_insert_range(keyed_view(blocks@), n@, (start, i), i as int);
            }
            keyed_insert(&mut blocks, n, (start, i));
        },
        None => {},
    }
    blocks
}

// ---------------------------------------------------------------------------
// Writing and removing entries
// ---------------------------------------------------------------------------
/// The configuration's lines with the server `name`'s entry replaced by
/// `rendered`: in place, unless the old entry sits inside a managed block or
/// above the top managed block, in which case it is removed and the new one
/// goes to the insertion point; new servers go to the insertion point.
pub open spec fn write_server_lines(ls: Seq<Seq<char>>, name: Seq<char>, rendered: Seq<Seq<char>>) -> Seq<Seq<char>> {
    match map_get(doc_blocks(ls), name) {
        Some(r) => if must_relocate(ls, r.0 as int) {
            insert_block(ls.subrange(0, r.0 as int) + ls.subrange(r.1 as int, ls.len() as int), rendered)
        } else {
            ls.subrange(0, r.0 as int) + rendered + ls.subrange(r.1 as int, ls.len() as int)
        },
        None => insert_block(ls, rendered),
    }
}

/// `ls` without trailing blank lines beyond the last one.
pub open spec fn drop_blank_tail(ls: Seq<Seq<char>>) -> Seq<Seq<char>>
    decreases ls.len(),
{
    if ls.len() >= 2 && is_blank(ls.last()) && is_blank(ls[ls.len() - 2]) {
        drop_blank_tail(ls.drop_last())
    } else {
        ls
    }
}

/// The configuration's lines without the server `name`'s entry, if it has one.
pub open spec fn remove_server_lines(ls: Seq<Seq<char>>, name: Seq<char>) -> Option<Seq<Seq<char>>> {
    match map_get(doc_blocks(ls), name) {
        Some(r) => Some(
            drop_blank_tail(ls.subrange(0, r.0 as int) + ls.subrange(r.1 as int, ls.len() as int)),
        ),
        None => None,
    }
}

fn write_server_lines_exec(ls: &Vec<Vec<char>>, name: &[char], rendered: &Vec<Vec<char>>) -> (out: Vec<Vec<char>>)
    requires
        config_ok(seqs(ls@)),
    ensures
        seqs(out@) == write_server_lines(seqs(ls@), name@, seqs(rendered@)),
{
    let ghost s = seqs(ls@);
    let blocks = parse_mcp_document(ls);
    match key_index_exec(&blocks, name) {
        Some(j) => {
            proof {
                lemma_key_index_found(keyed_view(blocks@), name@);
            }
            let (a, b) = blocks[j].1;
            assert(keyed_view(blocks@)[j as int].1 == (a, b));
            if should_relocate_mcp_block(ls, a) {
                let mut kept = copy_lines(ls, 0, a);
                extend_lines(&mut kept, ls, b, ls.len());
                insert_mcp_block(&kept, rendered)
            } else {
                let mut out = copy_lines(ls, 0, a);
                extend_lines(&mut out, rendered, 0, rendered.len());
                assert(seqs(rendered@).subrange(0, rendered@.len() as int) =~= seqs(rendered@));
                extend_lines(&mut out, ls, b, ls.len());
                out
            }
        },
        None => insert_mcp_block(ls, rendered),
    }
}

fn remove_server_lines_exec(ls: &Vec<Vec<char>>, name: &[char]) -> (out: Option<Vec<Vec<char>>>)
    requires
        config_ok(seqs(ls@)),
    ensures
        match out {
            Some(o) => remove_server_lines(seqs(ls@), name@) == Some(seqs(o@)),
            None => remove_server_lines(seqs(ls@), name@) is None,
        },
{
    let blocks = parse_mcp_document(ls);
    match key_index_exec(&blocks, name) {
        Some(j) => {
            proof {
                lemma_key_index_found(keyed_view(blocks@), name@);
            }
            let (a, b) = blocks[j].1;
            assert(keyed_view(blocks@)[j as int].1 == (a, b));
            let mut kept = copy_lines(ls, 0, a);
            extend_lines(&mut kept, ls, b, ls.len());
            let ghost full = seqs(kept@);
            while kept.len() >= 2 && is_blank_exec(kept[kept.len() - 1].as_slice()) && is_blank_exec(
                kept[kept.len() - 2].as_slice(),
            )
                invariant
                    drop_blank_tail(full) == drop_blank_tail(seqs(kept@)),
                decreases kept@.len(),
            {
                let ghost before = seqs(kept@);
                assert(before.last() == kept@[kept@.len() - 1]@);
                assert(before[before.len() - 2] == kept@[kept@.len() - 2]@);
                kept.pop();
                assert(seqs(kept@) =~= before.drop_last());
            }
            Some(kept)
        },
        None => None,
    }
}

// ---------------------------------------------------------------------------
// Rendering an entry
// ---------------------------------------------------------------------------
/// A TOML basic string holding `s`: backslashes and double quotes escaped,
/// double quotes around (`quote_toml`).
pub open spec fn quote(s: Seq<char>) -> Seq<char> {
    seq!['"'] + replace_char(replace_char(s, '\\', seq!['\\', '\\']), '"', seq!['\\', '"'])
        + seq!['"']
}

/// The items joined with `", "` between them.
pub open spec fn join_comma(items: Seq<Seq<char>>) -> Seq<char>
    decreases items.len(),
{
    if items.len() == 0 {
        Seq::empty()
    } else if items.len() == 1 {
        items[0]
    } else {
        join_comma(items.drop_last()) + seq![',', ' '] + items.last()
    }
}

/// The transport as it is written: unknown transports are written as stdio.
pub open spec fn transport_name(t: McpTransport) -> Seq<char> {
    match t {
        McpTransport::Http => "http"@,
        McpTransport::Sse => "sse"@,
        _ => "stdio"@,
    }
}

/// `key = "value"` lines for the pairs, in key order.
pub open spec fn pair_lines(pairs: Seq<(Seq<char>, Seq<char>)>) -> Seq<Seq<char>> {
    let sorted = sort_keyed(pairs);
    Seq::new(sorted.len(), |i: int| sorted[i].0 + " = "@ + quote(sorted[i].1))
}

/// A subtable of the entry: a blank line, its header, and its pairs; nothing
/// when there are no pairs.
pub open spec fn subtable_lines(header: Seq<char>, suffix: Seq<char>, pairs: Seq<(Seq<char>, Seq<char>)>) -> Seq<Seq<char>> {
    if pairs.len() == 0 {
        Seq::empty()
    } else {
        seq![Seq::<char>::empty(), "[mcp_servers."@ + header + suffix] + pair_lines(pairs)
    }
}

/// The lines that launch or reach the server: command and arguments for
/// stdio (and unknown) servers, the URL for HTTP and SSE servers; blank
/// commands and URLs are left out.
pub open spec fn launch_lines(v: McpServerView) -> Seq<Seq<char>> {
    match v.transport {
        McpTransport::Http | McpTransport::Sse => match v.url {
            Some(u) => if trim(u).len() > 0 {
                seq!["url = "@ + quote(u)]
            } else {
                Seq::empty()
            },
            None => Seq::empty(),
        },
        _ => {
            let cmd: Seq<Seq<char>> = match v.command {
                Some(c) => if trim(c).len() > 0 {
                    seq!["command = "@ + quote(c)]
                } else {
                    Seq::empty()
                },
                None => Seq::empty(),
            };
            let args: Seq<Seq<char>> = if v.args.len() > 0 {
                seq!["args = ["@ + join_comma(v.args.map_values(|a: Seq<char>| quote(a))) + "]"@]
            } else {
                Seq::empty()
            };
            cmd + args
        },
    }
}

/// The entry that the configuration holds for a server (`render_mcp_block`).
pub open spec fn render_lines(v: McpServerView) -> Seq<Seq<char>> {
    let header = quote(v.name);
    seq![
        "[mcp_servers."@ + header + "]"@,
        "enabled = "@ + (if v.enabled {
            "true"@
        } else {
            "false"@
        }),
        "transport = "@ + quote(transport_name(v.transport)),
    ] + launch_lines(v) + subtable_lines(header, ".env]"@, v.environment) + subtable_lines(
        header,
        ".headers]"@,
        v.headers,
    )
}

/// Escapes and quotes a value (`quote_toml`).
pub fn quote_toml(s: &[char]) -> (out: Vec<char>)
    ensures
        out@ == quote(s@),
{
    let bs: Vec<char> = vec!['\\', '\\'];
    let q: Vec<char> = vec!['\\', '"'];
    let once = replace_char_vec(s, '\\', bs.as_slice());
    let twice = replace_char_vec(once.as_slice(), '"', q.as_slice());
    let mut out: Vec<char> = vec!['"'];
    push_all(&mut out, twice.as_slice());
    out.push('"');
    assert(bs@ =~= seq!['\\', '\\']);
    assert(q@ =~= seq!['\\', '"']);
    assert(out@ =~= quote(s@));
    out
}

fn render_pairs(header: &[char], suffix: &str, pairs: &Vec<(String, String)>, out: &mut Vec<Vec<char>>)
    ensures
        seqs(final(out)@) == seqs(old(out)@) + subtable_lines(header@, suffix@, str_pairs(pairs@)),
{
    if pairs.len() == 0 {
        assert(seqs(out@) + Seq::<Seq<char>>::empty() =~= seqs(out@));
        return;
    }
    let ghost start = seqs(out@);
    let mut keyed: Vec<(Vec<char>, Vec<char>)> = Vec::new();
    let mut i: usize = 0;
    while i < pairs.len()
        invariant
            i <= pairs@.len(),
            keyed_view(keyed@) == str_pairs(pairs@).subrange(0, i as int),
        decreases pairs@.len() - i,
    {
        let k = chars_of(pairs[i].0.as_str());
        let v = chars_of(pairs[i].1.as_str());
        let ghost before = keyed@;
        keyed.push((k, v));
        assert(keyed_view(keyed@) =~= keyed_view(before).push((k@, v@)));
        assert(str_pairs(pairs@).subrange(0, i + 1) =~= str_pairs(pairs@).subrange(0, i as int).push(
            (pairs@[i as int].0@, pairs@[i as int].1@),
        ));
        i = i + 1;
        assert(keyed_view(keyed@) =~= str_pairs(pairs@).subrange(0, i as int));
    }
    assert(str_pairs(pairs@).subrange(0, pairs@.len() as int) =~= str_pairs(pairs@));
    let sorted = sort_by_key_exec(keyed);
    out.push(Vec::new());
    let mut h: Vec<char> = chars_of("[mcp_servers.");
    push_all(&mut h, header);
    push_str(&mut h, suffix);
    out.push(h);
    let ghost heads = seq![Seq::<char>::empty(), "[mcp_servers."@ + header@ + suffix@];
    assert(seqs(out@) =~= start + heads);
    let ghost ss = keyed_view(sorted@);
    let mut j: usize = 0;
    while j < sorted.len()
        invariant
            j <= sorted@.len(),
            ss == keyed_view(sorted@),
            ss == sort_keyed(str_pairs(pairs@)),
            seqs(out@) == start + heads + pair_lines(str_pairs(pairs@)).subrange(0, j as int),
        decreases sorted@.len() - j,
    {
        let mut line: Vec<char> = Vec::new();
        push_all(&mut line, sorted[j].0.as_slice());
        push_str(&mut line, " = ");
        let qv = quote_toml(sorted[j].1.as_slice());
        push_all(&mut line, qv.as_slice());
        let ghost before = seqs(out@);
        out.push(line);
        proof {
            assert(ss[j as int] == (sorted@[j as int].0@, sorted@[j as int].1@));
            assert(line@ == pair_lines(str_pairs(pairs@))[j as int]);
            assert(seqs(out@) =~= before.push(line@));
            assert(pair_lines(str_pairs(pairs@)).subrange(0, j + 1) =~= pair_lines(
                str_pairs(pairs@),
            ).subrange(0, j as int).push(line@));
        }
        j = j + 1;
    }
    assert(pair_lines(str_pairs(pairs@)).subrange(0, j as int) =~= pair_lines(str_pairs(pairs@)));
    assert(start + heads + pair_lines(str_pairs(pairs@)) =~= start + subtable_lines(
        header@,
        suffix@,
        str_pairs(pairs@),
    ));
}

fn push_line(out: &mut Vec<Vec<char>>, line: Vec<char>)
    ensures
        seqs(final(out)@) == seqs(old(out)@).push(line@),
{
    let ghost before = out@;
    out.push(line);
    assert(seqs(out@) =~= seqs(before).push(line@));
}

/// Renders a server's entry (`render_mcp_block`).
pub fn render_mcp_block(server: &McpServerSummary) -> (out: Vec<Vec<char>>)
    ensures
        seqs(out@) == render_lines(server@),
{
    let ghost v = server@;
    let name = chars_of(server.name.as_str());
    let header = quote_toml(name.as_slice());
    let mut out: Vec<Vec<char>> = Vec::new();
    let mut l1 = chars_of("[mcp_servers.");
    push_all(&mut l1, header.as_slice());
    push_str(&mut l1, "]");
    push_line(&mut out, l1);
    let mut l2 = chars_of("enabled = ");
    if server.enabled {
        push_str(&mut l2, "true");
    } else {
        push_str(&mut l2, "false");
    }
    push_line(&mut out, l2);
    let tname = match server.transport {
        McpTransport::Http => chars_of("http"),
        McpTransport::Sse => chars_of("sse"),
        _ => chars_of("stdio"),
    };
    let mut l3 = chars_of("transport = ");
    let qt = quote_toml(tname.as_slice());
    push_all(&mut l3, qt.as_slice());
    push_line(&mut out, l3);
    let ghost first3 = seqs(out@);
    assert(first3 =~= seq![
        "[mcp_servers."@ + header@ + "]"@,
        "enabled = "@ + (if v.enabled {
            "true"@
        } else {
            "false"@
        }),
        "transport = "@ + quote(transport_name(v.transport)),
    ]);
    match server.transport {
        McpTransport::Http | McpTransport::Sse => {
            match &server.url {
                Some(u) => {
                    let uc = chars_of(u.as_str());
                    let t = trim_vec(uc.as_slice());
                    if t.len() > 0 {
                        let mut l = chars_of("url = ");
                        let qu = quote_toml(uc.as_slice());
                        push_all(&mut l, qu.as_slice());
                        push_line(&mut out, l);
                    }
                },
                None => {},
            }
        },
        _ => {
            match &server.command {
                Some(c) => {
                    let cc = chars_of(c.as_str());
                    let t = trim_vec(cc.as_slice());
                    if t.len() > 0 {
                        let mut l = chars_of("command = ");
                        let qc = quote_toml(cc.as_slice());
                        push_all(&mut l, qc.as_slice());
                        push_line(&mut out, l);
                    }
                },
                None => {},
            }
            if server.args.len() > 0 {
                let ghost quoted = v.args.map_values(|a: Seq<char>| quote(a));
                let mut l = chars_of("args = [");
                let ghost base = l@;
                let mut i: usize = 0;
                while i < server.args.len()
                    invariant
                        i <= server.args@.len(),
                        v == server@,
                        quoted == v.args.map_values(|a: Seq<char>| quote(a)),
                        l@ == base + join_comma(quoted.subrange(0, i as int)),
                    decreases server.args@.len() - i,
                {
                    let ghost pre = quoted.subrange(0, i as int);
                    let ghost next = quoted.subrange(0, i + 1);
                    proof {
                        assert(next.drop_last() =~= pre);
                        assert(next.last() == quote(server.args@[i as int]@));
                    }
                    if i > 0 {
                        let sep: Vec<char> = vec![',', ' '];
                        assert(sep@ =~= seq![',', ' ']);
                        push_all(&mut l, sep.as_slice());
                    } else {
                        assert(join_comma(pre) =~= Seq::<char>::empty());
                    }
                    let a = chars_of(server.args[i].as_str());
                    let qa = quote_toml(a.as_slice());
                    push_all(&mut l, qa.as_slice());
                    i = i + 1;
                    proof {
                        if i == 1 {
                            assert(l@ =~= base + join_comma(next));
                        } else {
                            assert(l@ =~= base + join_comma(next));
                        }
                    }
                }
                assert(quoted.subrange(0, i as int) =~= quoted);
                push_str(&mut l, "]");
                push_line(&mut out, l);
            }
        },
    }
    let ghost after_launch = seqs(out@);
    assert(after_launch =~= first3 + launch_lines(v));
    render_pairs(header.as_slice(), ".env]", &server.environment, &mut out);
    render_pairs(header.as_slice(), ".headers]", &server.headers, &mut out);
    out
}

// ---------------------------------------------------------------------------
// Reading the servers
// ---------------------------------------------------------------------------
/// A server's settings as read so far.
pub struct ServerDraft {
    pub name: Seq<char>,
    pub transport: McpTransport,
    pub enabled: bool,
    pub command: Option<Seq<char>>,
    pub args: Seq<Seq<char>>,
    pub url: Option<Seq<char>>,
    pub headers: Seq<(Seq<char>, Seq<char>)>,
    pub environment: Seq<(Seq<char>, Seq<char>)>,
}

/// A server that has only been named: enabled, transport not yet known.
pub open spec fn new_draft(name: Seq<char>) -> ServerDraft {
    ServerDraft {
        name,
        transport: McpTransport::Unknown,
        enabled: true,
        command: None,
        args: Seq::empty(),
        url: None,
        headers: Seq::empty(),
        environment: Seq::empty(),
    }
}

/// The transport a `transport = ...` or `type = ...` value names.
pub open spec fn transport_of(value: Seq<char>) -> McpTransport {
    let l = lowercase(unquote(value));
    if l == "stdio"@ {
        McpTransport::Stdio
    } else if l == "http"@ {
        McpTransport::Http
    } else if l == "sse"@ {
        McpTransport::Sse
    } else {
        McpTransport::Unknown
    }
}

/// A server's settings after the line `key = value` in subsection `sub`.  A
/// command or a nonempty argument list makes an unknown transport stdio; a URL
/// makes it SSE when its lower-cased form contains `sse`, HTTP otherwise.
pub open spec fn apply_setting(d: ServerDraft, sub: Option<Seq<char>>, key: Seq<char>, value: Seq<char>) -> ServerDraft {
    match sub {
        None => if key == "transport"@ || key == "type"@ {
            ServerDraft { transport: transport_of(value), ..d }
        } else if key == "command"@ {
            ServerDraft {
                command: Some(unquote(value)),
                transport: if d.transport == McpTransport::Unknown {
                    McpTransport::Stdio
                } else {
                    d.transport
                },
                ..d
            }
        } else if key == "args"@ {
            let a = toml_array(value);
            ServerDraft {
                args: a,
                transport: if d.transport == McpTransport::Unknown && a.len() > 0 {
                    McpTransport::Stdio
                } else {
                    d.transport
                },
                ..d
            }
        } else if key == "url"@ {
            let u = unquote(value);
            ServerDraft {
                url: Some(u),
                transport: if d.transport == McpTransport::Unknown {
                    if contains(lowercase(u), "sse"@) {
                        McpTransport::Sse
                    } else {
                        McpTransport::Http
                    }
                } else {
                    d.transport
                },
                ..d
            }
        } else if key == "enabled"@ {
            ServerDraft { enabled: lowercase(value) == "true"@, ..d }
        } else {
            d
        },
        Some(s) => if s == "env"@ {
            ServerDraft { environment: map_insert(d.environment, key, unquote(value)), ..d }
        } else if s == "headers"@ {
            ServerDraft { headers: map_insert(d.headers, key, unquote(value)), ..d }
        } else {
            d
        },
    }
}

/// The scan over lines that reads the servers: the servers by name, in the
/// order of their first header, and the server and subsection being read.
pub struct ServersScan {
    pub drafts: Seq<(Seq<char>, ServerDraft)>,
    pub server: Option<Seq<char>>,
    pub sub: Option<Seq<char>>,
}

pub open spec fn servers_step(st: ServersScan, l: Seq<char>) -> ServersScan {
    match line_section(l) {
        Some(Some(p)) => ServersScan {
            drafts: if key_index(st.drafts, p.0) is Some {
                st.drafts
            } else {
                st.drafts.push((p.0, new_draft(p.0)))
            },
            server: Some(p.0),
            sub: p.1,
        },
        Some(None) => ServersScan { server: None, sub: None, ..st },
        None => match st.server {
            None => st,
            Some(sn) => {
                let t = content_of(l);
                match find_char(t, '=') {
                    None => st,
                    Some(eq) => {
                        let key = trim(t.subrange(0, eq));
                        let value = trim(t.subrange(eq + 1, t.len() as int));
                        match key_index(st.drafts, sn) {
                            None => st,
                            Some(j) => ServersScan {
                                drafts: st.drafts.update(
                                    j as int,
                                    (sn, apply_setting(st.drafts[j as int].1, st.sub, key, value)),
                                ),
                                ..st
                            },
                        }
                    },
                }
            },
        },
    }
}

pub open spec fn servers_scan(ls: Seq<Seq<char>>, n: nat) -> ServersScan
    decreases n,
{
    if n == 0 {
        ServersScan { drafts: Seq::empty(), server: None, sub: None }
    } else {
        servers_step(servers_scan(ls, (n - 1) as nat), ls[n - 1])
    }
}

/// The summary of a server read from the configuration at `source`.
pub open spec fn summary_of(d: ServerDraft, source: Seq<char>) -> McpServerView {
    McpServerView {
        name: d.name,
        transport: d.transport,
        enabled: d.enabled,
        source_path: source,
        command: d.command,
        args: d.args,
        url: d.url,
        headers: d.headers,
        environment: d.environment,
    }
}

/// The MCP servers that the configuration text defines, ordered by their
/// lower-cased names (`parse_mcp_servers`).
pub open spec fn parsed_servers(text: Seq<char>, source: Seq<char>) -> Seq<McpServerView> {
    let ls = lines_of(text);
    let ds = servers_scan(ls, ls.len()).drafts;
    let keyed = Seq::new(ds.len(), |i: int| (lowercase(ds[i].0), summary_of(ds[i].1, source)));
    let sorted = sort_keyed(keyed);
    Seq::new(sorted.len(), |i: int| sorted[i].1)
}

/// A server's settings while they are read.
pub struct Draft {
    pub name: Vec<char>,
    pub transport: McpTransport,
    pub enabled: bool,
    pub command: Option<Vec<char>>,
    pub args: Vec<Vec<char>>,
    pub url: Option<Vec<char>>,
    pub headers: Vec<(Vec<char>, Vec<char>)>,
    pub environment: Vec<(Vec<char>, Vec<char>)>,
}

impl View for Draft {
    type V = ServerDraft;

    open spec fn view(&self) -> ServerDraft {
        ServerDraft {
            name: self.name@,
            transport: self.transport,
            enabled: self.enabled,
            command: opt_view(self.command),
            args: seqs(self.args@),
            url: opt_view(self.url),
            headers: keyed_view(self.headers@),
            environment: keyed_view(self.environment@),
        }
    }
}

fn new_draft_exec(name: Vec<char>) -> (d: Draft)
    ensures
        d@ == new_draft(name@),
{
    let d = Draft {
        name,
        transport: McpTransport::Unknown,
        enabled: true,
        command: None,
        args: Vec::new(),
        url: None,
        headers: Vec::new(),
        environment: Vec::new(),
    };
    assert(seqs(d.args@) =~= Seq::<Seq<char>>::empty());
    assert(keyed_view(d.headers@) =~= Seq::<(Seq<char>, Seq<char>)>::empty());
    assert(keyed_view(d.environment@) =~= Seq::<(Seq<char>, Seq<char>)>::empty());
    d
}

fn is_lit(s: &[char], lit: &str) -> (b: bool)
    ensures
        b == (s@ == lit@),
{
    let l = chars_of(lit);
    eq_chars(s, l.as_slice())
}

fn transport_of_exec(value: &[char]) -> (t: McpTransport)
    ensures
        t == transport_of(value@),
{
    let u = unquote_toml(value);
    let l = to_lowercase_chars(u.as_slice());
    if is_lit(l.as_slice(), "stdio") {
        McpTransport::Stdio
    } else if is_lit(l.as_slice(), "http") {
        McpTransport::Http
    } else if is_lit(l.as_slice(), "sse") {
        McpTransport::Sse
    } else {
        McpTransport::Unknown
    }
}

fn apply_setting_exec(d: Draft, sub: &Option<Vec<char>>, key: &[char], value: &[char]) -> (out: Draft)
    ensures
        out@ == apply_setting(d@, opt_view(*sub), key@, value@),
{
    let mut d = d;
    match sub {
        None => {
            if is_lit(key, "transport") || is_lit(key, "type") {
                d.transport = transport_of_exec(value);
            } else if is_lit(key, "command") {
                d.command = Some(unquote_toml(value));
                if d.transport == McpTransport::Unknown {
                    d.transport = McpTransport::Stdio;
                }
            } else if is_lit(key, "args") {
                let a = parse_toml_array(value);
                if d.transport == McpTransport::Unknown && a.len() > 0 {
                    d.transport = McpTransport::Stdio;
                }
                d.args = a;
            } else if is_lit(key, "url") {
                let u = unquote_toml(value);
                if d.transport == McpTransport::Unknown {
                    let lu = to_lowercase_chars(u.as_slice());
                    let sse = chars_of("sse");
                    if contains_exec(lu.as_slice(), sse.as_slice()) {
                        d.transport = McpTransport::Sse;
                    } else {
                        d.transport = McpTransport::Http;
                    }
                }
                d.url = Some(u);
            } else if is_lit(key, "enabled") {
                let lv = to_lowercase_chars(value);
                d.enabled = is_lit(lv.as_slice(), "true");
            }
        },
        Some(s) => {
            if is_lit(s.as_slice(), "env") {
                let k = copy_range_all(key);
                let v = unquote_toml(value);
                keyed_insert(&mut d.environment, k, v);
            } else if is_lit(s.as_slice(), "headers") {
                let k = copy_range_all(key);
                let v = unquote_toml(value);
                keyed_insert(&mut d.headers, k, v);
            }
        },
    }
    d
}

fn clone_chars(v: &Vec<char>) -> (out: Vec<char>)
    ensures
        out@ == v@,
{
    copy_range_all(v.as_slice())
}

fn read_servers(ls: &Vec<Vec<char>>) -> (drafts: Vec<(Vec<char>, Draft)>)
    requires
        config_ok(seqs(ls@)),
    ensures
        keyed_view(drafts@) == servers_scan(seqs(ls@), ls@.len()).drafts,
{
    let ghost s = seqs(ls@);
    let mut drafts: Vec<(Vec<char>, Draft)> = Vec::new();
    let mut server: Option<Vec<char>> = None;
    let mut sub: Option<Vec<char>> = None;
    let mut i: usize = 0;
    assert(keyed_view(drafts@) =~= Seq::<(Seq<char>, ServerDraft)>::empty());
    while i < ls.len()
        invariant
            i <= ls@.len(),
            s == seqs(ls@),
            config_ok(s),
            servers_scan(s, i as nat) == (ServersScan {
                drafts: keyed_view(drafts@),
                server: opt_view(server),
                sub: opt_view(sub),
            }),
        decreases ls@.len() - i,
    {
        let ghost st = servers_scan(s, i as nat);
        assert(s[i as int] == ls@[i as int]@);
        assert(!line_slices_badly(s[i as int]));
        let line = ls[i].as_slice();
        match line_section_exec(line) {
            Some(Some(p)) => {
                let (n, psub) = p;
                match key_index_exec(&drafts, n.as_slice()) {
                    Some(_) => {},
                    None => {
                        let d = new_draft_exec(clone_chars(&n));
                        let ghost before = drafts@;
                        drafts.push((clone_chars(&n), d));
                        assert(keyed_view(drafts@) =~= keyed_view(before).push((n@, new_draft(n@))));
                    },
                }
                server = Some(n);
                sub = psub;
            },
            Some(None) => {
                server = None;
                sub = None;
            },
            None => {
                match &server {
                    None => {},
                    Some(sn) => {
                        let stripped = strip_toml_comment(line);
                        let t = trim_vec(stripped.as_slice());
                        match find_char_exec(t.as_slice(), '=') {
                            None => {},
                            Some(eq) => {
                                proof {
                                    crate::text::lemma_find_from(t@, seq!['='], 0);
                                    assert(crate::text::occurs_at(t@, seq!['='], eq as int));
                                    assert(eq + 1 <= t@.len());
                                }
                                let tl = t.len();
                                let kr = copy_range(t.as_slice(), 0, eq);
                                let key = trim_vec(kr.as_slice());
                                let vr = copy_range(t.as_slice(), eq + 1, tl);
                                let value = trim_vec(vr.as_slice());
                                match key_index_exec(&drafts, sn.as_slice()) {
                                    None => {},
                                    Some(j) => {
                                        proof {
                                            lemma_key_index_found(keyed_view(drafts@), sn@);
                                        }
                                        let ghost before = keyed_view(drafts@);
                                        let (dn, d) = drafts.remove(j);
                                        assert(before[j as int] == (dn@, d@));
                                        let nd = apply_setting_exec(d, &sub, key.as_slice(), value.as_slice());
                                        drafts.insert(j, (dn, nd));
                                        assert(keyed_view(drafts@) =~= before.update(
                                            j as int,
                                            (sn@, apply_setting(before[j as int].1, opt_view(sub), key@, value@)),
                                        ));
                                    },
                                }
                            },
                        }
                    },
                }
            },
        }
        i = i + 1;
    }
    drafts
}

fn strings_of(v: &Vec<Vec<char>>) -> (out: Vec<String>)
    ensures
        strs(out@) == seqs(v@),
{
    let mut out: Vec<String> = Vec::new();
    let mut i: usize = 0;
    while i < v.len()
        invariant
            i <= v@.len(),
            strs(out@) == seqs(v@).subrange(0, i as int),
        decreases v@.len() - i,
    {
        let ghost before = out@;
        out.push(string_of(v[i].as_slice()));
        assert(strs(out@) =~= strs(before).push(v@[i as int]@));
        assert(seqs(v@).subrange(0, i + 1) =~= seqs(v@).subrange(0, i as int).push(v@[i as int]@));
        i = i + 1;
    }
    assert(seqs(v@).subrange(0, v@.len() as int) =~= seqs(v@));
    out
}

fn string_pairs_of(v: &Vec<(Vec<char>, Vec<char>)>) -> (out: Vec<(String, String)>)
    ensures
        str_pairs(out@) == keyed_view(v@),
{
    let mut out: Vec<(String, String)> = Vec::new();
    let mut i: usize = 0;
    while i < v.len()
        invariant
            i <= v@.len(),
            str_pairs(out@) == keyed_view(v@).subrange(0, i as int),
        decreases v@.len() - i,
    {
        let ghost before = out@;
        out.push((string_of(v[i].0.as_slice()), string_of(v[i].1.as_slice())));
        assert(str_pairs(out@) =~= str_pairs(before).push((v@[i as int].0@, v@[i as int].1@)));
        assert(keyed_view(v@).subrange(0, i + 1) =~= keyed_view(v@).subrange(0, i as int).push(
            (v@[i as int].0@, v@[i as int].1@),
        ));
        i = i + 1;
    }
    assert(keyed_view(v@).subrange(0, v@.len() as int) =~= keyed_view(v@));
    out
}

fn opt_string_of(o: &Option<Vec<char>>) -> (out: Option<String>)
    ensures
        opt_str(out) == opt_view(*o),
{
    match o {
        Some(v) => Some(string_of(v.as_slice())),
        None => None,
    }
}

fn summary_of_exec(d: &Draft, source: &str) -> (out: McpServerSummary)
    ensures
        out@ == summary_of(d@, source@),
{
    McpServerSummary {
        name: string_of(d.name.as_slice()),
        transport: d.transport,
        enabled: d.enabled,
        source_path: string_of_str(source),
        command: opt_string_of(&d.command),
        args: strings_of(&d.args),
        url: opt_string_of(&d.url),
        headers: string_pairs_of(&d.headers),
        environment: string_pairs_of(&d.environment),
    }
}

fn string_of_str(s: &str) -> (out: String)
    ensures
        out@ == s@,
{
    let c = chars_of(s);
    string_of(c.as_slice())
}

/// Reads the MCP servers that a configuration text defines, ordered by their
/// lower-cased names (`parse_mcp_servers`).
pub fn parse_mcp_servers(text: &str, source_path: &str) -> (out: Vec<McpServerSummary>)
    requires
        config_ok(lines_of(text@)),
    ensures
        out@.len() == parsed_servers(text@, source_path@).len(),
        forall|i: int| 0 <= i < out@.len() ==> #[trigger] out@[i]@ == parsed_servers(text@, source_path@)[i],
{
    let chars = chars_of(text);
    let ls = split_lines(chars.as_slice());
    let drafts = read_servers(&ls);
    let ghost ds = keyed_view(drafts@);
    let ghost keyed_spec = Seq::new(ds.len(), |i: int| (lowercase(ds[i].0), summary_of(ds[i].1, source_path@)));
    let mut keyed: Vec<(Vec<char>, McpServerSummary)> = Vec::new();
    let mut i: usize = 0;
    while i < drafts.len()
        invariant
            i <= drafts@.len(),
            ds == keyed_view(drafts@),
            keyed_spec == Seq::new(ds.len(), |i: int| (lowercase(ds[i].0), summary_of(ds[i].1, source_path@))),
            keyed_view(keyed@) == keyed_spec.subrange(0, i as int),
        decreases drafts@.len() - i,
    {
        let key = to_lowercase_chars(drafts[i].0.as_slice());
        let sm = summary_of_exec(&drafts[i].1, source_path);
        let ghost before = keyed@;
        keyed.push((key, sm));
        assert(keyed_view(keyed@) =~= keyed_view(before).push((key@, sm@)));
        assert(keyed_spec.subrange(0, i + 1) =~= keyed_spec.subrange(0, i as int).push(keyed_spec[i as int]));
        i = i + 1;
    }
    assert(keyed_spec.subrange(0, drafts@.len() as int) =~= keyed_spec);
    let sorted = sort_by_key_exec(keyed);
    let ghost ss = keyed_view(sorted@);
    let mut rest = sorted;
    let mut out: Vec<McpServerSummary> = Vec::new();
    let ghost mut k: int = 0;
    proof {
        assert(keyed_view(rest@) =~= ss.subrange(0, ss.len() as int));
    }
    while rest.len() > 0
        invariant
            0 <= k <= ss.len(),
            keyed_view(rest@) == ss.subrange(k, ss.len() as int),
            out@.len() == k,
            forall|m: int| 0 <= m < k ==> #[trigger] out@[m]@ == ss[m].1,
        decreases rest@.len(),
    {
        let ghost r0 = rest@[0];
        proof {
            assert(keyed_view(rest@).len() == rest@.len());
            assert(keyed_view(rest@)[0] == (r0.0@, r0.1@));
            assert(ss.subrange(k, ss.len() as int)[0] == ss[k]);
        }
        let ghost old_rest = rest@;
        let (_, sm) = rest.remove(0);
        proof {
            assert(rest@ =~= old_rest.subrange(1, old_rest.len() as int));
            assert forall|j: int| 0 <= j < rest@.len() implies keyed_view(rest@)[j] == ss[k + 1 + j] by {
                assert(rest@[j] == old_rest[j + 1]);
                assert(keyed_view(old_rest)[j + 1] == ss.subrange(k, ss.len() as int)[j + 1]);
            }
            assert(keyed_view(rest@) =~= ss.subrange(k + 1, ss.len() as int));
        }
        out.push(sm);
        proof {
            k = k + 1;
        }
    }
    out
}

// ---------------------------------------------------------------------------
// Operations on the configuration text
// ---------------------------------------------------------------------------
/// The configuration text after `v`'s entry is written into it, as it is saved
/// (with a final newline).
pub open spec fn written_config(text: Seq<char>, v: McpServerView) -> Seq<char> {
    with_final_newline(join_lines(write_server_lines(lines_of(text), v.name, render_lines(v))))
}

/// The first server named `name`.
pub open spec fn find_named(ss: Seq<McpServerView>, name: Seq<char>) -> Option<McpServerView>
    decreases ss.len(),
{
    if ss.len() == 0 {
        None
    } else if ss[0].name == name {
        Some(ss[0])
    } else {
        find_named(ss.drop_first(), name)
    }
}

/// The message of the error for a server that the configuration lacks.
pub open spec fn not_found_message(name: Seq<char>) -> Seq<char> {
    "MCP server not found: "@ + name
}

fn not_found(name: &str) -> (e: CoreError)
    ensures
        e matches CoreError::NotFound(m) && m@ == not_found_message(name@),
{
    let mut m = chars_of("MCP server not found: ");
    push_str(&mut m, name);
    CoreError::NotFound(string_of(m.as_slice()))
}

/// A field-by-field copy of a server.
pub fn copy_summary(s: &McpServerSummary) -> (out: McpServerSummary)
    ensures
        out@ == s@,
{
    let mut args: Vec<String> = Vec::new();
    let mut i: usize = 0;
    while i < s.args.len()
        invariant
            i <= s.args@.len(),
            strs(args@) == strs(s.args@).subrange(0, i as int),
        decreases s.args@.len() - i,
    {
        let ghost before = args@;
        args.push(s.args[i].clone());
        assert(strs(args@) =~= strs(before).push(s.args@[i as int]@));
        assert(strs(s.args@).subrange(0, i + 1) =~= strs(s.args@).subrange(0, i as int).push(
            s.args@[i as int]@,
        ));
        i = i + 1;
    }
    assert(strs(s.args@).subrange(0, s.args@.len() as int) =~= strs(s.args@));
    McpServerSummary {
        name: s.name.clone(),
        transport: s.transport,
        enabled: s.enabled,
        source_path: s.source_path.clone(),
        command: copy_opt_string(&s.command),
        args,
        url: copy_opt_string(&s.url),
        headers: copy_pairs(&s.headers),
        environment: copy_pairs(&s.environment),
    }
}

fn copy_opt_string(o: &Option<String>) -> (out: Option<String>)
    ensures
        opt_str(out) == opt_str(*o),
{
    match o {
        Some(v) => Some(v.clone()),
        None => None,
    }
}

fn copy_pairs(v: &Vec<(String, String)>) -> (out: Vec<(String, String)>)
    ensures
        str_pairs(out@) == str_pairs(v@),
{
    let mut out: Vec<(String, String)> = Vec::new();
    let mut i: usize = 0;
    while i < v.len()
        invariant
            i <= v@.len(),
            str_pairs(out@) == str_pairs(v@).subrange(0, i as int),
        decreases v@.len() - i,
    {
        let ghost before = out@;
        out.push((v[i].0.clone(), v[i].1.clone()));
        assert(str_pairs(out@) =~= str_pairs(before).push((v@[i as int].0@, v@[i as int].1@)));
        assert(str_pairs(v@).subrange(0, i + 1) =~= str_pairs(v@).subrange(0, i as int).push(
            (v@[i as int].0@, v@[i as int].1@),
        ));
        i = i + 1;
    }
    assert(str_pairs(v@).subrange(0, v@.len() as int) =~= str_pairs(v@));
    out
}

fn find_named_exec(ss: &Vec<McpServerSummary>, name: &[char]) -> (r: Option<usize>)
    ensures
        match r {
            Some(j) => j < ss@.len() && find_named(Seq::new(ss@.len(), |i: int| ss@[i]@), name@)
                == Some(ss@[j as int]@),
            None => find_named(Seq::new(ss@.len(), |i: int| ss@[i]@), name@) is None,
        },
{
    let ghost vs = Seq::new(ss@.len(), |i: int| ss@[i]@);
    let mut i: usize = 0;
    assert(vs.subrange(0, vs.len() as int) =~= vs);
    while i < ss.len()
        invariant
            i <= ss@.len(),
            vs == Seq::new(ss@.len(), |i: int| ss@[i]@),
            find_named(vs, name@) == find_named(vs.subrange(i as int, vs.len() as int), name@),
        decreases ss@.len() - i,
    {
        let ghost rest = vs.subrange(i as int, vs.len() as int);
        assert(rest[0] == ss@[i as int]@);
        assert(rest.drop_first() =~= vs.subrange(i + 1, vs.len() as int));
        let n = chars_of(ss[i].name.as_str());
        if eq_chars(n.as_slice(), name) {
            return Some(i);
        }
        i = i + 1;
    }
    None
}

/// Writes a server's entry into the configuration text (`write_mcp_server`):
/// the returned text is what is saved.
pub fn write_mcp_server(config_text: &str, server: &McpServerSummary) -> (out: String)
    requires
        config_ok(lines_of(config_text@)),
    ensures
        out@ == written_config(config_text@, server@),
{
    let chars = chars_of(config_text);
    let ls = split_lines(chars.as_slice());
    let rendered = render_mcp_block(server);
    let name = chars_of(server.name.as_str());
    let updated = write_server_lines_exec(&ls, name.as_slice(), &rendered);
    let mut joined = join_with_newlines(updated.as_slice());
    ensure_final_newline(&mut joined);
    string_of(joined.as_slice())
}

/// Writes a server's entry and reads it back (`upsert_mcp_server`): the saved
/// text, and the server as the saved text defines it (the given server when
/// it cannot be found there).
pub fn upsert_mcp_server(config_text: &str, source_path: &str, server: &McpServerSummary) -> (r: (String, McpServerSummary))
    requires
        config_ok(lines_of(config_text@)),
        config_ok(lines_of(written_config(config_text@, server@))),
    ensures
        r.0@ == written_config(config_text@, server@),
        r.1@ == (match find_named(parsed_servers(r.0@, source_path@), server@.name) {
            Some(v) => v,
            None => server@,
        }),
{
    let text = write_mcp_server(config_text, server);
    let servers = parse_mcp_servers(text.as_str(), source_path);
    let ghost vs = Seq::new(servers@.len(), |i: int| servers@[i]@);
    assert(vs =~= parsed_servers(text@, source_path@));
    let name = chars_of(server.name.as_str());
    match find_named_exec(&servers, name.as_slice()) {
        Some(j) => {
            let found = copy_summary(&servers[j]);
            (text, found)
        },
        None => (text, copy_summary(server)),
    }
}

/// The server that a configuration defines under `name`, with `enabled` set.
pub open spec fn with_enabled(v: McpServerView, enabled: bool) -> McpServerView {
    McpServerView { enabled, ..v }
}

/// Turns a server on or off (`set_mcp_server_enabled`): the server must be
/// defined; its entry is rewritten with the new flag and read back.
pub fn set_mcp_server_enabled(config_text: &str, source_path: &str, name: &str, enabled: bool) -> (r: Result<(String, McpServerSummary), CoreError>)
    requires
        config_ok(lines_of(config_text@)),
        forall|v: McpServerView| find_named(parsed_servers(config_text@, source_path@), name@) == Some(v)
            ==> config_ok(lines_of(#[trigger] written_config(config_text@, with_enabled(v, enabled)))),
    ensures
        match find_named(parsed_servers(config_text@, source_path@), name@) {
            None => r matches Err(CoreError::NotFound(m)) && m@ == not_found_message(name@),
            Some(v) => r matches Ok(p) && p.0@ == written_config(config_text@, with_enabled(v, enabled))
                && p.1@ == (match find_named(parsed_servers(p.0@, source_path@), name@) {
                Some(w) => w,
                None => with_enabled(v, enabled),
            }),
        },
{
    let servers = parse_mcp_servers(config_text, source_path);
    let ghost vs = Seq::new(servers@.len(), |i: int| servers@[i]@);
    assert(vs =~= parsed_servers(config_text@, source_path@));
    let n = chars_of(name);
    match find_named_exec(&servers, n.as_slice()) {
        None => Err(not_found(name)),
        Some(j) => {
            let mut updated = copy_summary(&servers[j]);
            updated.enabled = enabled;
            assert(updated@ == with_enabled(servers@[j as int]@, enabled));
            proof {
                lemma_find_named_name(vs, name@);
            }
            assert(updated@.name == name@);
            Ok(upsert_mcp_server(config_text, source_path, &updated))
        },
    }
}

pub proof fn lemma_find_named_name(ss: Seq<McpServerView>, name: Seq<char>)
    ensures
        find_named(ss, name) matches Some(v) ==> v.name == name,
    decreases ss.len(),
{
    if ss.len() > 0 && ss[0].name != name {
        lemma_find_named_name(ss.drop_first(), name);
    }
}

/// Writes a server's entry and reads it back, where the configuration before
/// and after the write can be read: `None` when either holds a header line
/// that the reader cannot slice (where `upsert_mcp_server` may not be called),
/// otherwise what `upsert_mcp_server` returns.
pub fn try_upsert_mcp_server(config_text: &str, source_path: &str, server: &McpServerSummary) -> (r: Option<(String, McpServerSummary)>)
    ensures
        r is None <==> !(config_ok(lines_of(config_text@)) && config_ok(lines_of(written_config(config_text@, server@)))),
        r matches Some(p) ==> p.0@ == written_config(config_text@, server@) && p.1@ == (match find_named(
            parsed_servers(p.0@, source_path@),
            server@.name,
        ) {
            Some(v) => v,
            None => server@,
        }),
{
    if !mcp_config_is_parsable(config_text) {
        return None;
    }
    let written = write_mcp_server(config_text, server);
    if !mcp_config_is_parsable(written.as_str()) {
        return None;
    }
    Some(upsert_mcp_server(config_text, source_path, server))
}

/// Whether turning `name` on or off in the configuration can be done without
/// reading an unreadable configuration: the text before, and the text after
/// the write when the server is defined, have no header line that the reader
/// cannot slice.
pub open spec fn enabling_is_readable(config_text: Seq<char>, source_path: Seq<char>, name: Seq<char>, enabled: bool) -> bool {
    &&& config_ok(lines_of(config_text))
    &&& forall|v: McpServerView| find_named(parsed_servers(config_text, source_path), name) == Some(v)
        ==> config_ok(lines_of(#[trigger] written_config(config_text, with_enabled(v, enabled))))
}

/// Turns a server on or off where that can be done (`enabling_is_readable`):
/// `None` otherwise, and what `set_mcp_server_enabled` returns when it can.
pub fn try_set_mcp_server_enabled(config_text: &str, source_path: &str, name: &str, enabled: bool) -> (r: Option<Result<(String, McpServerSummary), CoreError>>)
    ensures
        r is None <==> !enabling_is_readable(config_text@, source_path@, name@, enabled),
        r matches Some(x) ==> match find_named(parsed_servers(config_text@, source_path@), name@) {
            None => x matches Err(CoreError::NotFound(m)) && m@ == not_found_message(name@),
            Some(v) => x matches Ok(p) && p.0@ == written_config(config_text@, with_enabled(v, enabled))
                && p.1@ == (match find_named(parsed_servers(p.0@, source_path@), name@) {
                Some(w) => w,
                None => with_enabled(v, enabled),
            }),
        },
{
    if !mcp_config_is_parsable(config_text) {
        return None;
    }
    let servers = parse_mcp_servers(config_text, source_path);
    let ghost vs = Seq::new(servers@.len(), |i: int| servers@[i]@);
    assert(vs =~= parsed_servers(config_text@, source_path@));
    let n = chars_of(name);
    match find_named_exec(&servers, n.as_slice()) {
        None => Some(set_mcp_server_enabled(config_text, source_path, name, enabled)),
        Some(j) => {
            let mut updated = copy_summary(&servers[j]);
            updated.enabled = enabled;
            assert(updated@ == with_enabled(servers@[j as int]@, enabled));
            let written = write_mcp_server(config_text, &updated);
            if !mcp_config_is_parsable(written.as_str()) {
                assert(!config_ok(lines_of(written_config(config_text@, with_enabled(vs[j as int], enabled)))));
                return None;
            }
            Some(set_mcp_server_enabled(config_text, source_path, name, enabled))
        },
    }
}

/// Removes a server's entry (`remove_mcp_server`): the server must have one;
/// the returned text is what is saved.
pub fn remove_mcp_server(config_text: &str, name: &str) -> (r: Result<String, CoreError>)
    requires
        config_ok(lines_of(config_text@)),
    ensures
        match remove_server_lines(lines_of(config_text@), name@) {
            None => r matches Err(CoreError::NotFound(m)) && m@ == not_found_message(name@),
            Some(ls) => r matches Ok(t) && t@ == with_final_newline(join_lines(ls)),
        },
{
    let chars = chars_of(config_text);
    let ls = split_lines(chars.as_slice());
    let n = chars_of(name);
    match remove_server_lines_exec(&ls, n.as_slice()) {
        None => Err(not_found(name)),
        Some(kept) => {
            let mut joined = join_with_newlines(kept.as_slice());
            ensure_final_newline(&mut joined);
            Ok(string_of(joined.as_slice()))
        },
    }
}

// ---------------------------------------------------------------------------
// Laws of reading the servers
// ---------------------------------------------------------------------------
/// The key of a `key = value` line.
pub open spec fn setting_key(l: Seq<char>) -> Seq<char> {
    let t = content_of(l);
    trim(t.subrange(0, find_char(t, '=')->0))
}

/// The value of a `key = value` line, unquoted.
pub open spec fn setting_value(l: Seq<char>) -> Seq<char> {
    let t = content_of(l);
    unquote(trim(t.subrange(find_char(t, '=')->0 + 1, t.len() as int)))
}

/// After a header line of a server's table, that server has a draft and is
/// the one being read, in the subsection the header names.
proof fn lemma_header_opens_server(st: ServersScan, h: Seq<char>, name: Seq<char>, sub: Option<Seq<char>>)
    requires
        line_section(h) == Some(Some((name, sub))),
    ensures
        servers_step(st, h).server == Some(name),
        servers_step(st, h).sub == sub,
        key_index(servers_step(st, h).drafts, name) is Some,
        key_index(st.drafts, name) is Some ==> servers_step(st, h).drafts == st.drafts,
{
    lemma_key_index_found(st.drafts, name);
    let st1 = servers_step(st, h);
    if key_index(st.drafts, name) is None {
        assert(st1.drafts == st.drafts.push((name, new_draft(name))));
        assert forall|m: int| 0 <= m < st.drafts.len() implies #[trigger] st1.drafts[m].0 != name by {
            assert(st1.drafts[m] == st.drafts[m]);
        }
        lemma_key_index(st1.drafts, name, st.drafts.len() as int);
    }
}

/// A `key = value` line read under a server's `headers` table lands in that
/// server's headers, and its environment is left as it was; one read under
/// its `env` table lands in its environment, and its headers are left as
/// they were.
pub proof fn law_subtable_settings_land_in_their_table(st: ServersScan, h: Seq<char>, l: Seq<char>, name: Seq<char>, sub: Seq<char>)
    requires
        line_section(h) == Some(Some((name, Some(sub)))),
        sub == "headers"@ || sub == "env"@,
        line_section(l) is None,
        find_char(content_of(l), '=') is Some,
    ensures
        ({
            let st1 = servers_step(st, h);
            let st2 = servers_step(st1, l);
            let j = key_index(st1.drafts, name)->0 as int;
            &&& key_index(st2.drafts, name) == key_index(st1.drafts, name)
            &&& sub == "headers"@ ==> map_get(st2.drafts[j].1.headers, setting_key(l)) == Some(setting_value(l))
                && st2.drafts[j].1.environment == st1.drafts[j].1.environment
            &&& sub == "env"@ ==> map_get(st2.drafts[j].1.environment, setting_key(l)) == Some(setting_value(l))
                && st2.drafts[j].1.headers == st1.drafts[j].1.headers
        }),
{
    lemma_header_opens_server(st, h, name, Some(sub));
    let st1 = servers_step(st, h);
    let st2 = servers_step(st1, l);
    lemma_key_index_found(st1.drafts, name);
    crate::sorting::lemma_key_index_first(st1.drafts, name);
    let j = key_index(st1.drafts, name)->0 as int;
    let d = st1.drafts[j].1;
    let nd = apply_setting(d, Some(sub), setting_key(l), trim(content_of(l).subrange(find_char(content_of(l), '=')->0 + 1, content_of(l).len() as int)));
    assert(st2.drafts == st1.drafts.update(j, (name, nd)));
    assert forall|m: int| 0 <= m < j implies #[trigger] st2.drafts[m].0 != name by {
        assert(st2.drafts[m] == st1.drafts[m]);
    }
    lemma_key_index(st2.drafts, name, j);
    reveal_strlit("headers");
    reveal_strlit("env");
    assert("headers"@.len() == 7 && "env"@.len() == 3);
    if sub == "headers"@ {
        assert(sub != "env"@);
        lemma_map_insert_get(d.headers, setting_key(l), setting_value(l));
    } else {
        lemma_map_insert_get(d.environment, setting_key(l), setting_value(l));
    }
}

} // verus!
