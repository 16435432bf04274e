//! The block of custom instructions that the app manages inside the global
//! `AGENTS.md`: finding it, replacing its content, clearing it, and the
//! history of earlier file contents.
use vstd::prelude::*;
use crate::models::{
    opt_str, CoreError, CustomInstructionCurrentState, CustomInstructionHistoryAction,
    CustomInstructionHistoryEntry, CustomInstructionPreviewPayload,
    CustomInstructionProtectionState, CustomInstructionStatePayload,
};
use crate::text::{
    chars_of, contains, contains_exec, copy_range, ends_with, find_from, find_from_exec,
    lemma_find_from, lemma_trim_end_char_step, lemma_trim_start_char_step, occurs_at, push_all,
    push_str, string_of, trim, trim_char, trim_char_bounds, trim_end_char, trim_start_char,
    trim_vec,
};

verus! {

// ---------------------------------------------------------------------------
// Markers
// ---------------------------------------------------------------------------
pub open spec fn start_marker() -> Seq<char> {
    "<!-- AI_STRATEGIST_CUSTOM_INSTRUCTIONS_START -->"@
}

pub open spec fn end_marker() -> Seq<char> {
    "<!-- AI_STRATEGIST_CUSTOM_INSTRUCTIONS_END -->"@
}

pub open spec fn legacy_start_marker() -> Seq<char> {
    "<!-- AIMAMI_CUSTOM_INSTRUCTIONS_START -->"@
}

pub open spec fn legacy_end_marker() -> Seq<char> {
    "<!-- AIMAMI_CUSTOM_INSTRUCTIONS_END -->"@
}

pub proof fn lemma_marker_facts()
    ensures
        start_marker().len() == 48,
        end_marker().len() == 46,
        legacy_start_marker().len() > 0,
        legacy_end_marker().len() > 0,
        end_marker()[0] == '<',
        forall|k: int| 0 < k < start_marker().len() ==> start_marker()[k] != '<',
{
    reveal_strlit("<!-- AI_STRATEGIST_CUSTOM_INSTRUCTIONS_START -->");
    reveal_strlit("<!-- AI_STRATEGIST_CUSTOM_INSTRUCTIONS_END -->");
    reveal_strlit("<!-- AIMAMI_CUSTOM_INSTRUCTIONS_START -->");
    reveal_strlit("<!-- AIMAMI_CUSTOM_INSTRUCTIONS_END -->");
}

// ---------------------------------------------------------------------------
// Occurrences and replacement (`str::match_indices`, `str::replace`)
// ---------------------------------------------------------------------------
/// The start of each occurrence of `p` in `s` at or after `from`, scanning
/// left to right without overlaps.
pub open spec fn occurrences_from(s: Seq<char>, p: Seq<char>, from: int) -> Seq<int>
    decreases s.len() + 1 - from,
{
    if p.len() == 0 || from < 0 {
        Seq::empty()
    } else {
        match find_from(s, p, from) {
            None => Seq::empty(),
            Some(i) => {
                proof {
                    lemma_find_from(s, p, from);
                }
                seq![i] + occurrences_from(s, p, i + p.len())
            },
        }
    }
}

/// `s` from `from` on, with each occurrence of `p` replaced by `r`.
pub open spec fn replace_from(s: Seq<char>, p: Seq<char>, r: Seq<char>, from: int) -> Seq<char>
    decreases s.len() + 1 - from,
{
    if p.len() == 0 || from < 0 || from > s.len() {
        Seq::empty()
    } else {
        match find_from(s, p, from) {
            None => s.subrange(from, s.len() as int),
            Some(i) => {
                proof {
                    lemma_find_from(s, p, from);
                }
                s.subrange(from, i) + r + replace_from(s, p, r, i + p.len())
            },
        }
    }
}

/// `s` with each occurrence of `p` replaced by `r` (`str::replace`).
pub open spec fn replace_all(s: Seq<char>, p: Seq<char>, r: Seq<char>) -> Seq<char> {
    replace_from(s, p, r, 0)
}

fn occurrences(s: &[char], p: &[char]) -> (out: Vec<usize>)
    requires
        p@.len() > 0,
    ensures
        out@.len() == occurrences_from(s@, p@, 0).len(),
        forall|k: int| 0 <= k < out@.len() ==> out@[k] as int == #[trigger] occurrences_from(
            s@,
            p@,
            0,
        )[k],
{
    let mut out: Vec<usize> = Vec::new();
    let mut from: usize = 0;
    let ghost mut found: Seq<int> = Seq::empty();
    while from <= s.len()
        invariant
            p@.len() > 0,
            occurrences_from(s@, p@, 0) == found + occurrences_from(s@, p@, from as int),
            out@.len() == found.len(),
            forall|k: int| 0 <= k < out@.len() ==> out@[k] as int == #[trigger] found[k],
        decreases s@.len() + 1 - from,
    {
        match find_from_exec(s, p, from) {
            None => {
                assert(occurrences_from(s@, p@, from as int) =~= Seq::<int>::empty());
                assert(found + Seq::<int>::empty() =~= found);
                return out;
            },
            Some(i) => {
                proof {
                    lemma_find_from(s@, p@, from as int);
                    assert(found + (seq![i as int] + occurrences_from(s@, p@, i + p@.len()))
                        =~= found.push(i as int) + occurrences_from(s@, p@, i + p@.len()));
                    found = found.push(i as int);
                }
                out.push(i);
                from = i + p.len();
            },
        }
    }
    assert(occurrences_from(s@, p@, from as int) =~= Seq::<int>::empty()) by {
        assert(find_from(s@, p@, from as int) is None);
    }
    assert(found + Seq::<int>::empty() =~= found);
    out
}

pub(crate) fn replace_all_exec(s: &[char], p: &[char], r: &[char]) -> (out: Vec<char>)
    requires
        p@.len() > 0,
    ensures
        out@ == replace_all(s@, p@, r@),
{
    let mut out: Vec<char> = Vec::new();
    let mut from: usize = 0;
    while from <= s.len()
        invariant
            p@.len() > 0,
            from <= s@.len() + 1,
            replace_all(s@, p@, r@) == out@ + replace_from(s@, p@, r@, from as int),
        decreases s@.len() + 1 - from,
    {
        match find_from_exec(s, p, from) {
            None => {
                let ghost before = out@;
                crate::text::push_range(&mut out, s, from, s.len());
                return out;
            },
            Some(i) => {
                proof {
                    lemma_find_from(s@, p@, from as int);
                }
                let ghost before = out@;
                crate::text::push_range(&mut out, s, from, i);
                push_all(&mut out, r);
                assert(before + (s@.subrange(from as int, i as int) + r@ + replace_from(
                    s@,
                    p@,
                    r@,
                    i + p@.len(),
                )) =~= out@ + replace_from(s@, p@, r@, i + p@.len()));
                from = i + p.len();
            },
        }
    }
    assert(replace_from(s@, p@, r@, from as int) =~= Seq::<char>::empty());
    assert(out@ + Seq::<char>::empty() =~= out@);
    out
}

// ---------------------------------------------------------------------------
// The managed block
// ---------------------------------------------------------------------------
pub open spec fn duplicate_markers_message() -> Seq<char> {
    "检测到重复或不完整的 AI Strategist 自定义指令标记，请先手动修复全局 AGENTS 文件。"@
}

pub open spec fn misordered_markers_message() -> Seq<char> {
    "AI Strategist 自定义指令标记顺序异常，请先手动修复全局 AGENTS 文件。"@
}

/// What the global instructions file holds, as plain values.
pub struct ManagedBlockView {
    pub file_exists: bool,
    pub protection_state: CustomInstructionProtectionState,
    pub issue_message: Option<Seq<char>>,
    pub managed_block_present: bool,
    pub managed_content: Seq<char>,
    pub raw_content: Seq<char>,
    pub block: Option<(int, int)>,
}

/// The file's text with the legacy markers renamed.
pub open spec fn renamed_markers(text: Seq<char>) -> Seq<char> {
    replace_all(
        replace_all(text, legacy_start_marker(), start_marker()),
        legacy_end_marker(),
        end_marker(),
    )
}

/// How the file's text reads: no markers at all is unmanaged; anything but
/// exactly one start and one end marker, or an end before the start, is
/// protected; otherwise the content between the markers (without surrounding
/// newlines) is managed, and the block spans both markers.
pub open spec fn parse_managed(file_exists: bool, text: Seq<char>) -> ManagedBlockView {
    let raw = renamed_markers(text);
    let starts = occurrences_from(raw, start_marker(), 0);
    let ends = occurrences_from(raw, end_marker(), 0);
    let unmanaged = ManagedBlockView {
        file_exists,
        protection_state: CustomInstructionProtectionState::Unmanaged,
        issue_message: None,
        managed_block_present: false,
        managed_content: Seq::empty(),
        raw_content: raw,
        block: None,
    };
    if starts.len() == 0 && ends.len() == 0 {
        unmanaged
    } else if starts.len() != 1 || ends.len() != 1 {
        ManagedBlockView {
            protection_state: CustomInstructionProtectionState::Protected,
            issue_message: Some(duplicate_markers_message()),
            ..unmanaged
        }
    } else if ends[0] < starts[0] {
        ManagedBlockView {
            protection_state: CustomInstructionProtectionState::Protected,
            issue_message: Some(misordered_markers_message()),
            ..unmanaged
        }
    } else {
        ManagedBlockView {
            protection_state: CustomInstructionProtectionState::Ready,
            managed_block_present: true,
            managed_content: trim_char(
                raw.subrange(starts[0] + start_marker().len(), ends[0]),
                '\n',
            ),
            block: Some((starts[0], ends[0] + end_marker().len())),
            ..unmanaged
        }
    }
}

/// The parsed global instructions file.
pub struct ParsedManagedBlock {
    pub file_exists: bool,
    pub protection_state: CustomInstructionProtectionState,
    pub issue_message: Option<String>,
    pub managed_block_present: bool,
    pub managed_content: String,
    pub raw_content: Vec<char>,
    pub block_start: Option<usize>,
    pub block_end: Option<usize>,
}

impl View for ParsedManagedBlock {
    type V = ManagedBlockView;

    open spec fn view(&self) -> ManagedBlockView {
        ManagedBlockView {
            file_exists: self.file_exists,
            protection_state: self.protection_state,
            issue_message: opt_str(self.issue_message),
            managed_block_present: self.managed_block_present,
            managed_content: self.managed_content@,
            raw_content: self.raw_content@,
            block: match (self.block_start, self.block_end) {
                (Some(a), Some(b)) => Some((a as int, b as int)),
                _ => None,
            },
        }
    }
}

impl ParsedManagedBlock {
    /// The block, when there is one, lies within the text.
    pub open spec fn wf(&self) -> bool {
        &&& self.block_start is Some <==> self.block_end is Some
        &&& (self.block_start matches Some(a) ==> (self.block_end matches Some(b) ==> a <= b
            <= self.raw_content@.len()))
    }
}

/// An end marker cannot begin inside a start marker.
proof fn lemma_markers_disjoint(raw: Seq<char>, s: int, e: int)
    requires
        occurs_at(raw, start_marker(), s),
        occurs_at(raw, end_marker(), e),
        s <= e,
    ensures
        s + start_marker().len() <= e,
{
    lemma_marker_facts();
    if e < s + start_marker().len() {
        assert(raw.subrange(e, e + end_marker().len())[0] == end_marker()[0]);
        assert(raw[e] == '<');
        if e > s {
            assert(raw.subrange(s, s + start_marker().len())[e - s] == start_marker()[e - s]);
            assert(start_marker()[e - s] != '<');
        } else {
            reveal_strlit("<!-- AI_STRATEGIST_CUSTOM_INSTRUCTIONS_START -->");
            reveal_strlit("<!-- AI_STRATEGIST_CUSTOM_INSTRUCTIONS_END -->");
            assert(raw.subrange(s, s + start_marker().len())[39] == start_marker()[39]);
            assert(raw.subrange(e, e + end_marker().len())[39] == end_marker()[39]);
            assert(start_marker()[39] == 'S');
            assert(end_marker()[39] == 'E');
        }
    }
}

pub proof fn lemma_occurrence_found(s: Seq<char>, p: Seq<char>, from: int, k: int)
    requires
        0 <= from,
        0 <= k < occurrences_from(s, p, from).len(),
    ensures
        occurs_at(s, p, occurrences_from(s, p, from)[k]),
        from <= occurrences_from(s, p, from)[k],
    decreases s.len() + 1 - from,
{
    lemma_find_from(s, p, from);
    match find_from(s, p, from) {
        Some(i) => {
            if k > 0 {
                lemma_occurrence_found(s, p, i + p.len(), k - 1);
            }
        },
        None => {},
    }
}

/// Reads the global instructions file's text.
pub fn parse_global_text(file_exists: bool, text: &str) -> (p: ParsedManagedBlock)
    ensures
        p@ == parse_managed(file_exists, text@),
        p.wf(),
{
    proof {
        lemma_marker_facts();
    }
    let start = chars_of("<!-- AI_STRATEGIST_CUSTOM_INSTRUCTIONS_START -->");
    let end = chars_of("<!-- AI_STRATEGIST_CUSTOM_INSTRUCTIONS_END -->");
    let legacy_start = chars_of("<!-- AIMAMI_CUSTOM_INSTRUCTIONS_START -->");
    let legacy_end = chars_of("<!-- AIMAMI_CUSTOM_INSTRUCTIONS_END -->");
    let chars = chars_of(text);
    let once = replace_all_exec(chars.as_slice(), legacy_start.as_slice(), start.as_slice());
    let raw = replace_all_exec(once.as_slice(), legacy_end.as_slice(), end.as_slice());
    let starts = occurrences(raw.as_slice(), start.as_slice());
    let ends = occurrences(raw.as_slice(), end.as_slice());
    let ghost spec_starts = occurrences_from(raw@, start_marker(), 0);
    let ghost spec_ends = occurrences_from(raw@, end_marker(), 0);
    if starts.len() == 0 && ends.len() == 0 {
        return ParsedManagedBlock {
            file_exists,
            protection_state: CustomInstructionProtectionState::Unmanaged,
            issue_message: None,
            managed_block_present: false,
            managed_content: String::new(),
            raw_content: raw,
            block_start: None,
            block_end: None,
        };
    }
    if starts.len() != 1 || ends.len() != 1 {
        let m = chars_of(
            "检测到重复或不完整的 AI Strategist 自定义指令标记，请先手动修复全局 AGENTS 文件。",
        );
        return ParsedManagedBlock {
            file_exists,
            protection_state: CustomInstructionProtectionState::Protected,
            issue_message: Some(string_of(m.as_slice())),
            managed_block_present: false,
            managed_content: String::new(),
            raw_content: raw,
            block_start: None,
            block_end: None,
        };
    }
    let s = starts[0];
    let e = ends[0];
    assert(s as int == spec_starts[0]);
    assert(e as int == spec_ends[0]);
    if e < s {
        let m = chars_of("AI Strategist 自定义指令标记顺序异常，请先手动修复全局 AGENTS 文件。");
        return ParsedManagedBlock {
            file_exists,
            protection_state: CustomInstructionProtectionState::Protected,
            issue_message: Some(string_of(m.as_slice())),
            managed_block_present: false,
            managed_content: String::new(),
            raw_content: raw,
            block_start: None,
            block_end: None,
        };
    }
    proof {
        lemma_occurrence_found(raw@, start_marker(), 0, 0);
        lemma_occurrence_found(raw@, end_marker(), 0, 0);
        lemma_markers_disjoint(raw@, s as int, e as int);
    }
    let rl = raw.len();
    assert(e + end@.len() <= rl);
    let inner = copy_range(raw.as_slice(), s + start.len(), e);
    let (a, b) = trim_char_bounds(inner.as_slice(), '\n');
    let content = copy_range(inner.as_slice(), a, b);
    ParsedManagedBlock {
        file_exists,
        protection_state: CustomInstructionProtectionState::Ready,
        issue_message: None,
        managed_block_present: true,
        managed_content: string_of(content.as_slice()),
        raw_content: raw,
        block_start: Some(s),
        block_end: Some(e + end.len()),
    }
}

// ---------------------------------------------------------------------------
// Composing, clearing, validating
// ---------------------------------------------------------------------------
/// Content as it is stored: trimmed, without surrounding newlines.
pub open spec fn normalize_content(c: Seq<char>) -> Seq<char> {
    trim_char(trim(c), '\n')
}

/// The managed block holding `c` (with no line between the markers when `c` is empty).
pub open spec fn render_block(c: Seq<char>) -> Seq<char> {
    if c.len() == 0 {
        start_marker() + seq!['\n'] + end_marker() + seq!['\n']
    } else {
        start_marker() + seq!['\n'] + c + seq!['\n'] + end_marker() + seq!['\n']
    }
}

/// The file's next text with `content` as the managed content: the block is
/// replaced in place; a blank file becomes the block alone; otherwise the
/// block is appended after a blank line.
pub open spec fn compose_content(p: ManagedBlockView, content: Seq<char>) -> Seq<char> {
    let block = render_block(normalize_content(content));
    match p.block {
        Some((a, b)) => p.raw_content.subrange(0, a) + block + p.raw_content.subrange(
            b,
            p.raw_content.len() as int,
        ),
        None => if trim(p.raw_content).len() == 0 {
            block
        } else {
            let x = if ends_with(p.raw_content, seq!['\n']) {
                p.raw_content
            } else {
                p.raw_content.push('\n')
            };
            let y = if ends_with(x, seq!['\n', '\n']) {
                x
            } else {
                x.push('\n')
            };
            y + block
        },
    }
}

/// The file's next text without the managed block: the text before and after
/// it, newlines at the seam dropped and one blank line between them.
pub open spec fn cleared_content(p: ManagedBlockView) -> Seq<char> {
    match p.block {
        None => p.raw_content,
        Some((a, b)) => {
            let before = trim_end_char(p.raw_content.subrange(0, a), '\n');
            let after = trim_start_char(p.raw_content.subrange(b, p.raw_content.len() as int), '\n');
            if before.len() == 0 && after.len() == 0 {
                Seq::empty()
            } else if before.len() == 0 {
                after
            } else if after.len() == 0 {
                before.push('\n')
            } else {
                before + seq!['\n', '\n'] + after
            }
        },
    }
}

/// Content holds one of the markers.
pub open spec fn holds_marker(c: Seq<char>) -> bool {
    contains(c, start_marker()) || contains(c, end_marker()) || contains(c, legacy_start_marker())
        || contains(c, legacy_end_marker())
}

pub open spec fn marker_in_content_message() -> Seq<char> {
    "自定义指令内容不能包含 AI Strategist 受控区块标记。"@
}

pub open spec fn protected_fallback_message() -> Seq<char> {
    "Global AGENTS file is in protected mode"@
}

/// Stored form of content (`normalize_managed_content`).
pub fn normalize_managed_content(content: &str) -> (out: Vec<char>)
    ensures
        out@ == normalize_content(content@),
{
    let c = chars_of(content);
    let t = trim_vec(c.as_slice());
    let (a, b) = trim_char_bounds(t.as_slice(), '\n');
    copy_range(t.as_slice(), a, b)
}

/// The managed block around content (`render_managed_block`).
pub fn render_managed_block(content: &[char]) -> (out: Vec<char>)
    ensures
        out@ == render_block(content@),
{
    let mut out = chars_of("<!-- AI_STRATEGIST_CUSTOM_INSTRUCTIONS_START -->");
    out.push('\n');
    if content.len() > 0 {
        push_all(&mut out, content);
        out.push('\n');
    }
    push_str(&mut out, "<!-- AI_STRATEGIST_CUSTOM_INSTRUCTIONS_END -->");
    out.push('\n');
    out
}

/// Refuses content that holds a marker (`validate_managed_content`).
pub fn validate_managed_content(content: &str) -> (r: Result<(), CoreError>)
    ensures
        holds_marker(content@) ==> (r matches Err(CoreError::InvalidData(m)) && m@
            == marker_in_content_message()),
        !holds_marker(content@) ==> r is Ok,
{
    let c = chars_of(content);
    let m1 = chars_of("<!-- AI_STRATEGIST_CUSTOM_INSTRUCTIONS_START -->");
    let m2 = chars_of("<!-- AI_STRATEGIST_CUSTOM_INSTRUCTIONS_END -->");
    let m3 = chars_of("<!-- AIMAMI_CUSTOM_INSTRUCTIONS_START -->");
    let m4 = chars_of("<!-- AIMAMI_CUSTOM_INSTRUCTIONS_END -->");
    if contains_exec(c.as_slice(), m1.as_slice()) || contains_exec(c.as_slice(), m2.as_slice())
        || contains_exec(c.as_slice(), m3.as_slice()) || contains_exec(
        c.as_slice(),
        m4.as_slice(),
    ) {
        let m = chars_of("自定义指令内容不能包含 AI Strategist 受控区块标记。");
        return Err(CoreError::InvalidData(string_of(m.as_slice())));
    }
    Ok(())
}

/// The next file text with `content` managed (`compose_with_managed_content`).
pub fn compose_with_managed_content(p: &ParsedManagedBlock, content: &str) -> (out: Vec<char>)
    requires
        p.wf(),
    ensures
        out@ == compose_content(p@, content@),
{
    let normalized = normalize_managed_content(content);
    let block = render_managed_block(normalized.as_slice());
    match (p.block_start, p.block_end) {
        (Some(a), Some(b)) => {
            let mut next = copy_range(p.raw_content.as_slice(), 0, a);
            push_all(&mut next, block.as_slice());
            crate::text::push_range(&mut next, p.raw_content.as_slice(), b, p.raw_content.len());
            next
        },
        _ => {
            let t = trim_vec(p.raw_content.as_slice());
            if t.len() == 0 {
                return block;
            }
            let mut next = copy_range(p.raw_content.as_slice(), 0, p.raw_content.len());
            assert(p.raw_content@.subrange(0, p.raw_content@.len() as int) =~= p.raw_content@);
            let nl: Vec<char> = vec!['\n'];
            let nlnl: Vec<char> = vec!['\n', '\n'];
            assert(nl@ =~= seq!['\n']);
            assert(nlnl@ =~= seq!['\n', '\n']);
            if !crate::text::ends_with_exec(next.as_slice(), nl.as_slice()) {
                next.push('\n');
            }
            if !crate::text::ends_with_exec(next.as_slice(), nlnl.as_slice()) {
                next.push('\n');
            }
            push_all(&mut next, block.as_slice());
            next
        },
    }
}

/// The bound `j` such that `s[..j]` is `s` without trailing `c`s.
fn trim_end_char_len(s: &[char], c: char) -> (j: usize)
    ensures
        j <= s@.len(),
        trim_end_char(s@, c) == s@.subrange(0, j as int),
{
    let mut j = s.len();
    assert(s@.subrange(0, j as int) =~= s@);
    while j > 0 && s[j - 1] == c
        invariant
            j <= s@.len(),
            trim_end_char(s@, c) == trim_end_char(s@.subrange(0, j as int), c),
        decreases j,
    {
        proof {
            lemma_trim_end_char_step(s@, c, 0, j as int);
        }
        j = j - 1;
    }
    j
}

/// The bound `i` such that `s[i..]` is `s` without leading `c`s.
fn trim_start_char_len(s: &[char], c: char) -> (i: usize)
    ensures
        i <= s@.len(),
        trim_start_char(s@, c) == s@.subrange(i as int, s@.len() as int),
{
    let mut i: usize = 0;
    assert(s@.subrange(0, s@.len() as int) =~= s@);
    while i < s.len() && s[i] == c
        invariant
            i <= s@.len(),
            trim_start_char(s@, c) == trim_start_char(s@.subrange(i as int, s@.len() as int), c),
        decreases s@.len() - i,
    {
        proof {
            lemma_trim_start_char_step(s@, c, i as int);
        }
        i = i + 1;
    }
    i
}

/// The next file text without the managed block (`clear_managed_content`).
pub fn clear_managed_content(p: &ParsedManagedBlock) -> (out: Vec<char>)
    requires
        p.wf(),
    ensures
        out@ == cleared_content(p@),
{
    match (p.block_start, p.block_end) {
        (Some(a), Some(b)) => {
            let head = copy_range(p.raw_content.as_slice(), 0, a);
            let tail = copy_range(p.raw_content.as_slice(), b, p.raw_content.len());
            let hj = trim_end_char_len(head.as_slice(), '\n');
            let ti = trim_start_char_len(tail.as_slice(), '\n');
            let before = copy_range(head.as_slice(), 0, hj);
            let after = copy_range(tail.as_slice(), ti, tail.len());
            if before.len() == 0 && after.len() == 0 {
                Vec::new()
            } else if before.len() == 0 {
                after
            } else if after.len() == 0 {
                let mut out = before;
                out.push('\n');
                out
            } else {
                let mut out = before;
                out.push('\n');
                out.push('\n');
                push_all(&mut out, after.as_slice());
                assert(out@ =~= before@ + seq!['\n', '\n'] + after@);
                out
            }
        },
        _ => copy_range(p.raw_content.as_slice(), 0, p.raw_content.len()),
    }
}

// ---------------------------------------------------------------------------
// History
// ---------------------------------------------------------------------------
/// How many snapshots of earlier file contents are kept.
pub const HISTORY_LIMIT: usize = 10;

/// A snapshot of the file taken before a change.
#[derive(Debug, Clone, PartialEq)]
pub struct CustomInstructionHistorySnapshot {
    pub id: String,
    pub created_at: i64,
    pub action: CustomInstructionHistoryAction,
    pub source: String,
    pub template_code: Option<String>,
    pub template_title: Option<String>,
    pub full_content: String,
}

pub struct SnapshotView {
    pub id: Seq<char>,
    pub created_at: i64,
    pub action: CustomInstructionHistoryAction,
    pub source: Seq<char>,
    pub template_code: Option<Seq<char>>,
    pub template_title: Option<Seq<char>>,
    pub full_content: Seq<char>,
}

impl View for CustomInstructionHistorySnapshot {
    type V = SnapshotView;

    open spec fn view(&self) -> SnapshotView {
        SnapshotView {
            id: self.id@,
            created_at: self.created_at,
            action: self.action,
            source: self.source@,
            template_code: opt_str(self.template_code),
            template_title: opt_str(self.template_title),
            full_content: self.full_content@,
        }
    }
}

/// A history entry as plain values.
pub struct HistoryEntryView {
    pub id: Seq<char>,
    pub created_at: i64,
    pub action: CustomInstructionHistoryAction,
    pub source: Seq<char>,
    pub template_code: Option<Seq<char>>,
    pub template_title: Option<Seq<char>>,
}

pub open spec fn entry_view(e: CustomInstructionHistoryEntry) -> HistoryEntryView {
    HistoryEntryView {
        id: e.id@,
        created_at: e.created_at,
        action: e.action,
        source: e.source@,
        template_code: opt_str(e.template_code),
        template_title: opt_str(e.template_title),
    }
}

/// The entry that the history list shows for a snapshot.
pub open spec fn snapshot_entry(s: SnapshotView) -> HistoryEntryView {
    HistoryEntryView {
        id: s.id,
        created_at: s.created_at,
        action: s.action,
        source: s.source,
        template_code: s.template_code,
        template_title: s.template_title,
    }
}

fn copy_opt(o: &Option<String>) -> (out: Option<String>)
    ensures
        opt_str(out) == opt_str(*o),
{
    match o {
        Some(s) => Some(s.clone()),
        None => None,
    }
}

impl CustomInstructionHistorySnapshot {
    /// The entry that the history list shows (`to_entry`).
    pub fn to_entry(&self) -> (e: CustomInstructionHistoryEntry)
        ensures
            entry_view(e) == snapshot_entry(self@),
    {
        CustomInstructionHistoryEntry {
            id: self.id.clone(),
            created_at: self.created_at,
            action: self.action,
            source: self.source.clone(),
            template_code: copy_opt(&self.template_code),
            template_title: copy_opt(&self.template_title),
        }
    }
}

/// `s` with `x` placed after every snapshot that is not older than it.
pub open spec fn insert_by_time(s: Seq<SnapshotView>, x: SnapshotView) -> Seq<SnapshotView>
    decreases s.len(),
{
    if s.len() == 0 {
        seq![x]
    } else if s[0].created_at < x.created_at {
        seq![x] + s
    } else {
        seq![s[0]] + insert_by_time(s.drop_first(), x)
    }
}

/// Snapshots newest first; snapshots taken at the same second keep their
/// order (a stable sort by descending time).
pub open spec fn newest_first(s: Seq<SnapshotView>) -> Seq<SnapshotView>
    decreases s.len(),
{
    if s.len() == 0 {
        s
    } else {
        insert_by_time(newest_first(s.drop_last()), s.last())
    }
}

pub open spec fn snapshot_views(v: Seq<CustomInstructionHistorySnapshot>) -> Seq<SnapshotView> {
    Seq::new(v.len(), |i: int| v[i]@)
}

proof fn lemma_insert_by_time_at(s: Seq<SnapshotView>, x: SnapshotView, k: int)
    requires
        0 <= k <= s.len(),
        forall|j: int| 0 <= j < k ==> !(#[trigger] s[j].created_at < x.created_at),
        k == s.len() || s[k].created_at < x.created_at,
    ensures
        insert_by_time(s, x) == s.subrange(0, k) + seq![x] + s.subrange(k, s.len() as int),
    decreases k,
{
    if k == 0 {
        assert(s.subrange(0, 0) + seq![x] + s.subrange(0, s.len() as int) =~= seq![x] + s);
        if s.len() == 0 {
            assert(seq![x] + s =~= seq![x]);
        }
    } else {
        let t = s.drop_first();
        assert forall|j: int| 0 <= j < k - 1 implies !(#[trigger] t[j].created_at < x.created_at) by {
            assert(t[j] == s[j + 1]);
        }
        lemma_insert_by_time_at(t, x, k - 1);
        assert(seq![s[0]] + (t.subrange(0, k - 1) + seq![x] + t.subrange(k - 1, t.len() as int))
            =~= s.subrange(0, k) + seq![x] + s.subrange(k, s.len() as int));
    }
}

/// Orders snapshots newest first (the order of `load_history`).
pub fn sort_newest_first(v: Vec<CustomInstructionHistorySnapshot>) -> (out: Vec<CustomInstructionHistorySnapshot>)
    ensures
        snapshot_views(out@) == newest_first(snapshot_views(v@)),
{
    let ghost orig = snapshot_views(v@);
    let mut rest = v;
    let mut out: Vec<CustomInstructionHistorySnapshot> = Vec::new();
    let ghost mut i: int = 0;
    proof {
        assert(snapshot_views(rest@) =~= orig.subrange(0, orig.len() as int));
        assert(snapshot_views(out@) =~= newest_first(orig.subrange(0, 0)));
    }
    while rest.len() > 0
        invariant
            0 <= i <= orig.len(),
            snapshot_views(rest@) == orig.subrange(i, orig.len() as int),
            snapshot_views(out@) == newest_first(orig.subrange(0, i)),
        decreases rest@.len(),
    {
        proof {
            assert(snapshot_views(rest@).len() == rest@.len());
            assert(orig.subrange(i, orig.len() as int)[0] == orig[i]);
        }
        let ghost old_rest = rest@;
        let x = rest.remove(0);
        proof {
            assert(orig[i] == x@);
            assert(rest@ =~= old_rest.subrange(1, old_rest.len() as int));
            assert forall|j: int| 0 <= j < rest@.len() implies snapshot_views(rest@)[j] == orig[i
                + 1 + j] by {
                assert(rest@[j] == old_rest[j + 1]);
                assert(snapshot_views(old_rest)[j + 1] == orig.subrange(i, orig.len() as int)[j
                    + 1]);
            }
            assert(snapshot_views(rest@) =~= orig.subrange(i + 1, orig.len() as int));
            assert(orig.subrange(0, i + 1).drop_last() =~= orig.subrange(0, i));
        }
        let ghost s = snapshot_views(out@);
        let mut k: usize = 0;
        while k < out.len() && !(out[k].created_at < x.created_at)
            invariant
                k <= out@.len(),
                s == snapshot_views(out@),
                forall|j: int| 0 <= j < k ==> !(#[trigger] s[j].created_at < x.created_at),
            decreases out@.len() - k,
        {
            k = k + 1;
        }
        proof {
            lemma_insert_by_time_at(s, x@, k as int);
        }
        out.insert(k, x);
        proof {
            assert(snapshot_views(out@) =~= s.subrange(0, k as int) + seq![x@] + s.subrange(
                k as int,
                s.len() as int,
            ));
            i = i + 1;
        }
    }
    proof {
        assert(orig.subrange(0, i) =~= orig);
    }
    out
}

/// The ids of the snapshots beyond the newest `HISTORY_LIMIT`, which are
/// deleted.
pub open spec fn ids_beyond_limit(v: Seq<SnapshotView>) -> Seq<Seq<char>> {
    if v.len() <= 10 {
        Seq::empty()
    } else {
        let sorted = newest_first(v);
        Seq::new((v.len() - 10) as nat, |i: int| sorted[i + 10].id)
    }
}

/// Which snapshots to delete so that the newest ten remain.
pub fn history_ids_to_remove(items: Vec<CustomInstructionHistorySnapshot>) -> (ids: Vec<String>)
    ensures
        crate::models::strs(ids@) == ids_beyond_limit(snapshot_views(items@)),
{
    let n = items.len();
    if n <= HISTORY_LIMIT {
        let e: Vec<String> = Vec::new();
        assert(crate::models::strs(e@) =~= Seq::<Seq<char>>::empty());
        return e;
    }
    let sorted = sort_newest_first(items);
    let ghost ss = snapshot_views(sorted@);
    proof {
        lemma_newest_first_len(snapshot_views(items@));
        assert(snapshot_views(items@).len() == n);
    }
    let mut ids: Vec<String> = Vec::new();
    let mut i: usize = HISTORY_LIMIT;
    while i < sorted.len()
        invariant
            10 <= i <= sorted@.len(),
            sorted@.len() == n,
            ss == snapshot_views(sorted@),
            crate::models::strs(ids@) == Seq::new((i - 10) as nat, |j: int| ss[j + 10].id),
        decreases sorted@.len() - i,
    {
        let ghost before = ids@;
        let id = sorted[i].id.clone();
        ids.push(id);
        assert(crate::models::strs(ids@) =~= crate::models::strs(before).push(id@));
        assert(ss[i as int].id == id@);
        assert(crate::models::strs(ids@) =~= Seq::new((i + 1 - 10) as nat, |j: int| ss[j + 10].id));
        i = i + 1;
    }
    ids
}

pub proof fn lemma_newest_first_len(s: Seq<SnapshotView>)
    ensures
        newest_first(s).len() == s.len(),
    decreases s.len(),
{
    if s.len() > 0 {
        lemma_newest_first_len(s.drop_last());
        lemma_insert_by_time_len(newest_first(s.drop_last()), s.last());
    }
}

proof fn lemma_insert_by_time_len(s: Seq<SnapshotView>, x: SnapshotView)
    ensures
        insert_by_time(s, x).len() == s.len() + 1,
    decreases s.len(),
{
    if s.len() > 0 && !(s[0].created_at < x.created_at) {
        lemma_insert_by_time_len(s.drop_first(), x);
    }
}

/// A snapshot's id: its time, a hyphen, and the first eight characters of a
/// random UUID.
pub open spec fn snapshot_id(created_at: i64, uuid: Seq<char>) -> Seq<char> {
    crate::text::decimal(created_at as int) + seq!['-'] + uuid.subrange(0, 8)
}

/// Builds a snapshot id from a time and a UUID string.
pub fn history_snapshot_id(created_at: i64, uuid: &str) -> (id: String)
    requires
        uuid@.len() >= 8,
    ensures
        id@ == snapshot_id(created_at, uuid@),
{
    let mut out = crate::text::decimal_i64(created_at);
    out.push('-');
    let u = chars_of(uuid);
    crate::text::push_range(&mut out, u.as_slice(), 0, 8);
    string_of(out.as_slice())
}

/// A fresh random UUID (version 4) in its hyphenated form, which is 36 ASCII
/// characters long.  Which UUID comes back is left open.
#[verifier::external_body]
pub(crate) fn fresh_uuid_string() -> (s: String)
    ensures
        s@.len() == 36,
        forall|i: int| 0 <= i < 36 ==> (s@[i] as u32) < 128,
{
    uuid::Uuid::new_v4().to_string()
}

/// A new snapshot id for the given time: the time, a hyphen and eight
/// characters of a fresh random UUID.
pub fn new_history_snapshot_id(created_at: i64) -> (id: String)
    ensures
        exists|u: Seq<char>| u.len() == 36 && id@ == snapshot_id(created_at, u),
{
    let u = fresh_uuid_string();
    history_snapshot_id(created_at, u.as_str())
}

/// The source recorded for an apply: the given one, `one_click` by default.
pub fn apply_source(source: Option<String>) -> (s: String)
    ensures
        s@ == (match source {
            Some(x) => x@,
            None => "one_click"@,
        }),
{
    match source {
        Some(x) => x,
        None => {
            let c = chars_of("one_click");
            string_of(c.as_slice())
        },
    }
}

// ---------------------------------------------------------------------------
// Operations
// ---------------------------------------------------------------------------
/// What is to be done to the global instructions file.
#[derive(Debug, Clone, PartialEq)]
pub enum AgentsFileChange {
    Keep,
    Write(String),
    Remove,
}

/// The error for a protected file: its issue, or a generic message.
pub open spec fn protected_message(p: ManagedBlockView) -> Seq<char> {
    match p.issue_message {
        Some(m) => m,
        None => protected_fallback_message(),
    }
}

fn protected_error(p: &ParsedManagedBlock) -> (e: CoreError)
    ensures
        e matches CoreError::InvalidData(m) && m@ == protected_message(p@),
{
    match &p.issue_message {
        Some(m) => CoreError::InvalidData(m.clone()),
        None => {
            let c = chars_of("Global AGENTS file is in protected mode");
            CoreError::InvalidData(string_of(c.as_slice()))
        },
    }
}

/// The state that the instructions page shows (`load_state`): how the file
/// reads, and the history newest first, whose newest snapshot gives the last
/// apply's time and template.
pub fn load_state(global_path: &str, file_exists: bool, text: &str, history: Vec<CustomInstructionHistorySnapshot>) -> (r: CustomInstructionStatePayload)
    ensures
        ({
            let p = parse_managed(file_exists, text@);
            let h = newest_first(snapshot_views(history@));
            &&& r.current.global_path@ == global_path@
            &&& r.current.file_exists == file_exists
            &&& r.current.managed_block_present == p.managed_block_present
            &&& r.current.protection_state == p.protection_state
            &&& opt_str(r.current.issue_message) == p.issue_message
            &&& r.current.managed_content@ == p.managed_content
            &&& r.current.last_applied_at == (if h.len() > 0 {
                Some(h[0].created_at)
            } else {
                None
            })
            &&& opt_str(r.current.last_template_code) == (if h.len() > 0 {
                h[0].template_code
            } else {
                None
            })
            &&& opt_str(r.current.last_template_title) == (if h.len() > 0 {
                h[0].template_title
            } else {
                None
            })
            &&& r.history@.len() == h.len()
            &&& forall|i: int| 0 <= i < h.len() ==> entry_view(#[trigger] r.history@[i]) == snapshot_entry(h[i])
        }),
{
    let parsed = parse_global_text(file_exists, text);
    let sorted = sort_newest_first(history);
    let ghost h = snapshot_views(sorted@);
    let mut entries: Vec<CustomInstructionHistoryEntry> = Vec::new();
    let mut i: usize = 0;
    while i < sorted.len()
        invariant
            i <= sorted@.len(),
            h == snapshot_views(sorted@),
            entries@.len() == i,
            forall|j: int| 0 <= j < i ==> entry_view(#[trigger] entries@[j]) == snapshot_entry(h[j]),
        decreases sorted@.len() - i,
    {
        entries.push(sorted[i].to_entry());
        i = i + 1;
    }
    let (last_applied_at, last_template_code, last_template_title) = if sorted.len() > 0 {
        (Some(sorted[0].created_at), copy_opt(&sorted[0].template_code), copy_opt(&sorted[0].template_title))
    } else {
        (None, None, None)
    };
    let gp = chars_of(global_path);
    CustomInstructionStatePayload {
        current: CustomInstructionCurrentState {
            global_path: string_of(gp.as_slice()),
            file_exists,
            managed_block_present: parsed.managed_block_present,
            protection_state: parsed.protection_state,
            issue_message: parsed.issue_message,
            managed_content: parsed.managed_content,
            last_applied_at,
            last_template_code,
            last_template_title,
        },
        history: entries,
    }
}

/// What applying `content` would give (`preview_apply`): refused when the
/// content holds a marker or the file is protected.
pub fn preview_apply(global_path: &str, file_exists: bool, text: &str, content: &str) -> (r: Result<CustomInstructionPreviewPayload, CoreError>)
    ensures
        ({
            let p = parse_managed(file_exists, text@);
            if holds_marker(content@) {
                r matches Err(CoreError::InvalidData(m)) && m@ == marker_in_content_message()
            } else if p.protection_state == CustomInstructionProtectionState::Protected {
                r matches Err(CoreError::InvalidData(m)) && m@ == protected_message(p)
            } else {
                r matches Ok(v) && v.global_path@ == global_path@ && v.protection_state
                    == p.protection_state && opt_str(v.issue_message) == p.issue_message
                    && v.current_managed_content@ == p.managed_content && v.next_managed_content@
                    == normalize_content(content@) && v.resulting_content@ == compose_content(
                    p,
                    content@,
                )
            }
        }),
{
    match validate_managed_content(content) {
        Err(e) => {
            return Err(e);
        },
        Ok(()) => {},
    }
    let parsed = parse_global_text(file_exists, text);
    if parsed.protection_state == CustomInstructionProtectionState::Protected {
        return Err(protected_error(&parsed));
    }
    let resulting = compose_with_managed_content(&parsed, content);
    let next = normalize_managed_content(content);
    let gp = chars_of(global_path);
    Ok(CustomInstructionPreviewPayload {
        global_path: string_of(gp.as_slice()),
        protection_state: parsed.protection_state,
        issue_message: parsed.issue_message,
        current_managed_content: parsed.managed_content,
        next_managed_content: string_of(next.as_slice()),
        resulting_content: string_of(resulting.as_slice()),
    })
}

/// What applying `content` does to the file (`apply_managed_content`):
/// refused when the content holds a marker or the file is protected; the file
/// is kept when the text would not change, and otherwise written (after a
/// snapshot of the current text is saved).
pub fn apply_managed_content(file_exists: bool, text: &str, content: &str) -> (r: Result<AgentsFileChange, CoreError>)
    ensures
        ({
            let p = parse_managed(file_exists, text@);
            let next = compose_content(p, content@);
            if holds_marker(content@) {
                r matches Err(CoreError::InvalidData(m)) && m@ == marker_in_content_message()
            } else if p.protection_state == CustomInstructionProtectionState::Protected {
                r matches Err(CoreError::InvalidData(m)) && m@ == protected_message(p)
            } else if next == p.raw_content {
                r matches Ok(AgentsFileChange::Keep)
            } else {
                r matches Ok(AgentsFileChange::Write(t)) && t@ == next
            }
        }),
{
    match validate_managed_content(content) {
        Err(e) => {
            return Err(e);
        },
        Ok(()) => {},
    }
    let parsed = parse_global_text(file_exists, text);
    if parsed.protection_state == CustomInstructionProtectionState::Protected {
        return Err(protected_error(&parsed));
    }
    let next = compose_with_managed_content(&parsed, content);
    if crate::text::eq_chars(next.as_slice(), parsed.raw_content.as_slice()) {
        Ok(AgentsFileChange::Keep)
    } else {
        Ok(AgentsFileChange::Write(string_of(next.as_slice())))
    }
}

/// What clearing the managed block does to the file (`clear_managed_block`):
/// refused when the file is protected; kept when there is no block or nothing
/// would change; removed when nothing else remains; written otherwise.
pub fn clear_managed_block(file_exists: bool, text: &str) -> (r: Result<AgentsFileChange, CoreError>)
    ensures
        ({
            let p = parse_managed(file_exists, text@);
            let next = cleared_content(p);
            if p.protection_state == CustomInstructionProtectionState::Protected {
                r matches Err(CoreError::InvalidData(m)) && m@ == protected_message(p)
            } else if !p.managed_block_present || next == p.raw_content {
                r matches Ok(AgentsFileChange::Keep)
            } else if next.len() == 0 {
                r matches Ok(AgentsFileChange::Remove)
            } else {
                r matches Ok(AgentsFileChange::Write(t)) && t@ == next
            }
        }),
{
    let parsed = parse_global_text(file_exists, text);
    if parsed.protection_state == CustomInstructionProtectionState::Protected {
        return Err(protected_error(&parsed));
    }
    if !parsed.managed_block_present {
        return Ok(AgentsFileChange::Keep);
    }
    let cleared = clear_managed_content(&parsed);
    if crate::text::eq_chars(cleared.as_slice(), parsed.raw_content.as_slice()) {
        return Ok(AgentsFileChange::Keep);
    }
    if cleared.len() == 0 {
        Ok(AgentsFileChange::Remove)
    } else {
        Ok(AgentsFileChange::Write(string_of(cleared.as_slice())))
    }
}

pub open spec fn history_not_found_message(id: Seq<char>) -> Seq<char> {
    "History entry not found: "@ + id
}

/// What rolling back to a snapshot does to the file (`rollback_history`):
/// the snapshot must exist; its content is written back, or the file removed
/// when the content is empty.
pub fn rollback_history(snapshot: Option<&CustomInstructionHistorySnapshot>, history_id: &str) -> (r: Result<AgentsFileChange, CoreError>)
    ensures
        match snapshot {
            None => r matches Err(CoreError::NotFound(m)) && m@ == history_not_found_message(history_id@),
            Some(s) => if s.full_content@.len() == 0 {
                r matches Ok(AgentsFileChange::Remove)
            } else {
                r matches Ok(AgentsFileChange::Write(t)) && t@ == s.full_content@
            },
        },
{
    match snapshot {
        None => {
            let mut m = chars_of("History entry not found: ");
            push_str(&mut m, history_id);
            Err(CoreError::NotFound(string_of(m.as_slice())))
        },
        Some(s) => {
            let c = chars_of(s.full_content.as_str());
            if c.len() == 0 {
                Ok(AgentsFileChange::Remove)
            } else {
                Ok(AgentsFileChange::Write(s.full_content.clone()))
            }
        },
    }
}

} // verus!
