//! Installed Codex skills: what a `SKILL.md` says of its skill, the order in
//! which the skills are listed, and how their backups are named and ordered.
use vstd::prelude::*;
use crate::lines::{lines_of, seqs, split_lines};
use crate::models::{CoreError, InstalledSkillSummary, SkillBackupSummary};
use crate::sorting::{lex_le, lex_le_exec};
use crate::text::{
    chars_of, copy_range, eq_chars, lowercase, push_all, replace_char, replace_char_vec,
    starts_with, starts_with_exec, string_of, to_lowercase_chars, trim, trim_vec,
};

verus! {

// ---------------------------------------------------------------------------
// What SKILL.md says
// ---------------------------------------------------------------------------
/// `s` without its leading `#` and space characters.
pub open spec fn drop_heading_marks(s: Seq<char>) -> Seq<char>
    decreases s.len(),
{
    if s.len() > 0 && (s[0] == '#' || s[0] == ' ') {
        drop_heading_marks(s.drop_first())
    } else {
        s
    }
}

/// The heading text of a Markdown heading line, if the line is one with text.
pub open spec fn line_heading(line: Seq<char>) -> Option<Seq<char>> {
    let t = trim(line);
    if starts_with(t, seq!['#']) && drop_heading_marks(t).len() > 0 {
        Some(drop_heading_marks(t))
    } else {
        None
    }
}

/// The text of the first Markdown heading among the lines.
pub open spec fn first_heading(ls: Seq<Seq<char>>) -> Option<Seq<char>>
    decreases ls.len(),
{
    if ls.len() == 0 {
        None
    } else {
        match line_heading(ls[0]) {
            Some(h) => Some(h),
            None => first_heading(ls.drop_first()),
        }
    }
}

pub open spec fn opt_chars_view(o: Option<String>) -> Option<Seq<char>> {
    match o {
        Some(s) => Some(s@),
        None => None,
    }
}

fn drop_heading_marks_exec(s: &[char]) -> (out: Vec<char>)
    ensures
        out@ == drop_heading_marks(s@),
{
    let mut i: usize = 0;
    assert(s@.subrange(0, s@.len() as int) =~= s@);
    while i < s.len() && (s[i] == '#' || s[i] == ' ')
        invariant
            i <= s@.len(),
            drop_heading_marks(s@) == drop_heading_marks(s@.subrange(i as int, s@.len() as int)),
        decreases s@.len() - i,
    {
        assert(s@.subrange(i as int, s@.len() as int).drop_first() =~= s@.subrange(i as int + 1, s@.len() as int));
        i = i + 1;
    }
    copy_range(s, i, s.len())
}

/// The text of the first Markdown heading of a `SKILL.md` (`first_markdown_heading`).
pub fn first_markdown_heading(text: &str) -> (r: Option<String>)
    ensures
        opt_chars_view(r) == first_heading(lines_of(text@)),
{
    let c = chars_of(text);
    let ls = split_lines(c.as_slice());
    let ghost all = seqs(ls@);
    let hash: Vec<char> = vec!['#'];
    assert(hash@ =~= seq!['#']);
    let mut i: usize = 0;
    assert(all.subrange(0, all.len() as int) =~= all);
    while i < ls.len()
        invariant
            i <= ls@.len(),
            all == seqs(ls@),
            all == lines_of(text@),
            hash@ == seq!['#'],
            first_heading(all) == first_heading(all.subrange(i as int, all.len() as int)),
        decreases ls@.len() - i,
    {
        let ghost rest = all.subrange(i as int, all.len() as int);
        assert(rest.drop_first() =~= all.subrange(i as int + 1, all.len() as int));
        assert(rest[0] == ls@[i as int]@);
        let t = trim_vec(ls[i].as_slice());
        if starts_with_exec(t.as_slice(), hash.as_slice()) {
            let h = drop_heading_marks_exec(t.as_slice());
            if h.len() > 0 {
                return Some(string_of(h.as_slice()));
            }
        }
        i = i + 1;
    }
    None
}

/// The first line of the lines that says what the skill does: blank lines,
/// the front matter between `---` lines, headings, code fences and list items
/// are passed over (`in_front` tells whether the front matter is open).
pub open spec fn summary_scan(ls: Seq<Seq<char>>, in_front: bool) -> Option<Seq<char>>
    decreases ls.len(),
{
    if ls.len() == 0 {
        None
    } else {
        let t = trim(ls[0]);
        let rest = ls.drop_first();
        if t.len() == 0 {
            summary_scan(rest, in_front)
        } else if t == "---"@ {
            summary_scan(rest, !in_front)
        } else if in_front {
            summary_scan(rest, in_front)
        } else if starts_with(t, seq!['#']) || starts_with(t, "```"@) || starts_with(t, "- "@)
            || starts_with(t, "* "@) {
            summary_scan(rest, in_front)
        } else {
            Some(t)
        }
    }
}

/// The summary line of a `SKILL.md` (`first_skill_summary_line`).
pub fn first_skill_summary_line(text: &str) -> (r: Option<String>)
    ensures
        opt_chars_view(r) == summary_scan(lines_of(text@), false),
{
    let c = chars_of(text);
    let ls = split_lines(c.as_slice());
    let ghost all = seqs(ls@);
    let hash: Vec<char> = vec!['#'];
    assert(hash@ =~= seq!['#']);
    let fence = chars_of("```");
    let dash = chars_of("- ");
    let star = chars_of("* ");
    let rule = chars_of("---");
    let mut in_front = false;
    let mut i: usize = 0;
    assert(all.subrange(0, all.len() as int) =~= all);
    while i < ls.len()
        invariant
            i <= ls@.len(),
            all == seqs(ls@),
            all == lines_of(text@),
            hash@ == seq!['#'],
            fence@ == "```"@,
            dash@ == "- "@,
            star@ == "* "@,
            rule@ == "---"@,
            summary_scan(all, false) == summary_scan(all.subrange(i as int, all.len() as int), in_front),
        decreases ls@.len() - i,
    {
        let ghost rest = all.subrange(i as int, all.len() as int);
        assert(rest.drop_first() =~= all.subrange(i as int + 1, all.len() as int));
        assert(rest[0] == ls@[i as int]@);
        let t = trim_vec(ls[i].as_slice());
        if t.len() == 0 {
        } else if eq_chars(t.as_slice(), rule.as_slice()) {
            in_front = !in_front;
        } else if in_front {
        } else if starts_with_exec(t.as_slice(), hash.as_slice()) || starts_with_exec(t.as_slice(), fence.as_slice())
            || starts_with_exec(t.as_slice(), dash.as_slice()) || starts_with_exec(t.as_slice(), star.as_slice()) {
        } else {
            return Some(string_of(t.as_slice()));
        }
        i = i + 1;
    }
    None
}

/// The summary of a skill found in `directory_path` (`load_skill_summary`
/// once the `SKILL.md` is read): its id is its path relative to the skills
/// directory, its title the first heading and its summary the first line of
/// prose.
pub fn skill_summary_from(
    text: &str,
    name: String,
    relative_path: String,
    directory_path: String,
    skill_file_path: String,
    updated_at: Option<i64>,
) -> (s: InstalledSkillSummary)
    ensures
        s.id@ == relative_path@,
        s.name@ == name@,
        opt_chars_view(s.title) == first_heading(lines_of(text@)),
        opt_chars_view(s.summary) == summary_scan(lines_of(text@), false),
        s.relative_path@ == relative_path@,
        s.directory_path@ == directory_path@,
        s.skill_file_path@ == skill_file_path@,
        s.updated_at == updated_at,
{
    InstalledSkillSummary {
        id: relative_path.clone(),
        name,
        title: first_markdown_heading(text),
        summary: first_skill_summary_line(text),
        relative_path,
        directory_path,
        skill_file_path,
        updated_at,
    }
}

// ---------------------------------------------------------------------------
// The order of the list
// ---------------------------------------------------------------------------
/// When the skill was last changed, 0 when unknown.
pub open spec fn updated_or_zero(s: InstalledSkillSummary) -> int {
    match s.updated_at {
        Some(t) => t as int,
        None => 0,
    }
}

/// `a` may come before `b`: it changed later, or at the same time and its
/// lower-cased name sorts no later.
pub open spec fn skill_le(a: InstalledSkillSummary, b: InstalledSkillSummary) -> bool {
    updated_or_zero(a) > updated_or_zero(b) || (updated_or_zero(a) == updated_or_zero(b)
        && lex_le(lowercase(a.name@), lowercase(b.name@)))
}

/// `s` with `x` placed after every item that may come before it.
pub open spec fn insert_skill(s: Seq<InstalledSkillSummary>, x: InstalledSkillSummary) -> Seq<InstalledSkillSummary>
    decreases s.len(),
{
    if s.len() == 0 {
        seq![x]
    } else if !skill_le(s[0], x) {
        seq![x] + s
    } else {
        seq![s[0]] + insert_skill(s.drop_first(), x)
    }
}

/// The skills most recently changed first, then by lower-cased name, skills
/// that tie in their original order (a stable sort).
pub open spec fn sort_skills(s: Seq<InstalledSkillSummary>) -> Seq<InstalledSkillSummary>
    decreases s.len(),
{
    if s.len() == 0 {
        s
    } else {
        insert_skill(sort_skills(s.drop_last()), s.last())
    }
}

proof fn lemma_insert_skill_at(s: Seq<InstalledSkillSummary>, x: InstalledSkillSummary, k: int)
    requires
        0 <= k <= s.len(),
        forall|j: int| 0 <= j < k ==> skill_le(#[trigger] s[j], x),
        k == s.len() || !skill_le(s[k], x),
    ensures
        insert_skill(s, x) == s.subrange(0, k) + seq![x] + s.subrange(k, s.len() as int),
    decreases k,
{
    if k == 0 {
        assert(s.subrange(0, 0) + seq![x] + s.subrange(0, s.len() as int) =~= seq![x] + s);
        if s.len() == 0 {
            assert(seq![x] + s =~= seq![x]);
        }
    } else {
        let t = s.drop_first();
        assert forall|j: int| 0 <= j < k - 1 implies skill_le(#[trigger] t[j], x) by {
            assert(t[j] == s[j + 1]);
        }
        lemma_insert_skill_at(t, x, k - 1);
        assert(seq![s[0]] + (t.subrange(0, k - 1) + seq![x] + t.subrange(k - 1, t.len() as int))
            =~= s.subrange(0, k) + seq![x] + s.subrange(k, s.len() as int));
    }
}

fn skill_le_exec(a: &InstalledSkillSummary, a_low: &Vec<char>, b: &InstalledSkillSummary, b_low: &Vec<char>) -> (r: bool)
    requires
        a_low@ == lowercase(a.name@),
        b_low@ == lowercase(b.name@),
    ensures
        r == skill_le(*a, *b),
{
    let ua: i64 = match a.updated_at {
        Some(t) => t,
        None => 0,
    };
    let ub: i64 = match b.updated_at {
        Some(t) => t,
        None => 0,
    };
    ua > ub || (ua == ub && lex_le_exec(a_low.as_slice(), b_low.as_slice()))
}

/// What the scan of the skills directory does with an entry.
#[derive(Debug, Clone, Copy, PartialEq, Eq, Structural)]
pub enum SkillEntryAction {
    /// Passed over.
    Skip,
    /// A skill: its `SKILL.md` is read.
    Load,
    /// A directory of skills: it is scanned in turn.
    Descend,
}

/// The scan's choice for an entry (`scan_skills_recursive`): entries whose
/// name starts with a dot and entries that are not directories are passed
/// over; a directory holding a `SKILL.md` is a skill, and the scan does not
/// look inside it; any other directory is scanned.
pub open spec fn skill_entry_choice(name: Seq<char>, is_dir: bool, has_skill_file: bool) -> SkillEntryAction {
    if name.len() > 0 && name[0] == '.' {
        SkillEntryAction::Skip
    } else if !is_dir {
        SkillEntryAction::Skip
    } else if has_skill_file {
        SkillEntryAction::Load
    } else {
        SkillEntryAction::Descend
    }
}

/// What to do with an entry of the skills directory.
pub fn skill_entry_action(name: &str, is_dir: bool, has_skill_file: bool) -> (a: SkillEntryAction)
    ensures
        a == skill_entry_choice(name@, is_dir, has_skill_file),
{
    let n = chars_of(name);
    if n.len() > 0 && n[0] == '.' {
        SkillEntryAction::Skip
    } else if !is_dir {
        SkillEntryAction::Skip
    } else if has_skill_file {
        SkillEntryAction::Load
    } else {
        SkillEntryAction::Descend
    }
}

/// The installed skills as the list shows them (`load_installed_skills` once
/// the skills directory is scanned): none when the directory does not exist,
/// else the skills found, most recently changed first and then by lower-cased
/// name.
pub fn load_installed_skills(skills_dir_exists: bool, found: Vec<InstalledSkillSummary>) -> (r: Vec<InstalledSkillSummary>)
    ensures
        !skills_dir_exists ==> r@.len() == 0,
        skills_dir_exists ==> r@ == sort_skills(found@),
{
    if !skills_dir_exists {
        return Vec::new();
    }
    let ghost orig = found@;
    let mut rest = found;
    let mut out: Vec<InstalledSkillSummary> = Vec::new();
    let mut lows: Vec<Vec<char>> = Vec::new();
    let ghost mut i: int = 0;
    proof {
        assert(rest@ =~= orig.subrange(0, orig.len() as int));
        assert(orig.subrange(0, 0) =~= Seq::<InstalledSkillSummary>::empty());
        assert(out@ =~= Seq::<InstalledSkillSummary>::empty());
    }
    while rest.len() > 0
        invariant
            0 <= i <= orig.len(),
            rest@ == orig.subrange(i, orig.len() as int),
            out@ == sort_skills(orig.subrange(0, i)),
            lows@.len() == out@.len(),
            forall|j: int| 0 <= j < out@.len() ==> #[trigger] lows@[j]@ == lowercase(out@[j].name@),
        decreases rest@.len(),
    {
        proof {
            assert(orig.subrange(i, orig.len() as int)[0] == orig[i]);
        }
        let ghost old_rest = rest@;
        let x = rest.remove(0);
        proof {
            assert(rest@ =~= orig.subrange(i + 1, orig.len() as int));
            assert(orig.subrange(0, i + 1).drop_last() =~= orig.subrange(0, i));
        }
        let xc = chars_of(x.name.as_str());
        let x_low = to_lowercase_chars(xc.as_slice());
        let ghost s = out@;
        let mut k: usize = 0;
        while k < out.len() && skill_le_exec(&out[k], &lows[k], &x, &x_low)
            invariant
                k <= out@.len(),
                s == out@,
                lows@.len() == out@.len(),
                forall|j: int| 0 <= j < out@.len() ==> #[trigger] lows@[j]@ == lowercase(out@[j].name@),
                x_low@ == lowercase(x.name@),
                forall|j: int| 0 <= j < k ==> skill_le(#[trigger] s[j], x),
            decreases out@.len() - k,
        {
            k = k + 1;
        }
        proof {
            lemma_insert_skill_at(s, x, k as int);
        }
        let ghost old_lows = lows@;
        out.insert(k, x);
        lows.insert(k, x_low);
        proof {
            assert(out@ =~= s.subrange(0, k as int) + seq![x] + s.subrange(k as int, s.len() as int));
            assert forall|j: int| 0 <= j < out@.len() implies #[trigger] lows@[j]@ == lowercase(out@[j].name@) by {
                if j < k {
                    assert(lows@[j] == old_lows[j]);
                    assert(out@[j] == s[j]);
                } else if j > k {
                    assert(lows@[j] == old_lows[j - 1]);
                    assert(out@[j] == s[j - 1]);
                }
            }
            i = i + 1;
        }
    }
    proof {
        assert(orig.subrange(0, i) =~= orig);
    }
    out
}


// ---------------------------------------------------------------------------
// Skill backups
// ---------------------------------------------------------------------------
/// A backup's id: its time, the skill's relative path with each `/` written
/// `__`, the reason, and the first eight characters of a UUID, joined by
/// hyphens.
pub open spec fn backup_id(created_at: i64, relative_path: Seq<char>, reason: Seq<char>, uuid: Seq<char>) -> Seq<char> {
    crate::text::decimal(created_at as int) + seq!['-'] + replace_char(relative_path, '/', "__"@)
        + seq!['-'] + reason + seq!['-'] + uuid.subrange(0, 8)
}

/// Builds a backup id from a time, a relative path, a reason and a UUID.
pub fn skill_backup_id(created_at: i64, relative_path: &str, reason: &str, uuid: &str) -> (id: String)
    requires
        uuid@.len() >= 8,
    ensures
        id@ == backup_id(created_at, relative_path@, reason@, uuid@),
{
    let mut out = crate::text::decimal_i64(created_at);
    out.push('-');
    let under = chars_of("__");
    let safe = replace_char_vec(chars_of(relative_path).as_slice(), '/', under.as_slice());
    push_all(&mut out, safe.as_slice());
    out.push('-');
    push_all(&mut out, chars_of(reason).as_slice());
    out.push('-');
    let u = chars_of(uuid);
    crate::text::push_range(&mut out, u.as_slice(), 0, 8);
    string_of(out.as_slice())
}

/// A new backup id for the given time, path and reason, with eight characters
/// of a fresh random UUID.
pub fn new_skill_backup_id(created_at: i64, relative_path: &str, reason: &str) -> (id: String)
    ensures
        exists|u: Seq<char>| u.len() == 36 && id@ == backup_id(created_at, relative_path@, reason@, u),
{
    let u = crate::custom_instructions::fresh_uuid_string();
    skill_backup_id(created_at, relative_path, reason, u.as_str())
}

/// `s` with `x` placed after every backup made no later than it.
pub open spec fn insert_backup(s: Seq<SkillBackupSummary>, x: SkillBackupSummary) -> Seq<SkillBackupSummary>
    decreases s.len(),
{
    if s.len() == 0 {
        seq![x]
    } else if s[0].created_at < x.created_at {
        seq![x] + s
    } else {
        seq![s[0]] + insert_backup(s.drop_first(), x)
    }
}

/// Backups newest first; backups made in the same second keep their order
/// (a stable sort by descending time).
pub open spec fn backups_newest_first(s: Seq<SkillBackupSummary>) -> Seq<SkillBackupSummary>
    decreases s.len(),
{
    if s.len() == 0 {
        s
    } else {
        insert_backup(backups_newest_first(s.drop_last()), s.last())
    }
}

proof fn lemma_insert_backup_at(s: Seq<SkillBackupSummary>, x: SkillBackupSummary, k: int)
    requires
        0 <= k <= s.len(),
        forall|j: int| 0 <= j < k ==> !(#[trigger] s[j].created_at < x.created_at),
        k == s.len() || s[k].created_at < x.created_at,
    ensures
        insert_backup(s, x) == s.subrange(0, k) + seq![x] + s.subrange(k, s.len() as int),
    decreases k,
{
    if k == 0 {
        assert(s.subrange(0, 0) + seq![x] + s.subrange(0, s.len() as int) =~= seq![x] + s);
        if s.len() == 0 {
            assert(seq![x] + s =~= seq![x]);
        }
    } else {
        let t = s.drop_first();
        assert forall|j: int| 0 <= j < k - 1 implies !(#[trigger] t[j].created_at < x.created_at) by {
            assert(t[j] == s[j + 1]);
        }
        lemma_insert_backup_at(t, x, k - 1);
        assert(seq![s[0]] + (t.subrange(0, k - 1) + seq![x] + t.subrange(k - 1, t.len() as int))
            =~= s.subrange(0, k) + seq![x] + s.subrange(k, s.len() as int));
    }
}

/// Orders backups newest first (the order of `load_skill_backups`).
pub fn sort_backups_newest_first(v: Vec<SkillBackupSummary>) -> (out: Vec<SkillBackupSummary>)
    ensures
        out@ == backups_newest_first(v@),
{
    let ghost orig = v@;
    let mut rest = v;
    let mut out: Vec<SkillBackupSummary> = Vec::new();
    let ghost mut i: int = 0;
    proof {
        assert(rest@ =~= orig.subrange(0, orig.len() as int));
        assert(out@ =~= backups_newest_first(orig.subrange(0, 0)));
    }
    while rest.len() > 0
        invariant
            0 <= i <= orig.len(),
            rest@ == orig.subrange(i, orig.len() as int),
            out@ == backups_newest_first(orig.subrange(0, i)),
        decreases rest@.len(),
    {
        let ghost old_rest = rest@;
        let x = rest.remove(0);
        proof {
            assert(orig[i] == x);
            assert(rest@ =~= orig.subrange(i + 1, orig.len() as int));
            assert(orig.subrange(0, i + 1).drop_last() =~= orig.subrange(0, i));
        }
        let ghost s = out@;
        let mut k: usize = 0;
        while k < out.len() && !(out[k].created_at < x.created_at)
            invariant
                k <= out@.len(),
                s == out@,
                forall|j: int| 0 <= j < k ==> !(#[trigger] s[j].created_at < x.created_at),
            decreases out@.len() - k,
        {
            k = k + 1;
        }
        proof {
            lemma_insert_backup_at(s, x, k as int);
        }
        out.insert(k, x);
        proof {
            assert(out@ =~= s.subrange(0, k as int) + seq![x] + s.subrange(k as int, s.len() as int));
            i = i + 1;
        }
    }
    proof {
        assert(orig.subrange(0, i) =~= orig);
    }
    out
}

/// The installed skill with the given id, or the error for a missing one
/// (`remove_skill`).
pub fn find_installed_skill(installed: &Vec<InstalledSkillSummary>, id: &str) -> (r: Result<usize, CoreError>)
    ensures
        match r {
            Ok(i) => i < installed@.len() && installed@[i as int].id@ == id@ && forall|j: int|
                0 <= j < i ==> installed@[j].id@ != id@,
            Err(e) => (forall|j: int| 0 <= j < installed@.len() ==> installed@[j].id@ != id@)
                && (e matches CoreError::NotFound(m) && m@ == "Skill not found: "@ + id@),
        },
{
    let mut i: usize = 0;
    while i < installed.len()
        invariant
            i <= installed@.len(),
            forall|j: int| 0 <= j < i ==> installed@[j].id@ != id@,
        decreases installed@.len() - i,
    {
        if crate::text::eq_str(installed[i].id.as_str(), id) {
            return Ok(i);
        }
        i = i + 1;
    }
    let mut m = chars_of("Skill not found: ");
    push_all(&mut m, chars_of(id).as_slice());
    Err(CoreError::NotFound(string_of(m.as_slice())))
}

/// The error for a backup id that names no backup.
pub fn backup_not_found(backup_id: &str) -> (e: CoreError)
    ensures
        e matches CoreError::NotFound(m) && m@ == "Backup not found: "@ + backup_id@,
{
    let mut m = chars_of("Backup not found: ");
    push_all(&mut m, chars_of(backup_id).as_slice());
    CoreError::NotFound(string_of(m.as_slice()))
}

/// The error for a backup whose saved copy is gone.
pub fn backup_corrupted(backup_id: &str) -> (e: CoreError)
    ensures
        e matches CoreError::InvalidData(m) && m@ == "Backup corrupted: "@ + backup_id@,
{
    let mut m = chars_of("Backup corrupted: ");
    push_all(&mut m, chars_of(backup_id).as_slice());
    CoreError::InvalidData(string_of(m.as_slice()))
}

} // verus!
