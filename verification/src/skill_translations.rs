//! Chinese translations of skill summaries: which summaries need one, the
//! cache of translations keyed by skill, and what the translation service's
//! answers come to.
use vstd::prelude::*;
use vstd::string::StringExecFns;
use sha2::Digest;
use crate::auth::current_timestamp;
use crate::models::{
    CoreError, SkillTranslationCachePayload, SkillTranslationEntry, SkillTranslationPayload,
    SkillTranslationRequestItem,
};
use crate::sorting::{key_index, lemma_key_index, lemma_key_index_found, map_insert};
use crate::text::{chars_of, copy_range, decimal, decimal_i64, push_all, push_str, string_of, trim, trim_end, trim_vec};
use crate::toml_scan::{utf8_len, utf8_width, utf8_width_exec};

verus! {

// ---------------------------------------------------------------------------
// Which summaries need a translation
// ---------------------------------------------------------------------------
pub open spec fn is_ascii_alpha(c: char) -> bool {
    ('a' <= c && c <= 'z') || ('A' <= c && c <= 'Z')
}

pub open spec fn is_cjk(c: char) -> bool {
    '\u{4e00}' <= c && c <= '\u{9fff}'
}

/// The number of ASCII letters in `s`.
pub open spec fn ascii_letters(s: Seq<char>) -> nat
    decreases s.len(),
{
    if s.len() == 0 {
        0
    } else {
        ascii_letters(s.drop_last()) + if is_ascii_alpha(s.last()) {
            1nat
        } else {
            0nat
        }
    }
}

/// The number of CJK unified ideographs in `s`.
pub open spec fn cjk_chars(s: Seq<char>) -> nat
    decreases s.len(),
{
    if s.len() == 0 {
        0
    } else {
        cjk_chars(s.drop_last()) + if is_cjk(s.last()) {
            1nat
        } else {
            0nat
        }
    }
}

/// Whether a summary is mostly English and so worth translating: at least
/// twelve ASCII letters, and more than twice as many as CJK ideographs (the
/// doubled count saturating at `usize::MAX`).
pub open spec fn needs_zh(s: Seq<char>) -> bool {
    let doubled = if 2 * cjk_chars(s) > usize::MAX {
        usize::MAX as int
    } else {
        (2 * cjk_chars(s)) as int
    };
    ascii_letters(s) >= 12 && ascii_letters(s) > doubled
}

proof fn lemma_counts_bound(s: Seq<char>)
    ensures
        ascii_letters(s) <= s.len(),
        cjk_chars(s) <= s.len(),
    decreases s.len(),
{
    if s.len() > 0 {
        lemma_counts_bound(s.drop_last());
    }
}

/// Whether a summary is worth translating (`needs_zh_translation`).
pub fn needs_zh_translation(text: &[char]) -> (b: bool)
    ensures
        b == needs_zh(text@),
{
    let mut letters: usize = 0;
    let mut cjk: usize = 0;
    let mut i: usize = 0;
    while i < text.len()
        invariant
            i <= text@.len(),
            letters == ascii_letters(text@.take(i as int)),
            cjk == cjk_chars(text@.take(i as int)),
        decreases text@.len() - i,
    {
        proof {
            assert(text@.take(i as int + 1).drop_last() =~= text@.take(i as int));
            lemma_counts_bound(text@.take(i as int));
        }
        let c = text[i];
        if ('a' <= c && c <= 'z') || ('A' <= c && c <= 'Z') {
            letters = letters + 1;
        } else if '\u{4e00}' <= c && c <= '\u{9fff}' {
            cjk = cjk + 1;
        }
        i = i + 1;
    }
    assert(text@.take(text@.len() as int) =~= text@);
    let doubled: usize = if cjk > usize::MAX / 2 {
        usize::MAX
    } else {
        cjk * 2
    };
    letters >= 12 && letters > doubled
}

// ---------------------------------------------------------------------------
// The text sent for translation
// ---------------------------------------------------------------------------
/// The number of leading characters of `s` whose UTF-8 encoding fits in `budget` bytes.
pub open spec fn fit_prefix(s: Seq<char>, budget: int) -> nat
    decreases s.len(),
{
    if s.len() == 0 || utf8_width(s[0]) > budget {
        0
    } else {
        1 + fit_prefix(s.drop_first(), budget - utf8_width(s[0]))
    }
}

/// The summary as sent to the service: trimmed, and when longer than 500
/// bytes of UTF-8, cut to the characters that fit and trimmed at the end.
pub open spec fn clamped_text(text: Seq<char>) -> Seq<char> {
    let t = trim(text);
    if utf8_len(t) <= 500 {
        t
    } else {
        trim_end(t.take(fit_prefix(t, 500) as int))
    }
}

proof fn lemma_fit_prefix_step(s: Seq<char>, i: int, budget: int)
    requires
        0 <= i < s.len(),
        utf8_width(s[i]) <= budget,
    ensures
        fit_prefix(s.skip(i), budget) == 1 + fit_prefix(s.skip(i + 1), budget - utf8_width(s[i])),
{
    assert(s.skip(i).drop_first() =~= s.skip(i + 1));
}

proof fn lemma_fit_prefix_bound(s: Seq<char>, budget: int)
    ensures
        fit_prefix(s, budget) <= s.len(),
    decreases s.len(),
{
    if s.len() > 0 && utf8_width(s[0]) <= budget {
        lemma_fit_prefix_bound(s.drop_first(), budget - utf8_width(s[0]));
    }
}

/// Cuts a summary to what the translation service takes (`clamp_mymemory_text`).
pub fn clamp_mymemory_text(text: &str) -> (out: String)
    ensures
        out@ == clamped_text(text@),
{
    let c = chars_of(text);
    let t = trim_vec(c.as_slice());
    let total = crate::toml_scan::utf8_len_exec(t.as_slice());
    if total <= 500 {
        return string_of(t.as_slice());
    }
    let mut used: usize = 0;
    let mut i: usize = 0;
    assert(t@.skip(0) =~= t@);
    while i < t.len()
        invariant_except_break
            i <= t@.len(),
            used <= 500,
            fit_prefix(t@, 500) == i + fit_prefix(t@.skip(i as int), 500 - used),
        ensures
            i <= t@.len(),
            fit_prefix(t@, 500) == i,
        decreases t@.len() - i,
    {
        let w = utf8_width_exec(t[i]);
        if used + w > 500 {
            assert(t@.skip(i as int)[0] == t@[i as int]);
            break;
        }
        proof {
            lemma_fit_prefix_step(t@, i as int, 500 - used);
        }
        used = used + w;
        i = i + 1;
    }
    assert(fit_prefix(t@, 500) == i);
    let prefix = copy_range(t.as_slice(), 0, i);
    assert(prefix@ =~= t@.take(i as int));
    let mut j: usize = prefix.len();
    assert(prefix@.subrange(0, j as int) =~= prefix@);
    while j > 0 && crate::text::is_ws_char(prefix[j - 1])
        invariant
            j <= prefix@.len(),
            trim_end(prefix@) == trim_end(prefix@.subrange(0, j as int)),
        decreases j,
    {
        assert(prefix@.subrange(0, j as int).drop_last() =~= prefix@.subrange(0, j as int - 1));
        j = j - 1;
    }
    let cut = copy_range(prefix.as_slice(), 0, j);
    assert(trim_end(prefix@.subrange(0, j as int)) == prefix@.subrange(0, j as int));
    string_of(cut.as_slice())
}

// ---------------------------------------------------------------------------
// Hashing summaries
// ---------------------------------------------------------------------------
/// The SHA-256 digest of the UTF-8 encoding of `s`, as the `sha2` crate computes it.
pub uninterp spec fn sha256_of_text(s: Seq<char>) -> Seq<u8>;

/// `Sha256::digest` of the text's UTF-8 bytes; the digest is `sha256_of_text`
/// of the text.
#[verifier::external_body]
fn sha256_digest(text: &str) -> (d: Vec<u8>)
    ensures
        d@ == sha256_of_text(text@),
{
    sha2::Sha256::digest(text.as_bytes()).to_vec()
}

/// The lowercase hexadecimal digit for `n` below 16.
pub open spec fn hex_digit(n: int) -> char {
    if n < 10 {
        (('0' as int) + n) as char
    } else {
        (('a' as int) + n - 10) as char
    }
}

/// Bytes written as lowercase hexadecimal, two digits each (`{:x}` of a digest).
pub open spec fn hex_of(b: Seq<u8>) -> Seq<char>
    decreases b.len(),
{
    if b.len() == 0 {
        Seq::empty()
    } else {
        hex_of(b.drop_last()) + seq![hex_digit(b.last() as int / 16), hex_digit(b.last() as int % 16)]
    }
}

fn hex_digit_exec(n: u8) -> (c: char)
    requires
        n < 16,
    ensures
        c == hex_digit(n as int),
{
    if n < 10 {
        ((48u8 + n) as char)
    } else {
        ((87u8 + n) as char)
    }
}

/// The hash that the cache keeps of a summary (`hash_text`): SHA-256 of its
/// UTF-8 bytes in lowercase hexadecimal.
pub fn hash_text(text: &str) -> (out: String)
    ensures
        out@ == hex_of(sha256_of_text(text@)),
{
    let d = sha256_digest(text);
    let mut out: Vec<char> = Vec::new();
    let mut i: usize = 0;
    while i < d.len()
        invariant
            i <= d@.len(),
            out@ == hex_of(d@.take(i as int)),
        decreases d@.len() - i,
    {
        assert(d@.take(i as int + 1).drop_last() =~= d@.take(i as int));
        let b = d[i];
        out.push(hex_digit_exec(b / 16));
        out.push(hex_digit_exec(b % 16));
        i = i + 1;
    }
    assert(d@.take(d@.len() as int) =~= d@);
    string_of(out.as_slice())
}

// ---------------------------------------------------------------------------
// The cache of translations
// ---------------------------------------------------------------------------
/// What a cached translation holds besides its time: the skill, the hash and
/// text of the summary, and the translation.
pub open spec fn entry_text(e: SkillTranslationEntry) -> (Seq<char>, Seq<char>, Seq<char>, Seq<char>) {
    (e.skill_id@, e.source_hash@, e.source@, e.zh@)
}

pub open spec fn cache_view(c: Seq<(String, SkillTranslationEntry)>) -> Seq<(Seq<char>, (Seq<char>, Seq<char>, Seq<char>, Seq<char>))> {
    c.map_values(|e: (String, SkillTranslationEntry)| (e.0@, entry_text(e.1)))
}

/// The hash that the cache holds for a skill.
pub open spec fn cached_hash(c: Seq<(Seq<char>, (Seq<char>, Seq<char>, Seq<char>, Seq<char>))>, id: Seq<char>) -> Option<Seq<char>> {
    match key_index(c, id) {
        Some(j) => Some(c[j as int].1.1),
        None => None,
    }
}

/// A summary to translate: the skill, the trimmed summary and its hash.
#[derive(Debug, Clone, PartialEq)]
pub struct PendingTranslation {
    pub skill_id: String,
    pub source: String,
    pub source_hash: String,
}

/// The summaries to translate and the number passed over.
#[derive(Debug, Clone, PartialEq)]
pub struct TranslationPlan {
    pub pending: Vec<PendingTranslation>,
    pub skipped_count: i32,
}

pub open spec fn pending_view(p: Seq<PendingTranslation>) -> Seq<(Seq<char>, Seq<char>, Seq<char>)> {
    p.map_values(|x: PendingTranslation| (x.skill_id@, x.source@, x.source_hash@))
}

/// The plan for the requested summaries, in order: a blank summary, one not
/// worth translating, or one whose hash the cache already holds for its
/// skill is passed over; the others are translated.
pub open spec fn plan_scan(items: Seq<SkillTranslationRequestItem>, c: Seq<(Seq<char>, (Seq<char>, Seq<char>, Seq<char>, Seq<char>))>) -> (Seq<(Seq<char>, Seq<char>, Seq<char>)>, nat)
    decreases items.len(),
{
    if items.len() == 0 {
        (Seq::empty(), 0)
    } else {
        let (pending, skipped) = plan_scan(items.drop_last(), c);
        let item = items.last();
        let t = trim(item.text@);
        if t.len() == 0 || !needs_zh(t) {
            (pending, skipped + 1)
        } else {
            let h = hex_of(sha256_of_text(t));
            if cached_hash(c, item.id@) == Some(h) {
                (pending, skipped + 1)
            } else {
                (pending.push((item.id@, t, h)), skipped)
            }
        }
    }
}

proof fn lemma_plan_skipped_bound(items: Seq<SkillTranslationRequestItem>, c: Seq<(Seq<char>, (Seq<char>, Seq<char>, Seq<char>, Seq<char>))>)
    ensures
        plan_scan(items, c).1 <= items.len(),
    decreases items.len(),
{
    if items.len() > 0 {
        lemma_plan_skipped_bound(items.drop_last(), c);
    }
}

fn cache_index(c: &Vec<(String, SkillTranslationEntry)>, id: &str) -> (r: Option<usize>)
    ensures
        match r {
            Some(j) => key_index(cache_view(c@), id@) == Some(j as nat),
            None => key_index(cache_view(c@), id@) is None,
        },
{
    let ghost s = cache_view(c@);
    let idc = chars_of(id);
    let mut i: usize = 0;
    while i < c.len()
        invariant
            i <= c@.len(),
            s == cache_view(c@),
            idc@ == id@,
            forall|j: int| 0 <= j < i ==> #[trigger] s[j].0 != id@,
        decreases c@.len() - i,
    {
        let kc = chars_of(c[i].0.as_str());
        assert(s[i as int].0 == c@[i as int].0@);
        if crate::text::eq_chars(kc.as_slice(), idc.as_slice()) {
            proof {
                lemma_key_index(s, id@, i as int);
            }
            return Some(i);
        }
        i = i + 1;
    }
    proof {
        lemma_key_index(s, id@, i as int);
    }
    None
}

/// Decides which requested summaries to translate (`translate_summaries`
/// before it calls the service).
pub fn plan_translations(cache: &Vec<(String, SkillTranslationEntry)>, items: &Vec<SkillTranslationRequestItem>) -> (p: TranslationPlan)
    requires
        items@.len() <= i32::MAX,
    ensures
        pending_view(p.pending@) == plan_scan(items@, cache_view(cache@)).0,
        p.skipped_count as int == plan_scan(items@, cache_view(cache@)).1,
{
    let ghost cv = cache_view(cache@);
    let mut pending: Vec<PendingTranslation> = Vec::new();
    let mut skipped: i32 = 0;
    let mut i: usize = 0;
    while i < items.len()
        invariant
            i <= items@.len() <= i32::MAX,
            cv == cache_view(cache@),
            pending_view(pending@) == plan_scan(items@.take(i as int), cv).0,
            skipped as int == plan_scan(items@.take(i as int), cv).1,
        decreases items@.len() - i,
    {
        proof {
            assert(items@.take(i as int + 1).drop_last() =~= items@.take(i as int));
            lemma_plan_skipped_bound(items@.take(i as int), cv);
        }
        let item = &items[i];
        let tc = chars_of(item.text.as_str());
        let t = trim_vec(tc.as_slice());
        if t.len() == 0 || !needs_zh_translation(t.as_slice()) {
            skipped = skipped + 1;
        } else {
            let ts = string_of(t.as_slice());
            let h = hash_text(ts.as_str());
            proof {
                lemma_key_index_found(cv, item.id@);
            }
            let cached = match cache_index(cache, item.id.as_str()) {
                Some(j) => {
                    assert(cv[j as int] == (cache@[j as int].0@, entry_text(cache@[j as int].1)));
                    let hc = chars_of(cache[j].1.source_hash.as_str());
                    let hh = chars_of(h.as_str());
                    crate::text::eq_chars(hc.as_slice(), hh.as_slice())
                },
                None => false,
            };
            assert(cached == (cached_hash(cv, item.id@) == Some(h@)));
            if cached {
                skipped = skipped + 1;
            } else {
                let ghost before = pending@;
                pending.push(PendingTranslation { skill_id: item.id.clone(), source: ts, source_hash: h });
                assert(pending_view(pending@) =~= pending_view(before).push((item.id@, t@, hex_of(sha256_of_text(t@)))));
            }
        }
        i = i + 1;
    }
    assert(items@.take(items@.len() as int) =~= items@);
    TranslationPlan { pending, skipped_count: skipped }
}

/// The cache after the translations that came back are stored, one after the
/// other, each under its skill (an earlier one for the skill is replaced).
pub open spec fn store_translations(
    c: Seq<(Seq<char>, (Seq<char>, Seq<char>, Seq<char>, Seq<char>))>,
    pending: Seq<(Seq<char>, Seq<char>, Seq<char>)>,
    outcomes: Seq<Option<Seq<char>>>,
) -> Seq<(Seq<char>, (Seq<char>, Seq<char>, Seq<char>, Seq<char>))>
    decreases pending.len(),
{
    if pending.len() == 0 || outcomes.len() == 0 {
        c
    } else {
        let before = store_translations(c, pending.drop_last(), outcomes.drop_last());
        let (id, source, hash) = pending.last();
        match outcomes.last() {
            Some(zh) => map_insert(before, id, (id, hash, source, zh)),
            None => before,
        }
    }
}

/// The number of translations that came back.
pub open spec fn successes(outcomes: Seq<Option<Seq<char>>>) -> nat
    decreases outcomes.len(),
{
    if outcomes.len() == 0 {
        0
    } else {
        successes(outcomes.drop_last()) + if outcomes.last() is Some {
            1nat
        } else {
            0nat
        }
    }
}

proof fn lemma_successes_bound(outcomes: Seq<Option<Seq<char>>>)
    ensures
        successes(outcomes) <= outcomes.len(),
    decreases outcomes.len(),
{
    if outcomes.len() > 0 {
        lemma_successes_bound(outcomes.drop_last());
    }
}

pub open spec fn outcomes_view(o: Seq<Option<String>>) -> Seq<Option<Seq<char>>> {
    o.map_values(|x: Option<String>| match x {
        Some(s) => Some(s@),
        None => None,
    })
}

fn store_entry(c: &mut Vec<(String, SkillTranslationEntry)>, entry: SkillTranslationEntry)
    ensures
        cache_view(final(c)@) == map_insert(cache_view(old(c)@), entry.skill_id@, entry_text(entry)),
{
    let ghost s = cache_view(c@);
    match cache_index(c, entry.skill_id.as_str()) {
        Some(j) => {
            proof {
                lemma_key_index_found(s, entry.skill_id@);
            }
            let key = entry.skill_id.clone();
            c[j] = (key, entry);
            assert(cache_view(c@) =~= s.update(j as int, (entry.skill_id@, entry_text(entry))));
        },
        None => {
            let key = entry.skill_id.clone();
            c.push((key, entry));
            assert(cache_view(c@) =~= s.push((entry.skill_id@, entry_text(entry))));
        },
    }
}

/// What translating the summaries comes to (`translate_summaries` once the
/// service has answered for each summary of the plan, `None` where it
/// failed): the translations that came back are stored in the cache, each
/// with the time it was stored, and counted; the failures are counted.
pub fn translate_summaries(
    cache: Vec<(String, SkillTranslationEntry)>,
    plan: TranslationPlan,
    outcomes: Vec<Option<String>>,
    source_path: String,
) -> (r: SkillTranslationPayload)
    requires
        outcomes@.len() == plan.pending@.len(),
        plan.pending@.len() <= i32::MAX,
    ensures
        r.configured,
        r.skipped_count == plan.skipped_count,
        r.translated_count as int == successes(outcomes_view(outcomes@)),
        r.failed_count as int == outcomes@.len() - successes(outcomes_view(outcomes@)),
        cache_view(r.translations@) == store_translations(
            cache_view(cache@),
            pending_view(plan.pending@),
            outcomes_view(outcomes@),
        ),
        r.source_path@ == source_path@,
{
    let ghost pv = pending_view(plan.pending@);
    let ghost ov = outcomes_view(outcomes@);
    let ghost c0 = cache_view(cache@);
    let mut translations = cache;
    let mut translated: i32 = 0;
    let mut failed: i32 = 0;
    let mut i: usize = 0;
    while i < outcomes.len()
        invariant
            i <= outcomes@.len() == plan.pending@.len() <= i32::MAX,
            pv == pending_view(plan.pending@),
            ov == outcomes_view(outcomes@),
            translated as int == successes(ov.take(i as int)),
            failed as int == i - successes(ov.take(i as int)),
            cache_view(translations@) == store_translations(c0, pv.take(i as int), ov.take(i as int)),
        decreases outcomes@.len() - i,
    {
        proof {
            assert(ov.take(i as int + 1).drop_last() =~= ov.take(i as int));
            assert(pv.take(i as int + 1).drop_last() =~= pv.take(i as int));
            lemma_successes_bound(ov.take(i as int));
        }
        match &outcomes[i] {
            Some(zh) => {
                let p = &plan.pending[i];
                let entry = SkillTranslationEntry {
                    skill_id: p.skill_id.clone(),
                    source_hash: p.source_hash.clone(),
                    source: p.source.clone(),
                    zh: zh.clone(),
                    updated_at: current_timestamp(),
                };
                store_entry(&mut translations, entry);
                translated = translated + 1;
            },
            None => {
                failed = failed + 1;
            },
        }
        i = i + 1;
    }
    proof {
        assert(ov.take(outcomes@.len() as int) =~= ov);
        assert(pv.take(outcomes@.len() as int) =~= pv);
    }
    SkillTranslationPayload {
        configured: true,
        translated_count: translated,
        skipped_count: plan.skipped_count,
        failed_count: failed,
        translations,
        source_path,
    }
}

/// The cached translations as the app shows them (`load_cache` once the cache
/// file is read).
pub fn load_cache(translations: Vec<(String, SkillTranslationEntry)>, source_path: String) -> (r: SkillTranslationCachePayload)
    ensures
        r.configured,
        r.translations@ == translations@,
        r.source_path@ == source_path@,
{
    SkillTranslationCachePayload { configured: true, translations, source_path }
}

// ---------------------------------------------------------------------------
// The service's answers
// ---------------------------------------------------------------------------
/// The error for an answer with a failing HTTP status (`status` as the HTTP
/// client shows it).
pub fn mymemory_http_error(status: &str) -> (e: CoreError)
    ensures
        e matches CoreError::OperationFailed(m) && m@ == "MyMemory translation failed: HTTP "@ + status@,
{
    let mut m = chars_of("MyMemory translation failed: HTTP ");
    push_str(&mut m, status);
    CoreError::OperationFailed(string_of(m.as_slice()))
}

/// What an answer of the translation service comes to (`mymemory_translate`
/// once the answer is read): a status of 400 or more is a failure with the
/// service's details (or the status), an empty translation is a failure, and
/// otherwise the translation, trimmed.
pub fn mymemory_translation(response_status: i32, response_details: Option<String>, translated_text: &str) -> (r: Result<String, CoreError>)
    ensures
        response_status >= 400 ==> (r matches Err(CoreError::OperationFailed(m)) && m@ == "MyMemory translation failed: "@ + match response_details {
            Some(d) => d@,
            None => decimal(response_status as int),
        }),
        response_status < 400 && trim(translated_text@).len() == 0 ==> (r matches Err(CoreError::OperationFailed(m)) && m@ == "MyMemory translation returned empty text"@),
        response_status < 400 && trim(translated_text@).len() > 0 ==> (r matches Ok(t) && t@ == trim(translated_text@)),
{
    if response_status >= 400 {
        let mut m = chars_of("MyMemory translation failed: ");
        match response_details {
            Some(d) => push_str(&mut m, d.as_str()),
            None => {
                let n = decimal_i64(response_status as i64);
                push_all(&mut m, n.as_slice());
            },
        }
        return Err(CoreError::OperationFailed(string_of(m.as_slice())));
    }
    let c = chars_of(translated_text);
    let t = trim_vec(c.as_slice());
    if t.len() == 0 {
        return Err(CoreError::OperationFailed(String::from_str("MyMemory translation returned empty text")));
    }
    Ok(string_of(t.as_slice()))
}

// ---------------------------------------------------------------------------
// Laws of a translation run
// ---------------------------------------------------------------------------
/// Every requested summary is either passed over or sent for translation:
/// the pending summaries and the skipped count add up to the request, so the
/// translated, failed and skipped counts of a run add up to it too.
pub proof fn law_translation_counts_cover_every_skill(
    items: Seq<SkillTranslationRequestItem>,
    c: Seq<(Seq<char>, (Seq<char>, Seq<char>, Seq<char>, Seq<char>))>,
)
    ensures
        plan_scan(items, c).0.len() + plan_scan(items, c).1 == items.len(),
    decreases items.len(),
{
    if items.len() > 0 {
        law_translation_counts_cover_every_skill(items.drop_last(), c);
    }
}

proof fn lemma_insert_keeps_key<V>(s: Seq<(Seq<char>, V)>, k2: Seq<char>, v: V, k: Seq<char>)
    requires
        key_index(s, k) is Some,
    ensures
        key_index(map_insert(s, k2, v), k) is Some,
{
    lemma_key_index_found(s, k);
    lemma_key_index_found(s, k2);
    let j = key_index(s, k)->0 as int;
    let t = map_insert(s, k2, v);
    assert(t[j].0 == k);
    lemma_key_index_found(t, k);
}

/// A run keeps every skill that the cache held a translation for: it only
/// adds or replaces entries.
pub proof fn law_cached_translations_are_kept(
    c: Seq<(Seq<char>, (Seq<char>, Seq<char>, Seq<char>, Seq<char>))>,
    pending: Seq<(Seq<char>, Seq<char>, Seq<char>)>,
    outcomes: Seq<Option<Seq<char>>>,
    skill_id: Seq<char>,
)
    requires
        key_index(c, skill_id) is Some,
    ensures
        key_index(store_translations(c, pending, outcomes), skill_id) is Some,
    decreases pending.len(),
{
    if pending.len() > 0 && outcomes.len() > 0 {
        law_cached_translations_are_kept(c, pending.drop_last(), outcomes.drop_last(), skill_id);
        let before = store_translations(c, pending.drop_last(), outcomes.drop_last());
        let (id, source, hash) = pending.last();
        match outcomes.last() {
            Some(zh) => lemma_insert_keeps_key(before, id, (id, hash, source, zh), skill_id),
            None => {},
        }
    }
}

} // verus!
