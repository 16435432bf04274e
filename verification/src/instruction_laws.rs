//! What the global instructions file reads back as after the app writes its
//! managed block.
use vstd::prelude::*;
use crate::custom_instructions::{
    cleared_content, compose_content, end_marker, holds_marker, legacy_end_marker, legacy_start_marker,
    normalize_content, occurrences_from, parse_managed, render_block, renamed_markers,
    replace_all, replace_from, start_marker,
};
use crate::models::CustomInstructionProtectionState;
use crate::text::{
    contains, find_from, lemma_find_from, occurs_at, trim, trim_char, trim_end, trim_end_char,
    trim_start, trim_start_char,
};

verus! {

// ---------------------------------------------------------------------------
// Occurrences
// ---------------------------------------------------------------------------
/// `p` occurs nowhere in `s`.
pub open spec fn free_of(s: Seq<char>, p: Seq<char>) -> bool {
    forall|i: int| !occurs_at(s, p, i)
}

/// `p` occurs in `s` at `q` and nowhere else.
pub open spec fn only_at(s: Seq<char>, p: Seq<char>, q: int) -> bool {
    forall|i: int| occurs_at(s, p, i) <==> i == q
}

/// `p` starts with `<` and holds no other `<` and no line break.
pub open spec fn tag_like(p: Seq<char>) -> bool {
    &&& p.len() > 0
    &&& p[0] == '<'
    &&& forall|k: int| 0 < k < p.len() ==> p[k] != '<'
    &&& forall|k: int| 0 <= k < p.len() ==> p[k] != '\n'
}

/// No occurrence of `p` can straddle the seam between `x` and `y`.
pub open spec fn seam_safe(x: Seq<char>, y: Seq<char>, p: Seq<char>) -> bool {
    ||| (y.len() > 0 && y[0] == '<')
    ||| (x.len() > 0 && x.last() == '\n')
    ||| (y.len() > 0 && y[0] == '\n')
}

proof fn lemma_occurs_in_part(x: Seq<char>, y: Seq<char>, p: Seq<char>, i: int)
    requires
        occurs_at(x + y, p, i),
        tag_like(p),
        seam_safe(x, y, p),
    ensures
        i + p.len() <= x.len() ==> occurs_at(x, p, i),
        i >= x.len() ==> occurs_at(y, p, i - x.len()),
        i + p.len() <= x.len() || i >= x.len(),
{
    let s = x + y;
    if i + p.len() <= x.len() {
        assert(x.subrange(i, i + p.len()) =~= s.subrange(i, i + p.len()));
    } else if i >= x.len() {
        assert(y.subrange(i - x.len(), i - x.len() + p.len()) =~= s.subrange(i, i + p.len()));
    } else {
        // The occurrence would cover the last character of `x` and the first of `y`.
        let k = x.len() - i;
        assert(s.subrange(i, i + p.len())[k] == p[k]);
        assert(s[x.len() as int] == y[0]);
        assert(s.subrange(i, i + p.len())[k - 1] == p[k - 1]);
        assert(s[x.len() - 1] == x.last());
    }
}

/// Occurrences in a seam-safe concatenation lie in one of the parts.
proof fn lemma_free_concat(x: Seq<char>, y: Seq<char>, p: Seq<char>)
    requires
        free_of(x, p),
        free_of(y, p),
        tag_like(p),
        seam_safe(x, y, p),
    ensures
        free_of(x + y, p),
{
    assert forall|i: int| !occurs_at(x + y, p, i) by {
        if occurs_at(x + y, p, i) {
            lemma_occurs_in_part(x, y, p, i);
        }
    }
}

proof fn lemma_only_concat_right(x: Seq<char>, y: Seq<char>, p: Seq<char>, q: int)
    requires
        free_of(x, p),
        only_at(y, p, q),
        tag_like(p),
        seam_safe(x, y, p),
    ensures
        only_at(x + y, p, x.len() + q),
{
    assert forall|i: int| occurs_at(x + y, p, i) <==> i == x.len() + q by {
        if occurs_at(x + y, p, i) {
            lemma_occurs_in_part(x, y, p, i);
        }
        if i == x.len() + q {
            assert(occurs_at(y, p, q));
            assert((x + y).subrange(i, i + p.len()) =~= y.subrange(q, q + p.len()));
        }
    }
}

proof fn lemma_only_concat_left(x: Seq<char>, y: Seq<char>, p: Seq<char>, q: int)
    requires
        only_at(x, p, q),
        free_of(y, p),
        tag_like(p),
        seam_safe(x, y, p),
    ensures
        only_at(x + y, p, q),
{
    assert forall|i: int| occurs_at(x + y, p, i) <==> i == q by {
        if occurs_at(x + y, p, i) {
            lemma_occurs_in_part(x, y, p, i);
        }
        if i == q {
            assert(occurs_at(x, p, q));
            assert((x + y).subrange(i, i + p.len()) =~= x.subrange(q, q + p.len()));
        }
    }
}

proof fn lemma_free_subrange(s: Seq<char>, p: Seq<char>, a: int, b: int)
    requires
        free_of(s, p),
        0 <= a <= b <= s.len(),
    ensures
        free_of(s.subrange(a, b), p),
{
    assert forall|i: int| !occurs_at(s.subrange(a, b), p, i) by {
        if occurs_at(s.subrange(a, b), p, i) {
            assert(s.subrange(a + i, a + i + p.len()) =~= s.subrange(a, b).subrange(i, i + p.len()));
            assert(occurs_at(s, p, a + i));
        }
    }
}

proof fn lemma_free_short(s: Seq<char>, p: Seq<char>)
    requires
        s.len() < p.len(),
    ensures
        free_of(s, p),
{
}

proof fn lemma_only_self(p: Seq<char>)
    requires
        tag_like(p),
    ensures
        only_at(p, p, 0),
{
    assert(p.subrange(0, p.len() as int) =~= p);
}

/// One tag inside another can only sit at its start.
proof fn lemma_free_tag(x: Seq<char>, p: Seq<char>, d: int)
    requires
        tag_like(x),
        tag_like(p),
        0 <= d < p.len(),
        d < x.len(),
        x[d] != p[d],
    ensures
        free_of(x, p),
{
    assert forall|i: int| !occurs_at(x, p, i) by {
        if occurs_at(x, p, i) {
            assert(x.subrange(i, i + p.len())[0] == p[0]);
            assert(x[i] == '<');
            assert(i == 0);
            assert(x.subrange(0, p.len() as int)[d] == p[d]);
        }
    }
}

proof fn lemma_occurrences_free(s: Seq<char>, p: Seq<char>)
    requires
        free_of(s, p),
        p.len() > 0,
    ensures
        occurrences_from(s, p, 0) == Seq::<int>::empty(),
{
    lemma_find_from(s, p, 0);
}

proof fn lemma_occurrences_only(s: Seq<char>, p: Seq<char>, q: int)
    requires
        only_at(s, p, q),
        p.len() > 0,
    ensures
        occurrences_from(s, p, 0) == seq![q],
{
    assert(occurs_at(s, p, q));
    lemma_find_from(s, p, 0);
    assert(find_from(s, p, 0) == Some(q));
    lemma_find_from(s, p, q + p.len());
    assert(find_from(s, p, q + p.len()) is None);
    assert(occurrences_from(s, p, q + p.len()) =~= Seq::<int>::empty());
}

/// What `occurrences_from` lists for a tag says where it occurs.
proof fn lemma_occurrences_shape(s: Seq<char>, p: Seq<char>)
    requires
        tag_like(p),
    ensures
        occurrences_from(s, p, 0).len() == 0 ==> free_of(s, p),
        occurrences_from(s, p, 0).len() == 1 ==> only_at(s, p, occurrences_from(s, p, 0)[0]),
{
    lemma_find_from(s, p, 0);
    match find_from(s, p, 0) {
        None => {},
        Some(q) => {
            lemma_find_from(s, p, q + p.len());
            assert(occurrences_from(s, p, 0) == seq![q] + occurrences_from(s, p, q + p.len()));
            if occurrences_from(s, p, 0).len() == 1 {
                assert(occurrences_from(s, p, 0)[0] == q);
                assert(occurrences_from(s, p, q + p.len()).len() == 0);
                if find_from(s, p, q + p.len()) is Some {
                    assert(occurrences_from(s, p, q + p.len()).len() > 0);
                }
                assert(find_from(s, p, q + p.len()) is None);
                assert forall|i: int| occurs_at(s, p, i) <==> i == q by {
                    if occurs_at(s, p, i) && i != q {
                        assert(i > q);
                        if i < q + p.len() {
                            assert(s.subrange(i, i + p.len())[0] == p[0]);
                            assert(s.subrange(q, q + p.len())[i - q] == p[i - q]);
                        }
                    }
                }
            }
        },
    }
}

// ---------------------------------------------------------------------------
// Replacing legacy markers
// ---------------------------------------------------------------------------
proof fn lemma_replace_free_identity(s: Seq<char>, l: Seq<char>, n: Seq<char>, from: int)
    requires
        free_of(s, l),
        l.len() > 0,
        0 <= from <= s.len(),
    ensures
        replace_from(s, l, n, from) == s.subrange(from, s.len() as int),
{
    lemma_find_from(s, l, from);
}

/// Replacing `l` by `n` leaves a text free of `m` when the original text and
/// `n` are (all three being tags, `m` no longer than `n`).
proof fn lemma_replace_keeps_free(s: Seq<char>, l: Seq<char>, n: Seq<char>, m: Seq<char>, from: int)
    requires
        free_of(s, m),
        free_of(n, m),
        tag_like(l),
        tag_like(n),
        tag_like(m),
        m.len() <= n.len(),
        0 <= from <= s.len(),
    ensures
        free_of(replace_from(s, l, n, from), m),
    decreases s.len() + 1 - from,
{
    lemma_find_from(s, l, from);
    match find_from(s, l, from) {
        None => {
            lemma_free_subrange(s, m, from, s.len() as int);
        },
        Some(i) => {
            let head = s.subrange(from, i);
            let rest = replace_from(s, l, n, i + l.len());
            lemma_replace_keeps_free(s, l, n, m, i + l.len());
            lemma_free_subrange(s, m, from, i);
            // `n` then the rest: an occurrence starting inside `n` would start at a `<`.
            assert(free_of(n + rest, m)) by {
                assert forall|j: int| !occurs_at(n + rest, m, j) by {
                    if occurs_at(n + rest, m, j) {
                        let nr = n + rest;
                        if j >= n.len() {
                            assert(rest.subrange(j - n.len(), j - n.len() + m.len()) =~= nr.subrange(j, j + m.len()));
                            assert(occurs_at(rest, m, j - n.len()));
                        } else {
                            assert(nr.subrange(j, j + m.len())[0] == m[0]);
                            assert(nr[j] == n[j]);
                            assert(j == 0);
                            assert(nr.subrange(0, m.len() as int) =~= n.subrange(0, m.len() as int));
                            assert(occurs_at(n, m, 0));
                        }
                    }
                }
            }
            lemma_free_concat(head, n + rest, m);
            assert(head + n + rest =~= head + (n + rest));
        },
    }
}

/// Replacing `l` by `n` leaves no `l` behind.
proof fn lemma_replace_frees(s: Seq<char>, l: Seq<char>, n: Seq<char>, from: int)
    requires
        free_of(n, l),
        tag_like(l),
        tag_like(n),
        l.len() <= n.len(),
        0 <= from <= s.len(),
    ensures
        free_of(replace_from(s, l, n, from), l),
    decreases s.len() + 1 - from,
{
    lemma_find_from(s, l, from);
    match find_from(s, l, from) {
        None => {
            let tail = s.subrange(from, s.len() as int);
            assert forall|j: int| !occurs_at(tail, l, j) by {
                if occurs_at(tail, l, j) {
                    assert(s.subrange(from + j, from + j + l.len()) =~= tail.subrange(j, j + l.len()));
                    assert(occurs_at(s, l, from + j));
                }
            }
        },
        Some(i) => {
            let head = s.subrange(from, i);
            let rest = replace_from(s, l, n, i + l.len());
            lemma_replace_frees(s, l, n, i + l.len());
            assert forall|j: int| !occurs_at(head, l, j) by {
                if occurs_at(head, l, j) {
                    assert(s.subrange(from + j, from + j + l.len()) =~= head.subrange(j, j + l.len()));
                    assert(occurs_at(s, l, from + j));
                }
            }
            assert(free_of(n + rest, l)) by {
                assert forall|j: int| !occurs_at(n + rest, l, j) by {
                    if occurs_at(n + rest, l, j) {
                        let nr = n + rest;
                        if j >= n.len() {
                            assert(rest.subrange(j - n.len(), j - n.len() + l.len()) =~= nr.subrange(j, j + l.len()));
                            assert(occurs_at(rest, l, j - n.len()));
                        } else {
                            assert(nr.subrange(j, j + l.len())[0] == l[0]);
                            assert(nr[j] == n[j]);
                            assert(j == 0);
                            assert(nr.subrange(0, l.len() as int) =~= n.subrange(0, l.len() as int));
                            assert(occurs_at(n, l, 0));
                        }
                    }
                }
            }
            lemma_free_concat(head, n + rest, l);
            assert(head + n + rest =~= head + (n + rest));
        },
    }
}

// ---------------------------------------------------------------------------
// The markers
// ---------------------------------------------------------------------------
proof fn lemma_markers_are_tags()
    ensures
        tag_like(start_marker()),
        tag_like(end_marker()),
        tag_like(legacy_start_marker()),
        tag_like(legacy_end_marker()),
        start_marker().len() == 48,
        end_marker().len() == 46,
        legacy_start_marker().len() == 41,
        legacy_end_marker().len() == 39,
        free_of(start_marker(), end_marker()),
        free_of(end_marker(), start_marker()),
        free_of(start_marker(), legacy_start_marker()),
        free_of(start_marker(), legacy_end_marker()),
        free_of(end_marker(), legacy_start_marker()),
        free_of(end_marker(), legacy_end_marker()),
{
    reveal_strlit("<!-- AI_STRATEGIST_CUSTOM_INSTRUCTIONS_START -->");
    reveal_strlit("<!-- AI_STRATEGIST_CUSTOM_INSTRUCTIONS_END -->");
    reveal_strlit("<!-- AIMAMI_CUSTOM_INSTRUCTIONS_START -->");
    reveal_strlit("<!-- AIMAMI_CUSTOM_INSTRUCTIONS_END -->");
    let s = start_marker();
    let e = end_marker();
    let ls = legacy_start_marker();
    let le = legacy_end_marker();
    assert(tag_like(s));
    assert(tag_like(e));
    assert(tag_like(ls));
    assert(tag_like(le));
    lemma_free_tag(s, e, 39);
    lemma_free_short(e, s);
    lemma_free_tag(s, ls, 7);
    lemma_free_tag(s, le, 7);
    lemma_free_tag(e, ls, 7);
    lemma_free_tag(e, le, 7);
}

/// The file's text with legacy markers renamed holds no legacy marker.
proof fn lemma_renamed_free(text: Seq<char>)
    ensures
        free_of(renamed_markers(text), legacy_start_marker()),
        free_of(renamed_markers(text), legacy_end_marker()),
{
    lemma_markers_are_tags();
    let s1 = replace_all(text, legacy_start_marker(), start_marker());
    lemma_replace_frees(text, legacy_start_marker(), start_marker(), 0);
    lemma_replace_frees(s1, legacy_end_marker(), end_marker(), 0);
    lemma_replace_keeps_free(s1, legacy_end_marker(), end_marker(), legacy_start_marker(), 0);
}

/// A text free of legacy markers is its own renaming.
proof fn lemma_renamed_identity(t: Seq<char>)
    requires
        free_of(t, legacy_start_marker()),
        free_of(t, legacy_end_marker()),
    ensures
        renamed_markers(t) == t,
{
    lemma_markers_are_tags();
    lemma_replace_free_identity(t, legacy_start_marker(), start_marker(), 0);
    assert(t.subrange(0, t.len() as int) =~= t);
    lemma_replace_free_identity(t, legacy_end_marker(), end_marker(), 0);
}

// ---------------------------------------------------------------------------
// Trimming newlines
// ---------------------------------------------------------------------------
proof fn lemma_trim_start_char_shape(s: Seq<char>, c: char)
    ensures
        trim_start_char(s, c).len() <= s.len(),
        trim_start_char(s, c) == s.skip(s.len() - trim_start_char(s, c).len()),
        trim_start_char(s, c).len() == 0 || trim_start_char(s, c)[0] != c,
    decreases s.len(),
{
    if s.len() > 0 && s[0] == c {
        lemma_trim_start_char_shape(s.drop_first(), c);
        assert(s.drop_first().skip(s.drop_first().len() - trim_start_char(s, c).len()) =~= s.skip(s.len() - trim_start_char(s, c).len()));
    } else {
        assert(s.skip(0) =~= s);
    }
}

proof fn lemma_trim_end_char_shape(s: Seq<char>, c: char)
    ensures
        trim_end_char(s, c).len() <= s.len(),
        trim_end_char(s, c) == s.take(trim_end_char(s, c).len() as int),
        trim_end_char(s, c).len() == 0 || trim_end_char(s, c).last() != c,
    decreases s.len(),
{
    if s.len() > 0 && s.last() == c {
        lemma_trim_end_char_shape(s.drop_last(), c);
        assert(s.drop_last().take(trim_end_char(s, c).len() as int) =~= s.take(trim_end_char(s, c).len() as int));
    } else {
        assert(s.take(s.len() as int) =~= s);
    }
}

/// Stored content is a piece of the content that neither starts nor ends
/// with a line break.
proof fn lemma_normalized_shape(content: Seq<char>)
    ensures
        ({
            let c = normalize_content(content);
            &&& exists|a: int, b: int| 0 <= a <= b <= content.len() && c == content.subrange(a, b)
            &&& c.len() > 0 ==> c[0] != '\n' && c.last() != '\n'
        }),
{
    let t0 = trim_start(content);
    crate::text::lemma_trim_start_shape(content);
    let a0 = content.len() - t0.len();
    let t = trim_end(t0);
    crate::text::lemma_trim_end_shape(t0);
    let u = trim_start_char(t, '\n');
    lemma_trim_start_char_shape(t, '\n');
    let c = trim_end_char(u, '\n');
    lemma_trim_end_char_shape(u, '\n');
    let a = a0 + (t.len() - u.len());
    let b = a + c.len();
    assert(c =~= content.subrange(a, b));
    if c.len() > 0 {
        assert(c[0] == u[0]);
    }
}

/// Content between the markers reads back without its surrounding breaks.
proof fn lemma_unwrap_content(c: Seq<char>)
    requires
        c.len() > 0 ==> c[0] != '\n' && c.last() != '\n',
    ensures
        trim_char(seq!['\n'] + (if c.len() == 0 { Seq::<char>::empty() } else { c.push('\n') }), '\n') == c,
{
    if c.len() == 0 {
        let nl = seq!['\n'];
        assert(nl + Seq::<char>::empty() =~= nl);
        assert(nl.drop_first() =~= Seq::<char>::empty());
        assert(trim_start_char(nl, '\n') == trim_start_char(Seq::<char>::empty(), '\n'));
    } else {
        let w = seq!['\n'] + c.push('\n');
        assert(w.drop_first() =~= c.push('\n'));
        assert(w[0] == '\n');
        assert(c.push('\n')[0] == c[0]);
        assert(trim_start_char(c.push('\n'), '\n') == c.push('\n'));
        assert(trim_start_char(w, '\n') == trim_start_char(w.drop_first(), '\n'));
        assert(trim_start_char(w, '\n') == c.push('\n'));
        assert(c.push('\n').drop_last() =~= c);
        assert(trim_end_char(c.push('\n'), '\n') == trim_end_char(c, '\n'));
    }
}

// ---------------------------------------------------------------------------
// The managed block
// ---------------------------------------------------------------------------
/// The content part of a block: the content and a break, or nothing.
pub open spec fn content_part(c: Seq<char>) -> Seq<char> {
    if c.len() == 0 {
        Seq::empty()
    } else {
        c.push('\n')
    }
}

/// Where the end marker of a block holding `c` starts.
pub open spec fn end_offset(c: Seq<char>) -> int {
    49 + content_part(c).len() as int
}

proof fn lemma_free_markers_concat(x: Seq<char>, y: Seq<char>)
    requires
        free_of(x, legacy_start_marker()),
        free_of(x, legacy_end_marker()),
        free_of(y, legacy_start_marker()),
        free_of(y, legacy_end_marker()),
        seam_safe(x, y, legacy_start_marker()),
    ensures
        free_of(x + y, legacy_start_marker()),
        free_of(x + y, legacy_end_marker()),
{
    lemma_markers_are_tags();
    lemma_free_concat(x, y, legacy_start_marker());
    lemma_free_concat(x, y, legacy_end_marker());
}

/// A block holding marker-free content has its start marker at its start,
/// its end marker after the content, and no other marker.
proof fn lemma_block_markers(c: Seq<char>)
    requires
        free_of(c, start_marker()),
        free_of(c, end_marker()),
        free_of(c, legacy_start_marker()),
        free_of(c, legacy_end_marker()),
    ensures
        only_at(render_block(c), start_marker(), 0),
        only_at(render_block(c), end_marker(), end_offset(c)),
        free_of(render_block(c), legacy_start_marker()),
        free_of(render_block(c), legacy_end_marker()),
        render_block(c)[0] == '<',
        render_block(c).last() == '\n',
        render_block(c).subrange(48, end_offset(c)) == seq!['\n'] + content_part(c),
{
    lemma_markers_are_tags();
    let s = start_marker();
    let e = end_marker();
    let ls = legacy_start_marker();
    let le = legacy_end_marker();
    let nl = seq!['\n'];
    let cc = content_part(c);
    lemma_free_short(nl, s);
    lemma_free_short(nl, e);
    lemma_free_short(nl, ls);
    lemma_free_short(nl, le);
    // the end marker and its break
    let r3 = e + nl;
    lemma_only_self(e);
    lemma_only_concat_left(e, nl, e, 0);
    lemma_free_concat(e, nl, s);
    lemma_free_markers_concat(e, nl);
    // the content part
    assert(free_of(cc, s) && free_of(cc, e) && free_of(cc, ls) && free_of(cc, le)) by {
        if c.len() > 0 {
            assert(c.push('\n') =~= c + nl);
            lemma_free_concat(c, nl, s);
            lemma_free_concat(c, nl, e);
            lemma_free_markers_concat(c, nl);
        } else {
            lemma_free_short(cc, s);
            lemma_free_short(cc, e);
            lemma_free_short(cc, ls);
            lemma_free_short(cc, le);
        }
    }
    let r2 = cc + r3;
    assert(r3[0] == '<');
    lemma_only_concat_right(cc, r3, e, 0);
    lemma_free_concat(cc, r3, s);
    lemma_free_markers_concat(cc, r3);
    let r1 = nl + r2;
    lemma_only_concat_right(nl, r2, e, cc.len() as int);
    lemma_free_concat(nl, r2, s);
    lemma_free_markers_concat(nl, r2);
    let b = s + r1;
    lemma_only_self(s);
    lemma_only_concat_left(s, r1, s, 0);
    lemma_only_concat_right(s, r1, e, 1 + cc.len() as int);
    lemma_free_markers_concat(s, r1);
    assert(render_block(c) =~= b);
    assert(b.subrange(48, end_offset(c)) =~= nl + cc);
}

// ---------------------------------------------------------------------------
// Reading back what was written
// ---------------------------------------------------------------------------
/// The text `next` has the start marker only at `ps`, the end marker only at
/// `pe` after it, and no legacy marker.
pub open spec fn one_block(next: Seq<char>, ps: int, pe: int) -> bool {
    &&& only_at(next, start_marker(), ps)
    &&& only_at(next, end_marker(), pe)
    &&& ps <= pe
    &&& free_of(next, legacy_start_marker())
    &&& free_of(next, legacy_end_marker())
}

proof fn lemma_one_block_reads(next: Seq<char>, ps: int, pe: int)
    requires
        one_block(next, ps, pe),
    ensures
        parse_managed(true, next).protection_state == CustomInstructionProtectionState::Ready,
        parse_managed(true, next).managed_content == trim_char(next.subrange(ps + 48, pe), '\n'),
{
    lemma_markers_are_tags();
    lemma_renamed_identity(next);
    lemma_occurrences_only(next, start_marker(), ps);
    lemma_occurrences_only(next, end_marker(), pe);
}

/// What a read gives back of a write: once marker-free content is applied to
/// a file that is not protected, the file reads as managed, holding the
/// content as it is stored.
pub proof fn law_applied_content_reads_back(file_exists: bool, text: Seq<char>, content: Seq<char>)
    requires
        !holds_marker(content),
        parse_managed(file_exists, text).protection_state != CustomInstructionProtectionState::Protected,
    ensures
        parse_managed(true, compose_content(parse_managed(file_exists, text), content)).protection_state
            == CustomInstructionProtectionState::Ready,
        parse_managed(true, compose_content(parse_managed(file_exists, text), content)).managed_content
            == normalize_content(content),
{
    lemma_markers_are_tags();
    let s = start_marker();
    let e = end_marker();
    let ls = legacy_start_marker();
    let le = legacy_end_marker();
    let p = parse_managed(file_exists, text);
    let raw = renamed_markers(text);
    lemma_renamed_free(text);
    let c = normalize_content(content);
    lemma_normalized_shape(content);
    // The stored content holds no marker, since the content holds none.
    assert(free_of(c, s) && free_of(c, e) && free_of(c, ls) && free_of(c, le)) by {
        let (a, b) = choose|a: int, b: int| 0 <= a <= b <= content.len() && c == content.subrange(a, b);
        assert(free_of(content, s)) by {
            assert forall|i: int| !occurs_at(content, s, i) by {
                if occurs_at(content, s, i) {
                    assert(contains(content, s));
                }
            }
        }
        assert(free_of(content, e)) by {
            assert forall|i: int| !occurs_at(content, e, i) by {
                if occurs_at(content, e, i) {
                    assert(contains(content, e));
                }
            }
        }
        assert(free_of(content, ls)) by {
            assert forall|i: int| !occurs_at(content, ls, i) by {
                if occurs_at(content, ls, i) {
                    assert(contains(content, ls));
                }
            }
        }
        assert(free_of(content, le)) by {
            assert forall|i: int| !occurs_at(content, le, i) by {
                if occurs_at(content, le, i) {
                    assert(contains(content, le));
                }
            }
        }
        lemma_free_subrange(content, s, a, b);
        lemma_free_subrange(content, e, a, b);
        lemma_free_subrange(content, ls, a, b);
        lemma_free_subrange(content, le, a, b);
    }
    let block = render_block(c);
    lemma_block_markers(c);
    let next = compose_content(p, content);
    let starts = occurrences_from(raw, s, 0);
    let ends = occurrences_from(raw, e, 0);
    lemma_occurrences_shape(raw, s);
    lemma_occurrences_shape(raw, e);
    let ghost ps: int;
    match p.block {
        Some((a, b)) => {
            let ea = ends[0];
            assert(starts.len() == 1 && ends.len() == 1);
            assert(a == starts[0]);
            assert(b == ea + e.len());
            assert(only_at(raw, s, a));
            assert(only_at(raw, e, ea));
            assert(ea >= a);
            assert(occurs_at(raw, s, a));
            assert(occurs_at(raw, e, ea));
            assert(a + 48 <= raw.len());
            assert(b <= raw.len());
            let x = raw.subrange(0, a);
            let y = raw.subrange(b, raw.len() as int);
            assert(free_of(x, s)) by {
                assert forall|i: int| !occurs_at(x, s, i) by {
                    if occurs_at(x, s, i) {
                        assert(raw.subrange(i, i + s.len()) =~= x.subrange(i, i + s.len()));
                        assert(occurs_at(raw, s, i));
                    }
                }
            }
            assert(free_of(x, e)) by {
                assert forall|i: int| !occurs_at(x, e, i) by {
                    if occurs_at(x, e, i) {
                        assert(raw.subrange(i, i + e.len()) =~= x.subrange(i, i + e.len()));
                        assert(occurs_at(raw, e, i));
                    }
                }
            }
            assert(free_of(y, s)) by {
                assert forall|i: int| !occurs_at(y, s, i) by {
                    if occurs_at(y, s, i) {
                        assert(raw.subrange(b + i, b + i + s.len()) =~= y.subrange(i, i + s.len()));
                        assert(occurs_at(raw, s, b + i));
                    }
                }
            }
            assert(free_of(y, e)) by {
                assert forall|i: int| !occurs_at(y, e, i) by {
                    if occurs_at(y, e, i) {
                        assert(raw.subrange(b + i, b + i + e.len()) =~= y.subrange(i, i + e.len()));
                        assert(occurs_at(raw, e, b + i));
                    }
                }
            }
            lemma_free_subrange(raw, ls, 0, a);
            lemma_free_subrange(raw, le, 0, a);
            lemma_free_subrange(raw, ls, b, raw.len() as int);
            lemma_free_subrange(raw, le, b, raw.len() as int);
            let by_ = block + y;
            lemma_only_concat_left(block, y, s, 0);
            lemma_only_concat_left(block, y, e, end_offset(c));
            lemma_free_markers_concat(block, y);
            assert(by_[0] == '<');
            lemma_only_concat_right(x, by_, s, 0);
            lemma_only_concat_right(x, by_, e, end_offset(c));
            lemma_free_markers_concat(x, by_);
            assert(next =~= x + by_);
            assert(next.subrange(x.len() as int + 48, x.len() + end_offset(c)) =~= block.subrange(48, end_offset(c)));
            lemma_one_block_reads(next, x.len() as int, x.len() + end_offset(c));
        },
        None => {
            assert(starts.len() == 0 && ends.len() == 0);
            if trim(raw).len() == 0 {
                assert(next == block);
                lemma_one_block_reads(next, 0, end_offset(c));
            } else {
                let nl = seq!['\n'];
                lemma_free_short(nl, s);
                lemma_free_short(nl, e);
                lemma_free_short(nl, ls);
                lemma_free_short(nl, le);
                let x1 = if crate::text::ends_with(raw, nl) { raw } else { raw.push('\n') };
                assert(free_of(x1, s) && free_of(x1, e) && free_of(x1, ls) && free_of(x1, le)) by {
                    if !crate::text::ends_with(raw, nl) {
                        assert(raw.push('\n') =~= raw + nl);
                        lemma_free_concat(raw, nl, s);
                        lemma_free_concat(raw, nl, e);
                        lemma_free_markers_concat(raw, nl);
                    }
                }
                let x2 = if crate::text::ends_with(x1, seq!['\n', '\n']) { x1 } else { x1.push('\n') };
                assert(free_of(x2, s) && free_of(x2, e) && free_of(x2, ls) && free_of(x2, le)) by {
                    if !crate::text::ends_with(x1, seq!['\n', '\n']) {
                        assert(x1.push('\n') =~= x1 + nl);
                        lemma_free_concat(x1, nl, s);
                        lemma_free_concat(x1, nl, e);
                        lemma_free_markers_concat(x1, nl);
                    }
                }
                assert(next == x2 + block);
                lemma_only_concat_right(x2, block, s, 0);
                lemma_only_concat_right(x2, block, e, end_offset(c));
                lemma_free_markers_concat(x2, block);
                assert(next.subrange(x2.len() as int + 48, x2.len() + end_offset(c)) =~= block.subrange(48, end_offset(c)));
                lemma_one_block_reads(next, x2.len() as int, x2.len() + end_offset(c));
            }
        },
    }
    lemma_unwrap_content(c);
}

proof fn lemma_free_all_concat(x: Seq<char>, y: Seq<char>)
    requires
        marker_free(x),
        marker_free(y),
        seam_safe(x, y, start_marker()),
    ensures
        marker_free(x + y),
{
    lemma_markers_are_tags();
    lemma_free_concat(x, y, start_marker());
    lemma_free_concat(x, y, end_marker());
    lemma_free_concat(x, y, legacy_start_marker());
    lemma_free_concat(x, y, legacy_end_marker());
}

/// No marker of either kind occurs in `x`.
pub open spec fn marker_free(x: Seq<char>) -> bool {
    free_of(x, start_marker()) && free_of(x, end_marker()) && free_of(x, legacy_start_marker())
        && free_of(x, legacy_end_marker())
}

proof fn lemma_marker_free_subrange(x: Seq<char>, a: int, b: int)
    requires
        marker_free(x),
        0 <= a <= b <= x.len(),
    ensures
        marker_free(x.subrange(a, b)),
{
    lemma_free_subrange(x, start_marker(), a, b);
    lemma_free_subrange(x, end_marker(), a, b);
    lemma_free_subrange(x, legacy_start_marker(), a, b);
    lemma_free_subrange(x, legacy_end_marker(), a, b);
}

/// After the managed block is cleared from a file that is not protected, the
/// file reads as unmanaged.
pub proof fn law_cleared_file_reads_unmanaged(file_exists: bool, text: Seq<char>)
    requires
        parse_managed(file_exists, text).protection_state != CustomInstructionProtectionState::Protected,
    ensures
        parse_managed(true, cleared_content(parse_managed(file_exists, text))).protection_state
            == CustomInstructionProtectionState::Unmanaged,
{
    lemma_markers_are_tags();
    let s = start_marker();
    let e = end_marker();
    let p = parse_managed(file_exists, text);
    let raw = renamed_markers(text);
    lemma_renamed_free(text);
    let starts = occurrences_from(raw, s, 0);
    let ends = occurrences_from(raw, e, 0);
    lemma_occurrences_shape(raw, s);
    lemma_occurrences_shape(raw, e);
    let next = cleared_content(p);
    match p.block {
        None => {
            assert(next == raw);
            assert(marker_free(next));
        },
        Some((a, b)) => {
            let ea = ends[0];
            assert(starts.len() == 1 && ends.len() == 1);
            assert(occurs_at(raw, s, a));
            assert(occurs_at(raw, e, ea));
            let x = raw.subrange(0, a);
            let y = raw.subrange(b, raw.len() as int);
            assert(free_of(x, s)) by {
                assert forall|i: int| !occurs_at(x, s, i) by {
                    if occurs_at(x, s, i) {
                        assert(raw.subrange(i, i + s.len()) =~= x.subrange(i, i + s.len()));
                        assert(occurs_at(raw, s, i));
                    }
                }
            }
            assert(free_of(x, e)) by {
                assert forall|i: int| !occurs_at(x, e, i) by {
                    if occurs_at(x, e, i) {
                        assert(raw.subrange(i, i + e.len()) =~= x.subrange(i, i + e.len()));
                        assert(occurs_at(raw, e, i));
                    }
                }
            }
            assert(free_of(y, s)) by {
                assert forall|i: int| !occurs_at(y, s, i) by {
                    if occurs_at(y, s, i) {
                        assert(raw.subrange(b + i, b + i + s.len()) =~= y.subrange(i, i + s.len()));
                        assert(occurs_at(raw, s, b + i));
                    }
                }
            }
            assert(free_of(y, e)) by {
                assert forall|i: int| !occurs_at(y, e, i) by {
                    if occurs_at(y, e, i) {
                        assert(raw.subrange(b + i, b + i + e.len()) =~= y.subrange(i, i + e.len()));
                        assert(occurs_at(raw, e, b + i));
                    }
                }
            }
            lemma_free_subrange(raw, legacy_start_marker(), 0, a);
            lemma_free_subrange(raw, legacy_end_marker(), 0, a);
            lemma_free_subrange(raw, legacy_start_marker(), b, raw.len() as int);
            lemma_free_subrange(raw, legacy_end_marker(), b, raw.len() as int);
            let before = trim_end_char(x, '\n');
            let after = trim_start_char(y, '\n');
            lemma_trim_end_char_shape(x, '\n');
            lemma_trim_start_char_shape(y, '\n');
            lemma_marker_free_subrange(x, 0, before.len() as int);
            assert(before == x.subrange(0, before.len() as int));
            lemma_marker_free_subrange(y, y.len() - after.len(), y.len() as int);
            assert(after == y.subrange(y.len() - after.len(), y.len() as int));
            let nl = seq!['\n'];
            let nlnl = seq!['\n', '\n'];
            lemma_free_short(nl, s);
            lemma_free_short(nl, e);
            lemma_free_short(nl, legacy_start_marker());
            lemma_free_short(nl, legacy_end_marker());
            lemma_free_short(nlnl, s);
            lemma_free_short(nlnl, e);
            lemma_free_short(nlnl, legacy_start_marker());
            lemma_free_short(nlnl, legacy_end_marker());
            if before.len() == 0 && after.len() == 0 {
                lemma_free_short(next, s);
                lemma_free_short(next, e);
                lemma_free_short(next, legacy_start_marker());
                lemma_free_short(next, legacy_end_marker());
            } else if before.len() == 0 {
            } else if after.len() == 0 {
                assert(before.push('\n') =~= before + nl);
                lemma_free_all_concat(before, nl);
            } else {
                lemma_free_all_concat(before, nlnl);
                lemma_free_all_concat(before + nlnl, after);
            }
            assert(marker_free(next));
        },
    }
    lemma_renamed_identity(next);
    lemma_occurrences_free(next, s);
    lemma_occurrences_free(next, e);
}

} // verus!
