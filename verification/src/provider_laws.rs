//! What the configuration written for a launch reads back as: the provider
//! that was set is the one that `model_provider` names afterwards.
use vstd::prelude::*;
use crate::lines::{first_nl, join_lines, lemma_first_nl, lines_of, strip_cr};
use crate::prelaunch_provider::{
    configured_provider, piece_len, profile_header, provider_block, provider_update, table_range,
    table_range_from, with_provider_block, ProviderProfileView, first_provider_value, provider_line_value, provider_setting, rewrite_scan, rewrite_step,
    toml_quoted, with_model_provider, ProviderRewrite,
};
use crate::text::{
    is_ws, replace_char, split_once, starts_with, trim, trim_char, trim_end, trim_end_char,
    trim_start, trim_start_char,
};

verus! {

// ---------------------------------------------------------------------------
// Trimming
// ---------------------------------------------------------------------------
proof fn lemma_trim_start_push_ws(s: Seq<char>, c: char)
    requires
        is_ws(c),
    ensures
        trim_start(s.push(c)) == if trim_start(s).len() == 0 {
            Seq::<char>::empty()
        } else {
            trim_start(s).push(c)
        },
    decreases s.len(),
{
    assert(s.push(c)[0] == if s.len() == 0 { c } else { s[0] });
    if s.len() == 0 {
        assert(s.push(c).drop_first() =~= Seq::<char>::empty());
        assert(trim_start(s.push(c)) == trim_start(Seq::<char>::empty()));
    } else if is_ws(s[0]) {
        assert(s.push(c).drop_first() =~= s.drop_first().push(c));
        lemma_trim_start_push_ws(s.drop_first(), c);
    }
}

/// Whitespace added at the end does not change what `trim` gives.
proof fn lemma_trim_push_ws(s: Seq<char>, c: char)
    requires
        is_ws(c),
    ensures
        trim(s.push(c)) == trim(s),
{
    lemma_trim_start_push_ws(s, c);
    if trim_start(s).len() > 0 {
        assert(trim_start(s).push(c).drop_last() =~= trim_start(s));
    }
}

proof fn lemma_trim_strip_cr(l: Seq<char>)
    ensures
        trim(strip_cr(l)) == trim(l),
{
    if l.len() > 0 && l.last() == '\r' {
        assert(l.drop_last().push('\r') =~= l);
        lemma_trim_push_ws(l.drop_last(), '\r');
    }
}

/// A line without its carriage return reads the same.
proof fn lemma_line_strip_cr(l: Seq<char>)
    ensures
        provider_line_value(strip_cr(l)) == provider_line_value(l),
        is_table_line(strip_cr(l)) == is_table_line(l),
{
    lemma_trim_strip_cr(l);
}

// ---------------------------------------------------------------------------
// Lines
// ---------------------------------------------------------------------------
/// A line that opens a table.
pub open spec fn is_table_line(l: Seq<char>) -> bool {
    starts_with(trim(l), seq!['['])
}

/// `s` holds no line break.
pub open spec fn no_nl(s: Seq<char>) -> bool {
    forall|i: int| 0 <= i < s.len() ==> s[i] != '\n'
}

proof fn lemma_first_nl_props(s: Seq<char>)
    ensures
        first_nl(s) <= s.len(),
        forall|j: int| 0 <= j < first_nl(s) ==> s[j] != '\n',
        first_nl(s) < s.len() ==> s[first_nl(s) as int] == '\n',
    decreases s.len(),
{
    if s.len() > 0 && s[0] != '\n' {
        lemma_first_nl_props(s.drop_first());
        assert forall|j: int| 0 <= j < first_nl(s) implies s[j] != '\n' by {
            if j > 0 {
                assert(s[j] == s.drop_first()[j - 1]);
            }
        }
    }
}

/// Lines of `a + b` when `a` ends at a line break.
proof fn lemma_lines_concat(a: Seq<char>, b: Seq<char>)
    requires
        a.len() == 0 || a.last() == '\n',
    ensures
        lines_of(a + b) == lines_of(a) + lines_of(b),
    decreases a.len(),
{
    if a.len() == 0 {
        assert(a + b =~= b);
        assert(lines_of(a) + lines_of(b) =~= lines_of(b));
    } else {
        lemma_first_nl_props(a);
        let k = first_nl(a);
        assert(k < a.len()) by {
            if k == a.len() {
                assert(a[a.len() - 1] != '\n');
            }
        }
        let ab = a + b;
        assert forall|j: int| 0 <= j < k implies ab[j] != '\n' by {
            assert(ab[j] == a[j]);
        }
        assert(ab[k as int] == '\n');
        lemma_first_nl(ab, k as int);
        let rest = a.subrange(k as int + 1, a.len() as int);
        assert(ab.subrange(0, k as int) =~= a.subrange(0, k as int));
        assert(ab.subrange(k as int + 1, ab.len() as int) =~= rest + b);
        lemma_lines_concat(rest, b);
        assert(lines_of(ab) =~= lines_of(a) + lines_of(b));
    }
}

proof fn lemma_join_front(xs: Seq<Seq<char>>)
    requires
        xs.len() >= 2,
    ensures
        join_lines(xs) == xs[0] + seq!['\n'] + join_lines(xs.drop_first()),
    decreases xs.len(),
{
    if xs.len() == 2 {
        assert(xs.drop_last() =~= seq![xs[0]]);
        assert(xs.drop_first() =~= seq![xs[1]]);
        assert(join_lines(xs.drop_last()) == xs[0]);
        assert(join_lines(xs.drop_first()) == xs[1]);
        assert(join_lines(xs) =~= xs[0] + seq!['\n'] + join_lines(xs.drop_first()));
    } else {
        lemma_join_front(xs.drop_last());
        assert(xs.drop_last().drop_first() =~= xs.drop_first().drop_last());
        assert(xs.drop_first().last() == xs.last());
        assert(xs.drop_last()[0] == xs[0]);
        assert(join_lines(xs.drop_first()) == join_lines(xs.drop_first().drop_last()) + seq!['\n'] + xs.last());
        assert(join_lines(xs) =~= xs[0] + seq!['\n'] + join_lines(xs.drop_first()));
    }
}

/// Lines with the same readings: same count, and each pair alike in the
/// provider it names and in opening a table.
pub open spec fn alike(ls: Seq<Seq<char>>, xs: Seq<Seq<char>>) -> bool {
    ls.len() == xs.len() && forall|j: int|
        0 <= j < ls.len() ==> provider_line_value(#[trigger] ls[j]) == provider_line_value(xs[j])
            && is_table_line(ls[j]) == is_table_line(xs[j])
}

/// Joining lines without breaks and splitting the text again gives lines
/// alike the joined ones, but for a last empty line that may be lost when
/// no final break follows.
proof fn lemma_lines_join(xs: Seq<Seq<char>>, tail: bool)
    requires
        xs.len() > 0,
        forall|i: int| 0 <= i < xs.len() ==> no_nl(#[trigger] xs[i]),
    ensures
        ({
            let text = if tail {
                join_lines(xs).push('\n')
            } else {
                join_lines(xs)
            };
            let ls = lines_of(text);
            ||| alike(ls, xs)
            ||| (!tail && xs.last().len() == 0 && alike(ls, xs.drop_last()))
        }),
    decreases xs.len(),
{
    let text = if tail {
        join_lines(xs).push('\n')
    } else {
        join_lines(xs)
    };
    if xs.len() == 1 {
        let x0 = xs[0];
        assert(join_lines(xs) == x0);
        if tail {
            assert(text == x0.push('\n'));
            assert(lines_of(Seq::<char>::empty()) == Seq::<Seq<char>>::empty());
            assert forall|j: int| 0 <= j < x0.len() implies text[j] != '\n' by {
                assert(text[j] == x0[j]);
                assert(no_nl(xs[0]));
            }
            lemma_first_nl(text, x0.len() as int);
            assert(text.subrange(0, x0.len() as int) =~= x0);
            assert(text.subrange(x0.len() as int + 1, text.len() as int) =~= Seq::<char>::empty());
            lemma_line_strip_cr(x0);
            assert(lines_of(text) =~= seq![strip_cr(x0)]);
        } else {
            assert(no_nl(xs[0]));
            if x0.len() == 0 {
                assert(lines_of(text) =~= Seq::<Seq<char>>::empty());
                assert(xs.drop_last() =~= Seq::<Seq<char>>::empty());
            } else {
                lemma_first_nl(text, x0.len() as int);
                assert(lines_of(text) =~= seq![x0]);
            }
        }
    } else {
        let x0 = xs[0];
        let rest = xs.drop_first();
        lemma_join_front(xs);
        assert forall|i: int| 0 <= i < rest.len() implies no_nl(#[trigger] rest[i]) by {
            assert(rest[i] == xs[i + 1]);
        }
        lemma_lines_join(rest, tail);
        let rtext = if tail {
            join_lines(rest).push('\n')
        } else {
            join_lines(rest)
        };
        assert(no_nl(xs[0]));
        assert(text =~= x0 + seq!['\n'] + rtext);
        assert forall|j: int| 0 <= j < x0.len() implies text[j] != '\n' by {
            assert(text[j] == x0[j]);
        }
        assert(text[x0.len() as int] == '\n');
        lemma_first_nl(text, x0.len() as int);
        assert(text.subrange(0, x0.len() as int) =~= x0);
        assert(text.subrange(x0.len() as int + 1, text.len() as int) =~= rtext);
        lemma_line_strip_cr(x0);
        let ls = lines_of(text);
        assert(ls =~= seq![strip_cr(x0)] + lines_of(rtext));
        let rl = lines_of(rtext);
        if alike(rl, rest) {
            assert forall|j: int| 0 <= j < ls.len() implies provider_line_value(#[trigger] ls[j]) == provider_line_value(xs[j])
                && is_table_line(ls[j]) == is_table_line(xs[j]) by {
                if j > 0 {
                    assert(ls[j] == rl[j - 1]);
                    assert(xs[j] == rest[j - 1]);
                }
            }
        } else {
            assert(rest.last() == xs.last());
            assert(rest.drop_last() =~= xs.drop_last().drop_first());
            assert forall|j: int| 0 <= j < ls.len() implies provider_line_value(#[trigger] ls[j]) == provider_line_value(xs.drop_last()[j])
                && is_table_line(ls[j]) == is_table_line(xs.drop_last()[j]) by {
                if j > 0 {
                    assert(ls[j] == rl[j - 1]);
                    assert(xs.drop_last()[j] == rest.drop_last()[j - 1]);
                }
            }
        }
    }
}

// ---------------------------------------------------------------------------
// Which line names the provider
// ---------------------------------------------------------------------------
/// A provider key that reads back as written: not blank, without surrounding
/// whitespace, quotes, backslashes or line breaks.
pub open spec fn plain_provider_key(t: Seq<char>) -> bool {
    &&& t.len() > 0
    &&& trim(t) == t
    &&& forall|i: int| 0 <= i < t.len() ==> t[i] != '"' && t[i] != '\\' && t[i] != '\n'
}

/// The lines name `t` as the provider, and do so before any table opens.
pub open spec fn settles(ls: Seq<Seq<char>>, t: Seq<char>) -> bool {
    &&& first_provider_value(ls) == Some(t)
    &&& forall|j: int| 0 <= j < ls.len() && is_table_line(#[trigger] ls[j]) ==> first_provider_value(ls.take(j)) == Some(t)
}

/// Lines that neither name a provider nor open a table.
pub open spec fn quiet(ls: Seq<Seq<char>>) -> bool {
    forall|j: int| 0 <= j < ls.len() ==> provider_line_value(#[trigger] ls[j]) is None && !is_table_line(ls[j])
}

proof fn lemma_first_provider_push(xs: Seq<Seq<char>>, y: Seq<char>)
    ensures
        first_provider_value(xs.push(y)) == match first_provider_value(xs) {
            Some(v) => Some(v),
            None => provider_line_value(y),
        },
    decreases xs.len(),
{
    if xs.len() == 0 {
        assert(xs.push(y)[0] == y);
        assert(xs.push(y).drop_first() =~= Seq::<Seq<char>>::empty());
        assert(first_provider_value(Seq::<Seq<char>>::empty()) is None);
    } else {
        assert(xs.push(y)[0] == xs[0]);
        assert(xs.push(y).drop_first() =~= xs.drop_first().push(y));
        lemma_first_provider_push(xs.drop_first(), y);
    }
}

proof fn lemma_quiet_first(xs: Seq<Seq<char>>)
    requires
        quiet(xs),
    ensures
        first_provider_value(xs) is None,
    decreases xs.len(),
{
    if xs.len() > 0 {
        assert(provider_line_value(xs[0]) is None);
        assert forall|j: int| 0 <= j < xs.drop_first().len() implies provider_line_value(#[trigger] xs.drop_first()[j]) is None
            && !is_table_line(xs.drop_first()[j]) by {
            assert(xs.drop_first()[j] == xs[j + 1]);
        }
        lemma_quiet_first(xs.drop_first());
    }
}

proof fn lemma_settles_push(xs: Seq<Seq<char>>, y: Seq<char>, t: Seq<char>)
    requires
        settles(xs, t),
    ensures
        settles(xs.push(y), t),
{
    lemma_first_provider_push(xs, y);
    let ys = xs.push(y);
    assert forall|j: int| 0 <= j < ys.len() && is_table_line(#[trigger] ys[j]) implies first_provider_value(ys.take(j)) == Some(t) by {
        if j < xs.len() {
            assert(ys.take(j) =~= xs.take(j));
            assert(ys[j] == xs[j]);
        } else {
            assert(ys.take(j) =~= xs);
        }
    }
}

proof fn lemma_quiet_push(xs: Seq<Seq<char>>, y: Seq<char>)
    requires
        quiet(xs),
        provider_line_value(y) is None,
        !is_table_line(y),
    ensures
        quiet(xs.push(y)),
{
    assert forall|j: int| 0 <= j < xs.push(y).len() implies provider_line_value(#[trigger] xs.push(y)[j]) is None
        && !is_table_line(xs.push(y)[j]) by {
        if j < xs.len() {
            assert(xs.push(y)[j] == xs[j]);
        }
    }
}

proof fn lemma_trim_fixed(s: Seq<char>)
    requires
        s.len() > 0,
        !is_ws(s[0]),
        !is_ws(s.last()),
    ensures
        trim(s) == s,
{
    assert(trim_start(s) == s);
}

proof fn lemma_replace_char_absent(s: Seq<char>, from: char, to: Seq<char>)
    requires
        forall|i: int| 0 <= i < s.len() ==> s[i] != from,
    ensures
        replace_char(s, from, to) == s,
    decreases s.len(),
{
    if s.len() > 0 {
        assert forall|i: int| 0 <= i < s.drop_first().len() implies s.drop_first()[i] != from by {
            assert(s.drop_first()[i] == s[i + 1]);
        }
        lemma_replace_char_absent(s.drop_first(), from, to);
        assert(seq![s[0]] + s.drop_first() =~= s);
    }
}

/// The setting line of a plain key names that key, opens no table and holds no break.
proof fn lemma_setting_reads(t: Seq<char>)
    requires
        plain_provider_key(t),
    ensures
        provider_line_value(provider_setting(t)) == Some(t),
        !is_table_line(provider_setting(t)),
        no_nl(provider_setting(t)),
        provider_setting(t).len() > 0,
{
    reveal_strlit("model_provider");
    reveal_strlit(" = \"");
    reveal_strlit("\"");
    lemma_replace_char_absent(t, '\\', seq!['\\', '\\']);
    lemma_replace_char_absent(t, '"', seq!['\\', '"']);
    assert(toml_quoted(t) == t);
    let key: Seq<char> = "model_provider"@;
    let setting = provider_setting(t);
    assert(setting =~= key + " = \""@ + t + "\""@);
    assert(setting[0] == 'm');
    assert(setting.last() == '"');
    lemma_trim_fixed(setting);
    assert(setting.subrange(0, 1) =~= seq!['m']);
    assert(seq!['m'] != seq!['#']) by {
        assert(seq!['m'][0] != seq!['#'][0]);
    }
    assert(seq!['m'] != seq!['[']) by {
        assert(seq!['m'][0] != seq!['['][0]);
    }
    assert(!starts_with(setting, seq!['#']));
    assert(!starts_with(setting, seq!['[']));
    // The first '=' follows the key and a space.
    let kp = seq!['m', 'o', 'd', 'e', 'l', '_', 'p', 'r', 'o', 'v', 'i', 'd', 'e', 'r', ' '];
    assert(key.push(' ') =~= kp);
    assert forall|j: int| 0 <= j < 15 implies !crate::text::occurs_at(setting, seq!['='], j) by {
        assert(setting[j] == kp[j]);
        assert(setting.subrange(j, j + 1)[0] == setting[j]);
        if j < 8 {
            assert(kp[j] != '=');
        } else {
            assert(kp[j] != '=');
        }
    }
    assert(crate::text::occurs_at(setting, seq!['='], 15)) by {
        assert(setting.subrange(15, 16) =~= seq!['=']);
    }
    crate::text::lemma_find_from(setting, seq!['='], 0);
    assert(crate::text::find_char(setting, '=') == Some(15int));
    let k = setting.subrange(0, 15);
    let v = setting.subrange(16, setting.len() as int);
    assert(k =~= key.push(' '));
    lemma_trim_push_ws(key, ' ');
    lemma_trim_fixed(key);
    assert(trim(k) == key);
    assert(v =~= seq![' ', '"'] + t + seq!['"']);
    let q = seq!['"'] + t + seq!['"'];
    assert(v.drop_first() =~= q);
    assert(trim_start(v) == trim_start(q));
    assert(q[0] == '"' && q.last() == '"');
    lemma_trim_fixed(q);
    assert(trim(v) == q) by {
        assert(trim_start(q) == q);
    }
    assert(q.drop_first() =~= t + seq!['"']);
    assert(trim_start_char(q, '"') == trim_start_char(t + seq!['"'], '"'));
    assert((t + seq!['"'])[0] == t[0]);
    assert(trim_start_char(t + seq!['"'], '"') == t + seq!['"']);
    assert((t + seq!['"']).drop_last() =~= t);
    assert(trim_end_char(t + seq!['"'], '"') == trim_end_char(t, '"'));
    assert(trim_end_char(t, '"') == t);
    assert(trim_char(trim(v), '"') == t);
    assert(crate::text::split_once(setting, '=') == Some((k, v)));
}

/// A root line that does not start a `model_provider` setting names no provider.
proof fn lemma_other_line_names_none(l: Seq<char>)
    requires
        !(starts_with(trim(l), "model_provider"@) && crate::text::contains(trim(l), seq!['='])),
    ensures
        provider_line_value(l) is None,
{
    let tl = trim(l);
    if provider_line_value(l) is Some {
        match split_once(tl, '=') {
            Some((key, value)) => {
                crate::text::lemma_find_from(tl, seq!['='], 0);
                let i = crate::text::find_char(tl, '=').unwrap();
                assert(key == tl.subrange(0, i));
                assert(crate::text::occurs_at(tl, seq!['='], i));
                assert(crate::text::contains(tl, seq!['=']));
                crate::text::lemma_trim_start_shape(tl);
                crate::text::lemma_trim_end_shape(trim_start(key));
                reveal_strlit("model_provider");
                // `tl` starts without whitespace, so the key's trimmed text starts at its start.
                crate::text::lemma_trim_start_shape(l);
                crate::text::lemma_trim_end_shape(trim_start(l));
                assert(tl.len() > 0);
                assert(!is_ws(tl[0]));
                assert(key.len() > 0 ==> key[0] == tl[0]);
                assert(trim(key) == "model_provider"@);
                assert(trim_start(key) == key) by {
                    if key.len() > 0 {
                    } else {
                        assert(trim(key).len() == 0);
                    }
                }
                let n = trim(key).len();
                assert(trim(key) == key.take(n as int));
                assert forall|j: int| 0 <= j < 14 implies tl[j] == "model_provider"@[j] by {
                    assert(tl[j] == key[j]);
                    assert(key.take(n as int)[j] == key[j]);
                }
                assert(tl.subrange(0, 14) =~= "model_provider"@);
                assert(starts_with(tl, "model_provider"@));
            },
            None => {},
        }
    }
}

/// Pushing the setting after quiet lines settles the provider.
proof fn lemma_quiet_then_setting(xs: Seq<Seq<char>>, t: Seq<char>)
    requires
        quiet(xs),
        plain_provider_key(t),
    ensures
        settles(xs.push(provider_setting(t)), t),
{
    lemma_setting_reads(t);
    lemma_quiet_first(xs);
    lemma_first_provider_push(xs, provider_setting(t));
    let ys = xs.push(provider_setting(t));
    assert forall|j: int| 0 <= j < ys.len() && is_table_line(#[trigger] ys[j]) implies first_provider_value(ys.take(j)) == Some(t) by {
        if j < xs.len() {
            assert(ys[j] == xs[j]);
        }
    }
}

/// Where the rewrite stands: once the setting is written the provider is
/// settled; before that only quiet root lines were passed.
pub open spec fn rewrite_ok(st: ProviderRewrite, t: Seq<char>) -> bool {
    &&& (st.replaced || st.inserted) ==> settles(st.out, t)
    &&& !(st.replaced || st.inserted) ==> quiet(st.out) && st.in_root
    &&& forall|i: int| 0 <= i < st.out.len() ==> no_nl(#[trigger] st.out[i])
}

proof fn lemma_no_nl_push(xs: Seq<Seq<char>>, y: Seq<char>)
    requires
        forall|i: int| 0 <= i < xs.len() ==> no_nl(#[trigger] xs[i]),
        no_nl(y),
    ensures
        forall|i: int| 0 <= i < xs.push(y).len() ==> no_nl(#[trigger] xs.push(y)[i]),
{
    assert forall|i: int| 0 <= i < xs.push(y).len() implies no_nl(#[trigger] xs.push(y)[i]) by {
        if i < xs.len() {
            assert(xs.push(y)[i] == xs[i]);
        }
    }
}

proof fn lemma_rewrite_step_ok(st: ProviderRewrite, line: Seq<char>, t: Seq<char>)
    requires
        rewrite_ok(st, t),
        plain_provider_key(t),
        no_nl(line),
    ensures
        rewrite_ok(rewrite_step(st, line, provider_setting(t)), t),
{
    let setting = provider_setting(t);
    lemma_setting_reads(t);
    let tl = trim(line);
    let header = starts_with(tl, seq!['[']);
    let closes = header && !st.replaced && st.in_root && !st.inserted;
    let out1 = if closes { st.out.push(setting) } else { st.out };
    lemma_no_nl_push(st.out, setting);
    let next = rewrite_step(st, line, setting);
    if st.replaced || st.inserted {
        lemma_settles_push(st.out, line, t);
        lemma_settles_push(st.out, setting, t);
        lemma_settles_push(st.out.push(line), setting, t);
        lemma_no_nl_push(st.out, line);
        lemma_no_nl_push(st.out.push(line), setting);
    } else {
        if header {
            lemma_quiet_then_setting(st.out, t);
            lemma_settles_push(st.out.push(setting), line, t);
            lemma_no_nl_push(st.out.push(setting), line);
        } else {
            let in_root1 = st.in_root && !header;
            if in_root1 && starts_with(tl, "model_provider"@) && crate::text::contains(tl, seq!['=']) {
                lemma_quiet_then_setting(st.out, t);
            } else {
                lemma_other_line_names_none(line);
                lemma_quiet_push(st.out, line);
                lemma_no_nl_push(st.out, line);
                if !st.replaced && in_root1 && starts_with(tl, "model_reasoning_effort"@) && crate::text::contains(tl, seq!['=']) {
                    lemma_quiet_then_setting(st.out.push(line), t);
                    lemma_no_nl_push(st.out.push(line), setting);
                }
            }
        }
    }
}

proof fn lemma_rewrite_scan_ok(ls: Seq<Seq<char>>, t: Seq<char>)
    requires
        plain_provider_key(t),
        forall|i: int| 0 <= i < ls.len() ==> no_nl(#[trigger] ls[i]),
    ensures
        rewrite_ok(rewrite_scan(ls, provider_setting(t)), t),
    decreases ls.len(),
{
    if ls.len() > 0 {
        assert forall|i: int| 0 <= i < ls.drop_last().len() implies no_nl(#[trigger] ls.drop_last()[i]) by {
            assert(ls.drop_last()[i] == ls[i]);
        }
        lemma_rewrite_scan_ok(ls.drop_last(), t);
        assert(no_nl(ls[ls.len() - 1]));
        lemma_rewrite_step_ok(rewrite_scan(ls.drop_last(), provider_setting(t)), ls.last(), t);
    }
}

/// The lines that `str::lines` yields hold no line break.
proof fn lemma_lines_no_nl(s: Seq<char>)
    ensures
        forall|i: int| 0 <= i < lines_of(s).len() ==> no_nl(#[trigger] lines_of(s)[i]),
    decreases s.len(),
{
    if s.len() > 0 {
        lemma_first_nl_props(s);
        let k = first_nl(s);
        if k < s.len() {
            lemma_lines_no_nl(s.subrange(k as int + 1, s.len() as int));
            let first = strip_cr(s.subrange(0, k as int));
            assert(no_nl(first)) by {
                assert forall|j: int| 0 <= j < first.len() implies first[j] != '\n' by {
                    assert(first[j] == s[j]);
                }
            }
            let rest = lines_of(s.subrange(k as int + 1, s.len() as int));
            assert forall|i: int| 0 <= i < lines_of(s).len() implies no_nl(#[trigger] lines_of(s)[i]) by {
                if i > 0 {
                    assert(lines_of(s)[i] == rest[i - 1]);
                }
            }
        } else {
            assert(lines_of(s) == seq![s]);
        }
    }
}

/// The lines before `j` of lines alike `xs` name what those of `xs` name.
proof fn lemma_alike_first(ls: Seq<Seq<char>>, xs: Seq<Seq<char>>)
    requires
        alike(ls, xs),
    ensures
        first_provider_value(ls) == first_provider_value(xs),
    decreases ls.len(),
{
    if ls.len() > 0 {
        assert(provider_line_value(ls[0]) == provider_line_value(xs[0]));
        assert forall|j: int| 0 <= j < ls.drop_first().len() implies provider_line_value(#[trigger] ls.drop_first()[j])
            == provider_line_value(xs.drop_first()[j]) && is_table_line(ls.drop_first()[j]) == is_table_line(xs.drop_first()[j]) by {
            assert(ls.drop_first()[j] == ls[j + 1]);
            assert(xs.drop_first()[j] == xs[j + 1]);
            assert(provider_line_value(ls[j + 1]) == provider_line_value(xs[j + 1]));
        }
        lemma_alike_first(ls.drop_first(), xs.drop_first());
    }
}

proof fn lemma_alike_settles(ls: Seq<Seq<char>>, xs: Seq<Seq<char>>, t: Seq<char>)
    requires
        alike(ls, xs),
        settles(xs, t),
    ensures
        settles(ls, t),
{
    lemma_alike_first(ls, xs);
    assert forall|j: int| 0 <= j < ls.len() && is_table_line(#[trigger] ls[j]) implies first_provider_value(ls.take(j)) == Some(t) by {
        assert(is_table_line(xs[j]));
        assert(alike(ls.take(j), xs.take(j))) by {
            assert forall|q: int| 0 <= q < ls.take(j).len() implies provider_line_value(#[trigger] ls.take(j)[q])
                == provider_line_value(xs.take(j)[q]) && is_table_line(ls.take(j)[q]) == is_table_line(xs.take(j)[q]) by {
                assert(ls.take(j)[q] == ls[q]);
                assert(xs.take(j)[q] == xs[q]);
            }
        }
        lemma_alike_first(ls.take(j), xs.take(j));
    }
}

proof fn lemma_settles_drop_empty(xs: Seq<Seq<char>>, t: Seq<char>)
    requires
        settles(xs, t),
        xs.len() > 0,
        xs.last().len() == 0,
    ensures
        settles(xs.drop_last(), t),
{
    let dl = xs.drop_last();
    assert(dl.push(xs.last()) =~= xs);
    lemma_first_provider_push(dl, xs.last());
    assert(provider_line_value(xs.last()) is None) by {
        assert(trim(xs.last()).len() == 0);
    }
    assert forall|j: int| 0 <= j < dl.len() && is_table_line(#[trigger] dl[j]) implies first_provider_value(dl.take(j)) == Some(t) by {
        assert(dl[j] == xs[j]);
        assert(dl.take(j) =~= xs.take(j));
    }
}

/// The text of `config.toml` after `model_provider` is set to a plain key
/// names that key as its provider before any table opens, with or without a
/// line break added at its end.
proof fn lemma_with_model_provider_settles(raw: Seq<char>, t: Seq<char>)
    requires
        plain_provider_key(t),
    ensures
        settles(lines_of(with_model_provider(raw, t)), t),
        settles(lines_of(with_model_provider(raw, t).push('\n')), t),
{
    let setting = provider_setting(t);
    lemma_setting_reads(t);
    lemma_lines_no_nl(raw);
    lemma_rewrite_scan_ok(lines_of(raw), t);
    let st = rewrite_scan(lines_of(raw), setting);
    let out = if !st.replaced && !st.inserted {
        seq![setting] + st.out
    } else {
        st.out
    };
    assert(settles(out, t) && forall|i: int| 0 <= i < out.len() ==> no_nl(#[trigger] out[i])) by {
        if !st.replaced && !st.inserted {
            lemma_quiet_first(st.out);
            assert(out[0] == setting);
            assert(out.drop_first() =~= st.out);
            assert forall|j: int| 0 <= j < out.len() && is_table_line(#[trigger] out[j]) implies first_provider_value(out.take(j)) == Some(t) by {
                if j > 0 {
                    assert(out[j] == st.out[j - 1]);
                }
            }
            assert forall|i: int| 0 <= i < out.len() implies no_nl(#[trigger] out[i]) by {
                if i > 0 {
                    assert(out[i] == st.out[i - 1]);
                }
            }
        }
    }
    assert(out.len() > 0) by {
        if out.len() == 0 {
            assert(first_provider_value(out) is None);
        }
    }
    let r = with_model_provider(raw, t);
    let ends = raw.len() > 0 && raw.last() == '\n';
    lemma_lines_join(out, true);
    lemma_lines_join(out, false);
    if ends {
        assert(r == join_lines(out).push('\n'));
        lemma_alike_settles(lines_of(r), out, t);
        lemma_lines_concat(r, seq!['\n']);
        assert(r.push('\n') =~= r + seq!['\n']);
        assert(lines_of(seq!['\n']) =~= seq![Seq::<char>::empty()]) by {
            let nl = seq!['\n'];
            assert(nl[0] == '\n');
            lemma_first_nl(nl, 0);
            assert(first_nl(nl) == 0);
            assert(nl.subrange(0, 0) =~= Seq::<char>::empty());
            assert(nl.subrange(1, 1) =~= Seq::<char>::empty());
            assert(strip_cr(Seq::<char>::empty()) =~= Seq::<char>::empty());
            assert(lines_of(Seq::<char>::empty()) =~= Seq::<Seq<char>>::empty());
            assert(lines_of(nl) == seq![strip_cr(nl.subrange(0, 0))] + lines_of(nl.subrange(1, 1)));
        }
        lemma_settles_push(lines_of(r), Seq::<char>::empty(), t);
        assert(lines_of(r) + seq![Seq::<char>::empty()] =~= lines_of(r).push(Seq::<char>::empty()));
    } else {
        assert(r == join_lines(out));
        lemma_alike_settles(lines_of(r.push('\n')), out, t);
        if alike(lines_of(r), out) {
            lemma_alike_settles(lines_of(r), out, t);
        } else {
            lemma_settles_drop_empty(out, t);
            lemma_alike_settles(lines_of(r), out.drop_last(), t);
        }
    }
}

/// What a read gives back of a write: after `model_provider` is set to a
/// plain key, the configuration names that key as its provider.
pub proof fn law_model_provider_reads_back(raw: Seq<char>, t: Seq<char>)
    requires
        plain_provider_key(t),
    ensures
        crate::prelaunch_provider::configured_provider(with_model_provider(raw, t)) == Some(t),
{
    lemma_with_model_provider_settles(raw, t);
}

// ---------------------------------------------------------------------------
// Writing a profile's table
// ---------------------------------------------------------------------------
proof fn lemma_first_provider_concat(a: Seq<Seq<char>>, b: Seq<Seq<char>>)
    requires
        first_provider_value(a) is Some,
    ensures
        first_provider_value(a + b) == first_provider_value(a),
    decreases a.len(),
{
    if a.len() > 0 {
        assert((a + b)[0] == a[0]);
        if provider_line_value(a[0]) is None {
            assert((a + b).drop_first() =~= a.drop_first() + b);
            lemma_first_provider_concat(a.drop_first(), b);
        }
    }
}

/// A table found by `table_range` starts at the start of a line, and that
/// line is the table's header.
pub open spec fn aligned_header(r: Seq<char>, h: Seq<char>, a: int) -> bool {
    &&& 0 <= a < r.len()
    &&& (a == 0 || r[a - 1] == '\n')
    &&& trim(r.skip(a).take(piece_len(r.skip(a)) as int)) == h
}

proof fn lemma_table_range_aligned(r: Seq<char>, s: Seq<char>, off: nat, start: Option<nat>, h: Seq<char>)
    requires
        s == r.skip(off as int),
        off <= r.len(),
        off < r.len() ==> (off == 0 || r[off - 1] == '\n'),
        start matches Some(a0) ==> aligned_header(r, h, a0 as int),
    ensures
        table_range_from(s, off, start, h) matches Some((a, b)) ==> aligned_header(r, h, a as int),
    decreases s.len(),
{
    if s.len() > 0 {
        let k = piece_len(s);
        let t = trim(s.take(k as int));
        if start is Some && starts_with(t, seq!['[']) {
        } else {
            let next = if t == h {
                Some(off)
            } else {
                start
            };
            lemma_first_nl_props(s);
            if t == h {
                assert(r.skip(off as int) == s);
            }
            assert(s.skip(k as int) =~= r.skip((off + k) as int));
            if off + k < r.len() {
                assert(first_nl(s) < s.len());
                assert(r[off + k - 1] == s[k - 1]);
            }
            lemma_table_range_aligned(r, s.skip(k as int), off + k, next, h);
        }
    }
}

/// The first line of a text reads as its first piece does.
proof fn lemma_first_line_is_first_piece(s: Seq<char>)
    requires
        s.len() > 0,
    ensures
        lines_of(s).len() > 0,
        trim(lines_of(s)[0]) == trim(s.take(piece_len(s) as int)),
{
    lemma_first_nl_props(s);
    let k = first_nl(s);
    if k < s.len() {
        let line = s.subrange(0, k as int);
        assert(s.take(k as int + 1) =~= line.push('\n'));
        lemma_trim_push_ws(line, '\n');
        lemma_trim_strip_cr(line);
    } else {
        assert(s.take(s.len() as int) =~= s);
    }
}

/// Writing a profile's table keeps the provider that the text settles.
proof fn lemma_provider_block_keeps(r: Seq<char>, p: ProviderProfileView, t: Seq<char>)
    requires
        settles(lines_of(r), t),
        settles(lines_of(r.push('\n')), t),
    ensures
        configured_provider(with_provider_block(r, p)) == Some(t),
{
    let h = profile_header(p.key);
    let block = provider_block(p);
    match table_range(r, h) {
        Some((a, b)) => {
            assert(r.skip(0) =~= r);
            lemma_table_range_aligned(r, r, 0, None, h);
            let ai = a as int;
            let pre = r.take(ai);
            let post = r.skip(ai);
            assert(pre + post =~= r);
            lemma_lines_concat(pre, post);
            lemma_first_line_is_first_piece(post);
            reveal_strlit("[model_providers.");
            assert(h[0] == '[');
            assert(trim(lines_of(post)[0]) == h);
            assert(h.subrange(0, 1) =~= seq!['[']);
            let ls = lines_of(r);
            let j = lines_of(pre).len() as int;
            assert(ls[j] == lines_of(post)[0]);
            assert(is_table_line(ls[j]));
            assert(ls.take(j) =~= lines_of(pre));
            assert(first_provider_value(lines_of(pre)) == Some(t));
            let rest = block + r.skip(b as int);
            assert(r.take(ai) + block + r.skip(b as int) =~= pre + rest);
            lemma_lines_concat(pre, rest);
            lemma_first_provider_concat(lines_of(pre), lines_of(rest));
        },
        None => {
            let ended = if r.len() > 0 && r.last() == '\n' {
                r
            } else {
                r.push('\n')
            };
            assert(first_provider_value(lines_of(ended)) == Some(t));
            let rest = seq!['\n'] + block;
            assert(ended.push('\n') + block =~= ended + rest);
            lemma_lines_concat(ended, rest);
            lemma_first_provider_concat(lines_of(ended), lines_of(rest));
        },
    }
}

/// What a read gives back of a write, for a whole launch: when the
/// configuration for a launch is written with a plain provider key, reading
/// it back names that provider (the check that `configure_provider_for_launch`
/// makes after writing succeeds).
pub proof fn law_launch_configuration_reads_back(raw: Seq<char>, mode: Seq<char>, profile: Option<ProviderProfileView>)
    requires
        provider_update(raw, mode, profile) is Ok,
        plain_provider_key(provider_update(raw, mode, profile)->Ok_0.0),
    ensures
        configured_provider(provider_update(raw, mode, profile)->Ok_0.1) == Some(provider_update(raw, mode, profile)->Ok_0.0),
{
    let (target, updated) = provider_update(raw, mode, profile)->Ok_0;
    if mode == "official"@ {
        law_model_provider_reads_back(raw, target);
    } else {
        lemma_with_model_provider_settles(raw, target);
        let chosen = match profile {
            Some(p) => Ok(p),
            None => crate::prelaunch_provider::config_profile(raw, mode),
        };
        let p = chosen->Ok_0;
        lemma_provider_block_keeps(with_model_provider(raw, target), p, target);
    }
}

} // verus!
