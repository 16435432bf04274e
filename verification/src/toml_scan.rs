//! Small scanners for the line-oriented TOML that the MCP configuration uses:
//! comment stripping, section headers, quoted values and inline arrays.
use vstd::prelude::*;
use crate::lines::seqs;
use crate::text::{
    copy_range, find_char, find_char_exec, is_ws, push_all, starts_with, starts_with_exec,
    strip_prefix, trim, trim_bounds, trim_vec,
};

verus! {

/// The optional character vector's view.
pub open spec fn opt_view(o: Option<Vec<char>>) -> Option<Seq<char>> {
    match o {
        Some(v) => Some(v@),
        None => None,
    }
}

// ---------------------------------------------------------------------------
// Comments
// ---------------------------------------------------------------------------
/// What the comment scanner knows after reading some characters of a line:
/// whether it is inside a quoted string, whether the previous character was an
/// escaping backslash, and where a comment started, if one did.
pub struct CommentScan {
    pub in_quotes: bool,
    pub escaped: bool,
    pub cut: Option<nat>,
}

pub open spec fn comment_step(st: CommentScan, c: char, i: nat) -> CommentScan {
    if st.cut is Some {
        st
    } else if st.escaped {
        CommentScan { escaped: false, ..st }
    } else if c == '\\' {
        CommentScan { escaped: true, ..st }
    } else if c == '"' {
        CommentScan { in_quotes: !st.in_quotes, ..st }
    } else if c == '#' && !st.in_quotes {
        CommentScan { cut: Some(i), ..st }
    } else {
        st
    }
}

/// The scanner's state after the first `n` characters of `s`.
pub open spec fn comment_scan(s: Seq<char>, n: nat) -> CommentScan
    decreases n,
{
    if n == 0 {
        CommentScan { in_quotes: false, escaped: false, cut: None }
    } else {
        comment_step(comment_scan(s, (n - 1) as nat), s[n - 1], (n - 1) as nat)
    }
}

/// `s` up to its first `#` that is neither escaped nor inside double quotes.
pub open spec fn strip_comment(s: Seq<char>) -> Seq<char> {
    match comment_scan(s, s.len()).cut {
        Some(i) => s.subrange(0, i as int),
        None => s,
    }
}

pub proof fn lemma_comment_cut_bound(s: Seq<char>, n: nat)
    ensures
        comment_scan(s, n).cut matches Some(i) ==> i < n,
    decreases n,
{
    if n > 0 {
        lemma_comment_cut_bound(s, (n - 1) as nat);
    }
}

/// `s` without its trailing comment (`strip_toml_comment`).
pub fn strip_toml_comment(s: &[char]) -> (out: Vec<char>)
    ensures
        out@ == strip_comment(s@),
{
    let mut in_quotes = false;
    let mut escaped = false;
    let mut i: usize = 0;
    while i < s.len()
        invariant
            i <= s@.len(),
            comment_scan(s@, i as nat) == (CommentScan { in_quotes, escaped, cut: None }),
        decreases s@.len() - i,
    {
        let c = s[i];
        if escaped {
            escaped = false;
        } else if c == '\\' {
            escaped = true;
        } else if c == '"' {
            in_quotes = !in_quotes;
        } else if c == '#' && !in_quotes {
            proof {
                assert(comment_scan(s@, (i + 1) as nat).cut == Some(i as nat));
                lemma_cut_stays(s@, (i + 1) as nat, s@.len());
            }
            return copy_range(s, 0, i);
        }
        i = i + 1;
    }
    proof {
        assert(s@.len() == i);
    }
    copy_range_all(s)
}

pub proof fn lemma_cut_stays(s: Seq<char>, m: nat, n: nat)
    requires
        m <= n,
        comment_scan(s, m).cut is Some,
    ensures
        comment_scan(s, n).cut == comment_scan(s, m).cut,
    decreases n - m,
{
    if m < n {
        lemma_cut_stays(s, m, (n - 1) as nat);
    }
}

/// A copy of all of `s`.
pub fn copy_range_all(s: &[char]) -> (out: Vec<char>)
    ensures
        out@ == s@,
{
    let out = copy_range(s, 0, s.len());
    assert(s@.subrange(0, s@.len() as int) =~= s@);
    out
}

// ---------------------------------------------------------------------------
// UTF-8 widths
// ---------------------------------------------------------------------------
/// The number of bytes that UTF-8 takes for `c`.
pub open spec fn utf8_width(c: char) -> nat {
    let u = c as u32;
    if u < 0x80 {
        1
    } else if u < 0x800 {
        2
    } else if u < 0x10000 {
        3
    } else {
        4
    }
}

/// The number of bytes that UTF-8 takes for `s`.
pub open spec fn utf8_len(s: Seq<char>) -> nat
    decreases s.len(),
{
    if s.len() == 0 {
        0
    } else {
        utf8_len(s.drop_last()) + utf8_width(s.last())
    }
}

/// The index of the character that starts at byte `b` of the UTF-8 encoding
/// of `s` (`s.len()` for the end); `None` when `b` falls inside a character or
/// past the end.
pub open spec fn char_index_at_byte(s: Seq<char>, b: nat) -> Option<nat>
    decreases s.len(),
{
    if b == 0 {
        Some(0)
    } else if s.len() == 0 {
        None
    } else if b < utf8_width(s[0]) {
        None
    } else {
        match char_index_at_byte(s.drop_first(), (b - utf8_width(s[0])) as nat) {
            Some(k) => Some(k + 1),
            None => None,
        }
    }
}

pub fn utf8_width_exec(c: char) -> (w: usize)
    ensures
        w == utf8_width(c),
{
    let u = c as u32;
    if u < 0x80 {
        1
    } else if u < 0x800 {
        2
    } else if u < 0x10000 {
        3
    } else {
        4
    }
}

pub proof fn lemma_utf8_len_push(s: Seq<char>, c: char)
    ensures
        utf8_len(s.push(c)) == utf8_len(s) + utf8_width(c),
{
    assert(s.push(c).drop_last() =~= s);
}

pub proof fn lemma_utf8_len_bound(s: Seq<char>)
    ensures
        utf8_len(s) <= 4 * s.len(),
    decreases s.len(),
{
    if s.len() > 0 {
        lemma_utf8_len_bound(s.drop_last());
    }
}

pub proof fn lemma_char_index_bound(s: Seq<char>, b: nat)
    ensures
        char_index_at_byte(s, b) matches Some(k) ==> k <= s.len(),
    decreases s.len(),
{
    if b > 0 && s.len() > 0 && b >= utf8_width(s[0]) {
        lemma_char_index_bound(s.drop_first(), (b - utf8_width(s[0])) as nat);
    }
}

/// `char_index_at_byte` computed by walking the characters.
pub fn char_index_at_byte_exec(s: &[char], b: u128) -> (r: Option<usize>)
    ensures
        match r {
            Some(k) => char_index_at_byte(s@, b as nat) == Some(k as nat),
            None => char_index_at_byte(s@, b as nat) is None,
        },
{
    let mut i: usize = 0;
    let mut left: u128 = b;
    assert(s@.subrange(0, s@.len() as int) =~= s@);
    while i < s.len() && left > 0
        invariant
            i <= s@.len(),
            char_index_at_byte(s@, b as nat) == (match char_index_at_byte(
                s@.subrange(i as int, s@.len() as int),
                left as nat,
            ) {
                Some(k) => Some((k + i) as nat),
                None => None,
            }),
        decreases s@.len() - i,
    {
        let w = utf8_width_exec(s[i]) as u128;
        let ghost rest = s@.subrange(i as int, s@.len() as int);
        proof {
            assert(rest[0] == s@[i as int]);
            assert(rest.drop_first() =~= s@.subrange(i + 1, s@.len() as int));
        }
        if left < w {
            return None;
        }
        left = left - w;
        i = i + 1;
    }
    if left == 0 {
        Some(i)
    } else {
        proof {
            assert(s@.subrange(i as int, s@.len() as int).len() == 0);
        }
        None
    }
}

// ---------------------------------------------------------------------------
// Section headers
// ---------------------------------------------------------------------------
/// The quoted-name scanner after some characters: the name read so far,
/// whether the last character was an escaping backslash, and the index of
/// the closing quote once it has been seen.
pub struct QuoteScan {
    pub name: Seq<char>,
    pub escaped: bool,
    pub close: Option<nat>,
}

pub open spec fn quote_step(st: QuoteScan, c: char, i: nat) -> QuoteScan {
    if st.close is Some {
        st
    } else if st.escaped {
        QuoteScan { name: st.name.push(c), escaped: false, close: None }
    } else if c == '\\' {
        QuoteScan { escaped: true, ..st }
    } else if c == '"' {
        QuoteScan { close: Some(i), ..st }
    } else {
        QuoteScan { name: st.name.push(c), ..st }
    }
}

pub open spec fn quote_scan(s: Seq<char>, n: nat) -> QuoteScan
    decreases n,
{
    if n == 0 {
        QuoteScan { name: Seq::empty(), escaped: false, close: None }
    } else {
        quote_step(quote_scan(s, (n - 1) as nat), s[n - 1], (n - 1) as nat)
    }
}

pub proof fn lemma_close_stays(s: Seq<char>, m: nat, n: nat)
    requires
        m <= n,
        quote_scan(s, m).close is Some,
    ensures
        quote_scan(s, n) == quote_scan(s, m),
    decreases n - m,
{
    if m < n {
        lemma_close_stays(s, m, (n - 1) as nat);
    }
}

pub open spec fn mcp_prefix() -> Seq<char> {
    "mcp_servers."@
}

/// The text after the `mcp_servers.` prefix of a section header, if present and nonempty.
pub open spec fn header_rest(h: Seq<char>) -> Option<Seq<char>> {
    match strip_prefix(h, mcp_prefix()) {
        Some(r) => if r.len() > 0 {
            Some(r)
        } else {
            None
        },
        None => None,
    }
}

/// Where the text after a quoted name resumes: the name's length in bytes plus
/// two is taken as a byte offset into the header's remainder.
pub open spec fn quoted_resume(r: Seq<char>) -> Option<nat> {
    let st = quote_scan(r.drop_first(), (r.len() - 1) as nat);
    char_index_at_byte(r, utf8_len(st.name) + 2)
}

/// Whether the section header `h` names an MCP server with a quoted name whose
/// byte offset lands inside a character: on such a header the header parser
/// would slice a string off a character boundary.
pub open spec fn header_slices_badly(h: Seq<char>) -> bool {
    match header_rest(h) {
        Some(r) => r[0] == '"' && quote_scan(r.drop_first(), (r.len() - 1) as nat).close is Some
            && quoted_resume(r) is None,
        None => false,
    }
}

/// The text after the first `'.'`, as `Some`, or `None` when there is no dot.
pub open spec fn after_dot(rest: Seq<char>) -> Option<Seq<char>> {
    if rest.len() > 0 && rest[0] == '.' {
        Some(rest.drop_first())
    } else {
        None
    }
}

/// The server name and the subsection that a section header (the text inside
/// `[...]`) names, when it is an `mcp_servers.` header.
pub open spec fn section_header(h: Seq<char>) -> Option<(Seq<char>, Option<Seq<char>>)> {
    match header_rest(h) {
        None => None,
        Some(r) => if r[0] == '"' {
            let st = quote_scan(r.drop_first(), (r.len() - 1) as nat);
            match st.close {
                None => None,
                Some(_) => match quoted_resume(r) {
                    Some(p) => Some((st.name, after_dot(r.subrange(p as int, r.len() as int)))),
                    None => None,
                },
            }
        } else {
            match find_char(r, '.') {
                Some(d) => if d == 0 {
                    None
                } else {
                    Some((r.subrange(0, d), Some(r.subrange(d + 1, r.len() as int))))
                },
                None => Some((r, None)),
            }
        },
    }
}

/// Parses the inside of a section header.
pub fn parse_section_header(h: &[char]) -> (r: Option<(Vec<char>, Option<Vec<char>>)>)
    requires
        !header_slices_badly(h@),
    ensures
        match r {
            Some((n, sub)) => section_header(h@) == Some((n@, opt_view(sub))),
            None => section_header(h@) is None,
        },
{
    let prefix = crate::text::chars_of("mcp_servers.");
    if !starts_with_exec(h, prefix.as_slice()) {
        return None;
    }
    if h.len() == prefix.len() {
        return None;
    }
    let r = copy_range(h, prefix.len(), h.len());
    assert(r@ == h@.subrange(mcp_prefix().len() as int, h@.len() as int));
    assert(header_rest(h@) == Some(r@));
    if r[0] == '"' {
        let mut name: Vec<char> = Vec::new();
        let mut escaped = false;
        let mut i: usize = 1;
        let ghost inner = r@.drop_first();
        while i < r.len()
            invariant
                1 <= i <= r@.len(),
                name@.len() < i,
                inner == r@.drop_first(),
                header_rest(h@) == Some(r@),
                r@[0] == '"',
                !header_slices_badly(h@),
                quote_scan(inner, (i - 1) as nat) == (QuoteScan {
                    name: name@,
                    escaped,
                    close: None,
                }),
            decreases r@.len() - i,
        {
            let c = r[i];
            assert(inner[i - 1] == c);
            if escaped {
                name.push(c);
                escaped = false;
            } else if c == '\\' {
                escaped = true;
            } else if c == '"' {
                proof {
                    assert(quote_scan(inner, i as nat).close == Some((i - 1) as nat));
                    assert(quote_scan(inner, i as nat).name == name@);
                    lemma_close_stays(inner, i as nat, inner.len());
                    assert(inner.len() == (r@.len() - 1) as nat);
                }
                let nb = utf8_len_exec(name.as_slice());
                proof {
                    lemma_char_index_bound(r@, (nb + 2) as nat);
                }
                let resume = char_index_at_byte_exec(r.as_slice(), nb + 2);
                match resume {
                    Some(p) => {
                        let rest = copy_range(r.as_slice(), p, r.len());
                        assert(quoted_resume(r@) == Some(p as nat));
                        let ghost st = quote_scan(r@.drop_first(), (r@.len() - 1) as nat);
                        assert(st.close is Some);
                        assert(st.name == name@);
                        assert(rest@ == r@.subrange(p as int, r@.len() as int));
                        assert(section_header(h@) == Some((name@, after_dot(rest@))));
                        if rest.len() > 0 && rest[0] == '.' {
                            let sub = copy_range(rest.as_slice(), 1, rest.len());
                            assert(sub@ =~= rest@.drop_first());
                            return Some((name, Some(sub)));
                        }
                        return Some((name, None));
                    },
                    None => {
                        return None;
                    },
                }
            } else {
                name.push(c);
            }
            i = i + 1;
        }
        return None;
    }
    match find_char_exec(r.as_slice(), '.') {
        Some(d) => {
            if d == 0 {
                return None;
            }
            proof {
                crate::text::lemma_find_from(r@, seq!['.'], 0);
            }
            let n = copy_range(r.as_slice(), 0, d);
            let sub = copy_range(r.as_slice(), d + 1, r.len());
            Some((n, Some(sub)))
        },
        None => Some((r, None)),
    }
}

/// The UTF-8 length of `s` in bytes, for the header scanner.
pub fn utf8_len_exec(s: &[char]) -> (n: u128)
    ensures
        n == utf8_len(s@),
        n <= 4 * s@.len(),
{
    let mut n: u128 = 0;
    let mut i: usize = 0;
    while i < s.len()
        invariant
            i <= s@.len(),
            n == utf8_len(s@.subrange(0, i as int)),
            n <= 4 * i,
        decreases s@.len() - i,
    {
        proof {
            lemma_utf8_len_push(s@.subrange(0, i as int), s@[i as int]);
            assert(s@.subrange(0, i as int).push(s@[i as int]) =~= s@.subrange(0, i + 1));
        }
        n = n + utf8_width_exec(s[i]) as u128;
        i = i + 1;
    }
    assert(s@.subrange(0, s@.len() as int) =~= s@);
    n
}

// ---------------------------------------------------------------------------
// Values
// ---------------------------------------------------------------------------
/// A trimmed value without one pair of surrounding double or single quotes.
pub open spec fn unquote(v: Seq<char>) -> Seq<char> {
    let t = trim(v);
    if t.len() >= 2 && ((t[0] == '"' && t.last() == '"') || (t[0] == '\'' && t.last() == '\'')) {
        t.subrange(1, t.len() - 1)
    } else {
        t
    }
}

/// Removes surrounding whitespace and one pair of matching quotes (`unquote_toml`).
pub fn unquote_toml(v: &[char]) -> (out: Vec<char>)
    ensures
        out@ == unquote(v@),
{
    let t = trim_vec(v);
    let n = t.len();
    if n >= 2 && ((t[0] == '"' && t[n - 1] == '"') || (t[0] == '\'' && t[n - 1] == '\'')) {
        copy_range(t.as_slice(), 1, n - 1)
    } else {
        t
    }
}

/// The inline-array scanner after some characters: the items finished so far,
/// the item being read, whether it is inside double quotes, and whether the
/// previous character was an escaping backslash.
pub struct ArrayScan {
    pub items: Seq<Seq<char>>,
    pub current: Seq<char>,
    pub in_quotes: bool,
    pub escaped: bool,
}

/// `items` with the trimmed `item` appended unless it is empty.
pub open spec fn push_nonblank(items: Seq<Seq<char>>, item: Seq<char>) -> Seq<Seq<char>> {
    if trim(item).len() > 0 {
        items.push(trim(item))
    } else {
        items
    }
}

pub open spec fn array_step(st: ArrayScan, c: char) -> ArrayScan {
    if st.escaped {
        ArrayScan { current: st.current.push(c), escaped: false, ..st }
    } else if c == '\\' {
        ArrayScan { escaped: true, ..st }
    } else if c == '"' {
        ArrayScan { in_quotes: !st.in_quotes, ..st }
    } else if c == ',' && !st.in_quotes {
        ArrayScan { items: push_nonblank(st.items, st.current), current: Seq::empty(), ..st }
    } else {
        ArrayScan { current: st.current.push(c), ..st }
    }
}

pub open spec fn array_scan(s: Seq<char>, n: nat) -> ArrayScan
    decreases n,
{
    if n == 0 {
        ArrayScan { items: Seq::empty(), current: Seq::empty(), in_quotes: false, escaped: false }
    } else {
        array_step(array_scan(s, (n - 1) as nat), s[n - 1])
    }
}

/// The items of an inline TOML array of strings: split at commas outside
/// double quotes, quotes dropped, backslash escapes resolved, items trimmed and
/// empty ones skipped; no items when the value is not bracketed.
pub open spec fn toml_array(v: Seq<char>) -> Seq<Seq<char>> {
    let t = trim(v);
    if t.len() >= 2 && t[0] == '[' && t.last() == ']' {
        let inner = t.subrange(1, t.len() - 1);
        let st = array_scan(inner, inner.len());
        push_nonblank(st.items, st.current)
    } else {
        Seq::empty()
    }
}

fn push_nonblank_exec(items: &mut Vec<Vec<char>>, item: &[char])
    ensures
        seqs(final(items)@) == push_nonblank(seqs(old(items)@), item@),
{
    let t = trim_vec(item);
    if t.len() > 0 {
        let ghost before = items@;
        items.push(t);
        assert(seqs(items@) =~= seqs(before).push(t@));
    }
}

/// Parses an inline array of strings (`parse_toml_array`).
pub fn parse_toml_array(v: &[char]) -> (out: Vec<Vec<char>>)
    ensures
        seqs(out@) == toml_array(v@),
{
    let t = trim_vec(v);
    let n = t.len();
    if !(n >= 2 && t[0] == '[' && t[n - 1] == ']') {
        let e: Vec<Vec<char>> = Vec::new();
        assert(seqs(e@) =~= Seq::<Seq<char>>::empty());
        return e;
    }
    let inner = copy_range(t.as_slice(), 1, n - 1);
    let mut items: Vec<Vec<char>> = Vec::new();
    let mut current: Vec<char> = Vec::new();
    let mut in_quotes = false;
    let mut escaped = false;
    let mut i: usize = 0;
    assert(seqs(items@) =~= Seq::<Seq<char>>::empty());
    while i < inner.len()
        invariant
            i <= inner@.len(),
            array_scan(inner@, i as nat) == (ArrayScan {
                items: seqs(items@),
                current: current@,
                in_quotes,
                escaped,
            }),
        decreases inner@.len() - i,
    {
        let c = inner[i];
        if escaped {
            current.push(c);
            escaped = false;
        } else if c == '\\' {
            escaped = true;
        } else if c == '"' {
            in_quotes = !in_quotes;
        } else if c == ',' && !in_quotes {
            push_nonblank_exec(&mut items, current.as_slice());
            current = Vec::new();
            assert(current@ =~= Seq::<char>::empty());
        } else {
            current.push(c);
        }
        i = i + 1;
    }
    push_nonblank_exec(&mut items, current.as_slice());
    items
}

/// Whether the header parser cannot slice this header (`header_slices_badly`).
pub fn header_slices_badly_exec(h: &[char]) -> (b: bool)
    ensures
        b == header_slices_badly(h@),
{
    let prefix = crate::text::chars_of("mcp_servers.");
    if !starts_with_exec(h, prefix.as_slice()) {
        return false;
    }
    if h.len() == prefix.len() {
        return false;
    }
    let r = copy_range(h, prefix.len(), h.len());
    assert(r@ == h@.subrange(mcp_prefix().len() as int, h@.len() as int));
    assert(header_rest(h@) == Some(r@));
    if r[0] != '"' {
        return false;
    }
    let mut name: Vec<char> = Vec::new();
    let mut escaped = false;
    let mut i: usize = 1;
    let ghost inner = r@.drop_first();
    while i < r.len()
        invariant
            1 <= i <= r@.len(),
            name@.len() < i,
            inner == r@.drop_first(),
            header_rest(h@) == Some(r@),
            r@[0] == '"',
            quote_scan(inner, (i - 1) as nat) == (QuoteScan { name: name@, escaped, close: None }),
        decreases r@.len() - i,
    {
        let c = r[i];
        assert(inner[i - 1] == c);
        if escaped {
            name.push(c);
            escaped = false;
        } else if c == '\\' {
            escaped = true;
        } else if c == '"' {
            proof {
                lemma_close_stays(inner, i as nat, inner.len());
                assert(inner.len() == (r@.len() - 1) as nat);
            }
            let nb = utf8_len_exec(name.as_slice());
            let resume = char_index_at_byte_exec(r.as_slice(), nb + 2);
            return resume.is_none();
        } else {
            name.push(c);
        }
        i = i + 1;
    }
    proof {
        assert(inner.len() == (i - 1) as nat);
    }
    false
}

} // verus!
