//! The system's proxy settings as candidate proxy URLs: read from what
//! `scutil --proxy` prints on macOS, from the registry and WinHTTP on
//! Windows, and from the proxies a PAC script names.
use vstd::prelude::*;
use crate::lines::{lines_of, seqs, split_lines};
use crate::sorting::{key_index, lemma_key_index, lemma_key_index_found, map_get, map_insert};
use crate::text::{
    ascii_lower_seq, chars_of, contains, contains_exec, copy_range, eq_chars, find_char,
    find_char_exec, find_from, find_from_exec, is_ws, is_ws_char, lemma_find_from, occurs_at,
    push_all, push_str, split_str, split_str_exec, starts_with, starts_with_exec, string_of,
    trim, trim_vec,
};

verus! {

pub open spec fn strings_view(v: Seq<String>) -> Seq<Seq<char>> {
    v.map_values(|s: String| s@)
}

// ---------------------------------------------------------------------------
// Candidate URLs
// ---------------------------------------------------------------------------
/// The URL for a proxy host (`push_url`): nothing for a blank host; the host
/// itself when it already has a scheme; else the scheme, the host and, when
/// not blank, the port.
pub open spec fn proxy_url(scheme: Seq<char>, host: Option<Seq<char>>, port: Option<Seq<char>>) -> Option<Seq<char>> {
    match host {
        None => None,
        Some(h0) => {
            let h = trim(h0);
            if h.len() == 0 {
                None
            } else if contains(h, "://"@) {
                Some(h)
            } else {
                match port {
                    Some(p) if trim(p).len() > 0 => Some(scheme + "://"@ + h + seq![':'] + trim(p)),
                    _ => Some(scheme + "://"@ + h),
                }
            }
        },
    }
}

/// `c` with the URL added when there is one.
pub open spec fn with_url(c: Seq<Seq<char>>, url: Option<Seq<char>>) -> Seq<Seq<char>> {
    match url {
        Some(u) => c.push(u),
        None => c,
    }
}

fn push_url(candidates: &mut Vec<String>, scheme: &str, host: Option<&[char]>, port: Option<&[char]>)
    ensures
        strings_view(final(candidates)@) == with_url(
            strings_view(old(candidates)@),
            proxy_url(
                scheme@,
                match host {
                    Some(h) => Some(h@),
                    None => None,
                },
                match port {
                    Some(p) => Some(p@),
                    None => None,
                },
            ),
        ),
{
    let h = match host {
        Some(h) => trim_vec(h),
        None => {
            return;
        },
    };
    if h.len() == 0 {
        return;
    }
    let sep = chars_of("://");
    let ghost before = strings_view(candidates@);
    let url: Vec<char> = if contains_exec(h.as_slice(), sep.as_slice()) {
        h
    } else {
        let mut u = chars_of(scheme);
        push_str(&mut u, "://");
        push_all(&mut u, h.as_slice());
        match port {
            Some(p) => {
                let tp = trim_vec(p);
                if tp.len() > 0 {
                    u.push(':');
                    push_all(&mut u, tp.as_slice());
                }
            },
            None => {},
        }
        u
    };
    proof {
        let hv = match host {
            Some(x) => Some(x@),
            None => None,
        };
        let pv = match port {
            Some(x) => Some(x@),
            None => None,
        };
        assert(hv == Some(host.unwrap()@));
        assert(proxy_url(scheme@, hv, pv) == Some(url@));
    }
    candidates.push(string_of(url.as_slice()));
    assert(strings_view(candidates@) =~= before.push(url@));
}

/// The values without repeats, each where it first occurs (`dedupe`).
pub open spec fn dedupe(s: Seq<Seq<char>>) -> Seq<Seq<char>>
    decreases s.len(),
{
    if s.len() == 0 {
        s
    } else {
        let d = dedupe(s.drop_last());
        if d.contains(s.last()) {
            d
        } else {
            d.push(s.last())
        }
    }
}

/// Drops repeated values, keeping the first of each (`dedupe`).
pub fn dedupe_exec(values: Vec<String>) -> (out: Vec<String>)
    ensures
        strings_view(out@) == dedupe(strings_view(values@)),
{
    let ghost vs = strings_view(values@);
    let mut out: Vec<String> = Vec::new();
    let mut i: usize = 0;
    while i < values.len()
        invariant
            i <= values@.len(),
            vs == strings_view(values@),
            strings_view(out@) == dedupe(vs.take(i as int)),
        decreases values@.len() - i,
    {
        assert(vs.take(i as int + 1).drop_last() =~= vs.take(i as int));
        let ghost d = strings_view(out@);
        let v = chars_of(values[i].as_str());
        let mut seen = false;
        let mut j: usize = 0;
        while j < out.len()
            invariant
                j <= out@.len(),
                d == strings_view(out@),
                v@ == vs[i as int],
                seen == exists|k: int| 0 <= k < j && d[k] == v@,
            decreases out@.len() - j,
        {
            let o = chars_of(out[j].as_str());
            if eq_chars(o.as_slice(), v.as_slice()) {
                seen = true;
            }
            assert(d[j as int] == out@[j as int]@);
            j = j + 1;
        }
        assert(seen == d.contains(v@));
        if !seen {
            out.push(values[i].clone());
            assert(strings_view(out@) =~= d.push(vs[i as int]));
        }
        i = i + 1;
    }
    assert(vs.take(values@.len() as int) =~= vs);
    out
}

// ---------------------------------------------------------------------------
// PAC scripts
// ---------------------------------------------------------------------------
/// ASCII upper-casing of one character.
pub open spec fn ascii_upper(c: char) -> char {
    if 'a' <= c && c <= 'z' {
        ((c as u32) - 32) as char
    } else {
        c
    }
}

pub open spec fn ascii_upper_seq(s: Seq<char>) -> Seq<char> {
    s.map_values(|c: char| ascii_upper(c))
}

/// A character that ends an address in a PAC script.
pub open spec fn ends_address(c: char) -> bool {
    c == ';' || c == '"' || c == '\'' || is_ws(c)
}

/// The length of the address at the start of `s`.
pub open spec fn address_len(s: Seq<char>) -> nat
    decreases s.len(),
{
    if s.len() == 0 || ends_address(s[0]) {
        0
    } else {
        1 + address_len(s.drop_first())
    }
}

/// The proxies after each occurrence of `token` (in upper-cased `upper`)
/// from `from` on, with `scheme`.
pub open spec fn pac_token_urls(upper: Seq<char>, contents: Seq<char>, token: Seq<char>, scheme: Seq<char>, from: int) -> Seq<Seq<char>>
    decreases upper.len() + 1 - from,
{
    if token.len() == 0 || from < 0 {
        Seq::empty()
    } else {
        match find_from(upper, token, from) {
            None => Seq::empty(),
            Some(i) => {
                proof {
                    lemma_find_from(upper, token, from);
                }
                let start = i + token.len();
                let rest = contents.skip(start);
                let address = trim(rest.take(address_len(rest) as int));
                let here = if address.len() > 0 {
                    with_url(Seq::empty(), proxy_url(scheme, Some(address), None))
                } else {
                    Seq::empty()
                };
                here + pac_token_urls(upper, contents, token, scheme, start)
            },
        }
    }
}

/// The proxies a PAC script names (`parse_pac_candidates` once the script is
/// loaded): after each `SOCKS5 `, `SOCKS `, `HTTPS ` and `PROXY ` in any
/// ASCII case, the address up to a `;`, a quote or whitespace, without repeats.
pub open spec fn pac_candidates(contents: Seq<char>) -> Seq<Seq<char>> {
    let upper = ascii_upper_seq(contents);
    dedupe(
        pac_token_urls(upper, contents, "SOCKS5 "@, "socks5"@, 0) + pac_token_urls(upper, contents, "SOCKS "@, "socks5"@, 0)
            + pac_token_urls(upper, contents, "HTTPS "@, "http"@, 0) + pac_token_urls(upper, contents, "PROXY "@, "http"@, 0),
    )
}

fn ascii_upper_vec(s: &[char]) -> (out: Vec<char>)
    ensures
        out@ == ascii_upper_seq(s@),
{
    let mut out: Vec<char> = Vec::new();
    let mut i: usize = 0;
    while i < s.len()
        invariant
            i <= s@.len(),
            out@ =~= ascii_upper_seq(s@.take(i as int)),
        decreases s@.len() - i,
    {
        let c = s[i];
        let u = if 'a' <= c && c <= 'z' {
            crate::text::char_from_ascii((c as u32) - 32)
        } else {
            c
        };
        out.push(u);
        i = i + 1;
    }
    assert(s@.take(s@.len() as int) =~= s@);
    out
}

fn pac_token_urls_exec(upper: &[char], contents: &[char], token: &str, scheme: &str, out: &mut Vec<String>)
    requires
        upper@.len() == contents@.len(),
        token@.len() > 0,
    ensures
        strings_view(final(out)@) == strings_view(old(out)@) + pac_token_urls(upper@, contents@, token@, scheme@, 0),
{
    let tok = chars_of(token);
    let mut from: usize = 0;
    let ghost start_out = strings_view(out@);
    assert(strings_view(out@) =~= start_out + Seq::<Seq<char>>::empty());
    while from <= upper.len()
        invariant
            upper@.len() == contents@.len(),
            tok@ == token@,
            tok@.len() > 0,
            start_out == strings_view(old(out)@),
            start_out + pac_token_urls(upper@, contents@, token@, scheme@, 0) == strings_view(out@)
                + pac_token_urls(upper@, contents@, token@, scheme@, from as int),
        decreases upper@.len() + 1 - from,
    {
        match find_from_exec(upper, tok.as_slice(), from) {
            None => {
                assert(pac_token_urls(upper@, contents@, token@, scheme@, from as int) =~= Seq::<Seq<char>>::empty());
                assert(strings_view(out@) + Seq::<Seq<char>>::empty() =~= strings_view(out@));
                return;
            },
            Some(i) => {
                proof {
                    lemma_find_from(upper@, tok@, from as int);
                }
                let start = i + tok.len();
                let rest = copy_range(contents, start, contents.len());
                let mut e: usize = 0;
                assert(rest@.skip(0) =~= rest@);
                while e < rest.len() && !(rest[e] == ';' || rest[e] == '"' || rest[e] == '\'' || is_ws_char(rest[e]))
                    invariant
                        e <= rest@.len(),
                        address_len(rest@) == e + address_len(rest@.skip(e as int)),
                    decreases rest@.len() - e,
                {
                    assert(rest@.skip(e as int).drop_first() =~= rest@.skip(e as int + 1));
                    e = e + 1;
                }
                proof {
                    if e < rest@.len() {
                        assert(rest@.skip(e as int)[0] == rest@[e as int]);
                    }
                    assert(rest@ =~= contents@.skip(start as int));
                }
                let raw = copy_range(rest.as_slice(), 0, e);
                let address = trim_vec(raw.as_slice());
                let ghost before = strings_view(out@);
                if address.len() > 0 {
                    push_url(out, scheme, Some(address.as_slice()), None);
                    assert(trim(address@) == address@) by {
                        crate::text::lemma_trim_idempotent(raw@);
                    }
                }
                proof {
                    let here = if address@.len() > 0 {
                        with_url(Seq::empty(), proxy_url(scheme@, Some(address@), None))
                    } else {
                        Seq::empty()
                    };
                    assert(strings_view(out@) =~= before + here);
                    assert(pac_token_urls(upper@, contents@, token@, scheme@, from as int) == here + pac_token_urls(
                        upper@,
                        contents@,
                        token@,
                        scheme@,
                        start as int,
                    ));
                    assert(before + (here + pac_token_urls(upper@, contents@, token@, scheme@, start as int)) =~= (
                    before + here) + pac_token_urls(upper@, contents@, token@, scheme@, start as int));
                }
                from = start;
            },
        }
    }
    assert(pac_token_urls(upper@, contents@, token@, scheme@, from as int) =~= Seq::<Seq<char>>::empty());
    assert(strings_view(out@) + Seq::<Seq<char>>::empty() =~= strings_view(out@));
}

/// The proxies a PAC script names (`parse_pac_candidates` once the script is loaded).
pub fn parse_pac_candidates(contents: &str) -> (out: Vec<String>)
    ensures
        strings_view(out@) == pac_candidates(contents@),
{
    let c = chars_of(contents);
    let upper = ascii_upper_vec(c.as_slice());
    let mut found: Vec<String> = Vec::new();
    proof {
        reveal_strlit("SOCKS5 ");
        reveal_strlit("SOCKS ");
        reveal_strlit("HTTPS ");
        reveal_strlit("PROXY ");
    }
    assert(strings_view(found@) =~= Seq::<Seq<char>>::empty());
    pac_token_urls_exec(upper.as_slice(), c.as_slice(), "SOCKS5 ", "socks5", &mut found);
    pac_token_urls_exec(upper.as_slice(), c.as_slice(), "SOCKS ", "socks5", &mut found);
    pac_token_urls_exec(upper.as_slice(), c.as_slice(), "HTTPS ", "http", &mut found);
    pac_token_urls_exec(upper.as_slice(), c.as_slice(), "PROXY ", "http", &mut found);
    dedupe_exec(found)
}

// ---------------------------------------------------------------------------
// macOS: `scutil --proxy`
// ---------------------------------------------------------------------------
/// The key and value that a line of `scutil --proxy` gives, if any.
pub open spec fn scutil_line_pair(line: Seq<char>) -> Option<(Seq<char>, Seq<char>)> {
    let t = trim(line);
    if starts_with(t, seq!['<']) || t == seq!['{'] || t == seq!['}'] || t.len() == 0 {
        None
    } else {
        match crate::text::split_once(t, ':') {
            None => None,
            Some((k, v)) => Some((trim(k), trim(v))),
        }
    }
}

/// The settings that `scutil --proxy` prints, a later value for a key
/// replacing an earlier one.
pub open spec fn scutil_pairs(ls: Seq<Seq<char>>) -> Seq<(Seq<char>, Seq<char>)>
    decreases ls.len(),
{
    if ls.len() == 0 {
        Seq::empty()
    } else {
        let before = scutil_pairs(ls.drop_last());
        match scutil_line_pair(ls.last()) {
            Some((k, v)) => map_insert(before, k, v),
            None => before,
        }
    }
}

pub open spec fn pairs_view(v: Seq<(String, String)>) -> Seq<(Seq<char>, Seq<char>)> {
    v.map_values(|e: (String, String)| (e.0@, e.1@))
}

fn pair_index(pairs: &Vec<(String, String)>, key: &[char]) -> (r: Option<usize>)
    ensures
        match r {
            Some(j) => key_index(pairs_view(pairs@), key@) == Some(j as nat),
            None => key_index(pairs_view(pairs@), key@) is None,
        },
{
    let ghost s = pairs_view(pairs@);
    let mut i: usize = 0;
    while i < pairs.len()
        invariant
            i <= pairs@.len(),
            s == pairs_view(pairs@),
            forall|j: int| 0 <= j < i ==> #[trigger] s[j].0 != key@,
        decreases pairs@.len() - i,
    {
        let k = chars_of(pairs[i].0.as_str());
        assert(s[i as int].0 == pairs@[i as int].0@);
        if eq_chars(k.as_slice(), key) {
            proof {
                lemma_key_index(s, key@, i as int);
            }
            return Some(i);
        }
        i = i + 1;
    }
    proof {
        lemma_key_index(s, key@, i as int);
    }
    None
}

/// Reads the settings that `scutil --proxy` prints (`parse_scutil_proxy_pairs`).
pub fn parse_scutil_proxy_pairs(stdout: &str) -> (r: Vec<(String, String)>)
    ensures
        pairs_view(r@) == scutil_pairs(lines_of(stdout@)),
{
    let c = chars_of(stdout);
    let ls = split_lines(c.as_slice());
    let ghost all = seqs(ls@);
    let mut out: Vec<(String, String)> = Vec::new();
    let lt: Vec<char> = vec!['<'];
    let open: Vec<char> = vec!['{'];
    let close: Vec<char> = vec!['}'];
    assert(lt@ =~= seq!['<']);
    assert(open@ =~= seq!['{']);
    assert(close@ =~= seq!['}']);
    let mut i: usize = 0;
    while i < ls.len()
        invariant
            i <= ls@.len(),
            all == seqs(ls@),
            all == lines_of(stdout@),
            lt@ == seq!['<'],
            open@ == seq!['{'],
            close@ == seq!['}'],
            pairs_view(out@) == scutil_pairs(all.take(i as int)),
        decreases ls@.len() - i,
    {
        assert(all.take(i as int + 1).drop_last() =~= all.take(i as int));
        assert(all.take(i as int + 1).last() == ls@[i as int]@);
        let t = trim_vec(ls[i].as_slice());
        let skip = starts_with_exec(t.as_slice(), lt.as_slice()) || eq_chars(t.as_slice(), open.as_slice())
            || eq_chars(t.as_slice(), close.as_slice()) || t.len() == 0;
        if !skip {
            match find_char_exec(t.as_slice(), ':') {
                Some(j) => {
                    proof {
                        lemma_find_from(t@, seq![':'], 0);
                        assert(occurs_at(t@, seq![':'], j as int));
                        assert(seq![':'].len() == 1);
                    }
                    let n = t.len();
                    let k = copy_range(t.as_slice(), 0, j);
                    let v = copy_range(t.as_slice(), j + 1, n);
                    let tk = trim_vec(k.as_slice());
                    let tv = trim_vec(v.as_slice());
                    let ghost before = pairs_view(out@);
                    proof {
                        lemma_key_index_found(before, tk@);
                    }
                    match pair_index(&out, tk.as_slice()) {
                        Some(idx) => {
                            out[idx] = (string_of(tk.as_slice()), string_of(tv.as_slice()));
                            assert(pairs_view(out@) =~= before.update(idx as int, (tk@, tv@)));
                        },
                        None => {
                            out.push((string_of(tk.as_slice()), string_of(tv.as_slice())));
                            assert(pairs_view(out@) =~= before.push((tk@, tv@)));
                        },
                    }
                },
                None => {},
            }
        }
        i = i + 1;
    }
    assert(all.take(ls@.len() as int) =~= all);
    out
}

/// A setting is `1`.
pub open spec fn is_enabled(pairs: Seq<(Seq<char>, Seq<char>)>, key: Seq<char>) -> bool {
    map_get(pairs, key) == Some(seq!['1'])
}

fn is_enabled_exec(pairs: &Vec<(String, String)>, key: &str) -> (b: bool)
    ensures
        b == is_enabled(pairs_view(pairs@), key@),
{
    let kc = chars_of(key);
    proof {
        lemma_key_index_found(pairs_view(pairs@), key@);
    }
    match pair_index(pairs, kc.as_slice()) {
        Some(j) => {
            let v = chars_of(pairs[j].1.as_str());
            let one: Vec<char> = vec!['1'];
            assert(one@ =~= seq!['1']);
            eq_chars(v.as_slice(), one.as_slice())
        },
        None => false,
    }
}

fn setting<'a>(pairs: &'a Vec<(String, String)>, key: &str) -> (r: Option<&'a String>)
    ensures
        match r {
            Some(v) => map_get(pairs_view(pairs@), key@) == Some(v@),
            None => map_get(pairs_view(pairs@), key@) is None,
        },
{
    let kc = chars_of(key);
    proof {
        lemma_key_index_found(pairs_view(pairs@), key@);
    }
    match pair_index(pairs, kc.as_slice()) {
        Some(j) => Some(&pairs[j].1),
        None => None,
    }
}

/// The PAC script's address, when automatic configuration is on (macOS).
pub fn macos_pac_url(pairs: &Vec<(String, String)>) -> (r: Option<String>)
    ensures
        match r {
            Some(u) => is_enabled(pairs_view(pairs@), "ProxyAutoConfigEnable"@) && map_get(
                pairs_view(pairs@),
                "ProxyAutoConfigURLString"@,
            ) == Some(u@),
            None => !is_enabled(pairs_view(pairs@), "ProxyAutoConfigEnable"@) || map_get(
                pairs_view(pairs@),
                "ProxyAutoConfigURLString"@,
            ) is None,
        },
{
    if !is_enabled_exec(pairs, "ProxyAutoConfigEnable") {
        return None;
    }
    match setting(pairs, "ProxyAutoConfigURLString") {
        Some(u) => Some(u.clone()),
        None => None,
    }
}

/// The URL that an enabled proxy setting gives.
pub open spec fn enabled_url(pairs: Seq<(Seq<char>, Seq<char>)>, enable: Seq<char>, host: Seq<char>, port: Seq<char>, scheme: Seq<char>) -> Option<Seq<char>> {
    if is_enabled(pairs, enable) {
        proxy_url(scheme, map_get(pairs, host), map_get(pairs, port))
    } else {
        None
    }
}

/// The candidates on macOS: the HTTP, HTTPS and SOCKS proxies that are on,
/// then those of the PAC script, without repeats.
pub open spec fn macos_candidates(pairs: Seq<(Seq<char>, Seq<char>)>, pac: Option<Seq<char>>) -> Seq<Seq<char>> {
    let c1 = with_url(Seq::empty(), enabled_url(pairs, "HTTPEnable"@, "HTTPProxy"@, "HTTPPort"@, "http"@));
    let c2 = with_url(c1, enabled_url(pairs, "HTTPSEnable"@, "HTTPSProxy"@, "HTTPSPort"@, "http"@));
    let c3 = with_url(c2, enabled_url(pairs, "SOCKSEnable"@, "SOCKSProxy"@, "SOCKSPort"@, "socks5"@));
    let c4 = match pac {
        Some(contents) => c3 + pac_candidates(contents),
        None => c3,
    };
    dedupe(c4)
}

fn push_enabled_url(candidates: &mut Vec<String>, pairs: &Vec<(String, String)>, enable: &str, host: &str, port: &str, scheme: &str)
    ensures
        strings_view(final(candidates)@) == with_url(
            strings_view(old(candidates)@),
            enabled_url(pairs_view(pairs@), enable@, host@, port@, scheme@),
        ),
{
    if !is_enabled_exec(pairs, enable) {
        return;
    }
    let h = setting(pairs, host);
    let p = setting(pairs, port);
    let hc = match h {
        Some(x) => Some(chars_of(x.as_str())),
        None => None,
    };
    let pc = match p {
        Some(x) => Some(chars_of(x.as_str())),
        None => None,
    };
    let hs: Option<&[char]> = match &hc {
        Some(x) => Some(x.as_slice()),
        None => None,
    };
    let ps: Option<&[char]> = match &pc {
        Some(x) => Some(x.as_slice()),
        None => None,
    };
    push_url(candidates, scheme, hs, ps);
}

// ---------------------------------------------------------------------------
// Windows: the registry and WinHTTP
// ---------------------------------------------------------------------------
/// The value that `reg query` prints for `name`: on the first line that
/// mentions the name, the text after `REG_SZ`, trimmed, unless blank.
pub open spec fn registry_value(ls: Seq<Seq<char>>, name: Seq<char>) -> Option<Seq<char>>
    decreases ls.len(),
{
    if ls.len() == 0 {
        None
    } else if contains(ls[0], name) {
        let pieces = split_str(ls[0], "REG_SZ"@);
        if pieces.len() > 1 && trim(pieces[1]).len() > 0 {
            Some(trim(pieces[1]))
        } else {
            None
        }
    } else {
        registry_value(ls.drop_first(), name)
    }
}

/// Reads the value of `name` from what `reg query` printed.
pub fn parse_registry_value(stdout: &str, name: &str) -> (r: Option<String>)
    ensures
        match r {
            Some(v) => registry_value(lines_of(stdout@), name@) == Some(v@),
            None => registry_value(lines_of(stdout@), name@) is None,
        },
{
    let c = chars_of(stdout);
    let ls = split_lines(c.as_slice());
    let nc = chars_of(name);
    let reg_sz = chars_of("REG_SZ");
    proof {
        reveal_strlit("REG_SZ");
    }
    let ghost all = seqs(ls@);
    let mut i: usize = 0;
    assert(all.subrange(0, all.len() as int) =~= all);
    while i < ls.len()
        invariant
            i <= ls@.len(),
            all == seqs(ls@),
            all == lines_of(stdout@),
            nc@ == name@,
            reg_sz@ == "REG_SZ"@,
            reg_sz@.len() > 0,
            registry_value(all, name@) == registry_value(all.subrange(i as int, all.len() as int), name@),
        decreases ls@.len() - i,
    {
        let ghost rest = all.subrange(i as int, all.len() as int);
        assert(rest.drop_first() =~= all.subrange(i as int + 1, all.len() as int));
        assert(rest[0] == ls@[i as int]@);
        if contains_exec(ls[i].as_slice(), nc.as_slice()) {
            let pieces = split_str_exec(ls[i].as_slice(), reg_sz.as_slice());
            if pieces.len() > 1 {
                let t = trim_vec(pieces[1].as_slice());
                if t.len() > 0 {
                    return Some(string_of(t.as_slice()));
                }
            }
            return None;
        }
        i = i + 1;
    }
    None
}

/// Whether `reg query` says the proxy is on (`0x1`).
pub fn registry_proxy_enabled(stdout: &str) -> (b: bool)
    ensures
        b == (contains(stdout@, "0x1"@) || contains(stdout@, "0x00000001"@)),
{
    let c = chars_of(stdout);
    let a = chars_of("0x1");
    let b = chars_of("0x00000001");
    contains_exec(c.as_slice(), a.as_slice()) || contains_exec(c.as_slice(), b.as_slice())
}

/// The proxy that a line of `netsh winhttp show proxy` names, if any.
pub open spec fn winhttp_line_server(line: Seq<char>) -> Option<Seq<char>> {
    let t = trim(line);
    if !starts_with(t, "Proxy Server"@) {
        None
    } else {
        match crate::text::split_once(t, ':') {
            None => None,
            Some((_k, v)) => if trim(v).len() > 0 && trim(v) != "(none)"@ {
                Some(trim(v))
            } else {
                None
            },
        }
    }
}

/// The first proxy that the lines of `netsh winhttp show proxy` name.
pub open spec fn winhttp_server(ls: Seq<Seq<char>>) -> Option<Seq<char>>
    decreases ls.len(),
{
    if ls.len() == 0 {
        None
    } else {
        match winhttp_line_server(ls[0]) {
            Some(v) => Some(v),
            None => winhttp_server(ls.drop_first()),
        }
    }
}

/// Reads the WinHTTP proxy from what `netsh winhttp show proxy` printed.
pub fn parse_winhttp_proxy(stdout: &str) -> (r: Option<String>)
    ensures
        match r {
            Some(v) => winhttp_server(lines_of(stdout@)) == Some(v@),
            None => winhttp_server(lines_of(stdout@)) is None,
        },
{
    let c = chars_of(stdout);
    let ls = split_lines(c.as_slice());
    let label = chars_of("Proxy Server");
    let none = chars_of("(none)");
    let ghost all = seqs(ls@);
    let mut i: usize = 0;
    assert(all.subrange(0, all.len() as int) =~= all);
    while i < ls.len()
        invariant
            i <= ls@.len(),
            all == seqs(ls@),
            all == lines_of(stdout@),
            label@ == "Proxy Server"@,
            none@ == "(none)"@,
            winhttp_server(all) == winhttp_server(all.subrange(i as int, all.len() as int)),
        decreases ls@.len() - i,
    {
        let ghost rest = all.subrange(i as int, all.len() as int);
        assert(rest.drop_first() =~= all.subrange(i as int + 1, all.len() as int));
        assert(rest[0] == ls@[i as int]@);
        let t = trim_vec(ls[i].as_slice());
        if starts_with_exec(t.as_slice(), label.as_slice()) {
            match find_char_exec(t.as_slice(), ':') {
                Some(j) => {
                    proof {
                        lemma_find_from(t@, seq![':'], 0);
                        assert(occurs_at(t@, seq![':'], j as int));
                        assert(seq![':'].len() == 1);
                    }
                    let n = t.len();
                    let v = copy_range(t.as_slice(), j + 1, n);
                    let tv = trim_vec(v.as_slice());
                    if tv.len() > 0 && !eq_chars(tv.as_slice(), none.as_slice()) {
                        return Some(string_of(tv.as_slice()));
                    }
                },
                None => {},
            }
        }
        i = i + 1;
    }
    None
}

/// The proxies that a Windows proxy setting names (`parse_windows_proxy_server`):
/// a plain address is an HTTP proxy; a list of `scheme=address` parts gives
/// its HTTP(S) and SOCKS proxies, in order, without repeats.
pub open spec fn windows_server_part_url(part: Seq<char>) -> Option<Seq<char>> {
    match crate::text::split_once(part, '=') {
        None => None,
        Some((scheme, address)) => {
            let s = ascii_lower_seq(trim(scheme));
            if s == "http"@ || s == "https"@ {
                proxy_url("http"@, Some(trim(address)), None)
            } else if s == "socks"@ || s == "socks5"@ {
                proxy_url("socks5"@, Some(trim(address)), None)
            } else {
                None
            }
        },
    }
}

pub open spec fn windows_server_parts(parts: Seq<Seq<char>>) -> Seq<Seq<char>>
    decreases parts.len(),
{
    if parts.len() == 0 {
        Seq::empty()
    } else {
        let before = windows_server_parts(parts.drop_last());
        let p = trim(parts.last());
        if p.len() == 0 {
            before
        } else {
            with_url(before, windows_server_part_url(p))
        }
    }
}

pub open spec fn windows_server_candidates(value: Seq<char>) -> Seq<Seq<char>> {
    let t = trim(value);
    if !contains(t, seq!['=']) {
        dedupe(with_url(Seq::empty(), proxy_url("http"@, Some(t), None)))
    } else {
        dedupe(windows_server_parts(split_str(t, seq![';'])))
    }
}

/// The proxies that a Windows proxy setting names (`parse_windows_proxy_server`).
pub fn parse_windows_proxy_server(value: &str) -> (r: Vec<String>)
    ensures
        strings_view(r@) == windows_server_candidates(value@),
{
    let c = chars_of(value);
    let t = trim_vec(c.as_slice());
    let eq: Vec<char> = vec!['='];
    let semi: Vec<char> = vec![';'];
    assert(eq@ =~= seq!['=']);
    assert(semi@ =~= seq![';']);
    let mut candidates: Vec<String> = Vec::new();
    assert(strings_view(candidates@) =~= Seq::<Seq<char>>::empty());
    if !contains_exec(t.as_slice(), eq.as_slice()) {
        push_url(&mut candidates, "http", Some(t.as_slice()), None);
        return dedupe_exec(candidates);
    }
    let parts = split_str_exec(t.as_slice(), semi.as_slice());
    let ghost ps = split_str(t@, seq![';']);
    assert(seqs(parts@) =~= ps);
    let http = chars_of("http");
    let https = chars_of("https");
    let socks = chars_of("socks");
    let socks5 = chars_of("socks5");
    let mut i: usize = 0;
    while i < parts.len()
        invariant
            i <= parts@.len(),
            ps == seqs(parts@),
            http@ == "http"@,
            https@ == "https"@,
            socks@ == "socks"@,
            socks5@ == "socks5"@,
            strings_view(candidates@) == windows_server_parts(ps.take(i as int)),
        decreases parts@.len() - i,
    {
        assert(ps.take(i as int + 1).drop_last() =~= ps.take(i as int));
        assert(ps.take(i as int + 1).last() == parts@[i as int]@);
        let p = trim_vec(parts[i].as_slice());
        if p.len() > 0 {
            match find_char_exec(p.as_slice(), '=') {
                Some(j) => {
                    proof {
                        lemma_find_from(p@, seq!['='], 0);
                        assert(occurs_at(p@, seq!['='], j as int));
                        assert(seq!['='].len() == 1);
                    }
                    let n = p.len();
                    let scheme = copy_range(p.as_slice(), 0, j);
                    let address = copy_range(p.as_slice(), j + 1, n);
                    let ts = trim_vec(scheme.as_slice());
                    let ls = crate::text::ascii_lower_vec(ts.as_slice());
                    let ta = trim_vec(address.as_slice());
                    if eq_chars(ls.as_slice(), http.as_slice()) || eq_chars(ls.as_slice(), https.as_slice()) {
                        push_url(&mut candidates, "http", Some(ta.as_slice()), None);
                        proof {
                            crate::text::lemma_trim_idempotent(address@);
                        }
                    } else if eq_chars(ls.as_slice(), socks.as_slice()) || eq_chars(ls.as_slice(), socks5.as_slice()) {
                        push_url(&mut candidates, "socks5", Some(ta.as_slice()), None);
                        proof {
                            crate::text::lemma_trim_idempotent(address@);
                        }
                    }
                },
                None => {},
            }
        }
        i = i + 1;
    }
    assert(ps.take(parts@.len() as int) =~= ps);
    dedupe_exec(candidates)
}

// ---------------------------------------------------------------------------
// All candidates
// ---------------------------------------------------------------------------
/// What was read of the system's proxy settings.
#[derive(Debug, Clone, PartialEq)]
pub enum ProxyFindings {
    /// macOS: the settings that `scutil --proxy` printed and the PAC script,
    /// when one is on and could be loaded.
    MacOs { pairs: Vec<(String, String)>, pac_contents: Option<String> },
    /// Windows: the registry's proxy server (when the proxy is on), the PAC
    /// script named in the registry (when it could be loaded), and WinHTTP's
    /// proxy server.
    Windows { proxy_server: Option<String>, pac_contents: Option<String>, winhttp_server: Option<String> },
    /// Elsewhere nothing is read.
    Other,
}

/// The candidates on Windows: those of the registry's proxy server, of the
/// PAC script and of WinHTTP's proxy server, in that order, without repeats.
pub open spec fn windows_candidates(proxy_server: Option<Seq<char>>, pac: Option<Seq<char>>, winhttp: Option<Seq<char>>) -> Seq<Seq<char>> {
    let c1 = match proxy_server {
        Some(v) => windows_server_candidates(v),
        None => Seq::empty(),
    };
    let c2 = match pac {
        Some(p) => c1 + pac_candidates(p),
        None => c1,
    };
    let c3 = match winhttp {
        Some(w) => c2 + windows_server_candidates(w),
        None => c2,
    };
    dedupe(c3)
}

pub open spec fn opt_view(o: Option<String>) -> Option<Seq<char>> {
    match o {
        Some(s) => Some(s@),
        None => None,
    }
}

fn append_all(out: &mut Vec<String>, more: Vec<String>)
    ensures
        strings_view(final(out)@) == strings_view(old(out)@) + strings_view(more@),
{
    let mut i: usize = 0;
    let ghost start = strings_view(out@);
    while i < more.len()
        invariant
            i <= more@.len(),
            strings_view(out@) == start + strings_view(more@).take(i as int),
        decreases more@.len() - i,
    {
        let ghost before = strings_view(out@);
        let x = more[i].clone();
        assert(x@ == more@[i as int]@);
        out.push(x);
        assert(strings_view(more@).take(i as int + 1) =~= strings_view(more@).take(i as int).push(more@[i as int]@));
        assert(strings_view(out@) =~= before.push(x@));
        assert(strings_view(out@) =~= start + strings_view(more@).take(i as int + 1));
        i = i + 1;
    }
    assert(strings_view(more@).take(more@.len() as int) =~= strings_view(more@));
}

/// The proxy URLs that the system's settings name (`detect_system_proxy_candidates`
/// once the settings are read).
pub fn detect_system_proxy_candidates(findings: &ProxyFindings) -> (r: Vec<String>)
    ensures
        match findings {
            ProxyFindings::MacOs { pairs, pac_contents } => strings_view(r@) == macos_candidates(
                pairs_view(pairs@),
                opt_view(*pac_contents),
            ),
            ProxyFindings::Windows { proxy_server, pac_contents, winhttp_server } => strings_view(r@)
                == windows_candidates(opt_view(*proxy_server), opt_view(*pac_contents), opt_view(*winhttp_server)),
            ProxyFindings::Other => r@.len() == 0,
        },
{
    match findings {
        ProxyFindings::MacOs { pairs, pac_contents } => {
            let mut c: Vec<String> = Vec::new();
            assert(strings_view(c@) =~= Seq::<Seq<char>>::empty());
            push_enabled_url(&mut c, pairs, "HTTPEnable", "HTTPProxy", "HTTPPort", "http");
            push_enabled_url(&mut c, pairs, "HTTPSEnable", "HTTPSProxy", "HTTPSPort", "http");
            push_enabled_url(&mut c, pairs, "SOCKSEnable", "SOCKSProxy", "SOCKSPort", "socks5");
            match pac_contents {
                Some(p) => {
                    let more = parse_pac_candidates(p.as_str());
                    append_all(&mut c, more);
                },
                None => {},
            }
            dedupe_exec(c)
        },
        ProxyFindings::Windows { proxy_server, pac_contents, winhttp_server } => {
            let mut c: Vec<String> = Vec::new();
            assert(strings_view(c@) =~= Seq::<Seq<char>>::empty());
            match proxy_server {
                Some(v) => {
                    let more = parse_windows_proxy_server(v.as_str());
                    append_all(&mut c, more);
                },
                None => {},
            }
            match pac_contents {
                Some(p) => {
                    let more = parse_pac_candidates(p.as_str());
                    append_all(&mut c, more);
                },
                None => {},
            }
            match winhttp_server {
                Some(w) => {
                    let more = parse_windows_proxy_server(w.as_str());
                    append_all(&mut c, more);
                },
                None => {},
            }
            dedupe_exec(c)
        },
        ProxyFindings::Other => Vec::new(),
    }
}

// ---------------------------------------------------------------------------
// The path of a local PAC script
// ---------------------------------------------------------------------------
/// The value of a hexadecimal digit, if the byte is one.
pub open spec fn hex_value(b: u8) -> Option<u8> {
    if 48 <= b <= 57 {
        Some((b - 48) as u8)
    } else if 97 <= b <= 102 {
        Some((b - 87) as u8)
    } else if 65 <= b <= 70 {
        Some((b - 55) as u8)
    } else {
        None
    }
}

/// `u8::from_str_radix(.., 16)` of two bytes: two hexadecimal digits, or a
/// `+` and one.
pub open spec fn hex_pair(a: u8, b: u8) -> Option<u8> {
    match (hex_value(a), hex_value(b)) {
        (Some(x), Some(y)) => Some((x * 16 + y) as u8),
        _ => if a == 43 {
            hex_value(b)
        } else {
            None
        },
    }
}

/// A byte that continues a UTF-8 sequence.
pub open spec fn is_continuation(b: u8) -> bool {
    128 <= b < 192
}

/// Whether decoding from `i` on slices the text only at character
/// boundaries (`percent_decode_path` takes the two characters after each `%`
/// that has two bytes after it).
pub open spec fn decodes_cleanly(b: Seq<u8>, i: int) -> bool
    decreases b.len() - i,
{
    if i < 0 || i >= b.len() {
        true
    } else if b[i] == 37 && i + 2 < b.len() {
        (i + 3 >= b.len() || !is_continuation(b[i + 3])) && match hex_pair(b[i + 1], b[i + 2]) {
            Some(_) => decodes_cleanly(b, i + 3),
            None => decodes_cleanly(b, i + 1),
        }
    } else {
        decodes_cleanly(b, i + 1)
    }
}

/// The bytes of a path with `%XX` escapes decoded, from `i` on
/// (`percent_decode_path`); a `%` that starts no escape stays.
pub open spec fn percent_decoded(b: Seq<u8>, i: int) -> Seq<u8>
    decreases b.len() - i,
{
    if i < 0 || i >= b.len() {
        Seq::empty()
    } else if b[i] == 37 && i + 2 < b.len() && hex_pair(b[i + 1], b[i + 2]) is Some {
        seq![hex_pair(b[i + 1], b[i + 2])->0] + percent_decoded(b, i + 3)
    } else {
        seq![b[i]] + percent_decoded(b, i + 1)
    }
}

fn hex_value_exec(b: u8) -> (r: Option<u8>)
    ensures
        r == hex_value(b),
{
    if 48 <= b && b <= 57 {
        Some(b - 48)
    } else if 97 <= b && b <= 102 {
        Some(b - 87)
    } else if 65 <= b && b <= 70 {
        Some(b - 55)
    } else {
        None
    }
}

fn hex_pair_exec(a: u8, b: u8) -> (r: Option<u8>)
    ensures
        r == hex_pair(a, b),
{
    match (hex_value_exec(a), hex_value_exec(b)) {
        (Some(x), Some(y)) => Some(x * 16 + y),
        _ => if a == 43 {
            hex_value_exec(b)
        } else {
            None
        },
    }
}

/// Decodes the `%XX` escapes of a `file://` PAC path, given as the bytes of
/// its UTF-8 text (`percent_decode_path`, before the lossy conversion back
/// to text).
pub fn percent_decode_path(bytes: &[u8]) -> (out: Vec<u8>)
    requires
        decodes_cleanly(bytes@, 0),
    ensures
        out@ == percent_decoded(bytes@, 0),
{
    let mut out: Vec<u8> = Vec::new();
    let mut i: usize = 0;
    let n = bytes.len();
    while i < n
        invariant
            i <= n == bytes@.len(),
            percent_decoded(bytes@, 0) == out@ + percent_decoded(bytes@, i as int),
            decodes_cleanly(bytes@, i as int),
        decreases n - i,
    {
        if bytes[i] == 37 && n - i > 2 {
            match hex_pair_exec(bytes[i + 1], bytes[i + 2]) {
                Some(v) => {
                    let ghost before = out@;
                    out.push(v);
                    assert(before + percent_decoded(bytes@, i as int) =~= out@ + percent_decoded(bytes@, i + 3));
                    i = i + 3;
                    continue;
                },
                None => {},
            }
        }
        let ghost before = out@;
        out.push(bytes[i]);
        assert(before + percent_decoded(bytes@, i as int) =~= out@ + percent_decoded(bytes@, i + 1));
        i = i + 1;
    }
    assert(out@ + percent_decoded(bytes@, n as int) =~= out@);
    out
}

/// Whether decoding the path slices it only at character boundaries.
pub fn decodes_cleanly_exec(bytes: &[u8]) -> (b: bool)
    ensures
        b == decodes_cleanly(bytes@, 0),
{
    let n = bytes.len();
    let mut i: usize = 0;
    while i < n
        invariant
            i <= n == bytes@.len(),
            decodes_cleanly(bytes@, 0) == decodes_cleanly(bytes@, i as int),
        decreases n - i,
    {
        if bytes[i] == 37 && n - i > 2 {
            if n - i > 3 && 128 <= bytes[i + 3] && bytes[i + 3] < 192 {
                return false;
            }
            match hex_pair_exec(bytes[i + 1], bytes[i + 2]) {
                Some(_) => {
                    i = i + 3;
                    continue;
                },
                None => {},
            }
        }
        i = i + 1;
    }
    true
}

/// Where a PAC script is to be read from (`load_pac_contents`).
#[derive(Debug, Clone, PartialEq)]
pub enum PacSource {
    /// A local file: the path after `file://`, still percent-encoded.
    File(String),
    /// An `http://` or `https://` address.
    Web(String),
    /// Nothing can be loaded.
    Nothing,
}

/// Where a PAC script is to be read from: the trimmed address names a local
/// file (`file://`), a web address, or nothing loadable.
pub fn pac_source(pac_url: &str) -> (r: PacSource)
    ensures
        ({
            let t = trim(pac_url@);
            if t.len() == 0 {
                r is Nothing
            } else if starts_with(t, "file://"@) {
                r matches PacSource::File(p) && p@ == t.skip(7)
            } else if starts_with(t, "http://"@) || starts_with(t, "https://"@) {
                r matches PacSource::Web(u) && u@ == t
            } else {
                r is Nothing
            }
        }),
{
    let c = chars_of(pac_url);
    let t = trim_vec(c.as_slice());
    if t.len() == 0 {
        return PacSource::Nothing;
    }
    let file = chars_of("file://");
    let http = chars_of("http://");
    let https = chars_of("https://");
    proof {
        reveal_strlit("file://");
    }
    if starts_with_exec(t.as_slice(), file.as_slice()) {
        let rest = copy_range(t.as_slice(), 7, t.len());
        assert(rest@ =~= t@.skip(7));
        return PacSource::File(string_of(rest.as_slice()));
    }
    if starts_with_exec(t.as_slice(), http.as_slice()) || starts_with_exec(t.as_slice(), https.as_slice()) {
        return PacSource::Web(string_of(t.as_slice()));
    }
    PacSource::Nothing
}

// ---------------------------------------------------------------------------
// Laws of the macOS candidates
// ---------------------------------------------------------------------------
/// A value among the inputs stays among them once repeats are dropped.
pub proof fn lemma_dedupe_keeps(s: Seq<Seq<char>>, x: Seq<char>)
    requires
        s.contains(x),
    ensures
        dedupe(s).contains(x),
    decreases s.len(),
{
    let d = dedupe(s.drop_last());
    if s.last() == x {
        if !d.contains(x) {
            assert(d.push(x)[d.len() as int] == x);
        }
    } else {
        let i = choose|i: int| 0 <= i < s.len() && s[i] == x;
        assert(s.drop_last()[i] == x);
        lemma_dedupe_keeps(s.drop_last(), x);
        if !d.contains(s.last()) {
            let j = choose|j: int| 0 <= j < d.len() && d[j] == x;
            assert(d.push(s.last())[j] == x);
        }
    }
}

/// The URL of a SOCKS proxy at `host` with the port setting `port`.
pub open spec fn socks_proxy_url(host: Seq<char>, port: Option<Seq<char>>) -> Seq<char> {
    match port {
        Some(p) if trim(p).len() > 0 => "socks5"@ + "://"@ + trim(host) + seq![':'] + trim(p),
        _ => "socks5"@ + "://"@ + trim(host),
    }
}

/// On macOS an enabled SOCKS proxy given as a bare host is offered as a
/// `socks5://` URL with its port; when it is the only proxy that is on and
/// there is no PAC script, it is the only candidate, so it is never offered
/// under the `http` scheme.
pub proof fn law_macos_socks_proxy_is_socks5(pairs: Seq<(Seq<char>, Seq<char>)>, pac: Option<Seq<char>>, host: Seq<char>)
    requires
        is_enabled(pairs, "SOCKSEnable"@),
        map_get(pairs, "SOCKSProxy"@) == Some(host),
        trim(host).len() > 0,
        !contains(trim(host), "://"@),
    ensures
        macos_candidates(pairs, pac).contains(socks_proxy_url(host, map_get(pairs, "SOCKSPort"@))),
        !is_enabled(pairs, "HTTPEnable"@) && !is_enabled(pairs, "HTTPSEnable"@) && pac is None
            ==> macos_candidates(pairs, pac) == seq![socks_proxy_url(host, map_get(pairs, "SOCKSPort"@))],
{
    let u = socks_proxy_url(host, map_get(pairs, "SOCKSPort"@));
    let c1 = with_url(Seq::empty(), enabled_url(pairs, "HTTPEnable"@, "HTTPProxy"@, "HTTPPort"@, "http"@));
    let c2 = with_url(c1, enabled_url(pairs, "HTTPSEnable"@, "HTTPSProxy"@, "HTTPSPort"@, "http"@));
    let c3 = with_url(c2, enabled_url(pairs, "SOCKSEnable"@, "SOCKSProxy"@, "SOCKSPort"@, "socks5"@));
    assert(enabled_url(pairs, "SOCKSEnable"@, "SOCKSProxy"@, "SOCKSPort"@, "socks5"@) == Some(u));
    assert(c3 == c2.push(u));
    assert(c3[c2.len() as int] == u);
    let c4 = match pac {
        Some(contents) => c3 + pac_candidates(contents),
        None => c3,
    };
    assert(c4[c2.len() as int] == u);
    lemma_dedupe_keeps(c4, u);
    if !is_enabled(pairs, "HTTPEnable"@) && !is_enabled(pairs, "HTTPSEnable"@) && pac is None {
        assert(c2 =~= Seq::<Seq<char>>::empty());
        assert(c4 =~= seq![u]);
        assert(dedupe(c4.drop_last()) =~= Seq::<Seq<char>>::empty());
        assert(dedupe(c4) =~= seq![u]);
    }
}

} // verus!
