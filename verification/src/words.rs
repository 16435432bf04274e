//! Splitting text into whitespace-separated words (`str::split_whitespace`)
//! and joining words with single spaces.
use vstd::prelude::*;
use crate::lines::seqs;
use crate::text::{copy_range, is_ws, is_ws_char, push_all};

verus! {

/// The length of the run of non-whitespace characters that `s` starts with.
pub open spec fn word_len(s: Seq<char>) -> nat
    decreases s.len(),
{
    if s.len() == 0 || is_ws(s[0]) {
        0
    } else {
        1 + word_len(s.drop_first())
    }
}

pub proof fn lemma_word_len(s: Seq<char>)
    ensures
        word_len(s) <= s.len(),
        s.len() > 0 && !is_ws(s[0]) ==> word_len(s) >= 1,
    decreases s.len(),
{
    if s.len() > 0 {
        lemma_word_len(s.drop_first());
    }
}

/// The words of `s`: its maximal runs of non-whitespace characters, in order.
pub open spec fn words(s: Seq<char>) -> Seq<Seq<char>>
    decreases s.len(),
{
    if s.len() == 0 {
        Seq::empty()
    } else if is_ws(s[0]) {
        words(s.drop_first())
    } else {
        let k = word_len(s);
        proof {
            lemma_word_len(s);
        }
        seq![s.subrange(0, k as int)] + words(s.subrange(k as int, s.len() as int))
    }
}

/// The words joined with one space between each two (`join(" ")`).
pub open spec fn join_spaced(ws: Seq<Seq<char>>) -> Seq<char>
    decreases ws.len(),
{
    if ws.len() == 0 {
        Seq::empty()
    } else if ws.len() == 1 {
        ws[0]
    } else {
        join_spaced(ws.drop_last()) + seq![' '] + ws.last()
    }
}

proof fn lemma_word_len_at(s: Seq<char>, m: int)
    requires
        0 <= m <= s.len(),
        forall|j: int| 0 <= j < m ==> !is_ws(#[trigger] s[j]),
        m == s.len() || is_ws(s[m]),
    ensures
        word_len(s) == m,
    decreases m,
{
    if m > 0 {
        let t = s.drop_first();
        assert forall|j: int| 0 <= j < m - 1 implies !is_ws(#[trigger] t[j]) by {
            assert(t[j] == s[j + 1]);
        }
        lemma_word_len_at(t, m - 1);
    }
}

/// Splits `s` at whitespace, dropping the whitespace (`str::split_whitespace`).
pub fn split_whitespace_exec(s: &[char]) -> (out: Vec<Vec<char>>)
    ensures
        seqs(out@) == words(s@),
{
    let n = s.len();
    let mut out: Vec<Vec<char>> = Vec::new();
    let mut i: usize = 0;
    proof {
        assert(s@.subrange(0, n as int) =~= s@);
        assert(seqs(out@) =~= Seq::<Seq<char>>::empty());
        assert(words(s@) == seqs(out@) + words(s@.subrange(0, n as int)));
    }
    while i < n
        invariant
            i <= n,
            n == s@.len(),
            words(s@) == seqs(out@) + words(s@.subrange(i as int, n as int)),
        decreases n - i,
    {
        let ghost rest = s@.subrange(i as int, n as int);
        if is_ws_char(s[i]) {
            proof {
                assert(rest[0] == s@[i as int]);
                assert(rest.drop_first() =~= s@.subrange(i + 1, n as int));
            }
            i = i + 1;
        } else {
            let mut j: usize = i;
            while j < n && !is_ws_char(s[j])
                invariant
                    i <= j <= n,
                    n == s@.len(),
                    forall|k: int| i <= k < j ==> !is_ws(#[trigger] s@[k]),
                decreases n - j,
            {
                j = j + 1;
            }
            let w = copy_range(s, i, j);
            proof {
                assert(rest[0] == s@[i as int]);
                assert forall|k: int| 0 <= k < j - i implies !is_ws(#[trigger] rest[k]) by {
                    assert(rest[k] == s@[i + k]);
                }
                if j < n {
                    assert(rest[j - i] == s@[j as int]);
                }
                lemma_word_len_at(rest, j - i);
                assert(rest.subrange(0, j - i) =~= w@);
                assert(rest.subrange(j - i, rest.len() as int) =~= s@.subrange(j as int, n as int));
            }
            let ghost before = seqs(out@);
            out.push(w);
            proof {
                assert(seqs(out@) =~= before.push(w@));
                assert(before + (seq![w@] + words(s@.subrange(j as int, n as int))) =~= seqs(out@)
                    + words(s@.subrange(j as int, n as int)));
            }
            i = j;
        }
    }
    proof {
        assert(s@.subrange(n as int, n as int) =~= Seq::<char>::empty());
        assert(seqs(out@) + Seq::<Seq<char>>::empty() =~= seqs(out@));
    }
    out
}

/// Joins the words of `ws` from `from` on with single spaces.
pub fn join_spaced_from(ws: &Vec<Vec<char>>, from: usize) -> (out: Vec<char>)
    requires
        from <= ws@.len(),
    ensures
        out@ == join_spaced(seqs(ws@).subrange(from as int, ws@.len() as int)),
{
    let mut out: Vec<char> = Vec::new();
    let mut i: usize = from;
    proof {
        assert(seqs(ws@).subrange(from as int, from as int) =~= Seq::<Seq<char>>::empty());
    }
    while i < ws.len()
        invariant
            from <= i <= ws@.len(),
            out@ == join_spaced(seqs(ws@).subrange(from as int, i as int)),
        decreases ws@.len() - i,
    {
        let ghost part = seqs(ws@).subrange(from as int, i + 1);
        proof {
            assert(part.drop_last() =~= seqs(ws@).subrange(from as int, i as int));
            assert(part.last() == ws@[i as int]@);
        }
        if i > from {
            out.push(' ');
        }
        push_all(&mut out, ws[i].as_slice());
        proof {
            if i == from {
                assert(part.len() == 1);
            }
        }
        i = i + 1;
    }
    out
}

} // verus!
