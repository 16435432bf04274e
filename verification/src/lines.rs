//! Splitting text into lines (`str::lines`) and joining lines back together.
use vstd::prelude::*;
use crate::text::{copy_range, push_all};

verus! {

/// The views of a vector of character vectors.
pub open spec fn seqs(v: Seq<Vec<char>>) -> Seq<Seq<char>> {
    Seq::new(v.len(), |i: int| v[i]@)
}

/// Index of the first `'\n'` in `s`, or `s.len()` when there is none.
pub open spec fn first_nl(s: Seq<char>) -> nat
    decreases s.len(),
{
    if s.len() == 0 {
        0
    } else if s[0] == '\n' {
        0
    } else {
        1 + first_nl(s.drop_first())
    }
}

/// `s` without one trailing `'\r'`.
pub open spec fn strip_cr(s: Seq<char>) -> Seq<char> {
    if s.len() > 0 && s.last() == '\r' {
        s.drop_last()
    } else {
        s
    }
}

/// The lines of `s` as `str::lines` yields them: split at `'\n'`, a `'\r'` just
/// before a `'\n'` dropped, and no empty line after a final `'\n'`.
pub open spec fn lines_of(s: Seq<char>) -> Seq<Seq<char>>
    decreases s.len(),
{
    if s.len() == 0 {
        Seq::empty()
    } else {
        let k = first_nl(s);
        if k >= s.len() {
            seq![s]
        } else {
            seq![strip_cr(s.subrange(0, k as int))] + lines_of(s.subrange(k as int + 1, s.len() as int))
        }
    }
}

/// The lines joined with `'\n'` between them (`[String]::join("\n")`).
pub open spec fn join_lines(ls: Seq<Seq<char>>) -> Seq<char>
    decreases ls.len(),
{
    if ls.len() == 0 {
        Seq::empty()
    } else if ls.len() == 1 {
        ls[0]
    } else {
        join_lines(ls.drop_last()) + seq!['\n'] + ls.last()
    }
}

/// `s` with a final `'\n'` added unless it is empty or already ends with one.
pub open spec fn with_final_newline(s: Seq<char>) -> Seq<char> {
    if s.len() == 0 || s.last() == '\n' {
        s
    } else {
        s.push('\n')
    }
}

pub proof fn lemma_first_nl(s: Seq<char>, k: int)
    requires
        0 <= k <= s.len(),
        forall|j: int| 0 <= j < k ==> s[j] != '\n',
        k == s.len() || s[k] == '\n',
    ensures
        first_nl(s) == k,
    decreases s.len(),
{
    if s.len() > 0 && k > 0 {
        lemma_first_nl(s.drop_first(), k - 1);
    }
}

/// Splits `s` into lines, as `str::lines` does.
pub fn split_lines(s: &[char]) -> (out: Vec<Vec<char>>)
    ensures
        seqs(out@) == lines_of(s@),
{
    let n = s.len();
    let mut out: Vec<Vec<char>> = Vec::new();
    let mut start: usize = 0;
    let mut i: usize = 0;
    assert(s@.subrange(0, n as int) =~= s@);
    while i < n
        invariant
            n == s@.len(),
            start <= i <= n,
            forall|j: int| start <= j < i ==> s@[j] != '\n',
            lines_of(s@) == seqs(out@) + lines_of(s@.subrange(start as int, n as int)),
        decreases n - i,
    {
        if s[i] == '\n' {
            let ghost rest = s@.subrange(start as int, n as int);
            proof {
                lemma_first_nl(rest, i - start);
                assert(rest.subrange(0, i - start) =~= s@.subrange(start as int, i as int));
                assert(rest.subrange(i - start + 1, rest.len() as int) =~= s@.subrange(
                    i + 1,
                    n as int,
                ));
            }
            let mut end = i;
            if end > start && s[end - 1] == '\r' {
                end = end - 1;
            }
            let line = copy_range(s, start, end);
            proof {
                assert(line@ =~= strip_cr(s@.subrange(start as int, i as int)));
            }
            let ghost before = out@;
            out.push(line);
            proof {
                assert(seqs(out@) =~= seqs(before) + seq![line@]);
                assert(lines_of(rest) == seq![line@] + lines_of(s@.subrange(i + 1, n as int)));
                assert(seqs(before) + (seq![line@] + lines_of(s@.subrange(i + 1, n as int)))
                    =~= seqs(out@) + lines_of(s@.subrange(i + 1, n as int)));
            }
            start = i + 1;
        }
        i = i + 1;
    }
    if start < n {
        let ghost rest = s@.subrange(start as int, n as int);
        proof {
            lemma_first_nl(rest, rest.len() as int);
        }
        let line = copy_range(s, start, n);
        let ghost before = out@;
        out.push(line);
        proof {
            assert(seqs(out@) =~= seqs(before) + seq![line@]);
        }
    } else {
        proof {
            assert(s@.subrange(start as int, n as int) =~= Seq::<char>::empty());
            assert(seqs(out@) + Seq::<Seq<char>>::empty() =~= seqs(out@));
        }
    }
    out
}

/// Joins lines with `'\n'` between them.
pub fn join_with_newlines(ls: &[Vec<char>]) -> (out: Vec<char>)
    ensures
        out@ == join_lines(seqs(ls@)),
{
    let mut out: Vec<char> = Vec::new();
    let mut i: usize = 0;
    while i < ls.len()
        invariant
            i <= ls@.len(),
            out@ == join_lines(seqs(ls@.subrange(0, i as int))),
        decreases ls@.len() - i,
    {
        let ghost pre = seqs(ls@.subrange(0, i as int));
        let ghost next = seqs(ls@.subrange(0, i + 1));
        proof {
            assert(next.drop_last() =~= pre);
            assert(next.last() == ls@[i as int]@);
        }
        if i > 0 {
            out.push('\n');
        } else {
            assert(out@ =~= Seq::<char>::empty());
        }
        push_all(&mut out, ls[i].as_slice());
        i = i + 1;
        proof {
            if i == 1 {
                assert(out@ =~= join_lines(next));
            } else {
                assert(out@ =~= join_lines(next));
            }
        }
    }
    assert(ls@.subrange(0, ls@.len() as int) =~= ls@);
    out
}

/// Adds a final newline unless the text is empty or already ends with one.
pub fn ensure_final_newline(s: &mut Vec<char>)
    ensures
        final(s)@ == with_final_newline(old(s)@),
{
    if s.len() > 0 && s[s.len() - 1] != '\n' {
        s.push('\n');
    }
}

} // verus!
