//! Ordering of character sequences by code point (the order of `String`'s
//! `Ord`, since UTF-8 preserves code point order) and an insertion sort of
//! keyed items by that order.
use vstd::prelude::*;

verus! {

/// `a` comes no later than `b` in lexicographic code point order.
pub open spec fn lex_le(a: Seq<char>, b: Seq<char>) -> bool
    decreases a.len(),
{
    if a.len() == 0 {
        true
    } else if b.len() == 0 {
        false
    } else if (a[0] as u32) < (b[0] as u32) {
        true
    } else if a[0] == b[0] {
        lex_le(a.drop_first(), b.drop_first())
    } else {
        false
    }
}

/// Whether `a` sorts no later than `b`.
pub fn lex_le_exec(a: &[char], b: &[char]) -> (r: bool)
    ensures
        r == lex_le(a@, b@),
{
    let mut i: usize = 0;
    assert(a@.subrange(0, a@.len() as int) =~= a@);
    assert(b@.subrange(0, b@.len() as int) =~= b@);
    while i < a.len()
        invariant
            i <= a@.len(),
            i <= b@.len(),
            a@.subrange(0, i as int) == b@.subrange(0, i as int),
            lex_le(a@, b@) == lex_le(
                a@.subrange(i as int, a@.len() as int),
                b@.subrange(i as int, b@.len() as int),
            ),
        decreases a@.len() - i,
    {
        let ghost sa = a@.subrange(i as int, a@.len() as int);
        let ghost sb = b@.subrange(i as int, b@.len() as int);
        if i >= b.len() {
            return false;
        }
        proof {
            assert(sa[0] == a@[i as int]);
            assert(sb[0] == b@[i as int]);
            assert(sa.drop_first() =~= a@.subrange(i + 1, a@.len() as int));
            assert(sb.drop_first() =~= b@.subrange(i + 1, b@.len() as int));
        }
        if (a[i] as u32) < (b[i] as u32) {
            return true;
        }
        if a[i] != b[i] {
            return false;
        }
        i = i + 1;
        assert(a@.subrange(0, i as int) =~= b@.subrange(0, i as int));
    }
    true
}

/// The pairs' keys and viewed values.
pub open spec fn keyed_view<T: View>(s: Seq<(Vec<char>, T)>) -> Seq<(Seq<char>, T::V)> {
    Seq::new(s.len(), |i: int| (s[i].0@, s[i].1@))
}

/// `s` with `x` placed before its first item whose key is not smaller than `x`'s.
pub open spec fn insert_sorted<V>(s: Seq<(Seq<char>, V)>, x: (Seq<char>, V)) -> Seq<(Seq<char>, V)>
    decreases s.len(),
{
    if s.len() == 0 {
        seq![x]
    } else if lex_le(x.0, s[0].0) {
        seq![x] + s
    } else {
        seq![s[0]] + insert_sorted(s.drop_first(), x)
    }
}

/// `s` sorted by key (insertion sort, each item placed before its equals).
pub open spec fn sort_keyed<V>(s: Seq<(Seq<char>, V)>) -> Seq<(Seq<char>, V)>
    decreases s.len(),
{
    if s.len() == 0 {
        s
    } else {
        insert_sorted(sort_keyed(s.drop_last()), s.last())
    }
}

pub proof fn lemma_insert_at<V>(s: Seq<(Seq<char>, V)>, x: (Seq<char>, V), k: int)
    requires
        0 <= k <= s.len(),
        forall|j: int| 0 <= j < k ==> !lex_le(x.0, #[trigger] s[j].0),
        k == s.len() || lex_le(x.0, s[k].0),
    ensures
        insert_sorted(s, x) == s.subrange(0, k) + seq![x] + s.subrange(k, s.len() as int),
    decreases k,
{
    if k == 0 {
        assert(s.subrange(0, 0) + seq![x] + s.subrange(0, s.len() as int) =~= seq![x] + s);
        if s.len() == 0 {
            assert(seq![x] + s =~= seq![x]);
        }
    } else {
        let t = s.drop_first();
        assert forall|j: int| 0 <= j < k - 1 implies !lex_le(x.0, #[trigger] t[j].0) by {
            assert(t[j] == s[j + 1]);
        }
        lemma_insert_at(t, x, k - 1);
        assert(seq![s[0]] + (t.subrange(0, k - 1) + seq![x] + t.subrange(k - 1, t.len() as int))
            =~= s.subrange(0, k) + seq![x] + s.subrange(k, s.len() as int));
    }
}

/// Inserts `x` before the first item whose key is not smaller than its own.
pub fn insert_sorted_exec<T: View>(v: &mut Vec<(Vec<char>, T)>, x: (Vec<char>, T))
    ensures
        keyed_view(final(v)@) == insert_sorted(keyed_view(old(v)@), (x.0@, x.1@)),
{
    let ghost s = keyed_view(v@);
    let mut k: usize = 0;
    let mut found = false;
    while k < v.len() && !found
        invariant
            k <= v@.len(),
            s == keyed_view(v@),
            forall|j: int| 0 <= j < k ==> !lex_le(x.0@, #[trigger] s[j].0),
            found ==> k < v@.len() && lex_le(x.0@, s[k as int].0),
        decreases v@.len() - k + (if found { 0int } else { 1int }),
    {
        if lex_le_exec(x.0.as_slice(), v[k].0.as_slice()) {
            found = true;
        } else {
            k = k + 1;
        }
    }
    proof {
        lemma_insert_at(s, (x.0@, x.1@), k as int);
    }
    let ghost before = v@;
    v.insert(k, x);
    proof {
        assert(keyed_view(v@) =~= s.subrange(0, k as int) + seq![(x.0@, x.1@)] + s.subrange(
            k as int,
            s.len() as int,
        ));
    }
}

/// Sorts keyed items by key (`sort_keyed`).
pub fn sort_by_key_exec<T: View>(v: Vec<(Vec<char>, T)>) -> (out: Vec<(Vec<char>, T)>)
    ensures
        keyed_view(out@) == sort_keyed(keyed_view(v@)),
{
    let ghost orig = keyed_view(v@);
    let mut rest = v;
    let mut out: Vec<(Vec<char>, T)> = Vec::new();
    let ghost mut i: int = 0;
    proof {
        assert(keyed_view(rest@) =~= orig.subrange(0, orig.len() as int));
        assert(orig.subrange(0, 0) =~= Seq::<(Seq<char>, T::V)>::empty());
        assert(keyed_view(out@) =~= Seq::<(Seq<char>, T::V)>::empty());
    }
    while rest.len() > 0
        invariant
            0 <= i <= orig.len(),
            keyed_view(rest@) == orig.subrange(i, orig.len() as int),
            keyed_view(out@) == sort_keyed(orig.subrange(0, i)),
        decreases rest@.len(),
    {
        let ghost r0 = rest@[0];
        proof {
            assert(keyed_view(rest@).len() == rest@.len());
            assert(i < orig.len());
            assert(keyed_view(rest@)[0] == (r0.0@, r0.1@));
            assert(orig.subrange(i, orig.len() as int)[0] == orig[i]);
        }
        let ghost old_rest = rest@;
        let x = rest.remove(0);
        proof {
            assert(rest@ =~= old_rest.subrange(1, old_rest.len() as int));
            assert forall|j: int| 0 <= j < rest@.len() implies keyed_view(rest@)[j] == orig[i + 1
                + j] by {
                assert(rest@[j] == old_rest[j + 1]);
                assert(keyed_view(old_rest)[j + 1] == orig.subrange(i, orig.len() as int)[j + 1]);
            }
            assert(orig[i] == (x.0@, x.1@));
            assert(orig.subrange(0, i + 1).drop_last() =~= orig.subrange(0, i));
            assert(keyed_view(rest@) =~= orig.subrange(i + 1, orig.len() as int));
        }
        insert_sorted_exec(&mut out, x);
        proof {
            i = i + 1;
        }
    }
    proof {
        assert(orig.subrange(0, i) =~= orig);
    }
    out
}

// ---------------------------------------------------------------------------
// Keyed sequences used as maps
// ---------------------------------------------------------------------------
/// The index of the first item with key `k`.
pub open spec fn key_index<V>(s: Seq<(Seq<char>, V)>, k: Seq<char>) -> Option<nat>
    decreases s.len(),
{
    if s.len() == 0 {
        None
    } else if s[0].0 == k {
        Some(0)
    } else {
        match key_index(s.drop_first(), k) {
            Some(j) => Some(j + 1),
            None => None,
        }
    }
}

/// The value stored under `k`.
pub open spec fn map_get<V>(s: Seq<(Seq<char>, V)>, k: Seq<char>) -> Option<V> {
    match key_index(s, k) {
        Some(j) => Some(s[j as int].1),
        None => None,
    }
}

/// `s` with the value under `k` replaced by `v`, or `(k, v)` appended when
/// `k` is absent (`HashMap::insert` on an insertion-ordered map).
pub open spec fn map_insert<V>(s: Seq<(Seq<char>, V)>, k: Seq<char>, v: V) -> Seq<(Seq<char>, V)> {
    match key_index(s, k) {
        Some(j) => s.update(j as int, (k, v)),
        None => s.push((k, v)),
    }
}

pub proof fn lemma_key_index<V>(s: Seq<(Seq<char>, V)>, k: Seq<char>, i: int)
    requires
        0 <= i <= s.len(),
        forall|j: int| 0 <= j < i ==> #[trigger] s[j].0 != k,
        i == s.len() || s[i].0 == k,
    ensures
        key_index(s, k) == (if i == s.len() {
            None::<nat>
        } else {
            Some(i as nat)
        }),
    decreases s.len(),
{
    if s.len() > 0 && i > 0 {
        let t = s.drop_first();
        assert forall|j: int| 0 <= j < i - 1 implies #[trigger] t[j].0 != k by {
            assert(t[j] == s[j + 1]);
        }
        lemma_key_index(t, k, i - 1);
    }
}

/// The index that `key_index` finds is the first with the key.
pub proof fn lemma_key_index_first<V>(s: Seq<(Seq<char>, V)>, k: Seq<char>)
    ensures
        key_index(s, k) matches Some(j) ==> forall|m: int| 0 <= m < j ==> #[trigger] s[m].0 != k,
    decreases s.len(),
{
    lemma_key_index_found(s, k);
    if s.len() > 0 && s[0].0 != k {
        let t = s.drop_first();
        lemma_key_index_first(t, k);
        if key_index(t, k) is Some {
            assert forall|m: int| 0 <= m < key_index(s, k)->0 implies #[trigger] s[m].0 != k by {
                if m > 0 {
                    assert(s[m] == t[m - 1]);
                }
            }
        }
    }
}

/// What is inserted under a key is then found under it.
pub proof fn lemma_map_insert_get<V>(s: Seq<(Seq<char>, V)>, k: Seq<char>, v: V)
    ensures
        map_get(map_insert(s, k, v), k) == Some(v),
{
    lemma_key_index_found(s, k);
    lemma_key_index_first(s, k);
    let t = map_insert(s, k, v);
    match key_index(s, k) {
        Some(j) => {
            assert forall|m: int| 0 <= m < j implies #[trigger] t[m].0 != k by {
                assert(t[m] == s[m]);
            }
            lemma_key_index(t, k, j as int);
        },
        None => {
            assert forall|m: int| 0 <= m < s.len() implies #[trigger] t[m].0 != k by {
                assert(t[m] == s[m]);
            }
            lemma_key_index(t, k, s.len() as int);
        },
    }
}

pub proof fn lemma_key_index_found<V>(s: Seq<(Seq<char>, V)>, k: Seq<char>)
    ensures
        match key_index(s, k) {
            Some(j) => j < s.len() && s[j as int].0 == k,
            None => forall|j: int| 0 <= j < s.len() ==> #[trigger] s[j].0 != k,
        },
    decreases s.len(),
{
    if s.len() > 0 && s[0].0 != k {
        lemma_key_index_found(s.drop_first(), k);
        if key_index(s.drop_first(), k) is None {
            assert forall|j: int| 0 <= j < s.len() implies #[trigger] s[j].0 != k by {
                if j > 0 {
                    assert(s.drop_first()[j - 1] == s[j]);
                }
            }
        }
    }
}

/// The index of the first item whose key is `k`.
pub fn key_index_exec<T: View>(v: &Vec<(Vec<char>, T)>, k: &[char]) -> (r: Option<usize>)
    ensures
        match r {
            Some(j) => key_index(keyed_view(v@), k@) == Some(j as nat),
            None => key_index(keyed_view(v@), k@) is None,
        },
{
    let ghost s = keyed_view(v@);
    let mut i: usize = 0;
    while i < v.len()
        invariant
            i <= v@.len(),
            s == keyed_view(v@),
            forall|j: int| 0 <= j < i ==> #[trigger] s[j].0 != k@,
        decreases v@.len() - i,
    {
        if crate::text::eq_chars(v[i].0.as_slice(), k) {
            proof {
                lemma_key_index(s, k@, i as int);
            }
            return Some(i);
        }
        i = i + 1;
    }
    proof {
        lemma_key_index(s, k@, i as int);
    }
    None
}

/// Stores `x` under `k`, replacing an earlier value under the same key.
pub fn keyed_insert<T: View>(v: &mut Vec<(Vec<char>, T)>, k: Vec<char>, x: T)
    ensures
        keyed_view(final(v)@) == map_insert(keyed_view(old(v)@), k@, x@),
{
    let ghost s = keyed_view(v@);
    match key_index_exec(v, k.as_slice()) {
        Some(j) => {
            proof {
                lemma_key_index_found(s, k@);
            }
            v[j] = (k, x);
            assert(keyed_view(v@) =~= s.update(j as int, (k@, x@)));
        },
        None => {
            v.push((k, x));
            assert(keyed_view(v@) =~= s.push((k@, x@)));
        },
    }
}

// ---------------------------------------------------------------------------
// Stable sorting
// ---------------------------------------------------------------------------
/// `s` with `x` placed after every item whose key is not greater than its own.
pub open spec fn insert_stable<V>(s: Seq<(Seq<char>, V)>, x: (Seq<char>, V)) -> Seq<(Seq<char>, V)>
    decreases s.len(),
{
    if s.len() == 0 {
        seq![x]
    } else if !lex_le(s[0].0, x.0) {
        seq![x] + s
    } else {
        seq![s[0]] + insert_stable(s.drop_first(), x)
    }
}

/// `s` sorted by key, items with equal keys in their original order.
pub open spec fn sort_stable<V>(s: Seq<(Seq<char>, V)>) -> Seq<(Seq<char>, V)>
    decreases s.len(),
{
    if s.len() == 0 {
        s
    } else {
        insert_stable(sort_stable(s.drop_last()), s.last())
    }
}

/// Inserting adds one item; sorting keeps the number of items.
pub proof fn lemma_sort_stable_len<V>(s: Seq<(Seq<char>, V)>)
    ensures
        sort_stable(s).len() == s.len(),
    decreases s.len(),
{
    if s.len() > 0 {
        lemma_sort_stable_len(s.drop_last());
        lemma_insert_stable_len(sort_stable(s.drop_last()), s.last());
    }
}

/// Inserting places the item at some position and moves nothing else.
pub proof fn lemma_insert_stable_is_insert<V>(s: Seq<(Seq<char>, V)>, x: (Seq<char>, V)) -> (k: int)
    ensures
        0 <= k <= s.len(),
        insert_stable(s, x) == s.insert(k, x),
    decreases s.len(),
{
    if s.len() == 0 {
        assert(insert_stable(s, x) =~= s.insert(0, x));
        0
    } else if !lex_le(s[0].0, x.0) {
        assert(insert_stable(s, x) =~= s.insert(0, x));
        0
    } else {
        let k = lemma_insert_stable_is_insert(s.drop_first(), x);
        assert(insert_stable(s, x) =~= s.insert(k + 1, x));
        k + 1
    }
}

/// Sorting keeps exactly the items it was given.
pub proof fn lemma_sort_stable_contains<V>(s: Seq<(Seq<char>, V)>)
    ensures
        forall|y: (Seq<char>, V)| sort_stable(s).contains(y) <==> s.contains(y),
    decreases s.len(),
{
    if s.len() > 0 {
        let t = s.drop_last();
        lemma_sort_stable_contains(t);
        let k = lemma_insert_stable_is_insert(sort_stable(t), s.last());
        let u = sort_stable(t);
        assert(sort_stable(s) == u.insert(k, s.last()));
        assert forall|y: (Seq<char>, V)| sort_stable(s).contains(y) <==> s.contains(y) by {
            if sort_stable(s).contains(y) {
                let j = choose|j: int| 0 <= j < sort_stable(s).len() && sort_stable(s)[j] == y;
                if j < k {
                    assert(u[j] == y);
                } else if j > k {
                    assert(u[j - 1] == y);
                } else {
                    assert(s[s.len() - 1] == y);
                }
                if t.contains(y) {
                    let m = choose|m: int| 0 <= m < t.len() && t[m] == y;
                    assert(s[m] == y);
                }
            }
            if s.contains(y) {
                let j = choose|j: int| 0 <= j < s.len() && s[j] == y;
                if j < s.len() - 1 {
                    assert(t[j] == y);
                    assert(t.contains(y));
                    assert(u.contains(y));
                    let m = choose|m: int| 0 <= m < u.len() && u[m] == y;
                    if m < k {
                        assert(sort_stable(s)[m] == y);
                    } else {
                        assert(sort_stable(s)[m + 1] == y);
                    }
                } else {
                    assert(sort_stable(s)[k] == y);
                }
            }
        }
    }
}

proof fn lemma_insert_stable_len<V>(s: Seq<(Seq<char>, V)>, x: (Seq<char>, V))
    ensures
        insert_stable(s, x).len() == s.len() + 1,
    decreases s.len(),
{
    if s.len() > 0 {
        lemma_insert_stable_len(s.drop_first(), x);
    }
}

proof fn lemma_insert_stable_at<V>(s: Seq<(Seq<char>, V)>, x: (Seq<char>, V), k: int)
    requires
        0 <= k <= s.len(),
        forall|j: int| 0 <= j < k ==> lex_le(#[trigger] s[j].0, x.0),
        k == s.len() || !lex_le(s[k].0, x.0),
    ensures
        insert_stable(s, x) == s.subrange(0, k) + seq![x] + s.subrange(k, s.len() as int),
    decreases k,
{
    if k == 0 {
        assert(s.subrange(0, 0) + seq![x] + s.subrange(0, s.len() as int) =~= seq![x] + s);
        if s.len() == 0 {
            assert(seq![x] + s =~= seq![x]);
        }
    } else {
        let t = s.drop_first();
        assert forall|j: int| 0 <= j < k - 1 implies lex_le(#[trigger] t[j].0, x.0) by {
            assert(t[j] == s[j + 1]);
        }
        lemma_insert_stable_at(t, x, k - 1);
        assert(seq![s[0]] + (t.subrange(0, k - 1) + seq![x] + t.subrange(k - 1, t.len() as int))
            =~= s.subrange(0, k) + seq![x] + s.subrange(k, s.len() as int));
    }
}

/// Sorts keyed items by key, keeping items with equal keys in order.
pub fn sort_stable_exec<T: View>(v: Vec<(Vec<char>, T)>) -> (out: Vec<(Vec<char>, T)>)
    ensures
        keyed_view(out@) == sort_stable(keyed_view(v@)),
{
    let ghost orig = keyed_view(v@);
    let mut rest = v;
    let mut out: Vec<(Vec<char>, T)> = Vec::new();
    let ghost mut i: int = 0;
    proof {
        assert(keyed_view(rest@) =~= orig.subrange(0, orig.len() as int));
        assert(orig.subrange(0, 0) =~= Seq::<(Seq<char>, T::V)>::empty());
        assert(keyed_view(out@) =~= Seq::<(Seq<char>, T::V)>::empty());
    }
    while rest.len() > 0
        invariant
            0 <= i <= orig.len(),
            keyed_view(rest@) == orig.subrange(i, orig.len() as int),
            keyed_view(out@) == sort_stable(orig.subrange(0, i)),
        decreases rest@.len(),
    {
        let ghost r0 = rest@[0];
        proof {
            assert(keyed_view(rest@).len() == rest@.len());
            assert(keyed_view(rest@)[0] == (r0.0@, r0.1@));
            assert(orig.subrange(i, orig.len() as int)[0] == orig[i]);
        }
        let ghost old_rest = rest@;
        let x = rest.remove(0);
        proof {
            assert(rest@ =~= old_rest.subrange(1, old_rest.len() as int));
            assert forall|j: int| 0 <= j < rest@.len() implies keyed_view(rest@)[j] == orig[i + 1 + j] by {
                assert(rest@[j] == old_rest[j + 1]);
                assert(keyed_view(old_rest)[j + 1] == orig.subrange(i, orig.len() as int)[j + 1]);
            }
            assert(keyed_view(rest@) =~= orig.subrange(i + 1, orig.len() as int));
            assert(orig.subrange(0, i + 1).drop_last() =~= orig.subrange(0, i));
        }
        let ghost s = keyed_view(out@);
        let mut k: usize = 0;
        while k < out.len() && lex_le_exec(out[k].0.as_slice(), x.0.as_slice())
            invariant
                k <= out@.len(),
                s == keyed_view(out@),
                forall|j: int| 0 <= j < k ==> lex_le(#[trigger] s[j].0, x.0@),
            decreases out@.len() - k,
        {
            k = k + 1;
        }
        proof {
            lemma_insert_stable_at(s, (x.0@, x.1@), k as int);
        }
        out.insert(k, x);
        proof {
            assert(keyed_view(out@) =~= s.subrange(0, k as int) + seq![(x.0@, x.1@)] + s.subrange(
                k as int,
                s.len() as int,
            ));
            i = i + 1;
        }
    }
    proof {
        assert(orig.subrange(0, i) =~= orig);
    }
    out
}

} // verus!
