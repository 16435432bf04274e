//! Reading decimal integers as `str::parse::<i64>` does.
use vstd::prelude::*;

verus! {

/// A decimal digit character.
pub open spec fn is_digit(c: char) -> bool {
    '0' <= c && c <= '9'
}

/// Every character is a decimal digit.
pub open spec fn all_digits(s: Seq<char>) -> bool {
    forall|i: int| 0 <= i < s.len() ==> is_digit(#[trigger] s[i])
}

/// The value of a string of decimal digits.
pub open spec fn digits_value(s: Seq<char>) -> int
    decreases s.len(),
{
    if s.len() == 0 {
        0
    } else {
        digits_value(s.drop_last()) * 10 + ((s.last() as u32) - 48)
    }
}

/// The integer a text denotes: an optional `+` or `-`, then one or more
/// decimal digits.
pub open spec fn parse_int(s: Seq<char>) -> Option<int> {
    if s.len() > 0 && (s[0] == '-' || s[0] == '+') {
        let r = s.drop_first();
        if r.len() > 0 && all_digits(r) {
            Some(
                if s[0] == '-' {
                    -digits_value(r)
                } else {
                    digits_value(r)
                },
            )
        } else {
            None
        }
    } else if s.len() > 0 && all_digits(s) {
        Some(digits_value(s))
    } else {
        None
    }
}

/// `str::parse::<i64>`: the integer, when the text denotes one that fits.
pub open spec fn parse_i64_spec(s: Seq<char>) -> Option<i64> {
    match parse_int(s) {
        Some(v) => if i64::MIN <= v <= i64::MAX {
            Some(v as i64)
        } else {
            None
        },
        None => None,
    }
}

proof fn lemma_digits_nonneg(s: Seq<char>)
    requires
        all_digits(s),
    ensures
        digits_value(s) >= 0,
    decreases s.len(),
{
    if s.len() > 0 {
        assert(is_digit(s[s.len() - 1]));
        assert forall|i: int| 0 <= i < s.drop_last().len() implies is_digit(#[trigger] s.drop_last()[i]) by {
            assert(s.drop_last()[i] == s[i]);
        }
        lemma_digits_nonneg(s.drop_last());
    }
}

/// Reads an `i64` as `str::parse::<i64>` does.
pub fn parse_i64(s: &[char]) -> (r: Option<i64>)
    ensures
        r == parse_i64_spec(s@),
{
    let n = s.len();
    if n == 0 {
        return None;
    }
    let neg = s[0] == '-';
    let start: usize = if s[0] == '-' || s[0] == '+' {
        1
    } else {
        0
    };
    if start == n {
        return None;
    }
    let ghost r = s@.subrange(start as int, n as int);
    proof {
        if start == 1 {
            assert(r =~= s@.drop_first());
        } else {
            assert(r =~= s@);
        }
    }
    let limit: u64 = if neg {
        9223372036854775808u64
    } else {
        9223372036854775807u64
    };
    let mut mag: u64 = 0;
    let mut over = false;
    let mut i = start;
    while i < n
        invariant
            start <= i <= n == s@.len(),
            n > 0,
            start <= 1,
            (start == 1) == (s@[0] == '-' || s@[0] == '+'),
            neg == (s@[0] == '-'),
            limit == (if neg {
                9223372036854775808u64
            } else {
                9223372036854775807u64
            }),
            r == s@.subrange(start as int, n as int),
            all_digits(s@.subrange(start as int, i as int)),
            !over ==> mag as int == digits_value(s@.subrange(start as int, i as int)) && mag <= limit,
            over ==> digits_value(s@.subrange(start as int, i as int)) > limit,
        decreases n - i,
    {
        let c = s[i];
        let ghost pre = s@.subrange(start as int, i as int);
        let ghost next = s@.subrange(start as int, i + 1);
        proof {
            assert(next.drop_last() =~= pre);
            assert(next.last() == c);
        }
        if !('0' <= c && c <= '9') {
            proof {
                assert(!is_digit(r[i - start]));
            }
            return None;
        }
        let d = (c as u32 - 48) as u64;
        assert(d <= 9);
        proof {
            lemma_digits_nonneg(pre);
            assert forall|k: int| 0 <= k < next.len() implies is_digit(#[trigger] next[k]) by {
                if k < pre.len() {
                    assert(next[k] == pre[k]);
                }
            }
        }
        if !over {
            if mag > (limit - d) / 10 {
                over = true;
                assert(mag * 10 + d > limit) by (nonlinear_arith)
                    requires
                        mag > (limit - d) / 10,
                        d <= 9,
                        limit >= 9,
                ;
            } else {
                assert(mag * 10 + d <= limit) by (nonlinear_arith)
                    requires
                        mag <= (limit - d) / 10,
                        d <= 9,
                        limit >= 9,
                ;
                mag = mag * 10 + d;
            }
        }
        i = i + 1;
    }
    assert(s@.subrange(start as int, n as int) == r);
    if over {
        return None;
    }
    if neg {
        if mag == 9223372036854775808u64 {
            Some(i64::MIN)
        } else {
            Some(-(mag as i64))
        }
    } else {
        Some(mag as i64)
    }
}

/// `str::parse::<usize>`: an optional `+`, then one or more decimal digits,
/// whose value fits.
pub open spec fn parse_usize_spec(s: Seq<char>) -> Option<usize> {
    let r = if s.len() > 0 && s[0] == '+' {
        s.drop_first()
    } else {
        s
    };
    if r.len() > 0 && all_digits(r) && digits_value(r) <= usize::MAX {
        Some(digits_value(r) as usize)
    } else {
        None
    }
}

/// Reads a `usize` as `str::parse::<usize>` does.
pub fn parse_usize(s: &[char]) -> (r: Option<usize>)
    ensures
        r == parse_usize_spec(s@),
{
    let n = s.len();
    let start: usize = if n > 0 && s[0] == '+' {
        1
    } else {
        0
    };
    let ghost r = s@.subrange(start as int, n as int);
    proof {
        if start == 1 {
            assert(r =~= s@.drop_first());
        } else {
            assert(r =~= s@);
        }
    }
    if start == n {
        return None;
    }
    let mut mag: usize = 0;
    let mut over = false;
    let mut i = start;
    while i < n
        invariant
            start <= i <= n == s@.len(),
            start <= 1,
            (start == 1) == (n > 0 && s@[0] == '+'),
            r == s@.subrange(start as int, n as int),
            all_digits(s@.subrange(start as int, i as int)),
            !over ==> mag as int == digits_value(s@.subrange(start as int, i as int)),
            over ==> digits_value(s@.subrange(start as int, i as int)) > usize::MAX,
        decreases n - i,
    {
        let c = s[i];
        let ghost pre = s@.subrange(start as int, i as int);
        let ghost next = s@.subrange(start as int, i + 1);
        proof {
            assert(next.drop_last() =~= pre);
            assert(next.last() == c);
        }
        if !('0' <= c && c <= '9') {
            proof {
                assert(!is_digit(r[i - start]));
            }
            return None;
        }
        let d = (c as u32 - 48) as usize;
        assert(d <= 9);
        proof {
            lemma_digits_nonneg(pre);
            assert forall|k: int| 0 <= k < next.len() implies is_digit(#[trigger] next[k]) by {
                if k < pre.len() {
                    assert(next[k] == pre[k]);
                }
            }
        }
        if !over {
            if mag > (usize::MAX - d) / 10 {
                over = true;
                assert(mag * 10 + d > usize::MAX) by (nonlinear_arith)
                    requires
                        mag > (usize::MAX - d) / 10,
                        d <= 9,
                ;
            } else {
                assert(mag * 10 + d <= usize::MAX) by (nonlinear_arith)
                    requires
                        mag <= (usize::MAX - d) / 10,
                        d <= 9,
                ;
                mag = mag * 10 + d;
            }
        }
        i = i + 1;
    }
    if over {
        None
    } else {
        Some(mag)
    }
}

} // verus!
