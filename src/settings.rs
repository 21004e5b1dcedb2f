use vstd::prelude::*;

verus! {

/// The value of a digit character.
pub open spec fn digit_value(c: char) -> int {
    (c as u32) - ('0' as u32)
}

/// A decimal digit.
pub open spec fn is_digit(c: char) -> bool {
    '0' <= c && c <= '9'
}

/// The number that the digits `s` spell.
pub open spec fn decimal_value(s: Seq<char>) -> int
    decreases s.len(),
{
    if s.len() == 0 {
        0
    } else {
        decimal_value(s.drop_last()) * 10 + digit_value(s.last())
    }
}

/// What `usize::from_str` accepts: an optional `+` and at least one digit,
/// with a value that fits in `usize`.
pub open spec fn parsed_usize(s: Seq<char>) -> Option<usize> {
    if usize_digits(s).len() > 0 && all_digits(usize_digits(s)) && decimal_value(usize_digits(s))
        <= usize::MAX {
        Some(decimal_value(usize_digits(s)) as usize)
    } else {
        None
    }
}

/// The text after an optional leading `+`.
pub open spec fn usize_digits(s: Seq<char>) -> Seq<char> {
    if s.len() > 0 && s[0] == '+' {
        s.drop_first()
    } else {
        s
    }
}

/// Every character is a decimal digit.
pub open spec fn all_digits(s: Seq<char>) -> bool {
    forall|i: int| 0 <= i < s.len() ==> is_digit(#[trigger] s[i])
}

proof fn lemma_decimal_nonneg(s: Seq<char>)
    requires
        forall|i: int| 0 <= i < s.len() ==> is_digit(#[trigger] s[i]),
    ensures
        decimal_value(s) >= 0,
    decreases s.len(),
{
    if s.len() > 0 {
        lemma_decimal_nonneg(s.drop_last());
    }
}

/// Parses a decimal `usize` as `usize::from_str` does.
pub fn parse_usize(s: &str) -> (r: Option<usize>)
    ensures
        r == parsed_usize(s@),
{
    let n = s.unicode_len();
    let start: usize = if n > 0 && s.get_char(0) == '+' {
        1
    } else {
        0
    };
    let ghost body = usize_digits(s@);
    assert(body =~= s@.skip(start as int));
    if start >= n {
        return None;
    }
    let mut v: usize = 0;
    let mut i: usize = start;
    assert(s@.skip(start as int).take(0) =~= Seq::<char>::empty());
    while i < n
        invariant
            n == s@.len(),
            start <= i <= n,
            body == s@.skip(start as int),
            body == usize_digits(s@),
            forall|k: int| 0 <= k < i - start ==> is_digit(#[trigger] body[k]),
            v as int == decimal_value(body.take(i - start)),
        decreases n - i,
    {
        let c = s.get_char(i);
        let ghost pre = body.take(i - start);
        proof {
            assert(body.take(i - start + 1).drop_last() =~= pre);
            assert(body.take(i - start + 1).last() == c);
            assert(body[i - start] == c);
        }
        if !('0' <= c && c <= '9') {
            assert(!is_digit(body[i - start]));
            assert(!all_digits(body));
            assert(parsed_usize(s@) is None);
            return None;
        }
        let d = (c as u32 - '0' as u32) as usize;
        if v > (usize::MAX - d) / 10 {
            proof {
                assert(decimal_value(body.take(i - start + 1)) == v * 10 + d);
                assert(v * 10 + d > usize::MAX) by (nonlinear_arith)
                    requires
                        v > (usize::MAX - d) / 10,
                        d <= 9,
                ;
                if all_digits(body) {
                    lemma_prefix_bound(body, (i - start + 1) as int);
                    assert(decimal_value(body) > usize::MAX);
                }
                assert(parsed_usize(s@) is None);
            }
            return None;
        }
        v = v * 10 + d;
        i = i + 1;
    }
    proof {
        assert(body.take(n - start) =~= body);
    }
    Some(v)
}

proof fn lemma_prefix_bound(s: Seq<char>, k: int)
    requires
        forall|i: int| 0 <= i < s.len() ==> is_digit(#[trigger] s[i]),
        0 <= k <= s.len(),
    ensures
        decimal_value(s.take(k)) <= decimal_value(s),
    decreases s.len() - k,
{
    if k < s.len() {
        lemma_prefix_bound(s, k + 1);
        assert(s.take(k + 1).drop_last() =~= s.take(k));
        lemma_decimal_nonneg(s.take(k));
        assert(is_digit(s[k]));
    } else {
        assert(s.take(k) =~= s);
    }
}

/// Parallel runs per process: a setting of 1 to 64, else 2.
pub fn concurrency(setting: Option<&str>) -> (n: usize)
    ensures
        n == match setting {
            Some(s) => match parsed_usize(s@) {
                Some(v) => if 1 <= v <= 64 {
                    v
                } else {
                    2
                },
                None => 2,
            },
            None => 2,
        },
{
    match setting {
        Some(s) => match parse_usize(s) {
            Some(v) => if 1 <= v && v <= 64 {
                v
            } else {
                2
            },
            None => 2,
        },
        None => 2,
    }
}

/// Stage permits per run: a positive setting, else 2.
pub fn concurrency_limit(setting: Option<&str>) -> (n: usize)
    ensures
        n == match setting {
            Some(s) => match parsed_usize(s@) {
                Some(v) => if v > 0 {
                    v
                } else {
                    2
                },
                None => 2,
            },
            None => 2,
        },
        n > 0,
{
    match setting {
        Some(s) => match parse_usize(s) {
            Some(v) => if v > 0 {
                v
            } else {
                2
            },
            None => 2,
        },
        None => 2,
    }
}

} // verus!
