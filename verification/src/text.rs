//! Byte-level text helpers for the loaders: decimal values, whitespace
//! tokens, lines, and trimming, each with an exact sequence-level model.

use vstd::prelude::*;

verus! {

/// Whitespace: space, tab, carriage return, line feed.
pub open spec fn is_ws(b: u8) -> bool {
    b == 32 || b == 9 || b == 13 || b == 10
}

/// A decimal digit byte.
pub open spec fn is_digit(b: u8) -> bool {
    48 <= b <= 57
}

/// The number a run of digit bytes spells in decimal.
pub open spec fn digits_val(s: Seq<u8>) -> int
    decreases s.len(),
{
    if s.len() == 0 {
        0
    } else {
        digits_val(s.drop_last()) * 10 + (s.last() - 48)
    }
}

/// Every byte is a digit.
pub open spec fn all_digits(s: Seq<u8>) -> bool {
    forall|i: int| 0 <= i < s.len() ==> is_digit(#[trigger] s[i])
}

/// A non-empty run of digits spelling a value of at most `max`.
pub open spec fn is_dec(s: Seq<u8>, max: int) -> bool {
    s.len() > 0 && all_digits(s) && digits_val(s) <= max
}

/// The value of a digit run is never negative.
pub proof fn lemma_digits_val_nonneg(s: Seq<u8>)
    requires
        all_digits(s),
    ensures
        digits_val(s) >= 0,
    decreases s.len(),
{
    if s.len() > 0 {
        assert(all_digits(s.drop_last()));
        lemma_digits_val_nonneg(s.drop_last());
    }
}

/// Parse `s[start..end]` as a decimal value of at most `max`.
pub fn parse_dec(s: &[u8], start: usize, end: usize, max: u64) -> (r: Option<u64>)
    requires
        start <= end <= s@.len(),
    ensures
        r is Some <==> is_dec(s@.subrange(start as int, end as int), max as int),
        r is Some ==> r == Some(
            digits_val(s@.subrange(start as int, end as int)) as u64,
        ),
{
    let ghost t = s@.subrange(start as int, end as int);
    if start == end {
        return None;
    }
    let mut acc: u128 = 0;
    let mut over: bool = false;
    let mut i: usize = start;
    while i < end
        invariant
            start <= i <= end <= s@.len(),
            t == s@.subrange(start as int, end as int),
            all_digits(t.subrange(0, i - start)),
            !over ==> acc as int == digits_val(t.subrange(0, i - start)) && acc <= max,
            over ==> digits_val(t.subrange(0, i - start)) > max,
            max <= u64::MAX,
        decreases end - i,
    {
        let b = s[i];
        proof {
            assert(t[i - start] == s@[i as int]);
        }
        if b < 48 || b > 57 {
            proof {
                assert(!is_digit(t[i - start]));
            }
            return None;
        }
        let d: u128 = (b - 48) as u128;
        proof {
            let pre = t.subrange(0, i - start);
            assert(t.subrange(0, i - start + 1).drop_last() =~= pre);
            assert(t.subrange(0, i - start + 1).last() == t[i - start]);
            lemma_digits_val_nonneg(pre);
        }
        if over {
            proof {
                let pre = t.subrange(0, i - start);
                assert(digits_val(t.subrange(0, i - start + 1)) == digits_val(pre) * 10 + (t[i
                    - start] - 48));
            }
        } else {
            let next: u128 = acc * 10 + d;
            if next > max as u128 {
                over = true;
            } else {
                acc = next;
            }
        }
        i = i + 1;
    }
    proof {
        assert(t.subrange(0, end - start) =~= t);
    }
    if over {
        None
    } else {
        Some(acc as u64)
    }
}

/// The maximal non-whitespace runs of `s`, in order: a left-to-right scan
/// carrying the run in progress.
pub open spec fn tokens_from(s: Seq<u8>, i: int, cur: Seq<u8>) -> Seq<Seq<u8>>
    decreases s.len() - i,
{
    if i < 0 || i >= s.len() {
        if cur.len() == 0 {
            Seq::empty()
        } else {
            seq![cur]
        }
    } else if is_ws(s[i]) {
        if cur.len() == 0 {
            tokens_from(s, i + 1, Seq::empty())
        } else {
            seq![cur] + tokens_from(s, i + 1, Seq::empty())
        }
    } else {
        tokens_from(s, i + 1, cur.push(s[i]))
    }
}

/// The whitespace-separated tokens of `s`.
pub open spec fn tokens(s: Seq<u8>) -> Seq<Seq<u8>> {
    tokens_from(s, 0, Seq::empty())
}

/// The bounds of the whitespace-separated tokens of `s[start..end]`, in
/// order, as index pairs into `s`.
pub fn token_bounds(s: &[u8], start: usize, end: usize) -> (r: Vec<(usize, usize)>)
    requires
        start <= end <= s@.len(),
    ensures
        r@.len() == tokens(s@.subrange(start as int, end as int)).len(),
        forall|j: int|
            0 <= j < r@.len() ==> start <= (#[trigger] r@[j]).0 && r@[j].0 < r@[j].1 && r@[j].1
                <= end,
        forall|j: int|
            0 <= j < r@.len() ==> s@.subrange((#[trigger] r@[j]).0 as int, r@[j].1 as int)
                == tokens(s@.subrange(start as int, end as int))[j],
{
    let ghost t = s@.subrange(start as int, end as int);
    let mut res: Vec<(usize, usize)> = Vec::new();
    let mut i: usize = start;
    let mut in_run: bool = false;
    let mut run_start: usize = start;
    while i < end
        invariant
            start <= i <= end <= s@.len(),
            t == s@.subrange(start as int, end as int),
            in_run ==> start <= run_start < i,
            in_run ==> forall|k: int| run_start - start <= k < i - start ==> !is_ws(#[trigger] t[k]),
            tokens(t) == Seq::new(res@.len(), |j: int| s@.subrange(res@[j].0 as int, res@[j].1 as int))
                + tokens_from(t, i - start, if in_run { t.subrange(run_start - start, i - start) } else { Seq::empty() }),
            forall|j: int|
                0 <= j < res@.len() ==> start <= (#[trigger] res@[j]).0 && res@[j].0 < res@[j].1
                    && res@[j].1 <= end,
        decreases end - i,
    {
        let b = s[i];
        proof {
            assert(t[i - start] == s@[i as int]);
        }
        let ws = b == 32 || b == 9 || b == 13 || b == 10;
        let ghost cur = if in_run {
            t.subrange(run_start - start, i - start)
        } else {
            Seq::empty()
        };
        let ghost old_res = res@;
        if ws {
            if in_run {
                res.push((run_start, i));
                in_run = false;
                proof {
                    assert(cur.len() > 0);
                    assert(tokens_from(t, i - start, cur) == seq![cur] + tokens_from(
                        t,
                        i - start + 1,
                        Seq::empty(),
                    ));
                    assert(s@.subrange(run_start as int, i as int) =~= cur);
                    assert(Seq::new(res@.len(), |j: int| s@.subrange(res@[j].0 as int, res@[j].1 as int))
                        =~= Seq::new(old_res.len(), |j: int| s@.subrange(old_res[j].0 as int, old_res[j].1 as int))
                        + seq![cur]);
                }
            } else {
                proof {
                    assert(tokens_from(t, i - start, Seq::empty()) == tokens_from(
                        t,
                        i - start + 1,
                        Seq::empty(),
                    ));
                }
            }
        } else {
            if !in_run {
                in_run = true;
                run_start = i;
            }
            proof {
                assert(tokens_from(t, i - start, cur) == tokens_from(
                    t,
                    i - start + 1,
                    cur.push(t[i - start]),
                ));
                assert(t.subrange(run_start - start, i - start + 1) =~= cur.push(t[i - start]));
            }
        }
        i = i + 1;
    }
    if in_run {
        let ghost cur = t.subrange(run_start - start, i - start);
        let ghost old_res = res@;
        res.push((run_start, end));
        proof {
            assert(cur.len() > 0);
            assert(tokens_from(t, i - start, cur) == seq![cur]);
            assert(s@.subrange(run_start as int, end as int) =~= cur);
            assert(Seq::new(res@.len(), |j: int| s@.subrange(res@[j].0 as int, res@[j].1 as int))
                =~= Seq::new(old_res.len(), |j: int| s@.subrange(old_res[j].0 as int, old_res[j].1 as int))
                + seq![cur]);
        }
    }
    proof {
        assert(tokens(t) =~= Seq::new(
            res@.len(),
            |j: int| s@.subrange(res@[j].0 as int, res@[j].1 as int),
        ));
        assert forall|j: int| 0 <= j < res@.len() implies s@.subrange(
            (#[trigger] res@[j]).0 as int,
            res@[j].1 as int,
        ) == tokens(t)[j] by {
            assert(tokens(t)[j] == Seq::new(
                res@.len(),
                |j: int| s@.subrange(res@[j].0 as int, res@[j].1 as int),
            )[j]);
        }
    }
    res
}

/// The lines of `s`: the runs between line feeds, a final line feed closing
/// the last line rather than opening an empty one.
pub open spec fn lines_from(s: Seq<u8>, i: int, cur: Seq<u8>) -> Seq<Seq<u8>>
    decreases s.len() - i,
{
    if i < 0 || i >= s.len() {
        if cur.len() == 0 {
            Seq::empty()
        } else {
            seq![cur]
        }
    } else if s[i] == 10 {
        seq![cur] + lines_from(s, i + 1, Seq::empty())
    } else {
        lines_from(s, i + 1, cur.push(s[i]))
    }
}

/// The lines of `s`.
pub open spec fn lines_of(s: Seq<u8>) -> Seq<Seq<u8>> {
    lines_from(s, 0, Seq::empty())
}

/// Scanning over line-feed-free bytes only extends the run in progress.
pub proof fn lemma_lines_scan(s: Seq<u8>, i: int, j: int, cur: Seq<u8>)
    requires
        0 <= i <= j <= s.len(),
        forall|k: int| i <= k < j ==> s[k] != 10,
    ensures
        lines_from(s, i, cur) == lines_from(s, j, cur + s.subrange(i, j)),
    decreases j - i,
{
    if i < j {
        lemma_lines_scan(s, i + 1, j, cur.push(s[i]));
        assert(cur.push(s[i]) + s.subrange(i + 1, j) =~= cur + s.subrange(i, j));
    } else {
        assert(cur + s.subrange(i, i) =~= cur);
    }
}

/// `s` with leading whitespace dropped.
pub open spec fn trim_front(s: Seq<u8>) -> Seq<u8>
    decreases s.len(),
{
    if s.len() > 0 && is_ws(s[0]) {
        trim_front(s.subrange(1, s.len() as int))
    } else {
        s
    }
}

/// `s` with trailing whitespace dropped.
pub open spec fn trim_back(s: Seq<u8>) -> Seq<u8>
    decreases s.len(),
{
    if s.len() > 0 && is_ws(s.last()) {
        trim_back(s.drop_last())
    } else {
        s
    }
}

/// `s` with whitespace dropped at both ends.
pub open spec fn trim_spec(s: Seq<u8>) -> Seq<u8> {
    trim_back(trim_front(s))
}

/// The bounds of `s` without its leading and trailing whitespace.
pub fn trim_bounds(s: &[u8]) -> (r: (usize, usize))
    ensures
        r.0 <= r.1 <= s@.len(),
        s@.subrange(r.0 as int, r.1 as int) == trim_spec(s@),
{
    let n = s.len();
    proof {
        assert(s@.subrange(0, n as int) =~= s@);
    }
    let mut a: usize = 0;
    while a < n && (s[a] == 32 || s[a] == 9 || s[a] == 13 || s[a] == 10)
        invariant
            0 <= a <= n == s@.len(),
            trim_front(s@) == trim_front(s@.subrange(a as int, n as int)),
        decreases n - a,
    {
        proof {
            let rest = s@.subrange(a as int, n as int);
            assert(rest[0] == s@[a as int]);
            assert(rest.subrange(1, rest.len() as int) =~= s@.subrange(a as int + 1, n as int));
        }
        a = a + 1;
    }
    proof {
        let rest = s@.subrange(a as int, n as int);
        if a < n {
            assert(rest[0] == s@[a as int]);
        }
        assert(trim_front(s@) == rest);
    }
    let mut b: usize = n;
    while b > a && (s[b - 1] == 32 || s[b - 1] == 9 || s[b - 1] == 13 || s[b - 1] == 10)
        invariant
            a <= b <= n == s@.len(),
            trim_front(s@) == s@.subrange(a as int, n as int),
            trim_back(s@.subrange(a as int, n as int)) == trim_back(
                s@.subrange(a as int, b as int),
            ),
        decreases b,
    {
        proof {
            let part = s@.subrange(a as int, b as int);
            assert(part.last() == s@[b - 1]);
            assert(part.drop_last() =~= s@.subrange(a as int, b as int - 1));
        }
        b = b - 1;
    }
    proof {
        let part = s@.subrange(a as int, b as int);
        if b > a {
            assert(part.last() == s@[b - 1]);
        }
        assert(trim_back(part) == part);
    }
    (a, b)
}

} // verus!
