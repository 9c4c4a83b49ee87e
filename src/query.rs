//! The query language: `y:YYYY` / `year:YYYY` and `m:MM/YY[YY]` /
//! `month:MM/YY[YY]` date tokens, and the remaining words as a text filter.

use vstd::prelude::*;
use crate::text::{tokens, tokens_of, join_words, join_tokens, chars_of, views_eq};

verus! {

/// Magnitude above which a parsed number is only known to be large.
pub const NUMBER_CAP: i64 = 1_000_000;

pub open spec fn is_digit(c: char) -> bool {
    '0' <= c && c <= '9'
}

pub open spec fn all_digits(s: Seq<char>) -> bool {
    forall|i: int| 0 <= i < s.len() ==> is_digit(#[trigger] s[i])
}

/// The value of a run of decimal digits.
pub open spec fn digits_value(s: Seq<char>) -> int
    decreases s.len(),
{
    if s.len() == 0 {
        0
    } else {
        digits_value(s.drop_last()) * 10 + ((s.last() as u32) - ('0' as u32))
    }
}

/// An integer as `str::parse` reads it: an optional sign, then one or more
/// ASCII digits, nothing else.
pub open spec fn parse_int_spec(s: Seq<char>) -> Option<int> {
    if s.len() > 0 && (s[0] == '+' || s[0] == '-') {
        let d = s.skip(1);
        if d.len() > 0 && all_digits(d) {
            Some(if s[0] == '-' { -digits_value(d) } else { digits_value(d) })
        } else {
            None
        }
    } else if s.len() > 0 && all_digits(s) {
        Some(digits_value(s))
    } else {
        None
    }
}

/// `v`, with magnitudes past `NUMBER_CAP` collapsed to just past it.
pub open spec fn capped(v: int) -> int {
    if v > NUMBER_CAP {
        NUMBER_CAP + 1
    } else if v < -NUMBER_CAP {
        -(NUMBER_CAP + 1)
    } else {
        v
    }
}

/// Reads the integer in `s[lo..hi]`, exact up to `NUMBER_CAP` in magnitude.
pub fn parse_int(s: &Vec<char>, lo: usize, hi: usize) -> (r: Option<i64>)
    requires
        lo <= hi <= s.len(),
    ensures
        r == (match parse_int_spec(s@.subrange(lo as int, hi as int)) {
            Some(v) => Some(capped(v) as i64),
            None => None,
        }),
{
    let ghost whole = s@.subrange(lo as int, hi as int);
    if lo == hi {
        return None;
    }
    assert(whole[0] == s@[lo as int]);
    let neg = s[lo] == '-';
    let start = if s[lo] == '+' || s[lo] == '-' {
        lo + 1
    } else {
        lo
    };
    if start == hi {
        return None;
    }
    let ghost d = s@.subrange(start as int, hi as int);
    assert(start > lo ==> d =~= whole.skip(1));
    assert(start == lo ==> d =~= whole);
    let mut acc: i64 = 0;
    let mut i: usize = start;
    while i < hi
        invariant
            lo <= start <= i <= hi <= s.len(),
            d == s@.subrange(start as int, hi as int),
            whole == s@.subrange(lo as int, hi as int),
            start > lo ==> d == whole.skip(1) && start == lo + 1 && (s@[lo as int] == '+' || s@[lo as int] == '-'),
            start == lo ==> d == whole && !(s@[lo as int] == '+' || s@[lo as int] == '-'),
            whole[0] == s@[lo as int],
            neg == (s@[lo as int] == '-'),
            lo < hi,
            forall|k: int| start <= k < i ==> is_digit(#[trigger] s@[k]),
            digits_value(s@.subrange(start as int, i as int)) >= 0,
            acc == (if digits_value(s@.subrange(start as int, i as int)) > NUMBER_CAP {
                NUMBER_CAP + 1
            } else {
                digits_value(s@.subrange(start as int, i as int))
            }),
        decreases hi - i,
    {
        let c = s[i];
        if !('0' <= c && c <= '9') {
            assert(!all_digits(d)) by {
                assert(d[i - start] == c);
            }
            if start > lo {
                assert(!all_digits(whole.skip(1)));
            } else {
                assert(!all_digits(whole));
            }
            assert(parse_int_spec(whole) is None);
            return None;
        }
        let ghost pre = s@.subrange(start as int, i as int);
        let ghost next = s@.subrange(start as int, i + 1);
        assert(next.drop_last() =~= pre);
        let dv = (c as u32 - '0' as u32) as i64;
        if acc > NUMBER_CAP {
            acc = NUMBER_CAP + 1;
        } else {
            acc = acc * 10 + dv;
            if acc > NUMBER_CAP {
                acc = NUMBER_CAP + 1;
            }
        }
        i = i + 1;
    }
    assert(all_digits(d)) by {
        assert forall|k: int| 0 <= k < d.len() implies is_digit(#[trigger] d[k]) by {
            assert(d[k] == s@[start + k]);
        }
    }
    if neg {
        Some(-acc)
    } else {
        Some(acc)
    }
}

/// Whether `c` equals the lower-case ASCII character `p`, ignoring ASCII case.
pub open spec fn ci_eq(c: char, p: char) -> bool {
    c == p || ('a' <= p && p <= 'z' && (c as u32) == (p as u32) - 32)
}

/// Whether `t` starts with `p`, ignoring ASCII case.
pub open spec fn ci_prefix(t: Seq<char>, p: Seq<char>) -> bool {
    t.len() >= p.len() && forall|i: int| 0 <= i < p.len() ==> ci_eq(#[trigger] t[i], p[i])
}

fn has_prefix_ci(t: &Vec<char>, p: &Vec<char>) -> (r: bool)
    ensures
        r == ci_prefix(t@, p@),
{
    if t.len() < p.len() {
        return false;
    }
    let mut i: usize = 0;
    while i < p.len()
        invariant
            p.len() <= t.len(),
            i <= p.len(),
            forall|k: int| 0 <= k < i ==> ci_eq(#[trigger] t@[k], p@[k]),
        decreases p.len() - i,
    {
        let c = t[i];
        let q = p[i];
        let same = c == q || ('a' <= q && q <= 'z' && (c as u32) == (q as u32) - 32);
        if !same {
            return false;
        }
        i = i + 1;
    }
    true
}

pub open spec fn year_prefix_len(t: Seq<char>) -> int {
    if ci_prefix(t, seq!['y', ':']) {
        2
    } else if ci_prefix(t, seq!['y', 'e', 'a', 'r', ':']) {
        5
    } else {
        0
    }
}

pub open spec fn month_prefix_len(t: Seq<char>) -> int {
    if ci_prefix(t, seq!['m', ':']) {
        2
    } else if ci_prefix(t, seq!['m', 'o', 'n', 't', 'h', ':']) {
        6
    } else {
        0
    }
}

pub open spec fn in_year_range(y: int) -> bool {
    1900 <= y <= 2100
}

/// The year that a `y:` / `year:` token names, when it is in range.
pub open spec fn year_token(t: Seq<char>) -> Option<int> {
    let n = year_prefix_len(t);
    if n == 0 {
        None
    } else {
        match parse_int_spec(t.skip(n)) {
            Some(y) => if in_year_range(y) { Some(y) } else { None },
            None => None,
        }
    }
}

/// Position `i` holds the only slash of `s`.
pub open spec fn only_slash_at(s: Seq<char>, i: int) -> bool {
    0 <= i < s.len() && s[i] == '/' && forall|j: int| 0 <= j < s.len() && s[j] == '/' ==> j == i
}

/// Month and year read from the two sides of the slash.
pub open spec fn month_year_parts(a: Seq<char>, b: Seq<char>) -> Option<(int, int)> {
    match parse_int_spec(a) {
        Some(m) => if 1 <= m <= 12 {
            match parse_int_spec(b) {
                Some(v) => {
                    let y = if b.len() == 2 { 2000 + v } else { v };
                    if in_year_range(y) { Some((m, y)) } else { None }
                },
                None => None,
            }
        } else {
            None
        },
        None => None,
    }
}

/// The month and year of a `MM/YY` or `MM/YYYY` text: exactly one slash,
/// month in 1..=12, a two-character year counted from 2000, the year in range.
pub open spec fn month_year_spec(s: Seq<char>) -> Option<(int, int)> {
    if exists|i: int| only_slash_at(s, i) {
        let i = choose|i: int| only_slash_at(s, i);
        month_year_parts(s.take(i), s.skip(i + 1))
    } else {
        None
    }
}

/// The month and year that an `m:` / `month:` token names.
pub open spec fn month_token(t: Seq<char>) -> Option<(int, int)> {
    let n = month_prefix_len(t);
    if n == 0 {
        None
    } else {
        month_year_spec(t.skip(n))
    }
}

/// The date filter of one token: a year, or a year and a month.
pub open spec fn date_token(t: Seq<char>) -> Option<(int, Option<int>)> {
    match year_token(t) {
        Some(y) => Some((y, None)),
        None => match month_token(t) {
            Some((m, y)) => Some((y, Some(m))),
            None => None,
        },
    }
}

/// The filter of the last date token among `ts`.
pub open spec fn filter_of(ts: Seq<Seq<char>>) -> Option<(int, Option<int>)>
    decreases ts.len(),
{
    if ts.len() == 0 {
        None
    } else {
        match date_token(ts.last()) {
            Some(d) => Some(d),
            None => filter_of(ts.drop_last()),
        }
    }
}

/// The tokens of `ts` that are not date tokens, in order.
pub open spec fn residual(ts: Seq<Seq<char>>) -> Seq<Seq<char>>
    decreases ts.len(),
{
    if ts.len() == 0 {
        seq![]
    } else if date_token(ts.last()) is Some {
        residual(ts.drop_last())
    } else {
        residual(ts.drop_last()).push(ts.last())
    }
}

proof fn lemma_digits_push(s: Seq<char>, c: char)
    ensures
        digits_value(s.push(c)) == digits_value(s) * 10 + ((c as u32) - ('0' as u32)),
{
    assert(s.push(c).drop_last() =~= s);
}

/// `y:2024` sets the year 2024 and leaves no text.
pub proof fn lemma_year_2024_token()
    ensures
        date_token("y:2024"@) == Some((2024int, None::<int>)),
{
    reveal_strlit("y:2024");
    let t = "y:2024"@;
    assert(ci_prefix(t, seq!['y', ':']));
    let d = t.skip(2);
    assert(d =~= seq!['2', '0', '2', '4']);
    assert(all_digits(d));
    lemma_digits_push(seq![], '2');
    assert(seq![].push('2') =~= seq!['2']);
    lemma_digits_push(seq!['2'], '0');
    assert(seq!['2'].push('0') =~= seq!['2', '0']);
    lemma_digits_push(seq!['2', '0'], '2');
    assert(seq!['2', '0'].push('2') =~= seq!['2', '0', '2']);
    lemma_digits_push(seq!['2', '0', '2'], '4');
    assert(seq!['2', '0', '2'].push('4') =~= d);
    assert(digits_value(d) == 2024);
    assert(parse_int_spec(d) == Some(2024int));
}

/// `m:03/24` sets March 2024.
pub proof fn lemma_march_2024_token()
    ensures
        date_token("m:03/24"@) == Some((2024int, Some(3int))),
{
    reveal_strlit("m:03/24");
    let t = "m:03/24"@;
    assert(seq!['y', ':'][0] == 'y');
    assert(!ci_eq(t[0], 'y'));
    assert(!ci_prefix(t, seq!['y', ':']));
    assert(!ci_prefix(t, seq!['y', 'e', 'a', 'r', ':']));
    assert(year_token(t) is None);
    assert(ci_prefix(t, seq!['m', ':']));
    let r = t.skip(2);
    assert(r =~= seq!['0', '3', '/', '2', '4']);
    assert(only_slash_at(r, 2));
    assert(forall|i: int| only_slash_at(r, i) ==> i == 2);
    let a = r.take(2);
    let b = r.skip(3);
    assert(a =~= seq!['0', '3']);
    assert(b =~= seq!['2', '4']);
    lemma_digits_push(seq![], '0');
    assert(seq![].push('0') =~= seq!['0']);
    lemma_digits_push(seq!['0'], '3');
    assert(seq!['0'].push('3') =~= a);
    lemma_digits_push(seq![], '2');
    assert(seq![].push('2') =~= seq!['2']);
    lemma_digits_push(seq!['2'], '4');
    assert(seq!['2'].push('4') =~= b);
    assert(all_digits(a));
    assert(all_digits(b));
    assert(parse_int_spec(a) == Some(3int));
    assert(parse_int_spec(b) == Some(24int));
    assert(month_year_parts(a, b) == Some((3int, 2024int)));
    assert(month_year_spec(r) == Some((3int, 2024int)));
}

/// `alpha` is no date token.
pub proof fn lemma_alpha_token()
    ensures
        date_token("alpha"@) is None,
{
    reveal_strlit("alpha");
    let t = "alpha"@;
    assert(seq!['y', ':'][0] == 'y');
    assert(!ci_eq(t[0], 'y'));
    assert(!ci_prefix(t, seq!['y', ':']));
    assert(!ci_prefix(t, seq!['y', 'e', 'a', 'r', ':']));
    assert(!ci_prefix(t, seq!['m', ':']));
    assert(!ci_prefix(t, seq!['m', 'o', 'n', 't', 'h', ':']));
}

/// The date filter that a query sets.
pub open spec fn query_filter(q: Seq<char>) -> Option<(int, Option<int>)> {
    filter_of(tokens(q))
}

/// The text that a query searches for.
pub open spec fn query_text(q: Seq<char>) -> Seq<char> {
    join_words(residual(tokens(q)))
}

pub open spec fn filter_view(f: Option<(i32, Option<u32>)>) -> Option<(int, Option<int>)> {
    match f {
        Some((y, Some(m))) => Some((y as int, Some(m as int))),
        Some((y, None)) => Some((y as int, None)),
        None => None,
    }
}

/// The position of the only slash in `s[lo..hi]`, if there is exactly one.
fn single_slash(s: &Vec<char>, lo: usize, hi: usize) -> (r: Option<usize>)
    requires
        lo <= hi <= s.len(),
    ensures
        match r {
            Some(p) => lo <= p < hi && only_slash_at(s@.subrange(lo as int, hi as int), p - lo),
            None => !exists|i: int| only_slash_at(s@.subrange(lo as int, hi as int), i),
        },
{
    let ghost t = s@.subrange(lo as int, hi as int);
    let mut found: Option<usize> = None;
    let mut i: usize = lo;
    while i < hi
        invariant
            lo <= i <= hi <= s.len(),
            t == s@.subrange(lo as int, hi as int),
            match found {
                Some(p) => lo <= p < i && s@[p as int] == '/' && forall|j: int|
                    lo <= j < i && s@[j] == '/' ==> j == p,
                None => forall|j: int| lo <= j < i ==> s@[j] != '/',
            },
        decreases hi - i,
    {
        if s[i] == '/' {
            match found {
                Some(p) => {
                    assert(t[p - lo] == '/' && t[i - lo] == '/');
                    assert forall|k: int| !only_slash_at(t, k) by {
                        if only_slash_at(t, k) {
                            assert(t[p - lo] == '/');
                            assert(t[i - lo] == '/');
                        }
                    }
                    return None;
                },
                None => {
                    found = Some(i);
                },
            }
        }
        i = i + 1;
    }
    match found {
        Some(p) => {
            assert forall|j: int| 0 <= j < t.len() && t[j] == '/' implies j == p - lo by {
                assert(t[j] == s@[lo + j]);
            }
            Some(p)
        },
        None => {
            assert forall|k: int| !only_slash_at(t, k) by {
                if 0 <= k < t.len() {
                    assert(t[k] == s@[lo + k]);
                }
            }
            None
        },
    }
}

/// Month and year of `s[lo..hi]`, read as `MM/YY` or `MM/YYYY`.
fn month_year_in(s: &Vec<char>, lo: usize, hi: usize) -> (r: Option<(u32, i32)>)
    requires
        lo <= hi <= s.len(),
    ensures
        r == (match month_year_spec(s@.subrange(lo as int, hi as int)) {
            Some((m, y)) => Some((m as u32, y as i32)),
            None => None,
        }),
{
    let ghost t = s@.subrange(lo as int, hi as int);
    let slash = match single_slash(s, lo, hi) {
        Some(p) => p,
        None => return None,
    };
    let ghost k = slash - lo;
    assert(only_slash_at(t, k));
    assert(forall|i: int| only_slash_at(t, i) ==> i == k);
    assert(t.take(k) =~= s@.subrange(lo as int, slash as int));
    assert(t.skip(k + 1) =~= s@.subrange(slash + 1, hi as int));
    let ghost spec_r = month_year_parts(t.take(k), t.skip(k + 1));
    assert(month_year_spec(t) == spec_r);
    let m = match parse_int(s, lo, slash) {
        Some(m) => m,
        None => return None,
    };
    if !(1 <= m && m <= 12) {
        return None;
    }
    let v = match parse_int(s, slash + 1, hi) {
        Some(v) => v,
        None => return None,
    };
    let y = if hi - (slash + 1) == 2 {
        2000 + v
    } else {
        v
    };
    if 1900 <= y && y <= 2100 {
        Some((m as u32, y as i32))
    } else {
        None
    }
}

/// The date filter of one token.
fn date_token_of(t: &Vec<char>) -> (r: Option<(i32, Option<u32>)>)
    ensures
        filter_view(r) == date_token(t@),
{
    let y2 = vec!['y', ':'];
    let y5 = vec!['y', 'e', 'a', 'r', ':'];
    let m2 = vec!['m', ':'];
    let m6 = vec!['m', 'o', 'n', 't', 'h', ':'];
    assert(y2@ =~= seq!['y', ':']);
    assert(y5@ =~= seq!['y', 'e', 'a', 'r', ':']);
    assert(m2@ =~= seq!['m', ':']);
    assert(m6@ =~= seq!['m', 'o', 'n', 't', 'h', ':']);
    let yn: usize = if has_prefix_ci(t, &y2) {
        2
    } else if has_prefix_ci(t, &y5) {
        5
    } else {
        0
    };
    if yn > 0 {
        assert(t@.subrange(yn as int, t.len() as int) =~= t@.skip(yn as int));
        if let Some(y) = parse_int(t, yn, t.len()) {
            if 1900 <= y && y <= 2100 {
                return Some((y as i32, None));
            }
        }
    }
    let mn: usize = if has_prefix_ci(t, &m2) {
        2
    } else if has_prefix_ci(t, &m6) {
        6
    } else {
        0
    };
    if mn > 0 {
        assert(t@.subrange(mn as int, t.len() as int) =~= t@.skip(mn as int));
        if let Some((m, y)) = month_year_in(t, mn, t.len()) {
            return Some((y, Some(m)));
        }
    }
    None
}

/// Reads `MM/YY` or `MM/YYYY`: the month, then the year.
pub fn parse_month_year(s: &str) -> (r: Option<(u32, i32)>)
    ensures
        r == (match month_year_spec(s@) {
            Some((m, y)) => Some((m as u32, y as i32)),
            None => None,
        }),
{
    let v = chars_of(s);
    assert(v@.subrange(0, v.len() as int) =~= v@);
    month_year_in(&v, 0, v.len())
}

/// Splits a query into its date filter (the last valid date token, if any)
/// and the remaining words joined by single spaces.
pub fn parse_date_filter(query: &str) -> (r: (Option<(i32, Option<u32>)>, String))
    ensures
        filter_view(r.0) == query_filter(query@),
        r.1@ == query_text(query@),
{
    let cs = chars_of(query);
    let ts = tokens_of(&cs);
    let ghost all = tokens(query@);
    let mut filter: Option<(i32, Option<u32>)> = None;
    let mut rest: Vec<Vec<char>> = Vec::new();
    let mut i: usize = 0;
    while i < ts.len()
        invariant
            i <= ts.len(),
            views_eq(ts@, all),
            filter_view(filter) == filter_of(all.take(i as int)),
            views_eq(rest@, residual(all.take(i as int))),
        decreases ts.len() - i,
    {
        assert(all.take(i + 1).drop_last() =~= all.take(i as int));
        assert(all.take(i + 1).last() == ts@[i as int]@);
        let d = date_token_of(&ts[i]);
        match d {
            Some(f) => {
                filter = Some(f);
            },
            None => {
                rest.push(ts[i].clone());
                proof {
                    let w = residual(all.take(i + 1));
                    assert forall|k: int| 0 <= k < rest.len() implies #[trigger] rest@[k]@ == w[k] by {}
                }
            },
        }
        i = i + 1;
    }
    assert(all.take(ts.len() as int) =~= all);
    let text = join_tokens(&rest);
    assert(rest@.map_values(|w: Vec<char>| w@) =~= residual(all));
    (filter, text)
}

} // verus!
