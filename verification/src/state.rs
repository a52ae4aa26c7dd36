//! The gateway's settings: how many trends, how many posts per trend, and how
//! often to rebuild, each read from text with a default.

use vstd::prelude::*;
use crate::text::{chars_of, decimal, decimal_digit};

verus! {

/// Trends fetched and held when `TREND_COUNT` gives no number.
pub const DEFAULT_TREND_COUNT: usize = 5;

/// Posts per context block when `POSTS_PER_TREND` gives no number.
pub const DEFAULT_POSTS_PER_TREND: usize = 8;

/// Seconds between rebuilds when `REFRESH_INTERVAL_SECS` gives no number.
pub const DEFAULT_REFRESH_INTERVAL_SECS: u64 = 300;

/// A decimal digit `0`..`9`.
pub open spec fn is_digit(c: char) -> bool {
    '0' <= c <= '9'
}

/// The number that the decimal digits `d` write.
pub open spec fn digits_value(d: Seq<char>) -> nat
    decreases d.len(),
{
    if d.len() == 0 {
        0
    } else {
        digits_value(d.drop_last()) * 10 + ((d.last() as int - 48) as nat)
    }
}

/// `s` without a leading `+`, if it has one.
pub open spec fn without_plus(s: Seq<char>) -> Seq<char> {
    if s.len() > 0 && s[0] == '+' {
        s.drop_first()
    } else {
        s
    }
}

/// The digits of an unsigned integer written as std parses one: an optional
/// `+`, then one or more decimal digits, nothing else.
pub open spec fn unsigned_digits(s: Seq<char>) -> Option<Seq<char>> {
    let d = without_plus(s);
    if d.len() > 0 && forall|i: int| 0 <= i < d.len() ==> is_digit(#[trigger] d[i]) {
        Some(d)
    } else {
        None
    }
}

/// What `str::parse` gives for an unsigned integer type whose largest value
/// is `max`: the number, when the text is well formed and the number fits.
pub open spec fn parsed_unsigned(s: Seq<char>, max: nat) -> Option<nat> {
    match unsigned_digits(s) {
        Some(d) => if digits_value(d) <= max {
            Some(digits_value(d))
        } else {
            None
        },
        None => None,
    }
}

/// More digits never write a smaller number.
pub proof fn lemma_digits_value_grows(d: Seq<char>, k: int)
    requires
        0 <= k <= d.len(),
        forall|i: int| 0 <= i < d.len() ==> is_digit(#[trigger] d[i]),
    ensures
        digits_value(d.take(k)) <= digits_value(d),
    decreases d.len() - k,
{
    if k < d.len() {
        lemma_digits_value_grows(d, k + 1);
        assert(d.take(k + 1).drop_last() =~= d.take(k));
    } else {
        assert(d.take(k) =~= d);
    }
}

/// `s` parsed as an unsigned integer no greater than `max`, as `str::parse`
/// parses it for the integer type whose largest value is `max`.
pub fn parse_unsigned(s: &str, max: u64) -> (r: Option<u64>)
    ensures
        match parsed_unsigned(s@, max as nat) {
            Some(v) => r == Some(v as u64),
            None => r is None,
        },
{
    let cs = chars_of(s);
    let n = cs.len();
    let start: usize = if n > 0 && cs[0] == '+' {
        1
    } else {
        0
    };
    let ghost d = if n > 0 && cs@[0] == '+' {
        s@.drop_first()
    } else {
        s@
    };
    assert(d =~= cs@.skip(start as int));
    if start == n {
        return None;
    }
    let mut v: u64 = 0;
    let mut i: usize = start;
    while i < n
        invariant
            cs@ == s@,
            n == cs@.len(),
            start <= i <= n,
            d =~= cs@.skip(start as int),
            d == without_plus(s@),
            d.len() > 0,
            forall|k: int| 0 <= k < i - start ==> is_digit(#[trigger] d[k]),
            v as nat == digits_value(d.take(i - start)),
            v <= max,
        decreases n - i,
    {
        let c = cs[i];
        assert(d[i - start] == c);
        if !('0' <= c && c <= '9') {
            assert(!is_digit(d[i - start]));
            assert(unsigned_digits(s@) is None);
            return None;
        }
        let digit: u64 = (c as u32 - 48) as u64;
        assert(d.take(i - start + 1).drop_last() =~= d.take(i - start));
        assert(d.take(i - start + 1).last() == c);
        if digit > max || v > (max - digit) / 10 {
            proof {
                if unsigned_digits(s@) is Some {
                    lemma_digits_value_grows(d, i - start + 1);
                }
            }
            return None;
        }
        v = v * 10 + digit;
        i = i + 1;
    }
    assert(d.take(n - start) =~= d);
    Some(v)
}

/// The number that `value` gives, or `default` when there is no value or it
/// is not an unsigned integer no greater than `max`.
pub fn setting_or(value: Option<&str>, max: u64, default: u64) -> (r: u64)
    ensures
        r == match value {
            Some(s) => match parsed_unsigned(s@, max as nat) {
                Some(v) => v as u64,
                None => default,
            },
            None => default,
        },
{
    match value {
        Some(s) => match parse_unsigned(s, max) {
            Some(v) => v,
            None => default,
        },
        None => default,
    }
}

/// A decimal numeral holds only digits, and writes its number.
pub proof fn lemma_decimal_digits(n: nat)
    ensures
        decimal(n).len() > 0,
        forall|i: int| 0 <= i < decimal(n).len() ==> is_digit(#[trigger] decimal(n)[i]),
        digits_value(decimal(n)) == n,
    decreases n,
{
    let c = decimal_digit((n % 10) as int);
    assert(c as int == 48 + n % 10);
    let d = decimal(n);
    if n >= 10 {
        lemma_decimal_digits(n / 10);
        assert(d.last() == c);
        assert(d.drop_last() =~= decimal(n / 10));
        assert(digits_value(d) == digits_value(d.drop_last()) * 10 + ((d.last() as int - 48) as nat));
        assert(n == (n / 10) * 10 + n % 10);
        assert forall|i: int| 0 <= i < d.len() implies is_digit(#[trigger] d[i]) by {
            if i < d.len() - 1 {
                assert(d[i] == decimal(n / 10)[i]);
            }
        }
    } else {
        assert(d.drop_last() =~= Seq::<char>::empty());
        assert(digits_value(d.drop_last()) == 0);
    }
}

/// A number written out in decimal reads back as itself, wherever it fits.
pub proof fn law_decimal_reads_back(n: nat, max: nat)
    requires
        n <= max,
    ensures
        parsed_unsigned(decimal(n), max) == Some(n),
{
    lemma_decimal_digits(n);
    assert(decimal(n)[0] != '+');
    assert(without_plus(decimal(n)) == decimal(n));
}

/// The gateway's settings.
#[derive(Debug, Clone, Copy, PartialEq, Eq)]
pub struct Settings {
    pub trend_count: usize,
    pub posts_per_trend: usize,
    pub refresh_interval_secs: u64,
}

/// A setting read from `value`, or `default` (see `setting_or`).
pub open spec fn setting_spec(value: Option<Seq<char>>, max: nat, default: nat) -> nat {
    match value {
        Some(s) => match parsed_unsigned(s, max) {
            Some(v) => v,
            None => default,
        },
        None => default,
    }
}

impl Settings {
    /// The settings read from the values of `TREND_COUNT`, `POSTS_PER_TREND`
    /// and `REFRESH_INTERVAL_SECS`, each falling back to its default when it
    /// is missing or not a number that fits.
    pub fn from_values(
        trend_count: Option<&str>,
        posts_per_trend: Option<&str>,
        refresh_interval_secs: Option<&str>,
    ) -> (r: Settings)
        ensures
            r.trend_count == setting_spec(
                match trend_count {
                    Some(s) => Some(s@),
                    None => None,
                },
                usize::MAX as nat,
                DEFAULT_TREND_COUNT as nat,
            ),
            r.posts_per_trend == setting_spec(
                match posts_per_trend {
                    Some(s) => Some(s@),
                    None => None,
                },
                usize::MAX as nat,
                DEFAULT_POSTS_PER_TREND as nat,
            ),
            r.refresh_interval_secs == setting_spec(
                match refresh_interval_secs {
                    Some(s) => Some(s@),
                    None => None,
                },
                u64::MAX as nat,
                DEFAULT_REFRESH_INTERVAL_SECS as nat,
            ),
    {
        let umax: u64 = usize::MAX as u64;
        let t = setting_or(trend_count, umax, DEFAULT_TREND_COUNT as u64);
        let p = setting_or(posts_per_trend, umax, DEFAULT_POSTS_PER_TREND as u64);
        let f = setting_or(refresh_interval_secs, u64::MAX, DEFAULT_REFRESH_INTERVAL_SECS);
        Settings { trend_count: t as usize, posts_per_trend: p as usize, refresh_interval_secs: f }
    }
}

} // verus!
