//! Turning command-line values into the parameters of a run.

use vstd::prelude::*;

use vstd::string::StrSliceExecFns;

use crate::stats::{steps_to_keep, StatsAggregator};

verus! {

/// Time units in a millisecond: time values count microseconds.
pub const TIME_UNITS_PER_MILLI: u64 = 1000;

/// Time units in a second.
pub const TIME_UNITS_PER_SEC: u64 = 1_000_000;

/// The value of a decimal digit.
pub open spec fn digit_value(c: char) -> int {
    (c as u32) as int - ('0' as u32) as int
}

/// `s` is a non-empty run of ASCII decimal digits.
pub open spec fn is_decimal(s: Seq<char>) -> bool {
    s.len() > 0 && forall|i: int| 0 <= i < s.len() ==> '0' <= #[trigger] s[i] <= '9'
}

/// The number that the decimal digits `s` write.
pub open spec fn decimal_value(s: Seq<char>) -> int
    decreases s.len(),
{
    if s.len() == 0 {
        0
    } else {
        decimal_value(s.drop_last()) * 10 + digit_value(s.last())
    }
}

/// What `usize::from_str` gives for `s`: an optional `+` sign followed by
/// decimal digits whose value fits, and nothing else.
pub open spec fn usize_from_str(s: Seq<char>) -> Option<usize> {
    let digits = if s.len() > 0 && s[0] == '+' {
        s.skip(1)
    } else {
        s
    };
    if is_decimal(digits) && decimal_value(digits) <= usize::MAX {
        Some(decimal_value(digits) as usize)
    } else {
        None
    }
}

/// A decimal value never shrinks when digits are appended.
proof fn lemma_decimal_prefix(t: Seq<char>, k: int)
    requires
        0 <= k <= t.len(),
        forall|i: int| 0 <= i < t.len() ==> '0' <= #[trigger] t[i] <= '9',
    ensures
        0 <= decimal_value(t.subrange(0, k)) <= decimal_value(t),
    decreases t.len(),
{
    if t.len() > 0 {
        let p = t.drop_last();
        if k == t.len() {
            assert(t.subrange(0, k) =~= t);
            lemma_decimal_prefix(p, p.len() as int);
            assert(p.subrange(0, p.len() as int) =~= p);
        } else {
            lemma_decimal_prefix(p, k);
            assert(p.subrange(0, k) =~= t.subrange(0, k));
            lemma_decimal_prefix(p, p.len() as int);
            assert(p.subrange(0, p.len() as int) =~= p);
        }
    }
}

/// Reads a `usize` as `usize::from_str` does: an optional `+`, then decimal
/// digits whose value fits; anything else gives `None`.
pub fn parse_usize(s: &str) -> (r: Option<usize>)
    ensures
        r == usize_from_str(s@),
{
    let n = s.unicode_len();
    let start: usize = if n > 0 && s.get_char(0) == '+' {
        1
    } else {
        0
    };
    let ghost digits = s@.skip(start as int);
    assert(digits == if s@.len() > 0 && s@[0] == '+' {
        s@.skip(1)
    } else {
        s@
    }) by {
        if start == 0 {
            assert(s@.skip(0) =~= s@);
        }
    }
    if start >= n {
        return None;
    }
    let mut i: usize = start;
    let mut v: usize = 0;
    while i < n
        invariant
            start <= i <= n,
            n == s@.len(),
            digits == s@.skip(start as int),
            digits == (if s@.len() > 0 && s@[0] == '+' {
                s@.skip(1)
            } else {
                s@
            }),
            forall|j: int| start <= j < i ==> '0' <= #[trigger] s@[j] <= '9',
            v == decimal_value(digits.subrange(0, i - start)),
        decreases n - i,
    {
        let c = s.get_char(i);
        if !('0' <= c && c <= '9') {
            assert(digits[i - start] == c);
            assert(!is_decimal(digits));
            return None;
        }
        let ghost p = digits.subrange(0, i - start + 1);
        assert(p.drop_last() =~= digits.subrange(0, i - start));
        let d: usize = (c as u32 - '0' as u32) as usize;
        let next = match v.checked_mul(10) {
            Some(m) => m.checked_add(d),
            None => None,
        };
        match next {
            Some(x) => {
                v = x;
            },
            None => {
                proof {
                    assert(p.last() == c);
                    assert(decimal_value(p) == v * 10 + digit_value(c));
                    assert(decimal_value(p) > usize::MAX);
                    if is_decimal(digits) {
                        lemma_decimal_prefix(digits, i - start + 1);
                    }
                }
                return None;
            },
        }
        i = i + 1;
    }
    assert(digits.subrange(0, n - start) =~= digits);
    Some(v)
}

/// A parsed count, which must be positive.
pub fn check_positive(parsed: Option<usize>) -> (r: Result<usize, &'static str>)
    ensures
        parsed is None ==> (r matches Err(e) && e@ == "Invalid usize"@),
        parsed == Some(0usize) ==> (r matches Err(e) && e@ == "Invalid value"@),
        parsed is Some && parsed->0 > 0 ==> r == Ok::<usize, &'static str>(parsed->0),
{
    match parsed {
        None => Err("Invalid usize"),
        Some(v) => if v == 0 {
            Err("Invalid value")
        } else {
            Ok(v)
        },
    }
}

/// Reads a positive count from a command-line value.
pub fn positive_usize_parser(s: &str) -> (r: Result<usize, &'static str>)
    ensures
        usize_from_str(s@) is None ==> (r matches Err(e) && e@ == "Invalid usize"@),
        usize_from_str(s@) == Some(0usize) ==> (r matches Err(e) && e@ == "Invalid value"@),
        usize_from_str(s@) is Some && usize_from_str(s@)->0 > 0 ==> r == Ok::<usize, &'static str>(
            usize_from_str(s@)->0,
        ),
{
    check_positive(parse_usize(s))
}

/// `a * b`, or `u64::MAX` when that does not fit.
pub open spec fn saturating_product(a: u64, b: u64) -> u64 {
    if a * b <= u64::MAX {
        (a * b) as u64
    } else {
        u64::MAX
    }
}

/// The time value of `ms` milliseconds, saturating.
pub fn time_value_from_millis(ms: u64) -> (r: u64)
    ensures
        r == saturating_product(ms, TIME_UNITS_PER_MILLI),
{
    match ms.checked_mul(TIME_UNITS_PER_MILLI) {
        Some(v) => v,
        None => u64::MAX,
    }
}

/// The time value of `secs` seconds, saturating.
pub fn time_value_from_secs(secs: u64) -> (r: u64)
    ensures
        r == saturating_product(secs, TIME_UNITS_PER_SEC),
{
    match secs.checked_mul(TIME_UNITS_PER_SEC) {
        Some(v) => v,
        None => u64::MAX,
    }
}

/// Number of steps of `step_size` that cover `span` time units, at least one.
pub open spec fn steps_covering(span: u64, step_size: u64) -> int {
    let n = span as int / step_size as int + if span as int % step_size as int != 0 {
        1int
    } else {
        0int
    };
    if n < 1 {
        1
    } else {
        n
    }
}

/// The aggregator of a run: steps of `stats_interval_ms` milliseconds, a
/// window that covers `stats_evict_interval_secs` seconds (at least one step,
/// and no more than a `usize` counts), and evictions that keep the last
/// `stats_evict_threshold_secs` seconds. Evicted steps are kept for the caller
/// when `record_evicted`.
pub fn make_stats_aggregator_from_arg(
    stats_interval_ms: u64,
    stats_evict_interval_secs: u64,
    stats_evict_threshold_secs: u64,
    record_evicted: bool,
) -> (r: StatsAggregator)
    requires
        stats_interval_ms >= 1,
    ensures
        r.wf(),
        r.spec_step_size() == saturating_product(stats_interval_ms, TIME_UNITS_PER_MILLI),
        steps_covering(saturating_product(stats_evict_interval_secs, TIME_UNITS_PER_SEC), r.spec_step_size()) <= usize::MAX
            ==> r.spec_max_steps() == steps_covering(
            saturating_product(stats_evict_interval_secs, TIME_UNITS_PER_SEC),
            r.spec_step_size(),
        ),
        r.spec_keep() == steps_to_keep(
            r.spec_step_size(),
            saturating_product(stats_evict_threshold_secs, TIME_UNITS_PER_SEC),
        ),
        r.spec_records_evicted() == record_evicted,
        r@.first == 0,
        r@.steps.len() == 0,
        r@.evicted.len() == 0,
{
    let step_size = time_value_from_millis(stats_interval_ms);
    let span = time_value_from_secs(stats_evict_interval_secs);
    let threshold = time_value_from_secs(stats_evict_threshold_secs);
    let whole = span / step_size;
    proof {
        assert(step_size >= 1000);
        assert(span as int / step_size as int <= span as int / 1000) by (nonlinear_arith)
            requires
                step_size >= 1000,
                span >= 0,
        ;
    }
    let n: u64 = if span % step_size != 0 {
        whole + 1
    } else if whole == 0 {
        1
    } else {
        whole
    };
    let max_steps: usize = if n as u128 <= usize::MAX as u128 {
        n as usize
    } else {
        usize::MAX
    };
    StatsAggregator::new(step_size, max_steps, threshold, record_evicted)
}

} // verus!
