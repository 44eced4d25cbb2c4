//! A bound on the seconds a delay text can add up to when humantime reads it.
//!
//! humantime reads a delay as spans: a number (digits, with whitespace
//! allowed among them and an optional `.` fraction) followed by a unit
//! (letters). The bound here reads the text the same way, without checking
//! it: each stretch of non-letters is a number, the letters after it are its
//! unit, and the number costs `(integer part + 1) * unit + (unit + 61 if it
//! has a fraction)` seconds, a unit humantime does not know costing nothing.
//! The sum of the costs is at least the seconds humantime holds at any point
//! of its reading (see `parse_duration` in the handler).

use vstd::prelude::*;

use crate::text::{chars_eq, is_digit};
use crate::strings::chars_of;

verus! {

/// `c` may be part of a unit name: an ASCII letter or `µ`.
pub open spec fn unit_char(c: char) -> bool {
    ('a' <= c <= 'z') || ('A' <= c <= 'Z') || c == '\u{b5}'
}

/// The seconds in one of humantime's units; nanoseconds, microseconds and
/// milliseconds count as a whole second, and an unknown unit as none.
pub open spec fn unit_seconds(u: Seq<char>) -> nat {
    if u == "nanos"@ || u == "nsec"@ || u == "ns"@ || u == "usec"@ || u == "us"@ || u
        == "\u{b5}s"@ || u == "millis"@ || u == "msec"@ || u == "ms"@ || u == "seconds"@ || u
        == "second"@ || u == "secs"@ || u == "sec"@ || u == "s"@ {
        1
    } else if u == "minutes"@ || u == "minute"@ || u == "min"@ || u == "mins"@ || u == "m"@ {
        60
    } else if u == "hours"@ || u == "hour"@ || u == "hr"@ || u == "hrs"@ || u == "h"@ {
        3600
    } else if u == "days"@ || u == "day"@ || u == "d"@ {
        86400
    } else if u == "weeks"@ || u == "week"@ || u == "wk"@ || u == "wks"@ || u == "w"@ {
        604800
    } else if u == "months"@ || u == "month"@ || u == "M"@ {
        2630016
    } else if u == "years"@ || u == "year"@ || u == "yr"@ || u == "yrs"@ || u == "y"@ {
        31557600
    } else {
        0
    }
}

/// What one span may add, in seconds: its integer part plus one, in its
/// unit, and when it has a fraction one more unit and the 61 seconds that
/// a fraction of a minute or second may carry.
pub open spec fn span_cost(v: nat, frac: bool, unit: Seq<char>) -> nat {
    (v + 1) * unit_seconds(unit) + if frac {
        unit_seconds(unit) + 61
    } else {
        0
    }
}

/// Where a left-to-right reading of a delay stands: the cost of the spans
/// closed so far, the integer part and fraction flag of the open span, and
/// the letters of its unit read so far.
pub struct DelayScan {
    pub total: nat,
    pub value: nat,
    pub frac: bool,
    pub unit: Seq<char>,
    pub in_unit: bool,
}

/// The reading of nothing.
pub open spec fn scan_start() -> DelayScan {
    DelayScan { total: 0, value: 0, frac: false, unit: Seq::empty(), in_unit: false }
}

/// The reading after one more character `c`: a letter extends the unit; any
/// other character closes the span whose unit was being read, and then a
/// digit before a `.` extends the integer part and a `.` starts a fraction.
pub open spec fn scan_step(st: DelayScan, c: char) -> DelayScan {
    if unit_char(c) {
        DelayScan { unit: st.unit.push(c), in_unit: true, ..st }
    } else {
        let base = if st.in_unit {
            DelayScan {
                total: st.total + span_cost(st.value, st.frac, st.unit),
                value: 0,
                frac: false,
                unit: Seq::empty(),
                in_unit: false,
            }
        } else {
            st
        };
        if is_digit(c) && !base.frac {
            DelayScan { value: base.value * 10 + ((c as int) - 48) as nat, ..base }
        } else if c == '.' {
            DelayScan { frac: true, ..base }
        } else {
            base
        }
    }
}

/// The reading of `s`.
pub open spec fn scan(s: Seq<char>) -> DelayScan
    decreases s.len(),
{
    if s.len() == 0 {
        scan_start()
    } else {
        scan_step(scan(s.drop_last()), s.last())
    }
}

/// The bound on the seconds of `s`: the cost of all its spans, the last one
/// counted when it has a unit (without one humantime refuses it).
pub open spec fn delay_seconds_bound(s: Seq<char>) -> nat {
    let st = scan(s);
    if st.in_unit {
        st.total + span_cost(st.value, st.frac, st.unit)
    } else {
        st.total
    }
}

/// Reading `s` cannot bring humantime's seconds to `u64::MAX`.
pub open spec fn delay_bounded(s: Seq<char>) -> bool {
    delay_seconds_bound(s) < u64::MAX
}

/// `x`, capped at `u64::MAX`.
pub open spec fn capped(x: nat) -> nat {
    if x < u64::MAX {
        x
    } else {
        u64::MAX as nat
    }
}

proof fn lemma_capped_add(a: nat, b: nat)
    ensures
        capped(capped(a) + capped(b)) == capped(a + b),
{
}

proof fn lemma_capped_digit(x: nat, d: nat)
    ensures
        capped(capped(x) * 10 + d) == capped(x * 10 + d),
{
}

proof fn lemma_capped_cost(x: nat, frac: bool, unit: Seq<char>)
    ensures
        capped(span_cost(capped(x), frac, unit)) == capped(span_cost(x, frac, unit)),
{
    let f = unit_seconds(unit);
    if x >= u64::MAX && f >= 1 {
        assert((x + 1) * f >= x + 1) by (nonlinear_arith)
            requires
                f >= 1,
        ;
        assert((u64::MAX + 1) * f >= u64::MAX + 1) by (nonlinear_arith)
            requires
                f >= 1,
        ;
    }
}

/// Whether `u` is the unit name `name`.
fn is_unit(u: &[char], name: &str) -> (r: bool)
    ensures
        r == (u@ == name@),
{
    let n = chars_of(name);
    chars_eq(u, n.as_slice())
}

/// The seconds of the unit `u`, as `unit_seconds` gives them.
fn unit_seconds_exec(u: &[char]) -> (r: u128)
    ensures
        r == unit_seconds(u@),
{
    if is_unit(u, "nanos") || is_unit(u, "nsec") || is_unit(u, "ns") || is_unit(u, "usec")
        || is_unit(u, "us") || is_unit(u, "\u{b5}s") || is_unit(u, "millis") || is_unit(u, "msec")
        || is_unit(u, "ms") || is_unit(u, "seconds") || is_unit(u, "second") || is_unit(u, "secs")
        || is_unit(u, "sec") || is_unit(u, "s") {
        1
    } else if is_unit(u, "minutes") || is_unit(u, "minute") || is_unit(u, "min") || is_unit(
        u,
        "mins",
    ) || is_unit(u, "m") {
        60
    } else if is_unit(u, "hours") || is_unit(u, "hour") || is_unit(u, "hr") || is_unit(u, "hrs")
        || is_unit(u, "h") {
        3600
    } else if is_unit(u, "days") || is_unit(u, "day") || is_unit(u, "d") {
        86400
    } else if is_unit(u, "weeks") || is_unit(u, "week") || is_unit(u, "wk") || is_unit(u, "wks")
        || is_unit(u, "w") {
        604800
    } else if is_unit(u, "months") || is_unit(u, "month") || is_unit(u, "M") {
        2630016
    } else if is_unit(u, "years") || is_unit(u, "year") || is_unit(u, "yr") || is_unit(u, "yrs")
        || is_unit(u, "y") {
        31557600
    } else {
        0
    }
}

/// The cost of a span, capped at `u64::MAX`.
fn span_cost_capped(v: u128, frac: bool, unit: &[char]) -> (r: u128)
    requires
        v <= u64::MAX,
    ensures
        r == capped(span_cost(v as nat, frac, unit@)),
{
    let f = unit_seconds_exec(unit);
    assert(f <= 31557600);
    assert((v + 1) * f <= (u64::MAX + 1) * 31557600) by (nonlinear_arith)
        requires
            v <= u64::MAX,
            f <= 31557600,
    ;
    let whole = (v + 1) * f;
    let c = if frac {
        whole + f + 61
    } else {
        whole
    };
    if c < u64::MAX as u128 {
        c
    } else {
        u64::MAX as u128
    }
}

/// Whether `s` is `delay_bounded`: the reading of `s`, with every amount
/// capped at `u64::MAX`, stays below it.
pub fn delay_bounded_exec(s: &[char]) -> (r: bool)
    ensures
        r == delay_bounded(s@),
{
    let mut total: u128 = 0;
    let mut value: u128 = 0;
    let mut frac = false;
    let mut unit: Vec<char> = Vec::new();
    let mut in_unit = false;
    let mut i: usize = 0;
    assert(s@.subrange(0, 0) =~= Seq::<char>::empty());
    while i < s.len()
        invariant
            i <= s.len(),
            total == capped(scan(s@.subrange(0, i as int)).total),
            value == capped(scan(s@.subrange(0, i as int)).value),
            frac == scan(s@.subrange(0, i as int)).frac,
            unit@ == scan(s@.subrange(0, i as int)).unit,
            in_unit == scan(s@.subrange(0, i as int)).in_unit,
        decreases s.len() - i,
    {
        let c = s[i];
        let ghost st = scan(s@.subrange(0, i as int));
        assert(s@.subrange(0, i + 1).drop_last() =~= s@.subrange(0, i as int));
        assert(s@.subrange(0, i + 1).last() == c);
        let letter = ('a' <= c && c <= 'z') || ('A' <= c && c <= 'Z') || c == '\u{b5}';
        if letter {
            unit.push(c);
            in_unit = true;
        } else {
            if in_unit {
                let cost = span_cost_capped(value, frac, unit.as_slice());
                proof {
                    lemma_capped_cost(st.value, st.frac, st.unit);
                    lemma_capped_add(st.total, span_cost(st.value, st.frac, st.unit));
                }
                total = if total + cost < u64::MAX as u128 {
                    total + cost
                } else {
                    u64::MAX as u128
                };
                value = 0;
                frac = false;
                unit = Vec::new();
                in_unit = false;
            }
            if '0' <= c && c <= '9' && !frac {
                let d = (c as u32 - 48) as u128;
                proof {
                    let base_value = if st.in_unit {
                        0nat
                    } else {
                        st.value
                    };
                    lemma_capped_digit(base_value, d as nat);
                }
                let next = value * 10 + d;
                value = if next < u64::MAX as u128 {
                    next
                } else {
                    u64::MAX as u128
                };
            } else if c == '.' {
                frac = true;
            }
        }
        assert(unit@ == scan(s@.subrange(0, i + 1)).unit);
        i += 1;
    }
    assert(s@.subrange(0, s@.len() as int) =~= s@);
    let bound = if in_unit {
        let cost = span_cost_capped(value, frac, unit.as_slice());
        let ghost st = scan(s@);
        proof {
            lemma_capped_cost(st.value, st.frac, st.unit);
            lemma_capped_add(st.total, span_cost(st.value, st.frac, st.unit));
        }
        if total + cost < u64::MAX as u128 {
            total + cost
        } else {
            u64::MAX as u128
        }
    } else {
        total
    };
    bound < u64::MAX as u128
}

/// Whether humantime's reading of `s` may be trusted not to overflow.
pub fn delay_in_range(s: &str) -> (r: bool)
    ensures
        r == delay_bounded(s@),
{
    let cs = chars_of(s);
    delay_bounded_exec(cs.as_slice())
}

} // verus!
