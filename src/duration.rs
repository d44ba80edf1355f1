//! The scheduler's durations: `D-H:M:S`, `D-H`, `H:M:S`, `M:S` or `M`.
use vstd::prelude::*;

use crate::text::{
    chars_of, decimal, is_digit, lemma_concat_free, lemma_decimal, lemma_join2, lemma_join3,
    lemma_split_join, parse_u64, parse_unsigned, push_char, push_decimal, split_chars, split_on,
    unsigned_digits, views,
};
use crate::time::{lemma_padded, padded, pow10, push_padded};

verus! {

/// A part of a duration read as a `u64`.
pub open spec fn part_value(s: Seq<char>) -> Option<nat> {
    parse_unsigned(s, u64::MAX as nat)
}

/// The seconds of the part after the day prefix, if any: `H:M:S`; `M:S`
/// where there is no day prefix; or a bare number, which counts hours after
/// a day prefix and minutes without one.
pub open spec fn clock_secs(s: Seq<char>, has_days: bool) -> Option<nat> {
    let p = split_on(s, ':');
    if p.len() == 3 {
        match (part_value(p[0]), part_value(p[1]), part_value(p[2])) {
            (Some(h), Some(m), Some(x)) => Some(h * 3600 + m * 60 + x),
            _ => None,
        }
    } else if p.len() == 2 && !has_days {
        match (part_value(p[0]), part_value(p[1])) {
            (Some(m), Some(x)) => Some(m * 60 + x),
            _ => None,
        }
    } else if p.len() == 1 {
        match part_value(p[0]) {
            Some(v) => if has_days {
                Some(v * 3600)
            } else {
                Some(v * 60)
            },
            None => None,
        }
    } else {
        None
    }
}

/// The seconds that `s` denotes, where it has one of the accepted forms: at
/// most one `-`, which ends the day prefix.
pub open spec fn duration_total(s: Seq<char>) -> Option<nat> {
    let d = split_on(s, '-');
    if d.len() == 2 {
        match (part_value(d[0]), clock_secs(d[1], true)) {
            (Some(days), Some(c)) => Some(days * 86400 + c),
            _ => None,
        }
    } else if d.len() == 1 {
        clock_secs(d[0], false)
    } else {
        None
    }
}

/// The seconds that `s` denotes, where that count fits in a `u64`.
pub open spec fn duration_secs(s: Seq<char>) -> Option<nat> {
    match duration_total(s) {
        Some(t) => if t <= u64::MAX {
            Some(t)
        } else {
            None
        },
        None => None,
    }
}

/// Why a duration could not be read.
#[derive(Clone, Copy, Debug, PartialEq, Eq, Structural)]
pub enum DurationError {
    /// The text has none of the accepted forms, or a part is no number.
    InvalidFormat,
    /// The duration does not fit in a `u64` count of seconds.
    Overflow,
}

/// `a * k + b`, where it fits in a `u64`.
fn mul_add(a: u64, k: u64, b: u64) -> (r: Option<u64>)
    ensures
        match r {
            Some(v) => v == a * k + b,
            None => a * k + b > u64::MAX,
        },
{
    if k != 0 && a > u64::MAX / k {
        assert(a * k > u64::MAX) by (nonlinear_arith)
            requires
                k != 0,
                a > u64::MAX / k,
        ;
        return None;
    }
    assert(a * k <= u64::MAX) by (nonlinear_arith)
        requires
            k == 0 || a <= u64::MAX / k,
    ;
    let p = a * k;
    if b > u64::MAX - p {
        return None;
    }
    Some(p + b)
}

fn clock_part(p: &String) -> (r: Option<u64>)
    ensures
        r == (match part_value(p@) {
            Some(v) => Some(v as u64),
            None => None,
        }),
{
    parse_u64(p.as_str())
}

/// Reads the part after the day prefix.
fn parse_clock(s: &String, has_days: bool) -> (r: Result<u64, DurationError>)
    ensures
        match r {
            Ok(v) => clock_secs(s@, has_days) == Some(v as nat),
            Err(DurationError::Overflow) => clock_secs(s@, has_days) matches Some(c) && c
                > u64::MAX,
            Err(DurationError::InvalidFormat) => clock_secs(s@, has_days) is None,
        },
{
    let cs = chars_of(s.as_str());
    let p = split_chars(&cs, ':');
    assert(views(p@).len() == p@.len());
    if p.len() == 3 {
        assert(views(p@)[0] == p@[0]@ && views(p@)[1] == p@[1]@ && views(p@)[2] == p@[2]@);
        let (h, m, x) = match (clock_part(&p[0]), clock_part(&p[1]), clock_part(&p[2])) {
            (Some(h), Some(m), Some(x)) => (h, m, x),
            _ => {
                return Err(DurationError::InvalidFormat);
            },
        };
        let hm = match mul_add(h, 60, m) {
            Some(v) => v,
            None => {
                assert(h * 3600 + m * 60 + x > u64::MAX) by (nonlinear_arith)
                    requires
                        h * 60 + m > u64::MAX,
                ;
                return Err(DurationError::Overflow);
            },
        };
        match mul_add(hm, 60, x) {
            Some(v) => Ok(v),
            None => Err(DurationError::Overflow),
        }
    } else if p.len() == 2 && !has_days {
        assert(views(p@)[0] == p@[0]@ && views(p@)[1] == p@[1]@);
        let (m, x) = match (clock_part(&p[0]), clock_part(&p[1])) {
            (Some(m), Some(x)) => (m, x),
            _ => {
                return Err(DurationError::InvalidFormat);
            },
        };
        match mul_add(m, 60, x) {
            Some(v) => Ok(v),
            None => Err(DurationError::Overflow),
        }
    } else if p.len() == 1 {
        assert(views(p@)[0] == p@[0]@);
        let v = match clock_part(&p[0]) {
            Some(v) => v,
            None => {
                return Err(DurationError::InvalidFormat);
            },
        };
        let k: u64 = if has_days {
            3600
        } else {
            60
        };
        match mul_add(v, k, 0) {
            Some(t) => Ok(t),
            None => Err(DurationError::Overflow),
        }
    } else {
        Err(DurationError::InvalidFormat)
    }
}

/// Reads a scheduler duration as whole seconds: `D-H:M:S`, `D-H`, `H:M:S`,
/// `M:S` or `M`. After a day prefix `D-` a bare number counts hours; without
/// one it counts minutes.
pub fn parse_slurm_duration(s: &str) -> (r: Result<u64, DurationError>)
    ensures
        match r {
            Ok(v) => duration_total(s@) == Some(v as nat),
            Err(DurationError::Overflow) => duration_total(s@) matches Some(t) && t > u64::MAX,
            Err(DurationError::InvalidFormat) => duration_total(s@) is None,
        },
{
    let cs = chars_of(s);
    let d = split_chars(&cs, '-');
    assert(views(d@).len() == d@.len());
    if d.len() == 2 {
        assert(views(d@)[0] == d@[0]@ && views(d@)[1] == d@[1]@);
        let days = match clock_part(&d[0]) {
            Some(v) => v,
            None => {
                return Err(DurationError::InvalidFormat);
            },
        };
        let c = match parse_clock(&d[1], true) {
            Ok(c) => c,
            Err(e) => {
                proof {
                    if e == DurationError::Overflow {
                        let t = clock_secs(d@[1]@, true)->0;
                        assert(days * 86400 + t > u64::MAX) by (nonlinear_arith)
                            requires
                                t > u64::MAX,
                        ;
                    }
                }
                return Err(e);
            },
        };
        match mul_add(days, 86400, c) {
            Some(v) => Ok(v),
            None => Err(DurationError::Overflow),
        }
    } else if d.len() == 1 {
        assert(views(d@)[0] == d@[0]@);
        parse_clock(&d[0], false)
    } else {
        Err(DurationError::InvalidFormat)
    }
}

/// The writing `D-HH:MM:SS` of a duration of `secs` seconds.
pub open spec fn duration_text(secs: nat) -> Seq<char> {
    decimal(secs / 86400).push('-') + padded((secs % 86400) / 3600, 2).push(':') + padded(
        (secs % 3600) / 60,
        2,
    ).push(':') + padded(secs % 60, 2)
}

/// Writes a duration as `D-HH:MM:SS`.
pub fn format_duration(secs: u64) -> (r: String)
    ensures
        r@ == duration_text(secs as nat),
{
    let mut r = String::new();
    push_decimal(&mut r, secs / 86400);
    push_char(&mut r, '-');
    push_padded(&mut r, (secs % 86400) / 3600, 2);
    push_char(&mut r, ':');
    push_padded(&mut r, (secs % 3600) / 60, 2);
    push_char(&mut r, ':');
    push_padded(&mut r, secs % 60, 2);
    assert(r@ =~= duration_text(secs as nat));
    r
}

proof fn lemma_two_digits(n: nat)
    requires
        n < 100,
    ensures
        part_value(padded(n, 2)) == Some(n),
        padded(n, 2).len() == 2,
        !padded(n, 2).contains(':'),
        !padded(n, 2).contains('-'),
{
    assert(pow10(2) == 100) by {
        reveal_with_fuel(pow10, 3);
    }
    lemma_padded(n, 2);
    let p = padded(n, 2);
    assert(p[0] != '+');
    assert(unsigned_digits(p) == Some(p));
    assert(!p.contains(':')) by {
        assert forall|i: int| 0 <= i < p.len() implies p[i] != ':' by {
            assert(is_digit(p[i]));
        }
    }
    assert(!p.contains('-')) by {
        assert forall|i: int| 0 <= i < p.len() implies p[i] != '-' by {
            assert(is_digit(p[i]));
        }
    }
}

proof fn lemma_single_free(c: char, x: char)
    requires
        c != x,
    ensures
        !seq![c].contains(x),
{
    assert forall|i: int| 0 <= i < 1 implies seq![c][i] != x by {}
}

proof fn lemma_split_seconds(secs: nat)
    ensures
        secs == (secs / 86400) * 86400 + ((secs % 86400) / 3600) * 3600 + ((secs % 3600) / 60) * 60
            + secs % 60,
        (secs % 86400) / 3600 < 100,
        (secs % 3600) / 60 < 100,
        secs % 60 < 100,
{
    let s = secs as int;
    vstd::arithmetic::div_mod::lemma_fundamental_div_mod(s, 86400);
    vstd::arithmetic::div_mod::lemma_fundamental_div_mod(s % 86400, 3600);
    vstd::arithmetic::div_mod::lemma_mod_mod(s, 3600, 24);
    vstd::arithmetic::div_mod::lemma_fundamental_div_mod(s % 3600, 60);
    vstd::arithmetic::div_mod::lemma_mod_mod(s, 60, 60);
    assert((s % 86400) % 3600 == s % 3600);
    assert((s % 3600) % 60 == s % 60);
}

/// Reading back what `format_duration` wrote gives the same duration.
#[verifier::rlimit(30)]
pub proof fn lemma_duration_round_trip(secs: nat)
    requires
        secs <= u64::MAX,
    ensures
        duration_secs(duration_text(secs)) == Some(secs),
{
    let days = secs / 86400;
    let h = (secs % 86400) / 3600;
    let m = (secs % 3600) / 60;
    let x = secs % 60;
    lemma_split_seconds(secs);
    lemma_two_digits(h);
    lemma_two_digits(m);
    lemma_two_digits(x);
    lemma_decimal(days);
    let dd = decimal(days);
    assert(!dd.contains('-')) by {
        assert forall|i: int| 0 <= i < dd.len() implies dd[i] != '-' by {
            assert(is_digit(dd[i]));
        }
    }
    assert(unsigned_digits(dd) == Some(dd));
    let ph = padded(h, 2);
    let pm = padded(m, 2);
    let px = padded(x, 2);
    let clock = ph.push(':') + pm.push(':') + px;
    lemma_join3(ph, pm, px, ':');
    lemma_split_join(seq![ph, pm, px], ':');
    assert(split_on(clock, ':') == seq![ph, pm, px]);
    lemma_single_free(':', '-');
    lemma_concat_free(ph, seq![':'], '-');
    assert(ph.push(':') =~= ph + seq![':']);
    assert(pm.push(':') =~= pm + seq![':']);
    lemma_concat_free(pm, seq![':'], '-');
    lemma_concat_free(ph.push(':'), pm.push(':'), '-');
    lemma_concat_free(ph.push(':') + pm.push(':'), px, '-');
    lemma_join2(dd, clock, '-');
    assert(dd.push('-') + clock =~= duration_text(secs));
    lemma_split_join(seq![dd, clock], '-');
    assert(split_on(duration_text(secs), '-') == seq![dd, clock]);
    assert(part_value(dd) == Some(days));
    assert(clock_secs(clock, true) == Some(h * 3600 + m * 60 + x));
}

} // verus!
