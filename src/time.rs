//! Points in time: the zone-less wall-clock readings that the scheduler
//! prints, and the UTC instants that name the archive's files.
use chrono::{Datelike, Timelike};
use vstd::prelude::*;

use crate::text::{
    all_digits, digit_char, digit_to_char, digits_value, is_digit, lemma_digit_char,
    push_char, replace_all, replace_char,
};

verus! {

/// A wall-clock reading `YYYY-MM-DDTHH:MM:SS` as the scheduler prints it,
/// without a zone.
#[derive(Clone, Copy, Debug, PartialEq, Eq, Structural, Hash)]
pub struct SlurmTime {
    pub year: u16,
    pub month: u8,
    pub day: u8,
    pub hour: u8,
    pub minute: u8,
    pub second: u8,
}

/// An instant as seconds and nanoseconds since 1970-01-01T00:00:00Z.
#[derive(Clone, Copy, Debug, PartialEq, Eq, Structural, Hash)]
pub struct UtcInstant {
    pub secs: i64,
    pub nanos: u32,
}

pub open spec fn is_leap_year(y: int) -> bool {
    y % 4 == 0 && (y % 100 != 0 || y % 400 == 0)
}

pub open spec fn days_in_month(y: int, m: int) -> int {
    if m == 2 {
        if is_leap_year(y) {
            29
        } else {
            28
        }
    } else if m == 4 || m == 6 || m == 9 || m == 11 {
        30
    } else {
        31
    }
}

impl SlurmTime {
    /// A calendar date with a time of day, the year written in four digits.
    pub open spec fn valid(self) -> bool {
        &&& self.year <= 9999
        &&& 1 <= self.month <= 12
        &&& 1 <= self.day <= days_in_month(self.year as int, self.month as int)
        &&& self.hour < 24
        &&& self.minute < 60
        &&& self.second < 60
    }
}

impl UtcInstant {
    /// `self` lies strictly before `other`.
    pub open spec fn before(self, other: UtcInstant) -> bool {
        self.secs < other.secs || (self.secs == other.secs && self.nanos < other.nanos)
    }

    /// The Unix epoch, 1970-01-01T00:00:00Z.
    pub fn epoch() -> (r: UtcInstant)
        ensures
            r.secs == 0 && r.nanos == 0,
    {
        UtcInstant { secs: 0, nanos: 0 }
    }

    /// Whether `self` lies strictly before `other`.
    pub fn is_before(&self, other: &UtcInstant) -> (r: bool)
        ensures
            r == self.before(*other),
    {
        self.secs < other.secs || (self.secs == other.secs && self.nanos < other.nanos)
    }
}

/// The `w` last decimal digits of `n`, with leading zeros.
pub open spec fn padded(n: nat, w: nat) -> Seq<char>
    decreases w,
{
    if w == 0 {
        Seq::empty()
    } else {
        padded(n / 10, (w - 1) as nat).push(digit_char(n % 10))
    }
}

pub open spec fn pow10(w: nat) -> nat
    decreases w,
{
    if w == 0 {
        1
    } else {
        10 * pow10((w - 1) as nat)
    }
}

pub proof fn lemma_padded(n: nat, w: nat)
    requires
        n < pow10(w),
    ensures
        padded(n, w).len() == w,
        all_digits(padded(n, w)),
        digits_value(padded(n, w)) == n,
    decreases w,
{
    if w > 0 {
        assert(n / 10 < pow10((w - 1) as nat));
        lemma_padded(n / 10, (w - 1) as nat);
        lemma_digit_char(n % 10);
        let p = padded(n, w);
        assert(p.drop_last() == padded(n / 10, (w - 1) as nat));
        assert(p.last() == digit_char(n % 10));
        assert(n == (n / 10) * 10 + n % 10);
        assert forall|i: int| 0 <= i < p.len() implies is_digit(#[trigger] p[i]) by {
            if i < p.len() - 1 {
                assert(p[i] == padded(n / 10, (w - 1) as nat)[i]);
            }
        }
    } else {
        assert(n == 0);
    }
}

/// The reading that `s` writes in the scheduler's form `YYYY-MM-DDTHH:MM:SS`,
/// if it has that form and names a real date and time.
pub open spec fn slurm_time_of(s: Seq<char>) -> Option<SlurmTime> {
    if s.len() == 19 && s[4] == '-' && s[7] == '-' && s[10] == 'T' && s[13] == ':' && s[16]
        == ':' && all_digits(s.subrange(0, 4)) && all_digits(s.subrange(5, 7)) && all_digits(
        s.subrange(8, 10),
    ) && all_digits(s.subrange(11, 13)) && all_digits(s.subrange(14, 16)) && all_digits(
        s.subrange(17, 19),
    ) {
        let t = SlurmTime {
            year: digits_value(s.subrange(0, 4)) as u16,
            month: digits_value(s.subrange(5, 7)) as u8,
            day: digits_value(s.subrange(8, 10)) as u8,
            hour: digits_value(s.subrange(11, 13)) as u8,
            minute: digits_value(s.subrange(14, 16)) as u8,
            second: digits_value(s.subrange(17, 19)) as u8,
        };
        if t.valid() {
            Some(t)
        } else {
            None
        }
    } else {
        None
    }
}

/// The scheduler's writing of `t`.
pub open spec fn slurm_time_text(t: SlurmTime) -> Seq<char> {
    padded(t.year as nat, 4) + seq!['-'] + padded(t.month as nat, 2) + seq!['-'] + padded(
        t.day as nat,
        2,
    ) + seq!['T'] + padded(t.hour as nat, 2) + seq![':'] + padded(t.minute as nat, 2) + seq![':']
        + padded(t.second as nat, 2)
}

/// The format in which the scheduler writes its readings, in chrono's
/// notation.
pub const SCHEDULER_TIME_FORMAT: &'static str = "%Y-%m-%dT%H:%M:%S";

/// What chrono's `NaiveDateTime::parse_from_str` with
/// `SCHEDULER_TIME_FORMAT` reads, as year, month, day, hour, minute and
/// second, from a text that is not exactly `YYYY-MM-DDTHH:MM:SS` with a real
/// date and time: chrono also takes shorter fields, blanks before a number,
/// signed and longer years, and a leap second.
pub uninterp spec fn chrono_lenient_fields(s: Seq<char>) -> Option<(int, int, int, int, int, int)>;

/// The fields that chrono reads from `s`: on the scheduler's own form,
/// exactly the reading written there.
pub open spec fn chrono_time_fields(s: Seq<char>) -> Option<(int, int, int, int, int, int)> {
    match slurm_time_of(s) {
        Some(t) => Some(
            (
                t.year as int,
                t.month as int,
                t.day as int,
                t.hour as int,
                t.minute as int,
                t.second as int,
            ),
        ),
        None => chrono_lenient_fields(s),
    }
}

/// The reading that the scheduler's text `s` holds: what chrono reads, where
/// it is a real date and time of the years 0 to 9999.
pub open spec fn scheduler_time_of(s: Seq<char>) -> Option<SlurmTime> {
    match chrono_time_fields(s) {
        Some(f) => if 0 <= f.0 <= 9999 && 0 <= f.1 <= 255 && 0 <= f.2 <= 255 && 0 <= f.3 <= 255
            && 0 <= f.4 <= 255 && 0 <= f.5 <= 255 {
            let t = SlurmTime {
                year: f.0 as u16,
                month: f.1 as u8,
                day: f.2 as u8,
                hour: f.3 as u8,
                minute: f.4 as u8,
                second: f.5 as u8,
            };
            if t.valid() {
                Some(t)
            } else {
                None
            }
        } else {
            None
        },
        None => None,
    }
}

/// A reading written in the scheduler's form reads back as itself.
pub proof fn lemma_scheduler_time_round_trip(t: SlurmTime)
    requires
        t.valid(),
    ensures
        scheduler_time_of(slurm_time_text(t)) == Some(t),
{
    lemma_slurm_time_round_trip(t);
}

/// Relies on chrono's `NaiveDateTime::parse_from_str`, with `year`, `month`,
/// `day`, `hour`, `minute` and `second` of the result. With
/// `SCHEDULER_TIME_FORMAT` it reads the four-digit year and the two-digit
/// fields of `YYYY-MM-DDTHH:MM:SS` as written, and gives `None` where the
/// date or time is not real.
#[verifier::external_body]
fn chrono_parse_naive(s: &str, format: &str) -> (r: Option<(i32, u32, u32, u32, u32, u32)>)
    requires
        format@ == SCHEDULER_TIME_FORMAT@,
    ensures
        match r {
            Some(v) => chrono_time_fields(s@) == Some(
                (v.0 as int, v.1 as int, v.2 as int, v.3 as int, v.4 as int, v.5 as int),
            ),
            None => chrono_time_fields(s@) is None,
        },
        slurm_time_of(s@) is None ==> chrono_lenient_fields(s@) == match r {
            Some(v) => Some(
                (v.0 as int, v.1 as int, v.2 as int, v.3 as int, v.4 as int, v.5 as int),
            ),
            None => None::<(int, int, int, int, int, int)>,
        },
{
    let t = chrono::NaiveDateTime::parse_from_str(s, format).ok()?;
    Some((t.year(), t.month(), t.day(), t.hour(), t.minute(), t.second()))
}

impl SlurmTime {
    /// Reads the scheduler's `YYYY-MM-DDTHH:MM:SS` with chrono.
    pub fn parse(s: &str) -> (r: Option<SlurmTime>)
        ensures
            r == scheduler_time_of(s@),
    {
        match chrono_parse_naive(s, SCHEDULER_TIME_FORMAT) {
            Some((y, mo, d, h, mi, se)) => {
                if y < 0 || y > 9999 || mo > 255 || d > 255 || h > 255 || mi > 255 || se > 255 {
                    return None;
                }
                let t = SlurmTime {
                    year: y as u16,
                    month: mo as u8,
                    day: d as u8,
                    hour: h as u8,
                    minute: mi as u8,
                    second: se as u8,
                };
                if t.is_valid() {
                    Some(t)
                } else {
                    None
                }
            },
            None => None,
        }
    }

    /// Whether `self` is a calendar date with a time of day.
    pub fn is_valid(&self) -> (r: bool)
        ensures
            r == self.valid(),
    {
        let y = self.year;
        let leap = y % 4 == 0 && (y % 100 != 0 || y % 400 == 0);
        let m = self.month;
        let month_days: u8 = if m == 2 {
            if leap {
                29
            } else {
                28
            }
        } else if m == 4 || m == 6 || m == 9 || m == 11 {
            30
        } else {
            31
        };
        y <= 9999 && 1 <= m && m <= 12 && 1 <= self.day && self.day <= month_days && self.hour < 24
            && self.minute < 60 && self.second < 60
    }

    /// Writes `self` as the scheduler does, `YYYY-MM-DDTHH:MM:SS`.
    pub fn format(&self) -> (r: String)
        requires
            self.valid(),
        ensures
            r@ == slurm_time_text(*self),
    {
        let mut r = String::new();
        push_padded(&mut r, self.year as u64, 4);
        push_char(&mut r, '-');
        push_padded(&mut r, self.month as u64, 2);
        push_char(&mut r, '-');
        push_padded(&mut r, self.day as u64, 2);
        push_char(&mut r, 'T');
        push_padded(&mut r, self.hour as u64, 2);
        push_char(&mut r, ':');
        push_padded(&mut r, self.minute as u64, 2);
        push_char(&mut r, ':');
        push_padded(&mut r, self.second as u64, 2);
        r
    }
}

/// Appends the `w` last decimal digits of `n`, with leading zeros.
pub fn push_padded(s: &mut String, n: u64, w: u64)
    ensures
        final(s)@ == old(s)@ + padded(n as nat, w as nat),
    decreases w,
{
    if w > 0 {
        push_padded(s, n / 10, w - 1);
        let c = digit_to_char(n % 10);
        push_char(s, c);
        assert(final(s)@ =~= old(s)@ + padded(n as nat, w as nat));
    } else {
        assert(final(s)@ =~= old(s)@ + padded(n as nat, w as nat));
    }
}

/// Reading back what `format` wrote gives the same time.
pub proof fn lemma_slurm_time_round_trip(t: SlurmTime)
    requires
        t.valid(),
    ensures
        slurm_time_of(slurm_time_text(t)) == Some(t),
{
    assert(pow10(4) == 10000 && pow10(2) == 100) by {
        reveal_with_fuel(pow10, 5);
    }
    lemma_padded(t.year as nat, 4);
    lemma_padded(t.month as nat, 2);
    lemma_padded(t.day as nat, 2);
    lemma_padded(t.hour as nat, 2);
    lemma_padded(t.minute as nat, 2);
    lemma_padded(t.second as nat, 2);
    let s = slurm_time_text(t);
    assert(s.subrange(0, 4) =~= padded(t.year as nat, 4));
    assert(s.subrange(5, 7) =~= padded(t.month as nat, 2));
    assert(s.subrange(8, 10) =~= padded(t.day as nat, 2));
    assert(s.subrange(11, 13) =~= padded(t.hour as nat, 2));
    assert(s.subrange(14, 16) =~= padded(t.minute as nat, 2));
    assert(s.subrange(17, 19) =~= padded(t.second as nat, 2));
}

/// Days from 1970-01-01 to the date `y-m-d` of the proleptic Gregorian
/// calendar: the year is counted from March, in eras of 400 years.
pub open spec fn days_from_civil(y: int, m: int, d: int) -> int {
    let yy = if m <= 2 {
        y - 1
    } else {
        y
    };
    let era = yy / 400;
    let yoe = yy - era * 400;
    let mp = if m > 2 {
        m - 3
    } else {
        m + 9
    };
    let doy = (153 * mp + 2) / 5 + d - 1;
    let doe = yoe * 365 + yoe / 4 - yoe / 100 + doy;
    era * 146097 + doe - 719468
}

/// Seconds since the Unix epoch of the civil time `y-m-d h:mi:s` read as UTC.
pub open spec fn civil_seconds(y: int, m: int, d: int, h: int, mi: int, s: int) -> int {
    days_from_civil(y, m, d) * 86400 + h * 3600 + mi * 60 + s
}

/// The civil seconds of a valid reading lie between the years 0 and 9999.
pub proof fn lemma_civil_bounds(t: SlurmTime)
    requires
        t.valid(),
    ensures
        -100_000_000_000 <= civil_seconds(
            t.year as int,
            t.month as int,
            t.day as int,
            t.hour as int,
            t.minute as int,
            t.second as int,
        ) <= 300_000_000_000,
{
    let y = t.year as int;
    let m = t.month as int;
    let d = t.day as int;
    let yy = if m <= 2 {
        y - 1
    } else {
        y
    };
    assert(-1 <= yy <= 9999);
    let era = yy / 400;
    assert(-1 <= era <= 24) by (nonlinear_arith)
        requires
            -1 <= yy <= 9999,
            era == yy / 400,
    ;
    let yoe = yy - era * 400;
    assert(0 <= yoe < 400) by (nonlinear_arith)
        requires
            era == yy / 400,
            yoe == yy - era * 400,
    ;
    let mp = if m > 2 {
        m - 3
    } else {
        m + 9
    };
    assert(0 <= mp <= 11);
    let doy = (153 * mp + 2) / 5 + d - 1;
    assert(0 <= (153 * mp + 2) / 5 <= 337) by (nonlinear_arith)
        requires
            0 <= mp <= 11,
    ;
    assert(days_in_month(y, m) <= 31);
    assert(0 <= doy <= 367);
    assert(0 <= yoe / 4 <= 99 && 0 <= yoe / 100 <= 3) by (nonlinear_arith)
        requires
            0 <= yoe < 400,
    ;
    let doe = yoe * 365 + yoe / 4 - yoe / 100 + doy;
    assert(0 - 3 <= doe <= 399 * 365 + 99 + 367);
    let days = era * 146097 + doe - 719468;
    assert(days == days_from_civil(y, m, d));
    assert(-1000000 <= days <= 3000000);
}

/// Chrono's calendar reaches years 0 to 9999 and far beyond; within these
/// bounds of seconds, every instant with a nanosecond part below one second
/// is a date and time that chrono can write.
pub open spec fn in_chrono_range(t: UtcInstant) -> bool {
    t.nanos < 1_000_000_000 && -8_000_000_000_000 <= t.secs <= 8_000_000_000_000
}

/// The instant that chrono reads from an RFC 3339 text.
pub uninterp spec fn rfc3339_instant(s: Seq<char>) -> Option<UtcInstant>;

/// The RFC 3339 text that chrono writes for an instant.
pub uninterp spec fn rfc3339_text(secs: int, nanos: int) -> Seq<char>;

/// Relies on chrono's `NaiveDate::from_ymd_opt`, `NaiveDate::and_hms_opt` and
/// `NaiveDateTime::and_utc().timestamp()`: the Unix time of a civil time read
/// as UTC on the proleptic Gregorian calendar. `from_ymd_opt` accepts every
/// real date of the years chrono covers, which include 0 to 9999, and
/// `and_hms_opt` every time of day with hours below 24, minutes and seconds
/// below 60.
#[verifier::external_body]
fn chrono_civil_seconds(y: i32, m: u32, d: u32, h: u32, mi: u32, s: u32) -> (r: Option<i64>)
    ensures
        r matches Some(v) ==> v as int == civil_seconds(
            y as int,
            m as int,
            d as int,
            h as int,
            mi as int,
            s as int,
        ),
        (0 <= y <= 9999 && 1 <= m <= 12 && 1 <= d <= days_in_month(y as int, m as int) && h < 24
            && mi < 60 && s < 60) ==> r is Some,
{
    let date = chrono::NaiveDate::from_ymd_opt(y, m, d)?;
    Some(date.and_hms_opt(h, mi, s)?.and_utc().timestamp())
}

/// Relies on chrono's `DateTime::parse_from_rfc3339`, with `timestamp` and
/// `timestamp_subsec_nanos` of the result.
#[verifier::external_body]
fn chrono_parse_rfc3339(s: &str) -> (r: Option<UtcInstant>)
    ensures
        r == rfc3339_instant(s@),
{
    chrono::DateTime::parse_from_rfc3339(s).ok().map(
        |t| UtcInstant { secs: t.timestamp(), nanos: t.timestamp_subsec_nanos() },
    )
}

/// Relies on chrono's `DateTime::from_timestamp` and `DateTime::to_rfc3339`:
/// the text of an instant that chrono can represent. `from_timestamp` gives
/// `None` only for a nanosecond part of two seconds or more, a leap second
/// off the minute's last second, or a day outside its calendar; `to_rfc3339`
/// always writes.
#[verifier::external_body]
fn chrono_rfc3339(t: &UtcInstant) -> (r: Option<String>)
    ensures
        r matches Some(s) ==> s@ == rfc3339_text(t.secs as int, t.nanos as int),
        in_chrono_range(*t) ==> r is Some,
{
    chrono::DateTime::from_timestamp(t.secs, t.nanos).map(|d| d.to_rfc3339())
}

impl SlurmTime {
    /// The instant at which the reading `self`, taken on clocks that run
    /// `offset_secs` seconds ahead of UTC, was shown.
    pub fn to_utc(&self, offset_secs: i32) -> (r: Option<UtcInstant>)
        ensures
            r matches Some(u) ==> u.nanos == 0 && u.secs == civil_seconds(
                self.year as int,
                self.month as int,
                self.day as int,
                self.hour as int,
                self.minute as int,
                self.second as int,
            ) - offset_secs,
            self.valid() ==> r is Some,
    {
        proof {
            if self.valid() {
                lemma_civil_bounds(*self);
            }
        }
        let naive = chrono_civil_seconds(
            self.year as i32,
            self.month as u32,
            self.day as u32,
            self.hour as u32,
            self.minute as u32,
            self.second as u32,
        );
        match naive {
            Some(v) => {
                let off = offset_secs as i64;
                if (off < 0 && v > i64::MAX + off) || (off > 0 && v < i64::MIN + off) {
                    None
                } else {
                    Some(UtcInstant { secs: v - off, nanos: 0 })
                }
            },
            None => None,
        }
    }
}

/// The stamp that an archive file name carries: RFC 3339 with every `:`
/// written as `_`.
pub open spec fn stamp_text(t: UtcInstant) -> Seq<char> {
    replace_all(rfc3339_text(t.secs as int, t.nanos as int), ':', '_')
}

/// The instant that an archive file name's stamp stands for.
pub open spec fn stamp_instant(s: Seq<char>) -> Option<UtcInstant> {
    rfc3339_instant(replace_all(s, '_', ':'))
}

/// Reads the stamp of an archive file name, such as
/// `2025-01-04T00_55_04.789009695+00_00`, as an instant.
pub fn extract_timestamp(s: &str) -> (r: Option<UtcInstant>)
    ensures
        r == stamp_instant(s@),
{
    let text = replace_char(s, '_', ':');
    chrono_parse_rfc3339(text.as_str())
}

/// The stamp for archive file names taken at `t`.
pub fn archive_stamp(t: &UtcInstant) -> (r: Option<String>)
    ensures
        r matches Some(s) ==> s@ == stamp_text(*t),
        in_chrono_range(*t) ==> r is Some,
{
    match chrono_rfc3339(t) {
        Some(text) => Some(replace_char(text.as_str(), ':', '_')),
        None => None,
    }
}

} // verus!
