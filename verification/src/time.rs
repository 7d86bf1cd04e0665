//! Moments on the proleptic Gregorian calendar, without a time zone.
//!
//! A moment is kept as whole seconds since 1970-01-01 00:00:00 and nanoseconds
//! within the second. Nanoseconds of 1,000,000,000 and more stand for a leap
//! second. Dates are read, written and taken apart by `chrono`.

use calendar::Date;
use chrono::Datelike;
use vstd::arithmetic::div_mod::{lemma_fundamental_div_mod, lemma_fundamental_div_mod_converse};
use vstd::prelude::*;

pub mod calendar;
pub mod laws;

verus! {

/// A moment as a mathematical object.
pub struct Moment {
    pub secs: int,
    pub nanos: int,
}

/// The first second that `chrono` can represent, -262143-01-01 00:00:00.
pub open spec fn first_second() -> int {
    -8_334_601_228_800
}

/// The last second that `chrono` can represent, 262142-12-31 23:59:59.
pub open spec fn last_second() -> int {
    8_210_266_876_799
}

/// Whether a moment can be represented: its second lies in the range of dates,
/// and a leap second is the last one of a minute.
pub open spec fn representable(m: Moment) -> bool {
    &&& first_second() <= m.secs <= last_second()
    &&& 0 <= m.nanos < 2_000_000_000
    &&& m.nanos >= 1_000_000_000 ==> m.secs % 60 == 59
}

/// A moment that can be represented.
#[derive(Debug, Clone, Copy, PartialEq, Eq)]
pub struct Timestamp {
    secs: i64,
    nanos: u32,
}

impl View for Timestamp {
    type V = Moment;

    closed spec fn view(&self) -> Moment {
        Moment { secs: self.secs as int, nanos: self.nanos as int }
    }
}

/// The moment of an optional timestamp.
pub open spec fn moment(t: Option<Timestamp>) -> Option<Moment> {
    match t {
        Some(t) => Some(t@),
        None => None,
    }
}

/// The moment `delta` nanoseconds after `m`, or `None` outside the range of
/// dates. From within a leap second a move to another second counts from its
/// beginning or end, and a move inside it stays in it.
pub open spec fn shifted(m: Moment, delta: int) -> Option<Moment> {
    if m.nanos >= 1_000_000_000 && -1_000_000_000 < delta && m.nanos + delta < 2_000_000_000 {
        Some(Moment { secs: m.secs, nanos: m.nanos + delta })
    } else {
        let leap: int = if m.nanos >= 1_000_000_000 && delta > 0 {
            1_000_000_000
        } else {
            0
        };
        let total = m.secs * 1_000_000_000 + m.nanos + delta - leap;
        let secs = total / 1_000_000_000;
        if first_second() <= secs <= last_second() {
            Some(Moment { secs, nanos: total % 1_000_000_000 })
        } else {
            None
        }
    }
}

/// Division towards zero.
pub open spec fn quotient(a: int, b: int) -> int {
    if a < 0 {
        -((-a) / b)
    } else {
        a / b
    }
}

/// The nanoseconds from `b` to `a`. A leap second that lies between their
/// times of day counts.
pub open spec fn nanos_between(a: Moment, b: Moment) -> int {
    let leap: int = if a.secs % 86_400 > b.secs % 86_400 && b.nanos >= 1_000_000_000 {
        1
    } else if a.secs % 86_400 < b.secs % 86_400 && a.nanos >= 1_000_000_000 {
        -1
    } else {
        0
    };
    (a.secs - b.secs + leap) * 1_000_000_000 + a.nanos - b.nanos
}

/// The moment of seconds since 1970 and nanoseconds.
pub open spec fn pair_moment(p: Option<(i64, u32)>) -> Option<Moment> {
    match p {
        Some((secs, nanos)) => Some(Moment { secs: secs as int, nanos: nanos as int }),
        None => None,
    }
}

/// What `chrono::NaiveDateTime::parse_from_str` reads: seconds since 1970 and
/// nanoseconds.
pub uninterp spec fn chrono_datetime(text: Seq<char>, format: Seq<char>) -> Option<(i64, u32)>;

/// `chrono::NaiveDateTime::parse_from_str`, the result as seconds since 1970
/// and nanoseconds. What is read can be represented; fourteen digits, and a text
/// of the form `YYYY-MM-DD HH:MM:SS`, are read as the moment they stand for.
#[verifier::external_body]
fn parse_datetime(text: &str, format: &str) -> (r: Option<(i64, u32)>)
    ensures
        r == chrono_datetime(text@, format@),
        r matches Some((secs, nanos)) ==> representable(
            (Moment { secs: secs as int, nanos: nanos as int }),
        ),
        calendar::compact(text@) && format@ == "%Y%m%d%H%M%S"@ ==> pair_moment(r)
            == calendar::compact_moment(text@),
        calendar::spaced(text@) && format@ == "%Y-%m-%d %H:%M:%S%.f"@ ==> pair_moment(r)
            == calendar::spaced_moment(text@),
{
    match chrono::NaiveDateTime::parse_from_str(text, format) {
        Ok(dt) => Some((dt.and_utc().timestamp(), dt.and_utc().timestamp_subsec_nanos())),
        Err(_) => None,
    }
}

/// What `chrono::NaiveDate::parse_from_str` reads: the number of days, with
/// 0001-01-01 as day 1.
pub uninterp spec fn chrono_date(text: Seq<char>, format: Seq<char>) -> Option<i32>;

/// `chrono::NaiveDate::parse_from_str`, the result as its `num_days_from_ce`,
/// which lies between those of -262143-01-01 and 262142-12-31.
#[verifier::external_body]
fn parse_date(text: &str, format: &str) -> (r: Option<i32>)
    ensures
        r == chrono_date(text@, format@),
        r matches Some(days) ==> -95_746_129 <= days <= 95_745_399,
{
    match chrono::NaiveDate::parse_from_str(text, format) {
        Ok(d) => Some(d.num_days_from_ce()),
        Err(_) => None,
    }
}

/// `chrono::DateTime::from_timestamp`: the given second and nanosecond when
/// they can be represented, nothing otherwise.
#[verifier::external_body]
fn from_timestamp(secs: i64, nanos: u32) -> (r: Option<(i64, u32)>)
    ensures
        r == if representable((Moment { secs: secs as int, nanos: nanos as int })) {
            Some((secs, nanos))
        } else {
            None
        },
{
    match chrono::DateTime::from_timestamp(secs, nanos) {
        Some(dt) => Some((dt.timestamp(), dt.timestamp_subsec_nanos())),
        None => None,
    }
}

/// `chrono::NaiveDateTime::checked_add_signed` of a `TimeDelta` of `by_secs`
/// seconds and `by_nanos` nanoseconds: the moment shifted by their sum.
#[verifier::external_body]
fn checked_add_signed(secs: i64, nanos: u32, by_secs: i64, by_nanos: u32) -> (r: Option<(i64, u32)>)
    requires
        representable((Moment { secs: secs as int, nanos: nanos as int })),
        -9_223_372_036_854_775 <= by_secs < 9_223_372_036_854_775,
        by_nanos < 1_000_000_000,
    ensures
        (match r {
            Some((s, n)) => Some(Moment { secs: s as int, nanos: n as int }),
            None => None,
        }) == shifted(
            (Moment { secs: secs as int, nanos: nanos as int }),
            by_secs * 1_000_000_000 + by_nanos,
        ),
{
    let start = chrono::DateTime::from_timestamp(secs, nanos)?.naive_utc();
    let end = start.checked_add_signed(chrono::TimeDelta::new(by_secs, by_nanos)?)?;
    Some((end.and_utc().timestamp(), end.and_utc().timestamp_subsec_nanos()))
}

/// `chrono::NaiveDateTime::signed_duration_since` in whole minutes, rounded
/// towards zero.
#[verifier::external_body]
fn signed_minutes_since(a: (i64, u32), b: (i64, u32)) -> (r: i64)
    requires
        representable((Moment { secs: a.0 as int, nanos: a.1 as int })),
        representable((Moment { secs: b.0 as int, nanos: b.1 as int })),
    ensures
        r == quotient(
            nanos_between(
                (Moment { secs: a.0 as int, nanos: a.1 as int }),
                (Moment { secs: b.0 as int, nanos: b.1 as int }),
            ),
            60_000_000_000,
        ),
{
    let a = chrono::DateTime::from_timestamp(a.0, a.1).unwrap().naive_utc();
    let b = chrono::DateTime::from_timestamp(b.0, b.1).unwrap().naive_utc();
    a.signed_duration_since(b).num_minutes()
}

/// `chrono::NaiveDateTime::format` in text: `%Y`, `%m`, `%d`, `%H`, `%M` and `%S`
/// as numbers with zeros before them, a year outside 0 to 9999 with a sign, and
/// `%.3f` as the milliseconds behind a point. A format that is not well-formed
/// would panic, so only known ones are admitted.
#[verifier::external_body]
fn format_datetime(secs: i64, nanos: u32, format: &str) -> (r: String)
    requires
        representable((Moment { secs: secs as int, nanos: nanos as int })),
        calendar::known_format(format@),
    ensures
        r@ == calendar::written((Moment { secs: secs as int, nanos: nanos as int }), format@),
{
    let dt = chrono::DateTime::from_timestamp(secs, nanos).unwrap().naive_utc();
    dt.format(format).to_string()
}

/// `chrono::Datelike::year`, `month` and `day` of the second `secs`: the date
/// that it falls on, with a year between -262143 and 262142.
#[verifier::external_body]
fn date_parts(secs: i64) -> (r: (i32, u32, u32))
    requires
        first_second() <= secs <= last_second(),
    ensures
        calendar::falls_on(
            (Date { year: r.0 as int, month: r.1 as int, day: r.2 as int }),
            secs as int,
        ),
        -262_143 <= r.0 <= 262_142,
{
    let dt = chrono::DateTime::from_timestamp(secs, 0).unwrap().naive_utc();
    (dt.year(), dt.month(), dt.day())
}

impl Timestamp {
    #[verifier::type_invariant]
    spec fn inv(self) -> bool {
        representable((Moment { secs: self.secs as int, nanos: self.nanos as int }))
    }

    /// The moment `secs` seconds after 1970-01-01 00:00:00 and `nanos`
    /// nanoseconds, if it can be represented.
    pub fn new(secs: i64, nanos: u32) -> (r: Option<Self>)
        ensures
            moment(r) == if representable((Moment { secs: secs as int, nanos: nanos as int })) {
                Some(Moment { secs: secs as int, nanos: nanos as int })
            } else {
                None
            },
    {
        match from_timestamp(secs, nanos) {
            Some((secs, nanos)) => Some(Timestamp { secs, nanos }),
            None => None,
        }
    }

    /// Reads a date and a time in the given format.
    pub fn parse(text: &str, format: &str) -> (r: Option<Self>)
        ensures
            moment(r) == pair_moment(chrono_datetime(text@, format@)),
            calendar::compact(text@) && format@ == "%Y%m%d%H%M%S"@ ==> moment(r)
                == calendar::compact_moment(text@),
            calendar::spaced(text@) && format@ == "%Y-%m-%d %H:%M:%S%.f"@ ==> moment(r)
                == calendar::spaced_moment(text@),
    {
        match parse_datetime(text, format) {
            Some((secs, nanos)) => Some(Timestamp { secs, nanos }),
            None => None,
        }
    }

    /// Reads a date in the given format, as its midnight.
    pub fn parse_midnight(text: &str, format: &str) -> (r: Option<Self>)
        ensures
            moment(r) == match chrono_date(text@, format@) {
                Some(days) => Some(
                    Moment { secs: (days - calendar::epoch_day()) * 86_400, nanos: 0 },
                ),
                None => None,
            },
    {
        match parse_date(text, format) {
            Some(days) => Some(Timestamp { secs: (days as i64 - 719_163) * 86_400, nanos: 0 }),
            None => None,
        }
    }

    /// Seconds since 1970-01-01 00:00:00.
    pub fn timestamp(self) -> (r: i64)
        ensures
            r == self@.secs,
            representable(self@),
    {
        proof {
            use_type_invariant(&self);
        }
        self.secs
    }

    /// Nanoseconds within the second.
    pub fn subsec_nanos(self) -> (r: u32)
        ensures
            r == self@.nanos,
    {
        self.nanos
    }

    /// The moment `by_secs` seconds and `by_nanos` nanoseconds later, if it can
    /// be represented.
    pub fn plus(self, by_secs: i64, by_nanos: u32) -> (r: Option<Self>)
        requires
            by_nanos < 1_000_000_000,
        ensures
            moment(r) == shifted(self@, by_secs * 1_000_000_000 + by_nanos),
    {
        proof {
            use_type_invariant(&self);
        }
        if by_secs < -9_223_372_036_854_775 || by_secs >= 9_223_372_036_854_775 {
            return None;
        }
        match checked_add_signed(self.secs, self.nanos, by_secs, by_nanos) {
            Some((secs, nanos)) => {
                proof {
                    lemma_shifted_representable(self@, by_secs * 1_000_000_000 + by_nanos);
                }
                Some(Timestamp { secs, nanos })
            },
            None => None,
        }
    }

    /// The moment `micros` microseconds later, if it can be represented.
    pub fn plus_micros(self, micros: i64) -> (r: Option<Self>)
        ensures
            moment(r) == shifted(self@, micros * 1000),
    {
        let (secs, rest): (i64, i64) = div_mod(micros, 1_000_000);
        self.plus(secs, rest as u32 * 1000)
    }

    /// The moment `millis` milliseconds earlier, if it can be represented.
    pub fn minus_millis(self, millis: i64) -> (r: Option<Self>)
        ensures
            moment(r) == shifted(self@, -(millis * 1_000_000)),
    {
        let (secs, rest): (i64, i64) = div_mod(millis, 1000);
        if rest == 0 {
            self.plus(-secs, 0)
        } else {
            self.plus(-secs - 1, (1000 - rest) as u32 * 1_000_000)
        }
    }

    /// The moment `minutes` minutes earlier, if it can be represented.
    pub fn minus_minutes(self, minutes: i32) -> (r: Option<Self>)
        ensures
            moment(r) == shifted(self@, -(minutes * 60_000_000_000)),
    {
        self.plus(-(minutes as i64 * 60), 0)
    }

    /// Whole minutes from `other` to this moment, rounded towards zero.
    pub fn minutes_since(self, other: Self) -> (r: i64)
        ensures
            r == quotient(nanos_between(self@, other@), 60_000_000_000),
            -300_000_000_000 < r < 300_000_000_000,
    {
        proof {
            use_type_invariant(&self);
            use_type_invariant(&other);
        }
        signed_minutes_since((self.secs, self.nanos), (other.secs, other.nanos))
    }

    /// The moment in one of the known formats.
    pub fn format(self, format: &str) -> (r: String)
        requires
            calendar::known_format(format@),
        ensures
            r@ == calendar::written(self@, format@),
    {
        proof {
            use_type_invariant(&self);
        }
        format_datetime(self.secs, self.nanos, format)
    }

    fn date(self) -> (r: (i32, u32, u32))
        ensures
            calendar::date_of(self@.secs) == (Date {
                year: r.0 as int,
                month: r.1 as int,
                day: r.2 as int,
            }),
            -262_143 <= r.0 <= 262_142,
            1 <= r.1 <= 12,
            1 <= r.2 <= 31,
    {
        proof {
            use_type_invariant(&self);
            calendar::lemma_date_of(self.secs as int);
        }
        date_parts(self.secs)
    }

    /// The year.
    pub fn year(self) -> (r: i32)
        ensures
            r == calendar::date_of(self@.secs).year,
            -262_143 <= r <= 262_142,
    {
        self.date().0
    }

    /// The month, from 1 to 12.
    pub fn month(self) -> (r: u32)
        ensures
            r == calendar::date_of(self@.secs).month,
            1 <= r <= 12,
    {
        self.date().1
    }

    /// The day of the month, from 1 to 31.
    pub fn day(self) -> (r: u32)
        ensures
            r == calendar::date_of(self@.secs).day,
            1 <= r <= 31,
    {
        self.date().2
    }

    /// The second of the day, from 0 to 86399.
    pub fn second_of_day(self) -> (r: u32)
        ensures
            r == self@.secs % 86_400,
    {
        let (_, r): (i64, i64) = div_mod(self.secs, 86_400);
        r as u32
    }
}

/// A shifted moment can be represented.
pub proof fn lemma_shifted_representable(m: Moment, delta: int)
    requires
        representable(m),
    ensures
        shifted(m, delta) matches Some(n) ==> representable(n),
{
}

/// Moving forth and back returns to the same moment, outside leap seconds.
pub proof fn shift_back_and_forth(m: Moment, delta: int)
    requires
        representable(m),
        m.nanos < 1_000_000_000,
    ensures
        shifted(m, delta) matches Some(n) ==> shifted(n, -delta) == Some(m),
{
    if let Some(n) = shifted(m, delta) {
        let total = m.secs * 1_000_000_000 + m.nanos + delta;
        assert(n.secs * 1_000_000_000 + n.nanos == total);
        assert((m.secs * 1_000_000_000 + m.nanos) / 1_000_000_000 == m.secs);
    }
}

/// Outside leap seconds a longer shift leads to no earlier second.
pub proof fn shifts_keep_order(m: Moment, first: int, second: int)
    requires
        representable(m),
        m.nanos < 1_000_000_000,
        first <= second,
    ensures
        shifted(m, first) matches Some(a) ==> shifted(m, second) matches Some(b) ==> a.secs
            <= b.secs,
{
}

/// Quotient and remainder of a division that rounds down.
fn div_mod(a: i64, b: i64) -> (r: (i64, i64))
    requires
        0 < b < 1_000_000_000,
    ensures
        a == r.0 * b + r.1,
        0 <= r.1 < b,
        r.0 == a as int / b as int,
        r.1 == a as int % b as int,
{
    let n: u64 = if a >= 0 {
        a as u64
    } else {
        (-(a + 1)) as u64
    };
    let k: u64 = n / b as u64;
    let j: u64 = n % b as u64;
    proof {
        lemma_fundamental_div_mod(n as int, b as int);
        assert(k <= n) by (nonlinear_arith)
            requires
                n == b * k + j,
                b > 0,
                j >= 0,
                k >= 0,
        ;
    }
    let (q, m): (i64, i64) = if a >= 0 {
        (k as i64, j as i64)
    } else {
        (-(k as i64) - 1, b - 1 - j as i64)
    };
    proof {
        assert(a == q * b + m) by (nonlinear_arith)
            requires
                n == b * k + j,
                a >= 0 ==> n == a && q == k && m == j,
                a < 0 ==> n == -(a + 1) && q == -k - 1 && m == b - 1 - j,
        ;
        lemma_fundamental_div_mod_converse(a as int, b as int, q as int, m as int);
    }
    (q, m)
}

} // verus!
