//! The proleptic Gregorian calendar: which date a day has, and how moments are
//! written and read.

use super::Moment;
use crate::text;
use vstd::arithmetic::div_mod::{
    lemma_fundamental_div_mod, lemma_fundamental_div_mod_converse, lemma_mod_bound,
};
use vstd::prelude::*;

verus! {

/// A date as a mathematical object. The year 0 comes before the year 1.
pub struct Date {
    pub year: int,
    pub month: int,
    pub day: int,
}

/// Whether a year has 366 days.
pub open spec fn leap_year(y: int) -> bool {
    y % 4 == 0 && (y % 100 != 0 || y % 400 == 0)
}

/// The number of days of a month.
pub open spec fn month_days(y: int, m: int) -> int {
    if m == 2 {
        if leap_year(y) {
            29
        } else {
            28
        }
    } else if m == 4 || m == 6 || m == 9 || m == 11 {
        30
    } else {
        31
    }
}

/// The number of days of a year before a month.
pub open spec fn before_month(y: int, m: int) -> int
    decreases m,
{
    if m <= 1 {
        0
    } else {
        before_month(y, m - 1) + month_days(y, m - 1)
    }
}

/// The number of days from 0001-01-01 to the start of a year.
pub open spec fn before_year(y: int) -> int {
    365 * (y - 1) + (y - 1) / 4 - (y - 1) / 100 + (y - 1) / 400
}

/// Whether there is such a date.
pub open spec fn valid(d: Date) -> bool {
    1 <= d.month <= 12 && 1 <= d.day <= month_days(d.year, d.month)
}

/// The number of a date, 0001-01-01 being 1.
pub open spec fn day_number(d: Date) -> int {
    before_year(d.year) + before_month(d.year, d.month) + d.day
}

/// The number of 1970-01-01.
pub open spec fn epoch_day() -> int {
    719_163
}

/// Whether the second `secs` since 1970 falls on a date.
pub open spec fn falls_on(d: Date, secs: int) -> bool {
    valid(d) && day_number(d) == secs / 86_400 + epoch_day()
}

/// The date of the second `secs` since 1970.
pub open spec fn date_of(secs: int) -> Date {
    choose|d: Date| falls_on(d, secs)
}

proof fn lemma_div_step(y: int, d: int)
    requires
        d > 0,
    ensures
        y / d - (y - 1) / d == if y % d == 0 {
            1int
        } else {
            0
        },
{
    lemma_fundamental_div_mod(y, d);
    lemma_mod_bound(y, d);
    if y % d == 0 {
        assert(y - 1 == (y / d - 1) * d + (d - 1)) by (nonlinear_arith)
            requires
                y == d * (y / d) + y % d,
                y % d == 0,
        ;
        lemma_fundamental_div_mod_converse(y - 1, d, y / d - 1, d - 1);
    } else {
        assert(y - 1 == y / d * d + (y % d - 1)) by (nonlinear_arith)
            requires
                y == d * (y / d) + y % d,
        ;
        lemma_fundamental_div_mod_converse(y - 1, d, y / d, y % d - 1);
    }
}

proof fn lemma_months(y: int)
    ensures
        before_month(y, 13) == if leap_year(y) {
            366int
        } else {
            365
        },
{
    assert(before_month(y, 1) == 0);
    assert(before_month(y, 2) == 31);
    let feb = month_days(y, 2);
    assert(before_month(y, 3) == 31 + feb);
    assert(before_month(y, 4) == 62 + feb);
    assert(before_month(y, 5) == 92 + feb);
    assert(before_month(y, 6) == 123 + feb);
    assert(before_month(y, 7) == 153 + feb);
    assert(before_month(y, 8) == 184 + feb);
    assert(before_month(y, 9) == 215 + feb);
    assert(before_month(y, 10) == 245 + feb);
    assert(before_month(y, 11) == 276 + feb);
    assert(before_month(y, 12) == 306 + feb);
}

proof fn lemma_year_len(y: int)
    ensures
        before_year(y + 1) == before_year(y) + if leap_year(y) {
            366int
        } else {
            365
        },
        before_month(y, 13) == if leap_year(y) {
            366int
        } else {
            365
        },
{
    lemma_months(y);
    lemma_div_step(y, 4);
    lemma_div_step(y, 100);
    lemma_div_step(y, 400);
    assert(y % 400 == 0 ==> y % 100 == 0);
    assert(y % 100 == 0 ==> y % 4 == 0);
}

proof fn lemma_years_follow(a: int, b: int)
    requires
        a < b,
    ensures
        before_year(a + 1) <= before_year(b),
    decreases b - a,
{
    if a + 1 < b {
        lemma_years_follow(a, b - 1);
        lemma_year_len(b - 1);
    }
}

proof fn lemma_months_follow(y: int, a: int, b: int)
    requires
        1 <= a < b,
    ensures
        before_month(y, a) + month_days(y, a) <= before_month(y, b),
    decreases b - a,
{
    if a + 1 < b {
        lemma_months_follow(y, a, b - 1);
    }
}

/// A day lies within its year.
proof fn lemma_within_year(d: Date)
    requires
        valid(d),
    ensures
        before_year(d.year) < day_number(d) <= before_year(d.year + 1),
{
    lemma_year_len(d.year);
    lemma_months_follow(d.year, d.month, 13);
    assert(before_month(d.year, d.month) >= 0) by {
        if d.month > 1 {
            lemma_months_follow(d.year, 1, d.month);
        }
    }
}

/// Two dates with the same number are the same.
pub proof fn dates_are_unique(a: Date, b: Date)
    requires
        valid(a),
        valid(b),
        day_number(a) == day_number(b),
    ensures
        a == b,
{
    lemma_within_year(a);
    lemma_within_year(b);
    if a.year < b.year {
        lemma_years_follow(a.year, b.year);
    } else if b.year < a.year {
        lemma_years_follow(b.year, a.year);
    } else if a.month < b.month {
        lemma_months_follow(a.year, a.month, b.month);
    } else if b.month < a.month {
        lemma_months_follow(a.year, b.month, a.month);
    }
}

/// The date of the next day.
pub open spec fn next_date(d: Date) -> Date {
    if d.day < month_days(d.year, d.month) {
        Date { day: d.day + 1, ..d }
    } else if d.month < 12 {
        Date { year: d.year, month: d.month + 1, day: 1 }
    } else {
        Date { year: d.year + 1, month: 1, day: 1 }
    }
}

/// The date of the day before.
pub open spec fn last_date(d: Date) -> Date {
    if d.day > 1 {
        Date { day: d.day - 1, ..d }
    } else if d.month > 1 {
        Date { year: d.year, month: d.month - 1, day: month_days(d.year, d.month - 1) }
    } else {
        Date { year: d.year - 1, month: 12, day: 31 }
    }
}

/// The days of the calendar follow each other without a gap.
pub proof fn days_follow(d: Date)
    requires
        valid(d),
    ensures
        valid(next_date(d)) && day_number(next_date(d)) == day_number(d) + 1,
        valid(last_date(d)) && day_number(last_date(d)) == day_number(d) - 1,
{
    lemma_year_len(d.year);
    lemma_year_len(d.year - 1);
    assert(before_month(d.year, 13) == before_month(d.year, 12) + 31);
    assert(before_month(d.year - 1, 13) == before_month(d.year - 1, 12) + 31);
    assert(before_month(d.year, d.month + 1) == before_month(d.year, d.month) + month_days(
        d.year,
        d.month,
    ));
    assert(before_month(d.year + 1, 1) == 0);
    assert(before_month(d.year, 1) == 0);
}

/// Each day has a date.
pub proof fn every_day_has_a_date(n: int) -> (d: Date)
    ensures
        valid(d),
        day_number(d) == n,
    decreases
            (if n >= 1 {
                n - 1
            } else {
                1 - n
            }),
{
    if n == 1 {
        assert(before_month(1, 1) == 0);
        Date { year: 1, month: 1, day: 1 }
    } else if n > 1 {
        let d = every_day_has_a_date(n - 1);
        days_follow(d);
        next_date(d)
    } else {
        let d = every_day_has_a_date(n + 1);
        days_follow(d);
        last_date(d)
    }
}

/// The date of a second is the one that it falls on.
pub proof fn lemma_date_of(secs: int)
    ensures
        falls_on(date_of(secs), secs),
        forall|d: Date| #[trigger] falls_on(d, secs) ==> d == date_of(secs),
{
    let d = every_day_has_a_date(secs / 86_400 + epoch_day());
    assert(falls_on(d, secs));
    assert forall|e: Date| #[trigger] falls_on(e, secs) implies e == date_of(secs) by {
        dates_are_unique(e, date_of(secs));
    }
}

/// A year in text: four digits or more, with a sign outside 0 to 9999.
pub open spec fn year_text(y: int) -> Seq<char> {
    if 0 <= y <= 9999 {
        text::padded(y as nat, 4)
    } else if y < 0 {
        "-"@ + text::padded((-y) as nat, 4)
    } else {
        "+"@ + text::padded(y as nat, 4)
    }
}

/// A date in text.
pub open spec fn date_text(d: Date) -> Seq<char> {
    year_text(d.year) + "-"@ + text::padded(d.month as nat, 2) + "-"@ + text::padded(
        d.day as nat,
        2,
    )
}

/// The time of day in text. A leap second is the second 60.
pub open spec fn clock_text(m: Moment) -> Seq<char> {
    let s = m.secs % 86_400;
    text::padded((s / 3600) as nat, 2) + ":"@ + text::padded((s / 60 % 60) as nat, 2) + ":"@
        + text::padded((s % 60 + m.nanos / 1_000_000_000) as nat, 2)
}

/// The milliseconds of a moment in text.
pub open spec fn millis_text(m: Moment) -> Seq<char> {
    "."@ + text::padded((m.nanos / 1_000_000 % 1000) as nat, 3)
}

/// Whether a format is one of those that moments are written in.
pub open spec fn known_format(format: Seq<char>) -> bool {
    format == "%Y-%m-%dT%H:%M:%S%.3fZ"@ || format == "%Y-%m-%d %H:%M:%S%.3f"@ || format
        == "%Y-%m-%d %H:%M:%S"@ || format == "%Y-%m-%dT%H:%M:%S"@
}

/// A moment in one of the known formats.
pub open spec fn written(m: Moment, format: Seq<char>) -> Seq<char> {
    let date = date_text(date_of(m.secs));
    if format == "%Y-%m-%dT%H:%M:%S%.3fZ"@ {
        date + "T"@ + clock_text(m) + millis_text(m) + "Z"@
    } else if format == "%Y-%m-%d %H:%M:%S%.3f"@ {
        date + " "@ + clock_text(m) + millis_text(m)
    } else if format == "%Y-%m-%d %H:%M:%S"@ {
        date + " "@ + clock_text(m)
    } else {
        date + "T"@ + clock_text(m)
    }
}

/// Whether a character is a digit.
pub open spec fn is_digit(c: char) -> bool {
    '0' <= c && c <= '9'
}

/// The number of two digits.
pub open spec fn two_at(s: Seq<char>, i: int) -> int {
    (s[i] as int - 48) * 10 + (s[i + 1] as int - 48)
}

/// The number of four digits.
pub open spec fn four_at(s: Seq<char>, i: int) -> int {
    two_at(s, i) * 100 + two_at(s, i + 2)
}

/// The moment of a date and a time of day, if there is one. The second 60 is a
/// leap second.
pub open spec fn moment_of(d: Date, hour: int, minute: int, second: int) -> Option<Moment> {
    if valid(d) && 0 <= hour < 24 && 0 <= minute < 60 && 0 <= second <= 60 {
        Some(
            Moment {
                secs: (day_number(d) - epoch_day()) * 86_400 + hour * 3600 + minute * 60 + if second
                    == 60 {
                    59
                } else {
                    second
                },
                nanos: if second == 60 {
                    1_000_000_000
                } else {
                    0
                },
            },
        )
    } else {
        None
    }
}

/// Whether a text is fourteen digits.
pub open spec fn compact(s: Seq<char>) -> bool {
    s.len() == 14 && forall|i: int| 0 <= i < 14 ==> is_digit(#[trigger] s[i])
}

/// The moment of fourteen digits: year, month, day, hour, minute and second.
pub open spec fn compact_moment(s: Seq<char>) -> Option<Moment> {
    moment_of(
        Date { year: four_at(s, 0), month: two_at(s, 4), day: two_at(s, 6) },
        two_at(s, 8),
        two_at(s, 10),
        two_at(s, 12),
    )
}

/// Whether a text has the form `YYYY-MM-DD HH:MM:SS`.
pub open spec fn spaced(s: Seq<char>) -> bool {
    &&& s.len() == 19
    &&& s[4] == '-' && s[7] == '-' && s[10] == ' ' && s[13] == ':' && s[16] == ':'
    &&& forall|i: int|
        0 <= i < 19 && i != 4 && i != 7 && i != 10 && i != 13 && i != 16 ==> is_digit(
            #[trigger] s[i],
        )
}

/// The moment of a text of the form `YYYY-MM-DD HH:MM:SS`.
pub open spec fn spaced_moment(s: Seq<char>) -> Option<Moment> {
    moment_of(
        Date { year: four_at(s, 0), month: two_at(s, 5), day: two_at(s, 8) },
        two_at(s, 11),
        two_at(s, 14),
        two_at(s, 17),
    )
}

proof fn lemma_two_digits(n: nat)
    requires
        n < 100,
    ensures
        text::padded(n, 2).len() == 2,
        is_digit(text::padded(n, 2)[0]) && is_digit(text::padded(n, 2)[1]),
        two_at(text::padded(n, 2), 0) == n,
{
    reveal_with_fuel(text::decimal, 3);
    assert('0' == 48 as char);
    let s = seq![(48 + n / 10) as char, (48 + n % 10) as char];
    assert(text::padded(n, 2) =~= s);
}

proof fn lemma_four_digits(n: nat)
    requires
        n < 10_000,
    ensures
        text::padded(n, 4).len() == 4,
        forall|i: int| 0 <= i < 4 ==> is_digit(#[trigger] text::padded(n, 4)[i]),
        four_at(text::padded(n, 4), 0) == n,
{
    reveal_with_fuel(text::decimal, 5);
    assert('0' == 48 as char);
    assert(n / 10 / 10 == n / 100 && n / 100 / 10 == n / 1000);
    let s = seq![
        (48 + n / 1000) as char,
        (48 + n / 100 % 10) as char,
        (48 + n / 10 % 10) as char,
        (48 + n % 10) as char,
    ];
    assert(text::padded(n, 4) =~= s);
}

/// The parts of a text of the form `YYYY-MM-DD HH:MM:SS`.
proof fn lemma_parts(
    s: Seq<char>,
    y: Seq<char>,
    mo: Seq<char>,
    d: Seq<char>,
    h: Seq<char>,
    mi: Seq<char>,
    se: Seq<char>,
)
    requires
        y.len() == 4,
        mo.len() == 2,
        d.len() == 2,
        h.len() == 2,
        mi.len() == 2,
        se.len() == 2,
        s == y + seq!['-'] + mo + seq!['-'] + d + seq![' '] + (h + seq![':'] + mi + seq![':']
            + se),
    ensures
        s.len() == 19,
        s[0] == y[0] && s[1] == y[1] && s[2] == y[2] && s[3] == y[3],
        s[4] == '-' && s[5] == mo[0] && s[6] == mo[1],
        s[7] == '-' && s[8] == d[0] && s[9] == d[1],
        s[10] == ' ' && s[11] == h[0] && s[12] == h[1],
        s[13] == ':' && s[14] == mi[0] && s[15] == mi[1],
        s[16] == ':' && s[17] == se[0] && s[18] == se[1],
{
    let date = y + seq!['-'] + mo + seq!['-'] + d;
    let clock = h + seq![':'] + mi + seq![':'] + se;
    assert(date =~= seq![y[0], y[1], y[2], y[3], '-', mo[0], mo[1], '-', d[0], d[1]]);
    assert(clock =~= seq![h[0], h[1], ':', mi[0], mi[1], ':', se[0], se[1]]);
}

/// The texts of numbers stand in a text of the form `YYYY-MM-DD HH:MM:SS`.
proof fn lemma_spaced(s: Seq<char>, y: nat, mo: nat, d: nat, h: nat, mi: nat, se: nat)
    requires
        y < 10_000,
        mo < 100,
        d < 100,
        h < 100,
        mi < 100,
        se < 100,
        s == text::padded(y, 4) + seq!['-'] + text::padded(mo, 2) + seq!['-'] + text::padded(d, 2)
            + seq![' '] + (text::padded(h, 2) + seq![':'] + text::padded(mi, 2) + seq![':']
            + text::padded(se, 2)),
    ensures
        spaced(s),
        four_at(s, 0) == y,
        two_at(s, 5) == mo,
        two_at(s, 8) == d,
        two_at(s, 11) == h,
        two_at(s, 14) == mi,
        two_at(s, 17) == se,
{
    lemma_four_digits(y);
    lemma_two_digits(mo);
    lemma_two_digits(d);
    lemma_two_digits(h);
    lemma_two_digits(mi);
    lemma_two_digits(se);
    lemma_parts(
        s,
        text::padded(y, 4),
        text::padded(mo, 2),
        text::padded(d, 2),
        text::padded(h, 2),
        text::padded(mi, 2),
        text::padded(se, 2),
    );
}

/// A moment of the years 0 to 9999 that is written as a date and a time is read
/// back, to the second.
pub proof fn written_moments_read_back(m: Moment)
    requires
        0 <= date_of(m.secs).year <= 9999,
        0 <= m.nanos < 1_000_000_000,
    ensures
        ({
            let s = written(m, "%Y-%m-%d %H:%M:%S"@);
            spaced(s) && spaced_moment(s) == Some(Moment { secs: m.secs, nanos: 0 })
        }),
{
    let d = date_of(m.secs);
    lemma_date_of(m.secs);
    reveal_strlit("%Y-%m-%dT%H:%M:%S%.3fZ");
    reveal_strlit("%Y-%m-%d %H:%M:%S%.3f");
    reveal_strlit("%Y-%m-%d %H:%M:%S");
    assert("%Y-%m-%d %H:%M:%S"@.len() == 17);
    assert("%Y-%m-%dT%H:%M:%S%.3fZ"@.len() == 22);
    assert("%Y-%m-%d %H:%M:%S%.3f"@.len() == 21);
    let s = written(m, "%Y-%m-%d %H:%M:%S"@);
    assert(s == date_text(d) + " "@ + clock_text(m));
    assert("-"@ == seq!['-'] && " "@ == seq![' '] && ":"@ == seq![':']) by {
        reveal_strlit("-");
        reveal_strlit(" ");
        reveal_strlit(":");
    }
    let t = m.secs % 86_400;
    lemma_fundamental_div_mod(m.secs, 86_400);
    let (h, mi, se) = (t / 3600, t / 60 % 60, t % 60);
    lemma_clock(t);
    lemma_spaced(
        s,
        d.year as nat,
        d.month as nat,
        d.day as nat,
        h as nat,
        mi as nat,
        se as nat,
    );
}

/// A second of the day taken apart.
proof fn lemma_clock(t: int)
    requires
        0 <= t < 86_400,
    ensures
        0 <= t / 3600 < 24,
        0 <= t / 60 % 60 < 60,
        0 <= t % 60 < 60,
        t / 3600 * 3600 + t / 60 % 60 * 60 + t % 60 == t,
{
}

/// Whether a character can stand in a written moment.
pub open spec fn in_moments(c: char) -> bool {
    is_digit(c) || c == '-' || c == '+' || c == ':' || c == '.' || c == ' ' || c == 'T' || c == 'Z'
}

/// Whether every character of a text can stand in a written moment.
pub open spec fn of_moments(s: Seq<char>) -> bool {
    forall|i: int| 0 <= i < s.len() ==> in_moments(#[trigger] s[i])
}

proof fn lemma_of_moments_join(a: Seq<char>, b: Seq<char>)
    requires
        of_moments(a),
        of_moments(b),
    ensures
        of_moments(a + b),
{
    assert forall|i: int| 0 <= i < (a + b).len() implies in_moments(#[trigger] (a + b)[i]) by {
        if i < a.len() {
            assert((a + b)[i] == a[i]);
        } else {
            assert((a + b)[i] == b[i - a.len()]);
        }
    }
}

proof fn lemma_padded_of_moments(n: nat, width: nat)
    ensures
        of_moments(text::padded(n, width)),
{
    text::decimals_are_digits(n, width);
}

proof fn lemma_signs_of_moments()
    ensures
        of_moments("-"@),
        of_moments("+"@),
        of_moments(":"@),
        of_moments("."@),
        of_moments(" "@),
        of_moments("T"@),
        of_moments("Z"@),
{
    reveal_strlit("-");
    reveal_strlit("+");
    reveal_strlit(":");
    reveal_strlit(".");
    reveal_strlit(" ");
    reveal_strlit("T");
    reveal_strlit("Z");
}

proof fn lemma_date_of_moments(d: Date)
    ensures
        of_moments(date_text(d)),
{
    lemma_signs_of_moments();
    let y = year_text(d.year);
    if 0 <= d.year <= 9999 {
        lemma_padded_of_moments(d.year as nat, 4);
    } else if d.year < 0 {
        lemma_padded_of_moments((-d.year) as nat, 4);
        lemma_of_moments_join("-"@, text::padded((-d.year) as nat, 4));
    } else {
        lemma_padded_of_moments(d.year as nat, 4);
        lemma_of_moments_join("+"@, text::padded(d.year as nat, 4));
    }
    let (mo, da) = (text::padded(d.month as nat, 2), text::padded(d.day as nat, 2));
    lemma_padded_of_moments(d.month as nat, 2);
    lemma_padded_of_moments(d.day as nat, 2);
    lemma_of_moments_join(y, "-"@);
    lemma_of_moments_join(y + "-"@, mo);
    lemma_of_moments_join(y + "-"@ + mo, "-"@);
    lemma_of_moments_join(y + "-"@ + mo + "-"@, da);
}

proof fn lemma_clock_of_moments(m: Moment)
    ensures
        of_moments(clock_text(m)),
        of_moments(millis_text(m)),
{
    lemma_signs_of_moments();
    let s = m.secs % 86_400;
    let h = text::padded((s / 3600) as nat, 2);
    let mi = text::padded((s / 60 % 60) as nat, 2);
    let se = text::padded((s % 60 + m.nanos / 1_000_000_000) as nat, 2);
    lemma_padded_of_moments((s / 3600) as nat, 2);
    lemma_padded_of_moments((s / 60 % 60) as nat, 2);
    lemma_padded_of_moments((s % 60 + m.nanos / 1_000_000_000) as nat, 2);
    lemma_of_moments_join(h, ":"@);
    lemma_of_moments_join(h + ":"@, mi);
    lemma_of_moments_join(h + ":"@ + mi, ":"@);
    lemma_of_moments_join(h + ":"@ + mi + ":"@, se);
    lemma_padded_of_moments((m.nanos / 1_000_000 % 1000) as nat, 3);
    lemma_of_moments_join("."@, text::padded((m.nanos / 1_000_000 % 1000) as nat, 3));
}

/// A written moment holds digits, signs, colons, points, spaces and the letters
/// `T` and `Z` alone.
pub proof fn written_moments_are_plain(m: Moment, format: Seq<char>)
    ensures
        of_moments(written(m, format)),
{
    let date = date_text(date_of(m.secs));
    let (clock, millis) = (clock_text(m), millis_text(m));
    lemma_signs_of_moments();
    lemma_date_of_moments(date_of(m.secs));
    lemma_clock_of_moments(m);
    lemma_of_moments_join(date, "T"@);
    lemma_of_moments_join(date + "T"@, clock);
    lemma_of_moments_join(date + "T"@ + clock, millis);
    lemma_of_moments_join(date + "T"@ + clock + millis, "Z"@);
    lemma_of_moments_join(date, " "@);
    lemma_of_moments_join(date + " "@, clock);
    lemma_of_moments_join(date + " "@ + clock, millis);
}

} // verus!
