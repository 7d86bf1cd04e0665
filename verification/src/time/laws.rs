//! What written moments say, and how moments lie apart.

use super::calendar;
use super::calendar::Date;
use super::Moment;
use crate::text;
use crate::text::laws;
use crate::time;
use vstd::prelude::*;

verus! {

/// The first day of 1970 begins at 0, and each day has 86,400 seconds.
pub proof fn the_epoch_is_1970(secs: int)
    requires
        0 <= secs < 86_400,
    ensures
        calendar::falls_on(Date { year: 1970, month: 1, day: 1 }, secs),
        calendar::date_of(secs) == (Date { year: 1970, month: 1, day: 1 }),
{
    let d = Date { year: 1970, month: 1, day: 1 };
    assert(calendar::before_month(1970, 1) == 0);
    assert(calendar::falls_on(d, secs));
    calendar::lemma_date_of(secs);
}

/// A day later the date is the next one: a day more in the month, or the first of the
/// next month, or the first of the next year.
pub proof fn dates_go_on(secs: int)
    ensures
        ({
            let d = calendar::date_of(secs);
            let e = calendar::date_of(secs + 86_400);
            let long = d.month == 1 || d.month == 3 || d.month == 5 || d.month == 7 || d.month == 8
                || d.month == 10 || d.month == 12;
            let leap = d.year % 400 == 0 || d.year % 4 == 0 && d.year % 100 != 0;
            let last: int = if long {
                31
            } else if d.month != 2 {
                30
            } else if leap {
                29
            } else {
                28
            };
            &&& 1 <= d.month <= 12
            &&& 1 <= d.day <= last
            &&& d.day < last ==> e == (Date { day: d.day + 1, ..d })
            &&& d.day == last && d.month < 12 ==> e == (Date {
                year: d.year,
                month: d.month + 1,
                day: 1,
            })
            &&& d.day == last && d.month == 12 ==> e == (Date {
                year: d.year + 1,
                month: 1,
                day: 1,
            })
        }),
{
    let d = calendar::date_of(secs);
    calendar::lemma_date_of(secs);
    calendar::lemma_date_of(secs + 86_400);
    assert((secs + 86_400) / 86_400 == secs / 86_400 + 1);
    calendar::days_follow(d);
    assert(calendar::falls_on(calendar::next_date(d), secs + 86_400));
}

proof fn lemma_two(n: nat)
    requires
        n < 100,
    ensures
        text::padded(n, 2).len() == 2,
        laws::value(text::padded(n, 2)) == n,
{
    laws::widths_hold();
    laws::padded_reads_back(n, 2);
}

/// The fields that begin every written moment of the years 0 to 9999.
pub open spec fn begins(s: Seq<char>, m: Moment, d: Date, between: char) -> bool {
    &&& s.len() >= 19
    &&& laws::field(s, 0, 4) == d.year
    &&& s[4] == '-'
    &&& laws::field(s, 5, 7) == d.month
    &&& s[7] == '-'
    &&& laws::field(s, 8, 10) == d.day
    &&& s[10] == between
    &&& s[13] == ':'
    &&& s[16] == ':'
    &&& 0 <= laws::field(s, 14, 16) < 60
    &&& m.nanos < 1_000_000_000 ==> 0 <= laws::field(s, 17, 19) < 60
    &&& laws::field(s, 11, 13) * 3600 + laws::field(s, 14, 16) * 60 + laws::field(s, 17, 19)
        == m.secs % 86_400 + if m.nanos < 1_000_000_000 {
        0int
    } else {
        1
    }
}

proof fn lemma_cut(
    s: Seq<char>,
    y: Seq<char>,
    mo: Seq<char>,
    d: Seq<char>,
    c: char,
    h: Seq<char>,
    mi: Seq<char>,
    se: Seq<char>,
    rest: Seq<char>,
)
    requires
        y.len() == 4,
        mo.len() == 2,
        d.len() == 2,
        h.len() == 2,
        mi.len() == 2,
        se.len() == 2,
        s == (y + seq!['-'] + mo + seq!['-'] + d) + seq![c] + (h + seq![':'] + mi + seq![':'] + se)
            + rest,
    ensures
        s.len() == 19 + rest.len(),
        s.subrange(0, 4) == y,
        s[4] == '-',
        s.subrange(5, 7) == mo,
        s[7] == '-',
        s.subrange(8, 10) == d,
        s[10] == c,
        s.subrange(11, 13) == h,
        s[13] == ':',
        s.subrange(14, 16) == mi,
        s[16] == ':',
        s.subrange(17, 19) == se,
        s.skip(19) == rest,
{
    assert(s.subrange(0, 4) =~= y);
    assert(s.subrange(5, 7) =~= mo);
    assert(s.subrange(8, 10) =~= d);
    assert(s.subrange(11, 13) =~= h);
    assert(s.subrange(14, 16) =~= mi);
    assert(s.subrange(17, 19) =~= se);
    assert(s.skip(19) =~= rest);
}

proof fn lemma_begins(s: Seq<char>, m: Moment, d: Date, c: char, rest: Seq<char>)
    requires
        calendar::falls_on(d, m.secs),
        0 <= d.year <= 9999,
        0 <= m.nanos < 2_000_000_000,
        s == calendar::date_text(d) + seq![c] + calendar::clock_text(m) + rest,
    ensures
        begins(s, m, d, c),
        s.len() == 19 + rest.len(),
        s.skip(19) == rest,
{
    assert("-"@ == seq!['-'] && ":"@ == seq![':']) by {
        reveal_strlit("-");
        reveal_strlit(":");
        assert("-"@ =~= seq!['-'] && ":"@ =~= seq![':']);
    }
    let t = m.secs % 86_400;
    let (h, mi) = ((t / 3600) as nat, (t / 60 % 60) as nat);
    let se = (t % 60 + m.nanos / 1_000_000_000) as nat;
    laws::widths_hold();
    laws::padded_reads_back(d.year as nat, 4);
    lemma_two(d.month as nat);
    lemma_two(d.day as nat);
    lemma_two(h);
    lemma_two(mi);
    lemma_two(se);
    lemma_cut(
        s,
        text::padded(d.year as nat, 4),
        text::padded(d.month as nat, 2),
        text::padded(d.day as nat, 2),
        c,
        text::padded(h, 2),
        text::padded(mi, 2),
        text::padded(se, 2),
        rest,
    );
}

/// The milliseconds behind a point.
pub open spec fn millis(s: Seq<char>, m: Moment) -> bool {
    &&& s[19] == '.'
    &&& laws::field(s, 20, 23) == m.nanos / 1_000_000 % 1000
}

proof fn lemma_millis(s: Seq<char>, m: Moment, end: Seq<char>)
    requires
        s.len() >= 19,
        0 <= m.nanos,
        s.skip(19) == calendar::millis_text(m) + end,
    ensures
        s.len() == 23 + end.len(),
        millis(s, m),
        s.skip(23) == end,
{
    reveal_strlit(".");
    laws::widths_hold();
    let n = (m.nanos / 1_000_000 % 1000) as nat;
    laws::padded_reads_back(n, 3);
    let r = s.skip(19);
    assert(r.len() == s.len() - 19);
    assert(s[19] == r[0]);
    assert(s.subrange(20, 23) =~= r.subrange(1, 4));
    assert(r.subrange(1, 4) =~= text::padded(n, 3));
    assert(s.skip(23) =~= r.skip(4));
    assert(r.skip(4) =~= end);
}

/// A moment in UTC is written with its year, month, day, hour, minute, second and
/// milliseconds in fixed places, a `T` between the date and the time, and a `Z` at the
/// end.
pub proof fn utc_moments_have_their_digits(m: Moment, d: Date)
    requires
        calendar::falls_on(d, m.secs),
        0 <= d.year <= 9999,
        0 <= m.nanos < 2_000_000_000,
    ensures
        ({
            let s = calendar::written(m, "%Y-%m-%dT%H:%M:%S%.3fZ"@);
            s.len() == 24 && begins(s, m, d, 'T') && millis(s, m) && s[23] == 'Z'
        }),
{
    calendar::lemma_date_of(m.secs);
    assert("T"@ == seq!['T'] && "Z"@ == seq!['Z']) by {
        reveal_strlit("T");
        reveal_strlit("Z");
        assert("T"@ =~= seq!['T'] && "Z"@ =~= seq!['Z']);
    }
    let s = calendar::written(m, "%Y-%m-%dT%H:%M:%S%.3fZ"@);
    let rest = calendar::millis_text(m) + seq!['Z'];
    let a = calendar::date_text(d) + seq!['T'] + calendar::clock_text(m);
    assert(a + calendar::millis_text(m) + seq!['Z'] =~= a + rest);
    lemma_begins(s, m, d, 'T', rest);
    lemma_millis(s, m, seq!['Z']);
    assert(s[23] == s.skip(23)[0]);
}

/// A moment of the camera's clock is written likewise, with a blank between the date
/// and the time and nothing at the end.
pub proof fn local_moments_have_their_digits(m: Moment, d: Date)
    requires
        calendar::falls_on(d, m.secs),
        0 <= d.year <= 9999,
        0 <= m.nanos < 2_000_000_000,
    ensures
        ({
            let s = calendar::written(m, "%Y-%m-%d %H:%M:%S%.3f"@);
            s.len() == 23 && begins(s, m, d, ' ') && millis(s, m)
        }),
{
    calendar::lemma_date_of(m.secs);
    assert(" "@ == seq![' ']) by {
        reveal_strlit(" ");
        assert(" "@ =~= seq![' ']);
    }
    lemma_formats();
    let s = calendar::written(m, "%Y-%m-%d %H:%M:%S%.3f"@);
    lemma_begins(s, m, d, ' ', calendar::millis_text(m));
    assert(calendar::millis_text(m) + Seq::<char>::empty() =~= calendar::millis_text(m));
    lemma_millis(s, m, Seq::empty());
}

proof fn lemma_formats()
    ensures
        "%Y-%m-%d %H:%M:%S%.3f"@ != "%Y-%m-%dT%H:%M:%S%.3fZ"@,
        "%Y-%m-%d %H:%M:%S"@ != "%Y-%m-%dT%H:%M:%S%.3fZ"@,
        "%Y-%m-%d %H:%M:%S"@ != "%Y-%m-%d %H:%M:%S%.3f"@,
        "%Y-%m-%dT%H:%M:%S"@ != "%Y-%m-%dT%H:%M:%S%.3fZ"@,
        "%Y-%m-%dT%H:%M:%S"@ != "%Y-%m-%d %H:%M:%S%.3f"@,
        "%Y-%m-%dT%H:%M:%S"@ != "%Y-%m-%d %H:%M:%S"@,
{
    reveal_strlit("%Y-%m-%dT%H:%M:%S%.3fZ");
    reveal_strlit("%Y-%m-%d %H:%M:%S%.3f");
    reveal_strlit("%Y-%m-%d %H:%M:%S");
    reveal_strlit("%Y-%m-%dT%H:%M:%S");
    assert("%Y-%m-%d %H:%M:%S"@.len() == 17);
    assert("%Y-%m-%dT%H:%M:%S"@.len() == 17);
    assert("%Y-%m-%dT%H:%M:%S%.3fZ"@.len() == 22);
    assert("%Y-%m-%d %H:%M:%S%.3f"@.len() == 21);
    assert("%Y-%m-%d %H:%M:%S"@[8] == ' ');
    assert("%Y-%m-%dT%H:%M:%S"@[8] == 'T');
}

/// A moment to the second is written without milliseconds.
pub proof fn short_moments_have_their_digits(m: Moment, d: Date)
    requires
        calendar::falls_on(d, m.secs),
        0 <= d.year <= 9999,
        0 <= m.nanos < 2_000_000_000,
    ensures
        ({
            let s = calendar::written(m, "%Y-%m-%d %H:%M:%S"@);
            s.len() == 19 && begins(s, m, d, ' ')
        }),
        ({
            let s = calendar::written(m, "%Y-%m-%dT%H:%M:%S"@);
            s.len() == 19 && begins(s, m, d, 'T')
        }),
{
    calendar::lemma_date_of(m.secs);
    assert(" "@ == seq![' '] && "T"@ == seq!['T']) by {
        reveal_strlit(" ");
        reveal_strlit("T");
        assert(" "@ =~= seq![' '] && "T"@ =~= seq!['T']);
    }
    lemma_formats();
    let none = Seq::<char>::empty();
    let s = calendar::written(m, "%Y-%m-%d %H:%M:%S"@);
    assert(s + none =~= s);
    lemma_begins(s, m, d, ' ', none);
    let t = calendar::written(m, "%Y-%m-%dT%H:%M:%S"@);
    assert(t + none =~= t);
    lemma_begins(t, m, d, 'T', none);
}

/// Where no leap second is met, a moment that was moved lies as far apart as it was
/// moved, in either direction.
pub proof fn moved_moments_lie_apart(m: Moment, delta: int)
    requires
        0 <= m.nanos < 1_000_000_000,
        time::shifted(m, delta) is Some,
    ensures
        ({
            let n = time::shifted(m, delta)->0;
            &&& 0 <= n.nanos < 1_000_000_000
            &&& n.secs * 1_000_000_000 + n.nanos == m.secs * 1_000_000_000 + m.nanos + delta
            &&& time::nanos_between(n, m) == delta
            &&& time::nanos_between(m, n) == -delta
        }),
{
}

/// A division towards zero leaves a rest of the sign of the dividend, smaller than the
/// divisor.
pub proof fn quotients_go_towards_zero(a: int, b: int)
    requires
        b > 0,
    ensures
        ({
            let rest = a - time::quotient(a, b) * b;
            &&& a >= 0 ==> 0 <= rest < b
            &&& a <= 0 ==> -b < rest <= 0
        }),
{
    vstd::arithmetic::div_mod::lemma_fundamental_div_mod(a, b);
    vstd::arithmetic::div_mod::lemma_fundamental_div_mod(-a, b);
    vstd::arithmetic::div_mod::lemma_mod_bound(a, b);
    vstd::arithmetic::div_mod::lemma_mod_bound(-a, b);
    let q = (-a) / b;
    assert((-q) * b == -(b * q)) by (nonlinear_arith);
    assert(a / b * b == b * (a / b)) by (nonlinear_arith);
}

/// The digits of a text by their places.
pub proof fn digits_count_by_place(s: Seq<char>, i: int)
    requires
        0 <= i,
    ensures
        i + 2 <= s.len() ==> calendar::two_at(s, i) == laws::field(s, i, i + 2),
        i + 4 <= s.len() ==> calendar::four_at(s, i) == laws::field(s, i, i + 4),
{
    if i + 2 <= s.len() {
        lemma_two_places(s, i);
    }
    if i + 4 <= s.len() {
        lemma_two_places(s, i);
        let a = s.subrange(i, i + 4);
        let b = a.drop_last();
        assert(b =~= s.subrange(i, i + 3));
        let c = b.drop_last();
        assert(c =~= s.subrange(i, i + 2));
        assert(laws::value(a) == 10 * laws::value(b) + (s[i + 3] as int - 48));
        assert(laws::value(b) == 10 * laws::value(c) + (s[i + 2] as int - 48));
    }
}

proof fn lemma_two_places(s: Seq<char>, i: int)
    requires
        0 <= i,
        i + 2 <= s.len(),
    ensures
        calendar::two_at(s, i) == laws::field(s, i, i + 2),
{
    let a = s.subrange(i, i + 2);
    let b = a.drop_last();
    assert(b =~= seq![s[i]]);
    assert(b.drop_last() =~= Seq::empty());
    assert(laws::value(Seq::empty()) == 0);
    assert(laws::value(b) == s[i] as int - 48);
    assert(laws::value(a) == 10 * laws::value(b) + (s[i + 1] as int - 48));
}

/// A date and a time of day are a moment on that date, at that time. The second 60 is
/// the leap second behind the second 59. There is no hour 24, no minute 60 and no
/// second 61.
pub proof fn dates_and_times_are_moments(d: Date, h: int, mi: int, s: int)
    ensures
        ({
            let m = calendar::moment_of(d, h, mi, s);
            &&& m is Some <==> calendar::valid(d) && 0 <= h < 24 && 0 <= mi < 60 && 0 <= s <= 60
            &&& m is Some ==> calendar::falls_on(d, m->0.secs)
            &&& m is Some && s < 60 ==> m->0.secs % 86_400 == h * 3600 + mi * 60 + s && m->0.nanos
                == 0
            &&& m is Some && s == 60 ==> m->0.secs % 86_400 == h * 3600 + mi * 60 + 59
                && m->0.nanos == 1_000_000_000
        }),
{
    if let Some(m) = calendar::moment_of(d, h, mi, s) {
        let days = calendar::day_number(d) - calendar::epoch_day();
        let t = h * 3600 + mi * 60 + if s == 60 {
            59
        } else {
            s
        };
        assert(0 <= t < 86_400);
        assert(m.secs == days * 86_400 + t);
        assert(m.secs / 86_400 == days);
        assert(m.secs % 86_400 == t);
    }
}

/// The fourteen digits of a compact time are the year, the month, the day, the hour, the
/// minute and the second; a spaced one has them with marks between.
pub proof fn texts_tell_their_moments(s: Seq<char>)
    ensures
        s.len() == 14 ==> calendar::compact_moment(s) == calendar::moment_of(
            (Date {
                year: laws::field(s, 0, 4),
                month: laws::field(s, 4, 6),
                day: laws::field(s, 6, 8),
            }),
            laws::field(s, 8, 10),
            laws::field(s, 10, 12),
            laws::field(s, 12, 14),
        ),
        s.len() == 19 ==> calendar::spaced_moment(s) == calendar::moment_of(
            (Date {
                year: laws::field(s, 0, 4),
                month: laws::field(s, 5, 7),
                day: laws::field(s, 8, 10),
            }),
            laws::field(s, 11, 13),
            laws::field(s, 14, 16),
            laws::field(s, 17, 19),
        ),
{
    if s.len() == 14 {
        digits_count_by_place(s, 0);
        digits_count_by_place(s, 4);
        digits_count_by_place(s, 6);
        digits_count_by_place(s, 8);
        digits_count_by_place(s, 10);
        digits_count_by_place(s, 12);
    }
    if s.len() == 19 {
        digits_count_by_place(s, 0);
        digits_count_by_place(s, 5);
        digits_count_by_place(s, 8);
        digits_count_by_place(s, 11);
        digits_count_by_place(s, 14);
        digits_count_by_place(s, 17);
    }
}

/// A move within a leap second stays in its second. One that leaves it forward goes on
/// as if from the second before, one that leaves it backward counts all of it.
pub proof fn leap_seconds_are_left(m: Moment, delta: int)
    requires
        1_000_000_000 <= m.nanos < 2_000_000_000,
    ensures
        -1_000_000_000 < delta && m.nanos + delta < 2_000_000_000 ==> time::shifted(m, delta)
            == Some(Moment { secs: m.secs, nanos: m.nanos + delta }),
        m.nanos + delta >= 2_000_000_000 ==> (time::shifted(m, delta) matches Some(n) ==> 0
            <= n.nanos < 1_000_000_000 && n.secs * 1_000_000_000 + n.nanos == m.secs * 1_000_000_000
            + (m.nanos - 1_000_000_000) + delta),
        delta <= -1_000_000_000 ==> (time::shifted(m, delta) matches Some(n) ==> 0 <= n.nanos
            < 1_000_000_000 && n.secs * 1_000_000_000 + n.nanos == m.secs * 1_000_000_000 + m.nanos
            + delta),
{
}

/// Two moments lie as far apart one way as the other, and a moment lies at itself. A leap
/// second between their times of day counts.
pub proof fn distances_have_a_sign(a: Moment, b: Moment)
    ensures
        time::nanos_between(a, b) == -time::nanos_between(b, a),
        time::nanos_between(a, a) == 0,
        a.secs % 86_400 > b.secs % 86_400 && b.nanos >= 1_000_000_000 ==> time::nanos_between(a, b)
            == (a.secs + 1 - b.secs) * 1_000_000_000 + a.nanos - b.nanos,
        a.nanos < 1_000_000_000 && b.nanos < 1_000_000_000 ==> time::nanos_between(a, b) == (a.secs
            - b.secs) * 1_000_000_000 + a.nanos - b.nanos,
{
}

/// A year beyond four digits has a sign before it.
pub proof fn far_years_have_a_sign(y: int)
    ensures
        0 <= y <= 9999 ==> calendar::year_text(y).len() == 4 && laws::value(calendar::year_text(y))
            == y,
        y > 9999 ==> calendar::year_text(y)[0] == '+' && laws::value(calendar::year_text(y).skip(1))
            == y,
        y < 0 ==> calendar::year_text(y)[0] == '-' && laws::value(calendar::year_text(y).skip(1))
            == -y,
{
    reveal_strlit("+");
    reveal_strlit("-");
    let s = calendar::year_text(y);
    if 0 <= y <= 9999 {
        laws::widths_hold();
        laws::padded_reads_back(y as nat, 4);
    } else if y < 0 {
        laws::decimals_read_back((-y) as nat, 4);
        assert(s.skip(1) =~= text::padded((-y) as nat, 4));
    } else {
        laws::decimals_read_back(y as nat, 4);
        assert(s.skip(1) =~= text::padded(y as nat, 4));
    }
}

} // verus!
