//! What the cues of subtitles and the lines of logs say.

use crate::dji::ClipFacts;
use crate::export;
use crate::export::gpx;
use crate::export::igc;
use crate::export::srt;
use crate::export::srt::CueTexts;
use crate::export::vbo;
use crate::ieee;
use crate::process;
use crate::process::{Row, Telemetry};
use crate::text;
use crate::text::laws;
use crate::time::calendar;
use crate::time::calendar::Date;
use crate::time::Moment;
use vstd::prelude::*;

verus! {

proof fn lemma_pads(n: nat)
    ensures
        n < 100 ==> text::padded(n, 2).len() == 2,
        n < 1000 ==> text::padded(n, 3).len() == 3,
        laws::value(text::padded(n, 2)) == n,
        laws::value(text::padded(n, 3)) == n,
{
    laws::widths_hold();
    laws::decimals_read_back(n, 2);
    laws::decimals_read_back(n, 3);
    if n < 100 {
        text::padded_is_wide(n, 2);
    }
    if n < 1000 {
        text::padded_is_wide(n, 3);
    }
}

/// The times of cues below a hundred hours have two digits each for hours, minutes and
/// seconds, and three for milliseconds.
pub proof fn cue_times_have_their_digits(ms: nat)
    requires
        ms < 360_000_000,
    ensures
        ({
            let s = srt::clock(ms);
            &&& s.len() == 12
            &&& s[2] == ':' && s[5] == ':' && s[8] == ','
            &&& laws::field(s, 0, 2) * 3_600_000 + laws::field(s, 3, 5) * 60_000 + laws::field(
                s,
                6,
                8,
            ) * 1000 + laws::field(s, 9, 12) == ms
            &&& laws::field(s, 3, 5) < 60
            &&& laws::field(s, 6, 8) < 60
            &&& laws::field(s, 9, 12) < 1000
        }),
{
    reveal_strlit(":");
    reveal_strlit(",");
    let s = srt::clock(ms);
    let (h, m, x, f) = (ms / 3_600_000, (ms / 60_000) % 60, (ms / 1000) % 60, ms % 1000);
    lemma_pads(h);
    lemma_pads(m);
    lemma_pads(x);
    lemma_pads(f);
    assert(s.subrange(0, 2) =~= text::padded(h, 2));
    assert(s.subrange(3, 5) =~= text::padded(m, 2));
    assert(s.subrange(6, 8) =~= text::padded(x, 2));
    assert(s.subrange(9, 12) =~= text::padded(f, 3));
    srt::clock_adds_up(ms);
}

/// The times of rows have two digits each for hours, minutes and seconds, and three
/// behind a point for milliseconds; a day later they are the same.
pub proof fn row_times_have_their_digits(ms: int)
    ensures
        ({
            let s = vbo::clock(ms);
            &&& s.len() == 10
            &&& s[6] == '.'
            &&& laws::field(s, 0, 2) * 3_600_000 + laws::field(s, 2, 4) * 60_000 + laws::field(
                s,
                4,
                6,
            ) * 1000 + laws::field(s, 7, 10) == ms % 86_400_000
            &&& laws::field(s, 2, 4) < 60
            &&& laws::field(s, 4, 6) < 60
            &&& laws::field(s, 7, 10) < 1000
        }),
{
    reveal_strlit(".");
    let s = vbo::clock(ms);
    let d = (ms % 86_400_000) as nat;
    let (h, m, x, f) = (d / 3_600_000, d / 60_000 % 60, d / 1000 % 60, d % 1000);
    lemma_pads(h);
    lemma_pads(m);
    lemma_pads(x);
    lemma_pads(f);
    assert(s.subrange(0, 2) =~= text::padded(h, 2));
    assert(s.subrange(2, 4) =~= text::padded(m, 2));
    assert(s.subrange(4, 6) =~= text::padded(x, 2));
    assert(s.subrange(7, 10) =~= text::padded(f, 3));
    srt::clock_adds_up(d);
}

/// A row's time goes by the best clock, to the millisecond, and without one by the
/// time since the start.
pub proof fn rows_go_by_the_best_clock(t: Telemetry, micros: int, m: Moment)
    requires
        0 <= m.nanos < 1_000_000_000,
    ensures
        process::best_moment(t.info@, micros) == Some(m) ==> vbo::row_time(t, micros) == vbo::clock(
            (m.secs * 1_000_000_000 + m.nanos) / 1_000_000,
        ),
        process::best_moment(t.info@, micros) is None ==> vbo::row_time(t, micros) == vbo::clock(
            micros / 1000,
        ),
{
    assert((m.secs * 1_000_000_000 + m.nanos) / 1_000_000 == m.secs * 1000 + m.nanos / 1_000_000);
}

/// The first line of a log names the day, the month and the year of the start.
pub proof fn logs_name_their_day(m: Moment, d: Date)
    requires
        calendar::falls_on(d, m.secs),
        d.year >= 0,
    ensures
        ({
            let s = vbo::created(Some(m));
            let n = s.len() as int;
            &&& n > 24
            &&& s.take(16) == "File created on "@
            &&& laws::field(s, 16, 18) == d.day
            &&& s[18] == '/'
            &&& laws::field(s, 19, 21) == d.month
            &&& s[21] == '/'
            &&& laws::field(s, 22, n - 2) == d.year
            &&& s[n - 2] == '\n' && s[n - 1] == '\n'
        }),
        vbo::created(None).len() == 0,
{
    reveal_strlit("File created on ");
    reveal_strlit("/");
    reveal_strlit("\n\n");
    calendar::lemma_date_of(m.secs);
    let s = vbo::created(Some(m));
    let n = s.len() as int;
    lemma_pads(d.day as nat);
    lemma_pads(d.month as nat);
    laws::signed_decimals_read_back(d.year);
    laws::decimals_read_back(d.year as nat, 0);
    let y = text::signed_decimal(d.year);
    assert(s.take(16) =~= "File created on "@);
    assert(s.subrange(16, 18) =~= text::padded(d.day as nat, 2));
    assert(s.subrange(19, 21) =~= text::padded(d.month as nat, 2));
    assert(s.subrange(22, n - 2) =~= y);
}

/// A shutter time from one second on is in seconds, a shorter one is a fraction; one
/// that is 0, or no fraction, is left out.
pub proof fn shutters_have_their_form(r: Row, x: CueTexts, n: u64, d: u64)
    requires
        r.shutter == Some((n, d)),
    ensures
        n == 0 || d == 0 ==> srt::shutter_part(r, x) is None,
        n > 0 && d > 0 && x.shutter_seconds.finite() && x.shutter_seconds.scaled() >= ieee::whole(1)
            ==> srt::shutter_part(r, x) == Some(x.shutter@),
        n > 0 && d > 0 && x.shutter_seconds.finite() && x.shutter_seconds.scaled() < ieee::whole(1)
            ==> srt::shutter_part(r, x) == Some(seq!['1', '/'] + x.shutter_inverse@),
{
    vstd::arithmetic::power2::lemma2_to64();
    vstd::arithmetic::power2::lemma2_to64_rest();
    process::laws::lemma_number(0x3ff0_0000_0000_0000, 0x3ff, 0, 0x10_0000_0000_0000, 1, 1);
    reveal_strlit("1/");
    assert("1/"@ =~= seq!['1', '/']);
}

/// The first altitude is that of the first row with one.
pub proof fn altitudes_count_from_the_first(rows: Seq<Row>, i: int)
    requires
        forall|j: int| 0 <= j < i ==> (#[trigger] rows[j]).altitude_m is None,
        0 <= i <= rows.len(),
    ensures
        i == rows.len() ==> srt::first_altitude_of(rows) is None,
        i < rows.len() && rows[i].altitude_m is Some ==> srt::first_altitude_of(rows)
            == rows[i].altitude_m,
    decreases i,
{
    if i > 0 {
        assert(rows[0].altitude_m is None);
        let rest = rows.drop_first();
        assert forall|j: int| 0 <= j < i - 1 implies (#[trigger] rest[j]).altitude_m is None by {
            assert(rest[j] == rows[j + 1]);
        }
        altitudes_count_from_the_first(rest, i - 1);
    }
}

/// A cue lasts until the next one, and the last one to the end.
pub proof fn cues_last_until_the_next(texts: Seq<CueTexts>, i: int, end: u64)
    requires
        0 <= i < texts.len(),
    ensures
        i + 1 < texts.len() ==> srt::cue_end(texts, i, end) == texts[i + 1].millis,
        i + 1 == texts.len() ==> srt::cue_end(texts, i, end) == end,
{
}

/// The fields of a cue.
pub open spec fn cue_fields(r: Row, x: CueTexts) -> Seq<Seq<char>> {
    srt::exposure_fields(r, x) + srt::position_fields(r, x)
}

/// How many of some things there are.
pub open spec fn count(a: bool, b: bool, c: bool) -> int {
    (if a {
        1int
    } else {
        0
    }) + (if b {
        1int
    } else {
        0
    }) + (if c {
        1int
    } else {
        0
    })
}

proof fn lemma_exposure_fields(r: Row, x: CueTexts)
    ensures
        ({
            let f = srt::exposure_fields(r, x);
            &&& f.len() == count(
                r.iso is Some,
                srt::shutter_part(r, x) is Some,
                r.color_temperature is Some,
            )
            &&& r.iso is Some ==> f.contains("[iso: "@ + x.iso@ + "]"@)
            &&& srt::shutter_part(r, x) matches Some(s) ==> f.contains("[shutter: "@ + s + "]"@)
            &&& r.color_temperature matches Some(c) ==> f.contains(
                "[ct: "@ + text::decimal(c as nat) + "]"@,
            )
        }),
{
    let f = srt::exposure_fields(r, x);
    let a = count(r.iso is Some, false, false);
    let b = count(r.iso is Some, srt::shutter_part(r, x) is Some, false);
    if r.iso is Some {
        assert(f[0] == "[iso: "@ + x.iso@ + "]"@);
    }
    if let Some(s) = srt::shutter_part(r, x) {
        assert(f[a] == "[shutter: "@ + s + "]"@);
    }
    if let Some(c) = r.color_temperature {
        assert(f[b] == "[ct: "@ + text::decimal(c as nat) + "]"@);
    }
}

proof fn lemma_position_fields(r: Row, x: CueTexts)
    ensures
        ({
            let f = srt::position_fields(r, x);
            let here = r.latitude is Some && r.longitude is Some;
            &&& f.len() == count(here, here, here && r.altitude_m is Some)
            &&& here ==> f.contains("[latitude: "@ + x.latitude@ + "]"@) && f.contains(
                "[longitude: "@ + x.longitude@ + "]"@,
            )
            &&& here && r.altitude_m is Some ==> f.contains(
                "[rel_alt: "@ + x.relative_altitude@ + " abs_alt: "@ + x.altitude@ + "]"@,
            )
        }),
{
    let f = srt::position_fields(r, x);
    if r.latitude is Some && r.longitude is Some {
        assert(f[0] == "[latitude: "@ + x.latitude@ + "]"@);
        assert(f[1] == "[longitude: "@ + x.longitude@ + "]"@);
        if r.altitude_m is Some {
            assert(f[2] == "[rel_alt: "@ + x.relative_altitude@ + " abs_alt: "@ + x.altitude@
                + "]"@);
        }
    }
}

/// A cue has a field for each of the sensitivity, the shutter time and the colour
/// temperature that its row has, and with a position for the latitude, the longitude
/// and the altitude, and no other.
pub proof fn cues_have_their_fields(r: Row, x: CueTexts)
    ensures
        ({
            let f = cue_fields(r, x);
            let here = r.latitude is Some && r.longitude is Some;
            &&& f.len() == count(
                r.iso is Some,
                srt::shutter_part(r, x) is Some,
                r.color_temperature is Some,
            ) + count(here, here, here && r.altitude_m is Some)
            &&& r.iso is Some ==> f.contains("[iso: "@ + x.iso@ + "]"@)
            &&& srt::shutter_part(r, x) matches Some(s) ==> f.contains("[shutter: "@ + s + "]"@)
            &&& r.color_temperature matches Some(c) ==> f.contains(
                "[ct: "@ + text::decimal(c as nat) + "]"@,
            )
            &&& here ==> f.contains("[latitude: "@ + x.latitude@ + "]"@) && f.contains(
                "[longitude: "@ + x.longitude@ + "]"@,
            )
            &&& here && r.altitude_m is Some ==> f.contains(
                "[rel_alt: "@ + x.relative_altitude@ + " abs_alt: "@ + x.altitude@ + "]"@,
            )
        }),
{
    let a = srt::exposure_fields(r, x);
    let b = srt::position_fields(r, x);
    let f = cue_fields(r, x);
    lemma_exposure_fields(r, x);
    lemma_position_fields(r, x);
    assert forall|s: Seq<char>| a.contains(s) || b.contains(s) implies f.contains(s) by {
        if a.contains(s) {
            let i = choose|i: int| 0 <= i < a.len() && a[i] == s;
            assert(f[i] == s);
        } else {
            let i = choose|i: int| 0 <= i < b.len() && b[i] == s;
            assert(f[a.len() + i] == s);
        }
    }
}

/// The lines of a cue: its number, its times, its number again with the time to the next
/// row, the camera's clock where it is known, and its fields.
pub open spec fn cue_lines(t: Telemetry, n: nat, r: Row, x: CueTexts, end: nat) -> Seq<Seq<char>> {
    seq![
        text::decimal(n),
        srt::clock(x.millis as nat) + " --> "@ + srt::clock(end),
        "<font size=\"28\">FrameCnt: "@ + text::decimal(n) + ", DiffTime: "@ + text::decimal(
            x.diff_ms as nat,
        ) + "ms"@,
    ] + (match process::after(t.info@.start_local, x.micros as int) {
        Some(m) => seq![calendar::written(m, "%Y-%m-%d %H:%M:%S%.3f"@)],
        None => Seq::empty(),
    }) + seq![text::joined(cue_fields(r, x), " "@) + " </font>"@, Seq::empty()]
}

proof fn lemma_ended(p: Seq<Seq<char>>, k: int)
    requires
        0 < k <= p.len(),
    ensures
        text::ended(p.take(k), '\n') == text::ended(p.take(k - 1), '\n') + p[k - 1] + seq!['\n'],
{
    assert(p.take(k).drop_last() =~= p.take(k - 1));
    let a = text::ended(p.take(k - 1), '\n');
    assert(text::ended(p.take(k), '\n') =~= a + p[k - 1] + seq!['\n']);
}

proof fn lemma_regroup(a: Seq<char>, b: Seq<char>, c: Seq<char>)
    ensures
        a + (b + c) == a + b + c,
{
    assert(a + (b + c) =~= a + b + c);
}

proof fn lemma_five(p: Seq<Seq<char>>)
    requires
        p.len() == 5,
        p[4] == Seq::<char>::empty(),
    ensures
        ({
            let e = seq!['\n'];
            text::ended(p, '\n') == p[0] + e + p[1] + e + p[2] + e + p[3] + e + e
        }),
{
    let e = seq!['\n'];
    assert(text::ended(p.take(0), '\n') == Seq::<char>::empty());
    assert(Seq::<char>::empty() + p[0] =~= p[0]);
    lemma_ended(p, 1);
    lemma_ended(p, 2);
    lemma_ended(p, 3);
    lemma_ended(p, 4);
    lemma_ended(p, 5);
    assert(p.take(5) =~= p);
    let a = text::ended(p.take(4), '\n');
    assert(a + Seq::<char>::empty() =~= a);
}

proof fn lemma_six(p: Seq<Seq<char>>)
    requires
        p.len() == 6,
        p[5] == Seq::<char>::empty(),
    ensures
        ({
            let e = seq!['\n'];
            text::ended(p, '\n') == p[0] + e + p[1] + e + p[2] + e + p[3] + e + p[4] + e + e
        }),
{
    let e = seq!['\n'];
    assert(text::ended(p.take(0), '\n') == Seq::<char>::empty());
    assert(Seq::<char>::empty() + p[0] =~= p[0]);
    lemma_ended(p, 1);
    lemma_ended(p, 2);
    lemma_ended(p, 3);
    lemma_ended(p, 4);
    lemma_ended(p, 5);
    lemma_ended(p, 6);
    assert(p.take(6) =~= p);
    let a = text::ended(p.take(5), '\n');
    assert(a + Seq::<char>::empty() =~= a);
}

/// The text of a cue by its parts.
proof fn lemma_cue_text(
    d: Seq<char>,
    c1: Seq<char>,
    arrow: Seq<char>,
    c2: Seq<char>,
    f: Seq<char>,
    g: Seq<char>,
    dd: Seq<char>,
    ms: Seq<char>,
    e: Seq<char>,
)
    ensures
        d + e + c1 + arrow + c2 + e + f + d + g + dd + (ms + e) == d + e + (c1 + arrow + c2) + e + (
        f + d + g + dd + ms) + e,
{
    let a = d + e;
    lemma_regroup(a, c1, arrow);
    lemma_regroup(a, c1 + arrow, c2);
    let b = d + e + (c1 + arrow + c2) + e;
    assert(d + e + c1 + arrow + c2 + e == b);
    lemma_regroup(b, f, d);
    lemma_regroup(b, f + d, g);
    lemma_regroup(b, f + d + g, dd);
    lemma_regroup(b, f + d + g + dd, ms);
    lemma_regroup(b + (f + d + g + dd), ms, e);
}

/// A cue is its lines, each with its end. An empty one ends it.
pub proof fn cues_are_lines(t: Telemetry, n: nat, r: Row, x: CueTexts, end: nat)
    ensures
        srt::cue(t, n, r, x, end) == text::ended(cue_lines(t, n, r, x, end), '\n'),
{
    let p = cue_lines(t, n, r, x, end);
    let e = seq!['\n'];
    assert("\n"@ == e && "ms\n"@ == "ms"@ + e && " </font>\n"@ == " </font>"@ + e) by {
        reveal_strlit("\n");
        reveal_strlit("ms\n");
        reveal_strlit("ms");
        reveal_strlit(" </font>\n");
        reveal_strlit(" </font>");
        assert("\n"@ =~= e);
        assert("ms\n"@ =~= "ms"@ + e);
        assert(" </font>\n"@ =~= " </font>"@ + e);
    }
    let d = text::decimal(n);
    let c1 = srt::clock(x.millis as nat);
    let c2 = srt::clock(end);
    let dd = text::decimal(x.diff_ms as nat);
    let f = "<font size=\"28\">FrameCnt: "@;
    let g = ", DiffTime: "@;
    let top = d + e + (c1 + " --> "@ + c2) + e + (f + d + g + dd + "ms"@) + e;
    lemma_cue_text(d, c1, " --> "@, c2, f, g, dd, "ms"@, e);
    let when = process::after(t.info@.start_local, x.micros as int);
    let fields = text::joined(cue_fields(r, x), " "@);
    let dl = srt::date_line(when);
    assert(srt::cue(t, n, r, x, end) == top + dl + fields + (" </font>"@ + e) + e);
    lemma_regroup(top + dl + fields, " </font>"@, e);
    lemma_regroup(top + dl, fields, " </font>"@);
    if let Some(m) = when {
        let w = calendar::written(m, "%Y-%m-%d %H:%M:%S%.3f"@);
        assert(p[3] == w && p[4] == fields + " </font>"@);
        lemma_regroup(top, w, e);
        lemma_six(p);
    } else {
        assert(p[3] == fields + " </font>"@);
        assert(top + dl =~= top);
        lemma_five(p);
    }
}

/// The cues of rows stand in order, numbered from 1.
pub proof fn cues_are_numbered(t: Telemetry, texts: Seq<CueTexts>, end: u64, n: nat)
    ensures
        srt::cues(t, texts, end, 0).len() == 0,
        srt::cues(t, texts, end, n + 1) == srt::cues(t, texts, end, n) + srt::cue(
            t,
            n + 1,
            t.rows@[n as int],
            texts[n as int],
            srt::cue_end(texts, n as int, end),
        ),
{
}

/// The sections of a log: the names of the channels, one to a line, the name of the
/// file, and the names of the columns, in one line, right before the rows.
pub proof fn logs_have_their_sections(t: Telemetry, source: Seq<char>, texts: Seq<vbo::RowTexts>)
    ensures
        ({
            let s = vbo::content(t, source, texts);
            let gps = t.gps_rows >= 2;
            &&& text::occurs(
                s,
                "[header]\n"@ + text::joined(vbo::channels(gps, false), "\n"@)
                    + "\n\n[comments]\n"@,
            )
            &&& text::occurs(
                s,
                ", "@ + text::base_name(source) + "\n\n[column names]\n"@ + text::joined(
                    vbo::channels(gps, true),
                    " "@,
                ) + "\n\n[data]\n"@ + vbo::lines(t, texts, t.rows@.len()),
            )
        }),
{
    let gps = t.gps_rows >= 2;
    let s = vbo::content(t, source, texts);
    let a = vbo::created(process::best_moment(t.info@, 0));
    let h = "[header]\n"@;
    let hn = text::joined(vbo::channels(gps, false), "\n"@);
    let c = "\n\n[comments]\n"@;
    let app = export::APP_NAME@ + " "@ + export::APP_VERSION@;
    let base = text::base_name(source);
    let k = "\n\n[column names]\n"@;
    let kn = text::joined(vbo::channels(gps, true), " "@);
    let d = "\n\n[data]\n"@;
    let l = vbo::lines(t, texts, t.rows@.len());
    let top = a + (h + hn + c);
    lemma_regroup(a, h, hn);
    lemma_regroup(a, h + hn, c);
    assert(a + h + hn + c == top);
    let mid = top + export::APP_NAME@ + " "@ + export::APP_VERSION@;
    let end = ", "@ + base + k + kn + d + l;
    lemma_regroup(mid, ", "@, base);
    lemma_regroup(mid, ", "@ + base, k);
    lemma_regroup(mid, ", "@ + base + k, kn);
    lemma_regroup(mid, ", "@ + base + k + kn, d);
    lemma_regroup(mid, ", "@ + base + k + kn + d, l);
    assert(s == mid + end);
    assert(mid + end + Seq::<char>::empty() =~= mid + end);
    laws::parts_occur(mid, end, Seq::empty());
    let rest = app + end;
    lemma_regroup(export::APP_NAME@, " "@, export::APP_VERSION@);
    lemma_regroup(top, export::APP_NAME@, " "@);
    lemma_regroup(top, export::APP_NAME@ + " "@, export::APP_VERSION@);
    lemma_regroup(top, app, end);
    assert(s == top + rest);
    laws::parts_occur(a, h + hn + c, rest);
}

/// Each row of a log is a line of its columns, with blanks between them.
pub proof fn rows_are_lines(t: Telemetry, texts: Seq<vbo::RowTexts>, n: nat)
    ensures
        vbo::lines(t, texts, 0).len() == 0,
        vbo::lines(t, texts, n + 1) == vbo::lines(t, texts, n) + text::joined(
            vbo::columns(t, t.rows@[n as int], texts[n as int]),
            seq![' '],
        ) + seq!['\n'],
{
    reveal_strlit(" ");
    reveal_strlit("\n");
    assert(" "@ =~= seq![' ']);
    assert("\n"@ =~= seq!['\n']);
}

/// The folders of a file make no difference to what is written.
pub proof fn folders_are_not_written(
    t: Telemetry,
    folder: Seq<char>,
    sep: char,
    name: Seq<char>,
    v: Seq<vbo::RowTexts>,
    g: Seq<gpx::PointTexts>,
    i: Seq<igc::RecordNumbers>,
)
    requires
        sep == '/' || sep == '\\',
        text::free_of(name, '/'),
        text::free_of(name, '\\'),
    ensures
        ({
            let path = folder + seq![sep] + name;
            &&& vbo::content(t, path, v) == vbo::content(t, name, v)
            &&& gpx::content(t, path, g) == gpx::content(t, name, g)
            &&& igc::content(t, path, i) == igc::content(t, name, i)
        }),
{
    text::plain_names_stay(name);
    text::directories_are_dropped(folder, sep, name);
}

/// Why a clip has too few positions: no remote was connected, or none of its samples
/// was valid, or there are only some; the format is named at the end.
pub proof fn reasons_say_what_is_missing(label: Seq<char>, info: ClipFacts)
    ensures
        ({
            let s = export::position_reason(label, info);
            let end = label + " needs at least two GPS fixes."@;
            let all = info.gps_status_counts.1 == info.sample_count && info.sample_count > 0;
            &&& text::occurs(s, end)
            &&& info.remote_name is None ==> s
                == "No GPS data in this clip — no GPS remote (AC004) was connected. "@ + end
            &&& info.remote_name matches Some(r) ==> if all {
                text::occurs(
                    s,
                    r + " reported GPS_INVALID in "@ + text::decimal(info.sample_count as nat) + "/"@
                        + text::decimal(info.sample_count as nat) + " samples. "@,
                )
            } else {
                s == "Only "@ + text::decimal(info.gps_fix_count as nat) + " GPS fix(es) in "@
                    + text::decimal(info.sample_count as nat) + " samples. "@ + end
            }
        }),
{
    let s = export::position_reason(label, info);
    let e = " needs at least two GPS fixes."@;
    let end = label + e;
    let none = Seq::<char>::empty();
    let n = text::decimal(info.sample_count as nat);
    match info.remote_name {
        None => {
            let a = "No GPS data in this clip — no GPS remote (AC004) was connected. "@;
            lemma_regroup(a, label, e);
            assert(a + end + none =~= a + end);
            laws::parts_occur(a, end, none);
        },
        Some(r) => {
            if info.gps_status_counts.1 == info.sample_count && info.sample_count > 0 {
                let a = "No GPS fix in this clip — "@;
                let m = r + " reported GPS_INVALID in "@ + n + "/"@ + n + " samples. "@;
                lemma_regroup(a, r, " reported GPS_INVALID in "@);
                lemma_regroup(a, r + " reported GPS_INVALID in "@, n);
                lemma_regroup(a, r + " reported GPS_INVALID in "@ + n, "/"@);
                lemma_regroup(a, r + " reported GPS_INVALID in "@ + n + "/"@, n);
                lemma_regroup(a, r + " reported GPS_INVALID in "@ + n + "/"@ + n, " samples. "@);
                lemma_regroup(a + m, label, e);
                assert(s == a + m + end);
                laws::parts_occur(a, m, end);
                assert(a + m + end + none =~= a + m + end);
                laws::parts_occur(a + m, end, none);
            } else {
                let a = "Only "@ + text::decimal(info.gps_fix_count as nat) + " GPS fix(es) in "@ + n
                    + " samples. "@;
                lemma_regroup(a, label, e);
                assert(a + end + none =~= a + end);
                laws::parts_occur(a, end, none);
            }
        },
    }
}

} // verus!
