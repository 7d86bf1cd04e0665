//! Racelogic VBO text in the RaceBox layout: `time`, `LongAcc`, `LatAcc`,
//! `VertAcc`, and with GPS `lat`, `long` (minutes, west positive),
//! `velocity kmh`, `heading`, `height`, `sats`.

use super::opt;
use crate::process;
use crate::process::{Row, Telemetry};
use crate::text;
use crate::time;
use crate::time::calendar;
use crate::time::Timestamp;
use vstd::prelude::*;

verus! {

/// The decimal texts of a row's numbers. A text counts only where the row has
/// what it stands for.
#[derive(Debug)]
pub struct RowTexts {
    /// The time in microseconds.
    pub micros: i64,
    /// With five decimals, in g.
    pub longitudinal: String,
    pub lateral: String,
    pub vertical: String,
    /// In minutes, with five decimals, north positive.
    pub latitude: String,
    /// In minutes, with five decimals, west positive.
    pub longitude: String,
    /// In km/h, with three decimals.
    pub velocity: String,
    /// In degrees, with two decimals.
    pub heading: String,
    /// In metres, with two decimals.
    pub height: String,
}

/// The channels of a file: their names in the header, or with `short` those of
/// the columns.
pub open spec fn channels(with_gps: bool, short: bool) -> Seq<Seq<char>> {
    seq!["time"@, "LongAcc"@, "LatAcc"@, "VertAcc"@] + if with_gps {
        seq![
            "lat"@,
            "long"@,
            if short {
                "velocity"@
            } else {
                "velocity kmh"@
            },
            "heading"@,
            "height"@,
            "sats"@,
        ]
    } else {
        Seq::empty()
    }
}

/// A number in a column: 0 where there is none.
pub open spec fn filled(s: Seq<char>) -> Seq<char> {
    if s.len() == 0 {
        "0"@
    } else {
        s
    }
}

/// The time of day of a number of milliseconds: hours, minutes, seconds and
/// milliseconds.
pub open spec fn clock(ms: int) -> Seq<char> {
    let d = ms % 86_400_000;
    text::padded((d / 3_600_000) as nat, 2) + text::padded((d / 60_000 % 60) as nat, 2)
        + text::padded((d / 1000 % 60) as nat, 2) + "."@ + text::padded((d % 1000) as nat, 3)
}

/// The time of a row: the time of day where a clock is known, else the time
/// since the start.
pub open spec fn row_time(t: Telemetry, micros: int) -> Seq<char> {
    match process::best_moment(t.info@, micros) {
        Some(m) => clock(m.secs * 1000 + if m.nanos < 1_000_000_000 {
            m.nanos / 1_000_000
        } else {
            999
        }),
        None => clock(micros / 1000),
    }
}

/// The columns of a row.
pub open spec fn columns(t: Telemetry, r: Row, x: RowTexts) -> Seq<Seq<char>> {
    seq![
        row_time(t, x.micros as int),
        filled(super::opt_text(r.longitudinal, x.longitudinal@)),
        filled(super::opt_text(r.lateral, x.lateral@)),
        filled(super::opt_text(r.vertical, x.vertical@)),
    ] + if t.gps_rows >= 2 {
        seq![
            filled(super::opt_text(r.latitude, x.latitude@)),
            filled(super::opt_text(r.longitude, x.longitude@)),
            filled(super::opt_text(r.speed_ms, x.velocity@)),
            filled(super::opt_text(r.heading_deg, x.heading@)),
            filled(super::opt_text(r.altitude_m, x.height@)),
            if process::located(r) {
                "004"@
            } else {
                "000"@
            },
        ]
    } else {
        Seq::empty()
    }
}

/// Each row has a number for each channel.
pub proof fn rows_fill_the_channels(t: Telemetry, r: Row, x: RowTexts)
    ensures
        columns(t, r, x).len() == channels(t.gps_rows >= 2, true).len(),
        columns(t, r, x).len() == channels(t.gps_rows >= 2, false).len(),
{
}

/// The first `n` rows.
pub open spec fn lines(t: Telemetry, texts: Seq<RowTexts>, n: nat) -> Seq<char>
    decreases n,
{
    if n == 0 {
        Seq::empty()
    } else {
        lines(t, texts, (n - 1) as nat) + text::joined(
            columns(t, t.rows@[n - 1], texts[n - 1]),
            " "@,
        ) + "\n"@
    }
}

/// The first line: the day and time of the start.
pub open spec fn created(m: Option<time::Moment>) -> Seq<char> {
    match m {
        Some(m) => "File created on "@ + text::padded(calendar::date_of(m.secs).day as nat, 2) + "/"@
            + text::padded(calendar::date_of(m.secs).month as nat, 2) + "/"@ + text::signed_decimal(
            calendar::date_of(m.secs).year,
        ) + "\n\n"@,
        None => Seq::empty(),
    }
}

/// The file.
pub open spec fn content(t: Telemetry, source: Seq<char>, texts: Seq<RowTexts>) -> Seq<char> {
    created(process::best_moment(t.info@, 0)) + "[header]\n"@ + text::joined(
        channels(t.gps_rows >= 2, false),
        "\n"@,
    ) + "\n\n[comments]\n"@ + super::APP_NAME@ + " "@ + super::APP_VERSION@ + ", "@
        + text::base_name(source) + "\n\n[column names]\n"@ + text::joined(
        channels(t.gps_rows >= 2, true),
        " "@,
    ) + "\n\n[data]\n"@ + lines(t, texts, t.rows@.len())
}

fn channel_names(with_gps: bool, short: bool) -> (r: Vec<String>)
    ensures
        text::texts(r@) == channels(with_gps, short),
{
    let mut v: Vec<String> = Vec::new();
    v.push(String::from_str("time"));
    v.push(String::from_str("LongAcc"));
    v.push(String::from_str("LatAcc"));
    v.push(String::from_str("VertAcc"));
    if with_gps {
        v.push(String::from_str("lat"));
        v.push(String::from_str("long"));
        v.push(
            String::from_str(
                if short {
                    "velocity"
                } else {
                    "velocity kmh"
                },
            ),
        );
        v.push(String::from_str("heading"));
        v.push(String::from_str("height"));
        v.push(String::from_str("sats"));
    }
    assert(text::texts(v@) =~= channels(with_gps, short));
    v
}

fn fill(s: String) -> (r: String)
    ensures
        r@ == filled(s@),
{
    if s.as_str().is_empty() {
        String::from_str("0")
    } else {
        s
    }
}

fn clock_text(ms: u64) -> (r: String)
    requires
        ms < 86_400_000,
    ensures
        r@ == clock(ms as int),
{
    let mut out: String = text::padded_text(ms / 3_600_000, 2);
    out.append(text::padded_text(ms / 60_000 % 60, 2).as_str());
    out.append(text::padded_text(ms / 1000 % 60, 2).as_str());
    out.append(".");
    out.append(text::padded_text(ms % 1000, 3).as_str());
    out
}

/// Milliseconds since midnight of a number of microseconds.
fn day_millis(micros: i64) -> (r: u64)
    ensures
        r == micros as int / 1000 % 86_400_000,
{
    if micros >= 0 {
        (micros / 1000) as u64 % 86_400_000
    } else {
        let back: u64 = ((-(micros + 1)) as u64 / 1000) % 86_400_000;
        proof {
            let n = -(micros + 1);
            let q = n / 1000;
            assert(micros as int / 1000 == -q - 1);
            assert(q == q / 86_400_000 * 86_400_000 + back);
            assert((-q - 1) % 86_400_000 == 86_399_999 - back);
        }
        86_399_999 - back
    }
}

fn time_text(telemetry: &Telemetry, micros: i64) -> (r: String)
    ensures
        r@ == row_time(*telemetry, micros as int),
{
    match telemetry.best_time(micros) {
        Some(when) => {
            let nanos: u32 = when.subsec_nanos();
            let ms: u64 = if nanos < 1_000_000_000 {
                nanos as u64 / 1_000_000
            } else {
                999
            };
            let day: u64 = when.second_of_day() as u64 * 1000 + ms;
            proof {
                let secs = when@.secs;
                let total = secs * 1000 + ms;
                assert(secs == secs / 86_400 * 86_400 + secs % 86_400);
                assert(total == secs / 86_400 * 86_400_000 + day);
                assert(total % 86_400_000 == day);
                assert(day as int % 86_400_000 == day);
            }
            clock_text(day)
        },
        None => {
            let day: u64 = day_millis(micros);
            proof {
                assert(day as int % 86_400_000 == day);
            }
            clock_text(day)
        },
    }
}

fn row_columns(telemetry: &Telemetry, r: &Row, x: &RowTexts) -> (v: Vec<String>)
    ensures
        text::texts(v@) == columns(*telemetry, *r, *x),
{
    let mut v: Vec<String> = Vec::new();
    v.push(time_text(telemetry, x.micros));
    v.push(fill(opt(r.longitudinal, x.longitudinal.as_str())));
    v.push(fill(opt(r.lateral, x.lateral.as_str())));
    v.push(fill(opt(r.vertical, x.vertical.as_str())));
    if telemetry.has_gps() {
        v.push(fill(opt(r.latitude, x.latitude.as_str())));
        v.push(fill(opt(r.longitude, x.longitude.as_str())));
        v.push(fill(opt(r.speed_ms, x.velocity.as_str())));
        v.push(fill(opt(r.heading_deg, x.heading.as_str())));
        v.push(fill(opt(r.altitude_m, x.height.as_str())));
        // The clip does not tell how many satellites were seen: four make a position.
        v.push(
            String::from_str(
                if r.has_gps() {
                    "004"
                } else {
                    "000"
                },
            ),
        );
    }
    assert(text::texts(v@) =~= columns(*telemetry, *r, *x));
    v
}

fn created_text(when: Option<Timestamp>) -> (r: String)
    ensures
        r@ == created(time::moment(when)),
{
    match when {
        Some(s) => {
            let mut out: String = String::from_str("File created on ");
            out.append(text::padded_text(s.day() as u64, 2).as_str());
            out.append("/");
            out.append(text::padded_text(s.month() as u64, 2).as_str());
            out.append("/");
            out.append(text::signed_text(s.year() as i64).as_str());
            out.append("\n\n");
            out
        },
        None => String::new(),
    }
}

/// Writes the channels of each row. `texts` holds the texts of each row.
pub fn render(telemetry: &Telemetry, source_name: &str, texts: &[RowTexts]) -> (r: String)
    requires
        telemetry.rows@.len() == texts@.len(),
    ensures
        r@ == content(*telemetry, source_name@, texts@),
{
    let mut out: String = created_text(telemetry.best_time(0));
    out.append("[header]\n");
    let with_gps: bool = telemetry.has_gps();
    out.append(text::join(channel_names(with_gps, false).as_slice(), "\n").as_str());
    out.append("\n\n[comments]\n");
    out.append(super::APP_NAME);
    out.append(" ");
    out.append(super::APP_VERSION);
    out.append(", ");
    out.append(super::base_name(source_name).as_str());
    out.append("\n\n[column names]\n");
    out.append(text::join(channel_names(with_gps, true).as_slice(), " ").as_str());
    out.append("\n\n[data]\n");
    let ghost head = out@;
    let mut i: usize = 0;
    assert(out@ =~= head + lines(*telemetry, texts@, 0));
    while i < telemetry.rows.len()
        invariant
            i <= telemetry.rows@.len(),
            telemetry.rows@.len() == texts@.len(),
            out@ == head + lines(*telemetry, texts@, i as nat),
        decreases telemetry.rows@.len() - i,
    {
        let v: Vec<String> = row_columns(telemetry, &telemetry.rows[i], &texts[i]);
        out.append(text::join(v.as_slice(), " ").as_str());
        out.append("\n");
        i = i + 1;
        assert(out@ =~= head + lines(*telemetry, texts@, i as nat));
    }
    out
}

} // verus!
