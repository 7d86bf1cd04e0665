//! DJI-style SRT telemetry subtitles.
//!
//! ```text
//! 1
//! 00:00:00,000 --> 00:00:00,033
//! <font size="28">FrameCnt: 1, DiffTime: 33ms
//! 2026-09-16 09:59:53.000
//! [iso: 252] [shutter: 1/3111.0] [ct: 5219] [latitude: 55.75] [longitude: 37.62] [rel_alt: 1.200 abs_alt: 151.200] </font>
//! ```
//!
//! Timestamps are the camera's local clock, like DJI's own SRT files; OVRLEY
//! resolves the timezone itself. Only fields the camera actually recorded are
//! written — no fabricated f-number or focal length.

use crate::ieee::{Binary32, Binary64};
use crate::process;
use crate::process::{Row, Telemetry};
use crate::text;
use crate::time;
use crate::time::calendar;
use vstd::arithmetic::div_mod::{lemma_div_denominator, lemma_fundamental_div_mod};
use vstd::prelude::*;

verus! {

/// The numbers and decimal texts of a cue. A text counts only where the row has
/// what it stands for.
#[derive(Debug)]
pub struct CueTexts {
    /// The time in microseconds.
    pub micros: i64,
    /// The time in milliseconds, rounded.
    pub millis: u64,
    /// The time to the next row in milliseconds, rounded.
    pub diff_ms: u64,
    /// Without decimals.
    pub iso: String,
    /// The shutter time in seconds.
    pub shutter_seconds: Binary64,
    /// The shutter time in seconds, with one decimal.
    pub shutter: String,
    /// One over the shutter time, with one decimal.
    pub shutter_inverse: String,
    /// With six decimals.
    pub latitude: String,
    pub longitude: String,
    /// The altitude above the first one, with three decimals.
    pub relative_altitude: String,
    /// With three decimals.
    pub altitude: String,
}

/// A time of a cue: hours, minutes, seconds and milliseconds.
pub open spec fn clock(ms: nat) -> Seq<char> {
    text::padded(ms / 3_600_000, 2) + ":"@ + text::padded((ms / 60_000) % 60, 2) + ":"@
        + text::padded((ms / 1000) % 60, 2) + ","@ + text::padded(ms % 1000, 3)
}

/// The time of a cue, from milliseconds.
pub fn srt_time(ms: u64) -> (r: String)
    ensures
        r@ == clock(ms as nat),
{
    let mut out: String = text::padded_text(ms / 3_600_000, 2);
    out.append(":");
    out.append(text::padded_text((ms / 60_000) % 60, 2).as_str());
    out.append(":");
    out.append(text::padded_text((ms / 1000) % 60, 2).as_str());
    out.append(",");
    out.append(text::padded_text(ms % 1000, 3).as_str());
    out
}

/// The parts of a clock reading add up to the time.
pub proof fn clock_adds_up(ms: nat)
    ensures
        (ms / 3_600_000) * 3_600_000 + ((ms / 60_000) % 60) * 60_000 + ((ms / 1000) % 60) * 1000
            + ms % 1000 == ms,
{
    let seconds = ms as int / 1000;
    let minutes = ms as int / 60_000;
    lemma_div_denominator(ms as int, 1000, 60);
    lemma_div_denominator(ms as int, 60_000, 60);
    lemma_fundamental_div_mod(ms as int, 1000);
    lemma_fundamental_div_mod(seconds, 60);
    lemma_fundamental_div_mod(minutes, 60);
}

/// 1 as a floating-point number.
pub open spec fn one() -> Binary64 {
    Binary64 { bits: 0x3FF0_0000_0000_0000 }
}

/// The text of a shutter time: in seconds from one second on, else as a
/// fraction; nothing without a usable one.
pub open spec fn shutter_part(r: Row, x: CueTexts) -> Option<Seq<char>> {
    match r.shutter {
        Some((n, d)) => if n == 0 || d == 0 {
            None
        } else if one().at_most(x.shutter_seconds) {
            Some(x.shutter@)
        } else {
            Some("1/"@ + x.shutter_inverse@)
        },
        None => None,
    }
}

/// The text of a row's shutter time.
pub fn shutter_text(r: &Row, x: &CueTexts) -> (t: Option<String>)
    ensures
        match t {
            Some(t) => shutter_part(*r, *x) == Some(t@),
            None => shutter_part(*r, *x) is None,
        },
{
    match r.shutter {
        Some((n, d)) => {
            if n == 0 || d == 0 {
                return None;
            }
            let limit: Binary64 = Binary64 { bits: 0x3FF0_0000_0000_0000 };
            if limit.le(x.shutter_seconds) {
                Some(String::from_str(x.shutter.as_str()))
            } else {
                let mut out: String = String::from_str("1/");
                out.append(x.shutter_inverse.as_str());
                Some(out)
            }
        },
        None => None,
    }
}

/// The frame rate of the video, where it is a positive number.
pub fn frame_rate(fps: Option<Binary32>) -> (r: Option<Binary32>)
    ensures
        r == match fps {
            Some(f) if f.positive() => Some(f),
            _ => None,
        },
{
    match fps {
        Some(f) => {
            if f.is_positive() {
                Some(f)
            } else {
                None
            }
        },
        None => None,
    }
}

/// The altitude of the first row that has one.
pub open spec fn first_altitude_of(rows: Seq<Row>) -> Option<Binary64>
    decreases rows.len(),
{
    if rows.len() == 0 {
        None
    } else if rows[0].altitude_m is Some {
        rows[0].altitude_m
    } else {
        first_altitude_of(rows.drop_first())
    }
}

/// The altitude that others are relative to: the first one.
pub fn first_altitude(rows: &[Row]) -> (r: Option<Binary64>)
    ensures
        r == first_altitude_of(rows@),
{
    let mut i: usize = 0;
    assert(rows@.skip(0) =~= rows@);
    while i < rows.len()
        invariant
            i <= rows@.len(),
            first_altitude_of(rows@) == first_altitude_of(rows@.skip(i as int)),
        decreases rows@.len() - i,
    {
        assert(rows@.skip(i as int).drop_first() =~= rows@.skip(i + 1));
        if rows[i].altitude_m.is_some() {
            return rows[i].altitude_m;
        }
        i = i + 1;
    }
    None
}

/// One field or none.
pub open spec fn field(present: bool, s: Seq<char>) -> Seq<Seq<char>> {
    if present {
        seq![s]
    } else {
        Seq::empty()
    }
}

/// The fields of the exposure.
pub open spec fn exposure_fields(r: Row, x: CueTexts) -> Seq<Seq<char>> {
    field(r.iso is Some, "[iso: "@ + x.iso@ + "]"@) + match shutter_part(r, x) {
        Some(s) => seq!["[shutter: "@ + s + "]"@],
        None => Seq::empty(),
    } + match r.color_temperature {
        Some(ct) => seq!["[ct: "@ + text::decimal(ct as nat) + "]"@],
        None => Seq::empty(),
    }
}

/// The fields of the position.
pub open spec fn position_fields(r: Row, x: CueTexts) -> Seq<Seq<char>> {
    if process::located(r) {
        seq!["[latitude: "@ + x.latitude@ + "]"@, "[longitude: "@ + x.longitude@ + "]"@] + field(
            r.altitude_m is Some,
            "[rel_alt: "@ + x.relative_altitude@ + " abs_alt: "@ + x.altitude@ + "]"@,
        )
    } else {
        Seq::empty()
    }
}

/// The line with the camera's clock, when it is known.
pub open spec fn date_line(m: Option<time::Moment>) -> Seq<char> {
    match m {
        Some(m) => calendar::written(m, "%Y-%m-%d %H:%M:%S%.3f"@) + "\n"@,
        None => Seq::empty(),
    }
}

/// The cue with the number `n`, up to the time `end`.
pub open spec fn cue(t: Telemetry, n: nat, r: Row, x: CueTexts, end: nat) -> Seq<char> {
    text::decimal(n) + "\n"@ + clock(x.millis as nat) + " --> "@ + clock(end) + "\n"@
        + "<font size=\"28\">FrameCnt: "@ + text::decimal(n) + ", DiffTime: "@ + text::decimal(
        x.diff_ms as nat,
    ) + "ms\n"@ + date_line(process::after(t.info@.start_local, x.micros as int)) + text::joined(
        exposure_fields(r, x) + position_fields(r, x),
        " "@,
    ) + " </font>\n"@ + "\n"@
}

/// The time at which the cue of row `i` ends: that of the next row.
pub open spec fn cue_end(texts: Seq<CueTexts>, i: int, end: u64) -> nat {
    if i + 1 < texts.len() {
        texts[i + 1].millis as nat
    } else {
        end as nat
    }
}

/// The cues of the first `n` rows.
pub open spec fn cues(t: Telemetry, texts: Seq<CueTexts>, end: u64, n: nat) -> Seq<char>
    decreases n,
{
    if n == 0 {
        Seq::empty()
    } else {
        cues(t, texts, end, (n - 1) as nat) + cue(
            t,
            n,
            t.rows@[n - 1],
            texts[n - 1],
            cue_end(texts, n - 1, end),
        )
    }
}

fn bracketed(name: &str, value: &str) -> (r: String)
    ensures
        r@ == name@ + value@ + "]"@,
{
    let mut out: String = String::from_str(name);
    out.append(value);
    out.append("]");
    out
}

fn push_field(fields: &mut Vec<String>, s: String)
    ensures
        text::texts(final(fields)@) == text::texts(old(fields)@) + seq![s@],
{
    fields.push(s);
    assert(text::texts(fields@) =~= text::texts(old(fields)@) + seq![s@]);
}

fn exposure(r: &Row, x: &CueTexts) -> (fields: Vec<String>)
    ensures
        text::texts(fields@) == exposure_fields(*r, *x),
{
    let mut fields: Vec<String> = Vec::new();
    assert(text::texts(fields@) =~= Seq::empty());
    if r.iso.is_some() {
        push_field(&mut fields, bracketed("[iso: ", x.iso.as_str()));
    }
    assert(text::texts(fields@) =~= field(r.iso is Some, "[iso: "@ + x.iso@ + "]"@));
    let ghost f1 = text::texts(fields@);
    if let Some(sh) = shutter_text(r, x) {
        push_field(&mut fields, bracketed("[shutter: ", sh.as_str()));
    }
    let ghost f2 = text::texts(fields@);
    assert(f2 =~= f1 + match shutter_part(*r, *x) {
        Some(s) => seq!["[shutter: "@ + s + "]"@],
        None => Seq::empty(),
    });
    if let Some(ct) = r.color_temperature {
        push_field(&mut fields, bracketed("[ct: ", text::decimal_text(ct as u64).as_str()));
    }
    assert(text::texts(fields@) =~= f2 + match r.color_temperature {
        Some(ct) => seq!["[ct: "@ + text::decimal(ct as nat) + "]"@],
        None => Seq::empty(),
    });
    fields
}

fn push_position(fields: &mut Vec<String>, r: &Row, x: &CueTexts)
    ensures
        text::texts(final(fields)@) == text::texts(old(fields)@) + position_fields(*r, *x),
{
    if r.has_gps() {
        push_field(fields, bracketed("[latitude: ", x.latitude.as_str()));
        push_field(fields, bracketed("[longitude: ", x.longitude.as_str()));
        if r.altitude_m.is_some() {
            let mut out: String = String::from_str("[rel_alt: ");
            out.append(x.relative_altitude.as_str());
            out.append(" abs_alt: ");
            push_field(fields, bracketed(out.as_str(), x.altitude.as_str()));
        }
    }
    assert(text::texts(fields@) =~= text::texts(old(fields)@) + position_fields(*r, *x));
}

fn cue_text(telemetry: &Telemetry, n: u64, r: &Row, x: &CueTexts, end: u64) -> (c: String)
    ensures
        c@ == cue(*telemetry, n as nat, *r, *x, end as nat),
{
    let mut fields: Vec<String> = exposure(r, x);
    push_position(&mut fields, r, x);
    let date: String = match telemetry.local_time(x.micros) {
        Some(local) => {
            let mut out: String = local.format("%Y-%m-%d %H:%M:%S%.3f");
            out.append("\n");
            out
        },
        None => String::new(),
    };
    let mut out: String = text::decimal_text(n);
    out.append("\n");
    out.append(srt_time(x.millis).as_str());
    out.append(" --> ");
    out.append(srt_time(end).as_str());
    out.append("\n");
    out.append("<font size=\"28\">FrameCnt: ");
    out.append(text::decimal_text(n).as_str());
    out.append(", DiffTime: ");
    out.append(text::decimal_text(x.diff_ms).as_str());
    out.append("ms\n");
    assert(date@ == date_line(process::after(telemetry.info@.start_local, x.micros as int)));
    out.append(date.as_str());
    out.append(text::join(fields.as_slice(), " ").as_str());
    out.append(" </font>\n");
    out.append("\n");
    out
}

/// Writes a cue for each row. `texts` holds the texts of each row, `end` the
/// time at which the last cue ends, in milliseconds.
pub fn render(telemetry: &Telemetry, texts: &[CueTexts], end: u64) -> (r: String)
    requires
        telemetry.rows@.len() == texts@.len(),
    ensures
        r@ == cues(*telemetry, texts@, end, telemetry.rows@.len()),
{
    let mut out: String = String::new();
    let n: usize = telemetry.rows.len();
    let mut i: usize = 0;
    while i < n
        invariant
            i <= n,
            n == telemetry.rows@.len(),
            n == texts@.len(),
            out@ == cues(*telemetry, texts@, end, i as nat),
        decreases n - i,
    {
        let stop: u64 = if i + 1 < n {
            texts[i + 1].millis
        } else {
            end
        };
        let c: String = cue_text(telemetry, i as u64 + 1, &telemetry.rows[i], &texts[i], stop);
        out.append(c.as_str());
        i = i + 1;
    }
    out
}

} // verus!
