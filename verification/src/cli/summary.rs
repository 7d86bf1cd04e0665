//! Summary of a clip, for people and as JSON.

use crate::dji;
use crate::dji::ClipFacts;
use crate::export;
use crate::export::Format;
use crate::process::{AxisMap, Telemetry};
use crate::text;
use crate::time;
use crate::time::calendar;
use vstd::prelude::*;

verus! {

/// The decimal texts of a summary's numbers. A text counts only where there is
/// what it stands for.
#[derive(Debug)]
pub struct SummaryTexts {
    /// Frames per second, with two decimals.
    pub fps: String,
    /// The duration in seconds, with one decimal.
    pub duration: String,
    /// Samples per second, with two decimals.
    pub rate: String,
    /// The median size of the acceleration, with three decimals.
    pub median: String,
    /// The medians of the axes in g, with a sign and three decimals.
    pub median_x: String,
    pub median_y: String,
    pub median_z: String,
    /// The tilt in degrees, with one decimal.
    pub tilt: String,
    /// The gravity in the world in g, with a sign and three decimals.
    pub gravity_x: String,
    pub gravity_y: String,
    pub gravity_z: String,
}

/// Lines as pairs of character sequences.
pub open spec fn pairs(v: Seq<(String, String)>) -> Seq<(Seq<char>, Seq<char>)> {
    v.map_values(|p: (String, String)| (p.0@, p.1@))
}

/// A line, if there is something to say.
pub open spec fn entry(key: Seq<char>, value: Option<Seq<char>>) -> Seq<(Seq<char>, Seq<char>)> {
    match value {
        Some(v) => seq![(key, v)],
        None => Seq::empty(),
    }
}

/// A text, or another one without it.
pub open spec fn or(value: Option<Seq<char>>, other: Seq<char>) -> Seq<char> {
    match value {
        Some(v) => v,
        None => other,
    }
}

/// The schema of the metadata.
pub open spec fn schema(info: ClipFacts) -> Option<Seq<char>> {
    match (info.proto_name, info.proto_version) {
        (Some(p), Some(v)) => Some(p + " v"@ + v),
        _ => None,
    }
}

/// The size of the picture and the frame rate.
pub open spec fn video(info: ClipFacts, x: SummaryTexts) -> Option<Seq<char>> {
    match (info.width, info.height) {
        (Some(w), Some(h)) => Some(
            text::decimal(w as nat) + "×"@ + text::decimal(h as nat) + " @ "@ + match info.fps {
                Some(_) => x.fps@ + " fps"@,
                None => Seq::empty(),
            },
        ),
        _ => None,
    }
}

/// The number of samples and their rate.
pub open spec fn samples(info: ClipFacts, x: SummaryTexts) -> Seq<char> {
    text::decimal(info.sample_count as nat) + " over "@ + x.duration@ + " s (≈"@ + x.rate@ + " Hz)"@
}

/// The unit of the accelerometer and what it reads at rest.
pub open spec fn accelerometer(t: Telemetry, x: SummaryTexts) -> Seq<char> {
    "unit "@ + t.unit.text() + " (median |a| = "@ + x.median@ + "), body-axis medians X "@
        + x.median_x@ + " Y "@ + x.median_y@ + " Z "@ + x.median_z@ + " g"@
}

/// The sign of a channel.
pub open spec fn sign(invert: bool) -> Seq<char> {
    if invert {
        "-"@
    } else {
        Seq::empty()
    }
}

/// Which body axis feeds which vehicle axis.
pub open spec fn mapping(a: AxisMap) -> Seq<char> {
    "lateral = "@ + sign(a.invert_lateral) + a.lateral.text() + ", longitudinal = "@ + sign(
        a.invert_longitudinal,
    ) + a.longitudinal.text() + ", vertical = "@ + sign(a.invert_vertical) + a.vertical.text()
}

/// How far the camera is off the vehicle's vertical.
pub open spec fn tilt(t: Telemetry, x: SummaryTexts) -> Option<Seq<char>> {
    match t.tilt_deg {
        Some(_) => Some(
            x.tilt@ + if t.levelled {
                "° (levelled)"@
            } else {
                "° (not levelled)"@
            },
        ),
        None => None,
    }
}

/// How gravity was removed.
pub open spec fn gravity(t: Telemetry, x: SummaryTexts) -> Seq<char> {
    match t.gravity_world {
        Some(_) => t.gravity_used.name() + " — world gravity ("@ + x.gravity_x@ + ", "@
            + x.gravity_y@ + ", "@ + x.gravity_z@ + ") g"@,
        None => t.gravity_used.name(),
    }
}

/// The state of the positions.
pub open spec fn gps(info: ClipFacts) -> Seq<char> {
    match info.remote_name {
        None => "no GPS remote connected"@,
        Some(r) => if info.gps_fix_count == 0 {
            r + " connected, no fix (status invalid in "@ + text::decimal(
                info.gps_status_counts.1 as nat,
            ) + " of "@ + text::decimal(info.sample_count as nat) + " samples)"@
        } else {
            r + ": "@ + text::decimal(info.gps_fix_count as nat) + " fixes in "@ + text::decimal(
                info.sample_count as nat,
            ) + " samples ("@ + text::decimal(info.gps_status_counts.2 as nat) + " RTK)"@
        },
    }
}

/// An offset from UTC: its hours, rounded towards zero and with a sign, and its
/// minutes.
pub open spec fn offset(minutes: int) -> Seq<char> {
    let hours = time::quotient(minutes, 60);
    let rest = minutes - hours * 60;
    ", UTC"@ + if hours < 0 {
        "-"@ + text::padded((-hours) as nat, 2)
    } else {
        "+"@ + text::padded(hours as nat, 2)
    } + ":"@ + text::padded(
        (if rest < 0 {
            -rest
        } else {
            rest
        }) as nat,
        2,
    )
}

/// When the clip starts.
pub open spec fn start(info: ClipFacts) -> Seq<char> {
    match info.start_local {
        Some(m) => calendar::written(m, "%Y-%m-%d %H:%M:%S"@) + " camera clock ("@
            + info.start_time_source.text() + ")"@ + match info.utc_offset_minutes {
            Some(minutes) => offset(minutes as int),
            None => Seq::empty(),
        },
        None => "unknown"@,
    }
}

/// The lines of the summary.
pub open spec fn summary(t: Telemetry, x: SummaryTexts) -> Seq<(Seq<char>, Seq<char>)> {
    let info = t.info@;
    entry("Camera"@, Some(or(info.model, "unknown"@))) + entry("Serial"@, info.serial) + entry(
        "Firmware"@,
        info.firmware,
    ) + entry("Schema"@, schema(info)) + entry("Video"@, video(info, x)) + entry(
        "Metadata track"@,
        Some(or(info.metadata_track, Seq::empty())),
    ) + entry("Samples"@, Some(samples(info, x))) + entry(
        "Accelerometer"@,
        Some(accelerometer(t, x)),
    ) + entry("Axis mapping"@, Some(mapping(t.options.axes))) + entry("Camera tilt"@, tilt(t, x))
        + entry("Gravity removal"@, Some(gravity(t, x))) + entry("GPS"@, Some(gps(info))) + entry(
        "Start time"@,
        Some(start(info)),
    )
}

fn add_line(lines: &mut Vec<(String, String)>, key: &str, value: Option<String>)
    ensures
        pairs(final(lines)@) == pairs(old(lines)@) + entry(key@, dji::chars(value)),
{
    let ghost before = pairs(lines@);
    match value {
        Some(v) => {
            lines.push((String::from_str(key), v));
            assert(pairs(lines@) =~= before + seq![(key@, v@)]);
        },
        None => {
            assert(pairs(lines@) =~= before + Seq::empty());
        },
    }
}

fn copied(t: &Option<String>) -> (r: Option<String>)
    ensures
        dji::chars(r) == dji::chars(*t),
{
    match t {
        Some(t) => Some(String::from_str(t.as_str())),
        None => None,
    }
}

fn copied_or(t: &Option<String>, other: &str) -> (r: String)
    ensures
        r@ == or(dji::chars(*t), other@),
{
    match t {
        Some(t) => String::from_str(t.as_str()),
        None => String::from_str(other),
    }
}

fn schema_text(t: &Telemetry) -> (r: Option<String>)
    ensures
        dji::chars(r) == schema(t.info@),
{
    match (&t.info.proto_name, &t.info.proto_version) {
        (Some(p), Some(v)) => {
            let mut out: String = String::from_str(p.as_str());
            out.append(" v");
            out.append(v.as_str());
            Some(out)
        },
        _ => None,
    }
}

fn video_text(t: &Telemetry, x: &SummaryTexts) -> (r: Option<String>)
    ensures
        dji::chars(r) == video(t.info@, *x),
{
    match (t.info.width, t.info.height) {
        (Some(w), Some(h)) => {
            let rate: String = match t.info.fps {
                Some(_) => {
                    let mut out: String = String::from_str(x.fps.as_str());
                    out.append(" fps");
                    out
                },
                None => String::new(),
            };
            let mut out: String = text::decimal_text(w as u64);
            out.append("×");
            out.append(text::decimal_text(h as u64).as_str());
            out.append(" @ ");
            out.append(rate.as_str());
            Some(out)
        },
        _ => None,
    }
}

fn samples_text(t: &Telemetry, x: &SummaryTexts) -> (r: String)
    ensures
        r@ == samples(t.info@, *x),
{
    let mut out: String = text::decimal_text(t.info.sample_count as u64);
    out.append(" over ");
    out.append(x.duration.as_str());
    out.append(" s (≈");
    out.append(x.rate.as_str());
    out.append(" Hz)");
    out
}

fn accelerometer_text(t: &Telemetry, x: &SummaryTexts) -> (r: String)
    ensures
        r@ == accelerometer(*t, *x),
{
    let mut out: String = String::from_str("unit ");
    out.append(t.unit.label());
    out.append(" (median |a| = ");
    out.append(x.median.as_str());
    out.append("), body-axis medians X ");
    out.append(x.median_x.as_str());
    out.append(" Y ");
    out.append(x.median_y.as_str());
    out.append(" Z ");
    out.append(x.median_z.as_str());
    out.append(" g");
    out
}

fn sign_text(invert: bool) -> (r: String)
    ensures
        r@ == sign(invert),
{
    if invert {
        String::from_str("-")
    } else {
        String::new()
    }
}

fn mapping_text(a: AxisMap) -> (r: String)
    ensures
        r@ == mapping(a),
{
    let mut out: String = String::from_str("lateral = ");
    out.append(sign_text(a.invert_lateral).as_str());
    out.append(a.lateral.label());
    out.append(", longitudinal = ");
    out.append(sign_text(a.invert_longitudinal).as_str());
    out.append(a.longitudinal.label());
    out.append(", vertical = ");
    out.append(sign_text(a.invert_vertical).as_str());
    out.append(a.vertical.label());
    out
}

fn tilt_text(t: &Telemetry, x: &SummaryTexts) -> (r: Option<String>)
    ensures
        dji::chars(r) == tilt(*t, *x),
{
    match t.tilt_deg {
        Some(_) => {
            let mut out: String = String::from_str(x.tilt.as_str());
            if t.levelled {
                out.append("° (levelled)");
            } else {
                out.append("° (not levelled)");
            }
            Some(out)
        },
        None => None,
    }
}

fn gravity_text(t: &Telemetry, x: &SummaryTexts) -> (r: String)
    ensures
        r@ == gravity(*t, *x),
{
    let mut out: String = String::from_str(t.gravity_used.cli_name());
    match t.gravity_world {
        Some(_) => {
            out.append(" — world gravity (");
            out.append(x.gravity_x.as_str());
            out.append(", ");
            out.append(x.gravity_y.as_str());
            out.append(", ");
            out.append(x.gravity_z.as_str());
            out.append(") g");
        },
        None => {},
    }
    out
}

fn gps_text(t: &Telemetry) -> (r: String)
    ensures
        r@ == gps(t.info@),
{
    match &t.info.remote_name {
        None => String::from_str("no GPS remote connected"),
        Some(r) => {
            let mut out: String = String::from_str(r.as_str());
            if t.info.gps_fix_count == 0 {
                out.append(" connected, no fix (status invalid in ");
                out.append(text::decimal_text(t.info.gps_status_counts[1] as u64).as_str());
                out.append(" of ");
                out.append(text::decimal_text(t.info.sample_count as u64).as_str());
                out.append(" samples)");
            } else {
                out.append(": ");
                out.append(text::decimal_text(t.info.gps_fix_count as u64).as_str());
                out.append(" fixes in ");
                out.append(text::decimal_text(t.info.sample_count as u64).as_str());
                out.append(" samples (");
                out.append(text::decimal_text(t.info.gps_status_counts[2] as u64).as_str());
                out.append(" RTK)");
            }
            out
        },
    }
}

fn offset_text(minutes: i32) -> (r: String)
    ensures
        r@ == offset(minutes as int),
{
    let size: u64 = if minutes < 0 {
        (-(minutes as i64)) as u64
    } else {
        minutes as u64
    };
    let hours: u64 = size / 60;
    let rest: u64 = size % 60;
    let mut signed: String = if minutes < 0 && hours > 0 {
        String::from_str("-")
    } else {
        String::from_str("+")
    };
    signed.append(text::padded_text(hours, 2).as_str());
    let mut out: String = String::from_str(", UTC");
    out.append(signed.as_str());
    out.append(":");
    out.append(text::padded_text(rest, 2).as_str());
    out
}

fn start_text(t: &Telemetry) -> (r: String)
    ensures
        r@ == start(t.info@),
{
    match t.info.start_local {
        Some(dt) => {
            let ending: String = match t.info.utc_offset_minutes {
                Some(m) => offset_text(m),
                None => String::new(),
            };
            let mut out: String = dt.format("%Y-%m-%d %H:%M:%S");
            out.append(" camera clock (");
            out.append(t.info.start_time_source.label());
            out.append(")");
            out.append(ending.as_str());
            out
        },
        None => String::from_str("unknown"),
    }
}

/// Human-readable clip summary.
pub fn summary_lines(telemetry: &Telemetry, x: &SummaryTexts) -> (lines: Vec<(String, String)>)
    ensures
        pairs(lines@) == summary(*telemetry, *x),
{
    let t: &Telemetry = telemetry;
    let mut lines: Vec<(String, String)> = Vec::new();
    proof {
        let first = entry("Camera"@, Some(or(t.info@.model, "unknown"@)));
        assert(pairs(lines@) =~= Seq::empty());
        assert(pairs(lines@) + first =~= first);
    }
    let none: String = String::new();
    add_line(&mut lines, "Camera", Some(copied_or(&t.info.model, "unknown")));
    add_line(&mut lines, "Serial", copied(&t.info.serial));
    add_line(&mut lines, "Firmware", copied(&t.info.firmware));
    add_line(&mut lines, "Schema", schema_text(t));
    add_line(&mut lines, "Video", video_text(t, x));
    add_line(
        &mut lines,
        "Metadata track",
        Some(copied_or(&t.info.metadata_track, none.as_str())),
    );
    add_line(&mut lines, "Samples", Some(samples_text(t, x)));
    add_line(&mut lines, "Accelerometer", Some(accelerometer_text(t, x)));
    add_line(&mut lines, "Axis mapping", Some(mapping_text(t.options.axes)));
    add_line(&mut lines, "Camera tilt", tilt_text(t, x));
    add_line(&mut lines, "Gravity removal", Some(gravity_text(t, x)));
    add_line(&mut lines, "GPS", Some(gps_text(t)));
    add_line(&mut lines, "Start time", Some(start_text(t)));
    lines
}

/// A character of a text in JSON.
pub open spec fn quoted_char(c: char) -> Seq<char> {
    if c == '\\' || c == '"' {
        seq!['\\', c]
    } else {
        seq![c]
    }
}

/// A text in JSON, without the quotes around it.
pub open spec fn quoted(s: Seq<char>) -> Seq<char>
    decreases s.len(),
{
    if s.len() == 0 {
        Seq::empty()
    } else {
        quoted(s.drop_last()) + quoted_char(s.last())
    }
}

/// What a text in JSON stands for: a character behind a backslash is itself.
pub open spec fn unquoted(s: Seq<char>) -> Seq<char>
    decreases s.len(),
{
    if s.len() == 0 {
        Seq::empty()
    } else if s[0] == '\\' && s.len() >= 2 {
        seq![s[1]] + unquoted(s.skip(2))
    } else {
        seq![s[0]] + unquoted(s.skip(1))
    }
}

proof fn lemma_quoted_first(s: Seq<char>)
    requires
        s.len() > 0,
    ensures
        quoted(s) == quoted_char(s[0]) + quoted(s.skip(1)),
    decreases s.len(),
{
    if s.len() == 1 {
        assert(s.drop_last() =~= Seq::empty());
        assert(s.skip(1) =~= Seq::empty());
        assert(quoted(s) =~= quoted_char(s[0]) + quoted(s.skip(1)));
    } else {
        lemma_quoted_first(s.drop_last());
        assert(s.drop_last().skip(1) =~= s.skip(1).drop_last());
        assert(quoted(s) =~= quoted_char(s[0]) + quoted(s.skip(1)));
    }
}

/// A quoted text reads back as itself.
pub proof fn quoting_is_undone(s: Seq<char>)
    ensures
        unquoted(quoted(s)) == s,
    decreases s.len(),
{
    if s.len() > 0 {
        lemma_quoted_first(s);
        quoting_is_undone(s.skip(1));
        let head = quoted_char(s[0]);
        let q = quoted(s);
        assert(q.skip(head.len() as int) =~= quoted(s.skip(1)));
        assert(unquoted(q) =~= seq![s[0]] + s.skip(1));
        assert(seq![s[0]] + s.skip(1) =~= s);
    } else {
        assert(unquoted(quoted(s)) =~= s);
    }
}

/// A quote inside a quoted text has a backslash before it.
pub proof fn quotes_are_escaped(s: Seq<char>, i: int)
    requires
        0 <= i < quoted(s).len(),
        quoted(s)[i] == '"',
    ensures
        i > 0 && quoted(s)[i - 1] == '\\',
    decreases s.len(),
{
    let before = quoted(s.drop_last());
    if i < before.len() {
        quotes_are_escaped(s.drop_last(), i);
    }
}

/// Escapes a text for JSON.
pub fn json_escape(s: &str) -> (r: String)
    ensures
        r@ == quoted(s@),
{
    let c: Vec<char> = text::chars_of(s);
    let mut out: String = String::new();
    let mut i: usize = 0;
    while i < c.len()
        invariant
            i <= c@.len(),
            out@ == quoted(c@.take(i as int)),
        decreases c@.len() - i,
    {
        proof {
            assert(c@.take(i + 1).drop_last() =~= c@.take(i as int));
            assert(c@.take(i + 1).last() == c@[i as int]);
        }
        let ghost before = out@;
        if c[i] == '\\' || c[i] == '"' {
            out.push('\\');
        }
        out.push(c[i]);
        i = i + 1;
        assert(out@ =~= before + quoted_char(c@[i - 1]));
    }
    assert(c@.take(i as int) =~= c@);
    out
}

/// A field with a text.
pub open spec fn text_field(name: Seq<char>, value: Seq<char>) -> Seq<char> {
    "\""@ + name + "\": \""@ + quoted(value) + "\""@
}

/// A field with a value as it is.
pub open spec fn plain_field(name: Seq<char>, value: Seq<char>) -> Seq<char> {
    "\""@ + name + "\": "@ + value
}

/// The decimal texts of a JSON summary's numbers.
#[derive(Debug)]
pub struct JsonTexts {
    /// The duration in seconds, with three decimals.
    pub duration: String,
    /// The medians of the axes in g, with four decimals.
    pub median_x: String,
    pub median_y: String,
    pub median_z: String,
}

/// The camera's clock at the start, and nothing where it is not known.
pub open spec fn start_field(info: ClipFacts) -> Seq<char> {
    match info.start_local {
        Some(m) => calendar::written(m, "%Y-%m-%dT%H:%M:%S"@),
        None => Seq::empty(),
    }
}

/// Whether a format can be written: `true`, or the reason against it.
pub open spec fn format_field(f: Format, t: Telemetry) -> Seq<char> {
    match export::obstacle(f, t) {
        None => plain_field(f.suffix(), "true"@),
        Some(reason) => text_field(f.suffix(), reason),
    }
}

/// The fields of the formats.
pub open spec fn format_fields(t: Telemetry) -> Seq<Seq<char>> {
    seq![
        format_field(Format::Csv, t),
        format_field(Format::Srt, t),
        format_field(Format::Vbo, t),
        format_field(Format::Gpx, t),
        format_field(Format::Fit, t),
        format_field(Format::Igc, t),
    ]
}

/// The fields of the JSON summary.
pub open spec fn json_fields(t: Telemetry, x: JsonTexts) -> Seq<Seq<char>> {
    let info = t.info@;
    seq![
        text_field("model"@, or(info.model, Seq::empty())),
        text_field("serial"@, or(info.serial, Seq::empty())),
        text_field("firmware"@, or(info.firmware, Seq::empty())),
        text_field("proto"@, or(info.proto_name, Seq::empty())),
        plain_field("samples"@, text::decimal(info.sample_count as nat)),
        plain_field("duration_s"@, x.duration@),
        plain_field("gps_fixes"@, text::decimal(info.gps_fix_count as nat)),
        text_field("remote"@, or(info.remote_name, Seq::empty())),
        plain_field("accel_unit"@, "\""@ + t.unit.text() + "\""@),
        plain_field(
            "axis_medians_g"@,
            "["@ + x.median_x@ + ", "@ + x.median_y@ + ", "@ + x.median_z@ + "]"@,
        ),
        plain_field("start_local"@, "\""@ + start_field(info) + "\""@),
        plain_field(
            "utc_offset_minutes"@,
            match info.utc_offset_minutes {
                Some(m) => text::signed_decimal(m as int),
                None => "null"@,
            },
        ),
        plain_field("formats"@, "{"@ + text::joined(format_fields(t), ", "@) + "}"@),
    ]
}

/// The JSON summary.
pub open spec fn json(t: Telemetry, x: JsonTexts) -> Seq<char> {
    "{"@ + text::joined(json_fields(t, x), ", "@) + "}"@
}

fn text_item(name: &str, value: &str) -> (r: String)
    ensures
        r@ == text_field(name@, value@),
{
    let mut out: String = String::from_str("\"");
    out.append(name);
    out.append("\": \"");
    out.append(json_escape(value).as_str());
    out.append("\"");
    out
}

fn optional_item(name: &str, value: &Option<String>) -> (r: String)
    ensures
        r@ == text_field(name@, or(dji::chars(*value), Seq::empty())),
{
    match value {
        Some(v) => text_item(name, v.as_str()),
        None => {
            let none: String = String::new();
            text_item(name, none.as_str())
        },
    }
}

fn plain_item(name: &str, value: &str) -> (r: String)
    ensures
        r@ == plain_field(name@, value@),
{
    let mut out: String = String::from_str("\"");
    out.append(name);
    out.append("\": ");
    out.append(value);
    out
}

fn wrapped(before: &str, value: &str, behind: &str) -> (r: String)
    ensures
        r@ == before@ + value@ + behind@,
{
    let mut out: String = String::from_str(before);
    out.append(value);
    out.append(behind);
    out
}

fn format_item(f: Format, t: &Telemetry) -> (r: String)
    ensures
        r@ == format_field(f, *t),
{
    match export::availability(f, t) {
        Ok(_) => plain_item(f.extension(), "true"),
        Err(reason) => text_item(f.extension(), reason.as_str()),
    }
}

fn format_items(t: &Telemetry) -> (r: Vec<String>)
    ensures
        text::texts(r@) == format_fields(*t),
{
    let mut v: Vec<String> = Vec::new();
    v.push(format_item(Format::Csv, t));
    v.push(format_item(Format::Srt, t));
    v.push(format_item(Format::Vbo, t));
    v.push(format_item(Format::Gpx, t));
    v.push(format_item(Format::Fit, t));
    v.push(format_item(Format::Igc, t));
    assert(text::texts(v@) =~= format_fields(*t));
    v
}

fn medians_item(x: &JsonTexts) -> (r: String)
    ensures
        r@ == "["@ + x.median_x@ + ", "@ + x.median_y@ + ", "@ + x.median_z@ + "]"@,
{
    let mut out: String = String::from_str("[");
    out.append(x.median_x.as_str());
    out.append(", ");
    out.append(x.median_y.as_str());
    out.append(", ");
    out.append(x.median_z.as_str());
    out.append("]");
    out
}

fn start_item(t: &Telemetry) -> (r: String)
    ensures
        r@ == start_field(t.info@),
{
    match t.info.start_local {
        Some(dt) => dt.format("%Y-%m-%dT%H:%M:%S"),
        None => String::new(),
    }
}

fn offset_item(t: &Telemetry) -> (r: String)
    ensures
        r@ == match t.info@.utc_offset_minutes {
            Some(m) => text::signed_decimal(m as int),
            None => "null"@,
        },
{
    match t.info.utc_offset_minutes {
        Some(m) => text::signed_text(m as i64),
        None => String::from_str("null"),
    }
}

/// Clip summary as JSON.
pub fn summary_json(telemetry: &Telemetry, x: &JsonTexts) -> (r: String)
    ensures
        r@ == json(*telemetry, *x),
{
    let t: &Telemetry = telemetry;
    let mut v: Vec<String> = Vec::new();
    v.push(optional_item("model", &t.info.model));
    v.push(optional_item("serial", &t.info.serial));
    v.push(optional_item("firmware", &t.info.firmware));
    v.push(optional_item("proto", &t.info.proto_name));
    v.push(plain_item("samples", text::decimal_text(t.info.sample_count as u64).as_str()));
    v.push(plain_item("duration_s", x.duration.as_str()));
    v.push(plain_item("gps_fixes", text::decimal_text(t.info.gps_fix_count as u64).as_str()));
    v.push(optional_item("remote", &t.info.remote_name));
    v.push(plain_item("accel_unit", wrapped("\"", t.unit.label(), "\"").as_str()));
    v.push(plain_item("axis_medians_g", medians_item(x).as_str()));
    v.push(plain_item("start_local", wrapped("\"", start_item(t).as_str(), "\"").as_str()));
    v.push(plain_item("utc_offset_minutes", offset_item(t).as_str()));
    let formats: String = text::join(format_items(t).as_slice(), ", ");
    v.push(plain_item("formats", wrapped("{", formats.as_str(), "}").as_str()));
    assert(text::texts(v@) =~= json_fields(*t, *x));
    wrapped("{", text::join(v.as_slice(), ", ").as_str(), "}")
}

} // verus!
