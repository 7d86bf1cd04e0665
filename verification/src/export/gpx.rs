//! GPX 1.1 track. OVRLEY reads `<trkpt lat lon>`, `<ele>`, `<time>` and any leaf
//! element under `<extensions>` by its local name (`speed`, `heading`, `g_force`, …).

use super::{num, xml_escape};
use crate::dji;
use crate::ieee::Binary64;
use crate::process;
use crate::process::{Row, Telemetry};
use crate::text;
use crate::time;
use crate::time::calendar;
use vstd::prelude::*;

verus! {

/// The decimal texts of a track point. A text counts only where the row has what
/// it stands for.
#[derive(Debug)]
pub struct PointTexts {
    /// The time in microseconds.
    pub micros: i64,
    /// The time in seconds, with three decimals.
    pub t: String,
    /// With seven decimals.
    pub latitude: String,
    pub longitude: String,
    /// With two decimals.
    pub altitude: String,
    /// With three decimals.
    pub speed: String,
    /// With two decimals.
    pub heading: String,
    pub distance: String,
    /// With four decimals.
    pub combined: String,
    pub lateral: String,
    pub longitudinal: String,
    pub vertical: String,
}

/// The text of the moment of a time.
pub open spec fn moment_text(t: Telemetry, micros: int) -> Option<Seq<char>> {
    match process::best_moment(t.info@, micros) {
        Some(m) => Some(calendar::written(m, "%Y-%m-%dT%H:%M:%S%.3fZ"@)),
        None => None,
    }
}

/// The moment of a time in text. Without the UTC offset it is the camera's
/// clock, labelled as UTC.
pub fn iso_time(telemetry: &Telemetry, micros: i64) -> (r: Option<String>)
    ensures
        match r {
            Some(s) => moment_text(*telemetry, micros as int) == Some(s@),
            None => moment_text(*telemetry, micros as int) is None,
        },
{
    match telemetry.best_time(micros) {
        Some(dt) => Some(dt.format("%Y-%m-%dT%H:%M:%S%.3fZ")),
        None => None,
    }
}

/// An element around a text, if there is one.
pub open spec fn element(open: Seq<char>, content: Option<Seq<char>>, close: Seq<char>) -> Seq<
    char,
> {
    match content {
        Some(c) => open + c + close,
        None => Seq::empty(),
    }
}

/// The text of a number, if there is one.
pub open spec fn number(v: Option<Binary64>, text: Seq<char>) -> Option<Seq<char>> {
    match v {
        Some(v) => Some(super::num_text(v, text)),
        None => None,
    }
}

/// The extensions of a track point.
pub open spec fn extensions(r: Row, x: PointTexts) -> Seq<char> {
    "        <extensions>\n"@ + "          <elapsed_time>"@ + super::num_text(r.t, x.t@)
        + "</elapsed_time>\n"@ + element(
        "          <speed>"@,
        number(r.speed_ms, x.speed@),
        "</speed>\n"@,
    ) + element("          <heading>"@, number(r.heading_deg, x.heading@), "</heading>\n"@)
        + element("          <distance>"@, number(r.distance_m, x.distance@), "</distance>\n"@)
        + element("          <g_force>"@, number(r.combined, x.combined@), "</g_force>\n"@)
        + element("          <lateral_g>"@, number(r.lateral, x.lateral@), "</lateral_g>\n"@)
        + element(
        "          <longitudinal_g>"@,
        number(r.longitudinal, x.longitudinal@),
        "</longitudinal_g>\n"@,
    ) + element("          <vertical_g>"@, number(r.vertical, x.vertical@), "</vertical_g>\n"@)
        + "        </extensions>\n"@
}

/// A track point.
pub open spec fn point(t: Telemetry, r: Row, x: PointTexts) -> Seq<char> {
    "      <trkpt lat=\""@ + super::opt_text(r.latitude, x.latitude@) + "\" lon=\""@
        + super::opt_text(r.longitude, x.longitude@) + "\">\n"@ + element(
        "        <ele>"@,
        number(r.altitude_m, x.altitude@),
        "</ele>\n"@,
    ) + element("        <time>"@, moment_text(t, x.micros as int), "</time>\n"@) + extensions(r, x)
        + "      </trkpt>\n"@
}

/// The track points of the first `n` rows: one for each row with a position.
pub open spec fn points(t: Telemetry, texts: Seq<PointTexts>, n: nat) -> Seq<char>
    decreases n,
{
    if n == 0 {
        Seq::empty()
    } else {
        points(t, texts, (n - 1) as nat) + if process::located(t.rows@[n - 1]) {
            point(t, t.rows@[n - 1], texts[n - 1])
        } else {
            Seq::empty()
        }
    }
}

/// What stands before the track points.
pub open spec fn preamble(t: Telemetry, name: Seq<char>) -> Seq<char> {
    "<?xml version=\"1.0\" encoding=\"UTF-8\"?>\n"@ + "<gpx version=\"1.1\" creator=\""@
        + super::APP_NAME@ + " "@ + super::APP_VERSION@
        + "\" xmlns=\"http://www.topografix.com/GPX/1/1\" xmlns:xsi=\"http://www.w3.org/2001/XMLSchema-instance\" xsi:schemaLocation=\"http://www.topografix.com/GPX/1/1 http://www.topografix.com/GPX/1/1/gpx.xsd\">\n"@
        + "  <metadata>\n"@ + "    <name>"@ + name + "</name>\n"@ + element(
        "    <time>"@,
        moment_text(t, 0),
        "</time>\n"@,
    ) + "  </metadata>\n  <trk>\n"@ + "    <name>"@ + name + "</name>\n"@ + element(
        "    <src>"@,
        match t.info@.model {
            Some(m) => Some(super::escaped(m)),
            None => None,
        },
        "</src>\n"@,
    ) + "    <trkseg>\n"@
}

/// The file.
pub open spec fn content(t: Telemetry, source: Seq<char>, texts: Seq<PointTexts>) -> Seq<char> {
    preamble(t, super::escaped(text::base_name(source))) + points(t, texts, t.rows@.len())
        + "    </trkseg>\n  </trk>\n</gpx>\n"@
}

fn add_element(out: &mut String, open: &str, content: &str, close: &str)
    ensures
        final(out)@ == old(out)@ + element(open@, Some(content@), close@),
{
    out.append(open);
    out.append(content);
    out.append(close);
    assert(out@ =~= old(out)@ + element(open@, Some(content@), close@));
}

fn add_number(out: &mut String, open: &str, v: Option<Binary64>, text: &str, close: &str)
    ensures
        final(out)@ == old(out)@ + element(open@, number(v, text@), close@),
{
    match v {
        Some(v) => {
            add_element(out, open, num(v, text).as_str(), close);
        },
        None => {
            assert(out@ =~= old(out)@ + Seq::<char>::empty());
        },
    }
}

fn add_text(out: &mut String, open: &str, content: &Option<String>, close: &str)
    ensures
        final(out)@ == old(out)@ + element(open@, dji::chars(*content), close@),
{
    match content {
        Some(c) => {
            add_element(out, open, c.as_str(), close);
        },
        None => {
            assert(out@ =~= old(out)@ + Seq::<char>::empty());
        },
    }
}

fn extensions_text(r: &Row, x: &PointTexts) -> (out: String)
    ensures
        out@ == extensions(*r, *x),
{
    let mut out: String = String::from_str("        <extensions>\n");
    out.append("          <elapsed_time>");
    out.append(num(r.t, x.t.as_str()).as_str());
    out.append("</elapsed_time>\n");
    add_number(&mut out, "          <speed>", r.speed_ms, x.speed.as_str(), "</speed>\n");
    add_number(&mut out, "          <heading>", r.heading_deg, x.heading.as_str(), "</heading>\n");
    add_number(
        &mut out,
        "          <distance>",
        r.distance_m,
        x.distance.as_str(),
        "</distance>\n",
    );
    add_number(&mut out, "          <g_force>", r.combined, x.combined.as_str(), "</g_force>\n");
    add_number(
        &mut out,
        "          <lateral_g>",
        r.lateral,
        x.lateral.as_str(),
        "</lateral_g>\n",
    );
    add_number(
        &mut out,
        "          <longitudinal_g>",
        r.longitudinal,
        x.longitudinal.as_str(),
        "</longitudinal_g>\n",
    );
    add_number(
        &mut out,
        "          <vertical_g>",
        r.vertical,
        x.vertical.as_str(),
        "</vertical_g>\n",
    );
    out.append("        </extensions>\n");
    out
}

fn point_text(telemetry: &Telemetry, r: &Row, x: &PointTexts) -> (out: String)
    ensures
        out@ == point(*telemetry, *r, *x),
{
    let mut out: String = String::from_str("      <trkpt lat=\"");
    out.append(super::opt(r.latitude, x.latitude.as_str()).as_str());
    out.append("\" lon=\"");
    out.append(super::opt(r.longitude, x.longitude.as_str()).as_str());
    out.append("\">\n");
    add_number(&mut out, "        <ele>", r.altitude_m, x.altitude.as_str(), "</ele>\n");
    let when: Option<String> = iso_time(telemetry, x.micros);
    assert(dji::chars(when) == moment_text(*telemetry, x.micros as int));
    add_text(&mut out, "        <time>", &when, "</time>\n");
    out.append(extensions_text(r, x).as_str());
    out.append("      </trkpt>\n");
    out
}

fn preamble_text(telemetry: &Telemetry, name: &str) -> (out: String)
    ensures
        out@ == preamble(*telemetry, name@),
{
    let mut out: String = String::from_str("<?xml version=\"1.0\" encoding=\"UTF-8\"?>\n");
    out.append("<gpx version=\"1.1\" creator=\"");
    out.append(super::APP_NAME);
    out.append(" ");
    out.append(super::APP_VERSION);
    out.append(
        "\" xmlns=\"http://www.topografix.com/GPX/1/1\" xmlns:xsi=\"http://www.w3.org/2001/XMLSchema-instance\" xsi:schemaLocation=\"http://www.topografix.com/GPX/1/1 http://www.topografix.com/GPX/1/1/gpx.xsd\">\n",
    );
    out.append("  <metadata>\n");
    out.append("    <name>");
    out.append(name);
    out.append("</name>\n");
    let when: Option<String> = iso_time(telemetry, 0);
    assert(dji::chars(when) == moment_text(*telemetry, 0));
    add_text(&mut out, "    <time>", &when, "</time>\n");
    out.append("  </metadata>\n  <trk>\n");
    out.append("    <name>");
    out.append(name);
    out.append("</name>\n");
    let model: Option<String> = match &telemetry.info.model {
        Some(m) => Some(xml_escape(m.as_str())),
        None => None,
    };
    assert(dji::chars(model) == match telemetry.info@.model {
        Some(m) => Some(super::escaped(m)),
        None => None,
    });
    add_text(&mut out, "    <src>", &model, "</src>\n");
    out.append("    <trkseg>\n");
    out
}

/// Writes a track with a point for each row that has a position. `texts` holds
/// the texts of each row.
pub fn render(telemetry: &Telemetry, source_name: &str, texts: &[PointTexts]) -> (r: String)
    requires
        telemetry.rows@.len() == texts@.len(),
    ensures
        r@ == content(*telemetry, source_name@, texts@),
{
    let name: String = xml_escape(super::base_name(source_name).as_str());
    let mut out: String = preamble_text(telemetry, name.as_str());
    let ghost head = out@;
    let mut i: usize = 0;
    assert(out@ =~= head + points(*telemetry, texts@, 0));
    while i < telemetry.rows.len()
        invariant
            i <= telemetry.rows@.len(),
            telemetry.rows@.len() == texts@.len(),
            out@ == head + points(*telemetry, texts@, i as nat),
        decreases telemetry.rows@.len() - i,
    {
        if telemetry.rows[i].has_gps() {
            out.append(point_text(telemetry, &telemetry.rows[i], &texts[i]).as_str());
        }
        i = i + 1;
        assert(out@ =~= head + points(*telemetry, texts@, i as nat));
    }
    out.append("    </trkseg>\n  </trk>\n</gpx>\n");
    out
}

} // verus!
