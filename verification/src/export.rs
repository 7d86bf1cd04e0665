//! Output formats and the rules that decide when each one makes sense.

use crate::dji::ClipFacts;
use crate::ieee::Binary64;
use crate::process;
use crate::process::{ExportRate, Means, Row, Telemetry};
use crate::text;
use vstd::prelude::*;
use vstd::utf8::encode_utf8;

pub mod csv;
pub mod fit;
pub mod gpx;
pub mod igc;
pub mod laws;
pub mod srt;
pub mod vbo;

verus! {

pub const APP_NAME: &'static str = "dji-telemetry-export";

pub const APP_VERSION: &'static str = "0.1.0";

/// An output format.
#[derive(Debug, Clone, Copy, PartialEq, Eq, Hash, Structural)]
pub enum Format {
    Csv,
    Srt,
    Vbo,
    Gpx,
    Fit,
    Igc,
}

impl Format {
    /// All formats.
    pub const ALL: [Format; 6] = [
        Format::Csv,
        Format::Srt,
        Format::Vbo,
        Format::Gpx,
        Format::Fit,
        Format::Igc,
    ];

    /// The extension of a format's files.
    pub open spec fn suffix(self) -> Seq<char> {
        match self {
            Format::Csv => "csv"@,
            Format::Srt => "srt"@,
            Format::Vbo => "vbo"@,
            Format::Gpx => "gpx"@,
            Format::Fit => "fit"@,
            Format::Igc => "igc"@,
        }
    }

    /// The extension of the format's files.
    pub fn extension(self) -> (r: &'static str)
        ensures
            r@ == self.suffix(),
    {
        match self {
            Format::Csv => "csv",
            Format::Srt => "srt",
            Format::Vbo => "vbo",
            Format::Gpx => "gpx",
            Format::Fit => "fit",
            Format::Igc => "igc",
        }
    }

    /// The name of a format.
    pub open spec fn text(self) -> Seq<char> {
        match self {
            Format::Csv => "CSV"@,
            Format::Srt => "SRT"@,
            Format::Vbo => "VBO"@,
            Format::Gpx => "GPX"@,
            Format::Fit => "FIT"@,
            Format::Igc => "IGC"@,
        }
    }

    /// The name of the format.
    pub fn label(self) -> (r: &'static str)
        ensures
            r@ == self.text(),
    {
        match self {
            Format::Csv => "CSV",
            Format::Srt => "SRT",
            Format::Vbo => "VBO",
            Format::Gpx => "GPX",
            Format::Fit => "FIT",
            Format::Igc => "IGC",
        }
    }

    /// The description of a format.
    pub open spec fn about(self) -> Seq<char> {
        match self {
            Format::Csv =>
                "OVRLEY-compatible CSV: elapsed time, lateral / longitudinal / vertical G, orientation, exposure and GPS columns"@,
            Format::Srt => "DJI-style subtitle telemetry (exposure + GPS per frame)"@,
            Format::Vbo => "Racelogic VBO text (RaceBox layout): time, GPS, G channels"@,
            Format::Gpx => "GPX 1.1 track with speed / heading / g-force extensions"@,
            Format::Fit =>
                "Garmin FIT activity (record messages at 1 Hz — FIT timestamps are whole seconds)"@,
            Format::Igc => "IGC flight log (B records at 1 Hz with GSP / TRT extensions)"@,
        }
    }

    /// What the format holds, in words.
    pub fn description(self) -> (r: &'static str)
        ensures
            r@ == self.about(),
    {
        match self {
            Format::Csv =>
                "OVRLEY-compatible CSV: elapsed time, lateral / longitudinal / vertical G, orientation, exposure and GPS columns",
            Format::Srt => "DJI-style subtitle telemetry (exposure + GPS per frame)",
            Format::Vbo => "Racelogic VBO text (RaceBox layout): time, GPS, G channels",
            Format::Gpx => "GPX 1.1 track with speed / heading / g-force extensions",
            Format::Fit =>
                "Garmin FIT activity (record messages at 1 Hz — FIT timestamps are whole seconds)",
            Format::Igc => "IGC flight log (B records at 1 Hz with GSP / TRT extensions)",
        }
    }

    /// Whether a format carries nothing useful without a GPS position.
    pub open spec fn positional(self) -> bool {
        self == Format::Gpx || self == Format::Fit || self == Format::Igc
    }

    /// Formats that carry nothing useful without a GPS position.
    pub fn requires_gps(self) -> (r: bool)
        ensures
            r == self.positional(),
    {
        match self {
            Format::Gpx | Format::Fit | Format::Igc => true,
            _ => false,
        }
    }

    /// The rate of a format that leaves it open: 10 rows per second for GPX, 1
    /// for FIT and IGC.
    pub open spec fn usual_rate(self) -> ExportRate {
        match self {
            Format::Gpx => ExportRate::Hz(Binary64 { bits: 0x4024_0000_0000_0000 }),
            Format::Fit | Format::Igc => ExportRate::Hz(Binary64 { bits: 0x3ff0_0000_0000_0000 }),
            _ => ExportRate::Native,
        }
    }

    /// Rate used when the user leaves the export rate on "native".
    pub fn default_rate(self) -> (r: ExportRate)
        ensures
            r == self.usual_rate(),
    {
        match self {
            Format::Csv | Format::Srt | Format::Vbo => ExportRate::Native,
            Format::Gpx => ExportRate::Hz(Binary64 { bits: 0x4024_0000_0000_0000 }),
            Format::Fit | Format::Igc => ExportRate::Hz(Binary64 { bits: 0x3ff0_0000_0000_0000 }),
        }
    }

    /// The highest rate of a format: 1 row per second for FIT and IGC.
    pub open spec fn top_rate(self) -> Option<Binary64> {
        match self {
            Format::Fit | Format::Igc => Some(Binary64 { bits: 0x3ff0_0000_0000_0000 }),
            _ => None,
        }
    }

    /// Hard upper bound imposed by the format itself.
    pub fn max_rate(self) -> (r: Option<Binary64>)
        ensures
            r == self.top_rate(),
    {
        match self {
            Format::Fit | Format::Igc => Some(Binary64 { bits: 0x3ff0_0000_0000_0000 }),
            _ => None,
        }
    }

    /// The format with an extension in lower case.
    pub open spec fn named(s: Seq<char>) -> Option<Format> {
        if s == "csv"@ {
            Some(Format::Csv)
        } else if s == "srt"@ {
            Some(Format::Srt)
        } else if s == "vbo"@ {
            Some(Format::Vbo)
        } else if s == "gpx"@ {
            Some(Format::Gpx)
        } else if s == "fit"@ {
            Some(Format::Fit)
        } else if s == "igc"@ {
            Some(Format::Igc)
        } else {
            None
        }
    }

    /// The format that a text names, in upper or lower case and with white space
    /// around it.
    pub open spec fn read(s: Seq<char>) -> Option<Format> {
        Self::named(text::lowered(text::trimmed(s)))
    }

    /// Reads a format from characters.
    pub fn parse_chars(s: &[char]) -> (r: Option<Self>)
        ensures
            r == Self::read(s@),
    {
        let c: Vec<char> = text::to_lower(text::trim(s));
        let c: &[char] = c.as_slice();
        if text::is(c, "csv") {
            Some(Format::Csv)
        } else if text::is(c, "srt") {
            Some(Format::Srt)
        } else if text::is(c, "vbo") {
            Some(Format::Vbo)
        } else if text::is(c, "gpx") {
            Some(Format::Gpx)
        } else if text::is(c, "fit") {
            Some(Format::Fit)
        } else if text::is(c, "igc") {
            Some(Format::Igc)
        } else {
            None
        }
    }

    /// Reads a format.
    pub fn parse(s: &str) -> (r: Option<Self>)
        ensures
            r == Self::read(s@),
    {
        let c: Vec<char> = text::chars_of(s);
        Self::parse_chars(c.as_slice())
    }
}

/// The extensions and the names of the formats are read as the formats.
pub proof fn format_names_parse(f: Format)
    ensures
        Format::read(f.suffix()) == Some(f),
        Format::read(f.text()) == Some(f),
{
    reveal_strlit("csv");
    reveal_strlit("srt");
    reveal_strlit("vbo");
    reveal_strlit("gpx");
    reveal_strlit("fit");
    reveal_strlit("igc");
    reveal_strlit("CSV");
    reveal_strlit("SRT");
    reveal_strlit("VBO");
    reveal_strlit("GPX");
    reveal_strlit("FIT");
    reveal_strlit("IGC");
    assert(text::lowered(text::trimmed(f.suffix())) =~= f.suffix());
    assert(text::lowered(text::trimmed(f.text())) =~= f.suffix());
    assert("csv"@[0] == 'c' && "srt"@[0] == 's' && "vbo"@[0] == 'v' && "gpx"@[0] == 'g'
        && "fit"@[0] == 'f' && "igc"@[0] == 'i');
}

/// Per-export toggles that do not change the processed telemetry itself.
#[derive(Debug, Clone, Copy, PartialEq, Eq, Structural)]
pub struct ExportOptions {
    /// Write raw body-frame X/Y/Z (gravity included) columns to CSV.
    pub include_raw_axes: bool,
    /// Write camera roll / pitch / yaw columns to CSV.
    pub include_orientation: bool,
    /// Write ISO / shutter / colour temperature columns to CSV.
    pub include_exposure: bool,
    /// Duplicate camera roll into an OVRLEY `Lean angle (deg)` column.
    /// Off by default: OVRLEY back-fills lateral G from lean angle.
    pub lean_angle_from_roll: bool,
    /// Rate override; `Native` means "use each format's default".
    pub rate: ExportRate,
}

/// Orientation and exposure columns, at the rate of each format.
pub open spec fn default_options() -> ExportOptions {
    ExportOptions {
        include_raw_axes: false,
        include_orientation: true,
        include_exposure: true,
        lean_angle_from_roll: false,
        rate: ExportRate::Native,
    }
}

impl Default for ExportOptions {
    fn default() -> (r: Self)
        ensures
            r == default_options(),
    {
        ExportOptions {
            include_raw_axes: false,
            include_orientation: true,
            include_exposure: true,
            lean_angle_from_roll: false,
            rate: ExportRate::Native,
        }
    }
}

/// Whether a row has an exposure value.
pub open spec fn exposed(r: Row) -> bool {
    r.iso is Some || r.shutter is Some || r.color_temperature is Some
}

/// Whether a row among others has an exposure value.
pub open spec fn any_exposed(rows: Seq<Row>) -> bool {
    exists|i: int| 0 <= i < rows.len() && exposed(#[trigger] rows[i])
}

/// Whether any row has an exposure value.
pub fn has_exposure(rows: &[Row]) -> (r: bool)
    ensures
        r == any_exposed(rows@),
{
    let mut i: usize = 0;
    while i < rows.len()
        invariant
            i <= rows@.len(),
            forall|j: int| 0 <= j < i ==> !exposed(#[trigger] rows@[j]),
        decreases rows@.len() - i,
    {
        if rows[i].iso.is_some() || rows[i].shutter.is_some() || rows[i].color_temperature.is_some() {
            assert(exposed(rows@[i as int]));
            return true;
        }
        i = i + 1;
    }
    false
}

/// Why a clip has too few positions for a format.
pub open spec fn position_reason(label: Seq<char>, info: ClipFacts) -> Seq<char> {
    let total = info.sample_count;
    let invalid = info.gps_status_counts.1;
    match info.remote_name {
        None =>
            "No GPS data in this clip — no GPS remote (AC004) was connected. "@ + label
            + " needs at least two GPS fixes."@,
        Some(remote) => if invalid == total && total > 0 {
            "No GPS fix in this clip — "@ + remote + " reported GPS_INVALID in "@ + text::decimal(
                invalid as nat,
            ) + "/"@ + text::decimal(total as nat) + " samples. "@ + label
                + " needs at least two GPS fixes."@
        } else {
            "Only "@ + text::decimal(info.gps_fix_count as nat) + " GPS fix(es) in "@
                + text::decimal(total as nat) + " samples. "@ + label
                + " needs at least two GPS fixes."@
        },
    }
}

/// Why a format cannot be produced, if it cannot.
pub open spec fn obstacle(format: Format, t: Telemetry) -> Option<Seq<char>> {
    if format.positional() && t.gps_rows < 2 {
        Some(position_reason(format.text(), t.info@))
    } else if format == Format::Srt && !any_exposed(t.rows@) && t.gps_rows < 2 {
        Some("SRT carries exposure and GPS data only, and this clip has neither."@)
    } else if (format == Format::Csv || format == Format::Vbo) && t.rows@.len() < 2 {
        Some("Fewer than two telemetry samples."@)
    } else {
        None
    }
}

fn explain(label: &str, t: &Telemetry) -> (r: String)
    ensures
        r@ == position_reason(label@, t.info@),
{
    let total: usize = t.info.sample_count;
    let invalid: usize = t.info.gps_status_counts[1];
    let mut out: String;
    match &t.info.remote_name {
        None => {
            out = String::from_str(
                "No GPS data in this clip — no GPS remote (AC004) was connected. ",
            );
        },
        Some(remote) => {
            if invalid == total && total > 0 {
                out = String::from_str("No GPS fix in this clip — ");
                out.append(remote.as_str());
                out.append(" reported GPS_INVALID in ");
                out.append(text::decimal_text(invalid as u64).as_str());
                out.append("/");
                out.append(text::decimal_text(total as u64).as_str());
                out.append(" samples. ");
            } else {
                out = String::from_str("Only ");
                out.append(text::decimal_text(t.info.gps_fix_count as u64).as_str());
                out.append(" GPS fix(es) in ");
                out.append(text::decimal_text(total as u64).as_str());
                out.append(" samples. ");
            }
        },
    }
    out.append(label);
    out.append(" needs at least two GPS fixes.");
    out
}

/// Explains why a format cannot be produced from this telemetry, if it cannot.
pub fn availability(format: Format, telemetry: &Telemetry) -> (r: Result<(), String>)
    ensures
        match r {
            Ok(_) => obstacle(format, *telemetry) is None,
            Err(reason) => obstacle(format, *telemetry) == Some(reason@),
        },
{
    if format.requires_gps() && !telemetry.has_gps() {
        return Err(explain(format.label(), telemetry));
    }
    match format {
        Format::Srt => {
            if !has_exposure(telemetry.rows.as_slice()) && !telemetry.has_gps() {
                return Err(
                    String::from_str(
                        "SRT carries exposure and GPS data only, and this clip has neither.",
                    ),
                );
            }
        },
        Format::Csv | Format::Vbo => {
            if telemetry.rows.len() < 2 {
                return Err(String::from_str("Fewer than two telemetry samples."));
            }
        },
        _ => {},
    }
    Ok(())
}

/// The rate of a format for the rate that was asked for: the format's own where
/// it was left open, and never more than the format allows.
pub open spec fn rate_for(format: Format, requested: ExportRate) -> ExportRate {
    let rate = match requested {
        ExportRate::Native => format.usual_rate(),
        other => other,
    };
    match (rate, format.top_rate()) {
        (ExportRate::Native, Some(max)) => ExportRate::Hz(max),
        (ExportRate::Hz(hz), Some(max)) => if max.below(hz) {
            ExportRate::Hz(max)
        } else {
            ExportRate::Hz(hz)
        },
        (r, None) => r,
    }
}

/// Effective rate for a format given the user's choice.
pub fn effective_rate(format: Format, requested: ExportRate) -> (r: ExportRate)
    ensures
        r == rate_for(format, requested),
{
    let rate: ExportRate = match requested {
        ExportRate::Native => format.default_rate(),
        other => other,
    };
    match (rate, format.max_rate()) {
        (ExportRate::Native, Some(max)) => ExportRate::Hz(max),
        (ExportRate::Hz(hz), Some(max)) => if max.lt(hz) {
            ExportRate::Hz(max)
        } else {
            ExportRate::Hz(hz)
        },
        (r, None) => r,
    }
}

/// A format's rate never exceeds what the format allows.
pub proof fn rates_are_bounded(format: Format, requested: ExportRate)
    ensures
        format.top_rate() matches Some(max) ==> rate_for(format, requested) matches ExportRate::Hz(
            hz,
        ) && !max.below(hz),
{
}

/// Why a file was not written.
#[derive(Debug)]
pub enum ExportError {
    /// The format does not suit the clip.
    Unavailable(String),
}

impl ExportError {
    /// The reason in words.
    pub fn message(&self) -> (r: String)
        ensures
            self matches ExportError::Unavailable(reason) && r@ == reason@,
    {
        match self {
            ExportError::Unavailable(reason) => String::from_str(reason.as_str()),
        }
    }
}

/// Whether rows are merged for the rate of a format.
pub fn is_merged(format: Format, options: &ExportOptions) -> (r: bool)
    ensures
        r == process::merges(rate_for(format, options.rate)),
{
    effective_rate(format, options.rate).merging().is_some()
}

/// Telemetry resampled for a specific format. `bins` holds the number of the
/// interval of the format's rate that each row falls in, and `means` the averages
/// over each interval; neither counts where rows are kept.
pub fn resampled(
    telemetry: Telemetry,
    format: Format,
    options: &ExportOptions,
    bins: &[i64],
    means: &[Means],
) -> (r: Telemetry)
    requires
        process::merges(rate_for(format, options.rate)) ==> bins@.len() == telemetry.rows@.len()
            && means@.len() == process::starts(bins@).len(),
    ensures
        if process::merges(rate_for(format, options.rate)) {
            &&& r.rows@ == process::decimated(telemetry.rows@, bins@, means@)
            &&& r.wf()
            &&& process::differ_in_rows(r, telemetry)
        } else {
            r == telemetry
        },
{
    if is_merged(format, options) {
        let rows: Vec<Row> = process::decimate(telemetry.rows.as_slice(), bins, means);
        telemetry.with_rows(rows)
    } else {
        telemetry
    }
}

/// What a format writes of the rows: their numbers in text or in its own units.
pub enum Numbers<'a> {
    Csv(&'a [csv::RowTexts]),
    /// With the time at which the last cue ends, in milliseconds.
    Srt(&'a [srt::CueTexts], u64),
    Vbo(&'a [vbo::RowTexts]),
    Gpx(&'a [gpx::PointTexts]),
    Fit(&'a [fit::Quantities]),
    Igc(&'a [igc::RecordNumbers]),
}

impl<'a> Numbers<'a> {
    /// The format.
    pub open spec fn kind(self) -> Format {
        match self {
            Numbers::Csv(_) => Format::Csv,
            Numbers::Srt(..) => Format::Srt,
            Numbers::Vbo(_) => Format::Vbo,
            Numbers::Gpx(_) => Format::Gpx,
            Numbers::Fit(_) => Format::Fit,
            Numbers::Igc(_) => Format::Igc,
        }
    }

    /// How many rows the numbers are of.
    pub open spec fn count(self) -> nat {
        match self {
            Numbers::Csv(x) => x@.len(),
            Numbers::Srt(x, _) => x@.len(),
            Numbers::Vbo(x) => x@.len(),
            Numbers::Gpx(x) => x@.len(),
            Numbers::Fit(x) => x@.len(),
            Numbers::Igc(x) => x@.len(),
        }
    }

    /// The format that the numbers are for.
    pub fn format(&self) -> (r: Format)
        ensures
            r == self.kind(),
    {
        match self {
            Numbers::Csv(_) => Format::Csv,
            Numbers::Srt(..) => Format::Srt,
            Numbers::Vbo(_) => Format::Vbo,
            Numbers::Gpx(_) => Format::Gpx,
            Numbers::Fit(_) => Format::Fit,
            Numbers::Igc(_) => Format::Igc,
        }
    }
}

/// The bytes of a file. All formats but FIT are UTF-8 text.
pub open spec fn file_content(t: Telemetry, o: ExportOptions, source: Seq<char>, n: Numbers) -> Seq<
    u8,
> {
    match n {
        Numbers::Csv(x) => encode_utf8(csv::content(t, o, x@)),
        Numbers::Srt(x, end) => encode_utf8(srt::cues(t, x@, end, t.rows@.len())),
        Numbers::Vbo(x) => encode_utf8(vbo::content(t, source, x@)),
        Numbers::Gpx(x) => encode_utf8(gpx::content(t, source, x@)),
        Numbers::Fit(x) => fit::file_bytes(fit::body_bytes(t, x@)),
        Numbers::Igc(x) => encode_utf8(igc::content(t, source, x@)),
    }
}

fn bytes_of(s: String) -> (r: Vec<u8>)
    ensures
        r@ == encode_utf8(s@),
{
    let b: &[u8] = s.as_str().as_bytes();
    vstd::slice::slice_to_vec(b)
}

/// Renders one format to bytes. `telemetry` decides whether the format suits the
/// clip; what is written is `resampled`, with `numbers` for each of its rows.
pub fn render(
    telemetry: &Telemetry,
    resampled: &Telemetry,
    options: &ExportOptions,
    source_name: &str,
    numbers: &Numbers,
) -> (r: Result<Vec<u8>, ExportError>)
    requires
        numbers.count() == resampled.rows@.len(),
    ensures
        match r {
            Ok(b) => obstacle(numbers.kind(), *telemetry) is None && b@ == file_content(
                *resampled,
                *options,
                source_name@,
                *numbers,
            ),
            Err(ExportError::Unavailable(reason)) => obstacle(numbers.kind(), *telemetry) == Some(
                reason@,
            ),
        },
{
    match availability(numbers.format(), telemetry) {
        Ok(_) => {},
        Err(reason) => {
            return Err(ExportError::Unavailable(reason));
        },
    }
    Ok(
        match numbers {
            Numbers::Csv(x) => bytes_of(csv::render(resampled, options, x)),
            Numbers::Srt(x, end) => bytes_of(srt::render(resampled, x, *end)),
            Numbers::Vbo(x) => bytes_of(vbo::render(resampled, source_name, x)),
            Numbers::Gpx(x) => bytes_of(gpx::render(resampled, source_name, x)),
            Numbers::Fit(x) => fit::render(resampled, x),
            Numbers::Igc(x) => bytes_of(igc::render(resampled, source_name, x)),
        },
    )
}

/// Summary of one written file.
#[derive(Debug)]
pub struct Written {
    pub format: Format,
    pub path: String,
    pub rows: usize,
    pub bytes: usize,
}

/// The name of an exported file.
pub fn file_name(stem: &str, format: Format) -> (r: String)
    ensures
        r@ == stem@ + "."@ + format.suffix(),
{
    let mut out: String = String::from_str(stem);
    out.append(".");
    out.append(format.extension());
    out
}

/// The text of a number: empty where it is not finite.
pub open spec fn num_text(v: Binary64, text: Seq<char>) -> Seq<char> {
    if v.finite() {
        text
    } else {
        Seq::empty()
    }
}

/// The text of a number that may be missing: empty where it is.
pub open spec fn opt_text(v: Option<Binary64>, text: Seq<char>) -> Seq<char> {
    match v {
        Some(v) => num_text(v, text),
        None => Seq::empty(),
    }
}

/// The text of a number, `text` being its decimal text: empty for a number that
/// is not finite.
pub fn num(v: Binary64, text: &str) -> (r: String)
    ensures
        r@ == num_text(v, text@),
{
    if v.is_finite() {
        String::from_str(text)
    } else {
        String::new()
    }
}

/// The text of a number that may be missing.
pub fn opt(v: Option<Binary64>, text: &str) -> (r: String)
    ensures
        r@ == opt_text(v, text@),
{
    match v {
        Some(v) => num(v, text),
        None => String::new(),
    }
}

/// A character of a text in XML.
pub open spec fn escaped_char(c: char) -> Seq<char> {
    if c == '&' {
        "&amp;"@
    } else if c == '<' {
        "&lt;"@
    } else if c == '>' {
        "&gt;"@
    } else if c == '"' {
        "&quot;"@
    } else if c == '\'' {
        "&apos;"@
    } else {
        seq![c]
    }
}

/// A text in XML.
pub open spec fn escaped(s: Seq<char>) -> Seq<char>
    decreases s.len(),
{
    if s.len() == 0 {
        Seq::empty()
    } else {
        escaped(s.drop_last()) + escaped_char(s.last())
    }
}

/// Escapes a text for XML.
pub fn xml_escape(s: &str) -> (r: String)
    ensures
        r@ == escaped(s@),
{
    let c: Vec<char> = text::chars_of(s);
    let mut out: String = String::new();
    let mut i: usize = 0;
    while i < c.len()
        invariant
            i <= c@.len(),
            out@ == escaped(c@.take(i as int)),
        decreases c@.len() - i,
    {
        proof {
            assert(c@.take(i + 1).drop_last() =~= c@.take(i as int));
            assert(c@.take(i + 1).last() == c@[i as int]);
        }
        let ghost before = out@;
        match c[i] {
            '&' => out.append("&amp;"),
            '<' => out.append("&lt;"),
            '>' => out.append("&gt;"),
            '"' => out.append("&quot;"),
            '\'' => out.append("&apos;"),
            other => {
                out.push(other);
                assert(out@ =~= before + seq![other]);
            },
        }
        i = i + 1;
    }
    assert(c@.take(i as int) =~= c@);
    out
}

/// An escaped text holds no markup: neither angle brackets nor quotes.
pub proof fn escaped_has_no_markup(s: Seq<char>, i: int)
    requires
        0 <= i < escaped(s).len(),
    ensures
        escaped(s)[i] != '<' && escaped(s)[i] != '>' && escaped(s)[i] != '"' && escaped(s)[i]
            != '\'',
    decreases s.len(),
{
    reveal_strlit("&amp;");
    reveal_strlit("&lt;");
    reveal_strlit("&gt;");
    reveal_strlit("&quot;");
    reveal_strlit("&apos;");
    let before = escaped(s.drop_last());
    if i < before.len() {
        escaped_has_no_markup(s.drop_last(), i);
    } else {
        assert(escaped(s)[i] == escaped_char(s.last())[i - before.len()]);
    }
}

/// The name of a file without its folders.
pub fn base_name(path: &str) -> (r: String)
    ensures
        r@ == text::base_name(path@),
{
    let c: Vec<char> = text::chars_of(path);
    text::text_of(text::base_of(c.as_slice()))
}

} // verus!
