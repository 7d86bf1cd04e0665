//! The command line: what its options mean, and the summary of a clip.

use crate::export;
use crate::export::{ExportOptions, Format, Written};
use crate::ieee::Binary64;
use crate::process;
use crate::process::{
    AccelUnit, AxisMap, ExportRate, GravityMode, ProcessOptions, Telemetry, Vector64,
};
use crate::text;
use vstd::prelude::*;

pub mod laws;
pub mod summary;

pub use summary::{summary_json, summary_lines};

verus! {

/// The options that the processing and the export of a clip depend on.
#[derive(Debug)]
pub struct Args {
    /// Gravity removal: quat (attitude quaternion), highpass, none.
    pub gravity: String,
    /// Moving-average window in seconds for `--gravity highpass`.
    pub highpass_window: Binary64,
    /// Body axis mapping: "auto", "xyz" (lateral, longitudinal, vertical) or
    /// lateral=x,longitudinal=y,vertical=z.
    pub axes: String,
    /// Invert the sign of these vehicle axes: lateral,longitudinal,vertical.
    pub invert: String,
    /// Keep the camera's own pitch / roll instead of levelling to the vehicle.
    pub no_level: bool,
    /// Export rate: native, or a value in Hz.
    pub rate: String,
    /// Accelerometer unit override: g, ms2, mg.
    pub unit: Option<String>,
    /// Also write raw body-frame X/Y/Z columns (CSV).
    pub raw_axes: bool,
    /// Omit camera roll/pitch/yaw columns (CSV).
    pub no_orientation: bool,
    /// Omit ISO / shutter / colour temperature columns (CSV).
    pub no_exposure: bool,
    /// Write camera roll as an OVRLEY "Lean angle" column (CSV).
    pub lean_angle: bool,
}

/// The formats after one more part of a list; an error text when the part is not
/// a format. Blank parts change nothing, and a format counts once.
pub open spec fn with_format(chosen: Seq<Format>, part: Seq<char>) -> Result<
    Seq<Format>,
    Seq<char>,
> {
    let word = text::trimmed(part);
    if word.len() == 0 {
        Ok(chosen)
    } else {
        match Format::read(word) {
            None => Err(
                "unknown format '"@ + word + "' (expected csv, srt, vbo, gpx, fit, igc)"@,
            ),
            Some(f) => if chosen.contains(f) {
                Ok(chosen)
            } else {
                Ok(chosen.push(f))
            },
        }
    }
}

/// The formats of the parts of a list.
pub open spec fn with_formats(parts: Seq<Seq<char>>) -> Result<Seq<Format>, Seq<char>>
    decreases parts.len(),
{
    if parts.len() == 0 {
        Ok(Seq::empty())
    } else {
        match with_formats(parts.drop_last()) {
            Err(e) => Err(e),
            Ok(chosen) => with_format(chosen, parts.last()),
        }
    }
}

/// The formats of a list between commas; `all` stands for all of them.
pub open spec fn formats_of(spec: Seq<char>) -> Result<Seq<Format>, Seq<char>> {
    if text::lowered(text::trimmed(spec)) == "all"@ {
        Ok(Format::ALL@)
    } else {
        match with_formats(text::parts(spec, ',')) {
            Err(e) => Err(e),
            Ok(chosen) => if chosen.len() == 0 {
                Err("no export format selected"@)
            } else {
                Ok(chosen)
            },
        }
    }
}

proof fn lemma_format_error_stays(parts: Seq<Seq<char>>, k: int)
    requires
        0 <= k <= parts.len(),
        with_formats(parts.take(k)) is Err,
    ensures
        with_formats(parts) == with_formats(parts.take(k)),
    decreases parts.len() - k,
{
    if k == parts.len() {
        assert(parts.take(k) =~= parts);
    } else {
        assert(parts.take(k + 1).drop_last() =~= parts.take(k));
        lemma_format_error_stays(parts, k + 1);
    }
}

proof fn lemma_chosen_once(parts: Seq<Seq<char>>)
    ensures
        with_formats(parts) matches Ok(chosen) ==> chosen.no_duplicates(),
    decreases parts.len(),
{
    if parts.len() > 0 {
        lemma_chosen_once(parts.drop_last());
    }
}

/// A list that was read names one format or more, each once.
pub proof fn formats_are_chosen_once(spec: Seq<char>)
    ensures
        formats_of(spec) matches Ok(chosen) ==> chosen.len() > 0 && chosen.no_duplicates(),
{
    lemma_chosen_once(text::parts(spec, ','));
}

/// `all` stands for each format.
pub proof fn all_means_every_format(f: Format)
    ensures
        formats_of("all"@) matches Ok(chosen) && chosen.contains(f),
{
    reveal_strlit("all");
    assert(text::lowered(text::trimmed("all"@)) =~= "all"@) by {
        reveal_with_fuel(text::trimmed_start, 2);
        reveal_with_fuel(text::stripped_end, 2);
    }
    let all = Format::ALL@;
    match f {
        Format::Csv => assert(all[0] == f),
        Format::Srt => assert(all[1] == f),
        Format::Vbo => assert(all[2] == f),
        Format::Gpx => assert(all[3] == f),
        Format::Fit => assert(all[4] == f),
        Format::Igc => assert(all[5] == f),
    }
}

fn holds(v: &[Format], f: Format) -> (r: bool)
    ensures
        r == v@.contains(f),
{
    let mut i: usize = 0;
    while i < v.len()
        invariant
            i <= v@.len(),
            forall|j: int| 0 <= j < i ==> v@[j] != f,
        decreases v@.len() - i,
    {
        if v[i] == f {
            return true;
        }
        i = i + 1;
    }
    false
}

fn message(before: &str, word: &str, behind: &str) -> (r: String)
    ensures
        r@ == before@ + word@ + behind@,
{
    let mut out: String = String::from_str(before);
    out.append(word);
    out.append(behind);
    out
}

/// Reads a list of formats.
pub fn parse_formats(spec: &str) -> (r: Result<Vec<Format>, String>)
    ensures
        match r {
            Ok(chosen) => formats_of(spec@) == Ok::<Seq<Format>, Seq<char>>(chosen@),
            Err(e) => formats_of(spec@) == Err::<Seq<Format>, Seq<char>>(e@),
        },
{
    let c: Vec<char> = text::chars_of(spec);
    let word: Vec<char> = text::to_lower(text::trim(c.as_slice()));
    if text::is(word.as_slice(), "all") {
        let mut all: Vec<Format> = Vec::new();
        all.push(Format::Csv);
        all.push(Format::Srt);
        all.push(Format::Vbo);
        all.push(Format::Gpx);
        all.push(Format::Fit);
        all.push(Format::Igc);
        assert(all@ =~= Format::ALL@);
        return Ok(all);
    }
    let parts: Vec<Vec<char>> = text::split(c.as_slice(), ',');
    let ghost all = text::views(parts@);
    let mut chosen: Vec<Format> = Vec::new();
    let mut i: usize = 0;
    assert(all.take(0) =~= Seq::empty());
    while i < parts.len()
        invariant
            i <= parts@.len(),
            all == text::views(parts@),
            all == text::parts(spec@, ','),
            text::lowered(text::trimmed(spec@)) != "all"@,
            with_formats(all.take(i as int)) == Ok::<Seq<Format>, Seq<char>>(chosen@),
        decreases parts@.len() - i,
    {
        proof {
            assert(all.take(i + 1).drop_last() =~= all.take(i as int));
            assert(all.take(i + 1).last() == parts@[i as int]@);
        }
        let word: &[char] = text::trim(parts[i].as_slice());
        if word.len() > 0 {
            match Format::parse_chars(word) {
                Some(f) => {
                    if !holds(chosen.as_slice(), f) {
                        chosen.push(f);
                    }
                },
                None => {
                    proof {
                        lemma_format_error_stays(all, i + 1);
                    }
                    let w: String = text::text_of(word);
                    return Err(
                        message(
                            "unknown format '",
                            w.as_str(),
                            "' (expected csv, srt, vbo, gpx, fit, igc)",
                        ),
                    );
                },
            }
        }
        i = i + 1;
    }
    assert(all.take(i as int) =~= all);
    if chosen.len() == 0 {
        return Err(String::from_str("no export format selected"));
    }
    Ok(chosen)
}

/// The unit that a name in lower case stands for.
pub open spec fn unit_named(s: Seq<char>) -> Option<AccelUnit> {
    if s == "g"@ {
        Some(AccelUnit::G)
    } else if s == "ms2"@ || s == "m/s2"@ || s == "m/s^2"@ {
        Some(AccelUnit::MetersPerSecondSquared)
    } else if s == "mg"@ {
        Some(AccelUnit::MilliG)
    } else {
        None
    }
}

/// The unit that was asked for, if any.
pub open spec fn unit_of(unit: Option<Seq<char>>) -> Result<Option<AccelUnit>, Seq<char>> {
    match unit {
        None => Ok(None),
        Some(u) => match unit_named(text::lowered(u)) {
            Some(unit) => Ok(Some(unit)),
            None => Err("unknown --unit '"@ + text::lowered(u) + "'"@),
        },
    }
}

/// Reads the unit of the accelerometer.
pub fn parse_unit(unit: &Option<String>) -> (r: Result<Option<AccelUnit>, String>)
    ensures
        match r {
            Ok(u) => unit_of(crate::dji::chars(*unit)) == Ok::<Option<AccelUnit>, Seq<char>>(u),
            Err(e) => unit_of(crate::dji::chars(*unit)) == Err::<Option<AccelUnit>, Seq<char>>(
                e@,
            ),
        },
{
    match unit {
        None => Ok(None),
        Some(u) => {
            let c: Vec<char> = text::chars_of(u.as_str());
            let c: Vec<char> = text::to_lower(c.as_slice());
            let c: &[char] = c.as_slice();
            if text::is(c, "g") {
                Ok(Some(AccelUnit::G))
            } else if text::is(c, "ms2") || text::is(c, "m/s2") || text::is(c, "m/s^2") {
                Ok(Some(AccelUnit::MetersPerSecondSquared))
            } else if text::is(c, "mg") {
                Ok(Some(AccelUnit::MilliG))
            } else {
                Err(message("unknown --unit '", text::text_of(c).as_str(), "'"))
            }
        },
    }
}

/// The axis map after one part of a list of axes to invert.
pub open spec fn with_inverted(axes: AxisMap, part: Seq<char>) -> Result<AxisMap, Seq<char>> {
    let word = text::lowered(text::trimmed(part));
    if word.len() == 0 {
        Ok(axes)
    } else if word == "lateral"@ || word == "lat"@ {
        Ok(AxisMap { invert_lateral: !axes.invert_lateral, ..axes })
    } else if word == "longitudinal"@ || word == "lon"@ || word == "long"@ {
        Ok(AxisMap { invert_longitudinal: !axes.invert_longitudinal, ..axes })
    } else if word == "vertical"@ || word == "vert"@ || word == "ver"@ {
        Ok(AxisMap { invert_vertical: !axes.invert_vertical, ..axes })
    } else {
        Err("--invert: unknown axis '"@ + word + "'"@)
    }
}

/// The axis map after all parts of a list of axes to invert.
pub open spec fn with_all_inverted(axes: AxisMap, parts: Seq<Seq<char>>) -> Result<
    AxisMap,
    Seq<char>,
>
    decreases parts.len(),
{
    if parts.len() == 0 {
        Ok(axes)
    } else {
        match with_all_inverted(axes, parts.drop_last()) {
            Err(e) => Err(e),
            Ok(a) => with_inverted(a, parts.last()),
        }
    }
}

proof fn lemma_invert_error_stays(axes: AxisMap, parts: Seq<Seq<char>>, k: int)
    requires
        0 <= k <= parts.len(),
        with_all_inverted(axes, parts.take(k)) is Err,
    ensures
        with_all_inverted(axes, parts) == with_all_inverted(axes, parts.take(k)),
    decreases parts.len() - k,
{
    if k == parts.len() {
        assert(parts.take(k) =~= parts);
    } else {
        assert(parts.take(k + 1).drop_last() =~= parts.take(k));
        lemma_invert_error_stays(axes, parts, k + 1);
    }
}

/// An axis that is inverted twice is as it was.
pub proof fn inverting_twice_changes_nothing(axes: AxisMap, part: Seq<char>)
    ensures
        with_inverted(axes, part) matches Ok(a) ==> with_inverted(a, part) == Ok::<
            AxisMap,
            Seq<char>,
        >(axes),
{
}

/// Inverting axes does not move them.
pub proof fn inverting_moves_no_axis(axes: AxisMap, parts: Seq<Seq<char>>)
    ensures
        with_all_inverted(axes, parts) matches Ok(a) ==> a.lateral == axes.lateral && a.longitudinal
            == axes.longitudinal && a.vertical == axes.vertical,
    decreases parts.len(),
{
    if parts.len() > 0 {
        inverting_moves_no_axis(axes, parts.drop_last());
    }
}

/// Inverts the axes of a list.
pub fn invert(axes: AxisMap, list: &str) -> (r: Result<AxisMap, String>)
    ensures
        match r {
            Ok(a) => with_all_inverted(axes, text::parts(list@, ',')) == Ok::<AxisMap, Seq<char>>(
                a,
            ),
            Err(e) => with_all_inverted(axes, text::parts(list@, ',')) == Err::<
                AxisMap,
                Seq<char>,
            >(e@),
        },
{
    let c: Vec<char> = text::chars_of(list);
    let parts: Vec<Vec<char>> = text::split(c.as_slice(), ',');
    let ghost all = text::views(parts@);
    let mut out: AxisMap = axes;
    let mut i: usize = 0;
    assert(all.take(0) =~= Seq::empty());
    while i < parts.len()
        invariant
            i <= parts@.len(),
            all == text::views(parts@),
            all == text::parts(list@, ','),
            with_all_inverted(axes, all.take(i as int)) == Ok::<AxisMap, Seq<char>>(out),
        decreases parts@.len() - i,
    {
        proof {
            assert(all.take(i + 1).drop_last() =~= all.take(i as int));
            assert(all.take(i + 1).last() == parts@[i as int]@);
        }
        let word: Vec<char> = text::to_lower(text::trim(parts[i].as_slice()));
        let word: &[char] = word.as_slice();
        if word.len() == 0 {
        } else if text::is(word, "lateral") || text::is(word, "lat") {
            out.invert_lateral = !out.invert_lateral;
        } else if text::is(word, "longitudinal") || text::is(word, "lon") || text::is(word, "long") {
            out.invert_longitudinal = !out.invert_longitudinal;
        } else if text::is(word, "vertical") || text::is(word, "vert") || text::is(word, "ver") {
            out.invert_vertical = !out.invert_vertical;
        } else {
            proof {
                lemma_invert_error_stays(axes, all, i + 1);
            }
            return Err(message("--invert: unknown axis '", text::text_of(word).as_str(), "'"));
        }
        i = i + 1;
    }
    assert(all.take(i as int) =~= all);
    Ok(out)
}

/// The axis map that was asked for: guessed from the medians of the raw axes, or
/// as described.
pub open spec fn axes_of(axes: Seq<char>, medians: Vector64) -> Result<AxisMap, Seq<char>> {
    if text::lowered(text::trimmed(axes)) == "auto"@ {
        Ok(process::guessed_map(medians))
    } else {
        match process::map_of(text::trimmed(axes)) {
            Ok(map) => Ok(map),
            Err(e) => Err("--axes: "@ + e),
        }
    }
}

/// The processing that was asked for. The first option that cannot be
/// understood is reported.
pub open spec fn process_options(args: Args, medians: Vector64) -> Result<
    ProcessOptions,
    Seq<char>,
> {
    match GravityMode::named(text::lowered(args.gravity@)) {
        None => Err("unknown --gravity '"@ + args.gravity@ + "'"@),
        Some(gravity) => match unit_of(crate::dji::chars(args.unit)) {
            Err(e) => Err(e),
            Ok(unit_override) => match axes_of(args.axes@, medians) {
                Err(e) => Err(e),
                Ok(axes) => match with_all_inverted(axes, text::parts(args.invert@, ',')) {
                    Err(e) => Err(e),
                    Ok(axes) => Ok(
                        ProcessOptions {
                            gravity,
                            highpass_window: args.highpass_window,
                            axes,
                            level: !args.no_level,
                            rate: ExportRate::Native,
                            unit_override,
                        },
                    ),
                },
            },
        },
    }
}

/// Reads the options of the processing. `medians` are those of the raw axes, in g.
pub fn build_process_options(args: &Args, medians: Vector64) -> (r: Result<ProcessOptions, String>)
    ensures
        match r {
            Ok(o) => process_options(*args, medians) == Ok::<ProcessOptions, Seq<char>>(o),
            Err(e) => process_options(*args, medians) == Err::<ProcessOptions, Seq<char>>(e@),
        },
{
    let gravity: GravityMode = match GravityMode::parse(args.gravity.as_str()) {
        Some(g) => g,
        None => {
            return Err(message("unknown --gravity '", args.gravity.as_str(), "'"));
        },
    };
    let unit_override: Option<AccelUnit> = match parse_unit(&args.unit) {
        Ok(u) => u,
        Err(e) => {
            return Err(e);
        },
    };
    let c: Vec<char> = text::chars_of(args.axes.as_str());
    let word: Vec<char> = text::to_lower(text::trim(c.as_slice()));
    let axes: AxisMap = if text::is(word.as_slice(), "auto") {
        process::auto_axis_map(medians)
    } else {
        match AxisMap::parse(args.axes.as_str()) {
            Ok(map) => map,
            Err(e) => {
                let mut out: String = String::from_str("--axes: ");
                out.append(e.as_str());
                return Err(out);
            },
        }
    };
    let axes: AxisMap = match invert(axes, args.invert.as_str()) {
        Ok(a) => a,
        Err(e) => {
            return Err(e);
        },
    };
    Ok(
        ProcessOptions {
            gravity,
            highpass_window: args.highpass_window,
            axes,
            level: !args.no_level,
            rate: ExportRate::Native,
            unit_override,
        },
    )
}

/// The axes of options that were read are a permutation.
pub proof fn built_options_permute(args: Args, medians: Vector64)
    ensures
        process_options(args, medians) matches Ok(o) ==> process::permutes(o.axes),
{
    process::guessed_map_is_a_permutation(medians, process::Axis::X);
    if let Ok(axes) = axes_of(args.axes@, medians) {
        inverting_moves_no_axis(axes, text::parts(args.invert@, ','));
    }
}

/// The export that was asked for, `number` being what the number text of the
/// rate is read as.
pub open spec fn export_options(args: Args, number: Option<Binary64>) -> Option<ExportOptions> {
    match ExportRate::read(args.rate@, number) {
        None => None,
        Some(rate) => Some(
            ExportOptions {
                include_raw_axes: args.raw_axes,
                include_orientation: !args.no_orientation,
                include_exposure: !args.no_exposure,
                lean_angle_from_roll: args.lean_angle,
                rate,
            },
        ),
    }
}

/// Reads the options of the export. `number` is what the number text of the rate
/// is read as.
pub fn build_export_options(args: &Args, number: Option<Binary64>) -> (r: Result<
    ExportOptions,
    String,
>)
    ensures
        match r {
            Ok(o) => export_options(*args, number) == Some(o),
            Err(e) => export_options(*args, number) is None && e@
                == "--rate must be 'native' or a positive number of Hz"@,
        },
{
    match ExportRate::parse(args.rate.as_str(), number) {
        None => Err(String::from_str("--rate must be 'native' or a positive number of Hz")),
        Some(rate) => Ok(
            ExportOptions {
                include_raw_axes: args.raw_axes,
                include_orientation: !args.no_orientation,
                include_exposure: !args.no_exposure,
                lean_angle_from_roll: args.lean_angle,
                rate,
            },
        ),
    }
}

/// How much is done, in percent; 0 of nothing.
pub open spec fn percent(done: nat, total: nat) -> nat {
    if total == 0 {
        0
    } else {
        done * 100 / total
    }
}

/// The progress to show, if any: each tenth once. `last` is what was shown last.
pub open spec fn progress(done: nat, total: nat, last: Option<u128>) -> Option<u128> {
    let p = percent(done, total) as u128;
    if last != Some(p) && p % 10 == 0 {
        Some(p)
    } else {
        None
    }
}

/// The progress to show, if any.
pub fn progress_step(done: usize, total: usize, last: Option<u128>) -> (r: Option<u128>)
    ensures
        r == progress(done as nat, total as nat, last),
{
    let p: u128 = if total == 0 {
        0
    } else {
        done as u128 * 100 / total as u128
    };
    let shown: bool = match last {
        Some(q) => q == p,
        None => false,
    };
    if !shown && p % 10 == 0 {
        Some(p)
    } else {
        None
    }
}

/// Whether an argument is an option.
pub fn looks_like_flag(arg: &str) -> (r: bool)
    ensures
        r == (arg@.len() > 0 && arg@[0] == '-'),
{
    let c: Vec<char> = text::chars_of(arg);
    c.len() > 0 && c[0] == '-'
}

/// Whether the command line is meant, and not the window: with any arguments but
/// a single existing file. `count` is the number of arguments behind the program,
/// `first` the first one and `is_file` whether it names a file.
pub fn wants_command_line(count: usize, first: &str, is_file: bool) -> (r: bool)
    ensures
        r == (count > 0 && !(count == 1 && is_file && !(first@.len() > 0 && first@[0] == '-'))),
{
    count > 0 && !(count == 1 && is_file && !looks_like_flag(first))
}

/// The line about a file that was written.
pub fn written_line(w: &Written) -> (r: String)
    ensures
        r@ == w.format.text() + "  "@ + w.path@ + " ("@ + text::decimal(w.rows as nat)
            + " rows, "@ + text::decimal(w.bytes as nat) + " bytes)"@,
{
    let mut out: String = String::from_str(w.format.label());
    out.append("  ");
    out.append(w.path.as_str());
    out.append(" (");
    out.append(text::decimal_text(w.rows as u64).as_str());
    out.append(" rows, ");
    out.append(text::decimal_text(w.bytes as u64).as_str());
    out.append(" bytes)");
    out
}

/// The line about a format of a clip.
pub open spec fn format_text(f: Format, t: Telemetry) -> Seq<char> {
    match export::obstacle(f, t) {
        None => f.text() + "  available"@,
        Some(reason) => f.text() + "  unavailable: "@ + reason,
    }
}

/// The line about a format of a clip: whether it can be written.
pub fn format_line(f: Format, telemetry: &Telemetry) -> (r: String)
    ensures
        r@ == format_text(f, *telemetry),
{
    let mut out: String = String::from_str(f.label());
    match export::availability(f, telemetry) {
        Ok(_) => {
            out.append("  available");
        },
        Err(reason) => {
            out.append("  unavailable: ");
            out.append(reason.as_str());
        },
    }
    out
}

/// The line about a format that is skipped for a reason.
pub fn skipped_line(f: Format, reason: &str) -> (r: String)
    ensures
        r@ == f.text() + "  skipped: "@ + reason@,
{
    let mut out: String = String::from_str(f.label());
    out.append("  skipped: ");
    out.append(reason);
    out
}

/// The exit code after an export: 2 when a requested format is skipped, 0
/// otherwise.
pub fn exit_code(formats: &[Format], telemetry: &Telemetry) -> (r: i32)
    ensures
        r == (if exists|i: int|
            0 <= i < formats@.len() && export::obstacle(
                #[trigger] formats@[i],
                *telemetry,
            ) is Some {
            2int
        } else {
            0
        }),
{
    let mut i: usize = 0;
    while i < formats.len()
        invariant
            i <= formats@.len(),
            forall|j: int|
                0 <= j < i ==> export::obstacle(#[trigger] formats@[j], *telemetry) is None,
        decreases formats@.len() - i,
    {
        if export::availability(formats[i], telemetry).is_err() {
            assert(export::obstacle(formats@[i as int], *telemetry) is Some);
            return 2;
        }
        i = i + 1;
    }
    0
}

/// The requested formats that are written: all that are not skipped, in order.
pub fn to_write(formats: &[Format], telemetry: &Telemetry) -> (r: Vec<Format>)
    ensures
        r@ == formats@.filter(|f: Format| export::obstacle(f, *telemetry) is None),
{
    let ghost writable = |f: Format| export::obstacle(f, *telemetry) is None;
    let mut out: Vec<Format> = Vec::new();
    let mut i: usize = 0;
    proof {
        reveal(Seq::filter);
        assert(formats@.take(0).filter(writable) =~= Seq::empty());
    }
    while i < formats.len()
        invariant
            i <= formats@.len(),
            writable == (|f: Format| export::obstacle(f, *telemetry) is None),
            out@ == formats@.take(i as int).filter(writable),
        decreases formats@.len() - i,
    {
        let f: Format = formats[i];
        proof {
            reveal(Seq::filter);
            assert(formats@.take(i + 1).drop_last() =~= formats@.take(i as int));
            assert(formats@.take(i + 1).last() == f);
        }
        if export::availability(f, telemetry).is_ok() {
            out.push(f);
        }
        i = i + 1;
    }
    assert(formats@.take(i as int) =~= formats@);
    out
}

/// The requested formats are all written exactly when none is skipped, and a
/// format that is skipped keeps no other from being written.
pub proof fn skipping_is_told(formats: Seq<Format>, telemetry: Telemetry)
    ensures
        ({
            let written = formats.filter(|f: Format| export::obstacle(f, telemetry) is None);
            &&& written == formats <==> forall|i: int|
                0 <= i < formats.len() ==> export::obstacle(
                    #[trigger] formats[i],
                    telemetry,
                ) is None
            &&& forall|i: int|
                0 <= i < formats.len() ==> written.contains(#[trigger] formats[i])
                    == (export::obstacle(formats[i], telemetry) is None)
        }),
{
    let writable = |f: Format| export::obstacle(f, telemetry) is None;
    let written = formats.filter(writable);
    broadcast use vstd::seq_lib::group_filter_ensures;

    if forall|i: int|
        0 <= i < formats.len() ==> export::obstacle(#[trigger] formats[i], telemetry) is None {
        lemma_all_pass(formats, writable);
    } else {
        let i = choose|i: int|
            0 <= i < formats.len() && export::obstacle(#[trigger] formats[i], telemetry) is Some;
        assert(!writable(formats[i]));
        if written == formats {
            assert(written.contains(formats[i]));
        }
    }
    assert forall|i: int| 0 <= i < formats.len() implies written.contains(#[trigger] formats[i])
        == (export::obstacle(formats[i], telemetry) is None) by {
        assert(writable(formats[i]) == (export::obstacle(formats[i], telemetry) is None));
        if written.contains(formats[i]) {
            let k = choose|k: int| 0 <= k < written.len() && written[k] == formats[i];
            assert(writable(written[k]));
        }
    }
}

proof fn lemma_all_pass(s: Seq<Format>, p: spec_fn(Format) -> bool)
    requires
        forall|i: int| 0 <= i < s.len() ==> p(#[trigger] s[i]),
    ensures
        s.filter(p) == s,
    decreases s.len(),
{
    reveal(Seq::filter);
    if s.len() > 0 {
        let front = s.drop_last();
        assert forall|i: int| 0 <= i < front.len() implies p(#[trigger] front[i]) by {
            assert(p(s[i]));
        }
        lemma_all_pass(front, p);
        assert(p(s[s.len() - 1]));
    }
    assert(s.filter(p) =~= s);
}

} // verus!
