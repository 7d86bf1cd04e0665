//! What the options of the command line and the lines of a summary say.

use super::summary;
use super::summary::{JsonTexts, SummaryTexts};
use super::Args;
use crate::cli;
use crate::dji;
use crate::export;
use crate::export::Format;
use crate::ieee::Binary64;
use crate::process;
use crate::process::{AccelUnit, AxisMap, ExportRate, GravityMode, Telemetry, Vector64};
use crate::text;
use crate::text::laws;
use crate::time::calendar;
use vstd::prelude::*;

verus! {

/// A word for an axis turns its sign, and no other: `lateral` or `lat`, `longitudinal`,
/// `long` or `lon`, `vertical`, `vert` or `ver`, in upper or lower case and with white
/// space around it.
pub proof fn words_turn_their_axis(axes: AxisMap, part: Seq<char>)
    ensures
        ({
            let w = text::lowered(text::trimmed(part));
            let r = cli::with_inverted(axes, part);
            &&& w == "lateral"@ || w == "lat"@ ==> r == Ok::<AxisMap, Seq<char>>(
                AxisMap { invert_lateral: !axes.invert_lateral, ..axes },
            )
            &&& w == "longitudinal"@ || w == "long"@ || w == "lon"@ ==> r == Ok::<
                AxisMap,
                Seq<char>,
            >(AxisMap { invert_longitudinal: !axes.invert_longitudinal, ..axes })
            &&& w == "vertical"@ || w == "vert"@ || w == "ver"@ ==> r == Ok::<AxisMap, Seq<char>>(
                AxisMap { invert_vertical: !axes.invert_vertical, ..axes },
            )
            &&& w.len() == 0 ==> r == Ok::<AxisMap, Seq<char>>(axes)
            &&& r is Err ==> r->Err_0 == "--invert: unknown axis '"@ + w + "'"@
        }),
{
    reveal_strlit("lateral");
    reveal_strlit("lat");
    reveal_strlit("longitudinal");
    reveal_strlit("long");
    reveal_strlit("lon");
    reveal_strlit("vertical");
    reveal_strlit("vert");
    reveal_strlit("ver");
    let w = text::lowered(text::trimmed(part));
    assert("lat"@[1] == 'a' && "lon"@[1] == 'o' && "ver"@[1] == 'e');
    assert("long"@[1] == 'o' && "vert"@[1] == 'e');
}

/// A list turns the axes of its first part and then those of its second one.
pub proof fn lists_turn_one_after_the_other(axes: AxisMap, p: Seq<Seq<char>>, q: Seq<Seq<char>>)
    ensures
        cli::with_all_inverted(axes, p + q) == match cli::with_all_inverted(axes, p) {
            Ok(a) => cli::with_all_inverted(a, q),
            Err(e) => Err(e),
        },
        cli::with_all_inverted(axes, Seq::empty()) == Ok::<AxisMap, Seq<char>>(axes),
    decreases q.len(),
{
    if q.len() == 0 {
        assert(p + q =~= p);
    } else {
        assert((p + q).drop_last() =~= p + q.drop_last());
        lists_turn_one_after_the_other(axes, p, q.drop_last());
    }
}

/// The names of the units of the accelerometer, in upper or lower case.
pub proof fn units_have_their_names(u: Seq<char>)
    ensures
        cli::unit_of(None) == Ok::<Option<AccelUnit>, Seq<char>>(None),
        text::lowered(u) == "g"@ ==> cli::unit_of(Some(u)) == Ok::<Option<AccelUnit>, Seq<char>>(
            Some(AccelUnit::G),
        ),
        text::lowered(u) == "mg"@ ==> cli::unit_of(Some(u)) == Ok::<Option<AccelUnit>, Seq<char>>(
            Some(AccelUnit::MilliG),
        ),
        text::lowered(u) == "ms2"@ || text::lowered(u) == "m/s2"@ || text::lowered(u) == "m/s^2"@
            ==> cli::unit_of(Some(u)) == Ok::<Option<AccelUnit>, Seq<char>>(
            Some(AccelUnit::MetersPerSecondSquared),
        ),
        cli::unit_of(Some(u)) is Err ==> cli::unit_of(Some(u)) == Err::<
            Option<AccelUnit>,
            Seq<char>,
        >("unknown --unit '"@ + text::lowered(u) + "'"@),
{
    reveal_strlit("g");
    reveal_strlit("mg");
    reveal_strlit("ms2");
    reveal_strlit("m/s2");
    reveal_strlit("m/s^2");
    assert("mg"@.len() == 2 && "ms2"@.len() == 3 && "m/s2"@.len() == 4 && "m/s^2"@.len() == 5);
    assert("g"@.len() == 1);
}

/// The names of the ways to remove gravity: the name that each is shown with is read
/// as it.
pub proof fn gravity_modes_have_their_names(mode: GravityMode)
    ensures
        GravityMode::named(mode.name()) == Some(mode),
        GravityMode::named("quat"@) == Some(GravityMode::Quaternion),
        GravityMode::named("quaternion"@) == Some(GravityMode::Quaternion),
        GravityMode::named("highpass"@) == Some(GravityMode::HighPass),
        GravityMode::named("high-pass"@) == Some(GravityMode::HighPass),
        GravityMode::named("hp"@) == Some(GravityMode::HighPass),
        GravityMode::named("none"@) == Some(GravityMode::Keep),
        GravityMode::named("keep"@) == Some(GravityMode::Keep),
{
    reveal_strlit("quat");
    reveal_strlit("quaternion");
    reveal_strlit("highpass");
    reveal_strlit("high-pass");
    reveal_strlit("hp");
    reveal_strlit("none");
    reveal_strlit("keep");
    assert("quat"@[0] == 'q' && "none"@[0] == 'n' && "keep"@[0] == 'k');
    assert("highpass"@.len() == 8 && "high-pass"@.len() == 9 && "hp"@.len() == 2);
    assert("quaternion"@.len() == 10);
}

/// Each option of the processing goes where it belongs, and the rate stays that of the
/// clip.
pub proof fn processing_follows_its_options(args: Args, medians: Vector64)
    ensures
        cli::process_options(args, medians) matches Ok(o) ==> {
            &&& GravityMode::named(text::lowered(args.gravity@)) == Some(o.gravity)
            &&& o.highpass_window == args.highpass_window
            &&& o.level != args.no_level
            &&& o.rate == ExportRate::Native
            &&& args.unit is None ==> o.unit_override is None
            &&& args.unit matches Some(u) ==> cli::unit_named(text::lowered(u@))
                == o.unit_override && o.unit_override is Some
            &&& args.invert@.len() == 0 && text::lowered(text::trimmed(args.axes@)) == "auto"@
                ==> o.axes == process::guessed_map(medians)
            &&& args.invert@.len() == 0 && text::lowered(text::trimmed(args.axes@)) != "auto"@
                ==> process::map_of(text::trimmed(args.axes@)) == Ok::<AxisMap, Seq<char>>(o.axes)
        },
{
    if args.invert@.len() == 0 {
        assert(text::free_of(args.invert@, ','));
        text::one_part(args.invert@, ',');
        let p = text::parts(args.invert@, ',');
        assert(p =~= seq![args.invert@]);
        assert(p.drop_last() =~= Seq::empty());
        assert(args.invert@ =~= Seq::empty());
        assert(text::trimmed(args.invert@) =~= Seq::empty());
        if let Ok(axes) = cli::axes_of(args.axes@, medians) {
            assert(cli::with_all_inverted(axes, p.drop_last()) == Ok::<AxisMap, Seq<char>>(axes));
            assert(cli::with_all_inverted(axes, p) == cli::with_inverted(axes, p.last()));
        }
    }
}

/// Each option of the export goes where it belongs. A rate is a word for that of the
/// clip, or a number above 0.
pub proof fn export_follows_its_options(args: Args, number: Option<Binary64>)
    ensures
        ({
            let word = text::lowered(text::trimmed(args.rate@));
            let native = word == "native"@ || word == "full"@ || word == "0"@;
            let above = number is Some && !number->0.nan() && number->0.scaled() > 0;
            &&& cli::export_options(args, number) is Some <==> native || above
            &&& cli::export_options(args, number) matches Some(o) ==> {
                &&& o.include_raw_axes == args.raw_axes
                &&& o.include_orientation != args.no_orientation
                &&& o.include_exposure != args.no_exposure
                &&& o.lean_angle_from_roll == args.lean_angle
                &&& native ==> o.rate == ExportRate::Native
                &&& !native ==> o.rate == ExportRate::Hz(number->0)
            }
        }),
{
    let zero = Binary64 { bits: 0 };
    assert(!zero.nan() && zero.scaled() == 0);
}

/// The percentage of what is done is the largest whole one that is not more.
pub proof fn percentages_round_down(done: nat, total: nat)
    requires
        total > 0,
    ensures
        cli::percent(done, total) * total <= done * 100,
        done * 100 < (cli::percent(done, total) + 1) * total,
        cli::percent(0, total) == 0,
        cli::percent(total, total) == 100,
        cli::percent(done, 0) == 0,
{
    let n = done as int * 100;
    let t = total as int;
    vstd::arithmetic::div_mod::lemma_fundamental_div_mod(n, t);
    vstd::arithmetic::div_mod::lemma_mod_bound(n, t);
    let p = n / t;
    assert(p * t == t * p && (p + 1) * t == t * p + t) by (nonlinear_arith);
    vstd::arithmetic::div_mod::lemma_fundamental_div_mod_converse(t * 100, t, 100, 0);
    vstd::arithmetic::div_mod::lemma_fundamental_div_mod_converse(0, t, 0, 0);
}

/// A list of the extensions of formats is read as those formats, in order.
pub proof fn lists_of_formats_read_back(fs: Seq<Format>)
    requires
        fs.no_duplicates(),
    ensures
        cli::with_formats(fs.map_values(|f: Format| f.suffix())) == Ok::<Seq<Format>, Seq<char>>(fs),
    decreases fs.len(),
{
    let names = fs.map_values(|f: Format| f.suffix());
    if fs.len() == 0 {
        assert(fs =~= Seq::empty());
    } else {
        let front = fs.drop_last();
        let f = fs.last();
        assert(front.no_duplicates());
        lists_of_formats_read_back(front);
        assert(names.drop_last() =~= front.map_values(|f: Format| f.suffix()));
        assert(names.last() == f.suffix());
        lemma_suffix(f);
        assert(!front.contains(f)) by {
            if front.contains(f) {
                let i = choose|i: int| 0 <= i < front.len() && front[i] == f;
                assert(fs[i] == fs[fs.len() - 1]);
            }
        }
        assert(front.push(f) =~= fs);
    }
}

proof fn lemma_suffix(f: Format)
    ensures
        text::trimmed(f.suffix()) == f.suffix(),
        f.suffix().len() == 3,
        Format::read(f.suffix()) == Some(f),
{
    export::format_names_parse(f);
    reveal_strlit("csv");
    reveal_strlit("srt");
    reveal_strlit("vbo");
    reveal_strlit("gpx");
    reveal_strlit("fit");
    reveal_strlit("igc");
    laws::tight_texts_stay(f.suffix());
}

/// What is said of a clip.
spec fn lines_of(parts: Seq<(Seq<char>, Option<Seq<char>>)>) -> Seq<(Seq<char>, Seq<char>)>
    decreases parts.len(),
{
    if parts.len() == 0 {
        Seq::empty()
    } else {
        lines_of(parts.drop_last()) + summary::entry(parts.last().0, parts.last().1)
    }
}

proof fn lemma_lines_of(parts: Seq<(Seq<char>, Option<Seq<char>>)>, k: int)
    requires
        0 <= k < parts.len(),
    ensures
        parts[k].1 matches Some(v) ==> lines_of(parts).contains((parts[k].0, v)),
    decreases parts.len(),
{
    let n = parts.len() - 1;
    let a = lines_of(parts.drop_last());
    let all = lines_of(parts);
    if let Some(v) = parts[k].1 {
        if k == n {
            assert(all[a.len() as int] == (parts[k].0, v));
        } else {
            lemma_lines_of(parts.drop_last(), k);
            assert(parts.drop_last()[k] == parts[k]);
            let i = choose|i: int| 0 <= i < a.len() && a[i] == (parts[k].0, v);
            assert(all[i] == (parts[k].0, v));
        }
    }
}

spec fn summary_parts(t: Telemetry, x: SummaryTexts) -> Seq<(Seq<char>, Option<Seq<char>>)> {
    let info = t.info@;
    seq![
        (
            "Camera"@,
            Some(
                match info.model {
                    Some(m) => m,
                    None => "unknown"@,
                },
            ),
        ),
        ("Serial"@, info.serial),
        ("Firmware"@, info.firmware),
        ("Schema"@, summary::schema(info)),
        ("Video"@, summary::video(info, x)),
        (
            "Metadata track"@,
            Some(
                match info.metadata_track {
                    Some(m) => m,
                    None => Seq::empty(),
                },
            ),
        ),
        ("Samples"@, Some(summary::samples(info, x))),
        ("Accelerometer"@, Some(summary::accelerometer(t, x))),
        ("Axis mapping"@, Some(summary::mapping(t.options.axes))),
        ("Camera tilt"@, summary::tilt(t, x)),
        ("Gravity removal"@, Some(summary::gravity(t, x))),
        ("GPS"@, Some(summary::gps(info))),
        ("Start time"@, Some(summary::start(info))),
    ]
}

proof fn lemma_summary(t: Telemetry, x: SummaryTexts)
    ensures
        summary::summary(t, x) == lines_of(summary_parts(t, x)),
{
    let p = summary_parts(t, x);
    let none = Seq::<(Seq<char>, Seq<char>)>::empty();
    assert forall|k: int| 0 < k <= 13 implies #[trigger] lines_of(p.take(k)) == lines_of(
        p.take(k - 1),
    ) + summary::entry(p[k - 1].0, p[k - 1].1) by {
        assert(p.take(k).drop_last() =~= p.take(k - 1));
    }
    assert(lines_of(p.take(0)) == none);
    assert(none + summary::entry(p[0].0, p[0].1) =~= summary::entry(p[0].0, p[0].1));
    let e = |i: int| summary::entry(p[i].0, p[i].1);
    let s1 = e(0);
    assert(lines_of(p.take(1)) == s1);
    let s2 = s1 + e(1);
    assert(lines_of(p.take(2)) == s2);
    let s3 = s2 + e(2);
    assert(lines_of(p.take(3)) == s3);
    let s4 = s3 + e(3);
    assert(lines_of(p.take(4)) == s4);
    let s5 = s4 + e(4);
    assert(lines_of(p.take(5)) == s5);
    let s6 = s5 + e(5);
    assert(lines_of(p.take(6)) == s6);
    let s7 = s6 + e(6);
    assert(lines_of(p.take(7)) == s7);
    let s8 = s7 + e(7);
    assert(lines_of(p.take(8)) == s8);
    let s9 = s8 + e(8);
    assert(lines_of(p.take(9)) == s9);
    let s10 = s9 + e(9);
    assert(lines_of(p.take(10)) == s10);
    let s11 = s10 + e(10);
    assert(lines_of(p.take(11)) == s11);
    let s12 = s11 + e(11);
    assert(lines_of(p.take(12)) == s12);
    let s13 = s12 + e(12);
    assert(lines_of(p.take(13)) == s13);
    assert(p.take(13) =~= p);
}

/// A summary names the camera, and the serial number, the firmware, the schema and the
/// picture as far as they are known.
pub proof fn summaries_name_the_camera(t: Telemetry, x: SummaryTexts)
    ensures
        ({
            let info = t.info@;
            let s = summary::summary(t, x);
            &&& info.model matches Some(m) ==> s.contains(("Camera"@, m))
            &&& info.model is None ==> s.contains(("Camera"@, "unknown"@))
            &&& info.serial matches Some(v) ==> s.contains(("Serial"@, v))
            &&& info.firmware matches Some(v) ==> s.contains(("Firmware"@, v))
            &&& info.proto_name matches Some(p) ==> info.proto_version matches Some(v)
                ==> s.contains(("Schema"@, p + " v"@ + v))
            &&& info.metadata_track matches Some(m) ==> s.contains(("Metadata track"@, m))
            &&& info.width matches Some(w) ==> info.height matches Some(h) ==> {
                &&& info.fps is Some ==> s.contains(
                    (
                        "Video"@,
                        text::decimal(w as nat) + "×"@ + text::decimal(h as nat) + " @ "@ + (
                        x.fps@ + " fps"@),
                    ),
                )
                &&& info.fps is None ==> s.contains(
                    (
                        "Video"@,
                        text::decimal(w as nat) + "×"@ + text::decimal(h as nat) + " @ "@,
                    ),
                )
            }
        }),
{
    let p = summary_parts(t, x);
    lemma_summary(t, x);
    lemma_lines_of(p, 0);
    lemma_lines_of(p, 1);
    lemma_lines_of(p, 2);
    lemma_lines_of(p, 3);
    lemma_lines_of(p, 4);
    lemma_lines_of(p, 5);
    if let (Some(w), Some(h)) = (t.info@.width, t.info@.height) {
        let a = text::decimal(w as nat) + "×"@ + text::decimal(h as nat) + " @ "@;
        assert(a + Seq::<char>::empty() =~= a);
    }
}

/// A summary tells what was measured: the samples, the accelerometer, the axes, the
/// tilt, the way gravity was removed, the positions and the start.
pub proof fn summaries_tell_what_was_measured(t: Telemetry, x: SummaryTexts)
    ensures
        ({
            let info = t.info@;
            let s = summary::summary(t, x);
            &&& s.contains(("Samples"@, summary::samples(info, x)))
            &&& s.contains(("Accelerometer"@, summary::accelerometer(t, x)))
            &&& s.contains(("Axis mapping"@, summary::mapping(t.options.axes)))
            &&& t.tilt_deg is Some && t.levelled ==> s.contains(
                ("Camera tilt"@, x.tilt@ + "° (levelled)"@),
            )
            &&& t.tilt_deg is Some && !t.levelled ==> s.contains(
                ("Camera tilt"@, x.tilt@ + "° (not levelled)"@),
            )
            &&& t.gravity_world is None ==> s.contains(
                ("Gravity removal"@, t.gravity_used.name()),
            )
            &&& t.gravity_world is Some ==> s.contains(
                (
                    "Gravity removal"@,
                    t.gravity_used.name() + " — world gravity ("@ + x.gravity_x@ + ", "@
                        + x.gravity_y@ + ", "@ + x.gravity_z@ + ") g"@,
                ),
            )
            &&& s.contains(("GPS"@, summary::gps(info)))
            &&& s.contains(("Start time"@, summary::start(info)))
        }),
{
    let p = summary_parts(t, x);
    lemma_summary(t, x);
    lemma_lines_of(p, 6);
    lemma_lines_of(p, 7);
    lemma_lines_of(p, 8);
    lemma_lines_of(p, 9);
    lemma_lines_of(p, 10);
    lemma_lines_of(p, 11);
    lemma_lines_of(p, 12);
}

/// The numbers of a summary stand at their names: the samples, their duration and rate,
/// and the medians of the axes.
pub proof fn summaries_have_their_numbers(t: Telemetry, x: SummaryTexts)
    ensures
        summary::samples(t.info@, x) == text::decimal(t.info@.sample_count as nat) + " over "@
            + x.duration@ + " s (≈"@ + x.rate@ + " Hz)"@,
        summary::accelerometer(t, x) == "unit "@ + t.unit.text() + " (median |a| = "@ + x.median@
            + "), body-axis medians X "@ + x.median_x@ + " Y "@ + x.median_y@ + " Z "@
            + x.median_z@ + " g"@,
        t.info@.start_local is None ==> summary::start(t.info@) == "unknown"@,
        t.info@.start_local matches Some(m) ==> t.info@.utc_offset_minutes is None
            ==> summary::start(t.info@) == calendar::written(m, "%Y-%m-%d %H:%M:%S"@)
            + " camera clock ("@ + t.info@.start_time_source.text() + ")"@,
        t.info@.start_local matches Some(m) ==> t.info@.utc_offset_minutes matches Some(o)
            ==> summary::start(t.info@) == calendar::written(m, "%Y-%m-%d %H:%M:%S"@)
            + " camera clock ("@ + t.info@.start_time_source.text() + ")"@ + summary::offset(
            o as int,
        ),
{
    if let Some(m) = t.info@.start_local {
        let s = calendar::written(m, "%Y-%m-%d %H:%M:%S"@) + " camera clock ("@
            + t.info@.start_time_source.text() + ")"@;
        assert(s + Seq::<char>::empty() =~= s);
    }
}

/// The axes of a summary: a map is told by what it says of each vehicle axis, with a
/// minus sign before the letter of one that is inverted.
pub proof fn mappings_are_told_apart(a: AxisMap)
    ensures
        ({
            let letter = |axis: process::Axis, turned: bool|
                if turned {
                    "-"@ + axis.text()
                } else {
                    axis.text()
                };
            summary::mapping(a) == "lateral = "@ + letter(a.lateral, a.invert_lateral)
                + ", longitudinal = "@ + letter(a.longitudinal, a.invert_longitudinal)
                + ", vertical = "@ + letter(a.vertical, a.invert_vertical)
        }),
        process::Axis::X.text() == seq!['X'],
        process::Axis::Y.text() == seq!['Y'],
        process::Axis::Z.text() == seq!['Z'],
{
    reveal_strlit("X");
    reveal_strlit("Y");
    reveal_strlit("Z");
    assert("X"@ =~= seq!['X'] && "Y"@ =~= seq!['Y'] && "Z"@ =~= seq!['Z']);
    let l1 = if a.invert_lateral {
        "-"@ + a.lateral.text()
    } else {
        a.lateral.text()
    };
    let l2 = if a.invert_longitudinal {
        "-"@ + a.longitudinal.text()
    } else {
        a.longitudinal.text()
    };
    let l3 = if a.invert_vertical {
        "-"@ + a.vertical.text()
    } else {
        a.vertical.text()
    };
    lemma_signed("lateral = "@, a.invert_lateral, a.lateral.text());
    let one = "lateral = "@ + l1 + ", longitudinal = "@;
    lemma_signed(one, a.invert_longitudinal, a.longitudinal.text());
    let two = one + l2 + ", vertical = "@;
    lemma_signed(two, a.invert_vertical, a.vertical.text());
}

proof fn lemma_signed(a: Seq<char>, turned: bool, b: Seq<char>)
    ensures
        a + summary::sign(turned) + b == a + if turned {
            "-"@ + b
        } else {
            b
        },
{
    if turned {
        assert(a + "-"@ + b =~= a + ("-"@ + b));
    } else {
        assert(a + Seq::<char>::empty() + b =~= a + b);
    }
}

/// An offset from UTC is told by its sign, its hours and its minutes.
pub proof fn offsets_have_their_digits(minutes: int)
    requires
        -6000 < minutes < 6000,
    ensures
        ({
            let s = summary::offset(minutes);
            let hours = laws::field(s, 6, 8);
            let rest = laws::field(s, 9, 11);
            &&& s.len() == 11
            &&& s.take(5) == ", UTC"@
            &&& s[8] == ':'
            &&& 0 <= rest < 60
            &&& hours * 60 + rest == if minutes < 0 {
                -minutes
            } else {
                minutes
            }
            &&& s[5] == if minutes <= -60 {
                '-'
            } else {
                '+'
            }
        }),
{
    reveal_strlit(", UTC");
    reveal_strlit("-");
    reveal_strlit("+");
    reveal_strlit(":");
    laws::widths_hold();
    let s = summary::offset(minutes);
    let size = if minutes < 0 {
        -minutes
    } else {
        minutes
    };
    let h = (size / 60) as nat;
    let r = (size % 60) as nat;
    laws::padded_reads_back(h, 2);
    laws::padded_reads_back(r, 2);
    assert(s.take(5) =~= ", UTC"@);
    assert(s.subrange(6, 8) =~= text::padded(h, 2));
    assert(s.subrange(9, 11) =~= text::padded(r, 2));
}

/// The positions of a clip: none without a remote, none that was valid, or how many.
pub proof fn summaries_count_positions(info: dji::ClipFacts)
    ensures
        info.remote_name is None ==> summary::gps(info) == "no GPS remote connected"@,
        info.remote_name matches Some(r) ==> info.gps_fix_count == 0 ==> summary::gps(info) == r
            + " connected, no fix (status invalid in "@ + text::decimal(
            info.gps_status_counts.1 as nat,
        ) + " of "@ + text::decimal(info.sample_count as nat) + " samples)"@,
        info.remote_name matches Some(r) ==> info.gps_fix_count != 0 ==> summary::gps(info) == r
            + ": "@ + text::decimal(info.gps_fix_count as nat) + " fixes in "@ + text::decimal(
            info.sample_count as nat,
        ) + " samples ("@ + text::decimal(info.gps_status_counts.2 as nat) + " RTK)"@,
{
}

/// The fields of a JSON summary have their names.
pub proof fn json_fields_have_their_names(t: Telemetry, x: JsonTexts)
    ensures
        ({
            let info = t.info@;
            let f = summary::json_fields(t, x);
            &&& f.len() == 13
            &&& info.model matches Some(v) ==> f.contains(summary::text_field("model"@, v))
            &&& info.serial matches Some(v) ==> f.contains(summary::text_field("serial"@, v))
            &&& info.firmware matches Some(v) ==> f.contains(summary::text_field("firmware"@, v))
            &&& info.proto_name matches Some(v) ==> f.contains(summary::text_field("proto"@, v))
            &&& info.remote_name matches Some(v) ==> f.contains(summary::text_field("remote"@, v))
            &&& f.contains(
                summary::plain_field("samples"@, text::decimal(info.sample_count as nat)),
            )
            &&& f.contains(summary::plain_field("duration_s"@, x.duration@))
            &&& f.contains(
                summary::plain_field("gps_fixes"@, text::decimal(info.gps_fix_count as nat)),
            )
            &&& f.contains(
                summary::plain_field(
                    "axis_medians_g"@,
                    "["@ + x.median_x@ + ", "@ + x.median_y@ + ", "@ + x.median_z@ + "]"@,
                ),
            )
            &&& f.contains(summary::plain_field("accel_unit"@, "\""@ + t.unit.text() + "\""@))
            &&& info.start_local matches Some(m) ==> f.contains(
                summary::plain_field(
                    "start_local"@,
                    "\""@ + calendar::written(m, "%Y-%m-%dT%H:%M:%S"@) + "\""@,
                ),
            )
            &&& info.utc_offset_minutes matches Some(m) ==> f.contains(
                summary::plain_field("utc_offset_minutes"@, text::signed_decimal(m as int)),
            )
            &&& info.utc_offset_minutes is None ==> f.contains(
                summary::plain_field("utc_offset_minutes"@, "null"@),
            )
        }),
{
    let f = summary::json_fields(t, x);
    assert forall|i: int| 0 <= i < f.len() implies f.contains(#[trigger] f[i]) by {}
    assert(f.contains(f[0]));
    assert(f.contains(f[1]));
    assert(f.contains(f[2]));
    assert(f.contains(f[3]));
    assert(f.contains(f[4]));
    assert(f.contains(f[5]));
    assert(f.contains(f[6]));
    assert(f.contains(f[7]));
    assert(f.contains(f[8]));
    assert(f.contains(f[9]));
    assert(f.contains(f[10]));
    assert(f.contains(f[11]));
}

/// Each format has a field of its own among those of the formats: `true` where it can
/// be written, else the reason against it.
pub proof fn json_tells_of_each_format(t: Telemetry, f: Format)
    ensures
        export::obstacle(f, t) is None ==> summary::format_fields(t).contains(
            summary::plain_field(f.suffix(), "true"@),
        ),
        export::obstacle(f, t) matches Some(reason) ==> summary::format_fields(t).contains(
            summary::text_field(f.suffix(), reason),
        ),
{
    let all = summary::format_fields(t);
    let i: int = match f {
        Format::Csv => 0,
        Format::Srt => 1,
        Format::Vbo => 2,
        Format::Gpx => 3,
        Format::Fit => 4,
        Format::Igc => 5,
    };
    assert(all[i] == summary::format_field(f, t));
}

/// Progress is shown at each tenth, and the same only once: what is shown is a multiple
/// of ten, shown again only behind another one.
pub proof fn progress_is_shown_in_tenths(done: nat, total: nat, last: Option<u128>)
    requires
        done <= total <= u64::MAX,
        total > 0,
    ensures
        ({
            let p = cli::percent(done, total);
            &&& p <= 100
            &&& cli::progress(done, total, last) matches Some(q) ==> q == p && q % 10 == 0 && last
                != Some(q)
            &&& p % 10 == 0 ==> cli::progress(done, total, None) == Some(p as u128)
            &&& cli::progress(done, total, Some(p as u128)) is None
            &&& p % 10 != 0 ==> cli::progress(done, total, last) is None
        }),
{
    percentages_round_down(done, total);
    let p = cli::percent(done, total) as int;
    assert(p <= 100) by (nonlinear_arith)
        requires
            p * total <= done * 100,
            done <= total,
            total > 0,
    ;
}

/// A JSON summary is one object, whose fields have a name in quotes and a value; texts
/// are in quotes too.
pub proof fn json_is_one_object(t: Telemetry, x: JsonTexts, name: Seq<char>, v: Seq<char>)
    ensures
        summary::json(t, x) == seq!['{'] + text::joined(summary::json_fields(t, x), seq![',', ' '])
            + seq!['}'],
        summary::text_field(name, v) == seq!['"'] + name + seq!['"', ':', ' ', '"']
            + summary::quoted(v) + seq!['"'],
        summary::plain_field(name, v) == seq!['"'] + name + seq!['"', ':', ' '] + v,
{
    reveal_strlit("{");
    reveal_strlit("}");
    reveal_strlit(", ");
    reveal_strlit("\"");
    reveal_strlit("\": \"");
    reveal_strlit("\": ");
    assert("{"@ =~= seq!['{'] && "}"@ =~= seq!['}'] && ", "@ =~= seq![',', ' ']);
    assert("\""@ =~= seq!['"'] && "\": \""@ =~= seq!['"', ':', ' ', '"'] && "\": "@
        =~= seq!['"', ':', ' ']);
}

/// The line of a format says whether it can be written, and the reason where it cannot.
pub proof fn lines_of_formats_give_reasons(f: Format, t: Telemetry)
    ensures
        export::obstacle(f, t) is None ==> cli::format_text(f, t) == f.text() + "  available"@,
        export::obstacle(f, t) matches Some(reason) ==> cli::format_text(f, t) == f.text()
            + "  unavailable: "@ + reason,
{
}

/// A part of a list that is no format is told, without the white space around it; blank
/// parts and formats that are listed already change nothing.
pub proof fn unknown_formats_are_told(chosen: Seq<Format>, part: Seq<char>)
    ensures
        text::trimmed(part).len() == 0 ==> cli::with_format(chosen, part) == Ok::<
            Seq<Format>,
            Seq<char>,
        >(chosen),
        text::trimmed(part).len() > 0 ==> match Format::read(part) {
            None => cli::with_format(chosen, part) == Err::<Seq<Format>, Seq<char>>(
                "unknown format '"@ + text::trimmed(part)
                    + "' (expected csv, srt, vbo, gpx, fit, igc)"@,
            ),
            Some(f) => cli::with_format(chosen, part) == Ok::<Seq<Format>, Seq<char>>(
                if chosen.contains(f) {
                    chosen
                } else {
                    chosen.push(f)
                },
            ),
        },
{
    lemma_trimmed_twice(part);
}

proof fn lemma_trimmed_twice(s: Seq<char>)
    ensures
        text::trimmed(text::trimmed(s)) == text::trimmed(s),
{
    let a = text::trimmed_start(s);
    lemma_start_is_tight(s);
    lemma_end_is_tight(a);
    laws::tight_texts_stay(text::trimmed(s));
}

proof fn lemma_start_is_tight(s: Seq<char>)
    ensures
        text::trimmed_start(s).len() > 0 ==> !text::white(text::trimmed_start(s).first()),
    decreases s.len(),
{
    if s.len() > 0 && text::white(s.first()) {
        lemma_start_is_tight(s.drop_first());
    }
}

proof fn lemma_end_is_tight(s: Seq<char>)
    ensures
        ({
            let t = text::stripped_end(s, |c: char| text::white(c));
            t.len() > 0 ==> !text::white(t.last()) && s.len() > 0 && t.first() == s.first()
        }),
    decreases s.len(),
{
    if s.len() > 0 && text::white(s.last()) {
        lemma_end_is_tight(s.drop_last());
    }
}

/// The first option that cannot be understood is told: the removal of gravity, then the
/// unit, then the axes, then those to invert.
pub proof fn the_first_wrong_option_is_told(args: Args, medians: Vector64)
    ensures
        ({
            let r = cli::process_options(args, medians);
            let gravity = GravityMode::named(text::lowered(args.gravity@));
            let unit = cli::unit_of(dji::chars(args.unit));
            let axes = cli::axes_of(args.axes@, medians);
            &&& gravity is None ==> r is Err && r->Err_0 == "unknown --gravity '"@ + args.gravity@
                + "'"@
            &&& gravity is Some && unit is Err ==> r is Err && r->Err_0 == unit->Err_0
            &&& gravity is Some && unit is Ok && axes is Err ==> r is Err && r->Err_0 == axes->Err_0
            &&& gravity is Some && unit is Ok && axes is Ok ==> match cli::with_all_inverted(
                axes->Ok_0,
                text::parts(args.invert@, ','),
            ) {
                Err(e) => r is Err && r->Err_0 == e,
                Ok(a) => r is Ok && r->Ok_0.axes == a,
            }
        }),
{
}

/// Axes are guessed where `auto` is asked for, in upper or lower case and with white
/// space around it, and else read; what is wrong with them is told of the option.
pub proof fn axes_are_guessed_or_read(axes: Seq<char>, medians: Vector64)
    ensures
        text::lowered(text::trimmed(axes)) == "auto"@ ==> cli::axes_of(axes, medians) == Ok::<
            AxisMap,
            Seq<char>,
        >(process::guessed_map(medians)),
        text::lowered(text::trimmed(axes)) != "auto"@ ==> match process::map_of(
            text::trimmed(axes),
        ) {
            Ok(map) => cli::axes_of(axes, medians) == Ok::<AxisMap, Seq<char>>(map),
            Err(e) => cli::axes_of(axes, medians) == Err::<AxisMap, Seq<char>>("--axes: "@ + e),
        },
{
}

} // verus!
