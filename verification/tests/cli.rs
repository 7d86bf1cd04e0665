//! Options of the command line and the summary of a clip.

use dji_telemetry_export::cli::summary::{json_escape, JsonTexts, SummaryTexts};
use dji_telemetry_export::cli::{
    build_export_options, build_process_options, exit_code, format_line, invert, looks_like_flag,
    parse_formats, parse_unit, progress_step, skipped_line, summary_json, summary_lines, to_write,
    wants_command_line, written_line, Args,
};
use dji_telemetry_export::dji::{ClipInfo, Sample, SampleTime, StartTimeSource};
use dji_telemetry_export::export::{Format, Written};
use dji_telemetry_export::ieee::{Binary32, Binary64};
use dji_telemetry_export::process::{
    process, AccelUnit, Axis, AxisMap, ExportRate, GravityMode, Measured, Numbers, ProcessOptions,
    Telemetry, Vector64,
};
use dji_telemetry_export::time::Timestamp;

fn double(v: f64) -> Binary64 {
    Binary64 { bits: v.to_bits() }
}

fn vector(x: f64, y: f64, z: f64) -> Vector64 {
    Vector64 {
        x: double(x),
        y: double(y),
        z: double(z),
    }
}

fn args() -> Args {
    Args {
        gravity: "quat".to_string(),
        highpass_window: double(1.0),
        axes: "auto".to_string(),
        invert: String::new(),
        no_level: false,
        rate: "native".to_string(),
        unit: None,
        raw_axes: false,
        no_orientation: false,
        no_exposure: false,
        lean_angle: false,
    }
}

#[test]
fn format_list_parsing() {
    assert_eq!(parse_formats("csv, gpx").unwrap(), vec![Format::Csv, Format::Gpx]);
    assert_eq!(parse_formats("all").unwrap().len(), 6);
    assert!(parse_formats("kml").is_err());
    assert!(parse_formats("").is_err());
}

#[test]
fn format_lists_in_other_words() {
    assert_eq!(parse_formats(" ALL ").unwrap(), Format::ALL.to_vec());
    assert_eq!(
        parse_formats("fit,,CSV, fit,").unwrap(),
        vec![Format::Fit, Format::Csv]
    );
    assert_eq!(
        parse_formats("csv, kml ,xyz").unwrap_err(),
        "unknown format 'kml' (expected csv, srt, vbo, gpx, fit, igc)"
    );
    assert_eq!(parse_formats(" , ").unwrap_err(), "no export format selected");
}

#[test]
fn processing_options() {
    let medians = vector(0.01, 0.02, 0.99);
    let o = build_process_options(&args(), medians).unwrap();
    assert_eq!(o.gravity, GravityMode::Quaternion);
    assert_eq!((o.axes.lateral, o.axes.vertical), (Axis::Y, Axis::Z));
    assert!(o.level);
    assert_eq!(o.unit_override, None);

    let a = Args {
        gravity: "HighPass".to_string(),
        axes: "xyz".to_string(),
        invert: "lat, vertical".to_string(),
        no_level: true,
        unit: Some("M/S2".to_string()),
        ..args()
    };
    let o = build_process_options(&a, medians).unwrap();
    assert_eq!(o.gravity, GravityMode::HighPass);
    assert_eq!(o.unit_override, Some(AccelUnit::MetersPerSecondSquared));
    assert!(o.axes.invert_lateral && o.axes.invert_vertical && !o.axes.invert_longitudinal);
    assert!(!o.level);
}

#[test]
fn the_first_bad_option_is_reported() {
    let medians = vector(0.0, 0.0, 1.0);
    let error = |a: Args| build_process_options(&a, medians).unwrap_err();
    let bad = || Args {
        gravity: "moon".to_string(),
        unit: Some("Feet".to_string()),
        axes: "xx".to_string(),
        invert: "Up".to_string(),
        ..args()
    };
    assert_eq!(error(bad()), "unknown --gravity 'moon'");
    let bad = || Args {
        gravity: "none".to_string(),
        ..bad()
    };
    assert_eq!(error(bad()), "unknown --unit 'feet'");
    let bad = || Args {
        unit: Some("mg".to_string()),
        ..bad()
    };
    assert_eq!(
        error(bad()),
        "--axes: invalid axis spec 'xx', expected key=axis"
    );
    let bad = || Args {
        axes: "zyx".to_string(),
        ..bad()
    };
    assert_eq!(error(bad()), "--invert: unknown axis 'up'");
}

#[test]
fn export_options_follow_the_switches() {
    let a = Args {
        rate: "10".to_string(),
        raw_axes: true,
        no_orientation: true,
        no_exposure: true,
        lean_angle: true,
        ..args()
    };
    let o = build_export_options(&a, Some(double(10.0))).unwrap();
    assert!(o.include_raw_axes && o.lean_angle_from_roll);
    assert!(!o.include_orientation && !o.include_exposure);
    assert_eq!(o.rate, ExportRate::Hz(double(10.0)));
    assert_eq!(
        build_export_options(&a, Some(double(-1.0))).unwrap_err(),
        "--rate must be 'native' or a positive number of Hz"
    );
    assert_eq!(
        build_export_options(&args(), None).unwrap().rate,
        ExportRate::Native
    );
}

#[test]
fn inverting_twice_is_nothing() {
    let m = AxisMap::default();
    assert_eq!(invert(m, "lat,lateral").unwrap(), m);
    assert_ne!(invert(m, "lon").unwrap(), m);
    assert_eq!(parse_unit(&Some("mg".to_string())), Ok(Some(AccelUnit::MilliG)));
    assert_eq!(parse_unit(&None), Ok(None));
}

#[test]
fn progress_comes_in_tenths() {
    assert_eq!(progress_step(0, 50, None), Some(0));
    assert_eq!(progress_step(0, 50, Some(0)), None);
    assert_eq!(progress_step(3, 50, Some(0)), None);
    assert_eq!(progress_step(5, 50, Some(0)), Some(10));
    assert_eq!(progress_step(7, 0, None), Some(0));
    assert_eq!(progress_step(50, 50, Some(90)), Some(100));
}

#[test]
fn the_command_line_needs_more_than_a_file() {
    assert!(!wants_command_line(0, "", false));
    assert!(!wants_command_line(1, "clip.mp4", true));
    assert!(wants_command_line(1, "clip.mp4", false));
    assert!(wants_command_line(1, "-h", true));
    assert!(wants_command_line(2, "clip.mp4", true));
    assert!(looks_like_flag("--info"));
    assert!(!looks_like_flag(""));
}

fn telemetry(info: ClipInfo) -> Telemetry {
    let measured = Measured {
        unit: AccelUnit::G,
        unit_median_magnitude: double(1.0),
        gravity_world: Some(vector(0.0, 0.0, 1.0)),
        axis_medians: vector(0.0, 0.0, 1.0),
        tilt_deg: Some(double(12.0)),
    };
    process(info, &[], &ProcessOptions::default(), &measured, &[])
}

fn texts() -> SummaryTexts {
    SummaryTexts {
        fps: "29.97".to_string(),
        duration: "5.0".to_string(),
        rate: "29.97".to_string(),
        median: "1.000".to_string(),
        median_x: "+0.000".to_string(),
        median_y: "+0.001".to_string(),
        median_z: "+1.000".to_string(),
        tilt: "12.0".to_string(),
        gravity_x: "+0.000".to_string(),
        gravity_y: "+0.000".to_string(),
        gravity_z: "+1.000".to_string(),
    }
}

fn info() -> ClipInfo {
    ClipInfo {
        model: Some("DJI \"5\" Pro".to_string()),
        serial: Some("S1".to_string()),
        proto_name: Some("dvtm_ac204.proto".to_string()),
        proto_version: Some("2.0.1".to_string()),
        width: Some(3840),
        height: Some(2160),
        fps: Some(Binary32 {
            bits: 29.97f32.to_bits(),
        }),
        remote_name: Some("DJI AC004".to_string()),
        start_local: Timestamp::new(1_789_552_793, 0),
        start_time_source: StartTimeSource::FileName,
        utc_offset_minutes: Some(-210),
        sample_count: 150,
        gps_status_counts: [0, 150, 0],
        ..ClipInfo::default()
    }
}

#[test]
fn summary_has_a_line_for_each_fact() {
    let lines = summary_lines(&telemetry(info()), &texts());
    let expected = [
        ("Camera", "DJI \"5\" Pro"),
        ("Serial", "S1"),
        ("Schema", "dvtm_ac204.proto v2.0.1"),
        ("Video", "3840×2160 @ 29.97 fps"),
        ("Metadata track", ""),
        ("Samples", "150 over 5.0 s (≈29.97 Hz)"),
        (
            "Accelerometer",
            "unit g (median |a| = 1.000), body-axis medians X +0.000 Y +0.001 Z +1.000 g",
        ),
        (
            "Axis mapping",
            "lateral = X, longitudinal = Y, vertical = Z",
        ),
        ("Camera tilt", "12.0° (levelled)"),
        (
            "Gravity removal",
            "quat — world gravity (+0.000, +0.000, +1.000) g",
        ),
        (
            "GPS",
            "DJI AC004 connected, no fix (status invalid in 150 of 150 samples)",
        ),
        (
            "Start time",
            "2026-09-16 09:59:53 camera clock (file name (camera clock)), UTC-03:30",
        ),
    ];
    let found: Vec<(&str, &str)> = lines.iter().map(|(k, v)| (k.as_str(), v.as_str())).collect();
    assert_eq!(found, expected);
}

#[test]
fn summary_of_an_unknown_clip() {
    let lines = summary_lines(&telemetry(ClipInfo::default()), &texts());
    assert_eq!(lines[0], ("Camera".to_string(), "unknown".to_string()));
    let of = |key: &str| lines.iter().find(|l| l.0 == key).map(|l| l.1.as_str());
    assert_eq!(of("GPS"), Some("no GPS remote connected"));
    assert_eq!(of("Start time"), Some("unknown"));
    assert_eq!(of("Serial"), None);

    let with_fixes = ClipInfo {
        gps_fix_count: 7,
        gps_status_counts: [5, 0, 2],
        utc_offset_minutes: Some(-30),
        ..info()
    };
    let lines = summary_lines(&telemetry(with_fixes), &texts());
    let of = |key: &str| lines.iter().find(|l| l.0 == key).map(|l| l.1.as_str());
    assert_eq!(of("GPS"), Some("DJI AC004: 7 fixes in 150 samples (2 RTK)"));
    assert!(of("Start time").unwrap().ends_with(", UTC+00:30"));
}

#[test]
fn json_summary() {
    let x = JsonTexts {
        duration: "5.000".to_string(),
        median_x: "0.0000".to_string(),
        median_y: "0.0010".to_string(),
        median_z: "1.0000".to_string(),
    };
    let json = summary_json(&telemetry(info()), &x);
    assert!(
        json.starts_with(
            "{\"model\": \"DJI \\\"5\\\" Pro\", \"serial\": \"S1\", \"firmware\": \"\", \
             \"proto\": \"dvtm_ac204.proto\", \"samples\": 150, \"duration_s\": 5.000, \
             \"gps_fixes\": 0, \"remote\": \"DJI AC004\", \"accel_unit\": \"g\", \
             \"axis_medians_g\": [0.0000, 0.0010, 1.0000], \
             \"start_local\": \"2026-09-16T09:59:53\", \"utc_offset_minutes\": -210, \
             \"formats\": {\"csv\": \"Fewer than two telemetry samples.\", "
        ),
        "{json}"
    );
    assert!(json.ends_with("\"}}"), "{json}");
    let unknown = summary_json(&telemetry(ClipInfo::default()), &x);
    assert!(unknown.contains("\"start_local\": \"\", \"utc_offset_minutes\": null"));
}

#[test]
fn json_texts_are_quoted() {
    assert_eq!(json_escape("a\\b\"c"), "a\\\\b\\\"c");
    assert_eq!(json_escape("plain"), "plain");
}

#[test]
fn formats_and_files_have_lines() {
    let t = telemetry(ClipInfo::default());
    assert_eq!(
        format_line(Format::Csv, &t),
        "CSV  unavailable: Fewer than two telemetry samples."
    );
    let w = Written {
        format: Format::Fit,
        path: "a.fit".to_string(),
        rows: 5,
        bytes: 321,
    };
    assert_eq!(written_line(&w), "FIT  a.fit (5 rows, 321 bytes)");
}

/// Telemetry of two samples without positions and exposure.
fn two_rows() -> Telemetry {
    let zero = Binary64 { bits: 0 };
    let one = Binary64 {
        bits: 1.0f64.to_bits(),
    };
    let up = Vector64 {
        x: zero,
        y: zero,
        z: one,
    };
    let sample = Sample {
        time: SampleTime::Frame { at: 0, base: 0 },
        frame: 0,
        acc: None,
        quat: None,
        iso: None,
        shutter: None,
        color_temperature: None,
        gps: None,
    };
    let numbers = Numbers {
        t: zero,
        raw: None,
        dynamic: None,
        combined: zero,
        angles: None,
        altitude: zero,
        step: None,
        speed_by_positions: zero,
        speed_by_velocity: zero,
        heading_by_positions: zero,
        heading_by_velocity: zero,
        distance: zero,
    };
    let measured = Measured {
        unit: AccelUnit::G,
        unit_median_magnitude: one,
        gravity_world: None,
        axis_medians: up,
        tilt_deg: None,
    };
    process(
        ClipInfo::default(),
        &[sample, sample],
        &ProcessOptions::default(),
        &measured,
        &[numbers, numbers],
    )
}

#[test]
fn skipped_formats_set_the_exit_code() {
    let t = two_rows();
    let all = parse_formats("all").unwrap();
    assert_eq!(to_write(&all, &t), vec![Format::Csv, Format::Vbo]);
    assert_eq!(exit_code(&all, &t), 2);
    let some = [Format::Vbo, Format::Csv];
    assert_eq!(to_write(&some, &t), some.to_vec());
    assert_eq!(exit_code(&some, &t), 0);
    let mixed = [Format::Gpx, Format::Csv, Format::Srt];
    assert_eq!(to_write(&mixed, &t), vec![Format::Csv]);
    assert_eq!(exit_code(&mixed, &t), 2);
    assert_eq!(exit_code(&[], &t), 0);
    assert!(to_write(&[Format::Igc], &t).is_empty());
    assert_eq!(
        skipped_line(Format::Gpx, "no positions"),
        "GPX  skipped: no positions"
    );
}
