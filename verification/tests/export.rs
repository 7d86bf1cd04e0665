//! Output formats.

use dji_telemetry_export::dji::{ClipInfo, GpsFix, Quaternion, Sample, SampleTime, StartTimeSource, Vector};
use dji_telemetry_export::export::{
    self, availability, csv, effective_rate, file_name, fit, gpx, igc, is_merged, num, opt,
    resampled, srt, vbo, xml_escape, ExportError, ExportOptions, Format, Numbers,
};
use dji_telemetry_export::ieee::{Binary32, Binary64};
use dji_telemetry_export::process::{
    self, bin_starts, AccelUnit, ExportRate, Means, Measured, ProcessOptions, Row, Telemetry,
    Vector64,
};
use dji_telemetry_export::time::Timestamp;

fn single(v: f32) -> Binary32 {
    Binary32 { bits: v.to_bits() }
}

fn double(v: f64) -> Binary64 {
    Binary64 { bits: v.to_bits() }
}

fn float(v: Binary64) -> f64 {
    f64::from_bits(v.bits)
}

fn vector(x: f64, y: f64, z: f64) -> Vector64 {
    Vector64 {
        x: double(x),
        y: double(y),
        z: double(z),
    }
}

/// 5 seconds at 30 Hz, level camera, small lateral burst; optional GPS at every sample.
fn telemetry(with_gps: bool) -> Telemetry {
    let mut samples = Vec::new();
    let mut numbers = Vec::new();
    for i in 0..150u64 {
        let t = i as f64 / 30.0;
        let lateral = if (60..90).contains(&i) { 0.8 } else { 0.0 };
        let mut s = Sample {
            time: SampleTime::Frame { at: i, base: 0 },
            frame: i,
            acc: Some(Vector {
                x: single(lateral as f32),
                y: single(0.1),
                z: single(1.0),
            }),
            quat: Some(Quaternion {
                w: single(1.0),
                x: single(0.0),
                y: single(0.0),
                z: single(0.0),
            }),
            iso: Some(single(100.0)),
            shutter: Some((1, 2000)),
            color_temperature: Some(5500),
            gps: None,
        };
        let mut n = process::Numbers {
            t: double(t),
            raw: Some(vector(lateral, 0.1, 1.0)),
            dynamic: Some(vector(lateral, 0.0, 0.0)),
            combined: double(lateral),
            angles: Some(vector(0.0, 0.0, 0.0)),
            altitude: double(0.0),
            step: None,
            speed_by_positions: double(0.0),
            speed_by_velocity: double(0.0),
            heading_by_positions: double(0.0),
            heading_by_velocity: double(0.0),
            distance: double(0.0),
        };
        if with_gps {
            s.gps = Some(GpsFix {
                latitude: double(55.75 + 0.00002 * i as f64),
                longitude: double(37.62 + 0.00001 * i as f64),
                altitude_mm: Some(150_000 + i as i64 * 10),
                status: 0,
                velocity: Some(Vector {
                    x: single(2.0),
                    y: single(1.5),
                    z: single(0.0),
                }),
                time: None,
            });
            n.altitude = double(150.0 + i as f64 * 0.01);
            n.speed_by_velocity = double(2.0f64.hypot(1.5));
            n.heading_by_velocity = double(2.0f64.atan2(1.5).to_degrees());
            n.distance = double(2.3 * i as f64);
        }
        samples.push(s);
        numbers.push(n);
    }
    let info = ClipInfo {
        model: Some("DJI OsmoAction5 Pro".to_string()),
        serial: Some("SERIAL01".to_string()),
        firmware: Some("10.00.16.13".to_string()),
        fps: Some(single(29.97)),
        remote_name: Some("DJI AC004".to_string()),
        // 2026-09-16 09:59:53
        start_local: Timestamp::new(1_789_552_793, 0),
        start_time_source: StartTimeSource::FileName,
        utc_offset_minutes: Some(120),
        sample_count: 150,
        gps_fix_count: if with_gps { 150 } else { 0 },
        gps_status_counts: if with_gps { [150, 0, 0] } else { [0, 150, 0] },
        ..ClipInfo::default()
    };
    let measured = Measured {
        unit: AccelUnit::G,
        unit_median_magnitude: double(1.0),
        gravity_world: Some(vector(0.0, 0.1, 1.0)),
        axis_medians: vector(0.0, 0.1, 1.0),
        tilt_deg: Some(double(0.0)),
    };
    process::process(info, &samples, &ProcessOptions::default(), &measured, &numbers)
}

fn merged(t: &Telemetry, format: Format) -> Telemetry {
    let options = ExportOptions::default();
    let hz = match effective_rate(format, options.rate) {
        ExportRate::Hz(hz) => float(hz),
        ExportRate::Native => panic!("no rate"),
    };
    assert!(is_merged(format, &options));
    let bins: Vec<i64> = t
        .rows
        .iter()
        .map(|r| (float(r.t) * hz + 1e-9).floor() as i64)
        .collect();
    let means: Vec<Means> = bin_starts(&bins)
        .iter()
        .map(|from| {
            let r = &t.rows[*from];
            Means {
                lateral: r.lateral,
                longitudinal: r.longitudinal,
                vertical: r.vertical,
                combined: r.combined.unwrap(),
                raw_x: r.raw.map(|v| v.x),
                raw_y: r.raw.map(|v| v.y),
                raw_z: r.raw.map(|v| v.z),
            }
        })
        .collect();
    resampled(t.clone(), format, &options, &bins, &means)
}

fn text(v: Option<Binary64>, decimals: usize) -> String {
    v.map(|v| format!("{:.decimals$}", float(v))).unwrap_or_default()
}

fn micros(r: &Row) -> i64 {
    (float(r.t) * 1e6).round() as i64
}

fn csv_texts(t: &Telemetry) -> Vec<csv::RowTexts> {
    t.rows
        .iter()
        .map(|r| csv::RowTexts {
            micros: micros(r),
            t: text(Some(r.t), 6),
            lateral: text(r.lateral, 5),
            longitudinal: text(r.longitudinal, 5),
            vertical: text(r.vertical, 5),
            combined: text(r.combined, 5),
            raw_x: text(r.raw.map(|v| v.x), 5),
            raw_y: text(r.raw.map(|v| v.y), 5),
            raw_z: text(r.raw.map(|v| v.z), 5),
            roll: text(r.roll, 2),
            pitch: text(r.pitch, 2),
            yaw: text(r.yaw, 2),
            iso: "100".to_string(),
            shutter: "0.000500".to_string(),
            latitude: text(r.latitude, 7),
            longitude: text(r.longitude, 7),
            altitude: text(r.altitude_m, 2),
            speed: text(r.speed_ms, 3),
            heading: text(r.heading_deg, 2),
            distance: text(r.distance_m, 2),
        })
        .collect()
}

fn millis(seconds: f64) -> u64 {
    (seconds * 1000.0).round().max(0.0) as u64
}

fn srt_text(t: &Telemetry) -> String {
    let first = srt::first_altitude(&t.rows).map(float);
    let step = 1.0 / f64::from(f32::from_bits(srt::frame_rate(t.info.fps).unwrap().bits));
    let end = |i: usize| match t.rows.get(i + 1) {
        Some(r) => float(r.t),
        None => float(t.rows[i].t) + step,
    };
    let texts: Vec<srt::CueTexts> = t
        .rows
        .iter()
        .enumerate()
        .map(|(i, r)| srt::CueTexts {
            micros: micros(r),
            millis: millis(float(r.t)),
            diff_ms: millis(end(i) - float(r.t)),
            iso: "100".to_string(),
            shutter_seconds: double(1.0 / 2000.0),
            shutter: "0.0".to_string(),
            shutter_inverse: "2000.0".to_string(),
            latitude: text(r.latitude, 6),
            longitude: text(r.longitude, 6),
            relative_altitude: r
                .altitude_m
                .map(|a| format!("{:.3}", float(a) - first.unwrap()))
                .unwrap_or_default(),
            altitude: text(r.altitude_m, 3),
        })
        .collect();
    srt::render(t, &texts, millis(end(t.rows.len() - 1)))
}

fn gpx_texts(t: &Telemetry) -> Vec<gpx::PointTexts> {
    t.rows
        .iter()
        .map(|r| gpx::PointTexts {
            micros: micros(r),
            t: text(Some(r.t), 3),
            latitude: text(r.latitude, 7),
            longitude: text(r.longitude, 7),
            altitude: text(r.altitude_m, 2),
            speed: text(r.speed_ms, 3),
            heading: text(r.heading_deg, 2),
            distance: text(r.distance_m, 2),
            combined: text(r.combined, 4),
            lateral: text(r.lateral, 4),
            longitudinal: text(r.longitudinal, 4),
            vertical: text(r.vertical, 4),
        })
        .collect()
}

fn semicircles(deg: f64) -> i32 {
    (deg / 180.0 * 2_147_483_648.0).round() as i32
}

fn fit_quantities(t: &Telemetry) -> Vec<fit::Quantities> {
    let number = |v: Option<Binary64>| v.map(float).unwrap_or(0.0);
    t.rows
        .iter()
        .map(|r| fit::Quantities {
            second: float(r.t).floor() as u32,
            latitude: semicircles(number(r.latitude)),
            longitude: semicircles(number(r.longitude)),
            altitude: ((number(r.altitude_m) + 500.0) * 5.0).round() as u16,
            distance: (number(r.distance_m) * 100.0).round() as u32,
            speed: (number(r.speed_ms) * 1000.0).round() as u16,
            enhanced_speed: (number(r.speed_ms) * 1000.0).round() as u32,
            enhanced_altitude: ((number(r.altitude_m) + 500.0) * 5.0).round() as u32,
        })
        .collect()
}

fn angle(v: f64) -> igc::Angle {
    let size = v.abs();
    igc::Angle {
        degrees: size.floor() as u32,
        thousandths: ((size - size.floor()) * 60.0 * 1000.0).round() as u32,
    }
}

fn igc_numbers(t: &Telemetry) -> Vec<igc::RecordNumbers> {
    let number = |v: Option<Binary64>| v.map(float).unwrap_or(0.0);
    t.rows
        .iter()
        .map(|r| igc::RecordNumbers {
            micros: micros(r),
            latitude: angle(number(r.latitude)),
            longitude: angle(number(r.longitude)),
            altitude: number(r.altitude_m).round() as i64,
            speed: (number(r.speed_ms) * 3.6 * 100.0).round() as i64,
            heading: number(r.heading_deg).round() as i64,
        })
        .collect()
}

fn vbo_texts(t: &Telemetry) -> Vec<vbo::RowTexts> {
    let minutes = |v: Option<Binary64>, by: f64| {
        v.map(|v| format!("{:.5}", float(v) * by)).unwrap_or_default()
    };
    t.rows
        .iter()
        .map(|r| vbo::RowTexts {
            micros: micros(r),
            longitudinal: text(r.longitudinal, 5),
            lateral: text(r.lateral, 5),
            vertical: text(r.vertical, 5),
            latitude: minutes(r.latitude, 60.0),
            longitude: minutes(r.longitude, -60.0),
            velocity: text(r.speed_ms.map(|v| double(float(v) * 3.6)), 3),
            heading: text(r.heading_deg, 2),
            height: text(r.altitude_m, 2),
        })
        .collect()
}

#[test]
fn gps_formats_are_unavailable_without_fix() {
    let t = telemetry(false);
    for f in [Format::Gpx, Format::Fit, Format::Igc] {
        let err = availability(f, &t).unwrap_err();
        assert!(err.contains("GPS_INVALID"), "{err}");
    }
    for f in [Format::Csv, Format::Srt, Format::Vbo] {
        availability(f, &t).unwrap();
    }
}

#[test]
fn everything_available_with_gps() {
    let t = telemetry(true);
    for f in Format::ALL {
        availability(f, &t).unwrap();
    }
}

#[test]
fn effective_rates() {
    assert_eq!(
        effective_rate(Format::Csv, ExportRate::Native),
        ExportRate::Native
    );
    assert_eq!(
        effective_rate(Format::Gpx, ExportRate::Native),
        ExportRate::Hz(double(10.0))
    );
    assert_eq!(
        effective_rate(Format::Igc, ExportRate::Hz(double(10.0))),
        ExportRate::Hz(double(1.0))
    );
    assert_eq!(
        effective_rate(Format::Csv, ExportRate::Hz(double(5.0))),
        ExportRate::Hz(double(5.0))
    );
}

/// Mirrors OVRLEY's `normalize_syntax` + `split_header` just enough to prove our
/// headers resolve to the aliases in its registry.
fn ovrley_semantic(header: &str) -> String {
    let normalized: String = header
        .trim()
        .chars()
        .map(|c| match c {
            '_' | '-' => ' ',
            o => o.to_ascii_lowercase(),
        })
        .collect::<String>()
        .split_whitespace()
        .collect::<Vec<_>>()
        .join(" ");
    match normalized.rfind('(') {
        Some(open) if normalized.ends_with(')') => normalized[..open].trim().to_string(),
        _ => normalized,
    }
}

const OVRLEY_ALIASES: &[&str] = &[
    "elapsed time",
    "lateral acceleration",
    "longitudinal acceleration",
    "vertical acceleration",
    "combined acceleration",
    "accel x",
    "accel y",
    "accel z",
    "lean angle",
    "latitude",
    "longitude",
    "altitude",
    "speed",
    "heading",
    "distance",
    "utc time",
];

#[test]
fn ovrley_relevant_headers_resolve_to_known_aliases() {
    let t = telemetry(true);
    let opts = ExportOptions {
        include_raw_axes: true,
        lean_angle_from_roll: true,
        ..ExportOptions::default()
    };
    let known: Vec<String> = csv::header(&t, &opts)
        .into_iter()
        .map(ovrley_semantic)
        .filter(|s| OVRLEY_ALIASES.contains(&s.as_str()))
        .collect();
    for alias in OVRLEY_ALIASES {
        assert!(known.iter().any(|k| k == alias), "missing OVRLEY alias {alias}");
    }
}

#[test]
fn csv_without_gps_has_no_position_columns_and_monotonic_time() {
    let t = telemetry(false);
    let text = csv::render(&t, &ExportOptions::default(), &csv_texts(&t));
    let mut lines = text.lines();
    let head = lines.next().unwrap();
    assert!(head.starts_with(
        "Elapsed time (s),Lateral acceleration (g),Longitudinal acceleration (g)"
    ));
    assert!(!head.contains("Latitude"));
    assert!(!head.contains("Lean angle"));
    let mut last = -1.0;
    for line in lines {
        let t: f64 = line.split(',').next().unwrap().parse().unwrap();
        assert!(t >= last);
        last = t;
    }
    assert_eq!(text.lines().count(), 151);
}

#[test]
fn csv_with_gps_has_utc_column() {
    let t = telemetry(true);
    let text = csv::render(&t, &ExportOptions::default(), &csv_texts(&t));
    let head = text.lines().next().unwrap();
    assert!(head.ends_with(
        "Latitude,Longitude,Altitude (m),Speed (m/s),Heading (deg),Distance (m),UTC time"
    ));
    let row = text.lines().nth(1).unwrap();
    assert!(row.ends_with("2026-09-16T07:59:53.000Z"), "{row}");
    assert!(row.contains(",55.7500000,37.6200000,"));
}

#[test]
fn csv_rows_fill_all_columns() {
    let t = telemetry(true);
    for bits in 0..16 {
        let options = ExportOptions {
            include_raw_axes: bits & 1 != 0,
            include_orientation: bits & 2 != 0,
            include_exposure: bits & 4 != 0,
            lean_angle_from_roll: bits & 8 != 0,
            rate: ExportRate::Native,
        };
        let columns = csv::header(&t, &options).len();
        let text = csv::render(&t, &options, &csv_texts(&t));
        for line in text.lines() {
            assert_eq!(line.split(',').count(), columns);
        }
        assert!(text.ends_with('\n'));
    }
}

#[test]
fn csv_row_in_full() {
    let t = telemetry(true);
    let options = ExportOptions {
        include_raw_axes: true,
        lean_angle_from_roll: true,
        ..ExportOptions::default()
    };
    let text = csv::render(&t, &options, &csv_texts(&t));
    assert_eq!(
        text.lines().nth(61).unwrap(),
        "2.000000,0.80000,0.00000,0.00000,0.80000,0.80000,0.10000,1.00000,0.00,0.00,0.00,0.00,\
         100,0.000500,5500,55.7512000,37.6206000,150.60,2.500,53.13,138.00,2026-09-16T07:59:55.000Z"
    );
}

#[test]
fn crc_reference_vector() {
    // From the FIT SDK: CRC of a 14-byte header with these fields is verifiable by re-check.
    let data = b"123456789";
    assert_eq!(fit::crc16(data), 0xBB3D);
}

#[test]
fn fit_round_trips_through_fitparser() {
    let t = telemetry(true);
    let t = merged(&t, Format::Fit);
    let bytes = fit::render(&t, &fit_quantities(&t));
    assert_eq!(&bytes[8..12], b".FIT");
    let records = fitparser::from_bytes(&bytes).expect("fitparser accepts the file");
    let recs: Vec<_> = records
        .iter()
        .filter(|r| r.kind() == fitparser::profile::MesgNum::Record)
        .collect();
    assert_eq!(recs.len(), 5);
    let lat = recs[0]
        .fields()
        .iter()
        .find(|f| f.name() == "position_lat")
        .map(|f| f.value().clone())
        .unwrap();
    let lat_deg: f64 = match lat {
        fitparser::Value::Float64(v) => v,
        fitparser::Value::SInt32(v) => f64::from(v) * 180.0 / 2_147_483_648.0,
        other => panic!("unexpected {other:?}"),
    };
    assert!((lat_deg - 55.75).abs() < 1e-4, "{lat_deg}");
    let speed = recs[0]
        .fields()
        .iter()
        .find(|f| f.name() == "speed" || f.name() == "enhanced_speed")
        .unwrap();
    match speed.value() {
        fitparser::Value::Float64(v) => assert!((v - 2.5).abs() < 1e-3),
        other => panic!("unexpected speed {other:?}"),
    }
    assert!(records
        .iter()
        .any(|r| r.kind() == fitparser::profile::MesgNum::Session));
    assert!(records
        .iter()
        .any(|r| r.kind() == fitparser::profile::MesgNum::FileId));
}

#[test]
fn fit_checksums_end_in_zero() {
    let t = merged(&telemetry(true), Format::Fit);
    let bytes = fit::render(&t, &fit_quantities(&t));
    assert_eq!(fit::crc16(&bytes), 0);
    assert_eq!(fit::crc16(&bytes[..14]), 0);
    assert_eq!(fit::crc16(&[]), 0);
    assert_eq!(bytes[0], 14);
    let body = u32::from_le_bytes([bytes[4], bytes[5], bytes[6], bytes[7]]);
    assert_eq!(body as usize + 16, bytes.len());
    // Seconds since 1989-12-31: 2026-09-16T07:59:53Z.
    let start = 1_789_545_593u32 - 631_065_600;
    assert_eq!(fit::fit_timestamp(Timestamp::new(1_789_545_593, 0).unwrap()), start);
    assert_eq!(fit::fit_timestamp(Timestamp::new(0, 0).unwrap()), 0);
    // One file definition of 21 bytes; the serial number behind the first bytes of its message.
    let serial = "SERIAL01"
        .bytes()
        .fold(0u32, |a, b| a.wrapping_mul(31).wrapping_add(u32::from(b)));
    assert_eq!(bytes[14 + 21 + 6..14 + 21 + 10], serial.to_le_bytes());
    assert_eq!(bytes[14 + 21 + 10..14 + 21 + 14], start.to_le_bytes());
}

#[test]
fn fit_writes_a_second_once() {
    let t = telemetry(true);
    let bytes = fit::render(&t, &fit_quantities(&t));
    let merged = merged(&t, Format::Fit);
    let fewer = fit::render(&merged, &fit_quantities(&merged));
    assert_eq!(bytes.len(), fewer.len());
}

#[test]
fn produces_well_formed_gpx_with_extensions() {
    let t = telemetry(true);
    let t = merged(&t, Format::Gpx);
    let text = gpx::render(&t, "D:\\clips\\DJI_0001.MP4", &gpx_texts(&t));
    let doc = roxmltree::Document::parse(&text).expect("valid XML");
    let pts: Vec<_> = doc.descendants().filter(|n| n.has_tag_name("trkpt")).collect();
    assert_eq!(pts.len(), 50, "10 Hz over 5 s");
    let first = pts[0];
    assert_eq!(first.attribute("lat"), Some("55.7500000"));
    let time = first
        .descendants()
        .find(|n| n.has_tag_name("time"))
        .unwrap()
        .text()
        .unwrap();
    assert_eq!(time, "2026-09-16T07:59:53.000Z");
    let speed = first
        .descendants()
        .find(|n| n.has_tag_name("speed"))
        .unwrap()
        .text()
        .unwrap();
    assert_eq!(speed, "2.500");
    assert!(first.descendants().any(|n| n.has_tag_name("g_force")));
    assert!(doc
        .descendants()
        .any(|n| n.has_tag_name("name") && n.text() == Some("DJI_0001.MP4")));
}

#[test]
fn gpx_escapes_names() {
    let mut t = merged(&telemetry(true), Format::Gpx);
    t.info.model = Some("A & B <c>".to_string());
    t.info.utc_offset_minutes = None;
    let text = gpx::render(&t, "it's \"it\".mp4", &gpx_texts(&t));
    assert!(text.contains("<name>it&apos;s &quot;it&quot;.mp4</name>"));
    assert!(text.contains("    <src>A &amp; B &lt;c&gt;</src>\n"));
    // Without the offset the camera's clock stands in.
    assert!(text.contains("    <time>2026-09-16T09:59:53.000Z</time>\n"));
    let doc = roxmltree::Document::parse(&text).expect("valid XML");
    assert!(doc.descendants().any(|n| n.text() == Some("A & B <c>")));
}

#[test]
fn coordinate_fields() {
    assert_eq!(igc::lat_field(double(55.75), angle(55.75)), "5545000N");
    assert_eq!(igc::lat_field(double(-33.8688), angle(-33.8688)), "3352128S");
    assert_eq!(igc::lon_field(double(37.62), angle(37.62)), "03737200E");
    assert_eq!(igc::lon_field(double(-1.209534), angle(-1.209534)), "00112572W");
    assert_eq!(igc::alt_field(150.4f64.round() as i64), "00150");
    assert_eq!(igc::alt_field((-44.8f64).round() as i64), "-0045");
}

#[test]
fn sixty_minutes_are_a_degree() {
    assert_eq!(igc::lat_field(double(9.9999999), angle(9.9999999)), "1000000N");
    assert_eq!(igc::lon_field(double(-0.0), angle(-0.0)), "00000000E");
    assert_eq!(igc::alt_field(-20_000), "-9999");
    assert_eq!(igc::alt_field(200_000), "99999");
}

#[test]
fn b_records_are_one_per_second_and_fixed_width() {
    let t = telemetry(true);
    let t = merged(&t, Format::Igc);
    let text = igc::render(&t, "clip.MP4", &igc_numbers(&t));
    assert!(text.starts_with("AXXXDJI-TELEMETRY-EXPORT\nHFDTE160926\n"));
    assert!(text.contains("I023640GSP4143TRT\n"));
    let b: Vec<&str> = text.lines().filter(|l| l.starts_with('B')).collect();
    assert_eq!(b.len(), 5);
    for line in &b {
        assert_eq!(line.len(), 43, "{line}");
    }
    // 07:59:53 UTC, 55.75N 37.62E, alt 150, speed 2.5 m/s = 9 km/h => GSP 00900, heading 53°
    assert_eq!(b[0], "B0759535545000N03737200EA001500015000900053");
    assert!(b[1].starts_with("B075954"));
}

#[test]
fn igc_header_in_full() {
    let mut t = merged(&telemetry(true), Format::Igc);
    t.info.utc_offset_minutes = None;
    t.info.serial = None;
    let text = igc::render(&t, "/videos/clip.MP4", &igc_numbers(&t));
    let head: Vec<&str> = text.lines().take_while(|l| !l.starts_with('B')).collect();
    assert_eq!(
        head,
        vec![
            "AXXXDJI-TELEMETRY-EXPORT",
            "HFDTE160926",
            "HFFXA010",
            "HFPLTPILOTINCHARGE:",
            "HFGTYGLIDERTYPE:DJI OsmoAction5 Pro",
            "HFGIDGLIDERID:",
            "HFDTMGPSDATUM:WGS84",
            "HFRFWFIRMWAREVERSION:10.00.16.13",
            "HFRHWHARDWAREVERSION:DJI AC004",
            "HFGPSRECEIVER:DJI AC004",
            "HFFTYFRTYPE:dji-telemetry-export,0.1.0",
            "HFPRSPRESSALTSENSOR:NONE",
            "HFCIDCOMPETITIONID:clip.MP4",
            "LXXXTIMES ARE CAMERA LOCAL TIME (UTC OFFSET UNKNOWN)",
            "I023640GSP4143TRT",
        ]
    );
}

#[test]
fn igc_headings_wrap_around() {
    let t = merged(&telemetry(true), Format::Igc);
    let mut numbers = igc_numbers(&t);
    numbers[0].heading = 360;
    numbers[1].heading = -1;
    numbers[2].speed = -5;
    numbers[3].speed = 1_000_000;
    let text = igc::render(&t, "clip.MP4", &numbers);
    let b: Vec<&str> = text.lines().filter(|l| l.starts_with('B')).collect();
    assert!(b[0].ends_with("000"));
    assert!(b[1].ends_with("359"));
    assert!(b[2].ends_with("00000053"));
    assert!(b[3].ends_with("99999053"));
}

#[test]
fn cue_layout_matches_dji_format_a() {
    let t = telemetry(true);
    let text = srt_text(&t);
    let first: Vec<&str> = text.lines().take(5).collect();
    assert_eq!(first[0], "1");
    assert_eq!(first[1], "00:00:00,000 --> 00:00:00,033");
    assert_eq!(first[2], "<font size=\"28\">FrameCnt: 1, DiffTime: 33ms");
    assert_eq!(first[3], "2026-09-16 09:59:53.000");
    assert!(first[4].starts_with("[iso: 100] [shutter: 1/2000.0] [ct: 5500] [latitude: 55.750000] [longitude: 37.620000] [rel_alt: 0.000 abs_alt: 150.000] </font>"), "{}", first[4]);
    // OVRLEY's Format A detector: a `[key:` within the first 3000 chars
    assert!(text[..3000.min(text.len())].contains("[iso:"));
}

#[test]
fn no_gps_means_no_position_fields() {
    let t = telemetry(false);
    let text = srt_text(&t);
    assert!(!text.contains("latitude"));
    assert!(text.contains("[shutter: 1/2000.0]"));
    assert_eq!(text.matches("--> ").count(), 150);
}

#[test]
fn srt_time_formatting() {
    assert_eq!(srt::srt_time(millis(3661.5)), "01:01:01,500");
    assert_eq!(srt::srt_time(millis(0.0334)), "00:00:00,033");
}

#[test]
fn cues_follow_each_other() {
    let text = srt_text(&telemetry(false));
    let times: Vec<(&str, &str)> = text
        .lines()
        .filter_map(|l| l.split_once(" --> "))
        .collect();
    for pair in times.windows(2) {
        assert_eq!(pair[0].1, pair[1].0);
    }
    assert_eq!(srt::srt_time(360_000_000), "100:00:00,000");
}

#[test]
fn long_exposures_are_in_seconds() {
    let t = telemetry(false);
    let mut row = t.rows[0];
    let texts = |seconds: f64| srt::CueTexts {
        micros: 0,
        millis: 0,
        diff_ms: 0,
        iso: String::new(),
        shutter_seconds: double(seconds),
        shutter: "2.0".to_string(),
        shutter_inverse: "0.5".to_string(),
        latitude: String::new(),
        longitude: String::new(),
        relative_altitude: String::new(),
        altitude: String::new(),
    };
    row.shutter = Some((2, 1));
    assert_eq!(srt::shutter_text(&row, &texts(2.0)).as_deref(), Some("2.0"));
    assert_eq!(srt::shutter_text(&row, &texts(0.5)).as_deref(), Some("1/0.5"));
    row.shutter = Some((0, 1));
    assert_eq!(srt::shutter_text(&row, &texts(0.0)), None);
    row.shutter = None;
    assert_eq!(srt::shutter_text(&row, &texts(0.0)), None);
    assert_eq!(srt::frame_rate(Some(single(0.0))), None);
    assert_eq!(srt::frame_rate(Some(single(f32::NAN))), None);
    assert_eq!(srt::frame_rate(None), None);
}

#[test]
fn vbo_has_the_documented_channels() {
    let t = telemetry(true);
    let text = vbo::render(&t, "clips/a.MP4", &vbo_texts(&t));
    assert!(text.starts_with("File created on 16/09/2026\n\n[header]\ntime\nLongAcc\nLatAcc\nVertAcc\nlat\nlong\nvelocity kmh\nheading\nheight\nsats\n"), "{text}");
    assert!(text.contains(
        "\n[column names]\ntime LongAcc LatAcc VertAcc lat long velocity heading height sats\n"
    ));
    let (_, data) = text.split_once("[data]\n").unwrap();
    assert_eq!(data.lines().count(), 150);
    assert_eq!(
        data.lines().next().unwrap(),
        "075953.000 0.00000 0.00000 0.00000 3345.00000 -2257.20000 9.000 53.13 150.00 004"
    );
    let t = telemetry(false);
    let text = vbo::render(&t, "a.MP4", &vbo_texts(&t));
    let (_, data) = text.split_once("[data]\n").unwrap();
    assert_eq!(
        data.lines().nth(60).unwrap(),
        "075955.000 0.00000 0.80000 0.00000"
    );
}

#[test]
fn vbo_without_a_clock_counts_from_the_start() {
    let mut t = telemetry(false);
    t.info.start_local = None;
    t.rows[1].vertical = None;
    let text = vbo::render(&t, "a.MP4", &vbo_texts(&t));
    assert!(text.starts_with("[header]\n"));
    let (_, data) = text.split_once("[data]\n").unwrap();
    assert_eq!(data.lines().nth(1).unwrap(), "000000.033 0.00000 0.00000 0");
}

#[test]
fn files_are_rendered_by_format() {
    let t = telemetry(true);
    let o = ExportOptions::default();
    let texts = csv_texts(&t);
    let bytes = export::render(&t, &t, &o, "x", &Numbers::Csv(&texts)).unwrap();
    assert_eq!(bytes, csv::render(&t, &o, &texts).into_bytes());
    let numbers = igc_numbers(&t);
    let bytes = export::render(&t, &t, &o, "x", &Numbers::Igc(&numbers)).unwrap();
    assert_eq!(bytes, igc::render(&t, "x", &numbers).into_bytes());
    let texts = gpx_texts(&t);
    let bytes = export::render(&t, &t, &o, "x", &Numbers::Gpx(&texts)).unwrap();
    assert_eq!(bytes, gpx::render(&t, "x", &texts).into_bytes());
    let texts = vbo_texts(&t);
    let bytes = export::render(&t, &t, &o, "x", &Numbers::Vbo(&texts)).unwrap();
    assert_eq!(bytes, vbo::render(&t, "x", &texts).into_bytes());
    let quantities = fit_quantities(&t);
    let bytes = export::render(&t, &t, &o, "x", &Numbers::Fit(&quantities)).unwrap();
    assert_eq!(bytes, fit::render(&t, &quantities));
}

#[test]
fn unsuitable_formats_are_refused() {
    let t = telemetry(false);
    let o = ExportOptions::default();
    let numbers = igc_numbers(&t);
    let error = export::render(&t, &t, &o, "x", &Numbers::Igc(&numbers)).unwrap_err();
    assert_eq!(
        error.message(),
        "No GPS fix in this clip — DJI AC004 reported GPS_INVALID in 150/150 samples. IGC needs at least two GPS fixes."
    );
    assert!(matches!(error, ExportError::Unavailable(_)));

    let mut t = telemetry(false);
    t.info.remote_name = None;
    assert_eq!(
        availability(Format::Gpx, &t).unwrap_err(),
        "No GPS data in this clip — no GPS remote (AC004) was connected. GPX needs at least two GPS fixes."
    );
    let mut t = telemetry(false);
    t.info.gps_status_counts = [1, 149, 0];
    t.info.gps_fix_count = 1;
    assert_eq!(
        availability(Format::Fit, &t).unwrap_err(),
        "Only 1 GPS fix(es) in 150 samples. FIT needs at least two GPS fixes."
    );
    let mut t = telemetry(false);
    for r in t.rows.iter_mut() {
        r.iso = None;
        r.shutter = None;
        r.color_temperature = None;
    }
    assert_eq!(
        availability(Format::Srt, &t).unwrap_err(),
        "SRT carries exposure and GPS data only, and this clip has neither."
    );
    t.rows.truncate(1);
    assert_eq!(
        availability(Format::Csv, &t).unwrap_err(),
        "Fewer than two telemetry samples."
    );
}

#[test]
fn rows_are_merged_to_the_rate() {
    let t = telemetry(true);
    let m = merged(&t, Format::Gpx);
    assert_eq!(m.rows.len(), 50);
    assert_eq!(m.gps_rows, 50);
    assert_eq!(m.info.model, t.info.model);
    let o = ExportOptions::default();
    let same = resampled(t.clone(), Format::Csv, &o, &[], &[]);
    assert_eq!(same.rows, t.rows);
    let odd = ExportOptions {
        rate: ExportRate::Hz(double(-1.0)),
        ..o
    };
    assert!(!is_merged(Format::Csv, &odd));
}

#[test]
fn formats_have_names() {
    for f in Format::ALL {
        assert_eq!(Format::parse(f.extension()), Some(f));
        assert_eq!(Format::parse(f.label()), Some(f));
        assert!(!f.description().is_empty());
        assert_eq!(f.requires_gps(), matches!(f, Format::Gpx | Format::Fit | Format::Igc));
    }
    assert_eq!(file_name("DJI_0001", Format::Vbo), "DJI_0001.vbo");
    assert_eq!(Format::parse("kml"), None);
}

#[test]
fn numbers_that_are_not_finite_are_empty() {
    assert_eq!(num(double(1.5), "1.50"), "1.50");
    assert_eq!(num(double(f64::NAN), "NaN"), "");
    assert_eq!(num(double(f64::NEG_INFINITY), "-inf"), "");
    assert_eq!(opt(None, "7"), "");
    assert_eq!(opt(Some(double(7.0)), "7"), "7");
    assert_eq!(xml_escape("a<b>&'\""), "a&lt;b&gt;&amp;&apos;&quot;");
}
