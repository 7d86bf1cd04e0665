//! Units, axes, rows and rates.

use dji_telemetry_export::dji::{ClipInfo, GpsFix, Quaternion, Sample, SampleTime, Vector};
use dji_telemetry_export::ieee::{Binary32, Binary64};
use dji_telemetry_export::process::{
    at_rate, auto_axis_map, axis_medians, bin_starts, count_gps, decimate, detect_accel_unit,
    enough_attitude, forward_only, gravity_used, heading_source, is_usable, pick, process,
    speed_source, window, AccelUnit, Axis, AxisMap, ExportRate, GravityMode, Means, Measured,
    Numbers, ProcessOptions, Row, Source, Step, Telemetry, Vector64,
};

fn single(v: f32) -> Binary32 {
    Binary32 { bits: v.to_bits() }
}

fn double(v: f64) -> Binary64 {
    Binary64 { bits: v.to_bits() }
}

fn float(v: Binary64) -> f64 {
    f64::from_bits(v.bits)
}

fn vector(x: f64, y: f64, z: f64) -> Vector64 {
    Vector64 {
        x: double(x),
        y: double(y),
        z: double(z),
    }
}

fn magnitudes(n: usize, a: [f64; 3]) -> Vec<Binary64> {
    vec![double((a[0] * a[0] + a[1] * a[1] + a[2] * a[2]).sqrt()); n]
}

#[test]
fn unit_detection() {
    let s = magnitudes(20, [0.02, 0.01, 1.02]);
    assert_eq!(detect_accel_unit(&s).0, AccelUnit::G);
    let s = magnitudes(20, [0.2, 0.1, 9.75]);
    assert_eq!(detect_accel_unit(&s).0, AccelUnit::MetersPerSecondSquared);
    let s = magnitudes(20, [20.0, 10.0, 995.0]);
    assert_eq!(detect_accel_unit(&s).0, AccelUnit::MilliG);
}

#[test]
fn auto_axis_map_picks_gravity_axis() {
    let m = auto_axis_map(vector(-1.01, 0.05, -0.2));
    assert_eq!(m.vertical, Axis::X);
    assert_eq!(m.lateral, Axis::Y);
    assert_eq!(m.longitudinal, Axis::Z);
    assert!(m.invert_vertical);
    assert!(m.invert_lateral && !m.invert_longitudinal);
    // Upright camera: the optical axis X runs along the vehicle.
    let m = auto_axis_map(vector(0.01, 0.02, 0.99));
    assert_eq!(
        (m.lateral, m.longitudinal, m.vertical),
        (Axis::Y, Axis::X, Axis::Z)
    );
    assert!(!m.invert_vertical);
    // Portrait mount: gravity on Y, X still longitudinal.
    let m = auto_axis_map(vector(0.02, -0.98, 0.1));
    assert_eq!(
        (m.lateral, m.longitudinal, m.vertical),
        (Axis::Z, Axis::X, Axis::Y)
    );
    assert!(m.invert_vertical);
}

#[test]
fn axis_map_parsing() {
    let m = AxisMap::parse("yzx").unwrap();
    assert_eq!(
        (m.lateral, m.longitudinal, m.vertical),
        (Axis::Y, Axis::Z, Axis::X)
    );
    let m = AxisMap::parse("lateral=y,vertical=x,longitudinal=z").unwrap();
    assert_eq!(
        (m.lateral, m.longitudinal, m.vertical),
        (Axis::Y, Axis::Z, Axis::X)
    );
    assert!(AxisMap::parse("xxz").is_err());
    assert!(AxisMap::parse("lateral=q").is_err());
}

fn parse_rate(s: &str) -> Option<ExportRate> {
    let number = ExportRate::number_text(s).parse::<f64>().ok();
    ExportRate::parse(s, number.map(double))
}

#[test]
fn export_rate_parsing() {
    assert_eq!(parse_rate("native"), Some(ExportRate::Native));
    assert_eq!(parse_rate("10"), Some(ExportRate::Hz(double(10.0))));
    assert_eq!(parse_rate("1hz"), Some(ExportRate::Hz(double(1.0))));
    assert_eq!(parse_rate("-3"), None);
}

#[test]
fn rates_in_other_words() {
    assert_eq!(parse_rate(" FULL "), Some(ExportRate::Native));
    assert_eq!(parse_rate("0"), Some(ExportRate::Native));
    assert_eq!(ExportRate::number_text(" 2.5 HzHz "), "2.5");
    assert_eq!(parse_rate("2.5 Hz"), Some(ExportRate::Hz(double(2.5))));
    assert_eq!(parse_rate("nan"), None);
    assert_eq!(parse_rate("fast"), None);
}

#[test]
fn axis_errors_are_told_apart() {
    let error = |s: &str| AxisMap::parse(s).unwrap_err();
    assert_eq!(error("xyq"), "invalid axis spec 'xyq'");
    assert_eq!(
        error("lateral"),
        "invalid axis spec 'lateral', expected key=axis"
    );
    assert_eq!(error("lateral=q"), "unknown axis 'q'");
    assert_eq!(error("up=z"), "unknown vehicle axis 'up'");
    assert_eq!(
        error("lateral=z"),
        "axis mapping must use each of X, Y, Z exactly once"
    );
    // Blank parts are skipped, case and spaces do not matter.
    let m = AxisMap::parse(" LAT = Y ,, lon=x ").unwrap();
    assert_eq!((m.lateral, m.longitudinal, m.vertical), (Axis::Y, Axis::X, Axis::Z));
    assert!(m.is_permutation());
}

#[test]
fn names_read_back() {
    for g in GravityMode::ALL {
        assert_eq!(GravityMode::parse(g.cli_name()), Some(g));
    }
    assert_eq!(GravityMode::parse("HP"), Some(GravityMode::HighPass));
    assert_eq!(GravityMode::parse("up"), None);
    for a in Axis::ALL {
        assert_eq!(Axis::parse(a.label()), Some(a));
        assert_eq!(Axis::ALL[a.index()], a);
    }
    assert_eq!(GravityMode::Keep.label(), "Keep gravity");
}

#[test]
fn units_have_scales() {
    assert_eq!(float(AccelUnit::G.scale_to_g()), 1.0);
    assert_eq!(float(AccelUnit::MetersPerSecondSquared.scale_to_g()), 1.0 / 9.80665);
    assert_eq!(float(AccelUnit::MilliG.scale_to_g()), 1.0 / 1000.0);
    assert_eq!(AccelUnit::Unknown.label(), "unknown (assuming g)");
    assert_eq!(detect_accel_unit(&[]).0, AccelUnit::Unknown);
    assert_eq!(
        detect_accel_unit(&[double(4.0)]),
        (AccelUnit::Unknown, double(4.0))
    );
    // The bounds belong to the unit.
    assert_eq!(detect_accel_unit(&[double(0.5)]).0, AccelUnit::G);
    assert_eq!(detect_accel_unit(&[double(3.0)]).0, AccelUnit::G);
    assert_eq!(
        detect_accel_unit(&[double(30.0)]).0,
        AccelUnit::MetersPerSecondSquared
    );
}

#[test]
fn medians_are_upper() {
    let v: Vec<Binary64> = [3.0, -1.0, 2.0, 0.5].map(double).to_vec();
    let m = axis_medians(&v, &v[..3], &[]);
    assert_eq!(float(m.x), 2.0);
    assert_eq!(float(m.y), 2.0);
    assert_eq!(float(m.z), 0.0);
}

#[test]
fn windows_stay_inside() {
    assert_eq!(window(0, 3, 10), (0, 4));
    assert_eq!(window(5, 3, 10), (2, 9));
    assert_eq!(window(9, 3, 10), (6, 10));
    assert_eq!(window(1, usize::MAX, 10), (0, 10));
}

#[test]
fn attitude_decides_the_method() {
    assert!(!enough_attitude(9));
    assert!(enough_attitude(10));
    assert_eq!(
        gravity_used(GravityMode::Quaternion, false),
        GravityMode::HighPass
    );
    assert_eq!(
        gravity_used(GravityMode::Quaternion, true),
        GravityMode::Quaternion
    );
    assert_eq!(gravity_used(GravityMode::Keep, false), GravityMode::Keep);
    assert!(is_usable(double(1.0)));
    assert!(!is_usable(double(1e-7)));
    assert!(!is_usable(double(f64::NAN)));
    assert!(!is_usable(double(f64::INFINITY)));
}

#[test]
fn channels_take_signs() {
    let v = vector(1.0, 2.0, 3.0);
    assert_eq!(float(pick(&v, Axis::Y, false)), 2.0);
    assert_eq!(float(pick(&v, Axis::Z, true)), -3.0);
}

#[test]
fn velocity_beats_positions() {
    let step = Some(Step {
        dt: double(1.0),
        distance: double(0.04),
    });
    let moving = Some(Vector {
        x: single(1.0),
        y: single(0.0),
        z: single(0.0),
    });
    let still = Some(Vector {
        x: single(0.0),
        y: single(-0.0),
        z: single(2.0),
    });
    assert_eq!(speed_source(moving, step), Source::Velocity);
    assert_eq!(heading_source(moving, step), Source::Velocity);
    assert_eq!(speed_source(still, None), Source::Velocity);
    assert_eq!(heading_source(still, step), Source::Nothing);
    assert_eq!(speed_source(None, step), Source::Positions);
    // Four centimetres are too few for a heading.
    assert_eq!(heading_source(None, step), Source::Nothing);
    let step = Some(Step {
        dt: double(0.0),
        distance: double(10.0),
    });
    assert_eq!(speed_source(None, step), Source::Nothing);
    assert_eq!(speed_source(None, None), Source::Nothing);
}

fn sample(t: f64, quat: bool) -> Sample {
    Sample {
        time: SampleTime::Frame {
            at: (t * 1e6) as u64,
            base: 0,
        },
        frame: (t * 30.0) as u64,
        acc: Some(Vector {
            x: single(0.0),
            y: single(0.0),
            z: single(1.0),
        }),
        quat: if quat {
            Some(Quaternion {
                w: single(1.0),
                x: single(0.0),
                y: single(0.0),
                z: single(0.0),
            })
        } else {
            None
        },
        iso: None,
        shutter: None,
        color_temperature: None,
        gps: None,
    }
}

fn numbers(t: f64) -> Numbers {
    let zero = double(0.0);
    Numbers {
        t: double(t),
        raw: Some(vector(0.0, 0.0, 1.0)),
        dynamic: Some(vector(0.0, 0.0, 0.0)),
        combined: zero,
        angles: None,
        altitude: zero,
        step: None,
        speed_by_positions: zero,
        speed_by_velocity: zero,
        heading_by_positions: zero,
        heading_by_velocity: zero,
        distance: zero,
    }
}

fn measured(gravity_world: Option<Vector64>) -> Measured {
    Measured {
        unit: AccelUnit::G,
        unit_median_magnitude: double(1.0),
        gravity_world,
        axis_medians: vector(0.0, 0.0, 1.0),
        tilt_deg: Some(double(0.0)),
    }
}

#[test]
fn falls_back_to_highpass_without_quaternion() {
    let samples: Vec<Sample> = (0..90).map(|i| sample(i as f64 / 30.0, false)).collect();
    // Constant acceleration: the moving average takes all of it away.
    let n: Vec<Numbers> = (0..90)
        .map(|i| {
            let (lo, hi) = window(i, 15, 90);
            let mean = (lo..hi).map(|_| 1.0).sum::<f64>() / (hi - lo) as f64;
            Numbers {
                dynamic: Some(vector(0.0, 0.0, 1.0 - mean)),
                ..numbers(i as f64 / 30.0)
            }
        })
        .collect();
    let t = process(
        ClipInfo::default(),
        &samples,
        &ProcessOptions::default(),
        &measured(None),
        &n,
    );
    assert_eq!(t.gravity_used, GravityMode::HighPass);
    assert!(float(t.rows[45].vertical.unwrap()).abs() < 1e-9);
}

fn haversine_m(lat1: f64, lon1: f64, lat2: f64, lon2: f64) -> f64 {
    let (p1, p2) = (lat1.to_radians(), lat2.to_radians());
    let dp = p2 - p1;
    let dl = (lon2 - lon1).to_radians();
    let a = (dp / 2.0).sin().powi(2) + p1.cos() * p2.cos() * (dl / 2.0).sin().powi(2);
    2.0 * 6_371_008.8 * a.sqrt().asin()
}

/// Thirty positions, ten a second, each some eleven metres north of the last one.
fn northward() -> Telemetry {
    let mut samples = Vec::new();
    let mut rows = Vec::new();
    let mut distance = 0.0;
    for i in 0..30 {
        let t = i as f64 / 10.0;
        let latitude = 55.0 + 0.0001 * i as f64;
        let mut s = sample(t, true);
        s.gps = Some(GpsFix {
            latitude: double(latitude),
            longitude: double(37.0),
            altitude_mm: Some(100_000),
            status: 0,
            velocity: None,
            time: None,
        });
        samples.push(s);
        let mut n = numbers(t);
        n.altitude = double(100.0);
        if i > 0 {
            let last = 55.0 + 0.0001 * (i - 1) as f64;
            let d = haversine_m(last, 37.0, latitude, 37.0);
            let dt = t - (i - 1) as f64 / 10.0;
            distance += d;
            n.step = Some(Step {
                dt: double(dt),
                distance: double(d),
            });
            n.speed_by_positions = double(d / dt);
            n.heading_by_positions = double(0.0);
        }
        n.distance = double(distance);
        rows.push(n);
    }
    process(
        ClipInfo::default(),
        &samples,
        &ProcessOptions::default(),
        &measured(Some(vector(0.0, 0.0, 1.0))),
        &rows,
    )
}

fn means(rows: &[Row], starts: &[usize]) -> Vec<Means> {
    starts
        .iter()
        .enumerate()
        .map(|(j, from)| {
            let to = starts.get(j + 1).copied().unwrap_or(rows.len());
            let bin = &rows[*from..to];
            let mean = |f: fn(&Row) -> Option<Binary64>| {
                let v: Vec<f64> = bin.iter().filter_map(f).map(float).collect();
                if v.is_empty() {
                    None
                } else {
                    Some(double(v.iter().sum::<f64>() / v.len() as f64))
                }
            };
            let lateral = mean(|r| r.lateral);
            let longitudinal = mean(|r| r.longitudinal);
            let combined = match (lateral, longitudinal) {
                (Some(a), Some(b)) => float(a).hypot(float(b)),
                _ => 0.0,
            };
            Means {
                lateral,
                longitudinal,
                vertical: mean(|r| r.vertical),
                combined: double(combined),
                raw_x: mean(|r| r.raw.map(|v| v.x)),
                raw_y: mean(|r| r.raw.map(|v| v.y)),
                raw_z: mean(|r| r.raw.map(|v| v.z)),
            }
        })
        .collect()
}

#[test]
fn gps_derived_speed_distance_and_decimation() {
    let t = northward();
    let r = &t.rows[10];
    assert!((float(r.speed_ms.unwrap()) - 111.2).abs() < 1.0);
    assert!(float(r.heading_deg.unwrap()).abs() < 0.01);
    assert!((float(t.rows[29].distance_m.unwrap()) - 29.0 * 11.12).abs() < 2.0);
    assert!(t.has_gps());

    let bins: Vec<i64> = t
        .rows
        .iter()
        .map(|r| (float(r.t) * 1.0 + 1e-9).floor() as i64)
        .collect();
    let starts = bin_starts(&bins);
    let dec = decimate(&t.rows, &bins, &means(&t.rows, &starts));
    assert_eq!(dec.len(), 3);
    assert!((float(dec[1].t) - 1.0).abs() < 1e-9);
    assert!(dec[1].has_gps());
    assert_eq!(dec[1].latitude, t.rows[10].latitude);
}

#[test]
fn rows_carry_their_samples() {
    let t = northward();
    assert_eq!(t.rows.len(), 30);
    assert_eq!(t.gps_rows, 30);
    assert_eq!(count_gps(&t.rows), 30);
    assert_eq!(t.gravity_used, GravityMode::Quaternion);
    assert!(t.levelled);
    assert_eq!(float(t.rows[3].altitude_m.unwrap()), 100.0);
    assert_eq!(t.rows[0].speed_ms, None);
    assert_eq!(t.rows[0].heading_deg, None);
    assert_eq!(float(t.duration()), 2.9);
    assert_eq!(t.rows[7].frame, 21);
}

#[test]
fn time_never_goes_back() {
    let t = northward();
    let mut rows = t.rows.clone();
    rows[5].t = double(0.1);
    rows[6].t = double(f64::NAN);
    let kept = forward_only(&rows);
    assert_eq!(kept.len(), 28);
    for pair in kept.windows(2) {
        assert!(float(pair[0].t) <= float(pair[1].t));
    }
}

#[test]
fn averages_replace_the_rows_of_a_bin() {
    let t = northward();
    let mut rows = t.rows[..4].to_vec();
    rows[0].latitude = None;
    rows[0].lateral = Some(double(1.0));
    rows[1].lateral = Some(double(3.0));
    let bins = [0, 0, 1, 1];
    let starts = bin_starts(&bins);
    assert_eq!(starts, vec![0, 2]);
    let dec = decimate(&rows, &bins, &means(&rows, &starts));
    assert_eq!(dec.len(), 2);
    assert_eq!(float(dec[0].lateral.unwrap()), 2.0);
    // The position comes from the first row that has one.
    assert_eq!(dec[0].latitude, rows[1].latitude);
    assert_eq!(dec[0].t, rows[0].t);
    assert!(decimate(&[], &[], &[]).is_empty());
}

#[test]
fn units_can_be_overridden() {
    let samples = vec![sample(0.0, false)];
    let options = ProcessOptions {
        unit_override: Some(AccelUnit::MilliG),
        level: false,
        ..ProcessOptions::default()
    };
    let t = process(
        ClipInfo::default(),
        &samples,
        &options,
        &measured(None),
        &[numbers(0.0)],
    );
    assert_eq!(t.unit, AccelUnit::MilliG);
    assert!(!t.levelled);
    assert!(!t.has_gps());
    assert_eq!(t.local_time(0), None);
}

#[test]
fn axes_are_spelled_freely() {
    let plain = AxisMap::parse("lateral=y,vertical=x,longitudinal=z").unwrap();
    for s in [
        "yzx",
        "YzX",
        "\t yZX \n",
        "LATERAL=Y,Vertical=x,longitudinal=Z",
        "  lat=y , vert = X,long=z  ",
    ] {
        assert_eq!(AxisMap::parse(s), Ok(plain), "{s}");
    }
    assert!(!plain.invert_lateral && !plain.invert_longitudinal && !plain.invert_vertical);
    assert!(AxisMap::parse(" XXZ ").is_err());
}

fn slots(rows: &[Row], hz: f64) -> Vec<i64> {
    rows.iter().map(|r| (float(r.t) * hz + 1e-9).floor() as i64).collect()
}

#[test]
fn merged_rows_merge_to_themselves() {
    let t = northward();
    for hz in [0.5, 1.0, 3.0, 10.0] {
        let bins = slots(&t.rows, hz);
        let once = decimate(&t.rows, &bins, &means(&t.rows, &bin_starts(&bins)));
        let bins = slots(&once, hz);
        assert!(bins.windows(2).all(|w| w[0] < w[1]));
        let twice = decimate(&once, &bins, &means(&once, &bin_starts(&bins)));
        assert_eq!(twice, once);
        assert_eq!(once[0].t, t.rows[0].t);
    }
}

#[test]
fn rows_are_merged_for_the_rate() {
    assert_eq!(ExportRate::Native.merging(), None);
    assert_eq!(ExportRate::Hz(double(0.0)).merging(), None);
    assert_eq!(ExportRate::Hz(double(-2.0)).merging(), None);
    assert_eq!(ExportRate::Hz(double(2.0)).merging(), Some(double(2.0)));
    let t = northward();
    assert_eq!(at_rate(t.clone(), &[], &[]).rows, t.rows);
    let mut slow = t.clone();
    slow.options.rate = ExportRate::Hz(double(1.0));
    let bins = slots(&t.rows, 1.0);
    let merged = at_rate(slow, &bins, &means(&t.rows, &bin_starts(&bins)));
    assert_eq!((merged.rows.len(), merged.gps_rows), (3, 3));
    assert_eq!(merged.tilt_deg, t.tilt_deg);
}

#[test]
fn levelling_leaves_the_rest_as_it_is() {
    let samples: Vec<Sample> = (0..20).map(|i| sample(i as f64 / 10.0, true)).collect();
    let run = |level: bool, turned: f64| {
        let n: Vec<Numbers> = (0..20)
            .map(|i| Numbers {
                dynamic: Some(vector(turned, 0.1, 0.2)),
                combined: double(turned.hypot(0.1)),
                ..numbers(i as f64 / 10.0)
            })
            .collect();
        let options = ProcessOptions {
            level,
            ..ProcessOptions::default()
        };
        let world = measured(Some(vector(0.0, 0.0, 1.0)));
        process(ClipInfo::default(), &samples, &options, &world, &n)
    };
    let (a, b) = (run(true, 0.3), run(false, 0.5));
    assert!(a.levelled && !b.levelled);
    assert_eq!(a.tilt_deg, b.tilt_deg);
    assert_eq!(a.gravity_world, b.gravity_world);
    assert_eq!(a.rows.len(), b.rows.len());
    for (x, y) in a.rows.iter().zip(&b.rows) {
        assert_ne!(x.lateral, y.lateral);
        let same = Row {
            lateral: y.lateral,
            longitudinal: y.longitudinal,
            vertical: y.vertical,
            combined: y.combined,
            ..*x
        };
        assert_eq!(same, *y);
    }
}
