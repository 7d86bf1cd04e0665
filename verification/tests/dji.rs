//! Telemetry of DJI clips.

use dji_telemetry_export::dji::decode::{coordinates, finish, read_clip, reports_progress, Degrees};
use dji_telemetry_export::dji::synth::{clip_header, frame, Frame, Gps};
use dji_telemetry_export::dji::{
    find_metadata_track, parse_filename_time, parse_gps_time, Clip, DjiError, Quaternion,
    SampleTime, StartTimeSource, Vector,
};
use dji_telemetry_export::ieee::{Binary32, Binary64};
use dji_telemetry_export::mp4::builder::{build, TrackSpec};
use dji_telemetry_export::mp4::{read_movie, Movie};

fn single(v: f32) -> Binary32 {
    Binary32 { bits: v.to_bits() }
}

fn double(v: f64) -> Binary64 {
    Binary64 { bits: v.to_bits() }
}

fn vector(x: f32, y: f32, z: f32) -> Vector {
    Vector {
        x: single(x),
        y: single(y),
        z: single(z),
    }
}

fn make_clip(frames: &[Frame]) -> Vec<Vec<u8>> {
    frames
        .iter()
        .enumerate()
        .map(|(i, f)| {
            let mut s = if i == 0 {
                clip_header("DJI OsmoAction5 Pro", "SERIAL", single(29.97))
            } else {
                Vec::new()
            };
            s.extend(frame(f));
            s
        })
        .collect()
}

fn movie_bytes(samples: &[Vec<u8>], created: u64) -> Vec<u8> {
    build(
        &[TrackSpec {
            fourcc: b"djmd",
            handler_type: b"meta",
            handler_name: "DJI meta",
            timescale: 30000,
            sample_delta: 1001,
            samples,
            chunk_size: 4,
        }],
        created,
    )
}

fn payloads(file: &[u8], movie: &Movie) -> Vec<Vec<u8>> {
    match find_metadata_track(movie) {
        Some(track) => (0..track.sample_count())
            .map(|i| track.read_sample(file, i).unwrap())
            .collect(),
        None => Vec::new(),
    }
}

fn degrees(payload: &[u8]) -> Degrees {
    match coordinates(payload) {
        Some(c) => {
            let convert = |v: Binary64| {
                if c.in_degrees {
                    v
                } else {
                    double(f64::from_bits(v.bits).to_degrees())
                }
            };
            Degrees {
                latitude: convert(c.latitude),
                longitude: convert(c.longitude),
            }
        }
        None => Degrees {
            latitude: double(0.0),
            longitude: double(0.0),
        },
    }
}

fn seconds(t: SampleTime) -> f64 {
    match t {
        SampleTime::Frame { at, base } => (at as f64 - base as f64) / 1e6,
        SampleTime::Track { index } => index as f64 * 1001.0 / 30000.0,
    }
}

fn open(file: &[u8], name: Option<&str>) -> Result<Clip, DjiError> {
    let movie = read_movie(file).map_err(DjiError::Mp4)?;
    let payloads = payloads(file, &movie);
    let converted: Vec<Degrees> = payloads.iter().map(|p| degrees(p)).collect();
    let draft = read_clip(&movie, &payloads, &converted)?;
    let elapsed = match &draft.first_fix {
        Some((t, _)) => (seconds(*t) * 1000.0) as i64,
        None => 0,
    };
    Ok(finish(draft, name, elapsed))
}

#[test]
fn reads_accelerometer_only_clip() {
    let frames: Vec<Frame> = (0..10)
        .map(|i| Frame {
            seq: i,
            timestamp_us: 2_000_000_000 + i * 33_366,
            acc: Some(vector(-1.0, 0.05, -0.2)),
            quat: Some(Quaternion {
                w: single(0.8),
                x: single(0.0),
                y: single(-0.58),
                z: single(0.05),
            }),
            iso: Some(single(252.0)),
            shutter: Some((1, 3111)),
            cct: Some(5219),
            gps: Some(Gps {
                status: 1,
                unit_deg: true,
                lat: double(0.0),
                lon: double(0.0),
                alt_mm: 0,
                velocity: None,
                time: None,
            }),
            with_remote_header: true,
        })
        .collect();
    let bytes = movie_bytes(&make_clip(&frames), 0);
    let clip = open(&bytes, Some("DJI_20260916095953_0098_D.MP4")).unwrap();
    assert_eq!(clip.samples.len(), 10);
    assert_eq!(clip.info.model.as_deref(), Some("DJI OsmoAction5 Pro"));
    assert_eq!(clip.info.proto_name.as_deref(), Some("dvtm_ac204.proto"));
    assert_eq!(clip.info.remote_name.as_deref(), Some("DJI AC004"));
    assert_eq!(clip.info.width, Some(3840));
    assert_eq!(clip.info.gps_fix_count, 0);
    assert_eq!(clip.info.gps_status_counts, [0, 10, 0]);
    assert_eq!(clip.info.start_time_source, StartTimeSource::FileName);
    assert_eq!(
        clip.info.start_local.unwrap().format("%Y-%m-%d %H:%M:%S"),
        "2026-09-16 09:59:53"
    );
    let s = &clip.samples[3];
    assert!((seconds(s.time) - 3.0 * 0.033366).abs() < 1e-9);
    let acc = s.acc.unwrap();
    assert_eq!(
        [acc.x, acc.y, acc.z].map(|c| f64::from(f32::from_bits(c.bits))),
        [-1.0, 0.05000000074505806, -0.20000000298023224]
    );
    assert_eq!(s.shutter, Some((1, 3111)));
    assert_eq!(s.color_temperature, Some(5219));
    assert_eq!(s.iso, Some(single(252.0)));
    assert!(s.gps.is_none());
}

#[test]
fn reads_gps_fixes_and_derives_start_from_gps_time() {
    let frames: Vec<Frame> = (0..6)
        .map(|i| Frame {
            seq: i,
            timestamp_us: 1_000_000 + i * 100_000,
            acc: Some(vector(0.0, 0.0, 1.0)),
            gps: Some(Gps {
                status: if i < 2 { 1 } else { 0 },
                unit_deg: i % 2 == 0,
                lat: double(if i % 2 == 0 { 55.75 } else { 55.75f64.to_radians() }),
                lon: double(if i % 2 == 0 { 37.62 } else { 37.62f64.to_radians() }),
                alt_mm: 150_500,
                velocity: Some(vector(3.0, 4.0, 0.0)),
                time: Some("2026-09-16 07-00-10".to_string()),
            }),
            with_remote_header: true,
            ..Frame::default()
        })
        .collect();
    let bytes = movie_bytes(&make_clip(&frames), 0);
    let clip = open(&bytes, Some("other.mp4")).unwrap();
    assert_eq!(clip.info.gps_fix_count, 4);
    assert_eq!(clip.info.gps_status_counts, [4, 2, 0]);
    for s in &clip.samples[2..] {
        let g = s.gps.as_ref().unwrap();
        assert!((f64::from_bits(g.latitude.bits) - 55.75).abs() < 1e-9);
        assert!((f64::from_bits(g.longitude.bits) - 37.62).abs() < 1e-9);
        assert_eq!(g.altitude_mm.map(|mm| mm as f64 / 1000.0), Some(150.5));
        assert_eq!(g.velocity, Some(vector(3.0, 4.0, 0.0)));
    }
    assert_eq!(clip.info.start_time_source, StartTimeSource::GpsTime);
    // first fix at t = 0.2 s with GPS time 07:00:10 -> start 07:00:09.800
    assert_eq!(
        clip.info.start_local.unwrap().format("%Y-%m-%d %H:%M:%S%.3f"),
        "2026-09-16 07:00:09.800"
    );
}

#[test]
fn filename_time_parsing() {
    assert_eq!(
        parse_filename_time("D:\\clips\\DJI_20260916095953_0098_D.MP4")
            .unwrap()
            .format("%Y-%m-%d %H:%M:%S"),
        "2026-09-16 09:59:53"
    );
    assert!(parse_filename_time("GX010001.MP4").is_none());
    assert!(parse_filename_time("DJI_2026.MP4").is_none());
}

#[test]
fn gps_time_parsing() {
    assert_eq!(
        parse_gps_time("2026-09-16 07-00-10")
            .unwrap()
            .format("%Y-%m-%d %H:%M:%S"),
        "2026-09-16 07:00:10"
    );
    assert_eq!(
        parse_gps_time("2026-09-16 07:00:10")
            .unwrap()
            .format("%Y-%m-%d %H:%M:%S"),
        "2026-09-16 07:00:10"
    );
    assert!(parse_gps_time("").is_none());
}

#[test]
fn a_date_alone_is_midnight() {
    assert_eq!(
        parse_gps_time("2026-09-16")
            .unwrap()
            .format("%Y-%m-%d %H:%M:%S"),
        "2026-09-16 00:00:00"
    );
    assert!(parse_gps_time("yesterday").is_none());
}

fn plain_frames(n: u64) -> Vec<Frame> {
    (0..n)
        .map(|i| Frame {
            seq: i,
            timestamp_us: 5_000_000 + i * 50_000,
            acc: Some(vector(0.0, 0.0, 1.0)),
            ..Frame::default()
        })
        .collect()
}

#[test]
fn the_clock_offset_comes_from_the_container() {
    // 2026-09-16T07:59:53Z on the container, two hours more on the camera.
    let bytes = movie_bytes(
        &make_clip(&plain_frames(3)),
        2_082_844_800 + 1_789_545_593,
    );
    let clip = open(&bytes, Some("DJI_20260916095953_0098_D.MP4")).unwrap();
    assert_eq!(clip.info.utc_offset_minutes, Some(120));
    assert_eq!(
        clip.info.start_utc().unwrap().format("%Y-%m-%d %H:%M:%S"),
        "2026-09-16 07:59:53"
    );
    assert_eq!(StartTimeSource::FileName.label(), "file name (camera clock)");
}

#[test]
fn without_a_name_the_container_tells_the_time() {
    let bytes = movie_bytes(
        &make_clip(&plain_frames(3)),
        2_082_844_800 + 1_789_545_593,
    );
    let clip = open(&bytes, None).unwrap();
    assert_eq!(clip.info.start_time_source, StartTimeSource::Container);
    assert_eq!(
        clip.info.start_local.unwrap().format("%Y-%m-%d %H:%M:%S"),
        "2026-09-16 07:59:53"
    );
}

#[test]
fn times_count_from_the_first_frame() {
    let bytes = movie_bytes(&make_clip(&plain_frames(4)), 0);
    let clip = open(&bytes, None).unwrap();
    for (i, s) in clip.samples.iter().enumerate() {
        assert_eq!(
            s.time,
            SampleTime::Frame {
                at: 5_000_000 + i as u64 * 50_000,
                base: 5_000_000
            }
        );
    }
    assert_eq!(clip.info.duration, clip.samples[3].time);
    assert_eq!(clip.info.sample_count, 4);
    assert_eq!(clip.info.start_time_source, StartTimeSource::Unknown);
}

#[test]
fn a_film_without_metadata_is_refused() {
    let samples = vec![vec![0u8; 8]];
    let file = build(
        &[TrackSpec {
            fourcc: b"hvc1",
            handler_type: b"vide",
            handler_name: "VideoHandler",
            timescale: 30000,
            sample_delta: 1001,
            samples: &samples,
            chunk_size: 1,
        }],
        0,
    );
    let error = open(&file, None).unwrap_err();
    assert!(matches!(error, DjiError::NoMetadataTrack), "{error:?}");
    assert!(!error.message().is_empty());
}

#[test]
fn a_track_without_samples_is_refused() {
    let file = movie_bytes(&[], 0);
    let error = open(&file, None).unwrap_err();
    assert!(matches!(error, DjiError::NoSamples), "{error:?}");
    let broken = open(b"", None).unwrap_err();
    assert!(matches!(broken, DjiError::Mp4(_)));
    assert_eq!(broken.message(), "not an MP4/MOV file: no `moov` box found");
}

#[test]
fn frames_read_back() {
    let f = Frame {
        seq: 7,
        timestamp_us: 123_456,
        acc: Some(vector(0.25, -0.5, 1.0)),
        quat: Some(Quaternion {
            w: single(1.0),
            x: single(0.0),
            y: single(0.0),
            z: single(0.0),
        }),
        iso: Some(single(100.0)),
        shutter: Some((1, 60)),
        cct: Some(5000),
        gps: Some(Gps {
            status: 0,
            unit_deg: true,
            lat: double(-33.8688),
            lon: double(151.2093),
            alt_mm: -1500,
            velocity: None,
            time: None,
        }),
        with_remote_header: true,
    };
    let clip = open(&movie_bytes(&make_clip(&[f]), 0), None).unwrap();
    let s = &clip.samples[0];
    assert_eq!(s.frame, 7);
    assert_eq!(s.acc, Some(vector(0.25, -0.5, 1.0)));
    assert_eq!(s.quat.unwrap().w, single(1.0));
    assert_eq!(s.iso, Some(single(100.0)));
    assert_eq!(s.shutter, Some((1, 60)));
    assert_eq!(s.color_temperature, Some(5000));
    let g = s.gps.as_ref().unwrap();
    assert_eq!(g.latitude, double(-33.8688));
    assert_eq!(g.longitude, double(151.2093));
    assert_eq!(g.altitude_mm, Some(-1500));
    assert_eq!(clip.info.serial.as_deref(), Some("SERIAL"));
    assert_eq!(clip.info.fps, Some(single(29.97)));
}

#[test]
fn impossible_positions_are_no_fixes() {
    let mut frames = plain_frames(2);
    for f in frames.iter_mut() {
        f.gps = Some(Gps {
            status: 0,
            unit_deg: true,
            lat: double(95.0),
            lon: double(10.0),
            alt_mm: 0,
            velocity: None,
            time: None,
        });
    }
    let clip = open(&movie_bytes(&make_clip(&frames), 0), None).unwrap();
    assert_eq!(clip.info.gps_fix_count, 0);
    assert_eq!(clip.info.gps_status_counts, [2, 0, 0]);
    assert!(clip.samples.iter().all(|s| s.gps.is_none()));
}

#[test]
fn progress_is_reported_now_and_then() {
    let reported: Vec<usize> = (0..=1100).filter(|i| reports_progress(*i, 1100)).collect();
    assert_eq!(reported, vec![0, 512, 1024, 1100]);
    assert!(!reports_progress(0, 0));
    assert!(reports_progress(1, 1));
}
