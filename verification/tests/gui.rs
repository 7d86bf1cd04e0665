//! State of the window.

use dji_telemetry_export::dji::{ClipInfo, Sample, SampleTime};
use dji_telemetry_export::export::{Format, Written};
use dji_telemetry_export::gui::{written_line, Channel, LoadState, RateChoice, Session};
use dji_telemetry_export::ieee::Binary64;
use dji_telemetry_export::process::{
    process, AccelUnit, Axis, AxisMap, ExportRate, GravityMode, Measured, Numbers, ProcessOptions,
    Telemetry, Vector64,
};

fn guessed() -> AxisMap {
    AxisMap::parse("yxz").unwrap()
}

#[test]
fn a_clip_is_loaded_and_processed() {
    let mut s = Session::default();
    assert_eq!(s.state, LoadState::Idle);
    s.progress(1, 2);
    assert_eq!(s.state, LoadState::Idle);
    s.start_loading();
    s.progress(1, 2);
    assert_eq!(s.state, LoadState::Loading { done: 1, total: 2 });
    assert!(!s.needs_processing());
    s.loaded(guessed());
    assert!(s.needs_processing());
    assert_eq!(s.process_options.axes, guessed());
    s.processed(true);
    assert!(!s.needs_processing());
    assert!(s.is_selected(Format::Csv) && s.is_selected(Format::Gpx));
    assert!(!s.is_selected(Format::Fit));
    assert!(s.can_export());
    // Processing again keeps what was selected.
    s.select(Format::Gpx, false);
    s.set_level(false);
    assert!(s.needs_processing());
    s.processed(true);
    assert!(!s.is_selected(Format::Gpx));
}

#[test]
fn a_clip_that_cannot_be_read() {
    let mut s = Session::default();
    s.start_loading();
    s.failed();
    assert_eq!(s.state, LoadState::Failed);
    s.set_level(false);
    assert!(!s.needs_processing());
    s.skip_processing();
    assert!(!s.dirty);
}

#[test]
fn flips_are_relative_to_the_guess() {
    let mut s = Session::default();
    let mut axes = guessed();
    axes.invert_lateral = true;
    s.loaded(axes);
    s.processed(false);
    assert!(!s.flipped(Channel::Lateral));
    s.set_flipped(Channel::Lateral, true);
    assert!(s.flipped(Channel::Lateral));
    assert!(!s.process_options.axes.invert_lateral);
    assert!(s.dirty);
    s.set_invert(Channel::Longitudinal, true);
    assert!(s.flipped(Channel::Longitudinal));
    s.reset_axes();
    assert!(!s.flipped(Channel::Lateral) && !s.flipped(Channel::Longitudinal));
}

#[test]
fn axes_must_stay_a_permutation() {
    let mut s = Session::default();
    s.loaded(guessed());
    s.processed(false);
    s.set_axis(Channel::Lateral, Axis::Y);
    assert!(!s.dirty);
    s.set_axis(Channel::Lateral, Axis::Z);
    assert!(s.dirty);
    assert!(!s.can_export());
    s.set_axis(Channel::Vertical, Axis::Y);
    assert!(s.can_export());
    for f in Format::ALL {
        s.select(f, false);
    }
    assert!(!s.can_export());
}

#[test]
fn only_changes_make_work() {
    let mut s = Session::default();
    s.set_gravity(GravityMode::Quaternion);
    assert!(!s.dirty);
    s.set_gravity(GravityMode::HighPass);
    assert!(s.dirty);
    let two = Binary64 {
        bits: 2.0f64.to_bits(),
    };
    s.set_window(two);
    assert_eq!(s.process_options.highpass_window, two);
}

#[test]
fn rates_of_the_window() {
    let hz = |v: f64| ExportRate::Hz(Binary64 { bits: v.to_bits() });
    let rates: Vec<ExportRate> = RateChoice::ALL.iter().map(|r| r.rate()).collect();
    assert_eq!(rates, vec![ExportRate::Native, hz(10.0), hz(5.0), hz(1.0)]);
    assert_eq!(RateChoice::Hz5.label(), "5 Hz");
    let mut s = Session::default();
    s.rate_choice = RateChoice::Hz1;
    assert_eq!(s.export_options().rate, hz(1.0));
}

#[test]
fn written_files_are_told() {
    let w = Written {
        format: Format::Csv,
        path: "/tmp/a.csv".to_string(),
        rows: 150,
        bytes: 2049,
    };
    assert_eq!(written_line(&w), "CSV → /tmp/a.csv (150 rows, 3 KB)");
    let w = Written { bytes: 1024, ..w };
    assert!(written_line(&w).ends_with(" 1 KB)"));
}

/// Telemetry of two samples without positions and exposure.
fn two_rows() -> Telemetry {
    let zero = Binary64 { bits: 0 };
    let one = Binary64 {
        bits: 1.0f64.to_bits(),
    };
    let up = Vector64 {
        x: zero,
        y: zero,
        z: one,
    };
    let sample = Sample {
        time: SampleTime::Frame { at: 0, base: 0 },
        frame: 0,
        acc: None,
        quat: None,
        iso: None,
        shutter: None,
        color_temperature: None,
        gps: None,
    };
    let numbers = Numbers {
        t: zero,
        raw: None,
        dynamic: None,
        combined: zero,
        angles: None,
        altitude: zero,
        step: None,
        speed_by_positions: zero,
        speed_by_velocity: zero,
        heading_by_positions: zero,
        heading_by_velocity: zero,
        distance: zero,
    };
    let measured = Measured {
        unit: AccelUnit::G,
        unit_median_magnitude: one,
        gravity_world: None,
        axis_medians: up,
        tilt_deg: None,
    };
    process(
        ClipInfo::default(),
        &[sample, sample],
        &ProcessOptions::default(),
        &measured,
        &[numbers, numbers],
    )
}

#[test]
fn formats_that_cannot_be_written_are_dropped() {
    let mut s = Session::default();
    s.loaded(guessed());
    s.processed(true);
    for f in Format::ALL {
        s.select(f, f != Format::Vbo);
    }
    let before = s;
    s.drop_unavailable(&two_rows());
    let left: Vec<Format> = Format::ALL.into_iter().filter(|f| s.is_selected(*f)).collect();
    assert_eq!(left, vec![Format::Csv]);
    assert_eq!(s.state, before.state);
    assert_eq!(s.dirty, before.dirty);
    assert!(s.can_export());
}
