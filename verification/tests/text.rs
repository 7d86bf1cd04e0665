//! Bytes, texts, numbers and moments.

use dji_telemetry_export::bytes::{be_u32, be_u64, le_u32, le_u64, push_be_u32, push_le_u64};
use dji_telemetry_export::ieee::{median, Binary64};
use dji_telemetry_export::text::{
    chars_of, contains, decimal_text, join, padded_text, signed_text, split, text_of, to_lower,
    trim_text,
};
use dji_telemetry_export::time::Timestamp;

fn double(v: f64) -> Binary64 {
    Binary64 { bits: v.to_bits() }
}

#[test]
fn bytes_round_trip() {
    let mut v = Vec::new();
    push_be_u32(&mut v, 0x0102_0304);
    assert_eq!(v, vec![1, 2, 3, 4]);
    assert_eq!(be_u32(&v, 0), 0x0102_0304);
    assert_eq!(le_u32(&v, 0), 0x0403_0201);
    let mut v = Vec::new();
    push_le_u64(&mut v, 0x0102_0304_0506_0708);
    assert_eq!(le_u64(&v, 0), 0x0102_0304_0506_0708);
    assert_eq!(be_u64(&v, 0), 0x0807_0605_0403_0201);
}

#[test]
fn numbers_in_decimal() {
    assert_eq!(decimal_text(0), "0");
    assert_eq!(decimal_text(u64::MAX), u64::MAX.to_string());
    assert_eq!(signed_text(i64::MIN), i64::MIN.to_string());
    assert_eq!(signed_text(-7), "-7");
    assert_eq!(padded_text(7, 3), "007");
    assert_eq!(padded_text(1234, 3), "1234");
    assert_eq!(padded_text(0, 0), "0");
}

#[test]
fn texts_come_apart_and_together() {
    let c = chars_of("a,,bc,");
    let parts: Vec<String> = split(&c, ',').iter().map(|p| text_of(p)).collect();
    assert_eq!(parts, vec!["a", "", "bc", ""]);
    assert_eq!(join(&parts, ","), "a,,bc,");
    assert_eq!(join(&[], ","), "");
    assert_eq!(trim_text(" \t\u{a0}x y\n"), "x y");
    assert_eq!(text_of(&to_lower(&chars_of("ÄbC"))), "Äbc");
    assert!(contains("DJI meta", "meta"));
    assert!(!contains("DJI", "meta"));
}

#[test]
fn medians_order_all_numbers() {
    assert_eq!(median(&[]), None);
    assert_eq!(median(&[double(2.0)]), Some(double(2.0)));
    let v = [5.0, -1.0, 0.0, -0.0, f64::INFINITY].map(double);
    assert_eq!(median(&v), Some(double(0.0)));
    // What is not a number comes last.
    let v = [f64::NAN, 1.0, 2.0].map(double);
    assert_eq!(median(&v), Some(double(2.0)));
}

#[test]
fn floats_compare_as_numbers() {
    let values = [
        f64::NEG_INFINITY,
        -1.5,
        -0.0,
        0.0,
        1e-310,
        1.0,
        f64::INFINITY,
        f64::NAN,
    ];
    for a in values {
        for b in values {
            assert_eq!(double(a).lt(double(b)), a < b, "{a} {b}");
            assert_eq!(double(a).le(double(b)), a <= b, "{a} {b}");
        }
        assert_eq!(double(a).is_finite(), a.is_finite());
        assert_eq!(double(a).is_zero(), a == 0.0);
    }
    assert_eq!(double(1.5).neg(), double(-1.5));
    assert_eq!(double(-1.5).abs(), double(1.5));
}

#[test]
fn moments_move() {
    let t = Timestamp::parse("2026-09-16 09:59:53", "%Y-%m-%d %H:%M:%S").unwrap();
    assert_eq!(t.timestamp(), 1_789_552_793);
    let later = t.plus_micros(1_500_000).unwrap();
    assert_eq!(
        later.format("%Y-%m-%d %H:%M:%S%.3f"),
        "2026-09-16 09:59:54.500"
    );
    assert_eq!(later.minus_millis(1500), Some(t));
    assert_eq!(
        t.minus_minutes(-30).unwrap().format("%Y-%m-%d %H:%M:%S"),
        "2026-09-16 10:29:53"
    );
    assert_eq!(later.minutes_since(t), 0);
    assert_eq!(t.minus_minutes(90).unwrap().minutes_since(t), -90);
    assert_eq!((t.year(), t.month(), t.day()), (2026, 9, 16));
    assert_eq!(t.second_of_day(), 9 * 3600 + 59 * 60 + 53);
    assert_eq!(t.plus_micros(-1).unwrap().subsec_nanos(), 999_999_000);
}

#[test]
fn moments_have_bounds() {
    assert!(Timestamp::new(i64::MAX, 0).is_none());
    assert!(Timestamp::new(0, 2_000_000_000).is_none());
    let last = Timestamp::new(8_210_266_876_799, 0).unwrap();
    assert_eq!(last.year(), 262_142);
    assert!(last.plus(1, 0).is_none());
    assert!(last.plus(i64::MAX, 0).is_none());
    let first = Timestamp::new(-8_334_601_228_800, 0).unwrap();
    assert_eq!((first.year(), first.month(), first.day()), (-262_143, 1, 1));
    assert!(first.minus_millis(1).is_none());
    assert_eq!(first.second_of_day(), 0);
}

#[test]
fn leap_seconds_stay_inside() {
    let leap = Timestamp::new(59, 1_500_000_000).unwrap();
    assert_eq!(leap.plus_micros(100_000).unwrap().subsec_nanos(), 1_600_000_000);
    let after = leap.plus_micros(1_000_000).unwrap();
    assert_eq!((after.timestamp(), after.subsec_nanos()), (60, 500_000_000));
    assert!(Timestamp::new(58, 1_500_000_000).is_none());
    assert!(Timestamp::parse("soon", "%Y").is_none());
    let day = Timestamp::parse_midnight("2026-09-16", "%Y-%m-%d").unwrap();
    assert_eq!(day.timestamp(), 1_789_516_800);
    assert!(Timestamp::parse_midnight("2026-13-16", "%Y-%m-%d").is_none());
}

fn written(secs: i64) -> String {
    Timestamp::new(secs, 0).unwrap().format("%Y-%m-%d %H:%M:%S")
}

#[test]
fn days_follow_the_calendar() {
    assert_eq!(written(951_782_399), "2000-02-28 23:59:59");
    assert_eq!(written(951_782_400), "2000-02-29 00:00:00");
    assert_eq!(written(951_868_800), "2000-03-01 00:00:00");
    assert_eq!(written(-2_203_891_201), "1900-02-28 23:59:59");
    assert_eq!(written(-2_203_891_200), "1900-03-01 00:00:00");
    assert_eq!(written(-62_135_596_800), "0001-01-01 00:00:00");
    assert_eq!(written(-62_135_596_801), "0000-12-31 23:59:59");
    assert_eq!(written(-62_167_219_201), "-0001-12-31 23:59:59");
    assert_eq!(written(253_402_300_800), "+10000-01-01 00:00:00");
    let t = Timestamp::new(951_782_400, 0).unwrap();
    assert_eq!((t.year(), t.month(), t.day()), (2000, 2, 29));
}

#[test]
fn written_moments_are_read_back() {
    let mut secs: i64 = -62_135_596_800;
    while secs < 253_402_300_800 {
        let t = Timestamp::new(secs, 0).unwrap();
        let text = t.format("%Y-%m-%d %H:%M:%S");
        assert_eq!(Timestamp::parse(&text, "%Y-%m-%d %H:%M:%S%.f"), Some(t));
        secs += 86_400 * 997 + 12_347;
    }
}

#[test]
fn moments_are_written_in_each_format() {
    let t = Timestamp::new(1_789_552_793, 45_999_999).unwrap();
    assert_eq!(t.format("%Y-%m-%dT%H:%M:%S%.3fZ"), "2026-09-16T09:59:53.045Z");
    assert_eq!(t.format("%Y-%m-%d %H:%M:%S%.3f"), "2026-09-16 09:59:53.045");
    assert_eq!(t.format("%Y-%m-%d %H:%M:%S"), "2026-09-16 09:59:53");
    assert_eq!(t.format("%Y-%m-%dT%H:%M:%S"), "2026-09-16T09:59:53");
    let leap = Timestamp::new(59, 1_500_000_000).unwrap();
    assert_eq!(leap.format("%Y-%m-%d %H:%M:%S%.3f"), "1970-01-01 00:00:60.500");
}

#[test]
fn fourteen_digits_are_a_moment() {
    let compact = |s: &str| Timestamp::parse(s, "%Y%m%d%H%M%S");
    assert_eq!(compact("20260916095953").unwrap().timestamp(), 1_789_552_793);
    assert_eq!(compact("00000229000000").unwrap().year(), 0);
    let leap = compact("20161231235960").unwrap();
    assert_eq!((leap.timestamp(), leap.subsec_nanos()), (1_483_228_799, 1_000_000_000));
    for bad in [
        "20260016095953",
        "20261316095953",
        "20260900095953",
        "20260931095953",
        "20250229095953",
        "20260916245953",
        "20260916096053",
        "20260916095961",
    ] {
        assert!(compact(bad).is_none(), "{bad}");
    }
}

#[test]
fn spaced_texts_are_a_moment() {
    let spaced = |s: &str| Timestamp::parse(s, "%Y-%m-%d %H:%M:%S%.f");
    assert_eq!(spaced("2026-09-16 09:59:53").unwrap().timestamp(), 1_789_552_793);
    let leap = spaced("2016-12-31 23:59:60").unwrap();
    assert_eq!((leap.timestamp(), leap.subsec_nanos()), (1_483_228_799, 1_000_000_000));
    assert!(spaced("2026-02-29 09:59:53").is_none());
    assert!(spaced("2026-09-16 24:00:00").is_none());
    assert!(spaced("2026-09-16 23:60:00").is_none());
    assert!(spaced("2026-09-16 23:59:61").is_none());
}

#[test]
fn written_moments_have_plain_characters() {
    for secs in [-8_334_601_228_800, -1, 0, 1_789_552_793, 8_210_266_876_799] {
        let t = Timestamp::new(secs, 999_999_999).unwrap();
        for format in ["%Y-%m-%dT%H:%M:%S%.3fZ", "%Y-%m-%d %H:%M:%S%.3f"] {
            let text = t.format(format);
            assert!(text.chars().all(|c| c.is_ascii_digit() || "-+:. TZ".contains(c)), "{text}");
        }
    }
}
