//! Decoding and encoding of protobuf messages.

use dji_telemetry_export::ieee::{Binary32, Binary64};
use dji_telemetry_export::protobuf::{
    dump_tree, encode, get, get_f32, get_f64, get_i64, get_rational, get_string, get_u64,
    line_text, looks_like_message, read_varint, sub, DecodeError, Fields, TreeLine, Value,
};

fn single(v: f32) -> Binary32 {
    Binary32 { bits: v.to_bits() }
}

fn double(v: f64) -> Binary64 {
    Binary64 { bits: v.to_bits() }
}

#[test]
fn varint_roundtrip() {
    for v in [0u64, 1, 127, 128, 300, 2000746133, u64::MAX] {
        let mut buf = Vec::new();
        encode::varint(v, &mut buf);
        assert_eq!(read_varint(&buf, 0).unwrap(), (v, buf.len()));
    }
}

#[test]
fn nested_lookup() {
    let mut inner = Vec::new();
    encode::field_f32(2, single(-1.5), &mut inner);
    encode::field_f32(3, single(0.25), &mut inner);
    let mut mid = Vec::new();
    encode::field_bytes(10, &inner, &mut mid);
    let mut outer = Vec::new();
    encode::field_bytes(2, &mid, &mut outer);
    encode::field_varint(7, 42, &mut outer);
    encode::field_str(9, "DJI", &mut outer);

    let acc = sub(&outer, &[2, 10]).unwrap();
    assert_eq!(get_f32(acc, 2), Some(single(-1.5)));
    assert_eq!(get_f32(acc, 3), Some(single(0.25)));
    assert_eq!(get_f32(acc, 4), None);
    assert_eq!(get_u64(&outer, 7), Some(42));
    assert_eq!(get_string(&outer, 9).as_deref(), Some("DJI"));
    assert!(sub(&outer, &[7]).is_none());
}

#[test]
fn rational_matches_dji_shutter_encoding() {
    // Observed on Osmo Action 5 Pro: bytes 01 a7 18 => 1/3111 s
    let mut msg = Vec::new();
    encode::field_bytes(1, &[0x01, 0xa7, 0x18], &mut msg);
    assert_eq!(get_rational(&msg, 1), Some((1, 3111)));
}

#[test]
fn negative_int32_is_sign_extended() {
    let mut msg = Vec::new();
    encode::field_varint(2, (-1500i64) as u64, &mut msg);
    assert_eq!(get_i64(&msg, 2), Some(-1500));
}

#[test]
fn truncated_message_is_an_error() {
    let mut msg = Vec::new();
    encode::field_bytes(1, &[1, 2, 3], &mut msg);
    msg.pop();
    assert!(!looks_like_message(&msg));
    assert!(get(&msg, 1).is_none());
}

#[test]
fn varints_have_known_bytes() {
    let mut buf = Vec::new();
    encode::varint(300, &mut buf);
    assert_eq!(buf, vec![0xac, 0x02]);
    let mut buf = Vec::new();
    encode::varint(u64::MAX, &mut buf);
    assert_eq!(buf.len(), 10);
    assert_eq!(buf[9], 1);
}

#[test]
fn varint_errors_are_told_apart() {
    assert_eq!(
        read_varint(&[0x80, 0x80], 0).unwrap_err().message(),
        "protobuf decode error: truncated varint"
    );
    assert_eq!(
        read_varint(&[0xff; 12], 0).unwrap_err().message(),
        "protobuf decode error: varint longer than 10 bytes"
    );
    assert!(read_varint(&[], 0).is_err());
}

#[test]
fn doubles_and_rationals_round_trip() {
    let mut msg = Vec::new();
    encode::field_f64(4, double(55.75), &mut msg);
    encode::field_rational(5, 7, 4000, &mut msg);
    assert_eq!(get_f64(&msg, 4), Some(double(55.75)));
    assert_eq!(get_f32(&msg, 4), None);
    assert_eq!(get_rational(&msg, 5), Some((7, 4000)));
    assert_eq!(get_rational(&msg, 4), None);
}

#[test]
fn the_first_of_two_fields_counts() {
    let mut msg = Vec::new();
    encode::field_varint(1, 5, &mut msg);
    encode::field_varint(1, 6, &mut msg);
    assert_eq!(get_u64(&msg, 1), Some(5));
    assert_eq!(get_u64(&msg, 2), None);
}

#[test]
fn fields_come_one_by_one() {
    let mut msg = Vec::new();
    encode::field_varint(1, 5, &mut msg);
    encode::field_bytes(2, b"ab", &mut msg);
    let mut fields = Fields::new(&msg);
    match fields.next() {
        Some(Ok((1, Value::Varint(5)))) => {}
        other => panic!("unexpected {other:?}"),
    }
    match fields.next() {
        Some(Ok((2, Value::Bytes(b)))) => assert_eq!(b, b"ab"),
        other => panic!("unexpected {other:?}"),
    }
    assert!(fields.next().is_none());

    // After an error nothing more comes.
    let mut broken = Fields::new(&[0x0a, 0x05, 0x01]);
    assert!(matches!(broken.next(), Some(Err(_))));
    assert!(broken.next().is_none());
}

#[test]
fn strings_are_taken_as_they_are() {
    let mut msg = Vec::new();
    encode::field_str(1, "DJI ä\0", &mut msg);
    encode::field_bytes(2, &[0xff, b'a'], &mut msg);
    assert_eq!(get_string(&msg, 1).as_deref(), Some("DJI ä"));
    // What is not UTF-8 is no text.
    assert_eq!(get_string(&msg, 2), None);
}

#[test]
fn tree_shows_each_field() {
    let mut inner = Vec::new();
    encode::field_f32(2, single(1.5), &mut inner);
    let mut msg = Vec::new();
    encode::field_varint(1, 300, &mut msg);
    encode::field_str(9, "hello \"x\"", &mut msg);
    encode::field_bytes(3, &inner, &mut msg);
    let mut lines: Vec<TreeLine> = Vec::new();
    dump_tree(&msg, 0, 6, &mut lines);
    let text: String = lines
        .iter()
        .map(|l| {
            let number = match l {
                TreeLine::Single { single, .. } => format!("{}", f32::from_bits(single.bits)),
                TreeLine::Double { double, .. } => format!("{}", f64::from_bits(double.bits)),
                _ => String::new(),
            };
            line_text(l, &number)
        })
        .collect();
    assert!(text.contains("f1 varint = 300\n"), "{text}");
    assert!(text.contains("f9 str (9 B) = \"hello \\\"x\\\"\"\n"), "{text}");
    assert!(text.contains("f3 msg (5 B)\n"), "{text}");
    assert!(text.contains("f2 f32 = 1.5\n"), "{text}");
}

fn fields_of(data: &[u8]) -> Vec<Result<(u32, Value<'_>), DecodeError>> {
    let mut fields = Fields::new(data);
    let mut out = Vec::new();
    while let Some(f) = fields.next() {
        out.push(f);
    }
    out
}

#[test]
fn messages_stand_one_behind_the_other() {
    let mut a = Vec::new();
    encode::field_varint(1, 300, &mut a);
    encode::field_str(2, "DJI", &mut a);
    let mut b = Vec::new();
    encode::field_f32(3, single(1.5), &mut b);
    b.extend_from_slice(&[0x12, 9, 1]);
    let mut both = a.clone();
    both.extend_from_slice(&b);
    let mut expected = fields_of(&a);
    expected.extend(fields_of(&b));
    assert_eq!(expected.len(), 4);
    assert!(expected[3].is_err());
    assert_eq!(fields_of(&both), expected);
}
