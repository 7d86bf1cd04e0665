//! What is decoded of synthetic samples.

use crate::bytes;
use crate::dji;
use crate::dji::decode;
use crate::dji::decode::{Camera, Coordinates, Degrees, DraftFacts};
use crate::dji::synth;
use crate::dji::synth::{FieldList, Frame, Gps};
use crate::dji::{ClipFacts, FixFacts, Quaternion, SampleFacts, SampleTime, Vector};
use crate::ieee::Binary32;
use crate::protobuf;
use crate::protobuf::encode;
use crate::protobuf::WireValue;
use crate::text;
use vstd::prelude::*;
use vstd::utf8::encode_utf8;

verus! {

/// One more field is found when none before it has its number.
proof fn lemma_first_push(l: FieldList, g: u32, v: WireValue, f: u32)
    ensures
        encode::first_value(l.push((g, v)), f) == match encode::first_value(l, f) {
            Some(x) => Some(x),
            None => if g == f {
                Some(v)
            } else {
                None
            },
        },
{
    assert(l.push((g, v)).drop_last() =~= l);
}

/// The length of a value in bytes, at most.
spec fn value_len(v: WireValue) -> nat {
    match v {
        WireValue::Varint(_) => 10,
        WireValue::Fixed64(b) => b.len(),
        WireValue::Bytes(b) => b.len(),
        WireValue::Fixed32(b) => b.len(),
    }
}

/// Whether every field of a list can be written and no value is longer than
/// `bound`.
spec fn bounded(l: FieldList, bound: nat) -> bool {
    bound <= 0x10_0000_0000_0000 && encode::all_encodable(l) && forall|i: int|
        0 <= i < l.len() ==> value_len((#[trigger] l[i]).1) <= bound
}

/// A message is no longer than its fields allow.
proof fn lemma_message_len(l: FieldList, bound: nat)
    requires
        bounded(l, bound),
    ensures
        encode::message_bytes(l).len() <= l.len() * (20 + bound),
    decreases l.len(),
{
    if l.len() == 0 {
        assert(0 * (20 + bound) == 0);
    } else {
        let front = l.drop_last();
        let (f, v) = l.last();
        assert(l[l.len() - 1] == (f, v));
        assert forall|i: int| 0 <= i < front.len() implies (#[trigger] front[i]).0 != 0
            && encode::encodable(front[i].1) && value_len(front[i].1) <= bound by {
            assert(l[i].0 != 0 && value_len(l[i].1) <= bound);
        }
        lemma_message_len(front, bound);
        encode::varint_is_short((f * 8) as u64);
        encode::varint_is_short((f * 8 + 1) as u64);
        encode::varint_is_short((f * 8 + 2) as u64);
        encode::varint_is_short((f * 8 + 5) as u64);
        match v {
            WireValue::Varint(n) => {
                encode::varint_is_short(n);
            },
            WireValue::Bytes(b) => {
                encode::varint_is_short(b.len() as u64);
            },
            _ => {},
        }
        assert(encode::field_of(f, v).len() <= 20 + bound);
        assert(l.len() * (20 + bound) == (l.len() - 1) * (20 + bound) + (20 + bound))
            by (nonlinear_arith);
    }
}

proof fn lemma_bounded_push(l: FieldList, field: u32, v: WireValue, bound: nat)
    requires
        bounded(l, bound),
        field != 0,
        encode::encodable(v),
        value_len(v) <= bound,
    ensures
        bounded(l.push((field, v)), bound),
{
    let m = l.push((field, v));
    assert forall|i: int| 0 <= i < m.len() implies (#[trigger] m[i]).0 != 0 && encode::encodable(
        m[i].1,
    ) && value_len(m[i].1) <= bound by {
        if i < l.len() {
            assert(l[i].0 != 0 && value_len(l[i].1) <= bound);
        }
    }
}

/// Looking up a field of a written message.
proof fn lemma_lookup(l: FieldList, field: u32)
    requires
        encode::all_encodable(l),
    ensures
        protobuf::find(encode::message_bytes(l), field) == encode::first_value(l, field),
{
    encode::message_lookup(l, Seq::empty(), field);
    assert(encode::message_bytes(l) + Seq::<u8>::empty() =~= encode::message_bytes(l));
}

/// The vector that was written is read back.
proof fn lemma_vector(first: u32, v: Vector)
    requires
        1 <= first < 100,
    ensures
        bounded(synth::vector_list(first, v), 1000),
        synth::vector_list(first, v).len() == 3,
        decode::vector_at(encode::message_bytes(synth::vector_list(first, v)), first) == Some(v),
        first == 1 ==> ({
            let m = encode::message_bytes(synth::vector_list(first, v));
            decode::component(m, 1) == v.x && decode::component(m, 2) == v.y
                && decode::component(m, 3) == v.z
        }),
{
    let l = synth::vector_list(first, v);
    let none = synth::no_fields();
    let l1 = synth::with_single(none, first, v.x);
    let l2 = synth::with_single(l1, (first + 1) as u32, v.y);
    let x = WireValue::Fixed32(bytes::le32_bytes(v.x.bits));
    let y = WireValue::Fixed32(bytes::le32_bytes(v.y.bits));
    let z = WireValue::Fixed32(bytes::le32_bytes(v.z.bits));
    lemma_bounded_push(none, first, x, 1000);
    lemma_bounded_push(l1, (first + 1) as u32, y, 1000);
    lemma_bounded_push(l2, (first + 2) as u32, z, 1000);
    lemma_first_push(none, first, x, first);
    lemma_first_push(l1, (first + 1) as u32, y, first);
    lemma_first_push(l2, (first + 2) as u32, z, first);
    lemma_first_push(none, first, x, (first + 1) as u32);
    lemma_first_push(l1, (first + 1) as u32, y, (first + 1) as u32);
    lemma_first_push(l2, (first + 2) as u32, z, (first + 1) as u32);
    lemma_first_push(none, first, x, (first + 2) as u32);
    lemma_first_push(l1, (first + 1) as u32, y, (first + 2) as u32);
    lemma_first_push(l2, (first + 2) as u32, z, (first + 2) as u32);
    lemma_lookup(l, first);
    lemma_lookup(l, (first + 1) as u32);
    lemma_lookup(l, (first + 2) as u32);
    bytes::le_round_trip(v.x.bits, 0);
    bytes::le_round_trip(v.y.bits, 0);
    bytes::le_round_trip(v.z.bits, 0);
}

/// The quaternion that was written is read back.
proof fn lemma_quaternion(q: Quaternion)
    ensures
        bounded(synth::quaternion_list(q), 1000),
        synth::quaternion_list(q).len() == 4,
        decode::quaternion_at(encode::message_bytes(synth::quaternion_list(q))) == Some(q),
{
    let l0 = synth::no_fields();
    let l1 = synth::with_single(l0, 1, q.w);
    let l2 = synth::with_single(l1, 2, q.x);
    let l3 = synth::with_single(l2, 3, q.y);
    let l = synth::with_single(l3, 4, q.z);
    let w = WireValue::Fixed32(bytes::le32_bytes(q.w.bits));
    let x = WireValue::Fixed32(bytes::le32_bytes(q.x.bits));
    let y = WireValue::Fixed32(bytes::le32_bytes(q.y.bits));
    let z = WireValue::Fixed32(bytes::le32_bytes(q.z.bits));
    lemma_bounded_push(l0, 1, w, 1000);
    lemma_bounded_push(l1, 2, x, 1000);
    lemma_bounded_push(l2, 3, y, 1000);
    lemma_bounded_push(l3, 4, z, 1000);
    assert forall|k: u32| 1 <= k <= 4 implies #[trigger] protobuf::find(
        encode::message_bytes(l),
        k,
    ) == Some(
        if k == 1 {
            w
        } else if k == 2 {
            x
        } else if k == 3 {
            y
        } else {
            z
        },
    ) by {
        lemma_first_push(l0, 1, w, k);
        lemma_first_push(l1, 2, x, k);
        lemma_first_push(l2, 3, y, k);
        lemma_first_push(l3, 4, z, k);
        lemma_lookup(l, k);
    }
    bytes::le_round_trip(q.w.bits, 0);
    bytes::le_round_trip(q.x.bits, 0);
    bytes::le_round_trip(q.y.bits, 0);
    bytes::le_round_trip(q.z.bits, 0);
}

/// A message of one field.
proof fn lemma_single_field(field: u32, v: WireValue, bound: nat)
    requires
        field != 0,
        encode::encodable(v),
        value_len(v) <= bound,
        bound <= 0x10_0000_0000_0000,
    ensures
        bounded(synth::no_fields().push((field, v)), bound),
        protobuf::find(encode::message_bytes(synth::no_fields().push((field, v))), field) == Some(
            v,
        ),
        encode::message_bytes(synth::no_fields().push((field, v))).len() <= 20 + bound,
{
    let none = synth::no_fields();
    let l = none.push((field, v));
    lemma_bounded_push(none, field, v, bound);
    lemma_first_push(none, field, v, field);
    lemma_lookup(l, field);
    lemma_message_len(l, bound);
    let n = l.len();
    assert(n * (20 + bound) == 20 + bound) by (nonlinear_arith)
        requires
            n == 1,
    ;
}

/// The rational that was written is read back.
proof fn lemma_rational(n: u64, d: u64)
    ensures
        ({
            let pair = encode::varint_bytes(n) + encode::varint_bytes(d);
            protobuf::varint_pair(pair) == Some((n, d)) && pair.len() <= 20
        }),
{
    let a = encode::varint_bytes(n);
    let b = encode::varint_bytes(d);
    let pair = a + b;
    encode::varint_round_trip(n, b);
    encode::varint_round_trip(d, Seq::empty());
    assert(b + Seq::<u8>::empty() =~= b);
    assert(pair.skip(a.len() as int) =~= b);
    encode::varint_is_short(n);
    encode::varint_is_short(d);
}

/// A list with a nested message more, if there is one.
spec fn with_optional(l: FieldList, field: u32, m: Option<FieldList>) -> FieldList {
    match m {
        Some(m) => synth::with_message(l, field, m),
        None => l,
    }
}

/// The bytes of a nested message, if there is one.
spec fn optional_bytes(m: Option<FieldList>) -> Option<WireValue> {
    match m {
        Some(m) => Some(WireValue::Bytes(encode::message_bytes(m))),
        None => None,
    }
}

/// Whether a nested message is short, if there is one.
spec fn optional_short(m: Option<FieldList>, bound: nat) -> bool {
    match m {
        Some(m) => encode::message_bytes(m).len() <= bound,
        None => true,
    }
}

proof fn lemma_optional(l: FieldList, field: u32, m: Option<FieldList>, bound: nat, k: u32)
    requires
        bounded(l, bound),
        field != 0,
        optional_short(m, bound),
    ensures
        bounded(with_optional(l, field, m), bound),
        with_optional(l, field, m).len() <= l.len() + 1,
        encode::first_value(with_optional(l, field, m), k) == match encode::first_value(l, k) {
            Some(x) => Some(x),
            None => if k == field {
                optional_bytes(m)
            } else {
                None
            },
        },
{
    if let Some(m) = m {
        let v = WireValue::Bytes(encode::message_bytes(m));
        lemma_bounded_push(l, field, v, bound);
        lemma_first_push(l, field, v, k);
    }
}

/// The nested message of a sensitivity.
spec fn iso_message(f: Frame) -> Option<FieldList> {
    match f.iso {
        Some(v) => Some(synth::with_single(synth::no_fields(), 1, v)),
        None => None,
    }
}

/// The nested message of a shutter time.
spec fn shutter_message(f: Frame) -> Option<FieldList> {
    match f.shutter {
        Some((n, d)) => Some(
            synth::no_fields().push(
                (1u32, WireValue::Bytes(encode::varint_bytes(n) + encode::varint_bytes(d))),
            ),
        ),
        None => None,
    }
}

/// The nested message of a colour temperature.
spec fn cct_message(f: Frame) -> Option<FieldList> {
    match f.cct {
        Some(v) => Some(synth::with_varint(synth::no_fields(), 1, v)),
        None => None,
    }
}

/// The nested message of an attitude.
spec fn quat_message(f: Frame) -> Option<FieldList> {
    match f.quat {
        Some(q) => Some(synth::quaternion_list(q)),
        None => None,
    }
}

/// The nested message of an acceleration.
spec fn acc_message(f: Frame) -> Option<FieldList> {
    match f.acc {
        Some(a) => Some(synth::vector_list(2, a)),
        None => None,
    }
}

/// The fields of the camera's part.
proof fn lemma_camera_fields(f: Frame, k: u32)
    ensures
        ({
            let l = synth::camera_list(f);
            &&& bounded(l, 1000)
            &&& l.len() <= 5
            &&& encode::first_value(l, k) == if k == 3 {
                optional_bytes(iso_message(f))
            } else if k == 4 {
                optional_bytes(shutter_message(f))
            } else if k == 6 {
                optional_bytes(cct_message(f))
            } else if k == 9 {
                optional_bytes(quat_message(f))
            } else if k == 10 {
                optional_bytes(acc_message(f))
            } else {
                None
            }
        }),
{
    let l0 = synth::no_fields();
    if let Some(v) = f.iso {
        lemma_single_field(1, WireValue::Fixed32(bytes::le32_bytes(v.bits)), 100);
    }
    if let Some((n, d)) = f.shutter {
        lemma_rational(n, d);
        lemma_single_field(
            1,
            WireValue::Bytes(encode::varint_bytes(n) + encode::varint_bytes(d)),
            100,
        );
    }
    if let Some(v) = f.cct {
        lemma_single_field(1, WireValue::Varint(v), 100);
    }
    if let Some(q) = f.quat {
        lemma_short_quaternion(q);
    }
    if let Some(a) = f.acc {
        lemma_short_vector(2, a);
    }
    let l1 = with_optional(l0, 3, iso_message(f));
    let l2 = with_optional(l1, 4, shutter_message(f));
    let l3 = with_optional(l2, 6, cct_message(f));
    let l4 = with_optional(l3, 9, quat_message(f));
    let l5 = with_optional(l4, 10, acc_message(f));
    lemma_optional(l0, 3, iso_message(f), 1000, k);
    lemma_optional(l1, 4, shutter_message(f), 1000, k);
    lemma_optional(l2, 6, cct_message(f), 1000, k);
    lemma_optional(l3, 9, quat_message(f), 1000, k);
    lemma_optional(l4, 10, acc_message(f), 1000, k);
    assert(l3 == synth::exposure_list(f));
    assert(l5 == synth::camera_list(f));
}

/// A written quaternion is short.
proof fn lemma_short_quaternion(q: Quaternion)
    ensures
        encode::message_bytes(synth::quaternion_list(q)).len() <= 1000,
{
    let l0 = synth::no_fields();
    let l1 = synth::with_single(l0, 1, q.w);
    let l2 = synth::with_single(l1, 2, q.x);
    let l3 = synth::with_single(l2, 3, q.y);
    lemma_bounded_push(l0, 1, WireValue::Fixed32(bytes::le32_bytes(q.w.bits)), 10);
    lemma_bounded_push(l1, 2, WireValue::Fixed32(bytes::le32_bytes(q.x.bits)), 10);
    lemma_bounded_push(l2, 3, WireValue::Fixed32(bytes::le32_bytes(q.y.bits)), 10);
    lemma_bounded_push(l3, 4, WireValue::Fixed32(bytes::le32_bytes(q.z.bits)), 10);
    assert(synth::quaternion_list(q).len() == 4);
    lemma_message_len(synth::quaternion_list(q), 10);
}

/// A written vector is short.
proof fn lemma_short_vector(first: u32, v: Vector)
    requires
        1 <= first < 100,
    ensures
        encode::message_bytes(synth::vector_list(first, v)).len() <= 1000,
{
    let l0 = synth::no_fields();
    let l1 = synth::with_single(l0, first, v.x);
    let l2 = synth::with_single(l1, (first + 1) as u32, v.y);
    lemma_bounded_push(l0, first, WireValue::Fixed32(bytes::le32_bytes(v.x.bits)), 10);
    lemma_bounded_push(
        l1,
        (first + 1) as u32,
        WireValue::Fixed32(bytes::le32_bytes(v.y.bits)),
        10,
    );
    lemma_bounded_push(
        l2,
        (first + 2) as u32,
        WireValue::Fixed32(bytes::le32_bytes(v.z.bits)),
        10,
    );
    assert(synth::vector_list(first, v).len() == 3);
    lemma_message_len(synth::vector_list(first, v), 10);
}

/// What the camera reports of a synthetic frame.
pub open spec fn camera_for(f: Frame) -> Camera {
    Camera {
        acc: f.acc,
        quat: f.quat,
        iso: f.iso,
        shutter: match f.shutter {
            Some((n, d)) if d != 0 => Some((n, d)),
            _ => None,
        },
        color_temperature: decode::narrow(f.cct),
    }
}

/// The camera's part of a synthetic frame is read back.
proof fn lemma_camera(f: Frame, frame: Seq<u8>)
    requires
        protobuf::message_at(frame, 2) == Some(encode::message_bytes(synth::camera_list(f))),
    ensures
        decode::camera_of(frame) == camera_for(f),
{
    let l = synth::camera_list(f);
    let cam = encode::message_bytes(l);
    assert forall|k: u32| #[trigger] protobuf::find(cam, k) == encode::first_value(l, k) by {
        lemma_camera_fields(f, k);
        lemma_lookup(l, k);
    }
    lemma_camera_fields(f, 3);
    lemma_camera_fields(f, 4);
    lemma_camera_fields(f, 6);
    lemma_camera_fields(f, 9);
    lemma_camera_fields(f, 10);
    assert(protobuf::find(cam, 3) == optional_bytes(iso_message(f)));
    assert(protobuf::find(cam, 4) == optional_bytes(shutter_message(f)));
    assert(protobuf::find(cam, 6) == optional_bytes(cct_message(f)));
    assert(protobuf::find(cam, 9) == optional_bytes(quat_message(f)));
    assert(protobuf::find(cam, 10) == optional_bytes(acc_message(f)));
    if let Some(v) = f.iso {
        lemma_single_field(1, WireValue::Fixed32(bytes::le32_bytes(v.bits)), 100);
        bytes::le_round_trip(v.bits, 0);
    }
    if let Some((n, d)) = f.shutter {
        lemma_rational(n, d);
        lemma_single_field(
            1,
            WireValue::Bytes(encode::varint_bytes(n) + encode::varint_bytes(d)),
            100,
        );
    }
    if let Some(v) = f.cct {
        lemma_single_field(1, WireValue::Varint(v), 100);
    }
    if let Some(q) = f.quat {
        lemma_quaternion(q);
    }
    if let Some(a) = f.acc {
        lemma_vector(2, a);
    }
}

/// Each character takes at most four bytes.
proof fn lemma_utf8_len(t: Seq<char>)
    ensures
        encode_utf8(t).len() <= 4 * t.len(),
    decreases t.len(),
{
    if t.len() > 0 {
        lemma_utf8_len(t.drop_first());
    }
}

/// A text that was written is read back, without NUL characters at its end.
proof fn lemma_text(m: Seq<u8>, field: u32, t: Seq<char>)
    requires
        protobuf::find(m, field) == Some(WireValue::Bytes(encode_utf8(t))),
    ensures
        protobuf::string_at(m, field) == Some(text::without_nul_end(t)),
{
    vstd::utf8::encode_utf8_valid_utf8(t);
    vstd::utf8::encode_utf8_decode_utf8(t);
}

/// The coordinates of a GPS part are read back.
proof fn lemma_coordinates(g: Gps)
    ensures
        ({
            let l = synth::coordinates_list(g);
            let m = encode::message_bytes(l);
            &&& m.len() <= 100
            &&& protobuf::u64_at(m, 1) == Some(
                if g.unit_deg {
                    1u64
                } else {
                    0u64
                },
            )
            &&& protobuf::f64_at(m, 2) == Some(g.lat)
            &&& protobuf::f64_at(m, 3) == Some(g.lon)
        }),
{
    let unit: u64 = if g.unit_deg {
        1
    } else {
        0
    };
    let l0 = synth::no_fields();
    let l1 = synth::with_varint(l0, 1, unit);
    let l2 = synth::with_double(l1, 2, g.lat);
    let l3 = synth::with_double(l2, 3, g.lon);
    let a = WireValue::Varint(unit);
    let b = WireValue::Fixed64(bytes::le64_bytes(g.lat.bits));
    let c = WireValue::Fixed64(bytes::le64_bytes(g.lon.bits));
    lemma_bounded_push(l0, 1, a, 10);
    lemma_bounded_push(l1, 2, b, 10);
    lemma_bounded_push(l2, 3, c, 10);
    assert(l3.len() == 3);
    lemma_message_len(l3, 10);
    assert forall|k: u32| 1 <= k <= 3 implies #[trigger] protobuf::find(
        encode::message_bytes(l3),
        k,
    ) == Some(
        if k == 1 {
            a
        } else if k == 2 {
            b
        } else {
            c
        },
    ) by {
        lemma_first_push(l0, 1, a, k);
        lemma_first_push(l1, 2, b, k);
        lemma_first_push(l2, 3, c, k);
        lemma_lookup(l3, k);
    }
    bytes::le_round_trip(0, g.lat.bits);
    bytes::le_round_trip(0, g.lon.bits);
}

/// Whether the time text of a GPS part is not too long to be written.
pub open spec fn short_time(g: Gps) -> bool {
    g.time matches Some(t) ==> t@.len() <= 0xffff_ffff
}

/// The two's complement of a signed integer is read back.
proof fn lemma_signed(v: i64)
    ensures
        protobuf::signed(synth::unsigned(v)) == v,
{
}

/// The nested message of a GPS time.
spec fn time_message(g: Gps) -> Option<FieldList> {
    match g.time {
        Some(t) => Some(synth::with_text(synth::no_fields(), 1, t@)),
        None => None,
    }
}

/// The fields of a GPS part.
proof fn lemma_gps_fields(g: Gps, k: u32)
    requires
        short_time(g),
    ensures
        ({
            let l = synth::gps_list(g);
            &&& bounded(l, 0x100_0000_0000)
            &&& l.len() <= 5
            &&& encode::first_value(l, k) == if k == 1 && g.status != 1 {
                Some(WireValue::Bytes(encode::message_bytes(synth::coordinates_list(g))))
            } else if k == 2 && g.status != 1 {
                Some(WireValue::Varint(synth::unsigned(g.alt_mm)))
            } else if k == 3 {
                Some(WireValue::Varint(g.status))
            } else if k == 5 && g.time is Some {
                Some(WireValue::Varint(1))
            } else if k == 6 {
                optional_bytes(time_message(g))
            } else {
                None
            }
        }),
{
    let bound: nat = 0x100_0000_0000;
    let l0 = synth::no_fields();
    lemma_coordinates(g);
    let c = WireValue::Bytes(encode::message_bytes(synth::coordinates_list(g)));
    let alt = WireValue::Varint(synth::unsigned(g.alt_mm));
    let l2 = if g.status != 1 {
        l0.push((1u32, c)).push((2u32, alt))
    } else {
        l0
    };
    lemma_bounded_push(l0, 1, c, bound);
    lemma_bounded_push(l0.push((1u32, c)), 2, alt, bound);
    lemma_first_push(l0, 1, c, k);
    lemma_first_push(l0.push((1u32, c)), 2, alt, k);
    let status = WireValue::Varint(g.status);
    lemma_bounded_push(l2, 3, status, bound);
    lemma_first_push(l2, 3, status, k);
    let l3 = l2.push((3u32, status));
    if let Some(t) = g.time {
        lemma_utf8_len(t@);
        lemma_single_field(1, WireValue::Bytes(encode_utf8(t@)), 0x80_0000_0000);
        let has = WireValue::Varint(1);
        let l5 = l3.push((5u32, has));
        lemma_bounded_push(l3, 5, has, bound);
        lemma_first_push(l3, 5, has, k);
        lemma_optional(l5, 6, time_message(g), bound, k);
    }
}

/// A written GPS part is not too long.
proof fn lemma_gps_len(g: Gps)
    requires
        short_time(g),
    ensures
        encode::message_bytes(synth::gps_list(g)).len() <= 0x1000_0000_0000,
{
    let l = synth::gps_list(g);
    lemma_gps_fields(g, 1);
    lemma_message_len(l, 0x100_0000_0000);
    let n = l.len();
    assert(n * (20 + 0x100_0000_0000) <= 0x1000_0000_0000) by (nonlinear_arith)
        requires
            n <= 5,
    ;
}

/// The coordinates, the time and the status of a synthetic GPS part.
proof fn lemma_gps(g: Gps)
    requires
        short_time(g),
    ensures
        ({
            let m = encode::message_bytes(synth::gps_list(g));
            &&& decode::gps_status(m) == g.status
            &&& decode::coordinates_in(m) == if g.status == 1 {
                None
            } else {
                Some(
                    Coordinates { in_degrees: g.unit_deg, latitude: g.lat, longitude: g.lon },
                )
            }
            &&& g.status != 1 ==> protobuf::i64_at(m, 2) == Some(g.alt_mm)
            &&& decode::gps_time_of(m) == match g.time {
                Some(t) => dji::gps_moment(
                    dji::with_colons(text::trimmed(text::without_nul_end(t@))),
                ),
                None => None,
            }
        }),
{
    let l = synth::gps_list(g);
    let m = encode::message_bytes(l);
    lemma_gps_fields(g, 1);
    lemma_gps_fields(g, 2);
    lemma_gps_fields(g, 3);
    lemma_gps_fields(g, 6);
    lemma_lookup(l, 1);
    lemma_lookup(l, 2);
    lemma_lookup(l, 3);
    lemma_lookup(l, 6);
    lemma_coordinates(g);
    lemma_signed(g.alt_mm);
    if let Some(t) = g.time {
        lemma_utf8_len(t@);
        lemma_single_field(1, WireValue::Bytes(encode_utf8(t@)), 0x80_0000_0000);
        let inner = encode::message_bytes(synth::with_text(synth::no_fields(), 1, t@));
        lemma_text(inner, 1, t@);
    }
}

/// The nested message of the remote's header.
spec fn remote_message(f: Frame) -> Option<FieldList> {
    if f.with_remote_header {
        Some(synth::remote_list())
    } else {
        None
    }
}

/// The nested message of the GPS part.
spec fn gps_message(f: Frame) -> Option<FieldList> {
    match f.gps {
        Some(g) => Some(synth::gps_list(g)),
        None => None,
    }
}

/// The nested message of the velocity.
spec fn velocity_message(f: Frame) -> Option<FieldList> {
    match f.gps {
        Some(g) => match g.velocity {
            Some(v) => Some(synth::vector_list(1, v)),
            None => None,
        },
        None => None,
    }
}

/// Whether a frame can be written.
pub open spec fn short_frame(f: Frame) -> bool {
    f.gps matches Some(g) ==> short_time(g)
}

/// The header of the remote is read back.
proof fn lemma_remote()
    ensures
        ({
            let m = encode::message_bytes(synth::remote_list());
            &&& m.len() <= 1000
            &&& protobuf::string_at(m, 4) == Some("DJI AC004"@)
            &&& protobuf::f32_at(m, 5) == Some(Binary32 { bits: 0x41ef_c28f })
        }),
{
    reveal_strlit("DJI AC004");
    let name = "DJI AC004"@;
    lemma_utf8_len(name);
    let l0 = synth::no_fields();
    let one = WireValue::Varint(1);
    let t = WireValue::Bytes(encode_utf8(name));
    let r = WireValue::Fixed32(bytes::le32_bytes(0x41ef_c28f));
    let l1 = l0.push((1u32, one));
    let l2 = l1.push((2u32, one));
    let l3 = l2.push((4u32, t));
    let l = l3.push((5u32, r));
    assert(l == synth::remote_list());
    lemma_bounded_push(l0, 1, one, 100);
    lemma_bounded_push(l1, 2, one, 100);
    lemma_bounded_push(l2, 4, t, 100);
    lemma_bounded_push(l3, 5, r, 100);
    assert(l.len() == 4);
    lemma_message_len(l, 100);
    lemma_first_push(l0, 1, one, 4);
    lemma_first_push(l1, 2, one, 4);
    lemma_first_push(l2, 4, t, 4);
    lemma_first_push(l3, 5, r, 4);
    lemma_first_push(l0, 1, one, 5);
    lemma_first_push(l1, 2, one, 5);
    lemma_first_push(l2, 4, t, 5);
    lemma_first_push(l3, 5, r, 5);
    lemma_lookup(l, 4);
    lemma_lookup(l, 5);
    lemma_text(encode::message_bytes(l), 4, name);
    assert(name.last() == '4');
    assert(text::without_nul_end(name) == name);
    bytes::le_round_trip(0x41ef_c28f, 0);
}

/// The fields of the remote's part.
proof fn lemma_gimbal_fields(f: Frame, k: u32)
    requires
        short_frame(f),
    ensures
        ({
            let l = synth::gimbal_list(f);
            &&& bounded(l, 0x1000_0000_0000)
            &&& l.len() <= 3
            &&& encode::first_value(l, k) == if k == 1 {
                optional_bytes(remote_message(f))
            } else if k == 2 {
                optional_bytes(gps_message(f))
            } else if k == 3 {
                optional_bytes(velocity_message(f))
            } else {
                None
            }
            &&& l.len() == 0 ==> f.gps is None && !f.with_remote_header
        }),
{
    let bound: nat = 0x1000_0000_0000;
    let l0 = synth::no_fields();
    lemma_remote();
    if let Some(g) = f.gps {
        lemma_gps_len(g);
        if let Some(v) = g.velocity {
            lemma_short_vector(1, v);
        }
    }
    let l1 = with_optional(l0, 1, remote_message(f));
    let l2 = with_optional(l1, 2, gps_message(f));
    let l3 = with_optional(l2, 3, velocity_message(f));
    lemma_optional(l0, 1, remote_message(f), bound, k);
    lemma_optional(l1, 2, gps_message(f), bound, k);
    lemma_optional(l2, 3, velocity_message(f), bound, k);
    assert(l3 == synth::gimbal_list(f));
}

/// The header of a synthetic frame is read back.
proof fn lemma_header(f: Frame)
    ensures
        ({
            let m = encode::message_bytes(synth::header_list(f));
            &&& m.len() <= 100
            &&& protobuf::u64_at(m, 2) == Some(f.timestamp_us)
            &&& protobuf::u64_at(m, 1) == if f.seq != 0 {
                Some(f.seq)
            } else {
                None
            }
        }),
{
    let l0 = synth::no_fields();
    let a = WireValue::Varint(f.seq);
    let b = WireValue::Varint(f.timestamp_us);
    lemma_bounded_push(l0, 1, a, 10);
    lemma_first_push(l0, 1, a, 1);
    lemma_first_push(l0, 1, a, 2);
    let l1 = if f.seq != 0 {
        l0.push((1u32, a))
    } else {
        l0
    };
    lemma_bounded_push(l1, 2, b, 10);
    lemma_first_push(l1, 2, b, 1);
    lemma_first_push(l1, 2, b, 2);
    let l = l1.push((2u32, b));
    assert(l == synth::header_list(f));
    lemma_lookup(l, 1);
    lemma_lookup(l, 2);
    lemma_message_len(l, 10);
}

/// The nested message of the remote's part.
spec fn gimbal_message(f: Frame) -> Option<FieldList> {
    if synth::gimbal_list(f).len() == 0 {
        None
    } else {
        Some(synth::gimbal_list(f))
    }
}

/// The parts of a synthetic frame are read back, and the frame is not too long.
proof fn lemma_frame_parts(f: Frame)
    requires
        short_frame(f),
    ensures
        ({
            let m = encode::message_bytes(synth::frame_list(f));
            &&& m.len() <= 0x4_0000_0000_0000
            &&& protobuf::message_at(m, 1) == Some(encode::message_bytes(synth::header_list(f)))
            &&& protobuf::message_at(m, 2) == Some(encode::message_bytes(synth::camera_list(f)))
            &&& protobuf::find(m, 4) == optional_bytes(gimbal_message(f))
        }),
{
    let bound: nat = 0x1_0000_0000_0000;
    let l0 = synth::no_fields();
    lemma_header(f);
    lemma_camera_fields(f, 1);
    lemma_message_len(synth::camera_list(f), 1000);
    let n = synth::camera_list(f).len();
    assert(n * (20 + 1000) <= 6000) by (nonlinear_arith)
        requires
            n <= 5,
    ;
    lemma_gimbal_fields(f, 1);
    lemma_message_len(synth::gimbal_list(f), 0x1000_0000_0000);
    let n = synth::gimbal_list(f).len();
    assert(n * (20 + 0x1000_0000_0000) <= 0x1_0000_0000_0000) by (nonlinear_arith)
        requires
            n <= 3,
    ;
    let h = WireValue::Bytes(encode::message_bytes(synth::header_list(f)));
    let c = WireValue::Bytes(encode::message_bytes(synth::camera_list(f)));
    let l1 = l0.push((1u32, h));
    let l2 = l1.push((2u32, c));
    let l3 = with_optional(l2, 4, gimbal_message(f));
    assert(l3 == synth::frame_list(f));
    lemma_bounded_push(l0, 1, h, bound);
    lemma_bounded_push(l1, 2, c, bound);
    assert forall|k: u32| #[trigger] encode::first_value(l2, k) == if k == 1 {
        Some(h)
    } else if k == 2 {
        Some(c)
    } else {
        None
    } by {
        lemma_first_push(l0, 1, h, k);
        lemma_first_push(l1, 2, c, k);
    }
    lemma_optional(l2, 4, gimbal_message(f), bound, 1);
    lemma_optional(l2, 4, gimbal_message(f), bound, 2);
    lemma_optional(l2, 4, gimbal_message(f), bound, 4);
    lemma_lookup(l3, 1);
    lemma_lookup(l3, 2);
    lemma_lookup(l3, 4);
    lemma_message_len(l3, bound);
    let n = l3.len();
    assert(n * (20 + 0x1_0000_0000_0000) <= 0x4_0000_0000_0000) by (nonlinear_arith)
        requires
            n <= 3,
    ;
}

/// The GPS position of a synthetic frame.
pub open spec fn fix_for(f: Frame, converted: Degrees) -> Option<FixFacts> {
    match f.gps {
        None => None,
        Some(g) => {
            let c = Coordinates { in_degrees: g.unit_deg, latitude: g.lat, longitude: g.lon };
            let d = decode::degrees_of(c, converted);
            if g.status != 1 && decode::plausible(d) {
                Some(
                    FixFacts {
                        latitude: d.latitude,
                        longitude: d.longitude,
                        altitude_mm: Some(g.alt_mm),
                        status: g.status,
                        velocity: g.velocity,
                        time: match g.time {
                            Some(t) => dji::gps_moment(
                                dji::with_colons(text::trimmed(text::without_nul_end(t@))),
                            ),
                            None => None,
                        },
                    },
                )
            } else {
                None
            }
        },
    }
}

/// Decoding a synthetic frame gives back what it was made of: its number and
/// time stamp, what the camera reports, and its GPS position when that is
/// valid and plausible.
pub proof fn frame_reads_back(f: Frame, index: nat, converted: Degrees)
    requires
        short_frame(f),
    ensures
        ({
            let frame = encode::message_bytes(synth::frame_list(f));
            &&& decode::frame_stamp(frame) == Some(f.timestamp_us)
            &&& decode::frame_number(frame, index) == if f.seq != 0 {
                f.seq
            } else {
                index as u64
            }
            &&& decode::camera_of(frame) == camera_for(f)
            &&& decode::fix_of(frame, converted) == fix_for(f, converted)
        }),
{
    let frame = encode::message_bytes(synth::frame_list(f));
    lemma_frame_parts(f);
    lemma_header(f);
    lemma_camera(f, frame);
    lemma_gimbal_fields(f, 2);
    lemma_gimbal_fields(f, 3);
    if synth::gimbal_list(f).len() > 0 {
        let l = synth::gimbal_list(f);
        let gimbal = encode::message_bytes(l);
        lemma_lookup(l, 2);
        lemma_lookup(l, 3);
        if let Some(g) = f.gps {
            lemma_gps(g);
            if let Some(v) = g.velocity {
                lemma_vector(1, v);
            }
        }
    }
}

/// A synthetic sample holds its frame, whether or not a clip header stands
/// before it.
pub proof fn sample_holds_frame(f: Frame, model: Seq<char>, serial: Seq<char>, fps: Binary32)
    requires
        short_frame(f),
        model.len() <= 0xffff_ffff,
        serial.len() <= 0xffff_ffff,
    ensures
        ({
            let sample = encode::message_bytes(synth::sample_list(f));
            let header = encode::message_bytes(synth::clip_header_list(model, serial, fps));
            let frame = encode::message_bytes(synth::frame_list(f));
            &&& protobuf::message_at(sample, 3) == Some(frame)
            &&& protobuf::message_at(header + sample, 3) == Some(frame)
        }),
{
    let frame = encode::message_bytes(synth::frame_list(f));
    let sample = encode::message_bytes(synth::sample_list(f));
    lemma_frame_parts(f);
    lemma_single_field(3, WireValue::Bytes(frame), 0x8_0000_0000_0000);
    lemma_clip_header(model, serial, fps);
    let l = synth::clip_header_list(model, serial, fps);
    encode::message_lookup(l, sample, 3);
}

/// The parts of a clip header are not too long, and it has no frame.
proof fn lemma_clip_header(model: Seq<char>, serial: Seq<char>, fps: Binary32)
    requires
        model.len() <= 0xffff_ffff,
        serial.len() <= 0xffff_ffff,
    ensures
        ({
            let l = synth::clip_header_list(model, serial, fps);
            &&& encode::all_encodable(l)
            &&& encode::first_value(l, 3) is None
        }),
{
    let none = synth::no_fields();
    lemma_clip_len(model, serial);
    lemma_video_len(fps);
    let clip = synth::clip_list(model, serial);
    let video = synth::video_list(fps);
    lemma_single_field(1, WireValue::Bytes(encode::message_bytes(clip)), 0x100_0000_0000);
    lemma_single_field(3, WireValue::Bytes(encode::message_bytes(video)), 1000);
    let a = WireValue::Bytes(encode::message_bytes(synth::with_message(none, 1, clip)));
    let b = WireValue::Bytes(encode::message_bytes(synth::with_message(none, 3, video)));
    let l1 = none.push((1u32, a));
    lemma_bounded_push(none, 1, a, 0x1000_0000_0000);
    lemma_bounded_push(l1, 2, b, 0x1000_0000_0000);
    lemma_first_push(none, 1, a, 3);
    lemma_first_push(l1, 2, b, 3);
}

/// A list of a clip header with one more text.
proof fn lemma_push_text(l: FieldList, field: u32, t: Seq<char>)
    requires
        bounded(l, 0x10_0000_0000),
        field != 0,
        t.len() <= 0xffff_ffff,
    ensures
        bounded(synth::with_text(l, field, t), 0x10_0000_0000),
{
    lemma_utf8_len(t);
    lemma_bounded_push(l, field, WireValue::Bytes(encode_utf8(t)), 0x10_0000_0000);
}

proof fn lemma_clip_len(model: Seq<char>, serial: Seq<char>)
    requires
        model.len() <= 0xffff_ffff,
        serial.len() <= 0xffff_ffff,
    ensures
        encode::message_bytes(synth::clip_list(model, serial)).len() <= 0x100_0000_0000,
{
    reveal_strlit("dvtm_ac204.proto");
    reveal_strlit("02.01.01");
    reveal_strlit("2.0.1");
    reveal_strlit("10.00.16.13");
    let l0 = synth::no_fields();
    let l1 = synth::with_text(l0, 1, "dvtm_ac204.proto"@);
    let l2 = synth::with_text(l1, 2, "02.01.01"@);
    let l3 = synth::with_text(l2, 3, "2.0.1"@);
    let l4 = synth::with_text(l3, 5, serial);
    let l5 = synth::with_text(l4, 6, "10.00.16.13"@);
    let l6 = synth::with_text(l5, 10, model);
    lemma_push_text(l0, 1, "dvtm_ac204.proto"@);
    lemma_push_text(l1, 2, "02.01.01"@);
    lemma_push_text(l2, 3, "2.0.1"@);
    lemma_push_text(l3, 5, serial);
    lemma_push_text(l4, 6, "10.00.16.13"@);
    lemma_push_text(l5, 10, model);
    assert(l6.len() == 6);
    lemma_message_len(l6, 0x10_0000_0000);
}

proof fn lemma_video_len(fps: Binary32)
    ensures
        encode::message_bytes(synth::video_list(fps)).len() <= 1000,
{
    let l0 = synth::no_fields();
    let l1 = synth::with_varint(l0, 1, 3840);
    let l2 = synth::with_varint(l1, 2, 2160);
    lemma_bounded_push(l0, 1, WireValue::Varint(3840), 10);
    lemma_bounded_push(l1, 2, WireValue::Varint(2160), 10);
    lemma_bounded_push(l2, 3, WireValue::Fixed32(bytes::le32_bytes(fps.bits)), 10);
    assert(synth::video_list(fps).len() == 3);
    lemma_message_len(synth::video_list(fps), 10);
}

/// The clip header of a synthetic sample is read back, whatever stands behind it.
pub proof fn clip_header_reads_back(
    info: ClipFacts,
    model: Seq<char>,
    serial: Seq<char>,
    fps: Binary32,
    rest: Seq<u8>,
)
    requires
        model.len() <= 0xffff_ffff,
        serial.len() <= 0xffff_ffff,
        info.width is None,
    ensures
        ({
            let header = encode::message_bytes(synth::clip_header_list(model, serial, fps));
            let text = |t: Seq<char>| Some(text::without_nul_end(t));
            decode::with_clip_meta(info, header + rest) == ClipFacts {
                proto_name: decode::or_text(info.proto_name, text("dvtm_ac204.proto"@)),
                proto_version: decode::or_text(info.proto_version, text("2.0.1"@)),
                serial: decode::or_text(info.serial, text(serial)),
                firmware: decode::or_text(info.firmware, text("10.00.16.13"@)),
                model: decode::or_text(info.model, text(model)),
                width: Some(3840),
                height: Some(2160),
                fps: Some(fps),
                ..info
            }
        }),
{
    let none = synth::no_fields();
    let l = synth::clip_header_list(model, serial, fps);
    let payload = encode::message_bytes(l) + rest;
    lemma_clip_header(model, serial, fps);
    encode::message_lookup(l, rest, 1);
    encode::message_lookup(l, rest, 2);
    let clip = synth::clip_list(model, serial);
    let video = synth::video_list(fps);
    let a = WireValue::Bytes(encode::message_bytes(synth::with_message(none, 1, clip)));
    let b = WireValue::Bytes(encode::message_bytes(synth::with_message(none, 3, video)));
    lemma_first_push(none, 1, a, 1);
    lemma_first_push(none, 1, a, 2);
    lemma_first_push(none.push((1u32, a)), 2, b, 1);
    lemma_first_push(none.push((1u32, a)), 2, b, 2);
    lemma_clip_len(model, serial);
    lemma_video_len(fps);
    lemma_single_field(1, WireValue::Bytes(encode::message_bytes(clip)), 0x100_0000_0000);
    lemma_single_field(3, WireValue::Bytes(encode::message_bytes(video)), 1000);
    lemma_nested_twice(payload, 1, 1, encode::message_bytes(clip));
    lemma_nested_twice(payload, 2, 3, encode::message_bytes(video));
    lemma_clip_fields(model, serial);
    lemma_video_fields(fps);
}

/// The payload of a frame: a clip header stands before the first one.
pub open spec fn payload_of(header: Seq<u8>, f: Frame, index: int) -> Seq<u8> {
    if index == 0 {
        header + encode::message_bytes(synth::sample_list(f))
    } else {
        encode::message_bytes(synth::sample_list(f))
    }
}

/// The payloads of frames.
pub open spec fn payloads_of(header: Seq<u8>, frames: Seq<Frame>) -> Seq<Seq<u8>> {
    Seq::new(frames.len(), |i: int| payload_of(header, frames[i], i))
}

/// What a frame is read as, with the time stamp of the first frame as its base.
pub open spec fn sample_for(f: Frame, index: nat, base: u64, converted: Degrees) -> SampleFacts {
    SampleFacts {
        time: SampleTime::Frame { at: f.timestamp_us, base },
        frame: if f.seq != 0 {
            f.seq
        } else {
            index as u64
        },
        acc: camera_for(f).acc,
        quat: camera_for(f).quat,
        iso: camera_for(f).iso,
        shutter: camera_for(f).shutter,
        color_temperature: camera_for(f).color_temperature,
        gps: fix_for(f, converted),
    }
}

/// One more synthetic payload is read as one more sample.
proof fn lemma_payload(
    d: DraftFacts,
    f: Frame,
    index: nat,
    model: Seq<char>,
    serial: Seq<char>,
    fps: Binary32,
    converted: Degrees,
)
    requires
        short_frame(f),
        model.len() <= 0xffff_ffff,
        serial.len() <= 0xffff_ffff,
    ensures
        ({
            let header = encode::message_bytes(synth::clip_header_list(model, serial, fps));
            let payload = payload_of(header, f, index as int);
            let e = decode::with_payload(d, payload, index, converted);
            let base = match d.base {
                Some(b) => b,
                None => f.timestamp_us,
            };
            &&& e.samples == d.samples.push(sample_for(f, index, base, converted))
            &&& e.base == Some(base)
        }),
{
    sample_holds_frame(f, model, serial, fps);
    frame_reads_back(f, index, converted);
}

/// A clip of synthetic frames is read back: a sample for each frame, with its
/// time counted from the first one.
pub proof fn clip_reads_back(
    info: ClipFacts,
    frames: Seq<Frame>,
    model: Seq<char>,
    serial: Seq<char>,
    fps: Binary32,
    converted: Seq<Degrees>,
)
    requires
        forall|i: int| 0 <= i < frames.len() ==> short_frame(#[trigger] frames[i]),
        model.len() <= 0xffff_ffff,
        serial.len() <= 0xffff_ffff,
    ensures
        ({
            let header = encode::message_bytes(synth::clip_header_list(model, serial, fps));
            let d = decode::draft_of(info, payloads_of(header, frames), converted);
            &&& d.samples == Seq::new(
                frames.len(),
                |i: int| sample_for(frames[i], i as nat, frames[0].timestamp_us, converted[i]),
            )
            &&& d.base == if frames.len() > 0 {
                Some(frames[0].timestamp_us)
            } else {
                None
            }
        }),
    decreases frames.len(),
{
    let header = encode::message_bytes(synth::clip_header_list(model, serial, fps));
    let payloads = payloads_of(header, frames);
    let d = decode::draft_of(info, payloads, converted);
    let want = Seq::new(
        frames.len(),
        |i: int| sample_for(frames[i], i as nat, frames[0].timestamp_us, converted[i]),
    );
    if frames.len() == 0 {
        assert(d.samples =~= want);
    } else {
        let n = (frames.len() - 1) as nat;
        let front = frames.drop_last();
        let f = frames[n as int];
        assert forall|i: int| 0 <= i < front.len() implies short_frame(#[trigger] front[i]) by {
            assert(front[i] == frames[i]);
        }
        clip_reads_back(info, front, model, serial, fps, converted);
        assert(payloads.drop_last() =~= payloads_of(header, front));
        assert(payloads.last() == payload_of(header, f, n as int));
        let before = decode::draft_of(info, payloads_of(header, front), converted);
        lemma_payload(before, f, n, model, serial, fps, converted[n as int]);
        assert(d == decode::with_payload(
            before,
            payload_of(header, f, n as int),
            n,
            converted[n as int],
        ));
        assert(before.samples =~= want.drop_last());
        assert(want.last() == sample_for(f, n, frames[0].timestamp_us, converted[n as int]));
        assert(d.samples =~= want);
    }
}

proof fn lemma_nested_twice(payload: Seq<u8>, first: u32, second: u32, inner: Seq<u8>)
    requires
        protobuf::message_at(payload, first) matches Some(m) && protobuf::message_at(m, second)
            == Some(inner),
    ensures
        protobuf::nested(payload, seq![first, second]) == Some(inner),
{
    reveal_with_fuel(protobuf::nested, 3);
    assert(seq![first, second].drop_first() =~= seq![second]);
    assert(seq![second].drop_first() =~= Seq::<u32>::empty());
}

proof fn lemma_clip_fields(model: Seq<char>, serial: Seq<char>)
    requires
        model.len() <= 0xffff_ffff,
        serial.len() <= 0xffff_ffff,
    ensures
        ({
            let m = encode::message_bytes(synth::clip_list(model, serial));
            &&& protobuf::string_at(m, 1) == Some(text::without_nul_end("dvtm_ac204.proto"@))
            &&& protobuf::string_at(m, 3) == Some(text::without_nul_end("2.0.1"@))
            &&& protobuf::string_at(m, 5) == Some(text::without_nul_end(serial))
            &&& protobuf::string_at(m, 6) == Some(text::without_nul_end("10.00.16.13"@))
            &&& protobuf::string_at(m, 10) == Some(text::without_nul_end(model))
        }),
{
    reveal_strlit("dvtm_ac204.proto");
    reveal_strlit("02.01.01");
    reveal_strlit("2.0.1");
    reveal_strlit("10.00.16.13");
    let l0 = synth::no_fields();
    let l1 = synth::with_text(l0, 1, "dvtm_ac204.proto"@);
    let l2 = synth::with_text(l1, 2, "02.01.01"@);
    let l3 = synth::with_text(l2, 3, "2.0.1"@);
    let l4 = synth::with_text(l3, 5, serial);
    let l5 = synth::with_text(l4, 6, "10.00.16.13"@);
    let l6 = synth::with_text(l5, 10, model);
    lemma_push_text(l0, 1, "dvtm_ac204.proto"@);
    lemma_push_text(l1, 2, "02.01.01"@);
    lemma_push_text(l2, 3, "2.0.1"@);
    lemma_push_text(l3, 5, serial);
    lemma_push_text(l4, 6, "10.00.16.13"@);
    lemma_push_text(l5, 10, model);
    let m = encode::message_bytes(l6);
    assert forall|k: u32| #[trigger] protobuf::find(m, k) == encode::first_value(l6, k) by {
        lemma_lookup(l6, k);
    }
    assert forall|k: u32|
        #[trigger] encode::first_value(l6, k) == if k == 1 {
            Some(WireValue::Bytes(encode_utf8("dvtm_ac204.proto"@)))
        } else if k == 2 {
            Some(WireValue::Bytes(encode_utf8("02.01.01"@)))
        } else if k == 3 {
            Some(WireValue::Bytes(encode_utf8("2.0.1"@)))
        } else if k == 5 {
            Some(WireValue::Bytes(encode_utf8(serial)))
        } else if k == 6 {
            Some(WireValue::Bytes(encode_utf8("10.00.16.13"@)))
        } else if k == 10 {
            Some(WireValue::Bytes(encode_utf8(model)))
        } else {
            None
        } by {
        lemma_first_push(l0, 1, WireValue::Bytes(encode_utf8("dvtm_ac204.proto"@)), k);
        lemma_first_push(l1, 2, WireValue::Bytes(encode_utf8("02.01.01"@)), k);
        lemma_first_push(l2, 3, WireValue::Bytes(encode_utf8("2.0.1"@)), k);
        lemma_first_push(l3, 5, WireValue::Bytes(encode_utf8(serial)), k);
        lemma_first_push(l4, 6, WireValue::Bytes(encode_utf8("10.00.16.13"@)), k);
        lemma_first_push(l5, 10, WireValue::Bytes(encode_utf8(model)), k);
    }
    lemma_text(m, 1, "dvtm_ac204.proto"@);
    lemma_text(m, 3, "2.0.1"@);
    lemma_text(m, 5, serial);
    lemma_text(m, 6, "10.00.16.13"@);
    lemma_text(m, 10, model);
}

proof fn lemma_video_fields(fps: Binary32)
    ensures
        ({
            let m = encode::message_bytes(synth::video_list(fps));
            &&& protobuf::u64_at(m, 1) == Some(3840u64)
            &&& protobuf::u64_at(m, 2) == Some(2160u64)
            &&& protobuf::f32_at(m, 3) == Some(fps)
        }),
{
    let l0 = synth::no_fields();
    let l1 = synth::with_varint(l0, 1, 3840);
    let l2 = synth::with_varint(l1, 2, 2160);
    let l3 = synth::video_list(fps);
    let a = WireValue::Varint(3840);
    let b = WireValue::Varint(2160);
    let c = WireValue::Fixed32(bytes::le32_bytes(fps.bits));
    lemma_bounded_push(l0, 1, a, 10);
    lemma_bounded_push(l1, 2, b, 10);
    lemma_bounded_push(l2, 3, c, 10);
    lemma_first_push(l0, 1, a, 1);
    lemma_first_push(l0, 1, a, 2);
    lemma_first_push(l0, 1, a, 3);
    lemma_first_push(l1, 2, b, 1);
    lemma_first_push(l1, 2, b, 2);
    lemma_first_push(l1, 2, b, 3);
    lemma_first_push(l2, 3, c, 1);
    lemma_first_push(l2, 3, c, 2);
    lemma_first_push(l2, 3, c, 3);
    lemma_lookup(l3, 1);
    lemma_lookup(l3, 2);
    lemma_lookup(l3, 3);
    bytes::le_round_trip(fps.bits, 0);
}

} // verus!
