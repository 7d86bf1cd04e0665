//! Synthetic `ProductMeta` samples.

use crate::bytes;
use crate::dji::{Quaternion, Vector};
use crate::ieee::{Binary32, Binary64};
use crate::protobuf::encode;
use crate::protobuf::WireValue;
use vstd::prelude::*;

verus! {

/// Parameters for one synthetic frame.
#[derive(Debug)]
pub struct Frame {
    pub seq: u64,
    pub timestamp_us: u64,
    pub acc: Option<Vector>,
    pub quat: Option<Quaternion>,
    pub iso: Option<Binary32>,
    pub shutter: Option<(u64, u64)>,
    pub cct: Option<u64>,
    pub gps: Option<Gps>,
    pub with_remote_header: bool,
}

/// The GPS part of a synthetic frame.
#[derive(Debug)]
pub struct Gps {
    pub status: u64,
    pub unit_deg: bool,
    pub lat: Binary64,
    pub lon: Binary64,
    pub alt_mm: i64,
    pub velocity: Option<Vector>,
    pub time: Option<String>,
}

impl Default for Frame {
    fn default() -> (r: Self)
        ensures
            r.seq == 0,
            r.timestamp_us == 0,
            r.acc is None,
            r.quat is None,
            r.iso is None,
            r.shutter is None,
            r.cct is None,
            r.gps is None,
            !r.with_remote_header,
    {
        Frame {
            seq: 0,
            timestamp_us: 0,
            acc: None,
            quat: None,
            iso: None,
            shutter: None,
            cct: None,
            gps: None,
            with_remote_header: false,
        }
    }
}

/// A list of fields.
pub type FieldList = Seq<(u32, WireValue)>;

/// A list without fields.
pub open spec fn no_fields() -> FieldList {
    Seq::empty()
}

/// A list with a single-precision field more.
pub open spec fn with_single(l: FieldList, field: u32, v: Binary32) -> FieldList {
    l.push((field, WireValue::Fixed32(bytes::le32_bytes(v.bits))))
}

/// A list with a double-precision field more.
pub open spec fn with_double(l: FieldList, field: u32, v: Binary64) -> FieldList {
    l.push((field, WireValue::Fixed64(bytes::le64_bytes(v.bits))))
}

/// A list with a varint more.
pub open spec fn with_varint(l: FieldList, field: u32, v: u64) -> FieldList {
    l.push((field, WireValue::Varint(v)))
}

/// A list with a nested message more.
pub open spec fn with_message(l: FieldList, field: u32, m: FieldList) -> FieldList {
    l.push((field, WireValue::Bytes(encode::message_bytes(m))))
}

/// A list with a text more.
pub open spec fn with_text(l: FieldList, field: u32, t: Seq<char>) -> FieldList {
    l.push((field, WireValue::Bytes(vstd::utf8::encode_utf8(t))))
}

/// The three components of a vector, from the field `first` on.
pub open spec fn vector_list(first: u32, v: Vector) -> FieldList {
    with_single(
        with_single(with_single(no_fields(), first, v.x), (first + 1) as u32, v.y),
        (first + 2) as u32,
        v.z,
    )
}

/// The four components of a quaternion.
pub open spec fn quaternion_list(q: Quaternion) -> FieldList {
    with_single(
        with_single(with_single(with_single(no_fields(), 1, q.w), 2, q.x), 3, q.y),
        4,
        q.z,
    )
}

/// The fields of the clip header.
pub open spec fn clip_list(model: Seq<char>, serial: Seq<char>) -> FieldList {
    with_text(
        with_text(
            with_text(
                with_text(
                    with_text(with_text(no_fields(), 1, "dvtm_ac204.proto"@), 2, "02.01.01"@),
                    3,
                    "2.0.1"@,
                ),
                5,
                serial,
            ),
            6,
            "10.00.16.13"@,
        ),
        10,
        model,
    )
}

/// The fields of the video stream.
pub open spec fn video_list(fps: Binary32) -> FieldList {
    with_single(with_varint(with_varint(no_fields(), 1, 3840), 2, 2160), 3, fps)
}

/// The fields of a sample with a clip header.
pub open spec fn clip_header_list(
    model: Seq<char>,
    serial: Seq<char>,
    fps: Binary32,
) -> FieldList {
    with_message(
        with_message(no_fields(), 1, with_message(no_fields(), 1, clip_list(model, serial))),
        2,
        with_message(no_fields(), 3, video_list(fps)),
    )
}

/// The fields of a frame header; a number of 0 is not written.
pub open spec fn header_list(f: Frame) -> FieldList {
    with_varint(
        if f.seq != 0 {
            with_varint(no_fields(), 1, f.seq)
        } else {
            no_fields()
        },
        2,
        f.timestamp_us,
    )
}

/// The fields of the camera's part up to the colour temperature.
pub open spec fn exposure_list(f: Frame) -> FieldList {
    let l = no_fields();
    let l = match f.iso {
        Some(v) => with_message(l, 3, with_single(no_fields(), 1, v)),
        None => l,
    };
    let l = match f.shutter {
        Some((n, d)) => with_message(
            l,
            4,
            no_fields().push(
                (1u32, WireValue::Bytes(encode::varint_bytes(n) + encode::varint_bytes(d))),
            ),
        ),
        None => l,
    };
    match f.cct {
        Some(v) => with_message(l, 6, with_varint(no_fields(), 1, v)),
        None => l,
    }
}

/// The fields of the camera's part.
pub open spec fn camera_list(f: Frame) -> FieldList {
    let l = exposure_list(f);
    let l = match f.quat {
        Some(q) => with_message(l, 9, quaternion_list(q)),
        None => l,
    };
    match f.acc {
        Some(a) => with_message(l, 10, vector_list(2, a)),
        None => l,
    }
}

/// The two's complement of a signed integer.
pub open spec fn unsigned(v: i64) -> u64 {
    (if v < 0 {
        v + 0x1_0000_0000_0000_0000
    } else {
        v as int
    }) as u64
}

/// The fields of coordinates.
pub open spec fn coordinates_list(g: Gps) -> FieldList {
    with_double(
        with_double(
            with_varint(
                no_fields(),
                1,
                if g.unit_deg {
                    1
                } else {
                    0
                },
            ),
            2,
            g.lat,
        ),
        3,
        g.lon,
    )
}

/// The fields of a GPS part; an invalid one has no coordinates.
pub open spec fn gps_list(g: Gps) -> FieldList {
    let l = no_fields();
    let l = if g.status != 1 {
        with_varint(with_message(l, 1, coordinates_list(g)), 2, unsigned(g.alt_mm))
    } else {
        l
    };
    let l = with_varint(l, 3, g.status);
    match g.time {
        Some(t) => with_message(with_varint(l, 5, 1), 6, with_text(no_fields(), 1, t@)),
        None => l,
    }
}

/// The fields of the header of the remote.
pub open spec fn remote_list() -> FieldList {
    with_single(
        with_text(with_varint(with_varint(no_fields(), 1, 1), 2, 1), 4, "DJI AC004"@),
        5,
        Binary32 { bits: 0x41ef_c28f },
    )
}

/// The fields of the remote's part.
pub open spec fn gimbal_list(f: Frame) -> FieldList {
    let l = no_fields();
    let l = if f.with_remote_header {
        with_message(l, 1, remote_list())
    } else {
        l
    };
    match f.gps {
        Some(g) => {
            let l = with_message(l, 2, gps_list(g));
            match g.velocity {
                Some(v) => with_message(l, 3, vector_list(1, v)),
                None => l,
            }
        },
        None => l,
    }
}

/// The fields of a frame; an empty remote's part is not written.
pub open spec fn frame_list(f: Frame) -> FieldList {
    let l = with_message(with_message(no_fields(), 1, header_list(f)), 2, camera_list(f));
    if gimbal_list(f).len() == 0 {
        l
    } else {
        with_message(l, 4, gimbal_list(f))
    }
}

/// The fields of a sample with one frame.
pub open spec fn sample_list(f: Frame) -> FieldList {
    with_message(no_fields(), 3, frame_list(f))
}

/// Starts a message.
fn start() -> (r: Vec<u8>)
    ensures
        r@ == encode::message_bytes(no_fields()),
{
    let r: Vec<u8> = Vec::new();
    assert(r@ =~= encode::message_bytes(no_fields()));
    r
}

fn put_single(out: &mut Vec<u8>, Ghost(l): Ghost<FieldList>, field: u32, v: Binary32)
    requires
        old(out)@ == encode::message_bytes(l),
    ensures
        final(out)@ == encode::message_bytes(with_single(l, field, v)),
{
    proof {
        encode::lemma_message_push(l, field, WireValue::Fixed32(bytes::le32_bytes(v.bits)));
    }
    encode::field_f32(field, v, out);
}

fn put_double(out: &mut Vec<u8>, Ghost(l): Ghost<FieldList>, field: u32, v: Binary64)
    requires
        old(out)@ == encode::message_bytes(l),
    ensures
        final(out)@ == encode::message_bytes(with_double(l, field, v)),
{
    proof {
        encode::lemma_message_push(l, field, WireValue::Fixed64(bytes::le64_bytes(v.bits)));
    }
    encode::field_f64(field, v, out);
}

fn put_varint(out: &mut Vec<u8>, Ghost(l): Ghost<FieldList>, field: u32, v: u64)
    requires
        old(out)@ == encode::message_bytes(l),
    ensures
        final(out)@ == encode::message_bytes(with_varint(l, field, v)),
{
    proof {
        encode::lemma_message_push(l, field, WireValue::Varint(v));
    }
    encode::field_varint(field, v, out);
}

fn put_message(
    out: &mut Vec<u8>,
    Ghost(l): Ghost<FieldList>,
    field: u32,
    m: &Vec<u8>,
    Ghost(inner): Ghost<FieldList>,
)
    requires
        old(out)@ == encode::message_bytes(l),
        m@ == encode::message_bytes(inner),
    ensures
        final(out)@ == encode::message_bytes(with_message(l, field, inner)),
{
    proof {
        encode::lemma_message_push(l, field, WireValue::Bytes(m@));
    }
    encode::field_bytes(field, m.as_slice(), out);
}

fn put_text(out: &mut Vec<u8>, Ghost(l): Ghost<FieldList>, field: u32, t: &str)
    requires
        old(out)@ == encode::message_bytes(l),
    ensures
        final(out)@ == encode::message_bytes(with_text(l, field, t@)),
{
    proof {
        encode::lemma_message_push(l, field, WireValue::Bytes(vstd::utf8::encode_utf8(t@)));
    }
    encode::field_str(field, t, out);
}

fn vector(first: u32, v: Vector) -> (r: Vec<u8>)
    requires
        first < 100,
    ensures
        r@ == encode::message_bytes(vector_list(first, v)),
{
    let mut m: Vec<u8> = start();
    let ghost l = no_fields();
    put_single(&mut m, Ghost(l), first, v.x);
    let ghost l = with_single(l, first, v.x);
    put_single(&mut m, Ghost(l), first + 1, v.y);
    let ghost l = with_single(l, (first + 1) as u32, v.y);
    put_single(&mut m, Ghost(l), first + 2, v.z);
    m
}

fn quaternion(q: Quaternion) -> (r: Vec<u8>)
    ensures
        r@ == encode::message_bytes(quaternion_list(q)),
{
    let mut m: Vec<u8> = start();
    let ghost l = no_fields();
    put_single(&mut m, Ghost(l), 1, q.w);
    let ghost l = with_single(l, 1, q.w);
    put_single(&mut m, Ghost(l), 2, q.x);
    let ghost l = with_single(l, 2, q.x);
    put_single(&mut m, Ghost(l), 3, q.y);
    let ghost l = with_single(l, 3, q.y);
    put_single(&mut m, Ghost(l), 4, q.z);
    m
}

/// A sample with the header of a clip.
pub fn clip_header(model: &str, serial: &str, fps: Binary32) -> (r: Vec<u8>)
    ensures
        r@ == encode::message_bytes(clip_header_list(model@, serial@, fps)),
{
    let ghost none = no_fields();
    let mut hdr: Vec<u8> = start();
    put_text(&mut hdr, Ghost(none), 1, "dvtm_ac204.proto");
    let ghost l = with_text(none, 1, "dvtm_ac204.proto"@);
    put_text(&mut hdr, Ghost(l), 2, "02.01.01");
    let ghost l = with_text(l, 2, "02.01.01"@);
    put_text(&mut hdr, Ghost(l), 3, "2.0.1");
    let ghost l = with_text(l, 3, "2.0.1"@);
    put_text(&mut hdr, Ghost(l), 5, serial);
    let ghost l = with_text(l, 5, serial@);
    put_text(&mut hdr, Ghost(l), 6, "10.00.16.13");
    let ghost l = with_text(l, 6, "10.00.16.13"@);
    put_text(&mut hdr, Ghost(l), 10, model);
    let mut clip: Vec<u8> = start();
    put_message(&mut clip, Ghost(none), 1, &hdr, Ghost(clip_list(model@, serial@)));

    let mut video: Vec<u8> = start();
    put_varint(&mut video, Ghost(none), 1, 3840);
    let ghost l = with_varint(none, 1, 3840);
    put_varint(&mut video, Ghost(l), 2, 2160);
    let ghost l = with_varint(l, 2, 2160);
    put_single(&mut video, Ghost(l), 3, fps);
    let mut stream: Vec<u8> = start();
    put_message(&mut stream, Ghost(none), 3, &video, Ghost(video_list(fps)));

    let mut out: Vec<u8> = start();
    let ghost first = with_message(none, 1, clip_list(model@, serial@));
    let ghost second = with_message(none, 3, video_list(fps));
    put_message(&mut out, Ghost(none), 1, &clip, Ghost(first));
    put_message(&mut out, Ghost(with_message(none, 1, first)), 2, &stream, Ghost(second));
    out
}

fn header(f: &Frame) -> (r: Vec<u8>)
    ensures
        r@ == encode::message_bytes(header_list(*f)),
{
    let mut m: Vec<u8> = start();
    let ghost mut l = no_fields();
    if f.seq != 0 {
        put_varint(&mut m, Ghost(l), 1, f.seq);
        proof {
            l = with_varint(l, 1, f.seq);
        }
    }
    put_varint(&mut m, Ghost(l), 2, f.timestamp_us);
    m
}

fn camera(f: &Frame) -> (r: Vec<u8>)
    ensures
        r@ == encode::message_bytes(camera_list(*f)),
{
    let ghost none = no_fields();
    let mut cam: Vec<u8> = start();
    let ghost mut l = none;
    if let Some(iso) = f.iso {
        let mut m: Vec<u8> = start();
        put_single(&mut m, Ghost(none), 1, iso);
        put_message(&mut cam, Ghost(l), 3, &m, Ghost(with_single(none, 1, iso)));
        proof {
            l = with_message(l, 3, with_single(none, 1, iso));
        }
    }
    if let Some((n, d)) = f.shutter {
        let mut m: Vec<u8> = start();
        encode::field_rational(1, n, d, &mut m);
        let ghost pair = encode::varint_bytes(n) + encode::varint_bytes(d);
        let ghost inner = none.push((1u32, WireValue::Bytes(pair)));
        proof {
            encode::lemma_message_push(none, 1, WireValue::Bytes(pair));
        }
        put_message(&mut cam, Ghost(l), 4, &m, Ghost(inner));
        proof {
            l = with_message(l, 4, inner);
        }
    }
    if let Some(cct) = f.cct {
        let mut m: Vec<u8> = start();
        put_varint(&mut m, Ghost(none), 1, cct);
        put_message(&mut cam, Ghost(l), 6, &m, Ghost(with_varint(none, 1, cct)));
        proof {
            l = with_message(l, 6, with_varint(none, 1, cct));
        }
    }
    assert(l == exposure_list(*f));
    if let Some(q) = f.quat {
        let m: Vec<u8> = quaternion(q);
        put_message(&mut cam, Ghost(l), 9, &m, Ghost(quaternion_list(q)));
        proof {
            l = with_message(l, 9, quaternion_list(q));
        }
    }
    if let Some(a) = f.acc {
        let m: Vec<u8> = vector(2, a);
        put_message(&mut cam, Ghost(l), 10, &m, Ghost(vector_list(2, a)));
        proof {
            l = with_message(l, 10, vector_list(2, a));
        }
    }
    cam
}

fn to_unsigned(v: i64) -> (r: u64)
    ensures
        r == unsigned(v),
{
    if v < 0 {
        u64::MAX - (-(v + 1)) as u64
    } else {
        v as u64
    }
}

fn gps(g: &Gps) -> (r: Vec<u8>)
    ensures
        r@ == encode::message_bytes(gps_list(*g)),
{
    let ghost none = no_fields();
    let mut basic: Vec<u8> = start();
    let ghost mut l = none;
    if g.status != 1 {
        let mut coords: Vec<u8> = start();
        let unit: u64 = if g.unit_deg {
            1
        } else {
            0
        };
        put_varint(&mut coords, Ghost(none), 1, unit);
        let ghost c = with_varint(none, 1, unit);
        put_double(&mut coords, Ghost(c), 2, g.lat);
        let ghost c = with_double(c, 2, g.lat);
        put_double(&mut coords, Ghost(c), 3, g.lon);
        put_message(&mut basic, Ghost(l), 1, &coords, Ghost(coordinates_list(*g)));
        let ghost l1 = with_message(l, 1, coordinates_list(*g));
        let alt: u64 = to_unsigned(g.alt_mm);
        put_varint(&mut basic, Ghost(l1), 2, alt);
        proof {
            l = with_varint(l1, 2, alt);
        }
    }
    put_varint(&mut basic, Ghost(l), 3, g.status);
    proof {
        l = with_varint(l, 3, g.status);
    }
    if let Some(t) = &g.time {
        put_varint(&mut basic, Ghost(l), 5, 1);
        let ghost l1 = with_varint(l, 5, 1);
        let mut tm: Vec<u8> = start();
        put_text(&mut tm, Ghost(none), 1, t.as_str());
        put_message(&mut basic, Ghost(l1), 6, &tm, Ghost(with_text(none, 1, t@)));
        proof {
            l = with_message(l1, 6, with_text(none, 1, t@));
        }
    }
    basic
}

fn remote() -> (r: Vec<u8>)
    ensures
        r@ == encode::message_bytes(remote_list()),
{
    let mut dev: Vec<u8> = start();
    let ghost l = no_fields();
    put_varint(&mut dev, Ghost(l), 1, 1);
    let ghost l = with_varint(l, 1, 1);
    put_varint(&mut dev, Ghost(l), 2, 1);
    let ghost l = with_varint(l, 2, 1);
    put_text(&mut dev, Ghost(l), 4, "DJI AC004");
    let ghost l = with_text(l, 4, "DJI AC004"@);
    put_single(&mut dev, Ghost(l), 5, Binary32 { bits: 0x41ef_c28f });
    dev
}

fn gimbal(f: &Frame) -> (r: Option<Vec<u8>>)
    ensures
        match r {
            Some(b) => gimbal_list(*f).len() > 0 && b@ == encode::message_bytes(gimbal_list(*f)),
            None => gimbal_list(*f).len() == 0,
        },
{
    let ghost none = no_fields();
    let mut out: Vec<u8> = start();
    let ghost mut l = none;
    if f.with_remote_header {
        let dev: Vec<u8> = remote();
        put_message(&mut out, Ghost(l), 1, &dev, Ghost(remote_list()));
        proof {
            l = with_message(l, 1, remote_list());
        }
    }
    if let Some(g) = &f.gps {
        let basic: Vec<u8> = gps(g);
        put_message(&mut out, Ghost(l), 2, &basic, Ghost(gps_list(*g)));
        proof {
            l = with_message(l, 2, gps_list(*g));
        }
        if let Some(v) = g.velocity {
            let vel: Vec<u8> = vector(1, v);
            put_message(&mut out, Ghost(l), 3, &vel, Ghost(vector_list(1, v)));
            proof {
                l = with_message(l, 3, vector_list(1, v));
            }
        }
    } else if !f.with_remote_header {
        return None;
    }
    Some(out)
}

/// A sample with one frame.
pub fn frame(f: &Frame) -> (r: Vec<u8>)
    ensures
        r@ == encode::message_bytes(sample_list(*f)),
{
    let ghost none = no_fields();
    let mut body: Vec<u8> = start();
    let h: Vec<u8> = header(f);
    put_message(&mut body, Ghost(none), 1, &h, Ghost(header_list(*f)));
    let ghost l = with_message(none, 1, header_list(*f));
    let c: Vec<u8> = camera(f);
    put_message(&mut body, Ghost(l), 2, &c, Ghost(camera_list(*f)));
    let ghost l = with_message(l, 2, camera_list(*f));
    if let Some(g) = gimbal(f) {
        put_message(&mut body, Ghost(l), 4, &g, Ghost(gimbal_list(*f)));
    }
    let mut out: Vec<u8> = start();
    put_message(&mut out, Ghost(none), 3, &body, Ghost(frame_list(*f)));
    out
}

} // verus!
