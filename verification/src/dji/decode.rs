//! From the payloads of a metadata track to a clip.

use crate::dji;
use crate::dji::{
    Clip, ClipFacts, ClipInfo, DjiError, FixFacts, GpsFix, Quaternion, Sample, SampleFacts,
    SampleTime, StartTimeSource, Vector,
};
use crate::ieee::{Binary32, Binary64};
use crate::mp4::{Movie, Track};
use crate::protobuf;
use crate::text;
use crate::time;
use crate::time::{Moment, Timestamp};
use vstd::prelude::*;

verus! {

/// A value that is not too large for 32 bits.
pub open spec fn narrow(v: Option<u64>) -> Option<u32> {
    match v {
        Some(v) if v <= u32::MAX => Some(v as u32),
        _ => None,
    }
}

fn narrowed(v: Option<u64>) -> (r: Option<u32>)
    ensures
        r == narrow(v),
{
    match v {
        Some(v) => if v <= u32::MAX as u64 {
            Some(v as u32)
        } else {
            None
        },
        None => None,
    }
}

/// The first of two texts that is there.
pub open spec fn or_text(a: Option<Seq<char>>, b: Option<Seq<char>>) -> Option<Seq<char>> {
    match a {
        Some(t) => Some(t),
        None => b,
    }
}

/// Clip facts with what the clip header of a payload adds to them.
pub open spec fn with_clip_header(info: ClipFacts, payload: Seq<u8>) -> ClipFacts {
    match protobuf::nested(payload, seq![1u32, 1u32]) {
        Some(h) => ClipFacts {
            proto_name: or_text(info.proto_name, protobuf::string_at(h, 1)),
            proto_version: or_text(info.proto_version, protobuf::string_at(h, 3)),
            serial: or_text(info.serial, protobuf::string_at(h, 5)),
            firmware: or_text(info.firmware, protobuf::string_at(h, 6)),
            model: or_text(info.model, protobuf::string_at(h, 10)),
            ..info
        },
        None => info,
    }
}

/// Clip facts with what the video stream of a payload adds to them.
pub open spec fn with_stream(info: ClipFacts, payload: Seq<u8>) -> ClipFacts {
    match protobuf::nested(payload, seq![2u32, 3u32]) {
        Some(v) if info.width is None => ClipFacts {
            width: narrow(protobuf::u64_at(v, 1)),
            height: narrow(protobuf::u64_at(v, 2)),
            fps: protobuf::f32_at(v, 3),
            ..info
        },
        _ => info,
    }
}

/// Clip facts with what a payload adds to them; what is known stays.
pub open spec fn with_clip_meta(info: ClipFacts, payload: Seq<u8>) -> ClipFacts {
    with_stream(with_clip_header(info, payload), payload)
}

fn or_string(a: Option<String>, data: &[u8], field: u32) -> (r: Option<String>)
    ensures
        dji::chars(r) == or_text(dji::chars(a), protobuf::string_at(data@, field)),
{
    match a {
        Some(t) => Some(t),
        None => protobuf::get_string(data, field),
    }
}

/// Pulls clip/stream metadata out of a sample; DJI only writes it into the first one.
pub fn collect_clip_meta(payload: &[u8], info: &mut ClipInfo)
    ensures
        final(info)@ == with_clip_meta(old(info)@, payload@),
{
    let path: [u32; 2] = [1, 1];
    assert(path@ =~= seq![1u32, 1u32]);
    if let Some(h) = protobuf::sub(payload, vstd::array::array_as_slice(&path)) {
        info.proto_name = or_string(info.proto_name.take(), h, 1);
        info.proto_version = or_string(info.proto_version.take(), h, 3);
        info.serial = or_string(info.serial.take(), h, 5);
        info.firmware = or_string(info.firmware.take(), h, 6);
        info.model = or_string(info.model.take(), h, 10);
    }
    let path: [u32; 2] = [2, 3];
    assert(path@ =~= seq![2u32, 3u32]);
    if let Some(v) = protobuf::sub(payload, vstd::array::array_as_slice(&path)) {
        if info.width.is_none() {
            info.width = narrowed(protobuf::get_u64(v, 1));
            info.height = narrowed(protobuf::get_u64(v, 2));
            info.fps = protobuf::get_f32(v, 3);
        }
    }
}

/// Three components of a message, all of which must be there.
pub open spec fn vector_at(m: Seq<u8>, first: u32) -> Option<Vector> {
    match (
        protobuf::f32_at(m, first),
        protobuf::f32_at(m, (first + 1) as u32),
        protobuf::f32_at(m, (first + 2) as u32),
    ) {
        (Some(x), Some(y), Some(z)) => Some(Vector { x, y, z }),
        _ => None,
    }
}

fn read_vector(m: &[u8], first: u32) -> (r: Option<Vector>)
    requires
        first < 100,
    ensures
        r == vector_at(m@, first),
{
    match (
        protobuf::get_f32(m, first),
        protobuf::get_f32(m, first + 1),
        protobuf::get_f32(m, first + 2),
    ) {
        (Some(x), Some(y), Some(z)) => Some(Vector { x, y, z }),
        _ => None,
    }
}

/// The quaternion of a message, all of whose components must be there.
pub open spec fn quaternion_at(m: Seq<u8>) -> Option<Quaternion> {
    match (protobuf::f32_at(m, 1), vector_at(m, 2)) {
        (Some(w), Some(v)) => Some(Quaternion { w, x: v.x, y: v.y, z: v.z }),
        _ => None,
    }
}

fn read_quaternion(m: &[u8]) -> (r: Option<Quaternion>)
    ensures
        r == quaternion_at(m@),
{
    match (protobuf::get_f32(m, 1), read_vector(m, 2)) {
        (Some(w), Some(v)) => Some(Quaternion { w, x: v.x, y: v.y, z: v.z }),
        _ => None,
    }
}

/// What the camera reports of a frame.
#[derive(Debug, Clone, Copy, PartialEq, Eq)]
pub struct Camera {
    pub acc: Option<Vector>,
    pub quat: Option<Quaternion>,
    pub iso: Option<Binary32>,
    pub shutter: Option<(u64, u64)>,
    pub color_temperature: Option<u32>,
}

/// The camera's part of a frame; nothing without it. A shutter time with a
/// denominator of 0 is none.
pub open spec fn camera_of(frame: Seq<u8>) -> Camera {
    match protobuf::message_at(frame, 2) {
        None => Camera { acc: None, quat: None, iso: None, shutter: None, color_temperature: None },
        Some(cam) => Camera {
            acc: match protobuf::message_at(cam, 10) {
                Some(m) => vector_at(m, 2),
                None => None,
            },
            quat: match protobuf::message_at(cam, 9) {
                Some(m) => quaternion_at(m),
                None => None,
            },
            iso: match protobuf::message_at(cam, 3) {
                Some(m) => protobuf::f32_at(m, 1),
                None => None,
            },
            shutter: match protobuf::message_at(cam, 4) {
                Some(m) => match protobuf::rational_at(m, 1) {
                    Some((n, d)) if d != 0 => Some((n, d)),
                    _ => None,
                },
                None => None,
            },
            color_temperature: match protobuf::message_at(cam, 6) {
                Some(m) => narrow(protobuf::u64_at(m, 1)),
                None => None,
            },
        },
    }
}

fn read_camera(frame: &[u8]) -> (r: Camera)
    ensures
        r == camera_of(frame@),
{
    let cam: &[u8] = match protobuf::child(frame, 2) {
        Some(c) => c,
        None => {
            return Camera {
                acc: None,
                quat: None,
                iso: None,
                shutter: None,
                color_temperature: None,
            };
        },
    };
    let acc: Option<Vector> = match protobuf::child(cam, 10) {
        Some(m) => read_vector(m, 2),
        None => None,
    };
    let quat: Option<Quaternion> = match protobuf::child(cam, 9) {
        Some(m) => read_quaternion(m),
        None => None,
    };
    let iso: Option<Binary32> = match protobuf::child(cam, 3) {
        Some(m) => protobuf::get_f32(m, 1),
        None => None,
    };
    let shutter: Option<(u64, u64)> = match protobuf::child(cam, 4) {
        Some(m) => match protobuf::get_rational(m, 1) {
            Some((n, d)) => if d != 0 {
                Some((n, d))
            } else {
                None
            },
            None => None,
        },
        None => None,
    };
    let color_temperature: Option<u32> = match protobuf::child(cam, 6) {
        Some(m) => narrowed(protobuf::get_u64(m, 1)),
        None => None,
    };
    Camera { acc, quat, iso, shutter, color_temperature }
}

/// Coordinates as the camera wrote them.
#[derive(Debug, Clone, Copy, PartialEq, Eq, Structural)]
pub struct Coordinates {
    /// Whether they are in degrees; in radians otherwise.
    pub in_degrees: bool,
    pub latitude: Binary64,
    pub longitude: Binary64,
}

/// The GPS part of a frame.
pub open spec fn gps_part(frame: Seq<u8>) -> Option<Seq<u8>> {
    match protobuf::message_at(frame, 4) {
        Some(gimbal) => protobuf::message_at(gimbal, 2),
        None => None,
    }
}

/// The status in a GPS part: 0 when it is not written.
pub open spec fn gps_status(gps: Seq<u8>) -> u64 {
    match protobuf::u64_at(gps, 3) {
        Some(s) => s,
        None => 0,
    }
}

/// The coordinates in a GPS part, unless its status is invalid.
pub open spec fn coordinates_in(gps: Seq<u8>) -> Option<Coordinates> {
    match protobuf::message_at(gps, 1) {
        Some(c) if gps_status(gps) != 1 => match (
            protobuf::f64_at(c, 2),
            protobuf::f64_at(c, 3),
        ) {
            (Some(latitude), Some(longitude)) => Some(
                Coordinates {
                    in_degrees: match protobuf::u64_at(c, 1) {
                        Some(unit) => unit != 0,
                        None => false,
                    },
                    latitude,
                    longitude,
                },
            ),
            _ => None,
        },
        _ => None,
    }
}

/// The coordinates in a payload.
pub open spec fn coordinates_of(payload: Seq<u8>) -> Option<Coordinates> {
    match protobuf::message_at(payload, 3) {
        Some(frame) => match gps_part(frame) {
            Some(gps) => coordinates_in(gps),
            None => None,
        },
        None => None,
    }
}

fn read_status(gps: &[u8]) -> (r: u64)
    ensures
        r == gps_status(gps@),
{
    match protobuf::get_u64(gps, 3) {
        Some(s) => s,
        None => 0,
    }
}

fn read_coordinates(gps: &[u8]) -> (r: Option<Coordinates>)
    ensures
        r == coordinates_in(gps@),
{
    if read_status(gps) == 1 {
        return None;
    }
    match protobuf::child(gps, 1) {
        Some(c) => match (protobuf::get_f64(c, 2), protobuf::get_f64(c, 3)) {
            (Some(latitude), Some(longitude)) => {
                let in_degrees: bool = match protobuf::get_u64(c, 1) {
                    Some(unit) => unit != 0,
                    None => false,
                };
                Some(Coordinates { in_degrees, latitude, longitude })
            },
            _ => None,
        },
        None => None,
    }
}

/// Reads the coordinates in a payload, in the unit in which they were written.
pub fn coordinates(payload: &[u8]) -> (r: Option<Coordinates>)
    ensures
        r == coordinates_of(payload@),
{
    match protobuf::child(payload, 3) {
        Some(frame) => match protobuf::child(frame, 4) {
            Some(gimbal) => match protobuf::child(gimbal, 2) {
                Some(gps) => read_coordinates(gps),
                None => None,
            },
            None => None,
        },
        None => None,
    }
}

/// A position in degrees.
#[derive(Debug, Clone, Copy, PartialEq, Eq, Structural)]
pub struct Degrees {
    pub latitude: Binary64,
    pub longitude: Binary64,
}

/// Whether a position can be one: both numbers are finite and in range, and
/// they are not both zero.
pub open spec fn plausible(d: Degrees) -> bool {
    &&& d.latitude.finite()
    &&& d.longitude.finite()
    &&& !(d.latitude.scaled() == 0 && d.longitude.scaled() == 0)
    &&& (Binary64 { bits: 0xc056_8000_0000_0000 }).at_most(d.latitude)
    &&& d.latitude.at_most(Binary64 { bits: 0x4056_8000_0000_0000 })
    &&& (Binary64 { bits: 0xc066_8000_0000_0000 }).at_most(d.longitude)
    &&& d.longitude.at_most(Binary64 { bits: 0x4066_8000_0000_0000 })
}

/// Checks a position: latitude from -90 to 90, longitude from -180 to 180, and
/// not both zero.
pub fn is_plausible(d: Degrees) -> (r: bool)
    ensures
        r == plausible(d),
{
    let minus_90: Binary64 = Binary64 { bits: 0xc056_8000_0000_0000 };
    let plus_90: Binary64 = Binary64 { bits: 0x4056_8000_0000_0000 };
    let minus_180: Binary64 = Binary64 { bits: 0xc066_8000_0000_0000 };
    let plus_180: Binary64 = Binary64 { bits: 0x4066_8000_0000_0000 };
    d.latitude.is_finite() && d.longitude.is_finite() && !(d.latitude.is_zero()
        && d.longitude.is_zero()) && minus_90.le(d.latitude) && d.latitude.le(plus_90)
        && minus_180.le(d.longitude) && d.longitude.le(plus_180)
}

/// The position in degrees: the coordinates themselves when they are in
/// degrees, their conversion otherwise.
pub open spec fn degrees_of(c: Coordinates, converted: Degrees) -> Degrees {
    if c.in_degrees {
        Degrees { latitude: c.latitude, longitude: c.longitude }
    } else {
        converted
    }
}

/// The moment of the GPS time in a GPS part.
pub open spec fn gps_time_of(gps: Seq<u8>) -> Option<Moment> {
    match protobuf::message_at(gps, 6) {
        Some(m) => match protobuf::string_at(m, 1) {
            Some(s) => dji::gps_moment(dji::with_colons(text::trimmed(s))),
            None => None,
        },
        None => None,
    }
}

fn read_gps_time(gps: &[u8]) -> (r: Option<Timestamp>)
    ensures
        time::moment(r) == gps_time_of(gps@),
{
    match protobuf::child(gps, 6) {
        Some(m) => match protobuf::get_string(m, 1) {
            Some(s) => dji::parse_gps_time(s.as_str()),
            None => None,
        },
        None => None,
    }
}

/// A component that counts as 0 when it is not written.
pub open spec fn component(m: Seq<u8>, field: u32) -> Binary32 {
    match protobuf::f32_at(m, field) {
        Some(v) => v,
        None => Binary32 { bits: 0 },
    }
}

fn read_component(m: &[u8], field: u32) -> (r: Binary32)
    ensures
        r == component(m@, field),
{
    match protobuf::get_f32(m, field) {
        Some(v) => v,
        None => Binary32 { bits: 0 },
    }
}

/// The velocity in the remote's part of a frame.
pub open spec fn velocity_of(gimbal: Seq<u8>) -> Option<Vector> {
    match protobuf::message_at(gimbal, 3) {
        Some(v) => Some(Vector { x: component(v, 1), y: component(v, 2), z: component(v, 3) }),
        None => None,
    }
}

fn read_velocity(gimbal: &[u8]) -> (r: Option<Vector>)
    ensures
        r == velocity_of(gimbal@),
{
    match protobuf::child(gimbal, 3) {
        Some(v) => Some(
            Vector {
                x: read_component(v, 1),
                y: read_component(v, 2),
                z: read_component(v, 3),
            },
        ),
        None => None,
    }
}

/// The GPS position of a frame: that of its coordinates, when they are plausible.
pub open spec fn fix_of(frame: Seq<u8>, converted: Degrees) -> Option<FixFacts> {
    match protobuf::message_at(frame, 4) {
        None => None,
        Some(gimbal) => match protobuf::message_at(gimbal, 2) {
            None => None,
            Some(gps) => match coordinates_in(gps) {
                Some(c) if plausible(degrees_of(c, converted)) => Some(
                    FixFacts {
                        latitude: degrees_of(c, converted).latitude,
                        longitude: degrees_of(c, converted).longitude,
                        altitude_mm: protobuf::i64_at(gps, 2),
                        status: gps_status(gps),
                        velocity: velocity_of(gimbal),
                        time: gps_time_of(gps),
                    },
                ),
                _ => None,
            },
        },
    }
}

/// Clip facts with what the remote's part of a frame adds to them.
pub open spec fn with_remote(info: ClipFacts, gimbal: Seq<u8>) -> ClipFacts {
    match protobuf::message_at(gimbal, 1) {
        Some(dev) if info.remote_name is None => ClipFacts {
            remote_name: protobuf::string_at(dev, 4),
            remote_rate_hz: protobuf::f32_at(dev, 5),
            ..info
        },
        _ => info,
    }
}

/// The status counts with one more sample of a status; 2 and above count as
/// one.
pub open spec fn with_status(counts: (int, int, int), status: u64) -> (int, int, int) {
    if status == 0 {
        (counts.0 + 1, counts.1, counts.2)
    } else if status == 1 {
        (counts.0, counts.1 + 1, counts.2)
    } else {
        (counts.0, counts.1, counts.2 + 1)
    }
}

/// Clip facts with one more GPS part.
pub open spec fn with_gps(info: ClipFacts, gps: Seq<u8>, fix: bool) -> ClipFacts {
    ClipFacts {
        gps_status_counts: with_status(info.gps_status_counts, gps_status(gps)),
        gps_time_count: info.gps_time_count + if gps_time_of(gps) is Some {
            1int
        } else {
            0
        },
        gps_fix_count: info.gps_fix_count + if fix {
            1int
        } else {
            0
        },
        ..info
    }
}

/// Clip facts with one more frame.
pub open spec fn with_frame(info: ClipFacts, frame: Seq<u8>, converted: Degrees) -> ClipFacts {
    match protobuf::message_at(frame, 4) {
        None => info,
        Some(gimbal) => {
            let named = with_remote(info, gimbal);
            match protobuf::message_at(gimbal, 2) {
                None => named,
                Some(gps) => with_gps(named, gps, fix_of(frame, converted) is Some),
            }
        },
    }
}

/// The time stamp in the header of a frame.
pub open spec fn frame_stamp(frame: Seq<u8>) -> Option<u64> {
    match protobuf::message_at(frame, 1) {
        Some(h) => protobuf::u64_at(h, 2),
        None => None,
    }
}

/// The number in the header of a frame; its place when it is not written.
pub open spec fn frame_number(frame: Seq<u8>, index: nat) -> u64 {
    match protobuf::message_at(frame, 1) {
        Some(h) => match protobuf::u64_at(h, 1) {
            Some(n) => n,
            None => index as u64,
        },
        None => index as u64,
    }
}

/// What has been read so far as a mathematical object.
pub struct DraftFacts {
    pub info: ClipFacts,
    pub samples: Seq<SampleFacts>,
    /// The first time stamp of a frame.
    pub base: Option<u64>,
    /// The time of the first GPS position with a GPS time, and that time.
    pub first_fix: Option<(SampleTime, Moment)>,
}

/// The base of the time stamps after a frame with the stamp `stamp`.
pub open spec fn base_with(base: Option<u64>, stamp: Option<u64>) -> Option<u64> {
    match base {
        Some(b) => Some(b),
        None => stamp,
    }
}

/// The time of a frame.
pub open spec fn time_of(base: Option<u64>, stamp: Option<u64>, index: nat) -> SampleTime {
    match stamp {
        Some(at) => SampleTime::Frame {
            at,
            base: match base {
                Some(b) => b,
                None => at,
            },
        },
        None => SampleTime::Track { index: index as usize },
    }
}

/// What has been read after the payload with the number `index`.
pub open spec fn with_payload(
    d: DraftFacts,
    payload: Seq<u8>,
    index: nat,
    converted: Degrees,
) -> DraftFacts {
    let info = with_clip_meta(d.info, payload);
    match protobuf::message_at(payload, 3) {
        None => DraftFacts { info, ..d },
        Some(frame) => {
            let stamp = frame_stamp(frame);
            let time = time_of(d.base, stamp, index);
            let cam = camera_of(frame);
            let fix = fix_of(frame, converted);
            DraftFacts {
                info: with_frame(info, frame, converted),
                samples: d.samples.push(
                    SampleFacts {
                        time,
                        frame: frame_number(frame, index),
                        acc: cam.acc,
                        quat: cam.quat,
                        iso: cam.iso,
                        shutter: cam.shutter,
                        color_temperature: cam.color_temperature,
                        gps: fix,
                    },
                ),
                base: base_with(d.base, stamp),
                first_fix: match (d.first_fix, fix) {
                    (Some(f), _) => Some(f),
                    (None, Some(f)) => match f.time {
                        Some(m) => Some((time, m)),
                        None => None,
                    },
                    (None, None) => None,
                },
            }
        },
    }
}

/// What has been read after all payloads, starting from `info`.
pub open spec fn draft_of(
    info: ClipFacts,
    payloads: Seq<Seq<u8>>,
    converted: Seq<Degrees>,
) -> DraftFacts
    decreases payloads.len(),
{
    if payloads.len() == 0 {
        DraftFacts { info, samples: Seq::empty(), base: None, first_fix: None }
    } else {
        let n = (payloads.len() - 1) as nat;
        with_payload(
            draft_of(info, payloads.drop_last(), converted),
            payloads.last(),
            n,
            converted[n as int],
        )
    }
}

/// What has been read so far.
#[derive(Debug)]
pub struct Draft {
    pub info: ClipInfo,
    pub samples: Vec<Sample>,
    /// The first time stamp of a frame.
    pub base: Option<u64>,
    /// The time of the first GPS position with a GPS time, and that time.
    pub first_fix: Option<(SampleTime, Timestamp)>,
}

impl View for Draft {
    type V = DraftFacts;

    open spec fn view(&self) -> DraftFacts {
        DraftFacts {
            info: self.info@,
            samples: dji::sample_facts(self.samples@),
            base: self.base,
            first_fix: match self.first_fix {
                Some((t, m)) => Some((t, m@)),
                None => None,
            },
        }
    }
}

/// Whether no counter exceeds the number of payloads.
pub open spec fn counted(info: ClipFacts, n: int) -> bool {
    &&& info.gps_fix_count <= n
    &&& info.gps_time_count <= n
    &&& info.gps_status_counts.0 <= n
    &&& info.gps_status_counts.1 <= n
    &&& info.gps_status_counts.2 <= n
}

/// Adds the remote's part of a frame.
fn add_gimbal(info: &mut ClipInfo, gimbal: &[u8])
    ensures
        final(info)@ == with_remote(old(info)@, gimbal@),
{
    if info.remote_name.is_none() {
        if let Some(dev) = protobuf::child(gimbal, 1) {
            info.remote_name = protobuf::get_string(dev, 4);
            info.remote_rate_hz = protobuf::get_f32(dev, 5);
        }
    }
}

/// Adds a GPS part.
fn add_gps(info: &mut ClipInfo, gps: &[u8], has_time: bool, fix: bool)
    requires
        counted(old(info)@, usize::MAX - 1),
        has_time == (gps_time_of(gps@) is Some),
    ensures
        final(info)@ == with_gps(old(info)@, gps@, fix),
{
    let status: u64 = read_status(gps);
    let c: [usize; 3] = info.gps_status_counts;
    info.gps_status_counts = if status == 0 {
        [c[0] + 1, c[1], c[2]]
    } else if status == 1 {
        [c[0], c[1] + 1, c[2]]
    } else {
        [c[0], c[1], c[2] + 1]
    };
    if has_time {
        info.gps_time_count = info.gps_time_count + 1;
    }
    if fix {
        info.gps_fix_count = info.gps_fix_count + 1;
    }
}

/// Reads the GPS position of a frame and adds the remote's part to the facts.
fn add_frame(info: &mut ClipInfo, frame: &[u8], converted: Degrees) -> (r: Option<GpsFix>)
    requires
        counted(old(info)@, usize::MAX - 1),
    ensures
        dji::fix_view(r) == fix_of(frame@, converted),
        final(info)@ == with_frame(old(info)@, frame@, converted),
{
    let gimbal: &[u8] = match protobuf::child(frame, 4) {
        Some(g) => g,
        None => {
            return None;
        },
    };
    add_gimbal(info, gimbal);
    let gps: &[u8] = match protobuf::child(gimbal, 2) {
        Some(g) => g,
        None => {
            return None;
        },
    };
    let time: Option<Timestamp> = read_gps_time(gps);
    let fix: Option<GpsFix> = match read_coordinates(gps) {
        Some(c) => {
            let d: Degrees = if c.in_degrees {
                Degrees { latitude: c.latitude, longitude: c.longitude }
            } else {
                converted
            };
            if is_plausible(d) {
                Some(
                    GpsFix {
                        latitude: d.latitude,
                        longitude: d.longitude,
                        altitude_mm: protobuf::get_i64(gps, 2),
                        status: read_status(gps),
                        velocity: read_velocity(gimbal),
                        time,
                    },
                )
            } else {
                None
            }
        },
        None => None,
    };
    add_gps(info, gps, time.is_some(), fix.is_some());
    fix
}

/// Adds the payload with the number `index`.
fn add_payload(d: &mut Draft, payload: &[u8], index: usize, converted: Degrees)
    requires
        counted(old(d).info@, index as int),
        index < usize::MAX,
    ensures
        final(d)@ == with_payload(old(d)@, payload@, index as nat, converted),
        counted(final(d).info@, index + 1),
{
    collect_clip_meta(payload, &mut d.info);
    let frame: &[u8] = match protobuf::child(payload, 3) {
        Some(f) => f,
        None => {
            return;
        },
    };
    let (stamp, number): (Option<u64>, Option<u64>) = match protobuf::child(frame, 1) {
        Some(h) => (protobuf::get_u64(h, 2), protobuf::get_u64(h, 1)),
        None => (None, None),
    };
    let time: SampleTime = match stamp {
        Some(at) => {
            let base: u64 = match d.base {
                Some(b) => b,
                None => at,
            };
            d.base = Some(base);
            SampleTime::Frame { at, base }
        },
        None => SampleTime::Track { index },
    };
    let frame_no: u64 = match number {
        Some(n) => n,
        None => index as u64,
    };
    let cam: Camera = read_camera(frame);
    let gps: Option<GpsFix> = add_frame(&mut d.info, frame, converted);
    if d.first_fix.is_none() {
        if let Some(f) = gps {
            if let Some(t) = f.time {
                d.first_fix = Some((time, t));
            }
        }
    }
    let ghost before = dji::sample_facts(d.samples@);
    let sample: Sample = Sample {
        time,
        frame: frame_no,
        acc: cam.acc,
        quat: cam.quat,
        iso: cam.iso,
        shutter: cam.shutter,
        color_temperature: cam.color_temperature,
        gps,
    };
    d.samples.push(sample);
    assert(dji::sample_facts(d.samples@) =~= before.push(sample@));
}

/// The text of a track: its format and its handler.
pub open spec fn track_label(t: Track) -> Seq<char> {
    t.fourcc@ + " ("@ + (if t.handler_name@.len() == 0 {
        t.handler_type@
    } else {
        t.handler_name@
    }) + ")"@
}

fn label_of(t: &Track) -> (r: String)
    ensures
        r@ == track_label(*t),
{
    let mut out: String = t.fourcc.clone();
    out.append(" (");
    if t.handler_name.as_str().is_empty() {
        out.append(t.handler_type.as_str());
    } else {
        out.append(t.handler_name.as_str());
    }
    out.append(")");
    out
}

/// The clip facts before any sample is read.
pub open spec fn first_facts(movie: Movie, t: Track) -> ClipFacts {
    ClipFacts {
        creation_time_utc: time::moment(movie.creation_time),
        metadata_track: Some(track_label(t)),
        ..dji::no_facts()
    }
}

/// The views of a sequence of payloads.
pub open spec fn payload_views(v: Seq<Vec<u8>>) -> Seq<Seq<u8>> {
    v.map_values(|p: Vec<u8>| p@)
}

/// What has been read with the number of samples and the time of the last one.
pub open spec fn measured(d: DraftFacts) -> DraftFacts {
    DraftFacts {
        info: ClipFacts {
            sample_count: d.samples.len() as int,
            duration: d.samples.last().time,
            ..d.info
        },
        ..d
    }
}

/// Interprets every payload of the DJI metadata track. `converted` holds for
/// each payload its coordinates in degrees; they are used where the camera
/// wrote radians.
pub fn read_clip(movie: &Movie, payloads: &[Vec<u8>], converted: &[Degrees]) -> (r: Result<
    Draft,
    DjiError,
>)
    requires
        payloads@.len() == converted@.len(),
    ensures
        match dji::metadata(movie.tracks@) {
            None => r == Err::<Draft, DjiError>(DjiError::NoMetadataTrack),
            Some(t) => {
                let d = draft_of(
                    first_facts(*movie, t),
                    payload_views(payloads@),
                    converted@,
                );
                if t.offsets@.len() == 0 || d.samples.len() == 0 {
                    r == Err::<Draft, DjiError>(DjiError::NoSamples)
                } else {
                    r matches Ok(out) && out@ == measured(d)
                }
            },
        },
{
    let track: &Track = match dji::find_metadata_track(movie) {
        Some(t) => t,
        None => {
            return Err(DjiError::NoMetadataTrack);
        },
    };
    if track.sample_count() == 0 {
        return Err(DjiError::NoSamples);
    }
    let mut info: ClipInfo = ClipInfo::default();
    info.creation_time_utc = movie.creation_time;
    info.metadata_track = Some(label_of(track));
    let ghost start = first_facts(*movie, *track);
    let ghost all = payload_views(payloads@);
    let mut d: Draft = Draft { info, samples: Vec::new(), base: None, first_fix: None };
    let mut i: usize = 0;
    proof {
        assert(all.take(0) =~= Seq::empty());
        assert(dji::sample_facts(d.samples@) =~= Seq::empty());
        assert(d@ == draft_of(start, all.take(0), converted@));
    }
    while i < payloads.len()
        invariant
            i <= payloads@.len(),
            payloads@.len() == converted@.len(),
            all == payload_views(payloads@),
            d@ == draft_of(start, all.take(i as int), converted@),
            counted(d.info@, i as int),
        decreases payloads@.len() - i,
    {
        proof {
            assert(all.take(i + 1).drop_last() =~= all.take(i as int));
            assert(all.take(i + 1).last() == payloads@[i as int]@);
        }
        add_payload(&mut d, payloads[i].as_slice(), i, converted[i]);
        i = i + 1;
    }
    assert(all.take(i as int) =~= all);
    let n: usize = d.samples.len();
    if n == 0 {
        return Err(DjiError::NoSamples);
    }
    d.info.sample_count = n;
    d.info.duration = d.samples[n - 1].time;
    assert(dji::sample_facts(d.samples@).last() == d.samples@[n - 1]@);
    Ok(d)
}

/// The nearest multiple of 15.
pub open spec fn nearest_15(m: int) -> int {
    if m >= 0 {
        (m + 7) / 15 * 15
    } else {
        -((-m + 7) / 15 * 15)
    }
}

/// The offset of the camera's clock from UTC: the minutes between the two,
/// rounded to a quarter of an hour, unless that is more than 14 hours.
pub open spec fn clock_offset(minutes: int) -> Option<i32> {
    let r = nearest_15(minutes);
    if -840 <= r <= 840 {
        Some(r as i32)
    } else {
        None
    }
}

/// Whether to report that `done` of `total` samples have been read: before each
/// 512th sample and behind the last one, and never of a track without samples.
pub open spec fn reported(done: int, total: int) -> bool {
    total > 0 && (done % 512 == 0 || done == total)
}

/// Whether to report the progress.
pub fn reports_progress(done: usize, total: usize) -> (r: bool)
    ensures
        r == reported(done as int, total as int),
{
    total > 0 && (done % 512 == 0 || done == total)
}

/// The offset of a clock that is `minutes` minutes ahead of UTC.
pub fn utc_offset(minutes: i64) -> (r: Option<i32>)
    requires
        -300_000_000_000 < minutes < 300_000_000_000,
    ensures
        r == clock_offset(minutes as int),
{
    let rounded: i64 = if minutes >= 0 {
        (minutes + 7) / 15 * 15
    } else {
        -((-minutes + 7) / 15 * 15)
    };
    if -840 <= rounded && rounded <= 840 {
        Some(rounded as i32)
    } else {
        None
    }
}

/// The start of a clip and where it comes from: the first GPS time, the file
/// name or the container, in this order. `elapsed_ms` is the time of the first
/// GPS position with a GPS time.
pub open spec fn start_of(
    d: DraftFacts,
    file_name: Option<Seq<char>>,
    elapsed_ms: int,
) -> (Option<Moment>, StartTimeSource) {
    let named = match file_name {
        Some(n) => dji::name_moment(n),
        None => None,
    };
    match (d.first_fix, named, d.info.creation_time_utc) {
        (Some((_, m)), _, _) => (
            time::shifted(m, -(elapsed_ms * 1_000_000)),
            StartTimeSource::GpsTime,
        ),
        (None, Some(m), _) => (Some(m), StartTimeSource::FileName),
        (None, None, Some(m)) => (Some(m), StartTimeSource::Container),
        (None, None, None) => (None, StartTimeSource::Unknown),
    }
}

/// The clip facts with the start of the clip and the offset of its clock.
pub open spec fn dated(
    d: DraftFacts,
    file_name: Option<Seq<char>>,
    elapsed_ms: int,
) -> ClipFacts {
    let (start, source) = start_of(d, file_name, elapsed_ms);
    let dated = match (start, source) {
        (None, StartTimeSource::Unknown) => d.info,
        _ => ClipFacts { start_local: start, start_time_source: source, ..d.info },
    };
    match (dated.start_local, d.info.creation_time_utc) {
        (Some(local), Some(utc)) => match clock_offset(
            time::quotient(time::nanos_between(local, utc), 60_000_000_000),
        ) {
            Some(m) => ClipFacts { utc_offset_minutes: Some(m), ..dated },
            None => dated,
        },
        _ => dated,
    }
}

/// The characters of an optional text slice.
pub open spec fn str_chars(t: Option<&str>) -> Option<Seq<char>> {
    match t {
        Some(t) => Some(t@),
        None => None,
    }
}

/// Completes a clip with its start time and the offset of its clock from UTC.
/// `elapsed_ms` is the time in whole milliseconds of the first GPS position
/// with a GPS time; it is used only where there is one.
pub fn finish(draft: Draft, file_name: Option<&str>, elapsed_ms: i64) -> (r: Clip)
    ensures
        r.info@ == dated(draft@, str_chars(file_name), elapsed_ms as int),
        r.samples@ == draft.samples@,
{
    let Draft { mut info, samples, base: _, first_fix } = draft;
    let named: Option<Timestamp> = match file_name {
        Some(n) => dji::parse_filename_time(n),
        None => None,
    };
    match first_fix {
        Some((_, t)) => {
            info.start_local = t.minus_millis(elapsed_ms);
            info.start_time_source = StartTimeSource::GpsTime;
        },
        None => match named {
            Some(t) => {
                info.start_local = Some(t);
                info.start_time_source = StartTimeSource::FileName;
            },
            None => {
                if let Some(t) = info.creation_time_utc {
                    info.start_local = Some(t);
                    info.start_time_source = StartTimeSource::Container;
                }
            },
        },
    }
    if let (Some(local), Some(utc)) = (info.start_local, info.creation_time_utc) {
        if let Some(m) = utc_offset(local.minutes_since(utc)) {
            info.utc_offset_minutes = Some(m);
        }
    }
    Clip { info, samples }
}

/// The offset of a clock is a multiple of a quarter of an hour, at most 14
/// hours, and no more than seven minutes from the difference it stands for.
pub proof fn clock_offset_is_near(minutes: int)
    ensures
        clock_offset(minutes) matches Some(m) ==> m as int % 15 == 0 && -840 <= m <= 840 && -7
            <= m - minutes <= 7,
        -847 <= minutes <= 847 <==> clock_offset(minutes) is Some,
{
}

/// What is known of a clip stays as more payloads are read.
pub proof fn clip_meta_stays(info: ClipFacts, payload: Seq<u8>)
    ensures
        info.proto_name is Some ==> with_clip_meta(info, payload).proto_name == info.proto_name,
        info.proto_version is Some ==> with_clip_meta(info, payload).proto_version
            == info.proto_version,
        info.model is Some ==> with_clip_meta(info, payload).model == info.model,
        info.serial is Some ==> with_clip_meta(info, payload).serial == info.serial,
        info.firmware is Some ==> with_clip_meta(info, payload).firmware == info.firmware,
        info.width is Some ==> with_clip_meta(info, payload).width == info.width
            && with_clip_meta(info, payload).height == info.height && with_clip_meta(
            info,
            payload,
        ).fps == info.fps,
{
}

/// The number of samples with a GPS position.
pub open spec fn fixes(samples: Seq<SampleFacts>) -> int
    decreases samples.len(),
{
    if samples.len() == 0 {
        0
    } else {
        fixes(samples.drop_last()) + if samples.last().gps is Some {
            1int
        } else {
            0
        }
    }
}

/// The count of GPS positions is that of the samples that have one, every
/// position is plausible and not of status 1, and no more statuses are counted
/// than there are samples.
pub proof fn positions_are_counted(
    info: ClipFacts,
    payloads: Seq<Seq<u8>>,
    converted: Seq<Degrees>,
)
    requires
        info.gps_fix_count == 0,
        info.gps_status_counts == (0int, 0int, 0int),
    ensures
        ({
            let d = draft_of(info, payloads, converted);
            let c = d.info.gps_status_counts;
            &&& d.info.gps_fix_count == fixes(d.samples)
            &&& c.0 + c.1 + c.2 <= d.samples.len() <= payloads.len()
            &&& d.info.gps_fix_count <= c.0 + c.2
            &&& forall|i: int|
                0 <= i < d.samples.len() ==> ((#[trigger] d.samples[i]).gps matches Some(f)
                    ==> f.status != 1 && plausible(
                    Degrees { latitude: f.latitude, longitude: f.longitude },
                ))
        }),
    decreases payloads.len(),
{
    if payloads.len() > 0 {
        positions_are_counted(info, payloads.drop_last(), converted);
        let d = draft_of(info, payloads.drop_last(), converted);
        let e = draft_of(info, payloads, converted);
        let payload = payloads.last();
        if let Some(frame) = protobuf::message_at(payload, 3) {
            assert(e.samples.drop_last() =~= d.samples);
            assert forall|i: int| 0 <= i < e.samples.len() implies ((
            #[trigger] e.samples[i]).gps matches Some(f) ==> f.status != 1 && plausible(
                Degrees { latitude: f.latitude, longitude: f.longitude },
            )) by {
                if i < d.samples.len() {
                    assert(e.samples[i] == d.samples[i]);
                }
            }
        }
    }
}

/// All time stamps of a clip count from the first of them; one of the first sample
/// is at time 0.
pub proof fn times_share_a_base(info: ClipFacts, payloads: Seq<Seq<u8>>, converted: Seq<Degrees>)
    ensures
        ({
            let d = draft_of(info, payloads, converted);
            &&& forall|i: int|
                0 <= i < d.samples.len() ==> ((#[trigger] d.samples[i]).time
                    matches SampleTime::Frame { at, base } ==> d.base == Some(base))
            &&& d.samples.len() > 0 ==> (d.samples[0].time matches SampleTime::Frame { at, base }
                ==> at == base)
            &&& d.samples.len() == 0 ==> d.base is None
        }),
    decreases payloads.len(),
{
    if payloads.len() > 0 {
        times_share_a_base(info, payloads.drop_last(), converted);
        let d = draft_of(info, payloads.drop_last(), converted);
        let e = draft_of(info, payloads, converted);
        assert forall|i: int| 0 <= i < e.samples.len() implies ((#[trigger] e.samples[i]).time
            matches SampleTime::Frame { at, base } ==> e.base == Some(base)) by {
            if i < d.samples.len() {
                assert(e.samples[i] == d.samples[i]);
            }
        }
    }
}

} // verus!
