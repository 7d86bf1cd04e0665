//! What holds of the decoding of clips as a whole: which field of a payload means
//! what, what is counted, and when a clip starts.

use crate::dji;
use crate::dji::decode;
use crate::dji::decode::{Degrees, DraftFacts};
use crate::dji::{ClipFacts, SampleFacts, SampleTime, StartTimeSource};
use crate::ieee;
use crate::ieee::Binary64;
use crate::mp4::{Movie, Track};
use crate::protobuf;
use crate::text;
use crate::time;
use crate::time::calendar;
use crate::time::Moment;
use vstd::arithmetic::power2::{lemma2_to64, lemma2_to64_rest, lemma_pow2_pos, pow2};
use vstd::prelude::*;

verus! {

/// The moment in a file name, where there is a name and a moment in it.
pub open spec fn told_by_name(file_name: Option<Seq<char>>) -> Option<Moment> {
    match file_name {
        Some(n) => dji::name_moment(n),
        None => None,
    }
}

/// The GPS time comes first: where a position with a GPS time was read, the clip
/// starts as many milliseconds before it as had passed, whatever the file is called
/// and whenever the container was made.
pub proof fn gps_time_comes_first(
    d: DraftFacts,
    file_name: Option<Seq<char>>,
    elapsed_ms: int,
    at: SampleTime,
    m: Moment,
)
    requires
        d.first_fix == Some((at, m)),
        time::representable(m),
    ensures
        ({
            let info = decode::dated(d, file_name, elapsed_ms);
            &&& info.start_time_source == StartTimeSource::GpsTime
            &&& m.nanos < 1_000_000_000 ==> (info.start_local matches Some(s) ==> s.secs
                * 1_000_000_000 + s.nanos + elapsed_ms * 1_000_000 == m.secs * 1_000_000_000
                + m.nanos && 0 <= s.nanos < 1_000_000_000)
            &&& m.nanos < 1_000_000_000 && elapsed_ms >= 0 && m.secs - elapsed_ms
                >= time::first_second() ==> info.start_local is Some
        }),
{
}

/// Names and containers make no difference to a clip with a GPS time.
pub proof fn gps_time_needs_no_name(
    d: DraftFacts,
    a: Option<Seq<char>>,
    b: Option<Seq<char>>,
    creation: Option<Moment>,
    elapsed_ms: int,
)
    requires
        d.first_fix is Some,
    ensures
        ({
            let other = DraftFacts {
                info: ClipFacts { creation_time_utc: creation, ..d.info },
                ..d
            };
            let x = decode::dated(d, a, elapsed_ms);
            let y = decode::dated(other, b, elapsed_ms);
            x.start_local == y.start_local && x.start_time_source == y.start_time_source
        }),
{
}

/// Without a GPS time the file name tells the start, whatever the container says.
pub proof fn the_name_comes_second(
    d: DraftFacts,
    file_name: Option<Seq<char>>,
    elapsed_ms: int,
    m: Moment,
)
    requires
        d.first_fix is None,
        told_by_name(file_name) == Some(m),
    ensures
        decode::dated(d, file_name, elapsed_ms).start_local == Some(m),
        decode::dated(d, file_name, elapsed_ms).start_time_source == StartTimeSource::FileName,
{
}

/// Without both the container tells it, and without all three nobody does.
pub proof fn the_container_comes_last(
    d: DraftFacts,
    file_name: Option<Seq<char>>,
    elapsed_ms: int,
)
    requires
        d.first_fix is None,
        told_by_name(file_name) is None,
        d.info.start_local is None,
        d.info.start_time_source == StartTimeSource::Unknown,
    ensures
        ({
            let info = decode::dated(d, file_name, elapsed_ms);
            &&& info.start_local == d.info.creation_time_utc
            &&& d.info.creation_time_utc is Some ==> info.start_time_source
                == StartTimeSource::Container
            &&& d.info.creation_time_utc is None ==> info.start_time_source
                == StartTimeSource::Unknown
        }),
{
}

/// The offset of the camera's clock is the nearest quarter of an hour to how far the
/// start lies behind the creation time in UTC, as long as that is at most 14 hours;
/// without either time, or with more, it stays unknown. Nothing else changes when a
/// clip is dated.
pub proof fn offsets_are_quarters(d: DraftFacts, file_name: Option<Seq<char>>, elapsed_ms: int)
    requires
        d.info.utc_offset_minutes is None,
        d.info.start_local is None,
        d.info.start_time_source == StartTimeSource::Unknown,
    ensures
        ({
            let info = decode::dated(d, file_name, elapsed_ms);
            &&& info == (ClipFacts {
                start_local: info.start_local,
                start_time_source: info.start_time_source,
                utc_offset_minutes: info.utc_offset_minutes,
                ..d.info
            })
            &&& info.start_local is None || d.info.creation_time_utc is None
                ==> info.utc_offset_minutes is None
            &&& info.start_local matches Some(a) ==> d.info.creation_time_utc matches Some(b)
                ==> a.nanos == b.nanos && a.nanos < 1_000_000_000 && (a.secs - b.secs) % 60 == 0
                ==> {
                let minutes = (a.secs - b.secs) / 60;
                &&& info.utc_offset_minutes is Some <==> -847 <= minutes <= 847
                &&& info.utc_offset_minutes matches Some(m) ==> m as int % 15 == 0 && -7 <= m
                    - minutes <= 7
            }
        }),
{
    let info = decode::dated(d, file_name, elapsed_ms);
    if let (Some(a), Some(b)) = (info.start_local, d.info.creation_time_utc) {
        if a.nanos == b.nanos && a.nanos < 1_000_000_000 && (a.secs - b.secs) % 60 == 0 {
            let minutes = (a.secs - b.secs) / 60;
            decode::clock_offset_is_near(minutes);
            assert(time::nanos_between(a, b) == minutes * 60_000_000_000);
            assert(time::quotient(minutes * 60_000_000_000, 60_000_000_000) == minutes) by {
                if minutes < 0 {
                    assert((-minutes) * 60_000_000_000 / 60_000_000_000 == -minutes);
                }
            }
        }
    }
}

/// A clip whose camera runs a whole number of quarters of an hour ahead of UTC is
/// told that offset, and its start in UTC is the creation time.
pub proof fn utc_is_recovered(
    d: DraftFacts,
    file_name: Option<Seq<char>>,
    elapsed_ms: int,
    utc: Moment,
    quarters: int,
)
    requires
        d.first_fix is None,
        d.info.creation_time_utc == Some(utc),
        -56 <= quarters <= 56,
        time::representable(utc),
        utc.nanos < 1_000_000_000,
        told_by_name(file_name) == Some(Moment { secs: utc.secs + quarters * 900, ..utc }),
    ensures
        decode::dated(d, file_name, elapsed_ms).utc_offset_minutes == Some((quarters * 15) as i32),
        dji::utc_start(decode::dated(d, file_name, elapsed_ms)) == Some(utc),
{
    let local = Moment { secs: utc.secs + quarters * 900, ..utc };
    let minutes = quarters * 15;
    assert(time::nanos_between(local, utc) == minutes * 60_000_000_000);
    assert(time::quotient(minutes * 60_000_000_000, 60_000_000_000) == minutes) by {
        if minutes < 0 {
            assert((-minutes) * 60_000_000_000 / 60_000_000_000 == -minutes);
        }
    }
    decode::clock_offset_is_near(minutes);
    assert(decode::nearest_15(minutes) == minutes);
}

/// The moment of a file name is written in it: behind `DJI_`, as the year, month,
/// day, hour, minute and second, before anything else.
pub proof fn names_tell_moments(digits: Seq<char>, rest: Seq<char>)
    requires
        calendar::compact(digits),
        text::free_of(rest, '/'),
        text::free_of(rest, '\\'),
    ensures
        dji::name_moment("DJI_"@ + digits + rest) == calendar::compact_moment(digits),
{
    reveal_strlit("DJI_");
    let name = "DJI_"@ + digits + rest;
    assert forall|i: int| 0 <= i < name.len() implies name[i] != '/' && name[i] != '\\' by {
        if 4 <= i < 18 {
            assert(calendar::is_digit(digits[i - 4]));
        } else if i >= 18 {
            assert(name[i] == rest[i - 18]);
        }
    }
    text::plain_names_stay(name);
    assert(name.take(4) =~= "DJI_"@);
    assert(name.subrange(4, 18) =~= digits);
}

/// Where the clip facts of a payload are told: the schema in field 1 and its version
/// in field 3 of the header, the serial number in 5, the firmware in 6 and the model
/// in 10; what is known stays.
pub proof fn header_fields_have_their_numbers(info: ClipFacts, payload: Seq<u8>, h: Seq<u8>)
    requires
        protobuf::nested(payload, seq![1u32, 1u32]) == Some(h),
    ensures
        ({
            let r = decode::with_clip_meta(info, payload);
            &&& info.proto_name is None ==> r.proto_name == protobuf::string_at(h, 1)
            &&& info.proto_version is None ==> r.proto_version == protobuf::string_at(h, 3)
            &&& info.serial is None ==> r.serial == protobuf::string_at(h, 5)
            &&& info.firmware is None ==> r.firmware == protobuf::string_at(h, 6)
            &&& info.model is None ==> r.model == protobuf::string_at(h, 10)
        }),
{
}

/// Where the video is told: its width in field 1, its height in 2 and its frame rate
/// in 3 of the stream; a size beyond 32 bits is none.
pub proof fn stream_fields_have_their_numbers(info: ClipFacts, payload: Seq<u8>, v: Seq<u8>)
    requires
        protobuf::nested(payload, seq![2u32, 3u32]) == Some(v),
        info.width is None,
    ensures
        ({
            let r = decode::with_clip_meta(info, payload);
            &&& protobuf::u64_at(v, 1) matches Some(w) ==> if w <= u32::MAX {
                r.width == Some(w as u32)
            } else {
                r.width is None
            }
            &&& protobuf::u64_at(v, 1) is None ==> r.width is None
            &&& protobuf::u64_at(v, 2) matches Some(w) ==> if w <= u32::MAX {
                r.height == Some(w as u32)
            } else {
                r.height is None
            }
            &&& protobuf::u64_at(v, 2) is None ==> r.height is None
            &&& r.fps == protobuf::f32_at(v, 3)
        }),
{
}

/// A payload says nothing of the clip beyond its header and stream.
pub proof fn payloads_tell_no_more(info: ClipFacts, payload: Seq<u8>)
    ensures
        ({
            let r = decode::with_clip_meta(info, payload);
            &&& r == (ClipFacts {
                proto_name: r.proto_name,
                proto_version: r.proto_version,
                serial: r.serial,
                firmware: r.firmware,
                model: r.model,
                width: r.width,
                height: r.height,
                fps: r.fps,
                ..info
            })
            &&& protobuf::nested(payload, seq![1u32, 1u32]) is None ==> r.proto_name
                == info.proto_name && r.proto_version == info.proto_version && r.serial
                == info.serial && r.firmware == info.firmware && r.model == info.model
            &&& protobuf::nested(payload, seq![2u32, 3u32]) is None ==> r.width == info.width
                && r.height == info.height && r.fps == info.fps
        }),
{
}

/// The frame of a payload gives one sample; a payload without one gives none.
pub proof fn frames_give_samples(d: DraftFacts, payload: Seq<u8>, index: nat, converted: Degrees)
    ensures
        ({
            let e = decode::with_payload(d, payload, index, converted);
            &&& protobuf::message_at(payload, 3) is None ==> e.samples == d.samples && e.base
                == d.base && e.first_fix == d.first_fix
            &&& protobuf::message_at(payload, 3) is Some ==> e.samples.len() == d.samples.len() + 1
                && e.samples.drop_last() == d.samples
        }),
{
    let e = decode::with_payload(d, payload, index, converted);
    if protobuf::message_at(payload, 3) is Some {
        assert(e.samples.drop_last() =~= d.samples);
    }
}

/// Where the header of a frame tells its number, in field 1, and its time stamp, in
/// field 2. Without a number the place of the payload counts, without a stamp the
/// time of the container.
pub proof fn frame_headers_have_their_numbers(
    d: DraftFacts,
    payload: Seq<u8>,
    index: nat,
    converted: Degrees,
    frame: Seq<u8>,
)
    requires
        protobuf::message_at(payload, 3) == Some(frame),
        index <= usize::MAX,
        index <= u64::MAX,
    ensures
        ({
            let e = decode::with_payload(d, payload, index, converted);
            let s = e.samples.last();
            match protobuf::message_at(frame, 1) {
                Some(h) => {
                    &&& protobuf::u64_at(h, 1) matches Some(n) ==> s.frame == n
                    &&& protobuf::u64_at(h, 1) is None ==> s.frame == index
                    &&& protobuf::u64_at(h, 2) matches Some(at) ==> {
                        let base = match d.base {
                            Some(b) => b,
                            None => at,
                        };
                        e.base == Some(base) && s.time == (SampleTime::Frame { at, base })
                    }
                    &&& protobuf::u64_at(h, 2) is None ==> e.base == d.base && s.time == (
                    SampleTime::Track { index: index as usize })
                },
                None => s.frame == index && e.base == d.base && s.time == (SampleTime::Track {
                    index: index as usize,
                }),
            }
        }),
{
}

/// Where the camera tells its acceleration: x, y and z in fields 2, 3 and 4 of its
/// part 10, all of which must be there.
pub proof fn acceleration_has_its_fields(
    d: DraftFacts,
    payload: Seq<u8>,
    index: nat,
    converted: Degrees,
    cam: Seq<u8>,
    m: Seq<u8>,
)
    requires
        protobuf::nested(payload, seq![3u32, 2u32]) == Some(cam),
        protobuf::message_at(cam, 10) == Some(m),
    ensures
        ({
            let s = decode::with_payload(d, payload, index, converted).samples.last();
            &&& s.acc is Some <==> protobuf::f32_at(m, 2) is Some && protobuf::f32_at(m, 3) is Some
                && protobuf::f32_at(m, 4) is Some
            &&& s.acc matches Some(v) ==> Some(v.x) == protobuf::f32_at(m, 2) && Some(v.y)
                == protobuf::f32_at(m, 3) && Some(v.z) == protobuf::f32_at(m, 4)
        }),
{
    lemma_camera(payload, cam);
}

/// Where the camera tells its attitude: w, x, y and z in fields 1 to 4 of its part
/// 9, all of which must be there.
pub proof fn attitude_has_its_fields(
    d: DraftFacts,
    payload: Seq<u8>,
    index: nat,
    converted: Degrees,
    cam: Seq<u8>,
    m: Seq<u8>,
)
    requires
        protobuf::nested(payload, seq![3u32, 2u32]) == Some(cam),
        protobuf::message_at(cam, 9) == Some(m),
    ensures
        ({
            let s = decode::with_payload(d, payload, index, converted).samples.last();
            &&& s.quat is Some <==> protobuf::f32_at(m, 1) is Some && protobuf::f32_at(m, 2) is Some
                && protobuf::f32_at(m, 3) is Some && protobuf::f32_at(m, 4) is Some
            &&& s.quat matches Some(q) ==> Some(q.w) == protobuf::f32_at(m, 1) && Some(q.x)
                == protobuf::f32_at(m, 2) && Some(q.y) == protobuf::f32_at(m, 3) && Some(q.z)
                == protobuf::f32_at(m, 4)
        }),
{
    lemma_camera(payload, cam);
}

/// Where the camera tells its exposure: the ISO value in field 1 of its part 3, the
/// shutter time as a fraction in field 1 of part 4, and the colour temperature in
/// field 1 of part 6. A fraction of nothing is no shutter time, and a temperature
/// beyond 32 bits none.
pub proof fn exposure_has_its_fields(
    d: DraftFacts,
    payload: Seq<u8>,
    index: nat,
    converted: Degrees,
    cam: Seq<u8>,
)
    requires
        protobuf::nested(payload, seq![3u32, 2u32]) == Some(cam),
    ensures
        ({
            let s = decode::with_payload(d, payload, index, converted).samples.last();
            &&& protobuf::message_at(cam, 3) matches Some(m) ==> s.iso == protobuf::f32_at(m, 1)
            &&& protobuf::message_at(cam, 3) is None ==> s.iso is None
            &&& protobuf::message_at(cam, 4) matches Some(m) ==> match protobuf::rational_at(m, 1) {
                Some((n, den)) => if den == 0 {
                    s.shutter is None
                } else {
                    s.shutter == Some((n, den))
                },
                None => s.shutter is None,
            }
            &&& protobuf::message_at(cam, 4) is None ==> s.shutter is None
            &&& protobuf::message_at(cam, 6) matches Some(m) ==> match protobuf::u64_at(m, 1) {
                Some(v) => if v <= u32::MAX {
                    s.color_temperature == Some(v as u32)
                } else {
                    s.color_temperature is None
                },
                None => s.color_temperature is None,
            }
            &&& protobuf::message_at(cam, 6) is None ==> s.color_temperature is None
            &&& protobuf::message_at(cam, 9) is None ==> s.quat is None
            &&& protobuf::message_at(cam, 10) is None ==> s.acc is None
        }),
{
    lemma_camera(payload, cam);
}

/// The camera's part of a frame.
proof fn lemma_camera(payload: Seq<u8>, cam: Seq<u8>)
    requires
        protobuf::nested(payload, seq![3u32, 2u32]) == Some(cam),
    ensures
        protobuf::message_at(payload, 3) matches Some(frame) && protobuf::message_at(frame, 2)
            == Some(cam),
{
    reveal_with_fuel(protobuf::nested, 3);
    let path = seq![3u32, 2u32];
    assert(path.first() == 3);
    assert(path.drop_first() =~= seq![2u32]);
    assert(seq![2u32].first() == 2);
    assert(seq![2u32].drop_first() =~= Seq::empty());
}

/// Where a remote tells the position: the unit in field 1, the latitude in 2 and the
/// longitude in 3 of the coordinates, which are part 1 of the GPS part, the altitude
/// in its field 2 and the status in its field 3. A sample has a position exactly when
/// the status is not 1 and the coordinates are there and plausible; they are taken
/// as they are where the unit is not 0, and converted otherwise.
pub proof fn positions_have_their_fields(
    d: DraftFacts,
    payload: Seq<u8>,
    index: nat,
    converted: Degrees,
    frame: Seq<u8>,
    gimbal: Seq<u8>,
    gps: Seq<u8>,
)
    requires
        protobuf::message_at(payload, 3) == Some(frame),
        protobuf::message_at(frame, 4) == Some(gimbal),
        protobuf::message_at(gimbal, 2) == Some(gps),
    ensures
        ({
            let s = decode::with_payload(d, payload, index, converted).samples.last();
            let status = match protobuf::u64_at(gps, 3) {
                Some(v) => v,
                None => 0,
            };
            &&& status == 1 ==> s.gps is None
            &&& protobuf::message_at(gps, 1) is None ==> s.gps is None
            &&& protobuf::message_at(gps, 1) matches Some(c) ==> status != 1 ==> match (
                protobuf::f64_at(c, 2),
                protobuf::f64_at(c, 3),
            ) {
                (Some(lat), Some(lon)) => {
                    let degrees = protobuf::u64_at(c, 1) is Some && protobuf::u64_at(c, 1)->0 != 0;
                    let p = if degrees {
                        Degrees { latitude: lat, longitude: lon }
                    } else {
                        converted
                    };
                    &&& s.gps is Some <==> decode::plausible(p)
                    &&& s.gps matches Some(f) ==> f.latitude == p.latitude && f.longitude
                        == p.longitude && f.status == status && f.altitude_mm == protobuf::i64_at(
                        gps,
                        2,
                    )
                },
                _ => s.gps is None,
            }
        }),
{
}

/// Where a remote tells the velocity, in fields 1 to 3 of its part 3, a missing one
/// being 0, and the time, in field 1 of part 6 of the GPS part.
pub proof fn velocity_and_time_have_their_fields(
    d: DraftFacts,
    payload: Seq<u8>,
    index: nat,
    converted: Degrees,
    frame: Seq<u8>,
    gimbal: Seq<u8>,
    gps: Seq<u8>,
)
    requires
        protobuf::message_at(payload, 3) == Some(frame),
        protobuf::message_at(frame, 4) == Some(gimbal),
        protobuf::message_at(gimbal, 2) == Some(gps),
        decode::with_payload(d, payload, index, converted).samples.last().gps is Some,
    ensures
        ({
            let f = decode::with_payload(d, payload, index, converted).samples.last().gps->0;
            &&& protobuf::message_at(gimbal, 3) is None ==> f.velocity is None
            &&& protobuf::message_at(gimbal, 3) matches Some(v) ==> {
                &&& f.velocity is Some
                &&& protobuf::f32_at(v, 1) matches Some(x) ==> f.velocity->0.x == x
                &&& protobuf::f32_at(v, 1) is None ==> f.velocity->0.x.bits == 0
                &&& protobuf::f32_at(v, 2) matches Some(y) ==> f.velocity->0.y == y
                &&& protobuf::f32_at(v, 2) is None ==> f.velocity->0.y.bits == 0
                &&& protobuf::f32_at(v, 3) matches Some(z) ==> f.velocity->0.z == z
                &&& protobuf::f32_at(v, 3) is None ==> f.velocity->0.z.bits == 0
            }
            &&& protobuf::message_at(gps, 6) is None ==> f.time is None
            &&& protobuf::message_at(gps, 6) matches Some(m) ==> {
                &&& protobuf::string_at(m, 1) is None ==> f.time is None
                &&& protobuf::string_at(m, 1) matches Some(t) ==> f.time == dji::gps_moment(
                    dji::with_colons(text::trimmed(t)),
                )
            }
        }),
{
}

/// Where a remote tells its name, in field 4 of its part 1, and its rate, in field 5;
/// the first name stays. A status of 0, of 1 and of anything else is counted for
/// itself, a position and a time where there is one.
pub proof fn remotes_are_counted(
    d: DraftFacts,
    payload: Seq<u8>,
    index: nat,
    converted: Degrees,
    frame: Seq<u8>,
    gimbal: Seq<u8>,
)
    requires
        protobuf::message_at(payload, 3) == Some(frame),
        protobuf::message_at(frame, 4) == Some(gimbal),
    ensures
        ({
            let e = decode::with_payload(d, payload, index, converted);
            let (a, b) = (d.info.gps_status_counts, e.info.gps_status_counts);
            &&& d.info.remote_name is Some ==> e.info.remote_name == d.info.remote_name
            &&& d.info.remote_name is None ==> (protobuf::message_at(gimbal, 1) matches Some(dev)
                ==> e.info.remote_name == protobuf::string_at(dev, 4) && e.info.remote_rate_hz
                == protobuf::f32_at(dev, 5))
            &&& match protobuf::message_at(gimbal, 2) {
                Some(gps) => {
                    let status = match protobuf::u64_at(gps, 3) {
                        Some(v) => v as int,
                        None => 0int,
                    };
                    let timed = protobuf::message_at(gps, 6) is Some && protobuf::string_at(
                        protobuf::message_at(gps, 6)->0,
                        1,
                    ) is Some && dji::gps_moment(
                        dji::with_colons(
                            text::trimmed(
                                protobuf::string_at(protobuf::message_at(gps, 6)->0, 1)->0,
                            ),
                        ),
                    ) is Some;
                    &&& b.0 - a.0 == if status == 0 {
                        1int
                    } else {
                        0
                    }
                    &&& b.1 - a.1 == if status == 1 {
                        1int
                    } else {
                        0
                    }
                    &&& b.2 - a.2 == if status > 1 {
                        1int
                    } else {
                        0
                    }
                    &&& e.info.gps_fix_count - d.info.gps_fix_count == if e.samples.last().gps
                        is Some {
                        1int
                    } else {
                        0
                    }
                    &&& e.info.gps_time_count - d.info.gps_time_count == if timed {
                        1int
                    } else {
                        0
                    }
                },
                None => a == b && e.info.gps_fix_count == d.info.gps_fix_count
                    && e.info.gps_time_count == d.info.gps_time_count,
            }
        }),
{
}

/// A position can be one exactly when its latitude lies from -90 to 90, its
/// longitude from -180 to 180, and not both are zero.
pub proof fn plausible_positions_are_on_the_globe(d: Degrees)
    ensures
        decode::plausible(d) <==> {
            &&& !d.latitude.nan() && !d.longitude.nan()
            &&& -ieee::whole(90) <= d.latitude.scaled() <= ieee::whole(90)
            &&& -ieee::whole(180) <= d.longitude.scaled() <= ieee::whole(180)
            &&& d.latitude.scaled() != 0 || d.longitude.scaled() != 0
        },
{
    let (a, b) = (
        Binary64 { bits: 0x4056_8000_0000_0000 },
        Binary64 { bits: 0x4066_8000_0000_0000 },
    );
    let (na, nb) = (
        Binary64 { bits: 0xc056_8000_0000_0000 },
        Binary64 { bits: 0xc066_8000_0000_0000 },
    );
    lemma2_to64();
    lemma2_to64_rest();
    ieee::patterns_are_numbers(a, 0x405, 0x6_8000_0000_0000);
    ieee::patterns_are_numbers(b, 0x406, 0x6_8000_0000_0000);
    let p = pow2(1074) as int;
    lemma_pow2_pos(1074);
    assert(pow2(46) == 0x4000_0000_0000 && pow2(45) == 0x2000_0000_0000);
    assert(a.scaled() == 90 * p) by (nonlinear_arith)
        requires
            a.scaled() * 0x4000_0000_0000 == 0x16_8000_0000_0000 * p,
    ;
    assert(b.scaled() == 180 * p) by (nonlinear_arith)
        requires
            b.scaled() * 0x2000_0000_0000 == 0x16_8000_0000_0000 * p,
    ;
    ieee::flipping_gives_the_opposite(na);
    ieee::flipping_gives_the_opposite(nb);
    assert(na.negated() == a && nb.negated() == b);
    lemma_within_is_finite(d.latitude, b);
    lemma_within_is_finite(d.longitude, b);
    assert(90 * p <= 180 * p) by (nonlinear_arith)
        requires
            p > 0,
    ;
}

/// A number no larger than a finite one is finite.
proof fn lemma_within_is_finite(v: Binary64, limit: Binary64)
    requires
        limit.finite(),
        !limit.negative(),
    ensures
        !v.nan() && -limit.scaled() <= v.scaled() <= limit.scaled() ==> v.finite(),
{
    if limit.magnitude() < v.magnitude() {
        ieee::lemma_scaled_size_increases(limit.magnitude(), v.magnitude());
    }
}

/// Whether a sample has a position with a GPS time.
pub open spec fn timed(s: SampleFacts) -> bool {
    s.gps is Some && s.gps->0.time is Some
}

/// Whether `f` is what the first sample with a position and a GPS time tells: the
/// time of the sample, and the GPS time.
pub open spec fn is_first_timed(samples: Seq<SampleFacts>, f: Option<(SampleTime, Moment)>) -> bool {
    match f {
        None => forall|i: int| 0 <= i < samples.len() ==> !timed(#[trigger] samples[i]),
        Some((at, m)) => exists|i: int|
            0 <= i < samples.len() && timed(#[trigger] samples[i]) && samples[i].time == at
                && samples[i].gps->0.time == Some(m) && forall|j: int|
                0 <= j < i ==> !timed(#[trigger] samples[j]),
    }
}

proof fn lemma_first_timed_push(
    samples: Seq<SampleFacts>,
    f: Option<(SampleTime, Moment)>,
    s: SampleFacts,
)
    requires
        is_first_timed(samples, f),
    ensures
        is_first_timed(
            samples.push(s),
            if f is Some {
                f
            } else if timed(s) {
                Some((s.time, s.gps->0.time->0))
            } else {
                None
            },
        ),
{
    let more = samples.push(s);
    let n = samples.len() as int;
    assert forall|i: int| 0 <= i < n implies #[trigger] more[i] == samples[i] by {}
    if let Some((at, m)) = f {
        let i = choose|i: int|
            0 <= i < samples.len() && timed(#[trigger] samples[i]) && samples[i].time == at
                && samples[i].gps->0.time == Some(m) && forall|j: int|
                0 <= j < i ==> !timed(#[trigger] samples[j]);
        assert(more[i] == samples[i]);
        assert forall|j: int| 0 <= j < i implies !timed(#[trigger] more[j]) by {
            assert(more[j] == samples[j]);
        }
    } else {
        assert forall|j: int| 0 <= j < n implies !timed(#[trigger] more[j]) by {
            assert(more[j] == samples[j]);
        }
        assert(more[n] == s);
    }
}

proof fn lemma_payload_is_timed(d: DraftFacts, payload: Seq<u8>, index: nat, converted: Degrees)
    ensures
        ({
            let e = decode::with_payload(d, payload, index, converted);
            match protobuf::message_at(payload, 3) {
                None => e.samples == d.samples && e.first_fix == d.first_fix,
                Some(_) => {
                    let s = e.samples.last();
                    &&& e.samples == d.samples.push(s)
                    &&& e.first_fix == if d.first_fix is Some {
                        d.first_fix
                    } else if timed(s) {
                        Some((s.time, s.gps->0.time->0))
                    } else {
                        None
                    }
                },
            }
        }),
{
    let e = decode::with_payload(d, payload, index, converted);
    if protobuf::message_at(payload, 3) is Some {
        assert(e.samples =~= d.samples.push(e.samples.last()));
    }
}

/// The start of a clip counts from its first sample that has a position with a GPS
/// time, and from no other.
pub proof fn the_first_timed_position_counts(
    info: ClipFacts,
    payloads: Seq<Seq<u8>>,
    converted: Seq<Degrees>,
)
    ensures
        ({
            let d = decode::draft_of(info, payloads, converted);
            is_first_timed(d.samples, d.first_fix)
        }),
    decreases payloads.len(),
{
    if payloads.len() > 0 {
        let front = payloads.drop_last();
        the_first_timed_position_counts(info, front, converted);
        let n = (payloads.len() - 1) as nat;
        let d = decode::draft_of(info, front, converted);
        let e = decode::draft_of(info, payloads, converted);
        assert(e == decode::with_payload(d, payloads.last(), n, converted[n as int]));
        lemma_payload_is_timed(d, payloads.last(), n, converted[n as int]);
        if protobuf::message_at(payloads.last(), 3) is Some {
            lemma_first_timed_push(d.samples, d.first_fix, e.samples.last());
        }
    }
}

/// A clip has as many samples as it says, and lasts up to the last one.
pub proof fn clips_are_measured(d: DraftFacts)
    requires
        d.samples.len() > 0,
    ensures
        decode::measured(d).info.sample_count == d.samples.len(),
        decode::measured(d).info.duration == d.samples[d.samples.len() - 1].time,
        decode::measured(d).samples == d.samples,
        decode::measured(d).first_fix == d.first_fix,
        decode::measured(d).info == (ClipFacts {
            sample_count: decode::measured(d).info.sample_count,
            duration: decode::measured(d).info.duration,
            ..d.info
        }),
{
}

/// The metadata track is the first with the format `djmd`, whatever the others are
/// called; only without one the first whose handler is called `DJI meta` or `CAM
/// meta`.
pub proof fn metadata_is_found_by_format_first(tracks: Seq<Track>, i: int)
    requires
        0 <= i < tracks.len(),
    ensures
        tracks[i].fourcc@ == "djmd"@ && (forall|j: int|
            0 <= j < i ==> (#[trigger] tracks[j]).fourcc@ != "djmd"@) ==> dji::metadata(tracks)
            == Some(tracks[i]),
        (forall|j: int| 0 <= j < tracks.len() ==> (#[trigger] tracks[j]).fourcc@ != "djmd"@)
            && dji::named_meta(tracks[i]) && (forall|j: int|
            0 <= j < i ==> !dji::named_meta(#[trigger] tracks[j])) ==> dji::metadata(tracks)
            == Some(tracks[i]),
{
    if tracks[i].fourcc@ == "djmd"@ && (forall|j: int|
        0 <= j < i ==> (#[trigger] tracks[j]).fourcc@ != "djmd"@) {
        lemma_first_djmd(tracks, i);
    }
    if (forall|j: int| 0 <= j < tracks.len() ==> (#[trigger] tracks[j]).fourcc@ != "djmd"@)
        && dji::named_meta(tracks[i]) && (forall|j: int|
        0 <= j < i ==> !dji::named_meta(#[trigger] tracks[j])) {
        lemma_no_djmd(tracks);
        lemma_first_named(tracks, i);
    }
}

/// Without a track of that format or name there is no metadata track.
pub proof fn other_tracks_are_no_metadata(tracks: Seq<Track>)
    requires
        forall|j: int|
            0 <= j < tracks.len() ==> (#[trigger] tracks[j]).fourcc@ != "djmd"@
                && !dji::named_meta(tracks[j]),
    ensures
        dji::metadata(tracks) is None,
    decreases tracks.len(),
{
    lemma_no_djmd(tracks);
    if tracks.len() > 0 {
        let rest = tracks.drop_first();
        assert forall|j: int| 0 <= j < rest.len() implies (#[trigger] rest[j]).fourcc@ != "djmd"@
            && !dji::named_meta(rest[j]) by {
            assert(rest[j] == tracks[j + 1]);
        }
        other_tracks_are_no_metadata(rest);
        lemma_no_djmd(rest);
    }
}

/// A handler names metadata exactly when one of the two names stands somewhere in
/// its name.
pub proof fn handler_names_hold_the_words(t: Track)
    ensures
        dji::named_meta(t) <==> (exists|i: int|
            0 <= i <= t.handler_name@.len() - 8 && #[trigger] t.handler_name@.subrange(i, i + 8)
                == "DJI meta"@) || (exists|i: int|
            0 <= i <= t.handler_name@.len() - 8 && #[trigger] t.handler_name@.subrange(i, i + 8)
                == "CAM meta"@),
{
    reveal_strlit("DJI meta");
    reveal_strlit("CAM meta");
    assert("DJI meta"@.len() == 8 && "CAM meta"@.len() == 8);
}

proof fn lemma_first_djmd(tracks: Seq<Track>, i: int)
    requires
        0 <= i < tracks.len(),
        tracks[i].fourcc@ == "djmd"@,
        forall|j: int| 0 <= j < i ==> (#[trigger] tracks[j]).fourcc@ != "djmd"@,
    ensures
        dji::first_djmd(tracks) == Some(tracks[i]),
    decreases i,
{
    if i > 0 {
        let rest = tracks.drop_first();
        assert(tracks[0].fourcc@ != "djmd"@);
        assert forall|j: int| 0 <= j < i - 1 implies (#[trigger] rest[j]).fourcc@ != "djmd"@ by {
            assert(rest[j] == tracks[j + 1]);
        }
        lemma_first_djmd(rest, i - 1);
    }
}

proof fn lemma_no_djmd(tracks: Seq<Track>)
    requires
        forall|j: int| 0 <= j < tracks.len() ==> (#[trigger] tracks[j]).fourcc@ != "djmd"@,
    ensures
        dji::first_djmd(tracks) is None,
    decreases tracks.len(),
{
    if tracks.len() > 0 {
        let rest = tracks.drop_first();
        assert(tracks[0].fourcc@ != "djmd"@);
        assert forall|j: int| 0 <= j < rest.len() implies (#[trigger] rest[j]).fourcc@
            != "djmd"@ by {
            assert(rest[j] == tracks[j + 1]);
        }
        lemma_no_djmd(rest);
    }
}

proof fn lemma_first_named(tracks: Seq<Track>, i: int)
    requires
        0 <= i < tracks.len(),
        dji::named_meta(tracks[i]),
        forall|j: int| 0 <= j < i ==> !dji::named_meta(#[trigger] tracks[j]),
    ensures
        dji::first_named(tracks) == Some(tracks[i]),
    decreases i,
{
    if i > 0 {
        let rest = tracks.drop_first();
        assert(!dji::named_meta(tracks[0]));
        assert forall|j: int| 0 <= j < i - 1 implies !dji::named_meta(#[trigger] rest[j]) by {
            assert(rest[j] == tracks[j + 1]);
        }
        lemma_first_named(rest, i - 1);
    }
}

/// In a GPS time, dashes between hours, minutes and seconds are read as colons, and
/// those of the date stay. One with colons stays as it is.
pub proof fn dashes_of_times_are_colons(date: Seq<char>, h: Seq<char>, m: Seq<char>, s: Seq<char>)
    requires
        date.len() == 11,
        text::free_of(h, '-'),
        text::free_of(m, '-'),
        text::free_of(s, '-'),
    ensures
        dji::with_colons(date + h + seq!['-'] + m + seq!['-'] + s) == date + h + seq![':'] + m
            + seq![':'] + s,
        dji::with_colons(date + h + seq![':'] + m + seq![':'] + s) == date + h + seq![':'] + m
            + seq![':'] + s,
{
    let a = date + h + seq!['-'] + m + seq!['-'] + s;
    let b = date + h + seq![':'] + m + seq![':'] + s;
    assert(dji::with_colons(a) =~= b);
    assert(dji::with_colons(b) =~= b);
}

/// A GPS time is read in the first of the known forms that fits: with a fraction of a
/// second, without one, with a `T`, and at last as a date alone, which is its midnight.
pub proof fn gps_times_are_read_in_order(s: Seq<char>, d: calendar::Date)
    ensures
        ({
            let a = time::chrono_datetime(s, "%Y-%m-%d %H:%M:%S%.f"@);
            let b = time::chrono_datetime(s, "%Y-%m-%d %H:%M:%S"@);
            let c = time::chrono_datetime(s, "%Y-%m-%dT%H:%M:%S%.f"@);
            let day = time::chrono_date(s, "%Y-%m-%d"@);
            let told = dji::gps_moment(s);
            &&& a is Some ==> told == time::pair_moment(a)
            &&& a is None && b is Some ==> told == time::pair_moment(b)
            &&& a is None && b is None && c is Some ==> told == time::pair_moment(c)
            &&& a is None && b is None && c is None && day is None ==> told is None
            &&& a is None && b is None && c is None ==> (day matches Some(n) ==> calendar::valid(d)
                && calendar::day_number(d) == n ==> {
                &&& told is Some
                &&& calendar::falls_on(d, told->0.secs)
                &&& told->0.secs % 86_400 == 0
                &&& told->0.nanos == 0
            })
        }),
{
    if let Some(n) = time::chrono_date(s, "%Y-%m-%d"@) {
        let secs = (n - 719_163) * 86_400;
        assert(secs / 86_400 == n - 719_163);
        assert(secs % 86_400 == 0);
    }
}

/// The metadata track is named by its format and its handler's name, or the type of
/// the handler where that has no name.
pub proof fn tracks_are_named_by_format_and_handler(t: Track)
    ensures
        t.handler_name@.len() > 0 ==> decode::track_label(t) == t.fourcc@ + seq![' ', '(']
            + t.handler_name@ + seq![')'],
        t.handler_name@.len() == 0 ==> decode::track_label(t) == t.fourcc@ + seq![' ', '(']
            + t.handler_type@ + seq![')'],
{
    reveal_strlit(" (");
    reveal_strlit(")");
    assert(" ("@ =~= seq![' ', '(']);
    assert(")"@ =~= seq![')']);
}

/// Coordinates in degrees are taken as they are, others as they were converted.
pub proof fn degrees_are_taken_as_they_are(c: decode::Coordinates, converted: Degrees)
    ensures
        c.in_degrees ==> decode::degrees_of(c, converted) == (Degrees {
            latitude: c.latitude,
            longitude: c.longitude,
        }),
        !c.in_degrees ==> decode::degrees_of(c, converted) == converted,
{
}

/// The offset of a clock is the multiple of a quarter of an hour that its distance from
/// UTC is nearest to, up to 14 hours in either direction, and none beyond.
pub proof fn offsets_are_the_nearest_quarters(minutes: int, r: i32)
    requires
        r % 15 == 0,
        -7 <= minutes - r <= 7,
    ensures
        -14 * 60 <= r <= 14 * 60 ==> decode::clock_offset(minutes) == Some(r),
        !(-14 * 60 <= r <= 14 * 60) ==> decode::clock_offset(minutes) is None,
{
    let q = r as int / 15;
    assert(r == 15 * q);
    if minutes >= 0 {
        assert((minutes + 7) / 15 == q);
    } else {
        assert((-minutes + 7) / 15 == -q);
    }
}

/// Before its samples are read a clip tells when its container was made and which track
/// is read; nothing is counted, and the start is not known.
pub proof fn clips_begin_with_their_container(movie: Movie, t: Track)
    ensures
        ({
            let f = decode::first_facts(movie, t);
            &&& f.creation_time_utc == time::moment(movie.creation_time)
            &&& f.metadata_track == Some(decode::track_label(t))
            &&& f.model is None && f.serial is None && f.firmware is None
            &&& f.proto_name is None && f.proto_version is None
            &&& f.width is None && f.height is None && f.fps is None
            &&& f.remote_name is None && f.remote_rate_hz is None
            &&& f.start_local is None && f.utc_offset_minutes is None
            &&& f.start_time_source == StartTimeSource::Unknown
            &&& f.sample_count == 0 && f.gps_fix_count == 0 && f.gps_time_count == 0
            &&& f.gps_status_counts == (0int, 0int, 0int)
        }),
{
}

/// Progress is reported at the start, after each 512 samples and at the end, and at no
/// other time.
pub proof fn progress_is_reported_now_and_then(k: int, done: int, total: int)
    requires
        0 <= k,
        0 <= done <= total,
        total > 0,
    ensures
        decode::reported(512 * k, total),
        decode::reported(total, total),
        decode::reported(done, total) && done < total && done >= 512 * k ==> done == 512 * k || done
            >= 512 * (k + 1),
        !decode::reported(done, 0),
{
}

} // verus!
