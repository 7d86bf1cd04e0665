//! Interpretation of DJI `dvtm_ac20x.proto` (Osmo Action 4/5/6) metadata samples.
//!
//! Field numbers:
//!
//! ```text
//! ProductMeta
//!   1 ClipMeta
//!     1 ClipMetaHeader   1 proto name, 2 pb lib version, 3 pb version,
//!                        5 serial, 6 firmware, 10 model
//!   2 StreamMeta
//!     3 VideoStreamMeta  1 width, 2 height, 3 fps (single precision)
//!   3 FrameMeta
//!     1 FrameMetaHeader  1 frame_seq_num, 2 frame_timestamp (µs since power-up)
//!     2 FrameMetaOfCamera
//!        3 ISO {1}   4 ExposureTime {1 rational}   6 WhiteBalanceCCT {1}
//!        9 Quaternion {1 w, 2 x, 3 y, 4 z}   10 Accelerometer {2 x, 3 y, 4 z}
//!     4 FrameMetaOfGimbal (AC004 GPS remote)
//!        1 MetaHeaderOfDevice {4 name, 5 rate}
//!        2 GpsBasic {1 PositionCoord {1 unit (0 rad, 1 deg), 2 lat, 3 lon},
//!                    2 altitude mm, 3 status (0 ok, 1 invalid, 2 RTK),
//!                    5 has_time, 6 GpsTime {1 "YYYY-MM-DD HH-MM-SS"}}
//!        3 Velocity {1 vx, 2 vy, 3 vz} m/s
//! ```

use crate::ieee::{Binary32, Binary64};
use crate::mp4::{Movie, Mp4Error, Track};
use crate::text;
use crate::time;
use crate::time::calendar;
use crate::time::{Moment, Timestamp};
use vstd::prelude::*;

pub mod decode;
pub mod laws;
pub mod round_trip;
pub mod synth;

verus! {

/// Where the start time of a clip comes from.
#[derive(Debug, Clone, Copy, PartialEq, Eq, Structural)]
pub enum StartTimeSource {
    Unknown,
    /// First GPS time string in the clip, shifted back by that sample's elapsed time.
    GpsTime,
    /// `DJI_YYYYMMDDHHMMSS_*` file name (camera local clock).
    FileName,
    /// `mvhd` creation time.
    Container,
}

impl StartTimeSource {
    /// The text of a source.
    pub open spec fn text(self) -> Seq<char> {
        match self {
            StartTimeSource::Unknown => "unknown"@,
            StartTimeSource::GpsTime => "GPS time"@,
            StartTimeSource::FileName => "file name (camera clock)"@,
            StartTimeSource::Container => "MP4 creation time"@,
        }
    }

    /// The source in words.
    pub fn label(self) -> (r: &'static str)
        ensures
            r@ == self.text(),
    {
        match self {
            StartTimeSource::Unknown => "unknown",
            StartTimeSource::GpsTime => "GPS time",
            StartTimeSource::FileName => "file name (camera clock)",
            StartTimeSource::Container => "MP4 creation time",
        }
    }
}

impl Default for StartTimeSource {
    fn default() -> (r: Self)
        ensures
            r == StartTimeSource::Unknown,
    {
        StartTimeSource::Unknown
    }
}

/// The time of a sample since the first one.
#[derive(Debug, Clone, Copy, PartialEq, Eq, Structural)]
pub enum SampleTime {
    /// Microseconds on the camera's clock, and those of the first sample.
    Frame { at: u64, base: u64 },
    /// The time of the sample with this number on the container's timeline; its
    /// number in seconds when the timeline does not reach it.
    Track { index: usize },
}

/// Clip-level facts collected from the stream.
#[derive(Debug, Clone)]
pub struct ClipInfo {
    pub proto_name: Option<String>,
    pub proto_version: Option<String>,
    pub model: Option<String>,
    pub serial: Option<String>,
    pub firmware: Option<String>,
    pub width: Option<u32>,
    pub height: Option<u32>,
    pub fps: Option<Binary32>,
    /// Name of the GPS remote / gimbal device, e.g. `DJI AC004`.
    pub remote_name: Option<String>,
    /// Advertised remote sample rate in Hz.
    pub remote_rate_hz: Option<Binary32>,
    /// Camera clock at recording start (naive local time).
    pub start_local: Option<Timestamp>,
    pub start_time_source: StartTimeSource,
    /// `mvhd` creation time (UTC) when present.
    pub creation_time_utc: Option<Timestamp>,
    /// Camera clock offset from UTC, derived from `start_local - creation_time_utc`
    /// and rounded to 15 minutes. `None` when either side is unknown.
    pub utc_offset_minutes: Option<i32>,
    pub metadata_track: Option<String>,
    pub sample_count: usize,
    /// Time of the last sample.
    pub duration: SampleTime,
    pub gps_fix_count: usize,
    /// Number of samples with `GpsBasic.gps_status` 0 (ok), 1 (invalid), 2 (RTK) and above.
    pub gps_status_counts: [usize; 3],
    /// Number of samples that carried a GPS time string.
    pub gps_time_count: usize,
}

/// Clip-level facts as a mathematical object.
pub struct ClipFacts {
    pub proto_name: Option<Seq<char>>,
    pub proto_version: Option<Seq<char>>,
    pub model: Option<Seq<char>>,
    pub serial: Option<Seq<char>>,
    pub firmware: Option<Seq<char>>,
    pub width: Option<u32>,
    pub height: Option<u32>,
    pub fps: Option<Binary32>,
    pub remote_name: Option<Seq<char>>,
    pub remote_rate_hz: Option<Binary32>,
    pub start_local: Option<Moment>,
    pub start_time_source: StartTimeSource,
    pub creation_time_utc: Option<Moment>,
    pub utc_offset_minutes: Option<i32>,
    pub metadata_track: Option<Seq<char>>,
    pub sample_count: int,
    pub duration: SampleTime,
    pub gps_fix_count: int,
    pub gps_status_counts: (int, int, int),
    pub gps_time_count: int,
}

/// The characters of an optional text.
pub open spec fn chars(t: Option<String>) -> Option<Seq<char>> {
    match t {
        Some(t) => Some(t@),
        None => None,
    }
}

impl View for ClipInfo {
    type V = ClipFacts;

    open spec fn view(&self) -> ClipFacts {
        ClipFacts {
            proto_name: chars(self.proto_name),
            proto_version: chars(self.proto_version),
            model: chars(self.model),
            serial: chars(self.serial),
            firmware: chars(self.firmware),
            width: self.width,
            height: self.height,
            fps: self.fps,
            remote_name: chars(self.remote_name),
            remote_rate_hz: self.remote_rate_hz,
            start_local: time::moment(self.start_local),
            start_time_source: self.start_time_source,
            creation_time_utc: time::moment(self.creation_time_utc),
            utc_offset_minutes: self.utc_offset_minutes,
            metadata_track: chars(self.metadata_track),
            sample_count: self.sample_count as int,
            duration: self.duration,
            gps_fix_count: self.gps_fix_count as int,
            gps_status_counts: (
                self.gps_status_counts@[0] as int,
                self.gps_status_counts@[1] as int,
                self.gps_status_counts@[2] as int,
            ),
            gps_time_count: self.gps_time_count as int,
        }
    }
}

/// The facts before any sample is read.
pub open spec fn no_facts() -> ClipFacts {
    ClipFacts {
        proto_name: None,
        proto_version: None,
        model: None,
        serial: None,
        firmware: None,
        width: None,
        height: None,
        fps: None,
        remote_name: None,
        remote_rate_hz: None,
        start_local: None,
        start_time_source: StartTimeSource::Unknown,
        creation_time_utc: None,
        utc_offset_minutes: None,
        metadata_track: None,
        sample_count: 0,
        duration: SampleTime::Frame { at: 0, base: 0 },
        gps_fix_count: 0,
        gps_status_counts: (0, 0, 0),
        gps_time_count: 0,
    }
}

impl Default for ClipInfo {
    fn default() -> (r: Self)
        ensures
            r@ == no_facts(),
    {
        ClipInfo {
            proto_name: None,
            proto_version: None,
            model: None,
            serial: None,
            firmware: None,
            width: None,
            height: None,
            fps: None,
            remote_name: None,
            remote_rate_hz: None,
            start_local: None,
            start_time_source: StartTimeSource::Unknown,
            creation_time_utc: None,
            utc_offset_minutes: None,
            metadata_track: None,
            sample_count: 0,
            duration: SampleTime::Frame { at: 0, base: 0 },
            gps_fix_count: 0,
            gps_status_counts: [0, 0, 0],
            gps_time_count: 0,
        }
    }
}

/// The start in UTC of a clip: its local start less the offset of the camera's
/// clock.
pub open spec fn utc_start(info: ClipFacts) -> Option<Moment> {
    match (info.start_local, info.utc_offset_minutes) {
        (Some(start), Some(offset)) => time::shifted(start, -(offset * 60_000_000_000)),
        _ => None,
    }
}

impl ClipInfo {
    /// Recording start in UTC when the camera's UTC offset is known, unless the
    /// offset leads out of the range of dates.
    pub fn start_utc(&self) -> (r: Option<Timestamp>)
        ensures
            time::moment(r) == utc_start(self@),
    {
        match (self.start_local, self.utc_offset_minutes) {
            (Some(start), Some(offset)) => start.minus_minutes(offset),
            _ => None,
        }
    }
}

/// Three single-precision components.
#[derive(Debug, Clone, Copy, PartialEq, Eq, Structural)]
pub struct Vector {
    pub x: Binary32,
    pub y: Binary32,
    pub z: Binary32,
}

/// An attitude quaternion.
#[derive(Debug, Clone, Copy, PartialEq, Eq, Structural)]
pub struct Quaternion {
    pub w: Binary32,
    pub x: Binary32,
    pub y: Binary32,
    pub z: Binary32,
}

/// A GPS position.
#[derive(Debug, Clone, Copy, PartialEq, Eq)]
pub struct GpsFix {
    /// In degrees.
    pub latitude: Binary64,
    /// In degrees.
    pub longitude: Binary64,
    pub altitude_mm: Option<i64>,
    /// 0 normal, 2 RTK (status 1 = invalid never produces a fix).
    pub status: u64,
    /// Velocity in m/s when the remote reports it.
    pub velocity: Option<Vector>,
    /// GPS time as written by the camera.
    pub time: Option<Timestamp>,
}

/// A GPS position as a mathematical object.
pub struct FixFacts {
    pub latitude: Binary64,
    pub longitude: Binary64,
    pub altitude_mm: Option<i64>,
    pub status: u64,
    pub velocity: Option<Vector>,
    pub time: Option<Moment>,
}

impl View for GpsFix {
    type V = FixFacts;

    open spec fn view(&self) -> FixFacts {
        FixFacts {
            latitude: self.latitude,
            longitude: self.longitude,
            altitude_mm: self.altitude_mm,
            status: self.status,
            velocity: self.velocity,
            time: time::moment(self.time),
        }
    }
}

/// The facts of an optional position.
pub open spec fn fix_view(f: Option<GpsFix>) -> Option<FixFacts> {
    match f {
        Some(f) => Some(f@),
        None => None,
    }
}

/// One interpreted metadata sample.
#[derive(Debug, Clone, Copy, PartialEq, Eq)]
pub struct Sample {
    /// Time since the first sample (from `frame_timestamp`, else the container timeline).
    pub time: SampleTime,
    pub frame: u64,
    /// Raw accelerometer in device units (g on Osmo Action 5 Pro).
    pub acc: Option<Vector>,
    /// Attitude quaternion.
    pub quat: Option<Quaternion>,
    pub iso: Option<Binary32>,
    pub shutter: Option<(u64, u64)>,
    pub color_temperature: Option<u32>,
    pub gps: Option<GpsFix>,
}

/// A sample as a mathematical object.
pub struct SampleFacts {
    pub time: SampleTime,
    pub frame: u64,
    pub acc: Option<Vector>,
    pub quat: Option<Quaternion>,
    pub iso: Option<Binary32>,
    pub shutter: Option<(u64, u64)>,
    pub color_temperature: Option<u32>,
    pub gps: Option<FixFacts>,
}

impl View for Sample {
    type V = SampleFacts;

    open spec fn view(&self) -> SampleFacts {
        SampleFacts {
            time: self.time,
            frame: self.frame,
            acc: self.acc,
            quat: self.quat,
            iso: self.iso,
            shutter: self.shutter,
            color_temperature: self.color_temperature,
            gps: fix_view(self.gps),
        }
    }
}

/// The views of a sequence of samples.
pub open spec fn sample_facts(v: Seq<Sample>) -> Seq<SampleFacts> {
    v.map_values(|s: Sample| s@)
}

/// A clip: its facts and its samples.
#[derive(Debug)]
pub struct Clip {
    pub info: ClipInfo,
    pub samples: Vec<Sample>,
}

/// Why a clip could not be read.
#[derive(Debug, Clone, Copy)]
pub enum DjiError {
    Mp4(Mp4Error),
    NoMetadataTrack,
    NoSamples,
}

impl DjiError {
    /// The text of an error.
    pub open spec fn text(self) -> Seq<char> {
        match self {
            DjiError::Mp4(e) => e.text(),
            DjiError::NoMetadataTrack =>
                "no DJI metadata track (`djmd` / handler `DJI meta`) found in this file"@,
            DjiError::NoSamples => "the metadata track has no usable samples"@,
        }
    }

    /// The error in words.
    pub fn message(&self) -> (r: String)
        ensures
            r@ == self.text(),
    {
        match *self {
            DjiError::Mp4(e) => e.message(),
            DjiError::NoMetadataTrack => String::from_str(
                "no DJI metadata track (`djmd` / handler `DJI meta`) found in this file",
            ),
            DjiError::NoSamples => String::from_str("the metadata track has no usable samples"),
        }
    }
}

/// Whether a track is DJI metadata by its format.
pub open spec fn is_djmd(t: Track) -> bool {
    t.fourcc@ == "djmd"@
}

/// Whether a track is DJI metadata by its handler name.
pub open spec fn named_meta(t: Track) -> bool {
    text::occurs(t.handler_name@, "DJI meta"@) || text::occurs(t.handler_name@, "CAM meta"@)
}

/// The first track that is DJI metadata by its format.
pub open spec fn first_djmd(tracks: Seq<Track>) -> Option<Track>
    decreases tracks.len(),
{
    if tracks.len() == 0 {
        None
    } else if is_djmd(tracks.first()) {
        Some(tracks.first())
    } else {
        first_djmd(tracks.drop_first())
    }
}

/// The first track that is DJI metadata by its handler name.
pub open spec fn first_named(tracks: Seq<Track>) -> Option<Track>
    decreases tracks.len(),
{
    if tracks.len() == 0 {
        None
    } else if named_meta(tracks.first()) {
        Some(tracks.first())
    } else {
        first_named(tracks.drop_first())
    }
}

/// The metadata track: the first one by format, or without one the first by
/// name.
pub open spec fn metadata(tracks: Seq<Track>) -> Option<Track> {
    match first_djmd(tracks) {
        Some(t) => Some(t),
        None => first_named(tracks),
    }
}

/// Locates the DJI timed-metadata track.
pub fn find_metadata_track(movie: &Movie) -> (r: Option<&Track>)
    ensures
        match r {
            Some(t) => metadata(movie.tracks@) == Some(*t),
            None => metadata(movie.tracks@) is None,
        },
{
    let ghost tracks = movie.tracks@;
    let mut i: usize = 0;
    assert(tracks.skip(0) =~= tracks);
    while i < movie.tracks.len()
        invariant
            i <= movie.tracks@.len(),
            tracks == movie.tracks@,
            first_djmd(tracks) == first_djmd(tracks.skip(i as int)),
        decreases movie.tracks@.len() - i,
    {
        assert(tracks.skip(i as int).drop_first() =~= tracks.skip(i + 1));
        if text::str_eq(movie.tracks[i].fourcc.as_str(), "djmd") {
            return Some(&movie.tracks[i]);
        }
        i = i + 1;
    }
    assert(first_djmd(tracks) is None);
    let mut i: usize = 0;
    while i < movie.tracks.len()
        invariant
            i <= movie.tracks@.len(),
            tracks == movie.tracks@,
            first_djmd(tracks) is None,
            first_named(tracks) == first_named(tracks.skip(i as int)),
        decreases movie.tracks@.len() - i,
    {
        assert(tracks.skip(i as int).drop_first() =~= tracks.skip(i + 1));
        let name: &str = movie.tracks[i].handler_name.as_str();
        if text::contains(name, "DJI meta") || text::contains(name, "CAM meta") {
            return Some(&movie.tracks[i]);
        }
        i = i + 1;
    }
    None
}

/// Whether all characters are ASCII digits.
pub open spec fn all_digits(s: Seq<char>) -> bool {
    forall|i: int| 0 <= i < s.len() ==> '0' <= #[trigger] s[i] && s[i] <= '9'
}

/// The fourteen digits of a name like `DJI_YYYYMMDDHHMMSS_NNNN_X.MP4`.
pub open spec fn name_digits(name: Seq<char>) -> Option<Seq<char>> {
    let stem = text::base_name(name);
    if stem.len() >= 18 && stem.take(4) == "DJI_"@ && all_digits(stem.subrange(4, 18)) {
        Some(stem.subrange(4, 18))
    } else {
        None
    }
}

/// The moment in a text of a date and a time in the given format.
pub open spec fn read_moment(text: Seq<char>, format: Seq<char>) -> Option<Moment> {
    time::pair_moment(time::chrono_datetime(text, format))
}

/// The moment in a file name: that of its fourteen digits.
pub open spec fn name_moment(name: Seq<char>) -> Option<Moment> {
    match name_digits(name) {
        Some(digits) => calendar::compact_moment(digits),
        None => None,
    }
}

/// Parses the `DJI_YYYYMMDDHHMMSS_NNNN_X.MP4` naming scheme.
pub fn parse_filename_time(name: &str) -> (r: Option<Timestamp>)
    ensures
        time::moment(r) == name_moment(name@),
{
    match filename_digits(name) {
        Some(digits) => Timestamp::parse(digits.as_str(), "%Y%m%d%H%M%S"),
        None => None,
    }
}

/// The digits of the time in a file name.
pub fn filename_digits(name: &str) -> (r: Option<String>)
    ensures
        match r {
            Some(d) => name_digits(name@) == Some(d@),
            None => name_digits(name@) is None,
        },
{
    let all: Vec<char> = text::chars_of(name);
    let stem: &[char] = text::base_of(all.as_slice());
    if stem.len() < 18 {
        return None;
    }
    let prefix: &[char] = vstd::slice::slice_subrange(stem, 0, 4);
    assert(prefix@ =~= stem@.take(4));
    if !text::is(prefix, "DJI_") {
        return None;
    }
    let digits: &[char] = vstd::slice::slice_subrange(stem, 4, 18);
    let mut i: usize = 0;
    while i < 14
        invariant
            i <= 14,
            digits@.len() == 14,
            digits@ == stem@.subrange(4, 18),
            stem@ == text::base_name(name@),
            forall|j: int| 0 <= j < i ==> '0' <= #[trigger] digits@[j] && digits@[j] <= '9',
        decreases 14 - i,
    {
        if digits[i] < '0' || digits[i] > '9' {
            assert(!('0' <= digits@[i as int] && digits@[i as int] <= '9'));
            assert(!all_digits(digits@));
            return None;
        }
        i = i + 1;
    }
    Some(text::text_of(digits))
}

/// A GPS time with colons between its hours, minutes and seconds.
pub open spec fn with_colons(s: Seq<char>) -> Seq<char> {
    Seq::new(
        s.len(),
        |i: int|
            if i >= 11 && s[i] == '-' {
                ':'
            } else {
                s[i]
            },
    )
}

/// Writes colons between the hours, minutes and seconds of a GPS time.
pub fn normalized(s: &str) -> (r: String)
    ensures
        r@ == with_colons(text::trimmed(s@)),
{
    let all: Vec<char> = text::chars_of(s);
    let t: &[char] = text::trim(all.as_slice());
    let mut out: String = String::new();
    let mut i: usize = 0;
    while i < t.len()
        invariant
            i <= t@.len(),
            out@ == with_colons(t@).take(i as int),
        decreases t@.len() - i,
    {
        if i >= 11 && t[i] == '-' {
            out.push(':');
        } else {
            out.push(t[i]);
        }
        i = i + 1;
        assert(out@ =~= with_colons(t@).take(i as int));
    }
    assert(out@ =~= with_colons(t@));
    out
}

/// The moment in a normalized GPS time: in the first format that fits, the last
/// of which is a date alone.
pub open spec fn gps_moment(s: Seq<char>) -> Option<Moment> {
    match read_moment(s, "%Y-%m-%d %H:%M:%S%.f"@) {
        Some(m) => Some(m),
        None => match read_moment(s, "%Y-%m-%d %H:%M:%S"@) {
            Some(m) => Some(m),
            None => match read_moment(s, "%Y-%m-%dT%H:%M:%S%.f"@) {
                Some(m) => Some(m),
                None => match time::chrono_date(s, "%Y-%m-%d"@) {
                    Some(days) => Some(Moment { secs: (days - 719_163) * 86_400, nanos: 0 }),
                    None => None,
                },
            },
        },
    }
}

/// DJI writes GPS time as `YYYY-MM-DD HH-MM-SS` (sometimes with `:`).
pub fn parse_gps_time(text: &str) -> (r: Option<Timestamp>)
    ensures
        time::moment(r) == gps_moment(with_colons(text::trimmed(text@))),
        ({
            let s = with_colons(text::trimmed(text@));
            calendar::spaced(s) && calendar::spaced_moment(s) is Some ==> time::moment(r)
                == calendar::spaced_moment(s)
        }),
{
    let s: String = normalized(text);
    if let Some(t) = Timestamp::parse(s.as_str(), "%Y-%m-%d %H:%M:%S%.f") {
        return Some(t);
    }
    if let Some(t) = Timestamp::parse(s.as_str(), "%Y-%m-%d %H:%M:%S") {
        return Some(t);
    }
    if let Some(t) = Timestamp::parse(s.as_str(), "%Y-%m-%dT%H:%M:%S%.f") {
        return Some(t);
    }
    Timestamp::parse_midnight(s.as_str(), "%Y-%m-%d")
}

} // verus!
