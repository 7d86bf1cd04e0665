//! From raw camera samples to vehicle-frame telemetry rows: the decisions.
//!
//! * accelerometer unit from the resting magnitude
//! * gravity removal method and its fallback
//! * body-axis to lateral / longitudinal / vertical mapping with sign flips
//! * where speed and heading of a row come from
//! * a timeline that never goes back, and decimation to a lower export rate
//!
//! Numbers that are computed in floating point are handed in.

use crate::dji::{ClipFacts, ClipInfo, Sample, Vector};
use crate::ieee;
use crate::ieee::{Binary32, Binary64};
use crate::text;
use crate::time;
use crate::time::{Moment, Timestamp};
use vstd::prelude::*;
use vstd::slice::slice_subrange;
use vstd::utf8::encode_utf8;

pub mod laws;

verus! {

/// The unit of the accelerometer.
#[derive(Debug, Clone, Copy, PartialEq, Eq, Structural)]
pub enum AccelUnit {
    G,
    MetersPerSecondSquared,
    MilliG,
    Unknown,
}

impl Default for AccelUnit {
    fn default() -> (r: Self)
        ensures
            r == AccelUnit::G,
    {
        AccelUnit::G
    }
}

impl AccelUnit {
    /// The factor that leads to g: 1, 1/9.80665 or 1/1000, rounded.
    pub open spec fn scale(self) -> Binary64 {
        Binary64 {
            bits: match self {
                AccelUnit::G => 0x3ff0_0000_0000_0000,
                AccelUnit::Unknown => 0x3ff0_0000_0000_0000,
                AccelUnit::MetersPerSecondSquared => 0x3fba_1acf_ea98_1812,
                AccelUnit::MilliG => 0x3f50_624d_d2f1_a9fc,
            },
        }
    }

    /// The factor that leads to g.
    pub fn scale_to_g(self) -> (r: Binary64)
        ensures
            r == self.scale(),
    {
        match self {
            AccelUnit::G | AccelUnit::Unknown => Binary64 { bits: 0x3ff0_0000_0000_0000 },
            AccelUnit::MetersPerSecondSquared => Binary64 { bits: 0x3fba_1acf_ea98_1812 },
            AccelUnit::MilliG => Binary64 { bits: 0x3f50_624d_d2f1_a9fc },
        }
    }

    /// The text of a unit.
    pub open spec fn text(self) -> Seq<char> {
        match self {
            AccelUnit::G => "g"@,
            AccelUnit::MetersPerSecondSquared => "m/s²"@,
            AccelUnit::MilliG => "mg"@,
            AccelUnit::Unknown => "unknown (assuming g)"@,
        }
    }

    /// The unit in words.
    pub fn label(self) -> (r: &'static str)
        ensures
            r@ == self.text(),
    {
        match self {
            AccelUnit::G => "g",
            AccelUnit::MetersPerSecondSquared => "m/s²",
            AccelUnit::MilliG => "mg",
            AccelUnit::Unknown => "unknown (assuming g)",
        }
    }
}

/// Whether `v` lies from `low` to `high`, given by their bit patterns.
pub open spec fn between(v: Binary64, low: u64, high: u64) -> bool {
    (Binary64 { bits: low }).at_most(v) && v.at_most(Binary64 { bits: high })
}

fn is_between(v: Binary64, low: u64, high: u64) -> (r: bool)
    ensures
        r == between(v, low, high),
{
    let low: Binary64 = Binary64 { bits: low };
    let high: Binary64 = Binary64 { bits: high };
    low.le(v) && v.le(high)
}

/// The unit for a resting magnitude: g from 0.5 to 3, m/s² from 5 to 30, mg
/// from 500 to 3000.
pub open spec fn unit_for(m: Binary64) -> AccelUnit {
    if between(m, 0x3fe0_0000_0000_0000, 0x4008_0000_0000_0000) {
        AccelUnit::G
    } else if between(m, 0x4014_0000_0000_0000, 0x403e_0000_0000_0000) {
        AccelUnit::MetersPerSecondSquared
    } else if between(m, 0x407f_4000_0000_0000, 0x40a7_7000_0000_0000) {
        AccelUnit::MilliG
    } else {
        AccelUnit::Unknown
    }
}

/// Infers the accelerometer unit from the median of the magnitudes (about 1 g
/// at rest, about 1.5 g in a vibrating kart); unknown and 0 without any.
pub fn detect_accel_unit(magnitudes: &[Binary64]) -> (r: (AccelUnit, Binary64))
    ensures
        r == match ieee::middle(magnitudes@) {
            Some(m) => (unit_for(m), m),
            None => (AccelUnit::Unknown, Binary64 { bits: 0 }),
        },
{
    let m: Binary64 = match ieee::median(magnitudes) {
        Some(m) => m,
        None => {
            return (AccelUnit::Unknown, Binary64 { bits: 0 });
        },
    };
    let unit: AccelUnit = if is_between(m, 0x3fe0_0000_0000_0000, 0x4008_0000_0000_0000) {
        AccelUnit::G
    } else if is_between(m, 0x4014_0000_0000_0000, 0x403e_0000_0000_0000) {
        AccelUnit::MetersPerSecondSquared
    } else if is_between(m, 0x407f_4000_0000_0000, 0x40a7_7000_0000_0000) {
        AccelUnit::MilliG
    } else {
        AccelUnit::Unknown
    };
    (unit, m)
}

/// How gravity is removed.
#[derive(Debug, Clone, Copy, PartialEq, Eq, Structural)]
pub enum GravityMode {
    /// Rotate into the world frame with the attitude quaternion, subtract the median
    /// (which is gravity), rotate back. Keeps sustained acceleration.
    Quaternion,
    /// Subtract a centred moving average.
    HighPass,
    /// Leave gravity in.
    Keep,
}

impl Default for GravityMode {
    fn default() -> (r: Self)
        ensures
            r == GravityMode::Quaternion,
    {
        GravityMode::Quaternion
    }
}

impl GravityMode {
    /// All modes.
    pub const ALL: [GravityMode; 3] = [
        GravityMode::Quaternion,
        GravityMode::HighPass,
        GravityMode::Keep,
    ];

    /// The label of a mode.
    pub open spec fn label_text(self) -> Seq<char> {
        match self {
            GravityMode::Quaternion => "Attitude quaternion (recommended)"@,
            GravityMode::HighPass => "High-pass (moving average)"@,
            GravityMode::Keep => "Keep gravity"@,
        }
    }

    /// The mode in words.
    pub fn label(self) -> (r: &'static str)
        ensures
            r@ == self.label_text(),
    {
        match self {
            GravityMode::Quaternion => "Attitude quaternion (recommended)",
            GravityMode::HighPass => "High-pass (moving average)",
            GravityMode::Keep => "Keep gravity",
        }
    }

    /// The name of a mode on the command line.
    pub open spec fn name(self) -> Seq<char> {
        match self {
            GravityMode::Quaternion => "quat"@,
            GravityMode::HighPass => "highpass"@,
            GravityMode::Keep => "none"@,
        }
    }

    /// The name on the command line.
    pub fn cli_name(self) -> (r: &'static str)
        ensures
            r@ == self.name(),
    {
        match self {
            GravityMode::Quaternion => "quat",
            GravityMode::HighPass => "highpass",
            GravityMode::Keep => "none",
        }
    }

    /// The mode with a name in lower case.
    pub open spec fn named(s: Seq<char>) -> Option<GravityMode> {
        if s == "quat"@ || s == "quaternion"@ {
            Some(GravityMode::Quaternion)
        } else if s == "highpass"@ || s == "high-pass"@ || s == "hp"@ {
            Some(GravityMode::HighPass)
        } else if s == "none"@ || s == "keep"@ {
            Some(GravityMode::Keep)
        } else {
            None
        }
    }

    /// Reads a mode, in upper or lower case.
    pub fn parse(s: &str) -> (r: Option<Self>)
        ensures
            r == Self::named(text::lowered(s@)),
    {
        let c: Vec<char> = text::chars_of(s);
        let c: Vec<char> = text::to_lower(c.as_slice());
        let c: &[char] = c.as_slice();
        if text::is(c, "quat") || text::is(c, "quaternion") {
            Some(GravityMode::Quaternion)
        } else if text::is(c, "highpass") || text::is(c, "high-pass") || text::is(c, "hp") {
            Some(GravityMode::HighPass)
        } else if text::is(c, "none") || text::is(c, "keep") {
            Some(GravityMode::Keep)
        } else {
            None
        }
    }
}

/// The names of the modes are read as the modes.
pub proof fn gravity_names_parse(m: GravityMode)
    ensures
        GravityMode::named(text::lowered(m.name())) == Some(m),
{
    reveal_strlit("quat");
    reveal_strlit("quaternion");
    reveal_strlit("highpass");
    reveal_strlit("high-pass");
    reveal_strlit("hp");
    reveal_strlit("none");
    reveal_strlit("keep");
    assert(text::lowered(m.name()) =~= m.name());
    assert("none"@[0] == 'n' && "quat"@[0] == 'q' && "highpass"@[0] == 'h' && "hp"@[0] == 'h'
        && "high-pass"@[0] == 'h' && "quaternion"@[0] == 'q');
}

/// A body axis.
#[derive(Debug, Clone, Copy, PartialEq, Eq, Structural)]
pub enum Axis {
    X,
    Y,
    Z,
}

impl Default for Axis {
    fn default() -> (r: Self)
        ensures
            r == Axis::X,
    {
        Axis::X
    }
}

impl Axis {
    /// All axes.
    pub const ALL: [Axis; 3] = [Axis::X, Axis::Y, Axis::Z];

    /// The number of an axis.
    pub open spec fn number(self) -> int {
        match self {
            Axis::X => 0,
            Axis::Y => 1,
            Axis::Z => 2,
        }
    }

    /// The number of the axis.
    pub fn index(self) -> (r: usize)
        ensures
            r == self.number(),
    {
        match self {
            Axis::X => 0,
            Axis::Y => 1,
            Axis::Z => 2,
        }
    }

    /// The name of an axis.
    pub open spec fn text(self) -> Seq<char> {
        match self {
            Axis::X => "X"@,
            Axis::Y => "Y"@,
            Axis::Z => "Z"@,
        }
    }

    /// The name of the axis.
    pub fn label(self) -> (r: &'static str)
        ensures
            r@ == self.text(),
    {
        match self {
            Axis::X => "X",
            Axis::Y => "Y",
            Axis::Z => "Z",
        }
    }

    /// The axis with a name in lower case.
    pub open spec fn named(s: Seq<char>) -> Option<Axis> {
        if s == "x"@ {
            Some(Axis::X)
        } else if s == "y"@ {
            Some(Axis::Y)
        } else if s == "z"@ {
            Some(Axis::Z)
        } else {
            None
        }
    }

    /// The axis in a text, in upper or lower case and with white space around it.
    pub open spec fn read(s: Seq<char>) -> Option<Axis> {
        Self::named(text::lowered(text::trimmed(s)))
    }

    fn parse_chars(s: &[char]) -> (r: Option<Self>)
        ensures
            r == Self::read(s@),
    {
        let c: Vec<char> = text::to_lower(text::trim(s));
        let c: &[char] = c.as_slice();
        if text::is(c, "x") {
            Some(Axis::X)
        } else if text::is(c, "y") {
            Some(Axis::Y)
        } else if text::is(c, "z") {
            Some(Axis::Z)
        } else {
            None
        }
    }

    /// Reads an axis.
    pub fn parse(s: &str) -> (r: Option<Self>)
        ensures
            r == Self::read(s@),
    {
        let c: Vec<char> = text::chars_of(s);
        Self::parse_chars(c.as_slice())
    }
}

/// Which body axis feeds each vehicle axis, plus sign flips.
#[derive(Debug, Clone, Copy, PartialEq, Eq, Structural)]
pub struct AxisMap {
    pub lateral: Axis,
    pub longitudinal: Axis,
    pub vertical: Axis,
    pub invert_lateral: bool,
    pub invert_longitudinal: bool,
    pub invert_vertical: bool,
}

/// X across, Y along and Z up, without sign flips.
pub open spec fn plain_map() -> AxisMap {
    AxisMap {
        lateral: Axis::X,
        longitudinal: Axis::Y,
        vertical: Axis::Z,
        invert_lateral: false,
        invert_longitudinal: false,
        invert_vertical: false,
    }
}

impl Default for AxisMap {
    fn default() -> (r: Self)
        ensures
            r == plain_map(),
    {
        AxisMap {
            lateral: Axis::X,
            longitudinal: Axis::Y,
            vertical: Axis::Z,
            invert_lateral: false,
            invert_longitudinal: false,
            invert_vertical: false,
        }
    }
}

/// The axis map after one part like `lateral=x` of a description; an error text
/// when the part cannot be understood. Blank parts change nothing.
pub open spec fn with_part(map: AxisMap, part: Seq<char>) -> Result<AxisMap, Seq<char>> {
    let at = text::first_of(part, '=') as int;
    if text::trimmed(part).len() == 0 {
        Ok(map)
    } else if at >= part.len() {
        Err("invalid axis spec '"@ + part + "', expected key=axis"@)
    } else {
        let key = text::lowered(text::trimmed(part.take(at)));
        let value = part.skip(at + 1);
        match Axis::read(value) {
            None => Err("unknown axis '"@ + value + "'"@),
            Some(axis) => if key == "lateral"@ || key == "lat"@ {
                Ok(AxisMap { lateral: axis, ..map })
            } else if key == "longitudinal"@ || key == "lon"@ || key == "long"@ {
                Ok(AxisMap { longitudinal: axis, ..map })
            } else if key == "vertical"@ || key == "vert"@ || key == "ver"@ {
                Ok(AxisMap { vertical: axis, ..map })
            } else {
                Err("unknown vehicle axis '"@ + key + "'"@)
            },
        }
    }
}

/// The axis map after all parts of a description.
pub open spec fn with_parts(parts: Seq<Seq<char>>) -> Result<AxisMap, Seq<char>>
    decreases parts.len(),
{
    if parts.len() == 0 {
        Ok(plain_map())
    } else {
        match with_parts(parts.drop_last()) {
            Err(e) => Err(e),
            Ok(map) => with_part(map, parts.last()),
        }
    }
}

/// The axis map of three letters.
pub open spec fn of_letters(s: Seq<char>) -> Result<AxisMap, Seq<char>> {
    if s.len() == 3 {
        match (Axis::read(seq![s[0]]), Axis::read(seq![s[1]]), Axis::read(seq![s[2]])) {
            (Some(lateral), Some(longitudinal), Some(vertical)) => Ok(
                AxisMap { lateral, longitudinal, vertical, ..plain_map() },
            ),
            _ => Err("invalid axis spec '"@ + s + "'"@),
        }
    } else {
        Err("invalid axis spec '"@ + s + "'"@)
    }
}

/// Whether each body axis feeds one vehicle axis.
pub open spec fn permutes(map: AxisMap) -> bool {
    map.lateral != map.longitudinal && map.longitudinal != map.vertical && map.vertical
        != map.lateral
}

/// The axis map of a description without white space around it: three letters
/// in three bytes without `=`, or parts between commas.
pub open spec fn map_of(s: Seq<char>) -> Result<AxisMap, Seq<char>> {
    let map = if encode_utf8(s).len() == 3 && text::first_of(s, '=') == s.len() {
        of_letters(s)
    } else {
        with_parts(text::parts(s, ','))
    };
    match map {
        Err(e) => Err(e),
        Ok(map) => if permutes(map) {
            Ok(map)
        } else {
            Err("axis mapping must use each of X, Y, Z exactly once"@)
        },
    }
}

fn message3(a: &str, b: &str, c: &str) -> (r: String)
    ensures
        r@ == a@ + b@ + c@,
{
    let mut out: String = String::from_str(a);
    out.append(b);
    out.append(c);
    out
}

impl AxisMap {
    /// Whether each body axis feeds one vehicle axis.
    pub fn is_permutation(&self) -> (r: bool)
        ensures
            r == permutes(*self),
    {
        self.lateral != self.longitudinal && self.longitudinal != self.vertical && self.vertical
            != self.lateral
    }

    fn parse_part(self, part: &[char]) -> (r: Result<Self, String>)
        ensures
            match r {
                Ok(map) => with_part(self, part@) == Ok::<AxisMap, Seq<char>>(map),
                Err(e) => with_part(self, part@) == Err::<AxisMap, Seq<char>>(e@),
            },
    {
        if text::trim(part).len() == 0 {
            return Ok(self);
        }
        let at: usize = text::find_first(part, '=');
        if at >= part.len() {
            let p: String = text::text_of(part);
            return Err(message3("invalid axis spec '", p.as_str(), "', expected key=axis"));
        }
        let key: &[char] = slice_subrange(part, 0, at);
        assert(key@ =~= part@.take(at as int));
        let value: &[char] = slice_subrange(part, at + 1, part.len());
        assert(value@ =~= part@.skip(at + 1));
        let axis: Axis = match Axis::parse_chars(value) {
            Some(a) => a,
            None => {
                let v: String = text::text_of(value);
                return Err(message3("unknown axis '", v.as_str(), "'"));
            },
        };
        let key: Vec<char> = text::to_lower(text::trim(key));
        let key: &[char] = key.as_slice();
        let mut map: AxisMap = self;
        if text::is(key, "lateral") || text::is(key, "lat") {
            map.lateral = axis;
        } else if text::is(key, "longitudinal") || text::is(key, "lon") || text::is(key, "long") {
            map.longitudinal = axis;
        } else if text::is(key, "vertical") || text::is(key, "vert") || text::is(key, "ver") {
            map.vertical = axis;
        } else {
            let k: String = text::text_of(key);
            return Err(message3("unknown vehicle axis '", k.as_str(), "'"));
        }
        Ok(map)
    }

    fn parse_parts(s: &[char]) -> (r: Result<Self, String>)
        ensures
            match r {
                Ok(map) => with_parts(text::parts(s@, ',')) == Ok::<AxisMap, Seq<char>>(map),
                Err(e) => with_parts(text::parts(s@, ',')) == Err::<AxisMap, Seq<char>>(e@),
            },
    {
        let parts: Vec<Vec<char>> = text::split(s, ',');
        let ghost all = text::views(parts@);
        let mut map: AxisMap = AxisMap::default();
        let mut i: usize = 0;
        while i < parts.len()
            invariant
                i <= parts@.len(),
                all == text::views(parts@),
                all == text::parts(s@, ','),
                with_parts(all.take(i as int)) == Ok::<AxisMap, Seq<char>>(map),
            decreases parts@.len() - i,
        {
            proof {
                assert(all.take(i + 1).drop_last() =~= all.take(i as int));
                assert(all.take(i + 1).last() == parts@[i as int]@);
            }
            match map.parse_part(parts[i].as_slice()) {
                Ok(m) => {
                    map = m;
                },
                Err(e) => {
                    proof {
                        lemma_part_error_stays(all, i + 1);
                    }
                    return Err(e);
                },
            }
            i = i + 1;
        }
        assert(all.take(i as int) =~= all);
        Ok(map)
    }

    fn parse_letters(s: &[char]) -> (r: Result<Self, String>)
        ensures
            match r {
                Ok(map) => of_letters(s@) == Ok::<AxisMap, Seq<char>>(map),
                Err(e) => of_letters(s@) == Err::<AxisMap, Seq<char>>(e@),
            },
    {
        if s.len() == 3 {
            let (a, b, c): (&[char], &[char], &[char]) = (
                slice_subrange(s, 0, 1),
                slice_subrange(s, 1, 2),
                slice_subrange(s, 2, 3),
            );
            assert(a@ =~= seq![s@[0]]);
            assert(b@ =~= seq![s@[1]]);
            assert(c@ =~= seq![s@[2]]);
            if let (Some(lateral), Some(longitudinal), Some(vertical)) = (
                Axis::parse_chars(a),
                Axis::parse_chars(b),
                Axis::parse_chars(c),
            ) {
                return Ok(
                    AxisMap {
                        lateral,
                        longitudinal,
                        vertical,
                        invert_lateral: false,
                        invert_longitudinal: false,
                        invert_vertical: false,
                    },
                );
            }
        }
        let t: String = text::text_of(s);
        Err(message3("invalid axis spec '", t.as_str(), "'"))
    }

    /// Parses `lateral=x,longitudinal=y,vertical=z` (any subset; missing keep defaults)
    /// or the compact `xyz` form (lateral, longitudinal, vertical).
    pub fn parse(s: &str) -> (r: Result<Self, String>)
        ensures
            match r {
                Ok(map) => map_of(text::trimmed(s@)) == Ok::<AxisMap, Seq<char>>(map),
                Err(e) => map_of(text::trimmed(s@)) == Err::<AxisMap, Seq<char>>(e@),
            },
    {
        let all: Vec<char> = text::chars_of(s);
        let t: &[char] = text::trim(all.as_slice());
        let whole: String = text::text_of(t);
        let ghost size = encode_utf8(t@).len();
        let map: Result<AxisMap, String> = if whole.as_str().as_bytes().len() == 3
            && text::find_first(t, '=') == t.len() {
            Self::parse_letters(t)
        } else {
            Self::parse_parts(t)
        };
        match map {
            Err(e) => Err(e),
            Ok(map) => if map.is_permutation() {
                Ok(map)
            } else {
                Err(String::from_str("axis mapping must use each of X, Y, Z exactly once"))
            },
        }
    }
}

/// An error in the first `k` parts is the error of all.
proof fn lemma_part_error_stays(parts: Seq<Seq<char>>, k: int)
    requires
        0 <= k <= parts.len(),
        with_parts(parts.take(k)) is Err,
    ensures
        with_parts(parts) == with_parts(parts.take(k)),
    decreases parts.len() - k,
{
    if k == parts.len() {
        assert(parts.take(k) =~= parts);
    } else {
        assert(parts.take(k + 1).drop_last() =~= parts.take(k));
        lemma_part_error_stays(parts, k + 1);
    }
}

proof fn lemma_parts_flip_nothing(parts: Seq<Seq<char>>)
    ensures
        with_parts(parts) matches Ok(map) ==> !map.invert_lateral && !map.invert_longitudinal
            && !map.invert_vertical,
    decreases parts.len(),
{
    if parts.len() > 0 {
        lemma_parts_flip_nothing(parts.drop_last());
    }
}

/// An axis map that was read uses each body axis once and flips no sign.
pub proof fn parsed_maps_permute(s: Seq<char>)
    ensures
        map_of(s) matches Ok(map) ==> permutes(map) && !map.invert_lateral
            && !map.invert_longitudinal && !map.invert_vertical,
{
    lemma_parts_flip_nothing(text::parts(s, ','));
}

/// Whether two results are the same axis map, or both are errors.
pub open spec fn same_map(a: Result<AxisMap, Seq<char>>, b: Result<AxisMap, Seq<char>>) -> bool {
    match (a, b) {
        (Ok(m), Ok(n)) => m == n,
        (Err(_), Err(_)) => true,
        _ => false,
    }
}

proof fn lemma_axis_lower(s: Seq<char>)
    ensures
        Axis::read(text::lowered(s)) == Axis::read(s),
{
    text::lower_case_trims(s);
    text::lower_case_trims(text::trimmed(s));
}

proof fn lemma_part_lower(map: AxisMap, part: Seq<char>)
    ensures
        same_map(with_part(map, text::lowered(part)), with_part(map, part)),
{
    let low = text::lowered(part);
    let at = text::first_of(part, '=') as int;
    text::lower_case_trims(part);
    text::lower_case_splits(part, '=');
    text::lemma_first_of(part, '=');
    if at < part.len() {
        assert(low.take(at) =~= text::lowered(part.take(at)));
        assert(low.skip(at + 1) =~= text::lowered(part.skip(at + 1)));
        lemma_axis_lower(part.skip(at + 1));
        text::lower_case_trims(part.take(at));
        text::lower_case_trims(text::trimmed(part.take(at)));
    }
}

proof fn lemma_parts_lower(parts: Seq<Seq<char>>)
    ensures
        same_map(
            with_parts(parts.map_values(|p: Seq<char>| text::lowered(p))),
            with_parts(parts),
        ),
    decreases parts.len(),
{
    let low = parts.map_values(|p: Seq<char>| text::lowered(p));
    if parts.len() > 0 {
        let front = parts.drop_last();
        assert(low.drop_last() =~= front.map_values(|p: Seq<char>| text::lowered(p)));
        assert(low.last() == text::lowered(parts.last()));
        lemma_parts_lower(front);
        if let Ok(map) = with_parts(front) {
            lemma_part_lower(map, parts.last());
        }
    }
}

proof fn lemma_map_lower(s: Seq<char>)
    ensures
        same_map(map_of(text::lowered(s)), map_of(s)),
{
    let low = text::lowered(s);
    text::lower_case_keeps_size(s);
    text::lower_case_splits(s, '=');
    text::lower_case_splits(s, ',');
    lemma_parts_lower(text::parts(s, ','));
    if s.len() == 3 {
        assert(seq![low[0]] =~= text::lowered(seq![s[0]]));
        assert(seq![low[1]] =~= text::lowered(seq![s[1]]));
        assert(seq![low[2]] =~= text::lowered(seq![s[2]]));
        lemma_axis_lower(seq![s[0]]);
        lemma_axis_lower(seq![s[1]]);
        lemma_axis_lower(seq![s[2]]);
    }
}

/// Upper and lower case, and white space around it, make no difference in a
/// description of axes.
pub proof fn spelling_of_axes_is_free(
    before: Seq<char>,
    s: Seq<char>,
    behind: Seq<char>,
    other: Seq<char>,
)
    requires
        text::blank(before),
        text::blank(behind),
        text::lowered(s) == text::lowered(other),
    ensures
        same_map(map_of(text::trimmed(before + s + behind)), map_of(text::trimmed(other))),
{
    text::trimming_drops_white_space(before, s, behind);
    lemma_map_lower(text::trimmed(s));
    lemma_map_lower(text::trimmed(other));
    text::lower_case_trims(s);
    text::lower_case_trims(other);
}

/// Three double-precision components.
#[derive(Debug, Clone, Copy, PartialEq, Eq, Structural)]
pub struct Vector64 {
    pub x: Binary64,
    pub y: Binary64,
    pub z: Binary64,
}

impl Vector64 {
    /// The component along an axis.
    pub open spec fn along(self, axis: Axis) -> Binary64 {
        match axis {
            Axis::X => self.x,
            Axis::Y => self.y,
            Axis::Z => self.z,
        }
    }

    /// The component along an axis.
    pub fn get(&self, axis: Axis) -> (r: Binary64)
        ensures
            r == self.along(axis),
    {
        match axis {
            Axis::X => self.x,
            Axis::Y => self.y,
            Axis::Z => self.z,
        }
    }
}

/// The median of some values, and 0 without any.
pub open spec fn middle_or_zero(values: Seq<Binary64>) -> Binary64 {
    match ieee::middle(values) {
        Some(m) => m,
        None => Binary64 { bits: 0 },
    }
}

fn median_or_zero(values: &[Binary64]) -> (r: Binary64)
    ensures
        r == middle_or_zero(values@),
{
    match ieee::median(values) {
        Some(m) => m,
        None => Binary64 { bits: 0 },
    }
}

/// Median of each raw body axis (in g) — shows where gravity sits at rest.
pub fn axis_medians(x: &[Binary64], y: &[Binary64], z: &[Binary64]) -> (r: Vector64)
    ensures
        r.x == middle_or_zero(x@),
        r.y == middle_or_zero(y@),
        r.z == middle_or_zero(z@),
{
    Vector64 { x: median_or_zero(x), y: median_or_zero(y), z: median_or_zero(z) }
}

/// The axis with the largest median, whatever its sign; the first of equals.
pub open spec fn gravity_axis(m: Vector64) -> Axis {
    if m.x.magnitude() >= m.y.magnitude() && m.x.magnitude() >= m.z.magnitude() {
        Axis::X
    } else if m.y.magnitude() >= m.z.magnitude() {
        Axis::Y
    } else {
        Axis::Z
    }
}

/// The mapping for the given medians.
pub open spec fn guessed_map(m: Vector64) -> AxisMap {
    let vertical = gravity_axis(m);
    let (lateral, longitudinal) = match vertical {
        Axis::X => (Axis::Y, Axis::Z),
        Axis::Y => (Axis::Z, Axis::X),
        Axis::Z => (Axis::Y, Axis::X),
    };
    AxisMap {
        lateral,
        longitudinal,
        vertical,
        invert_lateral: true,
        invert_longitudinal: false,
        invert_vertical: m.along(vertical).below(Binary64 { bits: 0 }),
    }
}

/// Guesses the mapping: the axis holding gravity is vertical. Of the remaining two, X — the
/// camera's optical axis, which points along the vehicle on a normal forward-facing mount — is
/// longitudinal and the other is lateral. When X itself holds gravity (lens pointing up or
/// down) there is nothing to go on, so Y is taken as lateral and Z as longitudinal.
///
/// Signs: the Osmo Action body frame is X forward, Y right, Z down and the reported vector is
/// the proper acceleration. Longitudinal is taken as is (forward positive, so braking is
/// negative). Lateral is negated so that a left-hand corner reads positive. The vertical axis
/// is flipped so that +1 g at rest reads as "up".
pub fn auto_axis_map(medians: Vector64) -> (r: AxisMap)
    ensures
        r == guessed_map(medians),
{
    let (x, y, z): (u64, u64, u64) = (
        medians.x.abs().bits,
        medians.y.abs().bits,
        medians.z.abs().bits,
    );
    let vertical: Axis = if x >= y && x >= z {
        Axis::X
    } else if y >= z {
        Axis::Y
    } else {
        Axis::Z
    };
    let (lateral, longitudinal): (Axis, Axis) = match vertical {
        Axis::X => (Axis::Y, Axis::Z),
        Axis::Y => (Axis::Z, Axis::X),
        Axis::Z => (Axis::Y, Axis::X),
    };
    AxisMap {
        lateral,
        longitudinal,
        vertical,
        invert_lateral: true,
        invert_longitudinal: false,
        invert_vertical: medians.get(vertical).lt(Binary64 { bits: 0 }),
    }
}

/// A guessed map uses each body axis once, its vertical axis has the largest
/// median, and X is longitudinal unless it holds gravity.
pub proof fn guessed_map_is_a_permutation(m: Vector64, axis: Axis)
    ensures
        permutes(guessed_map(m)),
        m.along(axis).magnitude() <= m.along(guessed_map(m).vertical).magnitude(),
        guessed_map(m).vertical != Axis::X ==> guessed_map(m).longitudinal == Axis::X,
{
}

/// The rate of the exported rows.
#[derive(Debug, Clone, Copy, PartialEq, Eq, Structural)]
pub enum ExportRate {
    Native,
    /// Rows per second.
    Hz(Binary64),
}

/// `s` without `hz` at its end, however often.
pub open spec fn without_hz(s: Seq<char>) -> Seq<char>
    decreases s.len(),
{
    if s.len() >= 2 && s[s.len() - 2] == 'h' && s[s.len() - 1] == 'z' {
        without_hz(s.take(s.len() - 2))
    } else {
        s
    }
}

/// The text of a rate in lower case and without white space around it.
pub open spec fn rate_word(s: Seq<char>) -> Seq<char> {
    text::lowered(text::trimmed(s))
}

/// Whether a rate is the native one.
pub open spec fn native_word(s: Seq<char>) -> bool {
    s == "native"@ || s == "full"@ || s == "0"@
}

/// Whether rows are merged for a rate: for a number of rows per second that is
/// not at most 0.
pub open spec fn merges(rate: ExportRate) -> bool {
    match rate {
        ExportRate::Native => false,
        ExportRate::Hz(hz) => !hz.at_most(Binary64 { bits: 0 }),
    }
}

impl ExportRate {
    /// The number of rows per second that rows are merged for, if they are.
    pub fn merging(self) -> (r: Option<Binary64>)
        ensures
            r is Some <==> merges(self),
            r matches Some(hz) ==> self == ExportRate::Hz(hz),
    {
        let zero: Binary64 = Binary64 { bits: 0 };
        match self {
            ExportRate::Native => None,
            ExportRate::Hz(hz) => if hz.le(zero) {
                None
            } else {
                Some(hz)
            },
        }
    }

    /// The text of the number in a rate: without `hz` behind it and white space
    /// around it.
    pub fn number_text(s: &str) -> (r: String)
        ensures
            r@ == text::trimmed(without_hz(rate_word(s@))),
    {
        let c: Vec<char> = text::chars_of(s);
        let c: Vec<char> = text::to_lower(text::trim(c.as_slice()));
        let mut n: usize = c.len();
        assert(c@.take(n as int) =~= c@);
        while n >= 2 && c[n - 2] == 'h' && c[n - 1] == 'z'
            invariant
                n <= c@.len(),
                without_hz(c@) == without_hz(c@.take(n as int)),
            decreases n,
        {
            assert(c@.take(n as int).take(n - 2) =~= c@.take(n - 2));
            n = n - 2;
        }
        let part: &[char] = slice_subrange(c.as_slice(), 0, n);
        assert(part@ =~= c@.take(n as int));
        text::text_of(text::trim(part))
    }

    /// The rate that a text stands for, `number` being what its number text is
    /// read as.
    pub open spec fn read(s: Seq<char>, number: Option<Binary64>) -> Option<ExportRate> {
        if native_word(rate_word(s)) {
            Some(ExportRate::Native)
        } else {
            match number {
                Some(v) if (Binary64 { bits: 0 }).below(v) => Some(ExportRate::Hz(v)),
                _ => None,
            }
        }
    }

    /// Reads a rate: a word for the native rate, or a positive number of rows
    /// per second. `number` is what the number text is read as.
    pub fn parse(s: &str, number: Option<Binary64>) -> (r: Option<Self>)
        ensures
            r == Self::read(s@, number),
    {
        let c: Vec<char> = text::chars_of(s);
        let c: Vec<char> = text::to_lower(text::trim(c.as_slice()));
        let c: &[char] = c.as_slice();
        if text::is(c, "native") || text::is(c, "full") || text::is(c, "0") {
            return Some(ExportRate::Native);
        }
        let zero: Binary64 = Binary64 { bits: 0 };
        match number {
            Some(v) => if zero.lt(v) {
                Some(ExportRate::Hz(v))
            } else {
                None
            },
            None => None,
        }
    }
}

/// A rate that was read is positive.
pub proof fn parsed_rates_are_positive(s: Seq<char>, number: Option<Binary64>)
    ensures
        ExportRate::read(s, number) matches Some(ExportRate::Hz(v)) ==> v.scaled() > 0
            && !v.nan(),
{
}

/// How samples are processed.
#[derive(Debug, Clone, Copy, PartialEq, Eq, Structural)]
pub struct ProcessOptions {
    pub gravity: GravityMode,
    /// Window of the moving average, in seconds.
    pub highpass_window: Binary64,
    pub axes: AxisMap,
    /// Rotate the body frame so that gravity lies exactly on the vertical axis before the
    /// lateral / longitudinal / vertical split. Compensates a camera that is pitched or rolled
    /// relative to the vehicle; per sample when the attitude quaternion is available, otherwise
    /// with the clip's median gravity direction.
    pub level: bool,
    pub rate: ExportRate,
    /// Override the detected accelerometer unit.
    pub unit_override: Option<AccelUnit>,
}

/// Gravity removed by attitude, a window of one second, plain axes, levelled.
pub open spec fn default_options() -> ProcessOptions {
    ProcessOptions {
        gravity: GravityMode::Quaternion,
        highpass_window: Binary64 { bits: 0x3ff0_0000_0000_0000 },
        axes: plain_map(),
        level: true,
        rate: ExportRate::Native,
        unit_override: None,
    }
}

impl Default for ProcessOptions {
    fn default() -> (r: Self)
        ensures
            r == default_options(),
    {
        ProcessOptions {
            gravity: GravityMode::Quaternion,
            highpass_window: Binary64 { bits: 0x3ff0_0000_0000_0000 },
            axes: AxisMap::default(),
            level: true,
            rate: ExportRate::Native,
            unit_override: None,
        }
    }
}

/// One exported telemetry row (all accelerations in g, angles in degrees, SI otherwise).
#[derive(Debug, Clone, Copy, PartialEq, Eq)]
pub struct Row {
    /// Seconds since the first sample.
    pub t: Binary64,
    pub frame: u64,
    pub lateral: Option<Binary64>,
    pub longitudinal: Option<Binary64>,
    pub vertical: Option<Binary64>,
    /// Length of lateral and longitudinal together — the motorsport "G" scalar.
    pub combined: Option<Binary64>,
    /// Raw body axes (in g, gravity included).
    pub raw: Option<Vector64>,
    pub roll: Option<Binary64>,
    pub pitch: Option<Binary64>,
    pub yaw: Option<Binary64>,
    pub iso: Option<Binary32>,
    pub shutter: Option<(u64, u64)>,
    pub color_temperature: Option<u32>,
    pub latitude: Option<Binary64>,
    pub longitude: Option<Binary64>,
    pub altitude_m: Option<Binary64>,
    pub speed_ms: Option<Binary64>,
    pub heading_deg: Option<Binary64>,
    pub distance_m: Option<Binary64>,
}

/// Whether a row has a position.
pub open spec fn located(r: Row) -> bool {
    r.latitude is Some && r.longitude is Some
}

impl Row {
    /// Whether the row has a position.
    pub fn has_gps(&self) -> (r: bool)
        ensures
            r == located(*self),
    {
        self.latitude.is_some() && self.longitude.is_some()
    }
}

/// Whether the length of a vector can be divided by: it is finite and not
/// below a millionth.
pub open spec fn usable(n: Binary64) -> bool {
    !n.below(Binary64 { bits: 0x3eb0_c6f7_a0b5_ed8d }) && n.finite()
}

/// Whether a vector or quaternion of length `n` can be normalized.
pub fn is_usable(n: Binary64) -> (r: bool)
    ensures
        r == usable(n),
{
    !n.lt(Binary64 { bits: 0x3eb0_c6f7_a0b5_ed8d }) && n.is_finite()
}

/// Whether enough samples have both an acceleration and an attitude for the
/// quaternion method: at least ten.
pub open spec fn enough(count: int) -> bool {
    count >= 10
}

/// Whether there is enough attitude for the quaternion method.
pub fn enough_attitude(count: usize) -> (r: bool)
    ensures
        r == enough(count as int),
{
    count >= 10
}

/// The method that is used: the quaternion method falls back to the high-pass
/// when attitude is missing.
pub open spec fn method(requested: GravityMode, attitude: bool) -> GravityMode {
    if requested == GravityMode::Quaternion && !attitude {
        GravityMode::HighPass
    } else {
        requested
    }
}

/// The gravity removal method that is used.
pub fn gravity_used(requested: GravityMode, attitude: bool) -> (r: GravityMode)
    ensures
        r == method(requested, attitude),
{
    match requested {
        GravityMode::Quaternion => if attitude {
            GravityMode::Quaternion
        } else {
            GravityMode::HighPass
        },
        other => other,
    }
}

/// Whether the sample `j` of `n` is at most `half` samples away from `i`.
pub open spec fn near(i: int, half: int, n: int, j: int) -> bool {
    0 <= j < n && j - i <= half && i - j <= half
}

/// The samples that the moving average of sample `i` of `n` takes in: `half`
/// to each side, as far as there are any.
pub fn window(i: usize, half: usize, n: usize) -> (r: (usize, usize))
    requires
        i < n,
    ensures
        r.0 == (if i >= half {
            i - half
        } else {
            0
        }),
        r.1 == (if i + half + 1 <= n {
            i + half + 1
        } else {
            n as int
        }),
        r.0 <= i < r.1 <= n,
        forall|j: int|
            r.0 <= j < r.1 <==> #[trigger] near(i as int, half as int, n as int, j),
{
    let lo: usize = if i >= half {
        i - half
    } else {
        0
    };
    let hi: usize = if half < n - i {
        i + half + 1
    } else {
        n
    };
    (lo, hi)
}

/// A component of a vector along an axis, with its sign flipped or not.
pub open spec fn picked(v: Vector64, axis: Axis, invert: bool) -> Binary64 {
    if invert {
        v.along(axis).negated()
    } else {
        v.along(axis)
    }
}

/// The component of a body-frame vector that feeds a vehicle axis.
pub fn pick(v: &Vector64, axis: Axis, invert: bool) -> (r: Binary64)
    ensures
        r == picked(*v, axis, invert),
{
    let x: Binary64 = v.get(axis);
    if invert {
        x.neg()
    } else {
        x
    }
}

/// Where a number of a row comes from.
#[derive(Debug, Clone, Copy, PartialEq, Eq, Structural)]
pub enum Source {
    Nothing,
    /// Two positions one after the other.
    Positions,
    /// The velocity that the remote reports.
    Velocity,
}

/// From one position to the next.
#[derive(Debug, Clone, Copy, PartialEq, Eq, Structural)]
pub struct Step {
    /// Seconds.
    pub dt: Binary64,
    /// Metres.
    pub distance: Binary64,
}

/// Where the speed comes from: the velocity, or without one a step forward in
/// time.
pub open spec fn speed_from(velocity: Option<Vector>, step: Option<Step>) -> Source {
    match (velocity, step) {
        (Some(_), _) => Source::Velocity,
        (None, Some(s)) if (Binary64 { bits: 0 }).below(s.dt) => Source::Positions,
        _ => Source::Nothing,
    }
}

/// Whether a single-precision number is zero, of either sign.
pub open spec fn zero32(v: Binary32) -> bool {
    v.bits % 0x8000_0000 == 0
}

/// Where the heading comes from: the velocity when it is not zero on the
/// ground, or without one a step forward in time of more than 5 cm.
pub open spec fn heading_from(velocity: Option<Vector>, step: Option<Step>) -> Source {
    match (velocity, step) {
        (Some(v), _) => if zero32(v.x) && zero32(v.y) {
            Source::Nothing
        } else {
            Source::Velocity
        },
        (None, Some(s)) if (Binary64 { bits: 0 }).below(s.dt) && (Binary64 {
            bits: 0x3fa9_9999_9999_999a,
        }).below(s.distance) => Source::Positions,
        _ => Source::Nothing,
    }
}

/// Decides where the speed comes from.
pub fn speed_source(velocity: Option<Vector>, step: Option<Step>) -> (r: Source)
    ensures
        r == speed_from(velocity, step),
{
    let zero: Binary64 = Binary64 { bits: 0 };
    match velocity {
        Some(_) => Source::Velocity,
        None => match step {
            Some(s) => if zero.lt(s.dt) {
                Source::Positions
            } else {
                Source::Nothing
            },
            None => Source::Nothing,
        },
    }
}

/// Decides where the heading comes from.
pub fn heading_source(velocity: Option<Vector>, step: Option<Step>) -> (r: Source)
    ensures
        r == heading_from(velocity, step),
{
    let zero: Binary64 = Binary64 { bits: 0 };
    let five_cm: Binary64 = Binary64 { bits: 0x3fa9_9999_9999_999a };
    match velocity {
        Some(v) => if v.x.bits % 0x8000_0000 == 0 && v.y.bits % 0x8000_0000 == 0 {
            Source::Nothing
        } else {
            Source::Velocity
        },
        None => match step {
            Some(s) => if zero.lt(s.dt) && five_cm.lt(s.distance) {
                Source::Positions
            } else {
                Source::Nothing
            },
            None => Source::Nothing,
        },
    }
}

/// What is computed in floating point for one sample. A number counts only
/// where the sample has what it is computed from.
#[derive(Debug, Clone, Copy, PartialEq, Eq, Structural)]
pub struct Numbers {
    /// Seconds since the first sample.
    pub t: Binary64,
    /// Acceleration in g, gravity included.
    pub raw: Option<Vector64>,
    /// Acceleration in g without gravity, levelled if so wanted.
    pub dynamic: Option<Vector64>,
    /// Length of lateral and longitudinal acceleration together.
    pub combined: Binary64,
    /// Roll, pitch and yaw.
    pub angles: Option<Vector64>,
    /// Altitude in metres.
    pub altitude: Binary64,
    /// From the last position to this one.
    pub step: Option<Step>,
    pub speed_by_positions: Binary64,
    pub speed_by_velocity: Binary64,
    pub heading_by_positions: Binary64,
    pub heading_by_velocity: Binary64,
    /// Metres travelled so far.
    pub distance: Binary64,
}

/// One of two numbers by its source.
pub open spec fn chosen(
    source: Source,
    by_positions: Binary64,
    by_velocity: Binary64,
) -> Option<Binary64> {
    match source {
        Source::Nothing => None,
        Source::Positions => Some(by_positions),
        Source::Velocity => Some(by_velocity),
    }
}

fn choose_number(source: Source, by_positions: Binary64, by_velocity: Binary64) -> (r: Option<
    Binary64,
>)
    ensures
        r == chosen(source, by_positions, by_velocity),
{
    match source {
        Source::Nothing => None,
        Source::Positions => Some(by_positions),
        Source::Velocity => Some(by_velocity),
    }
}

/// The row of a sample without a position.
pub open spec fn plain_row(s: Sample, n: Numbers, axes: AxisMap) -> Row {
    Row {
        t: n.t,
        frame: s.frame,
        lateral: match n.dynamic {
            Some(d) => Some(picked(d, axes.lateral, axes.invert_lateral)),
            None => None,
        },
        longitudinal: match n.dynamic {
            Some(d) => Some(picked(d, axes.longitudinal, axes.invert_longitudinal)),
            None => None,
        },
        vertical: match n.dynamic {
            Some(d) => Some(picked(d, axes.vertical, axes.invert_vertical)),
            None => None,
        },
        combined: match n.dynamic {
            Some(_) => Some(n.combined),
            None => None,
        },
        raw: n.raw,
        roll: match n.angles {
            Some(a) => Some(a.x),
            None => None,
        },
        pitch: match n.angles {
            Some(a) => Some(a.y),
            None => None,
        },
        yaw: match n.angles {
            Some(a) => Some(a.z),
            None => None,
        },
        iso: s.iso,
        shutter: s.shutter,
        color_temperature: s.color_temperature,
        latitude: None,
        longitude: None,
        altitude_m: None,
        speed_ms: None,
        heading_deg: None,
        distance_m: None,
    }
}

/// The row of a sample.
pub open spec fn row_for(s: Sample, n: Numbers, axes: AxisMap) -> Row {
    let row = plain_row(s, n, axes);
    match s.gps {
        None => row,
        Some(g) => Row {
            latitude: Some(g.latitude),
            longitude: Some(g.longitude),
            altitude_m: match g.altitude_mm {
                Some(_) => Some(n.altitude),
                None => None,
            },
            speed_ms: chosen(
                speed_from(g.velocity, n.step),
                n.speed_by_positions,
                n.speed_by_velocity,
            ),
            heading_deg: chosen(
                heading_from(g.velocity, n.step),
                n.heading_by_positions,
                n.heading_by_velocity,
            ),
            distance_m: Some(n.distance),
            ..row
        },
    }
}

/// Assembles the row of a sample.
pub fn row_of(s: &Sample, n: &Numbers, axes: &AxisMap) -> (r: Row)
    ensures
        r == row_for(*s, *n, *axes),
{
    let (lateral, longitudinal, vertical, combined): (
        Option<Binary64>,
        Option<Binary64>,
        Option<Binary64>,
        Option<Binary64>,
    ) = match n.dynamic {
        Some(d) => (
            Some(pick(&d, axes.lateral, axes.invert_lateral)),
            Some(pick(&d, axes.longitudinal, axes.invert_longitudinal)),
            Some(pick(&d, axes.vertical, axes.invert_vertical)),
            Some(n.combined),
        ),
        None => (None, None, None, None),
    };
    let (roll, pitch, yaw): (Option<Binary64>, Option<Binary64>, Option<Binary64>) =
        match n.angles {
        Some(a) => (Some(a.x), Some(a.y), Some(a.z)),
        None => (None, None, None),
    };
    let mut row: Row = Row {
        t: n.t,
        frame: s.frame,
        lateral,
        longitudinal,
        vertical,
        combined,
        raw: n.raw,
        roll,
        pitch,
        yaw,
        iso: s.iso,
        shutter: s.shutter,
        color_temperature: s.color_temperature,
        latitude: None,
        longitude: None,
        altitude_m: None,
        speed_ms: None,
        heading_deg: None,
        distance_m: None,
    };
    if let Some(g) = s.gps {
        row.latitude = Some(g.latitude);
        row.longitude = Some(g.longitude);
        row.altitude_m = match g.altitude_mm {
            Some(_) => Some(n.altitude),
            None => None,
        };
        row.speed_ms = choose_number(
            speed_source(g.velocity, n.step),
            n.speed_by_positions,
            n.speed_by_velocity,
        );
        row.heading_deg = choose_number(
            heading_source(g.velocity, n.step),
            n.heading_by_positions,
            n.heading_by_velocity,
        );
        row.distance_m = Some(n.distance);
    }
    row
}

/// The rows whose time does not lie before that of a row kept before them, nor
/// is no number.
pub open spec fn kept(rows: Seq<Row>) -> Seq<Row>
    decreases rows.len(),
{
    if rows.len() == 0 {
        Seq::empty()
    } else {
        let before = kept(rows.drop_last());
        let r = rows.last();
        if !r.t.nan() && (before.len() == 0 || before.last().t.at_most(r.t)) {
            before.push(r)
        } else {
            before
        }
    }
}

/// Drops rows that go back in time.
pub fn forward_only(rows: &[Row]) -> (r: Vec<Row>)
    ensures
        r@ == kept(rows@),
{
    let mut out: Vec<Row> = Vec::new();
    let mut last: Binary64 = Binary64 { bits: 0xfff0_0000_0000_0000 };
    let mut i: usize = 0;
    while i < rows.len()
        invariant
            i <= rows@.len(),
            out@ == kept(rows@.take(i as int)),
            out@.len() == 0 ==> last.bits == 0xfff0_0000_0000_0000,
            out@.len() > 0 ==> last == out@.last().t,
        decreases rows@.len() - i,
    {
        let r: Row = rows[i];
        proof {
            assert(rows@.take(i + 1).drop_last() =~= rows@.take(i as int));
            assert(rows@.take(i + 1).last() == r);
            lemma_lowest(r.t);
        }
        if last.le(r.t) {
            out.push(r);
            last = r.t;
        }
        i = i + 1;
    }
    assert(rows@.take(i as int) =~= rows@);
    out
}

/// Negative infinity is at most every number.
proof fn lemma_lowest(v: Binary64)
    ensures
        (Binary64 { bits: 0xfff0_0000_0000_0000 }).at_most(v) == !v.nan(),
{
    let low = Binary64 { bits: 0xfff0_0000_0000_0000 };
    assert(low.magnitude() == 0x7ff0_0000_0000_0000);
    if !v.nan() {
        if v.negative() && v.magnitude() < low.magnitude() {
            ieee::lemma_scaled_size_increases(v.magnitude(), low.magnitude());
        }
    }
}

/// The rows that are kept never go back in time.
pub proof fn kept_rows_go_forward(rows: Seq<Row>)
    ensures
        forall|i: int, j: int|
            0 <= i <= j < kept(rows).len() ==> (#[trigger] kept(rows)[i]).t.at_most(
                (#[trigger] kept(rows)[j]).t,
            ),
    decreases rows.len(),
{
    if rows.len() > 0 {
        let before = kept(rows.drop_last());
        let r = rows.last();
        kept_rows_go_forward(rows.drop_last());
        assert forall|i: int, j: int| 0 <= i <= j < kept(rows).len() implies (
        #[trigger] kept(rows)[i]).t.at_most((#[trigger] kept(rows)[j]).t) by {
            if j < before.len() {
                assert(before[i].t.at_most(before[j].t));
            } else if i < before.len() {
                assert(before[i].t.at_most(before[before.len() - 1].t));
            }
        }
    }
}

/// Rows that never go back in time are all kept.
pub proof fn forward_rows_are_kept(rows: Seq<Row>)
    requires
        forall|i: int| 0 <= i < rows.len() ==> !(#[trigger] rows[i]).t.nan(),
        forall|i: int, j: int|
            0 <= i <= j < rows.len() ==> (#[trigger] rows[i]).t.at_most((#[trigger] rows[j]).t),
    ensures
        kept(rows) == rows,
    decreases rows.len(),
{
    if rows.len() > 0 {
        let front = rows.drop_last();
        assert forall|i: int| 0 <= i < front.len() implies !(#[trigger] front[i]).t.nan() by {
            assert(!rows[i].t.nan());
        }
        assert forall|i: int, j: int| 0 <= i <= j < front.len() implies (
        #[trigger] front[i]).t.at_most((#[trigger] front[j]).t) by {
            assert(rows[i].t.at_most(rows[j].t));
        }
        forward_rows_are_kept(front);
        assert(!rows[rows.len() - 1].t.nan());
        if front.len() > 0 {
            assert(rows[rows.len() - 2].t.at_most(rows[rows.len() - 1].t));
        }
        assert(kept(rows) =~= rows);
    }
}

/// Where a new bin starts in a sequence of bin numbers.
pub open spec fn starts(bins: Seq<i64>) -> Seq<int>
    decreases bins.len(),
{
    if bins.len() == 0 {
        Seq::empty()
    } else {
        let n = bins.len() - 1;
        let before = starts(bins.drop_last());
        if n == 0 || bins[n] != bins[n - 1] {
            before.push(n)
        } else {
            before
        }
    }
}

/// The starts of bins as integers.
pub open spec fn positions(v: Seq<usize>) -> Seq<int> {
    v.map_values(|i: usize| i as int)
}

/// The bins of a sequence begin at its first row and follow each other.
pub proof fn starts_divide(bins: Seq<i64>)
    ensures
        bins.len() > 0 ==> starts(bins).len() > 0 && starts(bins)[0] == 0,
        starts(bins).len() <= bins.len(),
        forall|j: int| 0 <= j < starts(bins).len() ==> 0 <= #[trigger] starts(bins)[j] < bins.len(),
        forall|i: int, j: int|
            0 <= i < j < starts(bins).len() ==> #[trigger] starts(bins)[i] < #[trigger] starts(
                bins,
            )[j],
    decreases bins.len(),
{
    if bins.len() > 0 {
        let front = bins.drop_last();
        starts_divide(front);
        let before = starts(front);
        let all = starts(bins);
        assert forall|i: int, j: int| 0 <= i < j < all.len() implies #[trigger] all[i]
            < #[trigger] all[j] by {
            if j < before.len() {
                assert(before[i] < before[j]);
            } else {
                assert(before[i] < front.len());
            }
        }
    }
}

/// A bin holds rows of one number.
pub proof fn bins_hold_one_number(bins: Seq<i64>, j: int, k: int)
    requires
        0 <= j < starts(bins).len(),
        starts(bins)[j] <= k < bin_end(bins, j),
    ensures
        bins[k] == bins[starts(bins)[j]],
    decreases bins.len(),
{
    starts_divide(bins);
    let n = bins.len() - 1;
    let front = bins.drop_last();
    starts_divide(front);
    let before = starts(front);
    let all = starts(bins);
    if j < before.len() {
        assert(all[j] == before[j]);
        if k < n {
            bins_hold_one_number(front, j, k);
            assert(front[k] == bins[k]);
        } else {
            assert(all == before);
            assert(before[j] < front.len());
            bins_hold_one_number(front, j, n - 1);
            assert(front[n - 1] == bins[n - 1]);
        }
    }
}

/// Finds where each bin starts.
pub fn bin_starts(bins: &[i64]) -> (r: Vec<usize>)
    ensures
        positions(r@) == starts(bins@),
        r@.len() <= bins@.len(),
        forall|j: int| 0 <= j < r@.len() ==> #[trigger] r@[j] < bins@.len(),
{
    let mut out: Vec<usize> = Vec::new();
    let mut i: usize = 0;
    assert(positions(out@) =~= starts(bins@.take(0)));
    while i < bins.len()
        invariant
            i <= bins@.len(),
            out@.len() <= i,
            positions(out@) == starts(bins@.take(i as int)),
            forall|j: int| 0 <= j < out@.len() ==> #[trigger] out@[j] < bins@.len(),
        decreases bins@.len() - i,
    {
        let ghost before = positions(out@);
        proof {
            let t = bins@.take(i + 1);
            assert(t.drop_last() =~= bins@.take(i as int));
            assert(t[i as int] == bins@[i as int]);
            if i > 0 {
                assert(t[i - 1] == bins@[i - 1]);
            }
        }
        if i == 0 || bins[i] != bins[i - 1] {
            out.push(i);
            assert(positions(out@) =~= before.push(i as int));
        }
        i = i + 1;
    }
    assert(bins@.take(i as int) =~= bins@);
    out
}

/// Averages over the rows of one bin.
#[derive(Debug, Clone, Copy, PartialEq, Eq, Structural)]
pub struct Means {
    pub lateral: Option<Binary64>,
    pub longitudinal: Option<Binary64>,
    pub vertical: Option<Binary64>,
    /// Length of the average lateral and longitudinal acceleration together; it
    /// counts only where there are both.
    pub combined: Binary64,
    pub raw_x: Option<Binary64>,
    pub raw_y: Option<Binary64>,
    pub raw_z: Option<Binary64>,
}

/// The first row with a position from `from` up to `to`.
pub open spec fn first_located(rows: Seq<Row>, from: int, to: int) -> Option<Row>
    decreases to - from,
{
    if from >= to {
        None
    } else if located(rows[from]) {
        Some(rows[from])
    } else {
        first_located(rows, from + 1, to)
    }
}

/// The row of a bin: its first row, with average accelerations and the position
/// of the first row that has one.
pub open spec fn merged_row(rows: Seq<Row>, from: int, to: int, m: Means) -> Row {
    let row = Row {
        lateral: m.lateral,
        longitudinal: m.longitudinal,
        vertical: m.vertical,
        combined: if m.lateral is Some && m.longitudinal is Some {
            Some(m.combined)
        } else {
            None
        },
        raw: match (m.raw_x, m.raw_y, m.raw_z) {
            (Some(x), Some(y), Some(z)) => Some(Vector64 { x, y, z }),
            _ => None,
        },
        ..rows[from]
    };
    match first_located(rows, from, to) {
        Some(g) => Row {
            latitude: g.latitude,
            longitude: g.longitude,
            altitude_m: g.altitude_m,
            speed_ms: g.speed_ms,
            heading_deg: g.heading_deg,
            distance_m: g.distance_m,
            ..row
        },
        None => row,
    }
}

/// Where the bin `j` ends.
pub open spec fn bin_end(bins: Seq<i64>, j: int) -> int {
    if j + 1 < starts(bins).len() {
        starts(bins)[j + 1]
    } else {
        bins.len() as int
    }
}

/// One row for each bin.
pub open spec fn decimated(rows: Seq<Row>, bins: Seq<i64>, means: Seq<Means>) -> Seq<Row> {
    Seq::new(
        starts(bins).len(),
        |j: int| merged_row(rows, starts(bins)[j], bin_end(bins, j), means[j]),
    )
}

fn merge(rows: &[Row], from: usize, to: usize, m: &Means) -> (r: Row)
    requires
        from < to <= rows@.len(),
    ensures
        r == merged_row(rows@, from as int, to as int, *m),
{
    let mut row: Row = rows[from];
    row.lateral = m.lateral;
    row.longitudinal = m.longitudinal;
    row.vertical = m.vertical;
    row.combined = if m.lateral.is_some() && m.longitudinal.is_some() {
        Some(m.combined)
    } else {
        None
    };
    row.raw = match (m.raw_x, m.raw_y, m.raw_z) {
        (Some(x), Some(y), Some(z)) => Some(Vector64 { x, y, z }),
        _ => None,
    };
    let mut i: usize = from;
    while i < to && !rows[i].has_gps()
        invariant
            from <= i <= to <= rows@.len(),
            first_located(rows@, from as int, to as int) == first_located(
                rows@,
                i as int,
                to as int,
            ),
        decreases to - i,
    {
        i = i + 1;
    }
    if i < to {
        let g: Row = rows[i];
        row.latitude = g.latitude;
        row.longitude = g.longitude;
        row.altitude_m = g.altitude_m;
        row.speed_ms = g.speed_ms;
        row.heading_deg = g.heading_deg;
        row.distance_m = g.distance_m;
    }
    row
}

/// Bins rows; accelerations are averaged (anti-aliasing), everything else is taken from the
/// first row of the bin (whose timestamp the output keeps), with position fields coming from
/// the first GPS-bearing row of the bin. `bins` holds the bin number of each row, `means` the
/// averages over each bin.
pub fn decimate(rows: &[Row], bins: &[i64], means: &[Means]) -> (r: Vec<Row>)
    requires
        bins@.len() == rows@.len(),
        means@.len() == starts(bins@).len(),
    ensures
        r@ == decimated(rows@, bins@, means@),
{
    let at: Vec<usize> = bin_starts(bins);
    let ghost s = starts(bins@);
    let ghost want = decimated(rows@, bins@, means@);
    proof {
        starts_divide(bins@);
        assert(at@.len() == s.len());
    }
    let mut out: Vec<Row> = Vec::new();
    let mut j: usize = 0;
    while j < at.len()
        invariant
            j <= at@.len(),
            bins@.len() == rows@.len(),
            means@.len() == s.len(),
            s == starts(bins@),
            positions(at@) == s,
            at@.len() == s.len(),
            want == decimated(rows@, bins@, means@),
            out@ == want.take(j as int),
            forall|i: int, j: int| 0 <= i < j < s.len() ==> #[trigger] s[i] < #[trigger] s[j],
            forall|j: int| 0 <= j < s.len() ==> 0 <= #[trigger] s[j] < bins@.len(),
        decreases at@.len() - j,
    {
        proof {
            assert(positions(at@)[j as int] == at@[j as int]);
            if j + 1 < at@.len() {
                assert(positions(at@)[j + 1] == at@[j + 1]);
                assert(s[j as int] < s[j + 1]);
            }
        }
        let to: usize = if j + 1 < at.len() {
            at[j + 1]
        } else {
            rows.len()
        };
        out.push(merge(rows, at[j], to, &means[j]));
        j = j + 1;
        assert(out@ =~= want.take(j as int));
    }
    assert(out@ =~= want);
    out
}

/// Decimated rows keep the time of the first row of their bin, so they do not
/// go back in time where the rows did not; there are no more of them, and one
/// has a position exactly when a row of its bin has.
pub proof fn decimation_keeps_time(rows: Seq<Row>, bins: Seq<i64>, means: Seq<Means>)
    requires
        bins.len() == rows.len(),
        means.len() == starts(bins).len(),
    ensures
        decimated(rows, bins, means).len() <= rows.len(),
        forall|j: int|
            0 <= j < decimated(rows, bins, means).len() ==> (#[trigger] decimated(
                rows,
                bins,
                means,
            )[j]).t == rows[starts(bins)[j]].t,
        (forall|i: int, j: int|
            0 <= i <= j < rows.len() ==> (#[trigger] rows[i]).t.at_most((#[trigger] rows[j]).t))
            ==> forall|i: int, j: int|
            0 <= i <= j < decimated(rows, bins, means).len() ==> (#[trigger] decimated(
                rows,
                bins,
                means,
            )[i]).t.at_most((#[trigger] decimated(rows, bins, means)[j]).t),
        forall|j: int|
            0 <= j < decimated(rows, bins, means).len() ==> (located(
                #[trigger] decimated(rows, bins, means)[j],
            ) <==> exists|k: int|
                starts(bins)[j] <= k < bin_end(bins, j) && located(#[trigger] rows[k])),
{
    starts_divide(bins);
    let s = starts(bins);
    let out = decimated(rows, bins, means);
    assert forall|j: int| 0 <= j < out.len() implies (#[trigger] out[j]).t == rows[s[j]].t by {}
    if forall|i: int, j: int|
        0 <= i <= j < rows.len() ==> (#[trigger] rows[i]).t.at_most((#[trigger] rows[j]).t) {
        assert forall|i: int, j: int| 0 <= i <= j < out.len() implies (
        #[trigger] out[i]).t.at_most((#[trigger] out[j]).t) by {
            if i < j {
                assert(s[i] < s[j]);
            }
            assert(rows[s[i]].t.at_most(rows[s[j]].t));
        }
    }
    assert forall|j: int| 0 <= j < out.len() implies (located(#[trigger] out[j]) <==> exists|k: int|
        s[j] <= k < bin_end(bins, j) && located(#[trigger] rows[k])) by {
        if j + 1 < s.len() {
            assert(s[j] < s[j + 1]);
        }
        lemma_first_located(rows, s[j], bin_end(bins, j));
    }
}

/// The first row with a position has one, and there is none when no row has.
proof fn lemma_first_located(rows: Seq<Row>, from: int, to: int)
    ensures
        match first_located(rows, from, to) {
            Some(g) => located(g) && exists|k: int| from <= k < to && located(#[trigger] rows[k]),
            None => forall|k: int| from <= k < to ==> !located(#[trigger] rows[k]),
        },
    decreases to - from,
{
    if from < to {
        if located(rows[from]) {
            assert(located(rows[from]));
        } else {
            lemma_first_located(rows, from + 1, to);
        }
    }
}

/// The number of rows with a position.
pub open spec fn located_count(rows: Seq<Row>) -> nat
    decreases rows.len(),
{
    if rows.len() == 0 {
        0
    } else {
        located_count(rows.drop_last()) + if located(rows.last()) {
            1nat
        } else {
            0
        }
    }
}

/// Counts the rows with a position.
pub fn count_gps(rows: &[Row]) -> (r: usize)
    ensures
        r == located_count(rows@),
{
    let mut n: usize = 0;
    let mut i: usize = 0;
    while i < rows.len()
        invariant
            i <= rows@.len(),
            n <= i,
            n == located_count(rows@.take(i as int)),
        decreases rows@.len() - i,
    {
        assert(rows@.take(i + 1).drop_last() =~= rows@.take(i as int));
        if rows[i].has_gps() {
            n = n + 1;
        }
        i = i + 1;
    }
    assert(rows@.take(i as int) =~= rows@);
    n
}

/// What is measured of a clip as a whole.
#[derive(Debug, Clone, Copy, PartialEq, Eq, Structural)]
pub struct Measured {
    pub unit: AccelUnit,
    pub unit_median_magnitude: Binary64,
    /// World-frame gravity vector estimated by the quaternion method.
    pub gravity_world: Option<Vector64>,
    pub axis_medians: Vector64,
    /// Median angle between the measured gravity direction and the chosen vertical axis.
    pub tilt_deg: Option<Binary64>,
}

/// A processed clip.
#[derive(Debug, Clone)]
pub struct Telemetry {
    pub info: ClipInfo,
    pub options: ProcessOptions,
    pub unit: AccelUnit,
    pub unit_median_magnitude: Binary64,
    /// Method actually used (quaternion falls back to high-pass when attitude is missing).
    pub gravity_used: GravityMode,
    /// World-frame gravity vector estimated by the quaternion method.
    pub gravity_world: Option<Vector64>,
    pub axis_medians: Vector64,
    /// Median angle between the measured gravity direction and the chosen vertical axis —
    /// how far the camera is pitched / rolled off the vehicle's vertical. `None` when it
    /// could not be estimated.
    pub tilt_deg: Option<Binary64>,
    /// Whether the exported axes were levelled (see [`ProcessOptions::level`]).
    pub levelled: bool,
    pub rows: Vec<Row>,
    pub gps_rows: usize,
}

/// Whether two results are of the same clip and processing, but for their rows.
pub open spec fn differ_in_rows(a: Telemetry, b: Telemetry) -> bool {
    &&& a.info@ == b.info@
    &&& a.options == b.options
    &&& a.unit == b.unit
    &&& a.unit_median_magnitude == b.unit_median_magnitude
    &&& a.gravity_used == b.gravity_used
    &&& a.gravity_world == b.gravity_world
    &&& a.axis_medians == b.axis_medians
    &&& a.tilt_deg == b.tilt_deg
    &&& a.levelled == b.levelled
}

/// A moment `micros` microseconds after another.
pub open spec fn after(m: Option<Moment>, micros: int) -> Option<Moment> {
    match m {
        Some(m) => time::shifted(m, micros * 1000),
        None => None,
    }
}

/// The best known moment `micros` microseconds after the start: UTC where it is
/// known, else the camera's clock.
pub open spec fn best_moment(info: ClipFacts, micros: int) -> Option<Moment> {
    match after(crate::dji::utc_start(info), micros) {
        Some(m) => Some(m),
        None => after(info.start_local, micros),
    }
}

impl Telemetry {
    /// The number of rows with a position is that of the rows.
    pub open spec fn wf(&self) -> bool {
        self.gps_rows == located_count(self.rows@)
    }

    /// Whether there are two positions or more.
    pub fn has_gps(&self) -> (r: bool)
        ensures
            r == (self.gps_rows >= 2),
    {
        self.gps_rows >= 2
    }

    /// Camera-local wall clock `micros` microseconds after the start, unless
    /// that is out of the range of dates.
    pub fn local_time(&self, micros: i64) -> (r: Option<Timestamp>)
        ensures
            time::moment(r) == after(self.info@.start_local, micros as int),
    {
        match self.info.start_local {
            Some(s) => s.plus_micros(micros),
            None => None,
        }
    }

    /// UTC wall clock `micros` microseconds after the start, when the camera's UTC
    /// offset is known, unless that is out of the range of dates.
    pub fn utc_time(&self, micros: i64) -> (r: Option<Timestamp>)
        ensures
            time::moment(r) == after(crate::dji::utc_start(self.info@), micros as int),
    {
        match self.info.start_utc() {
            Some(s) => s.plus_micros(micros),
            None => None,
        }
    }

    /// The best known wall clock `micros` microseconds after the start: UTC where
    /// it is known, else the camera's own.
    pub fn best_time(&self, micros: i64) -> (r: Option<Timestamp>)
        ensures
            time::moment(r) == best_moment(self.info@, micros as int),
    {
        match self.utc_time(micros) {
            Some(dt) => Some(dt),
            None => self.local_time(micros),
        }
    }

    /// The time of the last row, and 0 without rows.
    pub fn duration(&self) -> (r: Binary64)
        ensures
            r == if self.rows@.len() > 0 {
                self.rows@.last().t
            } else {
                Binary64 { bits: 0 }
            },
    {
        let n: usize = self.rows.len();
        if n > 0 {
            self.rows[n - 1].t
        } else {
            Binary64 { bits: 0 }
        }
    }

    /// The same telemetry with other rows.
    pub fn with_rows(self, rows: Vec<Row>) -> (r: Self)
        ensures
            r.wf(),
            r.rows@ == rows@,
            differ_in_rows(r, self),
    {
        let gps_rows: usize = count_gps(rows.as_slice());
        Telemetry { rows, gps_rows, ..self }
    }
}

/// The rows of samples.
pub open spec fn rows_for(samples: Seq<Sample>, numbers: Seq<Numbers>, axes: AxisMap) -> Seq<Row> {
    Seq::new(samples.len(), |i: int| row_for(samples[i], numbers[i], axes))
}

/// Whether `t` is the telemetry of a clip at its native rate: with the unit and
/// the gravity removal method that are used, and a row for each sample as long as
/// time does not go back.
pub open spec fn is_processed(
    t: Telemetry,
    info: ClipFacts,
    samples: Seq<Sample>,
    options: ProcessOptions,
    measured: Measured,
    numbers: Seq<Numbers>,
) -> bool {
    &&& t.wf()
    &&& t.info@ == info
    &&& t.options == options
    &&& t.unit == match options.unit_override {
        Some(u) => u,
        None => measured.unit,
    }
    &&& t.unit_median_magnitude == measured.unit_median_magnitude
    &&& t.gravity_used == method(options.gravity, measured.gravity_world is Some)
    &&& t.gravity_world == measured.gravity_world
    &&& t.axis_medians == measured.axis_medians
    &&& t.tilt_deg == measured.tilt_deg
    &&& t.levelled == (options.level && measured.tilt_deg is Some)
    &&& t.rows@ == kept(rows_for(samples, numbers, options.axes))
}

/// Assembles the telemetry of a clip at its native rate; [`at_rate`] merges its
/// rows for another one.
pub fn process(
    info: ClipInfo,
    samples: &[Sample],
    options: &ProcessOptions,
    measured: &Measured,
    numbers: &[Numbers],
) -> (r: Telemetry)
    requires
        samples@.len() == numbers@.len(),
    ensures
        is_processed(r, info@, samples@, *options, *measured, numbers@),
{
    let ghost want = rows_for(samples@, numbers@, options.axes);
    let mut rows: Vec<Row> = Vec::new();
    let mut i: usize = 0;
    while i < samples.len()
        invariant
            i <= samples@.len(),
            samples@.len() == numbers@.len(),
            want == rows_for(samples@, numbers@, options.axes),
            rows@ == want.take(i as int),
        decreases samples@.len() - i,
    {
        rows.push(row_of(&samples[i], &numbers[i], &options.axes));
        i = i + 1;
        assert(rows@ =~= want.take(i as int));
    }
    assert(rows@ =~= want);
    let rows: Vec<Row> = forward_only(rows.as_slice());
    let unit: AccelUnit = match options.unit_override {
        Some(u) => u,
        None => measured.unit,
    };
    let gps_rows: usize = count_gps(rows.as_slice());
    Telemetry {
        info,
        options: *options,
        unit,
        unit_median_magnitude: measured.unit_median_magnitude,
        gravity_used: gravity_used(options.gravity, measured.gravity_world.is_some()),
        gravity_world: measured.gravity_world,
        axis_medians: measured.axis_medians,
        tilt_deg: measured.tilt_deg,
        levelled: options.level && measured.tilt_deg.is_some(),
        rows,
        gps_rows,
    }
}

/// The telemetry at the rate of its options. `bins` holds the number of the
/// interval of the rate that each row falls in, and `means` the averages over each
/// interval; neither counts where rows are kept.
pub fn at_rate(telemetry: Telemetry, bins: &[i64], means: &[Means]) -> (r: Telemetry)
    requires
        merges(telemetry.options.rate) ==> bins@.len() == telemetry.rows@.len() && means@.len()
            == starts(bins@).len(),
    ensures
        if merges(telemetry.options.rate) {
            &&& r.rows@ == decimated(telemetry.rows@, bins@, means@)
            &&& r.wf()
            &&& differ_in_rows(r, telemetry)
        } else {
            r == telemetry
        },
{
    if telemetry.options.rate.merging().is_some() {
        let rows: Vec<Row> = decimate(telemetry.rows.as_slice(), bins, means);
        telemetry.with_rows(rows)
    } else {
        telemetry
    }
}

/// The averages over a bin of one row.
pub open spec fn means_of_one(r: Row) -> Means {
    Means {
        lateral: r.lateral,
        longitudinal: r.longitudinal,
        vertical: r.vertical,
        combined: match r.combined {
            Some(c) => c,
            None => Binary64 { bits: 0 },
        },
        raw_x: match r.raw {
            Some(v) => Some(v.x),
            None => None,
        },
        raw_y: match r.raw {
            Some(v) => Some(v.y),
            None => None,
        },
        raw_z: match r.raw {
            Some(v) => Some(v.z),
            None => None,
        },
    }
}

/// The bin numbers of rows, by their times.
pub open spec fn slots(rows: Seq<Row>, slot: spec_fn(Binary64) -> i64) -> Seq<i64> {
    rows.map_values(|r: Row| slot(r.t))
}

/// Bin numbers that change from each to the next all start a bin.
proof fn lemma_all_start(bins: Seq<i64>)
    requires
        forall|j: int| 0 < j < bins.len() ==> #[trigger] bins[j] != bins[j - 1],
    ensures
        starts(bins) == Seq::new(bins.len(), |j: int| j),
    decreases bins.len(),
{
    if bins.len() > 0 {
        let front = bins.drop_last();
        assert forall|j: int| 0 < j < front.len() implies #[trigger] front[j] != front[j - 1] by {
            assert(bins[j] != bins[j - 1]);
        }
        lemma_all_start(front);
        let n = bins.len() - 1;
        if n > 0 {
            assert(bins[n] != bins[n - 1]);
        }
    }
    assert(starts(bins) =~= Seq::new(bins.len(), |j: int| j));
}

/// A bin starts where the number changes.
proof fn lemma_start_changes(bins: Seq<i64>, j: int)
    requires
        0 < j < starts(bins).len(),
    ensures
        starts(bins)[j] > 0,
        bins[starts(bins)[j]] != bins[starts(bins)[j] - 1],
    decreases bins.len(),
{
    starts_divide(bins);
    assert(starts(bins)[0] < starts(bins)[j]);
    let front = bins.drop_last();
    if j < starts(front).len() {
        lemma_start_changes(front, j);
        starts_divide(front);
        assert(starts(front)[j] < front.len());
    }
}

/// The bin numbers where bins start.
pub open spec fn start_numbers(bins: Seq<i64>) -> Seq<i64> {
    starts(bins).map_values(|k: int| bins[k])
}

/// Neighbouring bins have different numbers.
proof fn lemma_neighbours_differ(bins: Seq<i64>, j: int)
    requires
        0 < j < starts(bins).len(),
    ensures
        start_numbers(bins)[j] != start_numbers(bins)[j - 1],
{
    starts_divide(bins);
    lemma_start_changes(bins, j);
    assert(starts(bins)[j - 1] < starts(bins)[j]);
    bins_hold_one_number(bins, j - 1, starts(bins)[j] - 1);
}

/// Where bin numbers do not go down, those of the bins go up.
proof fn lemma_starts_go_up(bins: Seq<i64>, i: int, j: int)
    requires
        forall|i: int, j: int|
            0 <= i <= j < bins.len() ==> #[trigger] bins[i] <= #[trigger] bins[j],
        0 <= i < j < starts(bins).len(),
    ensures
        start_numbers(bins)[i] < start_numbers(bins)[j],
    decreases j - i,
{
    let s = starts(bins);
    starts_divide(bins);
    lemma_neighbours_differ(bins, j);
    assert(s[j - 1] < s[j]);
    assert(bins[s[j - 1]] <= bins[s[j]]);
    if i < j - 1 {
        lemma_starts_go_up(bins, i, j - 1);
    }
}

/// The merged rows fall into the bins of the first rows they were merged from.
proof fn lemma_merged_slots(rows: Seq<Row>, slot: spec_fn(Binary64) -> i64, means: Seq<Means>)
    requires
        means.len() == starts(slots(rows, slot)).len(),
    ensures
        slots(decimated(rows, slots(rows, slot), means), slot) == start_numbers(
            slots(rows, slot),
        ),
{
    let bins = slots(rows, slot);
    let out = decimated(rows, bins, means);
    starts_divide(bins);
    decimation_keeps_time(rows, bins, means);
    assert forall|j: int| 0 <= j < out.len() implies slots(out, slot)[j] == start_numbers(
        bins,
    )[j] by {
        assert(out[j].t == rows[starts(bins)[j]].t);
    }
    assert(slots(out, slot) =~= start_numbers(bins));
}

/// Merged rows fall into bins of their own, each into that of its first row, so
/// neighbours differ; where the numbers of the rows do not go down, those of the
/// merged rows go up, and there is one merged row for each number.
pub proof fn merged_rows_stand_alone(
    rows: Seq<Row>,
    slot: spec_fn(Binary64) -> i64,
    means: Seq<Means>,
)
    requires
        means.len() == starts(slots(rows, slot)).len(),
    ensures
        ({
            let bins = slots(rows, slot);
            let merged = slots(decimated(rows, bins, means), slot);
            &&& merged == start_numbers(bins)
            &&& forall|j: int| 0 < j < merged.len() ==> #[trigger] merged[j] != merged[j - 1]
            &&& (forall|i: int, j: int|
                0 <= i <= j < bins.len() ==> #[trigger] bins[i] <= #[trigger] bins[j])
                ==> forall|i: int, j: int|
                0 <= i < j < merged.len() ==> #[trigger] merged[i] < #[trigger] merged[j]
        }),
{
    let bins = slots(rows, slot);
    let merged = slots(decimated(rows, bins, means), slot);
    lemma_merged_slots(rows, slot, means);
    assert forall|j: int| 0 < j < merged.len() implies #[trigger] merged[j] != merged[j - 1] by {
        lemma_neighbours_differ(bins, j);
    }
    if forall|i: int, j: int|
        0 <= i <= j < bins.len() ==> #[trigger] bins[i] <= #[trigger] bins[j] {
        assert forall|i: int, j: int| 0 <= i < j < merged.len() implies #[trigger] merged[i]
            < #[trigger] merged[j] by {
            lemma_starts_go_up(bins, i, j);
        }
    }
}

/// Merging merged rows again for the same rate changes nothing. The averages over
/// a bin of one row are the row's own numbers.
pub proof fn merging_again_changes_nothing(
    rows: Seq<Row>,
    slot: spec_fn(Binary64) -> i64,
    means: Seq<Means>,
    again: Seq<Means>,
)
    requires
        means.len() == starts(slots(rows, slot)).len(),
        ({
            let merged = decimated(rows, slots(rows, slot), means);
            again == merged.map_values(|r: Row| means_of_one(r))
        }),
    ensures
        ({
            let merged = decimated(rows, slots(rows, slot), means);
            decimated(merged, slots(merged, slot), again) == merged
        }),
{
    let bins = slots(rows, slot);
    let merged = decimated(rows, bins, means);
    let numbers = slots(merged, slot);
    merged_rows_stand_alone(rows, slot, means);
    lemma_all_start(numbers);
    let out = decimated(merged, numbers, again);
    assert(out.len() == merged.len());
    assert forall|j: int| 0 <= j < out.len() implies #[trigger] out[j] == merged[j] by {
        assert(starts(numbers)[j] == j);
        assert(bin_end(numbers, j) == j + 1);
        assert(again[j] == means_of_one(merged[j]));
        reveal_with_fuel(first_located, 2);
        lemma_merged_alone(rows, starts(bins)[j], bin_end(bins, j), means[j]);
    }
    assert(out =~= merged);
}

/// A merged row has a combined acceleration where it has both of its parts.
proof fn lemma_merged_alone(rows: Seq<Row>, from: int, to: int, m: Means)
    ensures
        ({
            let r = merged_row(rows, from, to, m);
            r.combined is Some <==> r.lateral is Some && r.longitudinal is Some
        }),
{
}

/// No rows are merged to no rows.
pub proof fn nothing_merges_to_nothing(means: Seq<Means>)
    ensures
        decimated(Seq::empty(), Seq::empty(), means) == Seq::<Row>::empty(),
{
    assert(decimated(Seq::empty(), Seq::empty(), means) =~= Seq::<Row>::empty());
}

/// Whether two rows differ at most in their accelerations along the vehicle axes,
/// which are there in both or in neither.
pub open spec fn differ_in_motion(a: Row, b: Row) -> bool {
    &&& a == (Row {
        lateral: a.lateral,
        longitudinal: a.longitudinal,
        vertical: a.vertical,
        combined: a.combined,
        ..b
    })
    &&& a.lateral is Some == b.lateral is Some
    &&& a.longitudinal is Some == b.longitudinal is Some
    &&& a.vertical is Some == b.vertical is Some
    &&& a.combined is Some == b.combined is Some
}

/// Whether the numbers of two samples differ at most in the acceleration without
/// gravity, which is there in both or in neither.
pub open spec fn differ_in_dynamic(a: Numbers, b: Numbers) -> bool {
    &&& a == (Numbers { dynamic: a.dynamic, combined: a.combined, ..b })
    &&& a.dynamic is Some == b.dynamic is Some
}

proof fn lemma_kept_alike(a: Seq<Row>, b: Seq<Row>)
    requires
        a.len() == b.len(),
        forall|i: int| 0 <= i < a.len() ==> differ_in_motion(#[trigger] a[i], b[i]),
    ensures
        kept(a).len() == kept(b).len(),
        forall|i: int| 0 <= i < kept(a).len() ==> differ_in_motion(#[trigger] kept(a)[i], kept(b)[i]),
    decreases a.len(),
{
    if a.len() > 0 {
        let (fa, fb) = (a.drop_last(), b.drop_last());
        assert forall|i: int| 0 <= i < fa.len() implies differ_in_motion(
            #[trigger] fa[i],
            fb[i],
        ) by {
            assert(differ_in_motion(a[i], b[i]));
        }
        lemma_kept_alike(fa, fb);
        assert(differ_in_motion(a[a.len() - 1], b[a.len() - 1]));
        let (ka, kb) = (kept(fa), kept(fb));
        if ka.len() > 0 {
            assert(differ_in_motion(ka[ka.len() - 1], kb[ka.len() - 1]));
        }
        assert forall|i: int| 0 <= i < kept(a).len() implies differ_in_motion(
            #[trigger] kept(a)[i],
            kept(b)[i],
        ) by {
            if i < ka.len() {
                assert(differ_in_motion(ka[i], kb[i]));
            }
        }
    }
}

/// Levelling changes nothing but the accelerations along the vehicle axes: with
/// and without it a clip has the same tilt, gravity and units, and its rows match
/// one to one. Whether it was levelled is told by the tilt being known.
pub proof fn levelling_changes_only_motion(
    a: Telemetry,
    b: Telemetry,
    info: ClipFacts,
    samples: Seq<Sample>,
    options: ProcessOptions,
    measured: Measured,
    levelled: Seq<Numbers>,
    plain: Seq<Numbers>,
)
    requires
        samples.len() == levelled.len() == plain.len(),
        forall|i: int|
            0 <= i < plain.len() ==> differ_in_dynamic(#[trigger] levelled[i], plain[i]),
        is_processed(
            a,
            info,
            samples,
            (ProcessOptions { level: true, ..options }),
            measured,
            levelled,
        ),
        is_processed(
            b,
            info,
            samples,
            (ProcessOptions { level: false, ..options }),
            measured,
            plain,
        ),
    ensures
        a.levelled == a.tilt_deg is Some,
        !b.levelled,
        a.info@ == b.info@,
        a.unit == b.unit,
        a.unit_median_magnitude == b.unit_median_magnitude,
        a.gravity_used == b.gravity_used,
        a.gravity_world == b.gravity_world,
        a.axis_medians == b.axis_medians,
        a.tilt_deg == b.tilt_deg,
        a.rows@.len() == b.rows@.len(),
        forall|i: int|
            0 <= i < a.rows@.len() ==> differ_in_motion(#[trigger] a.rows@[i], b.rows@[i]),
{
    let x = rows_for(samples, levelled, options.axes);
    let y = rows_for(samples, plain, options.axes);
    assert forall|i: int| 0 <= i < x.len() implies differ_in_motion(#[trigger] x[i], y[i]) by {
        assert(differ_in_dynamic(levelled[i], plain[i]));
    }
    lemma_kept_alike(x, y);
}

} // verus!
