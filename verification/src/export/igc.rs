//! IGC flight log. One `B` record per second (IGC time resolution) with the
//! `GSP` (ground speed, 0.01 km/h) and `TRT` (true track, degrees) extensions
//! that OVRLEY's IGC importer understands.

use crate::dji;
use crate::dji::ClipInfo;
use crate::ieee::Binary64;
use crate::process;
use crate::process::{Row, Telemetry};
use crate::text;
use crate::time;
use crate::time::calendar;
use crate::time::Timestamp;
use vstd::arithmetic::power::pow;
use vstd::prelude::*;

verus! {

/// A coordinate by its size in degrees and thousandths of a minute. What is more
/// than fits counts as the largest number that does.
#[derive(Debug, Clone, Copy, PartialEq, Eq, Structural)]
pub struct Angle {
    /// Whole degrees of the size.
    pub degrees: u32,
    /// The rest in thousandths of a minute, rounded: up to 60000.
    pub thousandths: u32,
}

/// The rounded numbers of a record. A number counts only where the row has what
/// it stands for.
#[derive(Debug, Clone, Copy, PartialEq, Eq, Structural)]
pub struct RecordNumbers {
    /// The time in microseconds.
    pub micros: i64,
    pub latitude: Angle,
    pub longitude: Angle,
    /// In metres.
    pub altitude: i64,
    /// In hundredths of a km/h.
    pub speed: i64,
    /// In degrees.
    pub heading: i64,
}

/// The digits of an angle, with `width` digits for the degrees. Sixty minutes
/// are a degree more.
pub open spec fn angle_digits(a: Angle, width: nat) -> Seq<char> {
    if a.thousandths >= 60_000 {
        let degrees = if a.degrees == u32::MAX {
            a.degrees as nat
        } else {
            (a.degrees + 1) as nat
        };
        text::padded(degrees, width) + text::padded(0, 5)
    } else {
        text::padded(a.degrees as nat, width) + text::padded(a.thousandths as nat, 5)
    }
}

/// Whether a number is 0 or more.
pub open spec fn upward(v: Binary64) -> bool {
    (Binary64 { bits: 0 }).at_most(v)
}

/// The field of a latitude.
pub open spec fn latitude_digits(lat: Binary64, a: Angle) -> Seq<char> {
    angle_digits(a, 2) + if upward(lat) {
        "N"@
    } else {
        "S"@
    }
}

/// The field of a longitude.
pub open spec fn longitude_digits(lon: Binary64, a: Angle) -> Seq<char> {
    angle_digits(a, 3) + if upward(lon) {
        "E"@
    } else {
        "W"@
    }
}

/// `v` within the bounds `lo` and `hi`.
pub open spec fn within(v: int, lo: int, hi: int) -> int {
    if v < lo {
        lo
    } else if v > hi {
        hi
    } else {
        v
    }
}

/// The field of an altitude in metres.
pub open spec fn altitude_digits(metres: int) -> Seq<char> {
    let v = within(metres, -9999, 99_999);
    if v < 0 {
        "-"@ + text::padded((-v) as nat, 4)
    } else {
        text::padded(v as nat, 5)
    }
}

fn angle_text(a: Angle, width: usize) -> (r: String)
    ensures
        r@ == angle_digits(a, width as nat),
{
    let (degrees, thousandths): (u64, u64) = if a.thousandths >= 60_000 {
        let degrees: u64 = if a.degrees == u32::MAX {
            a.degrees as u64
        } else {
            (a.degrees + 1) as u64
        };
        (degrees, 0)
    } else {
        (a.degrees as u64, a.thousandths as u64)
    };
    let mut out: String = text::padded_text(degrees, width);
    out.append(text::padded_text(thousandths, 5).as_str());
    out
}

fn is_upward(v: Binary64) -> (r: bool)
    ensures
        r == upward(v),
{
    let zero: Binary64 = Binary64 { bits: 0 };
    zero.le(v)
}

/// The field of a latitude, `a` being its size.
pub fn lat_field(lat: Binary64, a: Angle) -> (r: String)
    ensures
        r@ == latitude_digits(lat, a),
{
    let mut out: String = angle_text(a, 2);
    if is_upward(lat) {
        out.append("N");
    } else {
        out.append("S");
    }
    out
}

/// The field of a longitude, `a` being its size.
pub fn lon_field(lon: Binary64, a: Angle) -> (r: String)
    ensures
        r@ == longitude_digits(lon, a),
{
    let mut out: String = angle_text(a, 3);
    if is_upward(lon) {
        out.append("E");
    } else {
        out.append("W");
    }
    out
}

fn clamp(v: i64, lo: i64, hi: i64) -> (r: i64)
    requires
        lo <= hi,
    ensures
        r == within(v as int, lo as int, hi as int),
{
    if v < lo {
        lo
    } else if v > hi {
        hi
    } else {
        v
    }
}

/// The field of an altitude, rounded to metres.
pub fn alt_field(metres: i64) -> (r: String)
    ensures
        r@ == altitude_digits(metres as int),
{
    let v: i64 = clamp(metres, -9999, 99_999);
    if v < 0 {
        let mut out: String = String::from_str("-");
        out.append(text::padded_text((-v) as u64, 4).as_str());
        out
    } else {
        text::padded_text(v as u64, 5)
    }
}

/// The hours, minutes and seconds of a moment.
pub open spec fn clock_digits(secs: int) -> Seq<char> {
    let s = secs % 86_400;
    text::padded((s / 3600) as nat, 2) + text::padded((s / 60 % 60) as nat, 2) + text::padded(
        (s % 60) as nat,
        2,
    )
}

/// The `B` record of a row at a moment. A row without a number has 0 in its
/// place.
pub open spec fn b_record(secs: int, r: Row, n: RecordNumbers) -> Seq<char>
    recommends
        process::located(r),
{
    let altitude = if r.altitude_m is Some {
        n.altitude as int
    } else {
        0
    };
    let speed = if r.speed_ms is Some {
        n.speed as int
    } else {
        0
    };
    let heading = if r.heading_deg is Some {
        n.heading as int
    } else {
        0
    };
    "B"@ + clock_digits(secs) + latitude_digits(r.latitude->0, n.latitude) + longitude_digits(
        r.longitude->0,
        n.longitude,
    ) + "A"@ + altitude_digits(altitude) + altitude_digits(altitude) + text::padded(
        within(speed, 0, 99_999) as nat,
        5,
    ) + text::padded((heading % 360) as nat, 3) + "\n"@
}

/// What has been written of the records.
pub struct Log {
    pub text: Seq<char>,
    /// The seconds of the records.
    pub seconds: Seq<int>,
}

/// The records after one more row: one for each row with a position and a time,
/// unless the last record is of the same second.
pub open spec fn with_row(w: Log, t: Telemetry, r: Row, n: RecordNumbers) -> Log {
    if process::located(r) {
        match process::best_moment(t.info@, n.micros as int) {
            Some(m) => if w.seconds.len() > 0 && w.seconds.last() == m.secs {
                w
            } else {
                Log { text: w.text + b_record(m.secs, r, n), seconds: w.seconds.push(m.secs) }
            },
            None => w,
        }
    } else {
        w
    }
}

/// The records of the first `k` rows.
pub open spec fn log(t: Telemetry, numbers: Seq<RecordNumbers>, k: nat) -> Log
    decreases k,
{
    if k == 0 {
        Log { text: Seq::empty(), seconds: Seq::empty() }
    } else {
        with_row(log(t, numbers, (k - 1) as nat), t, t.rows@[k - 1], numbers[k - 1])
    }
}

/// The time of the first row with a position, and 0 without one.
pub open spec fn first_fix_time(rows: Seq<Row>, numbers: Seq<RecordNumbers>, from: nat) -> int
    decreases rows.len() - from,
{
    if from >= rows.len() {
        0
    } else if process::located(rows[from as int]) {
        numbers[from as int].micros as int
    } else {
        first_fix_time(rows, numbers, from + 1)
    }
}

/// A number in at least two characters.
pub open spec fn two_digits(n: int) -> Seq<char> {
    if n < 0 {
        "-"@ + text::decimal((-n) as nat)
    } else {
        text::padded(n as nat, 2)
    }
}

/// The remainder of a division towards zero.
pub open spec fn remainder(a: int, b: int) -> int {
    a - time::quotient(a, b) * b
}

/// The line with the date.
pub open spec fn date_line(m: Option<time::Moment>) -> Seq<char> {
    match m {
        Some(m) => "HFDTE"@ + text::padded(calendar::date_of(m.secs).day as nat, 2) + text::padded(
            calendar::date_of(m.secs).month as nat,
            2,
        ) + two_digits(remainder(calendar::date_of(m.secs).year, 100)) + "\n"@,
        None => Seq::empty(),
    }
}

/// A header line with a text of the clip, if there is one.
pub open spec fn header_line(label: Seq<char>, value: Option<Seq<char>>) -> Seq<char> {
    match value {
        Some(v) => label + v + "\n"@,
        None => Seq::empty(),
    }
}

/// A text, or another one without it.
pub open spec fn or(value: Option<Seq<char>>, other: Seq<char>) -> Option<Seq<char>> {
    match value {
        Some(v) => Some(v),
        None => Some(other),
    }
}

/// The header records behind the date.
pub open spec fn equipment(info: dji::ClipFacts, name: Seq<char>) -> Seq<char> {
    "HFFXA010\n"@ + "HFPLTPILOTINCHARGE:\n"@ + header_line(
        "HFGTYGLIDERTYPE:"@,
        or(info.model, "DJI camera"@),
    ) + header_line("HFGIDGLIDERID:"@, or(info.serial, Seq::empty())) + "HFDTMGPSDATUM:WGS84\n"@
        + header_line("HFRFWFIRMWAREVERSION:"@, info.firmware) + header_line(
        "HFRHWHARDWAREVERSION:"@,
        info.remote_name,
    ) + header_line("HFGPSRECEIVER:"@, info.remote_name) + "HFFTYFRTYPE:"@ + super::APP_NAME@ + ","@
        + super::APP_VERSION@ + "\n"@ + "HFPRSPRESSALTSENSOR:NONE\n"@ + "HFCIDCOMPETITIONID:"@
        + name + "\n"@
}

/// What stands before the `B` records.
pub open spec fn preamble(t: Telemetry, name: Seq<char>, first: int) -> Seq<char> {
    "AXXXDJI-TELEMETRY-EXPORT\n"@ + date_line(process::best_moment(t.info@, first)) + equipment(
        t.info@,
        name,
    ) + if process::after(dji::utc_start(t.info@), 0) is None {
        "LXXXTIMES ARE CAMERA LOCAL TIME (UTC OFFSET UNKNOWN)\n"@
    } else {
        Seq::empty()
    } + "I023640GSP4143TRT\n"@
}

/// The file.
pub open spec fn content(t: Telemetry, source: Seq<char>, numbers: Seq<RecordNumbers>) -> Seq<
    char,
> {
    preamble(t, text::base_name(source), first_fix_time(t.rows@, numbers, 0)) + log(
        t,
        numbers,
        t.rows@.len(),
    ).text
}

fn clock_text(when: Timestamp) -> (r: String)
    ensures
        r@ == clock_digits(when@.secs),
{
    let s: u64 = when.second_of_day() as u64;
    let mut out: String = text::padded_text(s / 3600, 2);
    out.append(text::padded_text(s / 60 % 60, 2).as_str());
    out.append(text::padded_text(s % 60, 2).as_str());
    out
}

fn direction(heading: i64) -> (r: u64)
    ensures
        r == heading as int % 360,
{
    if heading >= 0 {
        (heading % 360) as u64
    } else {
        let rest: u64 = ((-(heading + 1)) as u64) % 360;
        proof {
            let q = (-(heading + 1)) / 360;
            assert(-(heading + 1) == q * 360 + rest);
            assert(heading == (-q - 1) * 360 + (359 - rest));
        }
        359 - rest
    }
}

fn b_record_text(when: Timestamp, r: &Row, n: &RecordNumbers, lat: Binary64, lon: Binary64) -> (out:
    String)
    requires
        r.latitude == Some(lat),
        r.longitude == Some(lon),
    ensures
        out@ == b_record(when@.secs, *r, *n),
{
    let altitude: i64 = if r.altitude_m.is_some() {
        n.altitude
    } else {
        0
    };
    let speed: i64 = if r.speed_ms.is_some() {
        n.speed
    } else {
        0
    };
    let heading: i64 = if r.heading_deg.is_some() {
        n.heading
    } else {
        0
    };
    let mut out: String = String::from_str("B");
    out.append(clock_text(when).as_str());
    out.append(lat_field(lat, n.latitude).as_str());
    out.append(lon_field(lon, n.longitude).as_str());
    out.append("A");
    out.append(alt_field(altitude).as_str());
    out.append(alt_field(altitude).as_str());
    out.append(text::padded_text(clamp(speed, 0, 99_999) as u64, 5).as_str());
    out.append(text::padded_text(direction(heading), 3).as_str());
    out.append("\n");
    out
}

fn first_fix(rows: &[Row], numbers: &[RecordNumbers]) -> (r: i64)
    requires
        rows@.len() == numbers@.len(),
    ensures
        r == first_fix_time(rows@, numbers@, 0),
{
    let mut i: usize = 0;
    while i < rows.len()
        invariant
            i <= rows@.len(),
            rows@.len() == numbers@.len(),
            first_fix_time(rows@, numbers@, 0) == first_fix_time(rows@, numbers@, i as nat),
        decreases rows@.len() - i,
    {
        if rows[i].has_gps() {
            return numbers[i].micros;
        }
        i = i + 1;
    }
    0
}

fn date_text(when: Option<Timestamp>) -> (r: String)
    ensures
        r@ == date_line(time::moment(when)),
{
    match when {
        Some(s) => {
            let mut out: String = String::from_str("HFDTE");
            out.append(text::padded_text(s.day() as u64, 2).as_str());
            out.append(text::padded_text(s.month() as u64, 2).as_str());
            let year: i64 = s.year() as i64;
            if year >= 0 {
                out.append(text::padded_text((year % 100) as u64, 2).as_str());
            } else {
                let rest: u64 = ((-year) as u64) % 100;
                if rest == 0 {
                    out.append(text::padded_text(0, 2).as_str());
                } else {
                    let mut short: String = String::from_str("-");
                    short.append(text::decimal_text(rest).as_str());
                    out.append(short.as_str());
                }
            }
            out.append("\n");
            out
        },
        None => String::new(),
    }
}

fn add_line(out: &mut String, label: &str, value: &str)
    ensures
        final(out)@ == old(out)@ + header_line(label@, Some(value@)),
{
    out.append(label);
    out.append(value);
    out.append("\n");
    assert(out@ =~= old(out)@ + header_line(label@, Some(value@)));
}

fn add_optional(out: &mut String, label: &str, value: &Option<String>)
    ensures
        final(out)@ == old(out)@ + header_line(label@, dji::chars(*value)),
{
    match value {
        Some(v) => add_line(out, label, v.as_str()),
        None => {
            assert(out@ =~= old(out)@ + Seq::<char>::empty());
        },
    }
}

fn equipment_text(info: &ClipInfo, name: &str) -> (r: String)
    ensures
        r@ == equipment(info@, name@),
{
    let mut out: String = String::from_str("HFFXA010\n");
    out.append("HFPLTPILOTINCHARGE:\n");
    match &info.model {
        Some(m) => add_line(&mut out, "HFGTYGLIDERTYPE:", m.as_str()),
        None => add_line(&mut out, "HFGTYGLIDERTYPE:", "DJI camera"),
    }
    match &info.serial {
        Some(s) => add_line(&mut out, "HFGIDGLIDERID:", s.as_str()),
        None => {
            let none: String = String::new();
            add_line(&mut out, "HFGIDGLIDERID:", none.as_str());
        },
    }
    out.append("HFDTMGPSDATUM:WGS84\n");
    add_optional(&mut out, "HFRFWFIRMWAREVERSION:", &info.firmware);
    add_optional(&mut out, "HFRHWHARDWAREVERSION:", &info.remote_name);
    add_optional(&mut out, "HFGPSRECEIVER:", &info.remote_name);
    out.append("HFFTYFRTYPE:");
    out.append(super::APP_NAME);
    out.append(",");
    out.append(super::APP_VERSION);
    out.append("\n");
    out.append("HFPRSPRESSALTSENSOR:NONE\n");
    out.append("HFCIDCOMPETITIONID:");
    out.append(name);
    out.append("\n");
    out
}

/// Writes a flight log with a record for each second that has a position.
/// `numbers` holds the numbers of each row.
pub fn render(telemetry: &Telemetry, source_name: &str, numbers: &[RecordNumbers]) -> (r: String)
    requires
        telemetry.rows@.len() == numbers@.len(),
    ensures
        r@ == content(*telemetry, source_name@, numbers@),
{
    let base: String = super::base_name(source_name);
    let first: i64 = first_fix(telemetry.rows.as_slice(), numbers);
    let mut out: String = String::from_str("AXXXDJI-TELEMETRY-EXPORT\n");
    out.append(date_text(telemetry.best_time(first)).as_str());
    out.append(equipment_text(&telemetry.info, base.as_str()).as_str());
    let note: String = if telemetry.utc_time(0).is_none() {
        String::from_str("LXXXTIMES ARE CAMERA LOCAL TIME (UTC OFFSET UNKNOWN)\n")
    } else {
        String::new()
    };
    out.append(note.as_str());
    // Extensions: bytes 36-40 GSP (5 digits), 41-43 TRT (3 digits)
    out.append("I023640GSP4143TRT\n");
    let ghost head = out@;
    assert(head == preamble(*telemetry, base@, first as int));

    let mut last: Option<i64> = None;
    let mut i: usize = 0;
    assert(out@ =~= head + log(*telemetry, numbers@, 0).text);
    while i < telemetry.rows.len()
        invariant
            i <= telemetry.rows@.len(),
            telemetry.rows@.len() == numbers@.len(),
            out@ == head + log(*telemetry, numbers@, i as nat).text,
            match last {
                Some(s) => log(*telemetry, numbers@, i as nat).seconds.len() > 0 && log(
                    *telemetry,
                    numbers@,
                    i as nat,
                ).seconds.last() == s,
                None => log(*telemetry, numbers@, i as nat).seconds.len() == 0,
            },
        decreases telemetry.rows@.len() - i,
    {
        let ghost w = log(*telemetry, numbers@, i as nat);
        let r: &Row = &telemetry.rows[i];
        let n: &RecordNumbers = &numbers[i];
        if let (Some(lat), Some(lon)) = (r.latitude, r.longitude) {
            if let Some(when) = telemetry.best_time(n.micros) {
                let second: i64 = when.timestamp();
                let same: bool = match last {
                    Some(s) => s == second,
                    None => false,
                };
                if !same {
                    last = Some(second);
                    out.append(b_record_text(when, r, n, lat, lon).as_str());
                }
            }
        }
        i = i + 1;
        assert(log(*telemetry, numbers@, i as nat) == with_row(w, *telemetry, *r, *n));
        assert(out@ =~= head + log(*telemetry, numbers@, i as nat).text);
    }
    out
}

/// A record is 43 characters wide, as long as the degrees have no more digits
/// than their fields.
pub proof fn records_are_fixed_width(secs: int, r: Row, n: RecordNumbers)
    requires
        n.latitude.degrees < 99,
        n.longitude.degrees < 999,
    ensures
        b_record(secs, r, n).len() == 44,
        b_record(secs, r, n)[0] == 'B',
        b_record(secs, r, n)[43] == '\n',
{
    reveal_strlit("B");
    reveal_strlit("A");
    reveal_strlit("N");
    reveal_strlit("S");
    reveal_strlit("E");
    reveal_strlit("W");
    reveal_strlit("-");
    reveal_strlit("\n");
    assert(pow(10, 2) == 100 && pow(10, 3) == 1000 && pow(10, 4) == 10_000 && pow(10, 5)
        == 100_000) by {
        reveal_with_fuel(pow, 6);
    }
    assert forall|k: nat| k < 100 implies #[trigger] text::padded(k, 2).len() == 2 by {
        text::padded_is_wide(k, 2);
    }
    assert forall|k: nat| k < 1000 implies #[trigger] text::padded(k, 3).len() == 3 by {
        text::padded_is_wide(k, 3);
    }
    assert forall|k: nat| k < 10_000 implies #[trigger] text::padded(k, 4).len() == 4 by {
        text::padded_is_wide(k, 4);
    }
    assert forall|k: nat| k < 100_000 implies #[trigger] text::padded(k, 5).len() == 5 by {
        text::padded_is_wide(k, 5);
    }
    let s = secs % 86_400;
    assert(0 <= s / 3600 < 24 && 0 <= s / 60 % 60 < 60 && 0 <= s % 60 < 60);
    assert(clock_digits(secs).len() == 6);
}

/// No record is of the same second as the one before it.
pub proof fn one_record_a_second(t: Telemetry, numbers: Seq<RecordNumbers>, k: nat, i: int)
    requires
        0 < i < log(t, numbers, k).seconds.len(),
    ensures
        log(t, numbers, k).seconds[i - 1] != log(t, numbers, k).seconds[i],
    decreases k,
{
    let before = log(t, numbers, (k - 1) as nat);
    if i < before.seconds.len() {
        one_record_a_second(t, numbers, (k - 1) as nat, i);
    }
}

/// With a known UTC offset, rows that do not go back in time give records that
/// go forward by a second or more each.
pub proof fn records_go_forward(t: Telemetry, start: time::Moment, numbers: Seq<RecordNumbers>, k: nat)
    requires
        k <= t.rows@.len(),
        k <= numbers.len(),
        dji::utc_start(t.info@) == Some(start),
        time::representable(start),
        start.nanos < 1_000_000_000,
        forall|i: int|
            0 <= i < k ==> process::after(Some(start), (#[trigger] numbers[i]).micros as int) is Some,
        forall|i: int, j: int|
            0 <= i <= j < k ==> (#[trigger] numbers[i]).micros <= (#[trigger] numbers[j]).micros,
    ensures
        ({
            let s = log(t, numbers, k).seconds;
            &&& forall|i: int, j: int|
                0 <= i < j < s.len() ==> #[trigger] s[i] < #[trigger] s[j]
            &&& s.len() > 0 ==> k > 0 && s.last() <= process::after(
                Some(start),
                numbers[k - 1].micros as int,
            )->0.secs
        }),
    decreases k,
{
    if k > 0 {
        let p = (k - 1) as nat;
        records_go_forward(t, start, numbers, p);
        let w = log(t, numbers, p).seconds;
        let s = log(t, numbers, k).seconds;
        let m = process::after(Some(start), numbers[k - 1].micros as int)->0;
        assert(process::best_moment(t.info@, numbers[k - 1].micros as int) == Some(m));
        if w.len() > 0 {
            assert(numbers[p - 1].micros <= numbers[k - 1].micros);
            time::shifts_keep_order(
                start,
                numbers[p - 1].micros * 1000,
                numbers[k - 1].micros * 1000,
            );
        }
        assert(s == w || s == w.push(m.secs));
        if s.len() > w.len() {
            assert forall|i: int, j: int| 0 <= i < j < s.len() implies #[trigger] s[i]
                < #[trigger] s[j] by {
                if j == w.len() && i < w.len() - 1 {
                    assert(w[i] < w[w.len() - 1]);
                }
            }
        }
    }
}

} // verus!
