//! What the records and headers of flight logs say.

use crate::dji;
use crate::export;
use crate::export::igc;
use crate::export::igc::{Angle, RecordNumbers};
use crate::ieee::Binary64;
use crate::process;
use crate::process::{Row, Telemetry};
use crate::text;
use crate::text::laws;
use crate::time::calendar;
use crate::time::calendar::Date;
use crate::time::Moment;
use vstd::prelude::*;

verus! {

proof fn lemma_pads(n: nat)
    ensures
        n < 100 ==> text::padded(n, 2).len() == 2,
        n < 1000 ==> text::padded(n, 3).len() == 3,
        n < 10_000 ==> text::padded(n, 4).len() == 4,
        n < 100_000 ==> text::padded(n, 5).len() == 5,
        laws::value(text::padded(n, 2)) == n,
        laws::value(text::padded(n, 3)) == n,
        laws::value(text::padded(n, 4)) == n,
        laws::value(text::padded(n, 5)) == n,
{
    laws::widths_hold();
    laws::decimals_read_back(n, 2);
    laws::decimals_read_back(n, 3);
    laws::decimals_read_back(n, 4);
    laws::decimals_read_back(n, 5);
    if n < 100 {
        text::padded_is_wide(n, 2);
    }
    if n < 1000 {
        text::padded_is_wide(n, 3);
    }
    if n < 10_000 {
        text::padded_is_wide(n, 4);
    }
    if n < 100_000 {
        text::padded_is_wide(n, 5);
    }
}

/// The time of day of a record: two digits each for hours, minutes and seconds.
pub proof fn clocks_tell_the_second(secs: int)
    ensures
        ({
            let s = igc::clock_digits(secs);
            &&& s.len() == 6
            &&& laws::field(s, 0, 2) * 3600 + laws::field(s, 2, 4) * 60 + laws::field(s, 4, 6)
                == secs % 86_400
            &&& laws::field(s, 2, 4) < 60
            &&& laws::field(s, 4, 6) < 60
        }),
{
    let s = igc::clock_digits(secs);
    let d = secs % 86_400;
    let (h, m, x) = ((d / 3600) as nat, (d / 60 % 60) as nat, (d % 60) as nat);
    lemma_pads(h);
    lemma_pads(m);
    lemma_pads(x);
    assert(s.subrange(0, 2) =~= text::padded(h, 2));
    assert(s.subrange(2, 4) =~= text::padded(m, 2));
    assert(s.subrange(4, 6) =~= text::padded(x, 2));
}

/// The digits of an angle write its degrees and thousandths of minutes, and whole
/// degrees do not stand among the minutes.
pub proof fn angles_keep_their_size(a: Angle, width: int)
    requires
        width == 2 || width == 3,
        a.degrees < if width == 2 {
            99int
        } else {
            999
        },
        a.thousandths <= 60_000,
    ensures
        ({
            let s = igc::angle_digits(a, width as nat);
            &&& s.len() == width + 5
            &&& laws::field(s, 0, width) * 60_000 + laws::field(s, width, width + 5) == a.degrees
                * 60_000 + a.thousandths
            &&& laws::field(s, width, width + 5) < 60_000
        }),
{
    let s = igc::angle_digits(a, width as nat);
    lemma_pads(a.degrees as nat);
    lemma_pads((a.degrees + 1) as nat);
    lemma_pads(a.thousandths as nat);
    lemma_pads(0);
    if a.thousandths >= 60_000 {
        assert(s.subrange(0, width) =~= text::padded((a.degrees + 1) as nat, width as nat));
        assert(s.subrange(width, width + 5) =~= text::padded(0, 5));
    } else {
        assert(s.subrange(0, width) =~= text::padded(a.degrees as nat, width as nat));
        assert(s.subrange(width, width + 5) =~= text::padded(a.thousandths as nat, 5));
    }
}

/// Positions from the equator on are north and from the meridian on east, others south
/// and west.
pub proof fn hemispheres_follow_signs(v: Binary64, a: Angle)
    requires
        a.degrees < 99,
    ensures
        igc::latitude_digits(v, a).take(7) == igc::angle_digits(a, 2),
        igc::latitude_digits(v, a).len() == 8,
        !v.nan() && v.scaled() >= 0 ==> igc::latitude_digits(v, a)[7] == 'N',
        v.nan() || v.scaled() < 0 ==> igc::latitude_digits(v, a)[7] == 'S',
        igc::longitude_digits(v, a).take(8) == igc::angle_digits(a, 3),
        igc::longitude_digits(v, a).len() == 9,
        !v.nan() && v.scaled() >= 0 ==> igc::longitude_digits(v, a)[8] == 'E',
        v.nan() || v.scaled() < 0 ==> igc::longitude_digits(v, a)[8] == 'W',
{
    reveal_strlit("N");
    reveal_strlit("S");
    reveal_strlit("E");
    reveal_strlit("W");
    lemma_pads(a.degrees as nat);
    lemma_pads((a.degrees + 1) as nat);
    lemma_pads(0);
    if a.thousandths < 60_000 {
        lemma_pads(a.thousandths as nat);
    }
    let zero = Binary64 { bits: 0 };
    assert(!zero.nan() && zero.scaled() == 0);
    assert(igc::latitude_digits(v, a).take(7) =~= igc::angle_digits(a, 2));
    assert(igc::longitude_digits(v, a).take(8) =~= igc::angle_digits(a, 3));
}

/// An altitude takes five characters, of which the first is the sign of a negative
/// one. What does not fit is the nearest that does.
pub proof fn altitudes_keep_their_size(v: int)
    ensures
        igc::altitude_digits(v).len() == 5,
        0 <= v <= 99_999 ==> laws::value(igc::altitude_digits(v)) == v,
        v > 99_999 ==> laws::value(igc::altitude_digits(v)) == 99_999,
        v < 0 ==> igc::altitude_digits(v)[0] == '-',
        -9999 <= v < 0 ==> laws::value(igc::altitude_digits(v).skip(1)) == -v,
        v < -9999 ==> laws::value(igc::altitude_digits(v).skip(1)) == 9999,
{
    reveal_strlit("-");
    let w = igc::within(v, -9999, 99_999);
    if w < 0 {
        lemma_pads((-w) as nat);
        assert(igc::altitude_digits(v).skip(1) =~= text::padded((-w) as nat, 4));
    } else {
        lemma_pads(w as nat);
    }
}

proof fn lemma_cut(
    s: Seq<char>,
    clock: Seq<char>,
    lat: Seq<char>,
    lon: Seq<char>,
    alt: Seq<char>,
    speed: Seq<char>,
    track: Seq<char>,
)
    requires
        clock.len() == 6,
        lat.len() == 8,
        lon.len() == 9,
        alt.len() == 5,
        speed.len() == 5,
        track.len() == 3,
        s == seq!['B'] + clock + lat + lon + seq!['A'] + alt + alt + speed + track + seq!['\n'],
    ensures
        s.len() == 44,
        s[0] == 'B',
        s.subrange(1, 7) == clock,
        s.subrange(7, 15) == lat,
        s.subrange(15, 24) == lon,
        s[24] == 'A',
        s.subrange(25, 30) == alt,
        s.subrange(30, 35) == alt,
        s.subrange(35, 40) == speed,
        s.subrange(40, 43) == track,
        s[43] == '\n',
{
    assert(s.subrange(1, 7) =~= clock);
    assert(s.subrange(7, 15) =~= lat);
    assert(s.subrange(15, 24) =~= lon);
    assert(s.subrange(25, 30) =~= alt);
    assert(s.subrange(30, 35) =~= alt);
    assert(s.subrange(35, 40) =~= speed);
    assert(s.subrange(40, 43) =~= track);
}

/// The fields of a record: the time, the latitude, the longitude, a valid position, and
/// the altitude twice, or 0 where there is none.
pub proof fn records_have_their_fields(secs: int, r: Row, n: RecordNumbers)
    requires
        n.latitude.degrees < 99,
        n.longitude.degrees < 999,
        r.latitude is Some,
        r.longitude is Some,
    ensures
        ({
            let s = igc::b_record(secs, r, n);
            &&& s.len() == 44
            &&& s[0] == 'B'
            &&& s.subrange(1, 7) == igc::clock_digits(secs)
            &&& s.subrange(7, 15) == igc::latitude_digits(r.latitude->0, n.latitude)
            &&& s.subrange(15, 24) == igc::longitude_digits(r.longitude->0, n.longitude)
            &&& s[24] == 'A'
            &&& r.altitude_m is Some ==> s.subrange(25, 30) == igc::altitude_digits(
                n.altitude as int,
            )
            &&& r.altitude_m is None ==> s.subrange(25, 30) == igc::altitude_digits(0)
            &&& s.subrange(30, 35) == s.subrange(25, 30)
            &&& s[43] == '\n'
        }),
{
    lemma_record_cut(secs, r, n);
}

proof fn lemma_turn(h: int)
    ensures
        0 <= h % 360 < 360,
        (h % 360 - h) % 360 == 0,
{
}

/// Behind the altitudes of a record, in the columns that the header names, stand the
/// speed, up to five digits, and the track, which is less than a whole turn; or 0 where
/// there is none.
pub proof fn records_have_speed_and_track(secs: int, r: Row, n: RecordNumbers)
    requires
        n.latitude.degrees < 99,
        n.longitude.degrees < 999,
    ensures
        ({
            let speed = laws::field(igc::b_record(secs, r, n), 35, 40);
            let track = laws::field(igc::b_record(secs, r, n), 40, 43);
            &&& r.speed_ms is None ==> speed == 0
            &&& r.speed_ms is Some && 0 <= n.speed <= 99_999 ==> speed == n.speed
            &&& r.speed_ms is Some && n.speed < 0 ==> speed == 0
            &&& r.speed_ms is Some && n.speed > 99_999 ==> speed == 99_999
            &&& r.heading_deg is None ==> track == 0
            &&& r.heading_deg is Some ==> 0 <= track < 360 && (track - n.heading) % 360 == 0
        }),
{
    let s = igc::b_record(secs, r, n);
    let fast = igc::within(given(r.speed_ms is Some, n.speed), 0, 99_999) as nat;
    let track = (given(r.heading_deg is Some, n.heading) % 360) as nat;
    lemma_turn(given(r.heading_deg is Some, n.heading));
    assert(laws::field(s, 35, 40) == fast && laws::field(s, 40, 43) == track) by {
        lemma_record_cut(secs, r, n);
        lemma_pads(fast);
        lemma_pads(track);
    }
}

spec fn given(b: bool, v: i64) -> int {
    if b {
        v as int
    } else {
        0
    }
}

proof fn lemma_record_cut(secs: int, r: Row, n: RecordNumbers)
    requires
        n.latitude.degrees < 99,
        n.longitude.degrees < 999,
    ensures
        ({
            let s = igc::b_record(secs, r, n);
            &&& s.len() == 44
            &&& s[0] == 'B'
            &&& s.subrange(1, 7) == igc::clock_digits(secs)
            &&& s.subrange(7, 15) == igc::latitude_digits(r.latitude->0, n.latitude)
            &&& s.subrange(15, 24) == igc::longitude_digits(r.longitude->0, n.longitude)
            &&& s[24] == 'A'
            &&& s.subrange(25, 30) == igc::altitude_digits(given(r.altitude_m is Some, n.altitude))
            &&& s.subrange(30, 35) == igc::altitude_digits(given(r.altitude_m is Some, n.altitude))
            &&& s.subrange(35, 40) == text::padded(
                igc::within(given(r.speed_ms is Some, n.speed), 0, 99_999) as nat,
                5,
            )
            &&& s.subrange(40, 43) == text::padded(
                (given(r.heading_deg is Some, n.heading) % 360) as nat,
                3,
            )
            &&& s[43] == '\n'
        }),
{
    let fast = igc::within(given(r.speed_ms is Some, n.speed), 0, 99_999) as nat;
    let track = (given(r.heading_deg is Some, n.heading) % 360) as nat;
    let altitude = given(r.altitude_m is Some, n.altitude);
    let clock = igc::clock_digits(secs);
    let lat = igc::latitude_digits(r.latitude->0, n.latitude);
    let lon = igc::longitude_digits(r.longitude->0, n.longitude);
    let alt = igc::altitude_digits(altitude);
    let s = igc::b_record(secs, r, n);
    assert(s == "B"@ + clock + lat + lon + "A"@ + alt + alt + text::padded(fast, 5) + text::padded(
        track,
        3,
    ) + "\n"@);
    assert(clock.len() == 6) by {
        clocks_tell_the_second(secs);
    }
    assert(lat.len() == 8) by {
        hemispheres_follow_signs(r.latitude->0, n.latitude);
    }
    assert(lon.len() == 9) by {
        lemma_longitude_width(r.longitude->0, n.longitude);
    }
    assert(alt.len() == 5) by {
        altitudes_keep_their_size(altitude);
    }
    assert(text::padded(fast, 5).len() == 5 && text::padded(track, 3).len() == 3) by {
        lemma_pads(fast);
        lemma_pads(track);
    }
    assert("B"@ == seq!['B'] && "A"@ == seq!['A'] && "\n"@ == seq!['\n']) by {
        reveal_strlit("B");
        reveal_strlit("A");
        reveal_strlit("\n");
        assert("B"@ =~= seq!['B'] && "A"@ =~= seq!['A'] && "\n"@ =~= seq!['\n']);
    }
    lemma_cut(s, clock, lat, lon, alt, text::padded(fast, 5), text::padded(track, 3));
}

proof fn lemma_longitude_width(v: Binary64, a: Angle)
    requires
        a.degrees < 999,
    ensures
        igc::longitude_digits(v, a).len() == 9,
{
    reveal_strlit("E");
    reveal_strlit("W");
    lemma_pads(a.degrees as nat);
    lemma_pads((a.degrees + 1) as nat);
    lemma_pads(0);
    if a.thousandths < 60_000 {
        lemma_pads(a.thousandths as nat);
    }
}

/// Whether a row has a position and a time.
pub open spec fn timed(t: Telemetry, numbers: Seq<RecordNumbers>, i: int) -> bool {
    &&& t.rows@[i].latitude is Some
    &&& t.rows@[i].longitude is Some
    &&& process::best_moment(t.info@, numbers[i].micros as int) is Some
}

/// The second of a row.
pub open spec fn second(t: Telemetry, numbers: Seq<RecordNumbers>, i: int) -> int {
    process::best_moment(t.info@, numbers[i].micros as int)->0.secs
}

/// Whether a row is the first one with a position of its second.
pub open spec fn recorded(t: Telemetry, numbers: Seq<RecordNumbers>, i: int) -> bool {
    &&& timed(t, numbers, i)
    &&& forall|j: int|
        0 <= j < i && #[trigger] timed(t, numbers, j) ==> second(t, numbers, j) != second(
            t,
            numbers,
            i,
        )
}

/// The records of the rows that are recorded, in order.
pub open spec fn recorded_text(t: Telemetry, numbers: Seq<RecordNumbers>, k: nat) -> Seq<char>
    decreases k,
{
    if k == 0 {
        Seq::empty()
    } else {
        recorded_text(t, numbers, (k - 1) as nat) + if recorded(t, numbers, k - 1) {
            igc::b_record(second(t, numbers, k - 1), t.rows@[k - 1], numbers[k - 1])
        } else {
            Seq::empty()
        }
    }
}

proof fn lemma_log(t: Telemetry, numbers: Seq<RecordNumbers>, k: nat)
    requires
        k <= t.rows@.len(),
        forall|i: int, j: int|
            0 <= i <= j < k && timed(t, numbers, i) && timed(t, numbers, j) ==> #[trigger] second(
                t,
                numbers,
                i,
            ) <= #[trigger] second(t, numbers, j),
    ensures
        ({
            let w = igc::log(t, numbers, k);
            &&& w.text == recorded_text(t, numbers, k)
            &&& forall|j: int|
                0 <= j < k && #[trigger] timed(t, numbers, j) ==> w.seconds.len() > 0 && second(
                    t,
                    numbers,
                    j,
                ) <= w.seconds.last()
            &&& w.seconds.len() > 0 ==> exists|j: int|
                0 <= j < k && #[trigger] timed(t, numbers, j) && second(t, numbers, j)
                    == w.seconds.last()
        }),
    decreases k,
{
    if k > 0 {
        let i = k - 1;
        let v = igc::log(t, numbers, i as nat);
        let w = igc::log(t, numbers, k);
        lemma_log(t, numbers, i as nat);
        if timed(t, numbers, i) {
            if v.seconds.len() > 0 {
                let j = choose|j: int|
                    0 <= j < i && #[trigger] timed(t, numbers, j) && second(t, numbers, j)
                        == v.seconds.last();
                assert(second(t, numbers, j) <= second(t, numbers, i));
                if v.seconds.last() != second(t, numbers, i) {
                    assert forall|j: int| 0 <= j < i && #[trigger] timed(t, numbers, j) implies second(
                        t,
                        numbers,
                        j,
                    ) != second(t, numbers, i) by {}
                }
            }
            if recorded(t, numbers, i) {
                assert(w.seconds == v.seconds.push(second(t, numbers, i)));
                assert(timed(t, numbers, i));
                assert forall|j: int| 0 <= j < k && #[trigger] timed(t, numbers, j) implies second(
                    t,
                    numbers,
                    j,
                ) <= w.seconds.last() by {
                    assert(second(t, numbers, j) <= second(t, numbers, i));
                }
            } else {
                assert(w == v);
            }
        } else {
            assert(w == v);
        }
        assert(recorded_text(t, numbers, k) =~= w.text);
    }
}

/// A log has a record for the first row with a position of each second, as long as the
/// seconds do not go back.
pub proof fn logs_record_each_second(t: Telemetry, numbers: Seq<RecordNumbers>)
    requires
        forall|i: int, j: int|
            0 <= i <= j < t.rows@.len() && timed(t, numbers, i) && timed(t, numbers, j)
                ==> #[trigger] second(t, numbers, i) <= #[trigger] second(t, numbers, j),
    ensures
        igc::log(t, numbers, t.rows@.len()).text == recorded_text(t, numbers, t.rows@.len()),
{
    lemma_log(t, numbers, t.rows@.len());
}

/// The first row with a position gives the date, and the start where there is none.
pub proof fn the_first_position_gives_the_date(
    rows: Seq<Row>,
    numbers: Seq<RecordNumbers>,
    from: nat,
    i: int,
)
    requires
        from <= i < rows.len(),
        rows[i].latitude is Some && rows[i].longitude is Some,
        forall|j: int|
            from <= j < i ==> (#[trigger] rows[j]).latitude is None || rows[j].longitude is None,
    ensures
        igc::first_fix_time(rows, numbers, from) == numbers[i].micros,
    decreases rows.len() - from,
{
    if from < i {
        assert(rows[from as int].latitude is None || rows[from as int].longitude is None);
        the_first_position_gives_the_date(rows, numbers, from + 1, i);
    }
}

/// Without positions the start gives the date.
pub proof fn the_start_gives_the_date(rows: Seq<Row>, numbers: Seq<RecordNumbers>, from: nat)
    requires
        forall|j: int|
            from <= j < rows.len() ==> (#[trigger] rows[j]).latitude is None
                || rows[j].longitude is None,
    ensures
        igc::first_fix_time(rows, numbers, from) == 0,
    decreases rows.len() - from,
{
    if from < rows.len() {
        assert(rows[from as int].latitude is None || rows[from as int].longitude is None);
        the_start_gives_the_date(rows, numbers, from + 1);
    }
}

/// The line of a date has two digits each for the day, the month and the year within
/// its century.
pub proof fn dates_have_their_digits(m: Moment, d: Date)
    requires
        calendar::falls_on(d, m.secs),
        d.year >= 0,
    ensures
        ({
            let s = igc::date_line(Some(m));
            &&& s.len() == 12
            &&& s.take(5) == "HFDTE"@
            &&& laws::field(s, 5, 7) == d.day
            &&& laws::field(s, 7, 9) == d.month
            &&& laws::field(s, 9, 11) == d.year % 100
            &&& s[11] == '\n'
        }),
        igc::date_line(None).len() == 0,
{
    reveal_strlit("HFDTE");
    reveal_strlit("\n");
    calendar::lemma_date_of(m.secs);
    assert(calendar::date_of(m.secs) == d);
    let y = igc::remainder(d.year, 100);
    assert(y == d.year % 100);
    lemma_pads(d.day as nat);
    lemma_pads(d.month as nat);
    lemma_pads(y as nat);
    let s = igc::date_line(Some(m));
    assert(s.take(5) =~= "HFDTE"@);
    assert(s.subrange(5, 7) =~= text::padded(d.day as nat, 2));
    assert(s.subrange(7, 9) =~= text::padded(d.month as nat, 2));
    assert(s.subrange(9, 11) =~= text::padded(y as nat, 2));
}

spec fn line(label: Seq<char>, v: Option<Seq<char>>) -> Option<Seq<char>> {
    match v {
        Some(v) => Some(label + v + "\n"@),
        None => None,
    }
}

spec fn equipment_parts(info: dji::ClipFacts, name: Seq<char>) -> Seq<Option<Seq<char>>> {
    seq![
        Some("HFFXA010\n"@ + "HFPLTPILOTINCHARGE:\n"@),
        Some(
            "HFGTYGLIDERTYPE:"@ + (match info.model {
                Some(v) => v,
                None => "DJI camera"@,
            }) + "\n"@,
        ),
        Some(
            "HFGIDGLIDERID:"@ + (match info.serial {
                Some(v) => v,
                None => Seq::empty(),
            }) + "\n"@,
        ),
        Some("HFDTMGPSDATUM:WGS84\n"@),
        line("HFRFWFIRMWAREVERSION:"@, info.firmware),
        line("HFRHWHARDWAREVERSION:"@, info.remote_name),
        line("HFGPSRECEIVER:"@, info.remote_name),
        Some("HFFTYFRTYPE:"@ + export::APP_NAME@ + ","@ + export::APP_VERSION@ + "\n"@),
        Some("HFPRSPRESSALTSENSOR:NONE\n"@),
        Some("HFCIDCOMPETITIONID:"@ + name + "\n"@),
    ]
}

proof fn lemma_equipment(info: dji::ClipFacts, name: Seq<char>)
    ensures
        igc::equipment(info, name) == laws::assembled(equipment_parts(info, name)),
{
    let p = equipment_parts(info, name);
    reveal_with_fuel(laws::assembled, 11);
    assert(p.drop_last() =~= p.take(9));
    assert(p.take(9).drop_last() =~= p.take(8));
    assert(p.take(8).drop_last() =~= p.take(7));
    assert(p.take(7).drop_last() =~= p.take(6));
    assert(p.take(6).drop_last() =~= p.take(5));
    assert(p.take(5).drop_last() =~= p.take(4));
    assert(p.take(4).drop_last() =~= p.take(3));
    assert(p.take(3).drop_last() =~= p.take(2));
    assert(p.take(2).drop_last() =~= p.take(1));
    assert(p.take(1).drop_last() =~= p.take(0));
    assert(igc::equipment(info, name) =~= laws::assembled(p));
}

/// The lines of a header name the camera, its serial number and the file.
pub proof fn headers_name_the_camera(info: dji::ClipFacts, name: Seq<char>)
    ensures
        info.model matches Some(v) ==> text::occurs(
            igc::equipment(info, name),
            "HFGTYGLIDERTYPE:"@ + v + "\n"@,
        ),
        info.model is None ==> text::occurs(
            igc::equipment(info, name),
            "HFGTYGLIDERTYPE:"@ + "DJI camera"@ + "\n"@,
        ),
        info.serial matches Some(v) ==> text::occurs(
            igc::equipment(info, name),
            "HFGIDGLIDERID:"@ + v + "\n"@,
        ),
        text::occurs(igc::equipment(info, name), "HFCIDCOMPETITIONID:"@ + name + "\n"@),
{
    let p = equipment_parts(info, name);
    let s = igc::equipment(info, name);
    lemma_equipment(info, name);
    assert(text::occurs(s, p[1]->0)) by {
        laws::assembled_parts_occur(p, 1, p[1]->0);
    }
    assert(text::occurs(s, p[2]->0)) by {
        laws::assembled_parts_occur(p, 2, p[2]->0);
    }
    assert(text::occurs(s, p[9]->0)) by {
        laws::assembled_parts_occur(p, 9, p[9]->0);
    }
}

/// The firmware has a line of its own in a header where it is known.
pub proof fn headers_name_the_firmware(info: dji::ClipFacts, name: Seq<char>)
    ensures
        info.firmware matches Some(v) ==> laws::inserted(
            igc::equipment(info, name),
            igc::equipment(dji::ClipFacts { firmware: None, ..info }, name),
            "HFRFWFIRMWAREVERSION:"@ + v + "\n"@,
        ),
{
    if let Some(v) = info.firmware {
        let p = equipment_parts(info, name);
        let less = dji::ClipFacts { firmware: None, ..info };
        lemma_equipment(info, name);
        lemma_equipment(less, name);
        assert(equipment_parts(less, name) =~= p.update(4, None));
        laws::one_part_more(p, p.update(4, None), 4, p[4]->0);
    }
}

/// The remote has two lines in a header where it is known: as the hardware and as the
/// receiver of positions.
pub proof fn headers_name_the_remote(info: dji::ClipFacts, name: Seq<char>, v: Seq<char>)
    requires
        info.remote_name == Some(v),
    ensures
        exists|s: Seq<char>| #[trigger]
            laws::inserted(
                igc::equipment(info, name),
                s,
                "HFRHWHARDWAREVERSION:"@ + v + "\n"@,
            ) && laws::inserted(
                s,
                igc::equipment(dji::ClipFacts { remote_name: None, ..info }, name),
                "HFGPSRECEIVER:"@ + v + "\n"@,
            ),
{
    let p = equipment_parts(info, name);
    let q = p.update(5, None);
    let r = q.update(6, None);
    let less = dji::ClipFacts { remote_name: None, ..info };
    lemma_equipment(info, name);
    lemma_equipment(less, name);
    assert(equipment_parts(less, name) =~= r);
    laws::one_part_more(p, q, 5, p[5]->0);
    laws::one_part_more(q, r, 6, q[6]->0);
    assert(q[6] == p[6]);
    let s = laws::assembled(q);
    assert(laws::inserted(igc::equipment(info, name), s, "HFRHWHARDWAREVERSION:"@ + v + "\n"@));
}

/// A log says that its times are local exactly where UTC is not known, and its columns
/// 36 to 40 and 41 to 43 hold the ground speed and the true track.
pub proof fn logs_say_what_their_times_are(t: Telemetry, name: Seq<char>, first: int)
    ensures
        ({
            let s = igc::preamble(t, name, first);
            let head = "AXXXDJI-TELEMETRY-EXPORT\n"@ + igc::date_line(
                process::best_moment(t.info@, first),
            ) + igc::equipment(t.info@, name);
            &&& process::after(dji::utc_start(t.info@), 0) is Some ==> s == head
                + "I023640GSP4143TRT\n"@
            &&& process::after(dji::utc_start(t.info@), 0) is None ==> s == head
                + "LXXXTIMES ARE CAMERA LOCAL TIME (UTC OFFSET UNKNOWN)\n"@
                + "I023640GSP4143TRT\n"@
        }),
{
    let head = "AXXXDJI-TELEMETRY-EXPORT\n"@ + igc::date_line(
        process::best_moment(t.info@, first),
    ) + igc::equipment(t.info@, name);
    assert(head + Seq::<char>::empty() =~= head);
}

/// A log is named after the file without its folders, and its records stand behind its
/// headers.
pub proof fn logs_are_headers_and_records(
    t: Telemetry,
    source: Seq<char>,
    numbers: Seq<RecordNumbers>,
)
    ensures
        igc::content(t, source, numbers) == igc::preamble(
            t,
            text::base_name(source),
            igc::first_fix_time(t.rows@, numbers, 0),
        ) + igc::log(t, numbers, t.rows@.len()).text,
{
}

} // verus!
