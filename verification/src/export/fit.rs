//! Minimal Garmin FIT activity writer (header, `file_id`, `record`, `session`,
//! `activity`, CRC). Record timestamps are whole seconds, so the caller resamples
//! to 1 Hz. Field numbers and scales follow the public FIT profile.

use crate::bytes;
use crate::dji;
use crate::process;
use crate::process::{Row, Telemetry};
use crate::time::Timestamp;
use vstd::prelude::*;

pub mod laws;

verus! {

/// 1989-12-31T00:00:00Z in seconds since 1970.
pub const FIT_EPOCH_OFFSET: i64 = 631_065_600;

pub const BASE_ENUM: u8 = 0x00;

pub const BASE_UINT16: u8 = 0x84;

pub const BASE_UINT32: u8 = 0x86;

pub const BASE_SINT32: u8 = 0x85;

pub const BASE_UINT32Z: u8 = 0x8C;

pub const MSG_FILE_ID: u16 = 0;

pub const MSG_SESSION: u16 = 18;

pub const MSG_RECORD: u16 = 20;

pub const MSG_ACTIVITY: u16 = 34;

/// One step of the division by the CRC polynomial, least significant bit first.
pub open spec fn crc_bit(c: u16) -> u16 {
    if c & 1 == 1 {
        (c >> 1) ^ 0xA001u16
    } else {
        c >> 1
    }
}

/// Four steps of the division.
pub open spec fn crc_nibble(c: u16) -> u16 {
    crc_bit(crc_bit(crc_bit(crc_bit(c))))
}

/// The checksum after one more byte.
pub open spec fn crc_byte(c: u16, b: u8) -> u16 {
    crc_nibble(crc_nibble(c ^ (b as u16)))
}

/// The CRC-16 of a byte sequence.
pub open spec fn crc(s: Seq<u8>) -> u16
    decreases s.len(),
{
    if s.len() == 0 {
        0
    } else {
        crc_byte(crc(s.drop_last()), s.last())
    }
}

/// Four steps on a checksum are a shift and four steps on its low four bits.
proof fn lemma_nibble(c: u16, n: u16)
    by (bit_vector)
    requires
        n < 16,
    ensures
        crc_nibble(c ^ n) == ((c >> 4) & 0x0fff) ^ crc_nibble(c & 0xf) ^ crc_nibble(n),
{
}

/// A byte goes in as its low and its high four bits.
proof fn lemma_two_nibbles(c: u16, b: u8)
    by (bit_vector)
    ensures
        crc_nibble(c ^ (b as u16)) == crc_nibble(c ^ ((b & 0xf) as u16)) ^ (((b >> 4)
            & 0xf) as u16),
        (b & 0xf) < 16,
        ((b >> 4) & 0xf) < 16,
{
}

/// Four steps on a checksum whose low four bits are 0 are a shift.
proof fn lemma_shift(c: u16)
    by (bit_vector)
    requires
        c & 0xf == 0,
    ensures
        crc_nibble(c) == c >> 4,
{
}

/// Four steps on each of the sixteen values of four bits.
proof fn lemma_table()
    by (bit_vector)
    ensures
        crc_nibble(0) == 0x0000 && crc_nibble(1) == 0xCC01 && crc_nibble(2) == 0xD801
            && crc_nibble(3) == 0x1400 && crc_nibble(4) == 0xF001 && crc_nibble(5) == 0x3C00
            && crc_nibble(6) == 0x2800 && crc_nibble(7) == 0xE401 && crc_nibble(8) == 0xA001
            && crc_nibble(9) == 0x6C00 && crc_nibble(10) == 0x7800 && crc_nibble(11) == 0xB401
            && crc_nibble(12) == 0x5000 && crc_nibble(13) == 0x9C01 && crc_nibble(14) == 0x8801
            && crc_nibble(15) == 0x4400,
{
}

fn table_entry(n: u16) -> (r: u16)
    requires
        n < 16,
    ensures
        r == crc_nibble(n),
{
    let table: [u16; 16] = [
        0x0000,
        0xCC01,
        0xD801,
        0x1400,
        0xF001,
        0x3C00,
        0x2800,
        0xE401,
        0xA001,
        0x6C00,
        0x7800,
        0xB401,
        0x5000,
        0x9C01,
        0x8801,
        0x4400,
    ];
    proof {
        lemma_table();
    }
    table[n as usize]
}

fn crc_step(c: u16, n: u16) -> (r: u16)
    requires
        n < 16,
    ensures
        r == crc_nibble(c ^ n),
{
    assert(c & 0xf < 16) by (bit_vector);
    let low: u16 = table_entry(c & 0xf);
    let new: u16 = table_entry(n);
    proof {
        lemma_nibble(c, n);
    }
    ((c >> 4) & 0x0fff) ^ low ^ new
}

/// CRC-16 as specified by the FIT SDK.
pub fn crc16(data: &[u8]) -> (r: u16)
    ensures
        r == crc(data@),
{
    let mut c: u16 = 0;
    let mut i: usize = 0;
    while i < data.len()
        invariant
            i <= data@.len(),
            c == crc(data@.take(i as int)),
        decreases data@.len() - i,
    {
        let b: u8 = data[i];
        proof {
            assert(data@.take(i + 1).drop_last() =~= data@.take(i as int));
            lemma_two_nibbles(c, b);
        }
        let half: u16 = crc_step(c, (b & 0xf) as u16);
        c = crc_step(half, ((b >> 4) & 0xf) as u16);
        i = i + 1;
    }
    assert(data@.take(i as int) =~= data@);
    c
}

/// A checksum behind its data makes the checksum of both 0.
pub proof fn crc_checks_itself(s: Seq<u8>)
    ensures
        crc(s + bytes::le16_bytes(crc(s))) == 0,
{
    let c = crc(s);
    let lo = (c % 0x100) as u8;
    let hi = (c / 0x100) as u8;
    let one = s.push(lo);
    let two = one.push(hi);
    assert(s + bytes::le16_bytes(c) =~= two);
    assert(one.drop_last() =~= s);
    assert(two.drop_last() =~= one);
    let high = c ^ (lo as u16);
    assert(high & 0xf == 0 && (high >> 4) & 0xf == 0 && (high >> 4) >> 4 == hi as u16 && (
    hi as u16) ^ (hi as u16) == 0) by (bit_vector)
        requires
            lo == (c % 0x100) as u8,
            hi == (c / 0x100) as u8,
            high == c ^ (lo as u16),
    ;
    lemma_shift(high);
    lemma_shift(high >> 4);
    lemma_table();
    assert(crc(one) == crc_byte(c, lo) == hi as u16);
    assert(crc(two) == crc_byte(crc(one), hi));
}

/// A field of a definition message.
#[derive(Debug, Clone, Copy, PartialEq, Eq, Structural)]
pub struct FieldDef {
    pub number: u8,
    pub size: u8,
    pub base_type: u8,
}

/// The bytes of field definitions.
pub open spec fn field_bytes(fields: Seq<FieldDef>) -> Seq<u8>
    decreases fields.len(),
{
    if fields.len() == 0 {
        Seq::empty()
    } else {
        field_bytes(fields.drop_last()).push(fields.last().number).push(fields.last().size).push(
            fields.last().base_type,
        )
    }
}

/// A definition message: little endian, for the local message type `local`.
pub open spec fn definition_bytes(local: u8, global: u16, fields: Seq<FieldDef>) -> Seq<u8> {
    seq![(0x40 + local % 16) as u8, 0u8, 0u8] + bytes::le16_bytes(global) + seq![
        fields.len() as u8,
    ] + field_bytes(fields)
}

/// Appends a definition message.
fn definition(local: u8, global: u16, fields: &[FieldDef], out: &mut Vec<u8>)
    ensures
        final(out)@ == old(out)@ + definition_bytes(local, global, fields@),
{
    out.push(0x40 + local % 16);
    out.push(0);
    out.push(0);
    bytes::push_le_u16(out, global);
    out.push(fields.len() as u8);
    let ghost head = out@;
    let mut i: usize = 0;
    assert(out@ =~= head + field_bytes(fields@.take(0)));
    while i < fields.len()
        invariant
            i <= fields@.len(),
            out@ == head + field_bytes(fields@.take(i as int)),
        decreases fields@.len() - i,
    {
        assert(fields@.take(i + 1).drop_last() =~= fields@.take(i as int));
        out.push(fields[i].number);
        out.push(fields[i].size);
        out.push(fields[i].base_type);
        i = i + 1;
        assert(out@ =~= head + field_bytes(fields@.take(i as int)));
    }
    assert(fields@.take(i as int) =~= fields@);
    assert(out@ =~= old(out)@ + definition_bytes(local, global, fields@));
}

/// Seconds since the FIT epoch in 32 bits; 0 before it.
pub open spec fn fit_seconds(secs: int) -> u32 {
    (if secs < FIT_EPOCH_OFFSET {
        0
    } else {
        (secs - FIT_EPOCH_OFFSET) % 0x1_0000_0000
    }) as u32
}

/// The FIT timestamp of a moment.
pub fn fit_timestamp(dt: Timestamp) -> (r: u32)
    ensures
        r == fit_seconds(dt@.secs),
{
    let secs: i64 = dt.timestamp();
    if secs < FIT_EPOCH_OFFSET {
        0
    } else {
        ((secs - FIT_EPOCH_OFFSET) as u64 % 0x1_0000_0000) as u32
    }
}

/// A number that stands for a serial number: a base-31 sum of its bytes in 32
/// bits.
pub open spec fn serial_sum(s: Seq<u8>) -> u32
    decreases s.len(),
{
    if s.len() == 0 {
        0
    } else {
        ((serial_sum(s.drop_last()) * 31 + s.last()) % 0x1_0000_0000) as u32
    }
}

/// The serial number of a file: never 0.
pub open spec fn serial_number(serial: Option<Seq<char>>) -> u32 {
    match serial {
        Some(s) if serial_sum(vstd::utf8::encode_utf8(s)) != 0 => serial_sum(
            vstd::utf8::encode_utf8(s),
        ),
        _ => 1,
    }
}

fn serial_of(serial: &Option<String>) -> (r: u32)
    ensures
        r == serial_number(dji::chars(*serial)),
{
    match serial {
        Some(s) => {
            let b: &[u8] = s.as_str().as_bytes();
            let mut sum: u32 = 0;
            let mut i: usize = 0;
            while i < b.len()
                invariant
                    i <= b@.len(),
                    sum == serial_sum(b@.take(i as int)),
                decreases b@.len() - i,
            {
                assert(b@.take(i + 1).drop_last() =~= b@.take(i as int));
                sum = ((sum as u64 * 31 + b[i] as u64) % 0x1_0000_0000) as u32;
                i = i + 1;
            }
            assert(b@.take(i as int) =~= b@);
            if sum != 0 {
                sum
            } else {
                1
            }
        },
        None => 1,
    }
}

/// The numbers of a row in the units of a record. A number counts only where
/// the row has what it stands for.
#[derive(Debug, Clone, Copy, PartialEq, Eq, Structural)]
pub struct Quantities {
    /// Whole seconds since the start.
    pub second: u32,
    /// In units of 2^-31 half circles.
    pub latitude: i32,
    pub longitude: i32,
    /// In fifths of a metre above -500 m, in 16 bits.
    pub altitude: u16,
    /// In centimetres.
    pub distance: u32,
    /// In mm/s, in 16 bits.
    pub speed: u16,
    /// In mm/s.
    pub enhanced_speed: u32,
    /// In fifths of a metre above -500 m.
    pub enhanced_altitude: u32,
}

/// The sum of two 32-bit integers, at most the largest of them.
pub open spec fn capped_sum(a: u32, b: u32) -> u32 {
    if a + b > u32::MAX {
        u32::MAX
    } else {
        (a + b) as u32
    }
}

fn saturating_sum(a: u32, b: u32) -> (r: u32)
    ensures
        r == capped_sum(a, b),
        r >= a,
{
    if b > u32::MAX - a {
        u32::MAX
    } else {
        a + b
    }
}

/// The two's complement of a 32-bit integer.
pub open spec fn unsigned32(v: i32) -> u32 {
    (if v < 0 {
        v + 0x1_0000_0000
    } else {
        v as int
    }) as u32
}

fn to_unsigned32(v: i32) -> (r: u32)
    ensures
        r == unsigned32(v),
{
    if v < 0 {
        u32::MAX - (-(v + 1)) as u32
    } else {
        v as u32
    }
}

/// A record message; a missing value is the largest of its type.
pub open spec fn record_bytes(ts: u32, r: Row, q: Quantities) -> Seq<u8> {
    seq![0x01u8] + bytes::le32_bytes(ts) + bytes::le32_bytes(unsigned32(q.latitude))
        + bytes::le32_bytes(unsigned32(q.longitude)) + bytes::le16_bytes(
        if r.altitude_m is Some {
            q.altitude
        } else {
            0xFFFF
        },
    ) + bytes::le32_bytes(
        if r.distance_m is Some {
            q.distance
        } else {
            0xFFFF_FFFF
        },
    ) + bytes::le16_bytes(
        if r.speed_ms is Some {
            q.speed
        } else {
            0xFFFF
        },
    ) + bytes::le32_bytes(
        if r.speed_ms is Some {
            q.enhanced_speed
        } else {
            0xFFFF_FFFF
        },
    ) + bytes::le32_bytes(
        if r.altitude_m is Some {
            q.enhanced_altitude
        } else {
            0xFFFF_FFFF
        },
    )
}

fn push_record(out: &mut Vec<u8>, ts: u32, r: &Row, q: &Quantities)
    ensures
        final(out)@ == old(out)@ + record_bytes(ts, *r, *q),
{
    let mut m: Vec<u8> = Vec::new();
    m.push(0x01);
    assert(m@ =~= seq![0x01u8]);
    bytes::push_le_u32(&mut m, ts);
    bytes::push_le_u32(&mut m, to_unsigned32(q.latitude));
    bytes::push_le_u32(&mut m, to_unsigned32(q.longitude));
    bytes::push_le_u16(
        &mut m,
        if r.altitude_m.is_some() {
            q.altitude
        } else {
            0xFFFF
        },
    );
    bytes::push_le_u32(
        &mut m,
        if r.distance_m.is_some() {
            q.distance
        } else {
            0xFFFF_FFFF
        },
    );
    bytes::push_le_u16(
        &mut m,
        if r.speed_ms.is_some() {
            q.speed
        } else {
            0xFFFF
        },
    );
    bytes::push_le_u32(
        &mut m,
        if r.speed_ms.is_some() {
            q.enhanced_speed
        } else {
            0xFFFF_FFFF
        },
    );
    bytes::push_le_u32(
        &mut m,
        if r.altitude_m.is_some() {
            q.enhanced_altitude
        } else {
            0xFFFF_FFFF
        },
    );
    assert(m@ == record_bytes(ts, *r, *q));
    bytes::push_all(out, m.as_slice());
}

/// What has been written of the records.
pub struct Records {
    pub bytes: Seq<u8>,
    /// The times of the records.
    pub times: Seq<u32>,
    /// The distance of the last record that has one.
    pub total: u32,
}

/// The records after one more row: one for each row with a position, unless the
/// last record has the same time.
pub open spec fn with_row(w: Records, r: Row, q: Quantities, start: u32) -> Records {
    let ts = capped_sum(start, q.second);
    if !process::located(r) || w.times.len() > 0 && w.times.last() == ts {
        w
    } else {
        Records {
            bytes: w.bytes + record_bytes(ts, r, q),
            times: w.times.push(ts),
            total: if r.distance_m is Some {
                q.distance
            } else {
                w.total
            },
        }
    }
}

/// The records of rows.
pub open spec fn records(rows: Seq<Row>, numbers: Seq<Quantities>, start: u32) -> Records
    decreases rows.len(),
{
    if rows.len() == 0 {
        Records { bytes: Seq::empty(), times: Seq::empty(), total: 0 }
    } else {
        with_row(
            records(rows.drop_last(), numbers, start),
            rows.last(),
            numbers[rows.len() - 1],
            start,
        )
    }
}

/// Appends the records of rows; returns the time of the last one and the
/// distance of the last one that has one.
fn push_records(out: &mut Vec<u8>, rows: &[Row], numbers: &[Quantities], start: u32) -> (r: (
    u32,
    u32,
))
    requires
        rows@.len() == numbers@.len(),
    ensures
        ({
            let w = records(rows@, numbers@, start);
            &&& final(out)@ == old(out)@ + w.bytes
            &&& r.0 == if w.times.len() > 0 {
                w.times.last()
            } else {
                start
            }
            &&& r.0 >= start
            &&& r.1 == w.total
        }),
{
    let ghost before = out@;
    let mut last: Option<u32> = None;
    let mut total: u32 = 0;
    let mut i: usize = 0;
    assert(out@ =~= before + records(rows@.take(0), numbers@, start).bytes);
    while i < rows.len()
        invariant
            i <= rows@.len(),
            rows@.len() == numbers@.len(),
            out@ == before + records(rows@.take(i as int), numbers@, start).bytes,
            last == (if records(rows@.take(i as int), numbers@, start).times.len() > 0 {
                Some(records(rows@.take(i as int), numbers@, start).times.last())
            } else {
                None
            }),
            last matches Some(ts) ==> ts >= start,
            total == records(rows@.take(i as int), numbers@, start).total,
        decreases rows@.len() - i,
    {
        let ghost w = records(rows@.take(i as int), numbers@, start);
        proof {
            assert(rows@.take(i + 1).drop_last() =~= rows@.take(i as int));
            assert(rows@.take(i + 1).last() == rows@[i as int]);
        }
        let ts: u32 = saturating_sum(start, numbers[i].second);
        let same: bool = match last {
            Some(t) => t == ts,
            None => false,
        };
        if rows[i].has_gps() && !same {
            push_record(out, ts, &rows[i], &numbers[i]);
            last = Some(ts);
            if rows[i].distance_m.is_some() {
                total = numbers[i].distance;
            }
            assert(out@ =~= before + with_row(
                w,
                rows@[i as int],
                numbers@[i as int],
                start,
            ).bytes);
        }
        i = i + 1;
    }
    assert(rows@.take(i as int) =~= rows@);
    (
        match last {
            Some(ts) => ts,
            None => start,
        },
        total,
    )
}

pub open spec fn file_id_fields() -> Seq<FieldDef> {
    seq![
        FieldDef { number: 0, size: 1, base_type: BASE_ENUM },
        FieldDef { number: 1, size: 2, base_type: BASE_UINT16 },
        FieldDef { number: 2, size: 2, base_type: BASE_UINT16 },
        FieldDef { number: 3, size: 4, base_type: BASE_UINT32Z },
        FieldDef { number: 4, size: 4, base_type: BASE_UINT32 },
    ]
}

pub open spec fn record_fields() -> Seq<FieldDef> {
    seq![
        FieldDef { number: 253, size: 4, base_type: BASE_UINT32 },
        FieldDef { number: 0, size: 4, base_type: BASE_SINT32 },
        FieldDef { number: 1, size: 4, base_type: BASE_SINT32 },
        FieldDef { number: 2, size: 2, base_type: BASE_UINT16 },
        FieldDef { number: 5, size: 4, base_type: BASE_UINT32 },
        FieldDef { number: 6, size: 2, base_type: BASE_UINT16 },
        FieldDef { number: 73, size: 4, base_type: BASE_UINT32 },
        FieldDef { number: 78, size: 4, base_type: BASE_UINT32 },
    ]
}

pub open spec fn session_fields() -> Seq<FieldDef> {
    seq![
        FieldDef { number: 253, size: 4, base_type: BASE_UINT32 },
        FieldDef { number: 2, size: 4, base_type: BASE_UINT32 },
        FieldDef { number: 7, size: 4, base_type: BASE_UINT32 },
        FieldDef { number: 8, size: 4, base_type: BASE_UINT32 },
        FieldDef { number: 9, size: 4, base_type: BASE_UINT32 },
        FieldDef { number: 5, size: 1, base_type: BASE_ENUM },
        FieldDef { number: 6, size: 1, base_type: BASE_ENUM },
        FieldDef { number: 0, size: 1, base_type: BASE_ENUM },
        FieldDef { number: 1, size: 1, base_type: BASE_ENUM },
    ]
}

pub open spec fn activity_fields() -> Seq<FieldDef> {
    seq![
        FieldDef { number: 253, size: 4, base_type: BASE_UINT32 },
        FieldDef { number: 0, size: 4, base_type: BASE_UINT32 },
        FieldDef { number: 1, size: 2, base_type: BASE_UINT16 },
        FieldDef { number: 2, size: 1, base_type: BASE_ENUM },
        FieldDef { number: 3, size: 1, base_type: BASE_ENUM },
        FieldDef { number: 4, size: 1, base_type: BASE_ENUM },
        FieldDef { number: 5, size: 4, base_type: BASE_UINT32 },
    ]
}

/// The file identification: an activity of a development device.
pub open spec fn file_id_bytes(serial: u32, start: u32) -> Seq<u8> {
    definition_bytes(0, MSG_FILE_ID, file_id_fields()) + seq![0x00u8, 4u8] + bytes::le16_bytes(255)
        + bytes::le16_bytes(1) + bytes::le32_bytes(serial) + bytes::le32_bytes(start)
}

/// The session: motorcycling, from `start` to `end`.
pub open spec fn session_bytes(start: u32, end: u32, total: u32) -> Seq<u8> {
    definition_bytes(2, MSG_SESSION, session_fields()) + seq![0x02u8] + bytes::le32_bytes(end)
        + bytes::le32_bytes(start) + bytes::le32_bytes(elapsed_ms(start, end))
        + bytes::le32_bytes(elapsed_ms(start, end)) + bytes::le32_bytes(total) + seq![
        10u8,
        0u8,
        8u8,
        1u8,
    ]
}

/// The activity: manual, one session.
pub open spec fn activity_bytes(start: u32, end: u32, local: u32) -> Seq<u8> {
    definition_bytes(3, MSG_ACTIVITY, activity_fields()) + seq![0x03u8] + bytes::le32_bytes(end)
        + bytes::le32_bytes(elapsed_ms(start, end)) + bytes::le16_bytes(1) + seq![0u8, 26u8, 1u8]
        + bytes::le32_bytes(local)
}

/// The milliseconds from `start` to `end`, in 32 bits.
pub open spec fn elapsed_ms(start: u32, end: u32) -> u32 {
    ((end - start) * 1000 % 0x1_0000_0000) as u32
}

/// The start of the telemetry: UTC where it is known, else the camera's clock,
/// else the FIT epoch.
pub open spec fn start_seconds(t: Telemetry) -> u32 {
    match process::best_moment(t.info@, 0) {
        Some(m) => fit_seconds(m.secs),
        None => fit_seconds(FIT_EPOCH_OFFSET as int),
    }
}

/// The start of the telemetry by the camera's clock.
pub open spec fn local_start(t: Telemetry) -> u32 {
    match process::after(t.info@.start_local, 0) {
        Some(m) => fit_seconds(m.secs),
        None => start_seconds(t),
    }
}

/// The messages of a file.
pub open spec fn body_bytes(t: Telemetry, numbers: Seq<Quantities>) -> Seq<u8> {
    let start = start_seconds(t);
    let w = records(t.rows@, numbers, start);
    let end = if w.times.len() > 0 {
        w.times.last()
    } else {
        start
    };
    file_id_bytes(serial_number(dji::chars(t.info.serial)), start) + definition_bytes(
        1,
        MSG_RECORD,
        record_fields(),
    ) + w.bytes + session_bytes(start, end, w.total) + activity_bytes(
        start,
        end,
        capped_sum(local_start(t), (end - start) as u32),
    )
}

/// The first twelve bytes of a file with a body of `len` bytes: protocol 2.0,
/// profile 21.32.
pub open spec fn header_bytes(len: nat) -> Seq<u8> {
    seq![14u8, 0x20u8] + bytes::le16_bytes(2132) + bytes::le32_bytes(len as u32) + seq![
        0x2eu8,
        0x46u8,
        0x49u8,
        0x54u8,
    ]
}

/// `s` with its checksum behind it.
pub open spec fn sealed(s: Seq<u8>) -> Seq<u8> {
    s + bytes::le16_bytes(crc(s))
}

/// A file: its header with a checksum, its messages, and a checksum of both.
pub open spec fn file_bytes(body: Seq<u8>) -> Seq<u8> {
    sealed(sealed(header_bytes(body.len())) + body)
}

fn push_file_id(out: &mut Vec<u8>, serial: u32, start: u32)
    ensures
        final(out)@ == old(out)@ + file_id_bytes(serial, start),
{
    let mut m: Vec<u8> = Vec::new();
    let fields: [FieldDef; 5] = [
        FieldDef { number: 0, size: 1, base_type: BASE_ENUM },
        FieldDef { number: 1, size: 2, base_type: BASE_UINT16 },
        FieldDef { number: 2, size: 2, base_type: BASE_UINT16 },
        FieldDef { number: 3, size: 4, base_type: BASE_UINT32Z },
        FieldDef { number: 4, size: 4, base_type: BASE_UINT32 },
    ];
    assert(fields@ =~= file_id_fields());
    definition(0, MSG_FILE_ID, vstd::array::array_as_slice(&fields), &mut m);
    let ghost d = m@;
    assert(d =~= definition_bytes(0, MSG_FILE_ID, file_id_fields()));
    m.push(0x00);
    m.push(4);
    assert(m@ =~= d + seq![0x00u8, 4u8]);
    bytes::push_le_u16(&mut m, 255);
    bytes::push_le_u16(&mut m, 1);
    bytes::push_le_u32(&mut m, serial);
    bytes::push_le_u32(&mut m, start);
    assert(m@ == file_id_bytes(serial, start));
    bytes::push_all(out, m.as_slice());
}

fn push_record_definition(out: &mut Vec<u8>)
    ensures
        final(out)@ == old(out)@ + definition_bytes(1, MSG_RECORD, record_fields()),
{
    let fields: [FieldDef; 8] = [
        FieldDef { number: 253, size: 4, base_type: BASE_UINT32 },
        FieldDef { number: 0, size: 4, base_type: BASE_SINT32 },
        FieldDef { number: 1, size: 4, base_type: BASE_SINT32 },
        FieldDef { number: 2, size: 2, base_type: BASE_UINT16 },
        FieldDef { number: 5, size: 4, base_type: BASE_UINT32 },
        FieldDef { number: 6, size: 2, base_type: BASE_UINT16 },
        FieldDef { number: 73, size: 4, base_type: BASE_UINT32 },
        FieldDef { number: 78, size: 4, base_type: BASE_UINT32 },
    ];
    assert(fields@ =~= record_fields());
    definition(1, MSG_RECORD, vstd::array::array_as_slice(&fields), out);
}

fn milliseconds(start: u32, end: u32) -> (r: u32)
    requires
        start <= end,
    ensures
        r == elapsed_ms(start, end),
{
    ((end - start) as u64 * 1000 % 0x1_0000_0000) as u32
}

fn push_session(out: &mut Vec<u8>, start: u32, end: u32, total: u32)
    requires
        start <= end,
    ensures
        final(out)@ == old(out)@ + session_bytes(start, end, total),
{
    let ms: u32 = milliseconds(start, end);
    let mut m: Vec<u8> = Vec::new();
    let fields: [FieldDef; 9] = [
        FieldDef { number: 253, size: 4, base_type: BASE_UINT32 },
        FieldDef { number: 2, size: 4, base_type: BASE_UINT32 },
        FieldDef { number: 7, size: 4, base_type: BASE_UINT32 },
        FieldDef { number: 8, size: 4, base_type: BASE_UINT32 },
        FieldDef { number: 9, size: 4, base_type: BASE_UINT32 },
        FieldDef { number: 5, size: 1, base_type: BASE_ENUM },
        FieldDef { number: 6, size: 1, base_type: BASE_ENUM },
        FieldDef { number: 0, size: 1, base_type: BASE_ENUM },
        FieldDef { number: 1, size: 1, base_type: BASE_ENUM },
    ];
    assert(fields@ =~= session_fields());
    definition(2, MSG_SESSION, vstd::array::array_as_slice(&fields), &mut m);
    let ghost d = m@;
    assert(d =~= definition_bytes(2, MSG_SESSION, session_fields()));
    m.push(0x02);
    assert(m@ =~= d + seq![0x02u8]);
    bytes::push_le_u32(&mut m, end);
    bytes::push_le_u32(&mut m, start);
    bytes::push_le_u32(&mut m, ms);
    bytes::push_le_u32(&mut m, ms);
    bytes::push_le_u32(&mut m, total);
    let ghost e = m@;
    m.push(10);
    m.push(0);
    m.push(8);
    m.push(1);
    assert(m@ =~= e + seq![10u8, 0u8, 8u8, 1u8]);
    assert(m@ == session_bytes(start, end, total));
    bytes::push_all(out, m.as_slice());
}

fn push_activity(out: &mut Vec<u8>, start: u32, end: u32, local: u32)
    requires
        start <= end,
    ensures
        final(out)@ == old(out)@ + activity_bytes(start, end, local),
{
    let ms: u32 = milliseconds(start, end);
    let mut m: Vec<u8> = Vec::new();
    let fields: [FieldDef; 7] = [
        FieldDef { number: 253, size: 4, base_type: BASE_UINT32 },
        FieldDef { number: 0, size: 4, base_type: BASE_UINT32 },
        FieldDef { number: 1, size: 2, base_type: BASE_UINT16 },
        FieldDef { number: 2, size: 1, base_type: BASE_ENUM },
        FieldDef { number: 3, size: 1, base_type: BASE_ENUM },
        FieldDef { number: 4, size: 1, base_type: BASE_ENUM },
        FieldDef { number: 5, size: 4, base_type: BASE_UINT32 },
    ];
    assert(fields@ =~= activity_fields());
    definition(3, MSG_ACTIVITY, vstd::array::array_as_slice(&fields), &mut m);
    let ghost d = m@;
    assert(d =~= definition_bytes(3, MSG_ACTIVITY, activity_fields()));
    m.push(0x03);
    assert(m@ =~= d + seq![0x03u8]);
    bytes::push_le_u32(&mut m, end);
    bytes::push_le_u32(&mut m, ms);
    bytes::push_le_u16(&mut m, 1);
    let ghost e = m@;
    m.push(0);
    m.push(26);
    m.push(1);
    assert(m@ =~= e + seq![0u8, 26u8, 1u8]);
    bytes::push_le_u32(&mut m, local);
    assert(m@ == activity_bytes(start, end, local));
    bytes::push_all(out, m.as_slice());
}

/// Appends the checksum of `out` to it.
fn seal(out: &mut Vec<u8>)
    ensures
        final(out)@ == sealed(old(out)@),
{
    let c: u16 = crc16(out.as_slice());
    bytes::push_le_u16(out, c);
}

fn start_of(t: &Telemetry) -> (r: u32)
    ensures
        r == start_seconds(*t),
{
    match t.best_time(0) {
        Some(dt) => fit_timestamp(dt),
        None => 0,
    }
}

/// Writes an activity with a record for each second that has a position.
/// `numbers` holds the quantities of each row.
pub fn render(telemetry: &Telemetry, numbers: &[Quantities]) -> (r: Vec<u8>)
    requires
        telemetry.rows@.len() == numbers@.len(),
    ensures
        r@ == file_bytes(body_bytes(*telemetry, numbers@)),
{
    let start: u32 = start_of(telemetry);
    let mut body: Vec<u8> = Vec::new();
    push_file_id(&mut body, serial_of(&telemetry.info.serial), start);
    let ghost b1 = body@;
    assert(b1 =~= file_id_bytes(serial_number(dji::chars(telemetry.info.serial)), start));
    push_record_definition(&mut body);
    let (end, total): (u32, u32) = push_records(
        &mut body,
        telemetry.rows.as_slice(),
        numbers,
        start,
    );
    push_session(&mut body, start, end, total);
    let local: u32 = match telemetry.local_time(0) {
        Some(dt) => fit_timestamp(dt),
        None => start,
    };
    push_activity(&mut body, start, end, saturating_sum(local, end - start));
    assert(body@ == body_bytes(*telemetry, numbers@));

    let mut file: Vec<u8> = Vec::new();
    file.push(14);
    file.push(0x20);
    assert(file@ =~= seq![14u8, 0x20u8]);
    bytes::push_le_u16(&mut file, 2132);
    bytes::push_le_u32(&mut file, body.len() as u32);
    let ghost h = file@;
    file.push(0x2e);
    file.push(0x46);
    file.push(0x49);
    file.push(0x54);
    assert(file@ =~= h + seq![0x2eu8, 0x46u8, 0x49u8, 0x54u8]);
    assert(file@ == header_bytes(body@.len()));
    seal(&mut file);
    bytes::push_all(&mut file, body.as_slice());
    seal(&mut file);
    file
}

/// The checksum of a file, and that of its header, is 0.
pub proof fn files_check_themselves(body: Seq<u8>)
    ensures
        crc(file_bytes(body)) == 0,
        crc(file_bytes(body).take(14)) == 0,
{
    let h = header_bytes(body.len());
    crc_checks_itself(h);
    crc_checks_itself(sealed(h) + body);
    assert(h.len() == 12);
    assert(file_bytes(body).take(14) =~= sealed(h));
}

/// When the rows do not go back in time, the records go forward by a second or
/// more each, as long as the seconds fit in 32 bits.
pub proof fn records_go_forward(rows: Seq<Row>, numbers: Seq<Quantities>, start: u32)
    requires
        rows.len() <= numbers.len(),
        forall|i: int, j: int|
            0 <= i <= j < rows.len() ==> (#[trigger] numbers[i]).second <= (
            #[trigger] numbers[j]).second,
    ensures
        ({
            let w = records(rows, numbers, start);
            &&& w.bytes.len() == 29 * w.times.len()
            &&& forall|i: int, j: int|
                0 <= i < j < w.times.len() ==> #[trigger] w.times[i] < #[trigger] w.times[j]
            &&& w.times.len() > 0 ==> rows.len() > 0 && w.times.last() <= capped_sum(
                start,
                numbers[rows.len() - 1].second,
            )
            &&& forall|i: int| 0 <= i < w.times.len() ==> start <= #[trigger] w.times[i]
        }),
    decreases rows.len(),
{
    if rows.len() > 0 {
        let front = rows.drop_last();
        records_go_forward(front, numbers, start);
        let v = records(front, numbers, start);
        let w = records(rows, numbers, start);
        if v.times.len() > 0 {
            assert(numbers[front.len() - 1].second <= numbers[rows.len() - 1].second);
        }
        if w.times.len() > v.times.len() {
            assert forall|i: int, j: int| 0 <= i < j < w.times.len() implies #[trigger] w.times[i]
                < #[trigger] w.times[j] by {
                if j == v.times.len() && i < v.times.len() - 1 {
                    assert(v.times[i] < v.times[v.times.len() - 1]);
                }
            }
        }
    }
}

} // verus!
