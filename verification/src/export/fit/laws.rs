//! What a reader of FIT files finds in a written one.

use super::{FieldDef, Quantities};
use crate::bytes;
use crate::dji;
use crate::export::fit;
use crate::process::{Row, Telemetry};
use crate::time;
use crate::time::Moment;
use vstd::prelude::*;

verus! {

/// The integer that little-endian bytes stand for.
pub open spec fn number(s: Seq<u8>) -> int
    decreases s.len(),
{
    if s.len() == 0 {
        0
    } else {
        s[0] + 256 * number(s.drop_first())
    }
}

/// The signed integer of 32 bits that an unsigned one stands for.
pub open spec fn signed(v: int) -> int {
    if v < 0x8000_0000 {
        v
    } else {
        v - 0x1_0000_0000
    }
}

/// The value of the field with a number: fields stand one behind the other, each
/// with the size that its definition says.
pub open spec fn value(fields: Seq<FieldDef>, data: Seq<u8>, n: u8) -> Option<int>
    decreases fields.len(),
{
    if fields.len() == 0 {
        None
    } else if fields[0].number == n {
        Some(number(data.take(fields[0].size as int)))
    } else {
        value(fields.drop_first(), data.skip(fields[0].size as int), n)
    }
}

/// The number of bytes that fields take.
pub open spec fn width(fields: Seq<FieldDef>) -> nat
    decreases fields.len(),
{
    if fields.len() == 0 {
        0
    } else {
        width(fields.drop_last()) + fields.last().size as nat
    }
}

/// A message as it is read: the number of its kind, the definition of its fields, and
/// their bytes.
pub struct Message {
    pub kind: int,
    pub fields: Seq<FieldDef>,
    pub data: Seq<u8>,
}

/// The value of a field of a message.
pub open spec fn said(m: Message, n: u8) -> Option<int> {
    value(m.fields, m.data, n)
}

/// The fields that a definition message at the start of `s` defines.
pub open spec fn defined(s: Seq<u8>) -> Seq<FieldDef> {
    Seq::new(
        s[5] as nat,
        |i: int| FieldDef { number: s[6 + 3 * i], size: s[7 + 3 * i], base_type: s[8 + 3 * i] },
    )
}

/// The messages of `s`. A message whose first byte has the bit of weight 64 defines
/// the kind and the fields of the messages that begin with its lower four bits; two
/// zero bytes behind it stand for little-endian numbers.
pub open spec fn messages(defs: Map<u8, (int, Seq<FieldDef>)>, s: Seq<u8>) -> Seq<Message>
    decreases s.len(),
{
    if s.len() == 0 {
        Seq::empty()
    } else if s[0] >= 64 {
        if s.len() < 6 || s.len() < 6 + 3 * s[5] || s[1] != 0 || s[2] != 0 {
            Seq::empty()
        } else {
            messages(
                defs.insert(s[0] % 16, (s[3] + 256 * s[4], defined(s))),
                s.skip(6 + 3 * s[5]),
            )
        }
    } else if !defs.contains_key(s[0]) || s.len() < 1 + width(defs[s[0]].1) {
        Seq::empty()
    } else {
        let (kind, fields) = defs[s[0]];
        let end = 1 + width(fields) as int;
        seq![Message { kind, fields, data: s.subrange(1, end) }] + messages(defs, s.skip(end))
    }
}

proof fn lemma_numbers(v: u32, w: u16, b: u8)
    ensures
        number(bytes::le32_bytes(v)) == v,
        number(bytes::le16_bytes(w)) == w,
        number(seq![b]) == b,
{
    reveal_with_fuel(number, 5);
    let s = bytes::le32_bytes(v);
    assert(s.drop_first() =~= seq![s[1], s[2], s[3]]);
    assert(s.drop_first().drop_first() =~= seq![s[2], s[3]]);
    assert(s.drop_first().drop_first().drop_first() =~= seq![s[3]]);
    let t = bytes::le16_bytes(w);
    assert(t.drop_first() =~= seq![t[1]]);
}

/// The bytes of values, one behind the other.
spec fn joined(parts: Seq<(FieldDef, Seq<u8>)>) -> Seq<u8>
    decreases parts.len(),
{
    if parts.len() == 0 {
        Seq::empty()
    } else {
        joined(parts.drop_last()) + parts.last().1
    }
}

spec fn fitting(parts: Seq<(FieldDef, Seq<u8>)>) -> bool {
    forall|i: int| 0 <= i < parts.len() ==> (#[trigger] parts[i]).1.len() == parts[i].0.size
}

proof fn lemma_joined_first(parts: Seq<(FieldDef, Seq<u8>)>)
    requires
        parts.len() > 0,
    ensures
        joined(parts) == parts[0].1 + joined(parts.drop_first()),
    decreases parts.len(),
{
    if parts.len() == 1 {
        assert(parts.drop_last() =~= Seq::empty());
        assert(parts.drop_first() =~= Seq::empty());
        assert(joined(parts) =~= parts[0].1 + joined(parts.drop_first()));
    } else {
        lemma_joined_first(parts.drop_last());
        assert(parts.drop_last().drop_first() =~= parts.drop_first().drop_last());
        assert(joined(parts) =~= parts[0].1 + joined(parts.drop_first()));
    }
}

proof fn lemma_joined_len(parts: Seq<(FieldDef, Seq<u8>)>)
    requires
        fitting(parts),
    ensures
        joined(parts).len() == width(parts.map_values(|p: (FieldDef, Seq<u8>)| p.0)),
    decreases parts.len(),
{
    if parts.len() > 0 {
        let front = parts.drop_last();
        assert(fitting(front)) by {
            assert forall|i: int| 0 <= i < front.len() implies (#[trigger] front[i]).1.len()
                == front[i].0.size by {
                assert(front[i] == parts[i]);
            }
        }
        lemma_joined_len(front);
        assert(parts.map_values(|p: (FieldDef, Seq<u8>)| p.0).drop_last() =~= front.map_values(
            |p: (FieldDef, Seq<u8>)| p.0,
        ));
    }
}

proof fn lemma_value(parts: Seq<(FieldDef, Seq<u8>)>, k: int)
    requires
        fitting(parts),
        0 <= k < parts.len(),
        forall|i: int| 0 <= i < k ==> (#[trigger] parts[i]).0.number != parts[k].0.number,
    ensures
        value(
            parts.map_values(|p: (FieldDef, Seq<u8>)| p.0),
            joined(parts),
            parts[k].0.number,
        ) == Some(number(parts[k].1)),
    decreases parts.len(),
{
    let fields = parts.map_values(|p: (FieldDef, Seq<u8>)| p.0);
    let data = joined(parts);
    lemma_joined_first(parts);
    assert(fields[0] == parts[0].0);
    assert(parts[0].1.len() == parts[0].0.size);
    if k == 0 {
        assert(data.take(parts[0].0.size as int) =~= parts[0].1);
    } else {
        assert(parts[0].0.number != parts[k].0.number);
        let rest = parts.drop_first();
        assert forall|i: int| 0 <= i < rest.len() implies (#[trigger] rest[i]).1.len()
            == rest[i].0.size by {
            assert(rest[i] == parts[i + 1]);
        }
        assert forall|i: int| 0 <= i < k - 1 implies (#[trigger] rest[i]).0.number
            != rest[k - 1].0.number by {
            assert(rest[i] == parts[i + 1]);
        }
        lemma_value(rest, k - 1);
        assert(data.skip(parts[0].0.size as int) =~= joined(rest));
        assert(fields.drop_first() =~= rest.map_values(|p: (FieldDef, Seq<u8>)| p.0));
    }
}

spec fn record_parts(ts: u32, r: Row, q: Quantities) -> Seq<(FieldDef, Seq<u8>)> {
    let f = fit::record_fields();
    seq![
        (f[0], bytes::le32_bytes(ts)),
        (f[1], bytes::le32_bytes(fit::unsigned32(q.latitude))),
        (f[2], bytes::le32_bytes(fit::unsigned32(q.longitude))),
        (
            f[3],
            bytes::le16_bytes(
                if r.altitude_m is Some {
                    q.altitude
                } else {
                    0xFFFF
                },
            ),
        ),
        (
            f[4],
            bytes::le32_bytes(
                if r.distance_m is Some {
                    q.distance
                } else {
                    0xFFFF_FFFF
                },
            ),
        ),
        (
            f[5],
            bytes::le16_bytes(
                if r.speed_ms is Some {
                    q.speed
                } else {
                    0xFFFF
                },
            ),
        ),
        (
            f[6],
            bytes::le32_bytes(
                if r.speed_ms is Some {
                    q.enhanced_speed
                } else {
                    0xFFFF_FFFF
                },
            ),
        ),
        (
            f[7],
            bytes::le32_bytes(
                if r.altitude_m is Some {
                    q.enhanced_altitude
                } else {
                    0xFFFF_FFFF
                },
            ),
        ),
    ]
}

proof fn lemma_record_parts(ts: u32, r: Row, q: Quantities)
    ensures
        ({
            let p = record_parts(ts, r, q);
            &&& fitting(p)
            &&& p.map_values(|p: (FieldDef, Seq<u8>)| p.0) == fit::record_fields()
            &&& seq![1u8] + joined(p) == fit::record_bytes(ts, r, q)
        }),
{
    let p = record_parts(ts, r, q);
    assert(p.map_values(|p: (FieldDef, Seq<u8>)| p.0) =~= fit::record_fields());
    reveal_with_fuel(joined, 9);
    assert(p.drop_last() =~= p.take(7));
    assert(p.take(7).drop_last() =~= p.take(6));
    assert(p.take(6).drop_last() =~= p.take(5));
    assert(p.take(5).drop_last() =~= p.take(4));
    assert(p.take(4).drop_last() =~= p.take(3));
    assert(p.take(3).drop_last() =~= p.take(2));
    assert(p.take(2).drop_last() =~= p.take(1));
    assert(p.take(1).drop_last() =~= p.take(0));
    assert(seq![1u8] + joined(p) =~= fit::record_bytes(ts, r, q));
}

/// A record message read by its definition gives each quantity under its own number:
/// 253 the time, 0 the latitude, 1 the longitude, 2 the altitude, 5 the distance, 6 the
/// speed, 73 and 78 the speed and the altitude in 32 bits. What the row lacks is the
/// largest number of its size.
pub proof fn record_fields_have_their_numbers(ts: u32, r: Row, q: Quantities)
    ensures
        ({
            let f = fit::record_fields();
            let m = fit::record_bytes(ts, r, q);
            let d = m.skip(1);
            &&& m[0] == 1
            &&& m.len() == 29
            &&& width(f) == 28
            &&& value(f, d, 253) == Some(ts as int)
            &&& value(f, d, 0) is Some
            &&& signed(value(f, d, 0)->Some_0) == q.latitude
            &&& value(f, d, 1) is Some
            &&& signed(value(f, d, 1)->Some_0) == q.longitude
            &&& r.altitude_m is Some ==> value(f, d, 2) == Some(q.altitude as int)
            &&& r.altitude_m is None ==> value(f, d, 2) == Some(0xFFFFint)
            &&& r.distance_m is Some ==> value(f, d, 5) == Some(q.distance as int)
            &&& r.distance_m is None ==> value(f, d, 5) == Some(0xFFFF_FFFFint)
            &&& r.speed_ms is Some ==> value(f, d, 6) == Some(q.speed as int)
            &&& r.speed_ms is None ==> value(f, d, 6) == Some(0xFFFFint)
            &&& r.speed_ms is Some ==> value(f, d, 73) == Some(q.enhanced_speed as int)
            &&& r.speed_ms is None ==> value(f, d, 73) == Some(0xFFFF_FFFFint)
            &&& r.altitude_m is Some ==> value(f, d, 78) == Some(q.enhanced_altitude as int)
            &&& r.altitude_m is None ==> value(f, d, 78) == Some(0xFFFF_FFFFint)
        }),
{
    let p = record_parts(ts, r, q);
    lemma_record_parts(ts, r, q);
    lemma_joined_len(p);
    let m = fit::record_bytes(ts, r, q);
    assert(m.skip(1) =~= joined(p));
    lemma_value(p, 0);
    lemma_value(p, 1);
    lemma_value(p, 2);
    lemma_value(p, 3);
    lemma_value(p, 4);
    lemma_value(p, 5);
    lemma_value(p, 6);
    lemma_value(p, 7);
    lemma_numbers(ts, if r.altitude_m is Some { q.altitude } else { 0xFFFF }, 0);
    lemma_numbers(
        fit::unsigned32(q.latitude),
        if r.speed_ms is Some {
            q.speed
        } else {
            0xFFFF
        },
        0,
    );
    lemma_numbers(fit::unsigned32(q.longitude), 0, 0);
    lemma_numbers(if r.distance_m is Some { q.distance } else { 0xFFFF_FFFF }, 0, 0);
    lemma_numbers(if r.speed_ms is Some { q.enhanced_speed } else { 0xFFFF_FFFF }, 0, 0);
    lemma_numbers(if r.altitude_m is Some { q.enhanced_altitude } else { 0xFFFF_FFFF }, 0, 0);
}

/// The type of the field with a number.
pub open spec fn type_of(fields: Seq<FieldDef>, n: u8) -> Option<u8>
    decreases fields.len(),
{
    if fields.len() == 0 {
        None
    } else if fields[0].number == n {
        Some(fields[0].base_type)
    } else {
        type_of(fields.drop_first(), n)
    }
}

proof fn lemma_type(fields: Seq<FieldDef>, k: int)
    requires
        0 <= k < fields.len(),
        forall|i: int| 0 <= i < k ==> (#[trigger] fields[i]).number != fields[k].number,
    ensures
        type_of(fields, fields[k].number) == Some(fields[k].base_type),
    decreases fields.len(),
{
    if k > 0 {
        let rest = fields.drop_first();
        assert(fields[0].number != fields[k].number);
        assert forall|i: int| 0 <= i < k - 1 implies (#[trigger] rest[i]).number
            != rest[k - 1].number by {
            assert(rest[i] == fields[i + 1]);
        }
        lemma_type(rest, k - 1);
    }
}

/// The types of the fields of records: positions are signed, and all other numbers
/// unsigned, of 16 or 32 bits.
pub proof fn record_fields_have_their_types()
    ensures
        ({
            let f = fit::record_fields();
            &&& type_of(f, 253) == Some(0x86u8)
            &&& type_of(f, 0) == Some(0x85u8)
            &&& type_of(f, 1) == Some(0x85u8)
            &&& type_of(f, 2) == Some(0x84u8)
            &&& type_of(f, 5) == Some(0x86u8)
            &&& type_of(f, 6) == Some(0x84u8)
            &&& type_of(f, 73) == Some(0x86u8)
            &&& type_of(f, 78) == Some(0x86u8)
        }),
{
    let f = fit::record_fields();
    assert forall|k: int| 0 <= k < f.len() implies type_of(f, (#[trigger] f[k]).number) == Some(
        f[k].base_type,
    ) by {
        lemma_type(f, k);
    }
    assert(f[0].number == 253 && f[1].number == 0 && f[2].number == 1 && f[3].number == 2);
    assert(f[4].number == 5 && f[5].number == 6 && f[6].number == 73 && f[7].number == 78);
}

/// The types of the fields of the other messages: times and distances have 32 bits,
/// serial numbers are never 0, and kinds are enumerations.
pub proof fn other_fields_have_their_types()
    ensures
        ({
            let f = fit::file_id_fields();
            &&& type_of(f, 0) == Some(0u8)
            &&& type_of(f, 1) == Some(0x84u8)
            &&& type_of(f, 2) == Some(0x84u8)
            &&& type_of(f, 3) == Some(0x8Cu8)
            &&& type_of(f, 4) == Some(0x86u8)
        }),
        ({
            let f = fit::session_fields();
            &&& type_of(f, 253) == Some(0x86u8)
            &&& type_of(f, 2) == Some(0x86u8)
            &&& type_of(f, 7) == Some(0x86u8)
            &&& type_of(f, 8) == Some(0x86u8)
            &&& type_of(f, 9) == Some(0x86u8)
            &&& type_of(f, 5) == Some(0u8)
            &&& type_of(f, 6) == Some(0u8)
            &&& type_of(f, 0) == Some(0u8)
            &&& type_of(f, 1) == Some(0u8)
        }),
        ({
            let f = fit::activity_fields();
            &&& type_of(f, 253) == Some(0x86u8)
            &&& type_of(f, 0) == Some(0x86u8)
            &&& type_of(f, 1) == Some(0x84u8)
            &&& type_of(f, 2) == Some(0u8)
            &&& type_of(f, 3) == Some(0u8)
            &&& type_of(f, 4) == Some(0u8)
            &&& type_of(f, 5) == Some(0x86u8)
        }),
{
    let f = fit::file_id_fields();
    assert forall|k: int| 0 <= k < f.len() implies type_of(f, (#[trigger] f[k]).number) == Some(
        f[k].base_type,
    ) by {
        lemma_type(f, k);
    }
    assert(f[0].number == 0 && f[1].number == 1 && f[2].number == 2 && f[3].number == 3
        && f[4].number == 4);
    let g = fit::session_fields();
    assert forall|k: int| 0 <= k < g.len() implies type_of(g, (#[trigger] g[k]).number) == Some(
        g[k].base_type,
    ) by {
        lemma_type(g, k);
    }
    assert(g[0].number == 253 && g[1].number == 2 && g[2].number == 7 && g[3].number == 8
        && g[4].number == 9);
    assert(g[5].number == 5 && g[6].number == 6 && g[7].number == 0 && g[8].number == 1);
    let h = fit::activity_fields();
    assert forall|k: int| 0 <= k < h.len() implies type_of(h, (#[trigger] h[k]).number) == Some(
        h[k].base_type,
    ) by {
        lemma_type(h, k);
    }
    assert(h[0].number == 253 && h[1].number == 0 && h[2].number == 1 && h[3].number == 2);
    assert(h[4].number == 3 && h[5].number == 4 && h[6].number == 5);
}

proof fn lemma_field_bytes(fields: Seq<FieldDef>)
    ensures
        fit::field_bytes(fields).len() == 3 * fields.len(),
        forall|i: int|
            #![trigger fields[i]]
            0 <= i < fields.len() ==> fit::field_bytes(fields)[3 * i] == fields[i].number
                && fit::field_bytes(fields)[3 * i + 1] == fields[i].size && fit::field_bytes(
                fields,
            )[3 * i + 2] == fields[i].base_type,
    decreases fields.len(),
{
    if fields.len() > 0 {
        let front = fields.drop_last();
        lemma_field_bytes(front);
        assert forall|i: int|
            #![trigger fields[i]]
            0 <= i < fields.len() implies fit::field_bytes(fields)[3 * i] == fields[i].number
            && fit::field_bytes(fields)[3 * i + 1] == fields[i].size && fit::field_bytes(
            fields,
        )[3 * i + 2] == fields[i].base_type by {
            if i < front.len() {
                assert(front[i] == fields[i]);
            }
        }
    }
}

/// A definition message defines the kind and the fields of the messages behind it
/// with its local number.
pub proof fn definitions_define(
    defs: Map<u8, (int, Seq<FieldDef>)>,
    local: u8,
    kind: u16,
    fields: Seq<FieldDef>,
    rest: Seq<u8>,
)
    requires
        local < 16,
        fields.len() < 256,
    ensures
        messages(defs, fit::definition_bytes(local, kind, fields) + rest) == messages(
            defs.insert(local, (kind as int, fields)),
            rest,
        ),
{
    let d = fit::definition_bytes(local, kind, fields);
    let s = d + rest;
    lemma_field_bytes(fields);
    let fb = fit::field_bytes(fields);
    assert(d.len() == 6 + 3 * fields.len());
    assert(s[0] == 0x40 + local && s[1] == 0 && s[2] == 0);
    assert(s[3] == kind % 0x100 && s[4] == kind / 0x100);
    assert(s[5] == fields.len());
    assert forall|i: int| 0 <= i < fields.len() implies #[trigger] defined(s)[i] == fields[i] by {
        assert(fields[i].number == fb[3 * i]);
        assert(s[6 + 3 * i] == fb[3 * i]);
        assert(s[7 + 3 * i] == fb[3 * i + 1]);
        assert(s[8 + 3 * i] == fb[3 * i + 2]);
    }
    assert(defined(s) =~= fields);
    assert(s.skip(6 + 3 * s[5]) =~= rest);
}

proof fn lemma_message(defs: Map<u8, (int, Seq<FieldDef>)>, local: u8, data: Seq<u8>, rest: Seq<u8>)
    requires
        local < 16,
        defs.contains_key(local),
        data.len() == width(defs[local].1),
    ensures
        messages(defs, seq![local] + data + rest) == seq![
            Message { kind: defs[local].0, fields: defs[local].1, data },
        ] + messages(defs, rest),
{
    let s = seq![local] + data + rest;
    let end = 1 + data.len() as int;
    assert(s[0] == local);
    assert(s.subrange(1, end) =~= data);
    assert(s.skip(end) =~= rest);
}

/// The message of a row.
spec fn row_message(ts: u32, r: Row, q: Quantities) -> Message {
    Message { kind: 20, fields: fit::record_fields(), data: fit::record_bytes(ts, r, q).skip(1) }
}

proof fn lemma_record_message(
    defs: Map<u8, (int, Seq<FieldDef>)>,
    ts: u32,
    r: Row,
    q: Quantities,
    rest: Seq<u8>,
)
    requires
        defs.contains_key(1),
        defs[1] == (20int, fit::record_fields()),
    ensures
        messages(defs, fit::record_bytes(ts, r, q) + rest) == seq![row_message(ts, r, q)]
            + messages(defs, rest),
{
    record_fields_have_their_numbers(ts, r, q);
    let m = fit::record_bytes(ts, r, q);
    lemma_message(defs, 1, m.skip(1), rest);
    assert(seq![1u8] + m.skip(1) =~= m);
}

/// Whether a row is the first one with a position of its second.
pub open spec fn recorded(rows: Seq<Row>, numbers: Seq<Quantities>, i: int) -> bool {
    &&& rows[i].latitude is Some
    &&& rows[i].longitude is Some
    &&& forall|j: int|
        0 <= j < i && (#[trigger] rows[j]).latitude is Some && rows[j].longitude is Some
            ==> numbers[j].second != numbers[i].second
}

/// The rows that are recorded, in order.
pub open spec fn recorded_rows(rows: Seq<Row>, numbers: Seq<Quantities>, n: nat) -> Seq<int>
    decreases n,
{
    if n == 0 {
        Seq::empty()
    } else {
        let before = recorded_rows(rows, numbers, (n - 1) as nat);
        if recorded(rows, numbers, n - 1) {
            before.push(n - 1)
        } else {
            before
        }
    }
}

/// The distance of the last recorded row that has one, or 0.
pub open spec fn last_distance(rows: Seq<Row>, numbers: Seq<Quantities>, list: Seq<int>) -> u32
    decreases list.len(),
{
    if list.len() == 0 {
        0
    } else if rows[list.last()].distance_m is Some {
        numbers[list.last()].distance
    } else {
        last_distance(rows, numbers, list.drop_last())
    }
}

/// Whether seconds do not go back, and stay within 32 bits behind `start`.
pub open spec fn counted(numbers: Seq<Quantities>, start: u32) -> bool {
    &&& forall|i: int, j: int|
        0 <= i <= j < numbers.len() ==> (#[trigger] numbers[i]).second <= (
        #[trigger] numbers[j]).second
    &&& forall|i: int| 0 <= i < numbers.len() ==> start + (#[trigger] numbers[i]).second <= u32::MAX
}

/// The messages of the recorded rows.
spec fn row_messages(
    rows: Seq<Row>,
    numbers: Seq<Quantities>,
    start: u32,
    list: Seq<int>,
) -> Seq<Message> {
    Seq::new(
        list.len(),
        |k: int|
            row_message(
                (start + numbers[list[k]].second) as u32,
                rows[list[k]],
                numbers[list[k]],
            ),
    )
}

/// What the records of the first `n` rows are.
proof fn lemma_records(
    defs: Map<u8, (int, Seq<FieldDef>)>,
    rows: Seq<Row>,
    numbers: Seq<Quantities>,
    start: u32,
    n: nat,
    rest: Seq<u8>,
)
    requires
        defs.contains_key(1),
        defs[1] == (20int, fit::record_fields()),
        rows.len() == numbers.len(),
        n <= rows.len(),
        counted(numbers, start),
    ensures
        ({
            let w = fit::records(rows.take(n as int), numbers, start);
            let list = recorded_rows(rows, numbers, n);
            &&& w.times.len() == list.len()
            &&& forall|k: int|
                0 <= k < list.len() ==> 0 <= #[trigger] list[k] < n && recorded(
                    rows,
                    numbers,
                    list[k],
                ) && w.times[k] == start + numbers[list[k]].second
            &&& w.total == last_distance(rows, numbers, list)
            &&& messages(defs, w.bytes + rest) == row_messages(rows, numbers, start, list)
                + messages(defs, rest)
            &&& forall|j: int|
                0 <= j < n && (#[trigger] rows[j]).latitude is Some && rows[j].longitude is Some
                    ==> list.len() > 0 && numbers[j].second <= numbers[list.last()].second
        }),
    decreases n,
{
    let w = fit::records(rows.take(n as int), numbers, start);
    let list = recorded_rows(rows, numbers, n);
    if n == 0 {
        assert(w.bytes + rest =~= rest);
        assert(row_messages(rows, numbers, start, list) + messages(defs, rest) =~= messages(
            defs,
            rest,
        ));
    } else {
        let i = n - 1;
        let front = rows.take(n as int).drop_last();
        assert(front =~= rows.take(i));
        assert(rows.take(n as int).last() == rows[i]);
        let old_list = recorded_rows(rows, numbers, i as nat);
        let v = fit::records(front, numbers, start);
        lemma_records(defs, rows, numbers, start, i as nat, rest);
        let ts = fit::capped_sum(start, numbers[i].second);
        assert(start + numbers[i].second <= u32::MAX);
        assert(ts == start + numbers[i].second);
        let here = rows[i].latitude is Some && rows[i].longitude is Some;
        if old_list.len() > 0 {
            let l = old_list.last();
            assert(old_list[old_list.len() - 1] == l);
            assert(recorded(rows, numbers, l));
            assert(rows[l].latitude is Some && rows[l].longitude is Some);
            assert(numbers[l].second <= numbers[i].second);
            if here && numbers[l].second != numbers[i].second {
                assert forall|j: int|
                    0 <= j < i && (#[trigger] rows[j]).latitude is Some
                        && rows[j].longitude is Some implies numbers[j].second
                    != numbers[i].second by {
                    assert(numbers[j].second <= numbers[l].second);
                }
            }
        }
        assert(recorded(rows, numbers, i) <==> here && !(v.times.len() > 0 && v.times.last() == ts));
        if recorded(rows, numbers, i) {
            let m = fit::record_bytes(ts, rows[i], numbers[i]);
            lemma_records(defs, rows, numbers, start, i as nat, m + rest);
            lemma_record_message(defs, ts, rows[i], numbers[i], rest);
            assert(w.bytes + rest =~= v.bytes + (m + rest));
            assert(list.drop_last() =~= old_list);
            assert(row_messages(rows, numbers, start, list) =~= row_messages(
                rows,
                numbers,
                start,
                old_list,
            ).push(row_message(ts, rows[i], numbers[i])));
            assert(row_messages(rows, numbers, start, list) + messages(defs, rest)
                =~= row_messages(rows, numbers, start, old_list) + (seq![
                row_message(ts, rows[i], numbers[i]),
            ] + messages(defs, rest)));
        }
    }
}

spec fn file_id_parts(serial: u32, start: u32) -> Seq<(FieldDef, Seq<u8>)> {
    let f = fit::file_id_fields();
    seq![
        (f[0], seq![4u8]),
        (f[1], bytes::le16_bytes(255)),
        (f[2], bytes::le16_bytes(1)),
        (f[3], bytes::le32_bytes(serial)),
        (f[4], bytes::le32_bytes(start)),
    ]
}

spec fn session_parts(start: u32, end: u32, ms: u32, total: u32) -> Seq<(FieldDef, Seq<u8>)> {
    let f = fit::session_fields();
    seq![
        (f[0], bytes::le32_bytes(end)),
        (f[1], bytes::le32_bytes(start)),
        (f[2], bytes::le32_bytes(ms)),
        (f[3], bytes::le32_bytes(ms)),
        (f[4], bytes::le32_bytes(total)),
        (f[5], seq![10u8]),
        (f[6], seq![0u8]),
        (f[7], seq![8u8]),
        (f[8], seq![1u8]),
    ]
}

spec fn activity_parts(end: u32, ms: u32, local: u32) -> Seq<(FieldDef, Seq<u8>)> {
    let f = fit::activity_fields();
    seq![
        (f[0], bytes::le32_bytes(end)),
        (f[1], bytes::le32_bytes(ms)),
        (f[2], bytes::le16_bytes(1)),
        (f[3], seq![0u8]),
        (f[4], seq![26u8]),
        (f[5], seq![1u8]),
        (f[6], bytes::le32_bytes(local)),
    ]
}

proof fn lemma_joined_upto(p: Seq<(FieldDef, Seq<u8>)>, k: int)
    requires
        0 < k <= p.len(),
    ensures
        joined(p.take(k)) == joined(p.take(k - 1)) + p[k - 1].1,
{
    assert(p.take(k).drop_last() =~= p.take(k - 1));
}

/// The milliseconds between two times, in 32 bits.
pub open spec fn lapse(start: u32, end: u32) -> int {
    (end - start) * 1000 % 0x1_0000_0000
}

/// The message that identifies a file: an activity (4) of a device in development
/// (255) with a serial number, made at the start.
pub proof fn file_ids_read_back(
    defs: Map<u8, (int, Seq<FieldDef>)>,
    serial: u32,
    start: u32,
    rest: Seq<u8>,
)
    ensures
        ({
            let f = fit::file_id_fields();
            let now = messages(defs, fit::file_id_bytes(serial, start) + rest);
            &&& now.len() > 0
            &&& now.drop_first() == messages(defs.insert(0, (0int, f)), rest)
            &&& now[0].kind == 0
            &&& said(now[0], 0) == Some(4int)
            &&& said(now[0], 1) == Some(255int)
            &&& said(now[0], 2) == Some(1int)
            &&& said(now[0], 3) == Some(serial as int)
            &&& said(now[0], 4) == Some(start as int)
        }),
{
    let f = fit::file_id_fields();
    let p = file_id_parts(serial, start);
    let whole = fit::file_id_bytes(serial, start) + rest;
    let d = fit::definition_bytes(0, 0, f);
    let behind = defs.insert(0, (0int, f));
    assert(fitting(p));
    assert(p.map_values(|p: (FieldDef, Seq<u8>)| p.0) =~= f);
    lemma_joined_len(p);
    assert(p.take(5) =~= p);
    lemma_joined_upto(p, 5);
    lemma_joined_upto(p, 4);
    lemma_joined_upto(p, 3);
    lemma_joined_upto(p, 2);
    lemma_joined_upto(p, 1);
    assert(joined(p.take(0)) =~= Seq::empty());
    assert(whole =~= d + (seq![0u8] + joined(p) + rest));
    definitions_define(defs, 0, 0, f, seq![0u8] + joined(p) + rest);
    lemma_message(behind, 0, joined(p), rest);
    let now = messages(defs, whole);
    assert(now.drop_first() =~= messages(behind, rest));
    lemma_value(p, 0);
    lemma_value(p, 1);
    lemma_value(p, 2);
    lemma_value(p, 3);
    lemma_value(p, 4);
    lemma_numbers(serial, 255, 4);
    lemma_numbers(start, 1, 0);
}

/// The message of a session from a start to an end: motorcycling (10), with the time
/// that has passed, in milliseconds, and the distance.
pub proof fn sessions_read_back(
    defs: Map<u8, (int, Seq<FieldDef>)>,
    start: u32,
    end: u32,
    total: u32,
    rest: Seq<u8>,
)
    requires
        start <= end,
    ensures
        ({
            let f = fit::session_fields();
            let now = messages(defs, fit::session_bytes(start, end, total) + rest);
            &&& now.len() > 0
            &&& now.drop_first() == messages(defs.insert(2, (18int, f)), rest)
            &&& now[0].kind == 18
            &&& said(now[0], 253) == Some(end as int)
            &&& said(now[0], 2) == Some(start as int)
            &&& said(now[0], 7) == Some(lapse(start, end))
            &&& said(now[0], 8) == Some(lapse(start, end))
            &&& said(now[0], 9) == Some(total as int)
            &&& said(now[0], 5) == Some(10int)
            &&& said(now[0], 6) == Some(0int)
            &&& said(now[0], 0) == Some(8int)
            &&& said(now[0], 1) == Some(1int)
        }),
{
    let f = fit::session_fields();
    let ms = fit::elapsed_ms(start, end);
    let p = session_parts(start, end, ms, total);
    let whole = fit::session_bytes(start, end, total) + rest;
    let d = fit::definition_bytes(2, 18, f);
    let behind = defs.insert(2, (18int, f));
    assert(fitting(p));
    assert(p.map_values(|p: (FieldDef, Seq<u8>)| p.0) =~= f);
    lemma_joined_len(p);
    assert(p.take(9) =~= p);
    lemma_joined_upto(p, 9);
    lemma_joined_upto(p, 8);
    lemma_joined_upto(p, 7);
    lemma_joined_upto(p, 6);
    lemma_joined_upto(p, 5);
    lemma_joined_upto(p, 4);
    lemma_joined_upto(p, 3);
    lemma_joined_upto(p, 2);
    lemma_joined_upto(p, 1);
    assert(joined(p.take(0)) =~= Seq::empty());
    assert(whole =~= d + (seq![2u8] + joined(p) + rest));
    definitions_define(defs, 2, 18, f, seq![2u8] + joined(p) + rest);
    lemma_message(behind, 2, joined(p), rest);
    let now = messages(defs, whole);
    assert(now.drop_first() =~= messages(behind, rest));
    lemma_value(p, 0);
    lemma_value(p, 1);
    lemma_value(p, 2);
    lemma_value(p, 3);
    lemma_value(p, 4);
    lemma_value(p, 5);
    lemma_value(p, 6);
    lemma_value(p, 7);
    lemma_value(p, 8);
    lemma_numbers(end, 0, 10);
    lemma_numbers(start, 0, 0);
    lemma_numbers(ms, 0, 8);
    lemma_numbers(total, 0, 1);
}

/// The message of an activity: one session, ended by hand, and its end by the local
/// clock.
pub proof fn activities_read_back(
    defs: Map<u8, (int, Seq<FieldDef>)>,
    start: u32,
    end: u32,
    local: u32,
    rest: Seq<u8>,
)
    requires
        start <= end,
    ensures
        ({
            let f = fit::activity_fields();
            let now = messages(defs, fit::activity_bytes(start, end, local) + rest);
            &&& now.len() > 0
            &&& now.drop_first() == messages(defs.insert(3, (34int, f)), rest)
            &&& now[0].kind == 34
            &&& said(now[0], 253) == Some(end as int)
            &&& said(now[0], 0) == Some(lapse(start, end))
            &&& said(now[0], 1) == Some(1int)
            &&& said(now[0], 2) == Some(0int)
            &&& said(now[0], 3) == Some(26int)
            &&& said(now[0], 4) == Some(1int)
            &&& said(now[0], 5) == Some(local as int)
        }),
{
    let f = fit::activity_fields();
    let ms = fit::elapsed_ms(start, end);
    let p = activity_parts(end, ms, local);
    let whole = fit::activity_bytes(start, end, local) + rest;
    let d = fit::definition_bytes(3, 34, f);
    let behind = defs.insert(3, (34int, f));
    assert(fitting(p));
    assert(p.map_values(|p: (FieldDef, Seq<u8>)| p.0) =~= f);
    lemma_joined_len(p);
    assert(p.take(7) =~= p);
    lemma_joined_upto(p, 7);
    lemma_joined_upto(p, 6);
    lemma_joined_upto(p, 5);
    lemma_joined_upto(p, 4);
    lemma_joined_upto(p, 3);
    lemma_joined_upto(p, 2);
    lemma_joined_upto(p, 1);
    assert(joined(p.take(0)) =~= Seq::empty());
    assert(whole =~= d + (seq![3u8] + joined(p) + rest));
    definitions_define(defs, 3, 34, f, seq![3u8] + joined(p) + rest);
    lemma_message(behind, 3, joined(p), rest);
    let now = messages(defs, whole);
    assert(now.drop_first() =~= messages(behind, rest));
    lemma_value(p, 0);
    lemma_value(p, 1);
    lemma_value(p, 2);
    lemma_value(p, 3);
    lemma_value(p, 4);
    lemma_value(p, 5);
    lemma_value(p, 6);
    lemma_numbers(end, 1, 0);
    lemma_numbers(ms, 1, 26);
    lemma_numbers(local, 1, 1);
}

/// A record tells a row at a time.
pub open spec fn tells(m: Message, time: int, r: Row, q: Quantities) -> bool {
    &&& m.kind == 20
    &&& said(m, 253) == Some(time)
    &&& said(m, 0) is Some
    &&& signed(said(m, 0)->Some_0) == q.latitude
    &&& said(m, 1) is Some
    &&& signed(said(m, 1)->Some_0) == q.longitude
    &&& r.altitude_m is Some ==> said(m, 2) == Some(q.altitude as int) && said(m, 78) == Some(
        q.enhanced_altitude as int,
    )
    &&& r.distance_m is Some ==> said(m, 5) == Some(q.distance as int)
    &&& r.speed_ms is Some ==> said(m, 6) == Some(q.speed as int) && said(m, 73) == Some(
        q.enhanced_speed as int,
    )
}

proof fn lemma_body(t: Telemetry, numbers: Seq<Quantities>)
    requires
        t.rows@.len() == numbers.len(),
        counted(numbers, fit::start_seconds(t)),
    ensures
        ({
            let start = fit::start_seconds(t);
            let list = recorded_rows(t.rows@, numbers, t.rows@.len());
            let end = if list.len() > 0 {
                (start + numbers[list.last()].second) as u32
            } else {
                start
            };
            let m0 = Map::<u8, (int, Seq<FieldDef>)>::empty();
            let m1 = m0.insert(0, (0int, fit::file_id_fields()));
            let m2 = m1.insert(1, (20int, fit::record_fields()));
            let last = fit::activity_bytes(
                start,
                end,
                fit::capped_sum(fit::local_start(t), (end - start) as u32),
            ) + Seq::<u8>::empty();
            let tail = fit::session_bytes(start, end, last_distance(t.rows@, numbers, list)) + last;
            let w = fit::records(t.rows@, numbers, start);
            let middle = fit::definition_bytes(1, 20, fit::record_fields()) + (w.bytes + tail);
            &&& fit::body_bytes(t, numbers) == fit::file_id_bytes(
                fit::serial_number(dji::chars(t.info.serial)),
                start,
            ) + middle
            &&& messages(m1, middle) == row_messages(t.rows@, numbers, start, list) + messages(
                m2,
                tail,
            )
            &&& forall|k: int|
                0 <= k < list.len() ==> 0 <= #[trigger] list[k] < t.rows@.len() && recorded(
                    t.rows@,
                    numbers,
                    list[k],
                )
            &&& start <= end
        }),
{
    let start = fit::start_seconds(t);
    let rows = t.rows@;
    let n = rows.len();
    let list = recorded_rows(rows, numbers, n);
    let w = fit::records(rows, numbers, start);
    let m0 = Map::<u8, (int, Seq<FieldDef>)>::empty();
    let m1 = m0.insert(0, (0int, fit::file_id_fields()));
    let m2 = m1.insert(1, (20int, fit::record_fields()));
    assert(rows.take(n as int) =~= rows);
    lemma_records(m2, rows, numbers, start, n, Seq::empty());
    let end = if list.len() > 0 {
        (start + numbers[list.last()].second) as u32
    } else {
        start
    };
    if list.len() > 0 {
        assert(0 <= list[list.len() - 1] < n);
        assert(w.times[list.len() - 1] == start + numbers[list[list.len() - 1]].second);
        assert(w.times.last() == end);
    }
    let last = fit::activity_bytes(
        start,
        end,
        fit::capped_sum(fit::local_start(t), (end - start) as u32),
    ) + Seq::<u8>::empty();
    let tail = fit::session_bytes(start, end, last_distance(rows, numbers, list)) + last;
    let d = fit::definition_bytes(1, 20, fit::record_fields());
    lemma_records(m2, rows, numbers, start, n, tail);
    definitions_define(m1, 1, 20, fit::record_fields(), w.bytes + tail);
    let id = fit::file_id_bytes(fit::serial_number(dji::chars(t.info.serial)), start);
    assert(fit::body_bytes(t, numbers) =~= id + (d + (w.bytes + tail)));
}

/// The last time of the records.
pub open spec fn end_of(t: Telemetry, numbers: Seq<Quantities>) -> u32 {
    let start = fit::start_seconds(t);
    let list = recorded_rows(t.rows@, numbers, t.rows@.len());
    if list.len() > 0 {
        (start + numbers[list.last()].second) as u32
    } else {
        start
    }
}

/// Where the messages of a file come from.
proof fn lemma_messages(t: Telemetry, numbers: Seq<Quantities>)
    requires
        t.rows@.len() == numbers.len(),
        counted(numbers, fit::start_seconds(t)),
    ensures
        ({
            let start = fit::start_seconds(t);
            let end = end_of(t, numbers);
            let list = recorded_rows(t.rows@, numbers, t.rows@.len());
            let n = list.len() as int;
            let m = messages(Map::empty(), fit::body_bytes(t, numbers));
            let total = last_distance(t.rows@, numbers, list);
            &&& start <= end
            &&& m.len() == n + 3
            &&& m[0].kind == 0
            &&& said(m[0], 0) == Some(4int)
            &&& said(m[0], 3) == Some(fit::serial_number(dji::chars(t.info.serial)) as int)
            &&& said(m[0], 4) == Some(start as int)
            &&& m.subrange(1, n + 1) == row_messages(t.rows@, numbers, start, list)
            &&& exists|defs: Map<u8, (int, Seq<FieldDef>)>, rest: Seq<u8>| #[trigger]
                messages(defs, fit::session_bytes(start, end, total) + rest) == m.skip(n + 1)
            &&& exists|defs: Map<u8, (int, Seq<FieldDef>)>| #[trigger]
                messages(
                    defs,
                    fit::activity_bytes(
                        start,
                        end,
                        fit::capped_sum(fit::local_start(t), (end - start) as u32),
                    ) + Seq::<u8>::empty(),
                ) == m.skip(n + 2)
        }),
{
    let start = fit::start_seconds(t);
    let list = recorded_rows(t.rows@, numbers, t.rows@.len());
    let n = list.len() as int;
    let end = end_of(t, numbers);
    let total = last_distance(t.rows@, numbers, list);
    lemma_body(t, numbers);
    let m0 = Map::<u8, (int, Seq<FieldDef>)>::empty();
    let m1 = m0.insert(0, (0int, fit::file_id_fields()));
    let m2 = m1.insert(1, (20int, fit::record_fields()));
    let m3 = m2.insert(2, (18int, fit::session_fields()));
    let m4 = m3.insert(3, (34int, fit::activity_fields()));
    let local = fit::capped_sum(fit::local_start(t), (end - start) as u32);
    let last = fit::activity_bytes(start, end, local) + Seq::<u8>::empty();
    let tail = fit::session_bytes(start, end, total) + last;
    let w = fit::records(t.rows@, numbers, start);
    let middle = fit::definition_bytes(1, 20, fit::record_fields()) + (w.bytes + tail);
    file_ids_read_back(m0, fit::serial_number(dji::chars(t.info.serial)), start, middle);
    sessions_read_back(m2, start, end, total, last);
    activities_read_back(m3, start, end, local, Seq::empty());
    assert(messages(m4, Seq::empty()) =~= Seq::empty());
    let m = messages(m0, fit::body_bytes(t, numbers));
    let rm = row_messages(t.rows@, numbers, start, list);
    let s = messages(m2, tail);
    let a = messages(m3, last);
    lemma_chain(m, rm, s, a);
}

proof fn lemma_chain(m: Seq<Message>, rm: Seq<Message>, s: Seq<Message>, a: Seq<Message>)
    requires
        a.len() > 0,
        a.drop_first().len() == 0,
        s.len() > 0,
        s.drop_first() == a,
        m.len() > 0,
        m.drop_first() == rm + s,
    ensures
        m.len() == rm.len() + 3,
        m.subrange(1, rm.len() + 1int) == rm,
        m.skip(rm.len() + 1int) == s,
        m.skip(rm.len() + 2int) == a,
{
    assert(a.drop_first().len() == a.len() - 1);
    assert(s.drop_first().len() == s.len() - 1);
    assert(m.drop_first().len() == m.len() - 1);
    assert forall|i: int| 0 <= i < m.len() - 1 implies #[trigger] m[i + 1] == (rm + s)[i] by {
        assert(m[i + 1] == m.drop_first()[i]);
    }
    assert(s.len() == 2);
    assert(s[1] == s.drop_first()[0]);
    assert(m.subrange(1, rm.len() + 1int) =~= rm) by {
        assert forall|i: int| 0 <= i < rm.len() implies m.subrange(1, rm.len() + 1int)[i] == rm[i] by {
            assert(m[i + 1] == (rm + s)[i]);
        }
    }
    let n = rm.len() as int;
    assert(m[n + 1] == (rm + s)[n]);
    assert(m[(n + 1) + 1] == (rm + s)[n + 1]);
    assert(s[1] == a[0]);
    assert(m.skip(n + 1) =~= s);
    assert(m.skip(n + 2) =~= a);
}

/// What a reader finds in the messages of a file: the identification of the file, and
/// then a record for the first row with a position of each second.
pub proof fn files_record_each_second(t: Telemetry, numbers: Seq<Quantities>)
    requires
        t.rows@.len() == numbers.len(),
        counted(numbers, fit::start_seconds(t)),
    ensures
        ({
            let start = fit::start_seconds(t);
            let list = recorded_rows(t.rows@, numbers, t.rows@.len());
            let m = messages(Map::empty(), fit::body_bytes(t, numbers));
            &&& m.len() == list.len() + 3
            &&& m[0].kind == 0
            &&& said(m[0], 0) == Some(4int)
            &&& said(m[0], 3) == Some(fit::serial_number(dji::chars(t.info.serial)) as int)
            &&& said(m[0], 4) == Some(start as int)
            &&& forall|k: int|
                0 <= k < list.len() ==> tells(
                    m[k + 1],
                    start + numbers[#[trigger] list[k]].second,
                    t.rows@[list[k]],
                    numbers[list[k]],
                )
        }),
{
    let start = fit::start_seconds(t);
    let list = recorded_rows(t.rows@, numbers, t.rows@.len());
    let n = list.len() as int;
    let m = messages(Map::empty(), fit::body_bytes(t, numbers));
    lemma_messages(t, numbers);
    lemma_body(t, numbers);
    let rm = row_messages(t.rows@, numbers, start, list);
    assert forall|k: int| 0 <= k < n implies tells(
        m[k + 1],
        start + numbers[#[trigger] list[k]].second,
        t.rows@[list[k]],
        numbers[list[k]],
    ) by {
        let i = list[k];
        assert(0 <= i < numbers.len());
        assert(m[k + 1] == m.subrange(1, n + 1)[k]);
        assert(m[k + 1] == rm[k]);
        assert(start + numbers[i].second <= u32::MAX);
        record_fields_have_their_numbers(
            (start + numbers[i].second) as u32,
            t.rows@[i],
            numbers[i],
        );
    }
}

/// The last two messages of a file are a session and an activity, which end with the
/// last record. The distance is that of the last record that has one.
pub proof fn files_end_with_a_session(t: Telemetry, numbers: Seq<Quantities>)
    requires
        t.rows@.len() == numbers.len(),
        counted(numbers, fit::start_seconds(t)),
    ensures
        ({
            let start = fit::start_seconds(t);
            let end = end_of(t, numbers);
            let list = recorded_rows(t.rows@, numbers, t.rows@.len());
            let local = fit::local_start(t) + end - start;
            let m = messages(Map::empty(), fit::body_bytes(t, numbers));
            let session = m[list.len() as int + 1];
            let activity = m[list.len() as int + 2];
            &&& m.len() == list.len() + 3
            &&& session.kind == 18
            &&& said(session, 2) == Some(start as int)
            &&& said(session, 253) == Some(end as int)
            &&& said(session, 7) == Some(lapse(start, end))
            &&& said(session, 8) == Some(lapse(start, end))
            &&& said(session, 9) == Some(last_distance(t.rows@, numbers, list) as int)
            &&& activity.kind == 34
            &&& said(activity, 253) == Some(end as int)
            &&& said(activity, 0) == Some(lapse(start, end))
            &&& local <= u32::MAX ==> said(activity, 5) == Some(local)
        }),
{
    let start = fit::start_seconds(t);
    let end = end_of(t, numbers);
    let list = recorded_rows(t.rows@, numbers, t.rows@.len());
    let n = list.len() as int;
    let total = last_distance(t.rows@, numbers, list);
    let m = messages(Map::empty(), fit::body_bytes(t, numbers));
    let local = fit::capped_sum(fit::local_start(t), (end - start) as u32);
    lemma_messages(t, numbers);
    let (d, rest) = choose|defs: Map<u8, (int, Seq<FieldDef>)>, rest: Seq<u8>| #[trigger]
        messages(defs, fit::session_bytes(start, end, total) + rest) == m.skip(n + 1);
    sessions_read_back(d, start, end, total, rest);
    let e = choose|defs: Map<u8, (int, Seq<FieldDef>)>| #[trigger]
        messages(defs, fit::activity_bytes(start, end, local) + Seq::<u8>::empty()) == m.skip(n + 2);
    activities_read_back(e, start, end, local, Seq::empty());
    assert(m.skip(n + 1)[0] == m[n + 1]);
    assert(m.skip(n + 2)[0] == m[n + 2]);
}

/// The header of a file says its own length, that of the messages, and what the file
/// is; the messages stand behind it and its checksum, and two bytes behind them.
pub proof fn headers_measure_files(body: Seq<u8>)
    requires
        body.len() <= u32::MAX,
    ensures
        ({
            let f = fit::file_bytes(body);
            &&& f[0] == 14
            &&& f[1] == 0x20
            &&& number(f.subrange(2, 4)) == 2132
            &&& number(f.subrange(4, 8)) == body.len()
            &&& f.subrange(8, 12) == seq!['.' as u8, 'F' as u8, 'I' as u8, 'T' as u8]
            &&& number(f.subrange(12, 14)) == fit::crc(f.take(12))
            &&& f.subrange(14, 14 + body.len() as int) == body
            &&& f.len() == 14 + body.len() + 2
            &&& number(f.skip(14 + body.len() as int)) == fit::crc(f.take(14 + body.len() as int))
        }),
{
    let f = fit::file_bytes(body);
    let h = fit::header_bytes(body.len());
    let n = body.len() as u32;
    lemma_numbers(n, 2132, 0);
    lemma_numbers(n, fit::crc(h), 0);
    let g = fit::sealed(h) + body;
    lemma_numbers(n, fit::crc(g), 0);
    assert(h.len() == 12);
    assert(f.take(12) =~= h);
    assert(f.take(14 + body.len() as int) =~= g);
    assert(f.subrange(2, 4) =~= bytes::le16_bytes(2132));
    assert(f.subrange(4, 8) =~= bytes::le32_bytes(n));
    assert(f.subrange(8, 12) =~= seq!['.' as u8, 'F' as u8, 'I' as u8, 'T' as u8]);
    assert(f.subrange(12, 14) =~= bytes::le16_bytes(fit::crc(h)));
    assert(f.subrange(14, 14 + body.len() as int) =~= body);
    assert(f.skip(14 + body.len() as int) =~= bytes::le16_bytes(fit::crc(g)));
}

/// The times of FIT files count seconds from the last day of 1989, which is 20 years
/// of 365 days, 5 leap days, less one day behind 1970; what is before is 0.
pub proof fn times_count_from_1989(secs: int)
    ensures
        secs <= (20 * 365 + 5 - 1) * 86_400 ==> fit::fit_seconds(secs) == 0,
        0 <= secs - (20 * 365 + 5 - 1) * 86_400 <= u32::MAX ==> fit::fit_seconds(secs) == secs - (20
            * 365 + 5 - 1) * 86_400,
{
}

/// A file starts at the UTC time of the start, that is the local time less the offset.
/// Without an offset it starts at the local time, and without any time at 0. The local
/// start goes by the camera's clock.
pub proof fn starts_go_by_the_best_clock(t: Telemetry, local: Moment, offset: i32)
    requires
        time::representable(local),
        local.nanos < 1_000_000_000,
        time::first_second() <= local.secs - offset * 60 <= time::last_second(),
    ensures
        t.info@.start_local == Some(local) && t.info@.utc_offset_minutes == Some(offset) ==> {
            &&& fit::start_seconds(t) == fit::fit_seconds(local.secs - offset * 60)
            &&& fit::local_start(t) == fit::fit_seconds(local.secs)
        },
        t.info@.start_local == Some(local) && t.info@.utc_offset_minutes is None ==> {
            &&& fit::start_seconds(t) == fit::fit_seconds(local.secs)
            &&& fit::local_start(t) == fit::fit_seconds(local.secs)
        },
        t.info@.start_local is None ==> fit::start_seconds(t) == 0 && fit::local_start(t) == 0,
{
}

/// The number that the digits `s` write in base 31.
pub open spec fn base_31(s: Seq<u8>) -> int
    decreases s.len(),
{
    if s.len() == 0 {
        0
    } else {
        31 * base_31(s.drop_last()) + s.last()
    }
}

proof fn lemma_serial_sum(s: Seq<u8>)
    ensures
        fit::serial_sum(s) == base_31(s) % 0x1_0000_0000,
    decreases s.len(),
{
    if s.len() > 0 {
        let b = base_31(s.drop_last());
        lemma_serial_sum(s.drop_last());
        vstd::arithmetic::div_mod::lemma_mul_mod_noop_right(31, b, 0x1_0000_0000);
        vstd::arithmetic::div_mod::lemma_add_mod_noop_right(
            s.last() as int,
            31 * b,
            0x1_0000_0000,
        );
        vstd::arithmetic::div_mod::lemma_add_mod_noop_right(
            s.last() as int,
            31 * (b % 0x1_0000_0000),
            0x1_0000_0000,
        );
    }
}

/// The serial number of a file is the number that the bytes of the camera's write in
/// base 31, in 32 bits; it is 1 where that is 0 or the camera has none.
pub proof fn serial_numbers_are_in_base_31(s: Seq<char>)
    ensures
        fit::serial_number(None) == 1,
        ({
            let v = base_31(vstd::utf8::encode_utf8(s)) % 0x1_0000_0000;
            fit::serial_number(Some(s)) == if v == 0 {
                1
            } else {
                v
            }
        }),
{
    lemma_serial_sum(vstd::utf8::encode_utf8(s));
}

} // verus!
