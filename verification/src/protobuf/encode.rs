//! Encoder for synthetic messages.

use crate::bytes;
use crate::ieee::{Binary32, Binary64};
use crate::protobuf;
use crate::protobuf::WireValue;
use vstd::prelude::*;

verus! {

/// The base-128 bytes of `v`, least significant first.
pub open spec fn varint_bytes(v: u64) -> Seq<u8>
    decreases v,
{
    if v < 128 {
        seq![v as u8]
    } else {
        seq![(v % 128 + 128) as u8] + varint_bytes((v / 128) as u64)
    }
}

/// The key of the field `field` with wire type `wire`.
pub open spec fn key_bytes(field: u32, wire: u8) -> Seq<u8> {
    varint_bytes((field * 8 + wire) as u64)
}

/// A varint field.
pub open spec fn varint_field(field: u32, v: u64) -> Seq<u8> {
    key_bytes(field, 0) + varint_bytes(v)
}

/// A 32-bit field.
pub open spec fn fixed32_field(field: u32, v: Binary32) -> Seq<u8> {
    key_bytes(field, 5) + bytes::le32_bytes(v.bits)
}

/// A 64-bit field.
pub open spec fn fixed64_field(field: u32, v: Binary64) -> Seq<u8> {
    key_bytes(field, 1) + bytes::le64_bytes(v.bits)
}

/// A length-delimited field.
pub open spec fn bytes_field(field: u32, v: Seq<u8>) -> Seq<u8> {
    key_bytes(field, 2) + varint_bytes(v.len() as u64) + v
}

/// A rational as a pair of varints.
pub open spec fn rational_field(field: u32, num: u64, den: u64) -> Seq<u8> {
    bytes_field(field, varint_bytes(num) + varint_bytes(den))
}

/// Appends `v` as a varint.
pub fn varint(v: u64, out: &mut Vec<u8>)
    ensures
        final(out)@ == old(out)@ + varint_bytes(v),
{
    let mut rest: u64 = v;
    while rest >= 128
        invariant
            out@ + varint_bytes(rest) == old(out)@ + varint_bytes(v),
        decreases rest,
    {
        let ghost before = out@;
        let ghost cur = rest;
        out.push((rest % 128) as u8 + 128);
        rest = rest / 128;
        assert(out@ + varint_bytes(rest) =~= before + varint_bytes(cur));
    }
    out.push(rest as u8);
    assert(out@ =~= old(out)@ + varint_bytes(v));
}

/// Appends the key of a field.
fn key(field: u32, wire: u8, out: &mut Vec<u8>)
    requires
        wire < 8,
    ensures
        final(out)@ == old(out)@ + key_bytes(field, wire),
{
    varint(field as u64 * 8 + wire as u64, out);
}

/// Appends a varint field.
pub fn field_varint(field: u32, v: u64, out: &mut Vec<u8>)
    ensures
        final(out)@ == old(out)@ + varint_field(field, v),
{
    key(field, 0, out);
    varint(v, out);
    assert(out@ =~= old(out)@ + varint_field(field, v));
}

/// Appends a single-precision field.
pub fn field_f32(field: u32, v: Binary32, out: &mut Vec<u8>)
    ensures
        final(out)@ == old(out)@ + fixed32_field(field, v),
{
    key(field, 5, out);
    bytes::push_le_u32(out, v.bits);
    assert(out@ =~= old(out)@ + fixed32_field(field, v));
}

/// Appends a double-precision field.
pub fn field_f64(field: u32, v: Binary64, out: &mut Vec<u8>)
    ensures
        final(out)@ == old(out)@ + fixed64_field(field, v),
{
    key(field, 1, out);
    bytes::push_le_u64(out, v.bits);
    assert(out@ =~= old(out)@ + fixed64_field(field, v));
}

/// Appends a length-delimited field.
pub fn field_bytes(field: u32, v: &[u8], out: &mut Vec<u8>)
    ensures
        final(out)@ == old(out)@ + bytes_field(field, v@),
{
    key(field, 2, out);
    varint(v.len() as u64, out);
    bytes::push_all(out, v);
    assert(out@ =~= old(out)@ + bytes_field(field, v@));
}

/// Appends a text field in UTF-8.
pub fn field_str(field: u32, v: &str, out: &mut Vec<u8>)
    ensures
        final(out)@ == old(out)@ + bytes_field(field, vstd::utf8::encode_utf8(v@)),
{
    field_bytes(field, v.as_bytes(), out);
}

/// Appends a rational field.
pub fn field_rational(field: u32, num: u64, den: u64, out: &mut Vec<u8>)
    ensures
        final(out)@ == old(out)@ + rational_field(field, num, den),
{
    let mut inner: Vec<u8> = Vec::new();
    varint(num, &mut inner);
    varint(den, &mut inner);
    assert(inner@ =~= varint_bytes(num) + varint_bytes(den));
    field_bytes(field, inner.as_slice(), out);
}

/// The encoding of `v` ends at its first byte with a clear top bit, which is
/// at most its tenth, and its digits are those of `v`.
proof fn lemma_varint_bytes(v: u64, rest: Seq<u8>)
    ensures
        protobuf::continuation_count(varint_bytes(v) + rest) == varint_bytes(v).len() - 1,
        protobuf::base128(varint_bytes(v)) == v,
        varint_bytes(v).len() >= 1,
    decreases v,
{
    let s = varint_bytes(v);
    if v < 128 {
        assert((s + rest)[0] == v);
        assert(s.drop_first() =~= Seq::<u8>::empty());
        assert(protobuf::base128(s.drop_first()) == 0);
    } else {
        let w = (v / 128) as u64;
        lemma_varint_bytes(w, rest);
        assert((s + rest).drop_first() =~= varint_bytes(w) + rest);
        assert(s.drop_first() =~= varint_bytes(w));
        assert((s + rest)[0] == (v % 128 + 128) as u8);
    }
}

/// A number below 128 to the power `k` takes at most `k` bytes.
proof fn lemma_varint_len(v: u64, k: nat)
    requires
        v < vstd::arithmetic::power::pow(128, k),
        k >= 1,
    ensures
        varint_bytes(v).len() <= k,
    decreases k,
{
    if v >= 128 {
        if k == 1 {
            vstd::arithmetic::power::lemma_pow1(128);
        } else {
            let p = vstd::arithmetic::power::pow(128, (k - 1) as nat);
            vstd::arithmetic::power::lemma_pow_adds(128, 1, (k - 1) as nat);
            vstd::arithmetic::power::lemma_pow1(128);
            assert(v / 128 < p) by (nonlinear_arith)
                requires
                    v < 128 * p,
            ;
            lemma_varint_len((v / 128) as u64, (k - 1) as nat);
        }
    }
}

/// A varint takes at most ten bytes.
pub proof fn varint_is_short(v: u64)
    ensures
        varint_bytes(v).len() <= 10,
{
    assert(v < vstd::arithmetic::power::pow(128, 10)) by {
        reveal(vstd::arithmetic::power::pow);
        reveal_with_fuel(vstd::arithmetic::power::pow, 11);
    }
    lemma_varint_len(v, 10);
}

/// Reading a written varint gives it back, whatever follows it.
pub proof fn varint_round_trip(v: u64, rest: Seq<u8>)
    ensures
        protobuf::varint(varint_bytes(v) + rest) == Some((v, varint_bytes(v).len())),
{
    lemma_varint_bytes(v, rest);
    varint_is_short(v);
    let s = varint_bytes(v) + rest;
    assert(s.take(varint_bytes(v).len() as int) =~= varint_bytes(v));
}

/// The value that a field holds.
pub open spec fn field_of(field: u32, v: WireValue) -> Seq<u8> {
    match v {
        WireValue::Varint(n) => varint_field(field, n),
        WireValue::Fixed64(b) => key_bytes(field, 1) + b,
        WireValue::Bytes(b) => bytes_field(field, b),
        WireValue::Fixed32(b) => key_bytes(field, 5) + b,
    }
}

/// Whether a value fits its wire type.
pub open spec fn encodable(v: WireValue) -> bool {
    match v {
        WireValue::Varint(n) => true,
        WireValue::Fixed64(b) => b.len() == 8,
        WireValue::Bytes(b) => b.len() <= u64::MAX,
        WireValue::Fixed32(b) => b.len() == 4,
    }
}

/// A written field is the first field read back, whatever follows it.
pub proof fn field_round_trip(field: u32, v: WireValue, rest: Seq<u8>)
    requires
        field != 0,
        encodable(v),
    ensures
        protobuf::head(field_of(field, v) + rest) == Some((field, v, field_of(field, v).len())),
{
    let wire: u8 = match v {
        WireValue::Varint(n) => 0u8,
        WireValue::Fixed64(b) => 1u8,
        WireValue::Bytes(b) => 2u8,
        WireValue::Fixed32(b) => 5u8,
    };
    let key = (field * 8 + wire) as u64;
    let kb = key_bytes(field, wire);
    let whole = field_of(field, v) + rest;
    let tail = whole.skip(kb.len() as int);
    assert(whole =~= kb + tail);
    varint_round_trip(key, tail);
    assert(protobuf::field_number(key) == field);
    assert(key % 8 == wire);
    match v {
        WireValue::Varint(n) => {
            varint_round_trip(n, rest);
            assert(tail =~= varint_bytes(n) + rest);
        },
        WireValue::Fixed64(b) => {
            assert(tail =~= b + rest);
            assert(tail.take(8) =~= b);
        },
        WireValue::Bytes(b) => {
            let lb = varint_bytes(b.len() as u64);
            varint_round_trip(b.len() as u64, b + rest);
            assert(tail =~= lb + (b + rest));
            assert(tail.subrange(lb.len() as int, (lb.len() + b.len()) as int) =~= b);
        },
        WireValue::Fixed32(b) => {
            assert(tail =~= b + rest);
            assert(tail.take(4) =~= b);
        },
    }
}

/// Looking up a written field finds its value; looking up another number
/// looks behind it.
pub proof fn find_after_write(field: u32, v: WireValue, rest: Seq<u8>, wanted: u32)
    requires
        field != 0,
        encodable(v),
    ensures
        protobuf::find(field_of(field, v) + rest, wanted) == if wanted == field {
            Some(v)
        } else {
            protobuf::find(rest, wanted)
        },
{
    field_round_trip(field, v, rest);
    protobuf::lemma_head_extent(field_of(field, v) + rest);
    assert((field_of(field, v) + rest).skip(field_of(field, v).len() as int) =~= rest);
}

/// A message of written fields is read back as those fields.
pub proof fn message_round_trip(field: u32, v: WireValue, rest: Seq<u8>)
    requires
        field != 0,
        encodable(v),
    ensures
        protobuf::all_fields(field_of(field, v) + rest) == match protobuf::all_fields(rest) {
            Some(more) => Some(seq![(field, v)] + more),
            None => None,
        },
{
    field_round_trip(field, v, rest);
    protobuf::lemma_head_extent(field_of(field, v) + rest);
    assert((field_of(field, v) + rest).skip(field_of(field, v).len() as int) =~= rest);
}

/// A message of the given fields.
pub open spec fn message_bytes(list: Seq<(u32, WireValue)>) -> Seq<u8>
    decreases list.len(),
{
    if list.len() == 0 {
        Seq::empty()
    } else {
        message_bytes(list.drop_last()) + field_of(list.last().0, list.last().1)
    }
}

/// One more field stands behind the others.
pub proof fn lemma_message_push(list: Seq<(u32, WireValue)>, field: u32, v: WireValue)
    ensures
        message_bytes(list.push((field, v))) == message_bytes(list) + field_of(field, v),
{
    assert(list.push((field, v)).drop_last() =~= list);
}

/// The first value of a field number in a list of fields.
pub open spec fn first_value(list: Seq<(u32, WireValue)>, field: u32) -> Option<WireValue>
    decreases list.len(),
{
    if list.len() == 0 {
        None
    } else {
        match first_value(list.drop_last(), field) {
            Some(v) => Some(v),
            None => if list.last().0 == field {
                Some(list.last().1)
            } else {
                None
            },
        }
    }
}

/// Whether every field of a list can be written.
pub open spec fn all_encodable(list: Seq<(u32, WireValue)>) -> bool {
    forall|i: int| 0 <= i < list.len() ==> (#[trigger] list[i]).0 != 0 && encodable(list[i].1)
}

/// Looking up a field in a written message finds its first value; a field that
/// was not written is looked up in what follows.
pub proof fn message_lookup(list: Seq<(u32, WireValue)>, rest: Seq<u8>, field: u32)
    requires
        all_encodable(list),
    ensures
        protobuf::find(message_bytes(list) + rest, field) == match first_value(list, field) {
            Some(v) => Some(v),
            None => protobuf::find(rest, field),
        },
    decreases list.len(),
{
    if list.len() == 0 {
        assert(message_bytes(list) + rest =~= rest);
    } else {
        let front = list.drop_last();
        let (f, v) = list.last();
        let more = field_of(f, v) + rest;
        assert(list[list.len() - 1].0 != 0);
        assert forall|i: int| 0 <= i < front.len() implies (#[trigger] front[i]).0 != 0
            && encodable(front[i].1) by {
            assert(list[i].0 != 0);
        }
        message_lookup(front, more, field);
        assert(message_bytes(list) + rest =~= message_bytes(front) + more);
        find_after_write(f, v, rest, field);
    }
}

} // verus!
