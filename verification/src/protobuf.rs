//! Schema-less protobuf wire decoder.
//!
//! DJI's `djmd` samples are ordinary protobuf messages. Only a handful of
//! fields at known paths are needed, so the wire format is walked directly:
//! every field is a number, a wire type and a raw value, and a nested message
//! is a length-delimited byte slice.

use crate::bytes;
use crate::ieee::{Binary32, Binary64};
use crate::text;
use vstd::arithmetic::div_mod::lemma_mod_multiples_vanish;
use vstd::arithmetic::power::{lemma_pow0, lemma_pow1, lemma_pow_adds, lemma_pow_increases, lemma_pow_positive, pow};
use vstd::prelude::*;
use vstd::slice::slice_subrange;

pub mod encode;
pub mod laws;

verus! {

/// One decoded field value, still in wire representation.
#[derive(Debug, Clone, Copy, PartialEq)]
pub enum Value<'a> {
    /// Wire type 0.
    Varint(u64),
    /// Wire type 1 (little-endian).
    Fixed64([u8; 8]),
    /// Wire type 2: nested message, string, bytes or packed repeated field.
    Bytes(&'a [u8]),
    /// Wire type 5 (little-endian).
    Fixed32([u8; 4]),
}

/// A field value as a mathematical object.
pub enum WireValue {
    Varint(u64),
    Fixed64(Seq<u8>),
    Bytes(Seq<u8>),
    Fixed32(Seq<u8>),
}

impl<'a> View for Value<'a> {
    type V = WireValue;

    open spec fn view(&self) -> WireValue {
        match self {
            Value::Varint(v) => WireValue::Varint(*v),
            Value::Fixed64(b) => WireValue::Fixed64(b@),
            Value::Bytes(b) => WireValue::Bytes(b@),
            Value::Fixed32(b) => WireValue::Fixed32(b@),
        }
    }
}

/// Why a message could not be decoded.
#[derive(Debug, Clone, Copy, PartialEq, Eq)]
pub struct DecodeError(pub &'static str);

impl DecodeError {
    /// The full error text.
    pub fn message(&self) -> (r: String)
        ensures
            r@ == "protobuf decode error: "@ + self.0@,
    {
        let mut out = String::from_str("protobuf decode error: ");
        out.append(self.0);
        out
    }
}

/// The number whose base-128 digits, least significant first, are the low
/// seven bits of the bytes of `s`.
pub open spec fn base128(s: Seq<u8>) -> nat
    decreases s.len(),
{
    if s.len() == 0 {
        0
    } else {
        (s[0] % 128) as nat + 128 * base128(s.drop_first())
    }
}

/// The number of bytes of `s` before the first one with a clear top bit.
pub open spec fn continuation_count(s: Seq<u8>) -> nat
    decreases s.len(),
{
    if s.len() == 0 || s[0] < 128 {
        0
    } else {
        1 + continuation_count(s.drop_first())
    }
}

/// The varint that `s` begins with and the number of its bytes; the value is
/// taken modulo 2^64.
pub open spec fn varint(s: Seq<u8>) -> Option<(u64, nat)> {
    let n = continuation_count(s);
    if n < s.len() && n <= 10 {
        Some(((base128(s.take(n as int + 1)) % 0x1_0000_0000_0000_0000) as u64, n + 1))
    } else {
        None
    }
}

/// The error text when `s` does not begin with a varint.
pub open spec fn varint_error(s: Seq<u8>) -> Seq<char> {
    if continuation_count(s) > 10 {
        "varint longer than 10 bytes"@
    } else {
        "truncated varint"@
    }
}

pub proof fn lemma_base128_push(s: Seq<u8>, b: u8)
    ensures
        base128(s.push(b)) == base128(s) + (b % 128) * pow(128, s.len()),
    decreases s.len(),
{
    if s.len() == 0 {
        assert(s.push(b).drop_first() =~= Seq::<u8>::empty());
        assert(base128(s.push(b).drop_first()) == 0);
        lemma_pow0(128);
    } else {
        lemma_base128_push(s.drop_first(), b);
        assert(s.push(b).drop_first() =~= s.drop_first().push(b));
        let p = pow(128, (s.len() - 1) as nat);
        lemma_pow_adds(128, 1, (s.len() - 1) as nat);
        lemma_pow1(128);
        assert(pow(128, s.len()) == 128 * p);
        assert(128 * (base128(s.drop_first()) + (b % 128) * p) == 128 * base128(s.drop_first()) + (b
            % 128) * (128 * p)) by (nonlinear_arith);
    }
}

/// While every byte of a prefix continues, the search for the end goes on
/// behind it.
pub proof fn lemma_continuation_count(s: Seq<u8>, i: nat)
    requires
        i <= s.len(),
        forall|j: int| 0 <= j < i ==> s[j] >= 128,
    ensures
        continuation_count(s) == i + continuation_count(s.skip(i as int)),
    decreases i,
{
    if i == 0 {
        assert(s.skip(0) =~= s);
    } else {
        lemma_continuation_count(s.drop_first(), (i - 1) as nat);
        assert(s.drop_first().skip(i - 1) =~= s.skip(i as int));
    }
}

proof fn lemma_pow128(i: nat)
    requires
        i <= 9,
    ensures
        0 < pow(128, i) <= 0x8000_0000_0000_0000,
        pow(128, i + 1) == 128 * pow(128, i),
        i <= 8 ==> pow(128, i) <= 0x100_0000_0000_0000,
{
    lemma_pow_adds(128, 1, i);
    lemma_pow1(128);
    lemma_pow_positive(128, i);
    assert(pow(128, 8) == 0x100_0000_0000_0000 && pow(128, 9) == 0x8000_0000_0000_0000) by {
        reveal(pow);
        reveal_with_fuel(pow, 10);
    }
    lemma_pow_increases(128, i, 9);
    if i <= 8 {
        lemma_pow_increases(128, i, 8);
    }
}

/// Reads one base-128 varint starting at `pos`.
pub fn read_varint(data: &[u8], pos: usize) -> (r: Result<(u64, usize), DecodeError>)
    ensures
        ({
            let rest = if pos <= data@.len() { data@.skip(pos as int) } else { Seq::empty() };
            match r {
                Ok((v, next)) => varint(rest) == Some((v, (next - pos) as nat)) && pos < next
                    <= data@.len(),
                Err(e) => varint(rest) is None && e.0@ == varint_error(rest),
            }
        }),
{
    let mut at: usize = pos;
    let mut result: u64 = 0;
    let mut scale: u64 = 1;
    let ghost rest = if pos <= data@.len() { data@.skip(pos as int) } else { Seq::<u8>::empty() };
    let ghost mut i: nat = 0;
    proof {
        lemma_pow0(128);
    }
    while at < data.len()
        invariant
            rest == (if pos <= data@.len() { data@.skip(pos as int) } else { Seq::<u8>::empty() }),
            at == pos + i,
            i <= 10,
            pos <= data@.len() ==> at <= data@.len(),
            i <= 9 ==> scale == pow(128, i),
            i <= 9 ==> result == base128(rest.take(i as int)),
            i <= 9 ==> result < scale,
            i == 10 ==> result == base128(rest.take(i as int)) % 0x1_0000_0000_0000_0000,
            i <= rest.len(),
            forall|j: int| 0 <= j < i ==> rest[j] >= 128,
        decreases data.len() - at,
    {
        let byte: u8 = data[at];
        let digit: u64 = (byte % 128) as u64;
        proof {
            assert(byte == rest[i as int]);
            assert(rest.take(i as int + 1) =~= rest.take(i as int).push(byte));
            lemma_base128_push(rest.take(i as int), byte);
            lemma_continuation_count(rest, i);
        }
        let ghost before = result as int;
        let ghost full = base128(rest.take(i as int + 1)) as int;
        let ghost p = pow(128, i);
        if at - pos < 9 {
            proof {
                lemma_pow128(i);
                assert(digit * scale <= 127 * scale) by (nonlinear_arith)
                    requires
                        digit <= 127,
                ;
                assert(127 * scale + scale == 128 * scale);
            }
            result = result + digit * scale;
            scale = scale * 128;
        } else if at - pos == 9 {
            proof {
                lemma_pow128(9);
                assert(pow(128, 9) == 0x8000_0000_0000_0000) by {
                    reveal(pow);
                    reveal_with_fuel(pow, 10);
                }
                assert(digit * 0x8000_0000_0000_0000 == (digit / 2) * 0x1_0000_0000_0000_0000
                    + (digit % 2) * 0x8000_0000_0000_0000);
            }
            result = result + (digit % 2) * 0x8000_0000_0000_0000;
            proof {
                assert(full == result + (digit / 2) * 0x1_0000_0000_0000_0000);
                assert(full % 0x1_0000_0000_0000_0000 == result);
            }
        } else {
            proof {
                assert(pow(128, 10) == 64 * 0x1_0000_0000_0000_0000) by {
                    reveal(pow);
                    reveal_with_fuel(pow, 11);
                }
                let low = base128(rest.take(10)) as int;
                assert(full == low + digit * (64 * 0x1_0000_0000_0000_0000));
                assert(full == 0x1_0000_0000_0000_0000 * (64 * digit) + low) by (nonlinear_arith)
                    requires
                        full == low + digit * (64 * 0x1_0000_0000_0000_0000),
                ;
                lemma_mod_multiples_vanish(64 * digit, low, 0x1_0000_0000_0000_0000);
            }
        }
        at = at + 1;
        if byte < 128 {
            proof {
                assert(rest.skip(i as int)[0] == byte);
                if i < 9 {
                    assert(full == result);
                }
            }
            return Ok((result, at));
        }
        proof {
            i = i + 1;
            lemma_continuation_count(rest, i);
        }
        if at - pos > 10 {
            return Err(DecodeError("varint longer than 10 bytes"));
        }
    }
    proof {
        lemma_continuation_count(rest, i);
        assert(rest.skip(i as int).len() == 0);
    }
    Err(DecodeError("truncated varint"))
}

/// The field that `s` begins with: its number, its value and the number of
/// bytes it takes up. `None` when `s` does not begin with a whole field.
pub open spec fn head(s: Seq<u8>) -> Option<(u32, WireValue, nat)> {
    match varint(s) {
        None => None,
        Some((key, n)) => {
            let field = field_number(key);
            let rest = s.skip(n as int);
            if field == 0 {
                None
            } else if key % 8 == 0 {
                match varint(rest) {
                    Some((v, m)) => Some((field, WireValue::Varint(v), n + m)),
                    None => None,
                }
            } else if key % 8 == 1 {
                if rest.len() >= 8 {
                    Some((field, WireValue::Fixed64(rest.take(8)), n + 8))
                } else {
                    None
                }
            } else if key % 8 == 2 {
                match varint(rest) {
                    Some((len, m)) if m + len <= rest.len() => Some(
                        (
                            field,
                            WireValue::Bytes(rest.subrange(m as int, m + len)),
                            (n + m + len) as nat,
                        ),
                    ),
                    _ => None,
                }
            } else if key % 8 == 5 {
                if rest.len() >= 4 {
                    Some((field, WireValue::Fixed32(rest.take(4)), n + 4))
                } else {
                    None
                }
            } else {
                None
            }
        },
    }
}

/// The field number in a key: the key without its low three bits, in 32 bits.
pub open spec fn field_number(key: u64) -> u32 {
    (key / 8 % 0x1_0000_0000) as u32
}

/// The error text when the field that starts at `pos` of the message, with `s`
/// the bytes from there on, cannot be read.
pub open spec fn head_error(s: Seq<u8>, pos: nat) -> Seq<char> {
    match varint(s) {
        None => varint_error(s),
        Some((key, n)) => {
            let rest = s.skip(n as int);
            if field_number(key) == 0 {
                "field number 0"@
            } else if key % 8 == 0 {
                varint_error(rest)
            } else if key % 8 == 1 {
                "truncated fixed64"@
            } else if key % 8 == 2 {
                match varint(rest) {
                    None => varint_error(rest),
                    Some((len, m)) => if pos + n + m + len > usize::MAX {
                        "length overflow"@
                    } else {
                        "truncated length-delimited field"@
                    },
                }
            } else if key % 8 == 5 {
                "truncated fixed32"@
            } else {
                "unsupported wire type (group)"@
            }
        },
    }
}

/// A varint takes at least one byte and lies within `s`.
pub proof fn lemma_varint_extent(s: Seq<u8>)
    ensures
        varint(s) matches Some((v, n)) ==> 0 < n <= s.len(),
{
}

/// A field takes at least one byte and lies within `s`.
pub proof fn lemma_head_extent(s: Seq<u8>)
    ensures
        head(s) matches Some((f, v, n)) ==> 0 < n <= s.len() && f != 0,
{
    lemma_varint_extent(s);
    if let Some((key, n)) = varint(s) {
        lemma_varint_extent(s.skip(n as int));
    }
}

/// The first value of the field `field` in the message `s`, if every field up
/// to it can be read.
pub open spec fn find(s: Seq<u8>, field: u32) -> Option<WireValue>
    decreases s.len(),
{
    if s.len() == 0 {
        None
    } else {
        match head(s) {
            None => None,
            Some((f, v, n)) => {
                proof {
                    lemma_head_extent(s);
                }
                if f == field {
                    Some(v)
                } else {
                    find(s.skip(n as int), field)
                }
            },
        }
    }
}

/// The fields of the message `s` in order, if all of it can be read.
pub open spec fn all_fields(s: Seq<u8>) -> Option<Seq<(u32, WireValue)>>
    decreases s.len(),
{
    if s.len() == 0 {
        Some(Seq::empty())
    } else {
        match head(s) {
            None => None,
            Some((f, v, n)) => {
                proof {
                    lemma_head_extent(s);
                }
                match all_fields(s.skip(n as int)) {
                    None => None,
                    Some(rest) => Some(seq![(f, v)] + rest),
                }
            },
        }
    }
}

/// The fields of the message `s` in order, up to the first that cannot be read.
pub open spec fn fields_read(s: Seq<u8>) -> Seq<(u32, WireValue)>
    decreases s.len(),
{
    if s.len() == 0 {
        Seq::empty()
    } else {
        match head(s) {
            None => Seq::empty(),
            Some((f, v, n)) => {
                proof {
                    lemma_head_extent(s);
                }
                seq![(f, v)] + fields_read(s.skip(n as int))
            },
        }
    }
}

/// What is left of the message `s` behind the fields that can be read.
pub open spec fn fields_left(s: Seq<u8>) -> Seq<u8>
    decreases s.len(),
{
    if s.len() == 0 {
        s
    } else {
        match head(s) {
            None => s,
            Some((f, v, n)) => {
                proof {
                    lemma_head_extent(s);
                }
                fields_left(s.skip(n as int))
            },
        }
    }
}

proof fn lemma_varint_extends(s: Seq<u8>, t: Seq<u8>)
    requires
        varint(s) is Some,
    ensures
        varint(s + t) == varint(s),
{
    let n = continuation_count(s);
    lemma_count_extends(s, t);
    assert((s + t).take(n as int + 1) =~= s.take(n as int + 1));
}

proof fn lemma_count_extends(s: Seq<u8>, t: Seq<u8>)
    requires
        continuation_count(s) < s.len(),
    ensures
        continuation_count(s + t) == continuation_count(s),
    decreases s.len(),
{
    if s[0] >= 128 {
        assert((s + t).drop_first() =~= s.drop_first() + t);
        lemma_count_extends(s.drop_first(), t);
    }
}

proof fn lemma_head_extends(s: Seq<u8>, t: Seq<u8>)
    requires
        head(s) is Some,
    ensures
        head(s + t) == head(s),
{
    lemma_varint_extends(s, t);
    lemma_varint_extent(s);
    if let Some((key, n)) = varint(s) {
        let rest = s.skip(n as int);
        assert((s + t).skip(n as int) =~= rest + t);
        if key % 8 == 0 || key % 8 == 2 {
            lemma_varint_extends(rest, t);
            if let Some((len, m)) = varint(rest) {
                if m + len <= rest.len() {
                    assert((rest + t).subrange(m as int, m + len) =~= rest.subrange(
                        m as int,
                        m + len,
                    ));
                }
            }
        } else if key % 8 == 1 {
            assert((rest + t).take(8) =~= rest.take(8));
        } else if key % 8 == 5 {
            assert((rest + t).take(4) =~= rest.take(4));
        }
    }
}

/// The fields of two messages one behind the other are those of the first, all
/// of which can be read, and then those of the second; reading stops where it
/// stops in the second.
pub proof fn messages_join(a: Seq<u8>, b: Seq<u8>)
    requires
        all_fields(a) is Some,
    ensures
        fields_read(a + b) == fields_read(a) + fields_read(b),
        fields_left(a + b) == fields_left(b),
        all_fields(a) == Some(fields_read(a)),
        all_fields(a + b) == match all_fields(b) {
            Some(more) => Some(fields_read(a) + more),
            None => None,
        },
    decreases a.len(),
{
    if a.len() == 0 {
        assert(a + b =~= b);
        assert(fields_read(a) + fields_read(b) =~= fields_read(b));
        if let Some(more) = all_fields(b) {
            assert(fields_read(a) + more =~= more);
        }
    } else {
        lemma_head_extent(a);
        lemma_head_extends(a, b);
        if let Some((f, v, n)) = head(a) {
            let rest = a.skip(n as int);
            assert((a + b).skip(n as int) =~= rest + b);
            messages_join(rest, b);
            let one = seq![(f, v)];
            assert(one + (fields_read(rest) + fields_read(b)) =~= one + fields_read(rest)
                + fields_read(b));
            if let Some(more) = all_fields(b) {
                assert(one + (fields_read(rest) + more) =~= one + fields_read(rest) + more);
            }
        }
    }
}

/// Reading stops behind the last field exactly when all of a message can be
/// read, and before a field that cannot be read otherwise.
pub proof fn reading_stops(s: Seq<u8>)
    ensures
        all_fields(s) is Some <==> fields_left(s).len() == 0,
        fields_left(s).len() > 0 ==> head(fields_left(s)) is None,
    decreases s.len(),
{
    if s.len() > 0 {
        lemma_head_extent(s);
        if let Some((f, v, n)) = head(s) {
            reading_stops(s.skip(n as int));
        }
    }
}

/// Walks the top-level fields of one message.
pub struct Fields<'a> {
    data: &'a [u8],
    pos: usize,
    failed: bool,
}

impl<'a> Fields<'a> {
    /// The bytes that have not been read yet.
    pub closed spec fn rest(&self) -> Seq<u8> {
        self.data@.skip(self.pos as int)
    }

    /// How many bytes have been read.
    pub closed spec fn position(&self) -> nat {
        self.pos as nat
    }

    /// Whether an error has been reported.
    pub closed spec fn is_failed(&self) -> bool {
        self.failed
    }

    /// The position lies within the message.
    pub closed spec fn wf(&self) -> bool {
        self.pos <= self.data@.len()
    }

    /// Starts at the first field of `data`.
    pub fn new(data: &'a [u8]) -> (r: Self)
        ensures
            r.wf(),
            r.rest() == data@,
            r.position() == 0,
            !r.is_failed(),
    {
        assert(data@.skip(0) =~= data@);
        Fields { data, pos: 0, failed: false }
    }

    /// Reads the next field and moves behind it; stays where it is on an error.
    #[verifier::spinoff_prover]
    #[verifier::rlimit(60)]
    pub fn next_field(&mut self) -> (r: Result<Option<(u32, Value<'a>)>, DecodeError>)
        requires
            old(self).wf(),
        ensures
            final(self).wf(),
            final(self).is_failed() == old(self).is_failed(),
            old(self).rest().len() == 0 ==> r == Ok::<Option<(u32, Value<'a>)>, DecodeError>(None)
                && *final(self) == *old(self),
            old(self).rest().len() > 0 ==> match r {
                Ok(Some((f, v))) => head(old(self).rest()) matches Some((g, w, n)) && g == f && w
                    == v@ && final(self).rest() == old(self).rest().skip(n as int)
                    && final(self).position() == old(self).position() + n,
                Ok(None) => false,
                Err(e) => head(old(self).rest()) is None && e.0@ == head_error(
                    old(self).rest(),
                    old(self).position(),
                ) && *final(self) == *old(self),
            },
    {
        let ghost s = self.rest();
        let len: usize = self.data.len();
        if self.pos >= len {
            return Ok(None);
        }
        let (key, pos): (u64, usize) = match read_varint(self.data, self.pos) {
            Ok(x) => x,
            Err(e) => {
                return Err(e);
            },
        };
        let ghost n = (pos - self.pos) as nat;
        let ghost rest = s.skip(n as int);
        assert(self.data@.skip(pos as int) =~= rest);
        let field: u32 = (key / 8 % 0x1_0000_0000) as u32;
        let wire: u64 = key % 8;
        if field == 0 {
            return Err(DecodeError("field number 0"));
        }
        let data: &'a [u8] = self.data;
        let (value, next): (Value<'a>, usize) = if wire == 0 {
            match read_varint(data, pos) {
                Ok((v, p)) => (Value::Varint(v), p),
                Err(e) => {
                    return Err(e);
                },
            }
        } else if wire == 1 {
            if len - pos < 8 {
                return Err(DecodeError("truncated fixed64"));
            }
            let b: [u8; 8] = [
                data[pos],
                data[pos + 1],
                data[pos + 2],
                data[pos + 3],
                data[pos + 4],
                data[pos + 5],
                data[pos + 6],
                data[pos + 7],
            ];
            assert(b@ =~= rest.take(8));
            (Value::Fixed64(b), pos + 8)
        } else if wire == 2 {
            let (count, p): (u64, usize) = match read_varint(data, pos) {
                Ok(x) => x,
                Err(e) => {
                    return Err(e);
                },
            };
            if count > (usize::MAX - p) as u64 {
                return Err(DecodeError("length overflow"));
            }
            let count: usize = count as usize;
            if count > len - p {
                return Err(DecodeError("truncated length-delimited field"));
            }
            let b: &'a [u8] = slice_subrange(data, p, p + count);
            assert(b@ =~= rest.subrange(p - pos, p - pos + count));
            (Value::Bytes(b), p + count)
        } else if wire == 5 {
            if len - pos < 4 {
                return Err(DecodeError("truncated fixed32"));
            }
            let b: [u8; 4] = [data[pos], data[pos + 1], data[pos + 2], data[pos + 3]];
            assert(b@ =~= rest.take(4));
            (Value::Fixed32(b), pos + 4)
        } else {
            return Err(DecodeError("unsupported wire type (group)"));
        };
        self.pos = next;
        assert(self.rest() =~= s.skip(next - old(self).pos));
        Ok(Some((field, value)))
    }

    /// The next field or the one error that ends the walk; `None` after that.
    pub fn next(&mut self) -> (r: Option<Result<(u32, Value<'a>), DecodeError>>)
        requires
            old(self).wf(),
        ensures
            final(self).wf(),
            old(self).is_failed() || old(self).rest().len() == 0 ==> r is None && *final(self)
                == *old(self),
            !old(self).is_failed() && old(self).rest().len() > 0 ==> match r {
                Some(Ok((f, v))) => head(old(self).rest()) matches Some((g, w, n)) && g == f && w
                    == v@ && final(self).rest() == old(self).rest().skip(n as int)
                    && final(self).position() == old(self).position() + n
                    && !final(self).is_failed(),
                Some(Err(e)) => head(old(self).rest()) is None && e.0@ == head_error(
                    old(self).rest(),
                    old(self).position(),
                ) && final(self).is_failed() && final(self).rest() == old(self).rest(),
                None => false,
            },
    {
        if self.failed {
            return None;
        }
        match self.next_field() {
            Ok(Some(item)) => Some(Ok(item)),
            Ok(None) => None,
            Err(e) => {
                self.failed = true;
                Some(Err(e))
            },
        }
    }
}

/// Returns true when `data` parses cleanly as a non-empty sequence of fields.
pub fn looks_like_message(data: &[u8]) -> (r: bool)
    ensures
        r == (data@.len() > 0 && all_fields(data@) is Some),
{
    data.len() > 0 && parses(data)
}

/// Whether all of `data` can be read as fields.
fn parses(data: &[u8]) -> (r: bool)
    ensures
        r == (all_fields(data@) is Some),
{
    let mut fields: Fields<'_> = Fields::new(data);
    let ghost mut rest = data@;
    loop
        invariant_except_break
            (all_fields(data@) is Some) == (all_fields(rest) is Some),
        invariant
            fields.wf(),
            !fields.is_failed(),
            fields.rest() == rest,
        ensures
            all_fields(data@) is Some,
        decreases rest.len(),
    {
        proof {
            lemma_head_extent(rest);
        }
        match fields.next() {
            None => {
                break;
            },
            Some(Err(_)) => {
                return false;
            },
            Some(Ok(_)) => {
                proof {
                    rest = fields.rest();
                }
            },
        }
    }
    true
}

/// Returns the first occurrence of `field` in `data`, or `None` if absent or malformed.
pub fn get<'a>(data: &'a [u8], field: u32) -> (r: Option<Value<'a>>)
    ensures
        match r {
            Some(v) => find(data@, field) == Some(v@),
            None => find(data@, field) is None,
        },
{
    let mut fields: Fields<'a> = Fields::new(data);
    let ghost mut rest = data@;
    loop
        invariant_except_break
            find(data@, field) == find(rest, field),
        invariant
            fields.wf(),
            !fields.is_failed(),
            fields.rest() == rest,
        ensures
            find(data@, field) is None,
        decreases rest.len(),
    {
        proof {
            lemma_head_extent(rest);
        }
        match fields.next() {
            None => {
                break;
            },
            Some(Err(_)) => {
                return None;
            },
            Some(Ok((f, v))) => {
                if f == field {
                    return Some(v);
                }
                proof {
                    rest = fields.rest();
                }
            },
        }
    }
    None
}

/// The message at the end of a chain of nested length-delimited fields.
pub open spec fn nested(s: Seq<u8>, path: Seq<u32>) -> Option<Seq<u8>>
    decreases path.len(),
{
    if path.len() == 0 {
        Some(s)
    } else {
        match find(s, path.first()) {
            Some(WireValue::Bytes(b)) => nested(b, path.drop_first()),
            _ => None,
        }
    }
}

/// Walks a chain of nested length-delimited fields.
pub fn sub<'a>(data: &'a [u8], path: &[u32]) -> (r: Option<&'a [u8]>)
    ensures
        match r {
            Some(b) => nested(data@, path@) == Some(b@),
            None => nested(data@, path@) is None,
        },
{
    let mut cur: &'a [u8] = data;
    let mut i: usize = 0;
    assert(path@.skip(0) =~= path@);
    while i < path.len()
        invariant
            i <= path@.len(),
            nested(data@, path@) == nested(cur@, path@.skip(i as int)),
        decreases path@.len() - i,
    {
        assert(path@.skip(i as int).drop_first() =~= path@.skip(i + 1));
        match get(cur, path[i]) {
            Some(Value::Bytes(b)) => {
                cur = b;
            },
            _ => {
                return None;
            },
        }
        i = i + 1;
    }
    Some(cur)
}

/// The length-delimited value of `field`.
pub open spec fn message_at(s: Seq<u8>, field: u32) -> Option<Seq<u8>> {
    match find(s, field) {
        Some(WireValue::Bytes(b)) => Some(b),
        _ => None,
    }
}

/// Reads one length-delimited field.
pub fn child<'a>(data: &'a [u8], field: u32) -> (r: Option<&'a [u8]>)
    ensures
        match r {
            Some(b) => message_at(data@, field) == Some(b@),
            None => message_at(data@, field) is None,
        },
{
    match get(data, field) {
        Some(Value::Bytes(b)) => Some(b),
        _ => None,
    }
}

/// The single-precision value of `field`.
pub open spec fn f32_at(s: Seq<u8>, field: u32) -> Option<Binary32> {
    match find(s, field) {
        Some(WireValue::Fixed32(b)) => Some(Binary32 { bits: bytes::le32(b, 0) as u32 }),
        _ => None,
    }
}

/// Reads a single-precision field.
pub fn get_f32(data: &[u8], field: u32) -> (r: Option<Binary32>)
    ensures
        r == f32_at(data@, field),
{
    match get(data, field) {
        Some(Value::Fixed32(b)) => {
            let s: &[u8] = vstd::array::array_as_slice(&b);
            Some(Binary32 { bits: bytes::le_u32(s, 0) })
        },
        _ => None,
    }
}

/// The double-precision value of `field`.
pub open spec fn f64_at(s: Seq<u8>, field: u32) -> Option<Binary64> {
    match find(s, field) {
        Some(WireValue::Fixed64(b)) => Some(Binary64 { bits: bytes::le64(b, 0) as u64 }),
        _ => None,
    }
}

/// Reads a double-precision field.
pub fn get_f64(data: &[u8], field: u32) -> (r: Option<Binary64>)
    ensures
        r == f64_at(data@, field),
{
    match get(data, field) {
        Some(Value::Fixed64(b)) => {
            let s: &[u8] = vstd::array::array_as_slice(&b);
            Some(Binary64 { bits: bytes::le_u64(s, 0) })
        },
        _ => None,
    }
}

/// The varint value of `field`.
pub open spec fn u64_at(s: Seq<u8>, field: u32) -> Option<u64> {
    match find(s, field) {
        Some(WireValue::Varint(v)) => Some(v),
        _ => None,
    }
}

/// Reads a varint field.
pub fn get_u64(data: &[u8], field: u32) -> (r: Option<u64>)
    ensures
        r == u64_at(data@, field),
{
    match get(data, field) {
        Some(Value::Varint(v)) => Some(v),
        _ => None,
    }
}

/// The integer of which `v` is the two's complement in 64 bits.
pub open spec fn signed(v: u64) -> i64 {
    (if v < 0x8000_0000_0000_0000 {
        v as int
    } else {
        v - 0x1_0000_0000_0000_0000
    }) as i64
}

/// The varint value of `field` in two's complement.
pub open spec fn i64_at(s: Seq<u8>, field: u32) -> Option<i64> {
    match u64_at(s, field) {
        Some(v) => Some(signed(v)),
        None => None,
    }
}

/// Reads a varint as a two's-complement `int32`/`int64` (protobuf sign-extends negatives to 64 bits).
pub fn get_i64(data: &[u8], field: u32) -> (r: Option<i64>)
    ensures
        r == i64_at(data@, field),
{
    match get_u64(data, field) {
        Some(v) => {
            if v < 0x8000_0000_0000_0000 {
                Some(v as i64)
            } else {
                Some(-((u64::MAX - v) as i64) - 1)
            }
        },
        None => None,
    }
}

/// The text value of `field`, without NUL characters at its end.
pub open spec fn string_at(s: Seq<u8>, field: u32) -> Option<Seq<char>> {
    match message_at(s, field) {
        Some(b) if vstd::utf8::valid_utf8(b) => Some(
            text::without_nul_end(vstd::utf8::decode_utf8(b)),
        ),
        _ => None,
    }
}

/// Reads a text field; `None` unless it is well-formed UTF-8.
pub fn get_string(data: &[u8], field: u32) -> (r: Option<String>)
    ensures
        match r {
            Some(t) => string_at(data@, field) == Some(t@),
            None => string_at(data@, field) is None,
        },
{
    match child(data, field) {
        Some(b) => match text::utf8_text(b) {
            Some(t) => Some(text::trim_nul_end(t.as_str())),
            None => None,
        },
        None => None,
    }
}

/// The pair of varints that fills `b`.
pub open spec fn varint_pair(b: Seq<u8>) -> Option<(u64, u64)> {
    match varint(b) {
        Some((num, n)) => match varint(b.skip(n as int)) {
            Some((den, m)) if n + m == b.len() => Some((num, den)),
            _ => None,
        },
        None => None,
    }
}

/// The rational value of `field`.
pub open spec fn rational_at(s: Seq<u8>, field: u32) -> Option<(u64, u64)> {
    match message_at(s, field) {
        Some(b) => varint_pair(b),
        None => None,
    }
}

/// DJI encodes rationals (shutter speed) as a length-delimited pair of varints `num, den`.
pub fn get_rational(data: &[u8], field: u32) -> (r: Option<(u64, u64)>)
    ensures
        r == rational_at(data@, field),
{
    let b: &[u8] = match child(data, field) {
        Some(b) => b,
        None => {
            return None;
        },
    };
    assert(b@.skip(0) =~= b@);
    let (num, p): (u64, usize) = match read_varint(b, 0) {
        Ok(x) => x,
        Err(_) => {
            return None;
        },
    };
    let (den, q): (u64, usize) = match read_varint(b, p) {
        Ok(x) => x,
        Err(_) => {
            return None;
        },
    };
    if q != b.len() {
        return None;
    }
    Some((num, den))
}

/// One line of a rendered field tree.
#[derive(Debug, Clone, Copy)]
pub enum TreeLine<'a> {
    /// Bytes that are no sequence of fields.
    Raw { indent: usize, len: usize },
    Varint { indent: usize, field: u32, value: u64 },
    Single { indent: usize, field: u32, single: Binary32 },
    Double { indent: usize, field: u32, double: Binary64 },
    /// A nested message of `len` bytes, whose own lines follow.
    Message { indent: usize, field: u32, len: usize },
    /// Printable ASCII characters.
    Text { indent: usize, field: u32, bytes: &'a [u8] },
    Bytes { indent: usize, field: u32, bytes: &'a [u8] },
}

/// A line of a field tree as a mathematical object.
pub enum TreeNode {
    Raw { indent: nat, len: nat },
    Varint { indent: nat, field: u32, value: u64 },
    Single { indent: nat, field: u32, single: Binary32 },
    Double { indent: nat, field: u32, double: Binary64 },
    Message { indent: nat, field: u32, len: nat },
    Text { indent: nat, field: u32, bytes: Seq<u8> },
    Bytes { indent: nat, field: u32, bytes: Seq<u8> },
}

impl<'a> View for TreeLine<'a> {
    type V = TreeNode;

    open spec fn view(&self) -> TreeNode {
        match *self {
            TreeLine::Raw { indent, len } => TreeNode::Raw { indent: indent as nat, len: len as nat },
            TreeLine::Varint { indent, field, value } => TreeNode::Varint {
                indent: indent as nat,
                field,
                value,
            },
            TreeLine::Single { indent, field, single } => TreeNode::Single {
                indent: indent as nat,
                field,
                single,
            },
            TreeLine::Double { indent, field, double } => TreeNode::Double {
                indent: indent as nat,
                field,
                double,
            },
            TreeLine::Message { indent, field, len } => TreeNode::Message {
                indent: indent as nat,
                field,
                len: len as nat,
            },
            TreeLine::Text { indent, field, bytes } => TreeNode::Text {
                indent: indent as nat,
                field,
                bytes: bytes@,
            },
            TreeLine::Bytes { indent, field, bytes } => TreeNode::Bytes {
                indent: indent as nat,
                field,
                bytes: bytes@,
            },
        }
    }
}

/// The views of a sequence of lines.
pub open spec fn nodes(lines: Seq<TreeLine<'_>>) -> Seq<TreeNode> {
    lines.map_values(|l: TreeLine<'_>| l@)
}

/// Whether all bytes are printable ASCII characters.
pub open spec fn printable(s: Seq<u8>) -> bool {
    s.len() > 0 && forall|i: int| 0 <= i < s.len() ==> 0x20 <= #[trigger] s[i] < 0x7f
}

/// The lines of one field. A length-delimited field is shown as a message when
/// it can be one and `max_depth` is not reached, as text when it is printable,
/// and as bytes otherwise.
pub open spec fn field_tree(field: u32, value: WireValue, indent: nat, max_depth: nat) -> Seq<
    TreeNode,
>
    decreases max_depth - indent, 0int, 0int,
{
    match value {
        WireValue::Varint(value) => seq![TreeNode::Varint { indent, field, value }],
        WireValue::Fixed32(b) => seq![
            TreeNode::Single {
                indent,
                field,
                single: Binary32 { bits: bytes::le32(b, 0) as u32 },
            },
        ],
        WireValue::Fixed64(b) => seq![
            TreeNode::Double {
                indent,
                field,
                double: Binary64 { bits: bytes::le64(b, 0) as u64 },
            },
        ],
        WireValue::Bytes(b) => match all_fields(b) {
            Some(inner) if indent < max_depth && b.len() > 1 => seq![
                TreeNode::Message { indent, field, len: b.len() },
            ] + fields_tree(inner, indent + 1, max_depth),
            _ => if printable(b) {
                seq![TreeNode::Text { indent, field, bytes: b }]
            } else {
                seq![TreeNode::Bytes { indent, field, bytes: b }]
            },
        },
    }
}

/// The lines of a message with the given fields.
pub open spec fn fields_tree(fields: Seq<(u32, WireValue)>, indent: nat, max_depth: nat) -> Seq<
    TreeNode,
>
    decreases max_depth - indent, 1int, fields.len(),
{
    if fields.len() == 0 {
        Seq::empty()
    } else {
        fields_tree(fields.drop_last(), indent, max_depth) + field_tree(
            fields.last().0,
            fields.last().1,
            indent,
            max_depth,
        )
    }
}

/// The lines of the message `s`; one line when `s` is no sequence of fields.
pub open spec fn tree(s: Seq<u8>, indent: nat, max_depth: nat) -> Seq<TreeNode> {
    match all_fields(s) {
        None => seq![TreeNode::Raw { indent, len: s.len() }],
        Some(fields) => fields_tree(fields, indent, max_depth),
    }
}

fn is_printable(s: &[u8]) -> (r: bool)
    ensures
        r == printable(s@),
{
    if s.len() == 0 {
        return false;
    }
    let mut i: usize = 0;
    while i < s.len()
        invariant
            i <= s@.len(),
            forall|j: int| 0 <= j < i ==> 0x20 <= #[trigger] s@[j] < 0x7f,
        decreases s@.len() - i,
    {
        if s[i] < 0x20 || s[i] >= 0x7f {
            assert(!(0x20 <= s@[i as int] < 0x7f));
            return false;
        }
        i = i + 1;
    }
    true
}

/// Appends one line.
fn push_line<'a>(line: TreeLine<'a>, out: &mut Vec<TreeLine<'a>>)
    ensures
        nodes(final(out)@) == nodes(old(out)@) + seq![line@],
{
    out.push(line);
    assert(nodes(out@) =~= nodes(old(out)@) + seq![line@]);
}

/// Appends the lines of one field.
fn dump_field<'a>(
    field: u32,
    value: Value<'a>,
    indent: usize,
    max_depth: usize,
    out: &mut Vec<TreeLine<'a>>,
)
    ensures
        nodes(final(out)@) == nodes(old(out)@) + field_tree(
            field,
            value@,
            indent as nat,
            max_depth as nat,
        ),
    decreases max_depth - indent, 0int,
{
    match value {
        Value::Varint(value) => {
            push_line(TreeLine::Varint { indent, field, value }, out);
        },
        Value::Fixed32(b) => {
            let s: &[u8] = vstd::array::array_as_slice(&b);
            let single: Binary32 = Binary32 { bits: bytes::le_u32(s, 0) };
            push_line(TreeLine::Single { indent, field, single }, out);
        },
        Value::Fixed64(b) => {
            let s: &[u8] = vstd::array::array_as_slice(&b);
            let double: Binary64 = Binary64 { bits: bytes::le_u64(s, 0) };
            push_line(TreeLine::Double { indent, field, double }, out);
        },
        Value::Bytes(b) => {
            if indent < max_depth && b.len() > 1 && looks_like_message(b) {
                push_line(TreeLine::Message { indent, field, len: b.len() }, out);
                dump_tree(b, indent + 1, max_depth, out);
                assert(nodes(out@) =~= nodes(old(out)@) + field_tree(
                    field,
                    value@,
                    indent as nat,
                    max_depth as nat,
                ));
            } else if is_printable(b) {
                push_line(TreeLine::Text { indent, field, bytes: b }, out);
            } else {
                push_line(TreeLine::Bytes { indent, field, bytes: b }, out);
            }
        },
    }
}

/// Appends the field tree of a message (used by `--inspect`).
pub fn dump_tree<'a>(data: &'a [u8], indent: usize, max_depth: usize, out: &mut Vec<TreeLine<'a>>)
    ensures
        nodes(final(out)@) == nodes(old(out)@) + tree(data@, indent as nat, max_depth as nat),
    decreases max_depth - indent, 1int,
{
    let ghost start = nodes(out@);
    if !parses(data) {
        push_line(TreeLine::Raw { indent, len: data.len() }, out);
        return;
    }
    let ghost all = all_fields(data@)->Some_0;
    let ghost mut done: Seq<(u32, WireValue)> = Seq::empty();
    let ghost mut rest = data@;
    let mut fields: Fields<'a> = Fields::new(data);
    proof {
        assert(done + all_fields(rest)->Some_0 =~= all);
        assert(nodes(out@) =~= start + fields_tree(done, indent as nat, max_depth as nat));
    }
    loop
        invariant_except_break
            all_fields(rest) is Some,
            all == done + all_fields(rest)->Some_0,
        invariant
            fields.wf(),
            !fields.is_failed(),
            fields.rest() == rest,
            nodes(out@) == start + fields_tree(done, indent as nat, max_depth as nat),
        ensures
            all == done,
        decreases rest.len(),
    {
        proof {
            lemma_head_extent(rest);
        }
        let (field, value): (u32, Value<'a>) = match fields.next() {
            Some(Ok(item)) => item,
            _ => {
                assert(rest.len() == 0);
                assert(done + all_fields(rest)->Some_0 =~= done);
                break;
            },
        };
        let ghost before = nodes(out@);
        dump_field(field, value, indent, max_depth, out);
        proof {
            let more = done.push((field, value@));
            assert(more.drop_last() =~= done);
            assert(done + all_fields(rest)->Some_0 =~= more + all_fields(fields.rest())->Some_0);
            assert(nodes(out@) =~= start + fields_tree(more, indent as nat, max_depth as nat));
            done = more;
            rest = fields.rest();
        }
    }
}

/// Two spaces for each level.
pub open spec fn pad(indent: nat) -> Seq<char>
    decreases indent,
{
    if indent == 0 {
        Seq::empty()
    } else {
        pad((indent - 1) as nat) + "  "@
    }
}

/// A lower-case hexadecimal digit.
pub open spec fn hex_digit(d: int) -> char {
    (if d < 10 {
        48 + d
    } else {
        87 + d
    }) as char
}

/// Two lower-case hexadecimal digits for each byte.
pub open spec fn hex(s: Seq<u8>) -> Seq<char>
    decreases s.len(),
{
    if s.len() == 0 {
        Seq::empty()
    } else {
        hex(s.drop_last()).push(hex_digit(s.last() as int / 16)).push(
            hex_digit(s.last() as int % 16),
        )
    }
}

/// Printable characters with a backslash before each quote and backslash.
pub open spec fn quoted(s: Seq<u8>) -> Seq<char>
    decreases s.len(),
{
    if s.len() == 0 {
        Seq::empty()
    } else {
        let c = s.last() as char;
        let before = quoted(s.drop_last());
        if c == '"' || c == '\\' {
            before.push('\\').push(c)
        } else {
            before.push(c)
        }
    }
}

/// The first 24 bytes of `s`.
pub open spec fn leading(s: Seq<u8>) -> Seq<u8> {
    if s.len() <= 24 {
        s
    } else {
        s.take(24)
    }
}

/// A line of the tree in text; `number` is the decimal text of the value of a
/// single- or double-precision field.
pub open spec fn node_text(node: TreeNode, number: Seq<char>) -> Seq<char> {
    match node {
        TreeNode::Raw { indent, len } => pad(indent) + "<"@ + text::decimal(len) + " raw bytes>\n"@,
        TreeNode::Varint { indent, field, value } => pad(indent) + "f"@ + text::decimal(
            field as nat,
        ) + " varint = "@ + text::decimal(value as nat) + "\n"@,
        TreeNode::Single { indent, field, single } => pad(indent) + "f"@ + text::decimal(
            field as nat,
        ) + " f32 = "@ + number + "\n"@,
        TreeNode::Double { indent, field, double } => pad(indent) + "f"@ + text::decimal(
            field as nat,
        ) + " f64 = "@ + number + "\n"@,
        TreeNode::Message { indent, field, len } => pad(indent) + "f"@ + text::decimal(
            field as nat,
        ) + " msg ("@ + text::decimal(len) + " B)\n"@,
        TreeNode::Text { indent, field, bytes } => pad(indent) + "f"@ + text::decimal(field as nat)
            + " str ("@ + text::decimal(bytes.len()) + " B) = \""@ + quoted(bytes) + "\"\n"@,
        TreeNode::Bytes { indent, field, bytes } => pad(indent) + "f"@ + text::decimal(field as nat)
            + " bytes ("@ + text::decimal(bytes.len()) + " B) = "@ + hex(leading(bytes)) + "\n"@,
    }
}

fn pad_text(indent: usize) -> (r: String)
    ensures
        r@ == pad(indent as nat),
{
    let mut out: String = String::new();
    let mut i: usize = 0;
    while i < indent
        invariant
            i <= indent,
            out@ == pad(i as nat),
        decreases indent - i,
    {
        out.append("  ");
        i = i + 1;
    }
    out
}

fn hex_char(d: u8) -> (r: char)
    requires
        d < 16,
    ensures
        r == hex_digit(d as int),
{
    if d < 10 {
        (48 + d) as char
    } else {
        (87 + d) as char
    }
}

fn hex_text(s: &[u8]) -> (r: String)
    ensures
        r@ == hex(s@),
{
    let mut out: String = String::new();
    let mut i: usize = 0;
    while i < s.len()
        invariant
            i <= s@.len(),
            out@ == hex(s@.take(i as int)),
        decreases s@.len() - i,
    {
        assert(s@.take(i + 1).drop_last() =~= s@.take(i as int));
        out.push(hex_char(s[i] / 16));
        out.push(hex_char(s[i] % 16));
        i = i + 1;
    }
    assert(s@.take(i as int) =~= s@);
    out
}

fn quoted_text(s: &[u8]) -> (r: String)
    ensures
        r@ == quoted(s@),
{
    let mut out: String = String::new();
    let mut i: usize = 0;
    while i < s.len()
        invariant
            i <= s@.len(),
            out@ == quoted(s@.take(i as int)),
        decreases s@.len() - i,
    {
        assert(s@.take(i + 1).drop_last() =~= s@.take(i as int));
        let c: char = s[i] as char;
        if c == '"' || c == '\\' {
            out.push('\\');
        }
        out.push(c);
        i = i + 1;
    }
    assert(s@.take(i as int) =~= s@);
    out
}

/// Renders one line of the tree. `number` is the decimal text of the value
/// where the line is a single- or double-precision field, and unused otherwise.
pub fn line_text(line: &TreeLine<'_>, number: &str) -> (r: String)
    ensures
        r@ == node_text(line@, number@),
{
    match *line {
        TreeLine::Raw { indent, len } => {
            let mut out: String = pad_text(indent);
            out.append("<");
            out.append(text::decimal_text(len as u64).as_str());
            out.append(" raw bytes>\n");
            out
        },
        TreeLine::Varint { indent, field, value } => {
            let mut out: String = pad_text(indent);
            out.append("f");
            out.append(text::decimal_text(field as u64).as_str());
            out.append(" varint = ");
            out.append(text::decimal_text(value).as_str());
            out.append("\n");
            out
        },
        TreeLine::Single { indent, field, single: _ } => {
            let mut out: String = pad_text(indent);
            out.append("f");
            out.append(text::decimal_text(field as u64).as_str());
            out.append(" f32 = ");
            out.append(number);
            out.append("\n");
            out
        },
        TreeLine::Double { indent, field, double: _ } => {
            let mut out: String = pad_text(indent);
            out.append("f");
            out.append(text::decimal_text(field as u64).as_str());
            out.append(" f64 = ");
            out.append(number);
            out.append("\n");
            out
        },
        TreeLine::Message { indent, field, len } => {
            let mut out: String = pad_text(indent);
            out.append("f");
            out.append(text::decimal_text(field as u64).as_str());
            out.append(" msg (");
            out.append(text::decimal_text(len as u64).as_str());
            out.append(" B)\n");
            out
        },
        TreeLine::Text { indent, field, bytes } => {
            let mut out: String = pad_text(indent);
            out.append("f");
            out.append(text::decimal_text(field as u64).as_str());
            out.append(" str (");
            out.append(text::decimal_text(bytes.len() as u64).as_str());
            out.append(" B) = \"");
            out.append(quoted_text(bytes).as_str());
            out.append("\"\n");
            out
        },
        TreeLine::Bytes { indent, field, bytes } => {
            let mut out: String = pad_text(indent);
            out.append("f");
            out.append(text::decimal_text(field as u64).as_str());
            out.append(" bytes (");
            out.append(text::decimal_text(bytes.len() as u64).as_str());
            out.append(" B) = ");
            let head: &[u8] = if bytes.len() <= 24 {
                bytes
            } else {
                slice_subrange(bytes, 0, 24)
            };
            assert(head@ =~= leading(bytes@));
            out.append(hex_text(head).as_str());
            out.append("\n");
            out
        },
    }
}

} // verus!
