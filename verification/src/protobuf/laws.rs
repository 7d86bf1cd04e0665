//! What the bytes of messages stand for, and what is shown of them.

use super::{TreeNode, WireValue};
use crate::bytes;
use crate::cli::summary;
use crate::ieee::{Binary32, Binary64};
use crate::protobuf;
use crate::protobuf::encode;
use crate::text;
use vstd::arithmetic::div_mod::{lemma_add_mod_noop, lemma_mul_mod_noop_right};
use vstd::prelude::*;

verus! {

/// A byte below 128 is a number by itself. A larger one adds its low seven bits to 128
/// times the number behind it.
pub proof fn numbers_have_seven_bits_a_byte(b: u8, s: Seq<u8>)
    ensures
        b < 128 ==> protobuf::varint(seq![b] + s) == Some((b as u64, 1nat)),
        b >= 128 ==> (protobuf::varint(s) matches Some((v, n)) ==> n <= 10 ==> protobuf::varint(
            seq![b] + s,
        ) == Some((((b - 128 + 128 * v) % 0x1_0000_0000_0000_0000) as u64, n + 1))),
{
    let all = seq![b] + s;
    let m = 0x1_0000_0000_0000_0000int;
    assert(all.drop_first() =~= s);
    if b < 128 {
        assert(all.take(1) =~= seq![b]);
        assert(seq![b].drop_first() =~= Seq::empty());
        assert(protobuf::base128(Seq::empty()) == 0);
        assert(protobuf::base128(seq![b]) == b);
    } else if let Some((v, n)) = protobuf::varint(s) {
        if n <= 10 {
            let c = protobuf::continuation_count(s);
            assert(protobuf::continuation_count(all) == 1 + c);
            let t = s.take(n as int);
            let big = protobuf::base128(t) as int;
            assert(all.take(n + 1int) =~= seq![b] + t);
            assert((seq![b] + t).drop_first() =~= t);
            assert(protobuf::base128(all.take(n + 1int)) == b % 128 + 128 * big);
            let low = (b - 128) as int;
            assert(b % 128 == low);
            lemma_mul_mod_noop_right(128, big, m);
            lemma_add_mod_noop(low, 128 * big, m);
            lemma_add_mod_noop(low, 128 * (big % m), m);
            assert((low + 128 * big) % m == (low + 128 * (big % m)) % m);
        }
    }
}

/// A field is its number times eight and the kind of its value: 0 a number, 1 eight
/// bytes, 2 a length and as many bytes, 5 four bytes.
pub proof fn keys_tell_number_and_kind(field: u8, s: Seq<u8>, n: u8, rest: Seq<u8>)
    requires
        0 < field < 16,
        n < 128,
    ensures
        protobuf::head(seq![(field * 8) as u8] + (seq![n] + rest)) == Some(
            (field as u32, WireValue::Varint(n as u64), 2nat),
        ),
        s.len() == 8 ==> protobuf::head(seq![(field * 8 + 1) as u8] + (s + rest)) == Some(
            (field as u32, WireValue::Fixed64(s), 9nat),
        ),
        s.len() == n ==> protobuf::head(seq![(field * 8 + 2) as u8] + (seq![n] + (s + rest)))
            == Some((field as u32, WireValue::Bytes(s), (2 + n) as nat)),
        s.len() == 4 ==> protobuf::head(seq![(field * 8 + 5) as u8] + (s + rest)) == Some(
            (field as u32, WireValue::Fixed32(s), 5nat),
        ),
{
    let k0 = (field * 8) as u8;
    let a = seq![n] + rest;
    numbers_have_seven_bits_a_byte(k0, a);
    numbers_have_seven_bits_a_byte(n, rest);
    assert((seq![k0] + a).skip(1) =~= a);
    let k1 = (field * 8 + 1) as u8;
    let b = s + rest;
    numbers_have_seven_bits_a_byte(k1, b);
    assert((seq![k1] + b).skip(1) =~= b);
    let k2 = (field * 8 + 2) as u8;
    let c = seq![n] + b;
    numbers_have_seven_bits_a_byte(k2, c);
    numbers_have_seven_bits_a_byte(n, b);
    assert((seq![k2] + c).skip(1) =~= c);
    let k5 = (field * 8 + 5) as u8;
    numbers_have_seven_bits_a_byte(k5, b);
    assert((seq![k5] + b).skip(1) =~= b);
    if s.len() == 8 {
        assert(b.take(8) =~= s);
    }
    if s.len() == 4 {
        assert(b.take(4) =~= s);
    }
    if s.len() == n {
        assert(c.subrange(1, 1 + n as int) =~= s);
    }
}

/// A value is read as what it was written as, and as nothing else.
pub proof fn values_are_read_by_kind(s: Seq<u8>, f: u32, a: Binary32, b: Binary64, v: i64)
    ensures
        protobuf::find(s, f) == Some(WireValue::Fixed32(bytes::le32_bytes(a.bits))) ==> {
            &&& protobuf::f32_at(s, f) == Some(a)
            &&& protobuf::f64_at(s, f) is None
            &&& protobuf::u64_at(s, f) is None
            &&& protobuf::message_at(s, f) is None
        },
        protobuf::find(s, f) == Some(WireValue::Fixed64(bytes::le64_bytes(b.bits))) ==> {
            &&& protobuf::f64_at(s, f) == Some(b)
            &&& protobuf::f32_at(s, f) is None
            &&& protobuf::u64_at(s, f) is None
            &&& protobuf::message_at(s, f) is None
        },
        v >= 0 && protobuf::find(s, f) == Some(WireValue::Varint(v as u64)) ==> {
            &&& protobuf::u64_at(s, f) == Some(v as u64)
            &&& protobuf::i64_at(s, f) == Some(v)
            &&& protobuf::f32_at(s, f) is None
            &&& protobuf::f64_at(s, f) is None
            &&& protobuf::message_at(s, f) is None
        },
        v < 0 && protobuf::find(s, f) == Some(
            WireValue::Varint((v + 0x1_0000_0000_0000_0000) as u64),
        ) ==> protobuf::i64_at(s, f) == Some(v),
        protobuf::find(s, f) is None ==> {
            &&& protobuf::f32_at(s, f) is None
            &&& protobuf::f64_at(s, f) is None
            &&& protobuf::u64_at(s, f) is None
            &&& protobuf::i64_at(s, f) is None
            &&& protobuf::message_at(s, f) is None
            &&& protobuf::string_at(s, f) is None
            &&& protobuf::rational_at(s, f) is None
        },
{
    bytes::le_round_trip(a.bits, b.bits);
}

/// A fraction is its numerator and then its denominator, and no more.
pub proof fn fractions_are_two_numbers(s: Seq<u8>, f: u32, num: u64, den: u64)
    requires
        protobuf::find(s, f) == Some(
            WireValue::Bytes(encode::varint_bytes(num) + encode::varint_bytes(den)),
        ),
    ensures
        protobuf::rational_at(s, f) == Some((num, den)),
{
    let a = encode::varint_bytes(num);
    let d = encode::varint_bytes(den);
    let none = Seq::<u8>::empty();
    encode::varint_round_trip(num, d);
    encode::varint_round_trip(den, none);
    assert(d + none =~= d);
    assert((a + d).skip(a.len() as int) =~= d);
}

/// A text is the characters of its bytes, without zeros at its end.
pub proof fn texts_are_read_whole(s: Seq<u8>, f: u32, t: Seq<char>)
    requires
        protobuf::find(s, f) == Some(WireValue::Bytes(vstd::utf8::encode_utf8(t))),
        t.len() > 0 ==> t.last() != '\0',
    ensures
        protobuf::string_at(s, f) == Some(t),
{
    vstd::utf8::encode_utf8_valid_utf8(t);
    vstd::utf8::encode_utf8_decode_utf8(t);
    text::laws::zeros_are_taken_off(t, 0);
    assert(t + Seq::new(0, |i: int| '\0') =~= t);
}

/// A path leads through one message after the other.
pub proof fn paths_lead_inwards(s: Seq<u8>, p: Seq<u32>, q: Seq<u32>)
    ensures
        protobuf::nested(s, p + q) == match protobuf::nested(s, p) {
            Some(b) => protobuf::nested(b, q),
            None => None,
        },
        p.len() == 1 ==> protobuf::nested(s, p) == protobuf::message_at(s, p[0]),
    decreases p.len(),
{
    if p.len() == 0 {
        assert(p + q =~= q);
    } else {
        assert((p + q).drop_first() =~= p.drop_first() + q);
        assert((p + q).first() == p.first());
        if let Some(WireValue::Bytes(b)) = protobuf::find(s, p.first()) {
            paths_lead_inwards(b, p.drop_first(), q);
        }
        if p.len() == 1 {
            assert(p.drop_first().len() == 0);
        }
    }
}

/// The value of a hexadecimal digit.
pub open spec fn digit(c: char) -> int {
    if '0' <= c && c <= '9' {
        c as int - '0' as int
    } else {
        c as int - 'a' as int + 10
    }
}

/// Each byte is shown as two hexadecimal digits in lower case, the higher one first.
pub proof fn bytes_are_shown_in_hexadecimal(s: Seq<u8>, i: int)
    requires
        0 <= i < s.len(),
    ensures
        ({
            let h = protobuf::hex(s);
            &&& h.len() == 2 * s.len()
            &&& 16 * digit(h[2 * i]) + digit(h[2 * i + 1]) == s[i]
            &&& '0' <= h[2 * i] && h[2 * i] <= '9' || 'a' <= h[2 * i] && h[2 * i] <= 'f'
            &&& '0' <= h[2 * i + 1] && h[2 * i + 1] <= '9' || 'a' <= h[2 * i + 1] && h[2 * i + 1]
                <= 'f'
        }),
    decreases s.len(),
{
    lemma_hex_len(s);
    if i < s.len() - 1 {
        bytes_are_shown_in_hexadecimal(s.drop_last(), i);
    } else {
        lemma_hex_len(s.drop_last());
        let b = s[i] as int;
        assert(0 <= b / 16 < 16 && 0 <= b % 16 < 16);
        lemma_digit(b / 16);
        lemma_digit(b % 16);
    }
}

proof fn lemma_digit(d: int)
    requires
        0 <= d < 16,
    ensures
        digit(protobuf::hex_digit(d)) == d,
        '0' <= protobuf::hex_digit(d) && protobuf::hex_digit(d) <= '9' || 'a'
            <= protobuf::hex_digit(d) && protobuf::hex_digit(d) <= 'f',
{
}

proof fn lemma_hex_len(s: Seq<u8>)
    ensures
        protobuf::hex(s).len() == 2 * s.len(),
    decreases s.len(),
{
    if s.len() > 0 {
        lemma_hex_len(s.drop_last());
    }
}

proof fn lemma_quoted(s: Seq<u8>)
    ensures
        protobuf::quoted(s) == summary::quoted(s.map_values(|b: u8| b as char)),
    decreases s.len(),
{
    let c = s.map_values(|b: u8| b as char);
    if s.len() > 0 {
        lemma_quoted(s.drop_last());
        assert(c.drop_last() =~= s.drop_last().map_values(|b: u8| b as char));
        assert(c.last() == s.last() as char);
        assert(protobuf::quoted(s) =~= summary::quoted(c));
    }
}

/// A quoted text stands for its characters: one behind a backslash is itself, and no
/// quote is without one.
pub proof fn shown_texts_read_back(s: Seq<u8>, i: int)
    ensures
        summary::unquoted(protobuf::quoted(s)) == s.map_values(|b: u8| b as char),
        0 <= i < protobuf::quoted(s).len() && protobuf::quoted(s)[i] == '"' ==> i > 0
            && protobuf::quoted(s)[i - 1] == '\\',
{
    lemma_quoted(s);
    let c = s.map_values(|b: u8| b as char);
    summary::quoting_is_undone(c);
    if 0 <= i < protobuf::quoted(s).len() && protobuf::quoted(s)[i] == '"' {
        summary::quotes_are_escaped(c, i);
    }
}

/// A line is indented by two blanks for each level.
pub proof fn levels_are_two_blanks(indent: nat, i: int)
    ensures
        protobuf::pad(indent).len() == 2 * indent,
        0 <= i < 2 * indent ==> protobuf::pad(indent)[i] == ' ',
    decreases indent,
{
    if indent > 0 {
        reveal_strlit("  ");
        levels_are_two_blanks((indent - 1) as nat, i);
    }
}

/// Of long values the first 24 bytes are shown.
pub proof fn long_values_are_cut(s: Seq<u8>, rest: Seq<u8>)
    ensures
        s.len() == 24 ==> protobuf::leading(s + rest) == s,
        s.len() <= 24 ==> protobuf::leading(s) == s,
{
    if s.len() == 24 {
        assert((s + rest).take(24) =~= s);
        if rest.len() == 0 {
            assert(s + rest =~= s);
        }
    }
}

/// The fields of a message are shown one behind the other.
pub proof fn fields_are_shown_in_order(
    a: Seq<(u32, WireValue)>,
    b: Seq<(u32, WireValue)>,
    indent: nat,
    depth: nat,
)
    ensures
        protobuf::fields_tree(a + b, indent, depth) == protobuf::fields_tree(a, indent, depth)
            + protobuf::fields_tree(b, indent, depth),
    decreases b.len(),
{
    let t = protobuf::fields_tree(a, indent, depth);
    if b.len() == 0 {
        assert(a + b =~= a);
        assert(t + Seq::<TreeNode>::empty() =~= t);
    } else {
        assert((a + b).drop_last() =~= a + b.drop_last());
        fields_are_shown_in_order(a, b.drop_last(), indent, depth);
        let u = protobuf::fields_tree(b.drop_last(), indent, depth);
        let l = protobuf::field_tree(b.last().0, b.last().1, indent, depth);
        assert(t + u + l =~= t + (u + l));
    }
}

/// A field is shown with its number and its value. Bytes that are fields themselves are
/// shown as a message, one level further in, down to the greatest depth; others as text
/// where all are printable.
pub proof fn fields_are_shown_by_kind(
    f: u32,
    v: u64,
    a: Binary32,
    d: Binary64,
    b: Seq<u8>,
    indent: nat,
    depth: nat,
)
    ensures
        protobuf::field_tree(f, WireValue::Varint(v), indent, depth) == seq![
            TreeNode::Varint { indent, field: f, value: v },
        ],
        protobuf::field_tree(f, WireValue::Fixed32(bytes::le32_bytes(a.bits)), indent, depth)
            == seq![TreeNode::Single { indent, field: f, single: a }],
        protobuf::field_tree(f, WireValue::Fixed64(bytes::le64_bytes(d.bits)), indent, depth)
            == seq![TreeNode::Double { indent, field: f, double: d }],
        ({
            let shown = protobuf::field_tree(f, WireValue::Bytes(b), indent, depth);
            let inner = protobuf::all_fields(b);
            let plain = b.len() > 0 && forall|i: int|
                0 <= i < b.len() ==> ' ' <= #[trigger] b[i] as char && b[i] as char <= '~';
            &&& inner is Some && indent < depth && b.len() > 1 ==> shown == seq![
                TreeNode::Message { indent, field: f, len: b.len() },
            ] + protobuf::fields_tree(inner->0, indent + 1, depth)
            &&& (inner is None || indent >= depth || b.len() <= 1) && plain ==> shown == seq![
                TreeNode::Text { indent, field: f, bytes: b },
            ]
            &&& (inner is None || indent >= depth || b.len() <= 1) && !plain ==> shown == seq![
                TreeNode::Bytes { indent, field: f, bytes: b },
            ]
        }),
{
    bytes::le_round_trip(a.bits, d.bits);
    assert forall|i: int| 0 <= i < b.len() implies (' ' <= #[trigger] b[i] as char && b[i] as char
        <= '~') == (0x20 <= b[i] < 0x7f) by {}
    let plain = b.len() > 0 && forall|i: int|
        0 <= i < b.len() ==> ' ' <= #[trigger] b[i] as char && b[i] as char <= '~';
    if plain {
        assert(protobuf::printable(b)) by {
            assert forall|i: int| 0 <= i < b.len() implies 0x20 <= #[trigger] b[i] < 0x7f by {
                assert(' ' <= b[i] as char && b[i] as char <= '~');
            }
        }
    }
    if protobuf::printable(b) {
        assert forall|i: int| 0 <= i < b.len() implies ' ' <= #[trigger] b[i] as char
            && b[i] as char <= '~' by {
            assert(0x20 <= b[i] < 0x7f);
        }
        assert(plain);
    }
}

/// The lines that are shown say the number of the field, the kind and the value.
pub proof fn lines_say_number_and_kind(
    indent: nat,
    f: u32,
    v: u64,
    b: Seq<u8>,
    len: nat,
    a: Binary32,
    d: Binary64,
    n: Seq<char>,
)
    ensures
        ({
            let name = protobuf::pad(indent) + "f"@ + text::decimal(f as nat);
            &&& protobuf::node_text(TreeNode::Varint { indent, field: f, value: v }, n) == name
                + " varint = "@ + text::decimal(v as nat) + "\n"@
            &&& protobuf::node_text(TreeNode::Single { indent, field: f, single: a }, n) == name
                + " f32 = "@ + n + "\n"@
            &&& protobuf::node_text(TreeNode::Double { indent, field: f, double: d }, n) == name
                + " f64 = "@ + n + "\n"@
            &&& protobuf::node_text(TreeNode::Message { indent, field: f, len }, n) == name
                + " msg ("@ + text::decimal(len) + " B)\n"@
            &&& protobuf::node_text(TreeNode::Text { indent, field: f, bytes: b }, n) == name
                + " str ("@ + text::decimal(b.len()) + " B) = \""@ + protobuf::quoted(b) + "\"\n"@
            &&& protobuf::node_text(TreeNode::Bytes { indent, field: f, bytes: b }, n) == name
                + " bytes ("@ + text::decimal(b.len()) + " B) = "@ + protobuf::hex(
                protobuf::leading(b),
            ) + "\n"@
            &&& protobuf::node_text(TreeNode::Raw { indent, len }, n) == protobuf::pad(indent)
                + "<"@ + text::decimal(len) + " raw bytes>\n"@
        }),
{
}

/// What is wrong with a field: a number that ends too early or goes on for too long, a
/// field 0, too few bytes for its kind, or a kind that does not exist.
pub proof fn errors_tell_what_is_wrong(field: u8, s: Seq<u8>, n: u8, pos: nat)
    requires
        0 < field < 16,
        n < 128,
    ensures
        protobuf::head(Seq::empty()) is None && protobuf::head_error(Seq::empty(), pos)
            == "truncated varint"@,
        protobuf::head(seq![n % 8] + s) is None && protobuf::head_error(seq![(n % 8) as u8] + s, pos)
            == "field number 0"@,
        s.len() < 8 ==> protobuf::head(seq![(field * 8 + 1) as u8] + s) is None
            && protobuf::head_error(seq![(field * 8 + 1) as u8] + s, pos) == "truncated fixed64"@,
        s.len() < 4 ==> protobuf::head(seq![(field * 8 + 5) as u8] + s) is None
            && protobuf::head_error(seq![(field * 8 + 5) as u8] + s, pos) == "truncated fixed32"@,
        s.len() < n && pos + 2 + n <= usize::MAX ==> protobuf::head(
            seq![(field * 8 + 2) as u8] + (seq![n] + s),
        ) is None && protobuf::head_error(seq![(field * 8 + 2) as u8] + (seq![n] + s), pos)
            == "truncated length-delimited field"@,
        n == 3 || n == 4 || n == 6 || n == 7 ==> protobuf::head(seq![(field * 8 + n) as u8] + s)
            is None && protobuf::head_error(seq![(field * 8 + n) as u8] + s, pos)
            == "unsupported wire type (group)"@,
{
    assert(protobuf::continuation_count(Seq::<u8>::empty()) == 0);
    let z = (n % 8) as u8;
    numbers_have_seven_bits_a_byte(z, s);
    let k1 = (field * 8 + 1) as u8;
    numbers_have_seven_bits_a_byte(k1, s);
    assert((seq![k1] + s).skip(1) =~= s);
    let k5 = (field * 8 + 5) as u8;
    numbers_have_seven_bits_a_byte(k5, s);
    assert((seq![k5] + s).skip(1) =~= s);
    let k2 = (field * 8 + 2) as u8;
    let c = seq![n] + s;
    numbers_have_seven_bits_a_byte(k2, c);
    numbers_have_seven_bits_a_byte(n, s);
    assert((seq![k2] + c).skip(1) =~= c);
    if n == 3 || n == 4 || n == 6 || n == 7 {
        let k = (field * 8 + n) as u8;
        numbers_have_seven_bits_a_byte(k, s);
    }
}

/// A number that goes on for more than eleven bytes, and one that ends too early, are
/// told apart.
pub proof fn broken_numbers_are_told_apart(s: Seq<u8>, i: nat)
    requires
        i <= s.len(),
        forall|j: int| 0 <= j < i ==> #[trigger] s[j] >= 128,
    ensures
        i >= 11 ==> protobuf::varint(s) is None && protobuf::varint_error(s)
            == "varint longer than 10 bytes"@,
        i == s.len() && i <= 10 ==> protobuf::varint(s) is None && protobuf::varint_error(s)
            == "truncated varint"@,
{
    lemma_goes_on(s, i);
}

proof fn lemma_goes_on(s: Seq<u8>, i: nat)
    requires
        i <= s.len(),
        forall|j: int| 0 <= j < i ==> #[trigger] s[j] >= 128,
    ensures
        i <= protobuf::continuation_count(s) <= s.len(),
    decreases s.len(),
{
    if i > 0 {
        assert(s[0] >= 128);
        let t = s.drop_first();
        assert forall|j: int| 0 <= j < i - 1 implies #[trigger] t[j] >= 128 by {
            assert(s[j + 1] >= 128);
        }
        lemma_goes_on(t, (i - 1) as nat);
    } else if s.len() > 0 && s[0] >= 128 {
        lemma_goes_on(s.drop_first(), 0);
    }
}

/// What is no message is shown as raw bytes.
pub proof fn other_bytes_are_shown_raw(s: Seq<u8>, indent: nat, depth: nat)
    ensures
        protobuf::all_fields(s) is None ==> protobuf::tree(s, indent, depth) == seq![
            TreeNode::Raw { indent, len: s.len() },
        ],
        protobuf::all_fields(s) matches Some(f) ==> protobuf::tree(s, indent, depth)
            == protobuf::fields_tree(f, indent, depth),
{
}

} // verus!
