//! What texts of numbers say, and how texts are put together.

use crate::text;
use vstd::arithmetic::power::pow;
use vstd::prelude::*;

verus! {

/// The number that decimal digits write.
pub open spec fn value(s: Seq<char>) -> int
    decreases s.len(),
{
    if s.len() == 0 {
        0
    } else {
        10 * value(s.drop_last()) + (s.last() as int - '0' as int)
    }
}

proof fn lemma_zeros(n: nat, s: Seq<char>)
    ensures
        value(Seq::new(n, |i: int| '0') + s) == value(s),
    decreases s.len(), n,
{
    let zeros = Seq::new(n, |i: int| '0');
    let all = zeros + s;
    if s.len() > 0 {
        assert(all.drop_last() =~= zeros + s.drop_last());
        assert(all.last() == s.last());
        lemma_zeros(n, s.drop_last());
    } else if n > 0 {
        let fewer = Seq::new((n - 1) as nat, |i: int| '0');
        assert(all.drop_last() =~= fewer + s);
        assert(all.last() == '0');
        lemma_zeros((n - 1) as nat, s);
    }
}

/// A number in decimal digits reads back as itself, with zeros before it too. It is
/// as wide as it was asked to be or as its digits are, and no digits but those of 0
/// begin with a 0.
pub proof fn decimals_read_back(n: nat, width: nat)
    ensures
        value(text::decimal(n)) == n,
        value(text::padded(n, width)) == n,
        text::decimal(n).len() > 0,
        n > 0 ==> text::decimal(n)[0] != '0',
        text::padded(n, width).len() >= width,
        text::padded(n, width).len() == width || text::padded(n, width) == text::decimal(n),
    decreases n,
{
    let d = text::decimal(n);
    if n >= 10 {
        decimals_read_back(n / 10, width);
        assert(d.drop_last() =~= text::decimal(n / 10));
        assert(d[0] == text::decimal(n / 10)[0]);
        assert(d.last() as int == 48 + n % 10);
    } else {
        assert(d.drop_last() =~= Seq::empty());
        assert(value(d.drop_last()) == 0);
        assert(d.last() as int == 48 + n % 10);
    }
    if d.len() < width {
        lemma_zeros((width - d.len()) as nat, d);
    }
}

/// A number that fits is exactly as wide as it was asked to be.
pub proof fn padded_reads_back(n: nat, width: nat)
    requires
        width > 0,
        n < pow(10, width),
    ensures
        text::padded(n, width).len() == width,
        value(text::padded(n, width)) == n,
{
    decimals_read_back(n, width);
    text::padded_is_wide(n, width);
}

/// The powers of ten that stand for the widths of fields.
pub proof fn widths_hold()
    ensures
        pow(10, 1) == 10,
        pow(10, 2) == 100,
        pow(10, 3) == 1000,
        pow(10, 4) == 10_000,
        pow(10, 5) == 100_000,
{
    reveal_with_fuel(pow, 6);
}

/// A negative number is written as a sign and its size, another one without a sign.
pub proof fn signed_decimals_read_back(n: int)
    ensures
        n >= 0 ==> value(text::signed_decimal(n)) == n,
        n < 0 ==> text::signed_decimal(n)[0] == '-' && value(text::signed_decimal(n).skip(1)) == -n,
{
    reveal_strlit("-");
    if n < 0 {
        decimals_read_back((-n) as nat, 0);
        assert(text::signed_decimal(n).skip(1) =~= text::decimal((-n) as nat));
    } else {
        decimals_read_back(n as nat, 0);
    }
}

/// A part of a text occurs in it.
pub proof fn parts_occur(before: Seq<char>, part: Seq<char>, behind: Seq<char>)
    ensures
        text::occurs(before + part + behind, part),
        part.len() > 0 ==> !text::occurs(Seq::empty(), part),
{
    let s = before + part + behind;
    let i = before.len() as int;
    assert(s.subrange(i, i + part.len()) =~= part);
}

/// White space of the ASCII range is the blank, and the characters from the tab to
/// the carriage return.
pub proof fn ascii_white_space(c: char)
    requires
        (c as u32) < 128,
    ensures
        text::white(c) <==> c == ' ' || '\t' <= c && c <= '\r',
{
}

/// Capital letters of the ASCII range have small ones in lower case, all others
/// stay.
pub proof fn only_capitals_change(c: char)
    ensures
        'A' <= c && c <= 'Z' ==> text::lower(c) as int - 'a' as int == c as int - 'A' as int,
        !('A' <= c && c <= 'Z') ==> text::lower(c) == c,
{
}

/// What has no white space at its ends is not trimmed.
pub proof fn tight_texts_stay(s: Seq<char>)
    requires
        s.len() > 0 ==> !text::white(s.first()) && !text::white(s.last()),
    ensures
        text::trimmed(s) == s,
        text::trimmed_start(s) == s,
{
}

/// Zero characters at the end of a text are taken off, and no others.
pub proof fn zeros_are_taken_off(s: Seq<char>, n: nat)
    requires
        s.len() > 0 ==> s.last() != '\0',
    ensures
        text::without_nul_end(s + Seq::new(n, |i: int| '\0')) == s,
    decreases n,
{
    let all = s + Seq::new(n, |i: int| '\0');
    if n > 0 {
        assert(all.last() == '\0');
        assert(all.drop_last() =~= s + Seq::new((n - 1) as nat, |i: int| '\0'));
        zeros_are_taken_off(s, (n - 1) as nat);
    } else {
        assert(all =~= s);
    }
}

/// The parts of a text that are there, one behind the other.
pub open spec fn assembled(parts: Seq<Option<Seq<char>>>) -> Seq<char>
    decreases parts.len(),
{
    if parts.len() == 0 {
        Seq::empty()
    } else {
        assembled(parts.drop_last()) + match parts.last() {
            Some(s) => s,
            None => Seq::empty(),
        }
    }
}

/// Whether `with` is `without` with `part` put in somewhere.
pub open spec fn inserted(with: Seq<char>, without: Seq<char>, part: Seq<char>) -> bool {
    exists|i: int|
        0 <= i <= without.len() && #[trigger] without.take(i) + part + without.skip(i) == with
}

/// A text with one part more is the text with that part put in.
pub proof fn one_part_more(
    parts: Seq<Option<Seq<char>>>,
    fewer: Seq<Option<Seq<char>>>,
    k: int,
    part: Seq<char>,
)
    requires
        0 <= k < parts.len(),
        parts[k] == Some(part),
        fewer == parts.update(k, None),
    ensures
        inserted(assembled(parts), assembled(fewer), part),
    decreases parts.len(),
{
    let n = parts.len() - 1;
    let with = assembled(parts);
    let without = assembled(fewer);
    if k == n {
        assert(fewer.drop_last() =~= parts.drop_last());
        let i = without.len() as int;
        assert(without =~= assembled(parts.drop_last()));
        assert(without.take(i) + part + without.skip(i) =~= with);
    } else {
        assert(fewer.drop_last() =~= parts.drop_last().update(k, None));
        one_part_more(parts.drop_last(), fewer.drop_last(), k, part);
        let a = assembled(parts.drop_last());
        let b = assembled(fewer.drop_last());
        let i = choose|i: int| 0 <= i <= b.len() && #[trigger] b.take(i) + part + b.skip(i) == a;
        let tail = match parts.last() {
            Some(s) => s,
            None => Seq::empty(),
        };
        assert(fewer.last() == parts.last());
        assert(without == b + tail);
        assert(with == a + tail);
        assert(without.take(i) =~= b.take(i));
        assert(without.skip(i) =~= b.skip(i) + tail);
        assert(without.take(i) + part + without.skip(i) =~= with);
    }
}

/// Each part that is there occurs in the text.
pub proof fn assembled_parts_occur(parts: Seq<Option<Seq<char>>>, k: int, part: Seq<char>)
    requires
        0 <= k < parts.len(),
        parts[k] == Some(part),
    ensures
        text::occurs(assembled(parts), part),
{
    one_part_more(parts, parts.update(k, None), k, part);
    let without = assembled(parts.update(k, None));
    let i = choose|i: int|
        0 <= i <= without.len() && #[trigger] without.take(i) + part + without.skip(i) == assembled(
            parts,
        );
    parts_occur(without.take(i), part, without.skip(i));
}

/// The digits of a field of a text.
pub open spec fn field(s: Seq<char>, from: int, to: int) -> int {
    value(s.subrange(from, to))
}

} // verus!
