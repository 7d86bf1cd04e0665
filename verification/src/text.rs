//! Text as sequences of characters: trimming, case, splitting, joining and
//! decimal numbers.

use vstd::arithmetic::power::pow;
use vstd::prelude::*;
use vstd::slice::slice_subrange;
use vstd::utf8::{decode_utf8, encode_utf8, has_width_1_encoding, valid_utf8};

pub mod laws;

verus! {

/// `String::push` appends one character.
pub assume_specification[ String::push ](s: &mut String, c: char)
    ensures
        final(s)@ == old(s)@.push(c),
;

/// The text of `bytes` by `std::str::from_utf8`: the decoded characters when
/// the bytes are well-formed UTF-8, nothing otherwise.
#[verifier::external_body]
pub(crate) fn utf8_text(bytes: &[u8]) -> (r: Option<String>)
    ensures
        match r {
            Some(t) => valid_utf8(bytes@) && t@ == decode_utf8(bytes@),
            None => !valid_utf8(bytes@),
        },
{
    match std::str::from_utf8(bytes) {
        Ok(s) => Some(s.to_string()),
        Err(_) => None,
    }
}

/// What `String::from_utf8_lossy` makes of the bytes.
pub uninterp spec fn utf8_lossy(bytes: Seq<u8>) -> Seq<char>;

/// The text of `bytes` by `String::from_utf8_lossy`, which puts U+FFFD where
/// the bytes are not well-formed; well-formed UTF-8 is decoded as it is.
#[verifier::external_body]
pub(crate) fn lossy_text(bytes: &[u8]) -> (r: String)
    ensures
        r@ == utf8_lossy(bytes@),
        valid_utf8(bytes@) ==> r@ == decode_utf8(bytes@),
{
    String::from_utf8_lossy(bytes).into_owned()
}

/// The characters of `s`.
pub fn chars_of(s: &str) -> (r: Vec<char>)
    ensures
        r@ == s@,
{
    let mut out: Vec<char> = Vec::new();
    for c in it: s.chars()
        invariant
            out@ == s@.take(it.index()),
            it.seq() == s@,
    {
        out.push(c);
    }
    out
}

/// The text with the characters of `s`.
pub fn text_of(s: &[char]) -> (r: String)
    ensures
        r@ == s@,
{
    let mut out: String = String::new();
    let mut i: usize = 0;
    while i < s.len()
        invariant
            i <= s@.len(),
            out@ == s@.take(i as int),
        decreases s@.len() - i,
    {
        out.push(s[i]);
        i = i + 1;
    }
    out
}

/// Whether two texts have the same characters.
pub fn same(a: &[char], b: &[char]) -> (r: bool)
    ensures
        r == (a@ == b@),
{
    if a.len() != b.len() {
        return false;
    }
    let mut i: usize = 0;
    while i < a.len()
        invariant
            i <= a@.len(),
            a@.len() == b@.len(),
            forall|j: int| 0 <= j < i ==> a@[j] == b@[j],
        decreases a@.len() - i,
    {
        if a[i] != b[i] {
            return false;
        }
        i = i + 1;
    }
    assert(a@ =~= b@);
    true
}

/// Whether the characters `a` are those of `b`.
pub fn is(a: &[char], b: &str) -> (r: bool)
    ensures
        r == (a@ == b@),
{
    let b: Vec<char> = chars_of(b);
    same(a, b.as_slice())
}

/// Whether two texts are the same.
pub fn str_eq(a: &str, b: &str) -> (r: bool)
    ensures
        r == (a@ == b@),
{
    let a: Vec<char> = chars_of(a);
    is(a.as_slice(), b)
}

/// The characters with the Unicode property `White_Space`.
pub open spec fn white(c: char) -> bool {
    let u = c as u32;
    9 <= u <= 13 || u == 0x20 || u == 0x85 || u == 0xa0 || u == 0x1680 || 0x2000 <= u <= 0x200a || u
        == 0x2028 || u == 0x2029 || u == 0x202f || u == 0x205f || u == 0x3000
}

fn is_white(c: char) -> (r: bool)
    ensures
        r == white(c),
{
    let u: u32 = c as u32;
    9 <= u && u <= 13 || u == 0x20 || u == 0x85 || u == 0xa0 || u == 0x1680 || 0x2000 <= u && u
        <= 0x200a || u == 0x2028 || u == 0x2029 || u == 0x202f || u == 0x205f || u == 0x3000
}

/// `s` without white space at its beginning.
pub open spec fn trimmed_start(s: Seq<char>) -> Seq<char>
    decreases s.len(),
{
    if s.len() > 0 && white(s.first()) {
        trimmed_start(s.drop_first())
    } else {
        s
    }
}

/// `s` without the characters for which `p` holds at its end.
pub open spec fn stripped_end(s: Seq<char>, p: spec_fn(char) -> bool) -> Seq<char>
    decreases s.len(),
{
    if s.len() > 0 && p(s.last()) {
        stripped_end(s.drop_last(), p)
    } else {
        s
    }
}

/// `s` without white space at its ends.
pub open spec fn trimmed(s: Seq<char>) -> Seq<char> {
    stripped_end(trimmed_start(s), |c: char| white(c))
}

/// Removes white space at both ends.
pub fn trim(s: &[char]) -> (r: &[char])
    ensures
        r@ == trimmed(s@),
{
    let ghost p = |c: char| white(c);
    let n: usize = s.len();
    let mut from: usize = 0;
    assert(s@.skip(0) =~= s@);
    while from < n && is_white(s[from])
        invariant
            from <= n,
            n == s@.len(),
            trimmed_start(s@) == trimmed_start(s@.skip(from as int)),
        decreases n - from,
    {
        assert(s@.skip(from as int).drop_first() =~= s@.skip(from + 1));
        from = from + 1;
    }
    let mut to: usize = n;
    assert(s@.subrange(from as int, n as int) =~= s@.skip(from as int));
    while to > from && is_white(s[to - 1])
        invariant
            from <= to <= n,
            n == s@.len(),
            p == (|c: char| white(c)),
            stripped_end(s@.skip(from as int), p) == stripped_end(
                s@.subrange(from as int, to as int),
                p,
            ),
        decreases to,
    {
        let ghost cur = s@.subrange(from as int, to as int);
        assert(cur.last() == s@[to - 1]);
        assert(cur.drop_last() =~= s@.subrange(from as int, to - 1));
        to = to - 1;
    }
    proof {
        let cur = s@.subrange(from as int, to as int);
        if to > from {
            assert(cur.last() == s@[to - 1]);
        }
    }
    slice_subrange(s, from, to)
}

/// `String::trim`, as a new text.
pub fn trim_text(s: &str) -> (r: String)
    ensures
        r@ == trimmed(s@),
{
    let c: Vec<char> = chars_of(s);
    text_of(trim(c.as_slice()))
}

/// `s` without NUL characters at its end.
pub open spec fn without_nul_end(s: Seq<char>) -> Seq<char> {
    stripped_end(s, |c: char| c == '\0')
}

/// Removes NUL characters at the end.
pub fn trim_nul_end(s: &str) -> (r: String)
    ensures
        r@ == without_nul_end(s@),
{
    let ghost p = |c: char| c == '\0';
    let c: Vec<char> = chars_of(s);
    let mut to: usize = c.len();
    assert(c@.take(to as int) =~= s@);
    while to > 0 && c[to - 1] == '\0'
        invariant
            to <= c@.len(),
            p == (|c: char| c == '\0'),
            stripped_end(s@, p) == stripped_end(c@.take(to as int), p),
        decreases to,
    {
        assert(c@.take(to as int).last() == c@[to - 1]);
        assert(c@.take(to as int).drop_last() =~= c@.take(to - 1));
        to = to - 1;
    }
    proof {
        if to > 0 {
            assert(c@.take(to as int).last() == c@[to - 1]);
        }
    }
    let r: String = text_of(slice_subrange(c.as_slice(), 0, to));
    assert(r@ =~= c@.take(to as int));
    r
}

/// `c` as a lower-case ASCII letter where it is an upper-case one.
pub open spec fn lower(c: char) -> char {
    if 'A' <= c && c <= 'Z' {
        (c as u32 + 32) as char
    } else {
        c
    }
}

/// `s` with its upper-case ASCII letters in lower case.
pub open spec fn lowered(s: Seq<char>) -> Seq<char> {
    s.map_values(|c: char| lower(c))
}

fn lower_char(c: char) -> (r: char)
    ensures
        r == lower(c),
{
    if 'A' <= c && c <= 'Z' {
        (c as u8 + 32) as char
    } else {
        c
    }
}

/// Puts upper-case ASCII letters in lower case.
pub fn to_lower(s: &[char]) -> (r: Vec<char>)
    ensures
        r@ == lowered(s@),
{
    let mut out: Vec<char> = Vec::new();
    let mut i: usize = 0;
    while i < s.len()
        invariant
            i <= s@.len(),
            out@ == lowered(s@.take(i as int)),
        decreases s@.len() - i,
    {
        assert(s@.take(i + 1) =~= s@.take(i as int).push(s@[i as int]));
        out.push(lower_char(s[i]));
        i = i + 1;
        assert(out@ =~= lowered(s@.take(i as int)));
    }
    assert(s@.take(i as int) =~= s@);
    out
}

/// The place of the first `c` in `s`; the length when there is none.
pub open spec fn first_of(s: Seq<char>, c: char) -> nat
    decreases s.len(),
{
    if s.len() == 0 || s.first() == c {
        0
    } else {
        1 + first_of(s.drop_first(), c)
    }
}

/// The first `c` of `s` has no `c` before it.
pub proof fn lemma_first_of(s: Seq<char>, c: char)
    ensures
        first_of(s, c) <= s.len(),
        first_of(s, c) < s.len() ==> s[first_of(s, c) as int] == c,
        forall|i: int| 0 <= i < first_of(s, c) ==> s[i] != c,
    decreases s.len(),
{
    if s.len() > 0 && s.first() != c {
        lemma_first_of(s.drop_first(), c);
        assert forall|i: int| 0 <= i < first_of(s, c) implies s[i] != c by {
            if i > 0 {
                assert(s[i] == s.drop_first()[i - 1]);
            }
        }
    }
}

/// A place with the properties of the first `c` is the first `c`.
pub proof fn lemma_first_of_unique(s: Seq<char>, c: char, n: nat)
    requires
        n <= s.len(),
        n < s.len() ==> s[n as int] == c,
        forall|i: int| 0 <= i < n ==> s[i] != c,
    ensures
        first_of(s, c) == n,
{
    lemma_first_of(s, c);
}

/// Finds the first `c`; the length when there is none.
pub fn find_first(s: &[char], c: char) -> (r: usize)
    ensures
        r == first_of(s@, c),
        r <= s@.len(),
{
    let mut i: usize = 0;
    while i < s.len() && s[i] != c
        invariant
            i <= s@.len(),
            forall|j: int| 0 <= j < i ==> s@[j] != c,
        decreases s@.len() - i,
    {
        i = i + 1;
    }
    proof {
        lemma_first_of_unique(s@, c, i as nat);
    }
    i
}

/// The parts of `s` between the occurrences of `sep`.
pub open spec fn parts(s: Seq<char>, sep: char) -> Seq<Seq<char>>
    decreases s.len(),
{
    let n = first_of(s, sep) as int;
    if n < s.len() {
        seq![s.take(n)] + parts(s.skip(n + 1), sep)
    } else {
        seq![s]
    }
}

/// The views of a sequence of character vectors.
pub open spec fn views(v: Seq<Vec<char>>) -> Seq<Seq<char>> {
    v.map_values(|x: Vec<char>| x@)
}

/// Splits `s` at each `sep`.
pub fn split(s: &[char], sep: char) -> (r: Vec<Vec<char>>)
    ensures
        views(r@) == parts(s@, sep),
{
    let mut out: Vec<Vec<char>> = Vec::new();
    let mut rest: &[char] = s;
    assert(views(out@) + parts(rest@, sep) =~= parts(s@, sep));
    loop
        invariant_except_break
            views(out@) + parts(rest@, sep) == parts(s@, sep),
        ensures
            views(out@) == parts(s@, sep),
        decreases rest@.len(),
    {
        let ghost before = views(out@);
        let n: usize = find_first(rest, sep);
        let part: &[char] = slice_subrange(rest, 0, n);
        let part: Vec<char> = vstd::slice::slice_to_vec(part);
        assert(part@ =~= rest@.take(n as int));
        out.push(part);
        assert(views(out@) =~= before.push(part@));
        if n >= rest.len() {
            proof {
                assert(part@ =~= rest@);
                assert(views(out@) =~= before + seq![rest@]);
            }
            break;
        }
        let ghost old_rest = rest@;
        rest = slice_subrange(rest, n + 1, rest.len());
        proof {
            assert(rest@ =~= old_rest.skip(n + 1));
            assert(views(out@) + parts(rest@, sep) =~= before + parts(old_rest, sep));
        }
    }
    out
}

/// The parts with `sep` between them.
pub open spec fn joined(parts: Seq<Seq<char>>, sep: Seq<char>) -> Seq<char>
    decreases parts.len(),
{
    if parts.len() == 0 {
        Seq::empty()
    } else if parts.len() == 1 {
        parts[0]
    } else {
        joined(parts.drop_last(), sep) + sep + parts.last()
    }
}

/// Whether `c` does not occur in `s`.
pub open spec fn free_of(s: Seq<char>, c: char) -> bool {
    forall|i: int| 0 <= i < s.len() ==> s[i] != c
}

/// A separator divides the parts of what is before it from those of what is
/// behind it.
pub proof fn parts_around(a: Seq<char>, c: char, b: Seq<char>)
    ensures
        parts(a + seq![c] + b, c) == parts(a, c) + parts(b, c),
    decreases a.len(),
{
    let s = a + seq![c] + b;
    lemma_first_of(a, c);
    let n = first_of(a, c) as int;
    if n < a.len() {
        lemma_first_of_unique(s, c, n as nat);
        parts_around(a.skip(n + 1), c, b);
        assert(s.take(n) =~= a.take(n));
        assert(s.skip(n + 1) =~= a.skip(n + 1) + seq![c] + b);
        assert(parts(s, c) =~= parts(a, c) + parts(b, c));
    } else {
        lemma_first_of_unique(s, c, a.len());
        assert(s.take(a.len() as int) =~= a);
        assert(s.skip(a.len() + 1int) =~= b);
        assert(parts(s, c) =~= parts(a, c) + parts(b, c));
    }
}

/// A text without the separator is its only part.
pub proof fn one_part(s: Seq<char>, c: char)
    requires
        free_of(s, c),
    ensures
        parts(s, c) == seq![s],
{
    lemma_first_of_unique(s, c, s.len());
}

/// Splitting what was joined gives the parts back, as long as no part holds the
/// separator.
pub proof fn split_undoes_join(p: Seq<Seq<char>>, c: char)
    requires
        p.len() > 0,
        forall|i: int| 0 <= i < p.len() ==> free_of(#[trigger] p[i], c),
    ensures
        parts(joined(p, seq![c]), c) == p,
    decreases p.len(),
{
    one_part(p.last(), c);
    if p.len() == 1 {
        assert(p =~= seq![p[0]]);
    } else {
        let front = p.drop_last();
        split_undoes_join(front, c);
        parts_around(joined(front, seq![c]), c, p.last());
        assert(front + seq![p.last()] =~= p);
    }
}

/// Lines with `c` behind each of them.
pub open spec fn ended(lines: Seq<Seq<char>>, c: char) -> Seq<char>
    decreases lines.len(),
{
    if lines.len() == 0 {
        Seq::empty()
    } else {
        ended(lines.drop_last(), c) + lines.last() + seq![c]
    }
}

/// Lines that were written one behind the other can be told apart, as long as
/// none holds the end of a line. An empty part stands behind the last one.
pub proof fn lines_read_back(lines: Seq<Seq<char>>, c: char)
    requires
        forall|i: int| 0 <= i < lines.len() ==> free_of(#[trigger] lines[i], c),
    ensures
        parts(ended(lines, c), c) == lines.push(Seq::empty()),
    decreases lines.len(),
{
    let none: Seq<char> = Seq::empty();
    one_part(none, c);
    if lines.len() == 0 {
        assert(seq![none] =~= lines.push(none));
    } else {
        let front = lines.drop_last();
        let last = lines.last();
        let before = ended(front, c);
        lines_read_back(front, c);
        one_part(last, c);
        parts_around(before + last, c, none);
        assert(before + last + seq![c] + none =~= ended(lines, c));
        if front.len() == 0 {
            assert(before + last =~= last);
        } else {
            let start = ended(front.drop_last(), c) + front.last();
            parts_around(start, c, last);
            parts_around(start, c, none);
            assert(start + seq![c] + none =~= before);
            assert(start + seq![c] + last =~= before + last);
            assert(parts(start, c) =~= front) by {
                assert(parts(start, c) + seq![none] == front.push(none));
                assert(parts(start, c).push(none) =~= parts(start, c) + seq![none]);
                assert(parts(start, c).push(none).drop_last() =~= parts(start, c));
                assert(front.push(none).drop_last() =~= front);
            }
        }
        assert(parts(before + last, c) =~= lines);
        assert(parts(ended(lines, c), c) =~= lines.push(none));
    }
}

/// The views of a sequence of texts.
pub open spec fn texts(v: Seq<String>) -> Seq<Seq<char>> {
    v.map_values(|x: String| x@)
}

/// Puts `sep` between the parts.
pub fn join(parts: &[String], sep: &str) -> (r: String)
    ensures
        r@ == joined(texts(parts@), sep@),
{
    let ghost t = texts(parts@);
    let mut out: String = String::new();
    let mut i: usize = 0;
    assert(t.take(0) =~= Seq::empty());
    while i < parts.len()
        invariant
            i <= parts@.len(),
            t == texts(parts@),
            out@ == joined(t.take(i as int), sep@),
        decreases parts@.len() - i,
    {
        assert(t.take(i + 1).drop_last() =~= t.take(i as int));
        if i > 0 {
            out.append(sep);
        }
        out.append(parts[i].as_str());
        proof {
            if i == 0 {
                assert(out@ =~= t.take(1)[0]);
            }
        }
        i = i + 1;
    }
    assert(t.take(i as int) =~= t);
    out
}

/// Whether `needle` occurs in `s`.
pub open spec fn occurs(s: Seq<char>, needle: Seq<char>) -> bool {
    exists|i: int|
        0 <= i <= s.len() - needle.len() && #[trigger] s.subrange(i, i + needle.len()) == needle
}

/// Whether `needle` occurs in `s`.
pub fn contains(s: &str, needle: &str) -> (r: bool)
    ensures
        r == occurs(s@, needle@),
{
    let t: Vec<char> = chars_of(s);
    let w: Vec<char> = chars_of(needle);
    let n: usize = w.len();
    let mut i: usize = 0;
    if n > t.len() {
        return false;
    }
    if n == 0 {
        assert(t@.subrange(0int, 0int + w@.len()) =~= w@);
        return true;
    }
    while i <= t.len() - n
        invariant
            i <= t@.len() - n + 1,
            t@ == s@,
            w@ == needle@,
            0 < n == w@.len(),
            n <= t.len(),
            forall|j: int| 0 <= j < i ==> #[trigger] t@.subrange(j, j + w@.len()) != w@,
        decreases t@.len() - n + 1 - i,
    {
        if same(slice_subrange(t.as_slice(), i, i + n), w.as_slice()) {
            assert(t@.subrange(i as int, i + w@.len()) == w@);
            return true;
        }
        i = i + 1;
    }
    false
}

/// The decimal digits of `n`.
pub open spec fn decimal(n: nat) -> Seq<char>
    decreases n,
{
    let digit = (48 + n % 10) as char;
    if n < 10 {
        seq![digit]
    } else {
        decimal(n / 10).push(digit)
    }
}

/// The decimal digits of `n`, with zeros before them up to `width` characters.
pub open spec fn padded(n: nat, width: nat) -> Seq<char> {
    let d = decimal(n);
    if d.len() < width {
        Seq::new((width - d.len()) as nat, |i: int| '0') + d
    } else {
        d
    }
}

/// The texts of numbers hold digits alone.
pub proof fn decimals_are_digits(n: nat, width: nat)
    ensures
        forall|i: int| 0 <= i < decimal(n).len() ==> '0' <= #[trigger] decimal(n)[i] <= '9',
        forall|i: int|
            0 <= i < padded(n, width).len() ==> '0' <= #[trigger] padded(n, width)[i] <= '9',
    decreases n,
{
    if n >= 10 {
        decimals_are_digits(n / 10, width);
        let front = decimal(n / 10);
        assert forall|i: int| 0 <= i < decimal(n).len() implies '0' <= #[trigger] decimal(n)[i]
            <= '9' by {
            if i < front.len() {
                assert(decimal(n)[i] == front[i]);
            }
        }
    }
    let d = decimal(n);
    assert forall|i: int| 0 <= i < padded(n, width).len() implies '0' <= #[trigger] padded(
        n,
        width,
    )[i] <= '9' by {
        if d.len() < width && i >= width - d.len() {
            assert(padded(n, width)[i] == d[i - (width - d.len())]);
        } else if d.len() >= width {
            assert(padded(n, width)[i] == d[i]);
        }
    }
}

/// A number below the power of ten with `k` zeros has at most `k` digits.
pub proof fn decimal_is_short(n: nat, k: nat)
    requires
        k > 0,
        n < pow(10, k),
    ensures
        1 <= decimal(n).len() <= k,
    decreases k,
{
    if n >= 10 {
        assert(pow(10, k) == 10 * pow(10, (k - 1) as nat)) by {
            reveal(pow);
        }
        if k == 1 {
            assert(pow(10, 0) == 1) by {
                reveal(pow);
            }
        }
        decimal_is_short(n / 10, (k - 1) as nat);
    }
}

/// A number that fits in `width` digits is padded to `width` characters.
pub proof fn padded_is_wide(n: nat, width: nat)
    requires
        width > 0,
        n < pow(10, width),
    ensures
        padded(n, width).len() == width,
{
    decimal_is_short(n, width);
}

/// The decimal digits of `n`, with a sign when it is negative.
pub open spec fn signed_decimal(n: int) -> Seq<char> {
    if n < 0 {
        "-"@ + decimal((-n) as nat)
    } else {
        decimal(n as nat)
    }
}

fn digit(d: u8) -> (r: char)
    requires
        d < 10,
    ensures
        r == (48 + d) as char,
{
    (48 + d) as char
}

fn push_decimal(out: &mut String, n: u64)
    ensures
        final(out)@ == old(out)@ + decimal(n as nat),
    decreases n,
{
    if n >= 10 {
        push_decimal(out, n / 10);
    }
    out.push(digit((n % 10) as u8));
    assert(out@ =~= old(out)@ + decimal(n as nat));
}

/// Writes `n` in decimal.
pub fn decimal_text(n: u64) -> (r: String)
    ensures
        r@ == decimal(n as nat),
{
    let mut out: String = String::new();
    push_decimal(&mut out, n);
    assert(out@ =~= decimal(n as nat));
    out
}

/// Writes `n` in decimal, with a sign when it is negative.
pub fn signed_text(n: i64) -> (r: String)
    ensures
        r@ == signed_decimal(n as int),
{
    if n < 0 {
        let mut out: String = String::from_str("-");
        let size: u64 = if n == i64::MIN {
            0x8000_0000_0000_0000
        } else {
            (-n) as u64
        };
        out.append(decimal_text(size).as_str());
        out
    } else {
        decimal_text(n as u64)
    }
}

/// Writes `n` in decimal with zeros before it up to `width` characters.
pub fn padded_text(n: u64, width: usize) -> (r: String)
    ensures
        r@ == padded(n as nat, width as nat),
{
    let d: Vec<char> = chars_of(decimal_text(n).as_str());
    let mut out: String = String::new();
    let mut i: usize = d.len();
    let ghost zeros = Seq::new(
        if width > d@.len() {
            (width - d@.len()) as nat
        } else {
            0
        },
        |i: int| '0',
    );
    while i < width
        invariant
            d@.len() <= i,
            i <= width || i == d@.len(),
            zeros == Seq::new(
                if width > d@.len() {
                    (width - d@.len()) as nat
                } else {
                    0
                },
                |i: int| '0',
            ),
            out@ == zeros.take(i - d@.len()),
        decreases width - i,
    {
        out.push('0');
        i = i + 1;
    }
    out.append(text_of(d.as_slice()).as_str());
    assert(out@ =~= padded(n as nat, width as nat));
    out
}

/// The part of `s` behind its last `/` or `\`.
pub open spec fn base_name(s: Seq<char>) -> Seq<char>
    decreases s.len(),
{
    if s.len() == 0 {
        s
    } else if s.last() == '/' || s.last() == '\\' {
        Seq::empty()
    } else {
        base_name(s.drop_last()).push(s.last())
    }
}

/// The part of a path behind its last separator.
pub fn base_of(s: &[char]) -> (r: &[char])
    ensures
        r@ == base_name(s@),
{
    let n: usize = s.len();
    let mut from: usize = n;
    assert(s@.take(n as int) =~= s@);
    assert(s@.skip(n as int) =~= Seq::empty());
    while from > 0 && s[from - 1] != '/' && s[from - 1] != '\\'
        invariant
            from <= n,
            n == s@.len(),
            base_name(s@) == base_name(s@.take(from as int)) + s@.skip(from as int),
        decreases from,
    {
        proof {
            let t = s@.take(from as int);
            assert(t.last() == s@[from - 1]);
            assert(t.drop_last() =~= s@.take(from - 1));
            assert(base_name(t) + s@.skip(from as int) =~= base_name(s@.take(from - 1)) + s@.skip(
                from - 1,
            ));
        }
        from = from - 1;
    }
    proof {
        let t = s@.take(from as int);
        if from > 0 {
            assert(t.last() == s@[from - 1]);
        }
        assert(base_name(t) =~= Seq::empty());
    }
    let r: &[char] = slice_subrange(s, from, n);
    assert(r@ =~= s@.skip(from as int));
    assert(r@ =~= base_name(s@));
    r
}

/// Whether every character is white space.
pub open spec fn blank(s: Seq<char>) -> bool {
    forall|i: int| 0 <= i < s.len() ==> white(#[trigger] s[i])
}

proof fn lemma_trim_front(s: Seq<char>, t: Seq<char>)
    ensures
        trimmed_start(s + t) == if trimmed_start(s).len() > 0 {
            trimmed_start(s) + t
        } else {
            trimmed_start(t)
        },
    decreases s.len(),
{
    if s.len() == 0 {
        assert(s + t =~= t);
    } else if white(s.first()) {
        assert((s + t).drop_first() =~= s.drop_first() + t);
        lemma_trim_front(s.drop_first(), t);
    }
}

proof fn lemma_blank_front(s: Seq<char>)
    requires
        blank(s),
    ensures
        trimmed_start(s).len() == 0,
    decreases s.len(),
{
    if s.len() > 0 {
        assert(white(s[0]));
        assert forall|i: int| 0 <= i < s.drop_first().len() implies white(
            #[trigger] s.drop_first()[i],
        ) by {
            assert(white(s[i + 1]));
        }
        lemma_blank_front(s.drop_first());
    }
}

proof fn lemma_trim_back(s: Seq<char>, t: Seq<char>)
    requires
        blank(t),
    ensures
        stripped_end(s + t, |c: char| white(c)) == stripped_end(s, |c: char| white(c)),
    decreases t.len(),
{
    if t.len() == 0 {
        assert(s + t =~= s);
    } else {
        assert(white(t[t.len() - 1]));
        assert((s + t).drop_last() =~= s + t.drop_last());
        assert forall|i: int| 0 <= i < t.drop_last().len() implies white(
            #[trigger] t.drop_last()[i],
        ) by {
            assert(white(t[i]));
        }
        lemma_trim_back(s, t.drop_last());
    }
}

/// White space around a text makes no difference once it is trimmed.
pub proof fn trimming_drops_white_space(before: Seq<char>, s: Seq<char>, behind: Seq<char>)
    requires
        blank(before),
        blank(behind),
    ensures
        trimmed(before + s + behind) == trimmed(s),
{
    lemma_blank_front(before);
    assert(before + s + behind =~= before + (s + behind));
    lemma_trim_front(before, s + behind);
    lemma_trim_front(s, behind);
    if trimmed_start(s).len() > 0 {
        lemma_trim_back(trimmed_start(s), behind);
    } else {
        lemma_blank_front(behind);
    }
}

/// In lower case a character is white space, or a given one that is no letter,
/// exactly where it was before.
pub proof fn lower_keeps_kind(c: char, other: char)
    requires
        !('a' <= other && other <= 'z') && !('A' <= other && other <= 'Z'),
    ensures
        white(lower(c)) == white(c),
        lower(lower(c)) == lower(c),
        (lower(c) == other) == (c == other),
{
}

proof fn lemma_lower_trim_start(s: Seq<char>)
    ensures
        trimmed_start(lowered(s)) == lowered(trimmed_start(s)),
    decreases s.len(),
{
    if s.len() > 0 {
        lower_keeps_kind(s.first(), ' ');
        assert(lowered(s).first() == lower(s.first()));
        assert(lowered(s).drop_first() =~= lowered(s.drop_first()));
        lemma_lower_trim_start(s.drop_first());
    }
}

proof fn lemma_lower_trim_end(s: Seq<char>)
    ensures
        stripped_end(lowered(s), |c: char| white(c)) == lowered(
            stripped_end(s, |c: char| white(c)),
        ),
    decreases s.len(),
{
    if s.len() > 0 {
        lower_keeps_kind(s.last(), ' ');
        assert(lowered(s).last() == lower(s.last()));
        assert(lowered(s).drop_last() =~= lowered(s.drop_last()));
        lemma_lower_trim_end(s.drop_last());
    }
}

/// Trimming and lower case go in either order, and lower case comes once.
pub proof fn lower_case_trims(s: Seq<char>)
    ensures
        trimmed(lowered(s)) == lowered(trimmed(s)),
        lowered(lowered(s)) == lowered(s),
{
    lemma_lower_trim_start(s);
    lemma_lower_trim_end(trimmed_start(s));
    assert forall|i: int| 0 <= i < s.len() implies lowered(lowered(s))[i] == lowered(s)[i] by {
        lower_keeps_kind(s[i], ' ');
    }
    assert(lowered(lowered(s)) =~= lowered(s));
}

proof fn lemma_lower_first_of(s: Seq<char>, c: char)
    requires
        !('a' <= c && c <= 'z') && !('A' <= c && c <= 'Z'),
    ensures
        first_of(lowered(s), c) == first_of(s, c),
    decreases s.len(),
{
    if s.len() > 0 {
        lower_keeps_kind(s.first(), c);
        assert(lowered(s).first() == lower(s.first()));
        assert(lowered(s).drop_first() =~= lowered(s.drop_first()));
        lemma_lower_first_of(s.drop_first(), c);
    }
}

/// A text in lower case divides at the same places, unless at a letter.
pub proof fn lower_case_splits(s: Seq<char>, c: char)
    requires
        !('a' <= c && c <= 'z') && !('A' <= c && c <= 'Z'),
    ensures
        first_of(lowered(s), c) == first_of(s, c),
        parts(lowered(s), c) == parts(s, c).map_values(|p: Seq<char>| lowered(p)),
    decreases s.len(),
{
    lemma_lower_first_of(s, c);
    lemma_first_of(s, c);
    let n = first_of(s, c) as int;
    if n < s.len() {
        lower_case_splits(s.skip(n + 1), c);
        assert(lowered(s).take(n) =~= lowered(s.take(n)));
        assert(lowered(s).skip(n + 1) =~= lowered(s.skip(n + 1)));
    }
    assert(parts(lowered(s), c) =~= parts(s, c).map_values(|p: Seq<char>| lowered(p)));
}

/// A text in lower case takes as many bytes.
pub proof fn lower_case_keeps_size(s: Seq<char>)
    ensures
        encode_utf8(lowered(s)).len() == encode_utf8(s).len(),
    decreases s.len(),
{
    if s.len() > 0 {
        assert(lowered(s)[0] == lower(s[0]));
        assert(lowered(s).drop_first() =~= lowered(s.drop_first()));
        lower_case_keeps_size(s.drop_first());
        if 'A' <= s[0] && s[0] <= 'Z' {
            assert(has_width_1_encoding(s[0] as u32));
            assert(has_width_1_encoding(lower(s[0]) as u32));
        }
    }
}

/// A name without separators is its own base name.
pub proof fn plain_names_stay(s: Seq<char>)
    requires
        free_of(s, '/'),
        free_of(s, '\\'),
    ensures
        base_name(s) == s,
    decreases s.len(),
{
    if s.len() > 0 {
        plain_names_stay(s.drop_last());
        assert(s.drop_last().push(s.last()) =~= s);
    }
}

/// Directories before a name make no difference to its base name.
pub proof fn directories_are_dropped(dir: Seq<char>, sep: char, name: Seq<char>)
    requires
        sep == '/' || sep == '\\',
        free_of(name, '/'),
        free_of(name, '\\'),
    ensures
        base_name(dir + seq![sep] + name) == name,
    decreases name.len(),
{
    let all = dir + seq![sep] + name;
    if name.len() == 0 {
        assert(all.last() == sep);
    } else {
        let front = name.drop_last();
        directories_are_dropped(dir, sep, front);
        assert(all.drop_last() =~= dir + seq![sep] + front);
        assert(front.push(name.last()) =~= name);
    }
}

} // verus!
