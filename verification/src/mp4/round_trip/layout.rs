//! How boxes are laid out: what is read of the bytes that the format prescribes,
//! and where the tables of a track place its samples.

use super::{at, lemma_at_be32, lemma_at_be64, lemma_at_longs, lemma_at_split, lemma_at_words};
use crate::bytes;
use crate::mp4;
use crate::mp4::builder;
use crate::mp4::builder::Plan;
use crate::mp4::table;
use crate::mp4::table::Tables;
use crate::mp4::{Extent, Span};
use crate::text;
use crate::time::Moment;
use vstd::prelude::*;

verus! {

/// The code of four characters.
pub open spec fn code(a: char, b: char, c: char, d: char) -> int {
    ((a as int * 256 + b as int) * 256 + c as int) * 256 + d as int
}

/// The kinds of boxes are the codes of their names.
pub proof fn kinds_have_names()
    ensures
        mp4::MOOV == code('m', 'o', 'o', 'v'),
        mp4::MVHD == code('m', 'v', 'h', 'd'),
        mp4::UDTA == code('u', 'd', 't', 'a'),
        mp4::TRAK == code('t', 'r', 'a', 'k'),
        mp4::TKHD == code('t', 'k', 'h', 'd'),
        mp4::MDIA == code('m', 'd', 'i', 'a'),
        mp4::MDHD == code('m', 'd', 'h', 'd'),
        mp4::HDLR == code('h', 'd', 'l', 'r'),
        mp4::MINF == code('m', 'i', 'n', 'f'),
        mp4::STBL == code('s', 't', 'b', 'l'),
        mp4::STSD == code('s', 't', 's', 'd'),
        mp4::STSZ == code('s', 't', 's', 'z'),
        mp4::STCO == code('s', 't', 'c', 'o'),
        mp4::CO64 == code('c', 'o', '6', '4'),
        mp4::STSC == code('s', 't', 's', 'c'),
        mp4::STTS == code('s', 't', 't', 's'),
        builder::FTYP == code('f', 't', 'y', 'p'),
        builder::MDAT == code('m', 'd', 'a', 't'),
{
}

/// The bytes of a box, which lie within `buf`.
pub open spec fn holds(buf: Seq<u8>, start: int, end: int, payload: Seq<u8>) -> bool {
    0 <= start <= end <= buf.len() && buf.subrange(start, end) == payload
}

proof fn lemma_holds(buf: Seq<u8>, start: int, end: int, a: Seq<u8>, b: Seq<u8>)
    requires
        holds(buf, start, end, a + b),
    ensures
        end - start == a.len() + b.len(),
        at(buf, start, a),
        at(buf, start + a.len(), b),
        holds(buf, start + a.len(), end, b),
{
    assert(buf.subrange(start, end).len() == (a + b).len());
    assert(end == start + (a + b).len());
    lemma_at_split(buf, start, a, b);
    assert(buf.subrange(start + a.len(), end) == b);
}

/// A payload of four bytes, a count, and 32-bit integers.
proof fn lemma_counted(
    buf: Seq<u8>,
    b: Span,
    head: Seq<u8>,
    count: u32,
    words: Seq<u32>,
    rest: Seq<u8>,
)
    requires
        head.len() == 4,
        holds(
            buf,
            b.start,
            b.end,
            head + (bytes::be32_bytes(count) + (builder::words_bytes(words) + rest)),
        ),
    ensures
        b.end - b.start == 8 + 4 * words.len() + rest.len(),
        bytes::be32(buf, b.start + 4) == count,
        forall|i: int|
            0 <= i < words.len() ==> #[trigger] bytes::be32(buf, b.start + 8 + 4 * i) == words[i],
{
    let tail = builder::words_bytes(words) + rest;
    lemma_holds(buf, b.start, b.end, head, bytes::be32_bytes(count) + tail);
    lemma_holds(buf, b.start + 4, b.end, bytes::be32_bytes(count), tail);
    lemma_at_be32(buf, b.start + 4, count);
    lemma_holds(buf, b.start + 8, b.end, builder::words_bytes(words), rest);
    lemma_at_words(buf, b.start + 8, words);
}

/// A table of 32-bit chunk offsets gives exactly the offsets that are written in it,
/// in order: behind four bytes, their number and then themselves.
pub proof fn chunk_offsets_read_back(
    t: Tables,
    buf: Seq<u8>,
    b: Span,
    head: Seq<u8>,
    offsets: Seq<u32>,
    rest: Seq<u8>,
)
    requires
        b.kind == code('s', 't', 'c', 'o'),
        head.len() == 4,
        offsets.len() <= u32::MAX,
        holds(
            buf,
            b.start,
            b.end,
            head + (bytes::be32_bytes(offsets.len() as u32) + (builder::words_bytes(offsets)
                + rest)),
        ),
    ensures
        table::with_box(t, buf, b) == Ok::<Tables, Seq<char>>(
            Tables { chunks: offsets.map_values(|o: u32| o as u64), ..t },
        ),
{
    lemma_counted(buf, b, head, offsets.len() as u32, offsets, rest);
    let got = table::long_words(buf, b.start + 8, offsets.len());
    assert forall|i: int| 0 <= i < offsets.len() implies #[trigger] got[i] == offsets[i] as u64 by {
        assert(bytes::be32(buf, b.start + 8 + 4 * i) == offsets[i]);
    }
    assert(got =~= offsets.map_values(|o: u32| o as u64));
}

/// A table of 64-bit chunk offsets gives exactly the offsets that are written in it,
/// in order.
pub proof fn long_chunk_offsets_read_back(
    t: Tables,
    buf: Seq<u8>,
    b: Span,
    head: Seq<u8>,
    offsets: Seq<u64>,
    rest: Seq<u8>,
)
    requires
        b.kind == code('c', 'o', '6', '4'),
        head.len() == 4,
        offsets.len() <= u32::MAX,
        holds(
            buf,
            b.start,
            b.end,
            head + (bytes::be32_bytes(offsets.len() as u32) + (builder::longs_bytes(offsets)
                + rest)),
        ),
    ensures
        table::with_box(t, buf, b) == Ok::<Tables, Seq<char>>(Tables { chunks: offsets, ..t }),
{
    let count = bytes::be32_bytes(offsets.len() as u32);
    let tail = builder::longs_bytes(offsets) + rest;
    lemma_holds(buf, b.start, b.end, head, count + tail);
    lemma_holds(buf, b.start + 4, b.end, count, tail);
    lemma_at_be32(buf, b.start + 4, offsets.len() as u32);
    lemma_holds(buf, b.start + 8, b.end, builder::longs_bytes(offsets), rest);
    lemma_at_longs(buf, b.start + 8, offsets);
    let got = table::longs(buf, b.start + 8, offsets.len());
    assert forall|i: int| 0 <= i < offsets.len() implies #[trigger] got[i] == offsets[i] by {
        assert(bytes::be64(buf, b.start + 8 + 8 * i) == offsets[i]);
    }
    assert(got =~= offsets);
}

/// Chunk offsets in 32 and in 64 bits place the samples alike.
pub proof fn offsets_of_both_widths_agree(
    t: Tables,
    short: Seq<u8>,
    a: Span,
    long: Seq<u8>,
    b: Span,
    head: Seq<u8>,
    offsets: Seq<u32>,
    rest: Seq<u8>,
)
    requires
        a.kind == code('s', 't', 'c', 'o'),
        b.kind == code('c', 'o', '6', '4'),
        head.len() == 4,
        offsets.len() <= u32::MAX,
        holds(
            short,
            a.start,
            a.end,
            head + (bytes::be32_bytes(offsets.len() as u32) + (builder::words_bytes(offsets)
                + rest)),
        ),
        holds(
            long,
            b.start,
            b.end,
            head + (bytes::be32_bytes(offsets.len() as u32) + (builder::longs_bytes(
                offsets.map_values(|o: u32| o as u64),
            ) + rest)),
        ),
    ensures
        table::with_box(t, short, a) is Ok,
        table::with_box(t, short, a) == table::with_box(t, long, b),
        table::offsets_of(table::with_box(t, short, a)->Ok_0) == table::offsets_of(
            table::with_box(t, long, b)->Ok_0,
        ),
{
    chunk_offsets_read_back(t, short, a, head, offsets, rest);
    long_chunk_offsets_read_back(t, long, b, head, offsets.map_values(|o: u32| o as u64), rest);
}

/// A table of sample sizes: one size for all, or behind a 0 and their number the size
/// of each.
pub proof fn sample_sizes_read_back(
    t: Tables,
    buf: Seq<u8>,
    b: Span,
    head: Seq<u8>,
    size: u32,
    count: u32,
    sizes: Seq<u32>,
    rest: Seq<u8>,
)
    requires
        b.kind == code('s', 't', 's', 'z'),
        head.len() == 4,
        holds(
            buf,
            b.start,
            b.end,
            head + (bytes::be32_bytes(size) + (builder::words_bytes(seq![count] + sizes) + rest)),
        ),
    ensures
        size == 0 && sizes.len() == count ==> table::with_box(t, buf, b) == Ok::<Tables, Seq<char>>(
            Tables { sizes, ..t },
        ),
        size != 0 ==> table::with_box(t, buf, b) == Ok::<Tables, Seq<char>>(
            Tables { sizes: Seq::new(count as nat, |i: int| size), ..t },
        ),
{
    let words = seq![count] + sizes;
    lemma_counted(buf, b, head, size, words, rest);
    assert(bytes::be32(buf, b.start + 8 + 4 * 0) == words[0]);
    if size == 0 && sizes.len() == count {
        let got = table::words(buf, b.start + 12, count as nat);
        assert forall|i: int| 0 <= i < sizes.len() implies #[trigger] got[i] == sizes[i] by {
            assert(bytes::be32(buf, b.start + 8 + 4 * (i + 1)) == words[i + 1]);
        }
        assert(got =~= sizes);
    }
}

/// A chunk table gives the first chunk and the samples in a chunk of each entry,
/// which has three numbers.
pub proof fn chunk_runs_read_back(
    t: Tables,
    buf: Seq<u8>,
    b: Span,
    head: Seq<u8>,
    n: u32,
    words: Seq<u32>,
    rest: Seq<u8>,
)
    requires
        b.kind == code('s', 't', 's', 'c'),
        head.len() == 4,
        words.len() == 3 * n,
        holds(
            buf,
            b.start,
            b.end,
            head + (bytes::be32_bytes(n) + (builder::words_bytes(words) + rest)),
        ),
    ensures
        table::with_box(t, buf, b) == Ok::<Tables, Seq<char>>(
            Tables { runs: Seq::new(n as nat, |i: int| (words[3 * i], words[3 * i + 1])), ..t },
        ),
{
    lemma_counted(buf, b, head, n, words, rest);
    let got = table::pairs(buf, b.start + 8, n as nat, 12);
    let want = Seq::new(n as nat, |i: int| (words[3 * i], words[3 * i + 1]));
    assert forall|i: int| 0 <= i < n implies #[trigger] got[i] == want[i] by {
        assert(bytes::be32(buf, b.start + 8 + 4 * (3 * i)) == words[3 * i]);
        assert(bytes::be32(buf, b.start + 8 + 4 * (3 * i + 1)) == words[3 * i + 1]);
    }
    assert(got =~= want);
}

/// A table of durations gives the number of samples and the duration of each entry,
/// which has two numbers.
pub proof fn durations_read_back(
    t: Tables,
    buf: Seq<u8>,
    b: Span,
    head: Seq<u8>,
    n: u32,
    words: Seq<u32>,
    rest: Seq<u8>,
)
    requires
        b.kind == code('s', 't', 't', 's'),
        head.len() == 4,
        words.len() == 2 * n,
        holds(
            buf,
            b.start,
            b.end,
            head + (bytes::be32_bytes(n) + (builder::words_bytes(words) + rest)),
        ),
    ensures
        table::with_box(t, buf, b) == Ok::<Tables, Seq<char>>(
            Tables { deltas: Seq::new(n as nat, |i: int| (words[2 * i], words[2 * i + 1])), ..t },
        ),
{
    lemma_counted(buf, b, head, n, words, rest);
    let got = table::pairs(buf, b.start + 8, n as nat, 8);
    let want = Seq::new(n as nat, |i: int| (words[2 * i], words[2 * i + 1]));
    assert forall|i: int| 0 <= i < n implies #[trigger] got[i] == want[i] by {
        assert(bytes::be32(buf, b.start + 8 + 4 * (2 * i)) == words[2 * i]);
        assert(bytes::be32(buf, b.start + 8 + 4 * (2 * i + 1)) == words[2 * i + 1]);
    }
    assert(got =~= want);
}

/// A sample description gives the four bytes of its first entry's format, which
/// stand behind twelve others.
pub proof fn formats_read_back(
    t: Tables,
    buf: Seq<u8>,
    b: Span,
    head: Seq<u8>,
    fourcc: Seq<u8>,
    rest: Seq<u8>,
)
    requires
        b.kind == code('s', 't', 's', 'd'),
        head.len() == 12,
        fourcc.len() == 4,
        holds(buf, b.start, b.end, head + (fourcc + rest)),
    ensures
        table::with_box(t, buf, b) == Ok::<Tables, Seq<char>>(
            Tables { fourcc: Some(text::utf8_lossy(fourcc)), ..t },
        ),
{
    lemma_holds(buf, b.start, b.end, head, fourcc + rest);
    lemma_holds(buf, b.start + 12, b.end, fourcc, rest);
}

/// A table that is shorter than its number of entries says is an error, whatever its
/// kind; a box of another kind changes nothing.
pub proof fn short_tables_are_errors(t: Tables, buf: Seq<u8>, b: Span, head: Seq<u8>, n: u32, rest: Seq<u8>)
    requires
        head.len() == 4,
        holds(buf, b.start, b.end, head + (bytes::be32_bytes(n) + rest)),
    ensures
        b.kind == code('s', 't', 'c', 'o') ==> (table::with_box(t, buf, b) is Err <==> rest.len() < 4
            * n),
        b.kind == code('c', 'o', '6', '4') ==> (table::with_box(t, buf, b) is Err <==> rest.len() < 8
            * n),
        b.kind == code('s', 't', 's', 'c') ==> (table::with_box(t, buf, b) is Err <==> rest.len()
            < 12 * n),
        b.kind == code('s', 't', 't', 's') ==> (table::with_box(t, buf, b) is Err <==> rest.len() < 8
            * n),
        b.kind != code('s', 't', 'c', 'o') && b.kind != code('c', 'o', '6', '4') && b.kind != code(
            's',
            't',
            's',
            'c',
        ) && b.kind != code('s', 't', 't', 's') && b.kind != code('s', 't', 's', 'z') && b.kind
            != code('s', 't', 's', 'd') ==> table::with_box(t, buf, b) == Ok::<Tables, Seq<char>>(t),
{
    lemma_holds(buf, b.start, b.end, head, bytes::be32_bytes(n) + rest);
    lemma_holds(buf, b.start + 4, b.end, bytes::be32_bytes(n), rest);
    lemma_at_be32(buf, b.start + 4, n);
}

/// The identity of a track and the time scale of its media: behind the two times of a
/// full box, which have 32 bits in version 0 and 64 in version 1.
pub proof fn versioned_words_read_back(
    buf: Seq<u8>,
    start: int,
    end: int,
    version: u8,
    flags: Seq<u8>,
    times: Seq<u8>,
    word: u32,
    rest: Seq<u8>,
)
    requires
        flags.len() == 3,
        version == 1 ==> times.len() == 16,
        version != 1 ==> times.len() == 8,
        holds(buf, start, end, seq![version] + (flags + (times + (bytes::be32_bytes(word) + rest)))),
    ensures
        mp4::versioned_word(buf, start) == Some(word),
{
    let tail = bytes::be32_bytes(word) + rest;
    lemma_holds(buf, start, end, seq![version], flags + (times + tail));
    lemma_holds(buf, start + 1, end, flags, times + tail);
    lemma_holds(buf, start + 4, end, times, tail);
    lemma_holds(buf, start + 4 + times.len(), end, bytes::be32_bytes(word), rest);
    lemma_at_be32(buf, start + 4 + times.len(), word);
    assert(buf[start] == buf.subrange(start, start + 1)[0]);
}

/// The header of a movie with 32-bit times: the creation time, another time, the time
/// scale and the duration.
pub proof fn movie_headers_read_back(
    buf: Seq<u8>,
    b: Extent,
    version: u8,
    flags: Seq<u8>,
    created: u32,
    modified: u32,
    timescale: u32,
    duration: u32,
    rest: Seq<u8>,
)
    requires
        flags.len() == 3,
        version != 1,
        holds(
            buf,
            b.start,
            b.end,
            (seq![version] + flags) + (builder::words_bytes(
                seq![created, modified, timescale, duration],
            ) + rest),
        ),
    ensures
        mp4::header_times(buf, Some(b)) == (created as u64, timescale, duration as u64),
{
    let words = seq![created, modified, timescale, duration];
    let head = seq![version] + flags;
    lemma_holds(buf, b.start, b.end, head, builder::words_bytes(words) + rest);
    lemma_holds(buf, b.start + 4, b.end, builder::words_bytes(words), rest);
    lemma_at_words(buf, b.start + 4, words);
    assert(buf[b.start] == buf.subrange(b.start, b.start + 4)[0]);
    assert(bytes::be32(buf, b.start + 4 + 4 * 0) == words[0]);
    assert(bytes::be32(buf, b.start + 4 + 4 * 2) == words[2]);
    assert(bytes::be32(buf, b.start + 4 + 4 * 3) == words[3]);
}

/// The header of a movie with 64-bit times.
pub proof fn long_movie_headers_read_back(
    buf: Seq<u8>,
    b: Extent,
    flags: Seq<u8>,
    created: u64,
    modified: u64,
    timescale: u32,
    duration: u64,
    rest: Seq<u8>,
)
    requires
        flags.len() == 3,
        holds(
            buf,
            b.start,
            b.end,
            (seq![1u8] + flags) + (bytes::be64_bytes(created) + (bytes::be64_bytes(modified) + (
            bytes::be32_bytes(timescale) + (bytes::be64_bytes(duration) + rest)))),
        ),
    ensures
        mp4::header_times(buf, Some(b)) == (created, timescale, duration),
{
    let head = seq![1u8] + flags;
    let e = bytes::be64_bytes(duration) + rest;
    let d = bytes::be32_bytes(timescale) + e;
    let c = bytes::be64_bytes(modified) + d;
    lemma_holds(buf, b.start, b.end, head, bytes::be64_bytes(created) + c);
    lemma_holds(buf, b.start + 4, b.end, bytes::be64_bytes(created), c);
    lemma_holds(buf, b.start + 12, b.end, bytes::be64_bytes(modified), d);
    lemma_holds(buf, b.start + 20, b.end, bytes::be32_bytes(timescale), e);
    lemma_holds(buf, b.start + 24, b.end, bytes::be64_bytes(duration), rest);
    lemma_at_be64(buf, b.start + 4, created);
    lemma_at_be32(buf, b.start + 20, timescale);
    lemma_at_be64(buf, b.start + 24, duration);
    assert(buf[b.start] == buf.subrange(b.start, b.start + 4)[0]);
}

proof fn lemma_until_zero(name: Seq<u8>, rest: Seq<u8>)
    requires
        forall|i: int| 0 <= i < name.len() ==> name[i] != 0,
    ensures
        mp4::until_zero(name + (seq![0u8] + rest)) == name,
    decreases name.len(),
{
    let s = name + (seq![0u8] + rest);
    if name.len() > 0 {
        let tail = name.drop_first();
        lemma_until_zero(tail, rest);
        assert(s.drop_first() =~= tail + (seq![0u8] + rest));
        assert(seq![name[0]] + tail =~= name);
    }
}

/// The name of a handler ends before its first zero byte. A first byte that says how
/// many follow is not part of it.
pub proof fn handler_names_read_back(name: Seq<u8>, rest: Seq<u8>)
    requires
        forall|i: int| 0 <= i < name.len() ==> name[i] != 0,
    ensures
        name.len() == 0 || name[0] != name.len() - 1 ==> mp4::name_bytes(
            name + (seq![0u8] + rest),
        ) == name,
        name.len() > 0 && name.len() <= 255 ==> mp4::name_bytes(
            (seq![name.len() as u8] + name) + (seq![0u8] + rest),
        ) == name,
{
    lemma_until_zero(name, rest);
    if 0 < name.len() <= 255 {
        let counted = seq![name.len() as u8] + name;
        lemma_until_zero(counted, rest);
        assert(counted.drop_first() =~= name);
    }
}

/// The type of a handler is told by four bytes behind eight others, and its name
/// behind another twelve.
pub proof fn handlers_read_back(
    buf: Seq<u8>,
    b: Extent,
    head: Seq<u8>,
    kind: Seq<u8>,
    gap: Seq<u8>,
    name: Seq<u8>,
)
    requires
        head.len() == 8,
        kind.len() == 4,
        gap.len() == 12,
        holds(buf, b.start, b.end, head + (kind + (gap + name))),
    ensures
        mp4::handler(buf, Some(b)) == (
            text::utf8_lossy(kind),
            text::trimmed(text::utf8_lossy(mp4::name_bytes(name))),
        ),
{
    lemma_holds(buf, b.start, b.end, head, kind + (gap + name));
    lemma_holds(buf, b.start + 8, b.end, kind, gap + name);
    lemma_holds(buf, b.start + 12, b.end, gap, name);
}

/// The times of a container count seconds from 1904, which is 66 years of 365 days
/// and 17 leap days before 1970; 0 tells none.
pub proof fn container_times_count_from_1904(seconds: u64, m: Moment)
    ensures
        mp4::moment_1904(0) is None,
        0 < seconds < 0x8000_0000 ==> mp4::moment_1904(seconds) is Some,
        seconds < 0x8000_0000_0000_0000 && mp4::moment_1904(seconds) == Some(m) ==> m.nanos == 0
            && m.secs + (66 * 365 + 17) * 86_400 == seconds,
{
}

/// A box with its size in 32 bits: behind the size and the kind stands what it holds.
pub proof fn short_boxes_read_back(size: u32, kind: u32, payload: Seq<u8>, rest: Seq<u8>)
    requires
        size == payload.len() + 8,
    ensures
        mp4::first_box(
            bytes::be32_bytes(size) + (bytes::be32_bytes(kind) + (payload + rest)),
        ) == Some((8int, payload.len() + 8int)),
{
    let b = bytes::be32_bytes(kind) + (payload + rest);
    let s = bytes::be32_bytes(size) + b;
    assert(s.subrange(0, s.len() as int) =~= s);
    lemma_holds(s, 0, s.len() as int, bytes::be32_bytes(size), b);
    lemma_at_be32(s, 0, size);
}

/// A box with its size in 64 bits: the size of 32 bits is 1, and the other stands
/// behind the kind.
pub proof fn long_boxes_read_back(size: u64, kind: u32, payload: Seq<u8>, rest: Seq<u8>)
    requires
        size == payload.len() + 16,
    ensures
        mp4::first_box(
            bytes::be32_bytes(1) + (bytes::be32_bytes(kind) + (bytes::be64_bytes(size) + (payload
                + rest))),
        ) == Some((16int, payload.len() + 16int)),
{
    let c = bytes::be64_bytes(size) + (payload + rest);
    let b = bytes::be32_bytes(kind) + c;
    let s = bytes::be32_bytes(1) + b;
    assert(s.subrange(0, s.len() as int) =~= s);
    lemma_holds(s, 0, s.len() as int, bytes::be32_bytes(1), b);
    lemma_holds(s, 4, s.len() as int, bytes::be32_bytes(kind), c);
    lemma_holds(s, 8, s.len() as int, bytes::be64_bytes(size), payload + rest);
    lemma_at_be32(s, 0, 1);
    lemma_at_be64(s, 8, size);
}

/// A box whose size is 0 reaches to the end.
pub proof fn open_boxes_read_back(kind: u32, payload: Seq<u8>)
    ensures
        mp4::first_box(bytes::be32_bytes(0) + (bytes::be32_bytes(kind) + payload)) == Some(
            (8int, payload.len() + 8int),
        ),
{
    let b = bytes::be32_bytes(kind) + payload;
    let s = bytes::be32_bytes(0) + b;
    assert(s.subrange(0, s.len() as int) =~= s);
    lemma_holds(s, 0, s.len() as int, bytes::be32_bytes(0), b);
    lemma_at_be32(s, 0, 0);
}

/// A box lies within its container, and one without a whole header is none.
pub proof fn boxes_are_whole(s: Seq<u8>)
    ensures
        s.len() < 8 ==> mp4::first_box(s) is None,
        mp4::first_box(s) is Some ==> mp4::first_box(s)->Some_0.0 <= mp4::first_box(s)->Some_0.1
            <= s.len(),
{
}

/// The number of samples in the chunk `c`, counted from 1: that of the last entry
/// that begins at it or before it.
pub open spec fn chunk_len(runs: Seq<(u32, u32)>, c: int) -> int
    decreases runs.len(),
{
    if runs.len() == 0 {
        0
    } else if runs.last().0 <= c {
        runs.last().1 as int
    } else {
        chunk_len(runs.drop_last(), c)
    }
}

/// The number of samples in the chunks before the chunk `c`.
pub open spec fn samples_before(runs: Seq<(u32, u32)>, c: int) -> int
    decreases c,
{
    if c <= 1 {
        0
    } else {
        samples_before(runs, c - 1) + chunk_len(runs, c - 1)
    }
}

/// Whether the entries of a chunk table go up, from the first chunk or a later one.
pub open spec fn ascends(t: Tables) -> bool {
    &&& t.runs.len() > 0 ==> t.runs[0].0 >= 1
    &&& forall|i: int, j: int|
        0 <= i < j < t.runs.len() ==> (#[trigger] t.runs[i]).0 < (#[trigger] t.runs[j]).0
}

proof fn lemma_chunk_len(runs: Seq<(u32, u32)>, k: int, c: int)
    requires
        0 <= k < runs.len(),
        runs[k].0 <= c,
        k + 1 < runs.len() ==> c < runs[k + 1].0,
        forall|i: int, j: int|
            0 <= i < j < runs.len() ==> (#[trigger] runs[i]).0 < (#[trigger] runs[j]).0,
    ensures
        chunk_len(runs, c) == runs[k].1,
    decreases runs.len(),
{
    let n = runs.len() - 1;
    if k < n {
        if k + 1 < n {
            assert(runs[k + 1].0 < runs[n].0);
        }
        let front = runs.drop_last();
        assert forall|i: int, j: int| 0 <= i < j < front.len() implies (#[trigger] front[i]).0 < (
        #[trigger] front[j]).0 by {
            assert(runs[i].0 < runs[j].0);
        }
        lemma_chunk_len(front, k, c);
    }
}

/// The samples of the first `c` chunks.
spec fn up_to(t: Tables, c: nat) -> Seq<u64>
    decreases c,
{
    if c == 0 {
        Seq::empty()
    } else {
        let before = up_to(t, (c - 1) as nat);
        table::with_samples(
            before,
            t.sizes,
            t.chunks[c - 1],
            table::least(chunk_len(t.runs, c as int), t.sizes.len() - before.len()) as nat,
        )
    }
}

proof fn lemma_chunk_len_bound(runs: Seq<(u32, u32)>, c: int)
    ensures
        chunk_len(runs, c) >= 0,
    decreases runs.len(),
{
    if runs.len() > 0 {
        lemma_chunk_len_bound(runs.drop_last(), c);
    }
}

/// Where the samples of the first `c` chunks lie.
proof fn lemma_up_to(t: Tables, c: nat)
    ensures
        up_to(t, c).len() == table::least(
            samples_before(t.runs, c + 1int),
            t.sizes.len() as int,
        ),
        samples_before(t.runs, c + 1int) >= 0,
        forall|d: int, j: int|
            1 <= d <= c && samples_before(t.runs, d) <= j < samples_before(t.runs, d + 1) && j
                < t.sizes.len() ==> up_to(t, c)[j] == #[trigger] placed_at(t, d, j),
    decreases c,
{
    if c > 0 {
        let b = (c - 1) as nat;
        lemma_up_to(t, b);
        lemma_chunk_len_bound(t.runs, c as int);
        let before = up_to(t, b);
        let now = up_to(t, c);
        assert forall|d: int, j: int|
            1 <= d <= c && samples_before(t.runs, d) <= j < samples_before(t.runs, d + 1) && j
                < t.sizes.len() implies now[j] == #[trigger] placed_at(t, d, j) by {
            lemma_before_grows(t.runs, 1, d);
            if d < c {
                lemma_before_grows(t.runs, d + 1, c as int);
                assert(j < before.len());
                assert(now[j] == before[j]);
                assert(before[j] == placed_at(t, d, j));
            } else {
                assert(before.len() == samples_before(t.runs, c as int));
            }
        }
    }
}

proof fn lemma_before_grows(runs: Seq<(u32, u32)>, a: int, b: int)
    requires
        a <= b,
    ensures
        samples_before(runs, a) <= samples_before(runs, b),
    decreases b - a,
{
    if a < b {
        lemma_before_grows(runs, a, b - 1);
        lemma_chunk_len_bound(runs, b - 1);
    }
}

/// The offset of the sample `j` in the chunk `c`: that of the chunk and the sizes of
/// the samples before it in the chunk.
pub open spec fn placed_at(t: Tables, c: int, j: int) -> u64 {
    ((t.chunks[c - 1] + table::size_sum(t.sizes, samples_before(t.runs, c), j))
        % 0x1_0000_0000_0000_0000) as u64
}

proof fn lemma_run(t: Tables, k: int, count: nat)
    requires
        ascends(t),
        0 <= k < t.runs.len(),
        t.runs[k].0 >= 1,
        count <= table::run_count(t, k),
    ensures
        table::with_chunks(
            up_to(t, (t.runs[k].0 - 1) as nat),
            t,
            t.runs[k].0 as int,
            t.runs[k].1,
            count,
        ) == up_to(t, (t.runs[k].0 - 1 + count) as nat),
    decreases count,
{
    if count > 0 {
        lemma_run(t, k, (count - 1) as nat);
        lemma_chunk_len(t.runs, k, t.runs[k].0 + count - 1);
    }
}

/// The last chunk before the entry `k`, as far as there are chunks.
spec fn bound(t: Tables, k: nat) -> int {
    if k < t.runs.len() {
        table::least(t.runs[k as int].0 - 1, t.chunks.len() as int)
    } else {
        t.chunks.len() as int
    }
}

proof fn lemma_no_samples(runs: Seq<(u32, u32)>, c: int)
    requires
        forall|i: int| 0 <= i < runs.len() ==> c < (#[trigger] runs[i]).0,
    ensures
        chunk_len(runs, c) == 0,
    decreases runs.len(),
{
    if runs.len() > 0 {
        assert(c < runs[runs.len() - 1].0);
        let front = runs.drop_last();
        assert forall|i: int| 0 <= i < front.len() implies c < (#[trigger] front[i]).0 by {
            assert(c < runs[i].0);
        }
        lemma_no_samples(front, c);
    }
}

proof fn lemma_before_the_first(t: Tables, c: nat)
    requires
        ascends(t),
        t.runs.len() > 0 ==> c < t.runs[0].0,
    ensures
        up_to(t, c) == Seq::<u64>::empty(),
    decreases c,
{
    if c > 0 {
        lemma_before_the_first(t, (c - 1) as nat);
        assert forall|i: int| 0 <= i < t.runs.len() implies c < (#[trigger] t.runs[i]).0 by {
            if i > 0 {
                assert(t.runs[0].0 < t.runs[i].0);
            }
        }
        lemma_no_samples(t.runs, c as int);
        assert(up_to(t, c) =~= Seq::empty());
    }
}

proof fn lemma_placed(t: Tables, k: nat)
    requires
        ascends(t),
        k <= t.runs.len(),
    ensures
        bound(t, k) >= 0,
        table::placed(t, k) == up_to(t, bound(t, k) as nat),
    decreases k,
{
    if 0 < k < t.runs.len() {
        assert(t.runs[0].0 < t.runs[k as int].0);
    }
    if k == 0 {
        lemma_before_the_first(t, bound(t, 0) as nat);
    } else {
        let last = k - 1;
        lemma_placed(t, last as nat);
        if last > 0 {
            assert(t.runs[0].0 < t.runs[last].0);
        }
        if k < t.runs.len() {
            assert(t.runs[last].0 < t.runs[k as int].0);
        }
        if table::stopped(t, last as nat) {
            let j = choose|j: int| 0 <= j < last && #[trigger] table::run_stops(t, j);
            if j > 0 {
                assert(t.runs[0].0 < t.runs[j].0);
            }
            assert(t.runs[j].0 < t.runs[j + 1].0);
            if j + 1 < last {
                assert(t.runs[j + 1].0 < t.runs[last].0);
            }
        } else if t.runs[last].0 <= t.chunks.len() {
            lemma_run(t, last, table::run_count(t, last));
        }
    }
}

/// Every sample lies in its chunk, behind the samples before it there: chunks are
/// filled in order, each with the number of samples that the last entry at it or
/// before it says, as long as there are samples.
pub proof fn samples_lie_in_their_chunks(t: Tables, c: int, j: int)
    requires
        ascends(t),
        1 <= c <= t.chunks.len(),
        samples_before(t.runs, c) <= j < samples_before(t.runs, c + 1),
        0 <= j < t.sizes.len(),
    ensures
        j < table::offsets_of(t).len(),
        table::offsets_of(t)[j] == placed_at(t, c, j),
        j == samples_before(t.runs, c) ==> table::offsets_of(t)[j] == t.chunks[c - 1],
        j > samples_before(t.runs, c) ==> table::offsets_of(t)[j] == (table::offsets_of(t)[j - 1]
            + t.sizes[j - 1]) % 0x1_0000_0000_0000_0000,
{
    lemma_placed(t, t.runs.len());
    lemma_up_to(t, t.chunks.len());
    lemma_before_grows(t.runs, c + 1, t.chunks.len() + 1int);
    assert(table::offsets_of(t)[j] == placed_at(t, c, j));
    if j > samples_before(t.runs, c) {
        assert(table::offsets_of(t)[j - 1] == placed_at(t, c, j - 1));
        let from = samples_before(t.runs, c);
        let a = t.chunks[c - 1] + table::size_sum(t.sizes, from, j - 1);
        lemma_sum_positive(t.sizes, from, j - 1);
        vstd::arithmetic::div_mod::lemma_add_mod_noop(
            a,
            t.sizes[j - 1] as int,
            0x1_0000_0000_0000_0000,
        );
        assert((a % 0x1_0000_0000_0000_0000 + t.sizes[j - 1]) % 0x1_0000_0000_0000_0000 == (a
            + t.sizes[j - 1]) % 0x1_0000_0000_0000_0000) by {
            vstd::arithmetic::div_mod::lemma_add_mod_noop_right(
                t.sizes[j - 1] as int,
                a,
                0x1_0000_0000_0000_0000,
            );
        }
    }
}

proof fn lemma_sum_positive(sizes: Seq<u32>, from: int, to: int)
    ensures
        table::size_sum(sizes, from, to) >= 0,
    decreases to - from,
{
    if from < to {
        lemma_sum_positive(sizes, from, to - 1);
    }
}

/// A chunk table that begins with a chunk 0, which does not exist, places nothing.
pub proof fn chunks_count_from_1(t: Tables)
    requires
        t.runs.len() > 0,
        t.runs[0].0 == 0,
    ensures
        table::offsets_of(t).len() == 0,
{
    lemma_nothing_placed(t, t.runs.len());
}

proof fn lemma_nothing_placed(t: Tables, k: nat)
    requires
        t.runs.len() > 0,
        t.runs[0].0 == 0,
        k <= t.runs.len(),
    ensures
        table::placed(t, k).len() == 0,
    decreases k,
{
    if k > 0 {
        lemma_nothing_placed(t, (k - 1) as nat);
        if k > 1 {
            assert(table::run_stops(t, 0));
            assert(table::stopped(t, (k - 1) as nat));
        }
    }
}

/// Where there are samples or not, a track keeps its headers; its samples are those
/// that were placed, with the first of the sizes, and as many times as the table has.
pub proof fn tracks_take_their_tables(t: mp4::TrackFacts, tables: Tables)
    ensures
        ({
            let u = mp4::with_tables(t, tables);
            &&& u.track_id == t.track_id
            &&& u.handler_type == t.handler_type
            &&& u.handler_name == t.handler_name
            &&& u.timescale == t.timescale
            &&& tables.fourcc is None ==> u.fourcc == t.fourcc
            &&& tables.fourcc matches Some(f) ==> u.fourcc == f
            &&& u.offsets == table::offsets_of(tables)
            &&& u.sizes.len() == u.offsets.len()
            &&& forall|i: int|
                0 <= i < u.sizes.len() ==> #[trigger] u.sizes[i] == tables.sizes[i]
            &&& u.ticks.len() == if u.offsets.len() < table::delta_count(tables.deltas) {
                u.offsets.len()
            } else {
                table::delta_count(tables.deltas)
            }
            &&& forall|i: int|
                0 <= i < u.ticks.len() ==> #[trigger] u.ticks[i] == table::tick(
                    tables.deltas,
                    i,
                ) as u64
            &&& tables.deltas.len() == 0 ==> u.tail_delta == 0
            &&& tables.deltas.len() > 0 ==> u.tail_delta == tables.deltas[tables.deltas.len() - 1].1
        }),
{
    table::placed_samples_have_sizes(tables);
}

/// The first of the boxes named `moov` is the movie.
pub proof fn the_first_movie_counts(boxes: Seq<Span>, i: int)
    requires
        0 <= i <= boxes.len(),
        forall|j: int| 0 <= j < i ==> (#[trigger] boxes[j]).kind != code('m', 'o', 'o', 'v'),
    ensures
        i < boxes.len() && boxes[i].kind == code('m', 'o', 'o', 'v') ==> mp4::first_moov(boxes)
            == Some(boxes[i]),
        i == boxes.len() ==> mp4::first_moov(boxes) is None,
    decreases boxes.len(),
{
    if i > 0 {
        assert(boxes[0].kind != code('m', 'o', 'o', 'v'));
        let rest = boxes.drop_first();
        assert forall|j: int| 0 <= j < i - 1 implies (#[trigger] rest[j]).kind != code(
            'm',
            'o',
            'o',
            'v',
        ) by {
            assert(rest[j] == boxes[j + 1]);
        }
        the_first_movie_counts(rest, i - 1);
    }
}

/// A movie has the times of its header and a track for each of the boxes named `trak`,
/// in order.
pub proof fn movies_have_their_headers(buf: Seq<u8>, m: mp4::MovieFacts, i: int)
    requires
        mp4::movie_of(buf) == Ok::<mp4::MovieFacts, Seq<char>>(m),
    ensures
        ({
            let end = buf.len() as int;
            let mvhd = mp4::first_found(buf, seq![code('m', 'v', 'h', 'd')], 0, end);
            let traks = mp4::found(buf, seq![code('t', 'r', 'a', 'k')], 0, end);
            let udta = mp4::first_found(buf, seq![code('u', 'd', 't', 'a')], 0, end);
            let (created, timescale, duration) = mp4::header_times(buf, mvhd);
            &&& m.creation_time == mp4::moment_1904(created)
            &&& m.timescale == timescale
            &&& m.duration == duration
            &&& m.tracks.len() == traks.len()
            &&& 0 <= i < traks.len() ==> mp4::track_of(buf, traks[i]) == Ok::<
                mp4::TrackFacts,
                Seq<char>,
            >(m.tracks[i])
            &&& udta matches Some(b) ==> m.udta == buf.subrange(b.start, b.end)
            &&& udta is None ==> m.udta.len() == 0
            &&& mvhd is None ==> m.creation_time is None && m.timescale == 0 && m.duration == 0
        }),
{
    let end = buf.len() as int;
    lemma_tracks_of(buf, mp4::found(buf, seq![code('t', 'r', 'a', 'k')], 0, end), i);
}

proof fn lemma_tracks_of(buf: Seq<u8>, traks: Seq<Extent>, i: int)
    ensures
        mp4::tracks_of(buf, traks) matches Ok(t) ==> t.len() == traks.len() && (0 <= i < t.len()
            ==> mp4::track_of(buf, traks[i]) == Ok::<mp4::TrackFacts, Seq<char>>(t[i])),
    decreases traks.len(),
{
    if traks.len() > 0 {
        lemma_tracks_of(buf, traks.drop_last(), i);
    }
}

/// A track has the identity of its header, the time scale and the handler of its media,
/// and the samples of its tables; without these boxes it has none of them.
pub proof fn tracks_have_their_boxes(buf: Seq<u8>, trak: Extent, t: mp4::TrackFacts)
    requires
        mp4::track_of(buf, trak) == Ok::<mp4::TrackFacts, Seq<char>>(t),
    ensures
        ({
            let mdia = code('m', 'd', 'i', 'a');
            let tkhd = mp4::first_found(
                buf,
                seq![code('t', 'k', 'h', 'd')],
                trak.start,
                trak.end,
            );
            let mdhd = mp4::first_found(
                buf,
                seq![mdia, code('m', 'd', 'h', 'd')],
                trak.start,
                trak.end,
            );
            let hdlr = mp4::first_found(
                buf,
                seq![mdia, code('h', 'd', 'l', 'r')],
                trak.start,
                trak.end,
            );
            let stbl = mp4::first_found(
                buf,
                seq![mdia, code('m', 'i', 'n', 'f'), code('s', 't', 'b', 'l')],
                trak.start,
                trak.end,
            );
            &&& tkhd matches Some(b) ==> b.end - b.start >= 16 ==> mp4::versioned_word(buf, b.start)
                == Some(t.track_id)
            &&& tkhd is None ==> t.track_id == 0
            &&& mdhd matches Some(b) ==> b.end - b.start >= 20 ==> mp4::versioned_word(buf, b.start)
                == Some(t.timescale)
            &&& mdhd is None ==> t.timescale == 0
            &&& (t.handler_type, t.handler_name) == mp4::handler(buf, hdlr)
            &&& stbl is None ==> t.offsets.len() == 0 && t.fourcc.len() == 0
            &&& stbl matches Some(b) ==> (table::tables_in(buf, mp4::spans(buf, b.start, b.end))
                matches Ok(tables) && t.offsets == table::offsets_of(tables) && t.ticks
                == table::ticks_of(tables.deltas, t.offsets.len()) && (tables.fourcc matches Some(f)
                ==> t.fourcc == f))
        }),
{
}

/// No sample is left out where the chunks have room for all.
pub proof fn chunks_with_room_place_all(t: Tables)
    requires
        ascends(t),
        samples_before(t.runs, t.chunks.len() + 1int) >= t.sizes.len(),
    ensures
        table::offsets_of(t).len() == t.sizes.len(),
{
    lemma_placed(t, t.runs.len());
    lemma_up_to(t, t.chunks.len());
}

/// The first sample is decoded at 0, and each next one later by the duration of the
/// entry that the one before it falls in.
pub proof fn samples_follow_at_their_durations(deltas: Seq<(u32, u32)>, k: int, i: int)
    requires
        0 <= k < deltas.len(),
        table::delta_count(deltas.take(k)) <= i < table::delta_count(deltas.take(k + 1)),
    ensures
        table::tick(deltas, 0) == 0,
        table::delta_count(Seq::empty()) == 0,
        table::tick(deltas, i + 1) == table::tick(deltas, i) + deltas[k].1,
        table::delta_count(deltas.take(k + 1)) == table::delta_count(deltas.take(k)) + deltas[k].0,
{
    assert(deltas.take(k + 1).drop_last() =~= deltas.take(k));
    lemma_delta_of(deltas, k, i);
}

proof fn lemma_delta_of(deltas: Seq<(u32, u32)>, k: int, i: int)
    requires
        0 <= k < deltas.len(),
        table::delta_count(deltas.take(k)) <= i < table::delta_count(deltas.take(k + 1)),
    ensures
        table::delta_of(deltas, i) == deltas[k].1,
    decreases deltas.len(),
{
    let front = deltas.drop_last();
    let n = deltas.len() - 1;
    assert(deltas.take(k + 1).drop_last() =~= deltas.take(k));
    if k == n {
        assert(deltas.take(k) =~= front);
    } else {
        assert(front.take(k) =~= deltas.take(k));
        assert(front.take(k + 1) =~= deltas.take(k + 1));
        lemma_delta_of(front, k, i);
        lemma_count_grows(front, k + 1);
    }
}

proof fn lemma_count_grows(deltas: Seq<(u32, u32)>, k: int)
    requires
        0 <= k <= deltas.len(),
    ensures
        table::delta_count(deltas.take(k)) <= table::delta_count(deltas),
    decreases deltas.len() - k,
{
    if k == deltas.len() {
        assert(deltas.take(k) =~= deltas);
    } else {
        assert(deltas.take(k + 1).drop_last() =~= deltas.take(k));
        lemma_count_grows(deltas, k + 1);
    }
}

proof fn lemma_cut_off(file: Seq<u8>)
    requires
        file.len() >= 8,
    ensures
        bytes::be32(file, 0) == 1 && file.len() < 16 ==> mp4::cut_off(file, 0),
        bytes::be32(file, 0) > file.len() ==> !mp4::cut_off(file, 0),
{
    assert(file.skip(0) =~= file);
}

proof fn lemma_size_word(size: u32, rest: Seq<u8>)
    ensures
        bytes::be32(bytes::be32_bytes(size) + rest, 0) == size,
        (bytes::be32_bytes(size) + rest).len() == 4 + rest.len(),
{
    let s = bytes::be32_bytes(size) + rest;
    assert(s.subrange(0, s.len() as int) =~= s);
    lemma_holds(s, 0, s.len() as int, bytes::be32_bytes(size), rest);
    lemma_at_be32(s, 0, size);
}

/// A file that ends within the 64-bit size of a box is cut off.
pub proof fn sizes_can_be_cut_off(kind: u32, rest: Seq<u8>)
    requires
        rest.len() < 8,
    ensures
        mp4::cut_off(bytes::be32_bytes(1) + (bytes::be32_bytes(kind) + rest), 0),
{
    let b = bytes::be32_bytes(kind) + rest;
    assert(b.len() == 4 + rest.len());
    lemma_size_word(1, b);
    lemma_cut_off(bytes::be32_bytes(1) + b);
}

/// A file that ends before a size, or within what a box holds, is not cut off.
pub proof fn boxes_can_be_cut_off(size: u32, kind: u32, rest: Seq<u8>, start: Seq<u8>)
    requires
        size > 8 + rest.len(),
        start.len() < 8,
    ensures
        !mp4::cut_off(bytes::be32_bytes(size) + (bytes::be32_bytes(kind) + rest), 0),
        !mp4::cut_off(start, 0),
{
    let b = bytes::be32_bytes(kind) + rest;
    assert(b.len() == 4 + rest.len());
    lemma_size_word(size, b);
    lemma_cut_off(bytes::be32_bytes(size) + b);
    assert(start.skip(0) =~= start);
}

/// A built movie lasts as long as the longest of its tracks, in milliseconds: no track is
/// longer, and one is as long, unless there are none.
pub proof fn movies_last_as_long_as_their_tracks(tracks: Seq<Plan>, i: int)
    requires
        0 <= i < tracks.len(),
    ensures
        tracks[i].samples.len() * tracks[i].sample_delta * 1000 / tracks[i].timescale as int
            <= builder::longest(tracks),
        builder::longest(tracks) == 0 || exists|j: int|
            0 <= j < tracks.len() && builder::longest(tracks) == (
            #[trigger] tracks[j]).samples.len() * tracks[j].sample_delta * 1000
                / tracks[j].timescale as int,
        builder::longest(Seq::empty()) == 0,
    decreases tracks.len(),
{
    let n = tracks.len() - 1;
    let front = tracks.drop_last();
    if i < n {
        movies_last_as_long_as_their_tracks(front, i);
    } else if n > 0 {
        movies_last_as_long_as_their_tracks(front, 0);
    }
    if builder::longest(tracks) != builder::longest(front) {
        assert(tracks[n] == tracks.last());
    } else if builder::longest(front) != 0 {
        let j = choose|j: int|
            0 <= j < front.len() && builder::longest(front) == (#[trigger] front[j]).samples.len()
                * front[j].sample_delta * 1000 / front[j].timescale as int;
        assert(tracks[j] == front[j]);
    }
}

/// A built file is of the kinds `isom` and `mp42`, and its samples begin behind that and
/// the header of the media box.
pub proof fn built_files_say_their_kind()
    ensures
        builder::ftyp_payload() == builder::words_bytes(
            seq![
                code('i', 's', 'o', 'm') as u32,
                0x200u32,
                code('i', 's', 'o', 'm') as u32,
                code('m', 'p', '4', '2') as u32,
            ],
        ),
        builder::media_start() == 8 + 4 * 4 + 16,
{
}

proof fn lemma_same_chunks(x: Seq<u64>, t: Tables, u: Tables, first: int, per: u32, count: nat)
    requires
        t.sizes == u.sizes,
        t.chunks == u.chunks,
    ensures
        table::with_chunks(x, t, first, per, count) == table::with_chunks(x, u, first, per, count),
    decreases count,
{
    if count > 0 {
        lemma_same_chunks(x, t, u, first, per, (count - 1) as nat);
    }
}

proof fn lemma_same_placed(t: Tables, n: nat, m: nat)
    requires
        m < n <= t.runs.len(),
    ensures
        table::placed(Tables { runs: t.runs.take(n as int), ..t }, m) == table::placed(t, m),
        table::stopped(Tables { runs: t.runs.take(n as int), ..t }, m) == table::stopped(t, m),
    decreases m,
{
    let u = Tables { runs: t.runs.take(n as int), ..t };
    assert forall|j: int| 0 <= j < m implies #[trigger] table::run_stops(t, j) == table::run_stops(
        u,
        j,
    ) && table::run_count(t, j) == table::run_count(u, j) by {
        assert(u.runs[j] == t.runs[j]);
        assert(u.runs[j + 1] == t.runs[j + 1]);
    }
    if table::stopped(t, m) {
        let j = choose|j: int| 0 <= j < m && #[trigger] table::run_stops(t, j);
        assert(table::run_stops(u, j));
    }
    if table::stopped(u, m) {
        let j = choose|j: int| 0 <= j < m && #[trigger] table::run_stops(u, j);
        assert(table::run_stops(t, j));
    }
    if m > 0 {
        let k = (m - 1) as nat;
        lemma_same_placed(t, n, k);
        assert(table::run_stops(t, k as int) == table::run_stops(u, k as int));
        assert(u.runs[k as int] == t.runs[k as int]);
        lemma_same_chunks(
            table::placed(t, k),
            t,
            u,
            t.runs[k as int].0 as int,
            t.runs[k as int].1,
            table::run_count(t, k as int),
        );
    }
}

proof fn lemma_stays_placed(t: Tables, k: int, m: nat)
    requires
        0 <= k < m <= t.runs.len(),
        table::run_stops(t, k),
    ensures
        table::placed(t, m) == table::placed(t, (k + 1) as nat),
    decreases m,
{
    if m > k + 1 {
        lemma_stays_placed(t, k, (m - 1) as nat);
        assert(table::stopped(t, (m - 1) as nat));
    }
}

/// A chunk table ends at an entry that goes on to chunks which do not exist: whatever
/// entries follow the next one make no difference.
pub proof fn missing_chunks_end_the_table(t: Tables, k: int)
    requires
        0 <= k,
        k + 1 < t.runs.len(),
        1 <= t.runs[k].0 < t.runs[k + 1].0,
        t.runs[k + 1].0 > t.chunks.len() + 1,
    ensures
        table::offsets_of(t) == table::offsets_of(Tables { runs: t.runs.take(k + 2), ..t }),
{
    let n = (k + 2) as nat;
    let u = Tables { runs: t.runs.take(k + 2), ..t };
    assert(table::run_stops(t, k));
    assert(u.runs[k] == t.runs[k] && u.runs[k + 1] == t.runs[k + 1]);
    assert(table::run_stops(u, k));
    lemma_stays_placed(t, k, t.runs.len());
    lemma_stays_placed(u, k, n);
    lemma_same_placed(t, n, (k + 1) as nat);
}

} // verus!
