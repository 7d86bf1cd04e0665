//! What is read back of a built file.

use crate::bytes;
use crate::mp4;
use crate::mp4::builder;
use crate::mp4::builder::Plan;
use crate::mp4::table;
use crate::mp4::table::Tables;
use crate::mp4::{Extent, Span, TrackFacts};
use crate::text;
use vstd::prelude::*;

pub mod layout;

verus! {

/// `part` stands in `buf` from `pos` on.
spec fn at(buf: Seq<u8>, pos: int, part: Seq<u8>) -> bool {
    0 <= pos && pos + part.len() <= buf.len() && buf.subrange(pos, pos + part.len()) == part
}

/// Two parts one behind the other both stand in the buffer.
proof fn lemma_at_split(buf: Seq<u8>, pos: int, a: Seq<u8>, b: Seq<u8>)
    requires
        at(buf, pos, a + b),
    ensures
        at(buf, pos, a),
        at(buf, pos + a.len(), b),
{
    let whole = buf.subrange(pos, pos + (a + b).len());
    assert(buf.subrange(pos, pos + a.len()) =~= (a + b).subrange(0, a.len() as int));
    assert(buf.subrange(pos, pos + a.len()) =~= a);
    assert forall|i: int| 0 <= i < b.len() implies buf[pos + a.len() + i] == b[i] by {
        assert(whole[a.len() + i] == (a + b)[a.len() + i]);
    }
    assert(buf.subrange(pos + a.len(), pos + a.len() + b.len()) =~= b);
}

/// A part within a part stands in the buffer.
proof fn lemma_at_inner(buf: Seq<u8>, pos: int, part: Seq<u8>, from: int, inner: Seq<u8>)
    requires
        at(buf, pos, part),
        at(part, from, inner),
    ensures
        at(buf, pos + from, inner),
{
    let whole = buf.subrange(pos, pos + part.len());
    assert forall|i: int| 0 <= i < inner.len() implies buf[pos + from + i] == inner[i] by {
        assert(whole[from + i] == part[from + i]);
        assert(part.subrange(from, from + inner.len())[i] == inner[i]);
    }
    assert(buf.subrange(pos + from, pos + from + inner.len()) =~= inner);
}

/// Reading a written 32-bit integer.
proof fn lemma_at_be32(buf: Seq<u8>, pos: int, v: u32)
    requires
        at(buf, pos, bytes::be32_bytes(v)),
    ensures
        bytes::be32(buf, pos) == v,
{
    let s = buf.subrange(pos, pos + 4);
    bytes::be_round_trip(v, 0);
    assert(buf[pos] == s[0] && buf[pos + 1] == s[1] && buf[pos + 2] == s[2] && buf[pos + 3]
        == s[3]);
}

/// Reading a written 64-bit integer.
proof fn lemma_at_be64(buf: Seq<u8>, pos: int, v: u64)
    requires
        at(buf, pos, bytes::be64_bytes(v)),
    ensures
        bytes::be64(buf, pos) == v,
{
    let hi = (v / 0x1_0000_0000) as u32;
    let lo = (v % 0x1_0000_0000) as u32;
    lemma_at_split(buf, pos, bytes::be32_bytes(hi), bytes::be32_bytes(lo));
    lemma_at_be32(buf, pos, hi);
    lemma_at_be32(buf, pos + 4, lo);
}

/// The length of the first `k` boxes of a list.
spec fn offset(list: Seq<(u32, Seq<u8>)>, k: int) -> int {
    builder::list_bytes(list.take(k)).len() as int
}

/// The places of the boxes of a list that stands from `start` on.
spec fn list_spans(list: Seq<(u32, Seq<u8>)>, start: int) -> Seq<Span> {
    Seq::new(
        list.len(),
        |i: int|
            Span {
                kind: list[i].0 as int,
                start: start + offset(list, i) + 8,
                end: start + offset(list, i + 1),
            },
    )
}

/// Whether every box of a list has a size that fits in 32 bits.
spec fn small(list: Seq<(u32, Seq<u8>)>) -> bool {
    forall|i: int| 0 <= i < list.len() ==> (#[trigger] list[i]).1.len() + 8 <= u32::MAX
}

/// The box `k` of a list stands at its offset.
proof fn lemma_list_box(list: Seq<(u32, Seq<u8>)>, k: int)
    requires
        0 <= k < list.len(),
    ensures
        at(builder::list_bytes(list), offset(list, k), builder::boxed_bytes(list[k].0, list[k].1)),
        offset(list, k + 1) == offset(list, k) + 8 + list[k].1.len(),
        offset(list, k + 1) <= builder::list_bytes(list).len(),
    decreases list.len(),
{
    assert(list.take(k + 1).drop_last() =~= list.take(k));
    let last = builder::boxed_bytes(list.last().0, list.last().1);
    let s = builder::list_bytes(list);
    if k + 1 == list.len() {
        assert(list.take(k + 1) =~= list);
        assert(s.subrange(offset(list, k), s.len() as int) =~= last);
    } else {
        let front = list.drop_last();
        lemma_list_box(front, k);
        assert(front.take(k) =~= list.take(k));
        assert(front.take(k + 1) =~= list.take(k + 1));
        let b = builder::boxed_bytes(list[k].0, list[k].1);
        assert(s == builder::list_bytes(front) + last);
        assert(s.subrange(offset(list, k), offset(list, k) + b.len())
            =~= builder::list_bytes(front).subrange(offset(list, k), offset(list, k) + b.len()));
    }
}

/// The boxes of a list are read back, from the box `k` on.
proof fn lemma_spans_from(buf: Seq<u8>, start: int, list: Seq<(u32, Seq<u8>)>, k: int)
    requires
        at(buf, start, builder::list_bytes(list)),
        small(list),
        0 <= k <= list.len(),
    ensures
        mp4::spans(
            buf,
            start + offset(list, k),
            start + builder::list_bytes(list).len(),
        ) == list_spans(list, start).skip(k),
        offset(list, k) <= builder::list_bytes(list).len(),
    decreases list.len() - k,
{
    let whole = builder::list_bytes(list);
    let end = start + whole.len();
    if k == list.len() {
        assert(list.take(k) =~= list);
        assert(mp4::spans(buf, end, end) =~= list_spans(list, start).skip(k));
    } else {
        lemma_list_box(list, k);
        lemma_spans_from(buf, start, list, k + 1);
        let pos = start + offset(list, k);
        let payload = list[k].1;
        let size = (payload.len() + 8) as u32;
        let b = builder::boxed_bytes(list[k].0, payload);
        lemma_at_inner(buf, start, whole, offset(list, k), b);
        let head = bytes::be32_bytes(size) + bytes::be32_bytes(list[k].0);
        assert(b =~= head + payload);
        lemma_at_split(buf, pos, head, payload);
        lemma_at_split(buf, pos, bytes::be32_bytes(size), bytes::be32_bytes(list[k].0));
        lemma_at_be32(buf, pos, size);
        lemma_at_be32(buf, pos + 4, list[k].0);
        let rest = buf.subrange(pos, end);
        assert(bytes::be32(rest, 0) == bytes::be32(buf, pos));
        assert(mp4::first_box(rest) == Some((8int, size as int)));
        assert(mp4::spans(buf, pos, end) =~= list_spans(list, start).skip(k));
    }
}

/// The boxes of a list are read back, each with its payload.
proof fn lemma_spans_of_list(buf: Seq<u8>, start: int, list: Seq<(u32, Seq<u8>)>)
    requires
        at(buf, start, builder::list_bytes(list)),
        small(list),
    ensures
        mp4::spans(buf, start, start + builder::list_bytes(list).len()) == list_spans(list, start),
        forall|i: int|
            0 <= i < list.len() ==> at(
                buf,
                (#[trigger] list_spans(list, start)[i]).start,
                list[i].1,
            ) && list_spans(list, start)[i].end == list_spans(list, start)[i].start
                + list[i].1.len(),
{
    lemma_spans_from(buf, start, list, 0);
    assert(list.take(0) =~= Seq::empty());
    assert(list_spans(list, start).skip(0) =~= list_spans(list, start));
    let whole = builder::list_bytes(list);
    assert forall|i: int| 0 <= i < list.len() implies at(
        buf,
        (#[trigger] list_spans(list, start)[i]).start,
        list[i].1,
    ) && list_spans(list, start)[i].end == list_spans(list, start)[i].start + list[i].1.len() by {
        lemma_list_box(list, i);
        let b = builder::boxed_bytes(list[i].0, list[i].1);
        lemma_at_inner(buf, start, whole, offset(list, i), b);
        let head = bytes::be32_bytes((list[i].1.len() + 8) as u32) + bytes::be32_bytes(list[i].0);
        assert(b =~= head + list[i].1);
        lemma_at_split(buf, start + offset(list, i), head, list[i].1);
    }
}

/// Reading written 32-bit integers.
proof fn lemma_at_words(buf: Seq<u8>, pos: int, v: Seq<u32>)
    requires
        at(buf, pos, builder::words_bytes(v)),
    ensures
        builder::words_bytes(v).len() == 4 * v.len(),
        forall|i: int| 0 <= i < v.len() ==> #[trigger] bytes::be32(buf, pos + 4 * i) == v[i],
        forall|i: int| 0 <= i < v.len() ==> bytes::be32(buf, pos + 4 * i) == #[trigger] v[i],
    decreases v.len(),
{
    if v.len() > 0 {
        let front = v.drop_last();
        lemma_at_split(buf, pos, builder::words_bytes(front), bytes::be32_bytes(v.last()));
        lemma_at_words(buf, pos, front);
        lemma_at_be32(buf, pos + 4 * front.len(), v.last());
        assert forall|i: int| 0 <= i < v.len() implies #[trigger] bytes::be32(buf, pos + 4 * i)
            == v[i] by {
            if i < front.len() {
                assert(front[i] == v[i]);
            }
        }
        assert forall|i: int| 0 <= i < v.len() implies bytes::be32(buf, pos + 4 * i)
            == #[trigger] v[i] by {
            assert(bytes::be32(buf, pos + 4 * i) == v[i]);
        }
    }
}

/// Reading written 64-bit integers.
proof fn lemma_at_longs(buf: Seq<u8>, pos: int, v: Seq<u64>)
    requires
        at(buf, pos, builder::longs_bytes(v)),
    ensures
        builder::longs_bytes(v).len() == 8 * v.len(),
        forall|i: int| 0 <= i < v.len() ==> #[trigger] bytes::be64(buf, pos + 8 * i) == v[i],
    decreases v.len(),
{
    if v.len() > 0 {
        let front = v.drop_last();
        lemma_at_split(buf, pos, builder::longs_bytes(front), bytes::be64_bytes(v.last()));
        lemma_at_longs(buf, pos, front);
        lemma_at_be64(buf, pos + 8 * front.len(), v.last());
        assert forall|i: int| 0 <= i < v.len() implies #[trigger] bytes::be64(buf, pos + 8 * i)
            == v[i] by {
            if i < front.len() {
                assert(front[i] == v[i]);
            }
        }
    }
}

/// The runs of chunks of a track: the full chunks, and one for the rest.
spec fn runs_for(t: Plan) -> Seq<(u32, u32)> {
    let n = t.samples.len() as int;
    let full = n / builder::per_chunk(t);
    let rest = n % builder::per_chunk(t);
    (if full > 0 {
        seq![(1u32, t.chunk_size as u32)]
    } else {
        Seq::empty()
    }) + if rest > 0 {
        seq![((full + 1) as u32, rest as u32)]
    } else {
        Seq::empty()
    }
}

/// The tables of a track whose samples begin at `base`.
spec fn tables_for(t: Plan, base: int) -> Tables {
    Tables {
        fourcc: Some(text::utf8_lossy(t.fourcc)),
        sizes: builder::sample_sizes(t),
        chunks: builder::chunk_starts(t, base),
        runs: runs_for(t),
        deltas: seq![(t.samples.len() as u32, t.sample_delta)],
    }
}

/// The payload of a box with version 0 is read behind its first four bytes.
proof fn lemma_at_versioned(buf: Seq<u8>, pos: int, body: Seq<u8>)
    requires
        at(buf, pos, builder::versioned(0, body)),
    ensures
        buf[pos] == 0,
        at(buf, pos + 4, body),
{
    let head = seq![0u8, 0u8, 0u8, 0u8];
    lemma_at_split(buf, pos, head, body);
    assert(buf.subrange(pos, pos + 4)[0] == head[0]);
}

proof fn lemma_read_stsd(buf: Seq<u8>, b: Span, t: Plan, tables: Tables)
    requires
        b.kind == mp4::STSD,
        t.fourcc.len() == 4,
        at(buf, b.start, builder::stsd_bytes(t)),
        b.end == b.start + builder::stsd_bytes(t).len(),
    ensures
        table::with_box(tables, buf, b) == Ok::<Tables, Seq<char>>(
            Tables { fourcc: Some(text::utf8_lossy(t.fourcc)), ..tables },
        ),
{
    let code = bytes::be32(t.fourcc, 0) as u32;
    let entry = builder::boxed_bytes(code, builder::zeros(8));
    lemma_at_versioned(buf, b.start, bytes::be32_bytes(1) + entry);
    lemma_at_split(buf, b.start + 4, bytes::be32_bytes(1), entry);
    let size = bytes::be32_bytes((builder::zeros(8).len() + 8) as u32);
    assert(entry =~= size + (bytes::be32_bytes(code) + builder::zeros(8)));
    lemma_at_split(buf, b.start + 8, size, bytes::be32_bytes(code) + builder::zeros(8));
    lemma_at_split(buf, b.start + 12, bytes::be32_bytes(code), builder::zeros(8));
    bytes::be_write_back(t.fourcc);
    assert(buf.subrange(b.start + 12, b.start + 16) == t.fourcc);
}

proof fn lemma_read_stts(buf: Seq<u8>, b: Span, t: Plan, tables: Tables)
    requires
        b.kind == mp4::STTS,
        at(buf, b.start, builder::stts_bytes(t)),
        b.end == b.start + builder::stts_bytes(t).len(),
    ensures
        table::with_box(tables, buf, b) == Ok::<Tables, Seq<char>>(
            Tables { deltas: seq![(t.samples.len() as u32, t.sample_delta)], ..tables },
        ),
{
    let words = seq![1u32, t.samples.len() as u32, t.sample_delta];
    lemma_at_versioned(buf, b.start, builder::words_bytes(words));
    lemma_at_words(buf, b.start + 4, words);
    assert(bytes::be32(buf, b.start + 4 + 4 * 0) == words[0]);
    assert(bytes::be32(buf, b.start + 4 + 4 * 1) == words[1]);
    assert(bytes::be32(buf, b.start + 4 + 4 * 2) == words[2]);
    assert(table::pairs(buf, b.start + 8, 1, 8) =~= seq![
        (t.samples.len() as u32, t.sample_delta),
    ]);
}

proof fn lemma_read_stsc(buf: Seq<u8>, b: Span, t: Plan, tables: Tables)
    requires
        b.kind == mp4::STSC,
        at(buf, b.start, builder::stsc_bytes(t)),
        b.end == b.start + builder::stsc_bytes(t).len(),
    ensures
        table::with_box(tables, buf, b) == Ok::<Tables, Seq<char>>(
            Tables { runs: runs_for(t), ..tables },
        ),
{
    let words = builder::run_words(t);
    let runs = runs_for(t);
    lemma_at_versioned(buf, b.start, builder::words_bytes(words));
    lemma_at_words(buf, b.start + 4, words);
    assert(words.len() == 1 + 3 * runs.len());
    assert(bytes::be32(buf, b.start + 4 + 4 * 0) == words[0]);
    assert(words[0] == runs.len());
    assert forall|i: int| 0 <= i < runs.len() implies #[trigger] table::pairs(
        buf,
        b.start + 8,
        runs.len(),
        12,
    )[i] == runs[i] by {
        assert(words[1 + 3 * i] == runs[i].0);
        assert(words[2 + 3 * i] == runs[i].1);
        assert(bytes::be32(buf, b.start + 4 + 4 * (1 + 3 * i)) == words[1 + 3 * i]);
        assert(bytes::be32(buf, b.start + 4 + 4 * (2 + 3 * i)) == words[2 + 3 * i]);
    }
    assert(table::pairs(buf, b.start + 8, runs.len(), 12) =~= runs);
}

proof fn lemma_read_stsz(buf: Seq<u8>, b: Span, t: Plan, tables: Tables)
    requires
        b.kind == mp4::STSZ,
        t.samples.len() <= u32::MAX,
        at(buf, b.start, builder::stsz_bytes(t)),
        b.end == b.start + builder::stsz_bytes(t).len(),
    ensures
        table::with_box(tables, buf, b) == Ok::<Tables, Seq<char>>(
            Tables { sizes: builder::sample_sizes(t), ..tables },
        ),
{
    let words = seq![0u32, t.samples.len() as u32];
    let sizes = builder::sample_sizes(t);
    lemma_at_versioned(
        buf,
        b.start,
        builder::words_bytes(words) + builder::words_bytes(sizes),
    );
    lemma_at_split(buf, b.start + 4, builder::words_bytes(words), builder::words_bytes(sizes));
    lemma_at_words(buf, b.start + 4, words);
    lemma_at_words(buf, b.start + 12, sizes);
    assert(bytes::be32(buf, b.start + 4 + 4 * 0) == words[0]);
    assert(bytes::be32(buf, b.start + 4 + 4 * 1) == words[1]);
    assert(table::words(buf, b.start + 12, t.samples.len()) =~= sizes);
}

proof fn lemma_read_co64(buf: Seq<u8>, b: Span, starts: Seq<u64>, tables: Tables)
    requires
        b.kind == mp4::CO64,
        starts.len() <= u32::MAX,
        at(buf, b.start, builder::co64_bytes(starts)),
        b.end == b.start + builder::co64_bytes(starts).len(),
    ensures
        table::with_box(tables, buf, b) == Ok::<Tables, Seq<char>>(
            Tables { chunks: starts, ..tables },
        ),
{
    let count = bytes::be32_bytes(starts.len() as u32);
    lemma_at_versioned(buf, b.start, count + builder::longs_bytes(starts));
    lemma_at_split(buf, b.start + 4, count, builder::longs_bytes(starts));
    lemma_at_be32(buf, b.start + 4, starts.len() as u32);
    lemma_at_longs(buf, b.start + 8, starts);
    assert(table::longs(buf, b.start + 8, starts.len()) =~= starts);
}

/// A track has no more chunks than samples.
proof fn lemma_few_chunks(t: Plan)
    ensures
        builder::chunk_count(t) <= t.samples.len(),
{
    let n = t.samples.len() as int;
    let per = builder::per_chunk(t);
    assert(n / per + (if n % per > 0 {
        1int
    } else {
        0
    }) <= n) by (nonlinear_arith)
        requires
            per >= 1,
            n >= 0,
    ;
    assert(n / per >= 0) by (nonlinear_arith)
        requires
            per >= 1,
            n >= 0,
    ;
}

/// The tables of a built track are read back.
proof fn lemma_read_tables(buf: Seq<u8>, start: int, t: Plan, base: int)
    requires
        at(buf, start, builder::list_bytes(builder::stbl_list(t, base))),
        small(builder::stbl_list(t, base)),
        t.samples.len() <= u32::MAX,
        t.fourcc.len() == 4,
    ensures
        table::tables_in(
            buf,
            mp4::spans(
                buf,
                start,
                start + builder::list_bytes(builder::stbl_list(t, base)).len(),
            ),
        ) == Ok::<Tables, Seq<char>>(tables_for(t, base)),
{
    let list = builder::stbl_list(t, base);
    lemma_spans_of_list(buf, start, list);
    lemma_few_chunks(t);
    let s = list_spans(list, start);
    let empty = table::no_tables();
    assert(s.take(0) =~= Seq::empty());
    assert(table::tables_in(buf, s.take(0)) == Ok::<Tables, Seq<char>>(empty));
    let t1 = Tables { fourcc: Some(text::utf8_lossy(t.fourcc)), ..empty };
    lemma_read_stsd(buf, s[0], t, empty);
    assert(s.take(1).drop_last() =~= s.take(0));
    assert(table::tables_in(buf, s.take(1)) == Ok::<Tables, Seq<char>>(t1));
    let t2 = Tables { deltas: seq![(t.samples.len() as u32, t.sample_delta)], ..t1 };
    lemma_read_stts(buf, s[1], t, t1);
    assert(s.take(2).drop_last() =~= s.take(1));
    assert(table::tables_in(buf, s.take(2)) == Ok::<Tables, Seq<char>>(t2));
    let t3 = Tables { runs: runs_for(t), ..t2 };
    lemma_read_stsc(buf, s[2], t, t2);
    assert(s.take(3).drop_last() =~= s.take(2));
    assert(table::tables_in(buf, s.take(3)) == Ok::<Tables, Seq<char>>(t3));
    let t4 = Tables { sizes: builder::sample_sizes(t), ..t3 };
    lemma_read_stsz(buf, s[3], t, t3);
    assert(s.take(4).drop_last() =~= s.take(3));
    assert(table::tables_in(buf, s.take(4)) == Ok::<Tables, Seq<char>>(t4));
    lemma_read_co64(buf, s[4], builder::chunk_starts(t, base), t4);
    assert(s.take(5).drop_last() =~= s.take(4));
    assert(s.take(5) =~= s);
}

/// Whether the samples of a track can be read back from a file in which they
/// begin at `base`: a chunk holds some of them, their sizes fit in 32 bits, and
/// their offsets in 64.
pub open spec fn locatable(t: Plan, base: int) -> bool {
    &&& builder::writable(t)
    &&& t.fourcc.len() == 4
    &&& t.handler_type.len() == 4
    &&& t.samples.len() > 0 ==> t.chunk_size > 0
    &&& forall|j: int| 0 <= j < t.samples.len() ==> (#[trigger] t.samples[j]).len() <= u32::MAX
    &&& 0 <= base
    &&& base + builder::flat(t.samples).len() <= u64::MAX
}

/// The samples before another are no longer than all.
proof fn lemma_flat_prefix(samples: Seq<Seq<u8>>, k: int)
    requires
        0 <= k <= samples.len(),
    ensures
        builder::flat(samples.take(k)).len() <= builder::flat(samples).len(),
        k < samples.len() ==> at(
            builder::flat(samples),
            builder::flat(samples.take(k)).len() as int,
            samples[k],
        ),
    decreases samples.len(),
{
    if k == samples.len() {
        assert(samples.take(k) =~= samples);
    } else {
        let front = samples.drop_last();
        let all = builder::flat(samples);
        if k + 1 == samples.len() {
            assert(samples.take(k) =~= front);
            assert(all.subrange(builder::flat(front).len() as int, all.len() as int)
                =~= samples[k]);
        } else {
            lemma_flat_prefix(front, k);
            assert(front.take(k) =~= samples.take(k));
            let from = builder::flat(samples.take(k)).len() as int;
            assert(all.subrange(from, from + samples[k].len()) =~= builder::flat(front).subrange(
                from,
                from + samples[k].len(),
            ));
        }
    }
}

/// Sums of sizes are differences of lengths.
proof fn lemma_size_sum(t: Plan, a: int, b: int)
    requires
        0 <= a <= b <= t.samples.len(),
        forall|j: int| 0 <= j < t.samples.len() ==> (#[trigger] t.samples[j]).len() <= u32::MAX,
    ensures
        table::size_sum(builder::sample_sizes(t), a, b) == builder::flat(t.samples.take(b)).len()
            - builder::flat(t.samples.take(a)).len(),
    decreases b - a,
{
    if a < b {
        lemma_size_sum(t, a, b - 1);
        assert(t.samples.take(b).drop_last() =~= t.samples.take(b - 1));
        assert(t.samples[b - 1].len() <= u32::MAX);
    }
}

/// The offsets of the first `k` samples of a track whose samples begin at
/// `base`, one behind the other.
pub open spec fn starts(t: Plan, base: int, k: nat) -> Seq<u64> {
    Seq::new(k, |j: int| (base + builder::flat(t.samples.take(j)).len()) as u64)
}

/// A chunk goes on where the samples before it end.
proof fn lemma_with_samples(t: Plan, base: int, from: nat, count: nat, at_offset: u64)
    requires
        locatable(t, base),
        from + count <= t.samples.len(),
        at_offset == base + builder::flat(t.samples.take(from as int)).len(),
    ensures
        table::with_samples(
            starts(t, base, from),
            builder::sample_sizes(t),
            at_offset,
            count,
        ) == starts(t, base, from + count),
{
    let got = table::with_samples(
        starts(t, base, from),
        builder::sample_sizes(t),
        at_offset,
        count,
    );
    let want = starts(t, base, from + count);
    assert forall|j: int| 0 <= j < want.len() implies got[j] == want[j] by {
        if j >= from {
            lemma_size_sum(t, from as int, j);
            lemma_flat_prefix(t.samples, j);
        }
    }
    assert(got =~= want);
}

/// The first `c` chunks hold the first samples.
proof fn lemma_with_chunks(t: Plan, base: int, c: nat)
    requires
        locatable(t, base),
        t.chunk_size > 0,
        c * t.chunk_size <= t.samples.len(),
    ensures
        table::with_chunks(
            Seq::empty(),
            tables_for(t, base),
            1,
            t.chunk_size as u32,
            c,
        ) == starts(t, base, c * t.chunk_size),
    decreases c,
{
    let per = t.chunk_size;
    if c == 0 {
        assert(starts(t, base, 0) =~= Seq::empty());
        assert(c * per == 0) by (nonlinear_arith)
            requires
                c == 0,
        ;
    } else {
        let b = (c - 1) as nat;
        assert(c * per == b * per + per) by (nonlinear_arith)
            requires
                b == c - 1,
        ;
        lemma_with_chunks(t, base, b);
        let n = t.samples.len() as int;
        assert(per <= n) by (nonlinear_arith)
            requires
                b * per + per <= n,
                b >= 0,
                per >= 1,
        ;
        assert(b < n / per as int) by (nonlinear_arith)
            requires
                (b + 1) * per <= n,
                per >= 1,
                n >= 0,
        ;
        lemma_flat_prefix(t.samples, (b * per) as int);
        assert(builder::chunk_starts(t, base)[b as int] == base + builder::flat(
            t.samples.take((b * per) as int),
        ).len());
        lemma_with_samples(t, base, b * per, per, builder::chunk_starts(t, base)[b as int]);
    }
}

/// Every sample of a built track is placed.
proof fn lemma_offsets(t: Plan, base: int)
    requires
        locatable(t, base),
    ensures
        table::offsets_of(tables_for(t, base)) == starts(t, base, t.samples.len()),
{
    if t.samples.len() == 0 {
        let per = builder::per_chunk(t);
        vstd::arithmetic::div_mod::lemma_fundamental_div_mod_converse(0, per, 0, 0);
        assert(tables_for(t, base).runs =~= Seq::empty());
        assert(starts(t, base, 0) =~= Seq::empty());
    } else {
        lemma_some_offsets(t, base);
    }
}

/// Every sample of a built track with samples is placed.
proof fn lemma_some_offsets(t: Plan, base: int)
    requires
        locatable(t, base),
        t.samples.len() > 0,
    ensures
        table::offsets_of(tables_for(t, base)) == starts(t, base, t.samples.len()),
{
    let tables = tables_for(t, base);
    let n = t.samples.len() as int;
    let per = t.chunk_size as int;
    let full = n / per;
    let rest = n % per;
    vstd::arithmetic::div_mod::lemma_fundamental_div_mod(n, per);
    assert(full >= 0 && full <= n && (rest > 0 ==> full < n)) by (nonlinear_arith)
        requires
            n == per * full + rest,
            0 <= rest < per,
            per >= 1,
            n >= 0,
    ;
    assert(full * per == n - rest) by (nonlinear_arith)
        requires
            n == per * full + rest,
    ;
    let count = builder::chunk_count(t);
    assert(!table::stopped(tables, 0));
    assert(table::placed(tables, 0) =~= Seq::empty());
    assert(full == 0 ==> full * per == 0) by (nonlinear_arith);
    if full > 0 {
        lemma_with_chunks(t, base, full as nat);
        assert(tables.runs[0] == (1u32, t.chunk_size as u32));
        assert(table::run_last(tables, 0) == full);
        assert(table::run_count(tables, 0) == full);
        assert(!table::run_stops(tables, 0));
        assert(table::placed(tables, 1) == starts(t, base, (n - rest) as nat));
        if rest > 0 {
            assert(!table::stopped(tables, 1)) by {
                if table::stopped(tables, 1) {
                    let j = choose|j: int| 0 <= j < 1 && #[trigger] table::run_stops(tables, j);
                    assert(j == 0);
                }
            }
            lemma_rest(t, base, full, rest, 1);
        }
    } else if rest > 0 {
        assert(starts(t, base, 0) =~= Seq::empty());
        lemma_rest(t, base, full, rest, 0);
    } else {
        assert(starts(t, base, 0) =~= Seq::empty());
    }
}

/// The samples behind the full chunks are placed by the run `k`.
proof fn lemma_rest(t: Plan, base: int, full: int, rest: int, k: nat)
    requires
        locatable(t, base),
        full == t.samples.len() as int / t.chunk_size as int,
        rest == t.samples.len() as int % t.chunk_size as int,
        rest > 0,
        0 <= full < t.samples.len(),
        full * t.chunk_size == t.samples.len() - rest,
        k == if full > 0 {
            1nat
        } else {
            0
        },
        !table::stopped(tables_for(t, base), k),
        table::placed(tables_for(t, base), k) == starts(
            t,
            base,
            (t.samples.len() - rest) as nat,
        ),
    ensures
        table::placed(tables_for(t, base), k + 1) == starts(t, base, t.samples.len()),
        tables_for(t, base).runs.len() == k + 1,
{
    let tables = tables_for(t, base);
    let before = (t.samples.len() - rest) as nat;
    assert(tables.runs[k as int] == ((full + 1) as u32, rest as u32));
    assert(tables.chunks.len() == full + 1);
    assert(table::run_last(tables, k as int) == full + 1);
    assert(table::run_count(tables, k as int) == 1);
    lemma_flat_prefix(t.samples, before as int);
    assert(tables.chunks[full] == base + builder::flat(t.samples.take(before as int)).len());
    lemma_with_samples(t, base, before, rest as nat, tables.chunks[full]);
    let placed = table::placed(tables, k);
    reveal_with_fuel(table::with_chunks, 2);
    assert(table::with_chunks(placed, tables, full + 1, rest as u32, 0) == placed);
}

/// The samples of a built track follow each other at its sample duration.
proof fn lemma_ticks(n: u32, delta: u32, i: int)
    requires
        0 <= i,
    ensures
        table::tick(seq![(n, delta)], i) == i * delta,
        table::delta_count(seq![(n, delta)]) == n,
    decreases i,
{
    let deltas = seq![(n, delta)];
    assert(deltas.drop_last() =~= Seq::empty());
    assert(table::delta_count(deltas.drop_last()) == 0);
    if i > 0 {
        lemma_ticks(n, delta, i - 1);
        assert(table::delta_of(deltas, i - 1) == delta);
        assert(i * delta == (i - 1) * delta + delta) by (nonlinear_arith);
    } else {
        assert(i * delta == 0) by (nonlinear_arith)
            requires
                i == 0,
        ;
    }
}

/// Without a box of the first kind of a path nothing is found.
proof fn lemma_found_none(buf: Seq<u8>, of: Seq<Span>, path: Seq<int>)
    requires
        path.len() > 0,
        forall|j: int| 0 <= j < of.len() ==> (#[trigger] of[j]).kind != path[0],
    ensures
        mp4::found_in(buf, of, path) == Seq::<Extent>::empty(),
    decreases of.len(),
{
    if of.len() > 0 {
        assert(of[of.len() - 1].kind != path[0]);
        assert forall|j: int| 0 <= j < of.drop_last().len() implies (
        #[trigger] of.drop_last()[j]).kind != path[0] by {
            assert(of[j].kind != path[0]);
        }
        lemma_found_none(buf, of.drop_last(), path);
    }
}

/// With one box of the first kind of a path, it is found, or what lies in it.
proof fn lemma_found_one(buf: Seq<u8>, of: Seq<Span>, path: Seq<int>, k: int)
    requires
        path.len() > 0,
        0 <= k < of.len(),
        of[k].kind == path[0],
        forall|j: int| 0 <= j < of.len() && j != k ==> (#[trigger] of[j]).kind != path[0],
    ensures
        path.len() == 1 ==> mp4::found_in(buf, of, path) == seq![of[k].payload()],
        path.len() > 1 ==> mp4::found_in(buf, of, path) == mp4::found_in(
            buf,
            mp4::spans(buf, of[k].start, of[k].end),
            path.drop_first(),
        ),
    decreases of.len(),
{
    let front = of.drop_last();
    if k == of.len() - 1 {
        assert forall|j: int| 0 <= j < front.len() implies (#[trigger] front[j]).kind
            != path[0] by {
            assert(of[j].kind != path[0]);
        }
        lemma_found_none(buf, front, path);
        if path.len() == 1 {
            assert(mp4::found_in(buf, of, path) =~= seq![of[k].payload()]);
        } else {
            let inner = mp4::found_in(
                buf,
                mp4::spans(buf, of[k].start, of[k].end),
                path.drop_first(),
            );
            assert(mp4::found_in(buf, of, path) =~= inner);
        }
    } else {
        assert(of[of.len() - 1].kind != path[0]);
        assert forall|j: int| 0 <= j < front.len() && j != k implies (#[trigger] front[j]).kind
            != path[0] by {
            assert(of[j].kind != path[0]);
        }
        lemma_found_one(buf, front, path, k);
    }
}

/// Boxes that fit in 32 bits together fit each by itself.
proof fn lemma_small(list: Seq<(u32, Seq<u8>)>)
    requires
        builder::list_bytes(list).len() <= u32::MAX,
    ensures
        small(list),
        forall|i: int|
            0 <= i < list.len() ==> (#[trigger] list[i]).1.len() <= builder::list_bytes(list).len(),
{
    assert forall|i: int| 0 <= i < list.len() implies (#[trigger] list[i]).1.len() + 8
        <= builder::list_bytes(list).len() by {
        lemma_list_box(list, i);
    }
}

/// A track as it is read back.
pub open spec fn track_for(t: Plan, id: u32, base: int) -> TrackFacts {
    TrackFacts {
        track_id: id,
        handler_type: text::utf8_lossy(t.handler_type),
        handler_name: text::trimmed(
            text::utf8_lossy(mp4::name_bytes(t.handler_name + seq![0u8])),
        ),
        fourcc: text::utf8_lossy(t.fourcc),
        timescale: t.timescale,
        offsets: starts(t, base, t.samples.len()),
        sizes: builder::sample_sizes(t),
        ticks: Seq::new(t.samples.len(), |j: int| (j * t.sample_delta) as u64),
        tail_delta: t.sample_delta,
    }
}

/// The identity of a built track is read back.
proof fn lemma_read_tkhd(buf: Seq<u8>, pos: int, id: u32)
    requires
        at(buf, pos, builder::tkhd_bytes(id)),
    ensures
        mp4::versioned_word(buf, pos) == Some(id),
        builder::tkhd_bytes(id).len() >= 16,
{
    let body = builder::zeros(8) + bytes::be32_bytes(id) + builder::zeros(68);
    lemma_at_versioned(buf, pos, body);
    lemma_at_split(
        buf,
        pos + 4,
        builder::zeros(8) + bytes::be32_bytes(id),
        builder::zeros(68),
    );
    lemma_at_split(buf, pos + 4, builder::zeros(8), bytes::be32_bytes(id));
    lemma_at_be32(buf, pos + 12, id);
}

/// The time scale of a built track is read back.
proof fn lemma_read_mdhd(buf: Seq<u8>, pos: int, t: Plan)
    requires
        at(buf, pos, builder::mdhd_bytes(t)),
    ensures
        mp4::versioned_word(buf, pos) == Some(t.timescale),
        builder::mdhd_bytes(t).len() >= 20,
{
    let scale = bytes::be32_bytes(t.timescale);
    let duration = bytes::be32_bytes((t.samples.len() * t.sample_delta) as u32);
    let body = builder::zeros(8) + scale + duration + builder::zeros(4);
    lemma_at_versioned(buf, pos, body);
    assert(body =~= builder::zeros(8) + (scale + (duration + builder::zeros(4))));
    lemma_at_split(
        buf,
        pos + 4,
        builder::zeros(8),
        scale + (duration + builder::zeros(4)),
    );
    lemma_at_split(buf, pos + 12, scale, duration + builder::zeros(4));
    lemma_at_be32(buf, pos + 12, t.timescale);
}

/// The handler of a built track is read back.
proof fn lemma_read_hdlr(buf: Seq<u8>, b: Extent, t: Plan)
    requires
        at(buf, b.start, builder::hdlr_bytes(t)),
        b.end == b.start + builder::hdlr_bytes(t).len(),
        t.handler_type.len() == 4,
    ensures
        mp4::handler(buf, Some(b)) == (
            text::utf8_lossy(t.handler_type),
            text::trimmed(text::utf8_lossy(mp4::name_bytes(t.handler_name + seq![0u8]))),
        ),
{
    let name = t.handler_name + seq![0u8];
    let body = builder::zeros(4) + t.handler_type + builder::zeros(12) + t.handler_name + seq![
        0u8,
    ];
    lemma_at_versioned(buf, b.start, body);
    assert(body =~= builder::zeros(4) + (t.handler_type + (builder::zeros(12) + name)));
    lemma_at_split(
        buf,
        b.start + 4,
        builder::zeros(4),
        t.handler_type + (builder::zeros(12) + name),
    );
    lemma_at_split(buf, b.start + 8, t.handler_type, builder::zeros(12) + name);
    lemma_at_split(buf, b.start + 12, builder::zeros(12), name);
    assert(b.end == b.start + 24 + name.len());
}

/// The place of the box `k` of a list that stands from `start` on.
spec fn child(list: Seq<(u32, Seq<u8>)>, start: int, k: int) -> Extent {
    let from = start + offset(list, k) + 8;
    Extent { start: from, end: from + list[k].1.len() }
}

/// A path that begins with the only box of its kind in a list leads to it.
proof fn lemma_found_child(
    buf: Seq<u8>,
    start: int,
    list: Seq<(u32, Seq<u8>)>,
    path: Seq<int>,
    k: int,
)
    requires
        at(buf, start, builder::list_bytes(list)),
        builder::list_bytes(list).len() <= u32::MAX,
        path.len() > 0,
        0 <= k < list.len(),
        list[k].0 == path[0],
        forall|j: int| 0 <= j < list.len() && j != k ==> (#[trigger] list[j]).0 != path[0],
    ensures
        at(buf, child(list, start, k).start, list[k].1),
        list[k].1.len() <= u32::MAX,
        path.len() == 1 ==> mp4::first_found(
            buf,
            path,
            start,
            start + builder::list_bytes(list).len(),
        ) == Some(child(list, start, k)),
        path.len() > 1 ==> mp4::first_found(
            buf,
            path,
            start,
            start + builder::list_bytes(list).len(),
        ) == mp4::first_found(
            buf,
            path.drop_first(),
            child(list, start, k).start,
            child(list, start, k).end,
        ),
{
    lemma_small(list);
    lemma_spans_of_list(buf, start, list);
    let s = list_spans(list, start);
    assert(s[k].start == child(list, start, k).start);
    assert(s[k].payload() == child(list, start, k));
    assert forall|j: int| 0 <= j < s.len() && j != k implies (#[trigger] s[j]).kind != path[0] by {
        assert(list[j].0 != path[0]);
    }
    lemma_found_one(buf, s, path, k);
}

/// A list of two boxes.
spec fn two(a: (u32, Seq<u8>), b: (u32, Seq<u8>)) -> Seq<(u32, Seq<u8>)> {
    Seq::empty().push(a).push(b)
}

/// Both boxes of a list of two are found.
proof fn lemma_found_of_two(
    buf: Seq<u8>,
    start: int,
    a: (u32, Seq<u8>),
    b: (u32, Seq<u8>),
    path: Seq<int>,
)
    requires
        at(buf, start, builder::list_bytes(two(a, b))),
        builder::list_bytes(two(a, b)).len() <= u32::MAX,
        a.0 != b.0,
        path.len() > 0,
    ensures
        path[0] == a.0 && path.len() == 1 ==> mp4::first_found(
            buf,
            path,
            start,
            start + builder::list_bytes(two(a, b)).len(),
        ) == Some(child(two(a, b), start, 0)),
        path[0] == b.0 && path.len() > 1 ==> mp4::first_found(
            buf,
            path,
            start,
            start + builder::list_bytes(two(a, b)).len(),
        ) == mp4::first_found(
            buf,
            path.drop_first(),
            child(two(a, b), start, 1).start,
            child(two(a, b), start, 1).end,
        ),
        path[0] == a.0 ==> at(buf, child(two(a, b), start, 0).start, a.1),
        path[0] == b.0 ==> at(buf, child(two(a, b), start, 1).start, b.1) && b.1.len() <= u32::MAX,
{
    let list = two(a, b);
    if path[0] == a.0 {
        lemma_found_child(buf, start, list, path, 0);
    } else if path[0] == b.0 {
        lemma_found_child(buf, start, list, path, 1);
    }
}

/// The boxes of a media box are found, and the sample table within.
proof fn lemma_media_boxes(buf: Seq<u8>, start: int, a: Seq<u8>, b: Seq<u8>, c: Seq<u8>) -> (r: (
    Extent,
    Extent,
    Extent,
))
    requires
        ({
            let inner = Seq::empty().push((mp4::STBL, c));
            let list = two((mp4::MDHD, a), (mp4::HDLR, b)).push(
                (mp4::MINF, builder::list_bytes(inner)),
            );
            at(buf, start, builder::list_bytes(list)) && builder::list_bytes(list).len()
                <= u32::MAX
        }),
    ensures
        ({
            let inner = Seq::empty().push((mp4::STBL, c));
            let list = two((mp4::MDHD, a), (mp4::HDLR, b)).push(
                (mp4::MINF, builder::list_bytes(inner)),
            );
            let end = start + builder::list_bytes(list).len();
            &&& mp4::first_found(buf, seq![mp4::MDHD as int], start, end) == Some(r.0)
            &&& mp4::first_found(buf, seq![mp4::HDLR as int], start, end) == Some(r.1)
            &&& mp4::first_found(buf, seq![mp4::MINF as int, mp4::STBL as int], start, end) == Some(
                r.2,
            )
        }),
        at(buf, r.0.start, a),
        r.0.end == r.0.start + a.len(),
        at(buf, r.1.start, b),
        r.1.end == r.1.start + b.len(),
        at(buf, r.2.start, c),
        r.2.end == r.2.start + c.len(),
        c.len() <= u32::MAX,
{
    let inner = Seq::empty().push((mp4::STBL, c));
    let list = two((mp4::MDHD, a), (mp4::HDLR, b)).push(
        (mp4::MINF, builder::list_bytes(inner)),
    );
    let path = seq![mp4::MINF as int, mp4::STBL as int];
    assert(path.drop_first() =~= seq![mp4::STBL as int]);
    lemma_found_child(buf, start, list, seq![mp4::MDHD as int], 0);
    lemma_found_child(buf, start, list, seq![mp4::HDLR as int], 1);
    lemma_found_child(buf, start, list, path, 2);
    let f = child(list, start, 2).start;
    lemma_found_child(buf, f, inner, seq![mp4::STBL as int], 0);
    (child(list, start, 0), child(list, start, 1), child(inner, f, 0))
}

/// The boxes of a track with the payloads `a` of its header, `b` of its media
/// header, `c` of its handler and `d` of its sample table.
spec fn track_list(a: Seq<u8>, b: Seq<u8>, c: Seq<u8>, d: Seq<u8>) -> Seq<(u32, Seq<u8>)> {
    let minf = Seq::empty().push((mp4::STBL, d));
    let mdia = two((mp4::MDHD, b), (mp4::HDLR, c)).push((mp4::MINF, builder::list_bytes(minf)));
    two((mp4::TKHD, a), (mp4::MDIA, builder::list_bytes(mdia)))
}

/// The boxes of a track are found.
proof fn lemma_track_boxes(
    buf: Seq<u8>,
    trak: Extent,
    a: Seq<u8>,
    b: Seq<u8>,
    c: Seq<u8>,
    d: Seq<u8>,
) -> (r: (Extent, Extent, Extent, Extent))
    requires
        at(buf, trak.start, builder::list_bytes(track_list(a, b, c, d))),
        trak.end == trak.start + builder::list_bytes(track_list(a, b, c, d)).len(),
        builder::list_bytes(track_list(a, b, c, d)).len() <= u32::MAX,
    ensures
        mp4::first_found(buf, seq![mp4::TKHD as int], trak.start, trak.end) == Some(r.0),
        at(buf, r.0.start, a),
        r.0.end == r.0.start + a.len(),
        mp4::first_found(
            buf,
            seq![mp4::MDIA as int, mp4::MDHD as int],
            trak.start,
            trak.end,
        ) == Some(r.1),
        at(buf, r.1.start, b),
        r.1.end == r.1.start + b.len(),
        mp4::first_found(
            buf,
            seq![mp4::MDIA as int, mp4::HDLR as int],
            trak.start,
            trak.end,
        ) == Some(r.2),
        at(buf, r.2.start, c),
        r.2.end == r.2.start + c.len(),
        mp4::first_found(
            buf,
            seq![mp4::MDIA as int, mp4::MINF as int, mp4::STBL as int],
            trak.start,
            trak.end,
        ) == Some(r.3),
        at(buf, r.3.start, d),
        r.3.end == r.3.start + d.len(),
        d.len() <= u32::MAX,
{
    let minf = Seq::empty().push((mp4::STBL, d));
    let mdia = two((mp4::MDHD, b), (mp4::HDLR, c)).push((mp4::MINF, builder::list_bytes(minf)));
    let first = (mp4::TKHD, a);
    let second = (mp4::MDIA, builder::list_bytes(mdia));
    let mdhd = seq![mp4::MDIA as int, mp4::MDHD as int];
    let hdlr = seq![mp4::MDIA as int, mp4::HDLR as int];
    let stbl = seq![mp4::MDIA as int, mp4::MINF as int, mp4::STBL as int];
    assert(mdhd.drop_first() =~= seq![mp4::MDHD as int]);
    assert(hdlr.drop_first() =~= seq![mp4::HDLR as int]);
    assert(stbl.drop_first() =~= seq![mp4::MINF as int, mp4::STBL as int]);
    lemma_found_of_two(buf, trak.start, first, second, seq![mp4::TKHD as int]);
    lemma_found_of_two(buf, trak.start, first, second, mdhd);
    lemma_found_of_two(buf, trak.start, first, second, hdlr);
    lemma_found_of_two(buf, trak.start, first, second, stbl);
    let m = child(two(first, second), trak.start, 1);
    let (r1, r2, r3) = lemma_media_boxes(buf, m.start, b, c, d);
    (child(two(first, second), trak.start, 0), r1, r2, r3)
}

/// A built track is read back.
proof fn lemma_read_track(buf: Seq<u8>, trak: Extent, t: Plan, id: u32, base: int)
    requires
        locatable(t, base),
        at(buf, trak.start, builder::list_bytes(builder::trak_list(t, id, base))),
        trak.end == trak.start + builder::list_bytes(builder::trak_list(t, id, base)).len(),
        builder::list_bytes(builder::trak_list(t, id, base)).len() <= u32::MAX,
    ensures
        mp4::track_of(buf, trak) == Ok::<TrackFacts, Seq<char>>(track_for(t, id, base)),
{
    let (tkhd, mdhd, hdlr, stbl) = lemma_track_boxes(
        buf,
        trak,
        builder::tkhd_bytes(id),
        builder::mdhd_bytes(t),
        builder::hdlr_bytes(t),
        builder::list_bytes(builder::stbl_list(t, base)),
    );
    lemma_read_tkhd(buf, tkhd.start, id);
    lemma_read_mdhd(buf, mdhd.start, t);
    lemma_read_hdlr(buf, hdlr, t);
    lemma_small(builder::stbl_list(t, base));
    lemma_read_tables(buf, stbl.start, t, base);
    lemma_offsets(t, base);
    let n = t.samples.len();
    let deltas = seq![(n as u32, t.sample_delta)];
    lemma_ticks(n as u32, t.sample_delta, 0);
    assert(table::ticks_of(deltas, n) =~= track_for(t, id, base).ticks) by {
        assert forall|j: int| 0 <= j < n implies table::ticks_of(deltas, n)[j] == track_for(
            t,
            id,
            base,
        ).ticks[j] by {
            lemma_ticks(n as u32, t.sample_delta, j);
        }
    }
    assert(builder::sample_sizes(t).take(n as int) =~= builder::sample_sizes(t));
}

/// Where the samples of the track `i` begin in a built file.
pub open spec fn track_base(tracks: Seq<Plan>, i: int) -> int {
    builder::media_start() + builder::media(tracks.take(i)).len()
}

/// The boxes of a built movie: a header, and one box for each track.
proof fn lemma_moov_list(tracks: Seq<Plan>, creation: u64, n: nat)
    requires
        n <= tracks.len(),
    ensures
        builder::moov_list(tracks, creation, n).len() == n + 1,
        builder::moov_list(tracks, creation, n)[0] == (
            mp4::MVHD,
            builder::mvhd_bytes(tracks, creation),
        ),
        forall|i: int|
            1 <= i <= n ==> #[trigger] builder::moov_list(tracks, creation, n)[i] == (
                mp4::TRAK,
                builder::list_bytes(
                    builder::trak_list(tracks[i - 1], i as u32, track_base(tracks, i - 1)),
                ),
            ),
    decreases n,
{
    if n > 0 {
        lemma_moov_list(tracks, creation, (n - 1) as nat);
        let before = builder::moov_list(tracks, creation, (n - 1) as nat);
        assert forall|i: int| 1 <= i <= n implies #[trigger] builder::moov_list(
            tracks,
            creation,
            n,
        )[i] == (
            mp4::TRAK,
            builder::list_bytes(
                builder::trak_list(tracks[i - 1], i as u32, track_base(tracks, i - 1)),
            ),
        ) by {
            if i < n {
                assert(builder::moov_list(tracks, creation, n)[i] == before[i]);
            }
        }
        assert(builder::moov_list(tracks, creation, n)[0] == before[0]);
    }
}

/// The payloads of boxes.
spec fn payloads(of: Seq<Span>) -> Seq<Extent> {
    of.map_values(|s: Span| s.payload())
}

/// When all boxes but the first are of a kind, all but the first are found.
proof fn lemma_found_rest(buf: Seq<u8>, of: Seq<Span>, kind: int)
    requires
        of.len() > 0,
        of[0].kind != kind,
        forall|j: int| 1 <= j < of.len() ==> (#[trigger] of[j]).kind == kind,
    ensures
        mp4::found_in(buf, of, seq![kind]) == payloads(of.skip(1)),
    decreases of.len(),
{
    if of.len() == 1 {
        lemma_found_none(buf, of, seq![kind]);
        assert(payloads(of.skip(1)) =~= Seq::empty());
    } else {
        let front = of.drop_last();
        assert(of[of.len() - 1].kind == kind);
        assert forall|j: int| 1 <= j < front.len() implies (#[trigger] front[j]).kind == kind by {
            assert(of[j].kind == kind);
        }
        lemma_found_rest(buf, front, kind);
        assert(mp4::found_in(buf, of, seq![kind]) =~= payloads(of.skip(1)));
    }
}

/// The tracks of a built movie, as they are read back.
pub open spec fn tracks_for(tracks: Seq<Plan>) -> Seq<TrackFacts> {
    Seq::new(tracks.len(), |i: int| track_for(tracks[i], (i + 1) as u32, track_base(tracks, i)))
}

/// The first `k` tracks of a built movie are read back.
proof fn lemma_read_tracks(buf: Seq<u8>, tracks: Seq<Plan>, traks: Seq<Extent>, k: nat)
    requires
        k <= tracks.len(),
        traks.len() == tracks.len(),
        forall|i: int|
            0 <= i < tracks.len() ==> mp4::track_of(buf, #[trigger] traks[i]) == Ok::<
                TrackFacts,
                Seq<char>,
            >(tracks_for(tracks)[i]),
    ensures
        mp4::tracks_of(buf, traks.take(k as int)) == Ok::<Seq<TrackFacts>, Seq<char>>(
            tracks_for(tracks).take(k as int),
        ),
    decreases k,
{
    let want = tracks_for(tracks);
    if k == 0 {
        assert(traks.take(0) =~= Seq::empty());
        assert(want.take(0) =~= Seq::empty());
    } else {
        lemma_read_tracks(buf, tracks, traks, (k - 1) as nat);
        assert(traks.take(k as int).drop_last() =~= traks.take(k - 1));
        assert(traks.take(k as int).last() == traks[k - 1]);
        assert(want.take(k as int) =~= want.take(k - 1).push(want[k - 1]));
    }
}

/// Whether a file with the given tracks can be read back: every track can, and
/// the movie box stays within the size that is read.
pub open spec fn readable(tracks: Seq<Plan>, creation: u64) -> bool {
    &&& forall|i: int|
        0 <= i < tracks.len() ==> locatable(#[trigger] tracks[i], track_base(tracks, i))
    &&& builder::media(tracks).len() + 16 <= u64::MAX
    &&& builder::list_bytes(builder::moov_list(tracks, creation, tracks.len())).len()
        <= mp4::MAX_MOOV
}

/// The header of a built movie is read back.
proof fn lemma_read_mvhd(buf: Seq<u8>, b: Extent, tracks: Seq<Plan>, creation: u64)
    requires
        at(buf, b.start, builder::mvhd_bytes(tracks, creation)),
        b.end == b.start + builder::mvhd_bytes(tracks, creation).len(),
    ensures
        mp4::header_times(buf, Some(b)) == (
            (creation as u32) as u64,
            1000u32,
            (builder::longest(tracks) as u32) as u64,
        ),
{
    let words = seq![
        creation as u32,
        creation as u32,
        1000u32,
        builder::longest(tracks) as u32,
    ];
    lemma_at_versioned(buf, b.start, builder::words_bytes(words) + builder::zeros(80));
    lemma_at_split(buf, b.start + 4, builder::words_bytes(words), builder::zeros(80));
    lemma_at_words(buf, b.start + 4, words);
    assert(bytes::be32(buf, b.start + 4 + 4 * 0) == words[0]);
    assert(bytes::be32(buf, b.start + 4 + 4 * 2) == words[2]);
    assert(bytes::be32(buf, b.start + 4 + 4 * 3) == words[3]);
}

/// The header and the tracks of a list that begins with a header and goes on
/// with tracks.
proof fn lemma_movie_boxes(list: Seq<(u32, Seq<u8>)>)
    requires
        list.len() > 0,
        list[0].0 == mp4::MVHD,
        forall|j: int| 1 <= j < list.len() ==> (#[trigger] list[j]).0 == mp4::TRAK,
        builder::list_bytes(list).len() <= u32::MAX,
    ensures
        ({
            let buf = builder::list_bytes(list);
            let s = list_spans(list, 0);
            &&& mp4::first_found(buf, seq![mp4::MVHD as int], 0, buf.len() as int) == Some(
                s[0].payload(),
            )
            &&& mp4::found(buf, seq![mp4::TRAK as int], 0, buf.len() as int) == payloads(s.skip(1))
            &&& forall|i: int|
                0 <= i < list.len() ==> at(buf, (#[trigger] s[i]).start, list[i].1) && s[i].end
                    == s[i].start + list[i].1.len()
            &&& forall|i: int|
                0 <= i < list.len() ==> (#[trigger] list[i]).1.len() <= buf.len()
        }),
{
    let buf = builder::list_bytes(list);
    assert(buf.subrange(0, buf.len() as int) =~= buf);
    lemma_small(list);
    lemma_spans_of_list(buf, 0, list);
    let s = list_spans(list, 0);
    assert forall|j: int| 1 <= j < s.len() implies (#[trigger] s[j]).kind == mp4::TRAK by {
        assert(list[j].0 == mp4::TRAK);
    }
    assert(s[0].kind == mp4::MVHD);
    lemma_found_rest(buf, s, mp4::TRAK as int);
    lemma_found_one(buf, s, seq![mp4::MVHD as int], 0);
}

/// One track of a built movie is read back.
proof fn lemma_read_one(tracks: Seq<Plan>, creation: u64, i: int)
    requires
        readable(tracks, creation),
        0 <= i < tracks.len(),
    ensures
        ({
            let list = builder::moov_list(tracks, creation, tracks.len());
            let buf = builder::list_bytes(list);
            mp4::track_of(buf, list_spans(list, 0)[i + 1].payload()) == Ok::<TrackFacts, Seq<char>>(
                tracks_for(tracks)[i],
            )
        }),
{
    let list = builder::moov_list(tracks, creation, tracks.len());
    let buf = builder::list_bytes(list);
    lemma_moov_list(tracks, creation, tracks.len());
    lemma_movie_boxes(list);
    let b = list_spans(list, 0)[i + 1].payload();
    assert(locatable(tracks[i], track_base(tracks, i)));
    assert(list[i + 1].0 == mp4::TRAK);
    lemma_read_track(buf, b, tracks[i], (i + 1) as u32, track_base(tracks, i));
}

/// The movie box of a built file is read back.
proof fn lemma_read_moov(tracks: Seq<Plan>, creation: u64)
    requires
        readable(tracks, creation),
    ensures
        ({
            let buf = builder::list_bytes(builder::moov_list(tracks, creation, tracks.len()));
            mp4::movie_of(buf) matches Ok(m) && m.tracks == tracks_for(tracks) && m.creation_time
                == mp4::moment_1904((creation as u32) as u64) && m.timescale == 1000 && m.duration
                == builder::longest(tracks) as u32
        }),
{
    let list = builder::moov_list(tracks, creation, tracks.len());
    let buf = builder::list_bytes(list);
    lemma_moov_list(tracks, creation, tracks.len());
    lemma_movie_boxes(list);
    let s = list_spans(list, 0);
    lemma_read_mvhd(buf, s[0].payload(), tracks, creation);
    let traks = payloads(s.skip(1));
    assert forall|i: int| 0 <= i < tracks.len() implies mp4::track_of(buf, #[trigger] traks[i])
        == Ok::<TrackFacts, Seq<char>>(tracks_for(tracks)[i]) by {
        lemma_read_one(tracks, creation, i);
    }
    lemma_read_tracks(buf, tracks, traks, tracks.len());
    assert(traks.take(tracks.len() as int) =~= traks);
    assert(tracks_for(tracks).take(tracks.len() as int) =~= tracks_for(tracks));
}

/// A box with a 32-bit size is the first of what it stands before.
proof fn lemma_first_boxed(s: Seq<u8>, kind: u32, payload: Seq<u8>)
    requires
        at(s, 0, builder::boxed_bytes(kind, payload)),
        payload.len() + 8 <= u32::MAX,
    ensures
        mp4::first_box(s) == Some((8int, (payload.len() + 8) as int)),
        bytes::be32(s, 4) == kind,
        at(s, 8, payload),
{
    let size = (payload.len() + 8) as u32;
    let head = bytes::be32_bytes(size) + bytes::be32_bytes(kind);
    assert(builder::boxed_bytes(kind, payload) =~= head + payload);
    lemma_at_split(s, 0, head, payload);
    lemma_at_split(s, 0, bytes::be32_bytes(size), bytes::be32_bytes(kind));
    lemma_at_be32(s, 0, size);
    lemma_at_be32(s, 4, kind);
}

/// A media box is the first of what it stands before.
proof fn lemma_first_mdat(s: Seq<u8>, tracks: Seq<Plan>)
    requires
        at(s, 0, builder::mdat_bytes(tracks)),
        builder::media(tracks).len() + 16 <= u64::MAX,
    ensures
        mp4::first_box(s) == Some((16int, (builder::media(tracks).len() + 16) as int)),
        bytes::be32(s, 4) == builder::MDAT,
        at(s, 16, builder::media(tracks)),
{
    let size = (builder::media(tracks).len() + 16) as u64;
    let a = bytes::be32_bytes(1);
    let b = bytes::be32_bytes(builder::MDAT);
    let c = bytes::be64_bytes(size);
    let d = builder::media(tracks);
    assert(builder::mdat_bytes(tracks) =~= a + (b + (c + d)));
    lemma_at_split(s, 0, a, b + (c + d));
    lemma_at_split(s, 4, b, c + d);
    lemma_at_split(s, 8, c, d);
    lemma_at_be32(s, 0, 1);
    lemma_at_be32(s, 4, builder::MDAT);
    lemma_at_be64(s, 8, size);
}

/// The first `moov` box of a sequence that ends with the only one.
proof fn lemma_third_is_moov(a: Span, b: Span, c: Span)
    requires
        a.kind != mp4::MOOV,
        b.kind != mp4::MOOV,
        c.kind == mp4::MOOV,
    ensures
        mp4::first_moov(seq![a] + (seq![b] + (seq![c] + Seq::<Span>::empty()))) == Some(c),
{
    let last = seq![c] + Seq::<Span>::empty();
    let two = seq![b] + last;
    let all = seq![a] + two;
    assert(all.drop_first() =~= two);
    assert(two.drop_first() =~= last);
    assert(mp4::first_moov(last) == Some(c));
    assert(mp4::first_moov(two) == Some(c));
}

/// The boxes of a file of three parts, each of which is one box.
#[verifier::spinoff_prover]
proof fn lemma_three_boxes(a: Seq<u8>, b: Seq<u8>, c: Seq<u8>, h: int)
    requires
        mp4::first_box(a + (b + c)) == Some((8int, a.len() as int)),
        mp4::first_box(b + c) == Some((h, b.len() as int)),
        mp4::first_box(c) == Some((8int, c.len() as int)),
        bytes::be32(a + (b + c), 4) != mp4::MOOV,
        bytes::be32(b + c, 4) != mp4::MOOV,
        bytes::be32(c, 4) == mp4::MOOV,
    ensures
        !mp4::cut_off(a + (b + c), 0),
        mp4::first_moov(mp4::spans(a + (b + c), 0, (a + (b + c)).len() as int)) == Some(
            Span {
                kind: mp4::MOOV as int,
                start: a.len() + b.len() + 8int,
                end: (a + (b + c)).len() as int,
            },
        ),
{
    let file = a + (b + c);
    let end = file.len() as int;
    let p1 = a.len() as int;
    let p2 = p1 + b.len();
    assert(file.skip(0) =~= file);
    assert(file.skip(p1) =~= b + c);
    assert(file.skip(p2) =~= c);
    lemma_skipped_code(file, p1, b + c);
    lemma_skipped_code(file, p2, c);
    mp4::lemma_box_step(file, 0, 8, p1);
    mp4::lemma_box_step(file, p1, h, b.len() as int);
    mp4::lemma_box_step(file, p2, 8, c.len() as int);
    mp4::lemma_box_end(file);
    lemma_third_is_moov(
        Span { kind: bytes::be32(file, 4), start: 8, end: p1 },
        Span { kind: bytes::be32(b + c, 4), start: p1 + h, end: p2 },
        Span { kind: mp4::MOOV as int, start: p2 + 8, end },
    );
}

/// The kind of a box that a part of a file begins with.
proof fn lemma_skipped_code(file: Seq<u8>, pos: int, part: Seq<u8>)
    requires
        0 <= pos <= file.len(),
        file.skip(pos) == part,
        part.len() >= 8,
    ensures
        bytes::be32(file, pos + 4) == bytes::be32(part, 4),
{
}

/// A part stands at the beginning of what it is followed by.
proof fn lemma_at_front(a: Seq<u8>, rest: Seq<u8>)
    ensures
        at(a + rest, 0, a),
{
    assert((a + rest).subrange(0, 0 + a.len() as int) =~= a);
}

/// The file type box of a built file.
proof fn lemma_first_ftyp(rest: Seq<u8>)
    ensures
        ({
            let a = builder::boxed_bytes(builder::FTYP, builder::ftyp_payload());
            &&& a.len() == 24
            &&& mp4::first_box(a + rest) == Some((8int, 24int))
            &&& bytes::be32(a + rest, 4) == builder::FTYP
        }),
{
    lemma_words_len(seq![0x6973_6f6du32, 0x0000_0200u32, 0x6973_6f6du32, 0x6d70_3432u32]);
    let a = builder::boxed_bytes(builder::FTYP, builder::ftyp_payload());
    lemma_at_front(a, rest);
    lemma_first_part(builder::FTYP, builder::ftyp_payload(), a, a + rest);
}

/// The length of written 32-bit integers.
proof fn lemma_words_len(v: Seq<u32>)
    ensures
        builder::words_bytes(v).len() == 4 * v.len(),
    decreases v.len(),
{
    if v.len() > 0 {
        lemma_words_len(v.drop_last());
    }
}

/// The length of a box.
proof fn lemma_boxed_len(kind: u32, payload: Seq<u8>)
    ensures
        builder::boxed_bytes(kind, payload).len() == payload.len() + 8,
{
}

/// A box at the beginning of a file.
proof fn lemma_first_part(kind: u32, payload: Seq<u8>, a: Seq<u8>, s: Seq<u8>)
    requires
        payload.len() + 8 <= u32::MAX,
        a == builder::boxed_bytes(kind, payload),
        at(s, 0, a),
    ensures
        a.len() == payload.len() + 8,
        mp4::first_box(s) == Some((8int, a.len() as int)),
        bytes::be32(s, 4) == kind,
{
    lemma_boxed_len(kind, payload);
    lemma_first_boxed(s, kind, payload);
}

/// The media box of a built file.
proof fn lemma_first_media(tracks: Seq<Plan>, rest: Seq<u8>)
    requires
        builder::media(tracks).len() + 16 <= u64::MAX,
    ensures
        ({
            let b = builder::mdat_bytes(tracks);
            &&& b.len() == builder::media(tracks).len() + 16
            &&& mp4::first_box(b + rest) == Some((16int, b.len() as int))
            &&& bytes::be32(b + rest, 4) == builder::MDAT
            &&& at(b + rest, 16, builder::media(tracks))
        }),
{
    let b = builder::mdat_bytes(tracks);
    lemma_at_front(b, rest);
    lemma_first_mdat(b + rest, tracks);
}

/// The movie box of a built file.
proof fn lemma_first_moov(payload: Seq<u8>)
    requires
        payload.len() + 8 <= u32::MAX,
    ensures
        ({
            let c = builder::boxed_bytes(mp4::MOOV, payload);
            &&& c.len() == payload.len() + 8
            &&& mp4::first_box(c) == Some((8int, c.len() as int))
            &&& bytes::be32(c, 4) == mp4::MOOV
            &&& at(c, 8, payload)
        }),
{
    let c = builder::boxed_bytes(mp4::MOOV, payload);
    assert(c.subrange(0, 0 + c.len() as int) =~= c);
    lemma_first_boxed(c, mp4::MOOV, payload);
}

/// The boxes of a built file are read back, and the samples stand behind the
/// header of the media box.
proof fn lemma_file_boxes(tracks: Seq<Plan>, creation: u64)
    requires
        readable(tracks, creation),
    ensures
        ({
            let file = builder::file_bytes(tracks, creation);
            let moov = builder::list_bytes(builder::moov_list(tracks, creation, tracks.len()));
            &&& !mp4::cut_off(file, 0)
            &&& mp4::first_moov(mp4::spans(file, 0, file.len() as int)) matches Some(b)
                && b.end - b.start == moov.len() && file.subrange(b.start, b.end) == moov
            &&& at(file, builder::media_start(), builder::media(tracks))
        }),
{
    let moov = builder::list_bytes(builder::moov_list(tracks, creation, tracks.len()));
    let a = builder::boxed_bytes(builder::FTYP, builder::ftyp_payload());
    let b = builder::mdat_bytes(tracks);
    let c = builder::boxed_bytes(mp4::MOOV, moov);
    lemma_first_ftyp(b + c);
    lemma_first_media(tracks, c);
    lemma_first_moov(moov);
    lemma_three_boxes(a, b, c, 16);
    lemma_parts_stand(a, b, c, moov, builder::media(tracks));
}

/// What stands in the second and third part of a file stands in the file.
proof fn lemma_parts_stand(
    a: Seq<u8>,
    b: Seq<u8>,
    c: Seq<u8>,
    moov: Seq<u8>,
    media: Seq<u8>,
)
    requires
        at(b + c, 16, media),
        at(c, 8, moov),
        c.len() == moov.len() + 8,
    ensures
        a + b + c == a + (b + c),
        at(a + (b + c), a.len() + 16int, media),
        (a + (b + c)).subrange(
            a.len() + b.len() + 8int,
            (a + (b + c)).len() as int,
        ) == moov,
{
    let file = a + (b + c);
    assert(a + b + c =~= file);
    assert(file.subrange(a.len() as int, a.len() as int + (b + c).len()) =~= b + c);
    lemma_at_inner(file, a.len() as int, b + c, 16, media);
    assert(file.subrange((a.len() + b.len()) as int, (a.len() + b.len()) as int + c.len()) =~= c);
    lemma_at_inner(file, (a.len() + b.len()) as int, c, 8, moov);
}

/// The samples of one track stand within the media data.
proof fn lemma_media_part(tracks: Seq<Plan>, i: int)
    requires
        0 <= i < tracks.len(),
    ensures
        at(
            builder::media(tracks),
            builder::media(tracks.take(i)).len() as int,
            builder::flat(tracks[i].samples),
        ),
    decreases tracks.len(),
{
    let all = builder::media(tracks);
    let front = tracks.drop_last();
    let part = builder::flat(tracks[i].samples);
    if i + 1 == tracks.len() {
        assert(tracks.take(i) =~= front);
        assert(all.subrange(builder::media(front).len() as int, all.len() as int) =~= part);
    } else {
        lemma_media_part(front, i);
        assert(front.take(i) =~= tracks.take(i));
        let from = builder::media(tracks.take(i)).len() as int;
        assert(all.subrange(from, from + part.len()) =~= builder::media(front).subrange(
            from,
            from + part.len(),
        ));
    }
}

/// The bytes of the sample `j` of a track in its file.
pub open spec fn sample_bytes(file: Seq<u8>, t: TrackFacts, j: int) -> Seq<u8> {
    file.subrange(t.offsets[j] as int, t.offsets[j] + t.sizes[j])
}

/// Where the sample `j` of a track ends in its file.
pub open spec fn sample_end(t: TrackFacts, j: int) -> int {
    t.offsets[j] + t.sizes[j]
}

/// Reading a built file gives back its tracks: their number, their identity,
/// handler, format and time scale, the decode time of every sample, and its
/// bytes, which lie within the file at the offset and of the size that were
/// read.
pub proof fn built_file_reads_back(tracks: Seq<Plan>, creation: u64)
    requires
        readable(tracks, creation),
    ensures
        ({
            let file = builder::file_bytes(tracks, creation);
            &&& !mp4::cut_off(file, 0)
            &&& mp4::movie_in(file) matches Ok(m) && m.tracks == tracks_for(tracks)
                && m.creation_time == mp4::moment_1904((creation as u32) as u64) && m.timescale
                == 1000 && m.duration == builder::longest(tracks) as u32
            &&& forall|i: int, j: int|
                0 <= i < tracks.len() && 0 <= j < tracks[i].samples.len()
                    ==> #[trigger] sample_bytes(file, tracks_for(tracks)[i], j)
                    == tracks[i].samples[j] && sample_end(tracks_for(tracks)[i], j) <= file.len()
        }),
{
    let file = builder::file_bytes(tracks, creation);
    lemma_file_boxes(tracks, creation);
    lemma_read_moov(tracks, creation);
    assert forall|i: int, j: int|
        0 <= i < tracks.len() && 0 <= j
            < tracks[i].samples.len() implies #[trigger] sample_bytes(
        file,
        tracks_for(tracks)[i],
        j,
    ) == tracks[i].samples[j] && sample_end(tracks_for(tracks)[i], j) <= file.len() by {
        let plan = tracks[i];
        assert(locatable(plan, track_base(tracks, i)));
        assert(plan.samples[j].len() <= u32::MAX);
        lemma_media_part(tracks, i);
        lemma_flat_prefix(plan.samples, j);
        let in_media = builder::media(tracks.take(i)).len() as int;
        let in_track = builder::flat(plan.samples.take(j)).len() as int;
        lemma_at_inner(
            builder::media(tracks),
            in_media,
            builder::flat(plan.samples),
            in_track,
            plan.samples[j],
        );
        lemma_at_inner(
            file,
            builder::media_start(),
            builder::media(tracks),
            in_media + in_track,
            plan.samples[j],
        );
    }
}

} // verus!
