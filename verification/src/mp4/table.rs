//! The sample table of a track (`stbl`): where each sample lies in the file and
//! when it is decoded.

use crate::bytes;
use crate::mp4;
use crate::mp4::{Mp4Error, Region, Span};
use crate::text;
use vstd::prelude::*;
use vstd::slice::slice_subrange;

verus! {

/// The tables of a track as they are stored.
pub struct Tables {
    /// Format of the first sample entry.
    pub fourcc: Option<Seq<char>>,
    /// Size of each sample.
    pub sizes: Seq<u32>,
    /// File offset of each chunk.
    pub chunks: Seq<u64>,
    /// First chunk, and samples in each chunk from there on.
    pub runs: Seq<(u32, u32)>,
    /// Number of samples, and their duration.
    pub deltas: Seq<(u32, u32)>,
}

/// `count` big-endian 32-bit integers from `pos` on.
pub open spec fn words(buf: Seq<u8>, pos: int, count: nat) -> Seq<u32> {
    Seq::new(count, |i: int| bytes::be32(buf, pos + 4 * i) as u32)
}

/// `count` big-endian 32-bit integers from `pos` on, as 64-bit integers.
pub open spec fn long_words(buf: Seq<u8>, pos: int, count: nat) -> Seq<u64> {
    Seq::new(count, |i: int| bytes::be32(buf, pos + 4 * i) as u64)
}

/// `count` big-endian 64-bit integers from `pos` on.
pub open spec fn longs(buf: Seq<u8>, pos: int, count: nat) -> Seq<u64> {
    Seq::new(count, |i: int| bytes::be64(buf, pos + 8 * i) as u64)
}

/// `count` pairs of big-endian 32-bit integers, `stride` bytes apart, from
/// `pos` on.
pub open spec fn pairs(buf: Seq<u8>, pos: int, count: nat, stride: int) -> Seq<(u32, u32)> {
    Seq::new(
        count,
        |i: int|
            (
                bytes::be32(buf, pos + stride * i) as u32,
                bytes::be32(buf, pos + stride * i + 4) as u32,
            ),
    )
}

/// The tables before any box is read.
pub open spec fn no_tables() -> Tables {
    Tables {
        fourcc: None,
        sizes: Seq::empty(),
        chunks: Seq::empty(),
        runs: Seq::empty(),
        deltas: Seq::empty(),
    }
}

/// The tables after one more box of the sample table; an error text when a
/// table is cut off.
pub open spec fn with_box(t: Tables, buf: Seq<u8>, b: Span) -> Result<Tables, Seq<char>> {
    let len = b.end - b.start;
    let count = bytes::be32(buf, b.start + 4);
    if b.kind == mp4::STSD {
        if len >= 16 {
            Ok(
                Tables {
                    fourcc: Some(text::utf8_lossy(buf.subrange(b.start + 12, b.start + 16))),
                    ..t
                },
            )
        } else {
            Ok(t)
        }
    } else if b.kind == mp4::STSZ {
        let number = bytes::be32(buf, b.start + 8);
        if len < 12 {
            Err("short stsz"@)
        } else if count != 0 {
            Ok(Tables { sizes: Seq::new(number as nat, |i: int| count as u32), ..t })
        } else if len < 12 + number * 4 {
            Err("short stsz table"@)
        } else {
            Ok(Tables { sizes: words(buf, b.start + 12, number as nat), ..t })
        }
    } else if b.kind == mp4::STCO {
        if len < 8 || len < 8 + count * 4 {
            Err("short stco"@)
        } else {
            Ok(Tables { chunks: long_words(buf, b.start + 8, count as nat), ..t })
        }
    } else if b.kind == mp4::CO64 {
        if len < 8 || len < 8 + count * 8 {
            Err("short co64"@)
        } else {
            Ok(Tables { chunks: longs(buf, b.start + 8, count as nat), ..t })
        }
    } else if b.kind == mp4::STSC {
        if len < 8 || len < 8 + count * 12 {
            Err("short stsc"@)
        } else {
            Ok(Tables { runs: pairs(buf, b.start + 8, count as nat, 12), ..t })
        }
    } else if b.kind == mp4::STTS {
        if len < 8 || len < 8 + count * 8 {
            Err("short stts"@)
        } else {
            Ok(Tables { deltas: pairs(buf, b.start + 8, count as nat, 8), ..t })
        }
    } else {
        Ok(t)
    }
}

/// The tables in a sequence of boxes; a later box replaces an earlier one of
/// the same kind.
pub open spec fn tables_in(buf: Seq<u8>, of: Seq<Span>) -> Result<Tables, Seq<char>>
    decreases of.len(),
{
    if of.len() == 0 {
        Ok(no_tables())
    } else {
        match tables_in(buf, of.drop_last()) {
            Err(e) => Err(e),
            Ok(t) => with_box(t, buf, of.last()),
        }
    }
}

/// The sum of the sizes from `from` up to `to`.
pub open spec fn size_sum(sizes: Seq<u32>, from: int, to: int) -> int
    decreases to - from,
{
    if to <= from {
        0
    } else {
        size_sum(sizes, from, to - 1) + sizes[to - 1]
    }
}

/// The offsets after `count` more samples that lie one behind the other from
/// `at` on; offsets are 64-bit integers that wrap around.
pub open spec fn with_samples(offsets: Seq<u64>, sizes: Seq<u32>, at: u64, count: nat) -> Seq<u64> {
    offsets + Seq::new(
        count,
        |i: int|
            ((at + size_sum(sizes, offsets.len() as int, offsets.len() + i))
                % 0x1_0000_0000_0000_0000) as u64,
    )
}

/// The smaller of two numbers.
pub open spec fn least(a: int, b: int) -> int {
    if a <= b {
        a
    } else {
        b
    }
}

/// The offsets after `count` chunks, from the chunk `first` on, with
/// `per_chunk` samples each, as long as there are samples.
pub open spec fn with_chunks(
    offsets: Seq<u64>,
    t: Tables,
    first: int,
    per_chunk: u32,
    count: nat,
) -> Seq<u64>
    decreases count,
{
    if count == 0 {
        offsets
    } else {
        let before = with_chunks(offsets, t, first, per_chunk, (count - 1) as nat);
        with_samples(
            before,
            t.sizes,
            t.chunks[first + count - 2],
            least(per_chunk as int, t.sizes.len() - before.len()) as nat,
        )
    }
}

/// The last chunk of the run `k`: the one before the next run, or the last
/// chunk of all. The number wraps around, like all of them in 32 bits.
pub open spec fn run_last(t: Tables, k: int) -> int {
    if k + 1 < t.runs.len() {
        let next = t.runs[k + 1].0;
        if next == 0 {
            0xffff_ffff
        } else {
            next - 1
        }
    } else {
        t.chunks.len() as int
    }
}

/// The number of chunks of the run `k` that exist.
pub open spec fn run_count(t: Tables, k: int) -> nat {
    let first = t.runs[k].0;
    let last = least(run_last(t, k), t.chunks.len() as int);
    if first == 0 || last < first {
        0
    } else {
        (last - first + 1) as nat
    }
}

/// Whether the run `k` names a chunk that does not exist, which ends the table.
pub open spec fn run_stops(t: Tables, k: int) -> bool {
    let first = t.runs[k].0;
    first <= run_last(t, k) && (first == 0 || run_last(t, k) > t.chunks.len())
}

/// Whether the table ends within the first `k` runs.
pub open spec fn stopped(t: Tables, k: nat) -> bool {
    exists|j: int| 0 <= j < k && #[trigger] run_stops(t, j)
}

/// The offsets of the samples in the first `k` runs.
pub open spec fn placed(t: Tables, k: nat) -> Seq<u64>
    decreases k,
{
    if k == 0 {
        Seq::empty()
    } else {
        let before = placed(t, (k - 1) as nat);
        if stopped(t, (k - 1) as nat) {
            before
        } else {
            with_chunks(before, t, t.runs[k - 1].0 as int, t.runs[k - 1].1, run_count(t, k - 1))
        }
    }
}

/// The offset of each sample that the tables place.
pub open spec fn offsets_of(t: Tables) -> Seq<u64> {
    placed(t, t.runs.len())
}

/// The number of samples in a table of durations.
pub open spec fn delta_count(deltas: Seq<(u32, u32)>) -> nat
    decreases deltas.len(),
{
    if deltas.len() == 0 {
        0
    } else {
        delta_count(deltas.drop_last()) + deltas.last().0 as nat
    }
}

/// The duration of the sample `i`: that of the entry it falls in.
pub open spec fn delta_of(deltas: Seq<(u32, u32)>, i: int) -> int
    decreases deltas.len(),
{
    if deltas.len() == 0 {
        0
    } else if i < delta_count(deltas.drop_last()) {
        delta_of(deltas.drop_last(), i)
    } else {
        deltas.last().1 as int
    }
}

/// The decode time of the sample `i`: the durations of all samples before it.
pub open spec fn tick(deltas: Seq<(u32, u32)>, i: int) -> int
    decreases i,
{
    if i <= 0 {
        0
    } else {
        tick(deltas, i - 1) + delta_of(deltas, i - 1)
    }
}

/// The decode times, in units of the time scale, of the first `n` samples as
/// far as the table goes.
pub open spec fn ticks_of(deltas: Seq<(u32, u32)>, n: nat) -> Seq<u64> {
    Seq::new(least(n as int, delta_count(deltas) as int) as nat, |i: int| tick(deltas, i) as u64)
}

/// The duration in the last entry, with which the times go on behind the table.
pub open spec fn tail_delta_of(deltas: Seq<(u32, u32)>) -> u32 {
    if deltas.len() == 0 {
        0
    } else {
        deltas.last().1
    }
}

/// The tables of a track.
pub struct RawTables {
    pub fourcc: Option<String>,
    pub sizes: Vec<u32>,
    pub chunks: Vec<u64>,
    pub runs: Vec<(u32, u32)>,
    pub deltas: Vec<(u32, u32)>,
}

impl View for RawTables {
    type V = Tables;

    open spec fn view(&self) -> Tables {
        Tables {
            fourcc: match self.fourcc {
                Some(f) => Some(f@),
                None => None,
            },
            sizes: self.sizes@,
            chunks: self.chunks@,
            runs: self.runs@,
            deltas: self.deltas@,
        }
    }
}

fn read_words(buf: &[u8], pos: usize, count: usize) -> (r: Vec<u32>)
    requires
        pos + count * 4 <= buf@.len(),
    ensures
        r@ == words(buf@, pos as int, count as nat),
{
    let mut out: Vec<u32> = Vec::new();
    let mut i: usize = 0;
    while i < count
        invariant
            i <= count,
            pos + count * 4 <= buf@.len(),
            out@ == words(buf@, pos as int, i as nat),
        decreases count - i,
    {
        assert(buf@.len() == buf.len());
        out.push(bytes::be_u32(buf, pos + 4 * i));
        i = i + 1;
        assert(out@ =~= words(buf@, pos as int, i as nat));
    }
    out
}

fn read_long_words(buf: &[u8], pos: usize, count: usize) -> (r: Vec<u64>)
    requires
        pos + count * 4 <= buf@.len(),
    ensures
        r@ == long_words(buf@, pos as int, count as nat),
{
    let mut out: Vec<u64> = Vec::new();
    let mut i: usize = 0;
    while i < count
        invariant
            i <= count,
            pos + count * 4 <= buf@.len(),
            out@ == long_words(buf@, pos as int, i as nat),
        decreases count - i,
    {
        assert(buf@.len() == buf.len());
        out.push(bytes::be_u32(buf, pos + 4 * i) as u64);
        i = i + 1;
        assert(out@ =~= long_words(buf@, pos as int, i as nat));
    }
    out
}

fn read_longs(buf: &[u8], pos: usize, count: usize) -> (r: Vec<u64>)
    requires
        pos + count * 8 <= buf@.len(),
    ensures
        r@ == longs(buf@, pos as int, count as nat),
{
    let mut out: Vec<u64> = Vec::new();
    let mut i: usize = 0;
    while i < count
        invariant
            i <= count,
            pos + count * 8 <= buf@.len(),
            out@ == longs(buf@, pos as int, i as nat),
        decreases count - i,
    {
        assert(buf@.len() == buf.len());
        out.push(bytes::be_u64(buf, pos + 8 * i));
        i = i + 1;
        assert(out@ =~= longs(buf@, pos as int, i as nat));
    }
    out
}

fn read_pairs(buf: &[u8], pos: usize, count: usize, stride: usize) -> (r: Vec<(u32, u32)>)
    requires
        pos + count * stride <= buf@.len(),
        stride == 8 || stride == 12,
    ensures
        r@ == pairs(buf@, pos as int, count as nat, stride as int),
{
    let mut out: Vec<(u32, u32)> = Vec::new();
    let mut i: usize = 0;
    while i < count
        invariant
            i <= count,
            pos + count * stride <= buf@.len(),
            stride == 8 || stride == 12,
            out@ == pairs(buf@, pos as int, i as nat, stride as int),
        decreases count - i,
    {
        assert(buf@.len() == buf.len());
        let p: usize = if stride == 8 {
            pos + 8 * i
        } else {
            pos + 12 * i
        };
        out.push((bytes::be_u32(buf, p), bytes::be_u32(buf, p + 4)));
        i = i + 1;
        assert(out@ =~= pairs(buf@, pos as int, i as nat, stride as int));
    }
    out
}

fn repeated(value: u32, count: usize) -> (r: Vec<u32>)
    ensures
        r@ == Seq::new(count as nat, |i: int| value),
{
    let mut out: Vec<u32> = Vec::new();
    let mut i: usize = 0;
    while i < count
        invariant
            i <= count,
            out@ == Seq::new(i as nat, |i: int| value),
        decreases count - i,
    {
        out.push(value);
        i = i + 1;
        assert(out@ =~= Seq::new(i as nat, |i: int| value));
    }
    out
}

/// Whether a table of `count` entries of `width` bytes behind `head` bytes fits
/// in `len` bytes.
fn fits(len: usize, head: u64, count: u32, width: u64) -> (r: bool)
    requires
        head <= 12,
        width <= 12,
    ensures
        r == (len >= head + count * width),
{
    assert(count * width <= 0xffff_ffff * 12) by (nonlinear_arith)
        requires
            width <= 12,
    ;
    len as u64 >= head + count as u64 * width
}

/// Reads one box of the sample table.
fn read_box(t: &mut RawTables, buf: &[u8], b: Region) -> (r: Result<(), Mp4Error>)
    requires
        b.start <= b.end <= buf@.len(),
    ensures
        match r {
            Ok(_) => with_box(old(t)@, buf@, b@) == Ok::<Tables, Seq<char>>(final(t)@) && (
            old(t).sizes@.len() <= u32::MAX ==> final(t).sizes@.len() <= u32::MAX),
            Err(e) => e matches Mp4Error::Malformed(what) && with_box(old(t)@, buf@, b@) == Err::<
                Tables,
                Seq<char>,
            >(what@),
        },
{
    let s: usize = b.start;
    let len: usize = b.end - b.start;
    if b.kind == mp4::STSD {
        if len >= 16 {
            let code: &[u8] = slice_subrange(buf, s + 12, s + 16);
            t.fourcc = Some(text::lossy_text(code));
        }
    } else if b.kind == mp4::STSZ {
        if len < 12 {
            return Err(Mp4Error::Malformed("short stsz"));
        }
        let sample_size: u32 = bytes::be_u32(buf, s + 4);
        let count: u32 = bytes::be_u32(buf, s + 8);
        if sample_size != 0 {
            t.sizes = repeated(sample_size, count as usize);
        } else {
            if !fits(len, 12, count, 4) {
                return Err(Mp4Error::Malformed("short stsz table"));
            }
            t.sizes = read_words(buf, s + 12, count as usize);
        }
    } else if b.kind == mp4::STCO {
        if len < 8 {
            return Err(Mp4Error::Malformed("short stco"));
        }
        let count: u32 = bytes::be_u32(buf, s + 4);
        if !fits(len, 8, count, 4) {
            return Err(Mp4Error::Malformed("short stco"));
        }
        t.chunks = read_long_words(buf, s + 8, count as usize);
    } else if b.kind == mp4::CO64 {
        if len < 8 {
            return Err(Mp4Error::Malformed("short co64"));
        }
        let count: u32 = bytes::be_u32(buf, s + 4);
        if !fits(len, 8, count, 8) {
            return Err(Mp4Error::Malformed("short co64"));
        }
        t.chunks = read_longs(buf, s + 8, count as usize);
    } else if b.kind == mp4::STSC {
        if len < 8 {
            return Err(Mp4Error::Malformed("short stsc"));
        }
        let count: u32 = bytes::be_u32(buf, s + 4);
        if !fits(len, 8, count, 12) {
            return Err(Mp4Error::Malformed("short stsc"));
        }
        t.runs = read_pairs(buf, s + 8, count as usize, 12);
    } else if b.kind == mp4::STTS {
        if len < 8 {
            return Err(Mp4Error::Malformed("short stts"));
        }
        let count: u32 = bytes::be_u32(buf, s + 4);
        if !fits(len, 8, count, 8) {
            return Err(Mp4Error::Malformed("short stts"));
        }
        t.deltas = read_pairs(buf, s + 8, count as usize, 8);
    }
    Ok(())
}

/// Reads the boxes of the sample table from `start` to `end`.
pub fn read_tables(buf: &[u8], start: usize, end: usize) -> (r: Result<RawTables, Mp4Error>)
    requires
        start <= end <= buf@.len(),
    ensures
        match r {
            Ok(t) => tables_in(buf@, mp4::spans(buf@, start as int, end as int)) == Ok::<
                Tables,
                Seq<char>,
            >(t@) && t.sizes@.len() <= u32::MAX,
            Err(e) => e matches Mp4Error::Malformed(what) && tables_in(
                buf@,
                mp4::spans(buf@, start as int, end as int),
            ) == Err::<Tables, Seq<char>>(what@),
        },
{
    let boxes: Vec<Region> = mp4::iter_boxes(buf, start, end);
    let ghost all = mp4::regions(boxes@);
    let mut t: RawTables = RawTables {
        fourcc: None,
        sizes: Vec::new(),
        chunks: Vec::new(),
        runs: Vec::new(),
        deltas: Vec::new(),
    };
    let mut i: usize = 0;
    while i < boxes.len()
        invariant
            i <= boxes@.len(),
            end <= buf@.len(),
            all == mp4::regions(boxes@),
            all == mp4::spans(buf@, start as int, end as int),
            forall|k: int| 0 <= k < boxes@.len() ==> mp4::inside(#[trigger] boxes@[k], start, end),
            tables_in(buf@, all.take(i as int)) == Ok::<Tables, Seq<char>>(t@),
            t.sizes@.len() <= u32::MAX,
        decreases boxes@.len() - i,
    {
        proof {
            assert(all.take(i + 1).drop_last() =~= all.take(i as int));
            assert(all.take(i + 1).last() == boxes@[i as int]@);
        }
        match read_box(&mut t, buf, boxes[i]) {
            Ok(_) => {},
            Err(e) => {
                proof {
                    lemma_error_stays(buf@, all, i + 1);
                }
                return Err(e);
            },
        }
        i = i + 1;
    }
    assert(all.take(i as int) =~= all);
    Ok(t)
}

/// An error in the first `k` boxes is the error of all.
proof fn lemma_error_stays(buf: Seq<u8>, of: Seq<Span>, k: int)
    requires
        0 <= k <= of.len(),
        tables_in(buf, of.take(k)) is Err,
    ensures
        tables_in(buf, of) == tables_in(buf, of.take(k)),
    decreases of.len() - k,
{
    if k == of.len() {
        assert(of.take(k) =~= of);
    } else {
        assert(of.take(k + 1).drop_last() =~= of.take(k));
        lemma_error_stays(buf, of, k + 1);
    }
}

/// Appends the offsets of the samples of one chunk.
fn place_chunk(out: &mut Vec<u64>, sizes: &Vec<u32>, at: u64, per_chunk: u32)
    requires
        old(out)@.len() <= sizes@.len(),
    ensures
        final(out)@ == with_samples(
            old(out)@,
            sizes@,
            at,
            least(per_chunk as int, sizes@.len() - old(out)@.len()) as nat,
        ),
        final(out)@.len() <= sizes@.len(),
{
    let ghost before = out@;
    let base: usize = out.len();
    let left: usize = sizes.len() - base;
    let count: usize = if (per_chunk as u64) < left as u64 {
        per_chunk as usize
    } else {
        left
    };
    let mut pos: u64 = at;
    let mut i: usize = 0;
    assert(out@ =~= with_samples(before, sizes@, at, 0));
    while i < count
        invariant
            i <= count,
            base == before.len(),
            base + count <= sizes.len(),
            pos == (at + size_sum(sizes@, base as int, base + i)) % 0x1_0000_0000_0000_0000,
            out@ == with_samples(before, sizes@, at, i as nat),
        decreases count - i,
    {
        out.push(pos);
        let size: u64 = sizes[base + i] as u64;
        let ghost sum = at + size_sum(sizes@, base as int, base + i);
        pos = if size <= u64::MAX - pos {
            pos + size
        } else {
            size - (u64::MAX - pos) - 1
        };
        proof {
            assert(pos == (sum + size) % 0x1_0000_0000_0000_0000);
        }
        i = i + 1;
        assert(out@ =~= with_samples(before, sizes@, at, i as nat));
    }
}

/// Once the table has ended, no more samples are placed.
proof fn lemma_placed_stays(t: Tables, k: nat, m: nat)
    requires
        k <= m,
        stopped(t, k),
    ensures
        placed(t, m) == placed(t, k),
        stopped(t, m),
    decreases m - k,
{
    if k < m {
        lemma_placed_stays(t, k, (m - 1) as nat);
    }
}

/// Locates every sample through the chunk table.
pub fn place(t: &RawTables) -> (r: Vec<u64>)
    ensures
        r@ == offsets_of(t@),
        r@.len() <= t.sizes@.len(),
{
    let n: u64 = t.chunks.len() as u64;
    let mut out: Vec<u64> = Vec::new();
    let mut stop: bool = false;
    let mut k: usize = 0;
    while k < t.runs.len() && !stop
        invariant
            k <= t.runs@.len(),
            n == t.chunks@.len(),
            n <= usize::MAX,
            stop == stopped(t@, k as nat),
            out@ == placed(t@, k as nat),
            out@.len() <= t.sizes@.len(),
        decreases t.runs@.len() - k,
    {
        let first: u64 = t.runs[k].0 as u64;
        let per_chunk: u32 = t.runs[k].1;
        let last: u64 = if k + 1 < t.runs.len() {
            let next: u32 = t.runs[k + 1].0;
            if next == 0 {
                0xffff_ffff
            } else {
                next as u64 - 1
            }
        } else {
            n
        };
        let top: u64 = if last <= n {
            last
        } else {
            n
        };
        let count: u64 = if first == 0 || top < first {
            0
        } else {
            top - first + 1
        };
        let ghost before = out@;
        let mut c: u64 = 0;
        while c < count
            invariant
                c <= count,
                count > 0 ==> 1 <= first && first + count - 1 <= n,
                n == t.chunks@.len(),
                n <= usize::MAX,
                out@ == with_chunks(before, t@, first as int, per_chunk, c as nat),
                out@.len() <= t.sizes@.len(),
            decreases count - c,
        {
            place_chunk(&mut out, &t.sizes, t.chunks[(first + c - 1) as usize], per_chunk);
            c = c + 1;
        }
        stop = first <= last && (first == 0 || last > n);
        proof {
            assert(last == run_last(t@, k as int));
            assert(count == run_count(t@, k as int));
            assert(stop == run_stops(t@, k as int));
            assert(stop == stopped(t@, (k + 1) as nat)) by {
                if stop {
                    assert(run_stops(t@, k as int));
                } else if stopped(t@, (k + 1) as nat) {
                    let j = choose|j: int| 0 <= j < k + 1 && #[trigger] run_stops(t@, j);
                    if j < k {
                        assert(stopped(t@, k as nat));
                    }
                }
            }
        }
        k = k + 1;
    }
    proof {
        if stop {
            lemma_placed_stays(t@, k as nat, t.runs@.len());
        }
    }
    out
}

/// More entries hold no fewer samples, and do not change the durations of
/// those before.
proof fn lemma_delta_prefix(deltas: Seq<(u32, u32)>, k: int, i: int)
    requires
        0 <= k <= deltas.len(),
        i < delta_count(deltas.take(k)),
    ensures
        delta_of(deltas, i) == delta_of(deltas.take(k), i),
        delta_count(deltas.take(k)) <= delta_count(deltas),
    decreases deltas.len() - k,
{
    if k == deltas.len() {
        assert(deltas.take(k) =~= deltas);
    } else {
        assert(deltas.take(k + 1).drop_last() =~= deltas.take(k));
        lemma_delta_prefix(deltas, k + 1, i);
    }
}

/// The number of samples grows with the entries.
proof fn lemma_delta_count(deltas: Seq<(u32, u32)>, k: int)
    requires
        0 <= k <= deltas.len(),
    ensures
        delta_count(deltas.take(k)) <= delta_count(deltas),
    decreases deltas.len() - k,
{
    if k == deltas.len() {
        assert(deltas.take(k) =~= deltas);
    } else {
        assert(deltas.take(k + 1).drop_last() =~= deltas.take(k));
        lemma_delta_count(deltas, k + 1);
    }
}

/// Expands the table of durations to the decode times of up to `n` samples.
pub fn expand(deltas: &Vec<(u32, u32)>, n: usize) -> (r: Vec<u64>)
    requires
        n <= u32::MAX,
    ensures
        r@ == ticks_of(deltas@, n as nat),
{
    let mut out: Vec<u64> = Vec::new();
    let mut t: u64 = 0;
    let mut k: usize = 0;
    while k < deltas.len() && out.len() < n
        invariant
            k <= deltas@.len(),
            n <= u32::MAX,
            out@.len() == least(n as int, delta_count(deltas@.take(k as int)) as int),
            out@ == Seq::new(out@.len(), |i: int| tick(deltas@, i) as u64),
            t == tick(deltas@, out@.len() as int),
            t <= out@.len() * 0xffff_ffff,
        decreases deltas@.len() - k,
    {
        let (count, delta): (u32, u32) = deltas[k];
        let ghost base = out@.len();
        proof {
            assert(deltas@.take(k + 1).drop_last() =~= deltas@.take(k as int));
        }
        let mut c: u32 = 0;
        while c < count && out.len() < n
            invariant
                c <= count,
                k < deltas@.len(),
                n <= u32::MAX,
                (count, delta) == deltas@[k as int],
                base == delta_count(deltas@.take(k as int)),
                deltas@.take(k + 1).drop_last() == deltas@.take(k as int),
                out@.len() == base + c,
                out@.len() <= n,
                out@ == Seq::new(out@.len(), |i: int| tick(deltas@, i) as u64),
                t == tick(deltas@, out@.len() as int),
                t <= out@.len() * 0xffff_ffff,
            decreases count - c,
        {
            proof {
                lemma_delta_prefix(deltas@, k + 1, out@.len() as int);
                assert(delta_of(deltas@, out@.len() as int) == delta);
                assert((out@.len() + 1) * 0xffff_ffff == out@.len() * 0xffff_ffff + 0xffff_ffff);
                assert(out@.len() * 0xffff_ffff <= 0xffff_fffe * 0xffff_ffff);
            }
            let ghost before = out@;
            out.push(t);
            t = t + delta as u64;
            c = c + 1;
            assert(out@ =~= Seq::new(out@.len(), |i: int| tick(deltas@, i) as u64));
        }
        k = k + 1;
    }
    proof {
        lemma_delta_count(deltas@, k as int);
        if k == deltas.len() {
            assert(deltas@.take(k as int) =~= deltas@);
        }
        assert(out@ =~= ticks_of(deltas@, n as nat));
    }
    out
}

/// The duration in the last entry of the table.
pub fn last_delta(deltas: &Vec<(u32, u32)>) -> (r: u32)
    ensures
        r == tail_delta_of(deltas@),
{
    if deltas.len() == 0 {
        0
    } else {
        deltas[deltas.len() - 1].1
    }
}

proof fn lemma_delta_bound(deltas: Seq<(u32, u32)>, i: int)
    ensures
        0 <= delta_of(deltas, i) <= u32::MAX,
    decreases deltas.len(),
{
    if deltas.len() > 0 {
        lemma_delta_bound(deltas.drop_last(), i);
    }
}

proof fn lemma_ticks_grow(deltas: Seq<(u32, u32)>, i: int, j: int)
    requires
        0 <= i <= j,
    ensures
        0 <= tick(deltas, i) <= tick(deltas, j) <= j * u32::MAX,
    decreases j,
{
    if j > 0 {
        lemma_delta_bound(deltas, j - 1);
        if i < j {
            lemma_ticks_grow(deltas, i, j - 1);
        } else {
            lemma_ticks_grow(deltas, i - 1, j - 1);
        }
    }
}

/// Decode times never go back.
pub proof fn decode_times_go_forward(deltas: Seq<(u32, u32)>, n: nat)
    requires
        n <= u32::MAX,
    ensures
        forall|i: int, j: int|
            0 <= i <= j < ticks_of(deltas, n).len() ==> #[trigger] ticks_of(deltas, n)[i]
                <= #[trigger] ticks_of(deltas, n)[j],
{
    assert forall|i: int, j: int| 0 <= i <= j < ticks_of(deltas, n).len() implies #[trigger] ticks_of(
        deltas,
        n,
    )[i] <= #[trigger] ticks_of(deltas, n)[j] by {
        lemma_ticks_grow(deltas, i, j);
        assert(j * u32::MAX <= u32::MAX * u32::MAX) by (nonlinear_arith)
            requires
                0 <= j <= u32::MAX,
        ;
    }
}

proof fn lemma_chunks_fit(offsets: Seq<u64>, t: Tables, first: int, per_chunk: u32, count: nat)
    requires
        offsets.len() <= t.sizes.len(),
    ensures
        with_chunks(offsets, t, first, per_chunk, count).len() <= t.sizes.len(),
    decreases count,
{
    if count > 0 {
        lemma_chunks_fit(offsets, t, first, per_chunk, (count - 1) as nat);
    }
}

proof fn lemma_runs_fit(t: Tables, k: nat)
    ensures
        placed(t, k).len() <= t.sizes.len(),
    decreases k,
{
    if k > 0 {
        lemma_runs_fit(t, (k - 1) as nat);
        lemma_chunks_fit(
            placed(t, (k - 1) as nat),
            t,
            t.runs[k - 1].0 as int,
            t.runs[k - 1].1,
            run_count(t, k - 1),
        );
    }
}

/// No more samples are placed than have a size.
pub proof fn placed_samples_have_sizes(t: Tables)
    ensures
        offsets_of(t).len() <= t.sizes.len(),
{
    lemma_runs_fit(t, t.runs.len());
}

} // verus!
