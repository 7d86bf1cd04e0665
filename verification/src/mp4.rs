//! ISO BMFF (MP4) parsing, as far as the samples of a metadata track need it.
//!
//! Only box headers and the `moov` box are read; a sample is located by its
//! offset and size in the file.

use crate::bytes;
use crate::text;
use crate::time;
use crate::time::{Moment, Timestamp};
use vstd::prelude::*;
use vstd::slice::slice_subrange;

pub mod builder;
pub mod round_trip;
pub mod table;

verus! {

/// The codes of the box kinds, as big-endian integers of their four characters.
pub const MOOV: u32 = 0x6d6f_6f76;

pub const MVHD: u32 = 0x6d76_6864;

pub const UDTA: u32 = 0x7564_7461;

pub const TRAK: u32 = 0x7472_616b;

pub const TKHD: u32 = 0x746b_6864;

pub const MDIA: u32 = 0x6d64_6961;

pub const MDHD: u32 = 0x6d64_6864;

pub const HDLR: u32 = 0x6864_6c72;

pub const MINF: u32 = 0x6d69_6e66;

pub const STBL: u32 = 0x7374_626c;

pub const STSD: u32 = 0x7374_7364;

pub const STSZ: u32 = 0x7374_737a;

pub const STCO: u32 = 0x7374_636f;

pub const CO64: u32 = 0x636f_3634;

pub const STSC: u32 = 0x7374_7363;

pub const STTS: u32 = 0x7374_7473;

/// Seconds between 1904-01-01 (MP4 epoch) and 1970-01-01.
pub const MP4_EPOCH_OFFSET: i64 = 2_082_844_800;

/// The largest payload of a `moov` box that is read.
pub const MAX_MOOV: u64 = 0x2000_0000;

/// Why a file could not be read.
#[derive(Debug, Clone, Copy)]
pub enum Mp4Error {
    /// The file ends within a box header.
    UnexpectedEof,
    /// There is no `moov` box.
    NoMoov,
    Malformed(&'static str),
}

impl Mp4Error {
    /// The text of an error.
    pub open spec fn text(self) -> Seq<char> {
        match self {
            Mp4Error::UnexpectedEof => "I/O error: failed to fill whole buffer"@,
            Mp4Error::NoMoov => "not an MP4/MOV file: no `moov` box found"@,
            Mp4Error::Malformed(what) => "malformed MP4: "@ + what@,
        }
    }

    /// The error in words.
    pub fn message(&self) -> (r: String)
        ensures
            r@ == self.text(),
    {
        match *self {
            Mp4Error::UnexpectedEof => String::from_str("I/O error: failed to fill whole buffer"),
            Mp4Error::NoMoov => String::from_str("not an MP4/MOV file: no `moov` box found"),
            Mp4Error::Malformed(what) => {
                let mut out: String = String::from_str("malformed MP4: ");
                out.append(what);
                out
            },
        }
    }
}

/// Top-level box location.
#[derive(Debug, Clone, Copy, PartialEq, Eq)]
pub struct BoxHeader {
    pub kind: [u8; 4],
    /// File offset of the box start (its size field).
    pub offset: u64,
    /// 8 or 16 bytes.
    pub header_len: u64,
    /// Total box size including the header.
    pub size: u64,
}

impl BoxHeader {
    /// The box has a whole header and ends at an offset that can be named.
    pub open spec fn wf(self) -> bool {
        self.header_len <= self.size && self.offset + self.size <= u64::MAX
    }

    /// The kind as an integer.
    pub open spec fn code(self) -> int {
        bytes::be32(self.kind@, 0)
    }

    /// The kind in text.
    pub fn kind_str(&self) -> (r: String)
        ensures
            r@ == text::utf8_lossy(self.kind@),
    {
        text::lossy_text(vstd::array::array_as_slice(&self.kind))
    }

    /// The file offset of the payload.
    pub fn payload_offset(&self) -> (r: u64)
        requires
            self.offset + self.header_len <= u64::MAX,
        ensures
            r == self.offset + self.header_len,
    {
        self.offset + self.header_len
    }

    /// The length of the payload.
    pub fn payload_len(&self) -> (r: u64)
        requires
            self.header_len <= self.size,
        ensures
            r == self.size - self.header_len,
    {
        self.size - self.header_len
    }
}

/// The header length and the size of the box that `s` begins with, `s` being
/// the rest of its container. A size of 0 reaches to the end of the container,
/// a size of 1 announces a 64-bit size. `None` without a whole box.
pub open spec fn first_box(s: Seq<u8>) -> Option<(int, int)> {
    if s.len() < 8 {
        None
    } else {
        let small = bytes::be32(s, 0);
        if small == 1 && s.len() < 16 {
            None
        } else {
            let (header, size) = if small == 1 {
                (16int, bytes::be64(s, 8))
            } else if small == 0 {
                (8int, s.len() as int)
            } else {
                (8int, small)
            };
            if header <= size <= s.len() {
                Some((header, size))
            } else {
                None
            }
        }
    }
}

/// A box within a buffer: its kind and where its payload starts and ends.
pub struct Span {
    pub kind: int,
    pub start: int,
    pub end: int,
}

/// The boxes of `buf` from `start` to `end`, up to the first that is not whole.
pub open spec fn spans(buf: Seq<u8>, start: int, end: int) -> Seq<Span>
    decreases end - start,
{
    if 0 <= start <= end <= buf.len() {
        match first_box(buf.subrange(start, end)) {
            Some((header, size)) => seq![
                Span {
                    kind: bytes::be32(buf, start + 4),
                    start: start + header,
                    end: start + size,
                },
            ] + spans(buf, start + size, end),
            None => Seq::empty(),
        }
    } else {
        Seq::empty()
    }
}

/// Whether the last header of the file's boxes is cut off: a 64-bit size is
/// announced and the file ends before it.
pub open spec fn cut_off(file: Seq<u8>, start: int) -> bool
    decreases file.len() - start,
{
    if 0 <= start <= file.len() {
        let rest = file.skip(start);
        match first_box(rest) {
            Some((header, size)) => cut_off(file, start + size),
            None => cut_off_at(file, start),
        }
    } else {
        false
    }
}

/// Behind a whole box the rest of the boxes follow.
pub proof fn lemma_box_step(file: Seq<u8>, start: int, header: int, size: int)
    requires
        0 <= start <= file.len(),
        first_box(file.skip(start)) == Some((header, size)),
    ensures
        0 < size <= file.len() - start,
        cut_off(file, start) == cut_off(file, start + size),
        spans(file, start, file.len() as int) == seq![
            Span {
                kind: bytes::be32(file, start + 4),
                start: start + header,
                end: start + size,
            },
        ] + spans(file, start + size, file.len() as int),
{
    assert(file.skip(start) =~= file.subrange(start, file.len() as int));
}

/// At the end of a file there are no more boxes.
pub proof fn lemma_box_end(file: Seq<u8>)
    ensures
        !cut_off(file, file.len() as int),
        spans(file, file.len() as int, file.len() as int) == Seq::<Span>::empty(),
{
    let end = file.len() as int;
    assert(file.skip(end).len() == 0);
    assert(file.subrange(end, end).len() == 0);
}

/// What to do after reading a box header.
#[derive(Debug, Clone, Copy)]
pub enum BoxStep {
    /// The size is in the next eight bytes.
    ReadLargeSize,
    Found(BoxHeader),
    /// The box is not whole: the tail of the file is damaged.
    Stop,
}

/// Interprets the first eight bytes of the box at `pos` in a file of
/// `file_len` bytes.
pub fn box_step(pos: u64, file_len: u64, header: &[u8]) -> (r: BoxStep)
    requires
        pos + 8 <= file_len,
        header@.len() == 8,
    ensures
        ({
            let small = bytes::be32(header@, 0);
            let size = if small == 0 {
                file_len - pos
            } else {
                small
            };
            match r {
                BoxStep::ReadLargeSize => small == 1,
                BoxStep::Found(b) => small != 1 && 8 <= size <= file_len - pos && b.kind@
                    == header@.skip(4) && b.offset == pos && b.header_len == 8 && b.size == size,
                BoxStep::Stop => small != 1 && !(8 <= size <= file_len - pos),
            }
        }),
{
    let small: u64 = bytes::be_u32(header, 0) as u64;
    if small == 1 {
        return BoxStep::ReadLargeSize;
    }
    let size: u64 = if small == 0 {
        file_len - pos
    } else {
        small
    };
    checked_box(pos, file_len, header, 8, size)
}

/// Interprets a box header with a 64-bit size, `large` being the eight bytes
/// behind the first eight.
pub fn large_box_step(pos: u64, file_len: u64, header: &[u8], large: &[u8]) -> (r: BoxStep)
    requires
        pos + 8 <= file_len,
        header@.len() == 8,
        large@.len() == 8,
    ensures
        ({
            let size = bytes::be64(large@, 0);
            match r {
                BoxStep::ReadLargeSize => false,
                BoxStep::Found(b) => 16 <= size <= file_len - pos && b.kind@ == header@.skip(4)
                    && b.offset == pos && b.header_len == 16 && b.size == size,
                BoxStep::Stop => !(16 <= size <= file_len - pos),
            }
        }),
{
    let size: u64 = bytes::be_u64(large, 0);
    checked_box(pos, file_len, header, 16, size)
}

fn checked_box(pos: u64, file_len: u64, header: &[u8], header_len: u64, size: u64) -> (r: BoxStep)
    requires
        pos + 8 <= file_len,
        header@.len() == 8,
    ensures
        match r {
            BoxStep::ReadLargeSize => false,
            BoxStep::Found(b) => header_len <= size <= file_len - pos && b.kind@ == header@.skip(4)
                && b.offset == pos && b.header_len == header_len && b.size == size,
            BoxStep::Stop => !(header_len <= size <= file_len - pos),
        },
{
    if size < header_len || size > file_len - pos {
        return BoxStep::Stop;
    }
    let kind: [u8; 4] = [header[4], header[5], header[6], header[7]];
    assert(kind@ =~= header@.skip(4));
    BoxStep::Found(BoxHeader { kind, offset: pos, header_len, size })
}

/// The kind of a top-level box and where its payload starts and ends.
pub open spec fn payload_span(b: BoxHeader) -> Span {
    Span { kind: b.code(), start: b.offset + b.header_len, end: b.offset + b.size }
}

/// The kinds and payloads of a sequence of top-level boxes.
pub open spec fn payload_spans(boxes: Seq<BoxHeader>) -> Seq<Span> {
    boxes.map_values(|b: BoxHeader| payload_span(b))
}

/// Whether `b` describes the box at `offset` of a file: its kind, offset,
/// header length and size.
pub open spec fn describes(b: BoxHeader, file: Seq<u8>, offset: int) -> bool {
    &&& b.offset == offset
    &&& first_box(file.skip(offset)) == Some((b.header_len as int, b.size as int))
    &&& b.kind@ == file.subrange(offset + 4, offset + 8)
}

/// Where the box `i` of boxes that stand one behind the other starts.
pub open spec fn box_offset(boxes: Seq<BoxHeader>, i: int) -> int {
    if i == 0 {
        0
    } else {
        boxes[i - 1].offset + boxes[i - 1].size
    }
}

/// Whether `boxes` describe boxes of a file that stand one behind the other from
/// its beginning on.
pub open spec fn tile(boxes: Seq<BoxHeader>, file: Seq<u8>) -> bool {
    forall|i: int|
        0 <= i < boxes.len() ==> (#[trigger] boxes[i]).wf() && describes(
            boxes[i],
            file,
            box_offset(boxes, i),
        )
}

proof fn lemma_tile_push(boxes: Seq<BoxHeader>, b: BoxHeader, file: Seq<u8>)
    requires
        tile(boxes, file),
        b.wf(),
        describes(b, file, box_offset(boxes, boxes.len() as int)),
    ensures
        tile(boxes.push(b), file),
{
    let more = boxes.push(b);
    assert forall|i: int| 0 <= i < more.len() implies (#[trigger] more[i]).wf() && describes(
        more[i],
        file,
        box_offset(more, i),
    ) by {
        assert(box_offset(more, i) == box_offset(boxes, i));
        if i < boxes.len() {
            assert(more[i] == boxes[i]);
        }
    }
}

/// Whether the header at `pos` announces a 64-bit size that the file ends before.
pub open spec fn cut_off_at(file: Seq<u8>, pos: int) -> bool {
    let rest = file.skip(pos);
    first_box(rest) is None && 8 <= rest.len() < 16 && bytes::be32(rest, 0) == 1
}

/// Reads the header of the box at `pos` of a file held in memory; `None` when
/// the box is not whole.
fn box_at(file: &[u8], pos: usize) -> (r: Result<Option<BoxHeader>, Mp4Error>)
    requires
        pos + 8 <= file@.len(),
    ensures
        match r {
            Ok(Some(b)) => describes(b, file@, pos as int) && b.wf(),
            Ok(None) => first_box(file@.skip(pos as int)) is None && !cut_off_at(
                file@,
                pos as int,
            ),
            Err(e) => e == Mp4Error::UnexpectedEof && cut_off_at(file@, pos as int),
        },
{
    let n: usize = file.len();
    let ghost rest = file@.skip(pos as int);
    let header: &[u8] = slice_subrange(file, pos, pos + 8);
    proof {
        assert(bytes::be32(header@, 0) == bytes::be32(rest, 0));
        assert(header@.skip(4) =~= file@.subrange(pos + 4, pos + 8));
    }
    let step: BoxStep = match box_step(pos as u64, n as u64, header) {
        BoxStep::ReadLargeSize => {
            if n - pos < 16 {
                return Err(Mp4Error::UnexpectedEof);
            }
            let large: &[u8] = slice_subrange(file, pos + 8, pos + 16);
            assert(bytes::be64(large@, 0) == bytes::be64(rest, 8));
            large_box_step(pos as u64, n as u64, header, large)
        },
        other => other,
    };
    match step {
        BoxStep::Found(b) => Ok(Some(b)),
        _ => Ok(None),
    }
}

/// Lists the top-level boxes of a file held in memory.
pub fn top_level_boxes(file: &[u8]) -> (r: Result<Vec<BoxHeader>, Mp4Error>)
    ensures
        match r {
            Ok(boxes) => {
                &&& !cut_off(file@, 0)
                &&& payload_spans(boxes@) == spans(file@, 0, file@.len() as int)
                &&& tile(boxes@, file@)
                &&& first_box(file@.skip(box_offset(boxes@, boxes@.len() as int))) is None
            },
            Err(e) => cut_off(file@, 0) && e == Mp4Error::UnexpectedEof,
        },
{
    let n: usize = file.len();
    let mut out: Vec<BoxHeader> = Vec::new();
    let mut pos: usize = 0;
    let mut whole: bool = true;
    assert(payload_spans(out@) + spans(file@, 0, n as int) =~= spans(file@, 0, n as int));
    while whole && n - pos >= 8
        invariant
            pos <= n,
            n == file@.len(),
            pos == box_offset(out@, out@.len() as int),
            tile(out@, file@),
            payload_spans(out@) + spans(file@, pos as int, n as int) == spans(file@, 0, n as int),
            cut_off(file@, 0) == cut_off(file@, pos as int),
            !whole ==> first_box(file@.skip(pos as int)) is None && !cut_off_at(file@, pos as int),
        decreases
                n - pos,
                (if whole {
                    1int
                } else {
                    0
                }),
    {
        proof {
            assert(file@.skip(pos as int) =~= file@.subrange(pos as int, n as int));
        }
        match box_at(file, pos) {
            Ok(Some(b)) => {
                let ghost before = payload_spans(out@);
                proof {
                    lemma_tile_push(out@, b, file@);
                }
                out.push(b);
                proof {
                    assert(payload_spans(out@) =~= before.push(payload_span(b)));
                    assert(bytes::be32(b.kind@, 0) == bytes::be32(file@, pos + 4));
                    assert(payload_spans(out@) + spans(file@, pos + b.size, n as int) =~= before
                        + spans(file@, pos as int, n as int));
                }
                pos = pos + b.size as usize;
            },
            Ok(None) => {
                whole = false;
            },
            Err(e) => {
                return Err(e);
            },
        }
    }
    proof {
        assert(file@.skip(pos as int) =~= file@.subrange(pos as int, n as int));
        assert(payload_spans(out@) + spans(file@, pos as int, n as int) =~= payload_spans(out@));
    }
    Ok(out)
}

/// A box within a buffer.
#[derive(Debug, Clone, Copy)]
pub struct Region {
    pub kind: u32,
    /// Where the payload starts.
    pub start: usize,
    /// Where the payload ends.
    pub end: usize,
}

impl View for Region {
    type V = Span;

    open spec fn view(&self) -> Span {
        Span { kind: self.kind as int, start: self.start as int, end: self.end as int }
    }
}

/// The views of a sequence of regions.
pub open spec fn regions(v: Seq<Region>) -> Seq<Span> {
    v.map_values(|r: Region| r@)
}

/// Whether a region lies within `start` and `end`.
pub open spec fn inside(r: Region, start: usize, end: usize) -> bool {
    start <= r.start <= r.end <= end
}

/// Lists the boxes of `buf` from `start` to `end`.
pub fn iter_boxes(buf: &[u8], start: usize, end: usize) -> (r: Vec<Region>)
    requires
        start <= end <= buf@.len(),
    ensures
        regions(r@) == spans(buf@, start as int, end as int),
        forall|i: int| 0 <= i < r@.len() ==> inside(#[trigger] r@[i], start, end),
{
    let mut out: Vec<Region> = Vec::new();
    let mut pos: usize = start;
    let ghost all = spans(buf@, start as int, end as int);
    assert(regions(out@) + spans(buf@, pos as int, end as int) =~= all);
    while end - pos >= 8
        invariant_except_break
            regions(out@) + spans(buf@, pos as int, end as int) == all,
        invariant
            start <= pos <= end <= buf@.len(),
            forall|i: int| 0 <= i < out@.len() ==> inside(#[trigger] out@[i], start, end),
        ensures
            regions(out@) == all,
        decreases end - pos,
    {
        let ghost rest = buf@.subrange(pos as int, end as int);
        let small: u64 = bytes::be_u32(buf, pos) as u64;
        assert(small == bytes::be32(rest, 0));
        let kind: u32 = bytes::be_u32(buf, pos + 4);
        let mut header: usize = 8;
        let mut size: u64 = small;
        let mut whole: bool = true;
        if small == 1 {
            if end - pos < 16 {
                whole = false;
            } else {
                size = bytes::be_u64(buf, pos + 8);
                assert(size == bytes::be64(rest, 8));
                header = 16;
            }
        } else if small == 0 {
            size = (end - pos) as u64;
        }
        if !whole || size < header as u64 || size > (end - pos) as u64 {
            assert(first_box(rest) is None);
            assert(regions(out@) + spans(buf@, pos as int, end as int) =~= regions(out@));
            break;
        }
        let size: usize = size as usize;
        let ghost before = regions(out@);
        let r: Region = Region { kind, start: pos + header, end: pos + size };
        out.push(r);
        proof {
            assert(first_box(rest) == Some((header as int, size as int)));
            assert(regions(out@) =~= before.push(r@));
            assert(regions(out@) + spans(buf@, pos + size, end as int) =~= before + spans(
                buf@,
                pos as int,
                end as int,
            ));
        }
        pos = pos + size;
        proof {
            if end - pos < 8 {
                assert(first_box(buf@.subrange(pos as int, end as int)) is None);
                assert(regions(out@) + spans(buf@, pos as int, end as int) =~= regions(out@));
            }
        }
    }
    proof {
        if end - start < 8 {
            assert(first_box(buf@.subrange(start as int, end as int)) is None);
        }
    }
    out
}

/// A part of a buffer.
pub struct Extent {
    pub start: int,
    pub end: int,
}

impl Span {
    /// The part that the payload takes.
    pub open spec fn payload(self) -> Extent {
        Extent { start: self.start, end: self.end }
    }
}

/// The payloads of the boxes among `of` at the end of a path of nested boxes,
/// which names at least one.
pub open spec fn found_in(buf: Seq<u8>, of: Seq<Span>, path: Seq<int>) -> Seq<Extent>
    decreases path.len(), of.len(),
{
    if path.len() == 0 || of.len() == 0 {
        Seq::empty()
    } else {
        let before = found_in(buf, of.drop_last(), path);
        let last = of.last();
        if last.kind != path.first() {
            before
        } else if path.len() == 1 {
            before.push(last.payload())
        } else {
            before + found_in(buf, spans(buf, last.start, last.end), path.drop_first())
        }
    }
}

/// The payloads of the boxes of `buf` from `start` to `end` at the end of a
/// path; an empty path leads to the whole part.
pub open spec fn found(buf: Seq<u8>, path: Seq<int>, start: int, end: int) -> Seq<Extent> {
    if path.len() == 0 {
        seq![Extent { start, end }]
    } else {
        found_in(buf, spans(buf, start, end), path)
    }
}

/// The codes of a path as integers.
pub open spec fn codes(path: Seq<u32>) -> Seq<int> {
    path.map_values(|c: u32| c as int)
}

/// A pair of positions as a part of a buffer.
pub open spec fn extent(p: (usize, usize)) -> Extent {
    Extent { start: p.0 as int, end: p.1 as int }
}

/// Pairs of positions as parts of a buffer.
pub open spec fn extents(v: Seq<(usize, usize)>) -> Seq<Extent> {
    v.map_values(|p: (usize, usize)| extent(p))
}

/// Whether a pair of positions lies within `start` and `end`.
pub open spec fn within(p: (usize, usize), start: usize, end: usize) -> bool {
    start <= p.0 <= p.1 <= end
}

/// Finds the payloads of the boxes at the end of a path of nested boxes.
pub fn find_boxes(buf: &[u8], path: &[u32], start: usize, end: usize) -> (r: Vec<(usize, usize)>)
    requires
        start <= end <= buf@.len(),
    ensures
        extents(r@) == found(buf@, codes(path@), start as int, end as int),
        forall|i: int| 0 <= i < r@.len() ==> within(#[trigger] r@[i], start, end),
    decreases path@.len(),
{
    let mut out: Vec<(usize, usize)> = Vec::new();
    if path.len() == 0 {
        out.push((start, end));
        assert(extents(out@) =~= found(buf@, codes(path@), start as int, end as int));
        return out;
    }
    let boxes: Vec<Region> = iter_boxes(buf, start, end);
    let ghost all = regions(boxes@);
    let ghost want = codes(path@);
    let mut i: usize = 0;
    assert(extents(out@) =~= found_in(buf@, all.take(0), want));
    while i < boxes.len()
        invariant
            i <= boxes@.len(),
            start <= end <= buf@.len(),
            path@.len() > 0,
            all == regions(boxes@),
            want == codes(path@),
            extents(out@) == found_in(buf@, all.take(i as int), want),
            forall|k: int| 0 <= k < boxes@.len() ==> inside(#[trigger] boxes@[k], start, end),
            forall|k: int| 0 <= k < out@.len() ==> within(#[trigger] out@[k], start, end),
        decreases boxes@.len() - i,
    {
        let ghost before = extents(out@);
        let b: Region = boxes[i];
        proof {
            assert(all.take(i + 1).drop_last() =~= all.take(i as int));
            assert(all.take(i + 1).last() == b@);
        }
        if b.kind == path[0] {
            let rest: &[u32] = slice_subrange(path, 1, path.len());
            let mut inner: Vec<(usize, usize)> = find_boxes(buf, rest, b.start, b.end);
            proof {
                assert(codes(rest@) =~= want.drop_first());
            }
            let ghost more = inner@;
            let ghost first = out@;
            out.append(&mut inner);
            proof {
                assert(out@ == first + more);
                assert(extents(out@) =~= before + extents(more));
                lemma_found_step(buf@, all.take(i + 1), want);
                assert forall|k: int| 0 <= k < out@.len() implies within(
                    #[trigger] out@[k],
                    start,
                    end,
                ) by {
                    if k >= first.len() {
                        assert(within(more[k - first.len()], b.start, b.end));
                    } else {
                        assert(within(first[k], start, end));
                    }
                }
            }
        }
        i = i + 1;
    }
    assert(all.take(i as int) =~= all);
    out
}

/// Behind a box of the kind that a path begins with, the rest of the path is
/// followed.
proof fn lemma_found_step(buf: Seq<u8>, of: Seq<Span>, path: Seq<int>)
    requires
        path.len() > 0,
        of.len() > 0,
    ensures
        found_in(buf, of, path) == found_in(buf, of.drop_last(), path) + if of.last().kind
            == path.first() {
            found(buf, path.drop_first(), of.last().start, of.last().end)
        } else {
            Seq::empty()
        },
{
    let last = of.last();
    let before = found_in(buf, of.drop_last(), path);
    if last.kind != path.first() {
        assert(before + Seq::<Extent>::empty() =~= before);
    } else if path.len() == 1 {
        assert(before.push(last.payload()) =~= before + seq![last.payload()]);
    }
}

/// The payloads at the end of a path within each of the parts `of`.
pub open spec fn found_within(buf: Seq<u8>, of: Seq<Extent>, path: Seq<int>) -> Seq<Extent>
    decreases of.len(),
{
    if of.len() == 0 {
        Seq::empty()
    } else {
        found_within(buf, of.drop_last(), path) + found(
            buf,
            path,
            of.last().start,
            of.last().end,
        )
    }
}

proof fn lemma_found_within_joins(buf: Seq<u8>, a: Seq<Extent>, b: Seq<Extent>, path: Seq<int>)
    ensures
        found_within(buf, a + b, path) == found_within(buf, a, path) + found_within(buf, b, path),
    decreases b.len(),
{
    if b.len() == 0 {
        assert(a + b =~= a);
        assert(found_within(buf, a, path) + Seq::<Extent>::empty() =~= found_within(buf, a, path));
    } else {
        lemma_found_within_joins(buf, a, b.drop_last(), path);
        assert((a + b).drop_last() =~= a + b.drop_last());
        assert(found_within(buf, a + b, path) =~= found_within(buf, a, path) + found_within(
            buf,
            b,
            path,
        ));
    }
}

proof fn lemma_paths_join_in(buf: Seq<u8>, of: Seq<Span>, p: Seq<int>, q: Seq<int>)
    requires
        p.len() > 0,
    ensures
        found_in(buf, of, p + q) == found_within(buf, found_in(buf, of, p), q),
    decreases p.len(), of.len(),
{
    if of.len() > 0 {
        let last = of.last();
        lemma_paths_join_in(buf, of.drop_last(), p, q);
        lemma_found_step(buf, of, p + q);
        lemma_found_step(buf, of, p);
        assert((p + q).drop_first() =~= p.drop_first() + q);
        let before = found_in(buf, of.drop_last(), p);
        if last.kind == p.first() {
            paths_join(buf, p.drop_first(), q, last.start, last.end);
            lemma_found_within_joins(
                buf,
                before,
                found(buf, p.drop_first(), last.start, last.end),
                q,
            );
        } else {
            assert(before + Seq::<Extent>::empty() =~= before);
            let far = found_in(buf, of.drop_last(), p + q);
            assert(far + Seq::<Extent>::empty() =~= far);
        }
    }
}

/// A path of two parts leads to what the second part leads to within each box
/// that the first part leads to, in order.
pub proof fn paths_join(buf: Seq<u8>, p: Seq<int>, q: Seq<int>, start: int, end: int)
    ensures
        found(buf, p + q, start, end) == found_within(buf, found(buf, p, start, end), q),
    decreases p.len(), spans(buf, start, end).len() + 1,
{
    if p.len() == 0 {
        assert(p + q =~= q);
        let whole = seq![Extent { start, end }];
        assert(whole.drop_last() =~= Seq::empty());
        assert(found_within(buf, whole.drop_last(), q) =~= Seq::empty());
        assert(found_within(buf, whole, q) =~= found(buf, q, start, end));
    } else {
        lemma_paths_join_in(buf, spans(buf, start, end), p, q);
    }
}

/// A path of one kind leads to the payloads of the boxes of that kind, in
/// order.
pub proof fn one_kind_is_found(buf: Seq<u8>, kind: int, start: int, end: int)
    ensures
        found(buf, seq![kind], start, end) == spans(buf, start, end).filter(
            |s: Span| s.kind == kind,
        ).map_values(|s: Span| s.payload()),
{
    lemma_one_kind(buf, spans(buf, start, end), kind);
}

proof fn lemma_one_kind(buf: Seq<u8>, of: Seq<Span>, kind: int)
    ensures
        found_in(buf, of, seq![kind]) == of.filter(|s: Span| s.kind == kind).map_values(
            |s: Span| s.payload(),
        ),
    decreases of.len(),
{
    reveal(Seq::filter);
    let same = |s: Span| s.kind == kind;
    if of.len() == 0 {
        assert(of.filter(same).map_values(|s: Span| s.payload()) =~= Seq::empty());
    } else {
        lemma_one_kind(buf, of.drop_last(), kind);
        assert(found_in(buf, of, seq![kind]) =~= of.filter(same).map_values(
            |s: Span| s.payload(),
        ));
    }
}

/// The first box at the end of a path, if there is one.
pub open spec fn first_found(buf: Seq<u8>, path: Seq<int>, start: int, end: int) -> Option<Extent> {
    let all = found(buf, path, start, end);
    if all.len() == 0 {
        None
    } else {
        Some(all[0])
    }
}

/// An optional pair of positions as a part of a buffer.
pub open spec fn maybe_extent(p: Option<(usize, usize)>) -> Option<Extent> {
    match p {
        Some(p) => Some(extent(p)),
        None => None,
    }
}

/// Finds the first box at the end of a path of nested boxes.
fn find_first(buf: &[u8], path: &[u32], start: usize, end: usize) -> (r: Option<(usize, usize)>)
    requires
        start <= end <= buf@.len(),
    ensures
        maybe_extent(r) == first_found(buf@, codes(path@), start as int, end as int),
        r matches Some(b) ==> within(b, start, end),
{
    let all: Vec<(usize, usize)> = find_boxes(buf, path, start, end);
    if all.len() == 0 {
        None
    } else {
        assert(extents(all@)[0] == extent(all@[0]));
        Some(all[0])
    }
}

/// The moment of an MP4 time, which counts seconds from 1904 as a 64-bit
/// integer in two's complement; 0 stands for no time.
pub open spec fn moment_1904(seconds: u64) -> Option<Moment> {
    let m = Moment { secs: crate::protobuf::signed(seconds) - MP4_EPOCH_OFFSET, nanos: 0 };
    if seconds != 0 && time::representable(m) {
        Some(m)
    } else {
        None
    }
}

/// Interprets an MP4 time.
pub fn mp4_time(seconds: u64) -> (r: Option<Timestamp>)
    ensures
        time::moment(r) == moment_1904(seconds),
{
    if seconds == 0 {
        return None;
    }
    let signed: i64 = if seconds < 0x8000_0000_0000_0000 {
        seconds as i64
    } else {
        -((u64::MAX - seconds) as i64) - 1
    };
    if signed < i64::MIN + MP4_EPOCH_OFFSET {
        return None;
    }
    Timestamp::new(signed - MP4_EPOCH_OFFSET, 0)
}

/// A track as a mathematical object.
pub struct TrackFacts {
    pub track_id: u32,
    pub handler_type: Seq<char>,
    pub handler_name: Seq<char>,
    pub fourcc: Seq<char>,
    pub timescale: u32,
    pub offsets: Seq<u64>,
    pub sizes: Seq<u32>,
    pub ticks: Seq<u64>,
    pub tail_delta: u32,
}

/// One track's sample table, already flattened to per-sample offsets and times.
#[derive(Debug)]
pub struct Track {
    pub track_id: u32,
    /// `hdlr` handler type, e.g. `vide`, `soun`, `meta`.
    pub handler_type: String,
    /// `hdlr` human-readable name, e.g. `DJI meta`.
    pub handler_name: String,
    /// First `stsd` sample-entry format, e.g. `hvc1`, `djmd`.
    pub fourcc: String,
    /// Units of time in a second; 0 when unknown, which counts as 1.
    pub timescale: u32,
    pub offsets: Vec<u64>,
    pub sizes: Vec<u32>,
    /// Decode time of each sample that the time table covers.
    pub ticks: Vec<u64>,
    /// Duration of each sample behind the time table.
    pub tail_delta: u32,
}

impl View for Track {
    type V = TrackFacts;

    open spec fn view(&self) -> TrackFacts {
        TrackFacts {
            track_id: self.track_id,
            handler_type: self.handler_type@,
            handler_name: self.handler_name@,
            fourcc: self.fourcc@,
            timescale: self.timescale,
            offsets: self.offsets@,
            sizes: self.sizes@,
            ticks: self.ticks@,
            tail_delta: self.tail_delta,
        }
    }
}

impl Track {
    /// Each sample has an offset and a size, and no more samples are timed than
    /// there are.
    pub open spec fn wf(&self) -> bool {
        self.offsets@.len() == self.sizes@.len() && self.ticks@.len() <= self.offsets@.len()
    }

    /// The number of samples.
    pub fn sample_count(&self) -> (r: usize)
        ensures
            r == self.offsets@.len(),
    {
        self.offsets.len()
    }

    /// Reads one sample's raw bytes from a file held in memory; `None` when the
    /// sample lies beyond its end.
    pub fn read_sample(&self, file: &[u8], index: usize) -> (r: Option<Vec<u8>>)
        requires
            index < self.offsets@.len(),
            self.wf(),
        ensures
            ({
                let from = self.offsets@[index as int] as int;
                let to = from + self.sizes@[index as int];
                match r {
                    Some(b) => to <= file@.len() && b@ == file@.subrange(from, to),
                    None => to > file@.len(),
                }
            }),
    {
        let n: u64 = file.len() as u64;
        let from: u64 = self.offsets[index];
        let size: u64 = self.sizes[index] as u64;
        if from > n || size > n - from {
            return None;
        }
        Some(
            vstd::slice::slice_to_vec(
                slice_subrange(file, from as usize, from as usize + size as usize),
            ),
        )
    }
}

/// A movie as a mathematical object.
pub struct MovieFacts {
    pub creation_time: Option<Moment>,
    pub duration: u64,
    pub timescale: u32,
    pub tracks: Seq<TrackFacts>,
    pub udta: Seq<u8>,
}

#[derive(Debug)]
pub struct Movie {
    /// `mvhd` creation time (UTC, as written by the camera).
    pub creation_time: Option<Timestamp>,
    /// Duration in units of the time scale; 0 when unknown.
    pub duration: u64,
    /// Units of time in a second; 0 when unknown.
    pub timescale: u32,
    pub tracks: Vec<Track>,
    /// Raw `udta` payload for optional vendor lookups.
    pub udta: Vec<u8>,
}

/// The views of a sequence of tracks.
pub open spec fn track_views(v: Seq<Track>) -> Seq<TrackFacts> {
    v.map_values(|t: Track| t@)
}

impl View for Movie {
    type V = MovieFacts;

    open spec fn view(&self) -> MovieFacts {
        MovieFacts {
            creation_time: time::moment(self.creation_time),
            duration: self.duration,
            timescale: self.timescale,
            tracks: track_views(self.tracks@),
            udta: self.udta@,
        }
    }
}

/// Whether a track has a format.
pub open spec fn has_fourcc(t: Track, fourcc: Seq<char>) -> bool {
    t.fourcc@ == fourcc
}

impl Movie {
    /// Every track is well-formed.
    pub open spec fn wf(&self) -> bool {
        forall|i: int| 0 <= i < self.tracks@.len() ==> (#[trigger] self.tracks@[i]).wf()
    }

    /// The first track with the given format.
    pub fn find_track(&self, fourcc: &str) -> (r: Option<&Track>)
        ensures
            match r {
                Some(t) => exists|i: int|
                    0 <= i < self.tracks@.len() && *t == #[trigger] self.tracks@[i] && has_fourcc(
                        *t,
                        fourcc@,
                    ) && forall|j: int|
                        0 <= j < i ==> !has_fourcc(#[trigger] self.tracks@[j], fourcc@),
                None => forall|j: int|
                    0 <= j < self.tracks@.len() ==> !has_fourcc(
                        #[trigger] self.tracks@[j],
                        fourcc@,
                    ),
            },
    {
        let mut i: usize = 0;
        while i < self.tracks.len()
            invariant
                i <= self.tracks@.len(),
                forall|j: int| 0 <= j < i ==> !has_fourcc(#[trigger] self.tracks@[j], fourcc@),
            decreases self.tracks@.len() - i,
        {
            if text::str_eq(self.tracks[i].fourcc.as_str(), fourcc) {
                return Some(&self.tracks[i]);
            }
            i = i + 1;
        }
        None
    }
}

/// The 32-bit integer behind a 32- or 64-bit pair of times in a full box: at
/// offset 20 for version 1, at 12 otherwise. `None` when it lies beyond `buf`.
pub open spec fn versioned_word(buf: Seq<u8>, start: int) -> Option<u32> {
    if buf[start] != 1 {
        Some(bytes::be32(buf, start + 12) as u32)
    } else if start + 24 <= buf.len() {
        Some(bytes::be32(buf, start + 20) as u32)
    } else {
        None
    }
}

fn read_versioned_word(buf: &[u8], start: usize) -> (r: Option<u32>)
    requires
        start + 16 <= buf@.len(),
    ensures
        r == versioned_word(buf@, start as int),
{
    assert(buf@.len() == buf.len());
    if buf[start] != 1 {
        Some(bytes::be_u32(buf, start + 12))
    } else if buf.len() - start >= 24 {
        Some(bytes::be_u32(buf, start + 20))
    } else {
        None
    }
}

/// The creation time, time scale and duration in a movie header; all zero
/// without one.
pub open spec fn header_times(buf: Seq<u8>, mvhd: Option<Extent>) -> (u64, u32, u64) {
    match mvhd {
        Some(b) if b.end - b.start >= 20 => if buf[b.start] == 1 && b.end - b.start >= 32 {
            (
                bytes::be64(buf, b.start + 4) as u64,
                bytes::be32(buf, b.start + 20) as u32,
                bytes::be64(buf, b.start + 24) as u64,
            )
        } else {
            (
                bytes::be32(buf, b.start + 4) as u64,
                bytes::be32(buf, b.start + 12) as u32,
                bytes::be32(buf, b.start + 16) as u64,
            )
        },
        _ => (0, 0, 0),
    }
}

fn read_header_times(buf: &[u8], mvhd: Option<(usize, usize)>) -> (r: (u64, u32, u64))
    requires
        mvhd matches Some(b) ==> b.0 <= b.1 <= buf@.len(),
    ensures
        r == header_times(
            buf@,
            maybe_extent(mvhd),
        ),
{
    match mvhd {
        Some(b) => {
            let s: usize = b.0;
            let len: usize = b.1 - b.0;
            if len < 20 {
                (0, 0, 0)
            } else if buf[s] == 1 && len >= 32 {
                (bytes::be_u64(buf, s + 4), bytes::be_u32(buf, s + 20), bytes::be_u64(buf, s + 24))
            } else {
                (
                    bytes::be_u32(buf, s + 4) as u64,
                    bytes::be_u32(buf, s + 12),
                    bytes::be_u32(buf, s + 16) as u64,
                )
            }
        },
        None => (0, 0, 0),
    }
}

/// The bytes of `s` before its first zero.
pub open spec fn until_zero(s: Seq<u8>) -> Seq<u8>
    decreases s.len(),
{
    if s.len() == 0 || s.first() == 0 {
        Seq::empty()
    } else {
        seq![s.first()] + until_zero(s.drop_first())
    }
}

/// The bytes of a handler name: QuickTime writes a Pascal string (length
/// prefix), ISO writes a C string.
pub open spec fn name_bytes(s: Seq<u8>) -> Seq<u8> {
    let name = until_zero(s);
    if name.len() > 0 && name.first() == name.len() - 1 {
        name.drop_first()
    } else {
        name
    }
}

fn read_name(s: &[u8]) -> (r: &[u8])
    ensures
        r@ == name_bytes(s@),
{
    let mut n: usize = 0;
    assert(s@.skip(0) =~= s@);
    assert(s@.take(0) + until_zero(s@) =~= until_zero(s@));
    while n < s.len() && s[n] != 0
        invariant
            n <= s@.len(),
            s@.take(n as int) + until_zero(s@.skip(n as int)) == until_zero(s@),
        decreases s@.len() - n,
    {
        proof {
            assert(s@.skip(n as int).drop_first() =~= s@.skip(n + 1));
            assert(s@.take(n + 1) + until_zero(s@.skip(n + 1)) =~= s@.take(n as int) + until_zero(
                s@.skip(n as int),
            ));
        }
        n = n + 1;
    }
    proof {
        assert(until_zero(s@.skip(n as int)) =~= Seq::empty());
        assert(s@.take(n as int) =~= until_zero(s@));
    }
    if n > 0 && s[0] as usize == n - 1 {
        let r: &[u8] = slice_subrange(s, 1, n);
        assert(r@ =~= until_zero(s@).drop_first());
        r
    } else {
        let r: &[u8] = slice_subrange(s, 0, n);
        assert(r@ =~= until_zero(s@));
        r
    }
}

/// The handler type and name of a track; empty without a handler box.
pub open spec fn handler(buf: Seq<u8>, hdlr: Option<Extent>) -> (Seq<char>, Seq<char>) {
    match hdlr {
        Some(b) if b.end - b.start >= 24 => (
            text::utf8_lossy(buf.subrange(b.start + 8, b.start + 12)),
            text::trimmed(text::utf8_lossy(name_bytes(buf.subrange(b.start + 24, b.end)))),
        ),
        _ => (Seq::empty(), Seq::empty()),
    }
}

fn read_handler(buf: &[u8], hdlr: Option<(usize, usize)>) -> (r: (String, String))
    requires
        hdlr matches Some(b) ==> b.0 <= b.1 <= buf@.len(),
    ensures
        (r.0@, r.1@) == handler(
            buf@,
            maybe_extent(hdlr),
        ),
{
    match hdlr {
        Some(b) => {
            let s: usize = b.0;
            if b.1 - s < 24 {
                (String::new(), String::new())
            } else {
                let kind: String = text::lossy_text(slice_subrange(buf, s + 8, s + 12));
                let name: String = text::lossy_text(
                    read_name(slice_subrange(buf, s + 24, b.1)),
                );
                (kind, text::trim_text(name.as_str()))
            }
        },
        None => (String::new(), String::new()),
    }
}

/// The integer of a full box that is at least `least` bytes long: 0 without
/// one, an error when it lies beyond the buffer.
pub open spec fn optional_word(
    buf: Seq<u8>,
    of: Option<Extent>,
    least: int,
    short: Seq<char>,
) -> Result<u32, Seq<char>> {
    match of {
        Some(b) if b.end - b.start >= least => match versioned_word(buf, b.start) {
            Some(v) => Ok(v),
            None => Err(short),
        },
        _ => Ok(0),
    }
}

fn read_optional_word(
    buf: &[u8],
    of: Option<(usize, usize)>,
    least: usize,
    short: &'static str,
) -> (r: Result<u32, Mp4Error>)
    requires
        of matches Some(b) ==> b.0 <= b.1 <= buf@.len(),
        least >= 16,
    ensures
        ({
            let want = optional_word(
                buf@,
                maybe_extent(of),
                least as int,
                short@,
            );
            match r {
                Ok(v) => want == Ok::<u32, Seq<char>>(v),
                Err(e) => e matches Mp4Error::Malformed(what) && want == Err::<u32, Seq<char>>(
                    what@,
                ),
            }
        }),
{
    match of {
        Some(b) => {
            if b.1 - b.0 < least {
                Ok(0)
            } else {
                match read_versioned_word(buf, b.0) {
                    Some(v) => Ok(v),
                    None => Err(Mp4Error::Malformed(short)),
                }
            }
        },
        None => Ok(0),
    }
}

/// A track with the given tables: its samples, and its format where the tables
/// hold one.
pub open spec fn with_tables(t: TrackFacts, tables: table::Tables) -> TrackFacts {
    let offsets = table::offsets_of(tables);
    TrackFacts {
        fourcc: match tables.fourcc {
            Some(f) => f,
            None => t.fourcc,
        },
        offsets,
        sizes: tables.sizes.take(offsets.len() as int),
        ticks: table::ticks_of(tables.deltas, offsets.len()),
        tail_delta: table::tail_delta_of(tables.deltas),
        ..t
    }
}

/// The track in a `trak` box; an error text when one of its tables is cut off.
pub open spec fn track_of(buf: Seq<u8>, trak: Extent) -> Result<TrackFacts, Seq<char>> {
    let tkhd = first_found(buf, seq![TKHD as int], trak.start, trak.end);
    let mdhd = first_found(buf, seq![MDIA as int, MDHD as int], trak.start, trak.end);
    let hdlr = first_found(buf, seq![MDIA as int, HDLR as int], trak.start, trak.end);
    let stbl = first_found(
        buf,
        seq![MDIA as int, MINF as int, STBL as int],
        trak.start,
        trak.end,
    );
    match optional_word(buf, tkhd, 16, "short tkhd"@) {
        Err(e) => Err(e),
        Ok(track_id) => match optional_word(buf, mdhd, 20, "short mdhd"@) {
            Err(e) => Err(e),
            Ok(timescale) => {
                let (handler_type, handler_name) = handler(buf, hdlr);
                let bare = TrackFacts {
                    track_id,
                    handler_type,
                    handler_name,
                    fourcc: Seq::empty(),
                    timescale,
                    offsets: Seq::empty(),
                    sizes: Seq::empty(),
                    ticks: Seq::empty(),
                    tail_delta: 0,
                };
                match stbl {
                    None => Ok(bare),
                    Some(b) => match table::tables_in(buf, spans(buf, b.start, b.end)) {
                        Err(e) => Err(e),
                        Ok(tables) => Ok(with_tables(bare, tables)),
                    },
                }
            },
        },
    }
}

/// Reads the sample table from `start` to `end` into a track.
fn parse_stbl(buf: &[u8], start: usize, end: usize, track: &mut Track) -> (r: Result<(), Mp4Error>)
    requires
        start <= end <= buf@.len(),
    ensures
        ({
            let want = table::tables_in(buf@, spans(buf@, start as int, end as int));
            match r {
                Ok(_) => want matches Ok(tables) && final(track)@ == with_tables(
                    old(track)@,
                    tables,
                ) && final(track).wf(),
                Err(e) => e matches Mp4Error::Malformed(what) && want == Err::<
                    table::Tables,
                    Seq<char>,
                >(what@) && final(track)@ == old(track)@,
            }
        }),
{
    let tables: table::RawTables = match table::read_tables(buf, start, end) {
        Ok(t) => t,
        Err(e) => {
            return Err(e);
        },
    };
    let offsets: Vec<u64> = table::place(&tables);
    let n: usize = offsets.len();
    let ticks: Vec<u64> = table::expand(&tables.deltas, n);
    let tail_delta: u32 = table::last_delta(&tables.deltas);
    let table::RawTables { fourcc, mut sizes, chunks: _, runs: _, deltas: _ } = tables;
    sizes.truncate(n);
    if let Some(f) = fourcc {
        track.fourcc = f;
    }
    track.offsets = offsets;
    track.sizes = sizes;
    track.ticks = ticks;
    track.tail_delta = tail_delta;
    Ok(())
}

/// Reads a `trak` box.
fn parse_trak(buf: &[u8], trak: (usize, usize)) -> (r: Result<Track, Mp4Error>)
    requires
        trak.0 <= trak.1 <= buf@.len(),
    ensures
        match r {
            Ok(t) => track_of(buf@, extent(trak)) == Ok::<TrackFacts, Seq<char>>(t@) && t.wf(),
            Err(e) => e matches Mp4Error::Malformed(what) && track_of(buf@, extent(trak)) == Err::<
                TrackFacts,
                Seq<char>,
            >(what@),
        },
{
    let (s, e): (usize, usize) = (trak.0, trak.1);
    proof {
        assert(codes(seq![TKHD]) =~= seq![TKHD as int]);
        assert(codes(seq![MDIA, MDHD]) =~= seq![MDIA as int, MDHD as int]);
        assert(codes(seq![MDIA, HDLR]) =~= seq![MDIA as int, HDLR as int]);
        assert(codes(seq![MDIA, MINF, STBL]) =~= seq![MDIA as int, MINF as int, STBL as int]);
    }
    let tkhd: [u32; 1] = [TKHD];
    let mdhd: [u32; 2] = [MDIA, MDHD];
    let hdlr: [u32; 2] = [MDIA, HDLR];
    let stbl: [u32; 3] = [MDIA, MINF, STBL];
    assert(tkhd@ =~= seq![TKHD]);
    assert(mdhd@ =~= seq![MDIA, MDHD]);
    assert(hdlr@ =~= seq![MDIA, HDLR]);
    assert(stbl@ =~= seq![MDIA, MINF, STBL]);
    let tkhd: Option<(usize, usize)> = find_first(buf, vstd::array::array_as_slice(&tkhd), s, e);
    let track_id: u32 = match read_optional_word(buf, tkhd, 16, "short tkhd") {
        Ok(v) => v,
        Err(e) => {
            return Err(e);
        },
    };
    let mdhd: Option<(usize, usize)> = find_first(buf, vstd::array::array_as_slice(&mdhd), s, e);
    let timescale: u32 = match read_optional_word(buf, mdhd, 20, "short mdhd") {
        Ok(v) => v,
        Err(e) => {
            return Err(e);
        },
    };
    let hdlr: Option<(usize, usize)> = find_first(buf, vstd::array::array_as_slice(&hdlr), s, e);
    let (handler_type, handler_name): (String, String) = read_handler(buf, hdlr);
    let mut track: Track = Track {
        track_id,
        handler_type,
        handler_name,
        fourcc: String::new(),
        timescale,
        offsets: Vec::new(),
        sizes: Vec::new(),
        ticks: Vec::new(),
        tail_delta: 0,
    };
    match find_first(buf, vstd::array::array_as_slice(&stbl), s, e) {
        Some(b) => {
            match parse_stbl(buf, b.0, b.1, &mut track) {
                Ok(_) => Ok(track),
                Err(e) => Err(e),
            }
        },
        None => Ok(track),
    }
}

/// The tracks in a sequence of `trak` boxes.
pub open spec fn tracks_of(buf: Seq<u8>, traks: Seq<Extent>) -> Result<Seq<TrackFacts>, Seq<char>>
    decreases traks.len(),
{
    if traks.len() == 0 {
        Ok(Seq::empty())
    } else {
        match tracks_of(buf, traks.drop_last()) {
            Err(e) => Err(e),
            Ok(before) => match track_of(buf, traks.last()) {
                Err(e) => Err(e),
                Ok(t) => Ok(before.push(t)),
            },
        }
    }
}

/// The movie in the payload of a `moov` box.
pub open spec fn movie_of(buf: Seq<u8>) -> Result<MovieFacts, Seq<char>> {
    let end = buf.len() as int;
    let (creation, timescale, duration) = header_times(
        buf,
        first_found(buf, seq![MVHD as int], 0, end),
    );
    match tracks_of(buf, found(buf, seq![TRAK as int], 0, end)) {
        Err(e) => Err(e),
        Ok(tracks) => Ok(
            MovieFacts {
                creation_time: moment_1904(creation),
                duration,
                timescale,
                tracks,
                udta: match first_found(buf, seq![UDTA as int], 0, end) {
                    Some(b) => buf.subrange(b.start, b.end),
                    None => Seq::empty(),
                },
            },
        ),
    }
}

/// An error in the first `k` tracks is the error of all.
proof fn lemma_track_error_stays(buf: Seq<u8>, of: Seq<Extent>, k: int)
    requires
        0 <= k <= of.len(),
        tracks_of(buf, of.take(k)) is Err,
    ensures
        tracks_of(buf, of) == tracks_of(buf, of.take(k)),
    decreases of.len() - k,
{
    if k == of.len() {
        assert(of.take(k) =~= of);
    } else {
        assert(of.take(k + 1).drop_last() =~= of.take(k));
        lemma_track_error_stays(buf, of, k + 1);
    }
}

/// Reads the payload of a `moov` box.
pub fn parse_moov(buf: &[u8]) -> (r: Result<Movie, Mp4Error>)
    ensures
        match r {
            Ok(m) => movie_of(buf@) == Ok::<MovieFacts, Seq<char>>(m@) && m.wf(),
            Err(e) => e matches Mp4Error::Malformed(what) && movie_of(buf@) == Err::<
                MovieFacts,
                Seq<char>,
            >(what@),
        },
{
    let end: usize = buf.len();
    proof {
        assert(codes(seq![MVHD]) =~= seq![MVHD as int]);
        assert(codes(seq![UDTA]) =~= seq![UDTA as int]);
        assert(codes(seq![TRAK]) =~= seq![TRAK as int]);
    }
    let mvhd: [u32; 1] = [MVHD];
    let udta: [u32; 1] = [UDTA];
    let trak: [u32; 1] = [TRAK];
    assert(mvhd@ =~= seq![MVHD]);
    assert(udta@ =~= seq![UDTA]);
    assert(trak@ =~= seq![TRAK]);
    let mvhd: Option<(usize, usize)> = find_first(buf, vstd::array::array_as_slice(&mvhd), 0, end);
    let (creation, timescale, duration): (u64, u32, u64) = read_header_times(buf, mvhd);
    let udta: Vec<u8> = match find_first(buf, vstd::array::array_as_slice(&udta), 0, end) {
        Some(b) => vstd::slice::slice_to_vec(slice_subrange(buf, b.0, b.1)),
        None => Vec::new(),
    };
    let traks: Vec<(usize, usize)> = find_boxes(buf, vstd::array::array_as_slice(&trak), 0, end);
    let ghost all = extents(traks@);
    let mut tracks: Vec<Track> = Vec::new();
    let mut i: usize = 0;
    assert(track_views(tracks@) =~= Seq::empty());
    while i < traks.len()
        invariant
            i <= traks@.len(),
            end == buf@.len(),
            all == extents(traks@),
            all == found(buf@, seq![TRAK as int], 0, end as int),
            forall|k: int| 0 <= k < traks@.len() ==> within(#[trigger] traks@[k], 0, end),
            tracks_of(buf@, all.take(i as int)) == Ok::<Seq<TrackFacts>, Seq<char>>(
                track_views(tracks@),
            ),
            forall|k: int| 0 <= k < tracks@.len() ==> (#[trigger] tracks@[k]).wf(),
        decreases traks@.len() - i,
    {
        proof {
            assert(all.take(i + 1).drop_last() =~= all.take(i as int));
            assert(all.take(i + 1).last() == extent(traks@[i as int]));
        }
        let ghost before = track_views(tracks@);
        match parse_trak(buf, traks[i]) {
            Ok(t) => {
                let ghost facts = t@;
                tracks.push(t);
                assert(track_views(tracks@) =~= before.push(facts));
            },
            Err(e) => {
                proof {
                    lemma_track_error_stays(buf@, all, i + 1);
                }
                return Err(e);
            },
        }
        i = i + 1;
    }
    assert(all.take(i as int) =~= all);
    Ok(Movie { creation_time: mp4_time(creation), duration, timescale, tracks, udta })
}

/// The first `moov` box among a file's boxes.
pub open spec fn first_moov(boxes: Seq<Span>) -> Option<Span>
    decreases boxes.len(),
{
    if boxes.len() == 0 {
        None
    } else if boxes.first().kind == MOOV {
        Some(boxes.first())
    } else {
        first_moov(boxes.drop_first())
    }
}

/// Finds the `moov` box; an error without one and when it is unreasonably large.
pub fn find_moov(boxes: &[BoxHeader]) -> (r: Result<BoxHeader, Mp4Error>)
    requires
        forall|i: int| 0 <= i < boxes@.len() ==> (#[trigger] boxes@[i]).wf(),
    ensures
        match r {
            Ok(b) => {
                &&& exists|i: int|
                    0 <= i < boxes@.len() && b == #[trigger] boxes@[i] && b.code() == MOOV
                        && forall|j: int| 0 <= j < i ==> (#[trigger] boxes@[j]).code() != MOOV
                &&& first_moov(payload_spans(boxes@)) == Some(payload_span(b))
                &&& b.wf() && b.size - b.header_len <= MAX_MOOV
            },
            Err(Mp4Error::NoMoov) => first_moov(payload_spans(boxes@)) is None,
            Err(Mp4Error::Malformed(what)) => what@ == "moov box is unreasonably large"@
                && (first_moov(payload_spans(boxes@)) matches Some(b) && b.end - b.start
                > MAX_MOOV),
            Err(Mp4Error::UnexpectedEof) => false,
        },
{
    let ghost all = payload_spans(boxes@);
    let mut i: usize = 0;
    assert(all.skip(0) =~= all);
    while i < boxes.len()
        invariant
            i <= boxes@.len(),
            all == payload_spans(boxes@),
            forall|i: int| 0 <= i < boxes@.len() ==> (#[trigger] boxes@[i]).wf(),
            first_moov(all) == first_moov(all.skip(i as int)),
            forall|j: int| 0 <= j < i ==> (#[trigger] boxes@[j]).code() != MOOV,
        decreases boxes@.len() - i,
    {
        let b: BoxHeader = boxes[i];
        proof {
            assert(all.skip(i as int).first() == payload_span(b));
            assert(all.skip(i as int).drop_first() =~= all.skip(i + 1));
        }
        let kind: &[u8] = vstd::array::array_as_slice(&b.kind);
        if bytes::be_u32(kind, 0) == MOOV {
            if b.payload_len() > MAX_MOOV {
                return Err(Mp4Error::Malformed("moov box is unreasonably large"));
            }
            assert(b == boxes@[i as int]);
            return Ok(b);
        }
        i = i + 1;
    }
    Err(Mp4Error::NoMoov)
}

/// The movie of a file.
pub open spec fn movie_in(file: Seq<u8>) -> Result<MovieFacts, Seq<char>> {
    match first_moov(spans(file, 0, file.len() as int)) {
        None => Err("not an MP4/MOV file: no `moov` box found"@),
        Some(b) => if b.end - b.start > MAX_MOOV {
            Err("malformed MP4: "@ + "moov box is unreasonably large"@)
        } else {
            match movie_of(file.subrange(b.start, b.end)) {
                Ok(m) => Ok(m),
                Err(what) => Err("malformed MP4: "@ + what),
            }
        },
    }
}

/// Reads the movie of a file held in memory.
pub fn read_movie(file: &[u8]) -> (r: Result<Movie, Mp4Error>)
    ensures
        match r {
            Ok(m) => !cut_off(file@, 0) && movie_in(file@) == Ok::<MovieFacts, Seq<char>>(m@)
                && m.wf(),
            Err(Mp4Error::UnexpectedEof) => cut_off(file@, 0),
            Err(e) => !cut_off(file@, 0) && movie_in(file@) == Err::<MovieFacts, Seq<char>>(
                e.text(),
            ),
        },
{
    let boxes: Vec<BoxHeader> = match top_level_boxes(file) {
        Ok(b) => b,
        Err(e) => {
            return Err(e);
        },
    };
    let ghost all = spans(file@, 0, file@.len() as int);
    let moov: BoxHeader = match find_moov(boxes.as_slice()) {
        Ok(b) => b,
        Err(e) => {
            return Err(e);
        },
    };
    proof {
        lemma_moov_inside(file@);
        assert(first_moov(all) == Some(payload_span(moov)));
        assert(moov.offset + moov.size <= file.len());
    }
    let from: usize = moov.payload_offset() as usize;
    let to: usize = (moov.offset + moov.size) as usize;
    let buf: &[u8] = slice_subrange(file, from, to);
    match parse_moov(buf) {
        Ok(m) => Ok(m),
        Err(e) => Err(e),
    }
}

/// Every box lies within its container.
proof fn lemma_spans_inside(buf: Seq<u8>, start: int, end: int)
    ensures
        forall|i: int|
            0 <= i < spans(buf, start, end).len() ==> start <= (#[trigger] spans(
                buf,
                start,
                end,
            )[i]).start <= spans(buf, start, end)[i].end <= end,
    decreases end - start,
{
    if 0 <= start <= end <= buf.len() {
        if let Some((header, size)) = first_box(buf.subrange(start, end)) {
            lemma_spans_inside(buf, start + size, end);
            let rest = spans(buf, start + size, end);
            assert forall|i: int| 0 <= i < spans(buf, start, end).len() implies start
                <= (#[trigger] spans(buf, start, end)[i]).start <= spans(buf, start, end)[i].end
                <= end by {
                if i > 0 {
                    assert(spans(buf, start, end)[i] == rest[i - 1]);
                }
            }
        }
    }
}

/// The `moov` box lies within the file.
proof fn lemma_moov_inside(file: Seq<u8>)
    ensures
        first_moov(spans(file, 0, file.len() as int)) matches Some(b) ==> 0 <= b.start <= b.end
            <= file.len(),
{
    let all = spans(file, 0, file.len() as int);
    lemma_spans_inside(file, 0, file.len() as int);
    lemma_first_moov_among(all);
}

/// The first `moov` box is one of the boxes.
proof fn lemma_first_moov_among(boxes: Seq<Span>)
    ensures
        first_moov(boxes) matches Some(b) ==> exists|i: int|
            0 <= i < boxes.len() && #[trigger] boxes[i] == b,
    decreases boxes.len(),
{
    if boxes.len() > 0 {
        if boxes.first().kind == MOOV {
            assert(boxes[0] == boxes.first());
        } else {
            lemma_first_moov_among(boxes.drop_first());
            if let Some(b) = first_moov(boxes.drop_first()) {
                let i = choose|i: int|
                    0 <= i < boxes.drop_first().len() && #[trigger] boxes.drop_first()[i] == b;
                assert(boxes[i + 1] == b);
            }
        }
    }
}

/// Whether no box reaches to the end of the file only because it says no size.
pub open spec fn all_sized(file: Seq<u8>, start: int) -> bool
    decreases file.len() - start,
{
    if 0 <= start <= file.len() {
        let rest = file.skip(start);
        match first_box(rest) {
            Some((header, size)) => bytes::be32(rest, 0) != 0 && all_sized(file, start + size),
            None => true,
        }
    } else {
        true
    }
}

proof fn lemma_spans_extend(file: Seq<u8>, tail: Seq<u8>, start: int)
    requires
        0 <= start <= file.len(),
        all_sized(file, start),
    ensures
        spans(file, start, file.len() as int).is_prefix_of(
            spans(file + tail, start, (file + tail).len() as int),
        ),
    decreases file.len() - start,
{
    let n = file.len() as int;
    let longer = file + tail;
    let rest = file.skip(start);
    assert(file.subrange(start, n) =~= rest);
    if let Some((header, size)) = first_box(rest) {
        let more = longer.subrange(start, longer.len() as int);
        assert(bytes::be32(more, 0) == bytes::be32(rest, 0));
        if bytes::be32(rest, 0) == 1 {
            assert(bytes::be64(more, 8) == bytes::be64(rest, 8));
        }
        assert(first_box(more) == Some((header, size)));
        assert(bytes::be32(longer, start + 4) == bytes::be32(file, start + 4));
        lemma_spans_extend(file, tail, start + size);
    }
}

proof fn lemma_first_moov_prefix(a: Seq<Span>, b: Seq<Span>)
    requires
        a.is_prefix_of(b),
        first_moov(a) is Some,
    ensures
        first_moov(b) == first_moov(a),
    decreases a.len(),
{
    assert(a[0] == b[0]);
    if a.first().kind != MOOV {
        assert(a.drop_first().is_prefix_of(b.drop_first())) by {
            assert(b.drop_first().subrange(0, a.len() - 1) =~= a.drop_first());
        }
        lemma_first_moov_prefix(a.drop_first(), b.drop_first());
    }
}

/// A damaged tail does no harm: whatever stands behind the boxes of a file, its
/// movie stays the same.
pub proof fn damaged_tail_does_no_harm(file: Seq<u8>, tail: Seq<u8>)
    requires
        all_sized(file, 0),
        first_moov(spans(file, 0, file.len() as int)) is Some,
    ensures
        movie_in(file + tail) == movie_in(file),
{
    let longer = file + tail;
    let all = spans(file, 0, file.len() as int);
    lemma_spans_extend(file, tail, 0);
    lemma_first_moov_prefix(all, spans(longer, 0, longer.len() as int));
    lemma_moov_inside(file);
    let b = first_moov(all)->0;
    assert(longer.subrange(b.start, b.end) =~= file.subrange(b.start, b.end));
}

} // verus!
