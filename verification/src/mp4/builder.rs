//! Builder for synthetic MP4 files.

use crate::bytes;
use crate::mp4;
use vstd::prelude::*;

verus! {

pub const FTYP: u32 = 0x6674_7970;

pub const MDAT: u32 = 0x6d64_6174;

/// `n` zero bytes.
pub open spec fn zeros(n: nat) -> Seq<u8> {
    Seq::new(n, |i: int| 0u8)
}

/// A box with a 32-bit size.
pub open spec fn boxed_bytes(kind: u32, payload: Seq<u8>) -> Seq<u8> {
    bytes::be32_bytes((payload.len() + 8) as u32) + bytes::be32_bytes(kind) + payload
}

/// The payload of a box that begins with a version and flags of zero.
pub open spec fn versioned(version: u8, body: Seq<u8>) -> Seq<u8> {
    seq![version, 0u8, 0u8, 0u8] + body
}

/// Boxes one behind the other.
pub open spec fn list_bytes(list: Seq<(u32, Seq<u8>)>) -> Seq<u8>
    decreases list.len(),
{
    if list.len() == 0 {
        Seq::empty()
    } else {
        list_bytes(list.drop_last()) + boxed_bytes(list.last().0, list.last().1)
    }
}

/// A track description as a mathematical object.
pub struct Plan {
    pub fourcc: Seq<u8>,
    pub handler_type: Seq<u8>,
    pub handler_name: Seq<u8>,
    pub timescale: u32,
    pub sample_delta: u32,
    pub samples: Seq<Seq<u8>>,
    pub chunk_size: nat,
}

/// A track description for [`build`].
pub struct TrackSpec<'a> {
    pub fourcc: &'a [u8; 4],
    pub handler_type: &'a [u8; 4],
    pub handler_name: &'a str,
    pub timescale: u32,
    pub sample_delta: u32,
    pub samples: &'a [Vec<u8>],
    /// Samples per chunk (the mdat interleaving granularity).
    pub chunk_size: usize,
}

/// The views of a sequence of samples.
pub open spec fn sample_views(v: Seq<Vec<u8>>) -> Seq<Seq<u8>> {
    v.map_values(|s: Vec<u8>| s@)
}

impl<'a> View for TrackSpec<'a> {
    type V = Plan;

    open spec fn view(&self) -> Plan {
        Plan {
            fourcc: self.fourcc@,
            handler_type: self.handler_type@,
            handler_name: vstd::utf8::encode_utf8(self.handler_name@),
            timescale: self.timescale,
            sample_delta: self.sample_delta,
            samples: sample_views(self.samples@),
            chunk_size: self.chunk_size as nat,
        }
    }
}

/// The views of a sequence of track descriptions.
pub open spec fn plans(v: Seq<TrackSpec<'_>>) -> Seq<Plan> {
    v.map_values(|t: TrackSpec<'_>| t@)
}

/// Samples one behind the other.
pub open spec fn flat(samples: Seq<Seq<u8>>) -> Seq<u8>
    decreases samples.len(),
{
    if samples.len() == 0 {
        Seq::empty()
    } else {
        flat(samples.drop_last()) + samples.last()
    }
}

/// The samples of all tracks, track after track.
pub open spec fn media(tracks: Seq<Plan>) -> Seq<u8>
    decreases tracks.len(),
{
    if tracks.len() == 0 {
        Seq::empty()
    } else {
        media(tracks.drop_last()) + flat(tracks.last().samples)
    }
}

/// Where the samples begin in the file: behind the file type box and the
/// header of the media box.
pub open spec fn media_start() -> int {
    40
}

/// The number of samples in a chunk.
pub open spec fn per_chunk(t: Plan) -> int {
    if t.chunk_size == 0 {
        1
    } else {
        t.chunk_size as int
    }
}

/// The number of chunks of a track.
pub open spec fn chunk_count(t: Plan) -> nat {
    let n = t.samples.len() as int;
    (n / per_chunk(t) + if n % per_chunk(t) > 0 {
        1int
    } else {
        0
    }) as nat
}

/// The file offset of each chunk of a track whose samples begin at `base`.
pub open spec fn chunk_starts(t: Plan, base: int) -> Seq<u64> {
    Seq::new(
        chunk_count(t),
        |j: int| (base + flat(t.samples.take(j * per_chunk(t))).len()) as u64,
    )
}

/// Four bytes for each number.
pub open spec fn words_bytes(v: Seq<u32>) -> Seq<u8>
    decreases v.len(),
{
    if v.len() == 0 {
        Seq::empty()
    } else {
        words_bytes(v.drop_last()) + bytes::be32_bytes(v.last())
    }
}

/// Eight bytes for each number.
pub open spec fn longs_bytes(v: Seq<u64>) -> Seq<u8>
    decreases v.len(),
{
    if v.len() == 0 {
        Seq::empty()
    } else {
        longs_bytes(v.drop_last()) + bytes::be64_bytes(v.last())
    }
}

/// The size of each sample.
pub open spec fn sample_sizes(t: Plan) -> Seq<u32> {
    t.samples.map_values(|s: Seq<u8>| s.len() as u32)
}

pub open spec fn tkhd_bytes(id: u32) -> Seq<u8> {
    versioned(0, zeros(8) + bytes::be32_bytes(id) + zeros(68))
}

pub open spec fn mdhd_bytes(t: Plan) -> Seq<u8> {
    versioned(
        0,
        zeros(8) + bytes::be32_bytes(t.timescale) + bytes::be32_bytes(
            (t.samples.len() * t.sample_delta) as u32,
        ) + zeros(4),
    )
}

pub open spec fn hdlr_bytes(t: Plan) -> Seq<u8> {
    versioned(0, zeros(4) + t.handler_type + zeros(12) + t.handler_name + seq![0u8])
}

pub open spec fn stsd_bytes(t: Plan) -> Seq<u8> {
    versioned(
        0,
        bytes::be32_bytes(1) + boxed_bytes(bytes::be32(t.fourcc, 0) as u32, zeros(8)),
    )
}

pub open spec fn stts_bytes(t: Plan) -> Seq<u8> {
    versioned(
        0,
        words_bytes(seq![1u32, t.samples.len() as u32, t.sample_delta]),
    )
}

pub open spec fn stsz_bytes(t: Plan) -> Seq<u8> {
    versioned(
        0,
        words_bytes(seq![0u32, t.samples.len() as u32]) + words_bytes(sample_sizes(t)),
    )
}

/// The entries of the chunk table: the full chunks, and one for the rest.
pub open spec fn run_words(t: Plan) -> Seq<u32> {
    let n = t.samples.len() as int;
    let full = n / per_chunk(t);
    let rest = n % per_chunk(t);
    let entries = (if full > 0 {
        1int
    } else {
        0
    }) + if rest > 0 {
        1int
    } else {
        0
    };
    seq![entries as u32] + (if full > 0 {
        seq![1u32, t.chunk_size as u32, 1u32]
    } else {
        Seq::empty()
    }) + if rest > 0 {
        seq![(full + 1) as u32, rest as u32, 1u32]
    } else {
        Seq::empty()
    }
}

pub open spec fn stsc_bytes(t: Plan) -> Seq<u8> {
    versioned(0, words_bytes(run_words(t)))
}

pub open spec fn co64_bytes(starts: Seq<u64>) -> Seq<u8> {
    versioned(0, bytes::be32_bytes(starts.len() as u32) + longs_bytes(starts))
}

pub open spec fn stbl_list(t: Plan, base: int) -> Seq<(u32, Seq<u8>)> {
    Seq::empty().push((mp4::STSD, stsd_bytes(t))).push((mp4::STTS, stts_bytes(t))).push(
        (mp4::STSC, stsc_bytes(t)),
    ).push((mp4::STSZ, stsz_bytes(t))).push((mp4::CO64, co64_bytes(chunk_starts(t, base))))
}

pub open spec fn minf_list(t: Plan, base: int) -> Seq<(u32, Seq<u8>)> {
    Seq::empty().push((mp4::STBL, list_bytes(stbl_list(t, base))))
}

pub open spec fn mdia_list(t: Plan, base: int) -> Seq<(u32, Seq<u8>)> {
    Seq::empty().push((mp4::MDHD, mdhd_bytes(t))).push((mp4::HDLR, hdlr_bytes(t))).push(
        (mp4::MINF, list_bytes(minf_list(t, base))),
    )
}

pub open spec fn trak_list(t: Plan, id: u32, base: int) -> Seq<(u32, Seq<u8>)> {
    Seq::empty().push((mp4::TKHD, tkhd_bytes(id))).push(
        (mp4::MDIA, list_bytes(mdia_list(t, base))),
    )
}

/// The longest duration of a track, in milliseconds.
pub open spec fn longest(tracks: Seq<Plan>) -> int
    decreases tracks.len(),
{
    if tracks.len() == 0 {
        0
    } else {
        let t = tracks.last();
        let here = t.samples.len() * t.sample_delta * 1000 / t.timescale as int;
        let before = longest(tracks.drop_last());
        if here > before {
            here
        } else {
            before
        }
    }
}

pub open spec fn mvhd_bytes(tracks: Seq<Plan>, creation: u64) -> Seq<u8> {
    versioned(
        0,
        words_bytes(seq![creation as u32, creation as u32, 1000u32, longest(tracks) as u32])
            + zeros(80),
    )
}

/// The boxes of the movie box: a header, and one box for each of the first
/// `n` tracks.
pub open spec fn moov_list(tracks: Seq<Plan>, creation: u64, n: nat) -> Seq<(u32, Seq<u8>)>
    decreases n,
{
    if n == 0 {
        Seq::empty().push((mp4::MVHD, mvhd_bytes(tracks, creation)))
    } else {
        moov_list(tracks, creation, (n - 1) as nat).push(
            (
                mp4::TRAK,
                list_bytes(
                    trak_list(
                        tracks[n - 1],
                        n as u32,
                        media_start() + media(tracks.take(n - 1)).len(),
                    ),
                ),
            ),
        )
    }
}

pub open spec fn ftyp_payload() -> Seq<u8> {
    words_bytes(seq![0x6973_6f6du32, 0x0000_0200u32, 0x6973_6f6du32, 0x6d70_3432u32])
}

/// The media box, with a 64-bit size.
pub open spec fn mdat_bytes(tracks: Seq<Plan>) -> Seq<u8> {
    bytes::be32_bytes(1) + bytes::be32_bytes(MDAT) + bytes::be64_bytes(
        (media(tracks).len() + 16) as u64,
    ) + media(tracks)
}

/// A file with the given tracks: `ftyp | mdat | moov`.
pub open spec fn file_bytes(tracks: Seq<Plan>, creation: u64) -> Seq<u8> {
    boxed_bytes(FTYP, ftyp_payload()) + mdat_bytes(tracks) + boxed_bytes(
        mp4::MOOV,
        list_bytes(moov_list(tracks, creation, tracks.len())),
    )
}

/// Whether a track can be written: its time scale is not zero, and its number
/// of samples and its duration fit in 32 bits.
pub open spec fn writable(t: Plan) -> bool {
    t.timescale > 0 && t.samples.len() <= u32::MAX && t.samples.len() * t.sample_delta <= u32::MAX
}

/// Appends a box.
fn boxed(kind: u32, payload: &[u8], out: &mut Vec<u8>)
    ensures
        final(out)@ == old(out)@ + boxed_bytes(kind, payload@),
{
    bytes::push_be_u32(out, (payload.len() as u128 + 8) as u32);
    bytes::push_be_u32(out, kind);
    bytes::push_all(out, payload);
    assert(out@ =~= old(out)@ + boxed_bytes(kind, payload@));
}

proof fn lemma_list_push(list: Seq<(u32, Seq<u8>)>, kind: u32, payload: Seq<u8>)
    ensures
        list_bytes(list.push((kind, payload))) == list_bytes(list) + boxed_bytes(kind, payload),
{
    assert(list.push((kind, payload)).drop_last() =~= list);
}

/// Appends a box to a list of boxes.
fn push_box(out: &mut Vec<u8>, Ghost(list): Ghost<Seq<(u32, Seq<u8>)>>, kind: u32, payload: &[u8])
    requires
        old(out)@ == list_bytes(list),
    ensures
        final(out)@ == list_bytes(list.push((kind, payload@))),
{
    proof {
        lemma_list_push(list, kind, payload@);
    }
    boxed(kind, payload, out);
}

fn push_zeros(out: &mut Vec<u8>, n: usize)
    ensures
        final(out)@ == old(out)@ + zeros(n as nat),
{
    let ghost before = out@;
    let mut i: usize = 0;
    assert(out@ =~= before + zeros(0));
    while i < n
        invariant
            i <= n,
            out@ == before + zeros(i as nat),
        decreases n - i,
    {
        out.push(0);
        i = i + 1;
        assert(out@ =~= before + zeros(i as nat));
    }
}

proof fn lemma_words_push(v: Seq<u32>, w: u32)
    ensures
        words_bytes(v.push(w)) == words_bytes(v) + bytes::be32_bytes(w),
{
    assert(v.push(w).drop_last() =~= v);
}

/// Appends four bytes for each number.
fn push_words(out: &mut Vec<u8>, words: &[u32])
    ensures
        final(out)@ == old(out)@ + words_bytes(words@),
{
    let ghost before = out@;
    let mut i: usize = 0;
    assert(words@.take(0) =~= Seq::empty());
    assert(out@ =~= before + words_bytes(words@.take(0)));
    while i < words.len()
        invariant
            i <= words@.len(),
            out@ == before + words_bytes(words@.take(i as int)),
        decreases words@.len() - i,
    {
        proof {
            assert(words@.take(i + 1) =~= words@.take(i as int).push(words@[i as int]));
            lemma_words_push(words@.take(i as int), words@[i as int]);
        }
        bytes::push_be_u32(out, words[i]);
        i = i + 1;
        assert(out@ =~= before + words_bytes(words@.take(i as int)));
    }
    assert(words@.take(i as int) =~= words@);
}

/// Appends eight bytes for each number.
fn push_longs(out: &mut Vec<u8>, longs: &[u64])
    ensures
        final(out)@ == old(out)@ + longs_bytes(longs@),
{
    let ghost before = out@;
    let mut i: usize = 0;
    assert(longs@.take(0) =~= Seq::empty());
    assert(out@ =~= before + longs_bytes(longs@.take(0)));
    while i < longs.len()
        invariant
            i <= longs@.len(),
            out@ == before + longs_bytes(longs@.take(i as int)),
        decreases longs@.len() - i,
    {
        proof {
            assert(longs@.take(i + 1).drop_last() =~= longs@.take(i as int));
        }
        bytes::push_be_u64(out, longs[i]);
        i = i + 1;
        assert(out@ =~= before + longs_bytes(longs@.take(i as int)));
    }
    assert(longs@.take(i as int) =~= longs@);
}

/// The beginning of a box with version 0.
fn full() -> (r: Vec<u8>)
    ensures
        r@ == versioned(0, Seq::empty()),
{
    let mut out: Vec<u8> = Vec::new();
    out.push(0);
    out.push(0);
    out.push(0);
    out.push(0);
    assert(out@ =~= versioned(0, Seq::empty()));
    out
}

fn tkhd(id: u32) -> (r: Vec<u8>)
    ensures
        r@ == tkhd_bytes(id),
{
    let mut out: Vec<u8> = full();
    push_zeros(&mut out, 8);
    bytes::push_be_u32(&mut out, id);
    push_zeros(&mut out, 68);
    assert(out@ =~= tkhd_bytes(id));
    out
}

fn mdhd(t: &TrackSpec<'_>) -> (r: Vec<u8>)
    requires
        writable(t@),
    ensures
        r@ == mdhd_bytes(t@),
{
    assert(t.samples@.len() * t.sample_delta <= u32::MAX);
    let mut out: Vec<u8> = full();
    push_zeros(&mut out, 8);
    bytes::push_be_u32(&mut out, t.timescale);
    bytes::push_be_u32(&mut out, t.samples.len() as u32 * t.sample_delta);
    push_zeros(&mut out, 4);
    assert(out@ =~= mdhd_bytes(t@));
    out
}

fn hdlr(t: &TrackSpec<'_>) -> (r: Vec<u8>)
    ensures
        r@ == hdlr_bytes(t@),
{
    let mut out: Vec<u8> = full();
    push_zeros(&mut out, 4);
    bytes::push_all(&mut out, vstd::array::array_as_slice(t.handler_type));
    push_zeros(&mut out, 12);
    bytes::push_all(&mut out, t.handler_name.as_bytes());
    out.push(0);
    assert(out@ =~= hdlr_bytes(t@));
    out
}

fn stsd(t: &TrackSpec<'_>) -> (r: Vec<u8>)
    ensures
        r@ == stsd_bytes(t@),
{
    let mut out: Vec<u8> = full();
    bytes::push_be_u32(&mut out, 1);
    let mut entry: Vec<u8> = Vec::new();
    push_zeros(&mut entry, 8);
    assert(entry@ =~= zeros(8));
    let code: &[u8] = vstd::array::array_as_slice(t.fourcc);
    boxed(bytes::be_u32(code, 0), entry.as_slice(), &mut out);
    assert(out@ =~= stsd_bytes(t@));
    out
}

fn stts(t: &TrackSpec<'_>) -> (r: Vec<u8>)
    ensures
        r@ == stts_bytes(t@),
{
    let mut out: Vec<u8> = full();
    let words: [u32; 3] = [1, t.samples.len() as u32, t.sample_delta];
    assert(words@ =~= seq![1u32, t.samples@.len() as u32, t.sample_delta]);
    push_words(&mut out, vstd::array::array_as_slice(&words));
    assert(out@ =~= stts_bytes(t@));
    out
}

fn stsz(t: &TrackSpec<'_>) -> (r: Vec<u8>)
    ensures
        r@ == stsz_bytes(t@),
{
    let mut sizes: Vec<u32> = Vec::new();
    let mut i: usize = 0;
    while i < t.samples.len()
        invariant
            i <= t.samples@.len(),
            sizes@ == sample_sizes(t@).take(i as int),
        decreases t.samples@.len() - i,
    {
        sizes.push(t.samples[i].len() as u32);
        i = i + 1;
        assert(sizes@ =~= sample_sizes(t@).take(i as int));
    }
    assert(sizes@ =~= sample_sizes(t@));
    let mut out: Vec<u8> = full();
    let words: [u32; 2] = [0, t.samples.len() as u32];
    assert(words@ =~= seq![0u32, t.samples@.len() as u32]);
    push_words(&mut out, vstd::array::array_as_slice(&words));
    push_words(&mut out, sizes.as_slice());
    assert(out@ =~= stsz_bytes(t@));
    out
}

fn stsc(t: &TrackSpec<'_>) -> (r: Vec<u8>)
    requires
        writable(t@),
    ensures
        r@ == stsc_bytes(t@),
{
    let per: usize = if t.chunk_size == 0 {
        1
    } else {
        t.chunk_size
    };
    let n: usize = t.samples.len();
    let full_chunks: usize = n / per;
    let rest: usize = n % per;
    proof {
        assert(full_chunks <= n) by (nonlinear_arith)
            requires
                full_chunks == n / per,
                per >= 1,
        ;
        if rest > 0 {
            assert(full_chunks < n) by (nonlinear_arith)
                requires
                    full_chunks == n / per,
                    rest == n % per,
                    rest > 0,
                    per >= 1,
            ;
        }
    }
    let mut words: Vec<u32> = Vec::new();
    words.push((if full_chunks > 0 {
        1u32
    } else {
        0
    }) + if rest > 0 {
        1u32
    } else {
        0
    });
    if full_chunks > 0 {
        words.push(1);
        words.push(t.chunk_size as u32);
        words.push(1);
    }
    if rest > 0 {
        words.push((full_chunks + 1) as u32);
        words.push(rest as u32);
        words.push(1);
    }
    assert(words@ =~= run_words(t@));
    let mut out: Vec<u8> = full();
    push_words(&mut out, words.as_slice());
    assert(out@ =~= stsc_bytes(t@));
    out
}

fn co64(starts: &[u64]) -> (r: Vec<u8>)
    ensures
        r@ == co64_bytes(starts@),
{
    let mut out: Vec<u8> = full();
    bytes::push_be_u32(&mut out, starts.len() as u32);
    push_longs(&mut out, starts);
    assert(out@ =~= co64_bytes(starts@));
    out
}

/// The payload of a track box.
fn trak(t: &TrackSpec<'_>, id: u32, starts: &[u64], Ghost(base): Ghost<int>) -> (r: Vec<u8>)
    requires
        writable(t@),
        starts@ == chunk_starts(t@, base),
    ensures
        r@ == list_bytes(trak_list(t@, id, base)),
{
    let ghost none = Seq::<(u32, Seq<u8>)>::empty();
    let mut stbl: Vec<u8> = Vec::new();
    assert(stbl@ =~= list_bytes(none));
    let b: Vec<u8> = stsd(t);
    push_box(&mut stbl, Ghost(none), mp4::STSD, b.as_slice());
    let ghost list = none.push((mp4::STSD, stsd_bytes(t@)));
    let b: Vec<u8> = stts(t);
    push_box(&mut stbl, Ghost(list), mp4::STTS, b.as_slice());
    let ghost list = list.push((mp4::STTS, stts_bytes(t@)));
    let b: Vec<u8> = stsc(t);
    push_box(&mut stbl, Ghost(list), mp4::STSC, b.as_slice());
    let ghost list = list.push((mp4::STSC, stsc_bytes(t@)));
    let b: Vec<u8> = stsz(t);
    push_box(&mut stbl, Ghost(list), mp4::STSZ, b.as_slice());
    let ghost list = list.push((mp4::STSZ, stsz_bytes(t@)));
    let b: Vec<u8> = co64(starts);
    push_box(&mut stbl, Ghost(list), mp4::CO64, b.as_slice());
    assert(stbl@ == list_bytes(stbl_list(t@, base)));
    let mut minf: Vec<u8> = Vec::new();
    assert(minf@ =~= list_bytes(none));
    push_box(&mut minf, Ghost(none), mp4::STBL, stbl.as_slice());
    let mut mdia: Vec<u8> = Vec::new();
    assert(mdia@ =~= list_bytes(none));
    let b: Vec<u8> = mdhd(t);
    push_box(&mut mdia, Ghost(none), mp4::MDHD, b.as_slice());
    let ghost list = none.push((mp4::MDHD, mdhd_bytes(t@)));
    let b: Vec<u8> = hdlr(t);
    push_box(&mut mdia, Ghost(list), mp4::HDLR, b.as_slice());
    let ghost list = list.push((mp4::HDLR, hdlr_bytes(t@)));
    push_box(&mut mdia, Ghost(list), mp4::MINF, minf.as_slice());
    let mut trak: Vec<u8> = Vec::new();
    assert(trak@ =~= list_bytes(none));
    let b: Vec<u8> = tkhd(id);
    push_box(&mut trak, Ghost(none), mp4::TKHD, b.as_slice());
    let ghost list = none.push((mp4::TKHD, tkhd_bytes(id)));
    push_box(&mut trak, Ghost(list), mp4::MDIA, mdia.as_slice());
    trak
}

/// `k` chunks of `per` samples are all there are of `n`.
proof fn lemma_chunk_count(n: int, per: int, k: int)
    requires
        n >= 0,
        per >= 1,
        k >= 0,
        k * per >= n,
        k > 0 ==> (k - 1) * per < n,
    ensures
        k == n / per + (if n % per > 0 {
            1int
        } else {
            0
        }),
{
    let q = n / per;
    let r = n % per;
    vstd::arithmetic::div_mod::lemma_fundamental_div_mod(n, per);
    if k == 0 {
        assert(n == 0);
        assert(0int / per == 0 && 0int % per == 0) by (nonlinear_arith)
            requires
                per >= 1,
        ;
    } else {
        assert(k <= q + 1 && (r == 0 ==> k <= q) && k >= q && (r > 0 ==> k > q))
            by (nonlinear_arith)
            requires
                n == per * q + r,
                0 <= r < per,
                per >= 1,
                k * per >= n,
                (k - 1) * per < n,
        ;
    }
}

/// Appends the samples of a track to the media data and returns the file
/// offsets of its chunks.
fn lay_out(t: &TrackSpec<'_>, data: &mut Vec<u8>) -> (r: Vec<u64>)
    ensures
        final(data)@ == old(data)@ + flat(t@.samples),
        r@ == chunk_starts(t@, media_start() + old(data)@.len()),
{
    let ghost before = data@;
    let ghost samples = t@.samples;
    let ghost base = media_start() + before.len();
    let per: usize = if t.chunk_size == 0 {
        1
    } else {
        t.chunk_size
    };
    let n: usize = t.samples.len();
    let mut starts: Vec<u64> = Vec::new();
    let mut i: usize = 0;
    proof {
        assert(samples.take(0) =~= Seq::empty());
        assert(data@ =~= before + flat(samples.take(0)));
    }
    while i < n
        invariant
            i <= n,
            n == t.samples@.len(),
            samples == t@.samples,
            per == per_chunk(t@),
            base == media_start() + before.len(),
            data@ == before + flat(samples.take(i as int)),
            starts@ == Seq::new(
                starts@.len(),
                |j: int| (base + flat(samples.take(j * per)).len()) as u64,
            ),
            starts@.len() > 0 ==> (starts@.len() - 1) * per < n,
            i < n ==> i == starts@.len() * per,
            i == n ==> starts@.len() * per >= n,
        decreases n - i,
    {
        let ghost k = starts@.len() as int;
        starts.push((40u128 + data.len() as u128) as u64);
        proof {
            assert(starts@ =~= Seq::new(
                starts@.len(),
                |j: int| (base + flat(samples.take(j * per)).len()) as u64,
            ));
        }
        let end: usize = if per < n - i {
            i + per
        } else {
            n
        };
        proof {
            assert((k + 1) * per == k * per + per) by (nonlinear_arith);
        }
        while i < end
            invariant
                i <= end <= n,
                n == t.samples@.len(),
                samples == t@.samples,
                data@ == before + flat(samples.take(i as int)),
            decreases end - i,
        {
            proof {
                assert(samples.take(i + 1).drop_last() =~= samples.take(i as int));
                assert(samples.take(i + 1).last() == t.samples@[i as int]@);
            }
            bytes::push_all(data, t.samples[i].as_slice());
            i = i + 1;
            assert(data@ =~= before + flat(samples.take(i as int)));
        }
    }
    proof {
        assert(samples.take(n as int) =~= samples);
        if n == 0 {
            assert(starts@.len() * per >= 0) by (nonlinear_arith);
        }
        lemma_chunk_count(n as int, per as int, starts@.len() as int);
        assert(starts@ =~= chunk_starts(t@, base));
    }
    starts
}

/// The longest duration of a track, in milliseconds.
fn longest_of(tracks: &[TrackSpec<'_>]) -> (r: u64)
    requires
        forall|i: int| 0 <= i < tracks@.len() ==> writable(#[trigger] tracks@[i]@),
    ensures
        r == longest(plans(tracks@)),
{
    let ghost all = plans(tracks@);
    let mut best: u64 = 0;
    let mut i: usize = 0;
    while i < tracks.len()
        invariant
            i <= tracks@.len(),
            all == plans(tracks@),
            best == longest(all.take(i as int)),
            forall|i: int| 0 <= i < tracks@.len() ==> writable(#[trigger] tracks@[i]@),
        decreases tracks@.len() - i,
    {
        let t: &TrackSpec<'_> = &tracks[i];
        proof {
            assert(all.take(i + 1).drop_last() =~= all.take(i as int));
            assert(all.take(i + 1).last() == t@);
            assert(writable(t@));
        }
        let here: u64 = t.samples.len() as u64 * t.sample_delta as u64 * 1000 / t.timescale as u64;
        if here > best {
            best = here;
        }
        i = i + 1;
    }
    assert(all.take(i as int) =~= all);
    best
}

/// Builds `ftyp | mdat | moov` with `co64` chunk offsets, mdat before moov like DJI cameras.
pub fn build(tracks: &[TrackSpec<'_>], creation_time_1904: u64) -> (r: Vec<u8>)
    requires
        forall|i: int| 0 <= i < tracks@.len() ==> writable(#[trigger] tracks@[i]@),
    ensures
        r@ == file_bytes(plans(tracks@), creation_time_1904),
{
    let ghost all = plans(tracks@);
    let mut data: Vec<u8> = Vec::new();
    let mut moov: Vec<u8> = Vec::new();
    let created: u32 = creation_time_1904 as u32;
    let mut mvhd: Vec<u8> = full();
    let words: [u32; 4] = [created, created, 1000, longest_of(tracks) as u32];
    proof {
        assert(words@ =~= seq![created, created, 1000u32, longest(all) as u32]);
    }
    push_words(&mut mvhd, vstd::array::array_as_slice(&words));
    push_zeros(&mut mvhd, 80);
    assert(mvhd@ =~= mvhd_bytes(all, creation_time_1904));
    let ghost none = Seq::<(u32, Seq<u8>)>::empty();
    assert(moov@ =~= list_bytes(none));
    push_box(&mut moov, Ghost(none), mp4::MVHD, mvhd.as_slice());
    let mut i: usize = 0;
    assert(all.take(0) =~= Seq::empty());
    while i < tracks.len()
        invariant
            i <= tracks@.len(),
            all == plans(tracks@),
            data@ == media(all.take(i as int)),
            moov@ == list_bytes(moov_list(all, creation_time_1904, i as nat)),
            forall|i: int| 0 <= i < tracks@.len() ==> writable(#[trigger] tracks@[i]@),
        decreases tracks@.len() - i,
    {
        let ghost base = media_start() + data@.len();
        proof {
            assert(all.take(i + 1).drop_last() =~= all.take(i as int));
            assert(all.take(i + 1).last() == tracks@[i as int]@);
        }
        let starts: Vec<u64> = lay_out(&tracks[i], &mut data);
        let payload: Vec<u8> = trak(
            &tracks[i],
            (i + 1) as u32,
            starts.as_slice(),
            Ghost(base),
        );
        push_box(
            &mut moov,
            Ghost(moov_list(all, creation_time_1904, i as nat)),
            mp4::TRAK,
            payload.as_slice(),
        );
        i = i + 1;
    }
    assert(all.take(i as int) =~= all);
    let mut file: Vec<u8> = Vec::new();
    let mut ftyp: Vec<u8> = Vec::new();
    let words: [u32; 4] = [0x6973_6f6d, 0x0000_0200, 0x6973_6f6d, 0x6d70_3432];
    assert(words@ =~= seq![0x6973_6f6du32, 0x0000_0200u32, 0x6973_6f6du32, 0x6d70_3432u32]);
    push_words(&mut ftyp, vstd::array::array_as_slice(&words));
    assert(ftyp@ =~= ftyp_payload());
    boxed(FTYP, ftyp.as_slice(), &mut file);
    bytes::push_be_u32(&mut file, 1);
    bytes::push_be_u32(&mut file, MDAT);
    bytes::push_be_u64(&mut file, (data.len() as u128 + 16) as u64);
    bytes::push_all(&mut file, data.as_slice());
    boxed(mp4::MOOV, moov.as_slice(), &mut file);
    assert(file@ =~= file_bytes(all, creation_time_1904));
    file
}

} // verus!
