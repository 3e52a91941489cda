//! Minimal EBML/Matroska writer.
//!
//! Emits a self-contained, single-audio-track Matroska chunk
//! (EBML header + Segment{ Info + Tracks + Cluster(s) }) for one time window, whose
//! timeline is zero-anchored at the first frame. Each Cluster is re-anchored at its
//! own first frame so per-block relative timecodes stay within the `i16` range.

use vstd::prelude::*;
use vstd::string::StringSliceAdditionalSpecFns;
use crate::bytes::{be_bytes, push_be, extend_bytes, lemma_in_left, lemma_in_right};
use crate::ids::{
    ID_AUDIO, ID_BITDEPTH, ID_CHANNELS, ID_CLUSTER, ID_CODECDELAY, ID_CODECID, ID_CODECPRIVATE,
    ID_DOCTYPE, ID_DOCTYPE_READ_VERSION, ID_DOCTYPE_VERSION, ID_EBML, ID_EBMLMAX_IDLENGTH,
    ID_EBMLMAX_SIZE_LENGTH, ID_EBMLREAD_VERSION, ID_EBMLVERSION, ID_FLAGLACING, ID_INFO,
    ID_MUXINGAPP, ID_SAMPLINGFREQUENCY, ID_SEEKPREROLL, ID_SEGMENT, ID_SIMPLEBLOCK,
    ID_TIMESTAMP, ID_TIMESTAMPSCALE, ID_TRACKENTRY, ID_TRACKNUMBER, ID_TRACKS, ID_TRACKTYPE,
    ID_TRACKUID, ID_WRITINGAPP,
};
use crate::remux::{TimedFrame, lz8, vint_mask, spec_read_vint, spec_parse_block, spec_lacing, Lacing};
use crate::bytes::{be_value, pow256, lemma_be_bytes_len, lemma_be_value_of_small, lemma_be_value_bound, lemma_pow256_pos, lemma_be_value_first};

verus! {

/// Everything needed to describe the one audio track in the emitted chunk.
pub struct AudioChunkParams<'a> {
    pub timestamp_scale_ns: u64,
    pub codec_id: &'a str,
    pub codec_private: Option<&'a [u8]>,
    /// IEEE-754 double-precision bit pattern of the sampling frequency in Hz.
    pub sample_rate_bits: u64,
    pub channels: u64,
    pub bit_depth: Option<u64>,
    /// `CodecDelay` / `SeekPreroll` in nanoseconds (Opus), copied through verbatim.
    pub codec_delay_ns: Option<u64>,
    pub seek_preroll_ns: Option<u64>,
}

// ----------------------------------------------------------------------------
// Specification of the encodings
// ----------------------------------------------------------------------------

/// Byte count used for a stored element ID: the minimal count for IDs up to four bytes.
pub open spec fn id_width(id: u64) -> nat {
    if id <= 0xFF {
        1
    } else if id <= 0xFFFF {
        2
    } else if id <= 0xFF_FFFF {
        3
    } else {
        4
    }
}

/// The bytes of a stored element ID.
pub open spec fn id_bytes(id: u64) -> Seq<u8> {
    be_bytes(id as nat, id_width(id))
}

/// Smallest width `n >= start` (at most 8) whose vint value range holds `value`
/// (the all-ones value of each width is reserved).
pub open spec fn vint_width_from(value: u64, n: nat) -> nat
    decreases 8 - n,
{
    if n >= 8 {
        8
    } else if (value as int) < (1u64 << (7 * n) as u64) as int - 1 {
        n
    } else {
        vint_width_from(value, n + 1)
    }
}

/// Width of the EBML variable-length integer that encodes `value`.
pub open spec fn vint_width(value: u64) -> nat {
    vint_width_from(value, 1)
}

/// The EBML variable-length integer encoding of `value`: the width marker bit is set
/// just above the `7 * width` value bits.
pub open spec fn vint_bytes(value: u64) -> Seq<u8> {
    let w = vint_width(value);
    be_bytes(((1u64 << (7 * w) as u64) | value) as nat, w)
}

/// Minimal big-endian byte count of an unsigned value (at least one byte).
pub open spec fn uint_width_from(value: u64, n: nat) -> nat
    decreases 8 - n,
{
    if n >= 8 {
        8
    } else if (value as int) < crate::bytes::pow256(n) {
        n
    } else {
        uint_width_from(value, n + 1)
    }
}

pub open spec fn uint_width(value: u64) -> nat {
    uint_width_from(value, 1)
}

/// A complete element: ID, size (vint), payload.
pub open spec fn spec_elem(id: u64, payload: Seq<u8>) -> Seq<u8> {
    id_bytes(id) + vint_bytes(payload.len() as u64) + payload
}

/// An unsigned-integer element in its minimal big-endian form.
pub open spec fn spec_elem_uint(id: u64, value: u64) -> Seq<u8> {
    spec_elem(id, be_bytes(value as nat, uint_width(value)))
}

/// The `matroska` DocType.
pub open spec fn doc_type_matroska() -> Seq<u8> {
    seq![0x6Du8, 0x61, 0x74, 0x72, 0x6F, 0x73, 0x6B, 0x61]
}

/// The `mkv-player` muxing/writing application name.
pub open spec fn app_name() -> Seq<u8> {
    seq![0x6Du8, 0x6B, 0x76, 0x2D, 0x70, 0x6C, 0x61, 0x79, 0x65, 0x72]
}

/// The EBML header of a Matroska v4 document.
pub open spec fn spec_ebml_header() -> Seq<u8> {
    spec_elem(
        ID_EBML,
        spec_elem_uint(ID_EBMLVERSION, 1) + spec_elem_uint(ID_EBMLREAD_VERSION, 1)
            + spec_elem_uint(ID_EBMLMAX_IDLENGTH, 4) + spec_elem_uint(ID_EBMLMAX_SIZE_LENGTH, 8)
            + spec_elem(ID_DOCTYPE, doc_type_matroska()) + spec_elem_uint(ID_DOCTYPE_VERSION, 4)
            + spec_elem_uint(ID_DOCTYPE_READ_VERSION, 2),
    )
}

/// The body of a keyframe, unlaced SimpleBlock: track number, relative timecode,
/// flags, frame.
pub open spec fn simpleblock_body(track: u64, rel: i16, data: Seq<u8>) -> Seq<u8> {
    vint_bytes(track) + be_bytes((rel as u16) as nat, 2) + seq![0x80u8] + data
}

/// A keyframe, unlaced SimpleBlock.
pub open spec fn spec_simpleblock(track: u64, rel: i16, data: Seq<u8>) -> Seq<u8> {
    spec_elem(ID_SIMPLEBLOCK, simpleblock_body(track, rel, data))
}

pub open spec fn fits_i16(x: int) -> bool {
    i16::MIN <= x <= i16::MAX
}

/// Time of a frame on the zero-anchored timeline.
pub open spec fn anchored(f: TimedFrame, anchor: int) -> int {
    f.pts_ticks - anchor
}

/// How many frames from the front of `frames` sit within `i16` range of `base`.
pub open spec fn run_len(frames: Seq<TimedFrame>, anchor: int, base: int) -> nat
    decreases frames.len(),
{
    if frames.len() == 0 {
        0
    } else if fits_i16(anchored(frames[0], anchor) - base) {
        1 + run_len(frames.drop_first(), anchor, base)
    } else {
        0
    }
}

/// SimpleBlocks (track 1) for all `frames`, timed relative to `base`.
pub open spec fn cluster_blocks(frames: Seq<TimedFrame>, anchor: int, base: int) -> Seq<u8>
    decreases frames.len(),
{
    if frames.len() == 0 {
        seq![]
    } else {
        cluster_blocks(frames.drop_last(), anchor, base) + spec_simpleblock(
            1,
            (anchored(frames.last(), anchor) - base) as i16,
            frames.last().data@,
        )
    }
}

/// Clusters covering `frames`: each starts at its first frame and takes every
/// following frame whose relative timecode still fits an `i16`.
pub open spec fn spec_clusters(frames: Seq<TimedFrame>, anchor: int) -> Seq<u8>
    decreases frames.len(),
{
    if frames.len() == 0 {
        seq![]
    } else {
        let base = anchored(frames[0], anchor);
        let r = run_len(frames, anchor, base);
        let n = if r <= frames.len() {
            r
        } else {
            frames.len()
        };
        if n == 0 {
            seq![]
        } else {
            let ts = if base >= 0 {
                base
            } else {
                0
            };
            spec_elem(
                ID_CLUSTER,
                spec_elem_uint(ID_TIMESTAMP, ts as u64) + cluster_blocks(frames.take(n as int), anchor, base),
            ) + spec_clusters(frames.skip(n as int), anchor)
        }
    }
}

/// The arithmetic the cluster writer performs stays within `i64`.
pub open spec fn timeline_fits_i64(frames: Seq<TimedFrame>, anchor: int) -> bool {
    &&& forall|k: int| 0 <= k < frames.len() ==> i64::MIN <= #[trigger] anchored(frames[k], anchor) <= i64::MAX
    &&& forall|j: int, k: int|
        0 <= j < frames.len() && 0 <= k < frames.len() ==> i64::MIN <= #[trigger] anchored(frames[k], anchor)
            - #[trigger] anchored(frames[j], anchor) <= i64::MAX
}

pub open spec fn opt_uint_elem(id: u64, v: Option<u64>) -> Seq<u8> {
    match v {
        Some(x) => spec_elem_uint(id, x),
        None => seq![],
    }
}

pub open spec fn max1(x: u64) -> u64 {
    if x >= 1 {
        x
    } else {
        1
    }
}

/// The one audio TrackEntry payload.
pub open spec fn spec_track_entry(p: AudioChunkParams) -> Seq<u8> {
    let audio = spec_elem(ID_SAMPLINGFREQUENCY, be_bytes(p.sample_rate_bits as nat, 8))
        + spec_elem_uint(ID_CHANNELS, max1(p.channels)) + opt_uint_elem(ID_BITDEPTH, p.bit_depth);
    spec_elem_uint(ID_TRACKNUMBER, 1) + spec_elem_uint(ID_TRACKUID, 1) + spec_elem_uint(ID_TRACKTYPE, 2)
        + spec_elem_uint(ID_FLAGLACING, 0) + spec_elem(ID_CODECID, p.codec_id.spec_bytes()) + (
    match p.codec_private {
        Some(cp) => spec_elem(ID_CODECPRIVATE, cp@),
        None => seq![],
    }) + opt_uint_elem(ID_CODECDELAY, p.codec_delay_ns) + opt_uint_elem(
        ID_SEEKPREROLL,
        p.seek_preroll_ns,
    ) + spec_elem(ID_AUDIO, audio)
}

/// The complete single-audio-track Matroska chunk.
pub open spec fn spec_audio_chunk(p: AudioChunkParams, frames: Seq<TimedFrame>) -> Seq<u8> {
    let info = spec_elem_uint(ID_TIMESTAMPSCALE, max1(p.timestamp_scale_ns)) + spec_elem(
        ID_MUXINGAPP,
        app_name(),
    ) + spec_elem(ID_WRITINGAPP, app_name());
    let anchor: int = if frames.len() > 0 {
        frames[0].pts_ticks as int
    } else {
        0
    };
    let seg = spec_elem(ID_INFO, info) + spec_elem(
        ID_TRACKS,
        spec_elem(ID_TRACKENTRY, spec_track_entry(p)),
    ) + spec_clusters(frames, anchor);
    spec_ebml_header() + spec_elem(ID_SEGMENT, seg)
}

/// Where the `Channels` element stands in the TrackEntry payload.
proof fn lemma_entry_channels(p: AudioChunkParams) -> (i: int)
    ensures
        ({
            let ch = spec_elem_uint(ID_CHANNELS, if p.channels >= 1 { p.channels } else { 1 });
            let entry = spec_track_entry(p);
            0 <= i && i + ch.len() <= entry.len() && entry.subrange(i, i + ch.len()) == ch
        }),
{
    let ch = spec_elem_uint(ID_CHANNELS, if p.channels >= 1 { p.channels } else { 1 });
    let n = ch.len() as int;
    let sf = spec_elem(ID_SAMPLINGFREQUENCY, be_bytes(p.sample_rate_bits as nat, 8));
    let bd = opt_uint_elem(ID_BITDEPTH, p.bit_depth);
    let audio = sf + ch + bd;
    let prefix = spec_elem_uint(ID_TRACKNUMBER, 1) + spec_elem_uint(ID_TRACKUID, 1) + spec_elem_uint(
        ID_TRACKTYPE,
        2,
    ) + spec_elem_uint(ID_FLAGLACING, 0) + spec_elem(ID_CODECID, p.codec_id.spec_bytes()) + (
    match p.codec_private {
        Some(cp) => spec_elem(ID_CODECPRIVATE, cp@),
        None => seq![],
    }) + opt_uint_elem(ID_CODECDELAY, p.codec_delay_ns) + opt_uint_elem(ID_SEEKPREROLL, p.seek_preroll_ns);
    let head = id_bytes(ID_AUDIO) + vint_bytes(audio.len() as u64);
    let ae = spec_elem(ID_AUDIO, audio);
    assert(ae == head + audio);
    assert(spec_track_entry(p) == prefix + ae);
    assert(ch.subrange(0, n) =~= ch);
    lemma_in_left(sf, ch, 0, n);
    lemma_in_right(sf + ch, bd, sf.len() as int, n);
    lemma_in_left(head, audio, sf.len() as int, n);
    lemma_in_left(prefix, ae, (head.len() + sf.len()) as int, n);
    (prefix.len() + head.len() + sf.len()) as int
}

/// The audio chunk tells the transcoder the caller's channel count: its TrackEntry,
/// and so the chunk as a whole, holds the `Channels` element with that count (one
/// when the caller gives zero), at the offsets returned.
#[verifier::rlimit(60)]
pub proof fn lemma_audio_chunk_channels(p: AudioChunkParams, frames: Seq<TimedFrame>) -> (at: (
    int,
    int,
))
    ensures
        ({
            let ch = spec_elem_uint(ID_CHANNELS, if p.channels >= 1 { p.channels } else { 1 });
            let entry = spec_track_entry(p);
            let chunk = spec_audio_chunk(p, frames);
            &&& 0 <= at.0 && at.0 + ch.len() <= entry.len() && entry.subrange(at.0, at.0 + ch.len()) == ch
            &&& 0 <= at.1 && at.1 + ch.len() <= chunk.len() && chunk.subrange(at.1, at.1 + ch.len()) == ch
        }),
{
    let ch = spec_elem_uint(ID_CHANNELS, if p.channels >= 1 { p.channels } else { 1 });
    let n = ch.len() as int;
    let entry = spec_track_entry(p);
    let k = lemma_entry_channels(p);
    let info = spec_elem_uint(ID_TIMESTAMPSCALE, max1(p.timestamp_scale_ns)) + spec_elem(
        ID_MUXINGAPP,
        app_name(),
    ) + spec_elem(ID_WRITINGAPP, app_name());
    let anchor: int = if frames.len() > 0 {
        frames[0].pts_ticks as int
    } else {
        0
    };
    let te = spec_elem(ID_TRACKENTRY, entry);
    let te_head = id_bytes(ID_TRACKENTRY) + vint_bytes(entry.len() as u64);
    assert(te == te_head + entry);
    let tracks = spec_elem(ID_TRACKS, te);
    let tr_head = id_bytes(ID_TRACKS) + vint_bytes(te.len() as u64);
    assert(tracks == tr_head + te);
    let info_el = spec_elem(ID_INFO, info);
    let clusters = spec_clusters(frames, anchor);
    let seg = info_el + tracks + clusters;
    let seg_el = spec_elem(ID_SEGMENT, seg);
    let seg_head = id_bytes(ID_SEGMENT) + vint_bytes(seg.len() as u64);
    assert(seg_el == seg_head + seg);
    let chunk = spec_audio_chunk(p, frames);
    assert(chunk == spec_ebml_header() + seg_el);
    lemma_in_left(te_head, entry, k, n);
    let k1 = te_head.len() + k;
    lemma_in_left(tr_head, te, k1, n);
    let k2 = tr_head.len() + k1;
    lemma_in_left(info_el, tracks, k2, n);
    let k3 = info_el.len() + k2;
    lemma_in_right(info_el + tracks, clusters, k3, n);
    lemma_in_left(seg_head, seg, k3, n);
    let k4 = seg_head.len() + k3;
    lemma_in_left(spec_ebml_header(), seg_el, k4, n);
    let k5 = spec_ebml_header().len() + k4;
    assert(k5 + n <= chunk.len());
    assert(chunk.subrange(k5, k5 + n) == ch);
    assert(entry.subrange(k, k + n) == ch);
    assert(0 <= k5 && k5 + ch.len() <= chunk.len() && chunk.subrange(k5, k5 + ch.len()) == ch);
    assert(0 <= k && k + ch.len() <= entry.len() && entry.subrange(k, k + ch.len()) == ch);
    (k, k5)
}

// ----------------------------------------------------------------------------
// Writers
// ----------------------------------------------------------------------------

/// Append an element ID. The `ID_*` constants are the *stored* form (their
/// length-descriptor bits are already part of the value), so the value is emitted as
/// its minimal big-endian bytes.
pub fn write_id(out: &mut Vec<u8>, id: u64)
    ensures
        final(out)@ == old(out)@ + id_bytes(id),
{
    let n: usize = if id <= 0xFF {
        1
    } else if id <= 0xFFFF {
        2
    } else if id <= 0xFF_FFFF {
        3
    } else {
        4
    };
    push_be(out, id, n);
}

/// Append an EBML variable-length integer (marker bit included). Picks the smallest
/// width whose value range can hold `value` (the all-ones encoding is reserved).
pub fn write_vint(out: &mut Vec<u8>, value: u64)
    ensures
        final(out)@ == old(out)@ + vint_bytes(value),
{
    let mut n: usize = 1;
    assert((1u64 << (7 * n) as u64) >= 1) by (bit_vector)
        requires
            n == 1,
    ;
    while n < 8 && value >= (1u64 << (7 * n) as u64) - 1
        invariant
            1 <= n <= 8,
            n < 8 ==> (1u64 << (7 * n) as u64) >= 1,
            vint_width_from(value, n as nat) == vint_width(value),
        decreases 8 - n,
    {
        n += 1;
        if n < 8 {
            assert((1u64 << (7 * n) as u64) >= 1) by (bit_vector)
                requires
                    n < 8,
            ;
        }
    }
    let v = (1u64 << (7 * n) as u64) | value;
    push_be(out, v, n);
}

/// Write a complete element: id, size (vint), then payload.
pub fn elem(out: &mut Vec<u8>, id: u64, payload: &[u8])
    ensures
        final(out)@ == old(out)@ + spec_elem(id, payload@),
{
    write_id(out, id);
    write_vint(out, payload.len() as u64);
    extend_bytes(out, payload);
    proof {
        assert(final(out)@ =~= old(out)@ + spec_elem(id, payload@));
    }
}

/// Write an unsigned-integer element using the minimal big-endian byte count
/// (at least one byte, so zero is encoded as a single `0x00`).
pub fn elem_uint(out: &mut Vec<u8>, id: u64, value: u64)
    ensures
        final(out)@ == old(out)@ + spec_elem_uint(id, value),
{
    let mut n: usize = 1;
    let mut limit: u64 = 256;
    proof {
        reveal_with_fuel(crate::bytes::pow256, 2);
    }
    while n < 8 && value >= limit
        invariant
            1 <= n <= 8,
            n < 8 ==> limit as nat == crate::bytes::pow256(n as nat),
            uint_width_from(value, n as nat) == uint_width(value),
        decreases 8 - n,
    {
        proof {
            reveal_with_fuel(crate::bytes::pow256, 8);
        }
        if n + 1 < 8 {
            limit = limit * 256;
        }
        n += 1;
    }
    let mut payload: Vec<u8> = Vec::new();
    push_be(&mut payload, value, n);
    elem(out, id, payload.as_slice());
}

pub fn elem_string(out: &mut Vec<u8>, id: u64, s: &str)
    ensures
        final(out)@ == old(out)@ + spec_elem(id, s.spec_bytes()),
{
    elem(out, id, s.as_bytes());
}

/// Write an 8-byte (double-precision) float element, given its bit pattern, as
/// Matroska uses for `SamplingFrequency`.
pub fn elem_f64_bits(out: &mut Vec<u8>, id: u64, bits: u64)
    ensures
        final(out)@ == old(out)@ + spec_elem(id, be_bytes(bits as nat, 8)),
{
    let mut payload: Vec<u8> = Vec::new();
    push_be(&mut payload, bits, 8);
    elem(out, id, payload.as_slice());
}

pub fn write_ebml_header(out: &mut Vec<u8>)
    ensures
        final(out)@ == old(out)@ + spec_ebml_header(),
{
    let mut h: Vec<u8> = Vec::new();
    elem_uint(&mut h, ID_EBMLVERSION, 1);
    elem_uint(&mut h, ID_EBMLREAD_VERSION, 1);
    elem_uint(&mut h, ID_EBMLMAX_IDLENGTH, 4);
    elem_uint(&mut h, ID_EBMLMAX_SIZE_LENGTH, 8);
    let doc_type: [u8; 8] = [0x6D, 0x61, 0x74, 0x72, 0x6F, 0x73, 0x6B, 0x61];
    proof {
        assert(doc_type@ =~= doc_type_matroska());
    }
    elem(&mut h, ID_DOCTYPE, &doc_type);
    elem_uint(&mut h, ID_DOCTYPE_VERSION, 4);
    elem_uint(&mut h, ID_DOCTYPE_READ_VERSION, 2);
    elem(out, ID_EBML, h.as_slice());
    proof {
        assert(h@ =~= spec_elem_uint(ID_EBMLVERSION, 1) + spec_elem_uint(ID_EBMLREAD_VERSION, 1)
            + spec_elem_uint(ID_EBMLMAX_IDLENGTH, 4) + spec_elem_uint(ID_EBMLMAX_SIZE_LENGTH, 8)
            + spec_elem(ID_DOCTYPE, doc_type_matroska()) + spec_elem_uint(ID_DOCTYPE_VERSION, 4)
            + spec_elem_uint(ID_DOCTYPE_READ_VERSION, 2));
    }
}

/// One SimpleBlock for a single (already-unlaced) frame: track number (vint),
/// signed relative timecode, flags (keyframe, no lacing), then the frame bytes.
pub fn write_simpleblock(cluster: &mut Vec<u8>, track: u64, rel: i16, data: &[u8])
    ensures
        final(cluster)@ == old(cluster)@ + spec_simpleblock(track, rel, data@),
{
    let mut payload: Vec<u8> = Vec::new();
    write_vint(&mut payload, track);
    push_be(&mut payload, (rel as u16) as u64, 2);
    payload.push(0x80);  // keyframe, no lacing — audio frames are independent
    extend_bytes(&mut payload, data);
    proof {
        assert(payload@ =~= vint_bytes(track) + be_bytes((rel as u16) as nat, 2) + seq![0x80u8]
            + data@);
    }
    elem(cluster, ID_SIMPLEBLOCK, payload.as_slice());
}

/// `run_len` is `m` when the first `m` frames fit and the next one (if any) does not.
proof fn lemma_run_len(frames: Seq<TimedFrame>, anchor: int, base: int, m: nat)
    requires
        m <= frames.len(),
        forall|k: int| 0 <= k < m ==> fits_i16(#[trigger] anchored(frames[k], anchor) - base),
        m < frames.len() ==> !fits_i16(anchored(frames[m as int], anchor) - base),
    ensures
        run_len(frames, anchor, base) == m,
    decreases m,
{
    if m > 0 {
        let rest = frames.drop_first();
        assert forall|k: int| 0 <= k < m - 1 implies fits_i16(
            #[trigger] anchored(rest[k], anchor) - base,
        ) by {
            assert(rest[k] == frames[k + 1]);
        }
        if m - 1 < rest.len() {
            assert(rest[m - 1] == frames[m as int]);
        }
        lemma_run_len(rest, anchor, base, (m - 1) as nat);
    }
}

/// Emit Cluster elements covering all `frames`, with the whole timeline shifted so
/// the first frame sits at tick 0 (`anchor` = first frame's absolute PTS). A new
/// Cluster is started whenever the next frame would fall outside the `i16`
/// relative-timecode range of the current Cluster, so long windows never overflow.
pub fn write_clusters(seg: &mut Vec<u8>, frames: &[TimedFrame], anchor: i64)
    requires
        timeline_fits_i64(frames@, anchor as int),
    ensures
        final(seg)@ == old(seg)@ + spec_clusters(frames@, anchor as int),
{
    let ghost start = seg@;
    let ghost a = anchor as int;
    let mut i: usize = 0;
    proof {
        assert(frames@.skip(0) =~= frames@);
    }
    while i < frames.len()
        invariant
            i <= frames.len(),
            timeline_fits_i64(frames@, a),
            a == anchor as int,
            start + spec_clusters(frames@, a) == seg@ + spec_clusters(frames@.skip(i as int), a),
        decreases frames.len() - i,
    {
        let ghost i0 = i as int;
        let ghost rest = frames@.skip(i0);
        assert(rest[0] == frames@[i0]);
        assert(i64::MIN <= anchored(frames@[i0], a) <= i64::MAX);
        let base = frames[i].pts_ticks - anchor;
        let mut cluster: Vec<u8> = Vec::new();
        let ts: u64 = if base >= 0 { base as u64 } else { 0 };
        elem_uint(&mut cluster, ID_TIMESTAMP, ts);
        let ghost ts_elem = cluster@;
        proof {
            assert(frames@.subrange(i0, i0) =~= Seq::<TimedFrame>::empty());
        }
        while i < frames.len()
            invariant
                0 <= i0 < frames.len(),
                i0 <= i <= frames.len(),
                timeline_fits_i64(frames@, a),
                a == anchor as int,
                base as int == anchored(frames@[i0], a),
                cluster@ == ts_elem + cluster_blocks(frames@.subrange(i0, i as int), a, base as int),
                forall|k: int| i0 <= k < i ==> fits_i16(#[trigger] anchored(frames@[k], a) - base),
            ensures
                i0 <= i <= frames.len(),
                cluster@ == ts_elem + cluster_blocks(frames@.subrange(i0, i as int), a, base as int),
                forall|k: int| i0 <= k < i ==> fits_i16(#[trigger] anchored(frames@[k], a) - base),
                i < frames.len() ==> !fits_i16(anchored(frames@[i as int], a) - base),
            decreases frames.len() - i,
        {
            assert(i64::MIN <= anchored(frames@[i as int], a) - anchored(frames@[i0], a) <= i64::MAX);
            let rel = (frames[i].pts_ticks - anchor) - base;
            if rel < i16::MIN as i64 || rel > i16::MAX as i64 {
                break;
            }
            write_simpleblock(&mut cluster, 1, rel as i16, frames[i].data.as_slice());
            proof {
                assert(i < frames@.len());
                let s2 = frames@.subrange(i0, i + 1);
                assert(s2.len() == i + 1 - i0);
                assert(s2.drop_last() =~= frames@.subrange(i0, i as int));
                assert(s2.last() == frames@[i as int]);
            }
            i += 1;
        }
        proof {
            let n = (i - i0) as nat;
            assert forall|k: int| 0 <= k < n implies fits_i16(
                #[trigger] anchored(rest[k], a) - base,
            ) by {
                assert(rest[k] == frames@[i0 + k]);
            }
            if n < rest.len() {
                assert(rest[n as int] == frames@[i as int]);
            }
            lemma_run_len(rest, a, base as int, n);
            assert(rest.take(n as int) =~= frames@.subrange(i0, i as int));
            assert(rest.skip(n as int) =~= frames@.skip(i as int));
            assert(n >= 1);
        }
        elem(seg, ID_CLUSTER, cluster.as_slice());
        proof {
            let n = (i - i0) as int;
            assert(spec_clusters(rest, a) == spec_elem(
                ID_CLUSTER,
                spec_elem_uint(ID_TIMESTAMP, ts) + cluster_blocks(rest.take(n), a, base as int),
            ) + spec_clusters(rest.skip(n), a));
            assert(start + spec_clusters(frames@, a) =~= seg@ + spec_clusters(frames@.skip(i as int), a));
        }
    }
    proof {
        assert(spec_clusters(frames@.skip(i as int), a) =~= Seq::<u8>::empty());
        assert(seg@ =~= start + spec_clusters(frames@, a));
    }
}

/// Build a self-contained Matroska chunk with one audio track and the given frames.
pub fn build_audio_chunk(p: &AudioChunkParams, frames: &[TimedFrame]) -> (out: Vec<u8>)
    requires
        timeline_fits_i64(frames@, if frames@.len() > 0 { frames@[0].pts_ticks as int } else { 0 }),
    ensures
        out@ == spec_audio_chunk(*p, frames@),
{
    let mut out: Vec<u8> = Vec::new();
    write_ebml_header(&mut out);

    let mut seg: Vec<u8> = Vec::new();

    // Info
    let mut info: Vec<u8> = Vec::new();
    let scale = if p.timestamp_scale_ns >= 1 { p.timestamp_scale_ns } else { 1 };
    elem_uint(&mut info, ID_TIMESTAMPSCALE, scale);
    let app: [u8; 10] = [0x6D, 0x6B, 0x76, 0x2D, 0x70, 0x6C, 0x61, 0x79, 0x65, 0x72];
    proof {
        assert(app@ =~= app_name());
    }
    elem(&mut info, ID_MUXINGAPP, &app);
    elem(&mut info, ID_WRITINGAPP, &app);
    elem(&mut seg, ID_INFO, info.as_slice());

    // Tracks → one audio TrackEntry
    let mut track: Vec<u8> = Vec::new();
    elem_uint(&mut track, ID_TRACKNUMBER, 1);
    elem_uint(&mut track, ID_TRACKUID, 1);
    elem_uint(&mut track, ID_TRACKTYPE, 2);  // 2 = audio
    elem_uint(&mut track, ID_FLAGLACING, 0);
    elem_string(&mut track, ID_CODECID, p.codec_id);
    if let Some(cp) = p.codec_private {
        elem(&mut track, ID_CODECPRIVATE, cp);
    }
    if let Some(d) = p.codec_delay_ns {
        elem_uint(&mut track, ID_CODECDELAY, d);
    }
    if let Some(s) = p.seek_preroll_ns {
        elem_uint(&mut track, ID_SEEKPREROLL, s);
    }
    let mut audio: Vec<u8> = Vec::new();
    elem_f64_bits(&mut audio, ID_SAMPLINGFREQUENCY, p.sample_rate_bits);
    let channels = if p.channels >= 1 { p.channels } else { 1 };
    elem_uint(&mut audio, ID_CHANNELS, channels);
    if let Some(b) = p.bit_depth {
        elem_uint(&mut audio, ID_BITDEPTH, b);
    }
    elem(&mut track, ID_AUDIO, audio.as_slice());
    proof {
        assert(track@ =~= spec_track_entry(*p));
    }

    let mut tracks: Vec<u8> = Vec::new();
    elem(&mut tracks, ID_TRACKENTRY, track.as_slice());
    elem(&mut seg, ID_TRACKS, tracks.as_slice());

    // Clusters (zero-anchored at the first frame).
    let anchor = if frames.len() > 0 { frames[0].pts_ticks } else { 0 };
    write_clusters(&mut seg, frames, anchor);

    elem(&mut out, ID_SEGMENT, seg.as_slice());
    proof {
        assert(out@ =~= spec_audio_chunk(*p, frames@));
    }
    out
}

// ----------------------------------------------------------------------------
// Reading back what was written
// ----------------------------------------------------------------------------

/// Decoding the bytes of `unit + v` (`unit` = `c · 256^(w-1)`, `v < unit`) written in
/// `w` bytes: the first byte lies in `c..2c`, and with `c` taken off it the bytes
/// denote `v`.
proof fn lemma_vint_decode(v: nat, w: nat, unit: nat, c: nat, s: Seq<u8>)
    requires
        1 <= w <= 8,
        1 <= c <= 128,
        unit == c * pow256((w - 1) as nat),
        v < unit,
        s == be_bytes(unit + v, w),
    ensures
        s.len() == w,
        c <= s[0] < 2 * c,
        be_value(seq![(s[0] - c) as u8] + s.subrange(1, w as int)) == v,
{
    let p = pow256((w - 1) as nat);
    let x = unit + v;
    lemma_be_bytes_len(x, w);
    lemma_pow256_pos((w - 1) as nat);
    assert(pow256(w) == 256 * p);
    assert(x < pow256(w)) by (nonlinear_arith)
        requires
            x == unit + v,
            v < unit,
            unit == c * p,
            c <= 128,
            pow256(w) == 256 * p,
    ;
    lemma_be_value_of_small(x, w);
    lemma_be_value_first(s);
    let r = be_value(s.drop_first());
    lemma_be_value_bound(s.drop_first());
    let s0 = s[0] as nat;
    assert(x == s0 * p + r);
    assert(c <= s0 < 2 * c) by (nonlinear_arith)
        requires
            x == s0 * p + r,
            r < p,
            c * p <= x,
            x < 2 * (c * p),
            p >= 1,
    ;
    let t = seq![(s0 - c) as u8] + s.subrange(1, w as int);
    assert(t.drop_first() =~= s.drop_first());
    lemma_be_value_first(t);
    assert(t[0] == s0 - c);
    assert((s0 - c) * p == s0 * p - c * p) by (nonlinear_arith);
}

/// The width the writer picks holds the value: `v < 2^(7w) - 1`.
proof fn lemma_vint_width_fits(v: u64, n: nat)
    requires
        1 <= n <= 8,
        v < 0xFF_FFFF_FFFF_FFFF,
    ensures
        n <= vint_width_from(v, n) <= 8,
        (v as int) < (1u64 << (7 * vint_width_from(v, n)) as u64) as int - 1,
    decreases 8 - n,
{
    if n >= 8 {
        assert((1u64 << 56u64) == 0x100_0000_0000_0000u64) by (bit_vector);
    } else if !((v as int) < (1u64 << (7 * n) as u64) as int - 1) {
        lemma_vint_width_fits(v, n + 1);
    }
}

/// A variable-size integer the writer emits reads back, followed by anything, as the
/// same value and width.
pub proof fn lemma_vint_read_back(v: u64, rest: Seq<u8>)
    requires
        v < 0xFF_FFFF_FFFF_FFFF,
    ensures
        spec_read_vint(vint_bytes(v) + rest, 0) == Some((v, vint_width(v) as usize)),
{
    let w = vint_width(v);
    lemma_vint_width_fits(v, 1);
    reveal_with_fuel(pow256, 8);
    let shifted = 1u64 << (7 * w) as u64;
    let x = shifted | v;
    let (unit, c): (nat, nat) = if w == 1 {
        assert((1u64 << 7u64) == 0x80u64) by (bit_vector);
        assert((0x80u64 | v) == 0x80u64 + v) by (bit_vector)
            requires
                v < 0x80u64,
        ;
        (0x80, 0x80)
    } else if w == 2 {
        assert((1u64 << 14u64) == 0x4000u64) by (bit_vector);
        assert((0x4000u64 | v) == 0x4000u64 + v) by (bit_vector)
            requires
                v < 0x4000u64,
        ;
        (0x4000, 0x40)
    } else if w == 3 {
        assert((1u64 << 21u64) == 0x20_0000u64) by (bit_vector);
        assert((0x20_0000u64 | v) == 0x20_0000u64 + v) by (bit_vector)
            requires
                v < 0x20_0000u64,
        ;
        (0x20_0000, 0x20)
    } else if w == 4 {
        assert((1u64 << 28u64) == 0x1000_0000u64) by (bit_vector);
        assert((0x1000_0000u64 | v) == 0x1000_0000u64 + v) by (bit_vector)
            requires
                v < 0x1000_0000u64,
        ;
        (0x1000_0000, 0x10)
    } else if w == 5 {
        assert((1u64 << 35u64) == 0x8_0000_0000u64) by (bit_vector);
        assert((0x8_0000_0000u64 | v) == 0x8_0000_0000u64 + v) by (bit_vector)
            requires
                v < 0x8_0000_0000u64,
        ;
        (0x8_0000_0000, 0x8)
    } else if w == 6 {
        assert((1u64 << 42u64) == 0x400_0000_0000u64) by (bit_vector);
        assert((0x400_0000_0000u64 | v) == 0x400_0000_0000u64 + v) by (bit_vector)
            requires
                v < 0x400_0000_0000u64,
        ;
        (0x400_0000_0000, 0x4)
    } else if w == 7 {
        assert((1u64 << 49u64) == 0x2_0000_0000_0000u64) by (bit_vector);
        assert((0x2_0000_0000_0000u64 | v) == 0x2_0000_0000_0000u64 + v) by (bit_vector)
            requires
                v < 0x2_0000_0000_0000u64,
        ;
        (0x2_0000_0000_0000, 0x2)
    } else {
        assert((1u64 << 56u64) == 0x100_0000_0000_0000u64) by (bit_vector);
        assert((0x100_0000_0000_0000u64 | v) == 0x100_0000_0000_0000u64 + v) by (bit_vector)
            requires
                v < 0x100_0000_0000_0000u64,
        ;
        (0x100_0000_0000_0000, 0x1)
    };
    assert(x as nat == unit + v);
    let s = vint_bytes(v);
    assert(s == be_bytes((unit + v) as nat, w));
    lemma_vint_decode(v as nat, w, unit, c, s);
    let buf = s + rest;
    let first = buf[0];
    assert(first == s[0]);
    assert(buf.subrange(1, w as int) =~= s.subrange(1, w as int));
    assert(lz8(first) + 1 == w && first & vint_mask(w) == first - c) by {
        if w == 1 {
            assert(first & 0x7fu8 == first - 0x80u8) by (bit_vector)
                requires
                    0x80u8 <= first,
            ;
        } else if w == 2 {
            assert(first & 0x3fu8 == first - 0x40u8) by (bit_vector)
                requires
                    0x40u8 <= first < 0x80u8,
            ;
        } else if w == 3 {
            assert(first & 0x1fu8 == first - 0x20u8) by (bit_vector)
                requires
                    0x20u8 <= first < 0x40u8,
            ;
        } else if w == 4 {
            assert(first & 0x0fu8 == first - 0x10u8) by (bit_vector)
                requires
                    0x10u8 <= first < 0x20u8,
            ;
        } else if w == 5 {
            assert(first & 0x07u8 == first - 0x08u8) by (bit_vector)
                requires
                    0x08u8 <= first < 0x10u8,
            ;
        } else if w == 6 {
            assert(first & 0x03u8 == first - 0x04u8) by (bit_vector)
                requires
                    0x04u8 <= first < 0x08u8,
            ;
        } else if w == 7 {
            assert(first & 0x01u8 == first - 0x02u8) by (bit_vector)
                requires
                    0x02u8 <= first < 0x04u8,
            ;
        } else {
            assert(first & 0u8 == first - 0x01u8) by (bit_vector)
                requires
                    first == 0x01u8,
            ;
        }
    }
}

/// A SimpleBlock the writer emits parses back to its track number, relative timecode,
/// keyframe flag and one frame holding the data.
pub proof fn lemma_simpleblock_read_back(track: u64, rel: i16, data: Seq<u8>)
    requires
        track < 0xFF_FFFF_FFFF_FFFF,
    ensures
        spec_parse_block(simpleblock_body(track, rel, data), true, false) == Some(
            (track, rel, true, seq![data]),
        ),
{
    let tail = be_bytes((rel as u16) as nat, 2) + seq![0x80u8] + data;
    let body = simpleblock_body(track, rel, data);
    assert(body =~= vint_bytes(track) + tail);
    lemma_vint_read_back(track, tail);
    let w = vint_width(track);
    lemma_vint_width_fits(track, 1);
    let v = vint_bytes(track);
    lemma_be_bytes_len((1u64 << (7 * w) as u64 | track) as nat, w);
    assert(v.len() == w);
    let x = (rel as u16) as nat;
    let tb = be_bytes(x, 2);
    lemma_be_bytes_len(x, 2);
    assert(body[w as int] == tb[0]);
    assert(body[w + 1int] == tb[1]);
    assert(body[w + 2int] == 0x80u8);
    assert(tb[0] as int * 256 + tb[1] as int == x) by {
        reveal_with_fuel(be_bytes, 3);
        assert(tb[1] == (x % 256) as u8);
        assert(tb[0] == ((x / 256) % 256) as u8);
    }
    let r = rel as u16;
    assert(((r as int) as u16) as i16 == rel) by (bit_vector)
        requires
            r == rel as u16,
    ;
    assert(spec_lacing(0x80u8) == Lacing::NoLacing);
    assert(body.subrange(w + 3int, body.len() as int) =~= data);
}

/// Every frame a cluster takes has a timecode relative to the cluster's base that fits
/// an `i16`, and a cluster takes at least its first frame.
pub proof fn lemma_cluster_run_fits(frames: Seq<TimedFrame>, anchor: int, base: int, k: int)
    requires
        0 <= k < run_len(frames, anchor, base),
    ensures
        k < frames.len(),
        fits_i16(anchored(frames[k], anchor) - base),
    decreases frames.len(),
{
    if k > 0 {
        lemma_cluster_run_fits(frames.drop_first(), anchor, base, k - 1);
        assert(frames.drop_first()[k - 1] == frames[k]);
    }
}

/// A cluster based at its first frame takes that frame.
pub proof fn lemma_cluster_takes_first(frames: Seq<TimedFrame>, anchor: int)
    requires
        frames.len() > 0,
    ensures
        run_len(frames, anchor, anchored(frames[0], anchor)) >= 1,
{
}

} // verus!
