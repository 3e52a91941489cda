//! Cluster walking and the small decisions of the demuxer: collecting a track's
//! frames or subtitle cues from an in-memory cluster, audio frame sizes, and the
//! JSON text handed to the page.

use vstd::prelude::*;
use crate::ebml::{EbmlIterator, EbmlPayload, EbmlSource, Ebml, PayloadView, spec_next, next_ok, from_utf8_lossy, utf8_lossy};
use crate::ids::{
    ID_BLOCK, ID_BLOCKDURATION, ID_BLOCKGROUP, ID_CLUSTER, ID_CUES, ID_DURATION, ID_INFO,
    ID_REFERENCEBLOCK, ID_SEEKHEAD, ID_SIMPLEBLOCK, ID_TIMESTAMP, ID_TIMESTAMPSCALE, ID_TRACKS,
};
use crate::index::SeekEntry;
use crate::index::{CuePoint, CueTrackPosition, cue_cluster_for_time, spec_cue_for_time, cue_views as cue_point_views};
use crate::track::{TrackData, TrackType, is_text};
use crate::fmp4::{
    CodecConfig, CodecView, MediaKind, Sample, TrackConfig, TrackConfigView, build_init_segment,
    build_media_segment, moof_fits, spec_init_segment, spec_media_segment,
};
use crate::remux::{
    audio_samples, video_samples, is_audio_sample, is_video_sample, sorted_pts, max_int,
    pts_spread_fits, audio_base_product,
};
use crate::text::push_digits;
use crate::remux::{BlockFrames, TimedFrame, SubtitleCue, parse_block, spec_parse_block, parse_block_defined};
use crate::bytes::extend_bytes;
use crate::text::{push_str, push_hex_digit_lower, hex_char_lower};

verus! {

/// A frame as a value: `(pts_ticks, data, is_keyframe)`.
pub open spec fn frame_view(f: TimedFrame) -> (i64, Seq<u8>, bool) {
    (f.pts_ticks, f.data@, f.is_keyframe)
}

pub open spec fn frame_views(fs: Seq<TimedFrame>) -> Seq<(i64, Seq<u8>, bool)> {
    fs.map_values(|f: TimedFrame| frame_view(f))
}

/// Every frame of a block at the block's presentation time.
pub open spec fn block_frames(frames: Seq<Seq<u8>>, pts: i64, key: bool) -> Seq<(i64, Seq<u8>, bool)> {
    frames.map_values(|d: Seq<u8>| (pts, d, key))
}

/// Append all of a block's frames to `out` at the block's absolute PTS.
pub fn push_block(out: &mut Vec<TimedFrame>, block: &BlockFrames, cluster_time: i64)
    requires
        i64::MIN <= cluster_time + block.rel_timecode <= i64::MAX,
    ensures
        frame_views(final(out)@) == frame_views(old(out)@) + block_frames(
            block.frames.deep_view(),
            (cluster_time + block.rel_timecode) as i64,
            block.is_keyframe,
        ),
{
    let pts = cluster_time + block.rel_timecode as i64;
    let ghost start = frame_views(out@);
    let ghost all = block_frames(block.frames.deep_view(), pts, block.is_keyframe);
    let mut i: usize = 0;
    while i < block.frames.len()
        invariant
            i <= block.frames@.len(),
            all == block_frames(block.frames.deep_view(), pts, block.is_keyframe),
            frame_views(out@) == start + all.take(i as int),
        decreases block.frames@.len() - i,
    {
        let mut data: Vec<u8> = Vec::new();
        extend_bytes(&mut data, block.frames[i].as_slice());
        let f = TimedFrame { pts_ticks: pts, data, is_keyframe: block.is_keyframe };
        let ghost before = out@;
        out.push(f);
        proof {
            assert(frame_views(out@) =~= frame_views(before).push(frame_view(f)));
            assert(block.frames.deep_view()[i as int] == block.frames@[i as int]@);
            assert(all.take(i + 1) =~= all.take(i as int).push(all[i as int]));
        }
        i += 1;
    }
    proof {
        assert(all.take(all.len() as int) =~= all);
    }
}


// ----------------------------------------------------------------------------
// Block groups
// ----------------------------------------------------------------------------

/// `(Block range, has ReferenceBlock)` of a `BlockGroup`'s fields from `cur` on.
pub open spec fn group_fields<S: EbmlSource>(
    e: &Ebml<S>,
    cur: u64,
    end: Option<u64>,
    acc: (Option<(u64, u64)>, bool),
) -> (Option<(u64, u64)>, bool)
    decreases u64::MAX - cur,
{
    let (v, c) = spec_next(e, cur, end);
    match v {
        None => acc,
        Some(el) => if c > cur {
            let acc2 = match el.payload {
                PayloadView::Binary(s, t) => if el.id == ID_BLOCK {
                    (Some((s, t)), acc.1)
                } else if el.id == ID_REFERENCEBLOCK {
                    (acc.0, true)
                } else {
                    acc
                },
                _ => if el.id == ID_REFERENCEBLOCK {
                    (acc.0, true)
                } else {
                    acc
                },
            };
            group_fields(e, c, end, acc2)
        } else {
            acc
        },
    }
}

/// Walking an element's fields returns normally and makes progress.
pub open spec fn walk_ok<S: EbmlSource>(e: &Ebml<S>, cur: u64, end: Option<u64>) -> bool
    decreases u64::MAX - cur,
{
    let (v, c) = spec_next(e, cur, end);
    &&& next_ok(e, cur, end)
    &&& match v {
        None => true,
        Some(el) => c > cur && walk_ok(e, c, end),
    }
}

/// The block of a `BlockGroup` when it belongs to `track`: a block without a
/// `ReferenceBlock` is a keyframe.
pub open spec fn spec_block_group<S: EbmlSource>(e: &Ebml<S>, s: u64, t: u64, track: u64) -> Option<
    (u64, i16, bool, Seq<Seq<u8>>),
> {
    let (range, has_ref) = group_fields(e, s, Some(t), (None, false));
    match range {
        None => None,
        Some((a, b)) => match spec_parse_block(e.source.spec_read(a, b), false, !has_ref) {
            None => None,
            Some(blk) => if blk.0 != track {
                None
            } else {
                Some((blk.0, blk.1, !has_ref, blk.3))
            },
        },
    }
}

pub open spec fn block_group_ok<S: EbmlSource>(e: &Ebml<S>, s: u64, t: u64) -> bool {
    let (range, has_ref) = group_fields(e, s, Some(t), (None, false));
    &&& walk_ok(e, s, Some(t))
    &&& match range {
        None => true,
        Some((a, b)) => e.source.read_ok(a, b) && parse_block_defined(e.source.spec_read(a, b)),
    }
}

fn group_fields_of<S: EbmlSource>(group: &mut EbmlIterator<'_, S>) -> (r: (Option<(u64, u64)>, bool))
    requires
        walk_ok(old(group).ebml, old(group).current, old(group).end),
    ensures
        r == group_fields(old(group).ebml, old(group).current, old(group).end, (None, false)),
        final(group).ebml == old(group).ebml,
{
    let ghost e = group.ebml;
    let ghost end = group.end;
    let ghost start = group.current;
    let mut block_range: Option<(u64, u64)> = None;
    let mut has_reference = false;
    loop
        invariant_except_break
            walk_ok(e, group.current, end),
            group_fields(e, group.current, end, (block_range, has_reference)) == group_fields(
                e,
                start,
                end,
                (None, false),
            ),
        invariant
            group.ebml == e,
            group.end == end,
        ensures
            (block_range, has_reference) == group_fields(e, start, end, (None, false)),
        decreases u64::MAX - group.current,
    {
        let field = match group.next() {
            Some(f) => f,
            None => break,
        };
        let id = field.id;
        match field.payload {
            EbmlPayload::Binary((s, t)) => {
                if id == ID_BLOCK {
                    block_range = Some((s, t));
                } else if id == ID_REFERENCEBLOCK {
                    has_reference = true;
                }
            },
            _ => {
                if id == ID_REFERENCEBLOCK {
                    has_reference = true;
                }
            },
        }
    }
    (block_range, has_reference)
}

fn read_block_group<S: EbmlSource>(group: EbmlIterator<'_, S>, track_number: u64) -> (r: Option<BlockFrames>)
    requires
        group.end is Some,
        block_group_ok(group.ebml, group.current, group.end->0),
    ensures
        match r {
            Some(b) => spec_block_group(group.ebml, group.current, group.end->0, track_number)
                == Some(b.spec_view()),
            None => spec_block_group(group.ebml, group.current, group.end->0, track_number) is None,
        },
{
    let mut group = group;
    let (block_range, has_reference) = group_fields_of(&mut group);
    let (start, end) = match block_range {
        Some(r) => r,
        None => return None,
    };
    let bytes = group.read_range(start, end);
    let mut block = match parse_block(bytes.as_slice(), false, !has_reference) {
        Some(b) => b,
        None => return None,
    };
    if block.track_number != track_number {
        return None;
    }
    block.is_keyframe = !has_reference;
    Some(block)
}

// ----------------------------------------------------------------------------
// Frames of a cluster
// ----------------------------------------------------------------------------

/// The frames of `track` in a cluster's children from `cur` on, each at the
/// cluster timestamp (last seen, initially `ct`) plus its block's relative time.
pub open spec fn cluster_frames<S: EbmlSource>(
    e: &Ebml<S>,
    cur: u64,
    end: Option<u64>,
    track: u64,
    ct: i64,
) -> Seq<(i64, Seq<u8>, bool)>
    decreases u64::MAX - cur,
{
    let (v, c) = spec_next(e, cur, end);
    match v {
        None => Seq::empty(),
        Some(el) => if c > cur {
            match el.payload {
                PayloadView::UnsignedInt(x) => if el.id == ID_TIMESTAMP {
                    cluster_frames(e, c, end, track, x as i64)
                } else {
                    cluster_frames(e, c, end, track, ct)
                },
                PayloadView::Binary(s, t) => if el.id == ID_SIMPLEBLOCK {
                    let here = match spec_parse_block(e.source.spec_read(s, t), true, false) {
                        Some(blk) => if blk.0 == track {
                            block_frames(blk.3, (ct + blk.1) as i64, blk.2)
                        } else {
                            Seq::empty()
                        },
                        None => Seq::empty(),
                    };
                    here + cluster_frames(e, c, end, track, ct)
                } else {
                    cluster_frames(e, c, end, track, ct)
                },
                PayloadView::Master(s, t) => if el.id == ID_BLOCKGROUP {
                    let here = match spec_block_group(e, s, t, track) {
                        Some(blk) => block_frames(blk.3, (ct + blk.1) as i64, blk.2),
                        None => Seq::empty(),
                    };
                    here + cluster_frames(e, c, end, track, ct)
                } else {
                    cluster_frames(e, c, end, track, ct)
                },
                _ => cluster_frames(e, c, end, track, ct),
            }
        } else {
            Seq::empty()
        },
    }
}

/// Walking the cluster returns normally: reads are valid, blocks parse without
/// panicking and presentation times stay within `i64`.
pub open spec fn cluster_ok<S: EbmlSource>(e: &Ebml<S>, cur: u64, end: Option<u64>, track: u64, ct: i64) -> bool
    decreases u64::MAX - cur,
{
    let (v, c) = spec_next(e, cur, end);
    &&& next_ok(e, cur, end)
    &&& match v {
        None => true,
        Some(el) => c > cur && match el.payload {
            PayloadView::UnsignedInt(x) => if el.id == ID_TIMESTAMP {
                cluster_ok(e, c, end, track, x as i64)
            } else {
                cluster_ok(e, c, end, track, ct)
            },
            PayloadView::Binary(s, t) => cluster_ok(e, c, end, track, ct) && (el.id == ID_SIMPLEBLOCK
                ==> {
                &&& e.source.read_ok(s, t)
                &&& parse_block_defined(e.source.spec_read(s, t))
                &&& match spec_parse_block(e.source.spec_read(s, t), true, false) {
                    Some(blk) => blk.0 == track ==> i64::MIN <= ct + blk.1 <= i64::MAX,
                    None => true,
                }
            }),
            PayloadView::Master(s, t) => cluster_ok(e, c, end, track, ct) && (el.id == ID_BLOCKGROUP
                ==> {
                &&& block_group_ok(e, s, t)
                &&& match spec_block_group(e, s, t, track) {
                    Some(blk) => i64::MIN <= ct + blk.1 <= i64::MAX,
                    None => true,
                }
            }),
            _ => cluster_ok(e, c, end, track, ct),
        },
    }
}

/// Collect every `track_number` frame in one (already-buffered) cluster.
pub fn collect_cluster_frames<S: EbmlSource>(
    cluster: EbmlIterator<'_, S>,
    track_number: u64,
    out: &mut Vec<TimedFrame>,
)
    requires
        cluster_ok(cluster.ebml, cluster.current, cluster.end, track_number, 0),
    ensures
        frame_views(final(out)@) == frame_views(old(out)@) + cluster_frames(
            cluster.ebml,
            cluster.current,
            cluster.end,
            track_number,
            0,
        ),
{
    let mut cluster = cluster;
    let ghost e = cluster.ebml;
    let ghost end = cluster.end;
    let ghost start = cluster.current;
    let ghost out0 = frame_views(out@);
    let mut cluster_time: i64 = 0;
    loop
        invariant_except_break
            cluster_ok(e, cluster.current, end, track_number, cluster_time),
            frame_views(out@) + cluster_frames(e, cluster.current, end, track_number, cluster_time)
                == out0 + cluster_frames(e, start, end, track_number, 0),
        invariant
            cluster.ebml == e,
            cluster.end == end,
        ensures
            frame_views(out@) == out0 + cluster_frames(e, start, end, track_number, 0),
        decreases u64::MAX - cluster.current,
    {
        let ghost cur0 = cluster.current;
        let ghost ct0 = cluster_time;
        let ghost before = frame_views(out@);
        let child = match cluster.next() {
            Some(c) => c,
            None => {
                proof {
                    assert(frame_views(out@) =~= frame_views(out@) + Seq::<(i64, Seq<u8>, bool)>::empty());
                }
                break;
            },
        };
        let ghost rest = cluster_frames(e, cluster.current, end, track_number, ct0);
        let id = child.id;
        match child.payload {
            EbmlPayload::UnsignedInt(v) => {
                if id == ID_TIMESTAMP {
                    cluster_time = #[verifier::truncate] (v as i64);
                }
            },
            EbmlPayload::Binary((s, t)) => {
                if id == ID_SIMPLEBLOCK {
                    let bytes = cluster.read_range(s, t);
                    if let Some(block) = parse_block(bytes.as_slice(), true, false) {
                        if block.track_number == track_number {
                            push_block(out, &block, cluster_time);
                        }
                    }
                    proof {
                        assert(frame_views(out@) + rest =~= before + (
                            (frame_views(out@).subrange(before.len() as int, frame_views(out@).len() as int))
                            + rest));
                    }
                }
            },
            EbmlPayload::Master(group) => {
                if id == ID_BLOCKGROUP {
                    if let Some(block) = read_block_group(group, track_number) {
                        push_block(out, &block, cluster_time);
                    }
                    proof {
                        assert(frame_views(out@) + rest =~= before + (
                            (frame_views(out@).subrange(before.len() as int, frame_views(out@).len() as int))
                            + rest));
                    }
                }
            },
            _ => {},
        }
    }
}


// ----------------------------------------------------------------------------
// Subtitle cues of a cluster
// ----------------------------------------------------------------------------

/// Ticks converted to milliseconds (negative times clamp to 0), reduced into `u64`.
pub open spec fn ticks_to_ms(ticks: i64, scale_ns: u64) -> u64 {
    (((if ticks < 0 { 0 } else { ticks as int }) * scale_ns / 1_000_000) % 0x1_0000_0000_0000_0000) as u64
}

fn to_ms(ticks: i64, scale_ns: u64) -> (r: u64)
    ensures
        r == ticks_to_ms(ticks, scale_ns),
{
    let t: u128 = if ticks < 0 { 0 } else { ticks as u128 };
    proof {
        assert(t * scale_ns <= 0x8000_0000_0000_0000 * 0x1_0000_0000_0000_0000) by (nonlinear_arith)
            requires
                t <= 0x8000_0000_0000_0000,
                scale_ns < 0x1_0000_0000_0000_0000,
        ;
    }
    ((t * scale_ns as u128 / 1_000_000) % 0x1_0000_0000_0000_0000) as u64
}

/// A cue as a value: `(start_ms, end_ms, text)`.
pub open spec fn cue_view(c: SubtitleCue) -> (u64, u64, Seq<char>) {
    (c.start_ms, c.end_ms, c.text@)
}

pub open spec fn cue_views(cs: Seq<SubtitleCue>) -> Seq<(u64, u64, Seq<char>)> {
    cs.map_values(|c: SubtitleCue| cue_view(c))
}

/// One cue per frame, all with the same timing, the text decoded from UTF-8.
pub open spec fn frame_cues(frames: Seq<Seq<u8>>, start_ms: u64, dur_ms: u64) -> Seq<(u64, u64, Seq<char>)> {
    frames.map_values(|f: Seq<u8>| (start_ms, (start_ms + dur_ms) as u64, utf8_lossy(f)))
}

/// `(Block range, BlockDuration)` of a `BlockGroup`'s fields from `cur` on.
pub open spec fn sub_group_fields<S: EbmlSource>(
    e: &Ebml<S>,
    cur: u64,
    end: Option<u64>,
    acc: (Option<(u64, u64)>, Option<u64>),
) -> (Option<(u64, u64)>, Option<u64>)
    decreases u64::MAX - cur,
{
    let (v, c) = spec_next(e, cur, end);
    match v {
        None => acc,
        Some(el) => if c > cur {
            let acc2 = match el.payload {
                PayloadView::Binary(s, t) => if el.id == ID_BLOCK {
                    (Some((s, t)), acc.1)
                } else {
                    acc
                },
                PayloadView::UnsignedInt(x) => if el.id == ID_BLOCKDURATION {
                    (acc.0, Some(x))
                } else {
                    acc
                },
                _ => acc,
            };
            sub_group_fields(e, c, end, acc2)
        } else {
            acc
        },
    }
}

/// The cues a `BlockGroup` of `track` yields, at cluster time `ct`: its duration when
/// given, else four seconds.
pub open spec fn group_cues<S: EbmlSource>(e: &Ebml<S>, s: u64, t: u64, track: u64, ct: i64, scale_ns: u64) -> Seq<
    (u64, u64, Seq<char>),
> {
    let (range, dur) = sub_group_fields(e, s, Some(t), (None, None));
    match range {
        None => Seq::empty(),
        Some((a, b)) => match spec_parse_block(e.source.spec_read(a, b), false, true) {
            Some(blk) => if blk.0 == track {
                let start_ms = ticks_to_ms((ct + blk.1) as i64, scale_ns);
                let dur_ms = match dur {
                    Some(d) => ticks_to_ms(d as i64, scale_ns),
                    None => 4000,
                };
                frame_cues(blk.3, start_ms, dur_ms)
            } else {
                Seq::empty()
            },
            None => Seq::empty(),
        },
    }
}

pub open spec fn group_cues_ok<S: EbmlSource>(e: &Ebml<S>, s: u64, t: u64, track: u64, ct: i64, scale_ns: u64) -> bool {
    let (range, dur) = sub_group_fields(e, s, Some(t), (None, None));
    &&& walk_ok(e, s, Some(t))
    &&& match range {
        None => true,
        Some((a, b)) => {
            &&& e.source.read_ok(a, b)
            &&& parse_block_defined(e.source.spec_read(a, b))
            &&& match spec_parse_block(e.source.spec_read(a, b), false, true) {
                Some(blk) => blk.0 == track ==> {
                    &&& i64::MIN <= ct + blk.1 <= i64::MAX
                    &&& blk.3.len() > 0 ==> ticks_to_ms((ct + blk.1) as i64, scale_ns) + match dur {
                        Some(d) => ticks_to_ms(d as i64, scale_ns),
                        None => 4000,
                    } <= u64::MAX
                },
                None => true,
            }
        },
    }
}

/// The subtitle cues of `track` in a cluster's children from `cur` on: a
/// `SimpleBlock` shows for four seconds, a `BlockGroup` for its `BlockDuration`.
pub open spec fn cluster_cues<S: EbmlSource>(
    e: &Ebml<S>,
    cur: u64,
    end: Option<u64>,
    track: u64,
    scale_ns: u64,
    ct: i64,
) -> Seq<(u64, u64, Seq<char>)>
    decreases u64::MAX - cur,
{
    let (v, c) = spec_next(e, cur, end);
    match v {
        None => Seq::empty(),
        Some(el) => if c > cur {
            match el.payload {
                PayloadView::UnsignedInt(x) => if el.id == ID_TIMESTAMP {
                    cluster_cues(e, c, end, track, scale_ns, x as i64)
                } else {
                    cluster_cues(e, c, end, track, scale_ns, ct)
                },
                PayloadView::Binary(s, t) => if el.id == ID_SIMPLEBLOCK {
                    let here = match spec_parse_block(e.source.spec_read(s, t), true, false) {
                        Some(blk) => if blk.0 == track {
                            frame_cues(blk.3, ticks_to_ms((ct + blk.1) as i64, scale_ns), 4000)
                        } else {
                            Seq::empty()
                        },
                        None => Seq::empty(),
                    };
                    here + cluster_cues(e, c, end, track, scale_ns, ct)
                } else {
                    cluster_cues(e, c, end, track, scale_ns, ct)
                },
                PayloadView::Master(s, t) => if el.id == ID_BLOCKGROUP {
                    group_cues(e, s, t, track, ct, scale_ns) + cluster_cues(e, c, end, track, scale_ns, ct)
                } else {
                    cluster_cues(e, c, end, track, scale_ns, ct)
                },
                _ => cluster_cues(e, c, end, track, scale_ns, ct),
            }
        } else {
            Seq::empty()
        },
    }
}

pub open spec fn cluster_cues_ok<S: EbmlSource>(
    e: &Ebml<S>,
    cur: u64,
    end: Option<u64>,
    track: u64,
    scale_ns: u64,
    ct: i64,
) -> bool
    decreases u64::MAX - cur,
{
    let (v, c) = spec_next(e, cur, end);
    &&& next_ok(e, cur, end)
    &&& match v {
        None => true,
        Some(el) => c > cur && match el.payload {
            PayloadView::UnsignedInt(x) => if el.id == ID_TIMESTAMP {
                cluster_cues_ok(e, c, end, track, scale_ns, x as i64)
            } else {
                cluster_cues_ok(e, c, end, track, scale_ns, ct)
            },
            PayloadView::Binary(s, t) => cluster_cues_ok(e, c, end, track, scale_ns, ct) && (el.id
                == ID_SIMPLEBLOCK ==> {
                &&& e.source.read_ok(s, t)
                &&& parse_block_defined(e.source.spec_read(s, t))
                &&& match spec_parse_block(e.source.spec_read(s, t), true, false) {
                    Some(blk) => blk.0 == track ==> {
                        &&& i64::MIN <= ct + blk.1 <= i64::MAX
                        &&& blk.3.len() > 0 ==> ticks_to_ms((ct + blk.1) as i64, scale_ns) + 4000
                            <= u64::MAX
                    },
                    None => true,
                }
            }),
            PayloadView::Master(s, t) => cluster_cues_ok(e, c, end, track, scale_ns, ct) && (el.id
                == ID_BLOCKGROUP ==> group_cues_ok(e, s, t, track, ct, scale_ns)),
            _ => cluster_cues_ok(e, c, end, track, scale_ns, ct),
        },
    }
}

/// Append one cue per frame.
fn push_frame_cues(cues: &mut Vec<SubtitleCue>, frames: &Vec<Vec<u8>>, start_ms: u64, dur_ms: u64)
    requires
        frames@.len() > 0 ==> start_ms + dur_ms <= u64::MAX,
    ensures
        cue_views(final(cues)@) == cue_views(old(cues)@) + frame_cues(
            frames.deep_view(),
            start_ms,
            dur_ms,
        ),
{
    let ghost start = cue_views(cues@);
    let ghost all = frame_cues(frames.deep_view(), start_ms, dur_ms);
    let mut i: usize = 0;
    while i < frames.len()
        invariant
            i <= frames@.len(),
            frames@.len() > 0 ==> start_ms + dur_ms <= u64::MAX,
            all == frame_cues(frames.deep_view(), start_ms, dur_ms),
            cue_views(cues@) == start + all.take(i as int),
        decreases frames@.len() - i,
    {
        let cue = SubtitleCue {
            start_ms,
            end_ms: start_ms + dur_ms,
            text: from_utf8_lossy(frames[i].as_slice()),
        };
        let ghost before = cues@;
        cues.push(cue);
        proof {
            assert(cue_views(cues@) =~= cue_views(before).push(cue_view(cue)));
            assert(frames.deep_view()[i as int] == frames@[i as int]@);
            assert(all.take(i + 1) =~= all.take(i as int).push(all[i as int]));
        }
        i += 1;
    }
    proof {
        assert(all.take(all.len() as int) =~= all);
    }
}

fn sub_group_fields_of<S: EbmlSource>(group: &mut EbmlIterator<'_, S>) -> (r: (Option<(u64, u64)>, Option<u64>))
    requires
        walk_ok(old(group).ebml, old(group).current, old(group).end),
    ensures
        r == sub_group_fields(old(group).ebml, old(group).current, old(group).end, (None, None)),
        final(group).ebml == old(group).ebml,
{
    let ghost e = group.ebml;
    let ghost end = group.end;
    let ghost start = group.current;
    let mut block_range: Option<(u64, u64)> = None;
    let mut duration_ticks: Option<u64> = None;
    loop
        invariant_except_break
            walk_ok(e, group.current, end),
            sub_group_fields(e, group.current, end, (block_range, duration_ticks)) == sub_group_fields(
                e,
                start,
                end,
                (None, None),
            ),
        invariant
            group.ebml == e,
            group.end == end,
        ensures
            (block_range, duration_ticks) == sub_group_fields(e, start, end, (None, None)),
        decreases u64::MAX - group.current,
    {
        let gf = match group.next() {
            Some(f) => f,
            None => break,
        };
        match gf.payload {
            EbmlPayload::Binary((s, t)) => {
                if gf.id == ID_BLOCK {
                    block_range = Some((s, t));
                }
            },
            EbmlPayload::UnsignedInt(v) => {
                if gf.id == ID_BLOCKDURATION {
                    duration_ticks = Some(v);
                }
            },
            _ => {},
        }
    }
    (block_range, duration_ticks)
}

fn group_subtitles<S: EbmlSource>(
    group: EbmlIterator<'_, S>,
    track_number: u64,
    scale_ns: u64,
    cluster_time: i64,
    cues: &mut Vec<SubtitleCue>,
)
    requires
        group.end is Some,
        group_cues_ok(group.ebml, group.current, group.end->0, track_number, cluster_time, scale_ns),
    ensures
        cue_views(final(cues)@) == cue_views(old(cues)@) + group_cues(
            group.ebml,
            group.current,
            group.end->0,
            track_number,
            cluster_time,
            scale_ns,
        ),
{
    let mut group = group;
    let (block_range, duration_ticks) = sub_group_fields_of(&mut group);
    if let Some((s, t)) = block_range {
        let bytes = group.read_range(s, t);
        if let Some(b) = parse_block(bytes.as_slice(), false, true) {
            if b.track_number == track_number {
                let start_ms = to_ms(cluster_time + b.rel_timecode as i64, scale_ns);
                let dur_ms = match duration_ticks {
                    Some(d) => to_ms(#[verifier::truncate] (d as i64), scale_ns),
                    None => 4000,
                };
                push_frame_cues(cues, &b.frames, start_ms, dur_ms);
                return;
            }
        }
    }
    proof {
        assert(cue_views(cues@) =~= cue_views(cues@) + Seq::<(u64, u64, Seq<char>)>::empty());
    }
}

/// Walk one cluster's children, collecting `track_number`'s subtitle cues.
#[verifier::rlimit(60)]
pub fn walk_cluster_subtitles<S: EbmlSource>(
    cluster: EbmlIterator<'_, S>,
    track_number: u64,
    scale_ns: u64,
    cues: &mut Vec<SubtitleCue>,
)
    requires
        cluster_cues_ok(cluster.ebml, cluster.current, cluster.end, track_number, scale_ns, 0),
    ensures
        cue_views(final(cues)@) == cue_views(old(cues)@) + cluster_cues(
            cluster.ebml,
            cluster.current,
            cluster.end,
            track_number,
            scale_ns,
            0,
        ),
{
    let mut cluster = cluster;
    let ghost e = cluster.ebml;
    let ghost end = cluster.end;
    let ghost start = cluster.current;
    let ghost out0 = cue_views(cues@);
    let mut cluster_time: i64 = 0;
    loop
        invariant_except_break
            cluster_cues_ok(e, cluster.current, end, track_number, scale_ns, cluster_time),
            cue_views(cues@) + cluster_cues(e, cluster.current, end, track_number, scale_ns, cluster_time)
                == out0 + cluster_cues(e, start, end, track_number, scale_ns, 0),
        invariant
            cluster.ebml == e,
            cluster.end == end,
        ensures
            cue_views(cues@) == out0 + cluster_cues(e, start, end, track_number, scale_ns, 0),
        decreases u64::MAX - cluster.current,
    {
        let ghost ct0 = cluster_time;
        let ghost before = cue_views(cues@);
        let child = match cluster.next() {
            Some(c) => c,
            None => {
                proof {
                    assert(cue_views(cues@) =~= cue_views(cues@) + Seq::<(u64, u64, Seq<char>)>::empty());
                }
                break;
            },
        };
        let ghost rest = cluster_cues(e, cluster.current, end, track_number, scale_ns, ct0);
        let id = child.id;
        match child.payload {
            EbmlPayload::UnsignedInt(v) => {
                if id == ID_TIMESTAMP {
                    cluster_time = #[verifier::truncate] (v as i64);
                }
            },
            EbmlPayload::Binary((s, t)) => {
                if id == ID_SIMPLEBLOCK {
                    let bytes = cluster.read_range(s, t);
                    if let Some(b) = parse_block(bytes.as_slice(), true, false) {
                        if b.track_number == track_number {
                            let start_ms = to_ms(cluster_time + b.rel_timecode as i64, scale_ns);
                            push_frame_cues(cues, &b.frames, start_ms, 4000);
                        }
                    }
                    proof {
                        assert(cue_views(cues@) + rest =~= before + (
                            (cue_views(cues@).subrange(before.len() as int, cue_views(cues@).len() as int))
                            + rest));
                    }
                }
            },
            EbmlPayload::Master(group) => {
                if id == ID_BLOCKGROUP {
                    group_subtitles(group, track_number, scale_ns, cluster_time, cues);
                    proof {
                        assert(cue_views(cues@) + rest =~= before + (
                            (cue_views(cues@).subrange(before.len() as int, cue_views(cues@).len() as int))
                            + rest));
                    }
                }
            },
            _ => {},
        }
    }
}


// ----------------------------------------------------------------------------
// Audio frame sizes
// ----------------------------------------------------------------------------

/// `a == b`.
fn str_is(a: &str, b: &str) -> (r: bool)
    ensures
        r == (a@ == b@),
{
    let x = String::from_str(a);
    let y = String::from_str(b);
    x == y
}

pub const FLAC_MARKER: [u8; 4] = [0x66, 0x4C, 0x61, 0x43];

/// The FLAC STREAMINFO max-blocksize (big-endian at offset 2 of STREAMINFO, which
/// follows the optional `fLaC` marker and the 4-byte metadata block header), when
/// present and nonzero.
pub open spec fn spec_flac_block_size(cp: Option<Seq<u8>>) -> Option<u32> {
    match cp {
        None => None,
        Some(c) => {
            let si: int = if c.len() >= 4 && c.subrange(0, 4) == FLAC_MARKER@ { 8 } else { 4 };
            if si + 4 > c.len() {
                None
            } else {
                let v = c[si + 2] as int * 256 + c[si + 3] as int;
                if v > 0 {
                    Some(v as u32)
                } else {
                    None
                }
            }
        },
    }
}

/// FLAC frame size (samples) from the STREAMINFO max-blocksize field in the MKV
/// `CodecPrivate`. For the common fixed-block stream min == max.
pub fn flac_block_size(codec_private: Option<&[u8]>) -> (r: Option<u32>)
    ensures
        r == spec_flac_block_size(
            match codec_private {
                Some(c) => Some(c@),
                None => None,
            },
        ),
{
    let cp = match codec_private {
        Some(c) => c,
        None => return None,
    };
    let marker = cp.len() >= 4 && cp[0] == FLAC_MARKER[0] && cp[1] == FLAC_MARKER[1] && cp[2]
        == FLAC_MARKER[2] && cp[3] == FLAC_MARKER[3];
    proof {
        if cp@.len() >= 4 {
            if marker {
                assert(cp@.subrange(0, 4) =~= FLAC_MARKER@);
            } else {
                if cp@.subrange(0, 4) == FLAC_MARKER@ {
                    assert(cp@.subrange(0, 4)[0] == cp@[0]);
                    assert(cp@.subrange(0, 4)[1] == cp@[1]);
                    assert(cp@.subrange(0, 4)[2] == cp@[2]);
                    assert(cp@.subrange(0, 4)[3] == cp@[3]);
                }
            }
        }
    }
    let streaminfo: usize = if marker { 8 } else { 4 };
    if cp.len() < streaminfo + 4 {
        return None;
    }
    let v: u32 = (cp[streaminfo + 2] as u32) * 256 + cp[streaminfo + 3] as u32;
    if v > 0 {
        Some(v)
    } else {
        None
    }
}

/// Samples per audio frame by codec: Opus 960, (E-)AC-3 1536, MP3 1152, FLAC from
/// STREAMINFO (4096 when unknown), AAC and anything else 1024.
pub open spec fn spec_samples_per_frame(codec_id: Option<Seq<char>>, cp: Option<Seq<u8>>) -> u32 {
    match codec_id {
        Some(id) => if id == "A_OPUS"@ {
            960
        } else if id == "A_AC3"@ || id == "A_EAC3"@ {
            1536
        } else if id == "A_MPEG/L3"@ {
            1152
        } else if id == "A_FLAC"@ {
            match spec_flac_block_size(cp) {
                Some(v) => v,
                None => 4096,
            }
        } else {
            1024
        },
        None => 1024,
    }
}

pub fn samples_per_frame(codec_id: Option<&str>, codec_private: Option<&[u8]>) -> (r: u32)
    ensures
        r == spec_samples_per_frame(
            match codec_id {
                Some(s) => Some(s@),
                None => None,
            },
            match codec_private {
                Some(c) => Some(c@),
                None => None,
            },
        ),
{
    let id = match codec_id {
        Some(id) => id,
        None => return 1024,
    };
    if str_is(id, "A_OPUS") {
        960
    } else if str_is(id, "A_AC3") || str_is(id, "A_EAC3") {
        1536
    } else if str_is(id, "A_MPEG/L3") {
        1152
    } else if str_is(id, "A_FLAC") {
        match flac_block_size(codec_private) {
            Some(v) => v,
            None => 4096,
        }
    } else {
        1024
    }
}

// ----------------------------------------------------------------------------
// JSON text
// ----------------------------------------------------------------------------

/// The JSON string-body form of one character.
pub open spec fn json_escape_char(c: char) -> Seq<char> {
    if c == '"' {
        seq!['\\', '"']
    } else if c == '\\' {
        seq!['\\', '\\']
    } else if c == '\n' {
        seq!['\\', 'n']
    } else if c == '\r' {
        seq!['\\', 'r']
    } else if c == '\t' {
        seq!['\\', 't']
    } else if (c as u32) < 0x20 {
        seq!['\\', 'u', '0', '0', hex_char_lower(((c as u32) / 16) as nat), hex_char_lower(
            ((c as u32) % 16) as nat,
        )]
    } else {
        seq![c]
    }
}

pub open spec fn json_escape_chars(s: Seq<char>) -> Seq<char>
    decreases s.len(),
{
    if s.len() == 0 {
        Seq::empty()
    } else {
        json_escape_chars(s.drop_last()) + json_escape_char(s.last())
    }
}

/// The text escaped for use inside a JSON string.
pub fn json_escape(s: &str) -> (r: String)
    ensures
        r@ == json_escape_chars(s@),
{
    let n = s.unicode_len();
    let mut out = String::new();
    let mut i: usize = 0;
    while i < n
        invariant
            i <= n == s@.len(),
            out@ == json_escape_chars(s@.take(i as int)),
        decreases n - i,
    {
        let c = s.get_char(i);
        let ghost before = out@;
        if c == '"' {
            proof { reveal_strlit("\\\""); }
            push_str(&mut out, "\\\"");
        } else if c == '\\' {
            proof { reveal_strlit("\\\\"); }
            push_str(&mut out, "\\\\");
        } else if c == '\n' {
            proof { reveal_strlit("\\n"); }
            push_str(&mut out, "\\n");
        } else if c == '\r' {
            proof { reveal_strlit("\\r"); }
            push_str(&mut out, "\\r");
        } else if c == '\t' {
            proof { reveal_strlit("\\t"); }
            push_str(&mut out, "\\t");
        } else if (c as u32) < 0x20 {
            proof { reveal_strlit("\\u00"); }
            push_str(&mut out, "\\u00");
            push_hex_digit_lower(&mut out, ((c as u32) / 16) as u64);
            push_hex_digit_lower(&mut out, ((c as u32) % 16) as u64);
        } else {
            let one = s.substring_char(i, i + 1);
            push_str(&mut out, one);
        }
        proof {
            assert(s@.take(i + 1).drop_last() =~= s@.take(i as int));
            assert(s@.take(i + 1).last() == c);
            assert(out@ =~= before + json_escape_char(c));
        }
        i += 1;
    }
    proof {
        assert(s@.take(n as int) =~= s@);
    }
    out
}


// ----------------------------------------------------------------------------
// Demuxer state
// ----------------------------------------------------------------------------

pub const DEFAULT_TIMESTAMP_SCALE_NS: u64 = 1_000_000;

/// What is known of an MKV Segment once its headers are parsed: where its content
/// starts (the base for every SeekHead/Cues position) and ends, the timestamp scale,
/// the duration, the tracks, the seek index and the first Cluster. Reading the file
/// is left to the caller, which hands the parsed parts in.
pub struct Demuxer {
    pub segment_data_start: u64,
    pub segment_end: u64,
    pub timestamp_scale_ns: u64,
    /// `Info\Duration` as stored: the big-endian IEEE-754 bytes (in ticks).
    pub duration: Option<Vec<u8>>,
    pub tracks: Vec<TrackData>,
    pub cues: Vec<CuePoint>,
    pub first_cluster_offset: Option<u64>,
}

/// `(TimestampScale, Duration bytes)` of an `Info` element's fields from `cur` on.
pub open spec fn info_fields<S: EbmlSource>(
    e: &Ebml<S>,
    cur: u64,
    end: Option<u64>,
    acc: (u64, Option<Seq<u8>>),
) -> (u64, Option<Seq<u8>>)
    decreases u64::MAX - cur,
{
    let (v, c) = spec_next(e, cur, end);
    match v {
        None => acc,
        Some(el) => if c > cur {
            let acc2 = match el.payload {
                PayloadView::UnsignedInt(x) => if el.id == ID_TIMESTAMPSCALE {
                    (x, acc.1)
                } else {
                    acc
                },
                PayloadView::Float(b) => if el.id == ID_DURATION {
                    (acc.0, Some(b))
                } else {
                    acc
                },
                _ => acc,
            };
            info_fields(e, c, end, acc2)
        } else {
            acc
        },
    }
}

/// The first track numbered `n`.
pub open spec fn track_index(ts: Seq<TrackData>, n: u64) -> Option<int>
    decreases ts.len(),
{
    if ts.len() == 0 {
        None
    } else {
        match track_index(ts.drop_last(), n) {
            Some(i) => Some(i),
            None => if ts.last().track_number == Some(n) {
                Some(ts.len() - 1)
            } else {
                None
            },
        }
    }
}

/// Milliseconds of a cue time, reduced into `u64`.
pub open spec fn cue_ms(time: u64, scale_ns: u64) -> u64 {
    ((time * scale_ns / 1_000_000) % 0x1_0000_0000_0000_0000) as u64
}

/// The number of the first video track.
pub open spec fn video_track_number(ts: Seq<TrackData>) -> Option<u64>
    decreases ts.len(),
{
    if ts.len() == 0 {
        None
    } else if ts[0].track_type == Some(TrackType::Video) {
        ts[0].track_number
    } else {
        video_track_number(ts.drop_first())
    }
}

/// Whether a cue point indexes the video track (any cue does when there is none).
pub open spec fn indexes(ps: Seq<CueTrackPosition>, vt: Option<u64>) -> bool {
    match vt {
        Some(v) => exists|k: int| 0 <= k < ps.len() && ps[k].track == v,
        None => true,
    }
}

/// Cue times in milliseconds of the cues that index the video track, with
/// repeats of the previous value dropped, appended to `acc`.
pub open spec fn cue_times(cues: Seq<crate::index::CuePointView>, vt: Option<u64>, scale_ns: u64, acc: Seq<u64>) -> Seq<u64>
    decreases cues.len(),
{
    if cues.len() == 0 {
        acc
    } else {
        let c = cues[0];
        let acc2 = if indexes(c.positions, vt) {
            let ms = cue_ms(c.time, scale_ns);
            if acc.len() > 0 && acc.last() == ms {
                acc
            } else {
                acc.push(ms)
            }
        } else {
            acc
        };
        cue_times(cues.drop_first(), vt, scale_ns, acc2)
    }
}

fn has_track(ps: &Vec<CueTrackPosition>, v: u64) -> (r: bool)
    ensures
        r == (exists|k: int| 0 <= k < ps@.len() && ps@[k].track == v),
{
    let mut i: usize = 0;
    while i < ps.len()
        invariant
            i <= ps@.len(),
            forall|k: int| 0 <= k < i ==> ps@[k].track != v,
        decreases ps@.len() - i,
    {
        if ps[i].track == v {
            return true;
        }
        i += 1;
    }
    false
}

impl Demuxer {
    /// A demuxer before any header is read.
    pub fn new() -> (r: Self)
        ensures
            r.segment_data_start == 0,
            r.segment_end == u64::MAX,
            r.timestamp_scale_ns == DEFAULT_TIMESTAMP_SCALE_NS,
            r.duration is None,
            r.tracks@.len() == 0,
            r.cues@.len() == 0,
            r.first_cluster_offset is None,
    {
        Demuxer {
            segment_data_start: 0,
            segment_end: u64::MAX,
            timestamp_scale_ns: DEFAULT_TIMESTAMP_SCALE_NS,
            duration: None,
            tracks: Vec::new(),
            cues: Vec::new(),
            first_cluster_offset: None,
        }
    }

    /// Take `TimestampScale` and `Duration` from an `Info` element.
    pub fn parse_info<S: EbmlSource>(&mut self, info: EbmlIterator<'_, S>)
        requires
            walk_ok(info.ebml, info.current, info.end),
        ensures
            (final(self).timestamp_scale_ns, crate::track::opt_bytes(final(self).duration))
                == info_fields(
                info.ebml,
                info.current,
                info.end,
                (old(self).timestamp_scale_ns, crate::track::opt_bytes(old(self).duration)),
            ),
            final(self).segment_data_start == old(self).segment_data_start,
            final(self).segment_end == old(self).segment_end,
            final(self).tracks == old(self).tracks,
            final(self).cues == old(self).cues,
            final(self).first_cluster_offset == old(self).first_cluster_offset,
    {
        let mut info = info;
        let ghost e = info.ebml;
        let ghost end = info.end;
        let ghost start = info.current;
        let ghost init = (self.timestamp_scale_ns, crate::track::opt_bytes(self.duration));
        loop
            invariant_except_break
                walk_ok(e, info.current, end),
                info_fields(e, info.current, end, (self.timestamp_scale_ns, crate::track::opt_bytes(self.duration)))
                    == info_fields(e, start, end, init),
            invariant
                info.ebml == e,
                info.end == end,
                self.segment_data_start == old(self).segment_data_start,
                self.segment_end == old(self).segment_end,
                self.tracks == old(self).tracks,
                self.cues == old(self).cues,
                self.first_cluster_offset == old(self).first_cluster_offset,
            ensures
                (self.timestamp_scale_ns, crate::track::opt_bytes(self.duration)) == info_fields(
                    e,
                    start,
                    end,
                    init,
                ),
            decreases u64::MAX - info.current,
        {
            let field = match info.next() {
                Some(f) => f,
                None => break,
            };
            let id = field.id;
            match field.payload {
                EbmlPayload::UnsignedInt(v) => {
                    if id == ID_TIMESTAMPSCALE {
                        self.timestamp_scale_ns = v;
                    }
                },
                EbmlPayload::Float(b) => {
                    if id == ID_DURATION {
                        self.duration = Some(b);
                    }
                },
                _ => {},
            }
        }
    }

    /// The first track numbered `track_number`.
    pub fn track(&self, track_number: u64) -> (r: Option<&TrackData>)
        ensures
            match track_index(self.tracks@, track_number) {
                Some(i) => r == Some(&self.tracks@[i]),
                None => r is None,
            },
    {
        let mut i: usize = 0;
        while i < self.tracks.len()
            invariant
                i <= self.tracks@.len(),
                track_index(self.tracks@.take(i as int), track_number) is None,
            decreases self.tracks@.len() - i,
        {
            proof {
                assert(self.tracks@.take(i + 1).drop_last() =~= self.tracks@.take(i as int));
            }
            if self.tracks[i].track_number == Some(track_number) {
                proof {
                    lemma_track_index_prefix(self.tracks@, track_number, i + 1);
                }
                return Some(&self.tracks[i]);
            }
            i += 1;
        }
        proof {
            assert(self.tracks@.take(self.tracks@.len() as int) =~= self.tracks@);
        }
        None
    }

    /// Absolute byte offset of the cluster to start at for `time_ms` on `track`: the
    /// cue cluster for that time (relative to the Segment content), else the first
    /// Cluster.
    pub open spec fn spec_cue_offset(&self, track_number: u64, time_ms: u64) -> Option<u64> {
        let target = time_ms * 1_000_000 / (if self.timestamp_scale_ns >= 1 { self.timestamp_scale_ns as int } else { 1 });
        match spec_cue_for_time(cue_point_views(self.cues@), track_number, target as u64) {
            Some(pos) => Some((self.segment_data_start + pos) as u64),
            None => self.first_cluster_offset,
        }
    }

    pub fn cue_offset(&self, track_number: u64, time_ms: u64) -> (r: Option<u64>)
        requires
            time_ms * 1_000_000 <= u64::MAX,
            ({
                let target = time_ms * 1_000_000 / (if self.timestamp_scale_ns >= 1 { self.timestamp_scale_ns as int } else { 1 });
                match spec_cue_for_time(cue_point_views(self.cues@), track_number, target as u64) {
                    Some(pos) => self.segment_data_start + pos <= u64::MAX,
                    None => true,
                }
            }),
        ensures
            r == self.spec_cue_offset(track_number, time_ms),
            match spec_cue_for_time(
                cue_point_views(self.cues@),
                track_number,
                (time_ms * 1_000_000 / (if self.timestamp_scale_ns >= 1 {
                    self.timestamp_scale_ns as int
                } else {
                    1
                })) as u64,
            ) {
                Some(pos) => r is Some && r->0 == self.segment_data_start + pos,
                None => r == self.first_cluster_offset,
            },
    {
        let scale = if self.timestamp_scale_ns >= 1 { self.timestamp_scale_ns } else { 1 };
        let target_ticks = time_ms * 1_000_000 / scale;
        match cue_cluster_for_time(self.cues.as_slice(), track_number, target_ticks) {
            Some(pos) => Some(self.segment_data_start + pos),
            None => self.first_cluster_offset,
        }
    }

    /// A seek offset is absolute in the file: when the cue lookup for the time (in
    /// ticks of the TimestampScale) gives the cluster position `pos`, which is relative
    /// to the Segment content, the offset is the Segment content's start plus `pos`;
    /// with no cue position it is the first Cluster's offset.
    pub proof fn lemma_cue_offset_absolute(self, track_number: u64, time_ms: u64, target: u64)
        requires
            time_ms * 1_000_000 <= u64::MAX,
            self.timestamp_scale_ns >= 1 ==> target == time_ms * 1_000_000 / (self.timestamp_scale_ns as int),
            self.timestamp_scale_ns == 0 ==> target == time_ms * 1_000_000,
        ensures
            match spec_cue_for_time(cue_point_views(self.cues@), track_number, target) {
                Some(pos) => self.segment_data_start + pos <= u64::MAX ==> self.spec_cue_offset(
                    track_number,
                    time_ms,
                ) == Some((self.segment_data_start + pos) as u64) && self.spec_cue_offset(
                    track_number,
                    time_ms,
                )->0 - self.segment_data_start == pos,
                None => self.spec_cue_offset(track_number, time_ms) == self.first_cluster_offset,
            },
    {
        assert(time_ms * 1_000_000 / (if self.timestamp_scale_ns >= 1 {
            self.timestamp_scale_ns as int
        } else {
            1
        }) == target);
    }

    pub fn timestamp_scale(&self) -> (r: u64)
        ensures
            r == self.timestamp_scale_ns,
    {
        self.timestamp_scale_ns
    }

    /// Cue presentation times in milliseconds for the video track only, the real
    /// keyframe/cluster boundaries to tile segments on (every cue when there is no
    /// video track), with repeats dropped.
    pub fn cue_times_ms(&self) -> (r: Vec<u64>)
        ensures
            r@ == cue_times(
                cue_point_views(self.cues@),
                video_track_number(self.tracks@),
                self.timestamp_scale_ns,
                Seq::empty(),
            ),
    {
        let mut video_track: Option<u64> = None;
        let mut t: usize = 0;
        proof {
            assert(self.tracks@.skip(0) =~= self.tracks@);
        }
        while t < self.tracks.len()
            invariant_except_break
                video_track is None,
            invariant
                t <= self.tracks@.len(),
                video_track_number(self.tracks@) == video_track_number(self.tracks@.skip(t as int)),
            ensures
                video_track == video_track_number(self.tracks@),
            decreases self.tracks@.len() - t,
        {
            proof {
                assert(self.tracks@.skip(t as int).drop_first() =~= self.tracks@.skip(t + 1));
                assert(self.tracks@.skip(t as int)[0] == self.tracks@[t as int]);
            }
            if self.tracks[t].track_type == Some(TrackType::Video) {
                video_track = self.tracks[t].track_number;
                break;
            }
            t += 1;
            proof {
                if t == self.tracks@.len() {
                    assert(self.tracks@.skip(t as int).len() == 0);
                }
            }
        }
        let ghost vt = video_track_number(self.tracks@);
        let ghost cs = cue_point_views(self.cues@);
        assert(video_track == vt);
        let mut out: Vec<u64> = Vec::new();
        let mut i: usize = 0;
        proof {
            assert(cs.skip(0) =~= cs);
        }
        while i < self.cues.len()
            invariant
                i <= self.cues@.len(),
                cs == cue_point_views(self.cues@),
                video_track == vt,
                cue_times(cs, vt, self.timestamp_scale_ns, Seq::empty()) == cue_times(
                    cs.skip(i as int),
                    vt,
                    self.timestamp_scale_ns,
                    out@,
                ),
            decreases self.cues@.len() - i,
        {
            let c = &self.cues[i];
            proof {
                assert(cs.skip(i as int).drop_first() =~= cs.skip(i + 1));
                assert(cs.skip(i as int)[0] == c.view());
            }
            let indexes_video = match video_track {
                Some(v) => has_track(&c.positions, v),
                None => true,
            };
            if indexes_video {
                proof {
                    assert(c.time as u128 * self.timestamp_scale_ns as u128 <= u128::MAX) by (nonlinear_arith)
                        requires
                            c.time < 0x1_0000_0000_0000_0000,
                            self.timestamp_scale_ns < 0x1_0000_0000_0000_0000,
                    ;
                }
                let ms = ((c.time as u128 * self.timestamp_scale_ns as u128 / 1_000_000)
                    % 0x1_0000_0000_0000_0000) as u64;
                if out.len() == 0 || out[out.len() - 1] != ms {
                    out.push(ms);
                }
            }
            i += 1;
        }
        proof {
            assert(cs.skip(self.cues@.len() as int) =~= Seq::<crate::index::CuePointView>::empty());
        }
        out
    }
}

proof fn lemma_track_index_prefix(ts: Seq<TrackData>, n: u64, k: int)
    requires
        0 < k <= ts.len(),
        track_index(ts.take(k), n) == Some(k - 1),
    ensures
        track_index(ts, n) == Some(k - 1),
    decreases ts.len(),
{
    if k < ts.len() {
        assert(ts.drop_last().take(k) =~= ts.take(k));
        lemma_track_index_prefix(ts.drop_last(), n, k);
    } else {
        assert(ts.take(k) =~= ts);
    }
}

/// No value follows itself.
pub open spec fn no_repeats(s: Seq<u64>) -> bool {
    forall|j: int| 1 <= j < s.len() ==> #[trigger] s[j] != s[j - 1]
}

/// The cue-time list repeats no value twice in a row.
pub proof fn lemma_cue_times_distinct(
    cues: Seq<crate::index::CuePointView>,
    vt: Option<u64>,
    scale_ns: u64,
    acc: Seq<u64>,
)
    requires
        no_repeats(acc),
    ensures
        no_repeats(cue_times(cues, vt, scale_ns, acc)),
    decreases cues.len(),
{
    if cues.len() > 0 {
        let c = cues[0];
        let acc2 = if indexes(c.positions, vt) {
            let ms = cue_ms(c.time, scale_ns);
            if acc.len() > 0 && acc.last() == ms {
                acc
            } else {
                acc.push(ms)
            }
        } else {
            acc
        };
        assert forall|j: int| 1 <= j < acc2.len() implies #[trigger] acc2[j] != acc2[j - 1] by {
            if acc2.len() == acc.len() + 1 && j == acc.len() {
                assert(acc2[j - 1] == acc.last());
            } else if acc2.len() == acc.len() + 1 {
                assert(acc2[j] == acc[j] && acc2[j - 1] == acc[j - 1]);
            }
        }
        lemma_cue_times_distinct(cues.drop_first(), vt, scale_ns, acc2);
    }
}


/// Strictly increasing.
pub open spec fn ascending(s: Seq<u64>) -> bool {
    forall|i: int, j: int| 0 <= i < j < s.len() ==> #[trigger] s[i] < #[trigger] s[j]
}

proof fn lemma_ms_ordered(t1: u64, t2: u64, scale_ns: u64)
    requires
        t1 <= t2,
    ensures
        t1 * scale_ns / 1_000_000 <= t2 * scale_ns / 1_000_000,
{
    vstd::arithmetic::mul::lemma_mul_inequality(t1 as int, t2 as int, scale_ns as int);
    vstd::arithmetic::div_mod::lemma_div_is_ordered(
        t1 * scale_ns,
        t2 * scale_ns,
        1_000_000,
    );
}

/// The cue times come out strictly ascending when the cues are in time order (as
/// `parse_cues` leaves them) and no cue's time in milliseconds overflows a `u64`.
pub proof fn lemma_cue_times_ascending(
    cues: Seq<crate::index::CuePointView>,
    vt: Option<u64>,
    scale_ns: u64,
    acc: Seq<u64>,
)
    requires
        crate::index::time_sorted(cues),
        forall|k: int|
            0 <= k < cues.len() ==> #[trigger] cues[k].time * scale_ns / 1_000_000
                < 0x1_0000_0000_0000_0000,
        ascending(acc),
        acc.len() > 0 && cues.len() > 0 ==> acc.last() <= cues[0].time * scale_ns / 1_000_000,
    ensures
        ascending(cue_times(cues, vt, scale_ns, acc)),
    decreases cues.len(),
{
    if cues.len() > 0 {
        let c = cues[0];
        let ms = cue_ms(c.time, scale_ns);
        assert(cues[0].time * scale_ns / 1_000_000 < 0x1_0000_0000_0000_0000);
        assert(ms == c.time * scale_ns / 1_000_000);
        let acc2 = if indexes(c.positions, vt) {
            if acc.len() > 0 && acc.last() == ms {
                acc
            } else {
                acc.push(ms)
            }
        } else {
            acc
        };
        assert(ascending(acc2)) by {
            if acc2.len() == acc.len() + 1 {
                assert forall|i: int, j: int| 0 <= i < j < acc2.len() implies #[trigger] acc2[i]
                    < #[trigger] acc2[j] by {
                    if j == acc.len() {
                        if i < acc.len() - 1 {
                            assert(acc[i] < acc[acc.len() - 1]);
                        }
                        assert(acc2[i] == acc[i]);
                    } else {
                        assert(acc2[i] == acc[i] && acc2[j] == acc[j]);
                    }
                }
            }
        }
        let rest = cues.drop_first();
        assert(crate::index::time_sorted(rest)) by {
            assert forall|i: int, j: int| 0 <= i < j < rest.len() implies #[trigger] rest[i].time
                <= #[trigger] rest[j].time by {
                assert(rest[i] == cues[i + 1] && rest[j] == cues[j + 1]);
            }
        }
        assert forall|k: int| 0 <= k < rest.len() implies #[trigger] rest[k].time * scale_ns / 1_000_000
            < 0x1_0000_0000_0000_0000 by {
            assert(rest[k] == cues[k + 1]);
        }
        if acc2.len() > 0 && rest.len() > 0 {
            assert(rest[0] == cues[1]);
            lemma_ms_ordered(cues[0].time, cues[1].time, scale_ns);
        }
        lemma_cue_times_ascending(rest, vt, scale_ns, acc2);
    }
}

// ----------------------------------------------------------------------------
// Track configuration and segments
// ----------------------------------------------------------------------------

/// The fMP4 codec configuration of a track: the CodecPrivate verbatim for the codecs
/// whose box payload it is (required, except for VP9 and AC-3/E-AC-3).
pub open spec fn spec_codec_config(t: TrackData) -> Option<CodecView> {
    let cp = t.private_view();
    if is_text(t.codec_id, "V_MPEG4/ISO/AVC"@) {
        match cp {
            Some(c) => Some(CodecView::Avc(c)),
            None => None,
        }
    } else if is_text(t.codec_id, "V_MPEGH/ISO/HEVC"@) {
        match cp {
            Some(c) => Some(CodecView::Hevc(c)),
            None => None,
        }
    } else if is_text(t.codec_id, "V_AV1"@) {
        match cp {
            Some(c) => Some(CodecView::Av1(c)),
            None => None,
        }
    } else if is_text(t.codec_id, "V_VP9"@) {
        Some(CodecView::Vp9(cp))
    } else if is_text(t.codec_id, "A_AAC"@) {
        match cp {
            Some(c) => Some(CodecView::Aac(c)),
            None => None,
        }
    } else if is_text(t.codec_id, "A_OPUS"@) {
        match cp {
            Some(c) => Some(CodecView::Opus(c)),
            None => None,
        }
    } else if is_text(t.codec_id, "A_AC3"@) || is_text(t.codec_id, "A_EAC3"@) {
        Some(
            CodecView::Ac3(
                match cp {
                    Some(c) => c,
                    None => Seq::empty(),
                },
            ),
        )
    } else {
        None
    }
}

/// The media timescale of a track: the sample rate for audio, `10^9 / TimestampScale`
/// otherwise (so MKV ticks map one to one).
pub open spec fn spec_timescale(scale_ns: u64, t: TrackData, audio_rate: u32) -> u32 {
    if t.track_type == Some(TrackType::Audio) {
        audio_rate
    } else {
        (1_000_000_000int / (if scale_ns >= 1 { scale_ns as int } else { 1int })) as u32
    }
}

/// The track configuration for muxing one track.
pub open spec fn spec_track_config(scale_ns: u64, t: TrackData, audio_rate: u32, duration: u64) -> Option<
    TrackConfigView,
> {
    match spec_codec_config(t) {
        None => None,
        Some(codec) => {
            let timescale = spec_timescale(scale_ns, t, audio_rate);
            let kind = if t.track_type == Some(TrackType::Audio) {
                MediaKind::Audio {
                    sample_rate: timescale,
                    channels: ((match t.channels {
                        Some(c) => c,
                        None => 2,
                    }) % 0x10000) as u16,
                }
            } else {
                MediaKind::Video {
                    width: ((match t.pixel_width {
                        Some(w) => w,
                        None => 0,
                    }) % 0x10000) as u16,
                    height: ((match t.pixel_height {
                        Some(h) => h,
                        None => 0,
                    }) % 0x10000) as u16,
                }
            };
            Some(
                TrackConfigView {
                    track_id: ((match t.track_number {
                        Some(n) => n,
                        None => 1,
                    }) % 0x1_0000_0000) as u32,
                    timescale,
                    duration,
                    language: t.spec_language_tag(),
                    kind,
                    codec,
                },
            )
        },
    }
}

/// A copy of a byte vector.
fn copy_vec(v: &Vec<u8>) -> (r: Vec<u8>)
    ensures
        r@ == v@,
{
    let mut r: Vec<u8> = Vec::new();
    extend_bytes(&mut r, v.as_slice());
    r
}

fn string_is(s: &String, lit: &str) -> (r: bool)
    ensures
        r == (s@ == lit@),
{
    let t = String::from_str(lit);
    *s == t
}

/// The samples of a segment as `video_samples` or `audio_samples` describe them.
pub open spec fn samples_for(
    is_audio: bool,
    frames: Seq<TimedFrame>,
    frame_dur: i64,
    spf: u32,
    rate: u32,
    scale_ns: u64,
    base: u64,
    samples: Seq<Sample>,
) -> bool {
    &&& samples.len() == frames.len()
    &&& if is_audio {
        &&& frames.len() > 0 ==> base as int == crate::remux::rounded_base(
            audio_base_product(frames, rate, scale_ns),
        ) % 0x1_0000_0000_0000_0000
        &&& forall|i: int| 0 <= i < frames.len() ==> is_audio_sample(#[trigger] samples[i], frames[i], spf)
    } else {
        &&& frames.len() > 0 ==> base == max_int(sorted_pts(frames)[0] as int, 0)
        &&& forall|i: int|
            0 <= i < frames.len() ==> is_video_sample(
                #[trigger] samples[i],
                frames[i],
                sorted_pts(frames),
                i,
                frame_dur,
            )
    }
}

/// Nominal video frame duration in ticks (`DefaultDuration / TimestampScale`, 1 when
/// unknown), reduced into `i64`.
pub open spec fn frame_dur_ticks(t: TrackData, scale_ns: u64) -> i64 {
    match t.default_duration {
        Some(ns) => (ns / (if scale_ns >= 1 { scale_ns } else { 1u64 })) as i64,
        None => 1,
    }
}

impl Demuxer {
    pub fn codec_config(&self, track: &TrackData) -> (r: Option<CodecConfig>)
        ensures
            match r {
                Some(c) => spec_codec_config(*track) == Some(c.view()),
                None => spec_codec_config(*track) is None,
            },
    {
        let id = match &track.codec_id {
            Some(id) => id,
            None => return None,
        };
        let cp: Option<Vec<u8>> = match &track.codec_private {
            Some(c) => Some(copy_vec(c)),
            None => None,
        };
        if string_is(id, "V_MPEG4/ISO/AVC") {
            match cp {
                Some(c) => Some(CodecConfig::Avc(c)),
                None => None,
            }
        } else if string_is(id, "V_MPEGH/ISO/HEVC") {
            match cp {
                Some(c) => Some(CodecConfig::Hevc(c)),
                None => None,
            }
        } else if string_is(id, "V_AV1") {
            match cp {
                Some(c) => Some(CodecConfig::Av1(c)),
                None => None,
            }
        } else if string_is(id, "V_VP9") {
            Some(CodecConfig::Vp9(cp))
        } else if string_is(id, "A_AAC") {
            match cp {
                Some(c) => Some(CodecConfig::Aac(c)),
                None => None,
            }
        } else if string_is(id, "A_OPUS") {
            match cp {
                Some(c) => Some(CodecConfig::Opus(c)),
                None => None,
            }
        } else if string_is(id, "A_AC3") || string_is(id, "A_EAC3") {
            match cp {
                Some(c) => Some(CodecConfig::Ac3(c)),
                None => Some(CodecConfig::Ac3(Vec::new())),
            }
        } else {
            None
        }
    }

    /// MP4 media timescale for a track; `audio_rate` is its sampling frequency in Hz.
    pub fn timescale_for(&self, track: &TrackData, audio_rate: u32) -> (r: u32)
        ensures
            r == spec_timescale(self.timestamp_scale_ns, *track, audio_rate),
    {
        if track.track_type == Some(TrackType::Audio) {
            audio_rate
        } else {
            let scale = if self.timestamp_scale_ns >= 1 { self.timestamp_scale_ns } else { 1 };
            (1_000_000_000 / scale) as u32
        }
    }

    /// The track configuration; `duration` is the total duration in the track's
    /// timescale.
    pub fn track_config(&self, track: &TrackData, audio_rate: u32, duration: u64) -> (r: Option<TrackConfig>)
        ensures
            match r {
                Some(c) => spec_track_config(self.timestamp_scale_ns, *track, audio_rate, duration)
                    == Some(c.view()),
                None => spec_track_config(self.timestamp_scale_ns, *track, audio_rate, duration) is None,
            },
    {
        let timescale = self.timescale_for(track, audio_rate);
        let codec = match self.codec_config(track) {
            Some(c) => c,
            None => return None,
        };
        let kind = if track.track_type == Some(TrackType::Audio) {
            let channels: u64 = match track.channels {
                Some(c) => c,
                None => 2,
            };
            MediaKind::Audio { sample_rate: timescale, channels: (channels % 0x10000) as u16 }
        } else {
            let w: u64 = match track.pixel_width {
                Some(w) => w,
                None => 0,
            };
            let h: u64 = match track.pixel_height {
                Some(h) => h,
                None => 0,
            };
            MediaKind::Video { width: (w % 0x10000) as u16, height: (h % 0x10000) as u16 }
        };
        let number: u64 = match track.track_number {
            Some(n) => n,
            None => 1,
        };
        Some(
            TrackConfig {
                track_id: (number % 0x1_0000_0000) as u32,
                timescale,
                duration,
                language: String::from_str(track.language_tag()),
                kind,
                codec,
            },
        )
    }

    /// The init segment of a track.
    pub open spec fn spec_init_for(&self, track_number: u64, audio_rate: u32, duration: u64) -> Option<Seq<u8>> {
        match track_index(self.tracks@, track_number) {
            None => None,
            Some(i) => match spec_track_config(self.timestamp_scale_ns, self.tracks@[i], audio_rate, duration) {
                None => None,
                Some(cfg) => Some(spec_init_segment(cfg)),
            },
        }
    }

    pub fn init_segment(&self, track_number: u64, audio_rate: u32, duration: u64) -> (r: Option<Vec<u8>>)
        requires
            match track_index(self.tracks@, track_number) {
                Some(i) => match spec_track_config(self.timestamp_scale_ns, self.tracks@[i], audio_rate, duration) {
                    Some(cfg) => cfg.track_id < u32::MAX,
                    None => true,
                },
                None => true,
            },
        ensures
            match r {
                Some(v) => self.spec_init_for(track_number, audio_rate, duration) == Some(v@),
                None => self.spec_init_for(track_number, audio_rate, duration) is None,
            },
    {
        let track = match self.track(track_number) {
            Some(t) => t,
            None => return None,
        };
        let cfg = match self.track_config(track, audio_rate, duration) {
            Some(c) => c,
            None => return None,
        };
        Some(build_init_segment(&cfg))
    }

    /// `seg` is the media segment of `frames`: the samples `audio_samples` or
    /// `video_samples` make of them, muxed under the track number, with sequence
    /// number `start_ms + 1` (mod 2^32).
    pub open spec fn is_segment_for(
        &self,
        track_number: u64,
        track: TrackData,
        start_ms: u64,
        frames: Seq<TimedFrame>,
        audio_rate: u32,
        seg: Seq<u8>,
    ) -> bool {
        let a = track.track_type == Some(TrackType::Audio);
        let fd = frame_dur_ticks(track, self.timestamp_scale_ns);
        let spf = spec_samples_per_frame(crate::track::opt_text(track.codec_id), track.private_view());
        let scale = self.timestamp_scale_ns;
        exists|base: u64, samples: Seq<Sample>|
            #[trigger] samples_for(a, frames, fd, spf, audio_rate, scale, base, samples) && seg
                == spec_media_segment(
                (track_number % 0x1_0000_0000) as u32,
                ((start_ms % 0x1_0000_0000 + 1) % 0x1_0000_0000) as u32,
                base,
                samples,
            )
    }

    /// Remux a track's frames into one fMP4 media segment (none when there are no
    /// frames): audio on a sample-count timeline, video with DTS reconstructed from
    /// the sorted presentation times. The sequence number is `start_ms + 1` (mod 2^32).
    #[verifier::rlimit(50)]
    pub fn segment_from_frames(
        &self,
        track_number: u64,
        track: &TrackData,
        start_ms: u64,
        frames: &[TimedFrame],
        audio_rate: u32,
    ) -> (r: Option<Vec<u8>>)
        requires
            moof_fits(frames@.len()),
            track.track_type == Some(TrackType::Audio) ==> (frames@.len() > 0 ==> audio_base_product(
                frames@,
                audio_rate,
                self.timestamp_scale_ns,
            ) <= u128::MAX),
            track.track_type != Some(TrackType::Audio) ==> pts_spread_fits(frames@),
        ensures
            frames@.len() == 0 ==> r is None,
            frames@.len() > 0 ==> (r matches Some(v) && self.is_segment_for(
                track_number,
                *track,
                start_ms,
                frames@,
                audio_rate,
                v@,
            )),
    {
        if frames.len() == 0 {
            return None;
        }
        let is_audio = track.track_type == Some(TrackType::Audio);
        let (base, samples) = if is_audio {
            let spf = samples_per_frame(
                match &track.codec_id {
                    Some(s) => Some(s.as_str()),
                    None => None,
                },
                match &track.codec_private {
                    Some(c) => Some(c.as_slice()),
                    None => None,
                },
            );
            audio_samples(frames, spf, audio_rate, self.timestamp_scale_ns)
        } else {
            let scale = if self.timestamp_scale_ns >= 1 { self.timestamp_scale_ns } else { 1 };
            let frame_dur: i64 = match track.default_duration {
                Some(ns) => #[verifier::truncate] ((ns / scale) as i64),
                None => 1,
            };
            video_samples(frames, frame_dur)
        };
        let seq: u32 = ((start_ms % 0x1_0000_0000) as u32).wrapping_add(1);
        let out = build_media_segment(
            (track_number % 0x1_0000_0000) as u32,
            seq,
            base,
            samples.as_slice(),
        );
        proof {
            let a = track.track_type == Some(TrackType::Audio);
            let fd = frame_dur_ticks(*track, self.timestamp_scale_ns);
            let spf = spec_samples_per_frame(
                crate::track::opt_text(track.codec_id),
                track.private_view(),
            );
            assert(samples_for(a, frames@, fd, spf, audio_rate, self.timestamp_scale_ns, base, samples@));
        }
        Some(out)
    }

    /// Whether `segment_from_frames` can take these frames: the `moof` size fits its
    /// 32-bit field, and the arithmetic of the track's timeline does not overflow.
    pub fn segment_fits(&self, track: &TrackData, frames: &[TimedFrame], audio_rate: u32) -> (r: bool)
        ensures
            r == ({
                &&& moof_fits(frames@.len())
                &&& track.track_type == Some(TrackType::Audio) ==> (frames@.len() > 0
                    ==> audio_base_product(frames@, audio_rate, self.timestamp_scale_ns)
                    <= u128::MAX)
                &&& track.track_type != Some(TrackType::Audio) ==> pts_spread_fits(frames@)
            }),
    {
        let n = frames.len();
        if n as u64 > (0xFFFF_FFFFu64 - 96) / 16 {
            return false;
        }
        if track.track_type == Some(TrackType::Audio) {
            if n == 0 {
                return true;
            }
            if audio_rate == 0 {
                return true;
            }
            let p0: i64 = frames[0].pts_ticks;
            let t: u128 = if p0 < 0 { 0 } else { p0 as u128 };
            let r = match t.checked_mul(self.timestamp_scale_ns as u128) {
                Some(x) => x.checked_mul(audio_rate as u128),
                None => {
                    proof {
                        assert(t * self.timestamp_scale_ns * audio_rate >= t * self.timestamp_scale_ns)
                            by (nonlinear_arith)
                            requires
                                t * self.timestamp_scale_ns > u128::MAX,
                                audio_rate >= 1,
                                t >= 0,
                                self.timestamp_scale_ns >= 0,
                        ;
                        assert(t * self.timestamp_scale_ns * audio_rate > u128::MAX);
                    }
                    None
                },
            };
            r.is_some()
        } else {
            spread_fits(frames)
        }
    }

    /// The start of the subtitle scan for a track: the first Cluster, when the track
    /// exists and is a subtitle track.
    pub fn subtitle_start(&self, track_number: u64) -> (r: Option<u64>)
        ensures
            r == (match track_index(self.tracks@, track_number) {
                Some(i) => if self.tracks@[i].track_type == Some(TrackType::Subtitle) {
                    self.first_cluster_offset
                } else {
                    None
                },
                None => None,
            }),
    {
        let track = match self.track(track_number) {
            Some(t) => t,
            None => return None,
        };
        if track.track_type != Some(TrackType::Subtitle) {
            return None;
        }
        self.first_cluster_offset
    }

    /// Where a buffered read of content ending at `content_end` stops: the content's
    /// end, but never past the Segment's.
    pub fn buffer_end(&self, content_end: u64) -> (r: u64)
        ensures
            r == (if content_end < self.segment_end {
                content_end
            } else {
                self.segment_end
            }),
    {
        if content_end < self.segment_end {
            content_end
        } else {
            self.segment_end
        }
    }

    /// The tick at which collecting frames up to `end_ms` stops.
    pub fn end_ticks(&self, end_ms: u64) -> (r: i64)
        requires
            end_ms * 1_000_000 <= u64::MAX,
        ensures
            r == (end_ms * 1_000_000 / (if self.timestamp_scale_ns >= 1 {
                self.timestamp_scale_ns as int
            } else {
                1
            })) as i64,
    {
        let scale = if self.timestamp_scale_ns >= 1 { self.timestamp_scale_ns } else { 1 };
        #[verifier::truncate] ((end_ms * 1_000_000 / scale) as i64)
    }
}

/// Whether every difference of two presentation times fits in an `i64`: the spread
/// from the earliest to the latest does.
fn spread_fits(frames: &[TimedFrame]) -> (r: bool)
    ensures
        r == pts_spread_fits(frames@),
{
    if frames.len() == 0 {
        return true;
    }
    let mut lo: usize = 0;
    let mut hi: usize = 0;
    let mut i: usize = 1;
    while i < frames.len()
        invariant
            1 <= i <= frames@.len(),
            lo < i,
            hi < i,
            forall|k: int| 0 <= k < i ==> frames@[lo as int].pts_ticks <= #[trigger] frames@[k].pts_ticks
                <= frames@[hi as int].pts_ticks,
        decreases frames@.len() - i,
    {
        if frames[i].pts_ticks < frames[lo].pts_ticks {
            lo = i;
        }
        if frames[i].pts_ticks > frames[hi].pts_ticks {
            hi = i;
        }
        i += 1;
    }
    let spread: i128 = frames[hi].pts_ticks as i128 - frames[lo].pts_ticks as i128;
    let ok = spread <= i64::MAX as i128;
    proof {
        if ok {
            assert forall|j: int, k: int| 0 <= j < frames@.len() && 0 <= k < frames@.len() implies i64::MIN
                <= #[trigger] frames@[j].pts_ticks - #[trigger] frames@[k].pts_ticks <= i64::MAX by {
                assert(frames@[lo as int].pts_ticks <= frames@[j].pts_ticks <= frames@[hi as int].pts_ticks);
                assert(frames@[lo as int].pts_ticks <= frames@[k].pts_ticks <= frames@[hi as int].pts_ticks);
            }
        } else {
            assert(!(i64::MIN <= frames@[hi as int].pts_ticks - frames@[lo as int].pts_ticks <= i64::MAX));
        }
    }
    ok
}

/// How much of a cluster starting at `cstart` (ending at `cend`) is read to find its
/// timestamp: 256 bytes, or the whole cluster when it is shorter.
pub fn timestamp_peek_end(cstart: u64, cend: u64) -> (r: u64)
    requires
        cstart + 256 <= u64::MAX,
    ensures
        r == (if cstart + 256 < cend {
            cstart + 256
        } else {
            cend as int
        }),
{
    if cstart + 256 < cend {
        cstart + 256
    } else {
        cend
    }
}

/// Whole clusters are taken until one begins at or after the end time, once some
/// frames have been gathered.
pub fn keep_collecting(have_frames: bool, cluster_time: i64, end_ticks: i64) -> (r: bool)
    ensures
        r == !(have_frames && cluster_time >= end_ticks),
{
    !(have_frames && cluster_time >= end_ticks)
}

/// The `Timestamp` of a cluster from its leading children (those before the first
/// block), or 0.
pub open spec fn first_timestamp<S: EbmlSource>(e: &Ebml<S>, cur: u64, end: Option<u64>) -> i64
    decreases u64::MAX - cur,
{
    let (v, c) = spec_next(e, cur, end);
    match v {
        None => 0,
        Some(el) => if c > cur {
            if el.id == ID_TIMESTAMP && el.payload is UnsignedInt {
                (el.payload->UnsignedInt_0) as i64
            } else if el.id == ID_SIMPLEBLOCK || el.id == ID_BLOCKGROUP {
                0
            } else {
                first_timestamp(e, c, end)
            }
        } else {
            0
        },
    }
}

pub open spec fn first_timestamp_ok<S: EbmlSource>(e: &Ebml<S>, cur: u64, end: Option<u64>) -> bool
    decreases u64::MAX - cur,
{
    let (v, c) = spec_next(e, cur, end);
    &&& next_ok(e, cur, end)
    &&& match v {
        None => true,
        Some(el) => c > cur && ((el.id == ID_TIMESTAMP && el.payload is UnsignedInt) || el.id
            == ID_SIMPLEBLOCK || el.id == ID_BLOCKGROUP || first_timestamp_ok(e, c, end)),
    }
}

/// Read a cluster's leading children to recover its `Timestamp` (which precedes any
/// blocks) without walking the whole cluster.
pub fn cluster_timestamp<S: EbmlSource>(it: EbmlIterator<'_, S>) -> (r: i64)
    requires
        first_timestamp_ok(it.ebml, it.current, it.end),
    ensures
        r == first_timestamp(it.ebml, it.current, it.end),
{
    let mut it = it;
    let ghost e = it.ebml;
    let ghost end = it.end;
    let ghost start = it.current;
    let mut result: i64 = 0;
    loop
        invariant_except_break
            first_timestamp_ok(e, it.current, end),
            first_timestamp(e, it.current, end) == first_timestamp(e, start, end),
            result == 0,
        invariant
            it.ebml == e,
            it.end == end,
        ensures
            result == first_timestamp(e, start, end),
        decreases u64::MAX - it.current,
    {
        let child = match it.next() {
            Some(c) => c,
            None => break,
        };
        if child.id == ID_TIMESTAMP {
            if let EbmlPayload::UnsignedInt(v) = child.payload {
                result = #[verifier::truncate] (v as i64);
                break;
            }
        }
        if child.id == ID_SIMPLEBLOCK || child.id == ID_BLOCKGROUP {
            break;
        }
    }
    result
}


// ----------------------------------------------------------------------------
// Track list for the page
// ----------------------------------------------------------------------------

pub open spec fn text_or_empty(s: Option<Seq<char>>) -> Seq<char> {
    match s {
        Some(t) => t,
        None => Seq::empty(),
    }
}

pub open spec fn bool_text(b: bool) -> Seq<char> {
    if b {
        "true"@
    } else {
        "false"@
    }
}

/// The JSON object describing one track; `vp9_level` is the level a VP9 track
/// reports when its CodecPrivate does not say.
pub open spec fn track_json(t: TrackData, vp9_level: u8) -> Seq<char> {
    track_json_head(t) + track_json_texts(t, vp9_level) + track_json_flags(t)
}

pub open spec fn track_json_head(t: TrackData) -> Seq<char> {
    let kind = match t.track_type {
        Some(k) => k.spec_as_str(),
        None => "unknown"@,
    };
    "{\"number\":"@ + crate::text::dec_digits(
        (match t.track_number {
            Some(n) => n,
            None => 0,
        }) as nat,
    ) + ",\"type\":\""@ + kind
}

pub open spec fn track_json_texts(t: TrackData, vp9_level: u8) -> Seq<char> {
    "\",\"codec_id\":\""@ + json_escape_chars(text_or_empty(crate::track::opt_text(t.codec_id)))
        + "\",\"codec_string\":\""@ + json_escape_chars(text_or_empty(t.spec_codec_string(vp9_level)))
        + "\",\"mime\":\""@ + json_escape_chars(text_or_empty(t.spec_mime_type(vp9_level)))
        + "\",\"language\":\""@ + json_escape_chars(t.spec_language_tag()) + "\",\"name\":\""@
        + json_escape_chars(text_or_empty(crate::track::opt_text(t.codec_name)))
}

pub open spec fn track_json_flags(t: TrackData) -> Seq<char> {
    "\",\"default\":"@ + bool_text(t.flag_default) + ",\"forced\":"@ + bool_text(t.flag_forced)
        + "}"@
}

/// The track objects separated by commas.
pub open spec fn track_json_items(ts: Seq<TrackData>, levels: Seq<u8>) -> Seq<char>
    decreases ts.len(),
{
    if ts.len() == 0 {
        Seq::empty()
    } else if ts.len() == 1 {
        track_json(ts[0], levels[0])
    } else {
        track_json_items(ts.drop_last(), levels.drop_last()) + ","@ + track_json(
            ts.last(),
            levels.last(),
        )
    }
}

fn push_bool(out: &mut String, b: bool)
    ensures
        final(out)@ == old(out)@ + bool_text(b),
{
    if b {
        push_str(out, "true");
    } else {
        push_str(out, "false");
    }
}

/// Append `key` and the escaped text of `value` (empty when absent).
fn push_escaped(out: &mut String, key: &str, value: Option<&str>)
    ensures
        final(out)@ == old(out)@ + key@ + json_escape_chars(
            text_or_empty(
                match value {
                    Some(v) => Some(v@),
                    None => None,
                },
            ),
        ),
{
    push_str(out, key);
    let e = match value {
        Some(v) => json_escape(v),
        None => {
            proof {
                reveal_strlit("");
            }
            json_escape("")
        },
    };
    proof {
        reveal_strlit("");
    }
    push_str(out, e.as_str());
}

pub open spec fn opt_str_view(s: Option<String>) -> Option<Seq<char>> {
    crate::track::opt_text(s)
}

fn push_track_json_head(out: &mut String, t: &TrackData)
    ensures
        final(out)@ == old(out)@ + track_json_head(*t),
{
    let ghost start = out@;
    push_str(out, "{\"number\":");
    let n: u64 = match t.track_number {
        Some(n) => n,
        None => 0,
    };
    push_digits(out, n);
    push_str(out, ",\"type\":\"");
    match t.track_type {
        Some(k) => push_str(out, k.as_str()),
        None => push_str(out, "unknown"),
    }
    proof {
        assert(out@ =~= start + track_json_head(*t));
    }
}

/// Append `key` and the escaped text of `value` (empty when absent).
fn push_escaped_string(out: &mut String, key: &str, value: &Option<String>)
    ensures
        final(out)@ == old(out)@ + key@ + json_escape_chars(text_or_empty(opt_str_view(*value))),
{
    match value {
        Some(v) => push_escaped(out, key, Some(v.as_str())),
        None => push_escaped(out, key, None),
    }
}

fn push_track_json_texts(out: &mut String, t: &TrackData, vp9_level: u8)
    ensures
        final(out)@ == old(out)@ + track_json_texts(*t, vp9_level),
{
    let ghost s0 = out@;
    push_escaped_string(out, "\",\"codec_id\":\"", &t.codec_id);
    let ghost s1 = out@;
    let cs = t.codec_string(vp9_level);
    push_escaped_string(out, "\",\"codec_string\":\"", &cs);
    let ghost s2 = out@;
    let mime = t.mime_type(vp9_level);
    push_escaped_string(out, "\",\"mime\":\"", &mime);
    let ghost s3 = out@;
    push_escaped(out, "\",\"language\":\"", Some(t.language_tag()));
    let ghost s4 = out@;
    push_escaped_string(out, "\",\"name\":\"", &t.codec_name);
    proof {
        assert(opt_str_view(cs) == t.spec_codec_string(vp9_level));
        assert(opt_str_view(mime) == t.spec_mime_type(vp9_level));
        let a = "\",\"codec_id\":\""@ + json_escape_chars(text_or_empty(crate::track::opt_text(t.codec_id)));
        let b = "\",\"codec_string\":\""@ + json_escape_chars(text_or_empty(t.spec_codec_string(vp9_level)));
        let c = "\",\"mime\":\""@ + json_escape_chars(text_or_empty(t.spec_mime_type(vp9_level)));
        let d = "\",\"language\":\""@ + json_escape_chars(t.spec_language_tag());
        let f = "\",\"name\":\""@ + json_escape_chars(text_or_empty(crate::track::opt_text(t.codec_name)));
        assert(s1 =~= s0 + a);
        assert(s2 =~= s1 + b);
        assert(s3 =~= s2 + c);
        assert(s4 =~= s3 + d);
        assert(out@ =~= s4 + f);
        assert(track_json_texts(*t, vp9_level) =~= a + b + c + d + f);
        assert(out@ =~= s0 + (a + b + c + d + f));
    }
}

fn push_track_json(out: &mut String, t: &TrackData, vp9_level: u8)
    ensures
        final(out)@ == old(out)@ + track_json(*t, vp9_level),
{
    let ghost start = out@;
    push_track_json_head(out, t);
    push_track_json_texts(out, t, vp9_level);
    let ghost mid = out@;
    push_str(out, "\",\"default\":");
    push_bool(out, t.flag_default);
    push_str(out, ",\"forced\":");
    push_bool(out, t.flag_forced);
    push_str(out, "}");
    proof {
        assert(out@ =~= mid + track_json_flags(*t));
        assert(out@ =~= start + track_json(*t, vp9_level));
    }
}

impl Demuxer {
    /// JSON description of all tracks for the page; `vp9_levels[i]` is the level the
    /// `i`-th track reports when it is VP9 without level metadata.
    pub fn tracks_json(&self, vp9_levels: &[u8]) -> (r: String)
        requires
            vp9_levels@.len() == self.tracks@.len(),
        ensures
            r@ == "["@ + track_json_items(self.tracks@, vp9_levels@) + "]"@,
    {
        let mut out = String::new();
        push_str(&mut out, "[");
        let ghost head = out@;
        let mut i: usize = 0;
        while i < self.tracks.len()
            invariant
                i <= self.tracks@.len() == vp9_levels@.len(),
                out@ == head + track_json_items(self.tracks@.take(i as int), vp9_levels@.take(i as int)),
            decreases self.tracks@.len() - i,
        {
            if i > 0 {
                push_str(&mut out, ",");
            }
            push_track_json(&mut out, &self.tracks[i], vp9_levels[i]);
            i += 1;
            proof {
                let ts = self.tracks@.take(i as int);
                let ls = vp9_levels@.take(i as int);
                assert(ts.drop_last() =~= self.tracks@.take(i - 1));
                assert(ls.drop_last() =~= vp9_levels@.take(i - 1));
                if i == 1 {
                    assert(track_json_items(self.tracks@.take(0), vp9_levels@.take(0)) =~= Seq::<
                        char,
                    >::empty());
                }
            }
        }
        push_str(&mut out, "]");
        proof {
            assert(self.tracks@.take(self.tracks@.len() as int) =~= self.tracks@);
            assert(vp9_levels@.take(vp9_levels@.len() as int) =~= vp9_levels@);
        }
        out
    }
}


/// The numbers separated by commas.
pub open spec fn numbers_json_items(ns: Seq<u64>) -> Seq<char>
    decreases ns.len(),
{
    if ns.len() == 0 {
        Seq::empty()
    } else if ns.len() == 1 {
        crate::text::dec_digits(ns[0] as nat)
    } else {
        numbers_json_items(ns.drop_last()) + ","@ + crate::text::dec_digits(ns.last() as nat)
    }
}

/// A JSON array of the numbers, e.g. the cue times `[0,2000,4000]`.
pub fn times_json(times: &[u64]) -> (r: String)
    ensures
        r@ == "["@ + numbers_json_items(times@) + "]"@,
{
    let mut out = String::new();
    push_str(&mut out, "[");
    let ghost head = out@;
    let mut i: usize = 0;
    while i < times.len()
        invariant
            i <= times@.len(),
            out@ == head + numbers_json_items(times@.take(i as int)),
        decreases times@.len() - i,
    {
        if i > 0 {
            push_str(&mut out, ",");
        }
        push_digits(&mut out, times[i]);
        i += 1;
        proof {
            let ts = times@.take(i as int);
            assert(ts.drop_last() =~= times@.take(i - 1));
            if i == 1 {
                assert(numbers_json_items(times@.take(0)) =~= Seq::<char>::empty());
            }
        }
    }
    push_str(&mut out, "]");
    proof {
        assert(times@.take(times@.len() as int) =~= times@);
    }
    out
}

// ----------------------------------------------------------------------------
// Header scan decisions
// ----------------------------------------------------------------------------

/// What to do with a child of the Segment met in the forward scan.
#[derive(Debug, Clone, Copy, PartialEq, Eq, Structural)]
pub enum SegmentChild {
    /// Parse it as the `SeekHead`.
    SeekHead,
    /// Take `TimestampScale` and `Duration` from it.
    Info,
    /// Buffer it and parse the tracks.
    Tracks,
    /// Buffer it and parse the cue index.
    Cues,
    /// The first Cluster: the scan stops here.
    Cluster,
    /// Nothing to do.
    Skip,
}

/// What a `SeekHead` entry leads to once the forward scan is over.
#[derive(Debug, Clone, Copy, PartialEq, Eq, Structural)]
pub enum SeekTarget {
    Cues,
    Tracks,
    Info,
}

/// A float stored as big-endian bytes is zero: no bytes, or every bit clear but the
/// sign.
pub open spec fn float_bytes_zero(b: Seq<u8>) -> bool {
    (b.len() == 4 || b.len() == 8) ==> (b[0] == 0 || b[0] == 0x80) && forall|i: int|
        1 <= i < b.len() ==> #[trigger] b[i] == 0
}

/// Whether the stored duration is zero (or absent).
pub open spec fn duration_zero(d: Option<Vec<u8>>) -> bool {
    match d {
        None => true,
        Some(b) => float_bytes_zero(b@),
    }
}

fn bytes_float_zero(b: &Vec<u8>) -> (r: bool)
    requires
        b@.len() == 0 || b@.len() == 4 || b@.len() == 8,
    ensures
        r == float_bytes_zero(b@),
{
    if b.len() == 0 {
        return true;
    }
    if b[0] != 0 && b[0] != 0x80 {
        return false;
    }
    let mut i: usize = 1;
    while i < b.len()
        invariant
            1 <= i <= b@.len(),
            b@.len() == 4 || b@.len() == 8,
            b@[0] == 0 || b@[0] == 0x80,
            forall|k: int| 1 <= k < i ==> #[trigger] b@[k] == 0,
        decreases b@.len() - i,
    {
        if b[i] != 0 {
            proof {
                assert(b@[i as int] != 0);
                assert(!(forall|k: int| 1 <= k < b@.len() ==> #[trigger] b@[k] == 0));
            }
            return false;
        }
        i += 1;
    }
    true
}

impl Demuxer {
    /// Whether a top-level element is the Segment.
    pub fn is_segment(id: u64) -> (r: bool)
        ensures
            r == (id == crate::ids::ID_SEGMENT),
    {
        id == crate::ids::ID_SEGMENT
    }

    /// Enter the Segment whose content spans `data_start..end` (unbounded when the
    /// size is unknown).
    pub fn enter_segment(&mut self, data_start: u64, end: Option<u64>)
        ensures
            final(self).segment_data_start == data_start,
            final(self).segment_end == (match end {
                Some(e) => e,
                None => u64::MAX,
            }),
            final(self).timestamp_scale_ns == old(self).timestamp_scale_ns,
            final(self).duration == old(self).duration,
            final(self).tracks == old(self).tracks,
            final(self).cues == old(self).cues,
            final(self).first_cluster_offset == old(self).first_cluster_offset,
    {
        self.segment_data_start = data_start;
        self.segment_end = match end {
            Some(e) => e,
            None => u64::MAX,
        };
    }

    /// Decide on a Segment child met in the forward scan; the first Cluster's offset
    /// is recorded.
    pub fn on_segment_child(&mut self, id: u64, offset: u64) -> (r: SegmentChild)
        ensures
            r == (if id == ID_SEEKHEAD {
                SegmentChild::SeekHead
            } else if id == ID_INFO {
                SegmentChild::Info
            } else if id == ID_TRACKS {
                SegmentChild::Tracks
            } else if id == ID_CUES {
                SegmentChild::Cues
            } else if id == ID_CLUSTER {
                SegmentChild::Cluster
            } else {
                SegmentChild::Skip
            }),
            final(self).first_cluster_offset == (if id == ID_CLUSTER {
                Some(offset)
            } else {
                old(self).first_cluster_offset
            }),
            final(self).segment_data_start == old(self).segment_data_start,
            final(self).segment_end == old(self).segment_end,
            final(self).timestamp_scale_ns == old(self).timestamp_scale_ns,
            final(self).duration == old(self).duration,
            final(self).tracks == old(self).tracks,
            final(self).cues == old(self).cues,
    {
        if id == ID_SEEKHEAD {
            SegmentChild::SeekHead
        } else if id == ID_INFO {
            SegmentChild::Info
        } else if id == ID_TRACKS {
            SegmentChild::Tracks
        } else if id == ID_CUES {
            SegmentChild::Cues
        } else if id == ID_CLUSTER {
            self.first_cluster_offset = Some(offset);
            SegmentChild::Cluster
        } else {
            SegmentChild::Skip
        }
    }

    /// Where a `SeekHead` entry leads once the forward scan is over: the Cues or the
    /// Tracks when not yet read, the Info when no duration is known; with the
    /// element's absolute offset.
    pub fn seek_entry_target(&self, entry: &SeekEntry, have_tracks: bool, have_cues: bool) -> (r: Option<(SeekTarget, u64)>)
        requires
            self.segment_data_start + entry.position <= u64::MAX,
            self.duration matches Some(b) ==> (b@.len() == 0 || b@.len() == 4 || b@.len() == 8),
        ensures
            r == (if entry.seek_id == ID_CUES && !have_cues {
                Some((SeekTarget::Cues, (self.segment_data_start + entry.position) as u64))
            } else if entry.seek_id == ID_TRACKS && !have_tracks {
                Some((SeekTarget::Tracks, (self.segment_data_start + entry.position) as u64))
            } else if entry.seek_id == ID_INFO && duration_zero(self.duration) {
                Some((SeekTarget::Info, (self.segment_data_start + entry.position) as u64))
            } else {
                None
            }),
    {
        let abs = self.segment_data_start + entry.position;
        if entry.seek_id == ID_CUES && !have_cues {
            Some((SeekTarget::Cues, abs))
        } else if entry.seek_id == ID_TRACKS && !have_tracks {
            Some((SeekTarget::Tracks, abs))
        } else if entry.seek_id == ID_INFO && match &self.duration {
            None => true,
            Some(b) => bytes_float_zero(b),
        } {
            Some((SeekTarget::Info, abs))
        } else {
            None
        }
    }
}

/// What the scan of the Segment has read so far: the tracks and the cue index.
#[derive(Debug, Clone, Copy, PartialEq, Eq, Structural)]
pub struct ScanProgress {
    pub have_tracks: bool,
    pub have_cues: bool,
}

impl ScanProgress {
    pub fn new() -> (r: ScanProgress)
        ensures
            !r.have_tracks,
            !r.have_cues,
    {
        ScanProgress { have_tracks: false, have_cues: false }
    }

    /// After a child of the Segment met in the forward scan, decided on as
    /// `decision`, which is a master element or not: a Tracks or Cues master has been
    /// read; the scan goes on (`true`) until the first Cluster.
    pub fn after_child(&mut self, decision: SegmentChild, is_master: bool) -> (go_on: bool)
        ensures
            go_on == (decision != SegmentChild::Cluster),
            final(self).have_tracks == (old(self).have_tracks || (is_master && decision
                == SegmentChild::Tracks)),
            final(self).have_cues == (old(self).have_cues || (is_master && decision
                == SegmentChild::Cues)),
    {
        if is_master && decision == SegmentChild::Tracks {
            self.have_tracks = true;
        }
        if is_master && decision == SegmentChild::Cues {
            self.have_cues = true;
        }
        decision != SegmentChild::Cluster
    }

    /// After a `SeekHead` entry led to `target`: a Tracks or Cues master found there
    /// (`found`) has been read.
    pub fn after_target(&mut self, target: SeekTarget, found: bool)
        ensures
            final(self).have_tracks == (old(self).have_tracks || (found && target
                == SeekTarget::Tracks)),
            final(self).have_cues == (old(self).have_cues || (found && target == SeekTarget::Cues)),
    {
        if found && target == SeekTarget::Tracks {
            self.have_tracks = true;
        }
        if found && target == SeekTarget::Cues {
            self.have_cues = true;
        }
    }
}

} // verus!
