//! Segment positioning: the `SeekHead` element index and the `Cues` time-to-byte
//! index used for seeking. Positions are relative to the Segment content start.

use vstd::prelude::*;
use crate::bytes::{be_value, fold_be};
use crate::ebml::{EbmlIterator, EbmlPayload, EbmlSource, Ebml, PayloadView, spec_next, next_ok};
use crate::ids::{
    ID_CUECLUSTERPOSITION, ID_CUEPOINT, ID_CUERELATIVEPOSITION, ID_CUETIME, ID_CUETRACK,
    ID_CUETRACKPOSITIONS, ID_SEEK, ID_SEEKID, ID_SEEKPOSITION,
};

verus! {

/// One `SeekHead` entry: which top-level element, and where it lives (byte offset
/// relative to the Segment content start).
#[derive(Debug, Clone, Copy, PartialEq, Eq, Structural)]
pub struct SeekEntry {
    pub seek_id: u64,
    pub position: u64,
}

/// One cue track position within a `CuePoint`.
#[derive(Debug, Clone, Copy, PartialEq, Eq, Structural)]
pub struct CueTrackPosition {
    pub track: u64,
    /// Byte offset of the target Cluster, relative to the Segment content start.
    pub cluster_position: u64,
    /// Optional byte offset of the block within the Cluster.
    pub relative_position: Option<u64>,
}

/// One `CuePoint`: a presentation time and the per-track cluster positions for it.
#[derive(Debug, Clone)]
pub struct CuePoint {
    /// Time in `TimestampScale` units (raw `CueTime`).
    pub time: u64,
    pub positions: Vec<CueTrackPosition>,
}

/// A cue point as a value.
pub struct CuePointView {
    pub time: u64,
    pub positions: Seq<CueTrackPosition>,
}

impl CuePoint {
    pub open spec fn view(&self) -> CuePointView {
        CuePointView { time: self.time, positions: self.positions@ }
    }
}

pub open spec fn cue_views(cues: Seq<CuePoint>) -> Seq<CuePointView> {
    cues.map_values(|c: CuePoint| c.view())
}

// ----------------------------------------------------------------------------
// Cue lookups
// ----------------------------------------------------------------------------

/// The first position of `track` among `ps`.
pub open spec fn find_track(ps: Seq<CueTrackPosition>, track: u64) -> Option<CueTrackPosition>
    decreases ps.len(),
{
    if ps.len() == 0 {
        None
    } else if ps[0].track == track {
        Some(ps[0])
    } else {
        find_track(ps.drop_first(), track)
    }
}

/// The cluster a cue point gives for `track`: its position for that track, else
/// its first position.
pub open spec fn pick(ps: Seq<CueTrackPosition>, track: u64) -> Option<u64> {
    match find_track(ps, track) {
        Some(p) => Some(p.cluster_position),
        None => if ps.len() > 0 {
            Some(ps[0].cluster_position)
        } else {
            None
        },
    }
}

/// How many cue points from the front have a time not after `target`.
pub open spec fn leading_not_after(cues: Seq<CuePointView>, target: u64) -> nat
    decreases cues.len(),
{
    if cues.len() == 0 || cues[0].time > target {
        0
    } else {
        1 + leading_not_after(cues.drop_first(), target)
    }
}

/// The pick of the last cue point in `cues` that has one.
pub open spec fn last_pick(cues: Seq<CuePointView>, track: u64) -> Option<u64>
    decreases cues.len(),
{
    if cues.len() == 0 {
        None
    } else {
        match pick(cues.last().positions, track) {
            Some(x) => Some(x),
            None => last_pick(cues.drop_last(), track),
        }
    }
}

/// The cluster of the last cue (scanning in order, stopping at the first one after
/// `target`) that names a position; else the first cue's first position.
pub open spec fn spec_cue_for_time(cues: Seq<CuePointView>, track: u64, target: u64) -> Option<u64> {
    match last_pick(cues.take(leading_not_after(cues, target) as int), track) {
        Some(x) => Some(x),
        None => if cues.len() > 0 && cues[0].positions.len() > 0 {
            Some(cues[0].positions[0].cluster_position)
        } else {
            None
        },
    }
}

/// The pick of the first cue point whose time is at least `target`.
pub open spec fn spec_cue_at_or_after(cues: Seq<CuePointView>, track: u64, target: u64) -> Option<u64>
    decreases cues.len(),
{
    if cues.len() == 0 {
        None
    } else if cues[0].time < target {
        spec_cue_at_or_after(cues.drop_first(), track, target)
    } else {
        pick(cues[0].positions, track)
    }
}

fn find_pick(ps: &Vec<CueTrackPosition>, track: u64) -> (r: Option<u64>)
    ensures
        r == pick(ps@, track),
{
    let mut i: usize = 0;
    proof {
        assert(ps@.skip(0) =~= ps@);
    }
    while i < ps.len()
        invariant
            i <= ps@.len(),
            find_track(ps@, track) == find_track(ps@.skip(i as int), track),
        decreases ps@.len() - i,
    {
        if ps[i].track == track {
            return Some(ps[i].cluster_position);
        }
        proof {
            assert(ps@.skip(i as int).drop_first() =~= ps@.skip(i + 1));
        }
        i += 1;
    }
    if ps.len() > 0 {
        Some(ps[0].cluster_position)
    } else {
        None
    }
}

proof fn lemma_leading_step(cues: Seq<CuePointView>, i: int, target: u64)
    requires
        0 <= i < cues.len(),
        leading_not_after(cues, target) >= i,
        i <= leading_not_after(cues, target) ==> leading_not_after(cues, target) == i
            + leading_not_after(cues.skip(i), target),
    ensures
        cues[i].time > target ==> leading_not_after(cues, target) == i,
        cues[i].time <= target ==> leading_not_after(cues, target) >= i + 1
            && leading_not_after(cues, target) == i + 1 + leading_not_after(cues.skip(i + 1), target),
{
    assert(cues.skip(i).drop_first() =~= cues.skip(i + 1));
    assert(cues.skip(i)[0] == cues[i]);
}

/// Find the cue whose time is the greatest `<= target_time` (raw TimestampScale
/// units), returning its cluster position for `track` (relative to Segment content
/// start). Falls back to the first cue's position when the target precedes all cues.
pub fn cue_cluster_for_time(cues: &[CuePoint], track: u64, target_time: u64) -> (r: Option<u64>)
    ensures
        r == spec_cue_for_time(cue_views(cues@), track, target_time),
{
    let ghost v = cue_views(cues@);
    let mut chosen: Option<u64> = None;
    let mut i: usize = 0;
    proof {
        assert(v.skip(0) =~= v);
    }
    while i < cues.len()
        invariant
            i <= cues@.len(),
            v == cue_views(cues@),
            leading_not_after(v, target_time) >= i,
            leading_not_after(v, target_time) == i + leading_not_after(v.skip(i as int), target_time),
            chosen == last_pick(v.take(i as int), track),
        ensures
            i <= cues@.len(),
            chosen == last_pick(v.take(i as int), track),
            leading_not_after(v, target_time) == i,
        decreases cues@.len() - i,
    {
        let point = &cues[i];
        proof {
            lemma_leading_step(v, i as int, target_time);
        }
        if point.time > target_time {
            break;
        }
        let p = find_pick(&point.positions, track);
        proof {
            assert(v.take(i + 1).drop_last() =~= v.take(i as int));
        }
        if p.is_some() {
            chosen = p;
        }
        i += 1;
        proof {
            if i == cues@.len() {
                assert(v.skip(i as int).len() == 0);
            }
        }
    }
    match chosen {
        Some(x) => Some(x),
        None => {
            if cues.len() > 0 && cues[0].positions.len() > 0 {
                Some(cues[0].positions[0].cluster_position)
            } else {
                None
            }
        },
    }
}

/// Cluster position of the first cue whose time is `>= target_time`, i.e. the start
/// of the next segment boundary (an exclusive end offset when collecting a time
/// range). `None` when the target is beyond all cues.
pub fn cue_cluster_at_or_after(cues: &[CuePoint], track: u64, target_time: u64) -> (r: Option<u64>)
    ensures
        r == spec_cue_at_or_after(cue_views(cues@), track, target_time),
{
    let ghost v = cue_views(cues@);
    let mut i: usize = 0;
    proof {
        assert(v.skip(0) =~= v);
    }
    while i < cues.len()
        invariant
            i <= cues@.len(),
            v == cue_views(cues@),
            spec_cue_at_or_after(v, track, target_time) == spec_cue_at_or_after(
                v.skip(i as int),
                track,
                target_time,
            ),
        decreases cues@.len() - i,
    {
        proof {
            assert(v.skip(i as int).drop_first() =~= v.skip(i + 1));
            assert(v.skip(i as int)[0] == v[i as int]);
        }
        if cues[i].time >= target_time {
            return find_pick(&cues[i].positions, track);
        }
        i += 1;
    }
    None
}

/// Big-endian fold of the first (at most) 8 bytes (used for `SeekID`, which stores
/// the full EBML element ID including its length-descriptor bits).
fn bytes_to_u64(bytes: &[u8]) -> (r: u64)
    ensures
        r == be_value(bytes@.take(if bytes@.len() < 8 { bytes@.len() as int } else { 8 })),
{
    let n: usize = if bytes.len() < 8 { bytes.len() } else { 8 };
    let head = crate::bytes::slice_to_vec(bytes, 0, n);
    proof {
        assert(head@ =~= bytes@.take(n as int));
    }
    fold_be(head.as_slice())
}


// ----------------------------------------------------------------------------
// SeekHead
// ----------------------------------------------------------------------------

/// The `SeekID` of a binary payload: the big-endian value of its first (at most)
/// eight bytes.
pub open spec fn seek_id_value(bytes: Seq<u8>) -> u64 {
    be_value(bytes.take(if bytes.len() < 8 { bytes.len() as int } else { 8 })) as u64
}

/// The `(SeekID, SeekPosition)` of a `Seek` element's fields from `cur` on, each the
/// last one seen, starting from `acc`.
pub open spec fn seek_fields<S: EbmlSource>(
    e: &Ebml<S>,
    cur: u64,
    end: Option<u64>,
    acc: (Option<u64>, Option<u64>),
) -> (Option<u64>, Option<u64>)
    decreases u64::MAX - cur,
{
    let (v, c) = spec_next(e, cur, end);
    match v {
        None => acc,
        Some(el) => if c > cur {
            let acc2 = match el.payload {
                PayloadView::Binary(s, t) => if el.id == ID_SEEKID {
                    (Some(seek_id_value(e.source.spec_read(s, t))), acc.1)
                } else {
                    acc
                },
                PayloadView::UnsignedInt(x) => if el.id == ID_SEEKPOSITION {
                    (acc.0, Some(x))
                } else {
                    acc
                },
                _ => acc,
            };
            seek_fields(e, c, end, acc2)
        } else {
            acc
        },
    }
}

/// Walking a `Seek` element's fields returns normally and makes progress.
pub open spec fn seek_fields_ok<S: EbmlSource>(e: &Ebml<S>, cur: u64, end: Option<u64>) -> bool
    decreases u64::MAX - cur,
{
    let (v, c) = spec_next(e, cur, end);
    &&& next_ok(e, cur, end)
    &&& match v {
        None => true,
        Some(el) => c > cur && seek_fields_ok(e, c, end) && match el.payload {
            PayloadView::Binary(s, t) => el.id == ID_SEEKID ==> e.source.read_ok(s, t),
            _ => true,
        },
    }
}

/// The entries of a `SeekHead` from `cur` on: each `Seek` master with both a
/// `SeekID` and a `SeekPosition`.
pub open spec fn seek_entries<S: EbmlSource>(e: &Ebml<S>, cur: u64, end: Option<u64>) -> Seq<SeekEntry>
    decreases u64::MAX - cur,
{
    let (v, c) = spec_next(e, cur, end);
    match v {
        None => Seq::empty(),
        Some(el) => if c > cur {
            let rest = seek_entries(e, c, end);
            match el.payload {
                PayloadView::Master(s, t) => if el.id == ID_SEEK {
                    let f = seek_fields(e, s, Some(t), (None, None));
                    if f.0 is Some && f.1 is Some {
                        seq![SeekEntry { seek_id: f.0->0, position: f.1->0 }] + rest
                    } else {
                        rest
                    }
                } else {
                    rest
                },
                _ => rest,
            }
        } else {
            Seq::empty()
        },
    }
}

/// Walking a `SeekHead` (and each `Seek` in it) returns normally and makes progress.
pub open spec fn seek_head_ok<S: EbmlSource>(e: &Ebml<S>, cur: u64, end: Option<u64>) -> bool
    decreases u64::MAX - cur,
{
    let (v, c) = spec_next(e, cur, end);
    &&& next_ok(e, cur, end)
    &&& match v {
        None => true,
        Some(el) => c > cur && seek_head_ok(e, c, end) && match el.payload {
            PayloadView::Master(s, t) => el.id == ID_SEEK ==> seek_fields_ok(e, s, Some(t)),
            _ => true,
        },
    }
}

/// Parse a `SeekHead` master iterator into its entries.
pub fn parse_seek_head<S: EbmlSource>(seek_head: EbmlIterator<'_, S>) -> (r: Vec<SeekEntry>)
    requires
        seek_head_ok(seek_head.ebml, seek_head.current, seek_head.end),
    ensures
        r@ == seek_entries(seek_head.ebml, seek_head.current, seek_head.end),
{
    let mut seek_head = seek_head;
    let ghost e = seek_head.ebml;
    let ghost end = seek_head.end;
    let ghost start = seek_head.current;
    let mut entries: Vec<SeekEntry> = Vec::new();
    loop
        invariant_except_break
            seek_head_ok(e, seek_head.current, end),
            entries@ + seek_entries(e, seek_head.current, end) == seek_entries(e, start, end),
        invariant
            seek_head.ebml == e,
            seek_head.end == end,
        ensures
            entries@ == seek_entries(e, start, end),
        decreases u64::MAX - seek_head.current,
    {
        let ghost cur = seek_head.current;
        let el = match seek_head.next() {
            Some(el) => el,
            None => {
                proof {
                    assert(entries@ =~= entries@ + Seq::<SeekEntry>::empty());
                }
                break;
            },
        };
        let ghost rest = seek_entries(e, seek_head.current, end);
        if el.id != ID_SEEK {
            continue;
        }
        let mut seek = match el.payload {
            EbmlPayload::Master(it) => it,
            _ => {
                continue;
            },
        };
        let (seek_id, position) = read_seek_fields(seek);
        if seek_id.is_some() && position.is_some() {
            let entry = SeekEntry { seek_id: seek_id.unwrap(), position: position.unwrap() };
            proof {
                assert(entries@.push(entry) + rest =~= entries@ + (seq![entry] + rest));
            }
            entries.push(entry);
        }
    }
    entries
}

/// The `(SeekID, SeekPosition)` of one `Seek` element.
fn read_seek_fields<S: EbmlSource>(seek: EbmlIterator<'_, S>) -> (r: (Option<u64>, Option<u64>))
    requires
        seek_fields_ok(seek.ebml, seek.current, seek.end),
    ensures
        r == seek_fields(seek.ebml, seek.current, seek.end, (None, None)),
{
    let mut seek = seek;
    let ghost e = seek.ebml;
    let ghost end = seek.end;
    let ghost start = seek.current;
    let mut seek_id: Option<u64> = None;
    let mut position: Option<u64> = None;
    loop
        invariant_except_break
            seek_fields_ok(e, seek.current, end),
            seek_fields(e, seek.current, end, (seek_id, position)) == seek_fields(
                e,
                start,
                end,
                (None, None),
            ),
        invariant
            seek.ebml == e,
            seek.end == end,
        ensures
            (seek_id, position) == seek_fields(e, start, end, (None, None)),
        decreases u64::MAX - seek.current,
    {
        let field = match seek.next() {
            Some(f) => f,
            None => break,
        };
        match field.payload {
            EbmlPayload::Binary((start, end)) => {
                if field.id == ID_SEEKID {
                    let bytes = seek.read_range(start, end);
                    seek_id = Some(bytes_to_u64(bytes.as_slice()));
                }
            },
            EbmlPayload::UnsignedInt(v) => {
                if field.id == ID_SEEKPOSITION {
                    position = Some(v);
                }
            },
            _ => {},
        }
    }
    (seek_id, position)
}


// ----------------------------------------------------------------------------
// Cues
// ----------------------------------------------------------------------------

/// `(CueTrack, CueClusterPosition, CueRelativePosition)` of a `CueTrackPositions`
/// element's fields from `cur` on, each the last one seen, starting from `acc`.
pub open spec fn ctp_fields<S: EbmlSource>(
    e: &Ebml<S>,
    cur: u64,
    end: Option<u64>,
    acc: (Option<u64>, Option<u64>, Option<u64>),
) -> (Option<u64>, Option<u64>, Option<u64>)
    decreases u64::MAX - cur,
{
    let (v, c) = spec_next(e, cur, end);
    match v {
        None => acc,
        Some(el) => if c > cur {
            let acc2 = match el.payload {
                PayloadView::UnsignedInt(x) => if el.id == ID_CUETRACK {
                    (Some(x), acc.1, acc.2)
                } else if el.id == ID_CUECLUSTERPOSITION {
                    (acc.0, Some(x), acc.2)
                } else if el.id == ID_CUERELATIVEPOSITION {
                    (acc.0, acc.1, Some(x))
                } else {
                    acc
                },
                _ => acc,
            };
            ctp_fields(e, c, end, acc2)
        } else {
            acc
        },
    }
}

/// Walking an element's fields returns normally and makes progress.
pub open spec fn fields_ok<S: EbmlSource>(e: &Ebml<S>, cur: u64, end: Option<u64>) -> bool
    decreases u64::MAX - cur,
{
    let (v, c) = spec_next(e, cur, end);
    &&& next_ok(e, cur, end)
    &&& match v {
        None => true,
        Some(el) => c > cur && fields_ok(e, c, end),
    }
}

/// A cue track position needs both a track and a cluster position.
pub open spec fn spec_ctp<S: EbmlSource>(e: &Ebml<S>, s: u64, t: u64) -> Option<CueTrackPosition> {
    let f = ctp_fields(e, s, Some(t), (None, None, None));
    if f.0 is Some && f.1 is Some {
        Some(CueTrackPosition { track: f.0->0, cluster_position: f.1->0, relative_position: f.2 })
    } else {
        None
    }
}

/// `(CueTime, positions)` of a `CuePoint` element's fields from `cur` on.
pub open spec fn cue_point_fields<S: EbmlSource>(
    e: &Ebml<S>,
    cur: u64,
    end: Option<u64>,
    acc: (Option<u64>, Seq<CueTrackPosition>),
) -> (Option<u64>, Seq<CueTrackPosition>)
    decreases u64::MAX - cur,
{
    let (v, c) = spec_next(e, cur, end);
    match v {
        None => acc,
        Some(el) => if c > cur {
            let acc2 = match el.payload {
                PayloadView::UnsignedInt(x) => if el.id == ID_CUETIME {
                    (Some(x), acc.1)
                } else {
                    acc
                },
                PayloadView::Master(s, t) => if el.id == ID_CUETRACKPOSITIONS {
                    match spec_ctp(e, s, t) {
                        Some(p) => (acc.0, acc.1.push(p)),
                        None => acc,
                    }
                } else {
                    acc
                },
                _ => acc,
            };
            cue_point_fields(e, c, end, acc2)
        } else {
            acc
        },
    }
}

pub open spec fn cue_point_ok<S: EbmlSource>(e: &Ebml<S>, cur: u64, end: Option<u64>) -> bool
    decreases u64::MAX - cur,
{
    let (v, c) = spec_next(e, cur, end);
    &&& next_ok(e, cur, end)
    &&& match v {
        None => true,
        Some(el) => c > cur && cue_point_ok(e, c, end) && match el.payload {
            PayloadView::Master(s, t) => el.id == ID_CUETRACKPOSITIONS ==> fields_ok(e, s, Some(t)),
            _ => true,
        },
    }
}

/// The cue points of a `Cues` element from `cur` on, in stored order: each
/// `CuePoint` master that has a `CueTime`.
pub open spec fn stored_cue_points<S: EbmlSource>(e: &Ebml<S>, cur: u64, end: Option<u64>) -> Seq<
    CuePointView,
>
    decreases u64::MAX - cur,
{
    let (v, c) = spec_next(e, cur, end);
    match v {
        None => Seq::empty(),
        Some(el) => if c > cur {
            let rest = stored_cue_points(e, c, end);
            match el.payload {
                PayloadView::Master(s, t) => if el.id == ID_CUEPOINT {
                    let f = cue_point_fields(e, s, Some(t), (None, Seq::empty()));
                    if f.0 is Some {
                        seq![CuePointView { time: f.0->0, positions: f.1 }] + rest
                    } else {
                        rest
                    }
                } else {
                    rest
                },
                _ => rest,
            }
        } else {
            Seq::empty()
        },
    }
}

pub open spec fn cues_ok<S: EbmlSource>(e: &Ebml<S>, cur: u64, end: Option<u64>) -> bool
    decreases u64::MAX - cur,
{
    let (v, c) = spec_next(e, cur, end);
    &&& next_ok(e, cur, end)
    &&& match v {
        None => true,
        Some(el) => c > cur && cues_ok(e, c, end) && match el.payload {
            PayloadView::Master(s, t) => el.id == ID_CUEPOINT ==> cue_point_ok(e, s, Some(t)),
            _ => true,
        },
    }
}

/// `x` inserted after every leading point whose time is not after its own.
pub open spec fn insert_by_time(s: Seq<CuePointView>, x: CuePointView) -> Seq<CuePointView> {
    s.insert(leading_not_after(s, x.time) as int, x)
}

/// Stable sort by time (equal times keep their stored order).
pub open spec fn sort_by_time(s: Seq<CuePointView>) -> Seq<CuePointView>
    decreases s.len(),
{
    if s.len() == 0 {
        s
    } else {
        insert_by_time(sort_by_time(s.drop_last()), s.last())
    }
}

/// The cue points of a `Cues` element, ordered by time.
pub open spec fn spec_cues<S: EbmlSource>(e: &Ebml<S>, cur: u64, end: Option<u64>) -> Seq<CuePointView> {
    sort_by_time(stored_cue_points(e, cur, end))
}

fn parse_cue_track_positions<S: EbmlSource>(ctp: EbmlIterator<'_, S>) -> (r: Option<CueTrackPosition>)
    requires
        fields_ok(ctp.ebml, ctp.current, ctp.end),
        ctp.end is Some,
    ensures
        r == spec_ctp(ctp.ebml, ctp.current, ctp.end->0),
{
    let mut ctp = ctp;
    let ghost e = ctp.ebml;
    let ghost end = ctp.end;
    let ghost start = ctp.current;
    let mut track: Option<u64> = None;
    let mut cluster_position: Option<u64> = None;
    let mut relative_position: Option<u64> = None;
    loop
        invariant_except_break
            fields_ok(e, ctp.current, end),
            ctp_fields(e, ctp.current, end, (track, cluster_position, relative_position))
                == ctp_fields(e, start, end, (None, None, None)),
        invariant
            ctp.ebml == e,
            ctp.end == end,
        ensures
            (track, cluster_position, relative_position) == ctp_fields(
                e,
                start,
                end,
                (None, None, None),
            ),
        decreases u64::MAX - ctp.current,
    {
        let field = match ctp.next() {
            Some(f) => f,
            None => break,
        };
        if let EbmlPayload::UnsignedInt(v) = field.payload {
            if field.id == ID_CUETRACK {
                track = Some(v);
            } else if field.id == ID_CUECLUSTERPOSITION {
                cluster_position = Some(v);
            } else if field.id == ID_CUERELATIVEPOSITION {
                relative_position = Some(v);
            }
        }
    }
    match (track, cluster_position) {
        (Some(track), Some(cluster_position)) => Some(
            CueTrackPosition { track, cluster_position, relative_position },
        ),
        _ => None,
    }
}

/// The `(CueTime, positions)` of one `CuePoint` element.
fn read_cue_point<S: EbmlSource>(point: EbmlIterator<'_, S>) -> (r: (Option<u64>, Vec<CueTrackPosition>))
    requires
        cue_point_ok(point.ebml, point.current, point.end),
    ensures
        (r.0, r.1@) == cue_point_fields(point.ebml, point.current, point.end, (None, Seq::empty())),
{
    let mut point = point;
    let ghost e = point.ebml;
    let ghost end = point.end;
    let ghost start = point.current;
    let mut time: Option<u64> = None;
    let mut positions: Vec<CueTrackPosition> = Vec::new();
    loop
        invariant_except_break
            cue_point_ok(e, point.current, end),
            cue_point_fields(e, point.current, end, (time, positions@)) == cue_point_fields(
                e,
                start,
                end,
                (None, Seq::empty()),
            ),
        invariant
            point.ebml == e,
            point.end == end,
        ensures
            (time, positions@) == cue_point_fields(e, start, end, (None, Seq::empty())),
        decreases u64::MAX - point.current,
    {
        let field = match point.next() {
            Some(f) => f,
            None => break,
        };
        match field.payload {
            EbmlPayload::UnsignedInt(v) => {
                if field.id == ID_CUETIME {
                    time = Some(v);
                }
            },
            EbmlPayload::Master(ctp) => {
                if field.id == ID_CUETRACKPOSITIONS {
                    if let Some(pos) = parse_cue_track_positions(ctp) {
                        positions.push(pos);
                    }
                }
            },
            _ => {},
        }
    }
    (time, positions)
}

/// Parse a `Cues` master iterator into a time-ordered list of cue points (cue
/// points with equal times keep their stored order).
pub fn parse_cues<S: EbmlSource>(cues: EbmlIterator<'_, S>) -> (r: Vec<CuePoint>)
    requires
        cues_ok(cues.ebml, cues.current, cues.end),
    ensures
        cue_views(r@) == spec_cues(cues.ebml, cues.current, cues.end),
{
    let mut cues = cues;
    let ghost e = cues.ebml;
    let ghost end = cues.end;
    let ghost start = cues.current;
    let mut points: Vec<CuePoint> = Vec::new();
    loop
        invariant_except_break
            cues_ok(e, cues.current, end),
            cue_views(points@) + stored_cue_points(e, cues.current, end) == stored_cue_points(
                e,
                start,
                end,
            ),
        invariant
            cues.ebml == e,
            cues.end == end,
        ensures
            cue_views(points@) == stored_cue_points(e, start, end),
        decreases u64::MAX - cues.current,
    {
        let el = match cues.next() {
            Some(el) => el,
            None => {
                proof {
                    assert(cue_views(points@) =~= cue_views(points@) + Seq::<CuePointView>::empty());
                }
                break;
            },
        };
        let ghost rest = stored_cue_points(e, cues.current, end);
        if el.id != ID_CUEPOINT {
            continue;
        }
        let point = match el.payload {
            EbmlPayload::Master(it) => it,
            _ => {
                continue;
            },
        };
        let (time, positions) = read_cue_point(point);
        if let Some(time) = time {
            let cp = CuePoint { time, positions };
            proof {
                assert(cue_views(points@.push(cp)) =~= cue_views(points@).push(cp.view()));
                assert(cue_views(points@).push(cp.view()) + rest =~= cue_views(points@) + (seq![
                    cp.view(),
                ] + rest));
            }
            points.push(cp);
        }
    }
    sort_points_by_time(points)
}

/// Stable insertion sort of cue points by time.
fn sort_points_by_time(points: Vec<CuePoint>) -> (r: Vec<CuePoint>)
    ensures
        cue_views(r@) == sort_by_time(cue_views(points@)),
{
    let ghost all = cue_views(points@);
    let n = points.len();
    let mut rest = points;
    let mut sorted: Vec<CuePoint> = Vec::new();
    let mut i: usize = 0;
    proof {
        assert(all.skip(0) =~= all);
        assert(all.take(0) =~= Seq::<CuePointView>::empty());
    }
    while rest.len() > 0
        invariant
            i + rest@.len() == n,
            all.len() == n,
            cue_views(rest@) == all.skip(i as int),
            cue_views(sorted@) == sort_by_time(all.take(i as int)),
        decreases rest@.len(),
    {
        let ghost old_rest = rest@;
        let x = rest.remove(0);
        let ghost xv = x.view();
        proof {
            assert(cue_views(old_rest)[0] == xv);
            assert(all.skip(i as int)[0] == xv);
            assert(all.take(i + 1) =~= all.take(i as int).push(xv));
            assert(all.take(i + 1).drop_last() =~= all.take(i as int));
            assert(rest@ =~= old_rest.drop_first());
            assert(cue_views(rest@) =~= cue_views(old_rest).drop_first());
            assert(all.skip(i as int).drop_first() =~= all.skip(i + 1));
        }
        let p = count_not_after(&sorted, x.time);
        let ghost before = sorted@;
        sorted.insert(p, x);
        proof {
            assert(cue_views(sorted@) =~= cue_views(before).insert(p as int, xv));
        }
        i += 1;
    }
    proof {
        assert(all.take(n as int) =~= all);
    }
    sorted
}

/// How many points from the front have a time not after `t`.
fn count_not_after(v: &Vec<CuePoint>, t: u64) -> (p: usize)
    ensures
        p == leading_not_after(cue_views(v@), t),
        p <= v@.len(),
{
    let ghost vs = cue_views(v@);
    let mut p: usize = 0;
    proof {
        assert(vs.skip(0) =~= vs);
    }
    while p < v.len() && v[p].time <= t
        invariant
            p <= v@.len(),
            vs == cue_views(v@),
            leading_not_after(vs, t) == p + leading_not_after(vs.skip(p as int), t),
        decreases v@.len() - p,
    {
        proof {
            assert(vs.skip(p as int).drop_first() =~= vs.skip(p + 1));
            assert(vs.skip(p as int)[0] == vs[p as int]);
        }
        p += 1;
    }
    proof {
        if p < v@.len() {
            assert(vs.skip(p as int)[0] == vs[p as int]);
        } else {
            assert(vs.skip(p as int).len() == 0);
        }
    }
    p
}


/// Cue points in non-decreasing time order.
pub open spec fn time_sorted(s: Seq<CuePointView>) -> bool {
    forall|i: int, j: int| 0 <= i < j < s.len() ==> #[trigger] s[i].time <= #[trigger] s[j].time
}

proof fn lemma_leading(s: Seq<CuePointView>, t: u64)
    ensures
        leading_not_after(s, t) <= s.len(),
        forall|k: int| 0 <= k < leading_not_after(s, t) ==> #[trigger] s[k].time <= t,
        leading_not_after(s, t) < s.len() ==> s[leading_not_after(s, t) as int].time > t,
    decreases s.len(),
{
    if s.len() > 0 && s[0].time <= t {
        lemma_leading(s.drop_first(), t);
        assert forall|k: int| 0 <= k < leading_not_after(s, t) implies #[trigger] s[k].time <= t by {
            if k > 0 {
                assert(s[k] == s.drop_first()[k - 1]);
            }
        }
    }
}

/// The cue list `parse_cues` returns is ordered by time and holds exactly the stored
/// cue points (as many of each).
pub proof fn lemma_sort_by_time(s: Seq<CuePointView>)
    ensures
        time_sorted(sort_by_time(s)),
        sort_by_time(s).to_multiset() == s.to_multiset(),
        sort_by_time(s).len() == s.len(),
    decreases s.len(),
{
    broadcast use vstd::seq_lib::group_to_multiset_ensures;

    if s.len() > 0 {
        let front = s.drop_last();
        let x = s.last();
        lemma_sort_by_time(front);
        let sorted = sort_by_time(front);
        lemma_leading(sorted, x.time);
        let p = leading_not_after(sorted, x.time) as int;
        let r = sorted.insert(p, x);
        assert(r == sort_by_time(s));
        assert forall|i: int, j: int| 0 <= i < j < r.len() implies #[trigger] r[i].time
            <= #[trigger] r[j].time by {
            if j < p {
                assert(r[i] == sorted[i] && r[j] == sorted[j]);
            } else if j == p {
                assert(r[i] == sorted[i]);
            } else if i < p {
                assert(r[i] == sorted[i] && r[j] == sorted[j - 1]);
                assert(sorted[p].time > x.time);
                if j - 1 > p {
                    assert(sorted[p].time <= sorted[j - 1].time);
                }
            } else if i == p {
                assert(r[j] == sorted[j - 1]);
                if j - 1 > p {
                    assert(sorted[p].time <= sorted[j - 1].time);
                }
            } else {
                assert(r[i] == sorted[i - 1] && r[j] == sorted[j - 1]);
            }
        }
        let a = sorted.subrange(0, p);
        let b = sorted.subrange(p, sorted.len() as int);
        assert(sorted =~= a + b);
        assert(r =~= a.push(x) + b);
        vstd::seq_lib::lemma_multiset_commutative(a, b);
        vstd::seq_lib::lemma_multiset_commutative(a.push(x), b);
        assert(s =~= front.push(x));
        assert(r.to_multiset() =~= s.to_multiset());
    }
}


/// On time-ordered cues that each name at least one position, the cluster chosen
/// for a target time is that of the last cue not after it; a target before every
/// cue falls back to the first cue's first position.
pub proof fn lemma_cue_for_time_greatest(cues: Seq<CuePointView>, track: u64, target: u64, k: int)
    requires
        time_sorted(cues),
        forall|i: int| 0 <= i < cues.len() ==> (#[trigger] cues[i]).positions.len() > 0,
        0 <= k < cues.len(),
    ensures
        cues[k].time <= target && (k + 1 == cues.len() || cues[k + 1].time > target)
            ==> spec_cue_for_time(cues, track, target) == pick(cues[k].positions, track),
        cues[0].time > target ==> spec_cue_for_time(cues, track, target) == Some(
            cues[0].positions[0].cluster_position,
        ),
{
    lemma_leading(cues, target);
    let l = leading_not_after(cues, target) as int;
    if cues[k].time <= target && (k + 1 == cues.len() || cues[k + 1].time > target) {
        if l <= k {
            assert(cues[l].time <= cues[k].time);
        }
        if l > k + 1 {
            assert(cues[k + 1].time <= target);
        }
        assert(l == k + 1);
        let pre = cues.take(l);
        assert(pre.last() == cues[k]);
        assert(cues[k].positions.len() > 0);
    }
    if cues[0].time > target {
        assert(l == 0);
        assert(cues.take(0) =~= Seq::<CuePointView>::empty());
    }
}

} // verus!
