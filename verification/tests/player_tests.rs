use std::collections::HashMap;
use matroska_remux::ebml::{Ebml, EbmlIterator, MemSource};
use matroska_remux::ids::{
    EbmlType, ID_BLOCK, ID_BLOCKDURATION, ID_BLOCKGROUP, ID_CLUSTER, ID_CUES, ID_DURATION, ID_INFO, ID_REFERENCEBLOCK,
    ID_SEEKHEAD, ID_SEGMENT, ID_SIMPLEBLOCK, ID_TIMESTAMP, ID_TIMESTAMPSCALE, ID_TRACKS, ID_VOID,
};
use matroska_remux::index::{CuePoint, CueTrackPosition, SeekEntry};
use matroska_remux::mkv_write::{elem, elem_uint};
use matroska_remux::player::{
    cluster_timestamp, collect_cluster_frames, flac_block_size, json_escape, keep_collecting,
    samples_per_frame, walk_cluster_subtitles, Demuxer, ScanProgress, SeekTarget, SegmentChild,
};
use matroska_remux::remux::{SubtitleCue, TimedFrame};
use matroska_remux::track::{TrackData, TrackType};

fn uint(id: u64, v: u64) -> Vec<u8> {
    let mut b = Vec::new();
    elem_uint(&mut b, id, v);
    b
}

fn el(id: u64, payload: &[u8]) -> Vec<u8> {
    let mut b = Vec::new();
    elem(&mut b, id, payload);
    b
}

/// A block body: track 1 or 2 as a one-byte vint, a 16-bit timecode, flags, data.
fn block(track: u8, rel: i16, flags: u8, data: &[u8]) -> Vec<u8> {
    let mut b = vec![0x80 | track];
    b.extend_from_slice(&rel.to_be_bytes());
    b.push(flags);
    b.extend_from_slice(data);
    b
}

fn cluster_types() -> HashMap<u64, EbmlType> {
    [
        (ID_TIMESTAMP, EbmlType::UnsignedInteger),
        (ID_SIMPLEBLOCK, EbmlType::Binary),
        (ID_BLOCKGROUP, EbmlType::Master),
        (ID_BLOCK, EbmlType::Binary),
        (ID_BLOCKDURATION, EbmlType::UnsignedInteger),
        (ID_REFERENCEBLOCK, EbmlType::SignedInteger),
        (ID_VOID, EbmlType::Void),
    ]
    .into_iter()
    .collect()
}

fn sample_cluster() -> Vec<u8> {
    [
        uint(ID_TIMESTAMP, 1000),
        el(ID_SIMPLEBLOCK, &block(1, 0, 0x80, b"key")),
        el(ID_SIMPLEBLOCK, &block(2, 5, 0x80, b"other")),
        el(ID_BLOCKGROUP, &[el(ID_BLOCK, &block(1, 40, 0, b"delta")), uint(ID_BLOCKDURATION, 20), el(ID_REFERENCEBLOCK, &[0xD8])].concat()),
        el(ID_BLOCKGROUP, &[el(ID_BLOCK, &block(1, 80, 0, b"group"))].concat()),
        el(ID_SIMPLEBLOCK, &block(1, -10, 0x80, b"early")),
    ]
    .concat()
}

#[test]
fn cluster_frames_carry_absolute_times() {
    let doc = sample_cluster();
    let len = doc.len() as u64;
    let ebml = Ebml::new(MemSource::new(doc, 0), cluster_types());
    let mut out: Vec<TimedFrame> = Vec::new();
    collect_cluster_frames(EbmlIterator::new(0, len, &ebml), 1, &mut out);
    let got: Vec<(i64, Vec<u8>, bool)> =
        out.iter().map(|f| (f.pts_ticks, f.data.clone(), f.is_keyframe)).collect();
    assert_eq!(
        got,
        vec![
            (1000, b"key".to_vec(), true),
            (1040, b"delta".to_vec(), false),
            (1080, b"group".to_vec(), true),
            (990, b"early".to_vec(), true),
        ]
    );
}

#[test]
fn cluster_timestamp_reads_the_leading_children() {
    let doc = sample_cluster();
    let len = doc.len() as u64;
    let ebml = Ebml::new(MemSource::new(doc, 0), cluster_types());
    assert_eq!(cluster_timestamp(EbmlIterator::new(0, len, &ebml)), 1000);
    // a block before any timestamp means the cluster starts at 0
    let doc2 = [el(ID_SIMPLEBLOCK, &block(1, 0, 0x80, b"x")), uint(ID_TIMESTAMP, 7)].concat();
    let len2 = doc2.len() as u64;
    let ebml2 = Ebml::new(MemSource::new(doc2, 0), cluster_types());
    assert_eq!(cluster_timestamp(EbmlIterator::new(0, len2, &ebml2)), 0);
}

#[test]
fn subtitle_cues_take_block_durations() {
    let doc = [
        uint(ID_TIMESTAMP, 61000),
        el(ID_BLOCKGROUP, &[el(ID_BLOCK, &block(3, 500, 0, b"Hello")), uint(ID_BLOCKDURATION, 3500)].concat()),
        el(ID_SIMPLEBLOCK, &block(3, 9000, 0x80, b"Bye")),
        el(ID_SIMPLEBLOCK, &block(1, 0, 0x80, b"video")),
    ]
    .concat();
    let len = doc.len() as u64;
    let ebml = Ebml::new(MemSource::new(doc, 0), cluster_types());
    let mut cues: Vec<SubtitleCue> = Vec::new();
    walk_cluster_subtitles(EbmlIterator::new(0, len, &ebml), 3, 1_000_000, &mut cues);
    let got: Vec<(u64, u64, String)> = cues.iter().map(|c| (c.start_ms, c.end_ms, c.text.clone())).collect();
    assert_eq!(
        got,
        vec![(61500, 65000, "Hello".to_string()), (70000, 74000, "Bye".to_string())]
    );
}

#[test]
fn samples_per_frame_by_codec() {
    assert_eq!(samples_per_frame(Some("A_OPUS"), None), 960);
    assert_eq!(samples_per_frame(Some("A_AC3"), None), 1536);
    assert_eq!(samples_per_frame(Some("A_EAC3"), None), 1536);
    assert_eq!(samples_per_frame(Some("A_MPEG/L3"), None), 1152);
    assert_eq!(samples_per_frame(Some("A_AAC"), None), 1024);
    assert_eq!(samples_per_frame(None, None), 1024);
    assert_eq!(samples_per_frame(Some("A_FLAC"), None), 4096);
    let streaminfo = [b'f', b'L', b'a', b'C', 0, 0, 0, 34, 0x10, 0x00, 0x12, 0x00];
    assert_eq!(samples_per_frame(Some("A_FLAC"), Some(&streaminfo)), 0x1200);
}

#[test]
fn flac_block_size_with_and_without_marker() {
    assert_eq!(flac_block_size(None), None);
    assert_eq!(flac_block_size(Some(&[0, 0, 0, 34, 0x10, 0x00, 0x10, 0x00])), Some(4096));
    assert_eq!(flac_block_size(Some(&[0x10, 0x00, 0x10, 0x00])), None);
    assert_eq!(flac_block_size(Some(&[b'f', b'L', b'a', b'C', 0, 0, 0, 34, 0, 0, 0x04, 0x80])), Some(1152));
    assert_eq!(flac_block_size(Some(&[0, 0, 0, 0])), None);
    assert_eq!(flac_block_size(Some(&[1, 2, 3])), None);
}

#[test]
fn json_escape_quotes_controls() {
    assert_eq!(json_escape("plain"), "plain");
    assert_eq!(json_escape("a\"b\\c"), "a\\\"b\\\\c");
    assert_eq!(json_escape("l1\nl2\r\t"), "l1\\nl2\\r\\t");
    assert_eq!(json_escape("\u{1}\u{1f}"), "\\u0001\\u001f");
    assert_eq!(json_escape("é"), "é");
}

fn track(number: u64, kind: TrackType, codec: &str) -> TrackData {
    TrackData {
        track_number: Some(number),
        track_type: Some(kind),
        codec_id: Some(codec.to_string()),
        ..TrackData::default()
    }
}

#[test]
fn tracks_json_lists_every_track() {
    let mut d = Demuxer::new();
    let mut v = track(1, TrackType::Video, "V_MPEG4/ISO/AVC");
    v.codec_private = Some(vec![1, 0x64, 0, 0x28]);
    v.flag_default = true;
    let mut s = track(3, TrackType::Subtitle, "S_TEXT/UTF8");
    s.codec_name = Some("Signs \"A\"".to_string());
    s.language = Some("eng".to_string());
    d.tracks = vec![v, s];
    let json = d.tracks_json(&[0, 0]);
    assert_eq!(
        json,
        "[{\"number\":1,\"type\":\"video\",\"codec_id\":\"V_MPEG4/ISO/AVC\",\"codec_string\":\"avc1.640028\",\"mime\":\"video/mp4; codecs=\\\"avc1.640028\\\"\",\"language\":\"eng\",\"name\":\"\",\"default\":true,\"forced\":false},\
{\"number\":3,\"type\":\"subtitle\",\"codec_id\":\"S_TEXT/UTF8\",\"codec_string\":\"\",\"mime\":\"\",\"language\":\"eng\",\"name\":\"Signs \\\"A\\\"\",\"default\":false,\"forced\":false}]"
    );
    assert_eq!(Demuxer::new().tracks_json(&[]), "[]");
}

fn pos(track: u64, p: u64) -> CueTrackPosition {
    CueTrackPosition { track, cluster_position: p, relative_position: None }
}

#[test]
fn cue_times_follow_the_video_track() {
    let mut d = Demuxer::new();
    d.tracks = vec![track(2, TrackType::Audio, "A_OPUS"), track(1, TrackType::Video, "V_VP9")];
    d.cues = vec![
        CuePoint { time: 0, positions: vec![pos(1, 10), pos(2, 10)] },
        CuePoint { time: 500, positions: vec![pos(2, 20)] },
        CuePoint { time: 1000, positions: vec![pos(1, 30)] },
        CuePoint { time: 1000, positions: vec![pos(1, 31)] },
        CuePoint { time: 2000, positions: vec![pos(1, 40)] },
    ];
    assert_eq!(d.cue_times_ms(), vec![0, 1000, 2000]);
    d.timestamp_scale_ns = 2_000_000;
    assert_eq!(d.cue_times_ms(), vec![0, 2000, 4000]);
    // without a video track every cue counts
    d.tracks = vec![track(2, TrackType::Audio, "A_OPUS")];
    d.timestamp_scale_ns = 1_000_000;
    assert_eq!(d.cue_times_ms(), vec![0, 500, 1000, 2000]);
    assert_eq!(d.cue_offset(2, 700), Some(20));
    assert_eq!(d.cue_offset(1, 1500), Some(31));
}

#[test]
fn info_gives_scale_and_duration() {
    let dur = 1234.5f64.to_be_bytes();
    let doc = [uint(ID_TIMESTAMPSCALE, 500_000), el(ID_DURATION, &dur)].concat();
    let len = doc.len() as u64;
    let map: HashMap<u64, EbmlType> =
        [(ID_TIMESTAMPSCALE, EbmlType::UnsignedInteger), (ID_DURATION, EbmlType::Float)].into_iter().collect();
    let ebml = Ebml::new(MemSource::new(doc, 0), map);
    let mut d = Demuxer::new();
    assert_eq!(d.timestamp_scale(), 1_000_000);
    d.parse_info(EbmlIterator::new(0, len, &ebml));
    assert_eq!(d.timestamp_scale(), 500_000);
    assert_eq!(d.duration, Some(dur.to_vec()));
    assert_eq!(d.end_ticks(3), 6);
}

#[test]
fn header_scan_decisions() {
    let mut d = Demuxer::new();
    assert!(Demuxer::is_segment(ID_SEGMENT));
    assert!(!Demuxer::is_segment(ID_CLUSTER));
    d.enter_segment(40, None);
    assert_eq!((d.segment_data_start, d.segment_end), (40, u64::MAX));
    d.enter_segment(40, Some(900));
    assert_eq!(d.segment_end, 900);
    assert_eq!(d.on_segment_child(ID_SEEKHEAD, 40), SegmentChild::SeekHead);
    assert_eq!(d.on_segment_child(ID_INFO, 90), SegmentChild::Info);
    assert_eq!(d.on_segment_child(ID_TRACKS, 120), SegmentChild::Tracks);
    assert_eq!(d.on_segment_child(ID_VOID, 300), SegmentChild::Skip);
    assert_eq!(d.first_cluster_offset, None);
    assert_eq!(d.on_segment_child(ID_CLUSTER, 400), SegmentChild::Cluster);
    assert_eq!(d.first_cluster_offset, Some(400));
    assert_eq!(d.on_segment_child(ID_CUES, 800), SegmentChild::Cues);

    let cues = SeekEntry { seek_id: ID_CUES, position: 700 };
    assert_eq!(d.seek_entry_target(&cues, true, false), Some((SeekTarget::Cues, 740)));
    assert_eq!(d.seek_entry_target(&cues, true, true), None);
    let tracks = SeekEntry { seek_id: ID_TRACKS, position: 80 };
    assert_eq!(d.seek_entry_target(&tracks, false, true), Some((SeekTarget::Tracks, 120)));
    let info = SeekEntry { seek_id: ID_INFO, position: 50 };
    assert_eq!(d.seek_entry_target(&info, true, true), Some((SeekTarget::Info, 90)));
    d.duration = Some(vec![0x80, 0, 0, 0]);
    assert_eq!(d.seek_entry_target(&info, true, true), Some((SeekTarget::Info, 90)));
    d.duration = Some(1.5f32.to_be_bytes().to_vec());
    assert_eq!(d.seek_entry_target(&info, true, true), None);
}

#[test]
fn collecting_stops_at_the_first_late_cluster() {
    assert!(keep_collecting(false, 5000, 1000));
    assert!(keep_collecting(true, 999, 1000));
    assert!(!keep_collecting(true, 1000, 1000));
}

#[test]
fn track_lookups_and_subtitle_start() {
    let mut d = Demuxer::new();
    d.tracks = vec![track(1, TrackType::Video, "V_VP9"), track(3, TrackType::Subtitle, "S_TEXT/UTF8")];
    d.first_cluster_offset = Some(4096);
    assert_eq!(d.track(3).unwrap().track_type, Some(TrackType::Subtitle));
    assert!(d.track(9).is_none());
    assert_eq!(d.subtitle_start(3), Some(4096));
    assert_eq!(d.subtitle_start(1), None);
    assert_eq!(d.subtitle_start(9), None);
}

#[test]
fn init_segment_uses_the_track_timescale() {
    let mut d = Demuxer::new();
    let mut a = track(2, TrackType::Audio, "A_AAC");
    a.codec_private = Some(vec![0x11, 0x90]);
    a.channels = Some(2);
    d.tracks = vec![track(1, TrackType::Video, "V_VP9"), a];
    assert_eq!(d.timescale_for(&d.tracks[0], 48000), 1000);
    assert_eq!(d.timescale_for(&d.tracks[1], 48000), 48000);
    let init = d.init_segment(2, 48000, 96000).unwrap();
    assert_eq!(&init[4..8], b"ftyp");
    let text = String::from_utf8_lossy(&init);
    assert!(text.contains("mp4a") && text.contains("esds") && text.contains("soun"));
    let v = d.init_segment(1, 48000, 5000).unwrap();
    assert!(String::from_utf8_lossy(&v).contains("vp09"));
    assert!(d.init_segment(7, 48000, 0).is_none());
    // a codec with no fMP4 mapping has no init segment
    d.tracks.push(track(4, TrackType::Audio, "A_DTS"));
    assert!(d.init_segment(4, 48000, 0).is_none());
}

#[test]
fn segment_from_frames_muxes_a_media_segment() {
    let d = Demuxer::new();
    let v = track(1, TrackType::Video, "V_VP9");
    assert!(d.segment_from_frames(1, &v, 0, &[], 0).is_none());
    let frames = vec![
        TimedFrame { pts_ticks: 0, data: vec![1, 2, 3], is_keyframe: true },
        TimedFrame { pts_ticks: 40, data: vec![4, 5], is_keyframe: false },
    ];
    let seg = d.segment_from_frames(1, &v, 1999, &frames, 0).unwrap();
    assert_eq!(&seg[4..8], b"moof");
    // mfhd sequence number is start_ms + 1
    assert_eq!(&seg[20..24], &2000u32.to_be_bytes());
    assert_eq!(&seg[seg.len() - 5..], &[1, 2, 3, 4, 5]);
}

#[test]
fn the_segment_scan_keeps_what_it_has_read() {
    let mut p = ScanProgress::new();
    assert!(!p.have_tracks && !p.have_cues);
    // a Tracks element that is not a master reads nothing
    assert!(p.after_child(SegmentChild::Tracks, false));
    assert!(!p.have_tracks);
    assert!(p.after_child(SegmentChild::Tracks, true));
    assert!(p.have_tracks && !p.have_cues);
    assert!(p.after_child(SegmentChild::Skip, true));
    // the first Cluster ends the scan
    assert!(!p.after_child(SegmentChild::Cluster, true));
    // a Cues entry of the SeekHead counts once its element was found
    p.after_target(SeekTarget::Cues, false);
    assert!(!p.have_cues);
    p.after_target(SeekTarget::Cues, true);
    assert!(p.have_cues);
}
