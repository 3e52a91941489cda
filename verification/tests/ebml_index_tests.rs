use std::collections::HashMap;
use matroska_remux::ebml::{Ebml, EbmlIterator, EbmlPayload, EbmlSource, MemSource};
use matroska_remux::ids::{
    EbmlType, ID_AUDIO, ID_CHANNELS, ID_CODECID, ID_CODECPRIVATE, ID_CONTENTCOMPALGO,
    ID_CONTENTCOMPRESSION, ID_CONTENTCOMPSETTINGS, ID_CONTENTENCODING, ID_CONTENTENCODINGS,
    ID_CUECLUSTERPOSITION, ID_CUEPOINT, ID_CUETIME, ID_CUETRACK, ID_CUETRACKPOSITIONS,
    ID_FLAGDEFAULT, ID_LANGUAGE, ID_PIXELHEIGHT, ID_PIXELWIDTH, ID_SAMPLINGFREQUENCY, ID_SEEK,
    ID_SEEKID, ID_SEEKPOSITION, ID_TRACKENTRY, ID_TRACKNUMBER, ID_TRACKTYPE, ID_VIDEO, ID_VOID,
};
use matroska_remux::index::{
    cue_cluster_at_or_after, cue_cluster_for_time, parse_cues, parse_seek_head, CuePoint,
    CueTrackPosition,
};
use matroska_remux::mkv_write::{elem, elem_uint};
use matroska_remux::track::{parse_tracks, TrackType};

fn types(list: &[(u64, EbmlType)]) -> HashMap<u64, EbmlType> {
    list.iter().cloned().collect()
}

fn uint(id: u64, v: u64) -> Vec<u8> {
    let mut b = Vec::new();
    elem_uint(&mut b, id, v);
    b
}

fn el(id: u64, payload: &[u8]) -> Vec<u8> {
    let mut b = Vec::new();
    elem(&mut b, id, payload);
    b
}

fn cat(parts: &[Vec<u8>]) -> Vec<u8> {
    parts.concat()
}

#[test]
fn mem_source_reads_clip_to_the_buffer() {
    let s = MemSource::new(vec![10, 11, 12, 13], 100);
    assert_eq!(s.read_range(101, 102), vec![11, 12]);
    assert_eq!(s.read_range(102, 500), vec![12, 13]);
    assert_eq!(s.read_range(99, 101), Vec::<u8>::new());
    assert_eq!(s.read_range(104, 105), Vec::<u8>::new());
    assert_eq!(s.read_range(103, 101), Vec::<u8>::new());
    assert_eq!(s.read_exact(100, 3), vec![10, 11, 12]);
    assert_eq!(s.read_exact(100, 0), Vec::<u8>::new());
}

#[test]
fn integer_payloads_are_big_endian() {
    assert_eq!(Ebml::<MemSource>::bytes_to_uint(vec![0x01, 0x00]), 256);
    assert_eq!(Ebml::<MemSource>::bytes_to_uint(vec![]), 0);
    assert_eq!(Ebml::<MemSource>::bytes_to_int(vec![0xFF; 8]), -1);
    // signed values are sign-extended from the first byte's top bit
    assert_eq!(Ebml::<MemSource>::bytes_to_int(vec![0xFF]), -1);
    assert_eq!(Ebml::<MemSource>::bytes_to_int(vec![0xFF, 0xFE]), -2);
    assert_eq!(Ebml::<MemSource>::bytes_to_int(vec![0x7F]), 127);
    assert_eq!(Ebml::<MemSource>::bytes_to_int(vec![0x80, 0, 0, 0, 0, 0, 0, 0]), i64::MIN);
    assert_eq!(Ebml::<MemSource>::bytes_to_int(vec![0x00, 0xFF]), 255);
    assert_eq!(Ebml::<MemSource>::bytes_to_string(b"eng".to_vec()), "eng");
    assert_eq!(Ebml::<MemSource>::bytes_to_string(vec![0x61, 0xFF]), "a\u{FFFD}");
}

#[test]
fn variable_size_integers_from_a_source() {
    let ebml = Ebml::new(MemSource::new(vec![0x1A, 0x45, 0xDF, 0xA3, 0x42, 0x86, 0x81], 0), HashMap::new());
    assert_eq!(ebml.read_variable_size_id(0), (4, 0x1A45DFA3));
    assert_eq!(ebml.read_variable_size_uint(4), (2, 0x0286));
    assert_eq!(ebml.read_variable_size_int(6), (1, 1));
    assert_eq!(ebml.read_variable_size_octets(6), (1, vec![0x81]));
    assert_eq!(ebml.read_variable_size_octects_masked(4), (2, vec![0x02, 0x86]));
    // nothing to read
    assert_eq!(ebml.read_variable_size_uint(7), (0, 0));
}

#[test]
fn iterator_decodes_typed_elements() {
    let doc = cat(&[uint(ID_TRACKNUMBER, 7), el(ID_CODECID, b"A_OPUS"), el(ID_VOID, &[0, 0]), el(ID_CODECPRIVATE, &[1, 2, 3])]);
    let len = doc.len() as u64;
    let map = types(&[
        (ID_TRACKNUMBER, EbmlType::UnsignedInteger),
        (ID_CODECID, EbmlType::String),
        (ID_VOID, EbmlType::Void),
        (ID_CODECPRIVATE, EbmlType::Binary),
    ]);
    let ebml = Ebml::new(MemSource::new(doc, 50), map);
    let mut it = EbmlIterator::new(50, 50 + len, &ebml);
    let a = it.next().unwrap();
    assert_eq!((a.id, a.offset, a.size), (ID_TRACKNUMBER, 50, 3));
    assert!(matches!(a.payload, EbmlPayload::UnsignedInt(7)));
    let b = it.next().unwrap();
    match b.payload {
        EbmlPayload::String(s) => assert_eq!(s, "A_OPUS"),
        _ => panic!("expected a string"),
    }
    let c = it.next().unwrap();
    assert!(matches!(c.payload, EbmlPayload::Void));
    let d = it.next().unwrap();
    match d.payload {
        EbmlPayload::Binary((s, e)) => assert_eq!(it.read_range(s, e), vec![1, 2, 3]),
        _ => panic!("expected binary"),
    }
    assert!(it.next().is_none());
    assert_eq!(it.current, 50 + len);
}

#[test]
fn unknown_id_stops_iteration() {
    let doc = cat(&[uint(ID_TRACKNUMBER, 1), uint(ID_TRACKTYPE, 2)]);
    let ebml = Ebml::new(MemSource::new(doc, 0), types(&[(ID_TRACKNUMBER, EbmlType::UnsignedInteger)]));
    let mut it = EbmlIterator::new_endless(0, &ebml);
    assert!(it.next().is_some());
    assert!(it.next().is_none());
}

fn cue(time: Option<u64>, positions: &[(u64, u64)]) -> Vec<u8> {
    let mut content = Vec::new();
    if let Some(t) = time {
        content.extend(uint(ID_CUETIME, t));
    }
    for &(track, pos) in positions {
        content.extend(el(
            ID_CUETRACKPOSITIONS,
            &cat(&[uint(ID_CUETRACK, track), uint(ID_CUECLUSTERPOSITION, pos)]),
        ));
    }
    el(ID_CUEPOINT, &content)
}

fn cue_types() -> HashMap<u64, EbmlType> {
    types(&[
        (ID_CUEPOINT, EbmlType::Master),
        (ID_CUETIME, EbmlType::UnsignedInteger),
        (ID_CUETRACKPOSITIONS, EbmlType::Master),
        (ID_CUETRACK, EbmlType::UnsignedInteger),
        (ID_CUECLUSTERPOSITION, EbmlType::UnsignedInteger),
    ])
}

#[test]
fn cues_are_parsed_and_ordered_by_time() {
    let doc = cat(&[
        cue(Some(2000), &[(1, 500)]),
        cue(None, &[(1, 7)]),
        cue(Some(1000), &[(1, 100), (2, 150)]),
        cue(Some(2000), &[(2, 600)]),
    ]);
    let len = doc.len() as u64;
    let ebml = Ebml::new(MemSource::new(doc, 1000), cue_types());
    let cues = parse_cues(EbmlIterator::new(1000, 1000 + len, &ebml));
    let times: Vec<u64> = cues.iter().map(|c| c.time).collect();
    assert_eq!(times, vec![1000, 2000, 2000]);
    assert_eq!(cues[0].positions.len(), 2);
    assert_eq!(cues[0].positions[1].cluster_position, 150);
    // equal times keep their stored order
    assert_eq!(cues[1].positions[0].cluster_position, 500);
    assert_eq!(cues[2].positions[0].cluster_position, 600);
}

fn p(track: u64, pos: u64) -> CueTrackPosition {
    CueTrackPosition { track, cluster_position: pos, relative_position: None }
}

#[test]
fn cue_lookups_pick_the_right_cluster() {
    let cues = vec![
        CuePoint { time: 1000, positions: vec![p(1, 100), p(2, 150)] },
        CuePoint { time: 2000, positions: vec![p(1, 500)] },
        CuePoint { time: 3000, positions: vec![] },
    ];
    assert_eq!(cue_cluster_for_time(&cues, 2, 1500), Some(150));
    assert_eq!(cue_cluster_for_time(&cues, 2, 2500), Some(500));
    assert_eq!(cue_cluster_for_time(&cues, 1, 5000), Some(500));
    assert_eq!(cue_cluster_for_time(&cues, 1, 10), Some(100));
    assert_eq!(cue_cluster_for_time(&[], 1, 10), None);
    assert_eq!(cue_cluster_at_or_after(&cues, 1, 1500), Some(500));
    assert_eq!(cue_cluster_at_or_after(&cues, 9, 0), Some(100));
    assert_eq!(cue_cluster_at_or_after(&cues, 1, 2500), None);
    assert_eq!(cue_cluster_at_or_after(&cues, 1, 4000), None);
}

#[test]
fn seek_head_entries_need_id_and_position() {
    let seek = |id: Option<&[u8]>, pos: Option<u64>| {
        let mut c = Vec::new();
        if let Some(b) = id {
            c.extend(el(ID_SEEKID, b));
        }
        if let Some(v) = pos {
            c.extend(uint(ID_SEEKPOSITION, v));
        }
        el(ID_SEEK, &c)
    };
    let doc = cat(&[
        seek(Some(&[0x1C, 0x53, 0xBB, 0x6B]), Some(12345)),
        seek(Some(&[0x15, 0x49, 0xA9, 0x66]), None),
        seek(Some(&[0x16, 0x54, 0xAE, 0x6B]), Some(77)),
    ]);
    let len = doc.len() as u64;
    let map = types(&[
        (ID_SEEK, EbmlType::Master),
        (ID_SEEKID, EbmlType::Binary),
        (ID_SEEKPOSITION, EbmlType::UnsignedInteger),
    ]);
    let ebml = Ebml::new(MemSource::new(doc, 0), map);
    let entries = parse_seek_head(EbmlIterator::new(0, len, &ebml));
    assert_eq!(entries.len(), 2);
    assert_eq!((entries[0].seek_id, entries[0].position), (0x1C53BB6B, 12345));
    assert_eq!((entries[1].seek_id, entries[1].position), (0x1654AE6B, 77));
}

#[test]
fn tracks_are_parsed_with_nested_elements() {
    let video = el(ID_VIDEO, &cat(&[uint(ID_PIXELWIDTH, 1920), uint(ID_PIXELHEIGHT, 1080)]));
    let t1 = el(
        ID_TRACKENTRY,
        &cat(&[
            uint(ID_TRACKNUMBER, 1),
            uint(ID_TRACKTYPE, 1),
            el(ID_CODECID, b"V_MPEG4/ISO/AVC"),
            el(ID_CODECPRIVATE, &[1, 0x64, 0, 0x28]),
            video,
            el(ID_LANGUAGE, b"jpn"),
            uint(ID_FLAGDEFAULT, 1),
        ]),
    );
    let rate = 48000.0f32.to_be_bytes();
    let audio = el(ID_AUDIO, &cat(&[uint(ID_CHANNELS, 2), el(ID_SAMPLINGFREQUENCY, &rate)]));
    let comp = el(
        ID_CONTENTCOMPRESSION,
        &cat(&[uint(ID_CONTENTCOMPALGO, 3), el(ID_CONTENTCOMPSETTINGS, &[0xAA])]),
    );
    let enc = el(ID_CONTENTENCODINGS, &el(ID_CONTENTENCODING, &comp));
    let t2 = el(
        ID_TRACKENTRY,
        &cat(&[uint(ID_TRACKNUMBER, 2), uint(ID_TRACKTYPE, 2), el(ID_CODECID, b"A_OPUS"), audio, enc]),
    );
    let doc = cat(&[t1, t2]);
    let len = doc.len() as u64;
    let map = types(&[
        (ID_TRACKENTRY, EbmlType::Master),
        (ID_TRACKNUMBER, EbmlType::UnsignedInteger),
        (ID_TRACKTYPE, EbmlType::UnsignedInteger),
        (ID_CODECID, EbmlType::String),
        (ID_CODECPRIVATE, EbmlType::Binary),
        (ID_VIDEO, EbmlType::Master),
        (ID_PIXELWIDTH, EbmlType::UnsignedInteger),
        (ID_PIXELHEIGHT, EbmlType::UnsignedInteger),
        (ID_LANGUAGE, EbmlType::String),
        (ID_FLAGDEFAULT, EbmlType::UnsignedInteger),
        (ID_AUDIO, EbmlType::Master),
        (ID_CHANNELS, EbmlType::UnsignedInteger),
        (ID_SAMPLINGFREQUENCY, EbmlType::Float),
        (ID_CONTENTENCODINGS, EbmlType::Master),
        (ID_CONTENTENCODING, EbmlType::Master),
        (ID_CONTENTCOMPRESSION, EbmlType::Master),
        (ID_CONTENTCOMPALGO, EbmlType::UnsignedInteger),
        (ID_CONTENTCOMPSETTINGS, EbmlType::Binary),
    ]);
    let ebml = Ebml::new(MemSource::new(doc, 0), map);
    let tracks = parse_tracks(EbmlIterator::new(0, len, &ebml));
    assert_eq!(tracks.len(), 2);
    let v = &tracks[0];
    assert_eq!(v.track_number, Some(1));
    assert_eq!(v.track_type, Some(TrackType::Video));
    assert_eq!(v.pixel_width, Some(1920));
    assert_eq!(v.pixel_height, Some(1080));
    assert_eq!(v.language_tag(), "jpn");
    assert!(v.flag_default && !v.flag_forced);
    assert_eq!(v.codec_string(0).unwrap(), "avc1.640028");
    let a = &tracks[1];
    assert_eq!(a.track_type, Some(TrackType::Audio));
    assert_eq!(a.channels, Some(2));
    assert_eq!(a.sampling_frequency, Some(rate.to_vec()));
    let c = a.compression.as_ref().unwrap();
    assert_eq!((c.algo, c.settings.clone()), (3, Some(vec![0xAA])));
}

#[test]
fn signed_integers_advance_by_their_size() {
    let map = types(&[(0xFB, EbmlType::SignedInteger), (ID_VOID, EbmlType::Void)]);
    let ebml = Ebml::new(MemSource::new(vec![0xFB, 0x81, 0x05, 0xEC, 0x80], 0), map);
    let mut it = EbmlIterator::new(0, 5, &ebml);
    let a = it.next().unwrap();
    assert_eq!((a.id, a.offset, a.size), (0xFB, 0, 3));
    assert!(matches!(a.payload, EbmlPayload::SignedInt(5)));
    assert_eq!(it.current, 3);
    let b = it.next().unwrap();
    assert_eq!((b.id, b.offset, b.size), (0xEC, 3, 2));
    assert!(it.next().is_none());
}

#[test]
fn unknown_size_master_runs_to_the_parent_end() {
    let doc = vec![0x1A, 0x45, 0xDF, 0xA3, 0xFF, 0x42, 0x86, 0x81, 0x01];
    let ebml = Ebml::new(MemSource::new(doc, 0), matroska_remux::ids::ebml_base_id_type_map());
    let mut it = EbmlIterator::new(0, 9, &ebml);
    let e = it.next().unwrap();
    assert_eq!(e.id, 0x1A45DFA3);
    assert_eq!(it.current, 9);
    match e.payload {
        EbmlPayload::Master(mut m) => {
            assert_eq!((m.current, m.end), (5, Some(9)));
            let child = m.next().unwrap();
            assert_eq!(child.id, 0x4286);
            assert!(matches!(child.payload, EbmlPayload::UnsignedInt(1)));
            assert!(m.next().is_none());
        }
        _ => panic!("expected a master"),
    }
    // a known size still bounds the master
    let doc2 = vec![0x1A, 0x45, 0xDF, 0xA3, 0x84, 0x42, 0x86, 0x81, 0x01];
    let ebml2 = Ebml::new(MemSource::new(doc2, 0), matroska_remux::ids::ebml_base_id_type_map());
    let mut it2 = EbmlIterator::new_endless(0, &ebml2);
    let e2 = it2.next().unwrap();
    assert!(matches!(e2.payload, EbmlPayload::Master(ref m) if m.end == Some(9)));
}

#[test]
fn next_ready_tells_whether_an_element_can_be_read() {
    let map = types(&[(ID_VOID, EbmlType::Void)]);
    let ebml = Ebml::new(MemSource::new(vec![0xEC, 0x80], 0), map);
    let it = EbmlIterator::new(0, 2, &ebml);
    assert!(it.next_ready());
    // An ID whose width marker lies past the eighth byte cannot be read.
    let wide = Ebml::new(MemSource::new(vec![0x00; 10], 0), types(&[]));
    let it2 = EbmlIterator::new(0, 10, &wide);
    assert!(!it2.next_ready());
    // At the end of its range an iterator is always ready: it yields nothing.
    let it3 = EbmlIterator::new(2, 2, &wide);
    assert!(it3.next_ready());
}
