use matroska_remux::track::{decode_block_frame, Compression, TrackData, TrackType};

#[test]
fn no_compression_returns_frame_unchanged() {
    let frame = b"Dialogue: raw text";
    assert_eq!(decode_block_frame(None, frame).unwrap(), frame);
}

#[test]
fn zlib_frame_is_inflated() {
    let original = b"\x16\x00\x03\x01\x02\x03\x80\x00\x00"; // a fake PGS-ish payload
    let compressed = miniz_oxide::deflate::compress_to_vec_zlib(original, 6);
    assert_ne!(&compressed[..], &original[..], "precondition: actually compressed");
    let comp = Compression { algo: 0, settings: None };
    assert_eq!(decode_block_frame(Some(&comp), &compressed).unwrap(), original);
}

#[test]
fn corrupt_zlib_frame_is_dropped() {
    let comp = Compression { algo: 0, settings: None };
    assert_eq!(decode_block_frame(Some(&comp), b"not zlib data"), None);
}

#[test]
fn header_strip_prepends_settings() {
    let comp = Compression { algo: 3, settings: Some(vec![0xAA, 0xBB]) };
    assert_eq!(decode_block_frame(Some(&comp), b"\x01\x02").unwrap(), vec![0xAA, 0xBB, 0x01, 0x02]);
}

#[test]
fn unsupported_algo_is_dropped() {
    let comp = Compression { algo: 1, settings: None }; // bzlib - unsupported
    assert_eq!(decode_block_frame(Some(&comp), b"x"), None);
}

#[test]
fn header_strip_without_settings_keeps_frame() {
    let comp = Compression { algo: 3, settings: None };
    assert_eq!(decode_block_frame(Some(&comp), b"ab").unwrap(), b"ab".to_vec());
}

fn track(codec_id: &str, cp: Option<Vec<u8>>, kind: Option<TrackType>) -> TrackData {
    let mut t = TrackData::default();
    t.codec_id = Some(codec_id.to_string());
    t.codec_private = cp;
    t.track_type = kind;
    t
}

#[test]
fn track_types_round_trip_their_numbers() {
    assert_eq!(TrackType::from_u64(1), Some(TrackType::Video));
    assert_eq!(TrackType::from_u64(17), Some(TrackType::Subtitle));
    assert_eq!(TrackType::from_u64(33), Some(TrackType::Metadata));
    assert_eq!(TrackType::from_u64(4), None);
    assert_eq!(TrackType::try_from(2), Ok(TrackType::Audio));
    assert_eq!(TrackType::try_from(0), Err(()));
    assert_eq!(TrackType::Subtitle.as_str(), "subtitle");
    assert_eq!(TrackType::Buttons.as_str(), "buttons");
}

#[test]
fn codec_strings_for_each_codec() {
    let avc = track("V_MPEG4/ISO/AVC", Some(vec![1, 0x64, 0x00, 0x28]), Some(TrackType::Video));
    assert_eq!(avc.codec_string(0).unwrap(), "avc1.640028");
    assert_eq!(avc.mime_type(0).unwrap(), "video/mp4; codecs=\"avc1.640028\"");
    assert_eq!(avc.sample_entry(), Some("avc1"));
    let short = track("V_MPEG4/ISO/AVC", Some(vec![1, 2]), Some(TrackType::Video));
    assert_eq!(short.codec_string(0).unwrap(), "avc1.640028");
    assert_eq!(track("V_MPEG4/ISO/AVC", None, None).codec_string(0), None);

    let aac = track("A_AAC", Some(vec![0x11, 0x90]), Some(TrackType::Audio));
    assert_eq!(aac.codec_string(0).unwrap(), "mp4a.40.2");
    assert_eq!(aac.mime_type(0).unwrap(), "audio/mp4; codecs=\"mp4a.40.2\"");
    let he = track("A_AAC", Some(vec![0x2B]), Some(TrackType::Audio));
    assert_eq!(he.codec_string(0).unwrap(), "mp4a.40.5");
    assert_eq!(track("A_AAC", None, None).codec_string(0).unwrap(), "mp4a.40.2");

    let av1 = track("V_AV1", Some(vec![0x81, 0x08, 0x4C]), Some(TrackType::Video));
    assert_eq!(av1.codec_string(0).unwrap(), "av01.0.08M.10");
    let av1h = track("V_AV1", Some(vec![0x81, 0x2D, 0xE0]), Some(TrackType::Video));
    assert_eq!(av1h.codec_string(0).unwrap(), "av01.1.13H.12");
    assert_eq!(track("V_AV1", None, None).codec_string(0).unwrap(), "av01.0.04M.08");

    let mut hvcc = vec![1, 0x01, 0x60, 0, 0, 0, 0x90, 0, 0, 0, 0, 0, 93];
    hvcc.extend_from_slice(&[0; 10]);
    let hevc = track("V_MPEGH/ISO/HEVC", Some(hvcc), Some(TrackType::Video));
    assert_eq!(hevc.codec_string(0).unwrap(), "hvc1.1.6.L93.90");
    let hevc2 = track(
        "V_MPEGH/ISO/HEVC",
        Some(vec![1, 0xA2, 0x20, 0, 0, 0, 0xB0, 0, 0x01, 0, 0, 0, 120]),
        Some(TrackType::Video),
    );
    assert_eq!(hevc2.codec_string(0).unwrap(), "hvc1.B2.4.H120.B0.00.01");
    assert_eq!(track("V_MPEGH/ISO/HEVC", Some(vec![1]), None).codec_string(0).unwrap(), "hvc1.1.6.L93.B0");

    let vp9 = track("V_VP9", Some(vec![1, 1, 2, 2, 1, 31, 3, 1, 10]), Some(TrackType::Video));
    assert_eq!(vp9.codec_string(40).unwrap(), "vp09.02.31.10");
    let vp9b = track("V_VP9", None, Some(TrackType::Video));
    assert_eq!(vp9b.codec_string(40).unwrap(), "vp09.00.40.08");

    assert_eq!(track("A_OPUS", None, None).codec_string(0).unwrap(), "opus");
    assert_eq!(track("A_EAC3", None, None).codec_string(0).unwrap(), "ec-3");
    assert_eq!(track("A_FLAC", None, None).sample_entry(), Some("fLaC"));
    assert_eq!(track("A_MPEG/L3", None, None).codec_string(0).unwrap(), "mp4a.6B");
    assert_eq!(track("S_TEXT/ASS", None, Some(TrackType::Subtitle)).codec_string(0), None);
    let sub = track("A_OPUS", None, Some(TrackType::Subtitle));
    assert_eq!(sub.mime_type(0), None);
}

#[test]
fn language_tag_prefers_bcp47() {
    let mut t = TrackData::default();
    assert_eq!(t.language_tag(), "eng");
    t.language = Some("ger".to_string());
    assert_eq!(t.language_tag(), "ger");
    t.language_bcp47 = Some("de-CH".to_string());
    assert_eq!(t.language_tag(), "de-CH");
}
