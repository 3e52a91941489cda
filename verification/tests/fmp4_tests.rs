use matroska_remux::fmp4::{
    build_init_segment, build_media_segment, CodecConfig, MediaKind, Sample, TrackConfig,
};

fn find_box(data: &[u8], typ: &[u8; 4]) -> Option<usize> {
    data.windows(4)
        .position(|w| w == typ)
        .and_then(|pos| pos.checked_sub(4))
}

fn avc_cfg() -> TrackConfig {
    TrackConfig {
        track_id: 1,
        timescale: 1000,
        duration: 0,
        language: "eng".to_string(),
        kind: MediaKind::Video { width: 1280, height: 544 },
        codec: CodecConfig::Avc(vec![1, 0x64, 0, 0x28, 0xff, 0xe1, 0, 4, 0x67, 1, 2, 3]),
    }
}

#[test]
fn init_segment_has_ftyp_then_moov() {
    let init = build_init_segment(&avc_cfg());
    assert_eq!(&init[4..8], b"ftyp");
    let ftyp_size = u32::from_be_bytes(init[0..4].try_into().unwrap()) as usize;
    assert_eq!(&init[ftyp_size + 4..ftyp_size + 8], b"moov");
    assert!(find_box(&init, b"mvex").is_some());
    assert!(find_box(&init, b"trex").is_some());
    assert!(find_box(&init, b"avcC").is_some());
}

#[test]
fn audio_init_has_soun_smhd_esds() {
    let cfg = TrackConfig {
        track_id: 2,
        timescale: 48000,
        duration: 0,
        language: "eng".to_string(),
        kind: MediaKind::Audio { sample_rate: 48000, channels: 2 },
        codec: CodecConfig::Aac(vec![0x11, 0x90]),
    };
    let init = build_init_segment(&cfg);
    assert!(find_box(&init, b"soun").is_some());
    assert!(find_box(&init, b"smhd").is_some());
    assert!(find_box(&init, b"mp4a").is_some());
    assert!(find_box(&init, b"esds").is_some());
}

#[test]
fn media_segment_moof_then_mdat_and_offset_points_into_mdat() {
    let samples = vec![
        Sample { data: vec![0, 0, 0, 4, 1, 2, 3, 4], duration: 42, cts_offset: 0, is_sync: true },
        Sample { data: vec![0, 0, 0, 2, 9, 9], duration: 42, cts_offset: 42, is_sync: false },
    ];
    let seg = build_media_segment(1, 1, 9000, &samples);
    assert_eq!(&seg[4..8], b"moof");
    let moof_size = u32::from_be_bytes(seg[0..4].try_into().unwrap()) as usize;
    assert_eq!(&seg[moof_size + 4..moof_size + 8], b"mdat");

    // data_offset in trun must equal moof_size + 8 (start of mdat payload).
    let trun = find_box(&seg, b"trun").unwrap();
    let data_offset = i32::from_be_bytes(seg[trun + 16..trun + 20].try_into().unwrap());
    assert_eq!(data_offset as usize, moof_size + 8);

    // tfdt carries the absolute base decode time we passed.
    let tfdt = find_box(&seg, b"tfdt").unwrap();
    let base = u64::from_be_bytes(seg[tfdt + 12..tfdt + 20].try_into().unwrap());
    assert_eq!(base, 9000);
}

#[test]
fn media_segment_layout_matches_moof_size_formula() {
    // moof is 88 + 16 bytes per sample; mdat follows with the samples back to back.
    let samples = vec![
        Sample { data: vec![7; 5], duration: 10, cts_offset: -3, is_sync: true },
        Sample { data: vec![8; 3], duration: 11, cts_offset: 0, is_sync: false },
        Sample { data: vec![9; 1], duration: 12, cts_offset: 5, is_sync: false },
    ];
    let seg = build_media_segment(3, 7, 0x0102_0304_0506_0708, &samples);
    let m = 88 + 16 * 3;
    assert_eq!(u32::from_be_bytes(seg[0..4].try_into().unwrap()) as usize, m);
    assert_eq!(&seg[52..56], b"tfdt");
    assert_eq!(&seg[60..68], &[1, 2, 3, 4, 5, 6, 7, 8]);
    assert_eq!(&seg[72..76], b"trun");
    assert_eq!(u32::from_be_bytes(seg[84..88].try_into().unwrap()) as usize, m + 8);
    assert_eq!(u32::from_be_bytes(seg[m..m + 4].try_into().unwrap()), 8 + 9);
    assert_eq!(&seg[m + 4..m + 8], b"mdat");
    assert_eq!(&seg[m + 8..], &[7, 7, 7, 7, 7, 8, 8, 8, 9]);
    assert_eq!(seg.len(), m + 8 + 9);
    // first trun entry: duration 10, size 5, sync flags, cts -3 in two's complement
    assert_eq!(&seg[88..104], &[0, 0, 0, 10, 0, 0, 0, 5, 2, 0, 0, 0, 0xff, 0xff, 0xff, 0xfd]);
    // second sample is not a sync sample
    assert_eq!(&seg[112..116], &[1, 1, 0, 0]);
}

#[test]
fn empty_media_segment_has_empty_mdat() {
    let seg = build_media_segment(1, 2, 0, &[]);
    assert_eq!(seg.len(), 88 + 8);
    assert_eq!(&seg[88..96], &[0, 0, 0, 8, b'm', b'd', b'a', b't']);
}

#[test]
fn init_segment_ftyp_is_28_bytes_with_brands() {
    let init = build_init_segment(&avc_cfg());
    assert_eq!(&init[0..28], b"\0\0\0\x1cftypiso5\0\0\0\0iso5iso6mp41");
    assert_eq!(&init[32..36], b"moov");
}

#[test]
fn language_is_packed_into_mdhd() {
    let init = build_init_segment(&avc_cfg());
    let mdhd = find_box(&init, b"mdhd").unwrap();
    // "eng": e=5, n=14, g=7 -> (5<<10)|(14<<5)|7 = 0x15C7
    assert_eq!(&init[mdhd + 28..mdhd + 30], &[0x15, 0xC7]);
    let mut cfg = avc_cfg();
    cfg.language = "de".to_string(); // missing third letter reads as 'u' (21)
    let init = build_init_segment(&cfg);
    let mdhd = find_box(&init, b"mdhd").unwrap();
    let packed = (4u16 << 10) | (5 << 5) | 21;
    assert_eq!(&init[mdhd + 28..mdhd + 30], &packed.to_be_bytes());
}

#[test]
fn opus_head_becomes_big_endian_dops() {
    let mut head = b"OpusHead".to_vec();
    head.extend_from_slice(&[1, 2, 0x38, 0x01, 0x80, 0xbb, 0, 0, 0xf6, 0xff, 0]);
    let cfg = TrackConfig {
        track_id: 2,
        timescale: 48000,
        duration: 0,
        language: "und".to_string(),
        kind: MediaKind::Audio { sample_rate: 48000, channels: 2 },
        codec: CodecConfig::Opus(head),
    };
    let init = build_init_segment(&cfg);
    let dops = find_box(&init, b"dOps").unwrap();
    assert_eq!(
        &init[dops..dops + 19],
        &[0, 0, 0, 19, b'd', b'O', b'p', b's', 0, 2, 0x01, 0x38, 0, 0, 0xbb, 0x80, 0xff, 0xf6, 0]
    );
}

#[test]
fn short_opus_head_uses_defaults() {
    let cfg = TrackConfig {
        track_id: 2,
        timescale: 48000,
        duration: 0,
        language: "und".to_string(),
        kind: MediaKind::Audio { sample_rate: 48000, channels: 6 },
        codec: CodecConfig::Opus(vec![]),
    };
    let init = build_init_segment(&cfg);
    let dops = find_box(&init, b"dOps").unwrap();
    // channels from the track, preskip 3840, rate 48000, gain 0, family 0
    assert_eq!(
        &init[dops + 8..dops + 19],
        &[0, 6, 0x0f, 0x00, 0, 0, 0xbb, 0x80, 0, 0, 0]
    );
}

#[test]
fn esds_wraps_long_config_with_multibyte_length() {
    let asc = vec![0x55u8; 200];
    let cfg = TrackConfig {
        track_id: 1,
        timescale: 44100,
        duration: 0,
        language: "eng".to_string(),
        kind: MediaKind::Audio { sample_rate: 44100, channels: 2 },
        codec: CodecConfig::Aac(asc),
    };
    let init = build_init_segment(&cfg);
    let esds = find_box(&init, b"esds").unwrap();
    // DecoderSpecificInfo: tag 5, length 200 = 0x81 0x48
    let pos = init.windows(3).position(|w| w == [0x05, 0x81, 0x48]).unwrap();
    assert!(pos > esds);
}

#[test]
fn vp9_without_config_gets_empty_vpcc() {
    let cfg = TrackConfig {
        track_id: 1,
        timescale: 1000,
        duration: 5000,
        language: "eng".to_string(),
        kind: MediaKind::Video { width: 640, height: 360 },
        codec: CodecConfig::Vp9(None),
    };
    let init = build_init_segment(&cfg);
    let vpcc = find_box(&init, b"vpcC").unwrap();
    assert_eq!(&init[vpcc..vpcc + 4], &[0, 0, 0, 8]);
    assert!(find_box(&init, b"vp09").is_some());
    assert!(find_box(&init, b"vmhd").is_some());
}
