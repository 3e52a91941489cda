use matroska_remux::ids::{ID_EBML, ID_SEGMENT, ID_TIMESTAMP};
use matroska_remux::mkv_write::{build_audio_chunk, elem, elem_uint, write_id, write_simpleblock, write_vint, AudioChunkParams};
use matroska_remux::remux::{parse_block, read_vint, TimedFrame};

#[test]
fn vint_widths_and_marker() {
    let mut b = Vec::new();
    write_vint(&mut b, 1);
    assert_eq!(b, vec![0x81]); // 1-byte: marker 0x80 | 1
    b.clear();
    write_vint(&mut b, 126);
    assert_eq!(b, vec![0xFE]); // largest 1-byte value
    b.clear();
    write_vint(&mut b, 127);
    assert_eq!(b, vec![0x40, 0x7F]); // 127 needs 2 bytes (0x7F is the 1-byte reserved value)
    b.clear();
    write_vint(&mut b, 300);
    assert_eq!(b, vec![0x41, 0x2C]); // 2-byte: 0x4000 | 300
}

#[test]
fn ids_emit_minimal_bytes() {
    let mut b = Vec::new();
    write_id(&mut b, ID_TIMESTAMP); // 0xE7, 1 byte
    assert_eq!(b, vec![0xE7]);
    b.clear();
    write_id(&mut b, ID_EBML); // 0x1A45DFA3, 4 bytes
    assert_eq!(b, vec![0x1A, 0x45, 0xDF, 0xA3]);
    b.clear();
    write_id(&mut b, ID_SEGMENT); // 0x18538067, 4 bytes
    assert_eq!(b, vec![0x18, 0x53, 0x80, 0x67]);
}

#[test]
fn chunk_starts_with_ebml_magic_and_holds_a_segment() {
    let frames = vec![
        TimedFrame { pts_ticks: 1000, data: vec![1, 2, 3], is_keyframe: true },
        TimedFrame { pts_ticks: 1020, data: vec![4, 5, 6], is_keyframe: true },
    ];
    let p = AudioChunkParams {
        timestamp_scale_ns: 1_000_000,
        codec_id: "A_DTS",
        codec_private: None,
        sample_rate_bits: 48000.0f64.to_bits(),
        channels: 6,
        bit_depth: None,
        codec_delay_ns: None,
        seek_preroll_ns: None,
    };
    let chunk = build_audio_chunk(&p, &frames);
    // EBML magic.
    assert_eq!(&chunk[0..4], &[0x1A, 0x45, 0xDF, 0xA3]);
    // Segment ID appears after the header.
    assert!(chunk.windows(4).any(|w| w == [0x18, 0x53, 0x80, 0x67]));
    // The raw frame payloads are carried verbatim.
    assert!(chunk.windows(3).any(|w| w == [1, 2, 3]));
    assert!(chunk.windows(3).any(|w| w == [4, 5, 6]));
}

#[test]
fn long_window_splits_clusters_on_i16_overflow() {
    // Two frames >32s apart at 1ms scale must land in separate clusters.
    let frames = vec![
        TimedFrame { pts_ticks: 0, data: vec![0xAA], is_keyframe: true },
        TimedFrame { pts_ticks: 40_000, data: vec![0xBB], is_keyframe: true },
    ];
    let p = AudioChunkParams {
        timestamp_scale_ns: 1_000_000,
        codec_id: "A_DTS",
        codec_private: None,
        sample_rate_bits: 48000.0f64.to_bits(),
        channels: 2,
        bit_depth: None,
        codec_delay_ns: None,
        seek_preroll_ns: None,
    };
    let chunk = build_audio_chunk(&p, &frames);
    let clusters = chunk.windows(4).filter(|w| *w == [0x1F, 0x43, 0xB6, 0x75]).count();
    assert_eq!(clusters, 2);
}

#[test]
fn close_frames_share_one_cluster() {
    let frames = vec![
        TimedFrame { pts_ticks: 500, data: vec![0xAA], is_keyframe: true },
        TimedFrame { pts_ticks: 520, data: vec![0xBB], is_keyframe: true },
    ];
    let p = AudioChunkParams {
        timestamp_scale_ns: 1_000_000,
        codec_id: "A_AC3",
        codec_private: Some(&[9, 9]),
        sample_rate_bits: 48000.0f64.to_bits(),
        channels: 2,
        bit_depth: Some(16),
        codec_delay_ns: Some(1),
        seek_preroll_ns: Some(2),
    };
    let chunk = build_audio_chunk(&p, &frames);
    let clusters = chunk.windows(4).filter(|w| *w == [0x1F, 0x43, 0xB6, 0x75]).count();
    assert_eq!(clusters, 1);
    // second block is 20 ticks after the cluster start
    assert!(chunk.windows(5).any(|w| w == [0x81, 0x00, 0x14, 0x80, 0xBB]));
}

#[test]
fn vint_eight_byte_and_uint_elements() {
    let mut b = Vec::new();
    write_vint(&mut b, (1u64 << 49) - 1);
    assert_eq!(b, vec![0x01, 0x01, 0xFF, 0xFF, 0xFF, 0xFF, 0xFF, 0xFF]);
    let mut e = Vec::new();
    elem_uint(&mut e, ID_TIMESTAMP, 0x1234);
    assert_eq!(e, vec![0xE7, 0x82, 0x12, 0x34]);
    let mut e = Vec::new();
    elem(&mut e, ID_TIMESTAMP, &[]);
    assert_eq!(e, vec![0xE7, 0x80]);
}

#[test]
fn written_vints_read_back() {
    for v in [0u64, 1, 126, 127, 300, 16_382, 16_383, 1 << 20, (1 << 49) - 2, (1 << 56) - 2] {
        let mut out = Vec::new();
        write_vint(&mut out, v);
        let n = out.len();
        out.extend_from_slice(&[0xEE, 0xFF]);
        assert_eq!(read_vint(&out, 0), Some((v, n)), "{v}");
    }
}

#[test]
fn written_simpleblocks_parse_back() {
    for (track, rel, data) in [(1u64, 0i16, vec![1u8, 2, 3]), (200, -32768, vec![]), (3, 32767, vec![9; 40])] {
        let mut el = Vec::new();
        write_simpleblock(&mut el, track, rel, &data);
        assert_eq!(el[0], 0xA3);
        let (size, w) = read_vint(&el, 1).unwrap();
        let body = &el[1 + w..];
        assert_eq!(body.len() as u64, size);
        let b = parse_block(body, true, false).unwrap();
        assert_eq!((b.track_number, b.rel_timecode, b.is_keyframe), (track, rel, true));
        assert_eq!(b.frames, vec![data.clone()]);
    }
}
