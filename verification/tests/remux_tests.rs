use matroska_remux::remux::{
    audio_samples, cues_to_webvtt, lacing_from_flags, parse_block, read_svint, read_vint,
    unlace, video_samples, FrameFlags, Lacing, SubtitleCue, TimedFrame,
};

#[test]
fn parses_unlaced_simpleblock() {
    // track 1 (0x81), timecode 0x0000, flags 0x80 (keyframe, no lacing), data.
    let payload = [0x81, 0x00, 0x00, 0x80, 0xaa, 0xbb, 0xcc];
    let b = parse_block(&payload, true, false).unwrap();
    assert_eq!(b.track_number, 1);
    assert_eq!(b.rel_timecode, 0);
    assert!(b.is_keyframe);
    assert_eq!(b.frames, vec![vec![0xaa, 0xbb, 0xcc]]);
}

#[test]
fn parses_fixed_lacing() {
    // flags 0x04 (fixed lacing), num_frames-1=1 (2 frames), 4 bytes -> 2 each.
    let payload = [0x81, 0x00, 0x00, 0x04, 0x01, 1, 2, 3, 4];
    let b = parse_block(&payload, true, false).unwrap();
    assert_eq!(b.frames, vec![vec![1, 2], vec![3, 4]]);
}

#[test]
fn parses_ebml_lacing() {
    // flags 0x06 (EBML lacing), num-1=1 (2 frames), first size vint 0x82 (=2),
    // then 2 + remainder(3) bytes.
    let payload = [0x81, 0x00, 0x00, 0x06, 0x01, 0x82, 1, 2, 3, 4, 5];
    let b = parse_block(&payload, true, false).unwrap();
    assert_eq!(b.frames, vec![vec![1, 2], vec![3, 4, 5]]);
}

#[test]
fn parses_xiph_lacing() {
    // 3 frames; xiph sizes: frame0=1, frame1=2, frame2=remainder.
    // flags 0x02 (xiph), num-1=2, size0=0x01, size1=0x02, then 1+2+rest bytes.
    let payload = [0x81, 0x00, 0x00, 0x02, 0x02, 0x01, 0x02, 10, 20, 21, 30, 31, 32];
    let b = parse_block(&payload, true, false).unwrap();
    assert_eq!(b.frames, vec![vec![10], vec![20, 21], vec![30, 31, 32]]);
}

#[test]
fn reconstructs_dts_for_reordered_video() {
    // Decode order I,P,B,B with PTS 0,3,1,2 (display 0,1,2,3).
    let frames = vec![
        TimedFrame { pts_ticks: 0, data: vec![0], is_keyframe: true },
        TimedFrame { pts_ticks: 3, data: vec![1], is_keyframe: false },
        TimedFrame { pts_ticks: 1, data: vec![2], is_keyframe: false },
        TimedFrame { pts_ticks: 2, data: vec![3], is_keyframe: false },
    ];
    let (base, samples) = video_samples(&frames, 1);
    assert_eq!(base, 0);
    // DTS = sorted PTS = [0,1,2,3] in decode order; monotonic, durations exact.
    let mut dts = 0i64;
    for (i, s) in samples.iter().enumerate() {
        // presentation time = dts + cts must equal the original PTS.
        assert_eq!(dts + s.cts_offset as i64, frames[i].pts_ticks);
        dts += s.duration as i64;
    }
    // Durations sum to the full presentation span (no drift): 1+1+1+1 = 4.
    let total: u32 = samples.iter().map(|s| s.duration).sum();
    assert_eq!(total, 4);
}

#[test]
fn webvtt_timestamps_use_dot_separator() {
    let cues = vec![SubtitleCue { start_ms: 61_500, end_ms: 65_000, text: "Hi".into() }];
    let vtt = cues_to_webvtt(&cues);
    assert!(vtt.starts_with("WEBVTT"));
    assert!(vtt.contains("00:01:01.500 --> 00:01:05.000"));
}

#[test]
fn webvtt_document_is_exact() {
    let cues = vec![
        SubtitleCue { start_ms: 0, end_ms: 999, text: "One \n\t".into() },
        SubtitleCue { start_ms: 360_000_000, end_ms: 360_001_001, text: "Two".into() },
    ];
    let vtt = cues_to_webvtt(&cues);
    assert_eq!(
        vtt,
        "WEBVTT\n\n00:00:00.000 --> 00:00:00.999\nOne\n\n100:00:00.000 --> 100:00:01.001\nTwo\n\n"
    );
    assert_eq!(cues_to_webvtt(&[]), "WEBVTT\n\n");
}

#[test]
fn video_samples_negative_and_empty() {
    let (base, samples) = video_samples(&[], 5);
    assert_eq!(base, 0);
    assert!(samples.is_empty());
    // negative times clamp the base to 0; the last sample uses the nominal duration
    let frames = vec![
        TimedFrame { pts_ticks: -2, data: vec![9, 8], is_keyframe: true },
        TimedFrame { pts_ticks: 4, data: vec![7], is_keyframe: false },
        TimedFrame { pts_ticks: 1, data: vec![], is_keyframe: false },
    ];
    let (base, samples) = video_samples(&frames, 0);
    assert_eq!(base, 0);
    let durs: Vec<u32> = samples.iter().map(|s| s.duration).collect();
    assert_eq!(durs, vec![3, 3, 1]);
    let cts: Vec<i32> = samples.iter().map(|s| s.cts_offset).collect();
    assert_eq!(cts, vec![0, 3, -3]);
    assert_eq!(samples[0].data, vec![9, 8]);
    assert!(samples[0].is_sync && !samples[1].is_sync);
    let (base, _) = video_samples(&[TimedFrame { pts_ticks: 77, data: vec![], is_keyframe: true }], 4);
    assert_eq!(base, 77);
}

#[test]
fn audio_samples_use_sample_timeline() {
    let frames = vec![
        TimedFrame { pts_ticks: 1500, data: vec![1], is_keyframe: false },
        TimedFrame { pts_ticks: 1521, data: vec![2, 3], is_keyframe: false },
    ];
    // 1500 ms at 48 kHz = 72000 samples
    let (base, samples) = audio_samples(&frames, 1024, 48000, 1_000_000);
    assert_eq!(base, 72000);
    assert_eq!(samples.len(), 2);
    assert!(samples.iter().all(|s| s.duration == 1024 && s.cts_offset == 0 && s.is_sync));
    assert_eq!(samples[1].data, vec![2, 3]);
    let (base, samples) = audio_samples(&[], 1024, 48000, 1_000_000);
    assert_eq!((base, samples.len()), (0, 0));
    let neg = vec![TimedFrame { pts_ticks: -10, data: vec![], is_keyframe: true }];
    assert_eq!(audio_samples(&neg, 960, 48000, 1_000_000).0, 0);
}

#[test]
fn block_flags_and_vints() {
    let f = FrameFlags::parse(0b1000_1011);
    assert!(f.keyframe && f.invisible && f.discardable);
    assert_eq!(f.lacing, Lacing::Xiph);
    assert_eq!(lacing_from_flags(0b100), Lacing::FixedSize);
    assert_eq!(lacing_from_flags(0b110), Lacing::Ebml);
    assert_eq!(lacing_from_flags(0), Lacing::NoLacing);
    assert_eq!(read_vint(&[0x40, 0x02], 0), Some((2, 2)));
    assert_eq!(read_vint(&[0x00, 0x02], 0), None);
    assert_eq!(read_vint(&[0x40], 0), None);
    assert_eq!(read_svint(&[0xBF], 0), Some((0, 1)));
    assert_eq!(read_svint(&[0x80], 0), Some((-63, 1)));
}

#[test]
fn block_errors_and_group_keyframe() {
    assert!(parse_block(&[0x81, 0x00], true, false).is_none());
    assert!(parse_block(&[], true, false).is_none());
    // fixed lacing that does not divide evenly is rejected
    assert!(parse_block(&[0x81, 0, 0, 0x04, 0x01, 1, 2, 3], true, false).is_none());
    let b = parse_block(&[0x82, 0xFF, 0xFE, 0x00, 5], false, true).unwrap();
    assert_eq!(b.track_number, 2);
    assert_eq!(b.rel_timecode, -2);
    assert!(b.is_keyframe);
}

#[test]
fn audio_base_rounds_to_the_nearest_sample() {
    let frames = vec![TimedFrame { pts_ticks: 7, data: vec![1], is_keyframe: true }];
    // 7 ms at 44.1 kHz = 308.7 samples
    let (base, samples) = audio_samples(&frames, 1024, 44100, 1_000_000);
    assert_eq!(base, 309);
    assert_eq!((samples[0].duration, samples[0].cts_offset, samples[0].is_sync), (1024, 0, true));
    // 308.2 rounds down, an exact half rounds up
    let f2 = vec![TimedFrame { pts_ticks: 6989, data: vec![], is_keyframe: true }];
    assert_eq!(audio_samples(&f2, 1024, 44100, 1_000_000).0, 308_215);
    let f3 = vec![TimedFrame { pts_ticks: 1, data: vec![], is_keyframe: true }];
    assert_eq!(audio_samples(&f3, 1024, 500, 1_000_000).0, 1);
}

#[test]
fn laced_frames_fill_the_rest_of_the_block() {
    // Fixed lacing: 3 frames over 5 bytes do not divide evenly.
    assert_eq!(unlace(&[0x02, 1, 2, 3, 4, 5], 0, Lacing::FixedSize), None);
    // 3 frames over 6 bytes: two bytes each, together exactly the tail.
    let fixed = unlace(&[0x02, 1, 2, 3, 4, 5, 6], 0, Lacing::FixedSize).unwrap();
    assert_eq!(fixed, vec![vec![1, 2], vec![3, 4], vec![5, 6]]);
    // Xiph: sizes 2 and 1, the last frame takes what remains.
    let payload = [9, 0x02, 0x02, 0x01, 7, 8, 9, 10, 11];
    let xiph = unlace(&payload, 1, Lacing::Xiph).unwrap();
    assert_eq!(xiph.len(), 3);
    assert_eq!(xiph.concat(), vec![7, 8, 9, 10, 11]);
    // EBML: first size 1, then a difference of +1 (vint 0xC0 is 64, less the bias 63).
    let ebml = unlace(&[0x02, 0x81, 0xC0, 1, 2, 3, 4, 5, 6], 0, Lacing::Ebml).unwrap();
    assert_eq!(ebml, vec![vec![1], vec![2, 3], vec![4, 5, 6]]);
}

#[test]
fn video_timeline_without_a_default_duration() {
    // No DefaultDuration (d = 0): the last sample lasts one tick.
    let frames = vec![
        TimedFrame { pts_ticks: 10, data: vec![0], is_keyframe: true },
        TimedFrame { pts_ticks: 12, data: vec![1], is_keyframe: false },
        TimedFrame { pts_ticks: 11, data: vec![2], is_keyframe: false },
    ];
    let (base, samples) = video_samples(&frames, 0);
    assert_eq!(base, 10);
    let durations: Vec<u32> = samples.iter().map(|s| s.duration).collect();
    let offsets: Vec<i32> = samples.iter().map(|s| s.cts_offset).collect();
    assert_eq!(durations, vec![1, 1, 1]);
    assert_eq!(offsets, vec![0, 1, -1]);
    assert_eq!(durations.iter().sum::<u32>(), 12 - 10 + 1);
}
