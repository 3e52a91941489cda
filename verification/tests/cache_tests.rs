use matroska_remux::range_cache::{
    after_window_fetch, assemble, cached_run_of, complete_len, fallback_fetch_end, fill_target, is_large_read,
    missing_span, note_fetched, parse_content_range_start, plan_window_fetch, seed_blocks,
    stream_range_end, stream_usable, FetchSource, FsSource, ReadAhead, StreamSource, BLOCK,
    WINDOW_BASE, WINDOW_CAP,
};
use matroska_remux::scan::{before_char, parse_i32, parse_u64, parse_u64_radix, strip_prefix, trim, trim_end, trim_start};

#[test]
fn content_range_start_is_read_from_the_header() {
    assert_eq!(parse_content_range_start("bytes 100-199/1000"), Some(100));
    assert_eq!(parse_content_range_start("  bytes 0-32767/*\r\n"), Some(0));
    assert_eq!(parse_content_range_start("bytes  5 -9/10"), Some(5));
    assert_eq!(parse_content_range_start("bytes +7-8/9"), Some(7));
    assert_eq!(parse_content_range_start("bytes -5/10"), None);
    assert_eq!(parse_content_range_start("items 0-1/2"), None);
    assert_eq!(parse_content_range_start("bytes"), None);
    assert_eq!(parse_content_range_start("bytes 18446744073709551616-1/2"), None);
    assert_eq!(parse_content_range_start("bytes 42/100"), Some(42));
}

#[test]
fn integers_parse_as_std_does() {
    for s in ["0", "42", "+42", "", "+", "-1", "4 2", "18446744073709551615", "18446744073709551616", "007"] {
        assert_eq!(parse_u64(s), s.parse::<u64>().ok(), "{s:?}");
    }
    for s in ["1A45DFA3", "ff", "+Ff", "g", "", "FFFFFFFFFFFFFFFF", "10000000000000000"] {
        assert_eq!(parse_u64_radix(s, 16), u64::from_str_radix(s, 16).ok(), "{s:?}");
    }
    for s in ["-2147483648", "2147483647", "2147483648", "-2147483649", "-0", "+5", "--5", "-", "1"] {
        assert_eq!(parse_i32(s), s.parse::<i32>().ok(), "{s:?}");
    }
}

#[test]
fn trimming_and_prefixes() {
    assert_eq!(trim("  a b \t\n"), "a b");
    assert_eq!(trim_start("\u{3000} x "), "x ");
    assert_eq!(trim_end(" x \u{2003}"), " x");
    assert_eq!(trim(" \n "), "");
    assert_eq!(strip_prefix("bytes 1-2", "bytes "), Some("1-2"));
    assert_eq!(strip_prefix("byte", "bytes "), None);
    assert_eq!(before_char("1-2/3", '/'), "1-2");
    assert_eq!(before_char("abc", '/'), "abc");
    assert_eq!(before_char("/abc", '/'), "");
}

#[test]
fn read_ahead_grows_on_sequential_reads() {
    let s0 = ReadAhead::new();
    assert_eq!(s0, ReadAhead { last_end: 0, window: WINDOW_BASE });
    assert_eq!(plan_window_fetch(s0, 0, 0), (0, 65535, 65536));
    let s1 = after_window_fetch(s0, 65536, 0, 65536);
    assert_eq!(s1, ReadAhead { last_end: 65536, window: 131072 });
    assert_eq!(plan_window_fetch(s1, 4, 4), (65536, 196607, 131072));
    // a far jump is a seek: back to the base window
    assert_eq!(plan_window_fetch(s1, 1000, 1001), (16_384_000, 16_384_000 + 65535, 65536));
    // a short answer still moves the head, never backwards
    assert_eq!(after_window_fetch(s1, 131072, 0, 10).last_end, 65536);
    assert_eq!(after_window_fetch(s1, WINDOW_CAP, 0, 0).window, WINDOW_CAP);
    assert_eq!(after_window_fetch(s1, u64::MAX, 0, 0).window, WINDOW_CAP);
    assert_eq!(note_fetched(s1, 100_000), ReadAhead { last_end: 100_000, window: BLOCK });
    assert_eq!(note_fetched(s1, 10), ReadAhead { last_end: 65536, window: BLOCK });
    assert!(is_large_read(0, BLOCK + 1));
    assert!(!is_large_read(0, BLOCK));
}

#[test]
fn missing_blocks_are_found() {
    assert_eq!(missing_span(10, &[true, false, true, false, true]), Some((11, 13)));
    assert_eq!(missing_span(3, &[false]), Some((3, 3)));
    assert_eq!(missing_span(3, &[true, true]), None);
    assert_eq!(missing_span(3, &[]), None);
}

#[test]
fn fetched_data_is_cut_on_the_block_grid() {
    assert_eq!(
        seed_blocks(10_000, 40_000),
        vec![(16384, 6384, 16384), (32768, 22768, 16384), (49152, 39152, 848)]
    );
    assert_eq!(seed_blocks(0, 16384), vec![(0, 0, 16384)]);
    assert_eq!(seed_blocks(1, 100), vec![]);
    assert_eq!(complete_len(40_000), 32768);
    assert_eq!(complete_len(100), 0);
}

#[test]
fn streams_and_fallback_ranges() {
    assert!(stream_usable(false, 100, 200, 150));
    assert!(stream_usable(false, 100, 200, 200 + 524_288));
    assert!(!stream_usable(false, 100, 200, 200 + 524_289));
    assert!(!stream_usable(false, 100, 200, 99));
    assert!(!stream_usable(true, 100, 200, 150));
    assert_eq!(stream_range_end(0, 0), 16_777_215);
    assert_eq!(stream_range_end(0, 20_000_000), 20_004_863);
    assert_eq!(fill_target(100), 16384);
    assert_eq!(fill_target(16384), 32768);
    assert_eq!(fallback_fetch_end(0, 100), 1_048_575);
    assert_eq!(fallback_fetch_end(0, 2_000_000), 2_015_231);
}

#[test]
fn reads_are_put_together_from_blocks() {
    let full: Vec<u8> = (0..BLOCK as usize).map(|i| (i % 251) as u8).collect();
    let short: Vec<u8> = (0..100).map(|i| 200 + (i % 50) as u8).collect();
    let blocks = vec![full.clone(), short.clone()];
    let key0 = 5 * BLOCK;
    assert_eq!(assemble(key0 + 10, key0 + 19, &blocks), full[10..20].to_vec());
    let across = assemble(key0 + BLOCK - 4, key0 + BLOCK + 6, &blocks);
    assert_eq!(across, [&full[BLOCK as usize - 4..], &short[..7]].concat());
    // clamped at the end of the cached data
    let last = vec![short.clone()];
    assert_eq!(assemble(key0 + BLOCK + 90, key0 + BLOCK + 500, &last), short[90..].to_vec());
    assert_eq!(assemble(key0 + BLOCK + 100, key0 + BLOCK + 105, &last), Vec::<u8>::new());
    assert_eq!(assemble(key0 + 20, key0 + 10, &blocks), Vec::<u8>::new());
    // nothing past a short block counts
    let after_short = vec![short.clone(), full.clone()];
    assert_eq!(assemble(key0 + 98, key0 + 200, &after_short), short[98..].to_vec());
    assert_eq!(assemble(key0, key0 + 5, &vec![]), Vec::<u8>::new());
}

#[test]
fn sources_keep_their_location() {
    assert_eq!(FetchSource::new("http://h/a.mkv".to_string()).url, "http://h/a.mkv");
    assert_eq!(StreamSource::new("http://h/b.mkv".to_string()).url, "http://h/b.mkv");
    assert_eq!(FsSource::new("/tmp/c.mkv").file_path, "/tmp/c.mkv");
}

#[test]
fn stored_blocks_read_back() {
    let abs = 3 * BLOCK;
    let data: Vec<u8> = (0..40_000u32).map(|i| (i * 7 % 256) as u8).collect();
    let plan = seed_blocks(abs, data.len() as u64);
    let stored: Vec<(u64, Vec<u8>)> = plan
        .iter()
        .map(|&(off, rel, take)| (off, data[rel as usize..(rel + take) as usize].to_vec()))
        .collect();
    for (start, end) in [(abs, abs + 10), (abs + 20_000, abs + 30_000), (abs + 16_380, abs + 16_390), (abs + 39_990, abs + 39_999)] {
        let key = start / BLOCK * BLOCK;
        let from_key: Vec<Vec<u8>> = stored.iter().filter(|(off, _)| *off >= key).map(|(_, b)| b.clone()).collect();
        let got = assemble(start, end, &from_key);
        assert_eq!(got, data[(start - abs) as usize..=(end - abs) as usize].to_vec());
    }
}

#[test]
fn a_read_uses_the_cached_blocks_up_to_a_miss_or_a_short_block() {
    let b = BLOCK as usize;
    let full: Vec<u8> = (0..b).map(|i| (i % 251) as u8).collect();
    let short = vec![7u8, 8, 9];
    // a miss ends the run
    let run = cached_run_of(&vec![Some(full.clone()), None, Some(full.clone())]);
    assert_eq!(run, vec![full.clone()]);
    // a short block (the file's last) ends it too, and is kept
    let run = cached_run_of(&vec![Some(full.clone()), Some(short.clone()), Some(full.clone())]);
    assert_eq!(run, vec![full.clone(), short.clone()]);
    assert_eq!(cached_run_of(&vec![None, Some(full.clone())]), Vec::<Vec<u8>>::new());
    // a file of one full block and three bytes: a read past its end is clamped
    let start = BLOCK - 2;
    let end = BLOCK + 10;
    let got = assemble(start, end, &cached_run_of(&vec![Some(full.clone()), Some(short.clone())]));
    assert_eq!(got, vec![full[b - 2], full[b - 1], 7, 8, 9]);
    // a read that starts past the end gives nothing
    assert_eq!(assemble(BLOCK + 5, BLOCK + 6, &cached_run_of(&vec![Some(short.clone())])), Vec::<u8>::new());
}
