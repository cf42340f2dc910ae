use queenui::telemetry::{
    build_game_telemetry, config_fingerprint, count_blunders, eval_entry, fnv1a_64, BookSetup,
    EngineSetup, GameTelemetry, Mean, SearchScore, TelemetryCapture,
};

fn info(score_cp: Option<i32>, mate_in: Option<i32>, depth: Option<u32>) -> SearchScore {
    SearchScore { score_cp, mate_in, depth }
}

fn mean_value(mean: Option<Mean>) -> f64 {
    let mean = mean.expect("mean");
    mean.total as f64 / mean.count as f64
}

fn option(name: &str, value: Option<&str>) -> (String, Option<String>) {
    (name.to_string(), value.map(|v| v.to_string()))
}

fn book() -> BookSetup {
    BookSetup { path: "/books/main.bin".into(), enabled: true, max_plies: 12, top_move_percent: 80 }
}

fn profile(options: Vec<(String, Option<String>)>, opening_book: Option<BookSetup>) -> EngineSetup {
    EngineSetup { id: "stockfish".into(), options, opening_book }
}

#[test]
fn maps_scores_to_clamped_our_perspective_evals() {
    assert_eq!(eval_entry(Some(&info(Some(85), None, None)), None), 85);
    assert_eq!(eval_entry(Some(&info(Some(2500), None, None)), None), 1000);
    assert_eq!(eval_entry(Some(&info(Some(-4000), None, None)), None), -1000);
    assert_eq!(eval_entry(Some(&info(None, Some(4), None)), None), 1000);
    assert_eq!(eval_entry(Some(&info(None, Some(-2), None)), Some(300)), -1000);
    assert_eq!(eval_entry(None, Some(140)), 140);
    assert_eq!(eval_entry(None, None), 0);
    assert_eq!(eval_entry(Some(&info(None, None, Some(20))), Some(-60)), -60);
}

#[test]
fn capture_flattens_into_a_game_telemetry_record() {
    let mut capture = TelemetryCapture::new();
    capture.record_submission(None, 5, true);
    capture.record_submission(None, 7, true);
    capture.record_submission(Some(&info(Some(120), None, Some(22))), 900, false);
    capture.record_submission(Some(&info(Some(-150), None, Some(18))), 1_400, false);
    capture.record_submission(Some(&info(None, Some(-1), Some(30))), 700, false);
    capture.end_clock_ms = Some(12_345);
    capture.engine_restarts = 1;
    capture.stream_reconnects = 2;
    capture.submission_retries += 4;

    let telemetry = build_game_telemetry(&capture, "abcdefabcdef".into());
    assert_eq!(telemetry.eval_series_cp, vec![0, 0, 120, -150, -1000]);
    assert_eq!(telemetry.book_plies, 2);
    assert!((mean_value(telemetry.avg_depth) - 70.0 / 3.0).abs() < 1e-9);
    assert_eq!(telemetry.min_depth, Some(18));
    assert!((mean_value(telemetry.avg_move_time_ms) - 3_012.0 / 5.0).abs() < 1e-9);
    assert_eq!(telemetry.max_move_time_ms, Some(1_400));
    assert_eq!(telemetry.end_clock_ms, Some(12_345));
    assert_eq!(telemetry.engine_restarts, 1);
    assert_eq!(telemetry.stream_reconnects, 2);
    assert_eq!(telemetry.submission_retries, 4);
    assert_eq!(telemetry.max_eval_cp, Some(120));
    assert_eq!(telemetry.min_eval_cp, Some(-1000));
    assert_eq!(telemetry.blunders, 2);
    assert_eq!(telemetry.config_fingerprint.as_deref(), Some("abcdefabcdef"));
    assert!(!telemetry.failure_resign);
}

#[test]
fn empty_capture_produces_empty_aggregates() {
    let telemetry: GameTelemetry = build_game_telemetry(&TelemetryCapture::new(), "aaaaaaaaaaaa".into());
    assert!(telemetry.eval_series_cp.is_empty());
    assert!(telemetry.avg_depth.is_none());
    assert!(telemetry.min_depth.is_none());
    assert!(telemetry.avg_move_time_ms.is_none());
    assert!(telemetry.max_move_time_ms.is_none());
    assert!(telemetry.max_eval_cp.is_none());
    assert!(telemetry.min_eval_cp.is_none());
    assert_eq!(telemetry.blunders, 0);
}

#[test]
fn fingerprint_is_stable_and_sensitive_to_configuration() {
    let base = profile(vec![option("Hash", Some("256")), option("Threads", Some("4"))], Some(book()));
    let fingerprint = config_fingerprint(&base);
    assert_eq!(fingerprint.len(), 12);
    assert!(fingerprint.chars().all(|c| c.is_ascii_hexdigit()));
    assert_eq!(fingerprint, config_fingerprint(&base));
    let reordered =
        profile(vec![option("Threads", Some("4")), option("Hash", Some("256"))], Some(book()));
    assert_eq!(fingerprint, config_fingerprint(&reordered));
    let retuned = profile(vec![option("Hash", Some("512")), option("Threads", Some("4"))], Some(book()));
    assert_ne!(fingerprint, config_fingerprint(&retuned));
    let with_unset = profile(
        vec![option("Hash", Some("256")), option("Threads", Some("4")), option("SyzygyPath", None)],
        Some(book()),
    );
    assert_eq!(fingerprint, config_fingerprint(&with_unset));
    let no_book = profile(vec![option("Hash", Some("256")), option("Threads", Some("4"))], None);
    assert_ne!(fingerprint, config_fingerprint(&no_book));
    let mut shallow_book = book();
    shallow_book.max_plies = 6;
    let with_shallow_book =
        profile(vec![option("Hash", Some("256")), option("Threads", Some("4"))], Some(shallow_book));
    assert_ne!(fingerprint, config_fingerprint(&with_shallow_book));
}

#[test]
fn fnv1a_matches_known_vectors() {
    assert_eq!(fnv1a_64(""), 0xcbf2_9ce4_8422_2325);
    assert_eq!(fnv1a_64("a"), 0xaf63_dc4c_8601_ec8c);
    assert_eq!(fnv1a_64("foobar"), 0x85944171f73967e8);
}

#[test]
fn fnv1a_hashes_the_utf8_bytes_of_non_ascii_text() {
    // "é" is the two bytes C3 A9.
    let mut expected: u64 = 0xcbf2_9ce4_8422_2325;
    for byte in [0xC3u8, 0xA9u8] {
        expected = (expected ^ byte as u64).wrapping_mul(0x0000_0100_0000_01b3);
    }
    assert_eq!(fnv1a_64("é"), expected);
}

#[test]
fn fingerprint_is_the_hex_prefix_of_the_canonical_text_hash() {
    let setup = profile(vec![option("Threads", Some("4")), option("Hash", Some("256"))], Some(book()));
    let canonical = "engine=stockfish\nHash=256\nThreads=4\nbook=/books/main.bin|enabled=true|maxPlies=12|percent=80";
    let expected = format!("{:016x}", fnv1a_64(canonical));
    assert_eq!(config_fingerprint(&setup), expected[..12]);
    let bare = profile(Vec::new(), None);
    let expected_bare = format!("{:016x}", fnv1a_64("engine=stockfish\n\nbook=none"));
    assert_eq!(config_fingerprint(&bare), expected_bare[..12]);
}

#[test]
fn blunders_count_drops_of_more_than_the_threshold() {
    assert_eq!(count_blunders(&vec![]), 0);
    assert_eq!(count_blunders(&vec![100]), 0);
    // A drop of 199 is not a blunder; 200 is.
    assert_eq!(count_blunders(&vec![100, -99]), 0);
    assert_eq!(count_blunders(&vec![100, -100]), 1);
    // Rises never count.
    assert_eq!(count_blunders(&vec![-1000, 1000, 0, -500]), 2);
}

#[test]
fn negative_move_times_are_recorded_as_zero_and_depthless_searches_add_no_depth() {
    let mut capture = TelemetryCapture::new();
    capture.record_submission(Some(&info(Some(30), None, None)), -5, false);
    assert_eq!(capture.move_times_ms, vec![0]);
    assert!(capture.depths.is_empty());
    assert_eq!(capture.eval_series_cp, vec![30]);
    assert_eq!(capture.book_plies, 0);
}
