use queenui::game::decide_failed_submission;
use queenui::game::jittered_retry_delay;
use queenui::game::skipped_lines_message;
use queenui::game::on_search_failed;
use queenui::game::{book_line, clock_seconds, search_stall_message, stream_interrupted_message};
use queenui::game::{after_failed_submission, SubmissionStep};
use queenui::game::{
    auto_resign_plan, bot_color, combine_session_outcome, context_clock_label, end_clock_ms,
    game_result, is_live, panic_detail, prune_finished_games, reconnect_banner, resignation_message,
    retry_clocks, same_engine_executable, search_retry_failure, session_end_status,
    should_auto_resign, should_search, submission_base_delay, submission_retry_delay,
    AutoResignReason, BotColor, GameContext, ReconnectStep, RetainedGame, StreamReconnect,
    SupervisorBackoff, MAX_FINISHED_GAMES, MAX_RETAINED_ERROR_GAMES,
};
use queenui::telemetry::TelemetryCapture;

fn game(account: &str, id: &str, status: &str, clock_updated_at: u64) -> RetainedGame {
    RetainedGame {
        account_id: account.to_string(),
        game_id: id.to_string(),
        status: status.to_string(),
        clock_updated_at,
    }
}

fn contains(games: &[RetainedGame], id: &str) -> bool {
    games.iter().any(|g| g.account_id == "account" && g.game_id == id)
}

fn context(color: &str) -> GameContext {
    GameContext {
        initial_fen: "startpos".into(),
        color: color.into(),
        opponent: "opponent".into(),
        bot_rating: None,
        opponent_rating: None,
        rated: false,
        clock_limit: None,
        clock_increment: None,
        speed: None,
        last_searched_moves: None,
        automation_halted: false,
        telemetry: TelemetryCapture::new(),
    }
}

#[test]
fn maps_terminal_lichess_states_to_pgn_results() {
    assert_eq!(game_result("started", None), None);
    assert_eq!(game_result("mate", Some("white")).as_deref(), Some("1-0"));
    assert_eq!(game_result("resign", Some("black")).as_deref(), Some("0-1"));
    assert_eq!(game_result("draw", None).as_deref(), Some("1/2-1/2"));
    assert_eq!(game_result("aborted", None).as_deref(), Some("*"));
}

#[test]
fn unstarted_and_winnerless_games_map_to_star_or_draw() {
    assert_eq!(game_result("created", Some("white")), None);
    assert_eq!(game_result("noStart", None).as_deref(), Some("*"));
    assert_eq!(game_result("stalemate", None).as_deref(), Some("1/2-1/2"));
    assert_eq!(game_result("outoftime", Some("black")).as_deref(), Some("0-1"));
}

#[test]
fn retry_delay_uses_typed_retry_after_and_policy_is_narrow() {
    assert_eq!(submission_retry_delay(Some(7_000), 1, false), 7_000);
    assert!(should_auto_resign(AutoResignReason::EngineUnavailable, true));
    assert!(!should_auto_resign(AutoResignReason::EngineUnavailable, false));
}

#[test]
fn submission_backoff_doubles_to_its_cap_and_retry_after_is_capped() {
    assert_eq!(submission_base_delay(None, 0), 250);
    assert_eq!(submission_base_delay(None, 1), 250);
    assert_eq!(submission_base_delay(None, 2), 500);
    assert_eq!(submission_base_delay(None, 5), 4_000);
    assert_eq!(submission_base_delay(None, 6), 5_000);
    assert_eq!(submission_base_delay(None, 40), 5_000);
    assert_eq!(submission_base_delay(Some(90_000), 1), 30_000);
    assert_eq!(submission_base_delay(Some(0), 3), 0);
}

#[test]
fn submission_jitter_stays_within_a_fifth_of_the_base() {
    for _ in 0..50 {
        let delay = submission_retry_delay(None, 3, true);
        assert!((1_000..=1_200).contains(&delay), "{delay}");
        let capped = submission_retry_delay(Some(30_000), 1, true);
        assert!((30_000..=30_500).contains(&capped), "{capped}");
        let tiny = submission_retry_delay(Some(3), 1, true);
        assert!((3..=4).contains(&tiny), "{tiny}");
    }
    assert_eq!(submission_retry_delay(Some(0), 1, true), 0);
}

#[test]
fn prunes_oldest_finished_games_and_keeps_running_ones() {
    let mut games = Vec::new();
    for index in 0..(MAX_FINISHED_GAMES + 10) {
        games.push(game("account", &format!("finished-{index}"), "mate", index as u64));
    }
    for index in 0..5 {
        games.push(game("account", &format!("running-{index}"), "started", 0));
    }
    let games = prune_finished_games(games);
    assert_eq!(games.len(), MAX_FINISHED_GAMES + 5);
    for index in 0..10 {
        assert!(!contains(&games, &format!("finished-{index}")));
    }
    assert!(contains(&games, "finished-10"));
    for index in 0..5 {
        assert!(contains(&games, &format!("running-{index}")));
    }
}

#[test]
fn pruning_is_a_no_op_below_the_limit() {
    let games = prune_finished_games(vec![game("account", "one", "resign", 1)]);
    assert_eq!(games.len(), 1);
}

#[test]
fn errored_game_survives_finished_pruning_and_snapshot_round_trip() {
    let mut games = vec![game("account", "error", "error", 0)];
    for index in 0..(MAX_FINISHED_GAMES + 10) {
        games.push(game("account", &format!("finished-{index}"), "mate", index as u64));
    }
    let games = prune_finished_games(games);
    assert_eq!(games.len(), MAX_FINISHED_GAMES + 1);
    let retained = games.iter().find(|g| g.game_id == "error").expect("errored game retained");

    let mut record = serde_json::Map::new();
    record.insert("id".into(), serde_json::Value::String(retained.game_id.clone()));
    record.insert("status".into(), serde_json::Value::String(retained.status.clone()));
    let snapshot = serde_json::Value::Array(vec![serde_json::Value::Object(record)]);
    let decoded: serde_json::Value =
        serde_json::from_str(&serde_json::to_string(&snapshot).unwrap()).unwrap();
    let decoded = decoded.as_array().unwrap();
    assert_eq!(decoded.len(), 1);
    assert_eq!(decoded[0]["id"], "error");
    assert_eq!(decoded[0]["status"], "error");
}

#[test]
fn retained_game_error_cap_drops_the_oldest_errors() {
    let mut games = Vec::new();
    for index in 0..(MAX_RETAINED_ERROR_GAMES + 10) {
        games.push(game("account", &format!("error-{index}"), "error", index as u64));
    }
    let games = prune_finished_games(games);
    assert_eq!(games.len(), MAX_RETAINED_ERROR_GAMES);
    for index in 0..10 {
        assert!(!contains(&games, &format!("error-{index}")));
    }
    assert!(contains(&games, "error-10"));
}

#[test]
fn only_started_and_created_games_count_as_live() {
    for status in ["started", "created"] {
        assert!(is_live(status), "{status}");
    }
    for status in [
        "mate", "resign", "stalemate", "timeout", "draw", "outoftime", "aborted", "noStart",
        "unknownFinish",
    ] {
        assert!(!is_live(status), "{status}");
    }
}

#[test]
fn bot_color_matches_id_or_username_ignoring_case() {
    assert_eq!(bot_color("MyBot", "human", "mybot", "MyBot").unwrap(), BotColor::White);
    assert_eq!(bot_color("human", "MYBOT", "bot-id", "mybot").unwrap(), BotColor::Black);
    assert_eq!(
        bot_color("a", "b", "bot", "Bot").unwrap_err(),
        "Could not determine the bot's color in the game"
    );
}

#[test]
fn search_happens_once_per_position_on_our_turn() {
    let mut ctx = context("white");
    assert!(should_search(&ctx, true, "e2e4 e7e5"));
    assert!(!should_search(&ctx, false, "e2e4"));
    ctx.last_searched_moves = Some("e2e4 e7e5".into());
    assert!(!should_search(&ctx, true, "e2e4 e7e5"));
    assert!(should_search(&ctx, true, "e2e4 e7e5 g1f3 b8c6"));
    ctx.automation_halted = true;
    assert!(!should_search(&ctx, true, "d2d4"));
    let black = context("black");
    assert!(should_search(&black, false, "e2e4"));
}

#[test]
fn restarted_engine_clocks_charge_only_the_bots_side() {
    assert_eq!(retry_clocks(&context("white"), 10_000, 9_000, 1_500), (8_500, 9_000));
    assert_eq!(retry_clocks(&context("black"), 10_000, 9_000, 1_500), (10_000, 7_500));
    assert_eq!(retry_clocks(&context("white"), i64::MIN + 1, 0, 10), (i64::MIN, 0));
    assert_eq!(end_clock_ms(&context("white"), 1, 2), 1);
    assert_eq!(end_clock_ms(&context("black"), 1, 2), 2);
}

#[test]
fn clock_labels_prefer_the_clock_then_the_speed() {
    let mut ctx = context("white");
    assert_eq!(context_clock_label(&ctx), "unknown");
    ctx.speed = Some("blitz".into());
    assert_eq!(context_clock_label(&ctx), "blitz");
    ctx.clock_limit = Some(180);
    ctx.clock_increment = Some(2);
    assert_eq!(context_clock_label(&ctx), "180+2");
}

#[test]
fn auto_resign_requires_the_game_in_the_authoritative_list() {
    assert!(auto_resign_plan(&Ok(vec!["a".into(), "g1".into()]), "g1").is_ok());
    assert_eq!(
        auto_resign_plan(&Ok(vec!["a".into()]), "g1").unwrap_err(),
        "Authoritative account state no longer lists this game as ongoing"
    );
    assert_eq!(
        auto_resign_plan(&Err("timeout".into()), "g1").unwrap_err(),
        "Could not reconcile authoritative ongoing games before auto-resign: timeout"
    );
}

#[test]
fn failure_messages_name_both_errors() {
    assert_eq!(
        resignation_message("boom", &Ok(())),
        "Engine recovery failed, so QueenUI resigned cleanly instead of disconnecting: boom"
    );
    assert_eq!(
        resignation_message("boom", &Err("429".into())),
        "Engine recovery failed. QueenUI kept the game stream connected, but could not submit a resignation: boom; 429"
    );
    assert_eq!(
        search_retry_failure("a", "b", true),
        "Initial search failed (a); the restarted engine also failed (b)"
    );
    assert_eq!(
        search_retry_failure("a", "b", false),
        "Initial search failed (a); the engine could not be restarted (b)"
    );
    assert_eq!(session_end_status("started"), "stopped");
    assert_eq!(session_end_status("mate"), "mate");
    assert_eq!(
        combine_session_outcome(Err("a".into()), Err("b".into())).unwrap_err(),
        "a; b"
    );
    assert_eq!(combine_session_outcome(Ok(()), Err("b".into())).unwrap_err(), "b");
    assert!(combine_session_outcome(Ok(()), Ok(())).is_ok());
    assert_eq!(panic_detail(None), "unknown panic payload");
    assert_eq!(panic_detail(Some("oops".into())), "oops");
}

#[test]
fn stream_reconnect_doubles_and_gives_up_after_ten_minutes() {
    let mut reconnect = StreamReconnect::new();
    let mut delays = Vec::new();
    for now in [0u64, 1_000, 2_000, 3_000, 4_000, 5_000, 6_000] {
        match reconnect.on_failure(now, false, "reset", "g1") {
            ReconnectStep::Retry { delay_ms } => delays.push(delay_ms),
            ReconnectStep::GiveUp(message) => panic!("{message}"),
        }
    }
    assert_eq!(delays, vec![250, 500, 1_000, 2_000, 4_000, 5_000, 5_000]);
    match reconnect.on_failure(600_000, false, "reset", "g1") {
        ReconnectStep::GiveUp(message) => assert_eq!(
            message,
            "Gave up reconnecting to game g1 after 10 minutes of failures without auto-resigning an unreconciled game: reset"
        ),
        ReconnectStep::Retry { .. } => panic!("expected to give up"),
    }
    reconnect.on_data();
    assert_eq!(reconnect.delay_ms, 250);
    assert_eq!(reconnect.failing_since_ms, None);
    match reconnect.on_failure(0, true, "404", "g1") {
        ReconnectStep::GiveUp(message) => {
            assert_eq!(message, "Lichess rejected the game stream permanently: 404")
        }
        ReconnectStep::Retry { .. } => panic!("expected a permanent failure"),
    }
}

#[test]
fn supervisor_backoff_caps_and_resets_after_a_healthy_stream() {
    let mut backoff = SupervisorBackoff::new();
    assert_eq!(backoff.sleep_seconds(false), 1);
    assert_eq!(backoff.sleep_seconds(true), 60);
    for _ in 0..10 {
        backoff.advance();
    }
    assert_eq!(backoff.retry_delay_s, 20);
    backoff.after_stream(30_000);
    assert_eq!(backoff.retry_delay_s, 20);
    backoff.after_stream(30_001);
    assert_eq!(backoff.retry_delay_s, 1);
}

#[test]
fn reconnect_banner_renders_seconds_with_two_decimals() {
    assert_eq!(
        reconnect_banner("stream closed", 1_250),
        "stream closed. Reconnecting without leaving the game in 1.25s…"
    );
    assert_eq!(
        reconnect_banner("x", 5_000),
        "x. Reconnecting without leaving the game in 5.00s…"
    );
    assert_eq!(reconnect_banner("x", 250), "x. Reconnecting without leaving the game in 0.25s…");
    assert_eq!(reconnect_banner("x", 60_070), "x. Reconnecting without leaving the game in 60.07s…");
}

#[test]
fn engine_paths_compare_by_canonical_form_when_available() {
    assert!(same_engine_executable("/a/sf", "/b/sf", Some(("/x/sf".into(), "/x/sf".into()))));
    assert!(!same_engine_executable("/a/sf", "/a/sf", Some(("/x".into(), "/y".into()))));
    assert!(same_engine_executable("/a/sf", "/a/sf", None));
    assert!(!same_engine_executable("/a/sf", "/b/sf", None));
}

#[test]
fn pruning_caps_both_classes_together_and_keeps_order() {
    let mut games = Vec::new();
    for index in 0..40u64 {
        games.push(game("account", &format!("error-{index}"), "error", 1_000 - index));
    }
    for index in 0..70u64 {
        games.push(game("account", &format!("finished-{index}"), "resign", index));
    }
    for index in 0..3 {
        games.push(game("account", &format!("running-{index}"), "created", 0));
    }
    let kept = prune_finished_games(games);
    assert_eq!(kept.iter().filter(|g| g.status == "error").count(), MAX_RETAINED_ERROR_GAMES);
    assert_eq!(kept.iter().filter(|g| g.status == "resign").count(), MAX_FINISHED_GAMES);
    assert_eq!(kept.iter().filter(|g| g.status == "created").count(), 3);
    // The newest errors are the first 32 by index (their clocks count down).
    assert!(contains(&kept, "error-0") && contains(&kept, "error-31") && !contains(&kept, "error-32"));
    // Survivors keep their relative order.
    let positions: Vec<usize> = kept
        .iter()
        .filter(|g| g.status == "resign")
        .map(|g| g.game_id.trim_start_matches("finished-").parse().unwrap())
        .collect();
    assert_eq!(positions, (20..70).collect::<Vec<usize>>());
}

#[test]
fn pruning_at_the_limits_keeps_everything_in_order() {
    let mut games = Vec::new();
    for index in 0..MAX_RETAINED_ERROR_GAMES {
        games.push(game("account", &format!("error-{index}"), "error", index as u64));
    }
    for index in 0..MAX_FINISHED_GAMES {
        games.push(game("account", &format!("finished-{index}"), "draw", index as u64));
    }
    let ids: Vec<String> = games.iter().map(|g| g.game_id.clone()).collect();
    let kept = prune_finished_games(games);
    assert_eq!(kept.iter().map(|g| g.game_id.clone()).collect::<Vec<_>>(), ids);
}

#[test]
fn equal_clocks_are_ordered_by_account_then_game_id() {
    let mut games = Vec::new();
    for index in 0..(MAX_RETAINED_ERROR_GAMES + 1) {
        games.push(game("account", &format!("e{index:02}"), "error", 5));
    }
    let kept = prune_finished_games(games);
    assert_eq!(kept.len(), MAX_RETAINED_ERROR_GAMES);
    // "e00" is the smallest key, so it is the oldest and dropped.
    assert!(!contains(&kept, "e00"));
    assert!(contains(&kept, "e01"));
}

fn failure(status: Option<u16>, rate_limited: bool, retry_after_ms: Option<u64>) -> queenui::game::SubmissionFailure {
    queenui::game::SubmissionFailure {
        status,
        auth_failure: false,
        not_found: false,
        rate_limited,
        retry_after_ms,
        message: "failed".into(),
    }
}

#[test]
fn typed_http_matrix_rejects_or_retries_only_the_intended_classes() {
    assert!(matches!(after_failed_submission(&failure(Some(400), false, None), true, 1, 0, 1_000, 2), SubmissionStep::Reconciled));
    assert!(matches!(after_failed_submission(&failure(Some(400), false, None), false, 1, 0, 1_000, 2), SubmissionStep::Rejected(_)));
    assert!(matches!(after_failed_submission(&failure(Some(404), false, None), false, 1, 0, 1_000, 2), SubmissionStep::Rejected(_)));
    let mut auth = failure(None, false, None);
    auth.auth_failure = true;
    assert!(matches!(after_failed_submission(&auth, false, 1, 0, 1_000, 2), SubmissionStep::Rejected(_)));
    match after_failed_submission(&failure(Some(429), true, Some(7_000)), false, 1, 0, 10_000, 3) {
        SubmissionStep::Retry { delay_ms } => assert!((7_000..=7_500).contains(&delay_ms), "{delay_ms}"),
        _ => panic!("a rate limit is retried"),
    }
    match after_failed_submission(&failure(Some(503), false, None), false, 1, 900, 1_000, 3) {
        SubmissionStep::Retry { delay_ms } => assert_eq!(delay_ms, 100),
        _ => panic!("a server error is retried within the budget"),
    }
    match after_failed_submission(&failure(None, false, None), false, 2, 0, 1_000, 2) {
        SubmissionStep::Exhausted(message) => assert_eq!(message, "failed"),
        _ => panic!("the attempts are exhausted"),
    }
}

#[test]
fn elapsed_budget_exhausts_ambiguity_before_the_attempt_limit() {
    assert!(matches!(
        after_failed_submission(&failure(None, false, None), false, 1, 1_000, 1_000, 10),
        SubmissionStep::Exhausted(_)
    ));
}

#[test]
fn jitter_is_added_only_to_a_nonzero_base_when_asked() {
    assert_eq!(jittered_retry_delay(None, 3, true, 150), 1_150);
    assert_eq!(jittered_retry_delay(None, 3, false, 150), 1_000);
    assert_eq!(jittered_retry_delay(Some(0), 1, true, 1), 0);
    assert_eq!(jittered_retry_delay(Some(90_000), 1, true, 500), 30_500);
}

#[test]
fn a_drawn_jitter_decides_the_retry_delay_exactly() {
    match decide_failed_submission(&failure(Some(503), false, None), false, 2, 100, 10_000, 5, 40) {
        SubmissionStep::Retry { delay_ms } => assert_eq!(delay_ms, 540),
        _ => panic!("expected a retry"),
    }
    match decide_failed_submission(&failure(Some(503), false, None), false, 2, 9_800, 10_000, 5, 40) {
        SubmissionStep::Retry { delay_ms } => assert_eq!(delay_ms, 200),
        _ => panic!("expected a retry cut to the budget"),
    }
    match decide_failed_submission(&failure(Some(429), true, Some(0)), false, 1, 0, 1_000, 5, 0) {
        SubmissionStep::Retry { delay_ms } => assert_eq!(delay_ms, 0),
        _ => panic!("a zero Retry-After retries at once"),
    }
}

#[test]
fn skipped_stream_lines_are_reported_with_their_count() {
    assert_eq!(skipped_lines_message(0), None);
    assert_eq!(
        skipped_lines_message(1).unwrap(),
        "Skipped 1 unreadable line on a game stream"
    );
    assert_eq!(
        skipped_lines_message(12).unwrap(),
        "Skipped 12 unreadable lines on a game stream"
    );
}

#[test]
fn game_full_clocks_are_whole_seconds() {
    assert_eq!(clock_seconds(Some(180_000)), Some(180));
    assert_eq!(clock_seconds(Some(2_500)), Some(2));
    assert_eq!(clock_seconds(Some(-1_500)), Some(-1));
    assert_eq!(clock_seconds(Some(i64::MIN)), Some(i64::MIN / 1000));
    assert_eq!(clock_seconds(None), None);
}

#[test]
fn book_moves_and_stalls_are_shown_on_the_game() {
    assert_eq!(book_line("Main", "e2e4", 25), "book Main · e2e4 · top 25% candidate pool");
    assert_eq!(
        search_stall_message("no bestmove"),
        "Engine search stalled; restarting it safely: no bestmove"
    );
}

#[test]
fn an_interrupted_event_stream_is_reported() {
    assert_eq!(
        stream_interrupted_message("connection reset"),
        "Lichess event stream interrupted: connection reset"
    );
}

#[test]
fn a_failed_search_halts_automation_and_marks_the_resignation() {
    let mut c = context("white");
    c.last_searched_moves = Some("e2e4".into());
    on_search_failed(&mut c);
    assert!(c.automation_halted);
    assert!(c.telemetry.failure_resign);
    assert_eq!(c.telemetry.engine_restarts, 0);
    assert_eq!(c.last_searched_moves.as_deref(), Some("e2e4"));
}
