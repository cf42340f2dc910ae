use queenui::game::GameContext;
use queenui::game_step::{game_event_step, GameAction, GameEventFields, GameEventStep, ParsedPosition};
use queenui::telemetry::TelemetryCapture;

fn fresh() -> GameContext {
    GameContext {
        initial_fen: "startpos".into(),
        color: String::new(),
        opponent: String::new(),
        bot_rating: None,
        opponent_rating: None,
        rated: false,
        clock_limit: None,
        clock_increment: None,
        speed: None,
        last_searched_moves: None,
        automation_halted: false,
        telemetry: TelemetryCapture::new(),
    }
}

fn event(kind: &str) -> GameEventFields {
    GameEventFields {
        kind: kind.into(),
        initial_fen: None,
        rated: None,
        speed: None,
        clock_initial_ms: None,
        clock_increment_ms: None,
        white_id: String::new(),
        black_id: String::new(),
        white_name: None,
        black_name: None,
        white_rating: None,
        black_rating: None,
        status: None,
        winner: None,
        white_time: None,
        black_time: None,
        white_increment: None,
        black_increment: None,
    }
}

fn position(moves: &str, white_to_move: bool) -> Result<ParsedPosition, String> {
    Ok(ParsedPosition { initial_fen: "startpos".into(), moves: moves.into(), white_to_move })
}

fn full_as_white() -> GameEventFields {
    let mut e = event("gameFull");
    e.rated = Some(true);
    e.clock_initial_ms = Some(180_000);
    e.clock_increment_ms = Some(2_000);
    e.white_id = "mybot".into();
    e.black_id = "rival".into();
    e.black_name = Some("Rival".into());
    e.white_rating = Some(2100);
    e.black_rating = Some(1900);
    e.white_time = Some(180_000);
    e.black_time = Some(180_000);
    e
}

#[test]
fn a_game_full_names_the_players_and_a_search_follows_on_the_bot_turn() {
    let mut context = fresh();
    let step = game_event_step(&mut context, "MyBot", "MyBot", Some(2000), &full_as_white(), &position("", true), None, false, 7)
        .unwrap();
    assert_eq!(context.color, "white");
    assert_eq!(context.opponent, "Rival");
    assert_eq!(context.clock_limit, Some(180));
    assert_eq!(context.clock_increment, Some(2));
    assert!(context.rated);
    assert_eq!(context.last_searched_moves.as_deref(), Some(""));
    match step {
        GameEventStep::Update { game, action } => {
            assert!(matches!(action, GameAction::Search));
            assert_eq!(game.status, "started");
            assert_eq!(game.result, None);
            assert_eq!(game.bot_rating, Some(2100));
            assert_eq!(game.clock_updated_at, 7);
        }
        GameEventStep::Ignore => panic!("a gameFull is never ignored"),
    }

    // The same position again is not searched twice.
    let mut state = event("gameState");
    state.status = Some("started".into());
    let again = game_event_step(&mut context, "MyBot", "MyBot", None, &state, &position("", true), None, true, 8).unwrap();
    match again {
        GameEventStep::Update { game, action } => {
            assert!(matches!(action, GameAction::Wait));
            assert!(game.engine_thinking);
        }
        GameEventStep::Ignore => panic!("a gameState is never ignored"),
    }
}

#[test]
fn a_book_move_is_played_when_the_book_offers_one() {
    let mut context = fresh();
    let step = game_event_step(&mut context, "mybot", "MyBot", None, &full_as_white(), &position("", true), Some("e2e4".into()), false, 1)
        .unwrap();
    match step {
        GameEventStep::Update { action: GameAction::Book { book_move }, .. } => assert_eq!(book_move, "e2e4"),
        _ => panic!("expected a book move"),
    }
}

#[test]
fn a_finished_game_completes_with_its_result_and_the_bot_clock() {
    let mut context = fresh();
    game_event_step(&mut context, "mybot", "MyBot", None, &full_as_white(), &position("", true), None, false, 1).unwrap();
    let mut state = event("gameState");
    state.status = Some("mate".into());
    state.winner = Some("black".into());
    state.white_time = Some(4_200);
    state.black_time = Some(9_000);
    let step = game_event_step(&mut context, "mybot", "MyBot", None, &state, &position("e2e4 e7e5", true), None, true, 2)
        .unwrap();
    match step {
        GameEventStep::Update { game, action } => {
            assert!(matches!(action, GameAction::Complete { end_clock_ms: 4_200 }));
            assert_eq!(game.result.as_deref(), Some("0-1"));
            assert!(!game.engine_thinking);
        }
        GameEventStep::Ignore => panic!("a gameState is never ignored"),
    }
    assert_eq!(context.telemetry.end_clock_ms, Some(4_200));
}

#[test]
fn other_events_are_ignored_and_strangers_refused() {
    let mut context = fresh();
    let step = game_event_step(&mut context, "mybot", "MyBot", None, &event("chatLine"), &position("", true), None, false, 1)
        .unwrap();
    assert!(matches!(step, GameEventStep::Ignore));
    assert_eq!(context.color, "");

    let mut stranger = full_as_white();
    stranger.white_id = "someone".into();
    let error = game_event_step(&mut context, "mybot", "MyBot", None, &stranger, &position("", true), None, false, 1);
    assert_eq!(error.err().unwrap(), "Could not determine the bot's color in the game");

    let bad = game_event_step(&mut context, "mybot", "MyBot", None, &full_as_white(), &Err("illegal move e2e5".into()), None, false, 1);
    assert_eq!(bad.err().unwrap(), "illegal move e2e5");
}
