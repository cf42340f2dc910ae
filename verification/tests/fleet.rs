use queenui::fleet::{
    check_bot_account, check_token_owner, disabled_games_message, intent_reconcile_failure,
    forget_removed_account, remove_lichess_account, superseded_book,
    switch_refused_reconcile_failure, validate_book_settings, AccountProfile, BookRef, EngineRecord,
    FleetConfig,
};
use queenui::game::{dismiss_game_error, RetainedGame};
use queenui::ownership::Ownership;
use queenui::storage::{MemorySecretStore, SecretStore};

fn engine(id: &str, path: &str, book: Option<(&str, &str)>) -> EngineRecord {
    EngineRecord {
        id: id.to_string(),
        path: path.to_string(),
        last_probed_at_ms: None,
        probe_ok: None,
        opening_book: book.map(|(path, name)| BookRef { path: path.to_string(), name: name.to_string() }),
    }
}

fn account(id: &str, engine_id: &str, enabled: bool) -> AccountProfile {
    AccountProfile {
        id: id.to_string(),
        username: id.to_uppercase(),
        engine_id: engine_id.to_string(),
        rating: Some(2000),
        enabled,
    }
}

fn fleet() -> FleetConfig {
    FleetConfig {
        engines: vec![
            engine("stockfish", "/engines/stockfish", Some(("/books/main.bin", "Main"))),
            engine("spare", "/engines/spare", None),
        ],
        accounts: vec![account("bot", "stockfish", true), account("other", "stockfish", false)],
        campaign_accounts: vec!["bot".to_string(), "other".to_string()],
    }
}

fn ids(engines: &[EngineRecord]) -> Vec<&str> {
    engines.iter().map(|engine| engine.id.as_str()).collect()
}

#[test]
fn opening_book_settings_are_bounded() {
    assert!(validate_book_settings(1, 1).is_ok());
    assert!(validate_book_settings(200, 100).is_ok());
    assert_eq!(
        validate_book_settings(0, 50).unwrap_err(),
        "Opening-book depth must be between 1 and 200 plies."
    );
    assert_eq!(
        validate_book_settings(201, 50).unwrap_err(),
        "Opening-book depth must be between 1 and 200 plies."
    );
    assert_eq!(
        validate_book_settings(20, 0).unwrap_err(),
        "Top-move selection must be between 1% and 100%."
    );
    assert_eq!(
        validate_book_settings(20, 101).unwrap_err(),
        "Top-move selection must be between 1% and 100%."
    );
}

#[test]
fn only_bot_accounts_are_automated() {
    assert_eq!(check_bot_account("", Some("BOT"), "bot").unwrap_err(), "Enter a Lichess API token.");
    assert_eq!(
        check_bot_account("lip_x", None, "human").unwrap_err(),
        "@human is not a Lichess BOT account. QueenUI will not automate moves on a human account."
    );
    assert!(check_bot_account("lip_x", Some("GM"), "titled").is_err());
    assert!(check_bot_account("lip_x", Some("BOT"), "bot").is_ok());
}

#[test]
fn replacement_token_must_belong_to_the_account() {
    assert!(check_token_owner("MyBot", "MyBot", "mybot", "MyBot").is_ok());
    assert_eq!(
        check_token_owner("other", "Other", "mybot", "MyBot").unwrap_err(),
        "The Lichess token belongs to @Other (other), but the selected account is @MyBot (mybot)."
    );
}

#[test]
fn an_engine_in_use_is_not_removed() {
    let mut config = fleet();
    assert_eq!(
        config.remove_engine("stockfish").unwrap_err(),
        "Assign another engine to every account using this profile before removing it."
    );
    assert_eq!(ids(&config.engines), vec!["stockfish", "spare"]);
    assert_eq!(config.remove_engine("missing").unwrap_err(), "Engine profile not found");
    assert_eq!(config.remove_engine("spare").unwrap(), None);
    assert_eq!(ids(&config.engines), vec!["stockfish"]);

    config.accounts.clear();
    assert_eq!(config.remove_engine("stockfish").unwrap(), Some("/books/main.bin".to_string()));
    assert!(config.engines.is_empty());
}

#[test]
fn opening_books_are_attached_and_cleared() {
    let mut config = fleet();
    assert_eq!(
        config.current_book("stockfish", "/books/main.bin"),
        (Some("Main".to_string()), Some("/books/main.bin".to_string()))
    );
    assert_eq!(config.current_book("stockfish", "/books/other.bin"), (None, Some("/books/main.bin".to_string())));
    assert_eq!(config.current_book("spare", "/books/main.bin"), (None, None));
    assert_eq!(config.current_book("missing", "/books/main.bin"), (None, None));

    let book = BookRef { path: "/books/spare.bin".into(), name: "Spare".into() };
    config.attach_opening_book("spare", book).unwrap();
    assert_eq!(config.engines[1].opening_book.as_ref().unwrap().name, "Spare");
    let book = BookRef { path: "/books/x.bin".into(), name: "X".into() };
    assert_eq!(config.attach_opening_book("missing", book).unwrap_err(), "Engine profile not found");

    assert_eq!(config.clear_opening_book("stockfish").unwrap(), Some("/books/main.bin".to_string()));
    assert!(config.engines[0].opening_book.is_none());
    assert_eq!(config.clear_opening_book("stockfish").unwrap(), None);
    assert_eq!(config.clear_opening_book("missing").unwrap_err(), "Engine profile not found");
}

#[test]
fn engine_changes_wait_for_stopped_bots() {
    let config = fleet();
    assert_eq!(config.accounts_using("stockfish"), vec!["bot".to_string(), "other".to_string()]);
    assert!(config.accounts_using("spare").is_empty());

    let mut ownership = Ownership::new();
    assert!(config.ensure_engine_idle(&ownership, "stockfish").is_ok());
    let generation = ownership.reserve_supervisor("other").unwrap().unwrap();
    assert!(ownership.install_supervisor("other", generation));
    assert_eq!(
        config.ensure_engine_idle(&ownership, "stockfish").unwrap_err(),
        "Stop every bot using this engine before changing its configuration."
    );
    assert!(config.ensure_engine_idle(&ownership, "spare").is_ok());
}

#[test]
fn an_account_changes_engine_only_while_stopped() {
    let mut config = fleet();
    let mut ownership = Ownership::new();
    let generation = ownership.reserve_supervisor("bot").unwrap().unwrap();
    assert!(ownership.install_supervisor("bot", generation));
    assert_eq!(
        config.update_account_engine(&ownership, "bot", "spare").unwrap_err(),
        "Stop the bot before changing its engine."
    );
    assert_eq!(
        config.update_account_engine(&ownership, "other", "missing").unwrap_err(),
        "Engine profile not found"
    );
    assert_eq!(
        config.update_account_engine(&ownership, "nobody", "spare").unwrap_err(),
        "Lichess account not found"
    );
    config.update_account_engine(&ownership, "other", "spare").unwrap();
    assert_eq!(config.accounts[1].engine_id, "spare");
    assert_eq!(config.accounts[0].engine_id, "stockfish");
}

#[test]
fn adding_an_account_needs_a_token_and_an_engine() {
    let config = fleet();
    assert_eq!(config.check_new_account("  \t ", "stockfish").unwrap_err(), "Enter a Lichess API token.");
    assert_eq!(
        config.check_new_account(" lip_token ", "missing").unwrap_err(),
        "Select a registered engine profile."
    );
    assert_eq!(config.check_new_account(" lip_token\n", "stockfish").unwrap(), "lip_token");
}

#[test]
fn a_known_account_keeps_whether_it_is_enabled() {
    let mut config = fleet();
    let stored = config.upsert_account(account("bot", "spare", false));
    assert!(stored.enabled);
    assert_eq!(stored.engine_id, "spare");
    assert_eq!(config.accounts.len(), 2);
    assert!(config.accounts[0].enabled);
    assert_eq!(config.accounts[0].engine_id, "spare");

    let stored = config.upsert_account(account("new", "spare", false));
    assert!(!stored.enabled);
    assert_eq!(config.accounts.len(), 3);
    assert_eq!(config.accounts[2].id, "new");
}

#[test]
fn removing_an_account_drops_its_campaign() {
    let mut config = fleet();
    config.remove_account("bot");
    assert_eq!(config.accounts.len(), 1);
    assert_eq!(config.accounts[0].id, "other");
    assert_eq!(config.campaign_accounts, vec!["other".to_string()]);
    assert_eq!(config.engines.len(), 2);
}

#[test]
fn a_registered_executable_is_not_registered_twice() {
    let mut config = fleet();
    let mut probed = engine("fresh", "/engines/spare", None);
    probed.last_probed_at_ms = Some(42);
    probed.probe_ok = Some(true);
    assert_eq!(
        config.register_probed_engine(probed, &vec![None, None]).unwrap_err(),
        "That engine executable is already registered."
    );
    assert_eq!(config.engines.len(), 2);
    assert_eq!(config.engines[1].last_probed_at_ms, Some(42));
    assert_eq!(config.engines[1].probe_ok, Some(true));

    let link = engine("link", "/usr/bin/stockfish-link", None);
    let canonical = vec![Some(("/engines/stockfish".to_string(), "/engines/stockfish".to_string())), None];
    assert!(config.register_probed_engine(link, &canonical).is_err());

    let new = engine("new", "/engines/new", None);
    config.register_probed_engine(new, &vec![None, None]).unwrap();
    assert_eq!(ids(&config.engines), vec!["stockfish", "spare", "new"]);
}

#[test]
fn a_failed_probe_is_recorded_on_the_profile() {
    let mut config = fleet();
    assert!(config.record_probe("/engines/stockfish", &vec![None, None], Some(7), Some(false)));
    assert_eq!(config.engines[0].probe_ok, Some(false));
    assert_eq!(config.engines[0].last_probed_at_ms, Some(7));
    assert!(!config.record_probe("/engines/unknown", &vec![None, None], Some(8), Some(false)));

    config.record_probe_of("spare", Some(9), Some(false)).unwrap();
    assert_eq!(config.engines[1].last_probed_at_ms, Some(9));
    assert_eq!(config.record_probe_of("missing", Some(9), Some(false)).unwrap_err(), "Engine profile not found");
}

fn retained(account: &str, id: &str, status: &str) -> RetainedGame {
    RetainedGame {
        account_id: account.to_string(),
        game_id: id.to_string(),
        status: status.to_string(),
        clock_updated_at: 1,
    }
}

#[test]
fn only_a_retained_error_is_dismissed() {
    let mut games = vec![retained("bot", "g1", "mate"), retained("bot", "g2", "error")];
    assert_eq!(
        dismiss_game_error(&mut games, "g1").unwrap_err(),
        "No retained game error was found for g1."
    );
    assert_eq!(games.len(), 2);
    dismiss_game_error(&mut games, "g2").unwrap();
    assert_eq!(games.len(), 1);
    assert_eq!(games[0].game_id, "g1");
}

#[test]
fn a_restart_starts_enabled_accounts_and_reconciles_disabled_intents() {
    let mut config = fleet();
    config.accounts.push(account("idle", "spare", false));
    let mut ownership = Ownership::new();
    ownership.add_active_intent("other", "g1");
    ownership.add_active_intent("bot", "g2");
    let plan = config.resume_plan(&ownership);
    assert_eq!(plan.start, vec!["bot".to_string()]);
    assert_eq!(plan.reconcile, vec!["other".to_string()]);

    assert_eq!(disabled_games_message(&vec![]), None);
    assert_eq!(
        disabled_games_message(&vec!["a".to_string(), "b".to_string()]).unwrap(),
        "Automation remains disabled, but Lichess still lists ongoing game(s) requiring operator resolution: a, b"
    );
    assert_eq!(
        intent_reconcile_failure("offline"),
        "Could not reconcile persisted game intent: offline"
    );
    assert_eq!(
        switch_refused_reconcile_failure("offline"),
        "Could not reconcile ongoing games after the runner switch was refused: offline"
    );
}

#[test]
fn a_refused_switch_resumes_ongoing_and_intended_games_once() {
    let config = fleet();
    assert_eq!(config.engine_of_account("spare").unwrap(), 1);
    assert_eq!(
        config.engine_of_account("gone").unwrap_err(),
        "The account's engine profile no longer exists"
    );
    let mut ownership = Ownership::new();
    ownership.add_active_intent("bot", "g3");
    ownership.add_active_intent("bot", "g1");
    ownership.add_active_intent("other", "g9");
    assert_eq!(ownership.intent_games_of("bot"), vec!["g3".to_string(), "g1".to_string()]);
    let games = ownership.games_to_resume("bot", &vec!["g2".to_string(), "g1".to_string()]);
    assert_eq!(games, vec!["g1".to_string(), "g2".to_string(), "g3".to_string()]);
}

#[test]
fn dismiss_game_error_removes_the_retained_game() {
    let mut games = vec![retained("bot", "failed-game", "error")];
    dismiss_game_error(&mut games, "failed-game").unwrap();
    assert!(games.is_empty());
    assert_eq!(
        dismiss_game_error(&mut games, "failed-game").unwrap_err(),
        "No retained game error was found for failed-game."
    );
}

#[test]
fn token_swap_refuses_a_token_for_a_different_username() {
    let mut secrets = MemorySecretStore::with("bot", "old-token");
    let config = FleetConfig {
        engines: vec![engine("engine", "unused-engine", None)],
        accounts: vec![AccountProfile {
            id: "bot".into(),
            username: "Bot".into(),
            engine_id: "engine".into(),
            rating: Some(2000),
            enabled: false,
        }],
        campaign_accounts: vec![],
    };
    let selected = &config.accounts[0];
    check_bot_account("wrong-token", Some("BOT"), "OtherBot").unwrap();
    let error = match check_token_owner("otherbot", "OtherBot", &selected.id, &selected.username) {
        Ok(()) => {
            secrets.store(&selected.id, "wrong-token").unwrap();
            String::new()
        }
        Err(error) => error,
    };
    assert_eq!(
        error,
        "The Lichess token belongs to @OtherBot (otherbot), but the selected account is @Bot (bot)."
    );
    assert_eq!(secrets.get("bot").unwrap(), "old-token");
}

#[test]
fn disabled_account_reconciles_persisted_intent_without_resuming_automation() {
    let config = FleetConfig {
        engines: vec![engine("engine", "unused-engine", None)],
        accounts: vec![account("bot", "engine", false)],
        campaign_accounts: vec![],
    };
    let mut ownership = Ownership::new();
    ownership.add_active_intent("bot", "game-1");
    let plan = config.resume_plan(&ownership);
    assert!(plan.start.is_empty());
    assert_eq!(plan.reconcile, vec!["bot".to_string()]);

    let ongoing = vec!["game-1".to_string()];
    ownership.reconcile_active_intents("bot", &ongoing);
    let error = disabled_games_message(&ongoing).unwrap();
    assert!(error.contains("Automation remains disabled"));
    assert!(!ownership.supervises("bot"));
}

#[test]
fn local_account_removal_deletes_secret_and_failure_keeps_account_and_token() {
    let single = || FleetConfig {
        engines: vec![engine("engine", "unused-engine", None)],
        accounts: vec![account("bot", "engine", false)],
        campaign_accounts: vec![],
    };
    let mut config = single();
    let mut secrets = MemorySecretStore::with("bot", "token");
    let mut ownership = Ownership::new();
    ownership.remember_known_outgoing_challenge("bot", "known", "Opponent");
    ownership.remember_uncertain_challenge_creation("bot", "Opponent");
    remove_lichess_account(&mut config, &mut ownership, &mut secrets, "bot").unwrap();
    assert!(!secrets.contains("bot"));
    assert!(config.accounts.is_empty());
    assert!(ownership.known.is_empty());
    assert!(ownership.uncertain.is_empty());

    let mut failed_config = single();
    let mut failed_secrets = MemorySecretStore::with("bot", "token");
    failed_secrets.fail_deletes_with("credential store is unavailable");
    let mut failed_ownership = Ownership::new();
    let error = remove_lichess_account(&mut failed_config, &mut failed_ownership, &mut failed_secrets, "bot")
        .unwrap_err();
    assert!(error.contains("credential store is unavailable"));
    assert!(failed_secrets.contains("bot"));
    assert_eq!(failed_config.accounts.len(), 1);
}

#[test]
fn a_replaced_opening_book_file_is_dropped_unless_reused() {
    assert_eq!(superseded_book(None, "/books/new.bin"), None);
    assert_eq!(superseded_book(Some("/books/new.bin".into()), "/books/new.bin"), None);
    assert_eq!(
        superseded_book(Some("/books/old.bin".into()), "/books/new.bin"),
        Some("/books/old.bin".to_string())
    );
}

#[test]
fn a_refused_token_deletion_is_passed_on_unchanged() {
    let mut config = fleet();
    let mut ownership = Ownership::new();
    ownership.remember_known_outgoing_challenge("bot", "known", "Opponent");
    let refused = forget_removed_account(&mut config, &mut ownership, Err("locked".to_string()), "bot");
    assert_eq!(refused.unwrap_err(), "locked");
    assert_eq!(config.accounts.len(), 2);
    assert_eq!(ownership.known.len(), 1);
    forget_removed_account(&mut config, &mut ownership, Ok(()), "bot").unwrap();
    assert_eq!(config.accounts.len(), 1);
    assert_eq!(config.campaign_accounts, vec!["other".to_string()]);
    assert!(ownership.known.is_empty());
}
