use queenui::identity::identity_from_generated;
use queenui::identity::generate_identity;
use queenui::identity::loopback_subject_names;
use queenui::lifecycle::{join_result, start_step, JoinOutcome, StartAction, StartPhase};
use queenui::storage::{token_deletion, token_from_file, token_read_failure, TokenFileRemoval};
use queenui::protocol::command_body_digest;
use queenui::storage::check_pgn_path;
use queenui::events::{plan_account_event, AccountEvent, AccountEventAction};
use queenui::hex::encode_hex;
use queenui::identity::{
    enforce_private_key_permissions, fingerprint_hex, identity_from_parts, identity_plan,
    protect_private_key, unprotect_private_key, IdentityPlan,
};
use queenui::lifecycle::{
    interrupted_start_message, superseded_start_message, ActorStep, LifecycleQueue,
    NormalOperation, PriorityOperation, ACCOUNT_NORMAL_QUEUE,
};
use queenui::storage::{
    active_game_intents_path, check_recovery_state_size, config_path, is_valid_token_account,
    uncertain_challenge_creations_path, FileSecretStore, MemorySecretStore, PlatformSecretStore,
    SecretStore, PLATFORM_STORE_UNAVAILABLE,
};

fn event(kind: &str) -> AccountEvent {
    AccountEvent {
        kind: kind.into(),
        challenge_id: None,
        challenge_dest: None,
        challenger_id: None,
        game_id: None,
        game_opponent: None,
    }
}

#[test]
fn priority_stop_supersedes_every_waiting_start() {
    let mut queue = LifecycleQueue::new();
    queue.send_normal(1, NormalOperation::StartBot).unwrap();
    queue.send_normal(2, NormalOperation::StartCampaign).unwrap();
    queue.send_priority(3, PriorityOperation::StopBot).unwrap();
    match queue.next_step() {
        ActorStep::RunPriority { id, operation, superseded } => {
            assert_eq!((id, operation), (3, PriorityOperation::StopBot));
            assert_eq!(superseded, vec![1, 2]);
        }
        _ => panic!("the stop runs first"),
    }
    assert!(matches!(queue.next_step(), ActorStep::Idle));
    queue.send_normal(4, NormalOperation::StartBot).unwrap();
    match queue.next_step() {
        ActorStep::RunNormal { id, operation } => {
            assert_eq!((id, operation), (4, NormalOperation::StartBot))
        }
        _ => panic!("the start runs"),
    }
    assert_eq!(
        superseded_start_message(),
        "The lifecycle operation was superseded by priority Stop"
    );
    assert_eq!(
        interrupted_start_message(true),
        "The lifecycle operation was interrupted by priority Stop"
    );
    assert_eq!(
        interrupted_start_message(false),
        "The lifecycle operation was cancelled after its bounded interrupt budget"
    );
}

#[test]
fn lifecycle_lanes_are_bounded() {
    let mut queue = LifecycleQueue::new();
    for id in 0..ACCOUNT_NORMAL_QUEUE as u64 {
        queue.send_normal(id, NormalOperation::StartBot).unwrap();
    }
    assert_eq!(
        queue.send_normal(99, NormalOperation::StartBot).unwrap_err(),
        "The account lifecycle queue is full"
    );
    assert_eq!(queue.reject_queued_normal().len(), ACCOUNT_NORMAL_QUEUE);
    for id in 0..8 {
        queue.send_priority(id, PriorityOperation::StopCampaign).unwrap();
    }
    assert!(queue.send_priority(9, PriorityOperation::StopCampaign).is_err());
}

#[test]
fn incoming_challenges_are_declined_unless_the_bot_sent_them() {
    let mut incoming = event("challenge");
    incoming.challenge_id = Some("c1".into());
    incoming.challenger_id = Some("human".into());
    match plan_account_event(&incoming, "bot", "Bot").unwrap().action {
        AccountEventAction::Decline { challenge_id } => assert_eq!(challenge_id, "c1"),
        _ => panic!("expected a decline"),
    }
    incoming.challenger_id = Some("BOT".into());
    assert!(matches!(
        plan_account_event(&incoming, "bot", "Bot").unwrap().action,
        AccountEventAction::Nothing
    ));
}

#[test]
fn game_start_plays_and_resolving_events_forget_challenges() {
    let mut start = event("gameStart");
    assert_eq!(
        plan_account_event(&start, "bot", "Bot").err().unwrap(),
        "Lichess sent a game start without a game id"
    );
    start.game_id = Some("g1".into());
    start.game_opponent = Some("Opponent".into());
    let plan = plan_account_event(&start, "bot", "Bot").unwrap();
    assert!(plan.record_campaign);
    assert!(plan.forget.is_none());
    match plan.action {
        AccountEventAction::StartGame { game_id, opponent } => {
            assert_eq!((game_id.as_str(), opponent.as_deref()), ("g1", Some("Opponent")))
        }
        _ => panic!("expected a game start"),
    }

    let mut declined = event("challengeDeclined");
    declined.challenge_id = Some("c9".into());
    declined.challenge_dest = Some("Human".into());
    let plan = plan_account_event(&declined, "bot", "Bot").unwrap();
    let forget = plan.forget.unwrap();
    assert_eq!((forget.challenge_id.as_str(), forget.opponent.as_deref()), ("c9", Some("Human")));
    assert!(plan.record_campaign);

    let mut finished = event("gameFinish");
    finished.game_id = Some("g1".into());
    let plan = plan_account_event(&finished, "bot", "Bot").unwrap();
    assert_eq!(plan.forget.unwrap().challenge_id, "g1");

    let plan = plan_account_event(&event("ping"), "bot", "Bot").unwrap();
    assert!(!plan.record_campaign);
    assert!(plan.forget.is_none());
    assert!(matches!(plan.action, AccountEventAction::Nothing));
}

#[test]
fn recovery_files_live_in_the_data_directory() {
    assert_eq!(active_game_intents_path("/data"), "/data/active-games.json");
    assert_eq!(
        uncertain_challenge_creations_path("/data/"),
        "/data/uncertain-challenge-creations.json"
    );
    assert_eq!(config_path(""), "queenui.json");
    assert!(check_recovery_state_size(262_144, "Active game").is_ok());
    assert_eq!(
        check_recovery_state_size(262_145, "Active game").unwrap_err(),
        "Active game recovery state exceeds 256 KiB"
    );
}

#[test]
fn file_secret_store_names_one_file_per_valid_account() {
    let store = FileSecretStore::new("/secrets".into());
    assert_eq!(store.path("bot_1-a").unwrap(), "/secrets/bot_1-a.token");
    for bad in ["", "../bot", "a/b", "bot.token", "bøt"] {
        assert_eq!(store.path(bad).unwrap_err(), "Invalid account id for token storage", "{bad}");
    }
    assert!(is_valid_token_account("Bot-1_x"));
    assert!(!is_valid_token_account("bot "));
}

#[test]
fn memory_secret_store_replaces_deletes_and_can_fail_deletes() {
    let mut store = MemorySecretStore::with("bot", "token");
    assert_eq!(store.get("bot").unwrap(), "token");
    store.store("bot", "replacement").unwrap();
    assert_eq!(store.get("bot").unwrap(), "replacement");
    assert_eq!(store.get("other").unwrap_err(), "Missing scripted secret");
    store.delete("bot").unwrap();
    assert!(!store.contains("bot"));
    store.delete("bot").unwrap();
    store.store("bot", "again").unwrap();
    store.fail_deletes_with("keyring locked");
    assert_eq!(store.delete("bot").unwrap_err(), "keyring locked");
    assert!(store.contains("bot"));
}

#[test]
fn platform_store_is_unavailable_off_windows() {
    let mut store = PlatformSecretStore;
    assert_eq!(store.store("bot", "t").unwrap_err(), PLATFORM_STORE_UNAVAILABLE);
    assert_eq!(store.get("bot").unwrap_err(), PLATFORM_STORE_UNAVAILABLE);
    assert!(store.delete("bot").is_ok());
}

#[test]
fn private_key_is_separate_and_owner_only() {
    assert_eq!(identity_plan(true, true).unwrap(), IdentityPlan::Load);
    assert_eq!(identity_plan(false, false).unwrap(), IdentityPlan::Create);
    assert_eq!(
        identity_plan(true, false).unwrap_err(),
        "Runner TLS identity is incomplete; restore both the certificate and private key or initialize a fresh data directory"
    );
    assert!(identity_plan(false, true).is_err());
    assert!(enforce_private_key_permissions("/d/runner-key.der", 0o100600).is_ok());
    assert_eq!(
        enforce_private_key_permissions("/d/runner-key.der", 0o100644).unwrap_err(),
        "Runner private key /d/runner-key.der must have mode 0600 (found 0644)"
    );
    let stored = protect_private_key(b"key").unwrap();
    assert_eq!(unprotect_private_key(&stored).unwrap(), b"key".to_vec());
}

#[test]
fn identity_fingerprint_is_the_certificate_sha256() {
    let identity = identity_from_parts(b"abc".to_vec(), b"key".to_vec()).unwrap();
    assert_eq!(
        fingerprint_hex(&identity.fingerprint),
        "ba7816bf8f01cfea414140de5dae2223b00361a396177a9cb410ff61f20015ad"
    );
    assert_eq!(identity.private_key_der, b"key".to_vec());
    assert_eq!(
        identity_from_parts(Vec::new(), b"key".to_vec()).err().unwrap(),
        "Runner TLS identity files must not be empty"
    );
}

#[test]
fn hex_encoding_is_lowercase_two_digits_per_byte() {
    assert_eq!(encode_hex(&[0x00, 0x0f, 0xa0, 0xff]), "000fa0ff");
    assert_eq!(encode_hex(&[]), "");
}

#[test]
fn pgn_exports_need_an_absolute_pgn_path_without_parent_segments() {
    assert!(check_pgn_path("/home/me/games.PGN").is_ok());
    assert_eq!(check_pgn_path("/home/me/games.txt").unwrap_err(), "Choose a file with the .pgn extension.");
    assert_eq!(check_pgn_path("pgn").unwrap_err(), "Choose a file with the .pgn extension.");
    let relative = "Choose an absolute PGN path without \"..\" segments.";
    assert_eq!(check_pgn_path("games.pgn").unwrap_err(), relative);
    assert_eq!(check_pgn_path("/home/../etc/x.pgn").unwrap_err(), relative);
    assert!(check_pgn_path("/home/..x/x.pgn").is_ok());
}

#[test]
fn generated_identities_are_fresh_and_fingerprinted() {
    let first = generate_identity().unwrap();
    let second = generate_identity().unwrap();
    assert!(!first.certificate_der.is_empty());
    assert!(!first.private_key_der.is_empty());
    assert_eq!(first.fingerprint, command_body_digest(&first.certificate_der));
    assert_ne!(first.fingerprint, second.fingerprint);
}

#[test]
fn generated_parts_make_the_identity_or_report_the_failure() {
    let identity = identity_from_generated(Ok((b"abc".to_vec(), b"key".to_vec()))).unwrap();
    assert_eq!(identity.certificate_der, b"abc".to_vec());
    assert_eq!(identity.private_key_der, b"key".to_vec());
    assert_eq!(identity.fingerprint, command_body_digest(b"abc"));
    assert_eq!(
        identity_from_generated(Err("no entropy".into())).err().unwrap(),
        "Could not generate the runner TLS identity: no entropy"
    );
}

#[test]
fn the_runner_certificate_names_its_loopback_addresses() {
    assert_eq!(
        loopback_subject_names(),
        vec!["localhost".to_string(), "127.0.0.1".to_string(), "::1".to_string()]
    );
}

#[test]
fn token_files_are_trimmed_and_missing_files_count_as_deleted() {
    assert_eq!(token_from_file("lip_token\n"), "lip_token");
    assert_eq!(token_from_file("  lip_token  "), "lip_token");
    assert_eq!(token_read_failure("denied"), "Could not read the Lichess token: denied");
    assert!(token_deletion(TokenFileRemoval::Removed).is_ok());
    assert!(token_deletion(TokenFileRemoval::NotFound).is_ok());
    assert_eq!(
        token_deletion(TokenFileRemoval::Failed("busy".into())).unwrap_err(),
        "Could not delete the Lichess token: busy"
    );
}

#[test]
fn a_start_reconciles_ongoing_games_before_opening_the_stream() {
    assert!(matches!(start_step(StartPhase::PriorCleared { tasks_remain: false }), StartAction::ReserveSupervisor));
    match start_step(StartPhase::PriorCleared { tasks_remain: true }) {
        StartAction::Fail(e) => assert_eq!(e, "A prior game generation is still exiting; use Stop and wait before restarting"),
        _ => panic!("expected a refusal"),
    }
    assert!(matches!(start_step(StartPhase::Reserved(Ok(Some(3)))), StartAction::ReadOngoingGames));
    assert!(matches!(start_step(StartPhase::Reserved(Ok(None))), StartAction::AlreadyRunning));
    assert!(matches!(start_step(StartPhase::OngoingRead(Ok(()))), StartAction::ReconcileIntents));
    match start_step(StartPhase::OngoingRead(Err("timeout".into()))) {
        StartAction::ReleaseAndFail(e) => assert_eq!(e, "Could not reconcile ongoing games before start: timeout"),
        _ => panic!("expected the reservation to be released"),
    }
    assert!(matches!(start_step(StartPhase::IntentsReconciled(Ok(()))), StartAction::LaunchSupervisor));
    assert!(matches!(start_step(StartPhase::SupervisorInstalled(true)), StartAction::SpawnGames));
    match start_step(StartPhase::SupervisorInstalled(false)) {
        StartAction::CancelAndFail(e) => assert_eq!(e, "The account start was canceled before its supervisor launched"),
        _ => panic!("expected a cancellation"),
    }
    assert!(matches!(start_step(StartPhase::GamesSpawned(Ok(()))), StartAction::Started));
    assert!(matches!(start_step(StartPhase::GamesSpawned(Err("x".into()))), StartAction::StopAndFail(_)));
}

#[test]
fn task_joins_report_failures_and_timeouts() {
    assert!(join_result("account supervisor", JoinOutcome::Exited).is_ok());
    assert_eq!(
        join_result("account supervisor", JoinOutcome::Failed("task panicked".into())).unwrap_err(),
        "The account supervisor failed while joining: task panicked"
    );
    assert_eq!(
        join_result("game task", JoinOutcome::TimedOut).unwrap_err(),
        "The game task did not exit within 10 seconds and was aborted"
    );
}
