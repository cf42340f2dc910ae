use queenui::ownership::{
    authoritative_handover_verification_error, handover_verdict, stop_outcome, AccountObservation,
    CampaignSlot, GameReservation, HandleState, OutgoingChallenge, Ownership, StartPrecheck,
    QUIESCED_GAME_START,
};

fn running_supervisor(ownership: &mut Ownership, account: &str) -> u64 {
    let generation = ownership.reserve_supervisor(account).unwrap().expect("a new supervisor");
    assert!(ownership.install_supervisor(account, generation));
    generation
}

fn observation(username: &str, outgoing: &[&str], games: &[&str]) -> AccountObservation {
    AccountObservation {
        username: username.into(),
        outgoing_opponents: outgoing.iter().map(|s| s.to_string()).collect(),
        games: games.iter().map(|s| s.to_string()).collect(),
    }
}

#[test]
fn handover_inventory_counts_authoritative_ownership_unions() {
    let mut ownership = Ownership::new();
    let generation = running_supervisor(&mut ownership, "bot");
    assert!(matches!(
        ownership.reserve_game_task("bot", "reserved", generation, false),
        GameReservation::Reserved
    ));
    ownership.add_active_intent("bot", "reserved");
    ownership.add_active_intent("bot", "intent-only");
    ownership.remember_known_outgoing_challenge("bot", "one", "First");
    ownership.remember_known_outgoing_challenge("bot", "two", "Second");
    ownership.remember_uncertain_challenge_creation("bot", "Second");
    ownership.campaigns.push(CampaignSlot { account_id: "bot".into(), pending_challenges: 1 });

    assert_eq!(ownership.live_game_ownership_count(), 2);
    assert_eq!(ownership.outstanding_outgoing_challenge_count(), 2);
}

#[test]
fn outstanding_challenges_add_up_across_accounts() {
    let mut ownership = Ownership::new();
    ownership.remember_known_outgoing_challenge("a", "1", "X");
    ownership.remember_uncertain_challenge_creation("b", "Y");
    ownership.campaigns.push(CampaignSlot { account_id: "c".into(), pending_challenges: 3 });
    ownership.campaigns.push(CampaignSlot { account_id: "a".into(), pending_challenges: 2 });
    assert_eq!(ownership.outstanding_outgoing_challenge_count(), 2 + 1 + 3);
}

#[test]
fn finished_game_task_does_not_count_as_live_ownership() {
    let mut ownership = Ownership::new();
    let generation = running_supervisor(&mut ownership, "bot");
    assert!(matches!(
        ownership.reserve_game_task("bot", "finished", generation, false),
        GameReservation::Reserved
    ));
    assert!(ownership.install_game_task("bot", "finished", generation));
    assert_eq!(ownership.live_game_ownership_count(), 1);
    ownership.finish_game_task("bot", "finished", generation);
    assert_eq!(ownership.live_game_ownership_count(), 0);
    let reaped = ownership.reap_finished_game_tasks("bot");
    assert_eq!(reaped.len(), 1);
    assert_eq!(reaped[0].game_id, "finished");
    assert!(!ownership.account_has_game_tasks("bot"));
}

#[test]
fn quiesce_reports_locally_tracked_and_uncertain_outgoing_challenges() {
    let mut ownership = Ownership::new();
    ownership.remember_known_outgoing_challenge("bot", "challenge", "Opponent");
    assert_eq!(
        ownership.local_outgoing_challenge_error(true).as_deref(),
        Some("An outgoing challenge to Opponent is still unresolved; cancel it or let it resolve before switching to a runner.")
    );
    ownership.forget_known_outgoing_challenge("bot", "challenge");
    ownership.remember_uncertain_challenge_creation("bot", "OtherOpponent");
    assert_eq!(
        ownership.local_outgoing_challenge_error(true).as_deref(),
        Some("An outgoing challenge creation for bot against OtherOpponent is still uncertain; let QueenUI reconcile it before switching to a runner.")
    );
    ownership.clear_uncertain_challenge_creation("bot");
    ownership.campaigns.push(CampaignSlot { account_id: "bot".into(), pending_challenges: 2 });
    assert_eq!(
        ownership.local_outgoing_challenge_error(true).as_deref(),
        Some("2 campaign challenges are still unresolved; cancel them or let them resolve before switching to a runner.")
    );
    ownership.campaigns.clear();
    assert_eq!(ownership.local_outgoing_challenge_error(true), None);
}

#[test]
fn authoritative_handover_refuses_remote_game_and_outgoing_challenge() {
    assert_eq!(
        handover_verdict(&vec![observation("Bot", &["Opponent"], &[])], None).unwrap_err(),
        "Lichess account Bot still has 1 outgoing challenge (Opponent); cancel them or let them resolve before switching to a runner."
    );
    assert_eq!(
        handover_verdict(&vec![observation("Bot", &[], &["game-1"])], None).unwrap_err(),
        "Lichess account Bot still has 1 live game (game-1); finish or resign them before switching to a runner."
    );
    assert_eq!(
        handover_verdict(&vec![observation("Bot", &["b", "a"], &["g1", "g2"])], None).unwrap_err(),
        "Lichess account Bot still has 2 live games (g1, g2); finish or resign them before switching to a runner."
    );
    assert_eq!(
        handover_verdict(&vec![observation("Bot", &["b", "a"], &[])], None).unwrap_err(),
        "Lichess account Bot still has 2 outgoing challenges (a, b); cancel them or let them resolve before switching to a runner."
    );
    assert!(handover_verdict(&vec![observation("Bot", &[], &[])], None).is_ok());
    assert_eq!(
        handover_verdict(&vec![observation("Bot", &[], &[])], Some("local".into())).unwrap_err(),
        "local"
    );
}

#[test]
fn authoritative_handover_fails_closed_when_lichess_cannot_be_verified() {
    assert_eq!(
        authoritative_handover_verification_error("Bot"),
        "Could not verify Lichess account Bot before switching runners; live games or outgoing challenges may still exist."
    );
}

#[test]
fn authoritative_handover_prunes_a_stale_known_challenge_and_proceeds() {
    let mut ownership = Ownership::new();
    ownership.remember_known_outgoing_challenge("bot", "stale", "Opponent");
    ownership.remember_known_outgoing_challenge("bot", "live", "Other");
    ownership.remember_known_outgoing_challenge("bot", "became-game", "Third");
    ownership.remember_known_outgoing_challenge("other", "stale", "Opponent");
    ownership.reconcile_known_outgoing_challenges(
        "bot",
        &vec![OutgoingChallenge { id: "live".into(), opponent: "Other".into() }],
        &vec!["became-game".into()],
    );
    let mut known: Vec<(String, String)> =
        ownership.known.iter().map(|k| (k.account_id.clone(), k.challenge_id.clone())).collect();
    known.sort();
    assert_eq!(
        known,
        vec![
            ("bot".to_string(), "became-game".to_string()),
            ("bot".to_string(), "live".to_string()),
            ("other".to_string(), "stale".to_string()),
        ]
    );
    ownership.reconcile_known_outgoing_challenges("other", &vec![], &vec![]);
    assert_eq!(ownership.known.len(), 2);
}

#[test]
fn quiesced_game_start_is_deferred_and_stale_generations_are_refused() {
    let mut ownership = Ownership::new();
    let generation = running_supervisor(&mut ownership, "bot");
    match ownership.reserve_game_task("bot", "g1", generation + 1, false) {
        GameReservation::Refused(message) => {
            assert_eq!(message, "The account generation ended before the game task was reserved")
        }
        _ => panic!("expected a refusal"),
    }
    match ownership.reserve_game_task("bot", "g1", generation, true) {
        GameReservation::Refused(_) => {}
        _ => panic!("a cancelled reservation is refused"),
    }
    assert!(matches!(ownership.reserve_game_task("bot", "g1", generation, false), GameReservation::Reserved));
    assert!(matches!(ownership.reserve_game_task("bot", "g1", generation, false), GameReservation::AlreadyOwned));
    ownership.quiescing = true;
    match ownership.reserve_game_task("bot", "g2", generation, false) {
        GameReservation::Deferred(detail) => assert_eq!(detail, QUIESCED_GAME_START),
        _ => panic!("expected a deferral"),
    }
    assert_eq!(
        ownership.reserve_supervisor("other").unwrap_err(),
        "QueenUI is changing runners; the account supervisor was not started"
    );
}

#[test]
fn supervisor_lifecycle_reaps_finished_and_reports_running() {
    let mut ownership = Ownership::new();
    assert_eq!(ownership.start_precheck("bot"), StartPrecheck::Vacant);
    let generation = ownership.reserve_supervisor("bot").unwrap().unwrap();
    assert_eq!(ownership.start_precheck("bot"), StartPrecheck::StillStarting);
    assert_eq!(ownership.reserve_supervisor("bot").unwrap(), None);
    assert!(!ownership.install_supervisor("bot", generation + 1));
    assert!(ownership.install_supervisor("bot", generation));
    assert!(ownership.supervisor_is_current("bot", generation));
    assert_eq!(ownership.start_precheck("bot"), StartPrecheck::AlreadyRunning);
    ownership.supervisor_finished("bot", generation);
    assert_eq!(ownership.start_precheck("bot"), StartPrecheck::ReapedPrior);
    assert_eq!(ownership.start_precheck("bot"), StartPrecheck::Vacant);
    let next = ownership.reserve_supervisor("bot").unwrap().unwrap();
    assert!(next > generation);
}

#[test]
fn stop_start_fence_holds_old_supervisor_and_game_until_both_join() {
    let mut ownership = Ownership::new();
    let generation = running_supervisor(&mut ownership, "bot");
    assert!(matches!(ownership.reserve_game_task("bot", "g1", generation, false), GameReservation::Reserved));
    assert!(ownership.install_game_task("bot", "g1", generation));
    ownership.add_active_intent("bot", "g1");
    let other = running_supervisor(&mut ownership, "other");
    assert!(matches!(ownership.reserve_game_task("other", "g9", other, false), GameReservation::Reserved));

    let fence = ownership.begin_stop("bot");
    assert_eq!(fence.supervisor_generation, Some(generation));
    assert_eq!(fence.games.len(), 1);
    assert_eq!(fence.games[0].handle, HandleState::Running);
    // While the old tasks are joined, the account is still owned.
    assert_eq!(ownership.start_precheck("bot"), StartPrecheck::StillStarting);

    let live = ownership.finish_stop("bot", &fence);
    assert_eq!(live, vec!["g1".to_string()]);
    assert_eq!(ownership.start_precheck("bot"), StartPrecheck::Vacant);
    assert!(!ownership.account_has_game_tasks("bot"));
    assert!(ownership.account_has_game_tasks("other"));
    assert_eq!(ownership.live_game_ownership_count(), 2);
}

#[test]
fn stop_errors_are_joined() {
    assert!(stop_outcome(&vec![]).is_ok());
    assert_eq!(stop_outcome(&vec!["a".into(), "b".into()]).unwrap_err(), "a; b");
}

#[test]
fn active_intents_reconcile_against_authoritative_games() {
    let mut ownership = Ownership::new();
    ownership.add_active_intent("bot", "g1");
    ownership.add_active_intent("bot", "g2");
    ownership.add_active_intent("other", "g3");
    ownership.reconcile_active_intents("bot", &vec!["g2".into(), "g4".into()]);
    let mut intents: Vec<(String, String)> = ownership
        .active_intents
        .iter()
        .map(|i| (i.account_id.clone(), i.game_id.clone()))
        .collect();
    intents.sort();
    assert_eq!(
        intents,
        vec![
            ("bot".to_string(), "g2".to_string()),
            ("bot".to_string(), "g4".to_string()),
            ("other".to_string(), "g3".to_string()),
        ]
    );
    ownership.remove_active_intent("bot", "g2");
    assert_eq!(ownership.active_intents.len(), 2);
}

#[test]
fn pending_challenges_are_finalized_under_their_id() {
    let mut ownership = Ownership::new();
    ownership.remember_pending_outgoing_challenge("bot", "Opponent");
    assert_eq!(ownership.known.len(), 1);
    ownership.finalize_pending_outgoing_challenge("bot", "c1", "Opponent");
    assert_eq!(ownership.known.len(), 1);
    assert_eq!(ownership.known[0].challenge_id, "c1");
    ownership.forget_resolved_outgoing_challenge("bot", "c1", Some("Opponent"));
    assert!(ownership.known.is_empty());
    ownership.remember_known_outgoing_challenge("bot", "c2", "X");
    ownership.clear_account_challenge_ownership("bot");
    assert!(ownership.known.is_empty());
}

#[test]
fn engine_changes_wait_until_its_bots_stop() {
    let mut ownership = Ownership::new();
    running_supervisor(&mut ownership, "bot");
    assert_eq!(
        ownership.ensure_engine_idle(&vec!["other".into(), "bot".into()]).unwrap_err(),
        "Stop every bot using this engine before changing its configuration."
    );
    assert!(ownership.ensure_engine_idle(&vec!["other".into()]).is_ok());
    assert!(ownership.ensure_engine_idle(&vec![]).is_ok());
}

#[test]
fn an_account_recovers_to_playing_only_with_an_active_game() {
    let mut ownership = Ownership::new();
    assert_eq!(ownership.recovered_status("bot"), "online");
    let generation = running_supervisor(&mut ownership, "bot");
    assert!(matches!(
        ownership.reserve_game_task("bot", "g1", generation, false),
        GameReservation::Reserved
    ));
    assert_eq!(ownership.recovered_status("bot"), "playing");
    assert_eq!(ownership.recovered_status("other"), "online");
}

#[test]
fn stopping_a_campaign_lets_running_games_finish() {
    let mut ownership = Ownership::new();
    let generation = running_supervisor(&mut ownership, "bot");
    assert!(matches!(
        ownership.reserve_game_task("bot", "g1", generation, false),
        GameReservation::Reserved
    ));
    let campaign_only = ownership.interrupt_plan("bot", false);
    assert!(campaign_only.campaign);
    assert!(!campaign_only.supervisor);
    assert!(campaign_only.games.is_empty());
    let whole = ownership.interrupt_plan("bot", true);
    assert!(whole.supervisor);
    assert_eq!(whole.games, vec!["g1".to_string()]);
    let other = ownership.interrupt_plan("other", true);
    assert!(!other.supervisor);
    assert!(other.games.is_empty());
}

#[test]
fn a_running_stop_fences_a_new_start() {
    let mut ownership = Ownership::new();
    let generation = running_supervisor(&mut ownership, "bot");
    assert!(matches!(
        ownership.reserve_game_task("bot", "old-game", generation, false),
        GameReservation::Reserved
    ));
    assert!(ownership.install_game_task("bot", "old-game", generation));
    let fence = ownership.begin_stop("bot");
    assert_eq!(fence.supervisor_generation, Some(generation));
    assert!(ownership.supervisor_is_current("bot", generation));
    assert!(ownership.account_has_game_tasks("bot"));
    assert!(matches!(ownership.start_precheck("bot"), StartPrecheck::StillStarting));
}
