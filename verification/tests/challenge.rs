use queenui::challenge::{
    challenge_failure_message, event_stream_connected, matching_outgoing_challenge,
    require_event_stream, trim_chars,
    validate_challenge_request, ChallengeFailure,
};
use queenui::challenge::{challenge_step, ChallengeAction, ChallengePhase, PostOutcome};
use queenui::ownership::{OutgoingChallenge, Ownership};

fn outgoing(id: &str, opponent: &str) -> OutgoingChallenge {
    OutgoingChallenge { id: id.into(), opponent: opponent.into() }
}

#[test]
fn challenge_requests_need_an_opponent_and_standard_chess() {
    assert_eq!(validate_challenge_request("  \t\u{3000}", "standard").unwrap_err(), "Enter a Lichess opponent.");
    assert_eq!(validate_challenge_request("", "standard").unwrap_err(), "Enter a Lichess opponent.");
    assert_eq!(
        validate_challenge_request("Opponent", "chess960").unwrap_err(),
        "QueenUI currently supports automated Standard chess games only."
    );
    assert!(validate_challenge_request(" Opponent ", "standard").is_ok());
}

#[test]
fn trimming_removes_unicode_white_space_like_str_trim() {
    for text in ["  a b  ", "\u{a0}x\u{2003}", "\n\t", "", "plain", "\u{85}\u{2028}é\u{205f}"] {
        let expected: Vec<char> = text.trim().chars().collect();
        assert_eq!(trim_chars(text), expected, "{text:?}");
    }
}

#[test]
fn the_event_stream_counts_as_connected_online_or_playing() {
    assert!(event_stream_connected(Some("online")));
    assert!(event_stream_connected(Some("playing")));
    assert!(!event_stream_connected(Some("connecting")));
    assert!(!event_stream_connected(None));
}

#[test]
fn a_repeated_request_finds_the_reconciled_challenge_ignoring_case() {
    let list = vec![outgoing("c1", "Someone"), outgoing("c2", "OPPONENT"), outgoing("c3", "opponent")];
    assert_eq!(matching_outgoing_challenge(&list, "  opponent "), Some(1));
    assert_eq!(matching_outgoing_challenge(&list, "nobody"), None);
    assert_eq!(matching_outgoing_challenge(&Vec::new(), "opponent"), None);
}

#[test]
fn challenge_failures_say_why_creation_paused() {
    assert_eq!(
        challenge_failure_message(ChallengeFailure::Ambiguous("timeout".into())),
        "Challenge POST outcome is unknown; creation is paused until authoritative outgoing challenges are reconciled: timeout"
    );
    assert_eq!(
        challenge_failure_message(ChallengeFailure::ReconcileRead("503".into())),
        "Challenge creation remains paused until the prior unknown POST is reconciled: 503"
    );
    assert_eq!(
        challenge_failure_message(ChallengeFailure::BarrierUpdate("disk".into())),
        "Challenge creation remains paused because the reconciled safety barrier could not be updated: disk"
    );
    assert_eq!(
        challenge_failure_message(ChallengeFailure::BarrierSave("disk".into())),
        "Challenge creation was not sent because its durable safety barrier could not be saved: disk"
    );
    assert_eq!(
        challenge_failure_message(ChallengeFailure::Definitive {
            error: "opponent declines".into(),
            persistence_error: None
        }),
        "opponent declines"
    );
    assert_eq!(
        challenge_failure_message(ChallengeFailure::Definitive {
            error: "opponent declines".into(),
            persistence_error: Some("disk".into())
        }),
        "opponent declines; the definitive response was received, but the durable safety barrier could not be cleared: disk"
    );
}

#[test]
fn challenges_wait_for_a_connected_event_stream() {
    assert!(require_event_stream(Some("online")).is_ok());
    assert!(require_event_stream(Some("playing")).is_ok());
    assert_eq!(
        require_event_stream(Some("reconnecting")).unwrap_err(),
        "The bot could not connect to its Lichess event stream. Check the account error and try again."
    );
    assert!(require_event_stream(None).is_err());
}

#[test]
fn challenge_creation_reconciles_then_saves_the_barrier_before_posting() {
    let mut ownership = Ownership::new();
    assert!(matches!(challenge_step(&ownership, "bot", false, ChallengePhase::Started), ChallengeAction::NotConnected));
    assert!(matches!(challenge_step(&ownership, "bot", true, ChallengePhase::Started), ChallengeAction::SaveBarrier));
    ownership.remember_uncertain_challenge_creation("bot", "Opponent");
    assert!(matches!(challenge_step(&ownership, "bot", true, ChallengePhase::Started), ChallengeAction::ReconcileFirst));
    assert!(matches!(
        challenge_step(&ownership, "bot", true, ChallengePhase::Reconciled { found: true }),
        ChallengeAction::AnswerReconciled
    ));
    assert!(matches!(
        challenge_step(&ownership, "bot", true, ChallengePhase::Reconciled { found: false }),
        ChallengeAction::SaveBarrier
    ));
    assert!(matches!(challenge_step(&ownership, "bot", true, ChallengePhase::BarrierSaved), ChallengeAction::Post));
    assert!(matches!(
        challenge_step(&ownership, "bot", true, ChallengePhase::Posted(PostOutcome::Created)),
        ChallengeAction::RecordAndClear
    ));
    assert!(matches!(
        challenge_step(&ownership, "bot", true, ChallengePhase::Posted(PostOutcome::Ambiguous)),
        ChallengeAction::KeepBarrier
    ));
    assert!(matches!(
        challenge_step(&ownership, "bot", true, ChallengePhase::Posted(PostOutcome::Refused)),
        ChallengeAction::ForgetAndClear
    ));
}
