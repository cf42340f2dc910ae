use queenui::hex::encode_hex;
use queenui::ledger::{
    random_secret, secret_hash, CompletionState, CredentialRow, EnrollmentRow, IdempotencyBinding,
    IdempotencyRow, RedeemError, Reservation, RowState, RunnerDatabase,
    ENROLLMENT_LIFETIME_SECONDS, MAX_STORED_RESPONSE_BYTES,
};
use queenui::protocol::{IDEMPOTENCY_TTL_SECONDS, PROTOCOL_VERSION};

fn database() -> RunnerDatabase {
    RunnerDatabase::new(0x1234, [7; 32])
}

fn binding(key: u128, digest: [u8; 32]) -> IdempotencyBinding {
    IdempotencyBinding {
        key,
        credential_generation: 1,
        protocol_version: PROTOCOL_VERSION,
        method: "POST",
        normalized_path: "/v2/commands",
        body_digest: digest,
        command_kind: "startBot",
        reconciliation: "Lichess account state",
    }
}

fn clone_binding(b: &IdempotencyBinding) -> IdempotencyBinding {
    IdempotencyBinding {
        key: b.key,
        credential_generation: b.credential_generation,
        protocol_version: b.protocol_version,
        method: b.method,
        normalized_path: b.normalized_path,
        body_digest: b.body_digest,
        command_kind: b.command_kind,
        reconciliation: b.reconciliation,
    }
}

/// What a restart reads back: every stored row, rebuilt into a new ledger.
fn restart(database: &RunnerDatabase) -> RunnerDatabase {
    let enrollment = database.enrollment().as_ref().map(|e| EnrollmentRow {
        secret_hash: e.secret_hash.clone(),
        runner_id: e.runner_id,
        cert_fp: e.cert_fp.clone(),
        purpose: e.purpose.clone(),
        expires_at: e.expires_at,
        failed_attempts: e.failed_attempts,
        rotate: e.rotate,
    });
    let credential = database.credential().as_ref().map(|c| CredentialRow {
        generation: c.generation,
        bearer_hash: c.bearer_hash.clone(),
        created_at: c.created_at,
    });
    let rows = database.idempotency_rows().iter().map(copy_row).collect();
    RunnerDatabase::restore(database.runner_id(), [7; 32], enrollment, credential, rows).unwrap()
}

fn copy_row(r: &IdempotencyRow) -> IdempotencyRow {
    IdempotencyRow {
        request_key: r.request_key,
        credential_generation: r.credential_generation,
        protocol_version: r.protocol_version,
        method: r.method.clone(),
        path: r.path.clone(),
        body_digest: r.body_digest,
        state: r.state,
        response: r.response.clone(),
        command_kind: r.command_kind.clone(),
        reconciliation: r.reconciliation.clone(),
        created_at: r.created_at,
        updated_at: r.updated_at,
    }
}

fn state_of(database: &RunnerDatabase, key: u128, generation: u64) -> Option<RowState> {
    database
        .idempotency_rows()
        .iter()
        .find(|row| row.request_key == key && row.credential_generation == generation)
        .map(|row| row.state)
}

#[test]
fn concurrent_redeem_has_exactly_one_winner() {
    let mut database = database();
    let enrollment = database.mint_enrollment(false, 100).unwrap();
    let first = database.redeem(&enrollment.code, 101);
    let second = database.redeem(&enrollment.code, 101);
    assert!(first.is_ok());
    assert_eq!(second.err(), Some(RedeemError::Unavailable));
}

#[test]
fn enrollment_expiry_is_absolute_and_enforced_in_consume_transaction() {
    let mut database = database();
    let enrollment = database.mint_enrollment(false, 100).unwrap();
    assert_eq!(enrollment.expires_at, 100 + ENROLLMENT_LIFETIME_SECONDS);
    assert_eq!(database.redeem(&enrollment.code, 700).err(), Some(RedeemError::Expired));
    assert_eq!(database.redeem(&enrollment.code, 699).err(), Some(RedeemError::Unavailable));
}

#[test]
fn new_enrollment_atomically_supersedes_the_old_code() {
    let mut database = database();
    let old = database.mint_enrollment(false, 100).unwrap();
    let new = database.mint_enrollment(false, 101).unwrap();
    assert_eq!(
        database.redeem(&old.code, 102).err(),
        Some(RedeemError::Rejected { attempts_remaining: 4 })
    );
    assert!(database.redeem(&new.code, 102).is_ok());
}

#[test]
fn enrollment_and_rotation_cut_over_to_the_new_bearer() {
    let mut database = database();
    let first = database.mint_enrollment(false, 100).unwrap();
    let original = database.redeem(&first.code, 101).unwrap();
    assert_eq!(original.generation, 1);
    assert_eq!(database.authenticate(&original.bearer), Some(1));

    let rotation = database.mint_enrollment(true, 200).unwrap();
    let replacement = database.redeem(&rotation.code, 201).unwrap();
    assert_eq!(replacement.generation, 2);
    assert_eq!(database.authenticate(&original.bearer), None);
    assert_eq!(database.authenticate(&replacement.bearer), Some(2));
}

#[test]
fn fifth_failed_enrollment_attempt_revokes_the_code() {
    let mut database = database();
    let enrollment = database.mint_enrollment(false, 100).unwrap();
    for remaining in (1..=4).rev() {
        assert_eq!(
            database.redeem("wrong", 101).err(),
            Some(RedeemError::Rejected { attempts_remaining: remaining })
        );
    }
    assert_eq!(database.redeem("wrong", 101).err(), Some(RedeemError::Revoked));
    assert_eq!(database.redeem(&enrollment.code, 101).err(), Some(RedeemError::Unavailable));
}

#[test]
fn pending_reservation_has_one_executor_and_durable_replay_or_409() {
    let mut database = database();
    let key = 0xAAAA;
    let request = binding(key, [1; 32]);
    assert!(matches!(database.reserve(&request).unwrap(), Reservation::Execute));
    assert!(matches!(database.reserve(&request).unwrap(), Reservation::Pending));
    let response = br#"{"protocolVersion":3,"requestId":"a","ok":true,"result":{"accepted":true}}"#;
    database.complete(&request, CompletionState::Done, response).unwrap();
    match database.reserve(&request).unwrap() {
        Reservation::Replay(replayed) => assert_eq!(replayed, response.to_vec()),
        _ => panic!("expected exact replay"),
    }
    assert!(matches!(database.reserve(&binding(key, [2; 32])).unwrap(), Reservation::Conflict));
}

#[test]
fn ambiguous_crash_is_explicit_and_reconciled_before_replay() {
    let mut database = database();
    let key = 0xBBBB;
    let request = binding(key, [3; 32]);
    assert!(matches!(database.reserve(&request).unwrap(), Reservation::Execute));
    assert_eq!(database.mark_interrupted_pending(), 1);
    assert_eq!(state_of(&database, key, 1), Some(RowState::AmbiguousCrash));
    // An ambiguous execution is never re-executed before reconciliation.
    assert!(matches!(database.reserve(&request).unwrap(), Reservation::Pending));

    let outcomes = database.ambiguous_outcomes();
    assert_eq!(outcomes.len(), 1);
    assert_eq!((outcomes[0].key, outcomes[0].generation), (key, 1));
    assert_eq!(
        outcomes[0].message,
        "The interrupted startBot operation was reconciled against Lichess account state; completion could not be proven"
    );
    let responses = database.reconciliation_responses();
    assert_eq!(responses.len(), 1);
    assert_eq!(responses[0].request_id, key);
    assert!(!responses[0].ok);
    let error = responses[0].error.as_ref().unwrap();
    assert_eq!(error.code, "ambiguous_crash_reconciled");
    assert_eq!(error.message, outcomes[0].message);
    let body = format!(
        r#"{{"ok":false,"error":{{"code":"{}","message":"{}"}}}}"#,
        error.code, error.message
    );
    assert!(database.reconcile_ambiguous(&Vec::new()).is_err());
    assert_eq!(database.reconcile_ambiguous(&vec![body.clone().into_bytes()]).unwrap(), 1);
    assert_eq!(state_of(&database, key, 1), Some(RowState::FailedDeterministic));
    match database.reserve(&request).unwrap() {
        Reservation::Replay(response) => {
            let text = String::from_utf8(response).unwrap();
            assert!(text.contains("ambiguous_crash_reconciled"));
        }
        _ => panic!("expected reconciled replay"),
    }
}

#[test]
fn expired_idempotency_key_is_a_new_request() {
    let mut database = database();
    let key = 0xCCCC;
    let request = binding(key, [4; 32]);
    assert!(matches!(database.reserve_at(&request, 100).unwrap(), Reservation::Execute));
    database.complete_at(&request, CompletionState::Done, b"null", 100).unwrap();
    assert!(matches!(database.reserve_at(&request, 101).unwrap(), Reservation::Replay(_)));
    assert!(matches!(
        database.reserve_at(&request, 100 + IDEMPOTENCY_TTL_SECONDS + 1).unwrap(),
        Reservation::Execute
    ));
}

#[test]
fn rotation_expiry_and_repeated_supersession_keep_old_bearer_valid() {
    let mut database = database();
    let initial = database.mint_enrollment(false, 10).unwrap();
    let original = database.redeem(&initial.code, 11).unwrap();

    let expired = database.mint_enrollment(true, 20).unwrap();
    assert_eq!(database.redeem(&expired.code, 620).err(), Some(RedeemError::Expired));
    assert_eq!(database.authenticate(&original.bearer), Some(1));

    let superseded = database.mint_enrollment(true, 700).unwrap();
    let replacement = database.mint_enrollment(true, 701).unwrap();
    assert!(matches!(database.redeem(&superseded.code, 702), Err(RedeemError::Rejected { .. })));
    assert_eq!(database.authenticate(&original.bearer), Some(1));
    let rotated = database.redeem(&replacement.code, 702).unwrap();
    assert_eq!(rotated.generation, 2);
    assert_eq!(database.authenticate(&original.bearer), None);
}

#[test]
fn failed_rotation_attempt_limit_revokes_only_the_code() {
    let mut database = database();
    let initial = database.mint_enrollment(false, 10).unwrap();
    let original = database.redeem(&initial.code, 11).unwrap();
    let rotation = database.mint_enrollment(true, 20).unwrap();
    for _ in 0..4 {
        assert!(matches!(database.redeem("wrong", 21), Err(RedeemError::Rejected { .. })));
    }
    assert_eq!(database.redeem("wrong", 21).err(), Some(RedeemError::Revoked));
    assert_eq!(database.redeem(&rotation.code, 21).err(), Some(RedeemError::Unavailable));
    assert_eq!(database.authenticate(&original.bearer), Some(1));
}

#[test]
fn lost_rotation_response_is_recovered_by_a_new_admin_enrollment() {
    let mut database = database();
    let initial = database.mint_enrollment(false, 10).unwrap();
    let original = database.redeem(&initial.code, 11).unwrap();

    let lost = database.mint_enrollment(true, 20).unwrap();
    let unseen_replacement = database.redeem(&lost.code, 21).unwrap();
    assert_eq!(unseen_replacement.generation, 2);
    assert_eq!(database.authenticate(&original.bearer), None);

    let recovery = database.mint_enrollment(true, 30).unwrap();
    let recovered = database.redeem(&recovery.code, 31).unwrap();
    assert_eq!(recovered.generation, 3);
    assert_eq!(database.authenticate(&unseen_replacement.bearer), None);
    assert_eq!(database.authenticate(&recovered.bearer), Some(3));
}

#[test]
fn idempotency_binding_covers_generation_protocol_method_path_and_digest() {
    let mut database = database();
    let request = binding(0xDDDD, [8; 32]);
    assert!(matches!(database.reserve(&request).unwrap(), Reservation::Execute));

    let mut changed = clone_binding(&request);
    changed.protocol_version += 1;
    assert!(matches!(database.reserve(&changed).unwrap(), Reservation::Conflict));
    changed = clone_binding(&request);
    changed.method = "PUT";
    assert!(matches!(database.reserve(&changed).unwrap(), Reservation::Conflict));
    changed = clone_binding(&request);
    changed.normalized_path = "/v2/other";
    assert!(matches!(database.reserve(&changed).unwrap(), Reservation::Conflict));
    changed = clone_binding(&request);
    changed.body_digest = [9; 32];
    assert!(matches!(database.reserve(&changed).unwrap(), Reservation::Conflict));

    changed = clone_binding(&request);
    changed.credential_generation = 2;
    assert!(matches!(database.reserve(&changed).unwrap(), Reservation::Execute));
}

#[test]
fn transient_failure_releases_key_while_deterministic_failure_replays() {
    let mut database = database();
    let transient = binding(0xEEEE, [10; 32]);
    assert!(matches!(database.reserve(&transient).unwrap(), Reservation::Execute));
    database
        .complete(&transient, CompletionState::FailedTransient, br#"{"error":{"code":"temporary"}}"#)
        .unwrap();
    assert!(matches!(database.reserve(&transient).unwrap(), Reservation::Execute));

    let deterministic = binding(0xFFFF, [11; 32]);
    assert!(matches!(database.reserve(&deterministic).unwrap(), Reservation::Execute));
    let failure = br#"{"error":{"code":"rejected","message":"invalid target"}}"#;
    database.complete(&deterministic, CompletionState::FailedDeterministic, failure).unwrap();
    match database.reserve(&deterministic).unwrap() {
        Reservation::Replay(replayed) => assert_eq!(replayed, failure.to_vec()),
        _ => panic!("expected deterministic failure replay"),
    }
}

#[test]
fn durable_outcomes_enforce_the_per_response_bound() {
    let mut database = database();
    let request = binding(0x1111, [12; 32]);
    assert!(matches!(database.reserve(&request).unwrap(), Reservation::Execute));
    let oversized = vec![b'x'; MAX_STORED_RESPONSE_BYTES + 1];
    assert!(database.complete(&request, CompletionState::Done, &oversized).is_err());
    assert!(matches!(database.reserve(&request).unwrap(), Reservation::Pending));
    let fitting = vec![b'x'; MAX_STORED_RESPONSE_BYTES];
    assert!(database.complete(&request, CompletionState::Done, &fitting).is_ok());
}

#[test]
fn enrollment_and_bearer_are_hashed_at_rest() {
    let mut database = database();
    let enrollment = database.mint_enrollment(false, 100).unwrap();
    let stored = database.enrollment().as_ref().unwrap().secret_hash.clone();
    assert_eq!(stored.len(), 32);
    assert_ne!(stored, enrollment.code.as_bytes());
    assert_eq!(stored, secret_hash(&enrollment.code).to_vec());
    let bearer = database.redeem(&enrollment.code, 101).unwrap();
    let stored_bearer = database.credential().as_ref().unwrap().bearer_hash.clone();
    assert_eq!(stored_bearer.len(), 32);
    assert_ne!(stored_bearer, bearer.bearer.as_bytes());
    assert_eq!(stored_bearer, secret_hash(&bearer.bearer).to_vec());
}

#[test]
fn secrets_are_unpadded_url_safe_base64_of_32_random_bytes() {
    let first = random_secret().unwrap();
    let second = random_secret().unwrap();
    assert_eq!(first.len(), 43);
    assert!(first.chars().all(|c| c.is_ascii_alphanumeric() || c == '-' || c == '_'));
    assert_ne!(first, second);
}

#[test]
fn secret_hash_is_sha256_of_the_utf8_text() {
    assert_eq!(
        encode_hex(&secret_hash("abc")),
        "ba7816bf8f01cfea414140de5dae2223b00361a396177a9cb410ff61f20015ad"
    );
}

#[test]
fn pairing_refuses_the_wrong_phase() {
    let mut database = database();
    assert_eq!(
        database.mint_enrollment(true, 1).err().unwrap(),
        "Cannot rotate before the runner has been paired"
    );
    let enrollment = database.mint_enrollment(false, 1).unwrap();
    database.redeem(&enrollment.code, 2).unwrap();
    assert_eq!(
        database.mint_enrollment(false, 3).err().unwrap(),
        "Runner is already paired; use pair --rotate for a hard cutover"
    );
    assert!(database.enrollment().is_none());
}

#[test]
fn a_given_code_and_bearer_redeem_exactly() {
    let mut database = database();
    let minted = database.mint_enrollment_with_code(false, 5, "code-1".into()).unwrap();
    assert_eq!(minted.code, "code-1");
    let redeemed = database.redeem_with_bearer("code-1", 6, "bearer-1".into()).unwrap();
    assert_eq!((redeemed.bearer.as_str(), redeemed.generation), ("bearer-1", 1));
    assert_eq!(database.authenticate("bearer-1"), Some(1));
    assert_eq!(database.authenticate("bearer-2"), None);
}

#[test]
fn enrollment_and_rotation_survive_restart_with_hard_cutover() {
    let mut database = database();
    let first = database.mint_enrollment(false, 100).unwrap();
    let mut reopened = restart(&database);
    let original = reopened.redeem(&first.code, 101).unwrap();
    assert_eq!(reopened.authenticate(&original.bearer), Some(1));

    let rotation = reopened.mint_enrollment(true, 200).unwrap();
    let mut restarted = restart(&reopened);
    let replacement = restarted.redeem(&rotation.code, 201).unwrap();
    assert_eq!(replacement.generation, 2);
    assert_eq!(restarted.authenticate(&original.bearer), None);
    assert_eq!(restarted.authenticate(&replacement.bearer), Some(2));
}

#[test]
fn completed_outcomes_replay_after_restart() {
    let mut database = database();
    let request = binding(0x2222, [13; 32]);
    assert!(matches!(database.reserve(&request).unwrap(), Reservation::Execute));
    database.complete(&request, CompletionState::Done, b"{\"ok\":true}").unwrap();
    let mut reopened = restart(&database);
    match reopened.reserve(&request).unwrap() {
        Reservation::Replay(bytes) => assert_eq!(bytes, b"{\"ok\":true}".to_vec()),
        _ => panic!("expected exact replay"),
    }
}

#[test]
fn restore_refuses_a_key_bound_twice() {
    let mut database = database();
    let request = binding(0x3333, [14; 32]);
    assert!(matches!(database.reserve(&request).unwrap(), Reservation::Execute));
    let row = copy_row(&database.idempotency_rows()[0]);
    let rows = vec![copy_row(&row), row];
    assert_eq!(
        RunnerDatabase::restore(1, [7; 32], None, None, rows).err().unwrap(),
        "The runner database binds an idempotency key twice"
    );
}
