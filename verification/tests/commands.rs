use queenui::commands::{
    disabled_engine_install, engine_admin_failure, export_content_type, log_export_failure,
    redeem_error_response, ExportFailure,
};
use queenui::ledger::RedeemError;
use queenui::commands::{
    bearer_token, command_completion, command_lane, command_response, command_spec,
    is_query_command, needs_blocking_admission, next_reservation_poll, parse_digest_header,
    parse_u64, pending_response, persistence_failure, prepare_command, redact_for_log,
    refused_admission_response, require_auth, runner_invocation, shutdown_budget_fits,
    strip_prefix, timeout_stop_line, transient_failure, validate_runner_command, AdmissionLane,
    Invocation, RUNNER_SHUTDOWN_BUDGET_SECONDS,
};
use queenui::hex::encode_hex;
use queenui::ledger::CompletionState;
use queenui::protocol::{
    command_body_digest, CommandRequest, LogFilter, LogQuery, RunnerCommand, PROTOCOL_VERSION,
};

/// The stop deadline the runner's systemd unit ships with.
const SHIPPED_SERVICE_UNIT: &str = "[Unit]\nDescription=QueenUI runner\n\n[Service]\nExecStart=/usr/local/bin/queen-runner\nKillSignal=SIGTERM\nTimeoutStopSec=15\nRestart=on-failure\n\n[Install]\nWantedBy=multi-user.target\n";

#[test]
fn graceful_shutdown_budget_fits_the_shipped_service_deadline() {
    let stop_seconds = SHIPPED_SERVICE_UNIT
        .lines()
        .find_map(timeout_stop_line)
        .expect("numeric systemd stop deadline");
    assert!(
        shutdown_budget_fits(stop_seconds),
        "the runner must return before systemd is allowed to send SIGKILL"
    );
    assert!(RUNNER_SHUTDOWN_BUDGET_SECONDS < stop_seconds);
}

#[test]
fn stop_deadline_lines_parse_only_numeric_values() {
    assert_eq!(timeout_stop_line("TimeoutStopSec=15"), Some(15));
    assert_eq!(timeout_stop_line("TimeoutStopSec=+7"), Some(7));
    assert_eq!(timeout_stop_line("TimeoutStopSec=15s"), None);
    assert_eq!(timeout_stop_line("TimeoutStopSec="), None);
    assert_eq!(timeout_stop_line("# TimeoutStopSec=15"), None);
    assert!(!shutdown_budget_fits(13));
    assert!(shutdown_budget_fits(14));
    assert_eq!(parse_u64("18446744073709551615"), Some(u64::MAX));
    assert_eq!(parse_u64("18446744073709551616"), None);
    assert_eq!(parse_u64("+"), None);
    assert_eq!(parse_u64("0042"), Some(42));
}

#[test]
fn log_boundary_redacts_enrollment_and_bearer_values() {
    let enrollment = "enrollment-secret-value";
    let bearer = "bearer-secret-value";
    let message = format!(
        "failed queenui://pair?v=2&enroll={enrollment}&fp=abc Authorization: Bearer {bearer}"
    );
    let redacted = redact_for_log(&message);
    assert!(!redacted.contains(enrollment));
    assert!(!redacted.contains(bearer));
    assert!(redacted.matches("<redacted>").count() >= 2);
    assert_eq!(
        redacted,
        "failed queenui://pair?v=2&enroll=<redacted>&fp=abc Authorization: Bearer <redacted>"
    );
}

#[test]
fn redaction_covers_every_occurrence_and_stops_at_quotes() {
    assert_eq!(
        redact_for_log("a enroll=x b enroll=y\"z Bearer q\tw"),
        "a enroll=<redacted> b enroll=<redacted>\"z Bearer <redacted>\tw"
    );
    assert_eq!(redact_for_log("nothing secret"), "nothing secret");
    assert_eq!(redact_for_log("enroll="), "enroll=<redacted>");
}

#[test]
fn runner_log_queries_reject_uncapped_rows_and_oversized_search_input() {
    let uncapped = RunnerCommand::ListLogSessions { filter: LogFilter { limit: None, query: None } };
    assert!(validate_runner_command(&uncapped).is_err());
    let oversized = RunnerCommand::SearchLogSession {
        session_id: "session".into(),
        query: LogQuery { text: "x".repeat(513), limit: 10 },
    };
    assert!(validate_runner_command(&oversized).is_err());
}

#[test]
fn log_query_limits_count_bytes_and_bound_rows() {
    let at_limit = RunnerCommand::SearchLogSession {
        session_id: "s".into(),
        query: LogQuery { text: "x".repeat(512), limit: 500 },
    };
    assert!(validate_runner_command(&at_limit).is_ok());
    // 257 two-byte characters are 514 bytes.
    let wide = RunnerCommand::SearchLogSession {
        session_id: "s".into(),
        query: LogQuery { text: "é".repeat(257), limit: 10 },
    };
    let refused = validate_runner_command(&wide).unwrap_err();
    assert_eq!(refused.status, 400);
    assert_eq!(refused.code, "query_limit_required");
    let rows = RunnerCommand::ListLogSessions { filter: LogFilter { limit: Some(501), query: None } };
    assert!(validate_runner_command(&rows).is_err());
    let zero = RunnerCommand::ListLogSessions { filter: LogFilter { limit: Some(0), query: None } };
    assert!(validate_runner_command(&zero).is_err());
    let page = RunnerCommand::GetLogPage { session_id: "s".into(), offset: 0, limit: 1_001 };
    assert!(validate_runner_command(&page).is_err());
    let page = RunnerCommand::GetLogPage { session_id: "s".into(), offset: 0, limit: 1_000 };
    assert!(validate_runner_command(&page).is_ok());
    assert!(validate_runner_command(&RunnerCommand::ClearDiagnostics).is_ok());
}

#[test]
fn command_digest_binds_the_exact_serialized_bytes() {
    let compact = br#"{"requestId":"same","command":"stopBot"}"#;
    let spaced = br#"{ "requestId": "same", "command": "stopBot" }"#;
    assert_eq!(command_body_digest(compact), command_body_digest(compact));
    assert_ne!(command_body_digest(compact), command_body_digest(spaced));
}

#[test]
fn command_digest_is_sha256() {
    assert_eq!(
        encode_hex(&command_body_digest(b"abc")),
        "ba7816bf8f01cfea414140de5dae2223b00361a396177a9cb410ff61f20015ad"
    );
}

#[test]
fn digest_header_must_be_64_hex_digits() {
    let digest = command_body_digest(b"body");
    let header = encode_hex(&digest);
    assert_eq!(parse_digest_header(Some(&header)).unwrap(), digest);
    assert_eq!(parse_digest_header(Some(&header.to_uppercase())).unwrap(), digest);
    assert_eq!(parse_digest_header(None).unwrap_err().code, "missing_body_digest");
    assert_eq!(parse_digest_header(Some("")).unwrap_err().code, "missing_body_digest");
    let invalid = parse_digest_header(Some(&header[..63])).unwrap_err();
    assert_eq!((invalid.status, invalid.code), (400, "invalid_body_digest"));
    let mut bad = header.clone();
    bad.replace_range(10..11, "g");
    assert_eq!(parse_digest_header(Some(&bad)).unwrap_err().code, "invalid_body_digest");
}

#[test]
fn transient_failures_are_network_timeout_rate_and_lock_conditions() {
    assert!(transient_failure("Could not reach Lichess: dns"));
    assert!(transient_failure("request TIMED OUT"));
    assert!(transient_failure("Rate Limit exceeded"));
    assert!(transient_failure("database is locked"));
    assert!(transient_failure("temporarily unavailable"));
    assert!(!transient_failure("invalid target"));
    assert_eq!(
        command_completion(&Err("connection reset by peer".into()), true),
        CompletionState::FailedTransient
    );
    assert_eq!(
        command_completion(&Err("invalid target".into()), true),
        CompletionState::FailedDeterministic
    );
    assert_eq!(command_completion(&Ok("{}".into()), true), CompletionState::Done);
    assert_eq!(command_completion(&Ok("{}".into()), false), CompletionState::FailedDeterministic);
}

#[test]
fn command_responses_carry_the_outcome_or_a_size_failure() {
    let ok = command_response(7, &Ok("{\"accepted\":true}".into()), true);
    assert!(ok.ok);
    assert_eq!(ok.request_id, 7);
    assert_eq!(ok.protocol_version, PROTOCOL_VERSION);
    assert_eq!(ok.result.as_deref(), Some("{\"accepted\":true}"));
    let failed = command_response(7, &Err("nope".into()), true);
    let error = failed.error.unwrap();
    assert_eq!((error.code.as_str(), error.message.as_str()), ("command_failed", "nope"));
    let large = command_response(7, &Ok("x".into()), false);
    assert_eq!(large.error.unwrap().code, "response_too_large");
    let refused = refused_admission_response(9);
    assert_eq!(refused.error.unwrap().code, "runner_saturated");
    let pending = pending_response(11);
    assert_eq!((pending.request_id, pending.status.as_str()), (11, "pending"));
}

#[test]
fn bearer_and_auth_outcomes_map_to_status_codes() {
    assert_eq!(bearer_token(Some("Bearer abc")).as_deref(), Some("abc"));
    assert_eq!(bearer_token(Some("Basic abc")), None);
    assert_eq!(bearer_token(None), None);
    assert_eq!(strip_prefix("prefix-rest", "prefix-").as_deref(), Some("rest"));
    assert_eq!(require_auth(&Ok(Some(3))).unwrap(), 3);
    assert_eq!(require_auth(&Ok(None)).unwrap_err().status, 401);
    assert_eq!(require_auth(&Err("db".into())).unwrap_err().status, 503);
    assert_eq!(persistence_failure("rate: too many").status, 429);
    assert_eq!(persistence_failure("quota: full").status, 507);
    assert_eq!(persistence_failure("disk").status, 500);
}

#[test]
fn prepared_commands_bind_kind_digest_and_generation() {
    let body = br#"{"requestId":"k","command":"stopBot"}"#;
    let digest = command_body_digest(body);
    let request = CommandRequest {
        request_id: 42,
        command: RunnerCommand::StopBot { account_id: "bot".into() },
    };
    let binding = prepare_command(3, digest, digest, Some(&request)).unwrap();
    assert_eq!(binding.key, 42);
    assert_eq!(binding.credential_generation, 3);
    assert_eq!(binding.protocol_version, PROTOCOL_VERSION);
    assert_eq!((binding.method, binding.normalized_path), ("POST", "/v2/commands"));
    assert_eq!(binding.body_digest, digest);
    assert_eq!((binding.command_kind, binding.reconciliation), command_spec(&request.command));
    let mismatch = prepare_command(3, [0; 32], digest, Some(&request)).unwrap_err();
    assert_eq!(mismatch.code, "body_digest_mismatch");
    let unparsed = prepare_command(3, digest, digest, None).unwrap_err();
    assert_eq!(unparsed.code, "invalid_command_body");
    let unbounded = CommandRequest {
        request_id: 1,
        command: RunnerCommand::ListLogSessions { filter: LogFilter { limit: None, query: None } },
    };
    assert_eq!(prepare_command(3, digest, digest, Some(&unbounded)).unwrap_err().code, "query_limit_required");
}

#[test]
fn queries_run_on_their_own_lane() {
    assert!(is_query_command(&RunnerCommand::HandoverInventory));
    assert!(!is_query_command(&RunnerCommand::StopBot { account_id: "a".into() }));
    assert_eq!(command_lane(&RunnerCommand::GetLogsOverview), AdmissionLane::Query);
    assert_eq!(command_lane(&RunnerCommand::StopCampaign { account_id: "a".into() }), AdmissionLane::Exempt);
    assert_eq!(command_lane(&RunnerCommand::StartBot { account_id: "a".into() }), AdmissionLane::Normal);
    assert!(needs_blocking_admission(&RunnerCommand::ClearLogSessions));
    assert!(!needs_blocking_admission(&RunnerCommand::GetLogsOverview));
}

#[test]
fn invocation_parses_serve_and_pair_options() {
    let args = |items: &[&str]| items.iter().map(|s| s.to_string()).collect::<Vec<_>>();
    assert!(matches!(runner_invocation(&args(&[])), Ok(Invocation::Serve)));
    assert!(matches!(
        runner_invocation(&args(&["pair", "--print", "--rotate"])),
        Ok(Invocation::Pair { rotate: true, print: true })
    ));
    assert!(matches!(
        runner_invocation(&args(&["pair"])),
        Ok(Invocation::Pair { rotate: false, print: false })
    ));
    assert_eq!(
        runner_invocation(&args(&["pair", "--rotate", "--rotate"])).err().unwrap(),
        "Usage: queen-runner pair [--rotate] [--print]"
    );
    assert_eq!(
        runner_invocation(&args(&["serve"])).err().unwrap(),
        "Usage: queen-runner [pair [--rotate] [--print]]"
    );
}

#[test]
fn reservation_polls_every_fifty_milliseconds_until_the_deadline() {
    assert_eq!(next_reservation_poll(0, 1_000), Some(50));
    assert_eq!(next_reservation_poll(980, 1_000), Some(1_000));
    assert_eq!(next_reservation_poll(1_000, 1_000), None);
}

#[test]
fn refused_redemptions_hide_why_unless_the_code_expired() {
    let expired = redeem_error_response(RedeemError::Expired);
    assert_eq!((expired.status, expired.code), (410, "enrollment_expired"));
    for error in [
        RedeemError::Unavailable,
        RedeemError::Revoked,
        RedeemError::IdentityMismatch,
        RedeemError::Rejected { attempts_remaining: 2 },
    ] {
        let refused = redeem_error_response(error);
        assert_eq!((refused.status, refused.code), (401, "enrollment_rejected"));
        assert_eq!(refused.message, "The enrollment code was rejected; mint a new code if necessary");
    }
}

#[test]
fn engine_and_export_failures_have_fixed_answers() {
    let refused = engine_admin_failure("/etc/passwd is outside every root");
    assert_eq!((refused.status, refused.code), (400, "engine_namespace_rejected"));
    assert_eq!(refused.message, "The scoped engine namespace rejected the request");
    let disabled = disabled_engine_install();
    assert_eq!((disabled.status, disabled.code), (404, "engine_install_disabled"));

    let saturated = log_export_failure(ExportFailure::Saturated);
    assert_eq!((saturated.status, saturated.code), (429, "query_saturated"));
    let invalid = log_export_failure(ExportFailure::InvalidMode);
    assert_eq!((invalid.status, invalid.code), (400, "export_failed"));
    assert_eq!(invalid.message, "The requested log export mode is invalid");
    let timeout = log_export_failure(ExportFailure::Timeout);
    assert_eq!((timeout.status, timeout.code), (408, "export_timeout"));
    let failed = log_export_failure(ExportFailure::Failed);
    assert_eq!(failed.message, "The requested log could not be exported");

    assert_eq!(export_content_type("archive"), "application/gzip");
    assert_eq!(export_content_type("text"), "text/plain; charset=utf-8");
}
