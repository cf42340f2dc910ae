//! The runner's command boundary: what each command is recorded as for
//! idempotent replay, which admission lane it takes, which inputs are
//! refused before execution, how failures are classified, and how the
//! bearer and the body digest are read from a request.
use vstd::prelude::*;
use vstd::utf8::encode_utf8;
use crate::hex::{hex_digit, hex_of};
use crate::ledger::{CompletionState, IdempotencyBinding, RedeemError, Reservation};
use crate::protocol::{
    CommandRequest, CommandResponse, LogFilter, LogQuery, PendingResponse, RunnerCommand,
    PROTOCOL_VERSION,
};
use crate::text::{
    chars_of, contains_chars, contains_seq, find_from, lower_chars, lower_seq, occurs_at, push_str,
    str_eq, string_from_chars,
};

verus! {

/// The runner's graceful shutdown budget, in seconds; it must stay below
/// the service manager's stop deadline.
pub const RUNNER_SHUTDOWN_BUDGET_SECONDS: u64 = 13;

/// How long a bounded query may run, in seconds.
pub const QUERY_DEADLINE_SECONDS: u64 = 5;

/// The largest log export, in bytes.
pub const LOG_EXPORT_MAX_BYTES: u64 = 67_108_864;

/// An HTTP error answer of the runner: status, machine code and message.
#[derive(Debug)]
pub struct ApiResponse {
    pub status: u16,
    pub code: &'static str,
    pub message: &'static str,
}

/// The kind and reconciliation scope a command is recorded under.
pub open spec fn command_spec_view(c: RunnerCommand) -> (Seq<char>, Seq<char>) {
    match c {
        RunnerCommand::RegisterEngine { .. } => (
            "registerEngine"@,
            "engine registry and content-addressed store"@,
        ),
        RunnerCommand::RemoveEngine { .. } => ("removeEngine"@, "engine registry and process table"@),
        RunnerCommand::UpdateEngineOptions { .. } => (
            "updateEngineOptions"@,
            "engine registry and process table"@,
        ),
        RunnerCommand::RefreshEngineOptions { .. } => (
            "refreshEngineOptions"@,
            "engine registry and process table"@,
        ),
        RunnerCommand::ConfigureOpeningBook { .. } => (
            "configureOpeningBook"@,
            "engine configuration state"@,
        ),
        RunnerCommand::ClearEngineOpeningBook { .. } => (
            "clearEngineOpeningBook"@,
            "engine configuration state"@,
        ),
        RunnerCommand::AddLichessAccount { .. } => ("addLichessAccount"@, "Lichess account state"@),
        RunnerCommand::UpdateLichessAccountToken { .. } => (
            "updateLichessAccountToken"@,
            "Lichess account secret"@,
        ),
        RunnerCommand::UpdateAccountEngine { .. } => (
            "updateAccountEngine"@,
            "Lichess account and engine state"@,
        ),
        RunnerCommand::RemoveLichessAccount { .. } => (
            "removeLichessAccount"@,
            "Lichess account state"@,
        ),
        RunnerCommand::StartBot { .. } => ("startBot"@, "Lichess account state"@),
        RunnerCommand::StopBot { .. } => ("stopBot"@, "Lichess account state"@),
        RunnerCommand::StartCampaign { .. } => ("startCampaign"@, "Lichess challenge state"@),
        RunnerCommand::StopCampaign { .. } => ("stopCampaign"@, "Lichess challenge state"@),
        RunnerCommand::CreateChallenge { .. } => ("createChallenge"@, "Lichess challenge state"@),
        RunnerCommand::DismissGameError { .. } => ("dismissGameError"@, "retained game error state"@),
        RunnerCommand::HandoverInventory => (
            "handoverInventory"@,
            "runner automation ownership state"@,
        ),
        RunnerCommand::GetScorebookStats { .. } => ("getScorebookStats"@, "runner history state"@),
        RunnerCommand::ImportLichessHistory { .. } => (
            "importLichessHistory"@,
            "Lichess game history state"@,
        ),
        RunnerCommand::ListLogSessions { .. } => ("listLogSessions"@, "runner log state"@),
        RunnerCommand::GetLogPage { .. } => ("getLogPage"@, "runner log state"@),
        RunnerCommand::GetLogOutline { .. } => ("getLogOutline"@, "runner log state"@),
        RunnerCommand::SearchLogSession { .. } => ("searchLogSession"@, "runner log state"@),
        RunnerCommand::SearchLogSessions { .. } => ("searchLogSessions"@, "runner log state"@),
        RunnerCommand::DeleteLogSession { .. } => ("deleteLogSession"@, "runner log state"@),
        RunnerCommand::ClearLogSessions => ("clearLogSessions"@, "runner log state"@),
        RunnerCommand::GetLogsOverview => ("getLogsOverview"@, "runner log state"@),
        RunnerCommand::SetLogRetention { .. } => ("setLogRetention"@, "runner log state"@),
        RunnerCommand::GetDiagnostics { .. } => ("getDiagnostics"@, "runner diagnostics state"@),
        RunnerCommand::ClearDiagnostics => ("clearDiagnostics"@, "runner diagnostics state"@),
    }
}

/// The kind and reconciliation scope of a command.
pub fn command_spec(command: &RunnerCommand) -> (spec: (&'static str, &'static str))
    ensures
        (spec.0@, spec.1@) == command_spec_view(*command),
{
    match command {
        RunnerCommand::RegisterEngine { .. } => (
            "registerEngine",
            "engine registry and content-addressed store",
        ),
        RunnerCommand::RemoveEngine { .. } => ("removeEngine", "engine registry and process table"),
        RunnerCommand::UpdateEngineOptions { .. } => (
            "updateEngineOptions",
            "engine registry and process table",
        ),
        RunnerCommand::RefreshEngineOptions { .. } => (
            "refreshEngineOptions",
            "engine registry and process table",
        ),
        RunnerCommand::ConfigureOpeningBook { .. } => (
            "configureOpeningBook",
            "engine configuration state",
        ),
        RunnerCommand::ClearEngineOpeningBook { .. } => (
            "clearEngineOpeningBook",
            "engine configuration state",
        ),
        RunnerCommand::AddLichessAccount { .. } => ("addLichessAccount", "Lichess account state"),
        RunnerCommand::UpdateLichessAccountToken { .. } => (
            "updateLichessAccountToken",
            "Lichess account secret",
        ),
        RunnerCommand::UpdateAccountEngine { .. } => (
            "updateAccountEngine",
            "Lichess account and engine state",
        ),
        RunnerCommand::RemoveLichessAccount { .. } => ("removeLichessAccount", "Lichess account state"),
        RunnerCommand::StartBot { .. } => ("startBot", "Lichess account state"),
        RunnerCommand::StopBot { .. } => ("stopBot", "Lichess account state"),
        RunnerCommand::StartCampaign { .. } => ("startCampaign", "Lichess challenge state"),
        RunnerCommand::StopCampaign { .. } => ("stopCampaign", "Lichess challenge state"),
        RunnerCommand::CreateChallenge { .. } => ("createChallenge", "Lichess challenge state"),
        RunnerCommand::DismissGameError { .. } => ("dismissGameError", "retained game error state"),
        RunnerCommand::HandoverInventory => ("handoverInventory", "runner automation ownership state"),
        RunnerCommand::GetScorebookStats { .. } => ("getScorebookStats", "runner history state"),
        RunnerCommand::ImportLichessHistory { .. } => (
            "importLichessHistory",
            "Lichess game history state",
        ),
        RunnerCommand::ListLogSessions { .. } => ("listLogSessions", "runner log state"),
        RunnerCommand::GetLogPage { .. } => ("getLogPage", "runner log state"),
        RunnerCommand::GetLogOutline { .. } => ("getLogOutline", "runner log state"),
        RunnerCommand::SearchLogSession { .. } => ("searchLogSession", "runner log state"),
        RunnerCommand::SearchLogSessions { .. } => ("searchLogSessions", "runner log state"),
        RunnerCommand::DeleteLogSession { .. } => ("deleteLogSession", "runner log state"),
        RunnerCommand::ClearLogSessions => ("clearLogSessions", "runner log state"),
        RunnerCommand::GetLogsOverview => ("getLogsOverview", "runner log state"),
        RunnerCommand::SetLogRetention { .. } => ("setLogRetention", "runner log state"),
        RunnerCommand::GetDiagnostics { .. } => ("getDiagnostics", "runner diagnostics state"),
        RunnerCommand::ClearDiagnostics => ("clearDiagnostics", "runner diagnostics state"),
    }
}

/// The read-only queries, which run in their own lane under a deadline.
pub open spec fn query_command(c: RunnerCommand) -> bool {
    ||| c is HandoverInventory
    ||| c is GetScorebookStats
    ||| c is ListLogSessions
    ||| c is GetLogPage
    ||| c is GetLogOutline
    ||| c is SearchLogSession
    ||| c is SearchLogSessions
    ||| c is GetLogsOverview
    ||| c is GetDiagnostics
}

/// Whether a command is a bounded read-only query.
pub fn is_query_command(command: &RunnerCommand) -> (query: bool)
    ensures
        query == query_command(*command),
{
    match command {
        RunnerCommand::HandoverInventory
        | RunnerCommand::GetScorebookStats { .. }
        | RunnerCommand::ListLogSessions { .. }
        | RunnerCommand::GetLogPage { .. }
        | RunnerCommand::GetLogOutline { .. }
        | RunnerCommand::SearchLogSession { .. }
        | RunnerCommand::SearchLogSessions { .. }
        | RunnerCommand::GetLogsOverview
        | RunnerCommand::GetDiagnostics { .. } => true,
        _ => false,
    }
}

/// The admission lane of a command.
#[derive(PartialEq, Eq, Structural, Clone, Copy, Debug)]
pub enum AdmissionLane {
    /// Stops are never refused for saturation.
    Exempt,
    Query,
    Normal,
}

/// Stops bypass admission; queries and other commands each have a lane.
pub fn command_lane(command: &RunnerCommand) -> (lane: AdmissionLane)
    ensures
        lane == if command is StopBot || command is StopCampaign {
            AdmissionLane::Exempt
        } else if query_command(*command) {
            AdmissionLane::Query
        } else {
            AdmissionLane::Normal
        },
{
    match command {
        RunnerCommand::StopBot { .. } | RunnerCommand::StopCampaign { .. } => AdmissionLane::Exempt,
        _ => if is_query_command(command) {
            AdmissionLane::Query
        } else {
            AdmissionLane::Normal
        },
    }
}

/// Whether a command also needs a permit of the bounded blocking-work pool.
pub fn needs_blocking_admission(command: &RunnerCommand) -> (needs: bool)
    ensures
        needs == (command is RegisterEngine || command is ConfigureOpeningBook
            || command is ImportLichessHistory || command is DeleteLogSession
            || command is ClearLogSessions || command is ClearDiagnostics),
{
    match command {
        RunnerCommand::RegisterEngine { .. }
        | RunnerCommand::ConfigureOpeningBook { .. }
        | RunnerCommand::ImportLichessHistory { .. }
        | RunnerCommand::DeleteLogSession { .. }
        | RunnerCommand::ClearLogSessions
        | RunnerCommand::ClearDiagnostics => true,
        _ => false,
    }
}

/// The answer when a lane is full.
pub fn saturated_lane() -> (r: ApiResponse)
    ensures
        r.status == 429,
        r.code@ == "runner_saturated"@,
        r.message@ == "The bounded runner admission lane is full; retry later"@,
{
    ApiResponse {
        status: 429,
        code: "runner_saturated",
        message: "The bounded runner admission lane is full; retry later",
    }
}

/// The answer when the blocking-work pool is full.
pub fn saturated_blocking_pool() -> (r: ApiResponse)
    ensures
        r.status == 429,
        r.code@ == "blocking_work_saturated"@,
        r.message@ == "The bounded blocking-work pool is full; retry later"@,
{
    ApiResponse {
        status: 429,
        code: "blocking_work_saturated",
        message: "The bounded blocking-work pool is full; retry later",
    }
}

/// The answer when the scoped engine namespace refuses a request; what it
/// refused is not disclosed.
pub fn engine_admin_failure(detail: &str) -> (r: ApiResponse)
    ensures
        r.status == 400,
        r.code@ == "engine_namespace_rejected"@,
        r.message@ == "The scoped engine namespace rejected the request"@,
{
    ApiResponse {
        status: 400,
        code: "engine_namespace_rejected",
        message: "The scoped engine namespace rejected the request",
    }
}

/// The answer to an engine upload or arbitrary-path registration, neither
/// of which exists in trusted-engine mode.
pub fn disabled_engine_install() -> (r: ApiResponse)
    ensures
        r.status == 404,
        r.code@ == "engine_install_disabled"@,
        r.message@ == "Remote upload and arbitrary-path registration are unavailable in trusted-engine mode"@,
{
    ApiResponse {
        status: 404,
        code: "engine_install_disabled",
        message: "Remote upload and arbitrary-path registration are unavailable in trusted-engine mode",
    }
}

/// Why a log export failed.
pub enum ExportFailure {
    /// The query lane is full.
    Saturated,
    /// The export mode is not one the flight recorder knows.
    InvalidMode,
    /// The export did not finish within the query deadline.
    Timeout,
    /// The session could not be exported.
    Failed,
}

pub open spec fn export_failure_view(f: ExportFailure) -> (u16, Seq<char>, Seq<char>) {
    match f {
        ExportFailure::Saturated => (429, "query_saturated"@, "The bounded query lane is full; retry later"@),
        ExportFailure::InvalidMode => (400, "export_failed"@, "The requested log export mode is invalid"@),
        ExportFailure::Timeout => (408, "export_timeout"@, "The bounded log export deadline was exceeded"@),
        ExportFailure::Failed => (400, "export_failed"@, "The requested log could not be exported"@),
    }
}

/// The answer to a failed log export.
pub fn log_export_failure(failure: ExportFailure) -> (r: ApiResponse)
    ensures
        (r.status, r.code@, r.message@) == export_failure_view(failure),
{
    match failure {
        ExportFailure::Saturated => ApiResponse {
            status: 429,
            code: "query_saturated",
            message: "The bounded query lane is full; retry later",
        },
        ExportFailure::InvalidMode => ApiResponse {
            status: 400,
            code: "export_failed",
            message: "The requested log export mode is invalid",
        },
        ExportFailure::Timeout => ApiResponse {
            status: 408,
            code: "export_timeout",
            message: "The bounded log export deadline was exceeded",
        },
        ExportFailure::Failed => ApiResponse {
            status: 400,
            code: "export_failed",
            message: "The requested log could not be exported",
        },
    }
}

/// The content type of an exported log: gzip for the archive mode, plain
/// UTF-8 text otherwise.
pub fn export_content_type(mode: &str) -> (content_type: &'static str)
    ensures
        content_type@ == if mode@ == "archive"@ {
            "application/gzip"@
        } else {
            "text/plain; charset=utf-8"@
        },
{
    if str_eq(mode, "archive") {
        "application/gzip"
    } else {
        "text/plain; charset=utf-8"
    }
}

pub const LOG_ROW_LIMIT: u32 = 500;

pub const LOG_PAGE_LIMIT: u64 = 1000;

pub const LOG_SEARCH_TEXT_LIMIT: usize = 512;

/// A log filter without a row limit in 1..=500, or with search text over
/// 512 bytes of UTF-8, is unbounded.
pub open spec fn filter_unbounded(f: LogFilter) -> bool {
    (match f.limit {
        Some(l) => l == 0 || l > LOG_ROW_LIMIT,
        None => true,
    }) || (match f.query {
        Some(q) => encode_utf8(q@).len() > LOG_SEARCH_TEXT_LIMIT,
        None => false,
    })
}

pub open spec fn query_unbounded(q: LogQuery) -> bool {
    q.limit == 0 || q.limit > LOG_ROW_LIMIT || encode_utf8(q.text@).len() > LOG_SEARCH_TEXT_LIMIT
}

/// Runner queries must carry bounded row and input limits.
pub open spec fn command_unbounded(c: RunnerCommand) -> bool {
    match c {
        RunnerCommand::ListLogSessions { filter } => filter_unbounded(filter),
        RunnerCommand::GetLogPage { limit, .. } => limit == 0 || limit > LOG_PAGE_LIMIT,
        RunnerCommand::SearchLogSession { query, .. } => query_unbounded(query),
        RunnerCommand::SearchLogSessions { filter, query } => filter_unbounded(filter)
            || query_unbounded(query),
        _ => false,
    }
}

fn filter_is_unbounded(f: &LogFilter) -> (r: bool)
    ensures
        r == filter_unbounded(*f),
{
    let limit_bad = match f.limit {
        Some(l) => l == 0 || l > LOG_ROW_LIMIT,
        None => true,
    };
    let query_bad = match &f.query {
        Some(q) => q.as_str().as_bytes().len() > LOG_SEARCH_TEXT_LIMIT,
        None => false,
    };
    limit_bad || query_bad
}

fn query_is_unbounded(q: &LogQuery) -> (r: bool)
    ensures
        r == query_unbounded(*q),
{
    q.limit == 0 || q.limit > LOG_ROW_LIMIT || q.text.as_str().as_bytes().len() > LOG_SEARCH_TEXT_LIMIT
}

/// Refuses runner queries without bounded row and input limits.
pub fn validate_runner_command(command: &RunnerCommand) -> (result: Result<(), ApiResponse>)
    ensures
        command_unbounded(*command) <==> result is Err,
        result matches Err(r) ==> r.status == 400 && r.code@ == "query_limit_required"@
            && r.message@ == "Runner queries require bounded row and input limits"@,
{
    let invalid = match command {
        RunnerCommand::ListLogSessions { filter } => filter_is_unbounded(filter),
        RunnerCommand::GetLogPage { limit, .. } => *limit == 0 || *limit > LOG_PAGE_LIMIT,
        RunnerCommand::SearchLogSession { query, .. } => query_is_unbounded(query),
        RunnerCommand::SearchLogSessions { filter, query } => filter_is_unbounded(filter)
            || query_is_unbounded(query),
        _ => false,
    };
    if invalid {
        Err(
            ApiResponse {
                status: 400,
                code: "query_limit_required",
                message: "Runner queries require bounded row and input limits",
            },
        )
    } else {
        Ok(())
    }
}

/// The value of one hexadecimal digit, upper or lower case.
pub open spec fn hex_value(c: char) -> Option<u8> {
    if '0' <= c && c <= '9' {
        Some((c as u32 - '0' as u32) as u8)
    } else if 'a' <= c && c <= 'f' {
        Some((c as u32 - 'a' as u32 + 10) as u8)
    } else if 'A' <= c && c <= 'F' {
        Some((c as u32 - 'A' as u32 + 10) as u8)
    } else {
        None
    }
}

/// A digest header: exactly 64 hexadecimal digits.
pub open spec fn digest_text(s: Seq<char>) -> bool {
    s.len() == 64 && forall|i: int| 0 <= i < 64 ==> (#[trigger] hex_value(s[i])) is Some
}

/// The bytes a 64-digit hexadecimal text denotes.
pub open spec fn digest_bytes(s: Seq<char>) -> Seq<u8> {
    Seq::new(32, |i: int| (hex_value(s[2 * i]).unwrap() * 16 + hex_value(s[2 * i + 1]).unwrap()) as u8)
}

fn hex_char_value(c: char) -> (v: Option<u8>)
    ensures
        v == hex_value(c),
{
    if '0' <= c && c <= '9' {
        Some((c as u32 - '0' as u32) as u8)
    } else if 'a' <= c && c <= 'f' {
        Some((c as u32 - 'a' as u32 + 10) as u8)
    } else if 'A' <= c && c <= 'F' {
        Some((c as u32 - 'A' as u32 + 10) as u8)
    } else {
        None
    }
}

/// Reads the declared SHA-256 digest of a command body from its header:
/// missing or empty is refused as missing, and anything but 64 hexadecimal
/// digits as invalid.
pub fn parse_digest_header(header: Option<&str>) -> (digest: Result<[u8; 32], ApiResponse>)
    ensures
        match header {
            None => digest matches Err(r) && r.status == 400 && r.code@ == "missing_body_digest"@
                && r.message@ == "A required request header is missing"@,
            Some(h) => if h@.len() == 0 {
                digest matches Err(r) && r.status == 400 && r.code@ == "missing_body_digest"@
                    && r.message@ == "A required request header is missing"@
            } else if digest_text(h@) {
                digest matches Ok(d) && d@ == digest_bytes(h@)
            } else {
                digest matches Err(r) && r.status == 400 && r.code@ == "invalid_body_digest"@
                    && r.message@ == "The body digest must be 64 hexadecimal characters"@
            },
        },
{
    let missing = ApiResponse {
        status: 400,
        code: "missing_body_digest",
        message: "A required request header is missing",
    };
    let invalid = ApiResponse {
        status: 400,
        code: "invalid_body_digest",
        message: "The body digest must be 64 hexadecimal characters",
    };
    let text = match header {
        None => return Err(missing),
        Some(h) => h,
    };
    let chars = chars_of(text);
    if chars.len() == 0 {
        return Err(missing);
    }
    if chars.len() != 64 {
        return Err(invalid);
    }
    let mut i: usize = 0;
    while i < 64
        invariant
            chars@ == text@,
            header == Some(text),
            chars@.len() == 64,
            invalid.status == 400,
            invalid.code@ == "invalid_body_digest"@,
            invalid.message@ == "The body digest must be 64 hexadecimal characters"@,
            i <= 64,
            forall|j: int| 0 <= j < i ==> (#[trigger] hex_value(chars@[j])) is Some,
        decreases 64 - i,
    {
        if hex_char_value(chars[i]).is_none() {
            proof {
                assert(hex_value(text@[i as int]) is None);
                assert(!digest_text(text@));
            }
            return Err(invalid);
        }
        i = i + 1;
    }
    let mut digest: [u8; 32] = [0u8; 32];
    let mut k: usize = 0;
    while k < 32
        invariant
            chars@ == text@,
            digest_text(text@),
            k <= 32,
            digest@.len() == 32,
            forall|j: int| 0 <= j < k ==> digest@[j] == digest_bytes(text@)[j],
        decreases 32 - k,
    {
        let high = hex_char_value(chars[2 * k]).unwrap();
        let low = hex_char_value(chars[2 * k + 1]).unwrap();
        proof {
            assert(hex_value(chars@[2 * k as int]) is Some);
            assert(hex_value(chars@[2 * k + 1]) is Some);
            assert(high < 16 && low < 16);
        }
        digest[k] = high * 16 + low;
        k = k + 1;
    }
    proof {
        assert(digest@ =~= digest_bytes(text@));
    }
    Ok(digest)
}

/// Reading back the hexadecimal text of a digest gives the digest: the
/// header a client computes with `encode_hex` is accepted as exactly the
/// bytes it encodes.
pub proof fn law_digest_header_round_trip(d: Seq<u8>)
    requires
        d.len() == 32,
    ensures
        digest_text(hex_of(d)),
        digest_bytes(hex_of(d)) == d,
{
    crate::hex::lemma_hex_of_index(d);
    assert forall|i: int| 0 <= i < 64 implies (#[trigger] hex_value(hex_of(d)[i])) is Some by {
        let j = i / 2;
        let b = d[j];
        assert(hex_of(d)[2 * j] == hex_digit(b as int / 16));
        if i % 2 == 0 {
            assert(i == 2 * j);
            assert(hex_of(d)[i] == hex_digit(b as int / 16));
        } else {
            assert(i == 2 * j + 1);
            assert(hex_of(d)[i] == hex_digit(b as int % 16));
        }
    }
    assert forall|j: int| 0 <= j < 32 implies #[trigger] digest_bytes(hex_of(d))[j] == d[j] by {
        assert(hex_of(d)[2 * j] == hex_digit(d[j] as int / 16));
        assert(hex_of(d)[2 * j + 1] == hex_digit(d[j] as int % 16));
    }
    assert(digest_bytes(hex_of(d)) =~= d);
}

/// Failure texts that mark a command failure as transient, compared in
/// ASCII lower case.
pub open spec fn transient_text(e: Seq<char>) -> bool {
    let n = lower_seq(e);
    ||| contains_seq(n, "could not reach lichess"@)
    ||| contains_seq(n, "timed out"@)
    ||| contains_seq(n, "timeout"@)
    ||| contains_seq(n, "deadline"@)
    ||| contains_seq(n, "temporar"@)
    ||| contains_seq(n, "rate limit"@)
    ||| contains_seq(n, "database is locked"@)
    ||| contains_seq(n, "connection reset"@)
}

fn has_fragment(hay: &Vec<char>, fragment: &str) -> (found: bool)
    ensures
        found == contains_seq(hay@, fragment@),
{
    let needle = chars_of(fragment);
    contains_chars(hay, &needle)
}

/// Whether a failed command may be retried under a fresh key: its error
/// names a network, timeout, rate-limit or lock condition.
pub fn transient_failure(error: &str) -> (transient: bool)
    ensures
        transient == transient_text(error@),
{
    let chars = chars_of(error);
    let normalized = lower_chars(&chars);
    has_fragment(&normalized, "could not reach lichess") || has_fragment(&normalized, "timed out")
        || has_fragment(&normalized, "timeout") || has_fragment(&normalized, "deadline")
        || has_fragment(&normalized, "temporar") || has_fragment(&normalized, "rate limit")
        || has_fragment(&normalized, "database is locked") || has_fragment(
        &normalized,
        "connection reset",
    )
}

/// The text a redacted secret is replaced with.
pub open spec fn redacted_mark() -> Seq<char> {
    seq!['<', 'r', 'e', 'd', 'a', 'c', 't', 'e', 'd', '>']
}

/// A character that ends a secret value in a log line.
pub open spec fn value_terminator(c: char) -> bool {
    c == '&' || c == '"' || c == ' ' || c == '\t' || c == '\n' || c == '\x0C' || c == '\r'
}

/// Where the secret value starting at `start` ends.
pub open spec fn value_end(s: Seq<char>, start: int) -> int
    decreases s.len() - start,
{
    if start >= s.len() {
        s.len() as int
    } else if value_terminator(s[start]) {
        start
    } else {
        value_end(s, start + 1)
    }
}

pub proof fn lemma_value_end(s: Seq<char>, start: int)
    requires
        0 <= start,
    ensures
        start <= value_end(s, start) <= s.len() || (start > s.len() && value_end(s, start) == s.len()),
        value_end(s, start) <= s.len(),
    decreases s.len() - start,
{
    if start < s.len() && !value_terminator(s[start]) {
        lemma_value_end(s, start + 1);
    }
}

/// The first occurrence of a marker at or after `from`.
pub open spec fn first_marker(s: Seq<char>, m: Seq<char>, from: int) -> Option<int>
    decreases s.len() - from,
    when 0 <= from
{
    if from > s.len() {
        None
    } else if occurs_at(s, m, from) {
        Some(from)
    } else if from == s.len() {
        None
    } else {
        first_marker(s, m, from + 1)
    }
}

pub proof fn lemma_first_marker(s: Seq<char>, m: Seq<char>, from: int)
    requires
        0 <= from,
    ensures
        match first_marker(s, m, from) {
            Some(p) => from <= p && occurs_at(s, m, p) && forall|j: int| from <= j < p ==> !occurs_at(s, m, j),
            None => forall|j: int| from <= j ==> !occurs_at(s, m, j),
        },
    decreases s.len() - from,
{
    if from < s.len() && !occurs_at(s, m, from) {
        lemma_first_marker(s, m, from + 1);
        assert forall|j: int| from <= j && !(from + 1 <= j) implies !occurs_at(s, m, j) by {
            assert(j == from);
        }
    }
}

proof fn lemma_first_marker_unique(s: Seq<char>, m: Seq<char>, from: int, at: int)
    requires
        0 <= from <= at,
        occurs_at(s, m, at),
        forall|j: int| from <= j < at ==> !occurs_at(s, m, j),
    ensures
        first_marker(s, m, from) == Some(at),
{
    lemma_first_marker(s, m, from);
    match first_marker(s, m, from) {
        Some(p) => {
            if p < at {
                assert(!occurs_at(s, m, p));
            }
            if p > at {
                assert(!occurs_at(s, m, at));
            }
        },
        None => {
            assert(!occurs_at(s, m, at));
        },
    }
}

/// Replaces the value after every occurrence of a non-empty marker, from
/// position `from` on, with the redaction mark; the search resumes after
/// each mark.
pub open spec fn redact_from(s: Seq<char>, m: Seq<char>, from: int) -> Seq<char>
    recommends
        m.len() > 0,
    decreases s.len() - from,
    when 0 <= from && m.len() > 0
{
    match first_marker(s, m, from) {
        None => s,
        Some(p) => {
            let start = p + m.len();
            let end = value_end(s, start);
            proof {
                lemma_first_marker(s, m, from);
                lemma_value_end(s, start);
            }
            redact_from(s.subrange(0, start) + redacted_mark() + s.subrange(end, s.len() as int), m, start + 10)
        },
    }
}

/// The log-safe form of a message: the values after `enroll=` and after
/// `Bearer ` are redacted.
pub open spec fn redacted_message(s: Seq<char>) -> Seq<char> {
    redact_from(redact_from(s, "enroll="@, 0), "Bearer "@, 0)
}

fn value_end_exec(s: &Vec<char>, start: usize) -> (end: usize)
    requires
        start <= s@.len(),
    ensures
        end == value_end(s@, start as int),
{
    let mut i = start;
    while i < s.len()
        invariant
            start <= i <= s@.len(),
            value_end(s@, start as int) == value_end(s@, i as int),
        decreases s.len() - i,
    {
        let c = s[i];
        if c == '&' || c == '"' || c == ' ' || c == '\t' || c == '\n' || c == '\x0C' || c == '\r' {
            return i;
        }
        i = i + 1;
    }
    i
}

fn redact_marker(message: Vec<char>, marker: &str) -> (out: Vec<char>)
    requires
        marker@.len() > 0,
        marker@.len() < 64,
    ensures
        out@ == redact_from(message@, marker@, 0),
{
    let m = chars_of(marker);
    let mut current = message;
    let mut search_from: usize = 0;
    let ghost original = current@;
    loop
        invariant
            m@ == marker@,
            m@.len() > 0,
            m@.len() < 64,
            original == message@,
            search_from <= current@.len(),
            redact_from(current@, m@, search_from as int) == redact_from(original, m@, 0),
        decreases current@.len() - search_from,
    {
        match find_from(&current, &m, search_from) {
            None => {
                proof {
                    lemma_first_marker(current@, m@, search_from as int);
                    match first_marker(current@, m@, search_from as int) {
                        Some(p) => {
                            assert(!occurs_at(current@, m@, p));
                        },
                        None => {},
                    }
                    assert(redact_from(current@, m@, search_from as int) == current@);
                }
                return current;
            },
            Some(at) => {
                let n = current.len();
                proof {
                    lemma_first_marker_unique(current@, m@, search_from as int, at as int);
                    assert(at + m@.len() <= n);
                }
                let start = at + m.len();
                let end = value_end_exec(&current, start);
                proof {
                    lemma_value_end(current@, start as int);
                }
                let mut next: Vec<char> = Vec::new();
                let mut i: usize = 0;
                while i < start
                    invariant
                        start <= current@.len(),
                        i <= start,
                        next@ == current@.subrange(0, i as int),
                    decreases start - i,
                {
                    next.push(current[i]);
                    proof {
                        assert(current@.subrange(0, i + 1) =~= current@.subrange(0, i as int).push(
                            current@[i as int],
                        ));
                    }
                    i = i + 1;
                }
                let mark: [char; 10] = ['<', 'r', 'e', 'd', 'a', 'c', 't', 'e', 'd', '>'];
                let mut r: usize = 0;
                while r < 10
                    invariant
                        r <= 10,
                        mark@ == redacted_mark(),
                        next@ == current@.subrange(0, start as int) + redacted_mark().subrange(0, r as int),
                    decreases 10 - r,
                {
                    next.push(mark[r]);
                    proof {
                        assert(redacted_mark().subrange(0, r + 1) =~= redacted_mark().subrange(0, r as int).push(
                            redacted_mark()[r as int],
                        ));
                    }
                    r = r + 1;
                }
                let mut j = end;
                while j < current.len()
                    invariant
                        end <= j <= current@.len(),
                        next@ == current@.subrange(0, start as int) + redacted_mark() + current@.subrange(
                            end as int,
                            j as int,
                        ),
                    decreases current.len() - j,
                {
                    next.push(current[j]);
                    proof {
                        assert(current@.subrange(end as int, j + 1) =~= current@.subrange(end as int, j as int).push(
                            current@[j as int],
                        ));
                    }
                    j = j + 1;
                }
                proof {
                    assert(redacted_mark().subrange(0, 10) =~= redacted_mark());
                    assert(next@ =~= current@.subrange(0, start as int) + redacted_mark() + current@.subrange(
                        end as int,
                        current@.len() as int,
                    ));
                    assert(next@.len() >= start + 10);
                }
                let next_len = next.len();
                current = next;
                search_from = start + 10;
            },
        }
    }
}

/// Redacts the pairing code and the bearer from a message before it is
/// logged.
pub fn redact_for_log(message: &str) -> (redacted: String)
    ensures
        redacted@ == redacted_message(message@),
{
    let chars = chars_of(message);
    proof {
        reveal_strlit("enroll=");
        reveal_strlit("Bearer ");
    }
    let once = redact_marker(chars, "enroll=");
    let twice = redact_marker(once, "Bearer ");
    string_from_chars(&twice)
}

pub open spec fn starts_with(s: Seq<char>, prefix: Seq<char>) -> bool {
    prefix.len() <= s.len() && s.subrange(0, prefix.len() as int) == prefix
}

fn has_prefix(s: &str, prefix: &str) -> (r: bool)
    ensures
        r == starts_with(s@, prefix@),
{
    let hay = chars_of(s);
    let needle = chars_of(prefix);
    crate::text::occurs_at_exec(&hay, &needle, 0)
}

/// The rest of `s` after `prefix`, when `s` starts with it.
pub fn strip_prefix(s: &str, prefix: &str) -> (rest: Option<String>)
    ensures
        starts_with(s@, prefix@) ==> (rest matches Some(r) && r@ == s@.subrange(
            prefix@.len() as int,
            s@.len() as int,
        )),
        !starts_with(s@, prefix@) ==> rest is None,
{
    if !has_prefix(s, prefix) {
        return None;
    }
    let chars = chars_of(s);
    let skip = prefix.unicode_len();
    let mut out: Vec<char> = Vec::new();
    let mut i = skip;
    while i < chars.len()
        invariant
            skip <= i <= chars@.len(),
            out@ == chars@.subrange(skip as int, i as int),
        decreases chars.len() - i,
    {
        out.push(chars[i]);
        proof {
            assert(chars@.subrange(skip as int, i + 1) =~= chars@.subrange(skip as int, i as int).push(
                chars@[i as int],
            ));
        }
        i = i + 1;
    }
    Some(string_from_chars(&out))
}

/// The bearer a request presents in its Authorization header.
pub fn bearer_token(authorization: Option<&str>) -> (bearer: Option<String>)
    ensures
        match authorization {
            Some(a) => if starts_with(a@, "Bearer "@) {
                bearer matches Some(b) && b@ == a@.subrange(7, a@.len() as int)
            } else {
                bearer is None
            },
            None => bearer is None,
        },
{
    proof {
        reveal_strlit("Bearer ");
    }
    match authorization {
        Some(a) => strip_prefix(a, "Bearer "),
        None => None,
    }
}

/// The credential generation of an authenticated request, from the
/// outcome of checking its bearer: a database failure makes
/// authentication unavailable, and a missing or unknown bearer is
/// unauthorized.
pub fn require_auth(authorized: &Result<Option<u64>, String>) -> (result: Result<u64, ApiResponse>)
    ensures
        match authorized {
            Ok(Some(g)) => result == Ok::<u64, ApiResponse>(*g),
            Ok(None) => result matches Err(r) && r.status == 401 && r.code@ == "unauthorized"@
                && r.message@ == "Supply the runner bearer token"@,
            Err(_) => result matches Err(r) && r.status == 503 && r.code@
                == "authentication_unavailable"@ && r.message@
                == "Runner authentication is temporarily unavailable"@,
        },
{
    match authorized {
        Ok(Some(g)) => Ok(*g),
        Ok(None) => Err(
            ApiResponse {
                status: 401,
                code: "unauthorized",
                message: "Supply the runner bearer token",
            },
        ),
        Err(_) => Err(
            ApiResponse {
                status: 503,
                code: "authentication_unavailable",
                message: "Runner authentication is temporarily unavailable",
            },
        ),
    }
}

/// How an idempotency-store failure is answered: rate-limited and
/// quota-full reservations keep their own codes, anything else makes the
/// store unavailable.
pub fn persistence_failure(error: &str) -> (r: ApiResponse)
    ensures
        starts_with(error@, "rate:"@) ==> r.status == 429 && r.code@ == "idempotency_rate_limited"@
            && r.message@ == "Too many new idempotency keys; retry later"@,
        !starts_with(error@, "rate:"@) && starts_with(error@, "quota:"@) ==> r.status == 507
            && r.code@ == "idempotency_quota_full"@ && r.message@
            == "The durable idempotency quota is full; retry after cleanup"@,
        !starts_with(error@, "rate:"@) && !starts_with(error@, "quota:"@) ==> r.status == 500
            && r.code@ == "idempotency_unavailable"@ && r.message@
            == "Durable idempotency is unavailable; the command was not admitted"@,
{
    if has_prefix(error, "rate:") {
        ApiResponse {
            status: 429,
            code: "idempotency_rate_limited",
            message: "Too many new idempotency keys; retry later",
        }
    } else if has_prefix(error, "quota:") {
        ApiResponse {
            status: 507,
            code: "idempotency_quota_full",
            message: "The durable idempotency quota is full; retry after cleanup",
        }
    } else {
        ApiResponse {
            status: 500,
            code: "idempotency_unavailable",
            message: "Durable idempotency is unavailable; the command was not admitted",
        }
    }
}

/// The answer to a key already bound to a different request.
pub fn idempotency_conflict() -> (r: ApiResponse)
    ensures
        r.status == 409,
        r.code@ == "idempotency_key_conflict"@,
        r.message@ == "This idempotency key is already bound to a different request"@,
{
    ApiResponse {
        status: 409,
        code: "idempotency_key_conflict",
        message: "This idempotency key is already bound to a different request",
    }
}

/// The answer to a request whose execution is still in flight.
pub fn pending_response(request_id: u128) -> (r: PendingResponse)
    ensures
        r.protocol_version == PROTOCOL_VERSION,
        r.request_id == request_id,
        r.status@ == "pending"@,
{
    PendingResponse { protocol_version: PROTOCOL_VERSION, request_id, status: String::from_str("pending") }
}

/// How a refused pairing redemption is answered: an expired code is gone;
/// every other refusal is unauthorized, without saying which it was.
pub fn redeem_error_response(error: RedeemError) -> (r: ApiResponse)
    ensures
        error is Expired ==> r.status == 410 && r.code@ == "enrollment_expired"@ && r.message@
            == "The enrollment code expired; mint a new code over the admin channel"@,
        !(error is Expired) ==> r.status == 401 && r.code@ == "enrollment_rejected"@ && r.message@
            == "The enrollment code was rejected; mint a new code if necessary"@,
{
    match error {
        RedeemError::Expired => ApiResponse {
            status: 410,
            code: "enrollment_expired",
            message: "The enrollment code expired; mint a new code over the admin channel",
        },
        _ => ApiResponse {
            status: 401,
            code: "enrollment_rejected",
            message: "The enrollment code was rejected; mint a new code if necessary",
        },
    }
}

/// The idempotency binding of an authenticated command, built once its
/// body matches its declared digest, parses, and passes validation.
pub open spec fn binding_for(generation: u64, digest: [u8; 32], request: CommandRequest) -> (
    u128,
    u64,
    u32,
    Seq<char>,
    Seq<char>,
    Seq<u8>,
    Seq<char>,
    Seq<char>,
) {
    (
        request.request_id,
        generation,
        PROTOCOL_VERSION,
        "POST"@,
        "/v2/commands"@,
        digest@,
        command_spec_view(request.command).0,
        command_spec_view(request.command).1,
    )
}

pub open spec fn binding_view(b: IdempotencyBinding) -> (
    u128,
    u64,
    u32,
    Seq<char>,
    Seq<char>,
    Seq<u8>,
    Seq<char>,
    Seq<char>,
) {
    (
        b.key,
        b.credential_generation,
        b.protocol_version,
        b.method@,
        b.normalized_path@,
        b.body_digest@,
        b.command_kind@,
        b.reconciliation@,
    )
}

/// Admits an authenticated command body: the body must match its declared
/// digest, parse as a command, and pass validation; the result is the
/// binding its execution is reserved under.
pub fn prepare_command(
    generation: u64,
    declared_digest: [u8; 32],
    actual_digest: [u8; 32],
    request: Option<&CommandRequest>,
) -> (result: Result<IdempotencyBinding, ApiResponse>)
    ensures
        declared_digest@ != actual_digest@ ==> (result matches Err(r) && r.status == 400 && r.code@
            == "body_digest_mismatch"@ && r.message@
            == "The command body does not match its declared digest"@),
        declared_digest@ == actual_digest@ && request is None ==> (result matches Err(r) && r.status
            == 400 && r.code@ == "invalid_command_body"@ && r.message@
            == "The command body is not a valid protocol v2 command"@),
        declared_digest@ == actual_digest@ ==> match request {
            Some(req) => if command_unbounded(req.command) {
                result matches Err(r) && r.status == 400 && r.code@ == "query_limit_required"@
            } else {
                result matches Ok(b) && binding_view(b) == binding_for(generation, actual_digest, *req)
            },
            None => true,
        },
{
    let mut same = true;
    let mut i: usize = 0;
    while i < 32
        invariant
            i <= 32,
            declared_digest@.len() == 32,
            actual_digest@.len() == 32,
            same == forall|j: int| 0 <= j < i ==> declared_digest@[j] == actual_digest@[j],
        decreases 32 - i,
    {
        if declared_digest[i] != actual_digest[i] {
            same = false;
        }
        i = i + 1;
    }
    if !same {
        return Err(
            ApiResponse {
                status: 400,
                code: "body_digest_mismatch",
                message: "The command body does not match its declared digest",
            },
        );
    }
    proof {
        assert(declared_digest@ =~= actual_digest@);
    }
    let req = match request {
        Some(r) => r,
        None => {
            return Err(
                ApiResponse {
                    status: 400,
                    code: "invalid_command_body",
                    message: "The command body is not a valid protocol v2 command",
                },
            )
        },
    };
    validate_runner_command(&req.command)?;
    let (command_kind, reconciliation) = command_spec(&req.command);
    Ok(
        IdempotencyBinding {
            key: req.request_id,
            credential_generation: generation,
            protocol_version: PROTOCOL_VERSION,
            method: "POST",
            normalized_path: "/v2/commands",
            body_digest: actual_digest,
            command_kind,
            reconciliation,
        },
    )
}

/// How a command's execution is settled: success is done, a transient
/// failure may be retried fresh, and any other failure (or an outcome too
/// large to replay) is final.
pub fn command_completion(execution: &Result<String, String>, fits: bool) -> (state: CompletionState)
    ensures
        state == if !fits {
            CompletionState::FailedDeterministic
        } else {
            match execution {
                Ok(_) => CompletionState::Done,
                Err(e) => if transient_text(e@) {
                    CompletionState::FailedTransient
                } else {
                    CompletionState::FailedDeterministic
                },
            }
        },
{
    let state = match execution {
        Ok(_) => CompletionState::Done,
        Err(e) => if transient_failure(e.as_str()) {
            CompletionState::FailedTransient
        } else {
            CompletionState::FailedDeterministic
        },
    };
    if !fits {
        CompletionState::FailedDeterministic
    } else {
        state
    }
}

/// The response a command's execution is answered and replayed with; an
/// outcome too large to store is replaced by a final failure.
pub fn command_response(request_id: u128, execution: &Result<String, String>, fits: bool) -> (r:
    CommandResponse)
    ensures
        r.protocol_version == PROTOCOL_VERSION,
        r.request_id == request_id,
        !fits ==> !r.ok && r.result is None && (r.error matches Some(e) && e.code@
            == "response_too_large"@ && e.message@
            == "The command outcome exceeded the durable replay limit"@),
        fits ==> match execution {
            Ok(v) => r.ok && (r.result matches Some(x) && x@ == v@),
            Err(m) => !r.ok && r.result is None && (r.error matches Some(e) && e.code@
                == "command_failed"@ && e.message@ == m@),
        },
{
    if !fits {
        return CommandResponse::failure(
            request_id,
            "response_too_large",
            "The command outcome exceeded the durable replay limit",
        );
    }
    match execution {
        Ok(v) => CommandResponse::success(request_id, v.clone()),
        Err(m) => CommandResponse::failure(request_id, "command_failed", m.as_str()),
    }
}

/// The failure a reserved key is settled with when the command was not
/// admitted to a lane; it may be retried fresh.
pub fn refused_admission_response(request_id: u128) -> (r: CommandResponse)
    ensures
        r.request_id == request_id,
        !r.ok,
        r.error matches Some(e) && e.code@ == "runner_saturated"@ && e.message@
            == "The command was not admitted and may be retried fresh"@,
{
    CommandResponse::failure(
        request_id,
        "runner_saturated",
        "The command was not admitted and may be retried fresh",
    )
}

/// How the runner was asked to run.
pub enum Invocation {
    Serve,
    Pair { rotate: bool, print: bool },
}

/// The options of the pair subcommand: `--rotate` and `--print`, each at
/// most once.
pub open spec fn pair_options(args: Seq<String>) -> Option<(bool, bool)>
    decreases args.len(),
{
    if args.len() == 0 {
        Some((false, false))
    } else {
        match pair_options(args.drop_last()) {
            None => None,
            Some((rotate, print)) => if args.last()@ == "--rotate"@ && !rotate {
                Some((true, print))
            } else if args.last()@ == "--print"@ && !print {
                Some((rotate, true))
            } else {
                None
            },
        }
    }
}

/// Reads the options of the pair subcommand.
pub fn pair_arguments(args: &Vec<String>, from: usize) -> (options: Result<(bool, bool), String>)
    requires
        from <= args@.len(),
    ensures
        match pair_options(args@.subrange(from as int, args@.len() as int)) {
            Some(o) => options == Ok::<(bool, bool), String>(o),
            None => options matches Err(e) && e@ == "Usage: queen-runner pair [--rotate] [--print]"@,
        },
{
    let mut rotate = false;
    let mut print = false;
    let mut i = from;
    while i < args.len()
        invariant
            from <= i <= args@.len(),
            pair_options(args@.subrange(from as int, i as int)) == Some((rotate, print)),
        decreases args.len() - i,
    {
        proof {
            assert(args@.subrange(from as int, i + 1).drop_last() =~= args@.subrange(from as int, i as int));
            assert(args@.subrange(from as int, i + 1).last() == args@[i as int]);
        }
        let a = args[i].as_str();
        if str_eq(a, "--rotate") && !rotate {
            rotate = true;
        } else if str_eq(a, "--print") && !print {
            print = true;
        } else {
            proof {
                let whole = args@.subrange(from as int, args@.len() as int);
                assert(whole.subrange(0, i - from + 1) =~= args@.subrange(from as int, i + 1));
                assert(pair_options(args@.subrange(from as int, i + 1)) is None);
                lemma_pair_options_stuck(whole, i - from + 1);
            }
            return Err(String::from_str("Usage: queen-runner pair [--rotate] [--print]"));
        }
        i = i + 1;
    }
    Ok((rotate, print))
}

proof fn lemma_pair_options_stuck(args: Seq<String>, k: int)
    requires
        0 <= k <= args.len(),
        pair_options(args.subrange(0, k)) is None,
    ensures
        pair_options(args) is None,
    decreases args.len() - k,
{
    if k < args.len() {
        assert(args.subrange(0, k + 1).drop_last() =~= args.subrange(0, k));
        lemma_pair_options_stuck(args, k + 1);
    } else {
        assert(args.subrange(0, k) =~= args);
    }
}

/// Reads the runner's command line (without the program name): no
/// arguments serve, `pair` with its options pairs, anything else is a
/// usage error.
pub fn runner_invocation(args: &Vec<String>) -> (invocation: Result<Invocation, String>)
    ensures
        args@.len() == 0 ==> invocation matches Ok(Invocation::Serve),
        args@.len() > 0 && args@[0]@ == "pair"@ ==> match pair_options(
            args@.subrange(1, args@.len() as int),
        ) {
            Some((rotate, print)) => invocation matches Ok(Invocation::Pair { rotate: r, print: p })
                && r == rotate && p == print,
            None => invocation matches Err(e) && e@ == "Usage: queen-runner pair [--rotate] [--print]"@,
        },
        args@.len() > 0 && args@[0]@ != "pair"@ ==> (invocation matches Err(e) && e@
            == "Usage: queen-runner [pair [--rotate] [--print]]"@),
{
    if args.len() == 0 {
        return Ok(Invocation::Serve);
    }
    if str_eq(args[0].as_str(), "pair") {
        let (rotate, print) = pair_arguments(args, 1)?;
        return Ok(Invocation::Pair { rotate, print });
    }
    Err(String::from_str("Usage: queen-runner [pair [--rotate] [--print]]"))
}

/// The decimal value of a text of ASCII digits, with an optional leading
/// `+` as Rust's integer parser accepts.
pub open spec fn digits_value(s: Seq<char>) -> nat
    decreases s.len(),
{
    if s.len() == 0 {
        0
    } else {
        digits_value(s.drop_last()) * 10 + (s.last() as u32 - '0' as u32) as nat
    }
}

pub open spec fn all_digits(s: Seq<char>) -> bool {
    s.len() > 0 && forall|i: int| 0 <= i < s.len() ==> '0' <= #[trigger] s[i] && s[i] <= '9'
}

pub open spec fn u64_text_value(s: Seq<char>) -> Option<u64> {
    let body = if s.len() > 0 && s[0] == '+' {
        s.drop_first()
    } else {
        s
    };
    if all_digits(body) && digits_value(body) <= u64::MAX {
        Some(digits_value(body) as u64)
    } else {
        None
    }
}

proof fn lemma_digits_value_mono(s: Seq<char>, k: int)
    requires
        0 <= k <= s.len(),
        forall|i: int| 0 <= i < s.len() ==> '0' <= #[trigger] s[i] && s[i] <= '9',
    ensures
        digits_value(s.subrange(0, k)) <= digits_value(s),
    decreases s.len() - k,
{
    if k < s.len() {
        lemma_digits_value_mono(s, k + 1);
        assert(s.subrange(0, k + 1).drop_last() =~= s.subrange(0, k));
    } else {
        assert(s.subrange(0, k) =~= s);
    }
}

/// Parses an unsigned 64-bit decimal.
pub fn parse_u64(text: &str) -> (value: Option<u64>)
    ensures
        value == u64_text_value(text@),
{
    let chars = chars_of(text);
    let start: usize = if chars.len() > 0 && chars[0] == '+' {
        1
    } else {
        0
    };
    let ghost body = chars@.subrange(start as int, chars@.len() as int);
    proof {
        if chars@.len() > 0 && chars@[0] == '+' {
            assert(body =~= chars@.drop_first());
        } else {
            assert(body =~= chars@);
        }
    }
    if start == chars.len() {
        return None;
    }
    let mut i = start;
    while i < chars.len()
        invariant
            start <= i <= chars@.len(),
            chars@ == text@,
            body == chars@.subrange(start as int, chars@.len() as int),
            body == (if text@.len() > 0 && text@[0] == '+' {
                text@.drop_first()
            } else {
                text@
            }),
            forall|j: int| start <= j < i ==> '0' <= #[trigger] chars@[j] && chars@[j] <= '9',
        decreases chars.len() - i,
    {
        let c = chars[i];
        if !('0' <= c && c <= '9') {
            proof {
                assert(body[i - start] == c);
                assert(!all_digits(body));
            }
            return None;
        }
        i = i + 1;
    }
    proof {
        assert forall|j: int| 0 <= j < body.len() implies '0' <= #[trigger] body[j] && body[j] <= '9' by {
            assert(body[j] == chars@[start + j]);
        }
    }
    let mut acc: u64 = 0;
    let mut k = start;
    while k < chars.len()
        invariant
            start <= k <= chars@.len(),
            chars@ == text@,
            body == chars@.subrange(start as int, chars@.len() as int),
            body == (if text@.len() > 0 && text@[0] == '+' {
                text@.drop_first()
            } else {
                text@
            }),
            body.len() > 0,
            forall|j: int| 0 <= j < body.len() ==> '0' <= #[trigger] body[j] && body[j] <= '9',
            acc == digits_value(body.subrange(0, k - start)),
        decreases chars.len() - k,
    {
        proof {
            assert(body[k - start] == chars@[k as int]);
        }
        let d = (chars[k] as u32 - '0' as u32) as u64;
        proof {
            assert(body.subrange(0, k - start + 1).drop_last() =~= body.subrange(0, k - start));
            assert(body.subrange(0, k - start + 1).last() == chars@[k as int]);
        }
        if acc > (u64::MAX - d) / 10 {
            proof {
                lemma_digits_value_mono(body, k - start + 1);
                assert(digits_value(body.subrange(0, k - start + 1)) == acc * 10 + d);
                assert(acc * 10 + d > u64::MAX) by (nonlinear_arith)
                    requires
                        acc > (u64::MAX - d) / 10,
                        d <= 9,
                ;
            }
            return None;
        }
        proof {
            assert(acc * 10 + d <= u64::MAX) by (nonlinear_arith)
                requires
                    acc <= (u64::MAX - d) / 10,
                    d <= 9,
            ;
        }
        acc = acc * 10 + d;
        k = k + 1;
    }
    proof {
        assert(body.subrange(0, body.len() as int) =~= body);
    }
    Some(acc)
}

/// The stop deadline a service-unit line sets, if it is a
/// `TimeoutStopSec=` line with a numeric value.
pub fn timeout_stop_line(line: &str) -> (seconds: Option<u64>)
    ensures
        starts_with(line@, "TimeoutStopSec="@) ==> seconds == u64_text_value(
            line@.subrange("TimeoutStopSec="@.len() as int, line@.len() as int),
        ),
        !starts_with(line@, "TimeoutStopSec="@) ==> seconds is None,
{
    match strip_prefix(line, "TimeoutStopSec=") {
        Some(rest) => parse_u64(rest.as_str()),
        None => None,
    }
}

/// Whether the runner's shutdown budget ends before the service manager's
/// stop deadline, so the runner returns before it can be killed.
pub fn shutdown_budget_fits(stop_deadline_seconds: u64) -> (fits: bool)
    ensures
        fits == (RUNNER_SHUTDOWN_BUDGET_SECONDS < stop_deadline_seconds),
{
    RUNNER_SHUTDOWN_BUDGET_SECONDS < stop_deadline_seconds
}

/// When to poll a pending reservation again: every 50 ms, never past the
/// deadline; `None` once the deadline has passed.
pub fn next_reservation_poll(now_ms: u64, deadline_ms: u64) -> (poll_at: Option<u64>)
    ensures
        now_ms >= deadline_ms ==> poll_at is None,
        now_ms < deadline_ms ==> poll_at == Some(if deadline_ms - now_ms < 50 {
            deadline_ms
        } else {
            (now_ms + 50) as u64
        }),
{
    if now_ms >= deadline_ms {
        None
    } else if deadline_ms - now_ms < 50 {
        Some(deadline_ms)
    } else {
        Some(now_ms + 50)
    }
}

/// A failure is transient, and its key released for a retry, whenever its
/// text names a network, timeout, deadline, temporary, rate-limit or lock
/// condition, in any ASCII case.
pub proof fn law_timeouts_and_deadlines_are_transient(e: Seq<char>)
    ensures
        contains_seq(lower_seq(e), "deadline"@) ==> transient_text(e),
        contains_seq(lower_seq(e), "timed out"@) ==> transient_text(e),
        contains_seq(lower_seq(e), "timeout"@) ==> transient_text(e),
        contains_seq(lower_seq(e), "could not reach lichess"@) ==> transient_text(e),
        contains_seq(lower_seq(e), "temporar"@) ==> transient_text(e),
        contains_seq(lower_seq(e), "rate limit"@) ==> transient_text(e),
        contains_seq(lower_seq(e), "database is locked"@) ==> transient_text(e),
        contains_seq(lower_seq(e), "connection reset"@) ==> transient_text(e),
{
}

/// Searching across sessions is bounded by its session filter as listing
/// sessions is, and by its search as searching one session is: it is
/// refused exactly when either of those is.
pub proof fn law_session_search_is_bounded_like_its_parts(
    filter: LogFilter,
    query: LogQuery,
    session_id: String,
)
    ensures
        command_unbounded(RunnerCommand::SearchLogSessions { filter, query }) == (command_unbounded(
            RunnerCommand::ListLogSessions { filter },
        ) || command_unbounded(RunnerCommand::SearchLogSession { session_id, query })),
        filter.limit is None ==> command_unbounded(RunnerCommand::SearchLogSessions { filter, query }),
{
}

} // verus!
