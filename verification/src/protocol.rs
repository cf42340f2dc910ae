//! Wire-level types and constants of the runner protocol.
use vstd::prelude::*;

verus! {

/// The protocol generation both sides must speak. Campaign scheduling and
/// incoming-challenge acceptance add command semantics that an older runner
/// would silently ignore, so a matching runner is required.
pub const PROTOCOL_VERSION: u32 = 3;

pub const CONTENT_SHA256_HEADER: &'static str = "x-queenui-content-sha256";

pub const REQUEST_ID_HEADER: &'static str = "x-queenui-request-id";

pub const IDEMPOTENCY_TTL_SECONDS: i64 = 86400;

pub const IDEMPOTENCY_PENDING_WAIT_SECONDS: u64 = 30;

pub const PAIRING_PAYLOAD_VERSION: u32 = 2;

pub const ENGINE_BROWSE_DEFAULT_PAGE_ENTRIES: u16 = 100;

pub const ENGINE_BROWSE_MAX_PAGE_ENTRIES: u16 = 200;

/// An administrator-configured engine root as the protocol exposes it: a
/// stable identifier and a label. The absolute host path never crosses the
/// runner protocol.
pub struct EngineRoot {
    pub id: String,
    pub label: String,
}

/// A request to list one directory below a configured root.
pub struct EngineBrowseRequest {
    pub root_id: String,
    /// Slash-separated path relative to the configured root. Empty means the
    /// root itself.
    pub relative_path: String,
    pub cursor: Option<String>,
    pub page_entries: Option<u16>,
}

#[derive(PartialEq, Eq, Structural, Clone, Copy, Debug)]
pub enum EngineBrowseEntryKind {
    Directory,
    File,
}

pub struct EngineBrowseEntry {
    pub name: String,
    pub relative_path: String,
    pub kind: EngineBrowseEntryKind,
    pub size: u64,
    pub modified_at_ms: Option<u64>,
    pub executable: bool,
}

pub struct EngineBrowseResponse {
    pub root_id: String,
    pub relative_path: String,
    pub entries: Vec<EngineBrowseEntry>,
    pub next_cursor: Option<String>,
}

/// The paired runner as the desktop remembers it.
pub struct RunnerIdentity {
    pub version: u32,
    pub url: String,
    /// Lowercase SHA-256 hex of the runner certificate's DER bytes.
    pub cert_fp: String,
    /// Long-lived bearer issued by the runner.
    pub bearer: String,
    /// Authenticated credential generation. Rotation increments this value.
    pub generation: u64,
}

pub struct PairRedeemRequest {
    pub enroll: String,
}

pub struct PairRedeemResponse {
    pub protocol_version: u32,
    /// The runner's identity, as the 128-bit value of its UUID.
    pub runner_id: u128,
    pub bearer: String,
    pub generation: u64,
}

pub struct PendingResponse {
    pub protocol_version: u32,
    pub request_id: u128,
    pub status: String,
}

/// Instantaneous authoritative ownership held by a live runner core.
#[derive(PartialEq, Eq, Structural, Clone, Copy, Debug)]
pub struct HandoverInventory {
    pub live_games: usize,
    pub outgoing_challenges: usize,
}

pub struct ApiError {
    pub code: String,
    pub message: String,
}

/// The session filter of a log listing; the runner reads its row limit and
/// its search text.
pub struct LogFilter {
    pub limit: Option<u32>,
    pub query: Option<String>,
}

/// A search inside engine logs.
pub struct LogQuery {
    pub text: String,
    pub limit: u32,
}

/// A command the desktop sends to the runner. Payloads the runner only
/// forwards to the automation core are carried as their JSON text.
pub enum RunnerCommand {
    RegisterEngine { root_id: String, relative_path: String },
    RemoveEngine { engine_id: String },
    UpdateEngineOptions { engine_id: String, options: String },
    RefreshEngineOptions { engine_id: String },
    ConfigureOpeningBook { request: String },
    ClearEngineOpeningBook { engine_id: String },
    AddLichessAccount { request: String },
    UpdateLichessAccountToken { account_id: String, token: String },
    UpdateAccountEngine { account_id: String, engine_id: String },
    RemoveLichessAccount { account_id: String },
    StartBot { account_id: String },
    StopBot { account_id: String },
    StartCampaign { settings: String },
    StopCampaign { account_id: String },
    CreateChallenge { request: String },
    DismissGameError { game_id: String },
    HandoverInventory,
    GetScorebookStats { filter: String },
    ImportLichessHistory { account_id: String, max: Option<u32> },
    ListLogSessions { filter: LogFilter },
    GetLogPage { session_id: String, offset: u64, limit: u64 },
    GetLogOutline { session_id: String },
    SearchLogSession { session_id: String, query: LogQuery },
    SearchLogSessions { filter: LogFilter, query: LogQuery },
    DeleteLogSession { session_id: String },
    ClearLogSessions,
    GetLogsOverview,
    SetLogRetention { retention: String },
    GetDiagnostics { filter: String },
    ClearDiagnostics,
}

/// A command with the idempotency key it is sent under (the 128-bit value
/// of its UUID).
pub struct CommandRequest {
    pub request_id: u128,
    pub command: RunnerCommand,
}

/// The outcome of a command as the runner answers and replays it.
pub struct CommandResponse {
    pub protocol_version: u32,
    pub request_id: u128,
    pub ok: bool,
    /// The command's result, as JSON text.
    pub result: Option<String>,
    pub error: Option<ApiError>,
}

impl CommandResponse {
    pub fn success(request_id: u128, result: String) -> (r: Self)
        ensures
            r.protocol_version == PROTOCOL_VERSION,
            r.request_id == request_id,
            r.ok,
            r.result matches Some(v) && v@ == result@,
            r.error is None,
    {
        CommandResponse { protocol_version: PROTOCOL_VERSION, request_id, ok: true, result: Some(result), error: None }
    }

    pub fn failure(request_id: u128, code: &str, message: &str) -> (r: Self)
        ensures
            r.protocol_version == PROTOCOL_VERSION,
            r.request_id == request_id,
            !r.ok,
            r.result is None,
            r.error matches Some(e) && e.code@ == code@ && e.message@ == message@,
    {
        CommandResponse {
            protocol_version: PROTOCOL_VERSION,
            request_id,
            ok: false,
            result: None,
            error: Some(ApiError { code: String::from_str(code), message: String::from_str(message) }),
        }
    }
}

/// The SHA-256 digest a command body is declared under.
pub fn command_body_digest(body: &[u8]) -> (digest: [u8; 32])
    ensures
        digest@ == crate::outside::sha256(body@),
{
    crate::outside::sha256_digest(body)
}

} // verus!
