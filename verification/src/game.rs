//! The decisions taken while one game is played: what a stream event means
//! for the bot, when to search, when the game is over and what its result is,
//! how clocks are charged after an engine restart, and when the narrow
//! auto-resign policy applies.
use vstd::prelude::*;
use crate::ledger::{sat_sub_i64, saturating_sub_i64};
use crate::order::{lex_le, str_le};
use crate::telemetry::TelemetryCapture;
use crate::text::{
    decimal, eq_ignore_ascii_case, eq_ignore_case, i64_text, push_str, signed_decimal, str_eq,
    u64_text,
};

verus! {

/// The view of an optional string slice.
pub open spec fn opt_str(o: Option<&str>) -> Option<Seq<char>> {
    match o {
        Some(s) => Some(s@),
        None => None,
    }
}

/// The view of an optional owned string.
pub open spec fn opt_string(o: Option<String>) -> Option<Seq<char>> {
    match o {
        Some(s) => Some(s@),
        None => None,
    }
}

/// A status Lichess still considers in progress.
pub open spec fn live_status(status: Seq<char>) -> bool {
    status == "started"@ || status == "created"@
}

/// Whether a game with this status is still being played.
pub fn is_live(status: &str) -> (live: bool)
    ensures
        live == live_status(status@),
{
    str_eq(status, "started") || str_eq(status, "created")
}

/// The PGN result label of a game: none while it runs, the winner's side
/// when Lichess names one, `*` for a game that never really started, and a
/// draw otherwise.
pub open spec fn result_label(status: Seq<char>, winner: Option<Seq<char>>) -> Option<Seq<char>> {
    if live_status(status) {
        None
    } else if winner == Some("white"@) {
        Some("1-0"@)
    } else if winner == Some("black"@) {
        Some("0-1"@)
    } else if status == "aborted"@ || status == "noStart"@ {
        Some("*"@)
    } else {
        Some("1/2-1/2"@)
    }
}

/// Maps a terminal Lichess game state to its PGN result.
pub fn game_result(status: &str, winner: Option<&str>) -> (result: Option<String>)
    ensures
        opt_string(result) == result_label(status@, opt_str(winner)),
{
    if is_live(status) {
        return None;
    }
    if let Some(w) = winner {
        if str_eq(w, "white") {
            return Some(String::from_str("1-0"));
        }
        if str_eq(w, "black") {
            return Some(String::from_str("0-1"));
        }
    }
    if str_eq(status, "aborted") || str_eq(status, "noStart") {
        Some(String::from_str("*"))
    } else {
        Some(String::from_str("1/2-1/2"))
    }
}

/// What the game handler knows about the game it plays.
pub struct GameContext {
    pub initial_fen: String,
    pub color: String,
    pub opponent: String,
    pub bot_rating: Option<i64>,
    pub opponent_rating: Option<i64>,
    pub rated: bool,
    /// Seconds, from the gameFull clock.
    pub clock_limit: Option<i64>,
    pub clock_increment: Option<i64>,
    /// Lichess speed key, used when no clock is available.
    pub speed: Option<String>,
    pub last_searched_moves: Option<String>,
    pub automation_halted: bool,
    pub telemetry: TelemetryCapture,
}

/// "180+2" when Lichess sent a clock, otherwise its speed key, otherwise
/// "unknown".
pub open spec fn clock_label(limit: Option<i64>, increment: Option<i64>, speed: Option<Seq<char>>) -> Seq<
    char,
> {
    match (limit, increment) {
        (Some(l), Some(i)) => signed_decimal(l as int) + "+"@ + signed_decimal(i as int),
        _ => match speed {
            Some(s) => s,
            None => "unknown"@,
        },
    }
}

/// The clock label of a game context.
pub fn context_clock_label(context: &GameContext) -> (label: String)
    ensures
        label@ == clock_label(context.clock_limit, context.clock_increment, opt_string(context.speed)),
{
    match (context.clock_limit, context.clock_increment) {
        (Some(limit), Some(increment)) => {
            let mut label = i64_text(limit);
            push_str(&mut label, "+");
            let tail = i64_text(increment);
            push_str(&mut label, tail.as_str());
            label
        },
        _ => match &context.speed {
            Some(speed) => speed.clone(),
            None => String::from_str("unknown"),
        },
    }
}

/// Integer division by a thousand rounding toward zero, as Rust divides.
pub open spec fn div_1000_toward_zero(ms: int) -> int {
    if ms >= 0 {
        ms / 1000
    } else {
        -((-ms) / 1000)
    }
}

/// A gameFull clock field, sent in milliseconds, in whole seconds.
pub fn clock_seconds(milliseconds: Option<i64>) -> (seconds: Option<i64>)
    ensures
        match milliseconds {
            Some(ms) => seconds == Some(div_1000_toward_zero(ms as int) as i64),
            None => seconds is None,
        },
{
    match milliseconds {
        Some(ms) => {
            if ms >= 0 {
                Some(ms / 1000)
            } else {
                let below: i64 = -(ms + 1);
                let magnitude: u64 = below as u64 + 1;
                let whole: u64 = magnitude / 1000;
                proof {
                    assert(magnitude == -(ms as int));
                    assert(whole <= 9223372036854775808u64 / 1000);
                }
                Some(-(whole as i64))
            }
        },
        None => None,
    }
}

/// The engine line shown while the bot plays from its opening book.
pub fn book_line(book_name: &str, book_move: &str, top_move_percent: u32) -> (line: String)
    ensures
        line@ == "book "@ + book_name@ + " · "@ + book_move@ + " · top "@ + decimal(
            top_move_percent as nat,
        ) + "% candidate pool"@,
{
    let mut line = String::from_str("book ");
    push_str(&mut line, book_name);
    push_str(&mut line, " · ");
    push_str(&mut line, book_move);
    push_str(&mut line, " · top ");
    let pct = u64_text(top_move_percent as u64);
    push_str(&mut line, pct.as_str());
    push_str(&mut line, "% candidate pool");
    line
}

/// After the engine failed a search and could not be recovered, the game
/// task stops automating the game and marks its telemetry as ending in a
/// failure resignation; nothing else changes.
pub fn on_search_failed(context: &mut GameContext)
    ensures
        final(context).automation_halted,
        final(context).telemetry == (TelemetryCapture { failure_resign: true, ..old(context).telemetry }),
        final(context).initial_fen == old(context).initial_fen,
        final(context).color == old(context).color,
        final(context).opponent == old(context).opponent,
        final(context).bot_rating == old(context).bot_rating,
        final(context).opponent_rating == old(context).opponent_rating,
        final(context).rated == old(context).rated,
        final(context).clock_limit == old(context).clock_limit,
        final(context).clock_increment == old(context).clock_increment,
        final(context).speed == old(context).speed,
        final(context).last_searched_moves == old(context).last_searched_moves,
{
    context.telemetry.failure_resign = true;
    context.automation_halted = true;
}

/// The game error shown while a stalled engine search is restarted.
pub fn search_stall_message(first_error: &str) -> (message: String)
    ensures
        message@ == "Engine search stalled; restarting it safely: "@ + first_error@,
{
    let mut message = String::from_str("Engine search stalled; restarting it safely: ");
    push_str(&mut message, first_error);
    message
}

/// Why an automatic resignation is being considered.
#[derive(Clone, Copy, PartialEq, Eq, Structural, Debug)]
pub enum AutoResignReason {
    EngineUnavailable,
}

/// The one automated resignation policy: a twice-failed engine search after
/// the current authoritative position has been replayed legally. An HTTP
/// status or body never triggers it.
pub fn should_auto_resign(reason: AutoResignReason, position_reconciled: bool) -> (resign: bool)
    ensures
        resign == (position_reconciled && reason == AutoResignReason::EngineUnavailable),
{
    position_reconciled && reason == AutoResignReason::EngineUnavailable
}

/// The side the bot plays.
#[derive(Clone, Copy, PartialEq, Eq, Structural, Debug)]
pub enum BotColor {
    White,
    Black,
}

/// Whether a player id names the bot's account, by id or by username,
/// ignoring ASCII case.
pub open spec fn names_bot(player: Seq<char>, account_id: Seq<char>, username: Seq<char>) -> bool {
    eq_ignore_case(player, account_id) || eq_ignore_case(player, username)
}

/// Decides the bot's color from the player ids of a gameFull event.
pub fn bot_color(white_id: &str, black_id: &str, account_id: &str, username: &str) -> (color: Result<
    BotColor,
    String,
>)
    ensures
        names_bot(white_id@, account_id@, username@) ==> color == Ok::<BotColor, String>(
            BotColor::White,
        ),
        !names_bot(white_id@, account_id@, username@) && names_bot(
            black_id@,
            account_id@,
            username@,
        ) ==> color == Ok::<BotColor, String>(BotColor::Black),
        !names_bot(white_id@, account_id@, username@) && !names_bot(
            black_id@,
            account_id@,
            username@,
        ) ==> (color matches Err(e) && e@ == "Could not determine the bot's color in the game"@),
{
    if eq_ignore_ascii_case(white_id, account_id) || eq_ignore_ascii_case(white_id, username) {
        Ok(BotColor::White)
    } else if eq_ignore_ascii_case(black_id, account_id) || eq_ignore_ascii_case(black_id, username) {
        Ok(BotColor::Black)
    } else {
        Err(String::from_str("Could not determine the bot's color in the game"))
    }
}

/// The bot searches when it is its turn, automation has not been halted,
/// and this exact move list has not been searched already.
pub open spec fn search_due(
    color: Seq<char>,
    halted: bool,
    last_searched: Option<Seq<char>>,
    white_to_move: bool,
    moves: Seq<char>,
) -> bool {
    &&& (color == "white"@) == white_to_move
    &&& !halted
    &&& last_searched != Some(moves)
}

/// Whether a freshly parsed position calls for a search by the bot.
pub fn should_search(context: &GameContext, white_to_move: bool, moves: &str) -> (due: bool)
    ensures
        due == search_due(
            context.color@,
            context.automation_halted,
            opt_string(context.last_searched_moves),
            white_to_move,
            moves@,
        ),
{
    let our_turn = str_eq(context.color.as_str(), "white") == white_to_move;
    if !our_turn || context.automation_halted {
        return false;
    }
    match &context.last_searched_moves {
        Some(last) => !str_eq(last.as_str(), moves),
        None => true,
    }
}

/// The clocks handed to a restarted engine: the time the failed search
/// already spent is charged to the bot's own clock, saturating.
pub fn retry_clocks(context: &GameContext, white_time: i64, black_time: i64, elapsed_ms: i64) -> (clocks: (
    i64,
    i64,
))
    ensures
        clocks.0 == if context.color@ == "white"@ {
            sat_sub_i64(white_time, elapsed_ms)
        } else {
            white_time
        },
        clocks.1 == if context.color@ == "black"@ {
            sat_sub_i64(black_time, elapsed_ms)
        } else {
            black_time
        },
{
    let white = if str_eq(context.color.as_str(), "white") {
        saturating_sub_i64(white_time, elapsed_ms)
    } else {
        white_time
    };
    let black = if str_eq(context.color.as_str(), "black") {
        saturating_sub_i64(black_time, elapsed_ms)
    } else {
        black_time
    };
    (white, black)
}

/// The bot's remaining clock when the game ended.
pub fn end_clock_ms(context: &GameContext, white_time: i64, black_time: i64) -> (clock: i64)
    ensures
        clock == if context.color@ == "white"@ {
            white_time
        } else {
            black_time
        },
{
    if str_eq(context.color.as_str(), "white") {
        white_time
    } else {
        black_time
    }
}

/// Whether a list of game ids holds the given id.
pub open spec fn lists_game(ids: Seq<String>, game_id: Seq<char>) -> bool {
    exists|i: int| 0 <= i < ids.len() && #[trigger] ids[i]@ == game_id
}

fn contains_game(ids: &Vec<String>, game_id: &str) -> (found: bool)
    ensures
        found == lists_game(ids@, game_id@),
{
    let mut i: usize = 0;
    while i < ids.len()
        invariant
            i <= ids@.len(),
            forall|j: int| 0 <= j < i ==> ids@[j]@ != game_id@,
        decreases ids.len() - i,
    {
        if str_eq(ids[i].as_str(), game_id) {
            return true;
        }
        i = i + 1;
    }
    false
}

/// Whether to resign after engine recovery failed, from the authoritative
/// list of ongoing games (or the error reading it): resign only when that
/// list still holds this game and the policy allows it; otherwise the reason
/// it was not done.
pub fn auto_resign_plan(reconciliation: &Result<Vec<String>, String>, game_id: &str) -> (plan: Result<
    (),
    String,
>)
    ensures
        match reconciliation {
            Ok(ids) => if lists_game(ids@, game_id@) {
                plan is Ok
            } else {
                plan matches Err(e) && e@
                    == "Authoritative account state no longer lists this game as ongoing"@
            },
            Err(error) => plan matches Err(e) && e@
                == "Could not reconcile authoritative ongoing games before auto-resign: "@ + error@,
        },
{
    match reconciliation {
        Ok(ids) => {
            if contains_game(ids, game_id) && should_auto_resign(
                AutoResignReason::EngineUnavailable,
                true,
            ) {
                Ok(())
            } else {
                Err(String::from_str("Authoritative account state no longer lists this game as ongoing"))
            }
        },
        Err(error) => {
            let mut message = String::from_str(
                "Could not reconcile authoritative ongoing games before auto-resign: ",
            );
            push_str(&mut message, error.as_str());
            Err(message)
        },
    }
}

/// The message shown on the game after engine recovery failed, for the
/// outcome of the resignation attempt.
pub fn resignation_message(error: &str, resignation: &Result<(), String>) -> (message: String)
    ensures
        match resignation {
            Ok(()) => message@
                == "Engine recovery failed, so QueenUI resigned cleanly instead of disconnecting: "@
                + error@,
            Err(r) => message@
                == "Engine recovery failed. QueenUI kept the game stream connected, but could not submit a resignation: "@
                + error@ + "; "@ + r@,
        },
{
    match resignation {
        Ok(()) => {
            let mut message = String::from_str(
                "Engine recovery failed, so QueenUI resigned cleanly instead of disconnecting: ",
            );
            push_str(&mut message, error);
            message
        },
        Err(r) => {
            let mut message = String::from_str(
                "Engine recovery failed. QueenUI kept the game stream connected, but could not submit a resignation: ",
            );
            push_str(&mut message, error);
            push_str(&mut message, "; ");
            push_str(&mut message, r.as_str());
            message
        },
    }
}

/// The error of a search that failed twice: once before the restart, then
/// either in the restarted engine or in the restart itself.
pub fn search_retry_failure(first_error: &str, second_error: &str, restarted: bool) -> (message: String)
    ensures
        message@ == "Initial search failed ("@ + first_error@ + (if restarted {
            "); the restarted engine also failed ("@
        } else {
            "); the engine could not be restarted ("@
        }) + second_error@ + ")"@,
{
    let mut message = String::from_str("Initial search failed (");
    push_str(&mut message, first_error);
    if restarted {
        push_str(&mut message, "); the restarted engine also failed (");
    } else {
        push_str(&mut message, "); the engine could not be restarted (");
    }
    push_str(&mut message, second_error);
    push_str(&mut message, ")");
    message
}

/// The status a game log closes with: a game that was still running when
/// the bot stopped watching it is recorded as stopped.
pub fn session_end_status(status: &str) -> (end: String)
    ensures
        end@ == if live_status(status@) {
            "stopped"@
        } else {
            status@
        },
{
    if is_live(status) {
        String::from_str("stopped")
    } else {
        String::from_str(status)
    }
}

/// The outcome of a game session from the stream loop's outcome and the
/// submission coordinator's shutdown: both errors are joined.
pub fn combine_session_outcome(outcome: Result<(), String>, shutdown: Result<(), String>) -> (r: Result<
    (),
    String,
>)
    ensures
        match (outcome, shutdown) {
            (Err(e), Err(s)) => r matches Err(m) && m@ == e@ + "; "@ + s@,
            (Err(e), Ok(())) => r matches Err(m) && m@ == e@,
            (Ok(()), Err(s)) => r matches Err(m) && m@ == s@,
            (Ok(()), Ok(())) => r is Ok,
        },
{
    match (outcome, shutdown) {
        (Err(error), Err(shut)) => {
            let mut message = error;
            push_str(&mut message, "; ");
            push_str(&mut message, shut.as_str());
            Err(message)
        },
        (Err(error), Ok(())) => Err(error),
        (Ok(()), Err(shut)) => Err(shut),
        (Ok(()), Ok(())) => Ok(()),
    }
}

pub const RECONNECT_INITIAL_MS: u64 = 250;

pub const RECONNECT_MAX_MS: u64 = 5000;

/// Consecutive failures of a game stream are retried for this long.
pub const MAX_RECONNECT_WINDOW_MS: u64 = 600_000;

/// The reconnect state of one game stream.
pub struct StreamReconnect {
    pub delay_ms: u64,
    pub failing_since_ms: Option<u64>,
}

/// What to do after a game stream failed.
pub enum ReconnectStep {
    /// Sleep this long, then reconnect.
    Retry { delay_ms: u64 },
    /// Stop the game task with this error.
    GiveUp(String),
}

impl StreamReconnect {
    pub open spec fn wf(self) -> bool {
        RECONNECT_INITIAL_MS <= self.delay_ms <= RECONNECT_MAX_MS
    }

    pub fn new() -> (r: Self)
        ensures
            r.wf(),
            r.delay_ms == RECONNECT_INITIAL_MS,
            r.failing_since_ms is None,
    {
        StreamReconnect { delay_ms: RECONNECT_INITIAL_MS, failing_since_ms: None }
    }

    /// A chunk arrived: the stream is healthy again.
    pub fn on_data(&mut self)
        ensures
            final(self).wf(),
            final(self).delay_ms == RECONNECT_INITIAL_MS,
            final(self).failing_since_ms is None,
    {
        self.delay_ms = RECONNECT_INITIAL_MS;
        self.failing_since_ms = None;
    }

    /// The stream failed at `now_ms` (monotonic milliseconds) with `error`.
    /// A permanent rejection ends the game task; otherwise the failure window
    /// starts (if it has not) and, once it has lasted the maximum window, the
    /// task gives up; else the stream is retried after the current delay,
    /// which then doubles up to its cap.
    pub fn on_failure(&mut self, now_ms: u64, permanent: bool, error: &str, game_id: &str) -> (step:
        ReconnectStep)
        requires
            old(self).wf(),
        ensures
            final(self).wf(),
            permanent ==> (step matches ReconnectStep::GiveUp(m) && m@
                == "Lichess rejected the game stream permanently: "@ + error@),
            !permanent ==> final(self).failing_since_ms == Some(
                match old(self).failing_since_ms {
                    Some(s) => s,
                    None => now_ms,
                },
            ),
            !permanent ==> ({
                let since = match old(self).failing_since_ms {
                    Some(s) => s,
                    None => now_ms,
                };
                let elapsed = if now_ms >= since { now_ms - since } else { 0 };
                if elapsed >= MAX_RECONNECT_WINDOW_MS {
                    step matches ReconnectStep::GiveUp(m) && m@ == "Gave up reconnecting to game "@
                        + game_id@
                        + " after 10 minutes of failures without auto-resigning an unreconciled game: "@
                        + error@
                } else {
                    &&& step == (ReconnectStep::Retry { delay_ms: old(self).delay_ms })
                    &&& final(self).delay_ms == if old(self).delay_ms * 2 > RECONNECT_MAX_MS {
                        RECONNECT_MAX_MS as int
                    } else {
                        old(self).delay_ms * 2
                    }
                }
            }),
    {
        if permanent {
            let mut message = String::from_str("Lichess rejected the game stream permanently: ");
            push_str(&mut message, error);
            return ReconnectStep::GiveUp(message);
        }
        let since = match self.failing_since_ms {
            Some(s) => s,
            None => now_ms,
        };
        self.failing_since_ms = Some(since);
        let elapsed = if now_ms >= since {
            now_ms - since
        } else {
            0
        };
        if elapsed >= MAX_RECONNECT_WINDOW_MS {
            let mut message = String::from_str("Gave up reconnecting to game ");
            push_str(&mut message, game_id);
            push_str(
                &mut message,
                " after 10 minutes of failures without auto-resigning an unreconciled game: ",
            );
            push_str(&mut message, error);
            return ReconnectStep::GiveUp(message);
        }
        let delay = self.delay_ms;
        self.delay_ms = if delay * 2 > RECONNECT_MAX_MS {
            RECONNECT_MAX_MS
        } else {
            delay * 2
        };
        ReconnectStep::Retry { delay_ms: delay }
    }
}

/// The retry delay of an account's event stream, in seconds.
pub struct SupervisorBackoff {
    pub retry_delay_s: u64,
}

pub const SUPERVISOR_MAX_DELAY_S: u64 = 20;

pub const RATE_LIMITED_DELAY_S: u64 = 60;

/// A stream that stayed up longer than this resets the backoff.
pub const HEALTHY_STREAM_MS: u64 = 30_000;

impl SupervisorBackoff {
    pub open spec fn wf(self) -> bool {
        1 <= self.retry_delay_s <= SUPERVISOR_MAX_DELAY_S
    }

    pub fn new() -> (b: Self)
        ensures
            b.wf(),
            b.retry_delay_s == 1,
    {
        SupervisorBackoff { retry_delay_s: 1 }
    }

    /// The stream that just ended had been connected for `connected_ms`:
    /// only a stream that stayed healthy resets the backoff.
    pub fn after_stream(&mut self, connected_ms: u64)
        requires
            old(self).wf(),
        ensures
            final(self).wf(),
            final(self).retry_delay_s == if connected_ms > HEALTHY_STREAM_MS {
                1
            } else {
                old(self).retry_delay_s
            },
    {
        if connected_ms > HEALTHY_STREAM_MS {
            self.retry_delay_s = 1;
        }
    }

    /// How long to sleep before reconnecting; a rate-limited account waits
    /// at least a minute.
    pub fn sleep_seconds(&self, rate_limited: bool) -> (s: u64)
        requires
            self.wf(),
        ensures
            s == if rate_limited && self.retry_delay_s < RATE_LIMITED_DELAY_S {
                RATE_LIMITED_DELAY_S
            } else {
                self.retry_delay_s
            },
            1 <= s <= RATE_LIMITED_DELAY_S,
    {
        if rate_limited && self.retry_delay_s < RATE_LIMITED_DELAY_S {
            RATE_LIMITED_DELAY_S
        } else {
            self.retry_delay_s
        }
    }

    /// Doubles the delay, up to its cap.
    pub fn advance(&mut self)
        requires
            old(self).wf(),
        ensures
            final(self).wf(),
            final(self).retry_delay_s == if old(self).retry_delay_s * 2 > SUPERVISOR_MAX_DELAY_S {
                SUPERVISOR_MAX_DELAY_S as int
            } else {
                old(self).retry_delay_s * 2
            },
    {
        let doubled = self.retry_delay_s * 2;
        self.retry_delay_s = if doubled > SUPERVISOR_MAX_DELAY_S {
            SUPERVISOR_MAX_DELAY_S
        } else {
            doubled
        };
    }
}

pub const SUBMISSION_INITIAL_DELAY_MS: u64 = 250;

pub const SUBMISSION_MAX_BACKOFF_MS: u64 = 5000;

pub const SUBMISSION_MAX_DELAY_MS: u64 = 30_000;

pub const SUBMISSION_MAX_JITTER_MS: u64 = 500;

/// 2 to the power of a small exponent.
pub open spec fn pow2_upto5(k: u32) -> u64 {
    if k == 0 {
        1
    } else if k == 1 {
        2
    } else if k == 2 {
        4
    } else if k == 3 {
        8
    } else if k == 4 {
        16
    } else {
        32
    }
}

/// The exponential backoff of a move submission: 250 ms doubled for each
/// attempt after the first (at most five doublings), capped at 5 s.
pub open spec fn submission_backoff_ms(attempt: u32) -> u64 {
    let exponent: u32 = if attempt == 0 {
        0
    } else if attempt - 1 > 5 {
        5
    } else {
        (attempt - 1) as u32
    };
    let raw = SUBMISSION_INITIAL_DELAY_MS * pow2_upto5(exponent);
    if raw > SUBMISSION_MAX_BACKOFF_MS {
        SUBMISSION_MAX_BACKOFF_MS
    } else {
        raw as u64
    }
}

/// The base delay before retrying a submission: the server's Retry-After
/// when it sent one, else the backoff, never more than 30 s.
pub open spec fn submission_base_delay_ms(retry_after_ms: Option<u64>, attempt: u32) -> u64 {
    let wanted = match retry_after_ms {
        Some(r) => r,
        None => submission_backoff_ms(attempt),
    };
    if wanted > SUBMISSION_MAX_DELAY_MS {
        SUBMISSION_MAX_DELAY_MS
    } else {
        wanted
    }
}

/// The largest jitter added to a base delay: a fifth of it, between 1 ms
/// and 500 ms.
pub open spec fn max_jitter_ms(base: u64) -> u64 {
    let fifth = base / 5;
    if fifth < 1 {
        1
    } else if fifth > SUBMISSION_MAX_JITTER_MS {
        SUBMISSION_MAX_JITTER_MS
    } else {
        fifth
    }
}

/// The base retry delay of a submission attempt.
pub fn submission_base_delay(retry_after_ms: Option<u64>, attempt: u32) -> (delay: u64)
    ensures
        delay == submission_base_delay_ms(retry_after_ms, attempt),
        delay <= SUBMISSION_MAX_DELAY_MS,
{
    let exponent: u32 = if attempt == 0 {
        0
    } else if attempt - 1 > 5 {
        5
    } else {
        attempt - 1
    };
    let factor: u64 = if exponent == 0 {
        1
    } else if exponent == 1 {
        2
    } else if exponent == 2 {
        4
    } else if exponent == 3 {
        8
    } else if exponent == 4 {
        16
    } else {
        32
    };
    let raw = SUBMISSION_INITIAL_DELAY_MS * factor;
    let backoff = if raw > SUBMISSION_MAX_BACKOFF_MS {
        SUBMISSION_MAX_BACKOFF_MS
    } else {
        raw
    };
    let wanted = match retry_after_ms {
        Some(r) => r,
        None => backoff,
    };
    if wanted > SUBMISSION_MAX_DELAY_MS {
        SUBMISSION_MAX_DELAY_MS
    } else {
        wanted
    }
}

/// The retry delay with a given jitter: the base delay, plus the jitter
/// when asked for and the base is not zero.
pub fn jittered_retry_delay(retry_after_ms: Option<u64>, attempt: u32, with_jitter: bool, jitter_ms: u64) -> (delay:
    u64)
    requires
        jitter_ms <= max_jitter_ms(submission_base_delay_ms(retry_after_ms, attempt)),
    ensures
        ({
            let base = submission_base_delay_ms(retry_after_ms, attempt);
            delay == if !with_jitter || base == 0 {
                base as int
            } else {
                base + jitter_ms
            }
        }),
{
    let base = submission_base_delay(retry_after_ms, attempt);
    if !with_jitter || base == 0 {
        base
    } else {
        base + jitter_ms
    }
}

/// The largest jitter of a base delay.
fn max_jitter(base: u64) -> (maximum: u64)
    ensures
        maximum == max_jitter_ms(base),
{
    let fifth = base / 5;
    if fifth < 1 {
        1
    } else if fifth > SUBMISSION_MAX_JITTER_MS {
        SUBMISSION_MAX_JITTER_MS
    } else {
        fifth
    }
}

/// The delay before retrying a move submission: the base delay, plus (when
/// asked and the base is not zero) a random jitter of at most a fifth of it,
/// between 1 ms and 500 ms.
pub fn submission_retry_delay(retry_after_ms: Option<u64>, attempt: u32, with_jitter: bool) -> (delay:
    u64)
    ensures
        ({
            let base = submission_base_delay_ms(retry_after_ms, attempt);
            if !with_jitter || base == 0 {
                delay == base
            } else {
                base <= delay <= base + max_jitter_ms(base)
            }
        }),
{
    let base = submission_base_delay(retry_after_ms, attempt);
    let jitter = if !with_jitter || base == 0 {
        0
    } else {
        crate::outside::random_up_to(max_jitter(base))
    };
    jittered_retry_delay(retry_after_ms, attempt, with_jitter, jitter)
}

/// A failed move submission as the retry policy sees it.
pub struct SubmissionFailure {
    /// The HTTP status, when a response arrived.
    pub status: Option<u16>,
    pub auth_failure: bool,
    pub not_found: bool,
    pub rate_limited: bool,
    pub retry_after_ms: Option<u64>,
    pub message: String,
}

/// What follows a failed submission attempt.
pub enum SubmissionStep {
    /// The authoritative stream moved on; the move is settled by it.
    Reconciled,
    /// Lichess refused the move for good.
    Rejected(String),
    /// The attempts or the time budget ran out.
    Exhausted(String),
    /// Wait this long (unless the stream moves on first), then retry.
    Retry { delay_ms: u64 },
}

/// A failure that no retry can fix: authentication, a missing game, or any
/// other client error except rate limiting.
pub open spec fn submission_rejected(f: SubmissionFailure) -> bool {
    f.auth_failure || f.not_found || (f.status matches Some(s) && 400 <= s <= 499 && !f.rate_limited)
}

/// A delay cut to the time left.
pub open spec fn capped_delay(delay: u64, remaining: int) -> int {
    if delay < remaining {
        delay as int
    } else {
        remaining
    }
}

/// What follows a failed submission attempt (`attempt` counts from one),
/// given the jitter drawn for its retry: the stream having moved on settles
/// it, a permanent refusal ends it, an exhausted policy ends it, and
/// otherwise the retry waits the jittered retry delay, cut to the budget
/// left.
pub open spec fn decided(
    failure: SubmissionFailure,
    position_changed: bool,
    attempt: u32,
    elapsed_ms: u64,
    budget_ms: u64,
    max_attempts: u32,
    jitter_ms: u64,
    step: SubmissionStep,
) -> bool {
    if position_changed {
        step is Reconciled
    } else if submission_rejected(failure) {
        step matches SubmissionStep::Rejected(m) && m@ == failure.message@
    } else if attempt >= max_attempts || elapsed_ms >= budget_ms {
        step matches SubmissionStep::Exhausted(m) && m@ == failure.message@
    } else {
        let base = submission_base_delay_ms(failure.retry_after_ms, attempt);
        let jittered = if base == 0 {
            0
        } else {
            base + jitter_ms
        };
        step matches SubmissionStep::Retry { delay_ms } && delay_ms == capped_delay(
            jittered as u64,
            budget_ms - elapsed_ms,
        )
    }
}

/// Decides what follows a failed submission attempt, given the jitter drawn
/// for its retry, as `decided` states.
pub fn decide_failed_submission(
    failure: &SubmissionFailure,
    position_changed: bool,
    attempt: u32,
    elapsed_ms: u64,
    budget_ms: u64,
    max_attempts: u32,
    jitter_ms: u64,
) -> (step: SubmissionStep)
    requires
        jitter_ms <= max_jitter_ms(submission_base_delay_ms(failure.retry_after_ms, attempt)),
    ensures
        decided(*failure, position_changed, attempt, elapsed_ms, budget_ms, max_attempts, jitter_ms, step),
{
    if position_changed {
        return SubmissionStep::Reconciled;
    }
    let client_error = match failure.status {
        Some(s) => 400 <= s && s <= 499 && !failure.rate_limited,
        None => false,
    };
    if failure.auth_failure || failure.not_found || client_error {
        return SubmissionStep::Rejected(failure.message.clone());
    }
    if attempt >= max_attempts || elapsed_ms >= budget_ms {
        return SubmissionStep::Exhausted(failure.message.clone());
    }
    let remaining = budget_ms - elapsed_ms;
    let jittered = jittered_retry_delay(failure.retry_after_ms, attempt, true, jitter_ms);
    let delay_ms = if jittered < remaining {
        jittered
    } else {
        remaining
    };
    SubmissionStep::Retry { delay_ms }
}

/// Decides what follows a failed submission attempt, drawing the retry's
/// jitter at random; see `decide_failed_submission`.
pub fn after_failed_submission(
    failure: &SubmissionFailure,
    position_changed: bool,
    attempt: u32,
    elapsed_ms: u64,
    budget_ms: u64,
    max_attempts: u32,
) -> (step: SubmissionStep)
    ensures
        exists|jitter_ms: u64|
            jitter_ms <= max_jitter_ms(submission_base_delay_ms(failure.retry_after_ms, attempt))
                && #[trigger] decided(
                *failure,
                position_changed,
                attempt,
                elapsed_ms,
                budget_ms,
                max_attempts,
                jitter_ms,
                step,
            ),
{
    let base = submission_base_delay(failure.retry_after_ms, attempt);
    let jitter = crate::outside::random_up_to(max_jitter(base));
    let step = decide_failed_submission(
        failure,
        position_changed,
        attempt,
        elapsed_ms,
        budget_ms,
        max_attempts,
        jitter,
    );
    assert(decided(*failure, position_changed, attempt, elapsed_ms, budget_ms, max_attempts, jitter, step));
    step
}

/// The runtime error of an account whose event stream broke off.
pub fn stream_interrupted_message(error: &str) -> (message: String)
    ensures
        message@ == "Lichess event stream interrupted: "@ + error@,
{
    let mut message = String::from_str("Lichess event stream interrupted: ");
    push_str(&mut message, error);
    message
}

/// The warning a game stream's unreadable lines are reported with, if any
/// were skipped.
pub open spec fn skipped_lines_report(count: u64) -> Option<Seq<char>> {
    if count == 0 {
        None
    } else {
        Some(
            "Skipped "@ + decimal(count as nat) + " unreadable line"@ + (if count == 1 {
                Seq::empty()
            } else {
                "s"@
            }) + " on a game stream"@,
        )
    }
}

pub fn skipped_lines_message(count: u64) -> (message: Option<String>)
    ensures
        opt_string(message) == skipped_lines_report(count),
{
    if count == 0 {
        return None;
    }
    let mut m = String::from_str("Skipped ");
    let n = u64_text(count);
    push_str(&mut m, n.as_str());
    push_str(&mut m, " unreadable line");
    if count != 1 {
        push_str(&mut m, "s");
    }
    push_str(&mut m, " on a game stream");
    Some(m)
}

/// The retry delay rendered for the game banner, in seconds with two
/// decimals. The delay is a whole number of hundredths of a second below a
/// day (the reconnect delays are multiples of 250 ms), so the two decimals
/// are exact and no rounding takes place.
pub fn reconnect_banner(error: &str, delay_ms: u64) -> (text: String)
    requires
        delay_ms < 86_400_000,
        delay_ms % 10 == 0,
    ensures
        text@ == error@ + ". Reconnecting without leaving the game in "@ + decimal(
            (delay_ms / 1000) as nat,
        ) + "."@ + (if (delay_ms % 1000) / 10 < 10 {
            "0"@
        } else {
            Seq::empty()
        }) + decimal(((delay_ms % 1000) / 10) as nat) + "s…"@,
{
    let mut text = String::from_str(error);
    push_str(&mut text, ". Reconnecting without leaving the game in ");
    let whole = u64_text(delay_ms / 1000);
    push_str(&mut text, whole.as_str());
    push_str(&mut text, ".");
    let hundredths = (delay_ms % 1000) / 10;
    if hundredths < 10 {
        push_str(&mut text, "0");
    }
    let frac = u64_text(hundredths);
    push_str(&mut text, frac.as_str());
    push_str(&mut text, "s…");
    text
}

/// Finished games kept in memory at most.
pub const MAX_FINISHED_GAMES: usize = 50;

/// Failed games kept for the operator at most.
pub const MAX_RETAINED_ERROR_GAMES: usize = 32;

/// A game as the pruning of retained games sees it.
pub struct RetainedGame {
    pub account_id: String,
    pub game_id: String,
    pub status: String,
    pub clock_updated_at: u64,
}

pub open spec fn lex_lt(a: Seq<char>, b: Seq<char>) -> bool {
    lex_le(a, b) && a != b
}

/// `b` is newer than `a`: later clock update, ties broken by account and
/// game id.
pub open spec fn newer(a: RetainedGame, b: RetainedGame) -> bool {
    ||| a.clock_updated_at < b.clock_updated_at
    ||| a.clock_updated_at == b.clock_updated_at && lex_lt(a.account_id@, b.account_id@)
    ||| a.clock_updated_at == b.clock_updated_at && a.account_id@ == b.account_id@ && lex_lt(
        a.game_id@,
        b.game_id@,
    )
}

pub open spec fn is_error_game(g: RetainedGame) -> bool {
    g.status@ == "error"@
}

pub open spec fn is_finished_game(g: RetainedGame) -> bool {
    !live_status(g.status@) && g.status@ != "error"@
}

/// How many games of the same retention class are newer than `g`.
pub open spec fn newer_in_class(games: Seq<RetainedGame>, g: RetainedGame, error_class: bool) -> nat
    decreases games.len(),
{
    if games.len() == 0 {
        0
    } else {
        let h = games.last();
        let same = if error_class {
            is_error_game(h)
        } else {
            is_finished_game(h)
        };
        newer_in_class(games.drop_last(), g, error_class) + (if same && newer(g, h) {
            1nat
        } else {
            0nat
        })
    }
}

/// A game survives pruning unless it is among the oldest failed games
/// beyond the first 32 or the oldest finished games beyond the first 50.
pub open spec fn survives(games: Seq<RetainedGame>, g: RetainedGame) -> bool {
    &&& is_error_game(g) ==> newer_in_class(games, g, true) < MAX_RETAINED_ERROR_GAMES
    &&& is_finished_game(g) ==> newer_in_class(games, g, false) < MAX_FINISHED_GAMES
}

pub open spec fn game_view(g: RetainedGame) -> (Seq<char>, Seq<char>, Seq<char>, u64) {
    (g.account_id@, g.game_id@, g.status@, g.clock_updated_at)
}

/// The games of `all` among `games` that survive, in order.
pub open spec fn surviving(all: Seq<RetainedGame>, games: Seq<RetainedGame>) -> Seq<(Seq<char>, Seq<char>, Seq<char>, u64)>
    decreases games.len(),
{
    if games.len() == 0 {
        Seq::empty()
    } else {
        let prev = surviving(all, games.drop_last());
        if survives(all, games.last()) {
            prev.push(game_view(games.last()))
        } else {
            prev
        }
    }
}

fn str_lt(a: &str, b: &str) -> (lt: bool)
    ensures
        lt == lex_lt(a@, b@),
{
    str_le(a, b) && !str_eq(a, b)
}

fn is_newer(a: &RetainedGame, b: &RetainedGame) -> (r: bool)
    ensures
        r == newer(*a, *b),
{
    if a.clock_updated_at < b.clock_updated_at {
        return true;
    }
    if a.clock_updated_at > b.clock_updated_at {
        return false;
    }
    if str_lt(a.account_id.as_str(), b.account_id.as_str()) {
        return true;
    }
    str_eq(a.account_id.as_str(), b.account_id.as_str()) && str_lt(a.game_id.as_str(), b.game_id.as_str())
}

fn is_error(g: &RetainedGame) -> (r: bool)
    ensures
        r == is_error_game(*g),
{
    str_eq(g.status.as_str(), "error")
}

fn is_finished(g: &RetainedGame) -> (r: bool)
    ensures
        r == is_finished_game(*g),
{
    !is_live(g.status.as_str()) && !str_eq(g.status.as_str(), "error")
}

fn count_newer(games: &Vec<RetainedGame>, g: &RetainedGame, error_class: bool) -> (n: usize)
    ensures
        n == newer_in_class(games@, *g, error_class),
{
    let mut n: usize = 0;
    let mut i: usize = 0;
    while i < games.len()
        invariant
            i <= games@.len(),
            n == newer_in_class(games@.subrange(0, i as int), *g, error_class),
            n <= i,
        decreases games.len() - i,
    {
        proof {
            assert(games@.subrange(0, i + 1).drop_last() =~= games@.subrange(0, i as int));
            assert(games@.subrange(0, i + 1).last() == games@[i as int]);
        }
        let h = &games[i];
        let same = if error_class {
            is_error(h)
        } else {
            is_finished(h)
        };
        if same && is_newer(g, h) {
            n = n + 1;
        }
        i = i + 1;
    }
    proof {
        assert(games@.subrange(0, games@.len() as int) =~= games@);
    }
    n
}

/// Prunes retained games: beyond 32 failed games the oldest are dropped,
/// and beyond 50 finished games the oldest are dropped; running games are
/// never dropped.
pub fn prune_finished_games(games: Vec<RetainedGame>) -> (kept: Vec<RetainedGame>)
    ensures
        kept@.map_values(|g: RetainedGame| game_view(g)) == surviving(games@, games@),
{
    let mut kept: Vec<RetainedGame> = Vec::new();
    let mut i: usize = 0;
    while i < games.len()
        invariant
            i <= games@.len(),
            kept@.map_values(|g: RetainedGame| game_view(g)) == surviving(
                games@,
                games@.subrange(0, i as int),
            ),
        decreases games.len() - i,
    {
        proof {
            assert(games@.subrange(0, i + 1).drop_last() =~= games@.subrange(0, i as int));
            assert(games@.subrange(0, i + 1).last() == games@[i as int]);
        }
        let g = &games[i];
        let mut keep = true;
        if is_error(g) && count_newer(&games, g, true) >= MAX_RETAINED_ERROR_GAMES {
            keep = false;
        }
        if is_finished(g) && count_newer(&games, g, false) >= MAX_FINISHED_GAMES {
            keep = false;
        }
        if keep {
            let ghost before = kept@.map_values(|x: RetainedGame| game_view(x));
            kept.push(
                RetainedGame {
                    account_id: g.account_id.clone(),
                    game_id: g.game_id.clone(),
                    status: g.status.clone(),
                    clock_updated_at: g.clock_updated_at,
                },
            );
            proof {
                assert(kept@.map_values(|x: RetainedGame| game_view(x)) =~= before.push(game_view(*g)));
            }
        }
        i = i + 1;
    }
    proof {
        assert(games@.subrange(0, games@.len() as int) =~= games@);
    }
    kept
}

/// How many games of a retention class a list holds.
pub open spec fn class_count(games: Seq<RetainedGame>, error_class: bool) -> nat
    decreases games.len(),
{
    if games.len() == 0 {
        0
    } else {
        let h = games.last();
        let same = if error_class {
            is_error_game(h)
        } else {
            is_finished_game(h)
        };
        class_count(games.drop_last(), error_class) + (if same {
            1nat
        } else {
            0nat
        })
    }
}

/// A game of a class has fewer newer games of its class than the class has
/// members in any list that holds it.
proof fn lemma_newer_below_class_count(games: Seq<RetainedGame>, g: RetainedGame, error_class: bool)
    requires
        if error_class {
            is_error_game(g)
        } else {
            is_finished_game(g)
        },
    ensures
        newer_in_class(games, g, error_class) + (if games.contains(g) {
            1int
        } else {
            0int
        }) <= class_count(games, error_class),
    decreases games.len(),
{
    if games.len() > 0 {
        let prev = games.drop_last();
        let h = games.last();
        lemma_newer_below_class_count(prev, g, error_class);
        assert(!newer(g, g));
        if prev.contains(g) {
            let k = choose|k: int| 0 <= k < prev.len() && prev[k] == g;
            assert(games[k] == g);
        }
        if games.contains(g) && !prev.contains(g) {
            let k = choose|k: int| 0 <= k < games.len() && games[k] == g;
            if k < prev.len() {
                assert(prev[k] == g);
            }
            assert(h == g);
        }
    }
}

proof fn lemma_all_survive_prefix(all: Seq<RetainedGame>, k: int)
    requires
        0 <= k <= all.len(),
        forall|i: int| 0 <= i < all.len() ==> survives(all, #[trigger] all[i]),
    ensures
        surviving(all, all.subrange(0, k)) == all.subrange(0, k).map_values(
            |g: RetainedGame| game_view(g),
        ),
    decreases k,
{
    if k > 0 {
        lemma_all_survive_prefix(all, k - 1);
        assert(all.subrange(0, k).drop_last() =~= all.subrange(0, k - 1));
        assert(all.subrange(0, k).last() == all[k - 1]);
        assert(all.subrange(0, k).map_values(|g: RetainedGame| game_view(g)) =~= all.subrange(
            0,
            k - 1,
        ).map_values(|g: RetainedGame| game_view(g)).push(game_view(all[k - 1])));
    } else {
        assert(all.subrange(0, 0).map_values(|g: RetainedGame| game_view(g)) =~= Seq::empty());
    }
}

/// With at most 32 failed and at most 50 finished games, pruning keeps every
/// game, in order.
pub proof fn law_prune_below_limits_keeps_everything(games: Seq<RetainedGame>)
    requires
        class_count(games, true) <= MAX_RETAINED_ERROR_GAMES,
        class_count(games, false) <= MAX_FINISHED_GAMES,
    ensures
        surviving(games, games) == games.map_values(|g: RetainedGame| game_view(g)),
{
    assert forall|i: int| 0 <= i < games.len() implies survives(games, #[trigger] games[i]) by {
        assert(games.contains(games[i]));
        if is_error_game(games[i]) {
            lemma_newer_below_class_count(games, games[i], true);
        }
        if is_finished_game(games[i]) {
            lemma_newer_below_class_count(games, games[i], false);
        }
    }
    lemma_all_survive_prefix(games, games.len() as int);
    assert(games.subrange(0, games.len() as int) =~= games);
}

proof fn lemma_surviving_keeps(all: Seq<RetainedGame>, k: int, i: int)
    requires
        0 <= i < k <= all.len(),
        survives(all, all[i]),
    ensures
        surviving(all, all.subrange(0, k)).contains(game_view(all[i])),
    decreases k,
{
    let prefix = all.subrange(0, k);
    assert(prefix.drop_last() =~= all.subrange(0, k - 1));
    assert(prefix.last() == all[k - 1]);
    if i == k - 1 {
        let out = surviving(all, prefix);
        assert(out == surviving(all, all.subrange(0, k - 1)).push(game_view(all[i])));
        assert(out[out.len() - 1] == game_view(all[i]));
    } else {
        lemma_surviving_keeps(all, k - 1, i);
        let before = surviving(all, all.subrange(0, k - 1));
        let j = choose|j: int| 0 <= j < before.len() && before[j] == game_view(all[i]);
        let out = surviving(all, prefix);
        if survives(all, all[k - 1]) {
            assert(out == before.push(game_view(all[k - 1])));
            assert(out[j] == before[j]);
        }
    }
}

/// Pruning never drops a game that is still being played.
pub proof fn law_prune_keeps_live_games(games: Seq<RetainedGame>, i: int)
    requires
        0 <= i < games.len(),
        live_status(games[i].status@),
    ensures
        surviving(games, games).contains(game_view(games[i])),
{
    reveal_strlit("started");
    reveal_strlit("created");
    reveal_strlit("error");
    assert("started"@[0] != "error"@[0]);
    assert("created"@[0] != "error"@[0]);
    assert(!is_error_game(games[i]) && !is_finished_game(games[i]));
    lemma_surviving_keeps(games, games.len() as int, i);
    assert(games.subrange(0, games.len() as int) =~= games);
}

/// `i` is the first retained error of this game.
pub open spec fn first_error_at(games: Seq<RetainedGame>, game_id: Seq<char>, i: int) -> bool {
    &&& 0 <= i < games.len()
    &&& games[i].game_id@ == game_id
    &&& is_error_game(games[i])
    &&& forall|j: int|
        0 <= j < i ==> !(#[trigger] games[j].game_id@ == game_id && is_error_game(games[j]))
}

/// Some retained error is of this game.
pub open spec fn error_retained(games: Seq<RetainedGame>, game_id: Seq<char>) -> bool {
    exists|i: int| 0 <= i < games.len() && #[trigger] games[i].game_id@ == game_id && is_error_game(games[i])
}

/// Dismisses the operator's retained error of a game.
pub fn dismiss_game_error(games: &mut Vec<RetainedGame>, game_id: &str) -> (result: Result<(), String>)
    ensures
        match result {
            Ok(()) => exists|i: int|
                first_error_at(old(games)@, game_id@, i) && final(games)@ == old(games)@.remove(i),
            Err(e) => {
                &&& !error_retained(old(games)@, game_id@)
                &&& final(games)@ == old(games)@
                &&& e@ == "No retained game error was found for "@ + game_id@ + "."@
            },
        },
{
    let mut i: usize = 0;
    while i < games.len()
        invariant
            games@ == old(games)@,
            i <= games@.len(),
            forall|j: int|
                0 <= j < i ==> !(#[trigger] games@[j].game_id@ == game_id@ && is_error_game(games@[j])),
        decreases games.len() - i,
    {
        if str_eq(games[i].game_id.as_str(), game_id) && str_eq(games[i].status.as_str(), "error") {
            games.remove(i);
            return Ok(());
        }
        i = i + 1;
    }
    let mut message = String::from_str("No retained game error was found for ");
    push_str(&mut message, game_id);
    push_str(&mut message, ".");
    Err(message)
}

/// The text of a task's panic payload: the payload's own text when it
/// carried one, "unknown panic payload" otherwise.
pub fn panic_detail(payload_text: Option<String>) -> (detail: String)
    ensures
        detail@ == match payload_text {
            Some(t) => t@,
            None => "unknown panic payload"@,
        },
{
    match payload_text {
        Some(t) => t,
        None => String::from_str("unknown panic payload"),
    }
}

/// Whether two engine paths name the same executable: their canonical
/// forms when both resolve, the paths themselves otherwise.
pub fn same_engine_executable(existing: &str, candidate: &str, canonical: Option<(String, String)>) -> (same:
    bool)
    ensures
        same == match canonical {
            Some((a, b)) => a@ == b@,
            None => existing@ == candidate@,
        },
{
    match canonical {
        Some((a, b)) => str_eq(a.as_str(), b.as_str()),
        None => str_eq(existing, candidate),
    }
}

/// A finished game that no side won is a draw, unless it was aborted or
/// never started: whatever its terminal status ("outoftime", "timeout",
/// "stalemate", ...), a status other than "aborted" and "noStart" with no
/// winner gives "1/2-1/2", and "*" is given for those two statuses alone.
pub proof fn law_winnerless_end_is_a_draw(status: Seq<char>, winner: Option<Seq<char>>)
    ensures
        status != "started"@ && status != "created"@ && status != "aborted"@ && status != "noStart"@
            && winner is None ==> result_label(status, winner) == Some("1/2-1/2"@),
        result_label(status, winner) == Some("*"@) ==> status == "aborted"@ || status == "noStart"@,
        status != "started"@ && status != "created"@ ==> result_label(status, winner) is Some,
        status == "started"@ || status == "created"@ ==> result_label(status, winner) is None,
{
    reveal_strlit("*");
    reveal_strlit("1/2-1/2");
    reveal_strlit("1-0");
    reveal_strlit("0-1");
    assert("*"@.len() != "1/2-1/2"@.len());
    assert("*"@.len() != "1-0"@.len());
    assert("*"@.len() != "0-1"@.len());
}

} // verus!
