//! One step of a game task: a Lichess game-stream event, with the position
//! it describes already parsed, updates what the task knows about the game,
//! gives the live board its new record, and decides whether the game is
//! over, whether the bot plays from its book or searches, or whether it
//! waits.
use vstd::prelude::*;
use crate::game::{
    clock_seconds, div_1000_toward_zero, game_result, is_live, live_status, names_bot, opt_string,
    result_label, search_due, should_search, GameContext,
};
use crate::text::{eq_ignore_ascii_case, str_eq};

verus! {

/// The fields of a game-stream event that the game task reads; missing ones
/// are `None` (or empty, for the player ids).
pub struct GameEventFields {
    /// `gameFull`, `gameState`, or anything else.
    pub kind: String,
    pub initial_fen: Option<String>,
    pub rated: Option<bool>,
    pub speed: Option<String>,
    /// The clock's initial time and increment, in milliseconds.
    pub clock_initial_ms: Option<i64>,
    pub clock_increment_ms: Option<i64>,
    pub white_id: String,
    pub black_id: String,
    /// Each player's name, or failing that their id.
    pub white_name: Option<String>,
    pub black_name: Option<String>,
    pub white_rating: Option<i64>,
    pub black_rating: Option<i64>,
    pub status: Option<String>,
    pub winner: Option<String>,
    pub white_time: Option<i64>,
    pub black_time: Option<i64>,
    pub white_increment: Option<i64>,
    pub black_increment: Option<i64>,
}

/// The event's moves replayed from the game's initial position.
pub struct ParsedPosition {
    pub initial_fen: String,
    pub moves: String,
    pub white_to_move: bool,
}

/// What the live board shows of the game after the event.
pub struct LiveGameRecord {
    pub status: String,
    pub result: Option<String>,
    pub initial_fen: String,
    pub moves: String,
    pub color: String,
    pub opponent: String,
    pub bot_rating: Option<i64>,
    pub opponent_rating: Option<i64>,
    pub white_time: i64,
    pub black_time: i64,
    pub white_increment: i64,
    pub black_increment: i64,
    pub clock_updated_at: u64,
    pub engine_thinking: bool,
}

/// What the game task does next.
pub enum GameAction {
    /// The game is over: its intent is dropped and it is recorded, with the
    /// bot's clock at the end.
    Complete { end_clock_ms: i64 },
    /// Play this move from the opening book.
    Book { book_move: String },
    /// Ask the engine for a move.
    Search,
    /// It is not the bot's turn, or this position was handled already.
    Wait,
}

pub enum GameEventStep {
    /// Not an event about the game's state.
    Ignore,
    Update { game: LiveGameRecord, action: GameAction },
}

pub open spec fn color_message() -> Seq<char> {
    "Could not determine the bot's color in the game"@
}

pub open spec fn is_full(e: GameEventFields) -> bool {
    e.kind@ == "gameFull"@
}

pub open spec fn is_state(e: GameEventFields) -> bool {
    e.kind@ == "gameState"@
}

/// A `gameFull` event names the bot as one of its players.
pub open spec fn bot_named(e: GameEventFields, account_id: Seq<char>, username: Seq<char>) -> bool {
    names_bot(e.white_id@, account_id, username) || names_bot(e.black_id@, account_id, username)
}

pub open spec fn clock_of(ms: Option<i64>) -> Option<i64> {
    match ms {
        Some(m) => Some(div_1000_toward_zero(m as int) as i64),
        None => None,
    }
}

pub open spec fn name_or_default(name: Option<String>) -> Seq<char> {
    match name {
        Some(n) => n@,
        None => "Lichess opponent"@,
    }
}

pub open spec fn status_of(e: GameEventFields) -> Seq<char> {
    match e.status {
        Some(s) => s@,
        None => "started"@,
    }
}

pub open spec fn or_zero(v: Option<i64>) -> i64 {
    match v {
        Some(x) => x,
        None => 0,
    }
}

/// The game's header as a `gameFull` event sets it.
pub open spec fn header_applied(after: GameContext, e: GameEventFields) -> bool {
    &&& after.rated == match e.rated {
        Some(r) => r,
        None => false,
    }
    &&& opt_string(after.speed) == opt_string(e.speed)
    &&& after.clock_limit == clock_of(e.clock_initial_ms)
    &&& after.clock_increment == clock_of(e.clock_increment_ms)
}

pub open spec fn header_kept(after: GameContext, before: GameContext) -> bool {
    &&& after.rated == before.rated
    &&& opt_string(after.speed) == opt_string(before.speed)
    &&& after.clock_limit == before.clock_limit
    &&& after.clock_increment == before.clock_increment
}

/// The bot's side and its opponent as a `gameFull` event names them.
pub open spec fn players_applied(after: GameContext, e: GameEventFields, white: bool) -> bool {
    &&& after.color@ == if white {
        "white"@
    } else {
        "black"@
    }
    &&& after.opponent@ == if white {
        name_or_default(e.black_name)
    } else {
        name_or_default(e.white_name)
    }
    &&& after.bot_rating == if white {
        e.white_rating
    } else {
        e.black_rating
    }
    &&& after.opponent_rating == if white {
        e.black_rating
    } else {
        e.white_rating
    }
}

pub open spec fn players_kept(after: GameContext, before: GameContext) -> bool {
    &&& after.color@ == before.color@
    &&& after.opponent@ == before.opponent@
    &&& after.bot_rating == before.bot_rating
    &&& after.opponent_rating == before.opponent_rating
}

pub open spec fn search_state_kept(after: GameContext, before: GameContext) -> bool {
    &&& opt_string(after.last_searched_moves) == opt_string(before.last_searched_moves)
    &&& after.automation_halted == before.automation_halted
}

/// The context once an event has been read, before its position is
/// replayed: a `gameFull` sets the header and, when it names the bot, the
/// players; a `gameState` changes nothing.
pub open spec fn event_read(
    after: GameContext,
    before: GameContext,
    e: GameEventFields,
    account_id: Seq<char>,
    username: Seq<char>,
) -> bool {
    if is_full(e) {
        &&& header_applied(after, e)
        &&& if bot_named(e, account_id, username) {
            players_applied(after, e, names_bot(e.white_id@, account_id, username))
        } else {
            players_kept(after, before)
        }
    } else {
        &&& header_kept(after, before)
        &&& players_kept(after, before)
    }
}

/// The live board's record of the game after the event.
pub open spec fn record_fits(
    game: LiveGameRecord,
    after: GameContext,
    e: GameEventFields,
    position: ParsedPosition,
    account_rating: Option<i64>,
    existing_thinking: bool,
    now_ms: u64,
) -> bool {
    &&& game.status@ == status_of(e)
    &&& opt_string(game.result) == result_label(status_of(e), opt_string(e.winner))
    &&& game.initial_fen@ == position.initial_fen@
    &&& game.moves@ == position.moves@
    &&& game.color@ == after.color@
    &&& game.opponent@ == after.opponent@
    &&& game.bot_rating == match after.bot_rating {
        Some(r) => Some(r),
        None => account_rating,
    }
    &&& game.opponent_rating == after.opponent_rating
    &&& game.white_time == or_zero(e.white_time)
    &&& game.black_time == or_zero(e.black_time)
    &&& game.white_increment == or_zero(e.white_increment)
    &&& game.black_increment == or_zero(e.black_increment)
    &&& game.clock_updated_at == now_ms
    &&& game.engine_thinking == (live_status(status_of(e)) && existing_thinking)
}

/// What the game task does after a state event. `after` is the context
/// after the step and `before` the one before it; reading an event never
/// changes whether automation is halted, which position was searched last,
/// or the telemetry, so those are read from `before`.
pub open spec fn action_fits(
    action: GameAction,
    after: GameContext,
    before: GameContext,
    e: GameEventFields,
    position: ParsedPosition,
    book_move: Option<String>,
) -> bool {
    if !live_status(status_of(e)) {
        let end = if after.color@ == "white"@ {
            or_zero(e.white_time)
        } else {
            or_zero(e.black_time)
        };
        &&& action == GameAction::Complete { end_clock_ms: end }
        &&& search_state_kept(after, before)
        &&& after.telemetry == crate::telemetry::TelemetryCapture {
            end_clock_ms: Some(end),
            ..before.telemetry
        }
    } else if search_due(
        after.color@,
        before.automation_halted,
        opt_string(before.last_searched_moves),
        position.white_to_move,
        position.moves@,
    ) {
        &&& opt_string(after.last_searched_moves) == Some(position.moves@)
        &&& after.automation_halted == before.automation_halted
        &&& after.telemetry == before.telemetry
        &&& match action {
            GameAction::Book { book_move: b } => book_move matches Some(m) && b@ == m@,
            GameAction::Search => book_move is None,
            _ => false,
        }
    } else {
        &&& action is Wait
        &&& search_state_kept(after, before)
        &&& after.telemetry == before.telemetry
    }
}

fn clone_opt(o: &Option<String>) -> (c: Option<String>)
    ensures
        opt_string(c) == opt_string(*o),
{
    match o {
        Some(s) => Some(s.clone()),
        None => None,
    }
}

/// Reads a game-stream event. `position` is the event's moves replayed
/// from the game's initial position (the event's own for a `gameFull`, the
/// one known so far for a `gameState`), or why they could not be;
/// `book_move` is what the opening book offers in that position, if
/// anything; `existing_thinking` says whether the board showed the engine
/// thinking; `now_ms` is when the event was read.
pub fn game_event_step(
    context: &mut GameContext,
    account_id: &str,
    username: &str,
    account_rating: Option<i64>,
    event: &GameEventFields,
    position: &Result<ParsedPosition, String>,
    book_move: Option<String>,
    existing_thinking: bool,
    now_ms: u64,
) -> (step: Result<GameEventStep, String>)
    ensures
        !is_full(*event) && !is_state(*event) ==> (step matches Ok(GameEventStep::Ignore) && *final(context)
            == *old(context)),
        is_full(*event) && !bot_named(*event, account_id@, username@) ==> {
            &&& (step matches Err(m) && m@ == color_message())
            &&& final(context).initial_fen@ == match event.initial_fen {
                Some(f) => f@,
                None => "startpos"@,
            }
            &&& header_applied(*final(context), *event)
            &&& players_kept(*final(context), *old(context))
            &&& search_state_kept(*final(context), *old(context))
            &&& final(context).telemetry == old(context).telemetry
        },
        (is_state(*event) || (is_full(*event) && bot_named(*event, account_id@, username@))) ==> {
            &&& event_read(*final(context), *old(context), *event, account_id@, username@)
            &&& match position {
                Err(p) => {
                    &&& (step matches Err(m) && m@ == p@)
                    &&& final(context).initial_fen@ == if is_full(*event) {
                        match event.initial_fen {
                            Some(f) => f@,
                            None => "startpos"@,
                        }
                    } else {
                        old(context).initial_fen@
                    }
                    &&& search_state_kept(*final(context), *old(context))
                    &&& final(context).telemetry == old(context).telemetry
                },
                Ok(pos) => {
                    &&& final(context).initial_fen@ == pos.initial_fen@
                    &&& (step matches Ok(GameEventStep::Update { game, action }) && record_fits(
                        game,
                        *final(context),
                        *event,
                        *pos,
                        account_rating,
                        existing_thinking,
                        now_ms,
                    ) && action_fits(action, *final(context), *old(context), *event, *pos, book_move))
                },
            }
        },
{
    proof {
        reveal_strlit("gameFull");
        reveal_strlit("gameState");
        assert("gameFull"@[4] != "gameState"@[4]);
        assert("gameFull"@ != "gameState"@);
    }
    let full = str_eq(event.kind.as_str(), "gameFull");
    if !full && !str_eq(event.kind.as_str(), "gameState") {
        return Ok(GameEventStep::Ignore);
    }
    if full {
        context.initial_fen = match &event.initial_fen {
            Some(f) => f.clone(),
            None => String::from_str("startpos"),
        };
        context.rated = match event.rated {
            Some(r) => r,
            None => false,
        };
        context.speed = clone_opt(&event.speed);
        context.clock_limit = clock_seconds(event.clock_initial_ms);
        context.clock_increment = clock_seconds(event.clock_increment_ms);
        let white = eq_ignore_ascii_case(event.white_id.as_str(), account_id) || eq_ignore_ascii_case(
            event.white_id.as_str(),
            username,
        );
        let black = eq_ignore_ascii_case(event.black_id.as_str(), account_id) || eq_ignore_ascii_case(
            event.black_id.as_str(),
            username,
        );
        if white {
            context.color = String::from_str("white");
            context.opponent = match &event.black_name {
                Some(n) => n.clone(),
                None => String::from_str("Lichess opponent"),
            };
            context.bot_rating = event.white_rating;
            context.opponent_rating = event.black_rating;
        } else if black {
            context.color = String::from_str("black");
            context.opponent = match &event.white_name {
                Some(n) => n.clone(),
                None => String::from_str("Lichess opponent"),
            };
            context.bot_rating = event.black_rating;
            context.opponent_rating = event.white_rating;
        } else {
            return Err(String::from_str("Could not determine the bot's color in the game"));
        }
    }
    let pos = match position {
        Ok(p) => p,
        Err(p) => {
            return Err(p.clone());
        },
    };
    context.initial_fen = pos.initial_fen.clone();
    let status = match &event.status {
        Some(s) => s.clone(),
        None => String::from_str("started"),
    };
    let white_time = match event.white_time {
        Some(t) => t,
        None => 0,
    };
    let black_time = match event.black_time {
        Some(t) => t,
        None => 0,
    };
    let white_increment = match event.white_increment {
        Some(t) => t,
        None => 0,
    };
    let black_increment = match event.black_increment {
        Some(t) => t,
        None => 0,
    };
    let winner = match &event.winner {
        Some(w) => Some(w.as_str()),
        None => None,
    };
    let result = game_result(status.as_str(), winner);
    let live = is_live(status.as_str());
    let game = LiveGameRecord {
        status,
        result,
        initial_fen: pos.initial_fen.clone(),
        moves: pos.moves.clone(),
        color: context.color.clone(),
        opponent: context.opponent.clone(),
        bot_rating: match context.bot_rating {
            Some(r) => Some(r),
            None => account_rating,
        },
        opponent_rating: context.opponent_rating,
        white_time,
        black_time,
        white_increment,
        black_increment,
        clock_updated_at: now_ms,
        engine_thinking: live && existing_thinking,
    };
    if !live {
        let end = if str_eq(context.color.as_str(), "white") {
            white_time
        } else {
            black_time
        };
        context.telemetry.end_clock_ms = Some(end);
        return Ok(GameEventStep::Update { game, action: GameAction::Complete { end_clock_ms: end } });
    }
    if should_search(context, pos.white_to_move, pos.moves.as_str()) {
        context.last_searched_moves = Some(pos.moves.clone());
        let action = match book_move {
            Some(b) => GameAction::Book { book_move: b },
            None => GameAction::Search,
        };
        return Ok(GameEventStep::Update { game, action });
    }
    Ok(GameEventStep::Update { game, action: GameAction::Wait })
}

/// A `gameFull` that names the bot as one player makes the other player the
/// opponent: when the bot plays black, its opponent (in the context and on
/// the live board) is the white player's name, or the default, and when it
/// plays white, the black player's.
pub proof fn law_opponent_is_the_other_player(
    after: GameContext,
    before: GameContext,
    e: GameEventFields,
    account_id: Seq<char>,
    username: Seq<char>,
    game: LiveGameRecord,
    position: ParsedPosition,
    account_rating: Option<i64>,
    existing_thinking: bool,
    now_ms: u64,
)
    requires
        is_full(e),
        event_read(after, before, e, account_id, username),
    ensures
        !names_bot(e.white_id@, account_id, username) && names_bot(e.black_id@, account_id, username)
            ==> after.color@ == "black"@ && after.opponent@ == match e.white_name {
            Some(n) => n@,
            None => "Lichess opponent"@,
        } && after.bot_rating == e.black_rating && after.opponent_rating == e.white_rating,
        names_bot(e.white_id@, account_id, username) ==> after.color@ == "white"@ && after.opponent@
            == match e.black_name {
            Some(n) => n@,
            None => "Lichess opponent"@,
        } && after.bot_rating == e.white_rating && after.opponent_rating == e.black_rating,
        record_fits(game, after, e, position, account_rating, existing_thinking, now_ms)
            && bot_named(e, account_id, username) ==> game.opponent@ == after.opponent@
            && game.color@ == after.color@,
{
}

} // verus!
