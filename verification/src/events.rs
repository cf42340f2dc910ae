//! What an account's event stream asks of the bot: which outgoing challenge
//! an event resolves, whether an incoming challenge is declined, and which
//! game to start playing.
use vstd::prelude::*;
use crate::game::{names_bot, opt_string};
use crate::text::{eq_ignore_ascii_case, str_eq};

verus! {

/// The fields of one account event that the bot acts on, as read from the
/// event's JSON.
pub struct AccountEvent {
    /// The event's `type`.
    pub kind: String,
    /// `challenge.id`.
    pub challenge_id: Option<String>,
    /// `challenge.destUser.name`, else `challenge.destUser.id`.
    pub challenge_dest: Option<String>,
    /// `challenge.challenger.id`.
    pub challenger_id: Option<String>,
    /// `game.gameId`, else `game.id`.
    pub game_id: Option<String>,
    /// `game.opponent.username`, else `game.opponent.id`.
    pub game_opponent: Option<String>,
}

/// An outgoing challenge that an event shows resolved.
pub struct ResolvedChallenge {
    pub challenge_id: String,
    pub opponent: Option<String>,
}

/// The work an account event asks for.
pub enum AccountEventAction {
    Nothing,
    /// Decline this incoming challenge.
    Decline { challenge_id: String },
    /// Start playing this game; once started, forget the outgoing challenge
    /// it resolves.
    StartGame { game_id: String, opponent: Option<String> },
}

/// The plan for one account event.
pub struct AccountEventPlan {
    pub forget: Option<ResolvedChallenge>,
    pub record_campaign: bool,
    pub action: AccountEventAction,
}

pub open spec fn kind_is_challenge_end(kind: Seq<char>) -> bool {
    kind == "challengeDeclined"@ || kind == "challengeCanceled"@
}

/// The kinds that resolve an outgoing challenge.
pub open spec fn kind_resolves(kind: Seq<char>) -> bool {
    kind_is_challenge_end(kind) || kind == "gameStart"@ || kind == "gameFinish"@
}

/// The outgoing challenge a non-gameStart resolving event settles.
pub open spec fn forget_spec(e: AccountEvent) -> Option<(Seq<char>, Option<Seq<char>>)> {
    if !kind_resolves(e.kind@) || e.kind@ == "gameStart"@ {
        None
    } else if kind_is_challenge_end(e.kind@) {
        match e.challenge_id {
            Some(id) => Some((id@, opt_string(e.challenge_dest))),
            None => None,
        }
    } else {
        match e.game_id {
            Some(id) => Some((id@, opt_string(e.game_opponent))),
            None => None,
        }
    }
}

pub open spec fn forget_view(f: Option<ResolvedChallenge>) -> Option<(Seq<char>, Option<Seq<char>>)> {
    match f {
        Some(r) => Some((r.challenge_id@, opt_string(r.opponent))),
        None => None,
    }
}

/// An incoming challenge is declined unless the bot sent it itself.
pub open spec fn declines(e: AccountEvent, account_id: Seq<char>, username: Seq<char>) -> bool {
    &&& e.kind@ == "challenge"@
    &&& e.challenge_id is Some
    &&& !names_bot(
        match e.challenger_id {
            Some(c) => c@,
            None => Seq::empty(),
        },
        account_id,
        username,
    )
}

fn opt_clone(o: &Option<String>) -> (r: Option<String>)
    ensures
        opt_string(r) == opt_string(*o),
{
    match o {
        Some(s) => Some(s.clone()),
        None => None,
    }
}

/// Plans the bot's response to one account event.
pub fn plan_account_event(event: &AccountEvent, account_id: &str, username: &str) -> (plan: Result<
    AccountEventPlan,
    String,
>)
    ensures
        event.kind@ == "gameStart"@ && event.game_id is None <==> (plan is Err),
        plan matches Err(e) ==> e@ == "Lichess sent a game start without a game id"@,
        plan matches Ok(p) ==> {
            &&& p.record_campaign == kind_resolves(event.kind@)
            &&& forget_view(p.forget) == forget_spec(*event)
            &&& (event.kind@ == "gameStart"@ ==> (p.action matches AccountEventAction::StartGame {
                game_id,
                opponent,
            } && opt_string(Some(game_id)) == opt_string(event.game_id) && opt_string(opponent)
                == opt_string(event.game_opponent)))
            &&& (declines(*event, account_id@, username@) ==> (p.action matches AccountEventAction::Decline {
                challenge_id,
            } && opt_string(Some(challenge_id)) == opt_string(event.challenge_id)))
            &&& (event.kind@ != "gameStart"@ && !declines(*event, account_id@, username@)
                ==> p.action is Nothing)
        },
{
    let kind = event.kind.as_str();
    let challenge_end = str_eq(kind, "challengeDeclined") || str_eq(kind, "challengeCanceled");
    let game_start = str_eq(kind, "gameStart");
    let resolves = challenge_end || game_start || str_eq(kind, "gameFinish");
    let forget = if !resolves || game_start {
        None
    } else if challenge_end {
        match &event.challenge_id {
            Some(id) => Some(
                ResolvedChallenge { challenge_id: id.clone(), opponent: opt_clone(&event.challenge_dest) },
            ),
            None => None,
        }
    } else {
        match &event.game_id {
            Some(id) => Some(
                ResolvedChallenge { challenge_id: id.clone(), opponent: opt_clone(&event.game_opponent) },
            ),
            None => None,
        }
    };
    if game_start {
        proof {
            reveal_strlit("gameStart");
            reveal_strlit("challenge");
            assert("gameStart"@[0] != "challenge"@[0]);
        }
        return match &event.game_id {
            Some(id) => Ok(
                AccountEventPlan {
                    forget,
                    record_campaign: true,
                    action: AccountEventAction::StartGame {
                        game_id: id.clone(),
                        opponent: opt_clone(&event.game_opponent),
                    },
                },
            ),
            None => Err(String::from_str("Lichess sent a game start without a game id")),
        };
    }
    let mut action = AccountEventAction::Nothing;
    if str_eq(kind, "challenge") {
        if let Some(id) = &event.challenge_id {
            let own = match &event.challenger_id {
                Some(c) => eq_ignore_ascii_case(c.as_str(), account_id) || eq_ignore_ascii_case(
                    c.as_str(),
                    username,
                ),
                None => {
                    let empty = String::new();
                    eq_ignore_ascii_case(empty.as_str(), account_id) || eq_ignore_ascii_case(
                        empty.as_str(),
                        username,
                    )
                },
            };
            if !own {
                action = AccountEventAction::Decline { challenge_id: id.clone() };
            }
        }
    }
    Ok(AccountEventPlan { forget, record_campaign: resolves, action })
}

/// A canceled outgoing challenge is resolved exactly like a declined one:
/// an event of either kind that carries a challenge id has its plan forget
/// that challenge, under its destination, and record the event for the
/// campaign.
pub proof fn law_canceled_challenge_resolves_like_declined(e: AccountEvent)
    ensures
        (e.kind@ == "challengeCanceled"@ || e.kind@ == "challengeDeclined"@) && e.challenge_id is Some
            ==> forget_spec(e) == Some((e.challenge_id.unwrap()@, opt_string(e.challenge_dest))),
        e.kind@ == "challengeCanceled"@ || e.kind@ == "challengeDeclined"@ ==> kind_resolves(e.kind@),
{
    reveal_strlit("challengeCanceled");
    reveal_strlit("challengeDeclined");
    reveal_strlit("gameStart");
    assert("challengeCanceled"@[0] != "gameStart"@[0]);
    assert("challengeDeclined"@[0] != "gameStart"@[0]);
}

} // verus!
