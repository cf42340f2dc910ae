//! Creating a challenge: what a request must look like, when the bot's
//! event stream counts as connected, which reconciled outgoing challenge
//! answers a repeated request, and how each failure is reported.
use vstd::prelude::*;
use crate::game::opt_str;
use crate::ownership::{OutgoingChallenge, Ownership};
use crate::text::{chars_of, eq_ignore_case, lower_chars, push_str, seq_eq, str_eq};

verus! {

/// A character with the Unicode `White_Space` property, the characters
/// `str::trim` removes.
pub open spec fn unicode_space(c: char) -> bool {
    ||| '\u{9}' <= c && c <= '\u{d}'
    ||| c == ' ' || c == '\u{85}' || c == '\u{a0}' || c == '\u{1680}'
    ||| '\u{2000}' <= c && c <= '\u{200a}'
    ||| c == '\u{2028}' || c == '\u{2029}' || c == '\u{202f}' || c == '\u{205f}' || c == '\u{3000}'
}

/// The first position at or after `i` that does not hold white space.
pub open spec fn trim_start(s: Seq<char>, i: nat) -> nat
    decreases s.len() - i,
{
    if i < s.len() && unicode_space(s[i as int]) {
        trim_start(s, i + 1)
    } else {
        i
    }
}

/// The end of `s` up to `j` once trailing white space above `lo` is cut.
pub open spec fn trim_end(s: Seq<char>, j: nat, lo: nat) -> nat
    decreases j,
{
    if j > lo && unicode_space(s[j - 1]) {
        trim_end(s, (j - 1) as nat, lo)
    } else {
        j
    }
}

/// A text without its leading and trailing white space.
pub open spec fn trimmed(s: Seq<char>) -> Seq<char> {
    let a = trim_start(s, 0);
    s.subrange(a as int, trim_end(s, s.len(), a) as int)
}

proof fn lemma_trim_start_bounds(s: Seq<char>, i: nat)
    requires
        i <= s.len(),
    ensures
        i <= trim_start(s, i) <= s.len(),
    decreases s.len() - i,
{
    if i < s.len() && unicode_space(s[i as int]) {
        lemma_trim_start_bounds(s, i + 1);
    }
}

proof fn lemma_trim_end_bounds(s: Seq<char>, j: nat, lo: nat)
    requires
        lo <= j,
    ensures
        lo <= trim_end(s, j, lo) <= j,
    decreases j,
{
    if j > lo && unicode_space(s[j - 1]) {
        lemma_trim_end_bounds(s, (j - 1) as nat, lo);
    }
}

fn is_unicode_space(c: char) -> (space: bool)
    ensures
        space == unicode_space(c),
{
    ('\u{9}' <= c && c <= '\u{d}') || c == ' ' || c == '\u{85}' || c == '\u{a0}' || c == '\u{1680}'
        || ('\u{2000}' <= c && c <= '\u{200a}') || c == '\u{2028}' || c == '\u{2029}' || c
        == '\u{202f}' || c == '\u{205f}' || c == '\u{3000}'
}

/// The characters of a text without leading and trailing white space.
pub fn trim_chars(s: &str) -> (t: Vec<char>)
    ensures
        t@ == trimmed(s@),
{
    let chars = chars_of(s);
    let n = chars.len();
    let mut a: usize = 0;
    while a < n && is_unicode_space(chars[a])
        invariant
            chars@ == s@,
            n == chars@.len(),
            a <= n,
            trim_start(s@, a as nat) == trim_start(s@, 0),
        decreases n - a,
    {
        a = a + 1;
    }
    let mut b: usize = n;
    while b > a && is_unicode_space(chars[b - 1])
        invariant
            chars@ == s@,
            n == chars@.len(),
            a <= b <= n,
            trim_start(s@, 0) == a,
            trim_end(s@, b as nat, a as nat) == trim_end(s@, n as nat, a as nat),
        decreases b,
    {
        b = b - 1;
    }
    let mut t: Vec<char> = Vec::new();
    let mut k = a;
    while k < b
        invariant
            chars@ == s@,
            a <= k <= b <= n,
            n == chars@.len(),
            t@ == chars@.subrange(a as int, k as int),
        decreases b - k,
    {
        t.push(chars[k]);
        proof {
            assert(chars@.subrange(a as int, k + 1) =~= chars@.subrange(a as int, k as int).push(
                chars@[k as int],
            ));
        }
        k = k + 1;
    }
    t
}

/// Why a challenge request is refused before anything is sent: an opponent
/// that is only white space, or a variant other than standard chess.
pub open spec fn request_refusal(opponent: Seq<char>, variant: Seq<char>) -> Option<Seq<char>> {
    if trimmed(opponent).len() == 0 {
        Some("Enter a Lichess opponent."@)
    } else if variant != "standard"@ {
        Some("QueenUI currently supports automated Standard chess games only."@)
    } else {
        None
    }
}

/// Checks a challenge request before the bot is started for it.
pub fn validate_challenge_request(opponent: &str, variant: &str) -> (result: Result<(), String>)
    ensures
        match request_refusal(opponent@, variant@) {
            Some(message) => result matches Err(e) && e@ == message,
            None => result is Ok,
        },
{
    let trimmed_opponent = trim_chars(opponent);
    if trimmed_opponent.len() == 0 {
        return Err(String::from_str("Enter a Lichess opponent."));
    }
    if !str_eq(variant, "standard") {
        return Err(String::from_str("QueenUI currently supports automated Standard chess games only."));
    }
    Ok(())
}

/// Whether an account's runtime status shows its event stream connected.
pub open spec fn stream_connected(status: Option<Seq<char>>) -> bool {
    status == Some("online"@) || status == Some("playing"@)
}

/// Whether the bot's event stream is connected, from the account's runtime
/// status (none when the account has no runtime yet).
pub fn event_stream_connected(status: Option<&str>) -> (connected: bool)
    ensures
        connected == stream_connected(opt_str(status)),
{
    match status {
        Some(s) => str_eq(s, "online") || str_eq(s, "playing"),
        None => false,
    }
}

/// A challenge is only created once the bot's event stream is connected;
/// otherwise the request fails with advice to check the account's error.
pub fn require_event_stream(status: Option<&str>) -> (result: Result<(), String>)
    ensures
        stream_connected(opt_str(status)) <==> result is Ok,
        result matches Err(e) ==> e@
            == "The bot could not connect to its Lichess event stream. Check the account error and try again."@,
{
    if event_stream_connected(status) {
        Ok(())
    } else {
        Err(
            String::from_str(
                "The bot could not connect to its Lichess event stream. Check the account error and try again.",
            ),
        )
    }
}

/// Whether a reconciled outgoing challenge goes to the requested opponent,
/// ignoring ASCII case and the request's surrounding white space.
pub open spec fn challenges_opponent(c: OutgoingChallenge, opponent: Seq<char>) -> bool {
    eq_ignore_case(c.opponent@, trimmed(opponent))
}

/// The first reconciled outgoing challenge to the requested opponent: a
/// request repeated after an unknown POST is answered with it instead of a
/// second challenge.
pub fn matching_outgoing_challenge(outgoing: &Vec<OutgoingChallenge>, opponent: &str) -> (found: Option<
    usize,
>)
    ensures
        match found {
            Some(i) => i < outgoing@.len() && challenges_opponent(outgoing@[i as int], opponent@)
                && forall|j: int| 0 <= j < i ==> !challenges_opponent(#[trigger] outgoing@[j], opponent@),
            None => forall|j: int|
                0 <= j < outgoing@.len() ==> !challenges_opponent(#[trigger] outgoing@[j], opponent@),
        },
{
    let wanted = trim_chars(opponent);
    let wanted_lower = lower_chars(&wanted);
    let mut i: usize = 0;
    while i < outgoing.len()
        invariant
            i <= outgoing@.len(),
            wanted@ == trimmed(opponent@),
            wanted_lower@ == crate::text::lower_seq(wanted@),
            forall|j: int| 0 <= j < i ==> !challenges_opponent(#[trigger] outgoing@[j], opponent@),
        decreases outgoing.len() - i,
    {
        let name = chars_of(outgoing[i].opponent.as_str());
        let name_lower = lower_chars(&name);
        if seq_eq(&name_lower, &wanted_lower) {
            return Some(i);
        }
        i = i + 1;
    }
    None
}

/// What went wrong while creating a challenge.
pub enum ChallengeFailure {
    /// The outgoing challenges could not be read to reconcile an earlier
    /// unknown POST.
    ReconcileRead(String),
    /// The reconciled barrier could not be cleared.
    BarrierUpdate(String),
    /// The barrier for this POST could not be saved, so nothing was sent.
    BarrierSave(String),
    /// The POST's outcome is unknown.
    Ambiguous(String),
    /// Lichess refused the challenge; clearing the barrier may have failed
    /// as well.
    Definitive { error: String, persistence_error: Option<String> },
}

pub open spec fn failure_message(f: ChallengeFailure) -> Seq<char> {
    match f {
        ChallengeFailure::ReconcileRead(e) => "Challenge creation remains paused until the prior unknown POST is reconciled: "@
            + e@,
        ChallengeFailure::BarrierUpdate(e) => "Challenge creation remains paused because the reconciled safety barrier could not be updated: "@
            + e@,
        ChallengeFailure::BarrierSave(e) => "Challenge creation was not sent because its durable safety barrier could not be saved: "@
            + e@,
        ChallengeFailure::Ambiguous(e) => "Challenge POST outcome is unknown; creation is paused until authoritative outgoing challenges are reconciled: "@
            + e@,
        ChallengeFailure::Definitive { error, persistence_error } => error@ + match persistence_error {
            Some(d) => "; the definitive response was received, but the durable safety barrier could not be cleared: "@
                + d@,
            None => Seq::empty(),
        },
    }
}

/// The error a failed challenge creation is reported with.
pub fn challenge_failure_message(failure: ChallengeFailure) -> (message: String)
    ensures
        message@ == failure_message(failure),
{
    match failure {
        ChallengeFailure::ReconcileRead(e) => {
            let mut m = String::from_str(
                "Challenge creation remains paused until the prior unknown POST is reconciled: ",
            );
            push_str(&mut m, e.as_str());
            m
        },
        ChallengeFailure::BarrierUpdate(e) => {
            let mut m = String::from_str(
                "Challenge creation remains paused because the reconciled safety barrier could not be updated: ",
            );
            push_str(&mut m, e.as_str());
            m
        },
        ChallengeFailure::BarrierSave(e) => {
            let mut m = String::from_str(
                "Challenge creation was not sent because its durable safety barrier could not be saved: ",
            );
            push_str(&mut m, e.as_str());
            m
        },
        ChallengeFailure::Ambiguous(e) => {
            let mut m = String::from_str(
                "Challenge POST outcome is unknown; creation is paused until authoritative outgoing challenges are reconciled: ",
            );
            push_str(&mut m, e.as_str());
            m
        },
        ChallengeFailure::Definitive { error, persistence_error } => {
            let mut m = error;
            if let Some(d) = persistence_error {
                push_str(
                    &mut m,
                    "; the definitive response was received, but the durable safety barrier could not be cleared: ",
                );
                push_str(&mut m, d.as_str());
            }
            m
        },
    }
}

/// How far a challenge creation has come.
pub enum ChallengePhase {
    /// The request passed its checks and the bot was started.
    Started,
    /// The account's outgoing challenges were read back and the reconciled
    /// barrier cleared; `found` says whether one goes to the requested
    /// opponent.
    Reconciled { found: bool },
    /// The barrier for this POST is durably saved.
    BarrierSaved,
    /// The POST was answered.
    Posted(PostOutcome),
}

/// How Lichess answered a challenge POST.
pub enum PostOutcome {
    Created,
    /// The outcome is unknown: the request may or may not have been applied.
    Ambiguous,
    Refused,
}

/// What a challenge creation does next.
pub enum ChallengeAction {
    /// The bot's event stream is not connected: the request fails.
    NotConnected,
    /// An earlier POST's outcome is unknown: read the account's outgoing
    /// challenges and reconcile them before anything is sent.
    ReconcileFirst,
    /// Answer with the reconciled challenge instead of sending a second.
    AnswerReconciled,
    /// Save the barrier for this POST durably before sending it.
    SaveBarrier,
    Post,
    /// The challenge was created: record it and clear the barrier.
    RecordAndClear,
    /// The outcome is unknown: the barrier stays until reconciliation.
    KeepBarrier,
    /// Lichess refused: forget the pending challenge and clear the barrier.
    ForgetAndClear,
}

/// The write-ahead discipline of challenge creation: an unknown earlier
/// outcome is reconciled first, the barrier is saved before every POST, an
/// unknown outcome keeps it and a definitive answer clears it.
pub open spec fn challenge_decision(uncertain: bool, connected: bool, phase: ChallengePhase) -> ChallengeAction {
    match phase {
        ChallengePhase::Started => if !connected {
            ChallengeAction::NotConnected
        } else if uncertain {
            ChallengeAction::ReconcileFirst
        } else {
            ChallengeAction::SaveBarrier
        },
        ChallengePhase::Reconciled { found } => if found {
            ChallengeAction::AnswerReconciled
        } else {
            ChallengeAction::SaveBarrier
        },
        ChallengePhase::BarrierSaved => ChallengeAction::Post,
        ChallengePhase::Posted(outcome) => match outcome {
            PostOutcome::Created => ChallengeAction::RecordAndClear,
            PostOutcome::Ambiguous => ChallengeAction::KeepBarrier,
            PostOutcome::Refused => ChallengeAction::ForgetAndClear,
        },
    }
}

/// The next step of a challenge creation for an account.
pub fn challenge_step(ownership: &Ownership, account_id: &str, connected: bool, phase: ChallengePhase) -> (action:
    ChallengeAction)
    ensures
        action == challenge_decision(
            ownership.uncertain_map().dom().contains(account_id@),
            connected,
            phase,
        ),
{
    match phase {
        ChallengePhase::Started => {
            if !connected {
                ChallengeAction::NotConnected
            } else if ownership.has_uncertain_creation(account_id) {
                ChallengeAction::ReconcileFirst
            } else {
                ChallengeAction::SaveBarrier
            }
        },
        ChallengePhase::Reconciled { found } => if found {
            ChallengeAction::AnswerReconciled
        } else {
            ChallengeAction::SaveBarrier
        },
        ChallengePhase::BarrierSaved => ChallengeAction::Post,
        ChallengePhase::Posted(outcome) => match outcome {
            PostOutcome::Created => ChallengeAction::RecordAndClear,
            PostOutcome::Ambiguous => ChallengeAction::KeepBarrier,
            PostOutcome::Refused => ChallengeAction::ForgetAndClear,
        },
    }
}

/// Nothing is sent before its barrier is saved: the step posts only once
/// the barrier for this POST is durably saved, and never while an earlier
/// unknown outcome is unreconciled.
pub proof fn law_post_follows_a_saved_barrier(uncertain: bool, connected: bool, phase: ChallengePhase)
    ensures
        challenge_decision(uncertain, connected, phase) is Post ==> phase is BarrierSaved,
        uncertain && connected && phase is Started ==> challenge_decision(uncertain, connected, phase)
            is ReconcileFirst,
{
}

/// The barrier is cleared only on a definitive answer; an unknown outcome
/// always keeps it.
pub proof fn law_barrier_cleared_only_when_definitive(uncertain: bool, connected: bool, phase: ChallengePhase)
    ensures
        (challenge_decision(uncertain, connected, phase) is RecordAndClear || challenge_decision(
            uncertain,
            connected,
            phase,
        ) is ForgetAndClear) ==> (phase matches ChallengePhase::Posted(o) && !(o is Ambiguous)),
        phase matches ChallengePhase::Posted(o) && o is Ambiguous ==> challenge_decision(
            uncertain,
            connected,
            phase,
        ) is KeepBarrier,
{
}

} // verus!
