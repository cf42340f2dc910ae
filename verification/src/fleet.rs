//! The fleet configuration: which engine profiles are registered, which
//! Lichess accounts drive them, and the rules every edit of it follows.
use vstd::prelude::*;
use crate::challenge::{trim_chars, trimmed};
use crate::game::opt_string;
use crate::order::{join_strings, joined, views};
use crate::ownership::{intent_games, Ownership};
use crate::storage::SecretStore;
use crate::text::{eq_ignore_ascii_case, eq_ignore_case, push_str, str_eq};

verus! {

/// The deepest opening-book line the bot may follow.
pub const MAX_BOOK_PLIES: u32 = 200;

/// Why opening-book settings are refused, if they are: the depth must lie
/// in 1..=200 plies and the top-move share in 1..=100 percent.
pub open spec fn book_settings_refusal(max_plies: u32, top_move_percent: u32) -> Option<Seq<char>> {
    if !(1 <= max_plies <= 200) {
        Some("Opening-book depth must be between 1 and 200 plies."@)
    } else if !(1 <= top_move_percent <= 100) {
        Some("Top-move selection must be between 1% and 100%."@)
    } else {
        None
    }
}

/// Checks the opening-book settings of a configuration request.
pub fn validate_book_settings(max_plies: u32, top_move_percent: u32) -> (result: Result<(), String>)
    ensures
        match book_settings_refusal(max_plies, top_move_percent) {
            Some(message) => result matches Err(e) && e@ == message,
            None => result is Ok,
        },
{
    if !(1 <= max_plies && max_plies <= MAX_BOOK_PLIES) {
        return Err(String::from_str("Opening-book depth must be between 1 and 200 plies."));
    }
    if !(1 <= top_move_percent && top_move_percent <= 100) {
        return Err(String::from_str("Top-move selection must be between 1% and 100%."));
    }
    Ok(())
}

/// The imported book file a new opening-book configuration leaves behind:
/// the previous one, unless the new import reuses its path.
pub fn superseded_book(previous: Option<String>, new_path: &str) -> (stale: Option<String>)
    ensures
        opt_string(stale) == match previous {
            Some(p) => if p@ == new_path@ {
                None
            } else {
                Some(p@)
            },
            None => None,
        },
{
    match previous {
        Some(p) => if str_eq(p.as_str(), new_path) {
            None
        } else {
            Some(p)
        },
        None => None,
    }
}

/// Why a Lichess token is refused before any account is touched: it is
/// empty, or the account it belongs to is not titled `BOT`.
pub open spec fn token_refusal(token: Seq<char>, title: Option<Seq<char>>, username: Seq<char>) -> Option<
    Seq<char>,
> {
    if token.len() == 0 {
        Some("Enter a Lichess API token."@)
    } else if title != Some("BOT"@) {
        Some(
            "@"@ + username
                + " is not a Lichess BOT account. QueenUI will not automate moves on a human account."@,
        )
    } else {
        None
    }
}

/// Checks a token against the account Lichess reports for it: only a BOT
/// account is automated.
pub fn check_bot_account(token: &str, title: Option<&str>, username: &str) -> (result: Result<
    (),
    String,
>)
    ensures
        match token_refusal(token@, crate::game::opt_str(title), username@) {
            Some(message) => result matches Err(e) && e@ == message,
            None => result is Ok,
        },
{
    if token.unicode_len() == 0 {
        return Err(String::from_str("Enter a Lichess API token."));
    }
    let is_bot = match title {
        Some(t) => str_eq(t, "BOT"),
        None => false,
    };
    if !is_bot {
        let mut message = String::from_str("@");
        push_str(&mut message, username);
        push_str(
            &mut message,
            " is not a Lichess BOT account. QueenUI will not automate moves on a human account.",
        );
        return Err(message);
    }
    Ok(())
}

/// The refusal when a replacement token belongs to another account than
/// the one selected, compared without ASCII case.
pub open spec fn token_owner_refusal(
    token_id: Seq<char>,
    token_username: Seq<char>,
    account_id: Seq<char>,
    account_username: Seq<char>,
) -> Option<Seq<char>> {
    if eq_ignore_case(token_id, account_id) {
        None
    } else {
        Some(
            "The Lichess token belongs to @"@ + token_username + " ("@ + token_id
                + "), but the selected account is @"@ + account_username + " ("@ + account_id
                + ")."@,
        )
    }
}

/// Checks that a replacement token belongs to the selected account.
pub fn check_token_owner(
    token_id: &str,
    token_username: &str,
    account_id: &str,
    account_username: &str,
) -> (result: Result<(), String>)
    ensures
        match token_owner_refusal(token_id@, token_username@, account_id@, account_username@) {
            Some(message) => result matches Err(e) && e@ == message,
            None => result is Ok,
        },
{
    if eq_ignore_ascii_case(token_id, account_id) {
        return Ok(());
    }
    let mut message = String::from_str("The Lichess token belongs to @");
    push_str(&mut message, token_username);
    push_str(&mut message, " (");
    push_str(&mut message, token_id);
    push_str(&mut message, "), but the selected account is @");
    push_str(&mut message, account_username);
    push_str(&mut message, " (");
    push_str(&mut message, account_id);
    push_str(&mut message, ").");
    Err(message)
}

/// The opening book an engine profile plays from: where its imported copy
/// lives and the name it is shown under.
pub struct BookRef {
    pub path: String,
    pub name: String,
}

/// A registered engine profile, as far as the configuration rules read it.
pub struct EngineRecord {
    pub id: String,
    /// The engine executable.
    pub path: String,
    pub last_probed_at_ms: Option<u64>,
    pub probe_ok: Option<bool>,
    pub opening_book: Option<BookRef>,
}

/// A Lichess account the fleet drives, and the engine profile it plays with.
pub struct AccountProfile {
    pub id: String,
    pub username: String,
    pub engine_id: String,
    pub rating: Option<u32>,
    pub enabled: bool,
}

/// The fleet's configuration: its engine profiles, its accounts and the
/// accounts that have a campaign.
pub struct FleetConfig {
    pub engines: Vec<EngineRecord>,
    pub accounts: Vec<AccountProfile>,
    pub campaign_accounts: Vec<String>,
}

/// An opening book as (path, name).
pub open spec fn book_view(b: Option<BookRef>) -> Option<(Seq<char>, Seq<char>)> {
    match b {
        Some(book) => Some((book.path@, book.name@)),
        None => None,
    }
}

/// An engine profile as (id, executable, last probe time, probe verdict,
/// opening book).
pub type EngineView = (Seq<char>, Seq<char>, Option<u64>, Option<bool>, Option<(Seq<char>, Seq<char>)>);

/// An account as (id, username, engine profile, rating, enabled).
pub type AccountView = (Seq<char>, Seq<char>, Seq<char>, Option<u32>, bool);

impl View for EngineRecord {
    type V = EngineView;

    open spec fn view(&self) -> EngineView {
        (self.id@, self.path@, self.last_probed_at_ms, self.probe_ok, book_view(self.opening_book))
    }
}

impl View for AccountProfile {
    type V = AccountView;

    open spec fn view(&self) -> AccountView {
        (self.id@, self.username@, self.engine_id@, self.rating, self.enabled)
    }
}

pub open spec fn engine_views(s: Seq<EngineRecord>) -> Seq<EngineView> {
    s.map_values(|e: EngineRecord| e@)
}

pub open spec fn account_views(s: Seq<AccountProfile>) -> Seq<AccountView> {
    s.map_values(|a: AccountProfile| a@)
}

pub open spec fn text_views(s: Seq<String>) -> Seq<Seq<char>> {
    s.map_values(|t: String| t@)
}

/// Some engine profile has this id.
pub open spec fn engine_registered(engines: Seq<EngineView>, id: Seq<char>) -> bool {
    exists|i: int| 0 <= i < engines.len() && #[trigger] engines[i].0 == id
}

/// `i` is the first engine profile with this id.
pub open spec fn first_engine_at(engines: Seq<EngineView>, id: Seq<char>, i: int) -> bool {
    &&& 0 <= i < engines.len()
    &&& engines[i].0 == id
    &&& forall|j: int| 0 <= j < i ==> #[trigger] engines[j].0 != id
}

/// Some account plays with this engine profile.
pub open spec fn engine_in_use(accounts: Seq<AccountView>, engine_id: Seq<char>) -> bool {
    exists|i: int| 0 <= i < accounts.len() && #[trigger] accounts[i].2 == engine_id
}

/// Some account has this id.
pub open spec fn account_listed(accounts: Seq<AccountView>, id: Seq<char>) -> bool {
    exists|i: int| 0 <= i < accounts.len() && #[trigger] accounts[i].0 == id
}

/// `i` is the first account with this id.
pub open spec fn first_account_at(accounts: Seq<AccountView>, id: Seq<char>, i: int) -> bool {
    &&& 0 <= i < accounts.len()
    &&& accounts[i].0 == id
    &&& forall|j: int| 0 <= j < i ==> #[trigger] accounts[j].0 != id
}

pub open spec fn book_path(book: Option<(Seq<char>, Seq<char>)>) -> Option<Seq<char>> {
    match book {
        Some(b) => Some(b.0),
        None => None,
    }
}

pub open spec fn engine_in_use_message() -> Seq<char> {
    "Assign another engine to every account using this profile before removing it."@
}

pub open spec fn engine_not_found_message() -> Seq<char> {
    "Engine profile not found"@
}

pub open spec fn account_not_found_message() -> Seq<char> {
    "Lichess account not found"@
}

/// The opening book of the first engine profile with this id; `None` when
/// no profile has it.
pub open spec fn current_book_of(engines: Seq<EngineView>, id: Seq<char>) -> Option<
    Option<(Seq<char>, Seq<char>)>,
> {
    if engine_registered(engines, id) {
        let i = choose|i: int| first_engine_at(engines, id, i);
        Some(engines[i].4)
    } else {
        None
    }
}

/// What a new opening-book configuration keeps: the current book's name
/// when the same path is configured again, and the current book's path.
pub open spec fn current_book_plan(engines: Seq<EngineView>, id: Seq<char>, requested_path: Seq<char>) -> (
    Option<Seq<char>>,
    Option<Seq<char>>,
) {
    match current_book_of(engines, id) {
        Some(Some(book)) => (if book.0 == requested_path { Some(book.1) } else { None }, Some(book.0)),
        _ => (None, None),
    }
}

/// Whether two engine paths name the same executable: their canonical forms
/// when both resolve, the paths themselves otherwise.
pub open spec fn same_executable(
    existing: Seq<char>,
    candidate: Seq<char>,
    canonical: Option<(Seq<char>, Seq<char>)>,
) -> bool {
    match canonical {
        Some(pair) => pair.0 == pair.1,
        None => existing == candidate,
    }
}

pub open spec fn canonical_views(s: Seq<Option<(String, String)>>) -> Seq<Option<(Seq<char>, Seq<char>)>> {
    s.map_values(
        |c: Option<(String, String)>|
            match c {
                Some(pair) => Some((pair.0@, pair.1@)),
                None => None,
            },
    )
}

/// `i` is the first engine profile whose executable is the candidate's.
pub open spec fn first_same_executable_at(
    engines: Seq<EngineView>,
    candidate: Seq<char>,
    canonical: Seq<Option<(Seq<char>, Seq<char>)>>,
    i: int,
) -> bool {
    &&& 0 <= i < engines.len()
    &&& same_executable(engines[i].1, candidate, canonical[i])
    &&& forall|j: int| 0 <= j < i ==> !same_executable(#[trigger] engines[j].1, candidate, canonical[j])
}

/// Some engine profile's executable is the candidate's.
pub open spec fn executable_registered(
    engines: Seq<EngineView>,
    candidate: Seq<char>,
    canonical: Seq<Option<(Seq<char>, Seq<char>)>>,
) -> bool {
    exists|i: int| 0 <= i < engines.len() && same_executable(#[trigger] engines[i].1, candidate, canonical[i])
}

/// An engine profile with a new probe time and verdict.
pub open spec fn with_probe(e: EngineView, probed_at_ms: Option<u64>, probe_ok: Option<bool>) -> EngineView {
    (e.0, e.1, probed_at_ms, probe_ok, e.4)
}

/// Every account plays with a registered engine profile.
pub open spec fn references_hold(accounts: Seq<AccountView>, engines: Seq<EngineView>) -> bool {
    forall|i: int| 0 <= i < accounts.len() ==> engine_registered(engines, #[trigger] accounts[i].2)
}

/// Replacing a profile by one with the same id keeps every id registered.
proof fn lemma_update_keeps_ids(engines: Seq<EngineView>, i: int, e: EngineView)
    requires
        0 <= i < engines.len(),
        e.0 == engines[i].0,
    ensures
        forall|id: Seq<char>| engine_registered(engines, id) ==> #[trigger] engine_registered(engines.update(i, e), id),
{
    assert forall|id: Seq<char>| engine_registered(engines, id) implies #[trigger] engine_registered(
        engines.update(i, e),
        id,
    ) by {
        let k = choose|k: int| 0 <= k < engines.len() && #[trigger] engines[k].0 == id;
        assert(engines.update(i, e)[k].0 == id);
    }
}

/// Appending a profile keeps every id registered.
proof fn lemma_push_keeps_ids(engines: Seq<EngineView>, e: EngineView)
    ensures
        forall|id: Seq<char>| engine_registered(engines, id) ==> #[trigger] engine_registered(engines.push(e), id),
{
    assert forall|id: Seq<char>| engine_registered(engines, id) implies #[trigger] engine_registered(
        engines.push(e),
        id,
    ) by {
        let k = choose|k: int| 0 <= k < engines.len() && #[trigger] engines[k].0 == id;
        assert(engines.push(e)[k].0 == id);
    }
}

/// What a restarted fleet does with each account: enabled accounts are
/// started; disabled accounts that still hold durable game intent are only
/// reconciled against Lichess.
pub struct ResumePlan {
    pub start: Vec<String>,
    pub reconcile: Vec<String>,
}

/// What a disabled account's reconciliation reports: nothing when Lichess
/// lists no ongoing game for it, else the games the operator must resolve.
pub open spec fn disabled_games_report(ongoing: Seq<Seq<char>>) -> Option<Seq<char>> {
    if ongoing.len() == 0 {
        None
    } else {
        Some(
            "Automation remains disabled, but Lichess still lists ongoing game(s) requiring operator resolution: "@
                + joined(ongoing, ", "@),
        )
    }
}

/// The report on a disabled account whose reconciliation found ongoing
/// games.
pub fn disabled_games_message(ongoing: &Vec<String>) -> (message: Option<String>)
    ensures
        opt_string(message) == disabled_games_report(views(ongoing@)),
{
    if ongoing.len() == 0 {
        return None;
    }
    let mut m = String::from_str(
        "Automation remains disabled, but Lichess still lists ongoing game(s) requiring operator resolution: ",
    );
    let list = join_strings(ongoing, ", ");
    push_str(&mut m, list.as_str());
    Some(m)
}

/// The runtime error of a disabled account whose durable intent could not
/// be reconciled.
pub fn intent_reconcile_failure(error: &str) -> (message: String)
    ensures
        message@ == "Could not reconcile persisted game intent: "@ + error@,
{
    let mut m = String::from_str("Could not reconcile persisted game intent: ");
    push_str(&mut m, error);
    m
}

/// The runtime error of a running account whose games could not be
/// reconciled after a refused runner switch.
pub fn switch_refused_reconcile_failure(error: &str) -> (message: String)
    ensures
        message@ == "Could not reconcile ongoing games after the runner switch was refused: "@ + error@,
{
    let mut m = String::from_str("Could not reconcile ongoing games after the runner switch was refused: ");
    push_str(&mut m, error);
    m
}

impl EngineRecord {
    fn clone_record(&self) -> (c: EngineRecord)
        ensures
            c@ == self@,
    {
        EngineRecord {
            id: self.id.clone(),
            path: self.path.clone(),
            last_probed_at_ms: self.last_probed_at_ms,
            probe_ok: self.probe_ok,
            opening_book: match &self.opening_book {
                Some(b) => Some(BookRef { path: b.path.clone(), name: b.name.clone() }),
                None => None,
            },
        }
    }
}

impl AccountProfile {
    pub fn clone_profile(&self) -> (c: AccountProfile)
        ensures
            c@ == self@,
    {
        AccountProfile {
            id: self.id.clone(),
            username: self.username.clone(),
            engine_id: self.engine_id.clone(),
            rating: self.rating,
            enabled: self.enabled,
        }
    }
}

impl FleetConfig {
    pub open spec fn engines_view(&self) -> Seq<EngineView> {
        engine_views(self.engines@)
    }

    pub open spec fn accounts_view(&self) -> Seq<AccountView> {
        account_views(self.accounts@)
    }

    pub open spec fn campaigns_view(&self) -> Seq<Seq<char>> {
        text_views(self.campaign_accounts@)
    }

    /// Every account plays with a registered engine profile.
    pub open spec fn engines_referenced(&self) -> bool {
        references_hold(self.accounts_view(), self.engines_view())
    }

    fn find_engine(&self, id: &str) -> (found: Option<usize>)
        ensures
            match found {
                Some(i) => first_engine_at(self.engines_view(), id@, i as int),
                None => !engine_registered(self.engines_view(), id@),
            },
    {
        let mut i: usize = 0;
        while i < self.engines.len()
            invariant
                i <= self.engines@.len(),
                forall|j: int| 0 <= j < i ==> #[trigger] self.engines_view()[j].0 != id@,
            decreases self.engines.len() - i,
        {
            if str_eq(self.engines[i].id.as_str(), id) {
                return Some(i);
            }
            i = i + 1;
        }
        None
    }

    fn find_account(&self, id: &str) -> (found: Option<usize>)
        ensures
            match found {
                Some(i) => first_account_at(self.accounts_view(), id@, i as int),
                None => !account_listed(self.accounts_view(), id@),
            },
    {
        let mut i: usize = 0;
        while i < self.accounts.len()
            invariant
                i <= self.accounts@.len(),
                forall|j: int| 0 <= j < i ==> #[trigger] self.accounts_view()[j].0 != id@,
            decreases self.accounts.len() - i,
        {
            if str_eq(self.accounts[i].id.as_str(), id) {
                return Some(i);
            }
            i = i + 1;
        }
        None
    }

    /// Whether some account plays with this engine profile.
    pub fn uses_engine(&self, engine_id: &str) -> (used: bool)
        ensures
            used == engine_in_use(self.accounts_view(), engine_id@),
    {
        let mut i: usize = 0;
        while i < self.accounts.len()
            invariant
                i <= self.accounts@.len(),
                forall|j: int| 0 <= j < i ==> #[trigger] self.accounts_view()[j].2 != engine_id@,
            decreases self.accounts.len() - i,
        {
            if str_eq(self.accounts[i].engine_id.as_str(), engine_id) {
                assert(self.accounts_view()[i as int].2 == engine_id@);
                return true;
            }
            i = i + 1;
        }
        false
    }

    /// The engine profiles other than those with this id, in order.
    fn engines_without(&self, engine_id: &str) -> (kept: Vec<EngineRecord>)
        ensures
            engine_views(kept@) == self.engines_view().filter(|e: EngineView| e.0 != engine_id@),
    {
        let ghost all = self.engines_view();
        let ghost p = |e: EngineView| e.0 != engine_id@;
        let mut kept: Vec<EngineRecord> = Vec::new();
        let mut i: usize = 0;
        while i < self.engines.len()
            invariant
                all == self.engines_view(),
                p == (|e: EngineView| e.0 != engine_id@),
                i <= all.len(),
                engine_views(kept@) == all.subrange(0, i as int).filter(p),
            decreases self.engines.len() - i,
        {
            proof {
                assert(all.subrange(0, i + 1).drop_last() =~= all.subrange(0, i as int));
                assert(all.subrange(0, i + 1).last() == all[i as int]);
            }
            proof {
                assert(all[i as int] == self.engines@[i as int]@);
                assert(p(all[i as int]) == (self.engines@[i as int].id@ != engine_id@));
                let next = all.subrange(0, i + 1);
                reveal(Seq::filter);
                assert(next.filter(p) == if p(next.last()) {
                    next.drop_last().filter(p).push(next.last())
                } else {
                    next.drop_last().filter(p)
                });
            }
            if !str_eq(self.engines[i].id.as_str(), engine_id) {
                let ghost prev = engine_views(kept@);
                kept.push(self.engines[i].clone_record());
                proof {
                    assert(engine_views(kept@) =~= prev.push(all[i as int]));
                }
            }
            i = i + 1;
        }
        proof {
            assert(all.subrange(0, all.len() as int) =~= all);
        }
        kept
    }

    /// Removes an engine profile that no account plays with, and returns the
    /// imported opening book it held, to be dropped from the cache and disk.
    pub fn remove_engine(&mut self, engine_id: &str) -> (result: Result<Option<String>, String>)
        ensures
            match result {
                Err(e) => {
                    &&& *final(self) == *old(self)
                    &&& (engine_in_use(old(self).accounts_view(), engine_id@) || !engine_registered(
                        old(self).engines_view(),
                        engine_id@,
                    ))
                    &&& e@ == if engine_in_use(old(self).accounts_view(), engine_id@) {
                        engine_in_use_message()
                    } else {
                        engine_not_found_message()
                    }
                },
                Ok(book) => {
                    &&& !engine_in_use(old(self).accounts_view(), engine_id@)
                    &&& exists|i: int|
                        first_engine_at(old(self).engines_view(), engine_id@, i) && opt_string(book)
                            == book_path(#[trigger] old(self).engines_view()[i].4)
                    &&& final(self).engines_view() == old(self).engines_view().filter(
                        |e: EngineView| e.0 != engine_id@,
                    )
                    &&& final(self).accounts@ == old(self).accounts@
                    &&& final(self).campaign_accounts@ == old(self).campaign_accounts@
                },
            },
            old(self).engines_referenced() ==> final(self).engines_referenced(),
    {
        if self.uses_engine(engine_id) {
            return Err(String::from_str(
                "Assign another engine to every account using this profile before removing it.",
            ));
        }
        let index = match self.find_engine(engine_id) {
            Some(i) => i,
            None => {
                return Err(String::from_str("Engine profile not found"));
            },
        };
        let book = match &self.engines[index].opening_book {
            Some(b) => Some(b.path.clone()),
            None => None,
        };
        proof {
            assert(self.engines_view()[index as int] == self.engines@[index as int]@);
            assert(opt_string(book) == book_path(self.engines_view()[index as int].4));
        }
        let kept = self.engines_without(engine_id);
        let ghost before = self.engines_view();
        self.engines = kept;
        proof {
            if old(self).engines_referenced() {
                let acc = self.accounts_view();
                let p = |e: EngineView| e.0 != engine_id@;
                assert forall|i: int| 0 <= i < acc.len() implies engine_registered(
                    self.engines_view(),
                    #[trigger] acc[i].2,
                ) by {
                    let id = acc[i].2;
                    assert(engine_registered(before, id));
                    let k = choose|k: int| 0 <= k < before.len() && #[trigger] before[k].0 == id;
                    assert(id != engine_id@);
                    before.lemma_filter_contains(p, k);
                    let j = choose|j: int|
                        0 <= j < before.filter(p).len() && before.filter(p)[j] == before[k];
                    assert(self.engines_view()[j].0 == id);
                }
            }
        }
        Ok(book)
    }

    /// Detaches an engine profile's opening book and returns the imported
    /// copy it held, to be dropped from the cache and disk.
    pub fn clear_opening_book(&mut self, engine_id: &str) -> (result: Result<Option<String>, String>)
        ensures
            match result {
                Err(e) => {
                    &&& *final(self) == *old(self)
                    &&& !engine_registered(old(self).engines_view(), engine_id@)
                    &&& e@ == engine_not_found_message()
                },
                Ok(previous) => exists|i: int|
                    first_engine_at(old(self).engines_view(), engine_id@, i) && opt_string(previous)
                        == book_path(#[trigger] old(self).engines_view()[i].4)
                        && final(self).engines_view() == old(self).engines_view().update(
                        i,
                        (
                            old(self).engines_view()[i].0,
                            old(self).engines_view()[i].1,
                            old(self).engines_view()[i].2,
                            old(self).engines_view()[i].3,
                            None,
                        ),
                    ) && final(self).accounts@ == old(self).accounts@
                        && final(self).campaign_accounts@ == old(self).campaign_accounts@,
            },
            old(self).engines_referenced() ==> final(self).engines_referenced(),
    {
        let index = match self.find_engine(engine_id) {
            Some(i) => i,
            None => {
                return Err(String::from_str("Engine profile not found"));
            },
        };
        let mut record = self.engines[index].clone_record();
        let previous = match &record.opening_book {
            Some(b) => Some(b.path.clone()),
            None => None,
        };
        proof {
            assert(self.engines_view()[index as int] == self.engines@[index as int]@);
            assert(opt_string(previous) == book_path(self.engines_view()[index as int].4));
        }
        record.opening_book = None;
        let ghost before = self.engines_view();
        self.engines.set(index, record);
        proof {
            assert(self.engines_view() =~= before.update(
                index as int,
                (before[index as int].0, before[index as int].1, before[index as int].2, before[index as int].3, None),
            ));
            lemma_update_keeps_ids(
                before,
                index as int,
                (before[index as int].0, before[index as int].1, before[index as int].2, before[index as int].3, None),
            );
        }
        Ok(previous)
    }

    /// What configuring an opening book keeps from the engine profile's
    /// current one: its display name when the same file is configured again,
    /// and its imported path, which the new import replaces.
    pub fn current_book(&self, engine_id: &str, requested_path: &str) -> (kept: (Option<String>, Option<String>))
        ensures
            (opt_string(kept.0), opt_string(kept.1)) == current_book_plan(
                self.engines_view(),
                engine_id@,
                requested_path@,
            ),
    {
        match self.find_engine(engine_id) {
            Some(i) => {
                proof {
                    assert(current_book_of(self.engines_view(), engine_id@) == Some(
                        self.engines_view()[i as int].4,
                    ));
                }
                match &self.engines[i].opening_book {
                    Some(b) => {
                        let name = if str_eq(b.path.as_str(), requested_path) {
                            Some(b.name.clone())
                        } else {
                            None
                        };
                        (name, Some(b.path.clone()))
                    },
                    None => (None, None),
                }
            },
            None => {
                proof {
                    assert(current_book_of(self.engines_view(), engine_id@) == None::<
                        Option<(Seq<char>, Seq<char>)>,
                    >);
                }
                (None, None)
            },
        }
    }

    /// Attaches a freshly imported opening book to an engine profile.
    pub fn attach_opening_book(&mut self, engine_id: &str, book: BookRef) -> (result: Result<(), String>)
        ensures
            match result {
                Err(e) => {
                    &&& *final(self) == *old(self)
                    &&& !engine_registered(old(self).engines_view(), engine_id@)
                    &&& e@ == engine_not_found_message()
                },
                Ok(()) => exists|i: int|
                    first_engine_at(old(self).engines_view(), engine_id@, i)
                        && final(self).engines_view() == old(self).engines_view().update(
                        i,
                        (
                            old(self).engines_view()[i].0,
                            old(self).engines_view()[i].1,
                            old(self).engines_view()[i].2,
                            old(self).engines_view()[i].3,
                            Some((book.path@, book.name@)),
                        ),
                    ) && final(self).accounts@ == old(self).accounts@
                        && final(self).campaign_accounts@ == old(self).campaign_accounts@,
            },
            old(self).engines_referenced() ==> final(self).engines_referenced(),
    {
        let index = match self.find_engine(engine_id) {
            Some(i) => i,
            None => {
                return Err(String::from_str("Engine profile not found"));
            },
        };
        let mut record = self.engines[index].clone_record();
        let ghost new_book = (book.path@, book.name@);
        record.opening_book = Some(book);
        let ghost before = self.engines_view();
        self.engines.set(index, record);
        proof {
            assert(self.engines_view() =~= before.update(
                index as int,
                (before[index as int].0, before[index as int].1, before[index as int].2, before[index as int].3, Some(new_book)),
            ));
            lemma_update_keeps_ids(
                before,
                index as int,
                (before[index as int].0, before[index as int].1, before[index as int].2, before[index as int].3, Some(new_book)),
            );
        }
        Ok(())
    }

    /// The accounts that play with an engine profile, in order.
    pub fn accounts_using(&self, engine_id: &str) -> (ids: Vec<String>)
        ensures
            text_views(ids@) == self.accounts_view().filter(|a: AccountView| a.2 == engine_id@).map_values(
                |a: AccountView| a.0,
            ),
    {
        let ghost all = self.accounts_view();
        let ghost p = |a: AccountView| a.2 == engine_id@;
        let ghost f = |a: AccountView| a.0;
        let mut ids: Vec<String> = Vec::new();
        let mut i: usize = 0;
        while i < self.accounts.len()
            invariant
                all == self.accounts_view(),
                p == (|a: AccountView| a.2 == engine_id@),
                f == (|a: AccountView| a.0),
                i <= all.len(),
                text_views(ids@) == all.subrange(0, i as int).filter(p).map_values(f),
            decreases self.accounts.len() - i,
        {
            proof {
                assert(all.subrange(0, i + 1).drop_last() =~= all.subrange(0, i as int));
                assert(all.subrange(0, i + 1).last() == all[i as int]);
                assert(all[i as int] == self.accounts@[i as int]@);
                let next = all.subrange(0, i + 1);
                reveal(Seq::filter);
                assert(next.filter(p) == if p(next.last()) {
                    next.drop_last().filter(p).push(next.last())
                } else {
                    next.drop_last().filter(p)
                });
            }
            if str_eq(self.accounts[i].engine_id.as_str(), engine_id) {
                let ghost prev = text_views(ids@);
                ids.push(self.accounts[i].id.clone());
                proof {
                    assert(text_views(ids@) =~= prev.push(all[i as int].0));
                    assert(all.subrange(0, i + 1).filter(p).map_values(f) =~= all.subrange(0, i as int).filter(
                        p,
                    ).map_values(f).push(all[i as int].0));
                }
            }
            i = i + 1;
        }
        proof {
            assert(all.subrange(0, all.len() as int) =~= all);
        }
        ids
    }

    /// An engine profile's configuration may change only while no bot that
    /// plays with it runs.
    pub fn ensure_engine_idle(&self, ownership: &Ownership, engine_id: &str) -> (result: Result<(), String>)
        requires
            ownership.wf(),
        ensures
            result is Err <==> exists|i: int|
                0 <= i < self.accounts_view().len() && #[trigger] self.accounts_view()[i].2 == engine_id@
                    && ownership.supervisor_map().dom().contains(self.accounts_view()[i].0),
            result matches Err(e) ==> e@
                == "Stop every bot using this engine before changing its configuration."@,
    {
        let assigned = self.accounts_using(engine_id);
        let result = ownership.ensure_engine_idle(&assigned);
        proof {
            let all = self.accounts_view();
            let p = |a: AccountView| a.2 == engine_id@;
            let f = |a: AccountView| a.0;
            let chosen = all.filter(p);
            assert(text_views(assigned@) == chosen.map_values(f));
            assert(assigned@.len() == chosen.len()) by {
                assert(text_views(assigned@).len() == assigned@.len());
            }
            if result is Err {
                let j = choose|j: int|
                    0 <= j < assigned@.len() && ownership.supervisor_map().dom().contains(
                        #[trigger] assigned@[j]@,
                    );
                assert(text_views(assigned@)[j] == assigned@[j]@);
                all.lemma_filter_pred(p, j);
                assert(chosen.contains(chosen[j]));
                all.lemma_filter_contains_rev(p, chosen[j]);
                let i = choose|i: int| 0 <= i < all.len() && all[i] == chosen[j];
                assert(all[i].2 == engine_id@);
            } else {
                assert forall|i: int|
                    0 <= i < all.len() && #[trigger] all[i].2 == engine_id@ implies !ownership.supervisor_map().dom().contains(
                    all[i].0,
                ) by {
                    all.lemma_filter_contains(p, i);
                    let j = choose|j: int| 0 <= j < chosen.len() && chosen[j] == all[i];
                    assert(text_views(assigned@)[j] == assigned@[j]@);
                }
            }
        }
        result
    }

    /// Points an account at another registered engine profile while its bot
    /// is stopped.
    pub fn update_account_engine(&mut self, ownership: &Ownership, account_id: &str, engine_id: &str) -> (result:
        Result<(), String>)
        requires
            ownership.wf(),
        ensures
            match result {
                Err(e) => {
                    &&& *final(self) == *old(self)
                    &&& e@ == if ownership.supervisor_map().dom().contains(account_id@) {
                        "Stop the bot before changing its engine."@
                    } else if !engine_registered(old(self).engines_view(), engine_id@) {
                        engine_not_found_message()
                    } else {
                        account_not_found_message()
                    }
                    &&& (ownership.supervisor_map().dom().contains(account_id@) || !engine_registered(
                        old(self).engines_view(),
                        engine_id@,
                    ) || !account_listed(old(self).accounts_view(), account_id@))
                },
                Ok(()) => {
                    &&& !ownership.supervisor_map().dom().contains(account_id@)
                    &&& engine_registered(old(self).engines_view(), engine_id@)
                    &&& exists|i: int|
                        first_account_at(old(self).accounts_view(), account_id@, i)
                            && final(self).accounts_view() == old(self).accounts_view().update(
                            i,
                            (
                                old(self).accounts_view()[i].0,
                                old(self).accounts_view()[i].1,
                                engine_id@,
                                old(self).accounts_view()[i].3,
                                #[trigger] old(self).accounts_view()[i].4,
                            ),
                        )
                    &&& final(self).engines@ == old(self).engines@
                    &&& final(self).campaign_accounts@ == old(self).campaign_accounts@
                },
            },
            old(self).engines_referenced() ==> final(self).engines_referenced(),
    {
        if ownership.supervises(account_id) {
            return Err(String::from_str("Stop the bot before changing its engine."));
        }
        if !self.has_engine(engine_id) {
            return Err(String::from_str("Engine profile not found"));
        }
        let index = match self.find_account(account_id) {
            Some(i) => i,
            None => {
                return Err(String::from_str("Lichess account not found"));
            },
        };
        let mut profile = self.accounts[index].clone_profile();
        profile.engine_id = String::from_str(engine_id);
        let ghost before = self.accounts_view();
        self.accounts.set(index, profile);
        proof {
            assert(self.accounts_view() =~= before.update(
                index as int,
                (before[index as int].0, before[index as int].1, engine_id@, before[index as int].3, before[index as int].4),
            ));
            assert(engine_registered(self.engines_view(), engine_id@));
        }
        Ok(())
    }

    fn find_executable(&self, candidate: &str, canonical: &Vec<Option<(String, String)>>) -> (found: Option<usize>)
        requires
            canonical@.len() == self.engines@.len(),
        ensures
            match found {
                Some(i) => first_same_executable_at(
                    self.engines_view(),
                    candidate@,
                    canonical_views(canonical@),
                    i as int,
                ),
                None => !executable_registered(self.engines_view(), candidate@, canonical_views(canonical@)),
            },
    {
        let ghost c = canonical_views(canonical@);
        let mut i: usize = 0;
        while i < self.engines.len()
            invariant
                canonical@.len() == self.engines@.len(),
                c == canonical_views(canonical@),
                i <= self.engines@.len(),
                forall|j: int|
                    0 <= j < i ==> !same_executable(#[trigger] self.engines_view()[j].1, candidate@, c[j]),
            decreases self.engines.len() - i,
        {
            let pair = match &canonical[i] {
                Some(p) => Some((p.0.clone(), p.1.clone())),
                None => None,
            };
            proof {
                assert(self.engines_view()[i as int] == self.engines@[i as int]@);
            }
            if crate::game::same_engine_executable(self.engines[i].path.as_str(), candidate, pair) {
                return Some(i);
            }
            i = i + 1;
        }
        None
    }

    fn set_probe(&mut self, index: usize, probed_at_ms: Option<u64>, probe_ok: Option<bool>)
        requires
            index < old(self).engines@.len(),
        ensures
            final(self).engines_view() == old(self).engines_view().update(
                index as int,
                with_probe(old(self).engines_view()[index as int], probed_at_ms, probe_ok),
            ),
            final(self).accounts@ == old(self).accounts@,
            final(self).campaign_accounts@ == old(self).campaign_accounts@,
            old(self).engines_referenced() ==> final(self).engines_referenced(),
    {
        let mut record = self.engines[index].clone_record();
        record.last_probed_at_ms = probed_at_ms;
        record.probe_ok = probe_ok;
        let ghost before = self.engines_view();
        self.engines.set(index, record);
        proof {
            assert(self.engines_view() =~= before.update(
                index as int,
                with_probe(before[index as int], probed_at_ms, probe_ok),
            ));
            lemma_update_keeps_ids(before, index as int, with_probe(before[index as int], probed_at_ms, probe_ok));
        }
    }

    /// Records a probe of an executable on the first registered profile that
    /// names the same executable, and reports whether one did. `canonical`
    /// holds, for each profile, the canonical forms of its executable and of
    /// the candidate when both resolve.
    pub fn record_probe(
        &mut self,
        candidate: &str,
        canonical: &Vec<Option<(String, String)>>,
        probed_at_ms: Option<u64>,
        probe_ok: Option<bool>,
    ) -> (found: bool)
        requires
            canonical@.len() == old(self).engines@.len(),
        ensures
            found == executable_registered(old(self).engines_view(), candidate@, canonical_views(canonical@)),
            found ==> exists|i: int|
                first_same_executable_at(old(self).engines_view(), candidate@, canonical_views(canonical@), i)
                    && final(self).engines_view() == old(self).engines_view().update(
                    i,
                    with_probe(#[trigger] old(self).engines_view()[i], probed_at_ms, probe_ok),
                ),
            !found ==> *final(self) == *old(self),
            final(self).accounts@ == old(self).accounts@,
            final(self).campaign_accounts@ == old(self).campaign_accounts@,
            old(self).engines_referenced() ==> final(self).engines_referenced(),
    {
        match self.find_executable(candidate, canonical) {
            Some(i) => {
                self.set_probe(i, probed_at_ms, probe_ok);
                true
            },
            None => false,
        }
    }

    /// Registers a probed engine profile, unless a registered one names the
    /// same executable: that one then takes the new probe's time and verdict
    /// and the registration is refused.
    pub fn register_probed_engine(&mut self, profile: EngineRecord, canonical: &Vec<Option<(String, String)>>) -> (result:
        Result<(), String>)
        requires
            canonical@.len() == old(self).engines@.len(),
        ensures
            result is Err <==> executable_registered(
                old(self).engines_view(),
                profile.path@,
                canonical_views(canonical@),
            ),
            match result {
                Err(e) => {
                    &&& e@ == "That engine executable is already registered."@
                    &&& exists|i: int|
                        first_same_executable_at(
                            old(self).engines_view(),
                            profile.path@,
                            canonical_views(canonical@),
                            i,
                        ) && final(self).engines_view() == old(self).engines_view().update(
                            i,
                            with_probe(
                                #[trigger] old(self).engines_view()[i],
                                profile.last_probed_at_ms,
                                profile.probe_ok,
                            ),
                        )
                },
                Ok(()) => final(self).engines_view() == old(self).engines_view().push(profile@),
            },
            final(self).accounts@ == old(self).accounts@,
            final(self).campaign_accounts@ == old(self).campaign_accounts@,
            old(self).engines_referenced() ==> final(self).engines_referenced(),
    {
        let found = self.record_probe(profile.path.as_str(), canonical, profile.last_probed_at_ms, profile.probe_ok);
        if found {
            return Err(String::from_str("That engine executable is already registered."));
        }
        let ghost before = self.engines_view();
        self.engines.push(profile);
        proof {
            assert(self.engines_view() =~= before.push(profile@));
            lemma_push_keeps_ids(before, profile@);
        }
        Ok(())
    }

    /// Records a probe on the first engine profile with this id.
    pub fn record_probe_of(&mut self, engine_id: &str, probed_at_ms: Option<u64>, probe_ok: Option<bool>) -> (result:
        Result<(), String>)
        ensures
            match result {
                Err(e) => {
                    &&& *final(self) == *old(self)
                    &&& !engine_registered(old(self).engines_view(), engine_id@)
                    &&& e@ == engine_not_found_message()
                },
                Ok(()) => exists|i: int|
                    first_engine_at(old(self).engines_view(), engine_id@, i)
                        && final(self).engines_view() == old(self).engines_view().update(
                        i,
                        with_probe(#[trigger] old(self).engines_view()[i], probed_at_ms, probe_ok),
                    ),
            },
            final(self).accounts@ == old(self).accounts@,
            final(self).campaign_accounts@ == old(self).campaign_accounts@,
            old(self).engines_referenced() ==> final(self).engines_referenced(),
    {
        match self.find_engine(engine_id) {
            Some(i) => {
                self.set_probe(i, probed_at_ms, probe_ok);
                Ok(())
            },
            None => Err(String::from_str("Engine profile not found")),
        }
    }

    /// Checks a request to add an account before its token is sent to
    /// Lichess, and returns the token without surrounding white space.
    pub fn check_new_account(&self, token: &str, engine_id: &str) -> (result: Result<String, String>)
        ensures
            match result {
                Ok(t) => t@ == trimmed(token@) && trimmed(token@).len() > 0 && engine_registered(
                    self.engines_view(),
                    engine_id@,
                ),
                Err(e) => e@ == if trimmed(token@).len() == 0 {
                    "Enter a Lichess API token."@
                } else {
                    "Select a registered engine profile."@
                } && (trimmed(token@).len() == 0 || !engine_registered(self.engines_view(), engine_id@)),
            },
    {
        let chars = trim_chars(token);
        if chars.len() == 0 {
            return Err(String::from_str("Enter a Lichess API token."));
        }
        if !self.has_engine(engine_id) {
            return Err(String::from_str("Select a registered engine profile."));
        }
        Ok(crate::text::string_from_chars(chars.as_slice()))
    }

    /// Stores a validated account: a new one is appended as given; a known
    /// one is replaced, keeping whether its bot is enabled. Returns the
    /// account as stored.
    pub fn upsert_account(&mut self, account: AccountProfile) -> (stored: AccountProfile)
        ensures
            if account_listed(old(self).accounts_view(), account.id@) {
                exists|i: int|
                    first_account_at(old(self).accounts_view(), account.id@, i) && stored@ == (
                        account.id@,
                        account.username@,
                        account.engine_id@,
                        account.rating,
                        #[trigger] old(self).accounts_view()[i].4,
                    ) && final(self).accounts_view() == old(self).accounts_view().update(i, stored@)
            } else {
                stored@ == account@ && final(self).accounts_view() == old(self).accounts_view().push(
                    account@,
                )
            },
            final(self).engines@ == old(self).engines@,
            final(self).campaign_accounts@ == old(self).campaign_accounts@,
            old(self).engines_referenced() && engine_registered(old(self).engines_view(), account.engine_id@)
                ==> final(self).engines_referenced(),
    {
        let ghost before = self.accounts_view();
        let ghost acc = account@;
        match self.find_account(account.id.as_str()) {
            Some(i) => {
                let mut replacement = account;
                replacement.enabled = self.accounts[i].enabled;
                let stored = replacement.clone_profile();
                self.accounts.set(i, replacement);
                proof {
                    assert(before[i as int] == old(self).accounts@[i as int]@);
                    assert(stored@ == (acc.0, acc.1, acc.2, acc.3, before[i as int].4));
                    assert(first_account_at(before, acc.0, i as int));
                    assert(self.accounts_view() =~= before.update(i as int, stored@));
                    if old(self).engines_referenced() && engine_registered(self.engines_view(), acc.2) {
                        assert forall|k: int| 0 <= k < self.accounts_view().len() implies engine_registered(
                            self.engines_view(),
                            #[trigger] self.accounts_view()[k].2,
                        ) by {
                            if k != i {
                                assert(self.accounts_view()[k] == before[k]);
                            }
                        }
                    }
                }
                stored
            },
            None => {
                let stored = account.clone_profile();
                self.accounts.push(account);
                proof {
                    assert(self.accounts_view() =~= before.push(stored@));
                    if old(self).engines_referenced() && engine_registered(self.engines_view(), acc.2) {
                        assert forall|k: int| 0 <= k < self.accounts_view().len() implies engine_registered(
                            self.engines_view(),
                            #[trigger] self.accounts_view()[k].2,
                        ) by {
                            if k < before.len() {
                                assert(self.accounts_view()[k] == before[k]);
                            }
                        }
                    }
                }
                stored
            },
        }
    }

    /// Forgets an account and its campaign; its bot is stopped and its token
    /// deleted before.
    pub fn remove_account(&mut self, account_id: &str)
        ensures
            final(self).accounts_view() == old(self).accounts_view().filter(|a: AccountView| a.0 != account_id@),
            final(self).campaigns_view() == old(self).campaigns_view().filter(|c: Seq<char>| c != account_id@),
            final(self).engines@ == old(self).engines@,
            old(self).engines_referenced() ==> final(self).engines_referenced(),
    {
        let ghost all = self.accounts_view();
        let ghost p = |a: AccountView| a.0 != account_id@;
        let mut kept: Vec<AccountProfile> = Vec::new();
        let mut i: usize = 0;
        while i < self.accounts.len()
            invariant
                all == self.accounts_view(),
                p == (|a: AccountView| a.0 != account_id@),
                i <= all.len(),
                account_views(kept@) == all.subrange(0, i as int).filter(p),
            decreases self.accounts.len() - i,
        {
            proof {
                assert(all.subrange(0, i + 1).drop_last() =~= all.subrange(0, i as int));
                assert(all.subrange(0, i + 1).last() == all[i as int]);
                assert(all[i as int] == self.accounts@[i as int]@);
                let next = all.subrange(0, i + 1);
                reveal(Seq::filter);
                assert(next.filter(p) == if p(next.last()) {
                    next.drop_last().filter(p).push(next.last())
                } else {
                    next.drop_last().filter(p)
                });
            }
            if !str_eq(self.accounts[i].id.as_str(), account_id) {
                let ghost prev = account_views(kept@);
                kept.push(self.accounts[i].clone_profile());
                proof {
                    assert(account_views(kept@) =~= prev.push(all[i as int]));
                }
            }
            i = i + 1;
        }
        proof {
            assert(all.subrange(0, all.len() as int) =~= all);
        }
        let ghost camps = self.campaigns_view();
        let ghost q = |c: Seq<char>| c != account_id@;
        let mut kept_campaigns: Vec<String> = Vec::new();
        let mut k: usize = 0;
        while k < self.campaign_accounts.len()
            invariant
                camps == self.campaigns_view(),
                q == (|c: Seq<char>| c != account_id@),
                k <= camps.len(),
                text_views(kept_campaigns@) == camps.subrange(0, k as int).filter(q),
            decreases self.campaign_accounts.len() - k,
        {
            proof {
                assert(camps.subrange(0, k + 1).drop_last() =~= camps.subrange(0, k as int));
                assert(camps.subrange(0, k + 1).last() == camps[k as int]);
                assert(camps[k as int] == self.campaign_accounts@[k as int]@);
                let next = camps.subrange(0, k + 1);
                reveal(Seq::filter);
                assert(next.filter(q) == if q(next.last()) {
                    next.drop_last().filter(q).push(next.last())
                } else {
                    next.drop_last().filter(q)
                });
            }
            if !str_eq(self.campaign_accounts[k].as_str(), account_id) {
                let ghost prev = text_views(kept_campaigns@);
                kept_campaigns.push(self.campaign_accounts[k].clone());
                proof {
                    assert(text_views(kept_campaigns@) =~= prev.push(camps[k as int]));
                }
            }
            k = k + 1;
        }
        proof {
            assert(camps.subrange(0, camps.len() as int) =~= camps);
        }
        self.accounts = kept;
        self.campaign_accounts = kept_campaigns;
        proof {
            if old(self).engines_referenced() {
                let now = self.accounts_view();
                assert forall|k: int| 0 <= k < now.len() implies engine_registered(
                    self.engines_view(),
                    #[trigger] now[k].2,
                ) by {
                    assert(all.filter(p).contains(now[k]));
                    all.lemma_filter_contains_rev(p, now[k]);
                    let m = choose|m: int| 0 <= m < all.len() && all[m] == now[k];
                    assert(engine_registered(self.engines_view(), all[m].2));
                }
            }
        }
    }

    /// The engine profile a running account plays with, as an index into
    /// `engines`.
    pub fn engine_of_account(&self, engine_id: &str) -> (found: Result<usize, String>)
        ensures
            match found {
                Ok(i) => first_engine_at(self.engines_view(), engine_id@, i as int),
                Err(e) => !engine_registered(self.engines_view(), engine_id@)
                    && e@ == "The account's engine profile no longer exists"@,
            },
    {
        match self.find_engine(engine_id) {
            Some(i) => Ok(i),
            None => Err(String::from_str("The account's engine profile no longer exists")),
        }
    }

    /// Which accounts a restarted fleet starts, and which disabled accounts
    /// it only reconciles because they still hold durable game intent; both
    /// in the configuration's order.
    pub fn resume_plan(&self, ownership: &Ownership) -> (plan: ResumePlan)
        ensures
            views(plan.start@) == self.accounts_view().filter(|a: AccountView| a.4).map_values(
                |a: AccountView| a.0,
            ),
            views(plan.reconcile@) == self.accounts_view().filter(
                |a: AccountView| !a.4 && intent_games(ownership.active_intents@, a.0).len() > 0,
            ).map_values(|a: AccountView| a.0),
    {
        let ghost all = self.accounts_view();
        let ghost p = |a: AccountView| a.4;
        let ghost q = |a: AccountView| !a.4 && intent_games(ownership.active_intents@, a.0).len() > 0;
        let ghost f = |a: AccountView| a.0;
        let mut start: Vec<String> = Vec::new();
        let mut reconcile: Vec<String> = Vec::new();
        let mut i: usize = 0;
        while i < self.accounts.len()
            invariant
                all == self.accounts_view(),
                p == (|a: AccountView| a.4),
                q == (|a: AccountView| !a.4 && intent_games(ownership.active_intents@, a.0).len() > 0),
                f == (|a: AccountView| a.0),
                i <= all.len(),
                views(start@) == all.subrange(0, i as int).filter(p).map_values(f),
                views(reconcile@) == all.subrange(0, i as int).filter(q).map_values(f),
            decreases self.accounts.len() - i,
        {
            proof {
                let next = all.subrange(0, i + 1);
                assert(next.drop_last() =~= all.subrange(0, i as int));
                assert(next.last() == all[i as int]);
                assert(all[i as int] == self.accounts@[i as int]@);
                reveal(Seq::filter);
                assert(next.filter(p) == if p(next.last()) {
                    next.drop_last().filter(p).push(next.last())
                } else {
                    next.drop_last().filter(p)
                });
                assert(next.filter(q) == if q(next.last()) {
                    next.drop_last().filter(q).push(next.last())
                } else {
                    next.drop_last().filter(q)
                });
            }
            if self.accounts[i].enabled {
                let ghost prev = views(start@);
                start.push(self.accounts[i].id.clone());
                proof {
                    assert(views(start@) =~= prev.push(all[i as int].0));
                    assert(all.subrange(0, i + 1).filter(p).map_values(f) =~= all.subrange(0, i as int).filter(
                        p,
                    ).map_values(f).push(all[i as int].0));
                }
            } else {
                let intents = ownership.intent_games_of(self.accounts[i].id.as_str());
                if intents.len() > 0 {
                    let ghost prev = views(reconcile@);
                    reconcile.push(self.accounts[i].id.clone());
                    proof {
                        assert(views(intents@).len() == intents@.len());
                        assert(views(reconcile@) =~= prev.push(all[i as int].0));
                        assert(all.subrange(0, i + 1).filter(q).map_values(f) =~= all.subrange(
                            0,
                            i as int,
                        ).filter(q).map_values(f).push(all[i as int].0));
                    }
                } else {
                    proof {
                        assert(views(intents@).len() == intents@.len());
                    }
                }
            }
            i = i + 1;
        }
        proof {
            assert(all.subrange(0, all.len() as int) =~= all);
        }
        ResumePlan { start, reconcile }
    }

    /// Whether an engine profile with this id is registered.
    pub fn has_engine(&self, engine_id: &str) -> (registered: bool)
        ensures
            registered == engine_registered(self.engines_view(), engine_id@),
    {
        match self.find_engine(engine_id) {
            Some(i) => {
                assert(self.engines_view()[i as int].0 == engine_id@);
                true
            },
            None => false,
        }
    }
}

/// Forgets an account whose bot has been stopped: its token is deleted
/// first, and only once that succeeded are the outgoing challenges it owns
/// and its profile and campaign dropped. A failed deletion changes nothing
/// else. Whether the store deletes is the store's to decide, so a refusal
/// is possible on any input; what the store's refusal says is passed on
/// unchanged by `forget_removed_account`.
pub fn remove_lichess_account<S: SecretStore>(
    config: &mut FleetConfig,
    ownership: &mut Ownership,
    secrets: &mut S,
    account_id: &str,
) -> (result: Result<(), String>)
    requires
        old(ownership).wf(),
    ensures
        final(ownership).wf(),
        match result {
            Err(_) => *final(config) == *old(config) && *final(ownership) == *old(ownership),
            Ok(()) => {
                &&& final(config).accounts_view() == old(config).accounts_view().filter(
                    |a: AccountView| a.0 != account_id@,
                )
                &&& final(config).campaigns_view() == old(config).campaigns_view().filter(
                    |c: Seq<char>| c != account_id@,
                )
                &&& final(config).engines@ == old(config).engines@
                &&& forall|k: (Seq<char>, Seq<char>)| #[trigger]
                    final(ownership).known_map().dom().contains(k) == (old(ownership).known_map().dom().contains(k)
                        && k.0 != account_id@)
                &&& final(ownership).uncertain_map() == old(ownership).uncertain_map().remove(account_id@)
                &&& final(ownership).supervisors@ == old(ownership).supervisors@
                &&& final(ownership).active_intents@ == old(ownership).active_intents@
            },
        },
        old(config).engines_referenced() ==> final(config).engines_referenced(),
        result is Ok ==> !final(secrets).holds(account_id@),
        result is Err ==> final(secrets).holds(account_id@) == old(secrets).holds(account_id@),
        forall|other: Seq<char>|
            other != account_id@ ==> #[trigger] final(secrets).holds(other) == old(secrets).holds(other),
{
    let deleted = secrets.delete(account_id);
    forget_removed_account(config, ownership, deleted, account_id)
}

/// What removing an account does once the token store has answered the
/// deletion of its token: a refusal is passed on and changes nothing; after
/// a deletion the outgoing challenges the account owns and its profile and
/// campaign are dropped.
pub fn forget_removed_account(
    config: &mut FleetConfig,
    ownership: &mut Ownership,
    deleted: Result<(), String>,
    account_id: &str,
) -> (result: Result<(), String>)
    requires
        old(ownership).wf(),
    ensures
        final(ownership).wf(),
        match deleted {
            Err(e) => {
                &&& result matches Err(r) && r@ == e@
                &&& *final(config) == *old(config)
                &&& *final(ownership) == *old(ownership)
            },
            Ok(()) => {
                &&& result is Ok
                &&& final(config).accounts_view() == old(config).accounts_view().filter(
                    |a: AccountView| a.0 != account_id@,
                )
                &&& final(config).campaigns_view() == old(config).campaigns_view().filter(
                    |c: Seq<char>| c != account_id@,
                )
                &&& final(config).engines@ == old(config).engines@
                &&& forall|k: (Seq<char>, Seq<char>)| #[trigger]
                    final(ownership).known_map().dom().contains(k) == (old(ownership).known_map().dom().contains(k)
                        && k.0 != account_id@)
                &&& final(ownership).uncertain_map() == old(ownership).uncertain_map().remove(account_id@)
                &&& final(ownership).supervisors@ == old(ownership).supervisors@
                &&& final(ownership).active_intents@ == old(ownership).active_intents@
            },
        },
        old(config).engines_referenced() ==> final(config).engines_referenced(),
{
    match deleted {
        Err(e) => Err(e),
        Ok(()) => {
            ownership.clear_account_challenge_ownership(account_id);
            config.remove_account(account_id);
            Ok(())
        },
    }
}

} // verus!
