//! Where the application keeps its state on disk, the records it persists
//! for crash recovery, and the token stores.
use vstd::prelude::*;
use crate::text::{push_char, push_str, str_eq};

verus! {

pub const CONFIG_FILE: &'static str = "queenui.json";

pub const AUTHORITY_LOCK_FILE: &'static str = ".queenui-authority.lock";

pub const ACTIVE_GAME_INTENTS_FILE: &'static str = "active-games.json";

pub const UNCERTAIN_CHALLENGE_CREATIONS_FILE: &'static str = "uncertain-challenge-creations.json";

/// The largest recovery-state file that is read back.
pub const RECOVERY_STATE_MAX_BYTES: u64 = 262_144;

/// A relative name joined onto a directory path: the name alone under an
/// empty directory, without a second separator after a trailing one.
pub open spec fn joined_path(dir: Seq<char>, name: Seq<char>) -> Seq<char> {
    if dir.len() == 0 {
        name
    } else if dir.last() == '/' {
        dir + name
    } else {
        dir + seq!['/'] + name
    }
}

/// Joins a relative file name onto a directory path.
pub fn join_path(dir: &str, name: &str) -> (path: String)
    ensures
        path@ == joined_path(dir@, name@),
{
    let n = dir.unicode_len();
    let mut path = String::from_str(dir);
    if n > 0 && dir.get_char(n - 1) != '/' {
        push_char(&mut path, '/');
    }
    push_str(&mut path, name);
    proof {
        if n > 0 {
            assert(dir@.last() == dir@[n - 1]);
        }
    }
    path
}

/// The file of durable active-game intents under a data directory.
pub fn active_game_intents_path(data_dir: &str) -> (path: String)
    ensures
        path@ == joined_path(data_dir@, ACTIVE_GAME_INTENTS_FILE@),
{
    join_path(data_dir, ACTIVE_GAME_INTENTS_FILE)
}

/// The file of durable uncertain challenge creations under a data directory.
pub fn uncertain_challenge_creations_path(data_dir: &str) -> (path: String)
    ensures
        path@ == joined_path(data_dir@, UNCERTAIN_CHALLENGE_CREATIONS_FILE@),
{
    join_path(data_dir, UNCERTAIN_CHALLENGE_CREATIONS_FILE)
}

/// The configuration file under an application data directory.
pub fn config_path(app_data_dir: &str) -> (path: String)
    ensures
        path@ == joined_path(app_data_dir@, CONFIG_FILE@),
{
    join_path(app_data_dir, CONFIG_FILE)
}

/// Refuses a recovery-state file larger than the limit, naming what it
/// holds in the error.
pub fn check_recovery_state_size(len: u64, what: &str) -> (result: Result<(), String>)
    ensures
        len <= RECOVERY_STATE_MAX_BYTES <==> result is Ok,
        result matches Err(e) ==> e@ == what@ + " recovery state exceeds 256 KiB"@,
{
    if len > RECOVERY_STATE_MAX_BYTES {
        let mut message = String::from_str(what);
        push_str(&mut message, " recovery state exceeds 256 KiB");
        Err(message)
    } else {
        Ok(())
    }
}

/// The components of a path between its slashes.
pub open spec fn path_components(s: Seq<char>) -> Seq<Seq<char>> {
    crate::engine_store::split_slash(s)
}

/// Why a PGN export path is refused, if it is: it must end in `.pgn` (in
/// any ASCII case) and be absolute without `..` segments.
pub open spec fn pgn_path_refusal(path: Seq<char>) -> Option<Seq<char>> {
    let lower = crate::text::lower_seq(path);
    if !(lower.len() >= 4 && lower.subrange(lower.len() - 4, lower.len() as int) == ".pgn"@) {
        Some("Choose a file with the .pgn extension."@)
    } else if path[0] != '/' || path_components(path).contains(".."@) {
        Some("Choose an absolute PGN path without \"..\" segments."@)
    } else {
        None
    }
}

/// Checks where a PGN export may be written before the file is created.
pub fn check_pgn_path(path: &str) -> (result: Result<(), String>)
    ensures
        match pgn_path_refusal(path@) {
            Some(message) => result matches Err(e) && e@ == message,
            None => result is Ok,
        },
{
    let chars = crate::text::chars_of(path);
    let lower = crate::text::lower_chars(&chars);
    let n = lower.len();
    let suffix = crate::text::chars_of(".pgn");
    proof {
        reveal_strlit(".pgn");
    }
    if n < 4 || !crate::text::occurs_at_exec(&lower, &suffix, n - 4) {
        proof {
            if n >= 4 {
                assert(!crate::text::occurs_at(lower@, suffix@, n - 4));
            }
        }
        return Err(String::from_str("Choose a file with the .pgn extension."));
    }
    proof {
        assert(crate::text::occurs_at(lower@, suffix@, n - 4));
        assert(lower@.subrange(n - 4, n as int) == ".pgn"@);
        let l = crate::text::lower_seq(path@);
        assert(l.len() >= 4 && l.subrange(l.len() - 4, l.len() as int) == ".pgn"@);
    }
    if chars[0] != '/' {
        return Err(String::from_str("Choose an absolute PGN path without \"..\" segments."));
    }
    let parts = crate::engine_store::split_components(&chars);
    let mut i: usize = 0;
    while i < parts.len()
        invariant
            i <= parts@.len(),
            crate::order::views(parts@) == path_components(path@),
            chars@ == path@,
            forall|j: int| 0 <= j < i ==> parts@[j]@ != ".."@,
            ({
                let l = crate::text::lower_seq(path@);
                l.len() >= 4 && l.subrange(l.len() - 4, l.len() as int) == ".pgn"@
            }),
        decreases parts.len() - i,
    {
        if crate::text::str_eq(parts[i].as_str(), "..") {
            proof {
                assert(crate::order::views(parts@)[i as int] == ".."@);
                assert(path_components(path@).contains(".."@));
            }
            return Err(String::from_str("Choose an absolute PGN path without \"..\" segments."));
        }
        i = i + 1;
    }
    proof {
        if path_components(path@).contains(".."@) {
            let j = choose|j: int| 0 <= j < path_components(path@).len() && path_components(path@)[j] == ".."@;
            assert(crate::order::views(parts@)[j] == parts@[j]@);
        }
    }
    Ok(())
}

/// A game the bot has started and not yet seen finish; kept on disk so a
/// restart reconciles it.
pub struct ActiveGameIntent {
    pub account_id: String,
    pub game_id: String,
}

/// A challenge POST whose outcome is unknown; kept on disk so no second
/// challenge is sent until it has been reconciled.
pub struct UncertainChallengeCreation {
    pub account_id: String,
    pub opponent: String,
}

impl Clone for ActiveGameIntent {
    fn clone(&self) -> (c: Self)
        ensures
            c.account_id@ == self.account_id@,
            c.game_id@ == self.game_id@,
    {
        ActiveGameIntent { account_id: self.account_id.clone(), game_id: self.game_id.clone() }
    }
}

impl Clone for UncertainChallengeCreation {
    fn clone(&self) -> (c: Self)
        ensures
            c.account_id@ == self.account_id@,
            c.opponent@ == self.opponent@,
    {
        UncertainChallengeCreation {
            account_id: self.account_id.clone(),
            opponent: self.opponent.clone(),
        }
    }
}

/// An account id that may name a token file: non-empty, ASCII letters,
/// digits, `_` and `-` only.
pub open spec fn token_name_char(c: char) -> bool {
    ('a' <= c && c <= 'z') || ('A' <= c && c <= 'Z') || ('0' <= c && c <= '9') || c == '_'
        || c == '-'
}

pub open spec fn valid_token_account(id: Seq<char>) -> bool {
    id.len() > 0 && forall|i: int| 0 <= i < id.len() ==> token_name_char(#[trigger] id[i])
}

/// Whether an account id may name a token file.
pub fn is_valid_token_account(id: &str) -> (valid: bool)
    ensures
        valid == valid_token_account(id@),
{
    let n = id.unicode_len();
    if n == 0 {
        return false;
    }
    let mut i: usize = 0;
    while i < n
        invariant
            n == id@.len(),
            i <= n,
            forall|j: int| 0 <= j < i ==> token_name_char(#[trigger] id@[j]),
        decreases n - i,
    {
        let c = id.get_char(i);
        if !(('a' <= c && c <= 'z') || ('A' <= c && c <= 'Z') || ('0' <= c && c <= '9') || c == '_'
            || c == '-') {
            return false;
        }
        i = i + 1;
    }
    true
}

/// Token persistence, supplied by the host so the runtime is not tied to
/// one secret service.
pub trait SecretStore {
    /// Whether the store holds a token for the account.
    spec fn holds(&self, account_id: Seq<char>) -> bool;

    fn store(&mut self, account_id: &str, token: &str) -> Result<(), String>;

    fn get(&self, account_id: &str) -> Result<String, String>;

    /// Deletes the account's token. After a deletion the store holds none
    /// for it; a refused deletion leaves it as it was; the tokens of other
    /// accounts are untouched either way.
    fn delete(&mut self, account_id: &str) -> (result: Result<(), String>)
        ensures
            result is Ok ==> !final(self).holds(account_id@),
            result is Err ==> final(self).holds(account_id@) == old(self).holds(account_id@),
            forall|other: Seq<char>|
                other != account_id@ ==> #[trigger] final(self).holds(other) == old(self).holds(other),
    ;
}

/// The token store of a headless runner: one file per account under a
/// directory that only the service user can read.
pub struct FileSecretStore {
    pub directory: String,
}

impl FileSecretStore {
    pub fn new(directory: String) -> (store: Self)
        ensures
            store.directory@ == directory@,
    {
        FileSecretStore { directory }
    }

    /// The token file of an account, refused for an id that could escape
    /// the directory or name an unexpected file.
    pub fn path(&self, account_id: &str) -> (path: Result<String, String>)
        ensures
            valid_token_account(account_id@) ==> (path matches Ok(p) && p@ == joined_path(
                self.directory@,
                account_id@ + ".token"@,
            )),
            !valid_token_account(account_id@) ==> (path matches Err(e) && e@
                == "Invalid account id for token storage"@),
    {
        if !is_valid_token_account(account_id) {
            return Err(String::from_str("Invalid account id for token storage"));
        }
        let mut name = String::from_str(account_id);
        push_str(&mut name, ".token");
        Ok(join_path(self.directory.as_str(), name.as_str()))
    }
}

/// A token as read back from its file: without surrounding white space.
pub fn token_from_file(contents: &str) -> (token: String)
    ensures
        token@ == crate::challenge::trimmed(contents@),
{
    let chars = crate::challenge::trim_chars(contents);
    crate::text::string_from_chars(chars.as_slice())
}

/// The error when a token file cannot be read.
pub fn token_read_failure(detail: &str) -> (message: String)
    ensures
        message@ == "Could not read the Lichess token: "@ + detail@,
{
    let mut message = String::from_str("Could not read the Lichess token: ");
    push_str(&mut message, detail);
    message
}

/// How removing a token file went.
pub enum TokenFileRemoval {
    Removed,
    /// There was no file: the account held no token.
    NotFound,
    Failed(String),
}

/// The outcome of deleting a token file: a file that was already gone
/// counts as deleted.
pub fn token_deletion(removal: TokenFileRemoval) -> (result: Result<(), String>)
    ensures
        match removal {
            TokenFileRemoval::Failed(detail) => result matches Err(e) && e@
                == "Could not delete the Lichess token: "@ + detail@,
            _ => result is Ok,
        },
{
    match removal {
        TokenFileRemoval::Failed(detail) => {
            let mut message = String::from_str("Could not delete the Lichess token: ");
            push_str(&mut message, detail.as_str());
            Err(message)
        },
        _ => Ok(()),
    }
}

/// The message of the platform store where no credential manager exists.
pub const PLATFORM_STORE_UNAVAILABLE: &'static str =
    "Lichess tokens are stored in Windows Credential Manager. Run QueenUI on Windows.";

/// Stores a token in the platform credential manager; this platform has
/// none, so storing is refused.
pub fn store_token(account_id: &str, token: &str) -> (result: Result<(), String>)
    ensures
        result matches Err(e) && e@ == PLATFORM_STORE_UNAVAILABLE@,
{
    Err(String::from_str(PLATFORM_STORE_UNAVAILABLE))
}

/// Reads a token from the platform credential manager; this platform has
/// none, so reading is refused.
pub fn get_token(account_id: &str) -> (result: Result<String, String>)
    ensures
        result matches Err(e) && e@ == PLATFORM_STORE_UNAVAILABLE@,
{
    Err(String::from_str(PLATFORM_STORE_UNAVAILABLE))
}

/// Deletes a token from the platform credential manager; with none on this
/// platform there is nothing to delete.
pub fn delete_token(account_id: &str) -> (result: Result<(), String>)
    ensures
        result is Ok,
{
    Ok(())
}

/// The platform credential manager.
pub struct PlatformSecretStore;

impl SecretStore for PlatformSecretStore {
    /// Tokens are never stored on this platform.
    open spec fn holds(&self, account_id: Seq<char>) -> bool {
        false
    }

    fn store(&mut self, account_id: &str, token: &str) -> (result: Result<(), String>)
        ensures
            result matches Err(e) && e@ == PLATFORM_STORE_UNAVAILABLE@,
    {
        store_token(account_id, token)
    }

    fn get(&self, account_id: &str) -> (result: Result<String, String>)
        ensures
            result matches Err(e) && e@ == PLATFORM_STORE_UNAVAILABLE@,
    {
        get_token(account_id)
    }

    fn delete(&mut self, account_id: &str) -> (result: Result<(), String>)
        ensures
            result is Ok,
    {
        delete_token(account_id)
    }
}

/// An in-memory token store for tests, which can be told to fail deletes.
pub struct MemorySecretStore {
    pub values: Vec<(String, String)>,
    pub fail_delete: Option<String>,
}

/// The token an in-memory store holds for an account.
pub open spec fn memory_lookup(values: Seq<(String, String)>, account_id: Seq<char>) -> Option<Seq<char>>
    decreases values.len(),
{
    if values.len() == 0 {
        None
    } else if values.last().0@ == account_id {
        Some(values.last().1@)
    } else {
        memory_lookup(values.drop_last(), account_id)
    }
}

impl MemorySecretStore {
    /// A store holding one token.
    pub fn with(account_id: &str, token: &str) -> (store: Self)
        ensures
            memory_lookup(store.values@, account_id@) == Some(token@),
            forall|other: Seq<char>| other != account_id@ ==> memory_lookup(store.values@, other) is None,
            store.fail_delete is None,
    {
        let mut values: Vec<(String, String)> = Vec::new();
        values.push((String::from_str(account_id), String::from_str(token)));
        proof {
            assert(values@.drop_last() =~= Seq::<(String, String)>::empty());
            assert forall|other: Seq<char>| other != account_id@ implies memory_lookup(
                values@,
                other,
            ) is None by {
                reveal_with_fuel(memory_lookup, 2);
            }
        }
        MemorySecretStore { values, fail_delete: None }
    }

    /// Whether the store holds a token for the account.
    pub fn contains(&self, account_id: &str) -> (found: bool)
        ensures
            found == (memory_lookup(self.values@, account_id@) is Some),
    {
        match self.lookup(account_id) {
            Some(_) => true,
            None => false,
        }
    }

    fn lookup(&self, account_id: &str) -> (token: Option<String>)
        ensures
            match token {
                Some(t) => memory_lookup(self.values@, account_id@) == Some(t@),
                None => memory_lookup(self.values@, account_id@) is None,
            },
    {
        let mut i: usize = self.values.len();
        proof {
            assert(self.values@.subrange(0, i as int) =~= self.values@);
        }
        while i > 0
            invariant
                i <= self.values@.len(),
                memory_lookup(self.values@, account_id@) == memory_lookup(
                    self.values@.subrange(0, i as int),
                    account_id@,
                ),
            decreases i,
        {
            let entry = &self.values[i - 1];
            proof {
                assert(self.values@.subrange(0, i as int).drop_last() =~= self.values@.subrange(
                    0,
                    i - 1,
                ));
            }
            if str_eq(entry.0.as_str(), account_id) {
                return Some(entry.1.clone());
            }
            i = i - 1;
        }
        None
    }

    /// Makes every later delete fail with this detail.
    pub fn fail_deletes_with(&mut self, detail: &str)
        ensures
            final(self).fail_delete matches Some(d) && d@ == detail@,
            final(self).values@ == old(self).values@,
    {
        self.fail_delete = Some(String::from_str(detail));
    }
}

impl SecretStore for MemorySecretStore {
    open spec fn holds(&self, account_id: Seq<char>) -> bool {
        memory_lookup(self.values@, account_id) is Some
    }

    fn store(&mut self, account_id: &str, token: &str) -> (result: Result<(), String>)
        ensures
            result is Ok,
            memory_lookup(final(self).values@, account_id@) == Some(token@),
            forall|other: Seq<char>|
                other != account_id@ ==> memory_lookup(final(self).values@, other) == memory_lookup(
                    old(self).values@,
                    other,
                ),
    {
        let ghost before = self.values@;
        self.values.push((String::from_str(account_id), String::from_str(token)));
        proof {
            assert(self.values@.drop_last() =~= before);
        }
        Ok(())
    }

    fn get(&self, account_id: &str) -> (result: Result<String, String>)
        ensures
            match result {
                Ok(t) => memory_lookup(self.values@, account_id@) == Some(t@),
                Err(e) => memory_lookup(self.values@, account_id@) is None && e@
                    == "Missing scripted secret"@,
            },
    {
        match self.lookup(account_id) {
            Some(t) => Ok(t),
            None => Err(String::from_str("Missing scripted secret")),
        }
    }

    fn delete(&mut self, account_id: &str) -> (result: Result<(), String>)
        ensures
            match old(self).fail_delete {
                Some(d) => result matches Err(e) && e@ == d@ && final(self).values@ == old(self).values@,
                None => result is Ok && memory_lookup(final(self).values@, account_id@) is None
                    && forall|other: Seq<char>|
                    other != account_id@ ==> memory_lookup(final(self).values@, other)
                        == memory_lookup(old(self).values@, other),
            },
    {
        if let Some(detail) = &self.fail_delete {
            return Err(detail.clone());
        }
        let ghost old_values = self.values@;
        let mut kept: Vec<(String, String)> = Vec::new();
        let mut i: usize = 0;
        while i < self.values.len()
            invariant
                self.values@ == old_values,
                i <= old_values.len(),
                memory_lookup(kept@, account_id@) is None,
                forall|other: Seq<char>|
                    other != account_id@ ==> memory_lookup(kept@, other) == memory_lookup(
                        old_values.subrange(0, i as int),
                        other,
                    ),
            decreases self.values.len() - i,
        {
            let entry = &self.values[i];
            let ghost prev = kept@;
            proof {
                assert(old_values.subrange(0, i + 1).drop_last() =~= old_values.subrange(0, i as int));
                assert(old_values.subrange(0, i + 1).last() == old_values[i as int]);
            }
            if !str_eq(entry.0.as_str(), account_id) {
                kept.push((entry.0.clone(), entry.1.clone()));
                proof {
                    assert(kept@.drop_last() =~= prev);
                    assert(kept@.last().0@ == old_values[i as int].0@);
                    assert(kept@.last().1@ == old_values[i as int].1@);
                }
            }
            proof {
                assert forall|other: Seq<char>| other != account_id@ implies memory_lookup(kept@, other)
                    == memory_lookup(old_values.subrange(0, i + 1), other) by {
                    assert(memory_lookup(prev, other) == memory_lookup(
                        old_values.subrange(0, i as int),
                        other,
                    ));
                }
                if kept@.len() > prev.len() {
                    assert(memory_lookup(kept@, account_id@) == memory_lookup(prev, account_id@));
                } else {
                    assert(kept@ == prev);
                }
            }
            i = i + 1;
        }
        proof {
            assert(old_values.subrange(0, old_values.len() as int) =~= old_values);
        }
        self.values = kept;
        Ok(())
    }
}

} // verus!
