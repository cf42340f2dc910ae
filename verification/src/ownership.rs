//! The in-process ownership bookkeeping of the bot fleet: which account
//! supervisors and game tasks are reserved under which generation, which
//! games are active or durably intended, and which outgoing challenges are
//! known, pending or uncertain.
use vstd::prelude::*;
use crate::keyed::{
    filter_entries, has_key, keys_unique, lemma_filter_entries, lemma_push_new, lemma_remove_at,
    lemma_to_map_all, lemma_to_map_dom, lemma_to_map_ext, lemma_update_value, to_map,
};
use crate::storage::{ActiveGameIntent, UncertainChallengeCreation};
use crate::order::{
    dedup_adjacent, dedup_sorted, join_strings, joined, lex_le_fn, sort_strings, views,
};
use crate::text::{decimal, push_str, u64_text};
use crate::text::{eq_ignore_ascii_case, eq_ignore_case, str_eq};

verus! {

/// A game, named by its account and its Lichess id.
pub struct GameKey {
    pub account_id: String,
    pub game_id: String,
}

impl Clone for GameKey {
    fn clone(&self) -> (c: Self)
        ensures
            c.account_id@ == self.account_id@,
            c.game_id@ == self.game_id@,
    {
        GameKey { account_id: self.account_id.clone(), game_id: self.game_id.clone() }
    }
}

/// Where an owned task's join handle stands.
#[derive(Clone, Copy, PartialEq, Eq, Structural, Debug)]
pub enum HandleState {
    /// Reserved, but no handle is installed (still starting, or taken by a
    /// stop that is joining it).
    Absent,
    Running,
    Finished,
}

/// An account supervisor reserved under a generation.
pub struct SupervisorSlot {
    pub account_id: String,
    pub generation: u64,
    pub handle: HandleState,
}

/// A game task reserved under its account's supervisor generation.
pub struct GameSlot {
    pub key: GameKey,
    pub generation: u64,
    pub handle: HandleState,
}

/// An outgoing challenge the bot knows it owns; the empty id is the
/// provisional entry written before the challenge POST.
pub struct KnownChallenge {
    pub account_id: String,
    pub challenge_id: String,
    pub opponent: String,
}

/// The outgoing challenges a running campaign has in flight.
pub struct CampaignSlot {
    pub account_id: String,
    pub pending_challenges: u32,
}

/// What an out-of-band stop cancels: the campaign controller, the
/// account's supervisor, and these game tasks.
pub struct InterruptPlan {
    pub campaign: bool,
    pub supervisor: bool,
    pub games: Vec<String>,
}

/// The ownership state of the fleet.
pub struct Ownership {
    /// Admission is closed while the runner is being handed over.
    pub quiescing: bool,
    pub supervisor_generation: u64,
    pub supervisors: Vec<SupervisorSlot>,
    pub game_tasks: Vec<GameSlot>,
    pub active_games: Vec<GameKey>,
    pub active_intents: Vec<ActiveGameIntent>,
    pub known: Vec<KnownChallenge>,
    pub uncertain: Vec<UncertainChallengeCreation>,
    pub campaigns: Vec<CampaignSlot>,
}

pub open spec fn gk(k: GameKey) -> (Seq<char>, Seq<char>) {
    (k.account_id@, k.game_id@)
}

pub open spec fn supervisor_entries(v: Seq<SupervisorSlot>) -> Seq<(Seq<char>, (u64, HandleState))> {
    v.map_values(|s: SupervisorSlot| (s.account_id@, (s.generation, s.handle)))
}

pub open spec fn task_entries(v: Seq<GameSlot>) -> Seq<((Seq<char>, Seq<char>), (u64, HandleState))> {
    v.map_values(|t: GameSlot| (gk(t.key), (t.generation, t.handle)))
}

pub open spec fn active_entries(v: Seq<GameKey>) -> Seq<((Seq<char>, Seq<char>), ())> {
    v.map_values(|k: GameKey| (gk(k), ()))
}

pub open spec fn intent_entries(v: Seq<ActiveGameIntent>) -> Seq<((Seq<char>, Seq<char>), ())> {
    v.map_values(|i: ActiveGameIntent| ((i.account_id@, i.game_id@), ()))
}

/// The game ids of an account's intents, in order.
pub open spec fn intent_games(intents: Seq<ActiveGameIntent>, account_id: Seq<char>) -> Seq<Seq<char>>
    decreases intents.len(),
{
    if intents.len() == 0 {
        Seq::empty()
    } else if intents.last().account_id@ == account_id {
        intent_games(intents.drop_last(), account_id).push(intents.last().game_id@)
    } else {
        intent_games(intents.drop_last(), account_id)
    }
}

pub open spec fn known_entries(v: Seq<KnownChallenge>) -> Seq<((Seq<char>, Seq<char>), Seq<char>)> {
    v.map_values(|k: KnownChallenge| ((k.account_id@, k.challenge_id@), k.opponent@))
}

pub open spec fn uncertain_entries(v: Seq<UncertainChallengeCreation>) -> Seq<(Seq<char>, Seq<char>)> {
    v.map_values(|u: UncertainChallengeCreation| (u.account_id@, u.opponent@))
}

pub open spec fn campaign_entries(v: Seq<CampaignSlot>) -> Seq<(Seq<char>, u32)> {
    v.map_values(|c: CampaignSlot| (c.account_id@, c.pending_challenges))
}

impl Ownership {
    /// Every collection is a map: no key occurs twice.
    pub open spec fn wf(self) -> bool {
        &&& keys_unique(supervisor_entries(self.supervisors@))
        &&& keys_unique(task_entries(self.game_tasks@))
        &&& keys_unique(active_entries(self.active_games@))
        &&& keys_unique(intent_entries(self.active_intents@))
        &&& keys_unique(known_entries(self.known@))
        &&& keys_unique(uncertain_entries(self.uncertain@))
        &&& keys_unique(campaign_entries(self.campaigns@))
    }

    pub open spec fn supervisor_map(self) -> Map<Seq<char>, (u64, HandleState)> {
        to_map(supervisor_entries(self.supervisors@))
    }

    pub open spec fn task_map(self) -> Map<(Seq<char>, Seq<char>), (u64, HandleState)> {
        to_map(task_entries(self.game_tasks@))
    }

    pub open spec fn active_set(self) -> Set<(Seq<char>, Seq<char>)> {
        to_map(active_entries(self.active_games@)).dom()
    }

    pub open spec fn intent_set(self) -> Set<(Seq<char>, Seq<char>)> {
        to_map(intent_entries(self.active_intents@)).dom()
    }

    pub open spec fn known_map(self) -> Map<(Seq<char>, Seq<char>), Seq<char>> {
        to_map(known_entries(self.known@))
    }

    pub open spec fn uncertain_map(self) -> Map<Seq<char>, Seq<char>> {
        to_map(uncertain_entries(self.uncertain@))
    }

    pub open spec fn campaign_map(self) -> Map<Seq<char>, u32> {
        to_map(campaign_entries(self.campaigns@))
    }

    /// Everything but the known challenges is unchanged from `other`.
    pub open spec fn same_but_known(self, other: Self) -> bool {
        &&& self.quiescing == other.quiescing
        &&& self.supervisor_generation == other.supervisor_generation
        &&& self.supervisors@ == other.supervisors@
        &&& self.game_tasks@ == other.game_tasks@
        &&& self.active_games@ == other.active_games@
        &&& self.active_intents@ == other.active_intents@
        &&& self.uncertain@ == other.uncertain@
        &&& self.campaigns@ == other.campaigns@
    }

    /// Everything but the uncertain creations is unchanged from `other`.
    pub open spec fn same_but_uncertain(self, other: Self) -> bool {
        &&& self.quiescing == other.quiescing
        &&& self.supervisor_generation == other.supervisor_generation
        &&& self.supervisors@ == other.supervisors@
        &&& self.game_tasks@ == other.game_tasks@
        &&& self.active_games@ == other.active_games@
        &&& self.active_intents@ == other.active_intents@
        &&& self.known@ == other.known@
        &&& self.campaigns@ == other.campaigns@
    }

    /// Everything but the active-game intents is unchanged from `other`.
    pub open spec fn same_but_intents(self, other: Self) -> bool {
        &&& self.quiescing == other.quiescing
        &&& self.supervisor_generation == other.supervisor_generation
        &&& self.supervisors@ == other.supervisors@
        &&& self.game_tasks@ == other.game_tasks@
        &&& self.active_games@ == other.active_games@
        &&& self.known@ == other.known@
        &&& self.uncertain@ == other.uncertain@
        &&& self.campaigns@ == other.campaigns@
    }

    /// An ownership state with nothing reserved.
    pub fn new() -> (o: Self)
        ensures
            o.wf(),
            !o.quiescing,
            o.supervisor_generation == 0,
            o.supervisor_map() == Map::<Seq<char>, (u64, HandleState)>::empty(),
            o.task_map() == Map::<(Seq<char>, Seq<char>), (u64, HandleState)>::empty(),
            o.active_set() == Set::<(Seq<char>, Seq<char>)>::empty(),
            o.intent_set() == Set::<(Seq<char>, Seq<char>)>::empty(),
            o.known_map() == Map::<(Seq<char>, Seq<char>), Seq<char>>::empty(),
            o.uncertain_map() == Map::<Seq<char>, Seq<char>>::empty(),
            o.campaign_map() == Map::<Seq<char>, u32>::empty(),
    {
        let o = Ownership {
            quiescing: false,
            supervisor_generation: 0,
            supervisors: Vec::new(),
            game_tasks: Vec::new(),
            active_games: Vec::new(),
            active_intents: Vec::new(),
            known: Vec::new(),
            uncertain: Vec::new(),
            campaigns: Vec::new(),
        };
        proof {
            assert(supervisor_entries(o.supervisors@) =~= Seq::empty());
            assert(task_entries(o.game_tasks@) =~= Seq::empty());
            assert(active_entries(o.active_games@) =~= Seq::empty());
            assert(intent_entries(o.active_intents@) =~= Seq::empty());
            assert(known_entries(o.known@) =~= Seq::empty());
            assert(uncertain_entries(o.uncertain@) =~= Seq::empty());
            assert(campaign_entries(o.campaigns@) =~= Seq::empty());
        }
        o
    }

    fn find_known(&self, account_id: &str, challenge_id: &str) -> (found: Option<usize>)
        ensures
            match found {
                Some(i) => i < self.known@.len() && known_entries(self.known@)[i as int].0 == (
                    account_id@,
                    challenge_id@,
                ),
                None => !has_key(known_entries(self.known@), (account_id@, challenge_id@)),
            },
    {
        let mut i: usize = 0;
        while i < self.known.len()
            invariant
                i <= self.known@.len(),
                forall|j: int| 0 <= j < i ==> known_entries(self.known@)[j].0 != (
                    account_id@,
                    challenge_id@,
                ),
            decreases self.known.len() - i,
        {
            if str_eq(self.known[i].account_id.as_str(), account_id) && str_eq(
                self.known[i].challenge_id.as_str(),
                challenge_id,
            ) {
                return Some(i);
            }
            i = i + 1;
        }
        None
    }

    /// Records a known outgoing challenge (replacing the opponent of an
    /// entry with the same account and id).
    pub fn remember_known_outgoing_challenge(&mut self, account_id: &str, challenge_id: &str, opponent: &str)
        requires
            old(self).wf(),
        ensures
            final(self).wf(),
            final(self).known_map() == old(self).known_map().insert(
                (account_id@, challenge_id@),
                opponent@,
            ),
            final(self).same_but_known(*old(self)),
    {
        let entry = KnownChallenge {
            account_id: String::from_str(account_id),
            challenge_id: String::from_str(challenge_id),
            opponent: String::from_str(opponent),
        };
        let ghost before = known_entries(self.known@);
        match self.find_known(account_id, challenge_id) {
            Some(i) => {
                self.known.set(i, entry);
                proof {
                    assert(known_entries(self.known@) =~= before.update(
                        i as int,
                        (before[i as int].0, opponent@),
                    ));
                    lemma_update_value(before, i as int, opponent@);
                }
            },
            None => {
                self.known.push(entry);
                proof {
                    assert(known_entries(self.known@) =~= before.push(
                        ((account_id@, challenge_id@), opponent@),
                    ));
                    lemma_push_new(before, (account_id@, challenge_id@), opponent@);
                }
            },
        }
    }

    /// Installs the provisional entry of a challenge before its POST; the
    /// empty id stands for "not created yet".
    pub fn remember_pending_outgoing_challenge(&mut self, account_id: &str, opponent: &str)
        requires
            old(self).wf(),
        ensures
            final(self).wf(),
            final(self).known_map() == old(self).known_map().insert(
                (account_id@, Seq::<char>::empty()),
                opponent@,
            ),
            final(self).same_but_known(*old(self)),
    {
        let empty = String::new();
        self.remember_known_outgoing_challenge(account_id, empty.as_str(), opponent);
    }

    fn remove_known_at(&mut self, i: usize)
        requires
            old(self).wf(),
            i < old(self).known@.len(),
        ensures
            final(self).wf(),
            final(self).known_map() == old(self).known_map().remove(
                known_entries(old(self).known@)[i as int].0,
            ),
            final(self).same_but_known(*old(self)),
            forall|k| #[trigger] has_key(known_entries(final(self).known@), k) == (has_key(
                known_entries(old(self).known@),
                k,
            ) && k != known_entries(old(self).known@)[i as int].0),
    {
        let ghost before = known_entries(self.known@);
        self.known.remove(i);
        proof {
            assert(known_entries(self.known@) =~= before.remove(i as int));
            lemma_remove_at(before, i as int);
        }
    }

    /// Forgets a known outgoing challenge.
    pub fn forget_known_outgoing_challenge(&mut self, account_id: &str, challenge_id: &str)
        requires
            old(self).wf(),
        ensures
            final(self).wf(),
            final(self).known_map() == old(self).known_map().remove((account_id@, challenge_id@)),
            final(self).same_but_known(*old(self)),
    {
        match self.find_known(account_id, challenge_id) {
            Some(i) => self.remove_known_at(i),
            None => {
                proof {
                    lemma_to_map_all(known_entries(self.known@));
                    assert(self.known_map().remove((account_id@, challenge_id@)) =~= self.known_map());
                }
            },
        }
    }

    /// Promotes the provisional entry of an account to the created
    /// challenge. When a resolution event already removed the provisional
    /// entry, nothing is resurrected.
    pub fn finalize_pending_outgoing_challenge(&mut self, account_id: &str, challenge_id: &str, opponent: &str)
        requires
            old(self).wf(),
        ensures
            final(self).wf(),
            final(self).known_map() == if old(self).known_map().dom().contains(
                (account_id@, Seq::<char>::empty()),
            ) {
                old(self).known_map().remove((account_id@, Seq::<char>::empty())).insert(
                    (account_id@, challenge_id@),
                    opponent@,
                )
            } else {
                old(self).known_map()
            },
            final(self).same_but_known(*old(self)),
    {
        let empty = String::new();
        proof {
            lemma_to_map_all(known_entries(self.known@));
        }
        match self.find_known(account_id, empty.as_str()) {
            Some(i) => {
                self.remove_known_at(i);
                self.remember_known_outgoing_challenge(account_id, challenge_id, opponent);
            },
            None => {},
        }
    }

    /// Forgets the challenge an account event showed resolved; when the
    /// event names the opponent, provisional entries against that opponent
    /// (compared ignoring ASCII case) go too.
    pub fn forget_resolved_outgoing_challenge(&mut self, account_id: &str, challenge_id: &str, opponent: Option<&str>)
        requires
            old(self).wf(),
        ensures
            final(self).wf(),
            final(self).same_but_known(*old(self)),
            forall|k: (Seq<char>, Seq<char>)| #[trigger]
                final(self).known_map().dom().contains(k) == (old(self).known_map().dom().contains(k)
                    && k != (account_id@, challenge_id@) && !(opponent matches Some(o) && k.0
                    == account_id@ && k.1.len() == 0 && eq_ignore_case(
                    old(self).known_map()[k],
                    o@,
                ))),
            forall|k: (Seq<char>, Seq<char>)| #[trigger]
                final(self).known_map().dom().contains(k) ==> final(self).known_map()[k]
                    == old(self).known_map()[k],
    {
        let ghost before = known_entries(self.known@);
        let ghost old_map = self.known_map();
        proof {
            lemma_to_map_all(before);
        }
        let mut kept: Vec<KnownChallenge> = Vec::new();
        let mut i: usize = 0;
        while i < self.known.len()
            invariant
                known_entries(self.known@) == before,
                keys_unique(before),
                old_map == to_map(before),
                i <= before.len(),
                forall|j: int| 0 <= j < kept@.len() ==> exists|m: int|
                    0 <= m < i && #[trigger] known_entries(kept@)[j] == before[m],
                forall|j: int, l: int|
                    0 <= j < l < kept@.len() ==> known_entries(kept@)[j].0 != known_entries(
                        kept@,
                    )[l].0,
                forall|k: (Seq<char>, Seq<char>)| #[trigger]
                    has_key(known_entries(kept@), k) == (has_key(before.subrange(0, i as int), k)
                        && k != (account_id@, challenge_id@) && !(opponent matches Some(o) && k.0
                        == account_id@ && k.1.len() == 0 && eq_ignore_case(old_map[k], o@))),
            decreases self.known.len() - i,
        {
            let entry = &self.known[i];
            let same_key = str_eq(entry.account_id.as_str(), account_id) && str_eq(
                entry.challenge_id.as_str(),
                challenge_id,
            );
            let provisional_match = match opponent {
                Some(o) => str_eq(entry.account_id.as_str(), account_id)
                    && entry.challenge_id.unicode_len() == 0 && eq_ignore_ascii_case(
                    entry.opponent.as_str(),
                    o,
                ),
                None => false,
            };
            let ghost prev = known_entries(kept@);
            proof {
                lemma_to_map_all(before);
                assert(old_map.dom().contains(before[i as int].0));
                assert(old_map[before[i as int].0] == before[i as int].1);
            }
            if !same_key && !provisional_match {
                kept.push(
                    KnownChallenge {
                        account_id: entry.account_id.clone(),
                        challenge_id: entry.challenge_id.clone(),
                        opponent: entry.opponent.clone(),
                    },
                );
                proof {
                    assert(known_entries(kept@) =~= prev.push(before[i as int]));
                }
            }
            proof {
                let cur = known_entries(kept@);
                assert forall|k: (Seq<char>, Seq<char>)| #[trigger]
                    has_key(cur, k) == (has_key(before.subrange(0, i + 1), k) && k != (
                        account_id@,
                        challenge_id@,
                    ) && !(opponent matches Some(o) && k.0 == account_id@ && k.1.len() == 0
                        && eq_ignore_case(old_map[k], o@))) by {
                    let pre = before.subrange(0, i as int);
                    let post = before.subrange(0, i + 1);
                    assert(post =~= pre.push(before[i as int]));
                    let bk = before[i as int].0;
                    assert(bk == (entry.account_id@, entry.challenge_id@));
                    assert(before[i as int].1 == entry.opponent@);
                    if k == bk {
                        if has_key(pre, k) {
                            let m = choose|m: int| 0 <= m < pre.len() && #[trigger] pre[m].0 == k;
                            assert(before[m].0 == bk);
                            assert(false);
                        }
                        assert(post[i as int].0 == k);
                        assert(has_key(post, k));
                        assert(!has_key(prev, k));
                        assert(old_map[k] == entry.opponent@);
                        if cur.len() > prev.len() {
                            assert(cur[prev.len() as int].0 == k);
                        } else {
                            assert(cur == prev);
                        }
                    } else {
                        if has_key(post, k) {
                            let m = choose|m: int| 0 <= m < post.len() && #[trigger] post[m].0 == k;
                            assert(m != i);
                            assert(pre[m].0 == k);
                        }
                        if has_key(pre, k) {
                            let m = choose|m: int| 0 <= m < pre.len() && #[trigger] pre[m].0 == k;
                            assert(post[m].0 == k);
                        }
                        if has_key(cur, k) {
                            let m = choose|m: int| 0 <= m < cur.len() && #[trigger] cur[m].0 == k;
                            if m == prev.len() {
                                assert(cur[m] == before[i as int]);
                            } else {
                                assert(prev[m].0 == k);
                            }
                        }
                        if has_key(prev, k) {
                            let m = choose|m: int| 0 <= m < prev.len() && #[trigger] prev[m].0 == k;
                            assert(cur[m].0 == k);
                        }
                    }
                }
                assert forall|j: int| 0 <= j < cur.len() implies exists|m: int|
                    0 <= m < i + 1 && #[trigger] cur[j] == before[m] by {
                    if j < prev.len() {
                        assert(cur[j] == prev[j]);
                    } else {
                        assert(cur[j] == before[i as int]);
                    }
                }
                assert forall|j: int, l: int| 0 <= j < l < cur.len() implies cur[j].0 != cur[l].0 by {
                    if l == prev.len() && cur.len() > prev.len() {
                        assert(cur[l] == before[i as int]);
                        assert(cur[j] == prev[j]);
                        let m = choose|m: int| 0 <= m < i && #[trigger] known_entries(kept@)[j] == before[m];
                        assert(before[m].0 != before[i as int].0);
                    } else {
                        assert(cur[j] == prev[j] && cur[l] == prev[l]);
                    }
                }
            }
            i = i + 1;
        }
        proof {
            let cur = known_entries(kept@);
            assert(before.subrange(0, before.len() as int) =~= before);
            let target = Map::new(
                |k: (Seq<char>, Seq<char>)|
                    old_map.dom().contains(k) && k != (account_id@, challenge_id@) && !(opponent matches Some(
                        o,
                    ) && k.0 == account_id@ && k.1.len() == 0 && eq_ignore_case(old_map[k], o@)),
                |k: (Seq<char>, Seq<char>)| old_map[k],
            );
            assert forall|k: (Seq<char>, Seq<char>)| #[trigger] has_key(cur, k) == target.dom().contains(
                k,
            ) by {
                assert(old_map.dom().contains(k) == has_key(before, k));
            }
            assert forall|j: int| 0 <= j < cur.len() implies #[trigger] target[cur[j].0] == cur[j].1 by {
                let m = choose|m: int| 0 <= m < before.len() && #[trigger] cur[j] == before[m];
                lemma_to_map_all(before);
                assert(old_map.dom().contains(before[m].0));
                assert(old_map[before[m].0] == before[m].1);
                assert(has_key(cur, cur[j].0));
            }
            lemma_to_map_ext(cur, cur, target);
        }
        self.known = kept;
    }
}

/// The detail of a gameStart refused while the runner is being handed over;
/// the game's durable intent is written first.
pub const QUIESCED_GAME_START: &'static str =
    "QueenUI is changing runners; gameStart was deferred for startup reconciliation";

/// What the start of an account's supervisor found.
#[derive(PartialEq, Eq, Structural, Debug, Clone, Copy)]
pub enum StartPrecheck {
    /// A running supervisor already owns the account.
    AlreadyRunning,
    /// A supervisor is still being started.
    StillStarting,
    /// A finished supervisor was removed; its handle is to be joined.
    ReapedPrior,
    /// No supervisor owns the account.
    Vacant,
}

/// The outcome of reserving a game task.
pub enum GameReservation {
    /// Admission is closed: record the intent and refuse with this detail.
    Deferred(String),
    Refused(String),
    /// This generation already owns the game task.
    AlreadyOwned,
    /// The game is already active.
    AlreadyActive,
    /// The game task is reserved and the game is active.
    Reserved,
}

/// What a stop collected before joining the account's tasks.
pub struct StopFence {
    pub supervisor_generation: Option<u64>,
    pub games: Vec<GameSlot>,
}

/// The entries keyed by a game or challenge of another account.
pub open spec fn other_account<V>(a: Seq<char>) -> spec_fn(((Seq<char>, Seq<char>), V)) -> bool {
    |e: ((Seq<char>, Seq<char>), V)| e.0.0 != a
}

impl Ownership {
    /// Whether a challenge creation of the account has an unknown outcome.
    pub fn has_uncertain_creation(&self, account_id: &str) -> (found: bool)
        ensures
            found == self.uncertain_map().dom().contains(account_id@),
    {
        proof {
            lemma_to_map_dom(uncertain_entries(self.uncertain@), account_id@);
        }
        match self.find_uncertain(account_id) {
            Some(i) => {
                proof {
                    assert(uncertain_entries(self.uncertain@)[i as int].0 == account_id@);
                }
                true
            },
            None => false,
        }
    }

    fn find_uncertain(&self, account_id: &str) -> (found: Option<usize>)
        ensures
            match found {
                Some(i) => i < self.uncertain@.len() && uncertain_entries(self.uncertain@)[i as int].0
                    == account_id@,
                None => !has_key(uncertain_entries(self.uncertain@), account_id@),
            },
    {
        let mut i: usize = 0;
        while i < self.uncertain.len()
            invariant
                i <= self.uncertain@.len(),
                forall|j: int| 0 <= j < i ==> uncertain_entries(self.uncertain@)[j].0 != account_id@,
            decreases self.uncertain.len() - i,
        {
            if str_eq(self.uncertain[i].account_id.as_str(), account_id) {
                return Some(i);
            }
            i = i + 1;
        }
        None
    }

    /// Records that an account's challenge POST may have been created.
    pub fn remember_uncertain_challenge_creation(&mut self, account_id: &str, opponent: &str)
        requires
            old(self).wf(),
        ensures
            final(self).wf(),
            final(self).uncertain_map() == old(self).uncertain_map().insert(account_id@, opponent@),
            final(self).same_but_uncertain(*old(self)),
    {
        let entry = UncertainChallengeCreation {
            account_id: String::from_str(account_id),
            opponent: String::from_str(opponent),
        };
        let ghost before = uncertain_entries(self.uncertain@);
        match self.find_uncertain(account_id) {
            Some(i) => {
                self.uncertain.set(i, entry);
                proof {
                    assert(uncertain_entries(self.uncertain@) =~= before.update(
                        i as int,
                        (before[i as int].0, opponent@),
                    ));
                    lemma_update_value(before, i as int, opponent@);
                }
            },
            None => {
                self.uncertain.push(entry);
                proof {
                    assert(uncertain_entries(self.uncertain@) =~= before.push((account_id@, opponent@)));
                    lemma_push_new(before, account_id@, opponent@);
                }
            },
        }
    }

    /// Clears an account's uncertain challenge creation.
    pub fn clear_uncertain_challenge_creation(&mut self, account_id: &str)
        requires
            old(self).wf(),
        ensures
            final(self).wf(),
            final(self).uncertain_map() == old(self).uncertain_map().remove(account_id@),
            final(self).same_but_uncertain(*old(self)),
    {
        let ghost before = uncertain_entries(self.uncertain@);
        match self.find_uncertain(account_id) {
            Some(i) => {
                self.uncertain.remove(i);
                proof {
                    assert(uncertain_entries(self.uncertain@) =~= before.remove(i as int));
                    lemma_remove_at(before, i as int);
                }
            },
            None => {
                proof {
                    lemma_to_map_all(before);
                    assert(self.uncertain_map().remove(account_id@) =~= self.uncertain_map());
                }
            },
        }
    }

    fn find_intent(&self, account_id: &str, game_id: &str) -> (found: Option<usize>)
        ensures
            match found {
                Some(i) => i < self.active_intents@.len() && intent_entries(self.active_intents@)[i as int].0
                    == (account_id@, game_id@),
                None => !has_key(intent_entries(self.active_intents@), (account_id@, game_id@)),
            },
    {
        let mut i: usize = 0;
        while i < self.active_intents.len()
            invariant
                i <= self.active_intents@.len(),
                forall|j: int| 0 <= j < i ==> intent_entries(self.active_intents@)[j].0 != (
                    account_id@,
                    game_id@,
                ),
            decreases self.active_intents.len() - i,
        {
            if str_eq(self.active_intents[i].account_id.as_str(), account_id) && str_eq(
                self.active_intents[i].game_id.as_str(),
                game_id,
            ) {
                return Some(i);
            }
            i = i + 1;
        }
        None
    }

    /// Records a game the bot is playing, so that a restart reconciles it.
    pub fn add_active_intent(&mut self, account_id: &str, game_id: &str)
        requires
            old(self).wf(),
        ensures
            final(self).wf(),
            final(self).intent_set() == old(self).intent_set().insert((account_id@, game_id@)),
            final(self).same_but_intents(*old(self)),
    {
        let ghost before = intent_entries(self.active_intents@);
        proof {
            lemma_to_map_all(before);
        }
        match self.find_intent(account_id, game_id) {
            Some(i) => {
                proof {
                    assert(self.intent_set().insert((account_id@, game_id@)) =~= self.intent_set());
                }
            },
            None => {
                self.active_intents.push(
                    ActiveGameIntent {
                        account_id: String::from_str(account_id),
                        game_id: String::from_str(game_id),
                    },
                );
                proof {
                    assert(intent_entries(self.active_intents@) =~= before.push(
                        ((account_id@, game_id@), ()),
                    ));
                    lemma_push_new(before, (account_id@, game_id@), ());
                }
            },
        }
    }

    /// Drops the durable intent of a game that ended.
    pub fn remove_active_intent(&mut self, account_id: &str, game_id: &str)
        requires
            old(self).wf(),
        ensures
            final(self).wf(),
            final(self).intent_set() == old(self).intent_set().remove((account_id@, game_id@)),
            final(self).same_but_intents(*old(self)),
    {
        let ghost before = intent_entries(self.active_intents@);
        proof {
            lemma_to_map_all(before);
        }
        match self.find_intent(account_id, game_id) {
            Some(i) => {
                self.active_intents.remove(i);
                proof {
                    assert(intent_entries(self.active_intents@) =~= before.remove(i as int));
                    lemma_remove_at(before, i as int);
                }
            },
            None => {
                proof {
                    assert(self.intent_set().remove((account_id@, game_id@)) =~= self.intent_set());
                }
            },
        }
    }

    /// Replaces an account's durable intents with the games Lichess reports
    /// as ongoing for it; other accounts' intents stay.
    pub fn reconcile_active_intents(&mut self, account_id: &str, authoritative: &Vec<String>)
        requires
            old(self).wf(),
        ensures
            final(self).wf(),
            final(self).same_but_intents(*old(self)),
            forall|k: (Seq<char>, Seq<char>)| #[trigger]
                final(self).intent_set().contains(k) == ((old(self).intent_set().contains(k) && k.0
                    != account_id@) || (k.0 == account_id@ && exists|j: int|
                    0 <= j < authoritative@.len() && #[trigger] authoritative@[j]@ == k.1)),
    {
        let ghost before = intent_entries(self.active_intents@);
        let ghost p = other_account::<()>(account_id@);
        let mut kept: Vec<ActiveGameIntent> = Vec::new();
        let mut i: usize = 0;
        while i < self.active_intents.len()
            invariant
                intent_entries(self.active_intents@) == before,
                i <= before.len(),
                p == other_account::<()>(account_id@),
                intent_entries(kept@) == filter_entries(before.subrange(0, i as int), p),
            decreases self.active_intents.len() - i,
        {
            proof {
                assert(before.subrange(0, i + 1).drop_last() =~= before.subrange(0, i as int));
                assert(before.subrange(0, i + 1).last() == before[i as int]);
                assert(p(before[i as int]) == (self.active_intents@[i as int].account_id@ != account_id@));
            }
            if !str_eq(self.active_intents[i].account_id.as_str(), account_id) {
                let ghost prev = intent_entries(kept@);
                kept.push(self.active_intents[i].clone());
                proof {
                    assert(intent_entries(kept@) =~= prev.push(before[i as int]));
                }
            }
            i = i + 1;
        }
        proof {
            assert(before.subrange(0, before.len() as int) =~= before);
            lemma_filter_entries(before, p);
        }
        let ghost filtered = to_map(intent_entries(kept@)).dom();
        self.active_intents = kept;
        let mut j: usize = 0;
        while j < authoritative.len()
            invariant
                self.wf(),
                self.same_but_intents(*old(self)),
                j <= authoritative@.len(),
                forall|k: (Seq<char>, Seq<char>)| #[trigger]
                    self.intent_set().contains(k) == (filtered.contains(k) || (k.0 == account_id@
                        && exists|m: int| 0 <= m < j && #[trigger] authoritative@[m]@ == k.1)),
            decreases authoritative.len() - j,
        {
            let ghost prior = self.intent_set();
            self.add_active_intent(account_id, authoritative[j].as_str());
            proof {
                assert forall|k: (Seq<char>, Seq<char>)| #[trigger]
                    self.intent_set().contains(k) == (filtered.contains(k) || (k.0 == account_id@
                        && exists|m: int| 0 <= m < j + 1 && #[trigger] authoritative@[m]@ == k.1)) by {
                    if k.0 == account_id@ && k.1 == authoritative@[j as int]@ {
                        assert(authoritative@[j as int]@ == k.1);
                    }
                    if k.0 == account_id@ && (exists|m: int|
                        0 <= m < j + 1 && #[trigger] authoritative@[m]@ == k.1) {
                        let m = choose|m: int| 0 <= m < j + 1 && #[trigger] authoritative@[m]@ == k.1;
                        if m < j {
                            assert(prior.contains(k));
                        }
                    }
                }
            }
            j = j + 1;
        }
        proof {
            assert forall|k: (Seq<char>, Seq<char>)| #[trigger]
                self.intent_set().contains(k) == ((old(self).intent_set().contains(k) && k.0
                    != account_id@) || (k.0 == account_id@ && exists|m: int|
                    0 <= m < authoritative@.len() && #[trigger] authoritative@[m]@ == k.1)) by {
                if filtered.contains(k) {
                    assert(to_map(before).dom().contains(k));
                }
                if old(self).intent_set().contains(k) && k.0 != account_id@ {
                    assert(p((k, to_map(before)[k])));
                }
            }
        }
    }

    /// Drops every challenge the account owned, known or uncertain.
    pub fn clear_account_challenge_ownership(&mut self, account_id: &str)
        requires
            old(self).wf(),
        ensures
            final(self).wf(),
            forall|k: (Seq<char>, Seq<char>)| #[trigger]
                final(self).known_map().dom().contains(k) == (old(self).known_map().dom().contains(k)
                    && k.0 != account_id@),
            forall|k: (Seq<char>, Seq<char>)| #[trigger]
                final(self).known_map().dom().contains(k) ==> final(self).known_map()[k]
                    == old(self).known_map()[k],
            final(self).uncertain_map() == old(self).uncertain_map().remove(account_id@),
            final(self).supervisors@ == old(self).supervisors@,
            final(self).game_tasks@ == old(self).game_tasks@,
            final(self).active_games@ == old(self).active_games@,
            final(self).active_intents@ == old(self).active_intents@,
            final(self).campaigns@ == old(self).campaigns@,
            final(self).quiescing == old(self).quiescing,
            final(self).supervisor_generation == old(self).supervisor_generation,
    {
        let ghost before = known_entries(self.known@);
        let ghost p = other_account::<Seq<char>>(account_id@);
        let mut kept: Vec<KnownChallenge> = Vec::new();
        let mut i: usize = 0;
        while i < self.known.len()
            invariant
                known_entries(self.known@) == before,
                i <= before.len(),
                p == other_account::<Seq<char>>(account_id@),
                known_entries(kept@) == filter_entries(before.subrange(0, i as int), p),
            decreases self.known.len() - i,
        {
            proof {
                assert(before.subrange(0, i + 1).drop_last() =~= before.subrange(0, i as int));
                assert(before.subrange(0, i + 1).last() == before[i as int]);
                assert(p(before[i as int]) == (self.known@[i as int].account_id@ != account_id@));
            }
            let entry = &self.known[i];
            if !str_eq(entry.account_id.as_str(), account_id) {
                let ghost prev = known_entries(kept@);
                kept.push(
                    KnownChallenge {
                        account_id: entry.account_id.clone(),
                        challenge_id: entry.challenge_id.clone(),
                        opponent: entry.opponent.clone(),
                    },
                );
                proof {
                    assert(known_entries(kept@) =~= prev.push(before[i as int]));
                }
            }
            i = i + 1;
        }
        proof {
            assert(before.subrange(0, before.len() as int) =~= before);
            lemma_filter_entries(before, p);
        }
        self.known = kept;
        self.clear_uncertain_challenge_creation(account_id);
    }
}

pub open spec fn taken_fn(
    a: Seq<char>,
) -> spec_fn(((Seq<char>, Seq<char>), (u64, HandleState))) -> ((Seq<char>, Seq<char>), (u64, HandleState)) {
    |e: ((Seq<char>, Seq<char>), (u64, HandleState))| taken_if(e, a)
}

/// The entries keyed by a game of the account.
pub open spec fn of_account<V>(a: Seq<char>) -> spec_fn(((Seq<char>, Seq<char>), V)) -> bool {
    |e: ((Seq<char>, Seq<char>), V)| e.0.0 == a
}

/// A task entry with its handle taken when it belongs to the account.
pub open spec fn taken_if(
    e: ((Seq<char>, Seq<char>), (u64, HandleState)),
    a: Seq<char>,
) -> ((Seq<char>, Seq<char>), (u64, HandleState)) {
    if e.0.0 == a {
        (e.0, (e.1.0, HandleState::Absent))
    } else {
        e
    }
}

/// The tasks that stay after finished ones of an account are reaped.
pub open spec fn not_finished_of<V>(a: Seq<char>) -> spec_fn(((Seq<char>, Seq<char>), (u64, HandleState))) -> bool {
    |e: ((Seq<char>, Seq<char>), (u64, HandleState))| !(e.0.0 == a && e.1.1 == HandleState::Finished)
}

pub open spec fn sat_inc(g: u64) -> u64 {
    if g == u64::MAX {
        u64::MAX
    } else {
        (g + 1) as u64
    }
}

pub open spec fn wrap_inc(g: u64) -> u64 {
    if g == u64::MAX {
        0
    } else {
        (g + 1) as u64
    }
}

impl Ownership {
    /// Everything but the supervisors and the generation counter is
    /// unchanged from `other`.
    pub open spec fn same_but_supervisors(self, other: Self) -> bool {
        &&& self.quiescing == other.quiescing
        &&& self.game_tasks@ == other.game_tasks@
        &&& self.active_games@ == other.active_games@
        &&& self.active_intents@ == other.active_intents@
        &&& self.known@ == other.known@
        &&& self.uncertain@ == other.uncertain@
        &&& self.campaigns@ == other.campaigns@
    }

    fn find_supervisor(&self, account_id: &str) -> (found: Option<usize>)
        ensures
            match found {
                Some(i) => i < self.supervisors@.len() && supervisor_entries(self.supervisors@)[i as int].0
                    == account_id@,
                None => !has_key(supervisor_entries(self.supervisors@), account_id@),
            },
    {
        let mut i: usize = 0;
        while i < self.supervisors.len()
            invariant
                i <= self.supervisors@.len(),
                forall|j: int| 0 <= j < i ==> supervisor_entries(self.supervisors@)[j].0 != account_id@,
            decreases self.supervisors.len() - i,
        {
            if str_eq(self.supervisors[i].account_id.as_str(), account_id) {
                return Some(i);
            }
            i = i + 1;
        }
        None
    }

    fn find_task(&self, account_id: &str, game_id: &str) -> (found: Option<usize>)
        ensures
            match found {
                Some(i) => i < self.game_tasks@.len() && task_entries(self.game_tasks@)[i as int].0 == (
                    account_id@,
                    game_id@,
                ),
                None => !has_key(task_entries(self.game_tasks@), (account_id@, game_id@)),
            },
    {
        let mut i: usize = 0;
        while i < self.game_tasks.len()
            invariant
                i <= self.game_tasks@.len(),
                forall|j: int| 0 <= j < i ==> task_entries(self.game_tasks@)[j].0 != (
                    account_id@,
                    game_id@,
                ),
            decreases self.game_tasks.len() - i,
        {
            if str_eq(self.game_tasks[i].key.account_id.as_str(), account_id) && str_eq(
                self.game_tasks[i].key.game_id.as_str(),
                game_id,
            ) {
                return Some(i);
            }
            i = i + 1;
        }
        None
    }

    fn find_active(&self, account_id: &str, game_id: &str) -> (found: Option<usize>)
        ensures
            match found {
                Some(i) => i < self.active_games@.len() && active_entries(self.active_games@)[i as int].0
                    == (account_id@, game_id@),
                None => !has_key(active_entries(self.active_games@), (account_id@, game_id@)),
            },
    {
        let mut i: usize = 0;
        while i < self.active_games.len()
            invariant
                i <= self.active_games@.len(),
                forall|j: int| 0 <= j < i ==> active_entries(self.active_games@)[j].0 != (
                    account_id@,
                    game_id@,
                ),
            decreases self.active_games.len() - i,
        {
            if str_eq(self.active_games[i].account_id.as_str(), account_id) && str_eq(
                self.active_games[i].game_id.as_str(),
                game_id,
            ) {
                return Some(i);
            }
            i = i + 1;
        }
        None
    }

    /// Whether this generation still owns the account's supervisor.
    pub fn supervisor_is_current(&self, account_id: &str, generation: u64) -> (current: bool)
        requires
            self.wf(),
        ensures
            current == (self.supervisor_map().dom().contains(account_id@)
                && self.supervisor_map()[account_id@].0 == generation),
    {
        proof {
            lemma_to_map_all(supervisor_entries(self.supervisors@));
        }
        match self.find_supervisor(account_id) {
            Some(i) => {
                proof {
                    assert(self.supervisor_map().dom().contains(
                        supervisor_entries(self.supervisors@)[i as int].0,
                    ));
                }
                self.supervisors[i].generation == generation
            },
            None => false,
        }
    }

    /// Whether a supervisor, running or being started, owns the account.
    pub fn supervises(&self, account_id: &str) -> (owned: bool)
        requires
            self.wf(),
        ensures
            owned == self.supervisor_map().dom().contains(account_id@),
    {
        proof {
            lemma_to_map_dom(supervisor_entries(self.supervisors@), account_id@);
        }
        match self.find_supervisor(account_id) {
            Some(i) => {
                proof {
                    assert(supervisor_entries(self.supervisors@)[i as int].0 == account_id@);
                }
                true
            },
            None => false,
        }
    }

    /// An engine's configuration may change only while no bot using it
    /// runs: refused when any of the accounts assigned to it has a
    /// supervisor.
    pub fn ensure_engine_idle(&self, assigned_accounts: &Vec<String>) -> (result: Result<(), String>)
        requires
            self.wf(),
        ensures
            (exists|j: int|
                0 <= j < assigned_accounts@.len() && self.supervisor_map().dom().contains(
                    #[trigger] assigned_accounts@[j]@,
                )) <==> result is Err,
            result matches Err(e) ==> e@
                == "Stop every bot using this engine before changing its configuration."@,
    {
        let mut i: usize = 0;
        while i < assigned_accounts.len()
            invariant
                i <= assigned_accounts@.len(),
                forall|j: int|
                    0 <= j < i ==> !self.supervisor_map().dom().contains(#[trigger] assigned_accounts@[j]@),
            decreases assigned_accounts.len() - i,
        {
            let found = self.find_supervisor(assigned_accounts[i].as_str());
            proof {
                lemma_to_map_dom(supervisor_entries(self.supervisors@), assigned_accounts@[i as int]@);
                if let Some(k) = found {
                    assert(supervisor_entries(self.supervisors@)[k as int].0 == assigned_accounts@[i as int]@);
                }
            }
            if found.is_some() {
                return Err(
                    String::from_str("Stop every bot using this engine before changing its configuration."),
                );
            }
            i = i + 1;
        }
        Ok(())
    }

    /// The first step of starting an account: a running supervisor is kept,
    /// one still starting refuses the start, and a finished one is removed
    /// (its handle is then joined by the caller).
    pub fn start_precheck(&mut self, account_id: &str) -> (step: StartPrecheck)
        requires
            old(self).wf(),
        ensures
            final(self).wf(),
            final(self).same_but_supervisors(*old(self)),
            final(self).supervisor_generation == old(self).supervisor_generation,
            !old(self).supervisor_map().dom().contains(account_id@) ==> step == StartPrecheck::Vacant,
            old(self).supervisor_map().dom().contains(account_id@) ==> step == match old(
                self,
            ).supervisor_map()[account_id@].1 {
                HandleState::Finished => StartPrecheck::ReapedPrior,
                HandleState::Absent => StartPrecheck::StillStarting,
                HandleState::Running => StartPrecheck::AlreadyRunning,
            },
            step == StartPrecheck::ReapedPrior ==> final(self).supervisor_map() == old(
                self,
            ).supervisor_map().remove(account_id@),
            step != StartPrecheck::ReapedPrior ==> final(self).supervisors@ == old(self).supervisors@,
    {
        let ghost before = supervisor_entries(self.supervisors@);
        proof {
            lemma_to_map_all(before);
        }
        match self.find_supervisor(account_id) {
            Some(i) => {
                let handle = self.supervisors[i].handle;
                match handle {
                    HandleState::Finished => {
                        self.supervisors.remove(i);
                        proof {
                            assert(supervisor_entries(self.supervisors@) =~= before.remove(i as int));
                            lemma_remove_at(before, i as int);
                        }
                        StartPrecheck::ReapedPrior
                    },
                    HandleState::Absent => StartPrecheck::StillStarting,
                    HandleState::Running => StartPrecheck::AlreadyRunning,
                }
            },
            None => StartPrecheck::Vacant,
        }
    }

    /// Whether any game task of the account is still reserved.
    pub fn account_has_game_tasks(&self, account_id: &str) -> (found: bool)
        requires
            self.wf(),
        ensures
            found == exists|k: (Seq<char>, Seq<char>)|
                #[trigger] self.task_map().dom().contains(k) && k.0 == account_id@,
    {
        let ghost es = task_entries(self.game_tasks@);
        proof {
            lemma_to_map_all(es);
        }
        let mut i: usize = 0;
        while i < self.game_tasks.len()
            invariant
                es == task_entries(self.game_tasks@),
                keys_unique(es),
                i <= es.len(),
                forall|j: int| 0 <= j < i ==> es[j].0.0 != account_id@,
            decreases self.game_tasks.len() - i,
        {
            if str_eq(self.game_tasks[i].key.account_id.as_str(), account_id) {
                proof {
                    lemma_to_map_all(es);
                    assert(self.task_map().dom().contains(es[i as int].0));
                }
                return true;
            }
            i = i + 1;
        }
        proof {
            assert forall|k: (Seq<char>, Seq<char>)|
                #[trigger] self.task_map().dom().contains(k) implies k.0 != account_id@ by {
                assert(has_key(es, k));
                let j = choose|j: int| 0 <= j < es.len() && #[trigger] es[j].0 == k;
            }
        }
        false
    }

    /// The runtime status an account returns to once an account event is
    /// handled again after an error: playing while one of its games is
    /// active, online otherwise.
    pub fn recovered_status(&self, account_id: &str) -> (status: &'static str)
        requires
            self.wf(),
        ensures
            status@ == if exists|k: (Seq<char>, Seq<char>)| #[trigger] self.active_set().contains(k) && k.0
                == account_id@ {
                "playing"@
            } else {
                "online"@
            },
    {
        let ghost es = active_entries(self.active_games@);
        proof {
            lemma_to_map_all(es);
        }
        let mut i: usize = 0;
        while i < self.active_games.len()
            invariant
                es == active_entries(self.active_games@),
                keys_unique(es),
                i <= es.len(),
                forall|j: int| 0 <= j < i ==> es[j].0.0 != account_id@,
            decreases self.active_games.len() - i,
        {
            if str_eq(self.active_games[i].account_id.as_str(), account_id) {
                proof {
                    lemma_to_map_all(es);
                    assert(self.active_set().contains(es[i as int].0));
                }
                return "playing";
            }
            i = i + 1;
        }
        proof {
            assert forall|k: (Seq<char>, Seq<char>)|
                #[trigger] self.active_set().contains(k) implies k.0 != account_id@ by {
                lemma_to_map_dom(es, k);
                assert(has_key(es, k));
                let j = choose|j: int| 0 <= j < es.len() && #[trigger] es[j].0 == k;
            }
        }
        "online"
    }

    /// Removes the account's finished game tasks, returning their keys so
    /// their handles can be joined.
    pub fn reap_finished_game_tasks(&mut self, account_id: &str) -> (reaped: Vec<GameKey>)
        requires
            old(self).wf(),
        ensures
            final(self).wf(),
            final(self).task_map() == to_map(
                filter_entries(task_entries(old(self).game_tasks@), not_finished_of::<()>(account_id@)),
            ),
            forall|k: (Seq<char>, Seq<char>)| #[trigger]
                final(self).task_map().dom().contains(k) == (old(self).task_map().dom().contains(k)
                    && !(k.0 == account_id@ && old(self).task_map()[k].1 == HandleState::Finished)),
            forall|k: (Seq<char>, Seq<char>)| #[trigger]
                final(self).task_map().dom().contains(k) ==> final(self).task_map()[k] == old(
                    self,
                ).task_map()[k],
            forall|j: int| 0 <= j < reaped@.len() ==> #[trigger] gk(reaped@[j]).0 == account_id@,
            final(self).supervisors@ == old(self).supervisors@,
            final(self).active_games@ == old(self).active_games@,
            final(self).active_intents@ == old(self).active_intents@,
            final(self).known@ == old(self).known@,
            final(self).uncertain@ == old(self).uncertain@,
            final(self).campaigns@ == old(self).campaigns@,
            final(self).quiescing == old(self).quiescing,
            final(self).supervisor_generation == old(self).supervisor_generation,
    {
        let ghost before = task_entries(self.game_tasks@);
        let ghost p = not_finished_of::<()>(account_id@);
        let mut kept: Vec<GameSlot> = Vec::new();
        let mut reaped: Vec<GameKey> = Vec::new();
        let mut i: usize = 0;
        while i < self.game_tasks.len()
            invariant
                task_entries(self.game_tasks@) == before,
                p == not_finished_of::<()>(account_id@),
                i <= before.len(),
                task_entries(kept@) == filter_entries(before.subrange(0, i as int), p),
                forall|j: int| 0 <= j < reaped@.len() ==> #[trigger] gk(reaped@[j]).0 == account_id@,
            decreases self.game_tasks.len() - i,
        {
            proof {
                assert(before.subrange(0, i + 1).drop_last() =~= before.subrange(0, i as int));
                assert(before.subrange(0, i + 1).last() == before[i as int]);
            }
            let task = &self.game_tasks[i];
            let finished_here = str_eq(task.key.account_id.as_str(), account_id) && task.handle
                == HandleState::Finished;
            if finished_here {
                reaped.push(task.key.clone());
            } else {
                let ghost prev = task_entries(kept@);
                kept.push(GameSlot { key: task.key.clone(), generation: task.generation, handle: task.handle });
                proof {
                    assert(task_entries(kept@) =~= prev.push(before[i as int]));
                }
            }
            i = i + 1;
        }
        proof {
            assert(before.subrange(0, before.len() as int) =~= before);
            lemma_filter_entries(before, p);
        }
        self.game_tasks = kept;
        reaped
    }

    /// Reserves the account's supervisor under a fresh generation. The
    /// counter advances on every attempt; admission closed for a handover
    /// refuses the start, and an account that already has a supervisor is
    /// left as it is.
    pub fn reserve_supervisor(&mut self, account_id: &str) -> (result: Result<Option<u64>, String>)
        requires
            old(self).wf(),
        ensures
            final(self).wf(),
            final(self).same_but_supervisors(*old(self)),
            final(self).supervisor_generation == wrap_inc(old(self).supervisor_generation),
            old(self).quiescing ==> (result matches Err(e) && e@
                == "QueenUI is changing runners; the account supervisor was not started"@
                && final(self).supervisors@ == old(self).supervisors@),
            !old(self).quiescing && old(self).supervisor_map().dom().contains(account_id@) ==> (
            result == Ok::<Option<u64>, String>(None) && final(self).supervisors@ == old(
                self,
            ).supervisors@),
            !old(self).quiescing && !old(self).supervisor_map().dom().contains(account_id@) ==> (
            result == Ok::<Option<u64>, String>(Some(sat_inc(old(self).supervisor_generation)))
                && final(self).supervisor_map() == old(self).supervisor_map().insert(
                account_id@,
                (sat_inc(old(self).supervisor_generation), HandleState::Absent),
            )),
    {
        let previous = self.supervisor_generation;
        self.supervisor_generation = if previous == u64::MAX {
            0
        } else {
            previous + 1
        };
        let generation = if previous == u64::MAX {
            u64::MAX
        } else {
            previous + 1
        };
        if self.quiescing {
            return Err(
                String::from_str("QueenUI is changing runners; the account supervisor was not started"),
            );
        }
        let ghost before = supervisor_entries(self.supervisors@);
        proof {
            lemma_to_map_all(before);
        }
        match self.find_supervisor(account_id) {
            Some(_) => Ok(None),
            None => {
                self.supervisors.push(
                    SupervisorSlot {
                        account_id: String::from_str(account_id),
                        generation,
                        handle: HandleState::Absent,
                    },
                );
                proof {
                    assert(supervisor_entries(self.supervisors@) =~= before.push(
                        (account_id@, (generation, HandleState::Absent)),
                    ));
                    lemma_push_new(before, account_id@, (generation, HandleState::Absent));
                }
                Ok(Some(generation))
            },
        }
    }

    /// Installs the launched supervisor's handle, if its generation still
    /// owns the account.
    pub fn install_supervisor(&mut self, account_id: &str, generation: u64) -> (installed: bool)
        requires
            old(self).wf(),
        ensures
            final(self).wf(),
            final(self).same_but_supervisors(*old(self)),
            final(self).supervisor_generation == old(self).supervisor_generation,
            installed == (old(self).supervisor_map().dom().contains(account_id@)
                && old(self).supervisor_map()[account_id@].0 == generation),
            installed ==> final(self).supervisor_map() == old(self).supervisor_map().insert(
                account_id@,
                (generation, HandleState::Running),
            ),
            !installed ==> final(self).supervisors@ == old(self).supervisors@,
    {
        let ghost before = supervisor_entries(self.supervisors@);
        proof {
            lemma_to_map_all(before);
        }
        match self.find_supervisor(account_id) {
            Some(i) => {
                proof {
                    assert(self.supervisor_map().dom().contains(before[i as int].0));
                }
                if self.supervisors[i].generation == generation {
                    let slot = SupervisorSlot {
                        account_id: self.supervisors[i].account_id.clone(),
                        generation,
                        handle: HandleState::Running,
                    };
                    self.supervisors.set(i, slot);
                    proof {
                        assert(supervisor_entries(self.supervisors@) =~= before.update(
                            i as int,
                            (before[i as int].0, (generation, HandleState::Running)),
                        ));
                        lemma_update_value(before, i as int, (generation, HandleState::Running));
                    }
                    true
                } else {
                    false
                }
            },
            None => false,
        }
    }

    /// Marks the account's supervisor of this generation finished.
    pub fn supervisor_finished(&mut self, account_id: &str, generation: u64)
        requires
            old(self).wf(),
        ensures
            final(self).wf(),
            final(self).same_but_supervisors(*old(self)),
            final(self).supervisor_generation == old(self).supervisor_generation,
            (old(self).supervisor_map().dom().contains(account_id@) && old(self).supervisor_map()[account_id@].0
                == generation) ==> final(self).supervisor_map() == old(self).supervisor_map().insert(
                account_id@,
                (generation, HandleState::Finished),
            ),
            !(old(self).supervisor_map().dom().contains(account_id@) && old(self).supervisor_map()[account_id@].0
                == generation) ==> final(self).supervisors@ == old(self).supervisors@,
    {
        let ghost before = supervisor_entries(self.supervisors@);
        proof {
            lemma_to_map_all(before);
        }
        match self.find_supervisor(account_id) {
            Some(i) => {
                proof {
                    assert(self.supervisor_map().dom().contains(before[i as int].0));
                }
                if self.supervisors[i].generation == generation {
                    let slot = SupervisorSlot {
                        account_id: self.supervisors[i].account_id.clone(),
                        generation,
                        handle: HandleState::Finished,
                    };
                    self.supervisors.set(i, slot);
                    proof {
                        assert(supervisor_entries(self.supervisors@) =~= before.update(
                            i as int,
                            (before[i as int].0, (generation, HandleState::Finished)),
                        ));
                        lemma_update_value(before, i as int, (generation, HandleState::Finished));
                    }
                }
            },
            None => {},
        }
    }

    /// Drops the account's supervisor reservation.
    pub fn remove_supervisor(&mut self, account_id: &str)
        requires
            old(self).wf(),
        ensures
            final(self).wf(),
            final(self).same_but_supervisors(*old(self)),
            final(self).supervisor_generation == old(self).supervisor_generation,
            final(self).supervisor_map() == old(self).supervisor_map().remove(account_id@),
    {
        let ghost before = supervisor_entries(self.supervisors@);
        proof {
            lemma_to_map_all(before);
        }
        match self.find_supervisor(account_id) {
            Some(i) => {
                self.supervisors.remove(i);
                proof {
                    assert(supervisor_entries(self.supervisors@) =~= before.remove(i as int));
                    lemma_remove_at(before, i as int);
                }
            },
            None => {
                proof {
                    assert(self.supervisor_map().remove(account_id@) =~= self.supervisor_map());
                }
            },
        }
    }
}

impl Ownership {
    /// Everything but the game tasks and the active games is unchanged
    /// from `other`.
    pub open spec fn same_but_games(self, other: Self) -> bool {
        &&& self.quiescing == other.quiescing
        &&& self.supervisor_generation == other.supervisor_generation
        &&& self.supervisors@ == other.supervisors@
        &&& self.active_intents@ == other.active_intents@
        &&& self.known@ == other.known@
        &&& self.uncertain@ == other.uncertain@
        &&& self.campaigns@ == other.campaigns@
    }

    fn remove_task_at(&mut self, i: usize)
        requires
            old(self).wf(),
            i < old(self).game_tasks@.len(),
        ensures
            final(self).wf(),
            final(self).same_but_games(*old(self)),
            final(self).active_games@ == old(self).active_games@,
            final(self).task_map() == old(self).task_map().remove(
                task_entries(old(self).game_tasks@)[i as int].0,
            ),
    {
        let ghost before = task_entries(self.game_tasks@);
        self.game_tasks.remove(i);
        proof {
            assert(task_entries(self.game_tasks@) =~= before.remove(i as int));
            lemma_remove_at(before, i as int);
        }
    }

    fn set_task_at(&mut self, i: usize, generation: u64, handle: HandleState)
        requires
            old(self).wf(),
            i < old(self).game_tasks@.len(),
        ensures
            final(self).wf(),
            final(self).same_but_games(*old(self)),
            final(self).active_games@ == old(self).active_games@,
            final(self).task_map() == old(self).task_map().insert(
                task_entries(old(self).game_tasks@)[i as int].0,
                (generation, handle),
            ),
    {
        let ghost before = task_entries(self.game_tasks@);
        let slot = GameSlot { key: self.game_tasks[i].key.clone(), generation, handle };
        self.game_tasks.set(i, slot);
        proof {
            assert(task_entries(self.game_tasks@) =~= before.update(
                i as int,
                (before[i as int].0, (generation, handle)),
            ));
            lemma_update_value(before, i as int, (generation, handle));
        }
    }

    fn remove_active(&mut self, account_id: &str, game_id: &str)
        requires
            old(self).wf(),
        ensures
            final(self).wf(),
            final(self).same_but_games(*old(self)),
            final(self).game_tasks@ == old(self).game_tasks@,
            final(self).active_set() == old(self).active_set().remove((account_id@, game_id@)),
    {
        let ghost before = active_entries(self.active_games@);
        proof {
            lemma_to_map_all(before);
        }
        match self.find_active(account_id, game_id) {
            Some(i) => {
                self.active_games.remove(i);
                proof {
                    assert(active_entries(self.active_games@) =~= before.remove(i as int));
                    lemma_remove_at(before, i as int);
                }
            },
            None => {
                proof {
                    assert(self.active_set().remove((account_id@, game_id@)) =~= self.active_set());
                }
            },
        }
    }

    /// Reserves the task of a game that started for an account, under the
    /// supervisor generation that saw it start. Admission closed for a
    /// handover defers the game (its intent is recorded by the caller); a
    /// stale generation or a game owned by another generation is refused;
    /// a game already active is left alone.
    pub fn reserve_game_task(&mut self, account_id: &str, game_id: &str, generation: u64, cancelled: bool) -> (r:
        GameReservation)
        requires
            old(self).wf(),
        ensures
            final(self).wf(),
            final(self).same_but_games(*old(self)),
            old(self).quiescing ==> (r matches GameReservation::Deferred(d) && d@ == QUIESCED_GAME_START@
                && final(self).game_tasks@ == old(self).game_tasks@ && final(self).active_games@ == old(
                self,
            ).active_games@),
            !old(self).quiescing && (cancelled || !old(self).supervisor_is_at(account_id@, generation)) ==> (
            r matches GameReservation::Refused(e) && e@
                == "The account generation ended before the game task was reserved"@
                && final(self).game_tasks@ == old(self).game_tasks@ && final(self).active_games@ == old(
                self,
            ).active_games@),
            !old(self).quiescing && !cancelled && old(self).supervisor_is_at(account_id@, generation)
                && old(self).task_map().dom().contains((account_id@, game_id@)) ==> (if old(
                self,
            ).task_map()[(account_id@, game_id@)].0 == generation {
                r matches GameReservation::AlreadyOwned
            } else {
                r matches GameReservation::Refused(e) && e@
                    == "A prior generation still owns this game task"@
            }) && final(self).game_tasks@ == old(self).game_tasks@ && final(self).active_games@ == old(
                self,
            ).active_games@,
            !old(self).quiescing && !cancelled && old(self).supervisor_is_at(account_id@, generation)
                && !old(self).task_map().dom().contains((account_id@, game_id@)) ==> (if old(
                self,
            ).active_set().contains((account_id@, game_id@)) {
                r matches GameReservation::AlreadyActive && final(self).task_map() == old(
                    self,
                ).task_map() && final(self).active_set() == old(self).active_set()
            } else {
                r matches GameReservation::Reserved && final(self).task_map() == old(
                    self,
                ).task_map().insert((account_id@, game_id@), (generation, HandleState::Absent))
                    && final(self).active_set() == old(self).active_set().insert(
                    (account_id@, game_id@),
                )
            }),
    {
        if self.quiescing {
            return GameReservation::Deferred(String::from_str(QUIESCED_GAME_START));
        }
        if cancelled || !self.supervisor_is_current(account_id, generation) {
            return GameReservation::Refused(
                String::from_str("The account generation ended before the game task was reserved"),
            );
        }
        let ghost tasks = task_entries(self.game_tasks@);
        let ghost actives = active_entries(self.active_games@);
        proof {
            lemma_to_map_all(tasks);
            lemma_to_map_all(actives);
        }
        match self.find_task(account_id, game_id) {
            Some(i) => {
                proof {
                    assert(self.task_map().dom().contains(tasks[i as int].0));
                }
                if self.game_tasks[i].generation == generation {
                    GameReservation::AlreadyOwned
                } else {
                    GameReservation::Refused(
                        String::from_str("A prior generation still owns this game task"),
                    )
                }
            },
            None => {
                match self.find_active(account_id, game_id) {
                    Some(j) => {
                        proof {
                            assert(self.active_set().contains(actives[j as int].0));
                        }
                        GameReservation::AlreadyActive
                    },
                    None => {
                        self.game_tasks.push(
                            GameSlot {
                                key: GameKey {
                                    account_id: String::from_str(account_id),
                                    game_id: String::from_str(game_id),
                                },
                                generation,
                                handle: HandleState::Absent,
                            },
                        );
                        proof {
                            assert(task_entries(self.game_tasks@) =~= tasks.push(
                                ((account_id@, game_id@), (generation, HandleState::Absent)),
                            ));
                            lemma_push_new(
                                tasks,
                                (account_id@, game_id@),
                                (generation, HandleState::Absent),
                            );
                        }
                        self.active_games.push(
                            GameKey {
                                account_id: String::from_str(account_id),
                                game_id: String::from_str(game_id),
                            },
                        );
                        proof {
                            assert(active_entries(self.active_games@) =~= actives.push(
                                ((account_id@, game_id@), ()),
                            ));
                            lemma_push_new(actives, (account_id@, game_id@), ());
                        }
                        GameReservation::Reserved
                    },
                }
            },
        }
    }

    /// Whether the account's supervisor is reserved under this generation.
    pub open spec fn supervisor_is_at(self, account_id: Seq<char>, generation: u64) -> bool {
        self.supervisor_map().dom().contains(account_id) && self.supervisor_map()[account_id].0
            == generation
    }

    /// Undoes a reservation whose durable intent could not be written.
    pub fn release_game_reservation(&mut self, account_id: &str, game_id: &str)
        requires
            old(self).wf(),
        ensures
            final(self).wf(),
            final(self).same_but_games(*old(self)),
            final(self).active_set() == old(self).active_set().remove((account_id@, game_id@)),
            final(self).task_map() == old(self).task_map().remove((account_id@, game_id@)),
    {
        self.remove_active(account_id, game_id);
        proof {
            lemma_to_map_all(task_entries(self.game_tasks@));
        }
        match self.find_task(account_id, game_id) {
            Some(i) => self.remove_task_at(i),
            None => {
                proof {
                    assert(self.task_map().remove((account_id@, game_id@)) =~= self.task_map());
                }
            },
        }
    }

    /// Installs a launched game task's handle, if its generation still owns
    /// the task.
    pub fn install_game_task(&mut self, account_id: &str, game_id: &str, generation: u64) -> (installed: bool)
        requires
            old(self).wf(),
        ensures
            final(self).wf(),
            final(self).same_but_games(*old(self)),
            final(self).active_games@ == old(self).active_games@,
            installed == (old(self).task_map().dom().contains((account_id@, game_id@)) && old(
                self,
            ).task_map()[(account_id@, game_id@)].0 == generation),
            installed ==> final(self).task_map() == old(self).task_map().insert(
                (account_id@, game_id@),
                (generation, HandleState::Running),
            ),
            !installed ==> final(self).game_tasks@ == old(self).game_tasks@,
    {
        proof {
            lemma_to_map_all(task_entries(self.game_tasks@));
        }
        match self.find_task(account_id, game_id) {
            Some(i) => {
                proof {
                    assert(self.task_map().dom().contains(task_entries(self.game_tasks@)[i as int].0));
                }
                if self.game_tasks[i].generation == generation {
                    self.set_task_at(i, generation, HandleState::Running);
                    true
                } else {
                    false
                }
            },
            None => false,
        }
    }

    /// A game task ended: its game is no longer active, and the task of this
    /// generation is marked finished.
    pub fn finish_game_task(&mut self, account_id: &str, game_id: &str, generation: u64)
        requires
            old(self).wf(),
        ensures
            final(self).wf(),
            final(self).same_but_games(*old(self)),
            final(self).active_set() == old(self).active_set().remove((account_id@, game_id@)),
            (old(self).task_map().dom().contains((account_id@, game_id@)) && old(self).task_map()[(
                account_id@,
                game_id@,
            )].0 == generation) ==> final(self).task_map() == old(self).task_map().insert(
                (account_id@, game_id@),
                (generation, HandleState::Finished),
            ),
            !(old(self).task_map().dom().contains((account_id@, game_id@)) && old(self).task_map()[(
                account_id@,
                game_id@,
            )].0 == generation) ==> final(self).task_map() == old(self).task_map(),
    {
        self.remove_active(account_id, game_id);
        proof {
            lemma_to_map_all(task_entries(self.game_tasks@));
        }
        match self.find_task(account_id, game_id) {
            Some(i) => {
                proof {
                    assert(self.task_map().dom().contains(task_entries(self.game_tasks@)[i as int].0));
                }
                if self.game_tasks[i].generation == generation {
                    self.set_task_at(i, generation, HandleState::Finished);
                }
            },
            None => {},
        }
    }

    /// What an out-of-band stop cancels. Stopping a campaign cancels only
    /// its controller: the account's supervisor and its running games carry
    /// on, so those games finish. Stopping the account also cancels its
    /// supervisor, if one is reserved, and every game task of the account.
    pub fn interrupt_plan(&self, account_id: &str, whole_account: bool) -> (plan: InterruptPlan)
        requires
            self.wf(),
        ensures
            plan.campaign,
            !whole_account ==> !plan.supervisor && plan.games@.len() == 0,
            whole_account ==> plan.supervisor == self.supervisor_map().dom().contains(account_id@),
            whole_account ==> views(plan.games@) == filter_entries(
                task_entries(self.game_tasks@),
                of_account::<(u64, HandleState)>(account_id@),
            ).map_values(|e: ((Seq<char>, Seq<char>), (u64, HandleState))| e.0.1),
    {
        if !whole_account {
            return InterruptPlan { campaign: true, supervisor: false, games: Vec::new() };
        }
        let supervisor = self.supervises(account_id);
        let tasks = self.account_tasks(account_id);
        let ghost es = task_entries(tasks@);
        let mut games: Vec<String> = Vec::new();
        let mut i: usize = 0;
        while i < tasks.len()
            invariant
                es == task_entries(tasks@),
                i <= tasks@.len(),
                views(games@) == es.subrange(0, i as int).map_values(
                    |e: ((Seq<char>, Seq<char>), (u64, HandleState))| e.0.1,
                ),
            decreases tasks.len() - i,
        {
            let ghost prev = views(games@);
            games.push(tasks[i].key.game_id.clone());
            proof {
                assert(es[i as int].0.1 == tasks@[i as int].key.game_id@);
                assert(views(games@) =~= prev.push(tasks@[i as int].key.game_id@));
                assert(es.subrange(0, i + 1).map_values(|e: ((Seq<char>, Seq<char>), (u64, HandleState))| e.0.1)
                    =~= es.subrange(0, i as int).map_values(
                    |e: ((Seq<char>, Seq<char>), (u64, HandleState))| e.0.1,
                ).push(es[i as int].0.1));
            }
            i = i + 1;
        }
        proof {
            assert(es.subrange(0, es.len() as int) =~= es);
        }
        InterruptPlan { campaign: true, supervisor, games }
    }

    /// The account's game tasks, as they are.
    fn account_tasks(&self, account_id: &str) -> (games: Vec<GameSlot>)
        requires
            self.wf(),
        ensures
            task_entries(games@) == filter_entries(
                task_entries(self.game_tasks@),
                of_account::<(u64, HandleState)>(account_id@),
            ),
    {
        let ghost before = task_entries(self.game_tasks@);
        let ghost p = of_account::<(u64, HandleState)>(account_id@);
        let mut games: Vec<GameSlot> = Vec::new();
        let mut i: usize = 0;
        while i < self.game_tasks.len()
            invariant
                before == task_entries(self.game_tasks@),
                p == of_account::<(u64, HandleState)>(account_id@),
                i <= before.len(),
                task_entries(games@) == filter_entries(before.subrange(0, i as int), p),
            decreases before.len() - i,
        {
            proof {
                assert(before.subrange(0, i + 1).drop_last() =~= before.subrange(0, i as int));
                assert(before.subrange(0, i + 1).last() == before[i as int]);
            }
            let t = &self.game_tasks[i];
            if str_eq(t.key.account_id.as_str(), account_id) {
                let ghost prev = task_entries(games@);
                games.push(GameSlot { key: t.key.clone(), generation: t.generation, handle: t.handle });
                proof {
                    assert(task_entries(games@) =~= prev.push(before[i as int]));
                }
            }
            i = i + 1;
        }
        proof {
            assert(before.subrange(0, before.len() as int) =~= before);
        }
        games
    }

    /// Takes the handles of the account's game tasks for joining.
    fn take_task_handles(&mut self, account_id: &str)
        requires
            old(self).wf(),
        ensures
            final(self).wf(),
            final(self).supervisors@ == old(self).supervisors@,
            final(self).active_games@ == old(self).active_games@,
            final(self).active_intents@ == old(self).active_intents@,
            final(self).known@ == old(self).known@,
            final(self).uncertain@ == old(self).uncertain@,
            final(self).campaigns@ == old(self).campaigns@,
            final(self).quiescing == old(self).quiescing,
            final(self).supervisor_generation == old(self).supervisor_generation,
            task_entries(final(self).game_tasks@) == task_entries(old(self).game_tasks@).map_values(taken_fn(account_id@)),
    {
        let ghost before = task_entries(self.game_tasks@);
        let mut new_tasks: Vec<GameSlot> = Vec::new();
        let mut i: usize = 0;
        while i < self.game_tasks.len()
            invariant
                before == task_entries(self.game_tasks@),
                i <= before.len(),
                task_entries(new_tasks@) == before.subrange(0, i as int).map_values(taken_fn(account_id@)),
            decreases before.len() - i,
        {
            let t = &self.game_tasks[i];
            let ghost prev = task_entries(new_tasks@);
            let handle = if str_eq(t.key.account_id.as_str(), account_id) {
                HandleState::Absent
            } else {
                t.handle
            };
            new_tasks.push(GameSlot { key: t.key.clone(), generation: t.generation, handle });
            proof {
                let cur = task_entries(new_tasks@);
                let target = before.subrange(0, i + 1).map_values(taken_fn(account_id@));
                assert(before.len() == self.game_tasks@.len());
                assert(prev.len() == i);
                assert(new_tasks@.len() == i + 1);
                assert(cur.len() == target.len());
                assert forall|j: int| 0 <= j < cur.len() implies cur[j] == target[j] by {
                    if j < i {
                        assert(cur[j] == prev[j]);
                        assert(prev[j] == before.subrange(0, i as int).map_values(taken_fn(account_id@))[j]);
                    } else {
                        assert(cur[j] == taken_if(before[i as int], account_id@));
                    }
                }
                assert(cur =~= target);
            }
            i = i + 1;
        }
        proof {
            assert(before.subrange(0, before.len() as int) =~= before);
            let cur = task_entries(new_tasks@);
            assert forall|a: int, b: int| 0 <= a < cur.len() && 0 <= b < cur.len() && a != b implies cur[a].0
                != cur[b].0 by {
                assert(cur[a].0 == before[a].0 && cur[b].0 == before[b].0);
            }
        }
        self.game_tasks = new_tasks;
    }

    /// The first half of stopping an account: the handles of its supervisor
    /// and game tasks are taken for joining, and their generations are
    /// fenced.
    pub fn begin_stop(&mut self, account_id: &str) -> (fence: StopFence)
        requires
            old(self).wf(),
        ensures
            final(self).wf(),
            final(self).active_games@ == old(self).active_games@,
            final(self).active_intents@ == old(self).active_intents@,
            final(self).known@ == old(self).known@,
            final(self).uncertain@ == old(self).uncertain@,
            final(self).campaigns@ == old(self).campaigns@,
            final(self).quiescing == old(self).quiescing,
            final(self).supervisor_generation == old(self).supervisor_generation,
            fence.supervisor_generation == if old(self).supervisor_map().dom().contains(account_id@) {
                Some(old(self).supervisor_map()[account_id@].0)
            } else {
                None::<u64>
            },
            final(self).supervisor_map() == if old(self).supervisor_map().dom().contains(account_id@) {
                old(self).supervisor_map().insert(
                    account_id@,
                    (old(self).supervisor_map()[account_id@].0, HandleState::Absent),
                )
            } else {
                old(self).supervisor_map()
            },
            final(self).task_map().dom() == old(self).task_map().dom(),
            forall|k: (Seq<char>, Seq<char>)| #[trigger]
                final(self).task_map().dom().contains(k) ==> final(self).task_map()[k] == if k.0
                    == account_id@ {
                    (old(self).task_map()[k].0, HandleState::Absent)
                } else {
                    old(self).task_map()[k]
                },
            keys_unique(task_entries(fence.games@)),
            forall|k: (Seq<char>, Seq<char>)| #[trigger]
                to_map(task_entries(fence.games@)).dom().contains(k) == (old(
                    self,
                ).task_map().dom().contains(k) && k.0 == account_id@),
            forall|k: (Seq<char>, Seq<char>)| #[trigger]
                to_map(task_entries(fence.games@)).dom().contains(k) ==> to_map(
                    task_entries(fence.games@),
                )[k] == old(self).task_map()[k],
    {
        let ghost sup_before = supervisor_entries(self.supervisors@);
        proof {
            lemma_to_map_all(sup_before);
        }
        let supervisor_generation = match self.find_supervisor(account_id) {
            Some(i) => {
                proof {
                    assert(self.supervisor_map().dom().contains(sup_before[i as int].0));
                }
                let generation = self.supervisors[i].generation;
                let slot = SupervisorSlot {
                    account_id: self.supervisors[i].account_id.clone(),
                    generation,
                    handle: HandleState::Absent,
                };
                self.supervisors.set(i, slot);
                proof {
                    assert(supervisor_entries(self.supervisors@) =~= sup_before.update(
                        i as int,
                        (sup_before[i as int].0, (generation, HandleState::Absent)),
                    ));
                    lemma_update_value(sup_before, i as int, (generation, HandleState::Absent));
                }
                Some(generation)
            },
            None => None,
        };
        let ghost tasks_before = task_entries(self.game_tasks@);
        let games = self.account_tasks(account_id);
        self.take_task_handles(account_id);
        proof {
            let cur = task_entries(self.game_tasks@);
            lemma_filter_entries(tasks_before, of_account::<(u64, HandleState)>(account_id@));
            lemma_to_map_all(tasks_before);
            lemma_to_map_all(cur);
            assert forall|k: (Seq<char>, Seq<char>)| has_key(cur, k) == has_key(tasks_before, k) by {
                if has_key(cur, k) {
                    let j = choose|j: int| 0 <= j < cur.len() && #[trigger] cur[j].0 == k;
                    assert(tasks_before[j].0 == k);
                }
                if has_key(tasks_before, k) {
                    let j = choose|j: int| 0 <= j < tasks_before.len() && #[trigger] tasks_before[j].0 == k;
                    assert(cur[j].0 == k);
                }
            }
            assert(to_map(cur).dom() =~= to_map(tasks_before).dom());
            assert forall|k: (Seq<char>, Seq<char>)| #[trigger]
                to_map(cur).dom().contains(k) implies to_map(cur)[k] == if k.0 == account_id@ {
                (to_map(tasks_before)[k].0, HandleState::Absent)
            } else {
                to_map(tasks_before)[k]
            } by {
                let j = choose|j: int| 0 <= j < cur.len() && #[trigger] cur[j].0 == k;
                assert(to_map(cur).dom().contains(cur[j].0));
                assert(to_map(tasks_before).dom().contains(tasks_before[j].0));
            }
        }
        StopFence { supervisor_generation, games }
    }
}

/// A fenced task is still the one the stop fenced: same key, same
/// generation.
pub open spec fn fenced(
    fence: Seq<((Seq<char>, Seq<char>), (u64, HandleState))>,
    upto: int,
    k: (Seq<char>, Seq<char>),
    generation: u64,
) -> bool {
    exists|j: int| 0 <= j < upto && #[trigger] fence[j].0 == k && fence[j].1.0 == generation
}

/// The outcome of a stop from the errors it collected.
pub fn stop_outcome(errors: &Vec<String>) -> (result: Result<(), String>)
    ensures
        errors@.len() == 0 <==> result is Ok,
        result matches Err(e) ==> e@ == joined(views(errors@), "; "@),
{
    if errors.len() == 0 {
        Ok(())
    } else {
        Err(join_strings(errors, "; "))
    }
}

impl Ownership {
    /// The second half of stopping an account, once every taken handle has
    /// been joined: the supervisor and the game tasks are released only if
    /// the generation the stop fenced still owns them, and the account's
    /// games are no longer active. Returns the ids of the games the account
    /// still has durable intents for (to resign on request).
    pub fn finish_stop(&mut self, account_id: &str, fence: &StopFence) -> (live: Vec<String>)
        requires
            old(self).wf(),
            keys_unique(task_entries(fence.games@)),
        ensures
            final(self).wf(),
            final(self).supervisor_map() == match fence.supervisor_generation {
                Some(g) => if old(self).supervisor_is_at(account_id@, g) {
                    old(self).supervisor_map().remove(account_id@)
                } else {
                    old(self).supervisor_map()
                },
                None => old(self).supervisor_map(),
            },
            forall|k: (Seq<char>, Seq<char>)| #[trigger]
                final(self).task_map().dom().contains(k) == (old(self).task_map().dom().contains(k)
                    && !fenced(
                    task_entries(fence.games@),
                    fence.games@.len() as int,
                    k,
                    old(self).task_map()[k].0,
                )),
            forall|k: (Seq<char>, Seq<char>)| #[trigger]
                final(self).task_map().dom().contains(k) ==> final(self).task_map()[k] == old(
                    self,
                ).task_map()[k],
            forall|k: (Seq<char>, Seq<char>)| #[trigger]
                final(self).active_set().contains(k) == (old(self).active_set().contains(k) && k.0
                    != account_id@),
            final(self).active_intents@ == old(self).active_intents@,
            final(self).known@ == old(self).known@,
            final(self).uncertain@ == old(self).uncertain@,
            final(self).campaigns@ == old(self).campaigns@,
            final(self).quiescing == old(self).quiescing,
            final(self).supervisor_generation == old(self).supervisor_generation,
            views(live@).no_duplicates(),
            forall|g: Seq<char>| #[trigger] views(live@).contains(g) == old(self).intent_set().contains(
                (account_id@, g),
            ),
    {
        match fence.supervisor_generation {
            Some(g) => {
                if self.supervisor_is_current(account_id, g) {
                    self.remove_supervisor(account_id);
                }
            },
            None => {},
        }
        let ghost fe = task_entries(fence.games@);
        let ghost start = *self;
        let ghost start_map = self.task_map();
        assert(start.game_tasks@ == old(self).game_tasks@);
        assert(start_map == old(self).task_map());
        let mut i: usize = 0;
        while i < fence.games.len()
            invariant
                self.wf(),
                fe == task_entries(fence.games@),
                keys_unique(fe),
                i <= fe.len(),
                self.supervisors@ == start.supervisors@,
                self.active_games@ == start.active_games@,
                self.active_intents@ == start.active_intents@,
                self.known@ == start.known@,
                self.uncertain@ == start.uncertain@,
                self.campaigns@ == start.campaigns@,
                self.quiescing == start.quiescing,
                self.supervisor_generation == start.supervisor_generation,
                start_map == start.task_map(),
                forall|k: (Seq<char>, Seq<char>)| #[trigger]
                    self.task_map().dom().contains(k) == (start_map.dom().contains(k) && !fenced(
                        fe,
                        i as int,
                        k,
                        start_map[k].0,
                    )),
                forall|k: (Seq<char>, Seq<char>)| #[trigger]
                    self.task_map().dom().contains(k) ==> self.task_map()[k] == start_map[k],
            decreases fe.len() - i,
        {
            let slot = &fence.games[i];
            let ghost before_map = self.task_map();
            proof {
                lemma_to_map_all(task_entries(self.game_tasks@));
            }
            match self.find_task(slot.key.account_id.as_str(), slot.key.game_id.as_str()) {
                Some(j) => {
                    proof {
                        assert(self.task_map().dom().contains(task_entries(self.game_tasks@)[j as int].0));
                    }
                    if self.game_tasks[j].generation == slot.generation {
                        self.remove_task_at(j);
                    }
                },
                None => {},
            }
            proof {
                let fk = fe[i as int].0;
                assert forall|k: (Seq<char>, Seq<char>)| #[trigger]
                    self.task_map().dom().contains(k) == (start_map.dom().contains(k) && !fenced(
                        fe,
                        i + 1,
                        k,
                        start_map[k].0,
                    )) by {
                    if fenced(fe, i + 1, k, start_map[k].0) && !fenced(fe, i as int, k, start_map[k].0) {
                        let m = choose|m: int|
                            0 <= m < i + 1 && #[trigger] fe[m].0 == k && fe[m].1.0 == start_map[k].0;
                        assert(m == i);
                    }
                    if fenced(fe, i as int, k, start_map[k].0) {
                        let m = choose|m: int|
                            0 <= m < i && #[trigger] fe[m].0 == k && fe[m].1.0 == start_map[k].0;
                        assert(fe[m].0 == k);
                    }
                    if k == fk && before_map.dom().contains(k) {
                        assert(!fenced(fe, i as int, k, start_map[k].0)) by {
                            if fenced(fe, i as int, k, start_map[k].0) {
                                let m = choose|m: int|
                                    0 <= m < i && #[trigger] fe[m].0 == k && fe[m].1.0 == start_map[k].0;
                                assert(fe[m].0 == fe[i as int].0);
                            }
                        }
                    }
                }
            }
            i = i + 1;
        }
        let ghost mid_tasks = self.game_tasks@;
        proof {
            assert(fe.len() == fence.games@.len());
            assert forall|k: (Seq<char>, Seq<char>)| #[trigger]
                to_map(task_entries(mid_tasks)).dom().contains(k) == (old(self).task_map().dom().contains(k)
                    && !fenced(fe, fence.games@.len() as int, k, old(self).task_map()[k].0)) by {
                assert(self.task_map().dom().contains(k) == (start_map.dom().contains(k) && !fenced(
                    fe,
                    i as int,
                    k,
                    start_map[k].0,
                )));
            }
            assert forall|k: (Seq<char>, Seq<char>)| #[trigger]
                to_map(task_entries(mid_tasks)).dom().contains(k) implies to_map(task_entries(mid_tasks))[k]
                    == old(self).task_map()[k] by {
                assert(self.task_map().dom().contains(k));
            }
        }
        let ghost before_active = active_entries(self.active_games@);
        let ghost p = other_account::<()>(account_id@);
        let mut kept: Vec<GameKey> = Vec::new();
        let mut a: usize = 0;
        while a < self.active_games.len()
            invariant
                before_active == active_entries(self.active_games@),
                self.game_tasks@ == mid_tasks,
                self.supervisors@ == start.supervisors@,
                self.active_intents@ == old(self).active_intents@,
                self.known@ == old(self).known@,
                self.uncertain@ == old(self).uncertain@,
                self.campaigns@ == old(self).campaigns@,
                self.quiescing == old(self).quiescing,
                self.supervisor_generation == old(self).supervisor_generation,
                keys_unique(supervisor_entries(self.supervisors@)),
                keys_unique(task_entries(self.game_tasks@)),
                keys_unique(intent_entries(self.active_intents@)),
                keys_unique(known_entries(self.known@)),
                keys_unique(uncertain_entries(self.uncertain@)),
                keys_unique(campaign_entries(self.campaigns@)),
                keys_unique(before_active),
                forall|k: (Seq<char>, Seq<char>)| #[trigger]
                    to_map(task_entries(mid_tasks)).dom().contains(k) == (old(
                        self,
                    ).task_map().dom().contains(k) && !fenced(
                        fe,
                        fence.games@.len() as int,
                        k,
                        old(self).task_map()[k].0,
                    )),
                forall|k: (Seq<char>, Seq<char>)| #[trigger]
                    to_map(task_entries(mid_tasks)).dom().contains(k) ==> to_map(
                        task_entries(mid_tasks),
                    )[k] == old(self).task_map()[k],
                p == other_account::<()>(account_id@),
                a <= before_active.len(),
                active_entries(kept@) == filter_entries(before_active.subrange(0, a as int), p),
            decreases before_active.len() - a,
        {
            proof {
                assert(before_active.subrange(0, a + 1).drop_last() =~= before_active.subrange(
                    0,
                    a as int,
                ));
                assert(before_active.subrange(0, a + 1).last() == before_active[a as int]);
            }
            if !str_eq(self.active_games[a].account_id.as_str(), account_id) {
                let ghost prev = active_entries(kept@);
                kept.push(self.active_games[a].clone());
                proof {
                    assert(active_entries(kept@) =~= prev.push(before_active[a as int]));
                }
            }
            a = a + 1;
        }
        proof {
            assert(before_active.subrange(0, before_active.len() as int) =~= before_active);
            lemma_filter_entries(before_active, p);
            lemma_to_map_all(before_active);
        }
        self.active_games = kept;
        proof {
            assert(self.game_tasks@ == mid_tasks);
            assert forall|k: (Seq<char>, Seq<char>)| #[trigger]
                self.active_set().contains(k) == (old(self).active_set().contains(k) && k.0
                    != account_id@) by {
                if old(self).active_set().contains(k) && k.0 != account_id@ {
                    assert(p((k, to_map(before_active)[k])));
                }
            }
        }
        self.intents_of(account_id)
    }

    /// The game ids of the account's durable intents, in the order they
    /// were recorded.
    pub fn intent_games_of(&self, account_id: &str) -> (ids: Vec<String>)
        ensures
            views(ids@) == intent_games(self.active_intents@, account_id@),
    {
        let mut ids: Vec<String> = Vec::new();
        let mut i: usize = 0;
        while i < self.active_intents.len()
            invariant
                i <= self.active_intents@.len(),
                views(ids@) == intent_games(self.active_intents@.subrange(0, i as int), account_id@),
            decreases self.active_intents.len() - i,
        {
            proof {
                let next = self.active_intents@.subrange(0, i + 1);
                assert(next.drop_last() =~= self.active_intents@.subrange(0, i as int));
                assert(next.last() == self.active_intents@[i as int]);
            }
            if str_eq(self.active_intents[i].account_id.as_str(), account_id) {
                let ghost prev = views(ids@);
                ids.push(self.active_intents[i].game_id.clone());
                proof {
                    assert(views(ids@) =~= prev.push(self.active_intents@[i as int].game_id@));
                }
            }
            i = i + 1;
        }
        proof {
            assert(self.active_intents@.subrange(0, self.active_intents@.len() as int) =~= self.active_intents@);
        }
        ids
    }

    /// The games a running account resumes after a refused runner switch:
    /// those Lichess lists as ongoing together with those it durably
    /// intends, each once, in lexicographic order.
    pub fn games_to_resume(&self, account_id: &str, ongoing: &Vec<String>) -> (games: Vec<String>)
        ensures
            views(games@) == dedup_sorted(
                (views(ongoing@) + intent_games(self.active_intents@, account_id@)).sort_by(lex_le_fn()),
            ),
    {
        let intents = self.intent_games_of(account_id);
        let mut all: Vec<String> = Vec::new();
        let mut i: usize = 0;
        while i < ongoing.len()
            invariant
                i <= ongoing@.len(),
                views(all@) == views(ongoing@).subrange(0, i as int),
            decreases ongoing.len() - i,
        {
            let ghost prev = views(all@);
            all.push(ongoing[i].clone());
            proof {
                assert(views(all@) =~= prev.push(ongoing@[i as int]@));
                assert(views(ongoing@)[i as int] == ongoing@[i as int]@);
                assert(views(all@) =~= views(ongoing@).subrange(0, i + 1));
            }
            i = i + 1;
        }
        let mut k: usize = 0;
        while k < intents.len()
            invariant
                k <= intents@.len(),
                views(all@) == views(ongoing@) + views(intents@).subrange(0, k as int),
            decreases intents.len() - k,
        {
            let ghost prev = views(all@);
            all.push(intents[k].clone());
            proof {
                assert(views(all@) =~= prev.push(intents@[k as int]@));
                assert(views(intents@)[k as int] == intents@[k as int]@);
                assert(views(all@) =~= views(ongoing@) + views(intents@).subrange(0, k + 1));
            }
            k = k + 1;
        }
        proof {
            assert(views(intents@).subrange(0, intents@.len() as int) =~= views(intents@));
        }
        let sorted = sort_strings(&all);
        dedup_adjacent(&sorted)
    }

    /// The game ids of the account's durable intents.
    fn intents_of(&self, account_id: &str) -> (ids: Vec<String>)
        requires
            self.wf(),
        ensures
            views(ids@).no_duplicates(),
            forall|g: Seq<char>| #[trigger] views(ids@).contains(g) == self.intent_set().contains(
                (account_id@, g),
            ),
    {
        let ghost es = intent_entries(self.active_intents@);
        proof {
            lemma_to_map_all(es);
        }
        let mut ids: Vec<String> = Vec::new();
        let mut i: usize = 0;
        while i < self.active_intents.len()
            invariant
                es == intent_entries(self.active_intents@),
                keys_unique(es),
                i <= es.len(),
                views(ids@).no_duplicates(),
                forall|g: Seq<char>| #[trigger] views(ids@).contains(g) == exists|m: int|
                    0 <= m < i && #[trigger] es[m].0 == (account_id@, g),
            decreases es.len() - i,
        {
            let ghost prev = views(ids@);
            if str_eq(self.active_intents[i].account_id.as_str(), account_id) {
                ids.push(self.active_intents[i].game_id.clone());
                proof {
                    let g_new = es[i as int].0.1;
                    assert(views(ids@) =~= prev.push(g_new));
                    if prev.contains(g_new) {
                        let m = choose|m: int| 0 <= m < i && #[trigger] es[m].0 == (account_id@, g_new);
                        assert(es[m].0 == es[i as int].0);
                    }
                    assert forall|g: Seq<char>| #[trigger] views(ids@).contains(g) == exists|m: int|
                        0 <= m < i + 1 && #[trigger] es[m].0 == (account_id@, g) by {
                        if g == g_new {
                            assert(views(ids@)[prev.len() as int] == g);
                        } else {
                            if views(ids@).contains(g) {
                                let x = choose|x: int| 0 <= x < views(ids@).len() && views(ids@)[x] == g;
                                assert(prev[x] == g);
                            }
                            if prev.contains(g) {
                                let x = choose|x: int| 0 <= x < prev.len() && prev[x] == g;
                                assert(views(ids@)[x] == g);
                            }
                        }
                    }
                }
            } else {
                proof {
                    assert forall|g: Seq<char>| #[trigger] views(ids@).contains(g) == exists|m: int|
                        0 <= m < i + 1 && #[trigger] es[m].0 == (account_id@, g) by {
                        if exists|m: int| 0 <= m < i + 1 && #[trigger] es[m].0 == (account_id@, g) {
                            let m = choose|m: int| 0 <= m < i + 1 && #[trigger] es[m].0 == (account_id@, g);
                            assert(m != i);
                        }
                    }
                }
            }
            i = i + 1;
        }
        proof {
            assert forall|g: Seq<char>| #[trigger] views(ids@).contains(g) == self.intent_set().contains(
                (account_id@, g),
            ) by {
                if self.intent_set().contains((account_id@, g)) {
                    assert(has_key(es, (account_id@, g)));
                    let m = choose|m: int| 0 <= m < es.len() && #[trigger] es[m].0 == (account_id@, g);
                }
            }
        }
        ids
    }
}

pub open spec fn kv(v: Seq<GameKey>) -> Seq<(Seq<char>, Seq<char>)> {
    v.map_values(|k: GameKey| gk(k))
}

fn key_seen(seen: &Vec<GameKey>, account_id: &str, game_id: &str) -> (found: bool)
    ensures
        found == kv(seen@).contains((account_id@, game_id@)),
{
    let mut i: usize = 0;
    while i < seen.len()
        invariant
            i <= seen@.len(),
            forall|j: int| 0 <= j < i ==> kv(seen@)[j] != (account_id@, game_id@),
        decreases seen.len() - i,
    {
        if str_eq(seen[i].account_id.as_str(), account_id) && str_eq(seen[i].game_id.as_str(), game_id) {
            proof {
                assert(kv(seen@)[i as int] == (account_id@, game_id@));
            }
            return true;
        }
        i = i + 1;
    }
    false
}

fn note_key(seen: &mut Vec<GameKey>, account_id: &String, game_id: &String)
    requires
        kv(old(seen)@).no_duplicates(),
    ensures
        kv(final(seen)@).no_duplicates(),
        forall|k: (Seq<char>, Seq<char>)| #[trigger]
            kv(final(seen)@).contains(k) == (kv(old(seen)@).contains(k) || k == (
                account_id@,
                game_id@,
            )),
{
    if !key_seen(seen, account_id.as_str(), game_id.as_str()) {
        let ghost before = kv(seen@);
        seen.push(GameKey { account_id: account_id.clone(), game_id: game_id.clone() });
        proof {
            let cur = kv(seen@);
            assert(cur =~= before.push((account_id@, game_id@)));
            assert forall|k: (Seq<char>, Seq<char>)| #[trigger]
                cur.contains(k) == (before.contains(k) || k == (account_id@, game_id@)) by {
                if cur.contains(k) && k != (account_id@, game_id@) {
                    let x = choose|x: int| 0 <= x < cur.len() && cur[x] == k;
                    assert(before[x] == k);
                }
                if before.contains(k) {
                    let x = choose|x: int| 0 <= x < before.len() && before[x] == k;
                    assert(cur[x] == k);
                }
                if k == (account_id@, game_id@) {
                    assert(cur[before.len() as int] == k);
                }
            }
        }
    }
}

/// The first occurrence of each element, in order.
pub open spec fn first_occurrences(s: Seq<Seq<char>>) -> Seq<Seq<char>>
    decreases s.len(),
{
    if s.len() == 0 {
        s
    } else {
        let f = first_occurrences(s.drop_last());
        if f.contains(s.last()) {
            f
        } else {
            f.push(s.last())
        }
    }
}

/// How many known challenges an account owns.
pub open spec fn known_count(es: Seq<((Seq<char>, Seq<char>), Seq<char>)>, a: Seq<char>) -> nat
    decreases es.len(),
{
    if es.len() == 0 {
        0
    } else {
        known_count(es.drop_last(), a) + (if es.last().0.0 == a {
            1nat
        } else {
            0nat
        })
    }
}

pub open spec fn max3(x: nat, y: nat, z: nat) -> nat {
    let m = if x > y { x } else { y };
    if m > z { m } else { z }
}

/// The sum of the pending campaign challenges.
pub open spec fn pending_total(es: Seq<(Seq<char>, u32)>) -> nat
    decreases es.len(),
{
    if es.len() == 0 {
        0
    } else {
        pending_total(es.drop_last()) + (es.last().1 as nat)
    }
}

impl Ownership {
    /// The games the fleet owns: active games, game tasks that have not
    /// finished, and durable intents.
    pub open spec fn owned_games(self) -> Set<(Seq<char>, Seq<char>)> {
        self.active_set().union(
            Set::new(
                |k: (Seq<char>, Seq<char>)|
                    self.task_map().dom().contains(k) && self.task_map()[k].1 != HandleState::Finished,
            ),
        ).union(self.intent_set())
    }

    /// The accounts that own outgoing challenges, each with its share: the
    /// largest of its known challenges, one for an uncertain creation, and
    /// its campaign's pending challenges.
    pub open spec fn account_share(self, a: Seq<char>) -> nat {
        max3(
            known_count(known_entries(self.known@), a),
            if self.uncertain_map().dom().contains(a) {
                1nat
            } else {
                0nat
            },
            if self.campaign_map().dom().contains(a) {
                self.campaign_map()[a] as nat
            } else {
                0nat
            },
        )
    }

    pub open spec fn known_accounts(self) -> Seq<Seq<char>> {
        self.known@.map_values(|k: KnownChallenge| k.account_id@)
    }

    pub open spec fn uncertain_accounts(self) -> Seq<Seq<char>> {
        self.uncertain@.map_values(|u: UncertainChallengeCreation| u.account_id@)
    }

    pub open spec fn campaign_accounts(self) -> Seq<Seq<char>> {
        self.campaigns@.map_values(|c: CampaignSlot| c.account_id@)
    }

    /// The opponents of the known challenges, in order.
    pub open spec fn known_opponents(self) -> Seq<Seq<char>> {
        self.known@.map_values(|k: KnownChallenge| k.opponent@)
    }

    /// The accounts with challenge ownership of any kind, in a fixed order.
    pub open spec fn owner_accounts(self) -> Seq<Seq<char>> {
        first_occurrences(self.known_accounts() + self.uncertain_accounts() + self.campaign_accounts())
    }

    pub open spec fn shares_sum(self, accounts: Seq<Seq<char>>) -> nat
        decreases accounts.len(),
    {
        if accounts.len() == 0 {
            0
        } else {
            self.shares_sum(accounts.drop_last()) + self.account_share(accounts.last())
        }
    }

    /// The outgoing challenges the fleet owns, counted once per account.
    pub open spec fn outstanding_total(self) -> nat {
        self.shares_sum(self.owner_accounts())
    }

    /// The number of games the fleet owns, each counted once.
    pub fn live_game_ownership_count(&self) -> (n: usize)
        requires
            self.wf(),
        ensures
            n == self.owned_games().len(),
    {
        let mut seen: Vec<GameKey> = Vec::new();
        let ghost actives = active_entries(self.active_games@);
        let ghost tasks = task_entries(self.game_tasks@);
        let ghost intents = intent_entries(self.active_intents@);
        proof {
            lemma_to_map_all(actives);
            lemma_to_map_all(tasks);
            lemma_to_map_all(intents);
        }
        let mut i: usize = 0;
        while i < self.active_games.len()
            invariant
                actives == active_entries(self.active_games@),
                i <= actives.len(),
                kv(seen@).no_duplicates(),
                forall|k: (Seq<char>, Seq<char>)| #[trigger]
                    kv(seen@).contains(k) == exists|m: int| 0 <= m < i && #[trigger] actives[m].0 == k,
            decreases actives.len() - i,
        {
            note_key(&mut seen, &self.active_games[i].account_id, &self.active_games[i].game_id);
            proof {
                assert forall|k: (Seq<char>, Seq<char>)| #[trigger]
                    kv(seen@).contains(k) == exists|m: int| 0 <= m < i + 1 && #[trigger] actives[m].0 == k by {
                    if k == actives[i as int].0 {
                        assert(actives[i as int].0 == k);
                    }
                    if exists|m: int| 0 <= m < i + 1 && #[trigger] actives[m].0 == k {
                        let m = choose|m: int| 0 <= m < i + 1 && #[trigger] actives[m].0 == k;
                        if m < i {
                            assert(actives[m].0 == k);
                        }
                    }
                }
            }
            i = i + 1;
        }
        let mut t: usize = 0;
        while t < self.game_tasks.len()
            invariant
                actives == active_entries(self.active_games@),
                tasks == task_entries(self.game_tasks@),
                t <= tasks.len(),
                kv(seen@).no_duplicates(),
                forall|k: (Seq<char>, Seq<char>)| #[trigger]
                    kv(seen@).contains(k) == ((exists|m: int|
                        0 <= m < actives.len() && #[trigger] actives[m].0 == k) || exists|m: int|
                        0 <= m < t && #[trigger] tasks[m].0 == k && tasks[m].1.1 != HandleState::Finished),
            decreases tasks.len() - t,
        {
            if self.game_tasks[t].handle != HandleState::Finished {
                note_key(&mut seen, &self.game_tasks[t].key.account_id, &self.game_tasks[t].key.game_id);
            }
            proof {
                assert forall|k: (Seq<char>, Seq<char>)| #[trigger]
                    kv(seen@).contains(k) == ((exists|m: int|
                        0 <= m < actives.len() && #[trigger] actives[m].0 == k) || exists|m: int|
                        0 <= m < t + 1 && #[trigger] tasks[m].0 == k && tasks[m].1.1 != HandleState::Finished) by {
                    if k == tasks[t as int].0 && tasks[t as int].1.1 != HandleState::Finished {
                        assert(tasks[t as int].0 == k);
                    }
                    if exists|m: int| 0 <= m < t + 1 && #[trigger] tasks[m].0 == k && tasks[m].1.1
                        != HandleState::Finished {
                        let m = choose|m: int| 0 <= m < t + 1 && #[trigger] tasks[m].0 == k && tasks[m].1.1
                            != HandleState::Finished;
                        if m < t {
                            assert(tasks[m].0 == k);
                        }
                    }
                }
            }
            t = t + 1;
        }
        let mut j: usize = 0;
        while j < self.active_intents.len()
            invariant
                actives == active_entries(self.active_games@),
                tasks == task_entries(self.game_tasks@),
                intents == intent_entries(self.active_intents@),
                j <= intents.len(),
                kv(seen@).no_duplicates(),
                forall|k: (Seq<char>, Seq<char>)| #[trigger]
                    kv(seen@).contains(k) == ((exists|m: int|
                        0 <= m < actives.len() && #[trigger] actives[m].0 == k) || (exists|m: int|
                        0 <= m < tasks.len() && #[trigger] tasks[m].0 == k && tasks[m].1.1
                            != HandleState::Finished) || exists|m: int|
                        0 <= m < j && #[trigger] intents[m].0 == k),
            decreases intents.len() - j,
        {
            note_key(&mut seen, &self.active_intents[j].account_id, &self.active_intents[j].game_id);
            proof {
                assert forall|k: (Seq<char>, Seq<char>)| #[trigger]
                    kv(seen@).contains(k) == ((exists|m: int|
                        0 <= m < actives.len() && #[trigger] actives[m].0 == k) || (exists|m: int|
                        0 <= m < tasks.len() && #[trigger] tasks[m].0 == k && tasks[m].1.1
                            != HandleState::Finished) || exists|m: int|
                        0 <= m < j + 1 && #[trigger] intents[m].0 == k) by {
                    if k == intents[j as int].0 {
                        assert(intents[j as int].0 == k);
                    }
                    if exists|m: int| 0 <= m < j + 1 && #[trigger] intents[m].0 == k {
                        let m = choose|m: int| 0 <= m < j + 1 && #[trigger] intents[m].0 == k;
                        if m < j {
                            assert(intents[m].0 == k);
                        }
                    }
                }
            }
            j = j + 1;
        }
        proof {
            let owned = self.owned_games();
            assert forall|k: (Seq<char>, Seq<char>)| #[trigger] kv(seen@).to_set().contains(k) == owned.contains(
                k,
            ) by {
                if exists|m: int| 0 <= m < tasks.len() && #[trigger] tasks[m].0 == k && tasks[m].1.1
                    != HandleState::Finished {
                    let m = choose|m: int| 0 <= m < tasks.len() && #[trigger] tasks[m].0 == k && tasks[m].1.1
                        != HandleState::Finished;
                    assert(self.task_map().dom().contains(tasks[m].0));
                }
                if self.task_map().dom().contains(k) && self.task_map()[k].1 != HandleState::Finished {
                    assert(has_key(tasks, k));
                    let m = choose|m: int| 0 <= m < tasks.len() && #[trigger] tasks[m].0 == k;
                    assert(self.task_map().dom().contains(tasks[m].0));
                }
                if self.active_set().contains(k) {
                    assert(has_key(actives, k));
                }
                if self.intent_set().contains(k) {
                    assert(has_key(intents, k));
                }
            }
            assert(kv(seen@).to_set() =~= owned);
            kv(seen@).unique_seq_to_set();
        }
        seen.len()
    }
}

fn account_listed(accounts: &Vec<String>, a: &str) -> (found: bool)
    ensures
        found == views(accounts@).contains(a@),
{
    let mut i: usize = 0;
    while i < accounts.len()
        invariant
            i <= accounts@.len(),
            forall|j: int| 0 <= j < i ==> views(accounts@)[j] != a@,
        decreases accounts.len() - i,
    {
        if str_eq(accounts[i].as_str(), a) {
            proof {
                assert(views(accounts@)[i as int] == a@);
            }
            return true;
        }
        i = i + 1;
    }
    false
}

fn note_account(accounts: &mut Vec<String>, a: &String, processed: Ghost<Seq<Seq<char>>>)
    requires
        views(old(accounts)@) == first_occurrences(processed@),
    ensures
        views(final(accounts)@) == first_occurrences(processed@.push(a@)),
{
    proof {
        assert(processed@.push(a@).drop_last() =~= processed@);
    }
    if !account_listed(accounts, a.as_str()) {
        let ghost before = views(accounts@);
        accounts.push(a.clone());
        proof {
            assert(views(accounts@) =~= before.push(a@));
        }
    }
}

pub proof fn lemma_shares_prefix(o: Ownership, s: Seq<Seq<char>>, i: int)
    requires
        0 <= i <= s.len(),
    ensures
        o.shares_sum(s.subrange(0, i)) <= o.shares_sum(s),
    decreases s.len(),
{
    if i < s.len() {
        lemma_shares_prefix(o, s.drop_last(), i);
        assert(s.drop_last().subrange(0, i) =~= s.subrange(0, i));
    } else {
        assert(s.subrange(0, i) =~= s);
    }
}

/// The message that refuses a handover when an enabled account could not
/// be checked on Lichess.
pub fn authoritative_handover_verification_error(username: &str) -> (message: String)
    ensures
        message@ == "Could not verify Lichess account "@ + username@
            + " before switching runners; live games or outgoing challenges may still exist."@,
{
    let mut message = String::from_str("Could not verify Lichess account ");
    push_str(&mut message, username);
    push_str(
        &mut message,
        " before switching runners; live games or outgoing challenges may still exist.",
    );
    message
}

/// What Lichess reported for one enabled account during a handover check.
pub struct AccountObservation {
    pub username: String,
    /// The opponents of the account's outgoing challenges.
    pub outgoing_opponents: Vec<String>,
    /// The ids of the account's live games.
    pub games: Vec<String>,
}

/// Why one observed account blocks a handover, if it does.
pub open spec fn observation_error(o: AccountObservation) -> Option<Seq<char>> {
    let games = o.games@.len();
    let outgoing = o.outgoing_opponents@.len();
    if games > 0 {
        Some(
            "Lichess account "@ + o.username@ + " still has "@ + decimal(games) + " live "@ + (if games
                == 1 {
                "game"@
            } else {
                "games"@
            }) + " ("@ + joined(views(o.games@), ", "@)
                + "); finish or resign them before switching to a runner."@,
        )
    } else if outgoing > 0 {
        Some(
            "Lichess account "@ + o.username@ + " still has "@ + decimal(outgoing) + " outgoing "@ + (
            if outgoing == 1 {
                "challenge"@
            } else {
                "challenges"@
            }) + " ("@ + joined(views(o.outgoing_opponents@).sort_by(lex_le_fn()), ", "@)
                + "); cancel them or let them resolve before switching to a runner."@,
        )
    } else {
        None
    }
}

/// The verdict of a handover check: the first observed account that still
/// has live games or outgoing challenges refuses it, then any local
/// ownership error does.
pub open spec fn verdict_spec(obs: Seq<AccountObservation>, local: Option<Seq<char>>) -> Result<(), Seq<char>>
    decreases obs.len(),
{
    if obs.len() == 0 {
        match local {
            Some(e) => Err(e),
            None => Ok(()),
        }
    } else {
        match observation_error(obs[0]) {
            Some(e) => Err(e),
            None => verdict_spec(obs.drop_first(), local),
        }
    }
}

fn observation_message(o: &AccountObservation) -> (message: Option<String>)
    ensures
        match message {
            Some(m) => observation_error(*o) == Some(m@),
            None => observation_error(*o) is None,
        },
{
    let games = o.games.len();
    let outgoing = o.outgoing_opponents.len();
    if games > 0 {
        let mut m = String::from_str("Lichess account ");
        push_str(&mut m, o.username.as_str());
        push_str(&mut m, " still has ");
        let count = u64_text(games as u64);
        push_str(&mut m, count.as_str());
        push_str(&mut m, " live ");
        if games == 1 {
            push_str(&mut m, "game");
        } else {
            push_str(&mut m, "games");
        }
        push_str(&mut m, " (");
        let list = join_strings(&o.games, ", ");
        push_str(&mut m, list.as_str());
        push_str(&mut m, "); finish or resign them before switching to a runner.");
        Some(m)
    } else if outgoing > 0 {
        let mut m = String::from_str("Lichess account ");
        push_str(&mut m, o.username.as_str());
        push_str(&mut m, " still has ");
        let count = u64_text(outgoing as u64);
        push_str(&mut m, count.as_str());
        push_str(&mut m, " outgoing ");
        if outgoing == 1 {
            push_str(&mut m, "challenge");
        } else {
            push_str(&mut m, "challenges");
        }
        push_str(&mut m, " (");
        let sorted = sort_strings(&o.outgoing_opponents);
        let list = join_strings(&sorted, ", ");
        push_str(&mut m, list.as_str());
        push_str(&mut m, "); cancel them or let them resolve before switching to a runner.");
        Some(m)
    } else {
        None
    }
}

/// Decides a handover from what Lichess reported for every enabled account
/// and the local ownership error read after those reports.
pub fn handover_verdict(observations: &Vec<AccountObservation>, local_error: Option<String>) -> (verdict:
    Result<(), String>)
    ensures
        match verdict {
            Ok(()) => verdict_spec(observations@, opt_view(local_error)) is Ok,
            Err(e) => verdict_spec(observations@, opt_view(local_error)) == Err::<(), Seq<char>>(e@),
        },
{
    let mut i: usize = 0;
    proof {
        assert(observations@.subrange(0, observations@.len() as int) =~= observations@);
    }
    while i < observations.len()
        invariant
            i <= observations@.len(),
            verdict_spec(observations@, opt_view(local_error)) == verdict_spec(
                observations@.subrange(i as int, observations@.len() as int),
                opt_view(local_error),
            ),
        decreases observations.len() - i,
    {
        let ghost rest = observations@.subrange(i as int, observations@.len() as int);
        proof {
            assert(rest[0] == observations@[i as int]);
            assert(rest.drop_first() =~= observations@.subrange(i + 1, observations@.len() as int));
        }
        match observation_message(&observations[i]) {
            Some(m) => {
                return Err(m);
            },
            None => {},
        }
        i = i + 1;
    }
    proof {
        assert(observations@.subrange(i as int, observations@.len() as int) =~= Seq::<
            AccountObservation,
        >::empty());
    }
    match local_error {
        Some(e) => Err(e),
        None => Ok(()),
    }
}

pub open spec fn opt_view(o: Option<String>) -> Option<Seq<char>> {
    match o {
        Some(s) => Some(s@),
        None => None,
    }
}

/// The local reason, if any, that the fleet cannot be handed over: an
/// uncertain challenge creation, then (when asked) known unresolved
/// challenges, then pending campaign challenges.
pub open spec fn local_error_spec(o: Ownership, include_known: bool) -> Option<Seq<char>> {
    let known = o.known@.len();
    let pending = pending_total(campaign_entries(o.campaigns@));
    if o.uncertain@.len() > 0 {
        Some(
            "An outgoing challenge creation for "@ + o.uncertain@[0].account_id@ + " against "@
                + o.uncertain@[0].opponent@
                + " is still uncertain; let QueenUI reconcile it before switching to a runner."@,
        )
    } else if include_known && known == 1 {
        Some(
            "An outgoing challenge to "@ + o.known@[0].opponent@
                + " is still unresolved; cancel it or let it resolve before switching to a runner."@,
        )
    } else if include_known && known > 1 {
        Some(
            decimal(known) + " outgoing challenges are still unresolved ("@ + joined(
                dedup_sorted(o.known_opponents().sort_by(lex_le_fn())),
                ", "@,
            ) + "); cancel them or let them resolve before switching to a runner."@,
        )
    } else if pending == 0 {
        None
    } else if pending == 1 {
        Some(
            "A campaign challenge is still unresolved; cancel it or let it resolve before switching to a runner."@,
        )
    } else {
        Some(
            decimal(pending)
                + " campaign challenges are still unresolved; cancel them or let them resolve before switching to a runner."@,
        )
    }
}

impl Ownership {
    fn find_campaign(&self, account_id: &str) -> (found: Option<usize>)
        ensures
            match found {
                Some(i) => i < self.campaigns@.len() && campaign_entries(self.campaigns@)[i as int].0
                    == account_id@,
                None => !has_key(campaign_entries(self.campaigns@), account_id@),
            },
    {
        let mut i: usize = 0;
        while i < self.campaigns.len()
            invariant
                i <= self.campaigns@.len(),
                forall|j: int| 0 <= j < i ==> campaign_entries(self.campaigns@)[j].0 != account_id@,
            decreases self.campaigns.len() - i,
        {
            if str_eq(self.campaigns[i].account_id.as_str(), account_id) {
                return Some(i);
            }
            i = i + 1;
        }
        None
    }

    fn account_share_of(&self, account_id: &str) -> (n: usize)
        requires
            self.wf(),
        ensures
            n == self.account_share(account_id@),
    {
        let ghost es = known_entries(self.known@);
        let mut count: usize = 0;
        let mut i: usize = 0;
        while i < self.known.len()
            invariant
                es == known_entries(self.known@),
                i <= es.len(),
                count == known_count(es.subrange(0, i as int), account_id@),
                count <= i,
            decreases es.len() - i,
        {
            proof {
                assert(es.subrange(0, i + 1).drop_last() =~= es.subrange(0, i as int));
                assert(es.subrange(0, i + 1).last() == es[i as int]);
            }
            if str_eq(self.known[i].account_id.as_str(), account_id) {
                count = count + 1;
            }
            i = i + 1;
        }
        proof {
            assert(es.subrange(0, es.len() as int) =~= es);
            lemma_to_map_all(uncertain_entries(self.uncertain@));
            lemma_to_map_all(campaign_entries(self.campaigns@));
        }
        let uncertain: usize = match self.find_uncertain(account_id) {
            Some(u) => {
                proof {
                    assert(self.uncertain_map().dom().contains(uncertain_entries(self.uncertain@)[u as int].0));
                }
                1
            },
            None => 0,
        };
        let ghost ce = campaign_entries(self.campaigns@);
        let pending: usize = match self.find_campaign(account_id) {
            Some(c) => {
                proof {
                    assert(self.campaign_map().dom().contains(ce[c as int].0));
                }
                self.campaigns[c].pending_challenges as usize
            },
            None => 0,
        };
        let m = if count > uncertain {
            count
        } else {
            uncertain
        };
        if m > pending {
            m
        } else {
            pending
        }
    }

    /// The outgoing challenges the fleet owns, counted once per account: the
    /// largest of its known challenges, one for an uncertain creation, and
    /// its campaign's pending challenges.
    pub fn outstanding_outgoing_challenge_count(&self) -> (n: usize)
        requires
            self.wf(),
            self.outstanding_total() <= usize::MAX,
        ensures
            n == self.outstanding_total(),
    {
        let mut accounts: Vec<String> = Vec::new();
        let ghost ka = self.known_accounts();
        let ghost ua = self.uncertain_accounts();
        let ghost ca = self.campaign_accounts();
        proof {
            assert(views(accounts@) =~= first_occurrences(ka.subrange(0, 0)));
        }
        let mut i: usize = 0;
        while i < self.known.len()
            invariant
                ka == self.known_accounts(),
                i <= ka.len(),
                views(accounts@) == first_occurrences(ka.subrange(0, i as int)),
            decreases ka.len() - i,
        {
            note_account(&mut accounts, &self.known[i].account_id, Ghost(ka.subrange(0, i as int)));
            proof {
                assert(ka.subrange(0, i as int).push(ka[i as int]) =~= ka.subrange(0, i + 1));
            }
            i = i + 1;
        }
        proof {
            assert(ka.subrange(0, ka.len() as int) =~= ka);
            assert(ka + ua.subrange(0, 0) =~= ka);
        }
        let mut j: usize = 0;
        while j < self.uncertain.len()
            invariant
                ka == self.known_accounts(),
                ua == self.uncertain_accounts(),
                j <= ua.len(),
                views(accounts@) == first_occurrences(ka + ua.subrange(0, j as int)),
            decreases ua.len() - j,
        {
            note_account(&mut accounts, &self.uncertain[j].account_id, Ghost(ka + ua.subrange(0, j as int)));
            proof {
                assert((ka + ua.subrange(0, j as int)).push(ua[j as int]) =~= ka + ua.subrange(0, j + 1));
            }
            j = j + 1;
        }
        proof {
            assert(ua.subrange(0, ua.len() as int) =~= ua);
            assert(ka + ua + ca.subrange(0, 0) =~= ka + ua);
        }
        let mut c: usize = 0;
        while c < self.campaigns.len()
            invariant
                ka == self.known_accounts(),
                ua == self.uncertain_accounts(),
                ca == self.campaign_accounts(),
                c <= ca.len(),
                views(accounts@) == first_occurrences(ka + ua + ca.subrange(0, c as int)),
            decreases ca.len() - c,
        {
            note_account(&mut accounts, &self.campaigns[c].account_id, Ghost(ka + ua + ca.subrange(0, c as int)));
            proof {
                assert((ka + ua + ca.subrange(0, c as int)).push(ca[c as int]) =~= ka + ua + ca.subrange(
                    0,
                    c + 1,
                ));
            }
            c = c + 1;
        }
        proof {
            assert(ca.subrange(0, ca.len() as int) =~= ca);
            assert(views(accounts@) == self.owner_accounts());
        }
        let ghost owners = self.owner_accounts();
        let mut total: usize = 0;
        let mut k: usize = 0;
        while k < accounts.len()
            invariant
                owners == self.owner_accounts(),
                views(accounts@) == owners,
                self.wf(),
                self.outstanding_total() <= usize::MAX,
                k <= owners.len(),
                total == self.shares_sum(owners.subrange(0, k as int)),
            decreases owners.len() - k,
        {
            let share = self.account_share_of(accounts[k].as_str());
            proof {
                assert(owners.subrange(0, k + 1).drop_last() =~= owners.subrange(0, k as int));
                assert(owners.subrange(0, k + 1).last() == owners[k as int]);
                lemma_shares_prefix(*self, owners, k + 1);
            }
            total = total + share;
            k = k + 1;
        }
        proof {
            assert(owners.subrange(0, owners.len() as int) =~= owners);
        }
        total
    }

    /// Why the fleet cannot be handed over, judged from local state alone.
    pub fn local_outgoing_challenge_error(&self, include_known: bool) -> (error: Option<String>)
        requires
            pending_total(campaign_entries(self.campaigns@)) <= u32::MAX,
        ensures
            opt_view(error) == local_error_spec(*self, include_known),
    {
        if self.uncertain.len() > 0 {
            let mut m = String::from_str("An outgoing challenge creation for ");
            push_str(&mut m, self.uncertain[0].account_id.as_str());
            push_str(&mut m, " against ");
            push_str(&mut m, self.uncertain[0].opponent.as_str());
            push_str(&mut m, " is still uncertain; let QueenUI reconcile it before switching to a runner.");
            return Some(m);
        }
        if include_known && self.known.len() == 1 {
            let mut m = String::from_str("An outgoing challenge to ");
            push_str(&mut m, self.known[0].opponent.as_str());
            push_str(
                &mut m,
                " is still unresolved; cancel it or let it resolve before switching to a runner.",
            );
            return Some(m);
        }
        if include_known && self.known.len() > 1 {
            let mut opponents: Vec<String> = Vec::new();
            let mut i: usize = 0;
            while i < self.known.len()
                invariant
                    i <= self.known@.len(),
                    views(opponents@) == self.known_opponents().subrange(0, i as int),
                decreases self.known.len() - i,
            {
                let ghost before = views(opponents@);
                opponents.push(self.known[i].opponent.clone());
                proof {
                    assert(views(opponents@) =~= before.push(self.known@[i as int].opponent@));
                    assert(self.known_opponents()[i as int] == self.known@[i as int].opponent@);
                    assert(self.known_opponents().subrange(0, i + 1) =~= self.known_opponents().subrange(
                        0,
                        i as int,
                    ).push(self.known_opponents()[i as int]));
                }
                i = i + 1;
            }
            proof {
                assert(self.known_opponents().subrange(0, self.known@.len() as int) =~= self.known_opponents());
            }
            let sorted = sort_strings(&opponents);
            let unique = dedup_adjacent(&sorted);
            let mut m = u64_text(self.known.len() as u64);
            push_str(&mut m, " outgoing challenges are still unresolved (");
            let list = join_strings(&unique, ", ");
            push_str(&mut m, list.as_str());
            push_str(&mut m, "); cancel them or let them resolve before switching to a runner.");
            return Some(m);
        }
        let ghost ce = campaign_entries(self.campaigns@);
        let mut pending: u64 = 0;
        let mut c: usize = 0;
        while c < self.campaigns.len()
            invariant
                ce == campaign_entries(self.campaigns@),
                pending_total(ce) <= u32::MAX,
                c <= ce.len(),
                pending == pending_total(ce.subrange(0, c as int)),
            decreases ce.len() - c,
        {
            proof {
                assert(ce.subrange(0, c + 1).drop_last() =~= ce.subrange(0, c as int));
                assert(ce.subrange(0, c + 1).last() == ce[c as int]);
                lemma_pending_prefix(ce, c + 1);
            }
            pending = pending + self.campaigns[c].pending_challenges as u64;
            c = c + 1;
        }
        proof {
            assert(ce.subrange(0, ce.len() as int) =~= ce);
        }
        if pending == 0 {
            None
        } else if pending == 1 {
            Some(
                String::from_str(
                    "A campaign challenge is still unresolved; cancel it or let it resolve before switching to a runner.",
                ),
            )
        } else {
            let mut m = u64_text(pending);
            push_str(
                &mut m,
                " campaign challenges are still unresolved; cancel them or let them resolve before switching to a runner.",
            );
            Some(m)
        }
    }
}

pub proof fn lemma_pending_prefix(s: Seq<(Seq<char>, u32)>, i: int)
    requires
        0 <= i <= s.len(),
    ensures
        pending_total(s.subrange(0, i)) <= pending_total(s),
    decreases s.len(),
{
    if i < s.len() {
        lemma_pending_prefix(s.drop_last(), i);
        assert(s.drop_last().subrange(0, i) =~= s.subrange(0, i));
    } else {
        assert(s.subrange(0, i) =~= s);
    }
}

/// An outgoing challenge as Lichess lists it.
pub struct OutgoingChallenge {
    pub id: String,
    pub opponent: String,
}

pub open spec fn challenge_ids(v: Seq<OutgoingChallenge>) -> Seq<Seq<char>> {
    v.map_values(|c: OutgoingChallenge| c.id@)
}

/// The known challenges a reconciliation keeps: other accounts' entries,
/// and this account's entries that Lichess still lists as outgoing, that
/// became an ongoing game, or that a local game intent holds.
pub open spec fn reconcile_keep(
    a: Seq<char>,
    outgoing: Seq<Seq<char>>,
    ongoing: Seq<Seq<char>>,
    intents: Set<(Seq<char>, Seq<char>)>,
) -> spec_fn(((Seq<char>, Seq<char>), Seq<char>)) -> bool {
    |e: ((Seq<char>, Seq<char>), Seq<char>)|
        e.0.0 != a || outgoing.contains(e.0.1) || ongoing.contains(e.0.1) || intents.contains(
            (a, e.0.1),
        )
}

/// The known challenges after recording each authoritative outgoing
/// challenge of the account, in order.
pub open spec fn record_all(
    m: Map<(Seq<char>, Seq<char>), Seq<char>>,
    a: Seq<char>,
    outgoing: Seq<OutgoingChallenge>,
) -> Map<(Seq<char>, Seq<char>), Seq<char>>
    decreases outgoing.len(),
{
    if outgoing.len() == 0 {
        m
    } else {
        record_all(m, a, outgoing.drop_last()).insert(
            (a, outgoing.last().id@),
            outgoing.last().opponent@,
        )
    }
}

fn listed(ids: &Vec<String>, id: &str) -> (found: bool)
    ensures
        found == views(ids@).contains(id@),
{
    let mut i: usize = 0;
    while i < ids.len()
        invariant
            i <= ids@.len(),
            forall|j: int| 0 <= j < i ==> views(ids@)[j] != id@,
        decreases ids.len() - i,
    {
        if str_eq(ids[i].as_str(), id) {
            proof {
                assert(views(ids@)[i as int] == id@);
            }
            return true;
        }
        i = i + 1;
    }
    false
}

impl Ownership {
    /// Reconciles an account's known outgoing challenges against what
    /// Lichess reports: entries Lichess no longer lists (and that no game
    /// or local intent accounts for) are dropped, and every listed
    /// challenge is recorded.
    pub fn reconcile_known_outgoing_challenges(
        &mut self,
        account_id: &str,
        authoritative: &Vec<OutgoingChallenge>,
        ongoing_game_ids: &Vec<String>,
    )
        requires
            old(self).wf(),
        ensures
            final(self).wf(),
            final(self).same_but_known(*old(self)),
            final(self).known_map() == record_all(
                to_map(
                    filter_entries(
                        known_entries(old(self).known@),
                        reconcile_keep(
                            account_id@,
                            challenge_ids(authoritative@),
                            views(ongoing_game_ids@),
                            old(self).intent_set(),
                        ),
                    ),
                ),
                account_id@,
                authoritative@,
            ),
    {
        let mut outgoing_ids: Vec<String> = Vec::new();
        let mut o: usize = 0;
        while o < authoritative.len()
            invariant
                o <= authoritative@.len(),
                views(outgoing_ids@) == challenge_ids(authoritative@).subrange(0, o as int),
            decreases authoritative.len() - o,
        {
            let ghost before = views(outgoing_ids@);
            outgoing_ids.push(authoritative[o].id.clone());
            proof {
                assert(views(outgoing_ids@) =~= before.push(authoritative@[o as int].id@));
                assert(challenge_ids(authoritative@).subrange(0, o + 1) =~= challenge_ids(
                    authoritative@,
                ).subrange(0, o as int).push(authoritative@[o as int].id@));
            }
            o = o + 1;
        }
        proof {
            assert(challenge_ids(authoritative@).subrange(0, authoritative@.len() as int)
                =~= challenge_ids(authoritative@));
        }
        let ghost p = reconcile_keep(
            account_id@,
            challenge_ids(authoritative@),
            views(ongoing_game_ids@),
            self.intent_set(),
        );
        let ghost before = known_entries(self.known@);
        let ghost start = *self;
        let mut kept: Vec<KnownChallenge> = Vec::new();
        let mut i: usize = 0;
        while i < self.known.len()
            invariant
                before == known_entries(self.known@),
                *self == start,
                start.wf(),
                views(outgoing_ids@) == challenge_ids(authoritative@),
                p == reconcile_keep(
                    account_id@,
                    challenge_ids(authoritative@),
                    views(ongoing_game_ids@),
                    start.intent_set(),
                ),
                i <= before.len(),
                known_entries(kept@) == filter_entries(before.subrange(0, i as int), p),
            decreases before.len() - i,
        {
            proof {
                assert(before.subrange(0, i + 1).drop_last() =~= before.subrange(0, i as int));
                assert(before.subrange(0, i + 1).last() == before[i as int]);
            }
            let entry = &self.known[i];
            let keep = !str_eq(entry.account_id.as_str(), account_id) || listed(
                &outgoing_ids,
                entry.challenge_id.as_str(),
            ) || listed(ongoing_game_ids, entry.challenge_id.as_str()) || self.find_intent(
                account_id,
                entry.challenge_id.as_str(),
            ).is_some();
            proof {
                lemma_to_map_all(intent_entries(self.active_intents@));
                if has_key(intent_entries(self.active_intents@), (account_id@, entry.challenge_id@)) {
                    assert(self.intent_set().contains((account_id@, entry.challenge_id@)));
                }
                assert(keep == p(before[i as int]));
            }
            if keep {
                let ghost prev = known_entries(kept@);
                kept.push(
                    KnownChallenge {
                        account_id: entry.account_id.clone(),
                        challenge_id: entry.challenge_id.clone(),
                        opponent: entry.opponent.clone(),
                    },
                );
                proof {
                    assert(known_entries(kept@) =~= prev.push(before[i as int]));
                }
            }
            i = i + 1;
        }
        proof {
            assert(before.subrange(0, before.len() as int) =~= before);
            lemma_filter_entries(before, p);
        }
        self.known = kept;
        let ghost filtered = self.known_map();
        let mut j: usize = 0;
        while j < authoritative.len()
            invariant
                self.wf(),
                self.same_but_known(start),
                j <= authoritative@.len(),
                self.known_map() == record_all(filtered, account_id@, authoritative@.subrange(0, j as int)),
            decreases authoritative.len() - j,
        {
            self.remember_known_outgoing_challenge(
                account_id,
                authoritative[j].id.as_str(),
                authoritative[j].opponent.as_str(),
            );
            proof {
                assert(authoritative@.subrange(0, j + 1).drop_last() =~= authoritative@.subrange(0, j as int));
                assert(authoritative@.subrange(0, j + 1).last() == authoritative@[j as int]);
            }
            j = j + 1;
        }
        proof {
            assert(authoritative@.subrange(0, authoritative@.len() as int) =~= authoritative@);
        }
    }
}

/// A stop fences a start. Once a stop has taken the account's handles
/// (`begin_stop`), and until it finishes, the account's supervisor stays
/// reserved under its old generation with no handle, and the account's game
/// tasks stay reserved; by `start_precheck`'s contract a start meanwhile
/// finds `StillStarting` and reserves no new generation.
pub proof fn law_stop_fences_a_start(before: Ownership, during: Ownership, account_id: Seq<char>)
    requires
        before.supervisor_map().dom().contains(account_id),
        during.supervisor_map() == before.supervisor_map().insert(
            account_id,
            (before.supervisor_map()[account_id].0, HandleState::Absent),
        ),
        during.task_map().dom() == before.task_map().dom(),
    ensures
        during.supervisor_map().dom().contains(account_id),
        during.supervisor_map()[account_id].0 == before.supervisor_map()[account_id].0,
        during.supervisor_map()[account_id].1 == HandleState::Absent,
        forall|g: Seq<char>|
            before.task_map().dom().contains((account_id, g)) ==> #[trigger] during.task_map().dom().contains(
                (account_id, g),
            ),
{
}

} // verus!
