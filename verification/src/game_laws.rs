//! What pruning the retained games guarantees whatever was retained: each
//! retention class is capped, because the games of a class that survive
//! are told apart by how many newer games of their class exist.
use vstd::prelude::*;
use vstd::set_lib::{lemma_int_range, lemma_len_subset, set_int_range};
use crate::game::{
    game_view, is_error_game, is_finished_game, live_status, newer, newer_in_class, survives,
    surviving, RetainedGame, MAX_FINISHED_GAMES, MAX_RETAINED_ERROR_GAMES,
};
use crate::order::{lemma_lex_antisym, lemma_lex_refl, lemma_lex_total, lemma_lex_trans, lex_le};

verus! {

/// No two retained games share an account and a game id.
pub open spec fn distinct_keys(games: Seq<RetainedGame>) -> bool {
    forall|i: int, j: int|
        0 <= i < games.len() && 0 <= j < games.len() && i != j ==> (#[trigger] games[i]).account_id@
            != (#[trigger] games[j]).account_id@ || games[i].game_id@ != games[j].game_id@
}

pub open spec fn in_class(g: RetainedGame, error_class: bool) -> bool {
    if error_class {
        is_error_game(g)
    } else {
        is_finished_game(g)
    }
}

/// Whether a kept game (as pruning reports it) belongs to a retention class.
pub open spec fn view_in_class(v: (Seq<char>, Seq<char>, Seq<char>, u64), error_class: bool) -> bool {
    if error_class {
        v.2 == "error"@
    } else {
        !live_status(v.2) && v.2 != "error"@
    }
}

/// How many kept games belong to a retention class.
pub open spec fn kept_in_class(kept: Seq<(Seq<char>, Seq<char>, Seq<char>, u64)>, error_class: bool) -> nat
    decreases kept.len(),
{
    if kept.len() == 0 {
        0
    } else {
        kept_in_class(kept.drop_last(), error_class) + (if view_in_class(kept.last(), error_class) {
            1nat
        } else {
            0nat
        })
    }
}

pub open spec fn class_limit(error_class: bool) -> nat {
    if error_class {
        MAX_RETAINED_ERROR_GAMES as nat
    } else {
        MAX_FINISHED_GAMES as nat
    }
}

/// The newer-count of each surviving game of a class, in order.
pub open spec fn rank_list(all: Seq<RetainedGame>, k: int, error_class: bool) -> Seq<int>
    decreases k,
{
    if k <= 0 {
        Seq::empty()
    } else {
        let prev = rank_list(all, k - 1, error_class);
        let g = all[k - 1];
        if in_class(g, error_class) && survives(all, g) {
            prev.push(newer_in_class(all, g, error_class) as int)
        } else {
            prev
        }
    }
}

proof fn lemma_lex_lt_trans(a: Seq<char>, b: Seq<char>, c: Seq<char>)
    requires
        lex_le(a, b) && a != b,
        lex_le(b, c) && b != c,
    ensures
        lex_le(a, c) && a != c,
{
    lemma_lex_trans(a, b, c);
    if a == c {
        lemma_lex_antisym(a, b);
    }
}

proof fn lemma_newer_trans(a: RetainedGame, b: RetainedGame, c: RetainedGame)
    requires
        newer(a, b),
        newer(b, c),
    ensures
        newer(a, c),
{
    if a.clock_updated_at == b.clock_updated_at && b.clock_updated_at == c.clock_updated_at {
        if a.account_id@ != b.account_id@ && b.account_id@ != c.account_id@ {
            lemma_lex_lt_trans(a.account_id@, b.account_id@, c.account_id@);
        } else if a.account_id@ == b.account_id@ && b.account_id@ == c.account_id@ {
            lemma_lex_lt_trans(a.game_id@, b.game_id@, c.game_id@);
        }
    }
}

proof fn lemma_newer_total(a: RetainedGame, b: RetainedGame)
    requires
        a.account_id@ != b.account_id@ || a.game_id@ != b.game_id@,
    ensures
        newer(a, b) || newer(b, a),
{
    lemma_lex_total(a.account_id@, b.account_id@);
    lemma_lex_total(a.game_id@, b.game_id@);
}

proof fn lemma_not_newer_self(a: RetainedGame)
    ensures
        !newer(a, a),
{
    lemma_lex_refl(a.account_id@);
}

/// A game newer than another has more newer games of its class than the
/// other, by at least one when the list holds the other.
proof fn lemma_newer_count_gap(games: Seq<RetainedGame>, a: RetainedGame, b: RetainedGame, c: bool)
    requires
        newer(a, b),
        in_class(b, c),
    ensures
        newer_in_class(games, a, c) >= newer_in_class(games, b, c) + (if games.contains(b) {
            1int
        } else {
            0int
        }),
    decreases games.len(),
{
    if games.len() > 0 {
        let prev = games.drop_last();
        let h = games.last();
        lemma_newer_count_gap(prev, a, b, c);
        lemma_not_newer_self(b);
        if newer(b, h) {
            lemma_newer_trans(a, b, h);
        }
        if prev.contains(b) {
            let k = choose|k: int| 0 <= k < prev.len() && prev[k] == b;
            assert(games[k] == b);
        }
        if games.contains(b) && !prev.contains(b) {
            let k = choose|k: int| 0 <= k < games.len() && games[k] == b;
            if k < prev.len() {
                assert(prev[k] == b);
            }
            assert(h == b);
        }
    }
}

proof fn lemma_rank_list_members(all: Seq<RetainedGame>, k: int, c: bool)
    requires
        0 <= k <= all.len(),
    ensures
        forall|x: int|
            #[trigger] rank_list(all, k, c).contains(x) ==> exists|p: int|
                0 <= p < k && in_class(all[p], c) && survives(all, all[p]) && x == newer_in_class(
                    all,
                    #[trigger] all[p],
                    c,
                ),
        forall|x: int| #[trigger] rank_list(all, k, c).contains(x) ==> 0 <= x < class_limit(c),
    decreases k,
{
    if k > 0 {
        lemma_rank_list_members(all, k - 1, c);
        let prev = rank_list(all, k - 1, c);
        let g = all[k - 1];
        assert forall|x: int| #[trigger] rank_list(all, k, c).contains(x) implies exists|p: int|
            0 <= p < k && in_class(all[p], c) && survives(all, all[p]) && x == newer_in_class(
                all,
                #[trigger] all[p],
                c,
            ) && 0 <= x < class_limit(c) by {
            let r = rank_list(all, k, c);
            let i = choose|i: int| 0 <= i < r.len() && r[i] == x;
            if in_class(g, c) && survives(all, g) && i == prev.len() {
                assert(x == newer_in_class(all, all[k - 1], c));
            } else {
                assert(prev[i] == x);
                assert(prev.contains(x));
            }
        }
    }
}

proof fn lemma_rank_list_distinct(all: Seq<RetainedGame>, k: int, c: bool)
    requires
        0 <= k <= all.len(),
        distinct_keys(all),
    ensures
        rank_list(all, k, c).no_duplicates(),
    decreases k,
{
    if k > 0 {
        lemma_rank_list_distinct(all, k - 1, c);
        lemma_rank_list_members(all, k - 1, c);
        let prev = rank_list(all, k - 1, c);
        let g = all[k - 1];
        if in_class(g, c) && survives(all, g) {
            let fg = newer_in_class(all, g, c) as int;
            assert(all.contains(g)) by {
                assert(all[k - 1] == g);
            }
            if prev.contains(fg) {
                let p = choose|p: int|
                    0 <= p < k - 1 && in_class(all[p], c) && survives(all, all[p]) && fg
                        == newer_in_class(all, #[trigger] all[p], c);
                let h = all[p];
                assert(all.contains(h)) by {
                    assert(all[p] == h);
                }
                assert(h.account_id@ != g.account_id@ || h.game_id@ != g.game_id@);
                lemma_newer_total(h, g);
                if newer(h, g) {
                    lemma_newer_count_gap(all, h, g, c);
                } else {
                    lemma_newer_count_gap(all, g, h, c);
                }
            }
            let r = rank_list(all, k, c);
            assert forall|i: int, j: int| 0 <= i < r.len() && 0 <= j < r.len() && i != j implies r[i]
                != r[j] by {
                if i < prev.len() && j < prev.len() {
                    assert(r[i] == prev[i] && r[j] == prev[j]);
                } else if i < prev.len() {
                    assert(r[i] == prev[i] && prev.contains(r[i]));
                } else {
                    assert(r[j] == prev[j] && prev.contains(r[j]));
                }
            }
        }
    }
}

proof fn lemma_rank_list_counts_kept(all: Seq<RetainedGame>, k: int, c: bool)
    requires
        0 <= k <= all.len(),
    ensures
        rank_list(all, k, c).len() == kept_in_class(surviving(all, all.subrange(0, k)), c),
    decreases k,
{
    if k > 0 {
        lemma_rank_list_counts_kept(all, k - 1, c);
        let prefix = all.subrange(0, k);
        assert(prefix.drop_last() =~= all.subrange(0, k - 1));
        assert(prefix.last() == all[k - 1]);
        let g = all[k - 1];
        assert(view_in_class(game_view(g), c) == in_class(g, c));
        if survives(all, g) {
            let out = surviving(all, prefix);
            assert(out.drop_last() == surviving(all, all.subrange(0, k - 1)));
            assert(out.last() == game_view(g));
        }
    }
}

/// However many games were retained, pruning leaves at most 32 failed
/// games and at most 50 finished games; games are keyed by account and id.
pub proof fn law_prune_caps_each_class(games: Seq<RetainedGame>)
    requires
        distinct_keys(games),
    ensures
        kept_in_class(surviving(games, games), true) <= MAX_RETAINED_ERROR_GAMES,
        kept_in_class(surviving(games, games), false) <= MAX_FINISHED_GAMES,
{
    lemma_class_cap(games, true);
    lemma_class_cap(games, false);
}

proof fn lemma_class_cap(games: Seq<RetainedGame>, c: bool)
    requires
        distinct_keys(games),
    ensures
        kept_in_class(surviving(games, games), c) <= class_limit(c),
{
    let n = games.len() as int;
    let ranks = rank_list(games, n, c);
    lemma_rank_list_distinct(games, n, c);
    lemma_rank_list_members(games, n, c);
    lemma_rank_list_counts_kept(games, n, c);
    assert(games.subrange(0, n) =~= games);
    ranks.unique_seq_to_set();
    let limit = class_limit(c) as int;
    lemma_int_range(0, limit);
    assert(ranks.to_set().subset_of(set_int_range(0, limit)));
    lemma_len_subset(ranks.to_set(), set_int_range(0, limit));
}

} // verus!
