//! Lists of key-value entries with distinct keys, read as maps: the facts
//! that tie pushing, updating, removing and filtering entries to the
//! corresponding map operations.
use vstd::prelude::*;

verus! {

/// No two entries share a key.
pub open spec fn keys_unique<K, V>(s: Seq<(K, V)>) -> bool {
    forall|i: int, j: int| 0 <= i < s.len() && 0 <= j < s.len() && i != j ==> s[i].0 != s[j].0
}

/// Some entry has this key.
pub open spec fn has_key<K, V>(s: Seq<(K, V)>, k: K) -> bool {
    exists|i: int| 0 <= i < s.len() && #[trigger] s[i].0 == k
}

/// The map an entry list denotes; a later entry overrides an earlier one.
pub open spec fn to_map<K, V>(s: Seq<(K, V)>) -> Map<K, V>
    decreases s.len(),
{
    if s.len() == 0 {
        Map::empty()
    } else {
        to_map(s.drop_last()).insert(s.last().0, s.last().1)
    }
}

pub proof fn lemma_to_map_dom<K, V>(s: Seq<(K, V)>, k: K)
    ensures
        to_map(s).dom().contains(k) == has_key(s, k),
    decreases s.len(),
{
    if s.len() > 0 {
        lemma_to_map_dom(s.drop_last(), k);
        if has_key(s.drop_last(), k) {
            let i = choose|i: int| 0 <= i < s.drop_last().len() && #[trigger] s.drop_last()[i].0 == k;
            assert(s[i].0 == k);
        }
        if has_key(s, k) && s.last().0 != k {
            let i = choose|i: int| 0 <= i < s.len() && #[trigger] s[i].0 == k;
            assert(s.drop_last()[i].0 == k);
        }
        if s.last().0 == k {
            assert(s[s.len() - 1].0 == k);
        }
    }
}

pub proof fn lemma_to_map_index<K, V>(s: Seq<(K, V)>, i: int)
    requires
        keys_unique(s),
        0 <= i < s.len(),
    ensures
        to_map(s).dom().contains(s[i].0),
        to_map(s)[s[i].0] == s[i].1,
    decreases s.len(),
{
    if i < s.len() - 1 {
        let d = s.drop_last();
        assert(keys_unique(d)) by {
            assert forall|a: int, b: int| 0 <= a < d.len() && 0 <= b < d.len() && a != b implies d[a].0
                != d[b].0 by {
                assert(d[a] == s[a] && d[b] == s[b]);
            }
        }
        lemma_to_map_index(d, i);
        assert(s[i].0 != s[s.len() - 1].0);
        assert(d[i] == s[i]);
    }
}

/// Every key of the denoted map names the entry list's value for it.
pub proof fn lemma_to_map_all<K, V>(s: Seq<(K, V)>)
    requires
        keys_unique(s),
    ensures
        forall|i: int| 0 <= i < s.len() ==> #[trigger] to_map(s).dom().contains(s[i].0) && to_map(
            s,
        )[s[i].0] == s[i].1,
        forall|k: K| #[trigger] to_map(s).dom().contains(k) == has_key(s, k),
{
    assert forall|i: int| 0 <= i < s.len() implies #[trigger] to_map(s).dom().contains(s[i].0)
        && to_map(s)[s[i].0] == s[i].1 by {
        lemma_to_map_index(s, i);
    }
    assert forall|k: K| #[trigger] to_map(s).dom().contains(k) == has_key(s, k) by {
        lemma_to_map_dom(s, k);
    }
}

/// Two lists with distinct keys, the same keys and the same value for each
/// key denote the same map.
pub proof fn lemma_to_map_ext<K, V>(s: Seq<(K, V)>, t: Seq<(K, V)>, m: Map<K, V>)
    requires
        keys_unique(s),
        forall|k: K| #[trigger] has_key(s, k) == m.dom().contains(k),
        forall|i: int| 0 <= i < s.len() ==> #[trigger] m[s[i].0] == s[i].1,
    ensures
        to_map(s) =~= m,
{
    lemma_to_map_all(s);
    assert forall|k: K| #[trigger] m.dom().contains(k) implies to_map(s)[k] == m[k] by {
        assert(has_key(s, k));
        let i = choose|i: int| 0 <= i < s.len() && #[trigger] s[i].0 == k;
        assert(to_map(s).dom().contains(s[i].0));
        assert(to_map(s)[s[i].0] == s[i].1);
        assert(m[s[i].0] == s[i].1);
    }
}

/// Appending an entry with a new key inserts it.
pub proof fn lemma_push_new<K, V>(s: Seq<(K, V)>, k: K, v: V)
    requires
        keys_unique(s),
        !has_key(s, k),
    ensures
        keys_unique(s.push((k, v))),
        to_map(s.push((k, v))) == to_map(s).insert(k, v),
{
    let t = s.push((k, v));
    assert(t.drop_last() =~= s);
    assert forall|i: int, j: int| 0 <= i < t.len() && 0 <= j < t.len() && i != j implies t[i].0
        != t[j].0 by {
        if i == s.len() {
            if t[j].0 == k {
                assert(s[j].0 == k);
            }
        } else if j == s.len() {
            if t[i].0 == k {
                assert(s[i].0 == k);
            }
        }
    }
}

/// Replacing the value of the entry at `i` updates its key.
pub proof fn lemma_update_value<K, V>(s: Seq<(K, V)>, i: int, v: V)
    requires
        keys_unique(s),
        0 <= i < s.len(),
    ensures
        keys_unique(s.update(i, (s[i].0, v))),
        to_map(s.update(i, (s[i].0, v))) =~= to_map(s).insert(s[i].0, v),
{
    let t = s.update(i, (s[i].0, v));
    assert forall|a: int, b: int| 0 <= a < t.len() && 0 <= b < t.len() && a != b implies t[a].0
        != t[b].0 by {
        assert(t[a].0 == s[a].0 && t[b].0 == s[b].0);
    }
    lemma_to_map_all(s);
    lemma_to_map_all(t);
    let m = to_map(s).insert(s[i].0, v);
    assert forall|k: K| #[trigger] has_key(t, k) == m.dom().contains(k) by {
        if has_key(t, k) {
            let j = choose|j: int| 0 <= j < t.len() && #[trigger] t[j].0 == k;
            assert(s[j].0 == k);
        }
        if has_key(s, k) {
            let j = choose|j: int| 0 <= j < s.len() && #[trigger] s[j].0 == k;
            assert(t[j].0 == k);
        }
    }
    assert forall|j: int| 0 <= j < t.len() implies #[trigger] m[t[j].0] == t[j].1 by {
        if j != i {
            assert(t[j] == s[j]);
            assert(s[j].0 != s[i].0);
            assert(to_map(s).dom().contains(s[j].0));
        }
    }
    lemma_to_map_ext(t, t, m);
}

/// Removing the entry at `i` removes its key.
pub proof fn lemma_remove_at<K, V>(s: Seq<(K, V)>, i: int)
    requires
        keys_unique(s),
        0 <= i < s.len(),
    ensures
        keys_unique(s.remove(i)),
        to_map(s.remove(i)) =~= to_map(s).remove(s[i].0),
        forall|k: K| #[trigger] has_key(s.remove(i), k) == (has_key(s, k) && k != s[i].0),
{
    let t = s.remove(i);
    assert forall|a: int, b: int| 0 <= a < t.len() && 0 <= b < t.len() && a != b implies t[a].0
        != t[b].0 by {
        let sa = if a < i { a } else { a + 1 };
        let sb = if b < i { b } else { b + 1 };
        assert(t[a] == s[sa] && t[b] == s[sb]);
    }
    lemma_to_map_all(s);
    let m = to_map(s).remove(s[i].0);
    assert forall|k: K| #[trigger] has_key(t, k) == (has_key(s, k) && k != s[i].0) by {
        if has_key(t, k) {
            let j = choose|j: int| 0 <= j < t.len() && #[trigger] t[j].0 == k;
            let sj = if j < i { j } else { j + 1 };
            assert(s[sj].0 == k);
        }
        if has_key(s, k) && k != s[i].0 {
            let j = choose|j: int| 0 <= j < s.len() && #[trigger] s[j].0 == k;
            let tj = if j < i { j } else { j - 1 };
            assert(t[tj].0 == k);
        }
    }
    assert forall|k: K| #[trigger] has_key(t, k) == m.dom().contains(k) by {
        assert(has_key(t, k) == (has_key(s, k) && k != s[i].0));
    }
    assert forall|j: int| 0 <= j < t.len() implies #[trigger] m[t[j].0] == t[j].1 by {
        let sj = if j < i { j } else { j + 1 };
        assert(t[j] == s[sj]);
        assert(s[sj].0 != s[i].0);
        assert(to_map(s).dom().contains(s[sj].0));
    }
    lemma_to_map_ext(t, t, m);
}

/// The entries that satisfy a predicate, in order.
pub open spec fn filter_entries<K, V>(s: Seq<(K, V)>, p: spec_fn((K, V)) -> bool) -> Seq<(K, V)>
    decreases s.len(),
{
    if s.len() == 0 {
        s
    } else if p(s.last()) {
        filter_entries(s.drop_last(), p).push(s.last())
    } else {
        filter_entries(s.drop_last(), p)
    }
}

/// Where in `s` the `j`-th entry the filter keeps comes from.
pub open spec fn filter_source<K, V>(s: Seq<(K, V)>, p: spec_fn((K, V)) -> bool, j: int) -> int
    decreases s.len(),
{
    if s.len() == 0 {
        0
    } else if p(s.last()) && j == filter_entries(s.drop_last(), p).len() {
        s.len() - 1
    } else {
        filter_source(s.drop_last(), p, j)
    }
}

/// The `j`-th entry the filter keeps is the entry of `s` at its source.
proof fn lemma_filter_source<K, V>(s: Seq<(K, V)>, p: spec_fn((K, V)) -> bool, j: int)
    requires
        0 <= j < filter_entries(s, p).len(),
    ensures
        0 <= filter_source(s, p, j) < s.len(),
        filter_entries(s, p)[j] == s[filter_source(s, p, j)],
        p(s[filter_source(s, p, j)]),
    decreases s.len(),
{
    let d = s.drop_last();
    if p(s.last()) && j == filter_entries(d, p).len() {
        assert(filter_entries(s, p) == filter_entries(d, p).push(s.last()));
    } else {
        assert(j < filter_entries(d, p).len());
        lemma_filter_source(d, p, j);
        assert(filter_entries(s, p)[j] == filter_entries(d, p)[j]);
        assert(s[filter_source(d, p, j)] == d[filter_source(d, p, j)]);
    }
}

proof fn lemma_filter_sub<K, V>(s: Seq<(K, V)>, p: spec_fn((K, V)) -> bool)
    ensures
        forall|m: int| 0 <= m < s.len() && p(s[m]) ==> exists|j: int|
            0 <= j < filter_entries(s, p).len() && #[trigger] filter_entries(s, p)[j] == s[m],
    decreases s.len(),
{
    if s.len() > 0 {
        let d = s.drop_last();
        lemma_filter_sub(d, p);
        let f = filter_entries(s, p);
        let fd = filter_entries(d, p);
        assert forall|m: int| 0 <= m < s.len() && p(s[m]) implies exists|j: int|
            0 <= j < f.len() && #[trigger] f[j] == s[m] by {
            if m < d.len() {
                assert(s[m] == d[m]);
                let j = choose|j: int| 0 <= j < fd.len() && #[trigger] fd[j] == d[m];
                assert(f[j] == fd[j]);
            } else {
                assert(f[f.len() - 1] == s[m]);
            }
        }
    }
}

proof fn lemma_filter_order<K, V>(s: Seq<(K, V)>, p: spec_fn((K, V)) -> bool)
    requires
        keys_unique(s),
    ensures
        keys_unique(filter_entries(s, p)),
    decreases s.len(),
{
    if s.len() > 0 {
        let d = s.drop_last();
        assert(keys_unique(d)) by {
            assert forall|a: int, b: int| 0 <= a < d.len() && 0 <= b < d.len() && a != b implies d[a].0
                != d[b].0 by {
                assert(d[a] == s[a] && d[b] == s[b]);
            }
        }
        lemma_filter_order(d, p);
        lemma_filter_sub(d, p);
        let f = filter_entries(s, p);
        let fd = filter_entries(d, p);
        if p(s.last()) {
            assert forall|a: int, b: int| 0 <= a < f.len() && 0 <= b < f.len() && a != b implies f[a].0
                != f[b].0 by {
                if a < fd.len() && b < fd.len() {
                    assert(f[a] == fd[a] && f[b] == fd[b]);
                } else if a < fd.len() {
                    let m = filter_source(d, p, a);
                    lemma_filter_source(d, p, a);
                    assert(f[a] == s[m]);
                    assert(f[b] == s[s.len() - 1]);
                } else if b < fd.len() {
                    let m = filter_source(d, p, b);
                    lemma_filter_source(d, p, b);
                    assert(f[b] == s[m]);
                    assert(f[a] == s[s.len() - 1]);
                }
            }
        }
    }
}

/// Filtering the entries of a list with distinct keys filters its map.
pub proof fn lemma_filter_entries<K, V>(s: Seq<(K, V)>, p: spec_fn((K, V)) -> bool)
    requires
        keys_unique(s),
    ensures
        keys_unique(filter_entries(s, p)),
        forall|k: K| #[trigger]
            to_map(filter_entries(s, p)).dom().contains(k) == (to_map(s).dom().contains(k) && p(
                (k, to_map(s)[k]),
            )),
        forall|k: K| #[trigger]
            to_map(filter_entries(s, p)).dom().contains(k) ==> to_map(filter_entries(s, p))[k]
                == to_map(s)[k],
{
    let f = filter_entries(s, p);
    lemma_filter_order(s, p);
    lemma_filter_sub(s, p);
    lemma_to_map_all(s);
    lemma_to_map_all(f);
    assert forall|k: K| #[trigger] to_map(f).dom().contains(k) == (to_map(s).dom().contains(k) && p(
        (k, to_map(s)[k]),
    )) by {
        if has_key(f, k) {
            let j = choose|j: int| 0 <= j < f.len() && #[trigger] f[j].0 == k;
            let m = filter_source(s, p, j);
            lemma_filter_source(s, p, j);
            assert(to_map(s).dom().contains(s[m].0));
            assert(s[m] == (k, to_map(s)[k]));
        }
        if has_key(s, k) && p((k, to_map(s)[k])) {
            let m = choose|m: int| 0 <= m < s.len() && #[trigger] s[m].0 == k;
            assert(to_map(s).dom().contains(s[m].0));
            assert(s[m] == (k, to_map(s)[k]));
            let j = choose|j: int| 0 <= j < f.len() && #[trigger] f[j] == s[m];
            assert(f[j].0 == k);
        }
    }
    assert forall|k: K| #[trigger] to_map(f).dom().contains(k) implies to_map(f)[k] == to_map(s)[k] by {
        let j = choose|j: int| 0 <= j < f.len() && #[trigger] f[j].0 == k;
        let m = filter_source(s, p, j);
            lemma_filter_source(s, p, j);
        assert(to_map(f).dom().contains(f[j].0));
        assert(to_map(s).dom().contains(s[m].0));
    }
}

/// The denoted map has as many keys as the list has entries.
pub proof fn lemma_to_map_dom_len<K, V>(s: Seq<(K, V)>)
    requires
        keys_unique(s),
    ensures
        to_map(s).dom().len() == s.len(),
        to_map(s).dom().finite(),
    decreases s.len(),
{
    if s.len() > 0 {
        let d = s.drop_last();
        assert(keys_unique(d)) by {
            assert forall|a: int, b: int| 0 <= a < d.len() && 0 <= b < d.len() && a != b implies d[a].0
                != d[b].0 by {
                assert(d[a] == s[a] && d[b] == s[b]);
            }
        }
        lemma_to_map_dom_len(d);
        lemma_to_map_dom(d, s.last().0);
        if has_key(d, s.last().0) {
            let i = choose|i: int| 0 <= i < d.len() && #[trigger] d[i].0 == s.last().0;
            assert(s[i].0 == s[s.len() - 1].0);
        }
        assert(to_map(s).dom() =~= to_map(d).dom().insert(s.last().0));
    } else {
        assert(to_map(s).dom() =~= Set::<K>::empty());
    }
}

} // verus!
