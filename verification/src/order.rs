//! The lexicographic order of strings (by code point, which is the order of
//! their UTF-8 bytes), and sorting and de-duplicating lists of strings by it.
use vstd::prelude::*;
use vstd::relations::{sorted_by, total_ordering};
use vstd::seq_lib::lemma_multiset_commutative;
use crate::text::chars_of;

verus! {

/// `a` comes no later than `b` in lexicographic order.
pub open spec fn lex_le(a: Seq<char>, b: Seq<char>) -> bool
    decreases a.len(),
{
    if a.len() == 0 {
        true
    } else if b.len() == 0 {
        false
    } else if (a[0] as u32) < (b[0] as u32) {
        true
    } else if a[0] == b[0] {
        lex_le(a.drop_first(), b.drop_first())
    } else {
        false
    }
}

pub open spec fn lex_le_fn() -> spec_fn(Seq<char>, Seq<char>) -> bool {
    |a: Seq<char>, b: Seq<char>| lex_le(a, b)
}

proof fn lemma_char_order(x: char, y: char)
    ensures
        (x as u32) == (y as u32) ==> x == y,
{
}

pub proof fn lemma_lex_refl(a: Seq<char>)
    ensures
        lex_le(a, a),
    decreases a.len(),
{
    if a.len() > 0 {
        lemma_lex_refl(a.drop_first());
    }
}

pub proof fn lemma_lex_antisym(a: Seq<char>, b: Seq<char>)
    requires
        lex_le(a, b),
        lex_le(b, a),
    ensures
        a == b,
    decreases a.len(),
{
    if a.len() > 0 && b.len() > 0 {
        lemma_char_order(a[0], b[0]);
        lemma_lex_antisym(a.drop_first(), b.drop_first());
        assert(a =~= seq![a[0]] + a.drop_first());
        assert(b =~= seq![b[0]] + b.drop_first());
    } else {
        assert(a =~= b);
    }
}

pub proof fn lemma_lex_trans(a: Seq<char>, b: Seq<char>, c: Seq<char>)
    requires
        lex_le(a, b),
        lex_le(b, c),
    ensures
        lex_le(a, c),
    decreases a.len(),
{
    if a.len() > 0 && b.len() > 0 && c.len() > 0 {
        lemma_char_order(a[0], b[0]);
        lemma_char_order(b[0], c[0]);
        if a[0] == b[0] && b[0] == c[0] {
            lemma_lex_trans(a.drop_first(), b.drop_first(), c.drop_first());
        }
    }
}

pub proof fn lemma_lex_total(a: Seq<char>, b: Seq<char>)
    ensures
        lex_le(a, b) || lex_le(b, a),
    decreases a.len(),
{
    if a.len() > 0 && b.len() > 0 {
        lemma_char_order(a[0], b[0]);
        lemma_lex_total(a.drop_first(), b.drop_first());
    }
}

/// The lexicographic order is a total order.
pub proof fn lemma_lex_total_ordering()
    ensures
        total_ordering(lex_le_fn()),
{
    assert forall|x: Seq<char>| #[trigger] lex_le_fn()(x, x) by {
        lemma_lex_refl(x);
    }
    assert forall|x: Seq<char>, y: Seq<char>|
        #[trigger] lex_le_fn()(x, y) && #[trigger] lex_le_fn()(y, x) implies x == y by {
        lemma_lex_antisym(x, y);
    }
    assert forall|x: Seq<char>, y: Seq<char>, z: Seq<char>|
        #[trigger] lex_le_fn()(x, y) && #[trigger] lex_le_fn()(y, z) implies lex_le_fn()(x, z) by {
        lemma_lex_trans(x, y, z);
    }
    assert forall|x: Seq<char>, y: Seq<char>|
        #[trigger] lex_le_fn()(x, y) || #[trigger] lex_le_fn()(y, x) by {
        lemma_lex_total(x, y);
    }
}

proof fn lemma_lex_skip(a: Seq<char>, b: Seq<char>, i: int)
    requires
        0 <= i <= a.len(),
        i <= b.len(),
        a.subrange(0, i) == b.subrange(0, i),
    ensures
        lex_le(a, b) == lex_le(a.subrange(i, a.len() as int), b.subrange(i, b.len() as int)),
    decreases i,
{
    if i > 0 {
        assert(a[0] == a.subrange(0, i)[0]);
        assert(b[0] == b.subrange(0, i)[0]);
        assert(a.drop_first().subrange(0, i - 1) =~= a.subrange(0, i).drop_first());
        assert(b.drop_first().subrange(0, i - 1) =~= b.subrange(0, i).drop_first());
        lemma_lex_skip(a.drop_first(), b.drop_first(), i - 1);
        assert(a.drop_first().subrange(i - 1, a.len() - 1) =~= a.subrange(i, a.len() as int));
        assert(b.drop_first().subrange(i - 1, b.len() - 1) =~= b.subrange(i, b.len() as int));
    } else {
        assert(a.subrange(0, a.len() as int) =~= a);
        assert(b.subrange(0, b.len() as int) =~= b);
    }
}

/// Whether `a` comes no later than `b` in lexicographic order.
pub fn str_le(a: &str, b: &str) -> (le: bool)
    ensures
        le == lex_le(a@, b@),
{
    let x = chars_of(a);
    let y = chars_of(b);
    let mut i: usize = 0;
    while i < x.len() && i < y.len()
        invariant
            x@ == a@,
            y@ == b@,
            i <= x.len(),
            i <= y.len(),
            x@.subrange(0, i as int) == y@.subrange(0, i as int),
        decreases x.len() - i,
    {
        if (x[i] as u32) < (y[i] as u32) {
            proof {
                lemma_lex_skip(x@, y@, i as int);
                let xs = x@.subrange(i as int, x@.len() as int);
                let ys = y@.subrange(i as int, y@.len() as int);
                assert(xs[0] == x@[i as int]);
                assert(ys[0] == y@[i as int]);
            }
            return true;
        }
        if x[i] != y[i] {
            proof {
                lemma_lex_skip(x@, y@, i as int);
                let xs = x@.subrange(i as int, x@.len() as int);
                let ys = y@.subrange(i as int, y@.len() as int);
                assert(xs[0] == x@[i as int]);
                assert(ys[0] == y@[i as int]);
            }
            return false;
        }
        proof {
            assert(x@.subrange(0, i + 1) =~= x@.subrange(0, i as int).push(x@[i as int]));
            assert(y@.subrange(0, i + 1) =~= y@.subrange(0, i as int).push(y@[i as int]));
        }
        i = i + 1;
    }
    proof {
        lemma_lex_skip(x@, y@, i as int);
    }
    i == x.len()
}

/// The views of a list of strings.
pub open spec fn views(v: Seq<String>) -> Seq<Seq<char>> {
    v.map_values(|s: String| s@)
}

proof fn lemma_insert_multiset(s: Seq<Seq<char>>, p: int, x: Seq<char>)
    requires
        0 <= p <= s.len(),
    ensures
        s.insert(p, x).to_multiset() =~= s.to_multiset().insert(x),
{
    broadcast use vstd::seq_lib::group_to_multiset_ensures;

    let a = s.subrange(0, p);
    let b = s.subrange(p, s.len() as int);
    lemma_multiset_commutative(a.push(x), b);
    lemma_multiset_commutative(a, b);
    assert(a + b =~= s);
}

/// The strings in lexicographic order, each kept as often as it occurs.
pub fn sort_strings(input: &Vec<String>) -> (out: Vec<String>)
    ensures
        views(out@) == views(input@).sort_by(lex_le_fn()),
{
    let mut out: Vec<String> = Vec::new();
    let mut i: usize = 0;
    proof {
        lemma_lex_total_ordering();
        assert(views(out@) =~= views(input@).subrange(0, 0));
    }
    while i < input.len()
        invariant
            i <= input@.len(),
            total_ordering(lex_le_fn()),
            sorted_by(views(out@), lex_le_fn()),
            views(out@).to_multiset() == views(input@).subrange(0, i as int).to_multiset(),
        decreases input.len() - i,
    {
        let x = &input[i];
        let mut p: usize = 0;
        while p < out.len() && str_le(out[p].as_str(), x.as_str())
            invariant
                p <= out@.len(),
                forall|k: int| 0 <= k < p ==> lex_le(#[trigger] out@[k]@, x@),
            decreases out.len() - p,
        {
            p = p + 1;
        }
        let ghost before = views(out@);
        out.insert(p, x.clone());
        proof {
            assert(views(out@) =~= before.insert(p as int, x@));
            lemma_insert_multiset(before, p as int, x@);
            let after = views(out@);
            assert(views(input@).subrange(0, i + 1) =~= views(input@).subrange(0, i as int).push(
                x@,
            ));
            vstd::seq_lib::to_multiset_build(views(input@).subrange(0, i as int), x@);
            assert forall|m: int| p < m < after.len() implies lex_le(x@, after[m]) by {
                lemma_lex_total(before[p as int], x@);
                assert(!lex_le(before[p as int], x@));
                if m - 1 > p {
                    assert(lex_le_fn()(before[p as int], before[m - 1]));
                } else {
                    lemma_lex_refl(before[p as int]);
                }
                lemma_lex_trans(x@, before[p as int], before[m - 1]);
            }
            assert forall|a: int, b: int| 0 <= a < b < after.len() implies #[trigger] lex_le_fn()(
                after[a],
                after[b],
            ) by {
                if b < p {
                    assert(lex_le_fn()(before[a], before[b]));
                } else if b == p {
                    assert(lex_le(out@[a]@, x@));
                } else if a < p {
                    assert(lex_le(out@[a]@, x@));
                    lemma_lex_trans(after[a], x@, after[b]);
                } else if a == p {
                } else {
                    assert(lex_le_fn()(before[a - 1], before[b - 1]));
                }
            }
        }
        i = i + 1;
    }
    proof {
        assert(views(input@).subrange(0, input@.len() as int) =~= views(input@));
        views(input@).lemma_sort_by_ensures(lex_le_fn());
        vstd::seq_lib::lemma_sorted_unique(
            views(out@),
            views(input@).sort_by(lex_le_fn()),
            lex_le_fn(),
        );
    }
    out
}

/// The strings of a sorted list with adjacent repeats dropped.
pub open spec fn dedup_sorted(s: Seq<Seq<char>>) -> Seq<Seq<char>>
    decreases s.len(),
{
    if s.len() == 0 {
        s
    } else if s.len() >= 2 && s[s.len() - 2] == s.last() {
        dedup_sorted(s.drop_last())
    } else {
        dedup_sorted(s.drop_last()).push(s.last())
    }
}

/// Drops adjacent repeats from a list of strings.
pub fn dedup_adjacent(input: &Vec<String>) -> (out: Vec<String>)
    ensures
        views(out@) == dedup_sorted(views(input@)),
{
    let mut out: Vec<String> = Vec::new();
    let mut i: usize = 0;
    while i < input.len()
        invariant
            i <= input@.len(),
            views(out@) == dedup_sorted(views(input@).subrange(0, i as int)),
        decreases input.len() - i,
    {
        let ghost prefix = views(input@).subrange(0, i + 1);
        proof {
            assert(prefix.drop_last() =~= views(input@).subrange(0, i as int));
        }
        if i >= 1 && crate::text::str_eq(input[i - 1].as_str(), input[i].as_str()) {
        } else {
            let ghost before = views(out@);
            out.push(input[i].clone());
            proof {
                assert(views(out@) =~= before.push(input@[i as int]@));
            }
        }
        i = i + 1;
    }
    proof {
        assert(views(input@).subrange(0, input@.len() as int) =~= views(input@));
    }
    out
}

/// The strings joined with a separator between each two.
pub open spec fn joined(s: Seq<Seq<char>>, sep: Seq<char>) -> Seq<char>
    decreases s.len(),
{
    if s.len() == 0 {
        Seq::empty()
    } else if s.len() == 1 {
        s[0]
    } else {
        joined(s.drop_last(), sep) + sep + s.last()
    }
}

/// Joins strings with a separator.
pub fn join_strings(parts: &Vec<String>, sep: &str) -> (text: String)
    ensures
        text@ == joined(views(parts@), sep@),
{
    let mut text = String::new();
    let mut i: usize = 0;
    while i < parts.len()
        invariant
            i <= parts@.len(),
            text@ == joined(views(parts@).subrange(0, i as int), sep@),
        decreases parts.len() - i,
    {
        proof {
            assert(views(parts@).subrange(0, i + 1).drop_last() =~= views(parts@).subrange(0, i as int));
        }
        if i > 0 {
            crate::text::push_str(&mut text, sep);
        }
        crate::text::push_str(&mut text, parts[i].as_str());
        proof {
            if i == 0 {
                assert(text@ =~= views(parts@).subrange(0, 1)[0]);
            }
        }
        i = i + 1;
    }
    proof {
        assert(views(parts@).subrange(0, parts@.len() as int) =~= views(parts@));
    }
    text
}

} // verus!
