//! What the configuration fingerprint does not depend on: the order in
//! which an engine's options are listed, and options that have no value.
use vstd::prelude::*;
use vstd::seq_lib::{lemma_sorted_unique, to_multiset_build, to_multiset_insert};
use crate::order::{lemma_lex_total_ordering, lex_le_fn};
use crate::telemetry::{book_line, canonical_setup, option_lines, setup_fingerprint, BookSetup, EngineSetup};
use crate::text::decimal;

verus! {

/// The options that have a value, as (name, value) text pairs, in order.
pub open spec fn valued_options(options: Seq<(String, Option<String>)>) -> Seq<(Seq<char>, Seq<char>)>
    decreases options.len(),
{
    if options.len() == 0 {
        Seq::empty()
    } else {
        let prev = valued_options(options.drop_last());
        match options.last().1 {
            Some(v) => prev.push((options.last().0@, v@)),
            None => prev,
        }
    }
}

/// The `name=value` line of a valued option.
pub open spec fn option_line(p: (Seq<char>, Seq<char>)) -> Seq<char> {
    p.0 + "="@ + p.1
}

/// An opening-book configuration as text and numbers.
pub open spec fn book_view(book: Option<BookSetup>) -> Option<(Seq<char>, bool, u32, u32)> {
    match book {
        Some(b) => Some((b.path@, b.enabled, b.max_plies, b.top_move_percent)),
        None => None,
    }
}

proof fn lemma_option_lines_map(options: Seq<(String, Option<String>)>)
    ensures
        option_lines(options) == valued_options(options).map_values(
            |p: (Seq<char>, Seq<char>)| option_line(p),
        ),
    decreases options.len(),
{
    if options.len() > 0 {
        lemma_option_lines_map(options.drop_last());
        let prev = valued_options(options.drop_last());
        match options.last().1 {
            Some(v) => {
                assert(prev.push((options.last().0@, v@)).map_values(
                    |p: (Seq<char>, Seq<char>)| option_line(p),
                ) =~= prev.map_values(|p: (Seq<char>, Seq<char>)| option_line(p)).push(
                    option_line((options.last().0@, v@)),
                ));
            },
            None => {},
        }
    } else {
        assert(valued_options(options).map_values(|p: (Seq<char>, Seq<char>)| option_line(p))
            =~= Seq::<Seq<char>>::empty());
    }
}

/// Mapping two sequences with the same elements gives sequences with the
/// same elements.
proof fn lemma_map_same_multiset(
    p: Seq<(Seq<char>, Seq<char>)>,
    q: Seq<(Seq<char>, Seq<char>)>,
)
    requires
        p.to_multiset() == q.to_multiset(),
    ensures
        p.map_values(|x: (Seq<char>, Seq<char>)| option_line(x)).to_multiset() == q.map_values(
            |x: (Seq<char>, Seq<char>)| option_line(x),
        ).to_multiset(),
    decreases p.len(),
{
    broadcast use vstd::seq_lib::group_to_multiset_ensures;
    broadcast use vstd::multiset::group_multiset_axioms;

    let f = |x: (Seq<char>, Seq<char>)| option_line(x);
    if p.len() == 0 {
        assert(q.len() == 0) by {
            assert(p.to_multiset().len() == 0);
        }
        assert(p.map_values(f) =~= Seq::<Seq<char>>::empty());
        assert(q.map_values(f) =~= Seq::<Seq<char>>::empty());
    } else {
        let x = p.last();
        let p1 = p.drop_last();
        assert(p1.push(x) =~= p);
        to_multiset_build(p1, x);
        assert(p.to_multiset().count(x) > 0);
        assert(q.contains(x));
        let j = choose|j: int| 0 <= j < q.len() && q[j] == x;
        let q1 = q.remove(j);
        assert(q1.insert(j, x) =~= q);
        to_multiset_insert(q1, j, x);
        assert(p1.to_multiset() =~= q1.to_multiset()) by {
            assert forall|y: (Seq<char>, Seq<char>)| #[trigger] p1.to_multiset().count(y)
                == q1.to_multiset().count(y) by {
                assert(p.to_multiset().count(y) == q.to_multiset().count(y));
            }
        }
        lemma_map_same_multiset(p1, q1);
        assert(p.map_values(f) =~= p1.map_values(f).push(f(x)));
        to_multiset_build(p1.map_values(f), f(x));
        assert(q.map_values(f) =~= q1.map_values(f).insert(j, f(x)));
        to_multiset_insert(q1.map_values(f), j, f(x));
    }
}

/// Two setups of the same engine with the same opening book, whose valued
/// options are the same (name, value) pairs in any order, have the same
/// fingerprint: listing the options differently, or adding options that
/// have no value, does not change it.
pub proof fn law_fingerprint_ignores_option_order(a: EngineSetup, b: EngineSetup)
    requires
        a.id@ == b.id@,
        book_view(a.opening_book) == book_view(b.opening_book),
        valued_options(a.options@).to_multiset() == valued_options(b.options@).to_multiset(),
    ensures
        setup_fingerprint(a) == setup_fingerprint(b),
{
    lemma_option_lines_map(a.options@);
    lemma_option_lines_map(b.options@);
    lemma_map_same_multiset(valued_options(a.options@), valued_options(b.options@));
    let la = option_lines(a.options@);
    let lb = option_lines(b.options@);
    lemma_lex_total_ordering();
    la.lemma_sort_by_ensures(lex_le_fn());
    lb.lemma_sort_by_ensures(lex_le_fn());
    lemma_sorted_unique(la.sort_by(lex_le_fn()), lb.sort_by(lex_le_fn()), lex_le_fn());
    assert(book_line(a.opening_book) == book_line(b.opening_book));
}

proof fn lemma_decimal_len(n: nat)
    ensures
        decimal(n).len() >= 1,
        n >= 10 ==> decimal(n).len() >= 2,
    decreases n,
{
    if n >= 10 {
        lemma_decimal_len(n / 10);
    }
}

/// Different numbers are written differently.
proof fn lemma_decimal_injective(a: nat, b: nat)
    requires
        decimal(a) == decimal(b),
    ensures
        a == b,
    decreases a,
{
    lemma_decimal_len(a);
    lemma_decimal_len(b);
    if a < 10 && b < 10 {
        let ca = ((('0' as u32) + a) as char);
        let cb = ((('0' as u32) + b) as char);
        assert(decimal(a) == seq![ca]);
        assert(decimal(b) == seq![cb]);
        assert(decimal(a)[0] == ca);
        assert(decimal(b)[0] == cb);
        assert(ca == cb);
    } else if a < 10 || b < 10 {
        assert(false);
    } else {
        let ca = ((('0' as u32) + a % 10) as char);
        let cb = ((('0' as u32) + b % 10) as char);
        assert(decimal(a) == decimal(a / 10).push(ca));
        assert(decimal(b) == decimal(b / 10).push(cb));
        assert(decimal(a).last() == ca);
        assert(decimal(b).last() == cb);
        assert(decimal(a).drop_last() =~= decimal(a / 10));
        assert(decimal(b).drop_last() =~= decimal(b / 10));
        lemma_decimal_injective(a / 10, b / 10);
        assert(ca == cb);
        assert(a % 10 == b % 10);
        assert(a == (a / 10) * 10 + a % 10);
        assert(b == (b / 10) * 10 + b % 10);
    }
}

/// The text the fingerprint hashes changes with the opening book: setting
/// up the same engine and options with a book instead of none, or with the
/// same book under another ply limit, gives another canonical text. (The
/// 12 hexadecimal digits are a hash of that text, so two different texts
/// may in principle share them.)
pub proof fn law_fingerprint_text_tracks_the_book(a: EngineSetup, b: EngineSetup)
    requires
        a.id@ == b.id@,
        valued_options(a.options@).to_multiset() == valued_options(b.options@).to_multiset(),
        (a.opening_book is None && b.opening_book is Some) || (a.opening_book matches Some(x)
            && b.opening_book matches Some(y) && x.path@ == y.path@ && x.enabled == y.enabled
            && x.top_move_percent == y.top_move_percent && x.max_plies != y.max_plies),
    ensures
        canonical_setup(a) != canonical_setup(b),
{
    lemma_option_lines_map(a.options@);
    lemma_option_lines_map(b.options@);
    lemma_map_same_multiset(valued_options(a.options@), valued_options(b.options@));
    let la = option_lines(a.options@);
    let lb = option_lines(b.options@);
    lemma_lex_total_ordering();
    la.lemma_sort_by_ensures(lex_le_fn());
    lb.lemma_sort_by_ensures(lex_le_fn());
    lemma_sorted_unique(la.sort_by(lex_le_fn()), lb.sort_by(lex_le_fn()), lex_le_fn());
    let prefix = "engine="@ + a.id@ + "\n"@ + crate::order::joined(la.sort_by(lex_le_fn()), "\n"@) + "\n"@;
    let xa = book_line(a.opening_book);
    let xb = book_line(b.opening_book);
    assert(canonical_setup(a) == prefix + xa);
    assert(canonical_setup(b) == prefix + xb);
    if canonical_setup(a) == canonical_setup(b) {
        assert((prefix + xa).subrange(prefix.len() as int, (prefix + xa).len() as int) =~= xa);
        assert((prefix + xb).subrange(prefix.len() as int, (prefix + xb).len() as int) =~= xb);
        assert(xa == xb);
        reveal_strlit("book=none");
        reveal_strlit("book=");
        reveal_strlit("|enabled=");
        reveal_strlit("|maxPlies=");
        reveal_strlit("|percent=");
        if a.opening_book is None {
            let y = b.opening_book.unwrap();
            lemma_decimal_len(y.max_plies as nat);
            lemma_decimal_len(y.top_move_percent as nat);
            assert(xa.len() == 9);
            assert(xb.len() >= 30);
        } else {
            let x = a.opening_book.unwrap();
            let y = b.opening_book.unwrap();
            let head = "book="@ + x.path@ + "|enabled="@ + crate::telemetry::bool_text(x.enabled)
                + "|maxPlies="@;
            let tail = "|percent="@ + decimal(x.top_move_percent as nat);
            let da = decimal(x.max_plies as nat);
            let db = decimal(y.max_plies as nat);
            assert(xa =~= head + da + tail);
            assert(xb =~= head + db + tail);
            assert(da.len() == db.len());
            assert(da =~= xa.subrange(head.len() as int, (head.len() + da.len()) as int));
            assert(db =~= xb.subrange(head.len() as int, (head.len() + db.len()) as int));
            lemma_decimal_injective(x.max_plies as nat, y.max_plies as nat);
        }
    }
}

} // verus!
