//! What the log boundary guarantees of every message: after `enroll=` and
//! after `Bearer ` there is only ever the redaction mark.
use vstd::prelude::*;
use crate::commands::{
    first_marker, lemma_first_marker, lemma_value_end, redact_from, redacted_mark,
    redacted_message, value_end,
};
use crate::text::occurs_at;

verus! {

/// Every occurrence of `m` in `t` is directly followed by the mark.
pub open spec fn all_marked(t: Seq<char>, m: Seq<char>) -> bool {
    forall|i: int| #[trigger] occurs_at(t, m, i) ==> occurs_at(t, m + redacted_mark(), i)
}

/// No occurrence of `m` can start inside `m` followed by the mark, other
/// than at its start.
spec fn marker_ok(m: Seq<char>) -> bool {
    &&& m.len() >= 2
    &&& forall|k: int|
        1 <= k < m.len() + 10 && #[trigger] (m + redacted_mark())[k] == m[0] ==> k + 1 < m.len() + 10
            && (m + redacted_mark())[k + 1] != m[1]
}

/// Redacting after `b` cannot create or cut an occurrence of `e` followed
/// by the mark: the last character of `b` appears nowhere in `e` followed
/// by the mark, and `e` cannot start inside the mark.
spec fn separated(b: Seq<char>, e: Seq<char>) -> bool {
    &&& b.len() >= 1
    &&& e.len() >= 2
    &&& forall|k: int| 0 <= k < e.len() + 10 ==> #[trigger] (e + redacted_mark())[k] != b.last()
    &&& forall|k: int|
        0 <= k < 10 && #[trigger] redacted_mark()[k] == e[0] ==> k + 1 < 10 && redacted_mark()[k + 1]
            != e[1]
}

/// One redaction pass leaves the text before `f` alone, and every
/// occurrence of the marker from `f` on is followed by the mark.
proof fn lemma_pass(t: Seq<char>, m: Seq<char>, f: int)
    requires
        0 <= f,
        marker_ok(m),
    ensures
        f <= t.len() ==> f <= redact_from(t, m, f).len() && redact_from(t, m, f).subrange(0, f)
            == t.subrange(0, f),
        forall|i: int|
            f <= i && #[trigger] occurs_at(redact_from(t, m, f), m, i) ==> occurs_at(
                redact_from(t, m, f),
                m + redacted_mark(),
                i,
            ),
    decreases t.len() - f,
{
    let mark = redacted_mark();
    lemma_first_marker(t, m, f);
    let r = redact_from(t, m, f);
    match first_marker(t, m, f) {
        None => {
            assert(r == t);
        },
        Some(p) => {
            let len = m.len() as int;
            let start = p + len;
            lemma_value_end(t, start);
            let end = value_end(t, start);
            let t2 = t.subrange(0, start) + mark + t.subrange(end, t.len() as int);
            assert(r == redact_from(t2, m, start + 10));
            lemma_pass(t2, m, start + 10);
            assert(t2.len() >= start + 10);
            assert forall|j: int| 0 <= j < start + 10 implies #[trigger] r[j] == t2[j] by {
                assert(r.subrange(0, start + 10)[j] == t2.subrange(0, start + 10)[j]);
            }
            assert forall|j: int| p <= j < start + 10 implies #[trigger] r[j] == (m + mark)[j - p] by {
                assert(r[j] == t2[j]);
                if j < start {
                    assert(t.subrange(p, start)[j - p] == m[j - p]);
                }
            }
            if f <= t.len() {
                assert(r.subrange(0, f) =~= t.subrange(0, f)) by {
                    assert forall|j: int| 0 <= j < f implies #[trigger] r.subrange(0, f)[j] == t.subrange(0, f)[j] by {
                        assert(r[j] == t2[j]);
                    }
                }
            }
            assert forall|i: int| f <= i && #[trigger] occurs_at(r, m, i) implies occurs_at(
                r,
                m + mark,
                i,
            ) by {
                if i < p {
                    assert(t.subrange(i, i + len) =~= r.subrange(i, i + len)) by {
                        assert forall|j: int| 0 <= j < len implies #[trigger] t.subrange(i, i + len)[j]
                            == r.subrange(i, i + len)[j] by {
                            assert(r[i + j] == t2[i + j]);
                        }
                    }
                    assert(occurs_at(t, m, i));
                } else if i == p {
                    assert(r.subrange(p, p + len + 10) =~= m + mark) by {
                        assert forall|j: int| 0 <= j < len + 10 implies #[trigger] r.subrange(p, p + len + 10)[j]
                            == (m + mark)[j] by {
                            assert(r[p + j] == (m + mark)[p + j - p]);
                        }
                    }
                } else if i < start + 10 {
                    let k = i - p;
                    assert(r[i] == r.subrange(i, i + len)[0]);
                    assert(r[i + 1] == r.subrange(i, i + len)[1]);
                    assert(r[i] == (m + mark)[k]);
                    if i + 1 < start + 10 {
                        assert(r[i + 1] == (m + mark)[i + 1 - p]);
                    }
                }
            }
        },
    }
}

/// Redacting after `b` keeps every occurrence of `e` followed by the mark.
proof fn lemma_pass_keeps(t: Seq<char>, b: Seq<char>, e: Seq<char>, f: int)
    requires
        0 <= f,
        b.len() > 0,
        separated(b, e),
        all_marked(t, e),
    ensures
        all_marked(redact_from(t, b, f), e),
    decreases t.len() - f,
{
    let mark = redacted_mark();
    lemma_first_marker(t, b, f);
    match first_marker(t, b, f) {
        None => {},
        Some(q) => {
            let start = q + b.len();
            lemma_value_end(t, start);
            let end = value_end(t, start);
            let t2 = t.subrange(0, start) + mark + t.subrange(end, t.len() as int);
            let le = e.len() as int;
            let shift = end - start - 10;
            assert(t[start - 1] == b.last()) by {
                assert(t.subrange(q, start)[b.len() - 1] == b[b.len() - 1]);
            }
            assert forall|i: int| #[trigger] occurs_at(t2, e, i) implies occurs_at(t2, e + mark, i) by {
                if i + le <= start {
                    assert(t.subrange(i, i + le) =~= t2.subrange(i, i + le)) by {
                        assert forall|j: int| 0 <= j < le implies #[trigger] t.subrange(i, i + le)[j]
                            == t2.subrange(i, i + le)[j] by {
                            assert(t2[i + j] == t[i + j]);
                        }
                    }
                    assert(occurs_at(t, e, i));
                    assert(occurs_at(t, e + mark, i));
                    if i + le + 10 > start {
                        let k = start - 1 - i;
                        assert(t.subrange(i, i + le + 10)[k] == (e + mark)[k]);
                        assert((e + mark)[k] != b.last());
                    }
                    assert(t2.subrange(i, i + le + 10) =~= e + mark) by {
                        assert forall|j: int| 0 <= j < le + 10 implies #[trigger] t2.subrange(i, i + le + 10)[j]
                            == (e + mark)[j] by {
                            assert(t2[i + j] == t[i + j]);
                            assert(t.subrange(i, i + le + 10)[j] == (e + mark)[j]);
                        }
                    }
                } else if i < start {
                    let k = start - 1 - i;
                    assert(t2[start - 1] == t[start - 1]);
                    assert(t2.subrange(i, i + le)[k] == e[k]);
                    assert((e + mark)[k] == e[k]);
                    assert((e + mark)[k] != b.last());
                } else if i < start + 10 {
                    let k = i - start;
                    assert(t2[i] == t2.subrange(i, i + le)[0]);
                    assert(t2[i + 1] == t2.subrange(i, i + le)[1]);
                    assert(t2[i] == mark[k]);
                    if k + 1 < 10 {
                        assert(t2[i + 1] == mark[k + 1]);
                    }
                } else {
                    let i2 = i + shift;
                    assert(t.subrange(i2, i2 + le) =~= t2.subrange(i, i + le)) by {
                        assert forall|j: int| 0 <= j < le implies #[trigger] t.subrange(i2, i2 + le)[j]
                            == t2.subrange(i, i + le)[j] by {
                            assert(t2[i + j] == t[i2 + j]);
                        }
                    }
                    assert(occurs_at(t, e, i2));
                    assert(occurs_at(t, e + mark, i2));
                    assert(t2.subrange(i, i + le + 10) =~= e + mark) by {
                        assert forall|j: int| 0 <= j < le + 10 implies #[trigger] t2.subrange(i, i + le + 10)[j]
                            == (e + mark)[j] by {
                            assert(t2[i + j] == t[i2 + j]);
                            assert(t.subrange(i2, i2 + le + 10)[j] == (e + mark)[j]);
                        }
                    }
                }
            }
            assert(redact_from(t, b, f) == redact_from(t2, b, start + 10));
            lemma_pass_keeps(t2, b, e, start + 10);
        },
    }
}

proof fn lemma_markers_ok()
    ensures
        marker_ok("enroll="@),
        marker_ok("Bearer "@),
        separated("Bearer "@, "enroll="@),
{
    reveal_strlit("enroll=");
    reveal_strlit("Bearer ");
    let e = "enroll="@;
    let b = "Bearer "@;
    let mark = redacted_mark();
    assert(e =~= seq!['e', 'n', 'r', 'o', 'l', 'l', '=']);
    assert(b =~= seq!['B', 'e', 'a', 'r', 'e', 'r', ' ']);
    let em = e + mark;
    let bm = b + mark;
    assert(em =~= seq!['e', 'n', 'r', 'o', 'l', 'l', '=', '<', 'r', 'e', 'd', 'a', 'c', 't', 'e', 'd', '>']);
    assert(bm =~= seq!['B', 'e', 'a', 'r', 'e', 'r', ' ', '<', 'r', 'e', 'd', 'a', 'c', 't', 'e', 'd', '>']);
    assert forall|k: int| 1 <= k < 17 && #[trigger] em[k] == e[0] implies k + 1 < 17 && em[k + 1] != e[1] by {
        assert(k == 9 || k == 14);
    }
    assert forall|k: int| 1 <= k < 17 && #[trigger] bm[k] == b[0] implies k + 1 < 17 && bm[k + 1] != b[1] by {
    }
    assert forall|k: int| 0 <= k < 17 implies #[trigger] em[k] != b.last() by {
    }
    assert forall|k: int| 0 <= k < 10 && #[trigger] mark[k] == e[0] implies k + 1 < 10 && mark[k + 1] != e[1] by {
        assert(k == 2 || k == 7);
    }
}

/// In the log-safe form of any message, every `enroll=` and every `Bearer `
/// is directly followed by the redaction mark: no pairing code and no
/// bearer value is left after either marker.
pub proof fn law_redaction_leaves_no_secret(message: Seq<char>)
    ensures
        all_marked(redacted_message(message), "enroll="@),
        all_marked(redacted_message(message), "Bearer "@),
{
    lemma_markers_ok();
    let once = redact_from(message, "enroll="@, 0);
    lemma_pass(message, "enroll="@, 0);
    assert(all_marked(once, "enroll="@));
    lemma_pass(once, "Bearer "@, 0);
    lemma_pass_keeps(once, "Bearer "@, "enroll="@, 0);
}

} // verus!
