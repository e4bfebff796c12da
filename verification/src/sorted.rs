//! Sorted sets of texts kept in a vector: the ordered, duplicate-free
//! collections that make every listing of this library deterministic.
use vstd::prelude::*;
use crate::text::{
    compare_text, lemma_text_lt_irreflexive, lemma_text_lt_total, lemma_text_lt_transitive,
    strictly_sorted, text_lt, texts, TextOrder,
};

verus! {

/// `s` is the strictly increasing enumeration of the set `items`.
pub open spec fn enumerates(s: Seq<Seq<char>>, items: Set<Seq<char>>) -> bool {
    &&& strictly_sorted(s)
    &&& forall|t: Seq<char>| #[trigger] s.contains(t) <==> items.contains(t)
}

/// A set has at most one strictly increasing enumeration.
pub proof fn lemma_enumeration_unique(a: Seq<Seq<char>>, b: Seq<Seq<char>>, items: Set<Seq<char>>)
    requires
        enumerates(a, items),
        enumerates(b, items),
    ensures
        a == b,
    decreases a.len(),
{
    if a.len() == 0 {
        if b.len() > 0 {
            assert(b.contains(b[0]));
            assert(items.contains(b[0]));
            assert(!a.contains(b[0]));
        }
        assert(a =~= b);
    } else if b.len() == 0 {
        assert(a.contains(a[0]));
        assert(items.contains(a[0]));
        assert(!b.contains(a[0]));
    } else {
        // The first elements are both the least element of the set.
        assert(a.contains(a[0]));
        assert(b.contains(b[0]));
        assert(b.contains(a[0]));
        assert(a.contains(b[0]));
        let ka = choose|k: int| 0 <= k < b.len() && b[k] == a[0];
        let kb = choose|k: int| 0 <= k < a.len() && a[k] == b[0];
        if a[0] != b[0] {
            assert(ka != 0);
            assert(kb != 0);
            assert(text_lt(b[0], b[ka]));
            assert(text_lt(a[0], a[kb]));
            lemma_text_lt_total(a[0], b[0]);
        }
        let rest = items.remove(a[0]);
        assert forall|t: Seq<char>| #[trigger] a.drop_first().contains(t) <==> rest.contains(t) by {
            if a.drop_first().contains(t) {
                let k = choose|k: int| 0 <= k < a.drop_first().len() && a.drop_first()[k] == t;
                assert(a[k + 1] == t);
                assert(text_lt(a[0], a[k + 1]));
                lemma_text_lt_irreflexive(t);
                assert(a.contains(t));
            }
            if rest.contains(t) {
                assert(a.contains(t));
                let k = choose|k: int| 0 <= k < a.len() && a[k] == t;
                assert(k != 0);
                assert(a.drop_first()[k - 1] == t);
            }
        }
        assert forall|t: Seq<char>| #[trigger] b.drop_first().contains(t) <==> rest.contains(t) by {
            if b.drop_first().contains(t) {
                let k = choose|k: int| 0 <= k < b.drop_first().len() && b.drop_first()[k] == t;
                assert(b[k + 1] == t);
                assert(text_lt(b[0], b[k + 1]));
                lemma_text_lt_irreflexive(t);
                assert(b.contains(t));
            }
            if rest.contains(t) {
                assert(b.contains(t));
                let k = choose|k: int| 0 <= k < b.len() && b[k] == t;
                assert(k != 0);
                assert(b.drop_first()[k - 1] == t);
            }
        }
        lemma_enumeration_unique(a.drop_first(), b.drop_first(), rest);
        assert(a =~= seq![a[0]] + a.drop_first());
        assert(b =~= seq![b[0]] + b.drop_first());
    }
}

/// Inserts `s` into the strictly sorted vector `v` unless an equal text is
/// already there; the vector stays strictly sorted.
pub fn insert_sorted_unique(v: &mut Vec<String>, s: String)
    requires
        strictly_sorted(texts(old(v)@)),
    ensures
        strictly_sorted(texts(final(v)@)),
        forall|t: Seq<char>| #[trigger] texts(final(v)@).contains(t) <==> (texts(old(v)@).contains(t) || t == s@),
{
    let ghost old_t = texts(v@);
    let mut lo: usize = 0;
    let mut hi: usize = v.len();
    while lo < hi
        invariant
            texts(v@) == old_t,
            strictly_sorted(old_t),
            old_t.len() == v@.len(),
            0 <= lo <= hi <= v@.len(),
            forall|k: int| 0 <= k < lo ==> text_lt(#[trigger] old_t[k], s@),
            forall|k: int| hi <= k < v@.len() ==> text_lt(s@, #[trigger] old_t[k]),
        decreases hi - lo,
    {
        let mid = lo + (hi - lo) / 2;
        assert(old_t[mid as int] == v@[mid as int]@);
        match compare_text(v[mid].as_str(), s.as_str()) {
            TextOrder::Equal => {
                assert(old_t.contains(s@));
                return;
            },
            TextOrder::Less => {
                assert forall|k: int| 0 <= k < mid + 1 implies text_lt(#[trigger] old_t[k], s@) by {
                    if k < mid {
                        lemma_text_lt_transitive(old_t[k], old_t[mid as int], s@);
                    }
                }
                lo = mid + 1;
            },
            TextOrder::Greater => {
                assert forall|k: int| mid <= k < v@.len() implies text_lt(s@, #[trigger] old_t[k]) by {
                    if k > mid {
                        lemma_text_lt_transitive(s@, old_t[mid as int], old_t[k]);
                    }
                }
                hi = mid;
            },
        }
    }
    v.insert(lo, s);
    let ghost new_t = texts(v@);
    assert(new_t =~= old_t.insert(lo as int, s@));
    assert forall|i: int, j: int| 0 <= i < j < new_t.len() implies text_lt(
        #[trigger] new_t[i],
        #[trigger] new_t[j],
    ) by {
        if j < lo {
        } else if j == lo {
            assert(new_t[i] == old_t[i]);
        } else if i == lo {
            assert(new_t[j] == old_t[j - 1]);
        } else if i < lo {
            assert(new_t[j] == old_t[j - 1]);
            lemma_text_lt_transitive(old_t[i], s@, old_t[j - 1]);
        } else {
            assert(new_t[i] == old_t[i - 1]);
            assert(new_t[j] == old_t[j - 1]);
        }
    }
    assert forall|t: Seq<char>| #[trigger] new_t.contains(t) <==> (old_t.contains(t) || t == s@) by {
        if new_t.contains(t) {
            let k = choose|k: int| 0 <= k < new_t.len() && new_t[k] == t;
            if k < lo {
                assert(old_t[k] == t);
            } else if k > lo {
                assert(old_t[k - 1] == t);
            }
        }
        if old_t.contains(t) {
            let k = choose|k: int| 0 <= k < old_t.len() && old_t[k] == t;
            if k < lo {
                assert(new_t[k] == t);
            } else {
                assert(new_t[k + 1] == t);
            }
        }
        if t == s@ {
            assert(new_t[lo as int] == t);
        }
    }
}

/// Whether the strictly sorted vector `v` holds a text equal to `s`.
pub fn sorted_contains(v: &Vec<String>, s: &str) -> (r: bool)
    requires
        strictly_sorted(texts(v@)),
    ensures
        r == texts(v@).contains(s@),
{
    let ghost t = texts(v@);
    let mut lo: usize = 0;
    let mut hi: usize = v.len();
    while lo < hi
        invariant
            t == texts(v@),
            strictly_sorted(t),
            t.len() == v@.len(),
            0 <= lo <= hi <= v@.len(),
            forall|k: int| 0 <= k < lo ==> text_lt(#[trigger] t[k], s@),
            forall|k: int| hi <= k < v@.len() ==> text_lt(s@, #[trigger] t[k]),
        decreases hi - lo,
    {
        let mid = lo + (hi - lo) / 2;
        assert(t[mid as int] == v@[mid as int]@);
        match compare_text(v[mid].as_str(), s) {
            TextOrder::Equal => {
                assert(t.contains(s@));
                return true;
            },
            TextOrder::Less => {
                assert forall|k: int| 0 <= k < mid + 1 implies text_lt(#[trigger] t[k], s@) by {
                    if k < mid {
                        lemma_text_lt_transitive(t[k], t[mid as int], s@);
                    }
                }
                lo = mid + 1;
            },
            TextOrder::Greater => {
                assert forall|k: int| mid <= k < v@.len() implies text_lt(s@, #[trigger] t[k]) by {
                    if k > mid {
                        lemma_text_lt_transitive(s@, t[mid as int], t[k]);
                    }
                }
                hi = mid;
            },
        }
    }
    assert forall|k: int| 0 <= k < t.len() implies t[k] != s@ by {
        if k < lo {
            lemma_text_lt_irreflexive(s@);
        } else {
            lemma_text_lt_irreflexive(s@);
        }
    }
    false
}

} // verus!
