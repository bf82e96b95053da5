//! The order `String`s sort in (code point by code point, a prefix
//! first — the same order as their UTF-8 bytes), and a verified sort.

use vstd::prelude::*;
use vstd::relations::{sorted_by, total_ordering};
use crate::text::chars_of;

verus! {

/// `a` sorts no later than `b`.
pub open spec fn text_le(a: Seq<char>, b: Seq<char>) -> bool
    decreases a.len(),
{
    if a.len() == 0 {
        true
    } else if b.len() == 0 {
        false
    } else if a[0] != b[0] {
        (a[0] as int) < (b[0] as int)
    } else {
        text_le(a.drop_first(), b.drop_first())
    }
}

/// The order as a relation, for `sorted_by` and `sort_by`.
pub open spec fn text_order() -> spec_fn(Seq<char>, Seq<char>) -> bool {
    |a: Seq<char>, b: Seq<char>| text_le(a, b)
}

proof fn lemma_text_le_reflexive(a: Seq<char>)
    ensures
        text_le(a, a),
    decreases a.len(),
{
    if a.len() > 0 {
        lemma_text_le_reflexive(a.drop_first());
    }
}

proof fn lemma_text_le_antisymmetric(a: Seq<char>, b: Seq<char>)
    requires
        text_le(a, b),
        text_le(b, a),
    ensures
        a == b,
    decreases a.len(),
{
    if a.len() > 0 && b.len() > 0 {
        if a[0] == b[0] {
            lemma_text_le_antisymmetric(a.drop_first(), b.drop_first());
            assert(a =~= seq![a[0]] + a.drop_first());
            assert(b =~= seq![b[0]] + b.drop_first());
        } else {
            assert((a[0] as int) != (b[0] as int));
        }
    } else {
        assert(a =~= b);
    }
}

proof fn lemma_text_le_transitive(a: Seq<char>, b: Seq<char>, c: Seq<char>)
    requires
        text_le(a, b),
        text_le(b, c),
    ensures
        text_le(a, c),
    decreases a.len(),
{
    if a.len() > 0 && b.len() > 0 && c.len() > 0 && a[0] == b[0] && b[0] == c[0] {
        lemma_text_le_transitive(a.drop_first(), b.drop_first(), c.drop_first());
    }
}

proof fn lemma_text_le_total(a: Seq<char>, b: Seq<char>)
    ensures
        text_le(a, b) || text_le(b, a),
    decreases a.len(),
{
    if a.len() > 0 && b.len() > 0 && a[0] == b[0] {
        lemma_text_le_total(a.drop_first(), b.drop_first());
    }
}

/// The text order is a total order.
pub proof fn lemma_text_order_total()
    ensures
        total_ordering(text_order()),
{
    assert forall|a: Seq<char>| #[trigger] text_order()(a, a) by {
        lemma_text_le_reflexive(a);
    }
    assert forall|a: Seq<char>, b: Seq<char>| #[trigger] text_order()(a, b) && #[trigger] text_order()(b, a) implies a == b by {
        lemma_text_le_antisymmetric(a, b);
    }
    assert forall|a: Seq<char>, b: Seq<char>, c: Seq<char>|
        #[trigger] text_order()(a, b) && #[trigger] text_order()(b, c) implies #[trigger] text_order()(a, c) by {
        lemma_text_le_transitive(a, b, c);
    }
    assert forall|a: Seq<char>, b: Seq<char>| #[trigger] text_order()(a, b) || #[trigger] text_order()(b, a) by {
        lemma_text_le_total(a, b);
    }
}

/// Whether `a` sorts no later than `b`.
pub fn text_le_exec(a: &str, b: &str) -> (r: bool)
    ensures
        r == text_le(a@, b@),
{
    let x = chars_of(a);
    let y = chars_of(b);
    let mut i: usize = 0;
    assert(x@.subrange(0, x@.len() as int) =~= x@);
    assert(y@.subrange(0, y@.len() as int) =~= y@);
    while i < x.len() && i < y.len() && x[i] == y[i]
        invariant
            i <= x@.len(),
            i <= y@.len(),
            x@ == a@,
            y@ == b@,
            forall|k: int| 0 <= k < i ==> x@[k] == y@[k],
            text_le(a@, b@) == text_le(x@.subrange(i as int, x@.len() as int), y@.subrange(i as int, y@.len() as int)),
        decreases x@.len() - i,
    {
        let ghost xs = x@.subrange(i as int, x@.len() as int);
        let ghost ys = y@.subrange(i as int, y@.len() as int);
        assert(xs.drop_first() =~= x@.subrange(i + 1, x@.len() as int));
        assert(ys.drop_first() =~= y@.subrange(i + 1, y@.len() as int));
        assert(xs[0] == x@[i as int] && ys[0] == y@[i as int]);
        i += 1;
    }
    let ghost xs = x@.subrange(i as int, x@.len() as int);
    let ghost ys = y@.subrange(i as int, y@.len() as int);
    if i == x.len() {
        true
    } else if i == y.len() {
        false
    } else {
        assert(xs[0] == x@[i as int] && ys[0] == y@[i as int]);
        char_lt(x[i], y[i])
    }
}

fn char_lt(c: char, d: char) -> (b: bool)
    ensures
        b == ((c as int) < (d as int)),
{
    (c as u32) < (d as u32)
}

pub open spec fn views(v: Seq<String>) -> Seq<Seq<char>> {
    v.map_values(|s: String| s@)
}

/// `v` in text order (stable).
pub fn sort_texts(v: &Vec<String>) -> (r: Vec<String>)
    ensures
        views(r@) == views(v@).sort_by(text_order()),
{
    let mut out: Vec<String> = Vec::new();
    let mut i: usize = 0;
    assert(views(out@) =~= views(v@.subrange(0, 0)));
    while i < v.len()
        invariant
            i <= v@.len(),
            sorted_by(views(out@), text_order()),
            views(out@).to_multiset() == views(v@.subrange(0, i as int)).to_multiset(),
        decreases v@.len() - i,
    {
        let x = v[i].clone();
        let mut p: usize = 0;
        while p < out.len() && text_le_exec(out[p].as_str(), x.as_str())
            invariant
                p <= out@.len(),
                forall|k: int| 0 <= k < p ==> text_le((#[trigger] out@[k])@, x@),
            decreases out@.len() - p,
        {
            p += 1;
        }
        let ghost before = views(out@);
        proof {
            lemma_text_order_total();
        }
        out.insert(p, x);
        proof {
            let after = views(out@);
            assert(after =~= before.insert(p as int, x@));
            assert forall|a: int, b: int| 0 <= a < b < after.len() implies #[trigger] text_order()(after[a], after[b]) by {
                lemma_text_order_total();
                if b < p {
                    assert(after[a] == before[a] && after[b] == before[b]);
                } else if b == p {
                    assert(after[a] == before[a]);
                } else if a == p {
                    assert(after[b] == before[b - 1]);
                    if b - 1 < before.len() && p < before.len() {
                        assert(!text_le(before[p as int], x@) || p == before.len());
                        lemma_text_le_total(before[p as int], x@);
                        if p as int != b - 1 {
                            assert(text_order()(before[p as int], before[b - 1]));
                            lemma_text_le_transitive(x@, before[p as int], before[b - 1]);
                        }
                    }
                } else if a < p {
                    assert(after[a] == before[a] && after[b] == before[b - 1]);
                } else {
                    assert(after[a] == before[a - 1] && after[b] == before[b - 1]);
                }
            }
            broadcast use vstd::seq_lib::group_to_multiset_ensures;
            assert(v@.subrange(0, i + 1) =~= v@.subrange(0, i as int).push(v@[i as int]));
            assert(views(v@.subrange(0, i + 1)) =~= views(v@.subrange(0, i as int)).push(x@));
        }
        i += 1;
    }
    proof {
        lemma_text_order_total();
        assert(v@.subrange(0, v@.len() as int) =~= v@);
        views(v@).lemma_sort_by_ensures(text_order());
        vstd::seq_lib::lemma_sorted_unique(views(out@), views(v@).sort_by(text_order()), text_order());
    }
    out
}


/// Texts in strictly increasing text order: sorted, no text twice.
pub open spec fn strictly_sorted(s: Seq<Seq<char>>) -> bool {
    forall|i: int, j: int| 0 <= i < j < s.len() ==> text_le(#[trigger] s[i], #[trigger] s[j]) && s[i] != s[j]
}

/// Adds `k` to a strictly sorted list of texts, keeping it strictly
/// sorted; a text already there is not added twice.
pub fn insert_sorted_unique(keys: &mut Vec<String>, k: &str)
    requires
        strictly_sorted(views(old(keys)@)),
    ensures
        strictly_sorted(views(final(keys)@)),
        forall|x: Seq<char>| views(final(keys)@).contains(x) <==> (views(old(keys)@).contains(x) || x == k@),
{
    let ghost old_v = views(keys@);
    let mut p: usize = 0;
    while p < keys.len()
        invariant
            p <= keys@.len(),
            views(keys@) == old_v,
            strictly_sorted(old_v),
            forall|i: int| 0 <= i < p ==> !text_le(k@, #[trigger] old_v[i]),
        ensures
            p <= keys@.len(),
            views(keys@) == old_v,
            forall|i: int| 0 <= i < p ==> !text_le(k@, #[trigger] old_v[i]),
            p < keys@.len() ==> text_le(k@, old_v[p as int]),
        decreases keys@.len() - p,
    {
        if text_le_exec(k, keys[p].as_str()) {
            break;
        }
        p += 1;
    }
    proof {
        assert forall|i: int| 0 <= i < p implies text_le(#[trigger] old_v[i], k@) && old_v[i] != k@ by {
            lemma_text_le_total(k@, old_v[i]);
            if old_v[i] == k@ {
                lemma_text_le_reflexive(k@);
            }
        }
        assert forall|j: int| p <= j < old_v.len() implies text_le(k@, #[trigger] old_v[j]) by {
            if j > p {
                lemma_text_le_transitive(k@, old_v[p as int], old_v[j]);
            }
        }
    }
    if p < keys.len() && crate::text::same_text(keys[p].as_str(), k) {
        assert forall|x: Seq<char>| views(keys@).contains(x) <==> (old_v.contains(x) || x == k@) by {
            if x == k@ {
                assert(old_v[p as int] == x);
            }
        }
        return;
    }
    proof {
        assert forall|j: int| p <= j < old_v.len() implies old_v[j] != k@ by {
            if j > p && old_v[j] == k@ {
                lemma_text_le_antisymmetric(old_v[p as int], k@);
            }
        }
    }
    keys.insert(p, crate::text::owned(k));
    let ghost new_v = views(keys@);
    assert(new_v =~= old_v.insert(p as int, k@));
    assert forall|i: int, j: int| 0 <= i < j < new_v.len() implies text_le(#[trigger] new_v[i], #[trigger] new_v[j]) && new_v[i] != new_v[j] by {
        if i < p && j == p {
        } else if i < p && j > p {
            assert(new_v[j] == old_v[j - 1]);
        } else if i == p {
            assert(new_v[j] == old_v[j - 1]);
        } else if i > p {
            assert(new_v[i] == old_v[i - 1] && new_v[j] == old_v[j - 1]);
        }
    }
    assert forall|x: Seq<char>| new_v.contains(x) <==> (old_v.contains(x) || x == k@) by {
        if old_v.contains(x) {
            let i = choose|i: int| 0 <= i < old_v.len() && old_v[i] == x;
            if i < p {
                assert(new_v[i] == x);
            } else {
                assert(new_v[i + 1] == x);
            }
        }
        if x == k@ {
            assert(new_v[p as int] == x);
        }
        if new_v.contains(x) {
            let i = choose|i: int| 0 <= i < new_v.len() && new_v[i] == x;
            if i < p {
                assert(old_v[i] == x);
            } else if i > p {
                assert(old_v[i - 1] == x);
            }
        }
    }
}
} // verus!
