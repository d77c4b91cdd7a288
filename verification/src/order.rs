//! The dictionary order of texts.

use vstd::prelude::*;

use crate::text::{chars_of, views};

verus! {

/// Whether one text comes before another in the dictionary order.
pub open spec fn before(a: Seq<char>, b: Seq<char>) -> bool
    decreases a.len(),
{
    if b.len() == 0 {
        false
    } else if a.len() == 0 {
        true
    } else if a[0] == b[0] {
        before(a.skip(1), b.skip(1))
    } else {
        a[0] < b[0]
    }
}

/// The order is transitive.
pub proof fn lemma_before_transitive(a: Seq<char>, b: Seq<char>, c: Seq<char>)
    requires
        before(a, b),
        before(b, c),
    ensures
        before(a, c),
    decreases a.len(),
{
    if a.len() > 0 && a[0] == b[0] && b[0] == c[0] {
        lemma_before_transitive(a.skip(1), b.skip(1), c.skip(1));
    }
}

/// No text comes before itself.
pub proof fn lemma_before_irreflexive(a: Seq<char>)
    ensures
        !before(a, a),
    decreases a.len(),
{
    if a.len() > 0 {
        lemma_before_irreflexive(a.skip(1));
    }
}

/// Of two different texts one comes before the other.
pub proof fn lemma_before_total(a: Seq<char>, b: Seq<char>)
    requires
        a != b,
    ensures
        before(a, b) || before(b, a),
    decreases a.len(),
{
    if a.len() == 0 {
        assert(a =~= Seq::<char>::empty());
        if b.len() == 0 {
            assert(b =~= Seq::<char>::empty());
        }
    } else if b.len() > 0 && a[0] == b[0] {
        if a.skip(1) == b.skip(1) {
            assert(a =~= seq![a[0]] + a.skip(1));
            assert(b =~= seq![b[0]] + b.skip(1));
        }
        lemma_before_total(a.skip(1), b.skip(1));
    }
}

/// Whether one text comes before another.
pub fn comes_before(a: &str, b: &str) -> (r: bool)
    ensures
        r == before(a@, b@),
{
    let x = chars_of(a);
    let y = chars_of(b);
    let mut i: usize = 0;
    assert(x@.skip(0) =~= x@ && y@.skip(0) =~= y@);
    while i < x.len() && i < y.len() && x[i] == y[i]
        invariant
            i <= x.len(),
            i <= y.len(),
            before(x@, y@) == before(x@.skip(i as int), y@.skip(i as int)),
        decreases x.len() - i,
    {
        assert(x@.skip(i as int).skip(1) =~= x@.skip(i + 1));
        assert(y@.skip(i as int).skip(1) =~= y@.skip(i + 1));
        i = i + 1;
    }
    if i >= y.len() {
        false
    } else if i >= x.len() {
        true
    } else {
        x[i] < y[i]
    }
}

/// A list of texts in dictionary order, none of them twice.
pub open spec fn ascending(ks: Seq<Seq<char>>) -> bool {
    forall|i: int, j: int| 0 <= i < j < ks.len() ==> before(#[trigger] ks[i], #[trigger] ks[j])
}

/// Puts a new text into a list in dictionary order.
pub fn insert_ascending(ks: &mut Vec<String>, key: String)
    requires
        ascending(views(old(ks)@)),
        !views(old(ks)@).contains(key@),
    ensures
        ascending(views(final(ks)@)),
        forall|k: Seq<char>| #[trigger]
            views(final(ks)@).contains(k) <==> (k == key@ || views(old(ks)@).contains(k)),
{
    let ghost before_list = views(ks@);
    let mut i: usize = 0;
    while i < ks.len() && comes_before(ks[i].as_str(), key.as_str())
        invariant
            i <= ks.len(),
            views(ks@) == before_list,
            forall|k: int| 0 <= k < i ==> before(#[trigger] before_list[k], key@),
        decreases ks.len() - i,
    {
        assert(before_list[i as int] == ks@[i as int]@);
        i = i + 1;
    }
    let ghost n = before_list.len();
    proof {
        assert forall|k: int| i <= k < n implies before(key@, #[trigger] before_list[k]) by {
            assert(before_list[i as int] == ks@[i as int]@);
            assert(before_list.contains(before_list[i as int]));
            lemma_before_total(before_list[i as int], key@);
            if k > i {
                lemma_before_transitive(key@, before_list[i as int], before_list[k]);
            }
        }
    }
    ks.insert(i, key);
    proof {
        let after = views(ks@);
        assert(after =~= before_list.insert(i as int, key@));
        assert forall|a: int, b: int| 0 <= a < b < after.len() implies before(
            #[trigger] after[a],
            #[trigger] after[b],
        ) by {
            let a1 = if a < i { a } else { a - 1 };
            let b1 = if b < i { b } else { b - 1 };
            if a == i {
                assert(after[b] == before_list[b1]);
            } else if b == i {
                assert(after[a] == before_list[a1]);
            } else {
                assert(after[a] == before_list[a1] && after[b] == before_list[b1]);
            }
        }
        assert forall|k: Seq<char>| #[trigger] after.contains(k) <==> (k == key@
            || before_list.contains(k)) by {
            if after.contains(k) {
                let j = choose|j: int| 0 <= j < after.len() && after[j] == k;
                if j < i {
                    assert(before_list[j] == k);
                } else if j > i {
                    assert(before_list[j - 1] == k);
                }
            }
            if k == key@ {
                assert(after[i as int] == k);
            } else if before_list.contains(k) {
                let j = choose|j: int| 0 <= j < before_list.len() && before_list[j] == k;
                if j < i {
                    assert(after[j] == k);
                } else {
                    assert(after[j + 1] == k);
                }
            }
        }
    }
}

} // verus!
