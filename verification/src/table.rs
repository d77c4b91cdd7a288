//! Association tables with distinct keys, viewed as finite maps.

use vstd::prelude::*;

use crate::text::views;

verus! {

/// A value that can be copied, up to its view.
pub trait Duplicate: View + Sized {
    /// A copy of the value.
    fn duplicate(&self) -> (r: Self)
        ensures
            r@ == self@,
    ;
}

/// A value that can be compared, up to its view.
pub trait Key: Duplicate {
    /// Whether two values have the same view.
    fn same(&self, other: &Self) -> (r: bool)
        ensures
            r == (self@ == other@),
    ;
}

impl Duplicate for String {
    fn duplicate(&self) -> (r: Self) {
        self.clone()
    }
}

impl Key for String {
    fn same(&self, other: &Self) -> (r: bool) {
        *self == *other
    }
}

impl Duplicate for u16 {
    fn duplicate(&self) -> (r: Self) {
        *self
    }
}

impl Key for u16 {
    fn same(&self, other: &Self) -> (r: bool) {
        *self == *other
    }
}

impl<A: Duplicate, B: Duplicate> Duplicate for (A, B) {
    fn duplicate(&self) -> (r: Self) {
        (self.0.duplicate(), self.1.duplicate())
    }
}

impl<A: Key, B: Key> Key for (A, B) {
    fn same(&self, other: &Self) -> (r: bool) {
        self.0.same(&other.0) && self.1.same(&other.1)
    }
}

/// Copies a list, element by element.
pub fn duplicate_all<T: Duplicate>(v: &Vec<T>) -> (r: Vec<T>)
    ensures
        views(r@) == views(v@),
        r.len() == v.len(),
{
    let mut out: Vec<T> = Vec::new();
    let mut i: usize = 0;
    while i < v.len()
        invariant
            i <= v.len(),
            out.len() == i,
            forall|k: int| 0 <= k < i ==> (#[trigger] out@[k])@ == v@[k]@,
        decreases v.len() - i,
    {
        out.push(v[i].duplicate());
        i = i + 1;
    }
    assert(views(out@) =~= views(v@));
    out
}

/// Whether a list holds a value.
pub fn holds<K: Key>(v: &Vec<K>, key: &K) -> (r: bool)
    ensures
        r == views(v@).contains(key@),
{
    let mut i: usize = 0;
    while i < v.len()
        invariant
            i <= v.len(),
            forall|k: int| 0 <= k < i ==> views(v@)[k] != key@,
        decreases v.len() - i,
    {
        if v[i].same(key) {
            assert(views(v@)[i as int] == key@);
            return true;
        }
        i = i + 1;
    }
    false
}

/// No two entries have the same key.
pub open spec fn distinct_keys<K: View, V: View>(e: Seq<(K, V)>) -> bool {
    forall|i: int, j: int| 0 <= i < j < e.len() ==> (#[trigger] e[i]).0@ != (#[trigger] e[j]).0@
}

/// The map that a list of entries describes.
pub open spec fn map_of<K: View, V: View>(e: Seq<(K, V)>) -> Map<K::V, V::V>
    decreases e.len(),
{
    if e.len() == 0 {
        Map::empty()
    } else {
        map_of(e.drop_last()).insert(e.last().0@, e.last().1@)
    }
}

/// The map has the entries' keys, and at each key the entry's value.
pub proof fn lemma_map_of<K: View, V: View>(e: Seq<(K, V)>)
    requires
        distinct_keys(e),
    ensures
        forall|i: int| 0 <= i < e.len() ==> map_of(e).dom().contains((#[trigger] e[i]).0@),
        forall|i: int| 0 <= i < e.len() ==> map_of(e)[(#[trigger] e[i]).0@] == e[i].1@,
        forall|k: K::V| #[trigger]
            map_of(e).dom().contains(k) ==> exists|i: int|
                0 <= i < e.len() && (#[trigger] e[i]).0@ == k,
        map_of(e).dom().finite(),
        map_of(e).dom().len() == e.len(),
    decreases e.len(),
{
    if e.len() > 0 {
        let d = e.drop_last();
        lemma_map_of(d);
        assert forall|i: int| 0 <= i < e.len() implies map_of(e).dom().contains(
            (#[trigger] e[i]).0@,
        ) && map_of(e)[e[i].0@] == e[i].1@ by {
            if i < d.len() {
                assert(d[i] == e[i]);
                assert(e[i].0@ != e[e.len() - 1].0@);
            }
        }
        assert forall|k: K::V| #[trigger] map_of(e).dom().contains(k) implies exists|i: int|
            0 <= i < e.len() && (#[trigger] e[i]).0@ == k by {
            if k != e.last().0@ {
                let i = choose|i: int| 0 <= i < d.len() && (#[trigger] d[i]).0@ == k;
                assert(e[i].0@ == k);
            } else {
                assert(e[e.len() - 1].0@ == k);
            }
        }
        assert(!map_of(d).dom().contains(e.last().0@)) by {
            if map_of(d).dom().contains(e.last().0@) {
                let i = choose|i: int| 0 <= i < d.len() && (#[trigger] d[i]).0@ == e.last().0@;
                assert(e[i].0@ != e[e.len() - 1].0@);
            }
        }
    }
}

/// The place of a key in a list of entries: the last, where it comes more than once.
pub open spec fn position<A, B>(l: Seq<(A, B)>, key: A) -> Option<int>
    decreases l.len(),
{
    if l.len() == 0 {
        None
    } else if l.last().0 == key {
        Some(l.len() - 1)
    } else {
        position(l.drop_last(), key)
    }
}

/// A list of entries with the value at a key set. A new key comes last; an old one keeps its
/// place.
pub open spec fn put<A, B>(l: Seq<(A, B)>, key: A, value: B) -> Seq<(A, B)> {
    match position(l, key) {
        Some(i) => l.update(i, (key, value)),
        None => l.push((key, value)),
    }
}

/// A key that comes at the end of a prefix of a list with distinct keys has its place there.
proof fn lemma_position_prefix<A, B>(l: Seq<(A, B)>, key: A, n: int)
    requires
        0 < n <= l.len(),
        l[n - 1].0 == key,
        forall|i: int| n <= i < l.len() ==> (#[trigger] l[i]).0 != key,
    ensures
        position(l, key) == Some(n - 1),
    decreases l.len(),
{
    if n < l.len() {
        assert(l[l.len() - 1].0 != key);
        assert forall|i: int| n <= i < l.drop_last().len() implies (#[trigger] l.drop_last()[i]).0
            != key by {
            assert(l[i].0 != key);
        }
        lemma_position_prefix(l.drop_last(), key, n);
    }
}

/// A table with distinct keys, in the order in which the keys came.
pub struct Table<K: Key, V: View> {
    entries: Vec<(K, V)>,
}

impl<K: Key, V: View> View for Table<K, V> {
    type V = Map<K::V, V::V>;

    closed spec fn view(&self) -> Map<K::V, V::V> {
        map_of(self.entries@)
    }
}

impl<K: Key, V: View> Table<K, V> {
    #[verifier::type_invariant]
    spec fn inv(self) -> bool {
        distinct_keys(self.entries@)
    }

    /// The entries, in the order in which their keys came.
    pub closed spec fn list(&self) -> Seq<(K::V, V::V)> {
        views(self.entries@)
    }

    /// What is in the list is in the map.
    pub open spec fn listed(&self, i: int) -> bool {
        self@.dom().contains(self.list()[i].0) && self@[self.list()[i].0] == self.list()[i].1
    }

    /// An empty table.
    pub fn new() -> (r: Self)
        ensures
            r@ == Map::<K::V, V::V>::empty(),
            r.list() == Seq::<(K::V, V::V)>::empty(),
    {
        let r = Table { entries: Vec::new() };
        assert(r.list() =~= Seq::<(K::V, V::V)>::empty());
        r
    }

    fn find(&self, key: &K) -> (r: Option<usize>)
        ensures
            match r {
                Some(i) => i < self.entries@.len() && self.entries@[i as int].0@ == key@
                    && position(self.list(), key@) == Some(i as int) && self@.dom().contains(key@) && self@[key@] == self.entries@[i as int].1@,
                None => !self@.dom().contains(key@) && position(self.list(), key@) is None,
            },
    {
        proof {
            use_type_invariant(self);
            lemma_map_of(self.entries@);
        }
        let mut i: usize = 0;
        while i < self.entries.len()
            invariant
                i <= self.entries.len(),
                forall|k: int| 0 <= k < i ==> (#[trigger] self.entries@[k]).0@ != key@,
                position(self.list().take(i as int), key@) is None,
            decreases self.entries.len() - i,
        {
            proof {
                let l = self.list();
                assert(l.take(i + 1).drop_last() =~= l.take(i as int));
                assert(l.take(i + 1).last().0 == self.entries@[i as int].0@);
            }
            if self.entries[i].0.same(key) {
                proof {
                    use_type_invariant(self);
                    lemma_map_of(self.entries@);
                    assert forall|k: int| i + 1 <= k < self.list().len() implies (
                    #[trigger] self.list()[k]).0 != key@ by {
                        assert(self.entries@[i as int].0@ != self.entries@[k].0@);
                    }
                    lemma_position_prefix(self.list(), key@, i + 1);
                }
                return Some(i);
            }
            i = i + 1;
        }
        assert(self.list().take(i as int) =~= self.list());
        None
    }

    /// How many keys there are.
    pub fn len(&self) -> (r: usize)
        ensures
            r == self@.dom().len(),
            r == self.list().len(),
            self@.dom().finite(),
            forall|k: K::V| #[trigger]
                self@.dom().contains(k) ==> exists|i: int|
                    0 <= i < self.list().len() && (#[trigger] self.list()[i]).0 == k,
            forall|i: int| 0 <= i < self.list().len() ==> #[trigger] self.listed(i),
    {
        proof {
            use_type_invariant(self);
            lemma_map_of(self.entries@);
            assert forall|i: int| 0 <= i < self.list().len() implies #[trigger] self.listed(i) by {
                assert(self.list()[i].0 == self.entries@[i].0@);
            }
            assert forall|k: K::V| #[trigger] self@.dom().contains(k) implies exists|i: int|
                0 <= i < self.list().len() && (#[trigger] self.list()[i]).0 == k by {
                let i = choose|i: int|
                    0 <= i < self.entries@.len() && (#[trigger] self.entries@[i]).0@ == k;
                assert(self.list()[i].0 == k);
            }
        }
        self.entries.len()
    }

    /// Whether a key is in the table.
    pub fn contains(&self, key: &K) -> (r: bool)
        ensures
            r == self@.dom().contains(key@),
    {
        self.find(key).is_some()
    }

    /// The value at a key.
    pub fn get(&self, key: &K) -> (r: Option<&V>)
        ensures
            match r {
                Some(v) => self@.dom().contains(key@) && v@ == self@[key@],
                None => !self@.dom().contains(key@),
            },
    {
        match self.find(key) {
            Some(i) => Some(&self.entries[i].1),
            None => None,
        }
    }

    /// The entry at a place in the list.
    pub fn entry(&self, i: usize) -> (r: (&K, &V))
        requires
            i < self.list().len(),
        ensures
            (r.0@, r.1@) == self.list()[i as int],
            self@.dom().contains(r.0@),
            self@[r.0@] == r.1@,
    {
        proof {
            use_type_invariant(self);
            lemma_map_of(self.entries@);
        }
        let e = &self.entries[i];
        (&e.0, &e.1)
    }

    /// Sets the value at a key. A new key comes last; an old one keeps its place.
    pub fn insert(&mut self, key: K, value: V)
        ensures
            final(self)@ == old(self)@.insert(key@, value@),
            final(self).list() == put(old(self).list(), key@, value@),
    {
        let found = self.find(&key);
        proof {
            use_type_invariant(&*self);
            lemma_map_of(self.entries@);
        }
        let ghost before = self.entries@;
        let mut entries: Vec<(K, V)> = Vec::new();
        std::mem::swap(&mut entries, &mut self.entries);
        match found {
            Some(i) => {
                entries.set(i, (key, value));
                proof {
                    assert(distinct_keys(entries@)) by {
                        assert forall|a: int, b: int| 0 <= a < b < entries@.len() implies (
                        #[trigger] entries@[a]).0@ != (#[trigger] entries@[b]).0@ by {
                            assert(before[a].0@ != before[b].0@);
                        }
                    }
                    lemma_map_of(entries@);
                    assert forall|k: K::V| #[trigger]
                        map_of(entries@).dom().contains(k) == map_of(before).insert(
                        key@,
                        value@,
                    ).dom().contains(k) && (map_of(entries@).dom().contains(k) ==> map_of(
                        entries@,
                    )[k] == map_of(before).insert(key@, value@)[k]) by {
                        if map_of(entries@).dom().contains(k) {
                            let j = choose|j: int|
                                0 <= j < entries@.len() && (#[trigger] entries@[j]).0@ == k;
                            assert(before[j].0@ == k);
                            if j != i {
                                assert(entries@[j] == before[j]);
                                assert(k != key@) by {
                                    if j < i {
                                        assert(before[j].0@ != before[i as int].0@);
                                    } else {
                                        assert(before[i as int].0@ != before[j].0@);
                                    }
                                }
                            }
                        }
                        if map_of(before).dom().contains(k) {
                            let j = choose|j: int|
                                0 <= j < before.len() && (#[trigger] before[j]).0@ == k;
                            assert(entries@[j].0@ == k);
                        }
                    }
                    assert(map_of(entries@) =~= map_of(before).insert(key@, value@));
                }
            },
            None => {
                entries.push((key, value));
                proof {
                    assert(entries@.drop_last() =~= before);
                    assert(distinct_keys(entries@)) by {
                        assert forall|a: int, b: int| 0 <= a < b < entries@.len() implies (
                        #[trigger] entries@[a]).0@ != (#[trigger] entries@[b]).0@ by {
                            assert(entries@[a] == before[a]);
                            if b < before.len() {
                                assert(before[a].0@ != before[b].0@);
                            } else {
                                assert(map_of(before).dom().contains(before[a].0@));
                            }
                        }
                    }
                }
            },
        }
        self.entries = entries;
        assert(self.list() =~= put(old(self).list(), key@, value@));
    }

    /// Takes a key out. The other keys keep their order.
    pub fn remove(&mut self, key: &K)
        ensures
            final(self)@ == old(self)@.remove(key@),
    {
        let found = self.find(key);
        proof {
            use_type_invariant(&*self);
            lemma_map_of(self.entries@);
        }
        let ghost before = self.entries@;
        match found {
            Some(i) => {
                let mut entries: Vec<(K, V)> = Vec::new();
                std::mem::swap(&mut entries, &mut self.entries);
                let _ = entries.remove(i);
                proof {
                    assert(distinct_keys(entries@)) by {
                        assert forall|a: int, b: int| 0 <= a < b < entries@.len() implies (
                        #[trigger] entries@[a]).0@ != (#[trigger] entries@[b]).0@ by {
                            let a1 = if a < i { a } else { a + 1 };
                            let b1 = if b < i { b } else { b + 1 };
                            assert(entries@[a] == before[a1]);
                            assert(entries@[b] == before[b1]);
                            assert(before[a1].0@ != before[b1].0@);
                        }
                    }
                    lemma_map_of(entries@);
                    assert forall|k: K::V| #[trigger]
                        map_of(entries@).dom().contains(k) == map_of(before).remove(
                        key@,
                    ).dom().contains(k) && (map_of(entries@).dom().contains(k) ==> map_of(
                        entries@,
                    )[k] == map_of(before)[k]) by {
                        if map_of(entries@).dom().contains(k) {
                            let j = choose|j: int|
                                0 <= j < entries@.len() && (#[trigger] entries@[j]).0@ == k;
                            let j1 = if j < i { j } else { j + 1 };
                            assert(entries@[j] == before[j1]);
                            assert(before[j1].0@ == k);
                            if j1 < i {
                                assert(before[j1].0@ != before[i as int].0@);
                            } else {
                                assert(before[i as int].0@ != before[j1].0@);
                            }
                        }
                        if map_of(before).remove(key@).dom().contains(k) {
                            let j = choose|j: int|
                                0 <= j < before.len() && (#[trigger] before[j]).0@ == k;
                            let j1 = if j < i { j } else { j - 1 };
                            assert(entries@[j1] == before[j]);
                        }
                    }
                    assert(map_of(entries@) =~= map_of(before).remove(key@));
                }
                self.entries = entries;
            },
            None => {
                assert(self@.remove(key@) =~= self@);
            },
        }
    }
}

impl<K: Key, V: Duplicate> Table<K, V> {
    /// A copy of the table.
    pub fn copy(&self) -> (r: Self)
        ensures
            r@ == self@,
            r.list() == self.list(),
    {
        proof {
            use_type_invariant(self);
        }
        let mut entries: Vec<(K, V)> = Vec::new();
        let mut i: usize = 0;
        while i < self.entries.len()
            invariant
                i <= self.entries.len(),
                entries.len() == i,
                forall|k: int|
                    0 <= k < i ==> (#[trigger] entries@[k]).0@ == self.entries@[k].0@
                        && entries@[k].1@ == self.entries@[k].1@,
            decreases self.entries.len() - i,
        {
            let e = &self.entries[i];
            entries.push((e.0.duplicate(), e.1.duplicate()));
            i = i + 1;
        }
        proof {
            lemma_same_entries(entries@, self.entries@);
            assert forall|a: int, b: int| 0 <= a < b < entries@.len() implies (
            #[trigger] entries@[a]).0@ != (#[trigger] entries@[b]).0@ by {
                assert(self.entries@[a].0@ != self.entries@[b].0@);
            }
        }
        let r = Table { entries };
        assert(r.list() =~= self.list());
        r
    }
}

/// Lists with the same entries describe the same map.
proof fn lemma_same_entries<K: View, V: View>(a: Seq<(K, V)>, b: Seq<(K, V)>)
    requires
        a.len() == b.len(),
        forall|k: int| 0 <= k < a.len() ==> (#[trigger] a[k]).0@ == b[k].0@ && a[k].1@ == b[k].1@,
    ensures
        map_of(a) == map_of(b),
    decreases a.len(),
{
    if a.len() > 0 {
        assert forall|k: int| 0 <= k < a.drop_last().len() implies (
        #[trigger] a.drop_last()[k]).0@ == b.drop_last()[k].0@ && a.drop_last()[k].1@
            == b.drop_last()[k].1@ by {
            assert(a[k].0@ == b[k].0@);
        }
        lemma_same_entries(a.drop_last(), b.drop_last());
        assert(a[a.len() - 1].0@ == b[b.len() - 1].0@);
    }
}

} // verus!
