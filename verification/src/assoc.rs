//! A small insertion-ordered map for keys that are compared by value
//! (strings and records of strings), kept as a list of distinct entries.

use vstd::prelude::*;

verus! {

/// Keys whose executable equality agrees with equality of their views.
pub trait KeyEq: View + Sized {
    fn key_eq(&self, other: &Self) -> (b: bool)
        ensures
            b == (self@ == other@),
    ;
}

impl KeyEq for String {
    fn key_eq(&self, other: &Self) -> (b: bool) {
        self.eq(other)
    }
}

/// The map that a list of entries denotes: a later entry for a key wins.
pub open spec fn entries_to_map<K: View, V>(s: Seq<(K, V)>) -> Map<K::V, V>
    decreases s.len(),
{
    if s.len() == 0 {
        Map::empty()
    } else {
        entries_to_map(s.drop_last()).insert(s.last().0@, s.last().1)
    }
}

/// No two entries share a key.
pub open spec fn keys_distinct<K: View, V>(s: Seq<(K, V)>) -> bool {
    forall|i: int, j: int| 0 <= i < j < s.len() ==> #[trigger] s[i].0@ != #[trigger] s[j].0@
}

/// The values of a map of vectors, viewed as sequences.
pub open spec fn seq_values<K, T>(m: Map<K, Vec<T>>) -> Map<K, Seq<T>> {
    m.map_values(|v: Vec<T>| v@)
}

pub proof fn lemma_entries_dom<K: View, V>(s: Seq<(K, V)>, k: K::V)
    ensures
        entries_to_map(s).contains_key(k) <==> exists|i: int| 0 <= i < s.len() && #[trigger] s[i].0@ == k,
    decreases s.len(),
{
    if s.len() > 0 {
        lemma_entries_dom(s.drop_last(), k);
        if entries_to_map(s.drop_last()).contains_key(k) {
            let i = choose|i: int| 0 <= i < s.drop_last().len() && #[trigger] s.drop_last()[i].0@ == k;
            assert(s[i].0@ == k);
        }
        if exists|i: int| 0 <= i < s.len() && #[trigger] s[i].0@ == k {
            let i = choose|i: int| 0 <= i < s.len() && #[trigger] s[i].0@ == k;
            if i < s.len() - 1 {
                assert(s.drop_last()[i].0@ == k);
            }
        }
    }
}

pub proof fn lemma_entries_at<K: View, V>(s: Seq<(K, V)>, i: int)
    requires
        keys_distinct(s),
        0 <= i < s.len(),
    ensures
        entries_to_map(s).contains_key(s[i].0@),
        entries_to_map(s)[s[i].0@] == s[i].1,
    decreases s.len(),
{
    if i < s.len() - 1 {
        assert(s.drop_last()[i] == s[i]);
        assert(keys_distinct(s.drop_last()));
        lemma_entries_at(s.drop_last(), i);
    }
}

pub proof fn lemma_entries_update<K: View, V>(s: Seq<(K, V)>, i: int, p: (K, V))
    requires
        keys_distinct(s),
        0 <= i < s.len(),
        p.0@ == s[i].0@,
    ensures
        keys_distinct(s.update(i, p)),
        entries_to_map(s.update(i, p)) == entries_to_map(s).insert(p.0@, p.1),
    decreases s.len(),
{
    let t = s.update(i, p);
    assert forall|a: int, b: int| 0 <= a < b < t.len() implies #[trigger] t[a].0@ != #[trigger] t[b].0@ by {
        assert(s[a].0@ != s[b].0@);
    }
    if i == s.len() - 1 {
        assert(t.drop_last() =~= s.drop_last());
        assert(entries_to_map(t) =~= entries_to_map(s).insert(p.0@, p.1));
    } else {
        assert(t.drop_last() =~= s.drop_last().update(i, p));
        assert(keys_distinct(s.drop_last()));
        lemma_entries_update(s.drop_last(), i, p);
        assert(s.last().0@ != p.0@) by {
            assert(s[i].0@ != s[s.len() - 1].0@);
        }
        assert(entries_to_map(t) =~= entries_to_map(s).insert(p.0@, p.1));
    }
}

pub proof fn lemma_entries_len<K: View, V>(s: Seq<(K, V)>)
    requires
        keys_distinct(s),
    ensures
        entries_to_map(s).dom().finite(),
        entries_to_map(s).dom().len() == s.len(),
    decreases s.len(),
{
    if s.len() > 0 {
        assert(keys_distinct(s.drop_last()));
        lemma_entries_len(s.drop_last());
        lemma_entries_dom(s.drop_last(), s.last().0@);
        if entries_to_map(s.drop_last()).contains_key(s.last().0@) {
            let i = choose|i: int| 0 <= i < s.drop_last().len() && #[trigger] s.drop_last()[i].0@ == s.last().0@;
            assert(s[i].0@ == s[s.len() - 1].0@);
        }
    }
}

/// A map from keys to values that remembers the order in which keys were
/// first inserted.
pub struct AssocMap<K: KeyEq, V> {
    entries: Vec<(K, V)>,
}

impl<K: KeyEq, V> View for AssocMap<K, V> {
    type V = Map<K::V, V>;

    open spec fn view(&self) -> Map<K::V, V> {
        entries_to_map(self.items())
    }
}

impl<K: KeyEq, V> AssocMap<K, V> {
    /// The entries in first-insertion order.
    pub closed spec fn items(self) -> Seq<(K, V)> {
        self.entries@
    }

    #[verifier::type_invariant]
    spec fn distinct(self) -> bool {
        keys_distinct(self.entries@)
    }

    pub fn new() -> (m: Self)
        ensures
            m@ == Map::<K::V, V>::empty(),
            m.items().len() == 0,
    {
        AssocMap { entries: Vec::new() }
    }

    /// Number of keys.
    pub fn len(&self) -> (n: usize)
        ensures
            n == self.items().len(),
            self@.dom().finite(),
            n == self@.dom().len(),
    {
        proof {
            use_type_invariant(self);
            lemma_entries_len(self.entries@);
        }
        self.entries.len()
    }

    /// The entry at position `i` in first-insertion order.
    pub fn entry_at(&self, i: usize) -> (r: (&K, &V))
        requires
            i < self.items().len(),
        ensures
            *r.0 == self.items()[i as int].0,
            *r.1 == self.items()[i as int].1,
            self@.contains_key(r.0@),
            self@[r.0@] == *r.1,
    {
        proof {
            use_type_invariant(self);
            lemma_entries_at(self.entries@, i as int);
        }
        let e = &self.entries[i];
        (&e.0, &e.1)
    }

    /// The entries, in first-insertion order.
    pub fn into_items(self) -> (v: Vec<(K, V)>)
        ensures
            v@ == self.items(),
            keys_distinct(v@),
    {
        proof {
            use_type_invariant(&self);
        }
        self.entries
    }

    fn find(&self, k: &K) -> (r: Option<usize>)
        ensures
            match r {
                Some(i) => i < self.entries@.len() && self.entries@[i as int].0@ == k@,
                None => forall|i: int| 0 <= i < self.entries@.len() ==> #[trigger] self.entries@[i].0@ != k@,
            },
    {
        let mut i: usize = 0;
        while i < self.entries.len()
            invariant
                i <= self.entries@.len(),
                forall|j: int| 0 <= j < i ==> #[trigger] self.entries@[j].0@ != k@,
            decreases self.entries@.len() - i,
        {
            if self.entries[i].0.key_eq(k) {
                return Some(i);
            }
            i += 1;
        }
        None
    }

    pub fn contains_key(&self, k: &K) -> (b: bool)
        ensures
            b == self@.contains_key(k@),
    {
        proof {
            lemma_entries_dom(self.entries@, k@);
        }
        self.find(k).is_some()
    }

    /// The value stored for `k`, if any.
    pub fn get(&self, k: &K) -> (r: Option<&V>)
        ensures
            r.is_some() == self@.contains_key(k@),
            r.is_some() ==> *r.unwrap() == self@[k@],
    {
        proof {
            use_type_invariant(self);
            lemma_entries_dom(self.entries@, k@);
        }
        match self.find(k) {
            Some(i) => {
                proof {
                    lemma_entries_at(self.entries@, i as int);
                }
                Some(&self.entries[i].1)
            },
            None => None,
        }
    }

    /// Sets the value for `k`, replacing any earlier one; a new key goes last.
    pub fn insert(&mut self, k: K, v: V)
        ensures
            final(self)@ == old(self)@.insert(k@, v),
            old(self)@.contains_key(k@) ==> final(self).items().len() == old(self).items().len(),
            !old(self)@.contains_key(k@) ==> final(self).items() == old(self).items().push((k, v)),
    {
        proof {
            use_type_invariant(&*self);
            lemma_entries_dom(self.entries@, k@);
        }
        let found = self.find(&k);
        let mut e: Vec<(K, V)> = Vec::new();
        std::mem::swap(&mut e, &mut self.entries);
        match found {
            Some(i) => {
                proof {
                    lemma_entries_update(e@, i as int, (k, v));
                }
                e.set(i, (k, v));
            },
            None => {
                assert forall|a: int, b: int| 0 <= a < b < e@.push((k, v)).len() implies
                    #[trigger] e@.push((k, v))[a].0@ != #[trigger] e@.push((k, v))[b].0@ by {
                    if b == e@.len() {
                        assert(e@[a].0@ != k@);
                    } else {
                        assert(e@[a].0@ != e@[b].0@);
                    }
                }
                assert(e@.push((k, v)).drop_last() =~= e@);
                e.push((k, v));
            },
        }
        self.entries = e;
    }
}

impl<K: KeyEq, T> AssocMap<K, Vec<T>> {
    /// Appends `x` to the list stored for `k`, starting a new list for a new key.
    pub fn push_to(&mut self, k: K, x: T)
        ensures
            final(self)@.dom() == old(self)@.dom().insert(k@),
            final(self)@[k@]@ == (if old(self)@.contains_key(k@) {
                old(self)@[k@]@
            } else {
                Seq::<T>::empty()
            }).push(x),
            forall|j: K::V| j != k@ && #[trigger] old(self)@.contains_key(j) ==> final(self)@[j] == old(self)@[j],
            seq_values(final(self)@) == seq_values(old(self)@).insert(
                k@,
                (if old(self)@.contains_key(k@) {
                    old(self)@[k@]@
                } else {
                    Seq::<T>::empty()
                }).push(x),
            ),
    {
        proof {
            use_type_invariant(&*self);
            lemma_entries_dom(self.entries@, k@);
        }
        let found = self.find(&k);
        let mut e: Vec<(K, Vec<T>)> = Vec::new();
        std::mem::swap(&mut e, &mut self.entries);
        let ghost e0 = e@;
        match found {
            Some(i) => {
                let (kk, mut list) = e.remove(i);
                proof {
                    lemma_entries_at(e0, i as int);
                }
                list.push(x);
                e.insert(i, (kk, list));
                proof {
                    assert(e@ =~= e0.update(i as int, (kk, list)));
                    lemma_entries_update(e0, i as int, (kk, list));
                }
            },
            None => {
                let mut list: Vec<T> = Vec::new();
                list.push(x);
                assert forall|a: int, b: int| 0 <= a < b < e@.push((k, list)).len() implies
                    #[trigger] e@.push((k, list))[a].0@ != #[trigger] e@.push((k, list))[b].0@ by {
                    if b == e@.len() {
                        assert(e@[a].0@ != k@);
                    } else {
                        assert(e@[a].0@ != e@[b].0@);
                    }
                }
                assert(e@.push((k, list)).drop_last() =~= e@);
                e.push((k, list));
            },
        }
        self.entries = e;
        proof {
            assert(seq_values(self@) =~= seq_values(old(self)@).insert(
                k@,
                (if old(self)@.contains_key(k@) {
                    old(self)@[k@]@
                } else {
                    Seq::<T>::empty()
                }).push(x),
            ));
        }
    }
}

} // verus!
