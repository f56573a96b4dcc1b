//! A map from account ids to values that keeps the order in which keys were
//! first inserted, as the contract's persistent maps do.

use vstd::prelude::*;

verus! {

/// The index of the entry with key `k` in `s`, when there is one.
pub open spec fn key_index<V>(s: Seq<(Seq<char>, V)>, k: Seq<char>) -> int {
    choose|i: int| 0 <= i < s.len() && #[trigger] s[i].0 == k
}

/// Whether some entry of `s` has key `k`.
pub open spec fn has_key<V>(s: Seq<(Seq<char>, V)>, k: Seq<char>) -> bool {
    exists|i: int| 0 <= i < s.len() && #[trigger] s[i].0 == k
}

/// No key occurs twice in `s`.
pub open spec fn keys_distinct<V>(s: Seq<(Seq<char>, V)>) -> bool {
    forall|i: int, j: int| 0 <= i < s.len() && 0 <= j < s.len() && i != j ==> s[i].0 != s[j].0
}

/// The map that an entry sequence with distinct keys stands for.
pub open spec fn entries_map<V>(s: Seq<(Seq<char>, V)>) -> Map<Seq<char>, V> {
    Map::new(|k: Seq<char>| has_key(s, k), |k: Seq<char>| s[key_index(s, k)].1)
}

/// The map that an entry sequence stands for has finitely many keys.
pub proof fn lemma_entries_map_finite<V>(s: Seq<(Seq<char>, V)>)
    ensures
        entries_map(s).dom().finite(),
{
    let keys = s.map_values(|e: (Seq<char>, V)| e.0);
    vstd::seq_lib::seq_to_set_is_finite(keys);
    assert forall|k: Seq<char>| #[trigger] entries_map(s).dom().contains(k) == keys.to_set().contains(k) by {
        if has_key(s, k) {
            let i = choose|i: int| 0 <= i < s.len() && #[trigger] s[i].0 == k;
            assert(keys[i] == k);
        }
        if keys.contains(k) {
            let i = choose|i: int| 0 <= i < keys.len() && keys[i] == k;
            assert(s[i].0 == k);
        }
    }
    assert(entries_map(s).dom() =~= keys.to_set());
}

/// In a sequence with distinct keys, the entry with key `k` is the one at `i`.
pub proof fn lemma_key_index_unique<V>(s: Seq<(Seq<char>, V)>, k: Seq<char>, i: int)
    requires
        keys_distinct(s),
        0 <= i < s.len(),
        s[i].0 == k,
    ensures
        has_key(s, k),
        key_index(s, k) == i,
        entries_map(s).contains_key(k),
        entries_map(s)[k] == s[i].1,
{
    assert(has_key(s, k));
}

/// Appending an entry with a new key inserts it into the map.
pub proof fn lemma_push_new_key<V>(s: Seq<(Seq<char>, V)>, k: Seq<char>, v: V)
    requires
        keys_distinct(s),
        !has_key(s, k),
    ensures
        keys_distinct(s.push((k, v))),
        entries_map(s.push((k, v))) =~= entries_map(s).insert(k, v),
{
    let t = s.push((k, v));
    assert(keys_distinct(t)) by {
        assert forall|i: int, j: int| 0 <= i < t.len() && 0 <= j < t.len() && i != j implies t[i].0
            != t[j].0 by {
            if i < s.len() && j < s.len() {
                assert(t[i] == s[i] && t[j] == s[j]);
            } else if i < s.len() {
                assert(t[i] == s[i]);
            } else {
                assert(t[j] == s[j]);
            }
        }
    }
    lemma_key_index_unique(t, k, s.len() as int);
    assert forall|kk: Seq<char>| #[trigger] has_key(t, kk) == (has_key(s, kk) || kk == k) by {
        if has_key(s, kk) {
            let i = choose|i: int| 0 <= i < s.len() && #[trigger] s[i].0 == kk;
            assert(t[i] == s[i]);
        }
        if has_key(t, kk) && kk != k {
            let i = choose|i: int| 0 <= i < t.len() && #[trigger] t[i].0 == kk;
            assert(t[i] == s[i]);
        }
    }
    assert forall|kk: Seq<char>| has_key(s, kk) && kk != k implies #[trigger] entries_map(t)[kk]
        == entries_map(s)[kk] by {
        let i = key_index(s, kk);
        lemma_key_index_unique(s, kk, i);
        assert(t[i] == s[i]);
        lemma_key_index_unique(t, kk, i);
    }
}

/// Replacing the value of an existing entry updates the map.
pub proof fn lemma_update_value<V>(s: Seq<(Seq<char>, V)>, i: int, v: V)
    requires
        keys_distinct(s),
        0 <= i < s.len(),
    ensures
        keys_distinct(s.update(i, (s[i].0, v))),
        entries_map(s.update(i, (s[i].0, v))) =~= entries_map(s).insert(s[i].0, v),
{
    let k = s[i].0;
    let t = s.update(i, (k, v));
    assert(keys_distinct(t)) by {
        assert forall|a: int, b: int| 0 <= a < t.len() && 0 <= b < t.len() && a != b implies t[a].0
            != t[b].0 by {
            assert(t[a].0 == s[a].0 && t[b].0 == s[b].0);
        }
    }
    lemma_key_index_unique(t, k, i);
    lemma_key_index_unique(s, k, i);
    assert forall|kk: Seq<char>| #[trigger] has_key(t, kk) == has_key(s, kk) by {
        if has_key(s, kk) {
            let j = choose|j: int| 0 <= j < s.len() && #[trigger] s[j].0 == kk;
            assert(t[j].0 == s[j].0);
        }
        if has_key(t, kk) {
            let j = choose|j: int| 0 <= j < t.len() && #[trigger] t[j].0 == kk;
            assert(t[j].0 == s[j].0);
        }
    }
    assert forall|kk: Seq<char>| has_key(s, kk) && kk != k implies #[trigger] entries_map(t)[kk]
        == entries_map(s)[kk] by {
        let j = key_index(s, kk);
        lemma_key_index_unique(s, kk, j);
        assert(t[j] == s[j]);
        lemma_key_index_unique(t, kk, j);
    }
}

/// Removing the entry at `i` removes its key from the map.
pub proof fn lemma_remove_entry<V>(s: Seq<(Seq<char>, V)>, i: int)
    requires
        keys_distinct(s),
        0 <= i < s.len(),
    ensures
        keys_distinct(s.remove(i)),
        entries_map(s.remove(i)) =~= entries_map(s).remove(s[i].0),
{
    let k = s[i].0;
    let t = s.remove(i);
    assert forall|a: int| 0 <= a < t.len() implies #[trigger] t[a] == (if a < i {
        s[a]
    } else {
        s[a + 1]
    }) by {}
    assert(keys_distinct(t)) by {
        assert forall|a: int, b: int| 0 <= a < t.len() && 0 <= b < t.len() && a != b implies t[a].0
            != t[b].0 by {
            let a2 = if a < i { a } else { a + 1 };
            let b2 = if b < i { b } else { b + 1 };
            assert(t[a] == s[a2] && t[b] == s[b2]);
        }
    }
    assert forall|kk: Seq<char>| #[trigger] has_key(t, kk) == (has_key(s, kk) && kk != k) by {
        if has_key(s, kk) && kk != k {
            let j = choose|j: int| 0 <= j < s.len() && #[trigger] s[j].0 == kk;
            let j2 = if j < i { j } else { j - 1 };
            assert(t[j2] == s[j]);
        }
        if has_key(t, kk) {
            let j = choose|j: int| 0 <= j < t.len() && #[trigger] t[j].0 == kk;
            let j2 = if j < i { j } else { j + 1 };
            assert(t[j] == s[j2]);
        }
    }
    assert forall|kk: Seq<char>| has_key(t, kk) implies #[trigger] entries_map(t)[kk]
        == entries_map(s)[kk] by {
        let j = key_index(t, kk);
        lemma_key_index_unique(t, kk, j);
        let j2 = if j < i { j } else { j + 1 };
        assert(t[j] == s[j2]);
        lemma_key_index_unique(s, kk, j2);
    }
}

/// A map from account ids to values of type `V`, iterated in the order in
/// which the keys were first inserted.
pub struct AccountMap<V> {
    entries: Vec<(String, V)>,
}

impl<V> AccountMap<V> {
    /// The entries, in insertion order, with each key taken as its characters.
    pub closed spec fn entries(&self) -> Seq<(Seq<char>, V)> {
        self.entries@.map_values(|e: (String, V)| (e.0@, e.1))
    }

    #[verifier::type_invariant]
    pub open spec fn inv(&self) -> bool {
        keys_distinct(self.entries())
    }
}

impl<V> View for AccountMap<V> {
    type V = Map<Seq<char>, V>;

    open spec fn view(&self) -> Map<Seq<char>, V> {
        entries_map(self.entries())
    }
}

impl<V: Copy> AccountMap<V> {
    /// An empty map.
    pub fn new() -> (res: Self)
        ensures
            res.entries() == Seq::<(Seq<char>, V)>::empty(),
            res@ == Map::<Seq<char>, V>::empty(),
    {
        let res = AccountMap { entries: Vec::new() };
        assert(res.entries() =~= Seq::<(Seq<char>, V)>::empty());
        assert(res@ =~= Map::<Seq<char>, V>::empty());
        res
    }

    /// The number of keys.
    pub fn len(&self) -> (res: usize)
        ensures
            res == self.entries().len(),
    {
        self.entries.len()
    }

    /// A copy of the map, with the same entries in the same order.
    pub fn duplicate(&self) -> (res: Self)
        ensures
            res.entries() == self.entries(),
            res@ == self@,
    {
        proof {
            use_type_invariant(self);
        }
        let entries = self.to_vec();
        AccountMap { entries }
    }

    /// The entries, in insertion order.
    pub fn to_vec(&self) -> (res: Vec<(String, V)>)
        ensures
            res@.map_values(|e: (String, V)| (e.0@, e.1)) == self.entries(),
    {
        let n = self.entries.len();
        let mut res: Vec<(String, V)> = Vec::new();
        let mut i: usize = 0;
        while i < n
            invariant
                n == self.entries@.len(),
                i <= n,
                res@.map_values(|e: (String, V)| (e.0@, e.1)) =~= self.entries().take(i as int),
            decreases n - i,
        {
            let key = self.entries[i].0.clone();
            res.push((key, self.entries[i].1));
            assert(self.entries().take(i + 1) =~= self.entries().take(i as int).push(
                self.entries()[i as int],
            ));
            i = i + 1;
        }
        assert(self.entries().take(n as int) =~= self.entries());
        res
    }

    fn find(&self, k: &String) -> (res: Option<usize>)
        ensures
            match res {
                Some(i) => i < self.entries().len() && self.entries()[i as int].0 == k@,
                None => !has_key(self.entries(), k@),
            },
    {
        let n = self.entries.len();
        let mut i: usize = 0;
        while i < n
            invariant
                n == self.entries@.len(),
                i <= n,
                forall|j: int| 0 <= j < i ==> #[trigger] self.entries()[j].0 != k@,
            decreases n - i,
        {
            if self.entries[i].0 == *k {
                return Some(i);
            }
            i = i + 1;
        }
        None
    }

    /// Whether `k` has a value.
    pub fn contains_key(&self, k: &String) -> (res: bool)
        ensures
            res == self@.contains_key(k@),
    {
        match self.find(k) {
            Some(i) => {
                proof {
                    use_type_invariant(self);
                    lemma_key_index_unique(self.entries(), k@, i as int);
                }
                true
            },
            None => false,
        }
    }

    /// The value of `k`, if it has one.
    pub fn get(&self, k: &String) -> (res: Option<V>)
        ensures
            res == (if self@.contains_key(k@) {
                Some(self@[k@])
            } else {
                None::<V>
            }),
    {
        match self.find(k) {
            Some(i) => {
                proof {
                    use_type_invariant(self);
                    lemma_key_index_unique(self.entries(), k@, i as int);
                }
                Some(self.entries[i].1)
            },
            None => None,
        }
    }

    /// Sets the value of `k`. A new key goes after all others; an existing key
    /// keeps its place.
    pub fn insert(&mut self, k: &String, v: V)
        ensures
            final(self)@ == old(self)@.insert(k@, v),
            has_key(old(self).entries(), k@) ==> final(self).entries() == old(self).entries().update(
                key_index(old(self).entries(), k@),
                (k@, v),
            ),
            !has_key(old(self).entries(), k@) ==> final(self).entries() == old(self).entries().push(
                (k@, v),
            ),
    {
        proof {
            use_type_invariant(&*self);
        }
        let ghost s = self.entries();
        let mut entries: Vec<(String, V)> = Vec::new();
        std::mem::swap(&mut entries, &mut self.entries);
        assert(entries@.map_values(|e: (String, V)| (e.0@, e.1)) == s);
        match self.find_in(&entries, k) {
            Some(i) => {
                let key = entries[i].0.clone();
                proof {
                    lemma_key_index_unique(s, k@, i as int);
                    lemma_update_value(s, i as int, v);
                }
                entries.set(i, (key, v));
                assert(entries@.map_values(|e: (String, V)| (e.0@, e.1)) =~= s.update(
                    i as int,
                    (k@, v),
                ));
            },
            None => {
                proof {
                    lemma_push_new_key(s, k@, v);
                }
                entries.push((k.clone(), v));
                assert(entries@.map_values(|e: (String, V)| (e.0@, e.1)) =~= s.push((k@, v)));
            },
        }
        self.entries = entries;
    }

    fn find_in(&self, entries: &Vec<(String, V)>, k: &String) -> (res: Option<usize>)
        ensures
            match res {
                Some(i) => i < entries@.len() && entries@[i as int].0@ == k@,
                None => forall|j: int| 0 <= j < entries@.len() ==> #[trigger] entries@[j].0@ != k@,
            },
    {
        let n = entries.len();
        let mut i: usize = 0;
        while i < n
            invariant
                n == entries@.len(),
                i <= n,
                forall|j: int| 0 <= j < i ==> #[trigger] entries@[j].0@ != k@,
            decreases n - i,
        {
            if entries[i].0 == *k {
                return Some(i);
            }
            i = i + 1;
        }
        None
    }

    /// Removes `k` and returns the value it had. The other keys keep their order.
    pub fn remove(&mut self, k: &String) -> (res: Option<V>)
        ensures
            res == (if old(self)@.contains_key(k@) {
                Some(old(self)@[k@])
            } else {
                None::<V>
            }),
            final(self)@ == old(self)@.remove(k@),
            has_key(old(self).entries(), k@) ==> final(self).entries() == old(self).entries().remove(
                key_index(old(self).entries(), k@),
            ),
            !has_key(old(self).entries(), k@) ==> final(self).entries() == old(self).entries(),
    {
        proof {
            use_type_invariant(&*self);
        }
        let ghost s = self.entries();
        let mut entries: Vec<(String, V)> = Vec::new();
        std::mem::swap(&mut entries, &mut self.entries);
        assert(entries@.map_values(|e: (String, V)| (e.0@, e.1)) == s);
        match self.find_in(&entries, k) {
            Some(i) => {
                proof {
                    lemma_key_index_unique(s, k@, i as int);
                    lemma_remove_entry(s, i as int);
                }
                let e = entries.remove(i);
                assert(entries@.map_values(|e: (String, V)| (e.0@, e.1)) =~= s.remove(i as int));
                self.entries = entries;
                Some(e.1)
            },
            None => {
                assert(!has_key(s, k@)) by {
                    if has_key(s, k@) {
                        let j = choose|j: int| 0 <= j < s.len() && #[trigger] s[j].0 == k@;
                        assert(entries@[j].0@ == k@);
                    }
                }
                assert(entries_map(s).remove(k@) =~= entries_map(s));
                self.entries = entries;
                None
            },
        }
    }
}

} // verus!
