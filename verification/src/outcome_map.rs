//! The outcome tokens of a pool, keyed by outcome number and kept in the
//! order in which the outcomes were first inserted.

use vstd::prelude::*;
use crate::outcome_token::{OutComeToken, TokenState};

verus! {

/// Whether some entry of `s` has outcome `k`.
pub open spec fn has_outcome(s: Seq<(u16, TokenState)>, k: u16) -> bool {
    exists|i: int| 0 <= i < s.len() && #[trigger] s[i].0 == k
}

/// The position of outcome `k` in `s`, if it is there.
pub open spec fn find_outcome(s: Seq<(u16, TokenState)>, k: u16) -> Option<int> {
    if has_outcome(s, k) {
        Some(choose|i: int| 0 <= i < s.len() && #[trigger] s[i].0 == k)
    } else {
        None
    }
}

/// No outcome occurs twice in `s`.
pub open spec fn outcomes_distinct(s: Seq<(u16, TokenState)>) -> bool {
    forall|i: int, j: int| 0 <= i < s.len() && 0 <= j < s.len() && i != j ==> s[i].0 != s[j].0
}

/// In a sequence with distinct outcomes, outcome `k` is found at `i`.
pub proof fn lemma_find_outcome_unique(s: Seq<(u16, TokenState)>, k: u16, i: int)
    requires
        outcomes_distinct(s),
        0 <= i < s.len(),
        s[i].0 == k,
    ensures
        find_outcome(s, k) == Some(i),
{
    assert(has_outcome(s, k));
}

/// Replacing the token of an entry keeps every outcome where it was.
pub proof fn lemma_find_outcome_update(s: Seq<(u16, TokenState)>, i: int, t: TokenState, k: u16)
    requires
        outcomes_distinct(s),
        0 <= i < s.len(),
    ensures
        outcomes_distinct(s.update(i, (s[i].0, t))),
        find_outcome(s.update(i, (s[i].0, t)), k) == find_outcome(s, k),
{
    let u = s.update(i, (s[i].0, t));
    assert forall|a: int, b: int| 0 <= a < u.len() && 0 <= b < u.len() && a != b implies u[a].0
        != u[b].0 by {
        assert(u[a].0 == s[a].0 && u[b].0 == s[b].0);
    }
    if has_outcome(s, k) {
        let j = choose|j: int| 0 <= j < s.len() && #[trigger] s[j].0 == k;
        assert(u[j].0 == s[j].0);
        lemma_find_outcome_unique(s, k, j);
        lemma_find_outcome_unique(u, k, j);
    } else {
        assert(!has_outcome(u, k)) by {
            if has_outcome(u, k) {
                let j = choose|j: int| 0 <= j < u.len() && #[trigger] u[j].0 == k;
                assert(u[j].0 == s[j].0);
            }
        }
    }
}

/// The outcome tokens of a pool.
pub struct OutcomeTokens {
    entries: Vec<(u16, OutComeToken)>,
}

impl View for OutcomeTokens {
    type V = Seq<(u16, TokenState)>;

    closed spec fn view(&self) -> Seq<(u16, TokenState)> {
        self.entries@.map_values(|e: (u16, OutComeToken)| (e.0, e.1@))
    }
}

impl OutcomeTokens {
    #[verifier::type_invariant]
    pub open spec fn inv(&self) -> bool {
        outcomes_distinct(self@)
    }

    /// No tokens.
    pub fn new() -> (res: Self)
        ensures
            res@ == Seq::<(u16, TokenState)>::empty(),
    {
        let res = OutcomeTokens { entries: Vec::new() };
        assert(res@ =~= Seq::<(u16, TokenState)>::empty());
        res
    }

    /// The number of outcomes that have a token.
    pub fn len(&self) -> (res: usize)
        ensures
            res == self@.len(),
    {
        self.entries.len()
    }

    /// The outcome of the entry at `i`.
    pub fn key_at(&self, i: usize) -> (res: u16)
        requires
            i < self@.len(),
        ensures
            res == self@[i as int].0,
    {
        self.entries[i].0
    }

    /// The token of the entry at `i`.
    pub fn token_at(&self, i: usize) -> (res: &OutComeToken)
        requires
            i < self@.len(),
        ensures
            res@ == self@[i as int].1,
    {
        &self.entries[i].1
    }

    /// The position of outcome `k`, if it has a token.
    pub fn find(&self, k: u16) -> (res: Option<usize>)
        ensures
            match res {
                Some(i) => find_outcome(self@, k) == Some(i as int),
                None => find_outcome(self@, k) is None,
            },
    {
        proof {
            use_type_invariant(self);
        }
        let n = self.entries.len();
        let mut i: usize = 0;
        while i < n
            invariant
                n == self@.len(),
                i <= n,
                outcomes_distinct(self@),
                forall|j: int| 0 <= j < i ==> #[trigger] self@[j].0 != k,
            decreases n - i,
        {
            if self.entries[i].0 == k {
                proof {
                    lemma_find_outcome_unique(self@, k, i as int);
                }
                return Some(i);
            }
            i = i + 1;
        }
        assert(!has_outcome(self@, k));
        None
    }

    /// The token of outcome `k`, if it has one.
    pub fn get(&self, k: u16) -> (res: Option<&OutComeToken>)
        ensures
            match find_outcome(self@, k) {
                Some(i) => res is Some && res.unwrap()@ == self@[i].1,
                None => res is None,
            },
    {
        match self.find(k) {
            Some(i) => Some(&self.entries[i].1),
            None => None,
        }
    }

    /// Replaces the token of the entry at `i`; its outcome stays the same.
    pub fn set_at(&mut self, i: usize, token: OutComeToken)
        requires
            i < old(self)@.len(),
        ensures
            final(self)@ == old(self)@.update(i as int, (old(self)@[i as int].0, token@)),
    {
        proof {
            use_type_invariant(&*self);
            lemma_find_outcome_update(self@, i as int, token@, 0);
        }
        let ghost s = self@;
        let mut entries: Vec<(u16, OutComeToken)> = Vec::new();
        std::mem::swap(&mut entries, &mut self.entries);
        let k = entries[i].0;
        entries.set(i, (k, token));
        assert(entries@.map_values(|e: (u16, OutComeToken)| (e.0, e.1@)) =~= s.update(
            i as int,
            (s[i as int].0, token@),
        ));
        self.entries = entries;
    }

    /// Sets the token of outcome `k`. A new outcome goes after all others; an
    /// existing one keeps its place.
    pub fn insert(&mut self, k: u16, token: OutComeToken)
        ensures
            match find_outcome(old(self)@, k) {
                Some(i) => final(self)@ == old(self)@.update(i, (k, token@)),
                None => final(self)@ == old(self)@.push((k, token@)),
            },
    {
        match self.find(k) {
            Some(i) => {
                self.set_at(i, token);
            },
            None => {
                proof {
                    use_type_invariant(&*self);
                }
                let ghost s = self@;
                let mut entries: Vec<(u16, OutComeToken)> = Vec::new();
                std::mem::swap(&mut entries, &mut self.entries);
                entries.push((k, token));
                let ghost t = entries@.map_values(|e: (u16, OutComeToken)| (e.0, e.1@));
                assert(t =~= s.push((k, token@)));
                assert(outcomes_distinct(t)) by {
                    assert forall|a: int, b: int|
                        0 <= a < t.len() && 0 <= b < t.len() && a != b implies t[a].0 != t[b].0 by {
                        if a < s.len() && b < s.len() {
                        } else if a < s.len() {
                            assert(t[a].0 == s[a].0);
                            assert(!has_outcome(s, k));
                        } else {
                            assert(t[b].0 == s[b].0);
                            assert(!has_outcome(s, k));
                        }
                    }
                }
                self.entries = entries;
            },
        }
    }

    /// A copy of the tokens, in the same order.
    pub fn duplicate(&self) -> (res: Self)
        ensures
            res@ == self@,
    {
        proof {
            use_type_invariant(self);
        }
        let n = self.entries.len();
        let mut entries: Vec<(u16, OutComeToken)> = Vec::new();
        let mut i: usize = 0;
        while i < n
            invariant
                n == self@.len(),
                i <= n,
                entries@.map_values(|e: (u16, OutComeToken)| (e.0, e.1@)) =~= self@.take(i as int),
            decreases n - i,
        {
            let t = self.entries[i].1.duplicate();
            entries.push((self.entries[i].0, t));
            assert(self@.take(i + 1) =~= self@.take(i as int).push(self@[i as int]));
            i = i + 1;
        }
        assert(self@.take(n as int) =~= self@);
        OutcomeTokens { entries }
    }
}

} // verus!
