//! The collateral tokens that markets may be created in, with their decimals.

use vstd::prelude::*;
use crate::account_map::{
    entries_map, has_key, key_index, keys_distinct, lemma_key_index_unique, lemma_push_new_key,
    lemma_update_value, AccountMap,
};
use crate::error::AmmError;
use crate::{AMMContract, ContractState};

verus! {

/// A collateral token and its number of decimals.
#[derive(Debug)]
pub struct Token {
    pub id: String,
    pub decimals: u32,
}

impl Token {
    /// The token as a pair of its id and its decimals.
    pub open spec fn entry(self) -> (Seq<char>, u32) {
        (self.id@, self.decimals)
    }
}

impl Default for Token {
    fn default() -> (res: Self)
        ensures
            res.id@ == Seq::<char>::empty(),
            res.decimals == 0,
    {
        Token { id: String::new(), decimals: 0 }
    }
}

/// `s` with the value of key `e.0` set to `e.1`: in place for a key that is
/// there, at the end for a new one.
pub open spec fn insert_entry(s: Seq<(Seq<char>, u32)>, e: (Seq<char>, u32)) -> Seq<(Seq<char>, u32)> {
    if has_key(s, e.0) {
        s.update(key_index(s, e.0), e)
    } else {
        s.push(e)
    }
}

/// The entries of a whitelist built from `tokens`, inserted in order.
pub open spec fn whitelist_entries(tokens: Seq<(Seq<char>, u32)>) -> Seq<(Seq<char>, u32)>
    decreases tokens.len(),
{
    if tokens.len() == 0 {
        Seq::empty()
    } else {
        insert_entry(whitelist_entries(tokens.drop_last()), tokens.last())
    }
}

/// The decimals of each token id in `tokens`, a later token overriding an
/// earlier one with the same id.
pub open spec fn token_decimals(tokens: Seq<(Seq<char>, u32)>) -> Map<Seq<char>, u32>
    decreases tokens.len(),
{
    if tokens.len() == 0 {
        Map::empty()
    } else {
        token_decimals(tokens.drop_last()).insert(tokens.last().0, tokens.last().1)
    }
}

/// Adding a token to the whitelist makes a lookup of its id give its
/// decimals, and leaves every other id as it was.
pub proof fn law_add_then_lookup(s: Seq<(Seq<char>, u32)>, e: (Seq<char>, u32))
    requires
        keys_distinct(s),
    ensures
        keys_distinct(insert_entry(s, e)),
        entries_map(insert_entry(s, e)) == entries_map(s).insert(e.0, e.1),
{
    if has_key(s, e.0) {
        let i = choose|i: int| 0 <= i < s.len() && #[trigger] s[i].0 == e.0;
        lemma_key_index_unique(s, e.0, i);
        lemma_update_value(s, i, e.1);
    } else {
        lemma_push_new_key(s, e.0, e.1);
    }
}

/// A whitelist built from a list of tokens maps each id to the decimals of
/// the last token in the list with that id, and to nothing else.
pub proof fn law_whitelist_keeps_last_decimals(tokens: Seq<(Seq<char>, u32)>)
    ensures
        keys_distinct(whitelist_entries(tokens)),
        entries_map(whitelist_entries(tokens)) == token_decimals(tokens),
    decreases tokens.len(),
{
    if tokens.len() > 0 {
        law_whitelist_keeps_last_decimals(tokens.drop_last());
        law_add_then_lookup(whitelist_entries(tokens.drop_last()), tokens.last());
    } else {
        assert(entries_map(Seq::<(Seq<char>, u32)>::empty()) =~= Map::empty());
    }
}

/// The tokens that markets may be created in, each with its decimals, in the
/// order in which they were first added.
pub struct Whitelist(pub AccountMap<u32>);

impl Whitelist {
    /// A whitelist of `tokens`; a later token with the same id replaces the
    /// decimals of an earlier one.
    pub fn new(tokens: Vec<Token>) -> (res: Self)
        ensures
            res.0.entries() == whitelist_entries(tokens@.map_values(|t: Token| t.entry())),
    {
        let ghost s = tokens@.map_values(|t: Token| t.entry());
        let mut list: AccountMap<u32> = AccountMap::new();
        let n = tokens.len();
        let mut i: usize = 0;
        assert(s.take(0) =~= Seq::<(Seq<char>, u32)>::empty());
        while i < n
            invariant
                n == tokens@.len(),
                s == tokens@.map_values(|t: Token| t.entry()),
                i <= n,
                list.entries() == whitelist_entries(s.take(i as int)),
            decreases n - i,
        {
            assert(s.take(i + 1).drop_last() =~= s.take(i as int));
            list.insert(&tokens[i].id, tokens[i].decimals);
            i = i + 1;
        }
        assert(s.take(n as int) =~= s);
        Whitelist(list)
    }
}

impl AMMContract {
    /// The whitelisted tokens with their decimals, in the order in which they
    /// were first added.
    pub fn get_whitelist(&self) -> (res: Vec<(String, u32)>)
        ensures
            res@.map_values(|e: (String, u32)| (e.0@, e.1)) == self@.whitelist,
    {
        self.whitelist.0.to_vec()
    }

    /// Replaces the whitelist with `tokens`; only the governance account
    /// (`predecessor` is the account that made the call) may do this.
    pub fn set_whitelist(&mut self, tokens: Vec<Token>, predecessor: &String) -> (res: Result<(), AmmError>)
        ensures
            predecessor@ != old(self)@.gov ==> res == Err::<(), AmmError>(AmmError::NotGovernance)
                && final(self)@ == old(self)@,
            predecessor@ == old(self)@.gov ==> res is Ok && final(self)@ == (ContractState {
                whitelist: whitelist_entries(tokens@.map_values(|t: Token| t.entry())),
                ..old(self)@
            }),
    {
        if *predecessor != self.gov {
            return Err(AmmError::NotGovernance);
        }
        self.whitelist = Whitelist::new(tokens);
        Ok(())
    }

    /// Adds `add` to the whitelist, or sets the decimals of a token that is
    /// there; only the governance account may do this.
    pub fn add_whitelist(&mut self, add: Token, predecessor: &String) -> (res: Result<(), AmmError>)
        ensures
            predecessor@ != old(self)@.gov ==> res == Err::<(), AmmError>(AmmError::NotGovernance)
                && final(self)@ == old(self)@,
            predecessor@ == old(self)@.gov ==> res is Ok && final(self)@ == (ContractState {
                whitelist: insert_entry(old(self)@.whitelist, add.entry()),
                ..old(self)@
            }),
    {
        if *predecessor != self.gov {
            return Err(AmmError::NotGovernance);
        }
        self.whitelist.0.insert(&add.id, add.decimals);
        Ok(())
    }
}

} // verus!
