//! Ledgers of outcome shares: balances per account and a total supply.

use vstd::prelude::*;
use crate::account_map::{lemma_entries_map_finite, AccountMap};

verus! {

/// The state of a token ledger.
pub struct TokenState {
    pub balances: Map<Seq<char>, u128>,
    pub total_supply: u128,
    pub pool_id: u64,
    pub outcome_id: u16,
}

impl TokenState {
    /// The balance of `id`; an account that was never credited holds nothing.
    pub open spec fn balance(self, id: Seq<char>) -> u128 {
        if self.balances.contains_key(id) {
            self.balances[id]
        } else {
            0
        }
    }

    /// The ledger with `balance` as the balance of `id`.
    pub open spec fn with_balance(self, id: Seq<char>, balance: u128) -> TokenState {
        TokenState {
            balances: self.balances.insert(id, balance),
            total_supply: self.total_supply,
            pool_id: self.pool_id,
            outcome_id: self.outcome_id,
        }
    }

    /// The ledger with `total` as its total supply.
    pub open spec fn with_total(self, total: u128) -> TokenState {
        TokenState {
            balances: self.balances,
            total_supply: total,
            pool_id: self.pool_id,
            outcome_id: self.outcome_id,
        }
    }

    /// Creates `amount` new shares for `id`; `None` on overflow.
    pub open spec fn minted(self, id: Seq<char>, amount: u128) -> Option<TokenState> {
        if self.total_supply + amount <= u128::MAX && self.balance(id) + amount <= u128::MAX {
            Some(
                self.with_total((self.total_supply + amount) as u128).with_balance(
                    id,
                    (self.balance(id) + amount) as u128,
                ),
            )
        } else {
            None
        }
    }

    /// Destroys `amount` shares of `id`; `None` when there are not enough.
    pub open spec fn burned(self, id: Seq<char>, amount: u128) -> Option<TokenState> {
        if amount <= self.balance(id) && amount <= self.total_supply {
            Some(
                self.with_total((self.total_supply - amount) as u128).with_balance(
                    id,
                    (self.balance(id) - amount) as u128,
                ),
            )
        } else {
            None
        }
    }

    /// Credits `amount` shares to `id`; `None` on overflow.
    pub open spec fn deposited(self, id: Seq<char>, amount: u128) -> Option<TokenState> {
        if self.balance(id) + amount <= u128::MAX {
            Some(self.with_balance(id, (self.balance(id) + amount) as u128))
        } else {
            None
        }
    }

    /// Debits `amount` shares from `id`; `None` when there are not enough.
    pub open spec fn withdrawn(self, id: Seq<char>, amount: u128) -> Option<TokenState> {
        if amount <= self.balance(id) {
            Some(self.with_balance(id, (self.balance(id) - amount) as u128))
        } else {
            None
        }
    }

    /// Moves `amount` shares from `from` to `to`; `None` when `from` holds too
    /// few or `to` would overflow.
    pub open spec fn transferred(self, from: Seq<char>, to: Seq<char>, amount: u128) -> Option<
        TokenState,
    > {
        match self.withdrawn(from, amount) {
            Some(t) => t.deposited(to, amount),
            None => None,
        }
    }
}

/// The sum of all balances in `m`.
pub open spec fn balance_sum(m: Map<Seq<char>, u128>) -> int
    decreases m.dom().len(),
    when m.dom().finite()
{
    if m.dom().len() == 0 {
        0
    } else {
        let k = m.dom().choose();
        m[k] + balance_sum(m.remove(k))
    }
}

/// The balances of `t` add up to its total supply.
pub open spec fn supply_matches(t: TokenState) -> bool {
    t.balances.dom().finite() && balance_sum(t.balances) == t.total_supply
}

proof fn lemma_balance_sum_remove(m: Map<Seq<char>, u128>, k: Seq<char>)
    requires
        m.dom().finite(),
        m.dom().contains(k),
    ensures
        balance_sum(m) == m[k] + balance_sum(m.remove(k)),
    decreases m.dom().len(),
{
    let c = m.dom().choose();
    assert(m.dom().len() != 0);
    if c != k {
        let mc = m.remove(c);
        let mk = m.remove(k);
        lemma_balance_sum_remove(mc, k);
        lemma_balance_sum_remove(mk, c);
        assert(mc.remove(k) =~= mk.remove(c));
    }
}

proof fn lemma_balance_sum_insert(m: Map<Seq<char>, u128>, k: Seq<char>, v: u128)
    requires
        m.dom().finite(),
    ensures
        m.insert(k, v).dom().finite(),
        balance_sum(m.insert(k, v)) == balance_sum(m) - (if m.dom().contains(k) {
            m[k] as int
        } else {
            0
        }) + v,
{
    let m2 = m.insert(k, v);
    lemma_balance_sum_remove(m2, k);
    if m.dom().contains(k) {
        lemma_balance_sum_remove(m, k);
        assert(m2.remove(k) =~= m.remove(k));
    } else {
        assert(m2.remove(k) =~= m);
    }
}

/// A new ledger, whose whole supply belongs to one account, has balances
/// that add up to its supply.
pub proof fn law_new_ledger_supply_matches(owner: Seq<char>, initial: u128, pool_id: u64, outcome_id: u16)
    ensures
        supply_matches(
            TokenState {
                balances: Map::<Seq<char>, u128>::empty().insert(owner, initial),
                total_supply: initial,
                pool_id,
                outcome_id,
            },
        ),
{
    let e = Map::<Seq<char>, u128>::empty();
    assert(e.dom() =~= Set::<Seq<char>>::empty());
    assert(balance_sum(e) == 0);
    lemma_balance_sum_insert(e, owner, initial);
}

/// Minting, burning and transfers keep the balances adding up to the total
/// supply; a deposit or a withdrawal alone moves the sum of the balances by
/// the amount while the supply stays.
pub proof fn law_supply_matches_balances(t: TokenState, from: Seq<char>, to: Seq<char>, amount: u128)
    requires
        t.balances.dom().finite(),
    ensures
        supply_matches(t) && t.minted(from, amount) is Some ==> supply_matches(
            t.minted(from, amount)->Some_0,
        ),
        supply_matches(t) && t.burned(from, amount) is Some ==> supply_matches(
            t.burned(from, amount)->Some_0,
        ),
        supply_matches(t) && t.transferred(from, to, amount) is Some ==> supply_matches(
            t.transferred(from, to, amount)->Some_0,
        ),
        t.deposited(to, amount) matches Some(t1) ==> t1.balances.dom().finite() && balance_sum(
            t1.balances,
        ) == balance_sum(t.balances) + amount && t1.total_supply == t.total_supply,
        t.withdrawn(from, amount) matches Some(t1) ==> t1.balances.dom().finite() && balance_sum(
            t1.balances,
        ) == balance_sum(t.balances) - amount && t1.total_supply == t.total_supply,
{
    let m = t.balances;
    lemma_balance_sum_insert(m, from, (t.balance(from) + amount) as u128);
    lemma_balance_sum_insert(m, from, (t.balance(from) - amount) as u128);
    lemma_balance_sum_insert(m, to, (t.balance(to) + amount) as u128);
    if let Some(t1) = t.withdrawn(from, amount) {
        let m1 = t1.balances;
        lemma_balance_sum_insert(m1, to, (t1.balance(to) + amount) as u128);
    }
}

/// Burning what was just minted gives every account its balance back and
/// leaves the supply where it was.
pub proof fn law_mint_then_burn_restores(t: TokenState, id: Seq<char>, amount: u128)
    requires
        t.minted(id, amount) is Some,
    ensures
        t.minted(id, amount).unwrap().burned(id, amount) is Some,
        ({
            let t2 = t.minted(id, amount).unwrap().burned(id, amount).unwrap();
            &&& t2.total_supply == t.total_supply
            &&& t2.pool_id == t.pool_id
            &&& t2.outcome_id == t.outcome_id
            &&& forall|k: Seq<char>| #[trigger] t2.balance(k) == t.balance(k)
        }),
{
}

/// Minting raises the supply and the balance of the receiver by the amount
/// and changes no other balance; burning lowers both by the amount.
pub proof fn law_mint_and_burn_move_supply_with_balance(t: TokenState, id: Seq<char>, amount: u128)
    ensures
        t.minted(id, amount) matches Some(t1) ==> {
            &&& t1.total_supply == t.total_supply + amount
            &&& t1.balance(id) == t.balance(id) + amount
            &&& forall|k: Seq<char>| k != id ==> #[trigger] t1.balance(k) == t.balance(k)
        },
        t.burned(id, amount) matches Some(t1) ==> {
            &&& t1.total_supply == t.total_supply - amount
            &&& t1.balance(id) == t.balance(id) - amount
            &&& forall|k: Seq<char>| k != id ==> #[trigger] t1.balance(k) == t.balance(k)
        },
{
}

/// A transfer keeps the supply, moves the amount from the sender to the
/// receiver, and changes no other balance.
pub proof fn law_transfer_conserves(t: TokenState, from: Seq<char>, to: Seq<char>, amount: u128)
    requires
        t.transferred(from, to, amount) is Some,
    ensures
        ({
            let t1 = t.transferred(from, to, amount).unwrap();
            &&& t1.total_supply == t.total_supply
            &&& from != to ==> t1.balance(from) == t.balance(from) - amount && t1.balance(to)
                == t.balance(to) + amount
            &&& from == to ==> t1.balance(from) == t.balance(from)
            &&& forall|k: Seq<char>| k != from && k != to ==> #[trigger] t1.balance(k) == t.balance(k)
        }),
{
}

/// Sending an amount back to where it came from gives every account its
/// balance back.
pub proof fn law_transfer_back_restores(t: TokenState, a: Seq<char>, b: Seq<char>, amount: u128)
    requires
        t.transferred(a, b, amount) is Some,
    ensures
        t.transferred(a, b, amount).unwrap().transferred(b, a, amount) is Some,
        ({
            let t2 = t.transferred(a, b, amount).unwrap().transferred(b, a, amount).unwrap();
            &&& t2.total_supply == t.total_supply
            &&& forall|k: Seq<char>| #[trigger] t2.balance(k) == t.balance(k)
        }),
{
}

/// A ledger of shares whose balances live in an account map.
pub struct MintableToken {
    pub accounts: AccountMap<u128>,
    pub total_supply: u128,
    pub pool_id: u64,
    pub outcome_id: u16,
}

impl View for MintableToken {
    type V = TokenState;

    open spec fn view(&self) -> TokenState {
        TokenState {
            balances: self.accounts@,
            total_supply: self.total_supply,
            pool_id: self.pool_id,
            outcome_id: self.outcome_id,
        }
    }
}

impl MintableToken {
    /// A ledger whose whole supply `initial` belongs to `owner`, the account
    /// of the contract itself.
    pub fn new(pool_id: u64, outcome_id: u16, initial: u128, owner: &String) -> (res: Self)
        ensures
            res@.balances == Map::<Seq<char>, u128>::empty().insert(owner@, initial),
            res@.total_supply == initial,
            res@.pool_id == pool_id,
            res@.outcome_id == outcome_id,
            res@.balances.dom().finite(),
    {
        let mut accounts = AccountMap::new();
        accounts.insert(owner, initial);
        proof {
            lemma_entries_map_finite(accounts.entries());
        }
        Self { total_supply: initial, accounts, pool_id, outcome_id }
    }

    /// The balance of `id`.
    pub fn balance_of(&self, id: &String) -> (res: u128)
        ensures
            res == self@.balance(id@),
    {
        match self.accounts.get(id) {
            Some(b) => b,
            None => 0,
        }
    }

    /// Creates `amount` shares for `id`.
    pub fn mint(&mut self, id: &String, amount: u128)
        requires
            old(self)@.minted(id@, amount) is Some,
        ensures
            Some(final(self)@) == old(self)@.minted(id@, amount),
            final(self)@.balances.dom().finite(),
    {
        self.total_supply = self.total_supply + amount;
        let balance = self.balance_of(id);
        let new = balance + amount;
        self.accounts.insert(id, new);
        proof {
            lemma_entries_map_finite(self.accounts.entries());
        }
    }

    /// Destroys `amount` shares of `id`.
    pub fn burn(&mut self, id: &String, amount: u128)
        requires
            old(self)@.burned(id@, amount) is Some,
        ensures
            Some(final(self)@) == old(self)@.burned(id@, amount),
            final(self)@.balances.dom().finite(),
    {
        let balance = self.balance_of(id);
        let new = balance - amount;
        self.accounts.insert(id, new);
        self.total_supply = self.total_supply - amount;
        proof {
            lemma_entries_map_finite(self.accounts.entries());
        }
    }

    /// Credits `amount` shares to `id` without changing the supply.
    pub fn deposit(&mut self, id: &String, amount: u128)
        requires
            old(self)@.deposited(id@, amount) is Some,
        ensures
            Some(final(self)@) == old(self)@.deposited(id@, amount),
            final(self)@.balances.dom().finite(),
    {
        let balance = self.balance_of(id);
        let new = balance + amount;
        self.accounts.insert(id, new);
        proof {
            lemma_entries_map_finite(self.accounts.entries());
        }
    }

    /// Debits `amount` shares from `id` without changing the supply.
    pub fn withdraw(&mut self, id: &String, amount: u128)
        requires
            old(self)@.withdrawn(id@, amount) is Some,
        ensures
            Some(final(self)@) == old(self)@.withdrawn(id@, amount),
            final(self)@.balances.dom().finite(),
    {
        let balance = self.balance_of(id);
        let new = balance - amount;
        self.accounts.insert(id, new);
        proof {
            lemma_entries_map_finite(self.accounts.entries());
        }
    }

    /// A copy of the ledger.
    pub fn duplicate(&self) -> (res: Self)
        ensures
            res@ == self@,
    {
        MintableToken {
            accounts: self.accounts.duplicate(),
            total_supply: self.total_supply,
            pool_id: self.pool_id,
            outcome_id: self.outcome_id,
        }
    }
}

/// The share token of one outcome of a market (or the liquidity token of a pool).
pub struct OutComeToken {
    pub token: MintableToken,
}

impl View for OutComeToken {
    type V = TokenState;

    open spec fn view(&self) -> TokenState {
        self.token@
    }
}

impl OutComeToken {
    /// A token whose whole supply `initial` belongs to `owner`, the account of
    /// the contract itself.
    pub fn new(pool_id: u64, outcome_id: u16, initial: u128, owner: &String) -> (res: Self)
        ensures
            res@.balances == Map::<Seq<char>, u128>::empty().insert(owner@, initial),
            res@.total_supply == initial,
            res@.pool_id == pool_id,
            res@.outcome_id == outcome_id,
            res@.balances.dom().finite(),
    {
        Self { token: MintableToken::new(pool_id, outcome_id, initial, owner) }
    }

    /// The balance of `id`.
    pub fn get_balance(&self, id: &String) -> (res: u128)
        ensures
            res == self@.balance(id@),
    {
        self.token.balance_of(id)
    }

    /// The number of shares in existence.
    pub fn total_supply(&self) -> (res: u128)
        ensures
            res == self@.total_supply,
    {
        self.token.total_supply
    }

    /// Creates `amount` shares for `id`.
    pub fn mint(&mut self, id: &String, amount: u128)
        requires
            old(self)@.minted(id@, amount) is Some,
        ensures
            Some(final(self)@) == old(self)@.minted(id@, amount),
            final(self)@.balances.dom().finite(),
    {
        self.token.mint(id, amount);
    }

    /// Destroys `amount` shares of `id`.
    pub fn burn(&mut self, id: &String, amount: u128)
        requires
            old(self)@.burned(id@, amount) is Some,
        ensures
            Some(final(self)@) == old(self)@.burned(id@, amount),
            final(self)@.balances.dom().finite(),
    {
        self.token.burn(id, amount);
    }

    /// Forgets the account `id` and returns the balance it had, if it had one.
    /// The total supply is left as it is.
    pub fn remove_account(&mut self, id: &String) -> (res: Option<u128>)
        ensures
            res == (if old(self)@.balances.contains_key(id@) {
                Some(old(self)@.balances[id@])
            } else {
                None::<u128>
            }),
            final(self)@ == (TokenState { balances: old(self)@.balances.remove(id@), ..old(self)@ }),
            final(self)@.balances.dom().finite(),
    {
        let res = self.token.accounts.remove(id);
        proof {
            lemma_entries_map_finite(self.token.accounts.entries());
        }
        res
    }

    /// Moves `amount` shares from `predecessor`, the account that made the
    /// call, to `id`.
    pub fn transfer(&mut self, id: &String, amount: u128, predecessor: &String)
        requires
            old(self)@.transferred(predecessor@, id@, amount) is Some,
        ensures
            Some(final(self)@) == old(self)@.transferred(predecessor@, id@, amount),
            final(self)@.balances.dom().finite(),
    {
        self.token.withdraw(predecessor, amount);
        self.token.deposit(id, amount);
    }

    /// Moves `amount` shares from `s_id` to `r_id`.
    pub fn safe_transfer_internal(&mut self, s_id: &String, r_id: &String, amount: u128)
        requires
            old(self)@.transferred(s_id@, r_id@, amount) is Some,
        ensures
            Some(final(self)@) == old(self)@.transferred(s_id@, r_id@, amount),
            final(self)@.balances.dom().finite(),
    {
        self.token.withdraw(s_id, amount);
        self.token.deposit(r_id, amount);
    }

    /// A copy of the token.
    pub fn duplicate(&self) -> (res: Self)
        ensures
            res@ == self@,
    {
        OutComeToken { token: self.token.duplicate() }
    }
}

} // verus!
