//! Markets and the trades that go through them.

use vstd::prelude::*;
use crate::error::AmmError;
use crate::outcome_map::{find_outcome, lemma_find_outcome_unique, outcomes_distinct};
use crate::pool::{
    law_buy_moves_balances, law_sell_moves_balances, buy_result, calc_buy_amount_result, calc_sell_out_result, sell_result, Pool, PoolState,
};
use crate::math::{div_u128_value, mul_u128_value, mul_value};
use crate::outcome_token::TokenState;
use crate::token_receiver::BuyArgs;
use crate::market_creation::markets_indexed;
use crate::{AMMContract, ContractState};

verus! {

/// A prediction market, traded through its pool.
pub struct Market {
    pub pool: Pool,
}

impl View for Market {
    type V = PoolState;

    open spec fn view(&self) -> PoolState {
        self.pool@
    }
}

/// The state and payout after `predecessor` sells on market `market_id`.
pub open spec fn market_sell_result(
    c: ContractState,
    market_id: u64,
    out: u128,
    outcome_target: u16,
    max_shares_in: u128,
    predecessor: Seq<char>,
    current: Seq<char>,
) -> Result<(ContractState, u128), AmmError> {
    if market_id >= c.markets.len() {
        Err(AmmError::MarketNotFound)
    } else {
        let p = c.markets[market_id as int];
        match sell_result(p, predecessor, out, outcome_target, max_shares_in, current, predecessor) {
            Err(e) => Err(e),
            Ok((t, e)) => if e > out {
                Err(AmmError::ArithmeticOverflow)
            } else {
                Ok(
                    (
                        ContractState {
                            markets: c.markets.update(market_id as int, p.with_tokens(t)),
                            ..c
                        },
                        (out - e) as u128,
                    ),
                )
            },
        }
    }
}

/// The state after `sender` buys on the market that `args` names.
pub open spec fn market_buy_result(
    c: ContractState,
    sender: Seq<char>,
    cin: u128,
    market_id: u64,
    outcome_target: u16,
    min_shares_out: u128,
    current: Seq<char>,
) -> Result<ContractState, AmmError> {
    if market_id >= c.markets.len() {
        Err(AmmError::MarketNotFound)
    } else {
        let p = c.markets[market_id as int];
        match buy_result(p, sender, cin, outcome_target, min_shares_out, current) {
            Err(e) => Err(e),
            Ok(t) => Ok(
                ContractState { markets: c.markets.update(market_id as int, p.with_tokens(t)), ..c },
            ),
        }
    }
}

/// Trading keeps every market's pool carrying the market's id, and changes
/// no market other than the one traded on.
pub proof fn law_trades_keep_markets_indexed(
    c: ContractState,
    sender: Seq<char>,
    amount: u128,
    market_id: u64,
    outcome_target: u16,
    limit: u128,
    current: Seq<char>,
)
    requires
        markets_indexed(c),
    ensures
        market_buy_result(c, sender, amount, market_id, outcome_target, limit, current) matches Ok(s)
            ==> markets_indexed(s) && forall|i: int|
            0 <= i < c.markets.len() && i != market_id ==> #[trigger] s.markets[i] == c.markets[i],
        market_sell_result(c, market_id, amount, outcome_target, limit, sender, current) matches Ok(
            (s, _),
        ) ==> markets_indexed(s) && forall|i: int|
            0 <= i < c.markets.len() && i != market_id ==> #[trigger] s.markets[i] == c.markets[i],
{
    if let Ok(s) = market_buy_result(c, sender, amount, market_id, outcome_target, limit, current) {
        assert forall|i: int| 0 <= i < s.markets.len() implies #[trigger] s.markets[i].id == i by {
            if i != market_id {
                assert(s.markets[i] == c.markets[i]);
            }
        }
    }
    if let Ok((s, _)) = market_sell_result(c, market_id, amount, outcome_target, limit, sender, current) {
        assert forall|i: int| 0 <= i < s.markets.len() implies #[trigger] s.markets[i].id == i by {
            if i != market_id {
                assert(s.markets[i] == c.markets[i]);
            }
        }
    }
}

/// A successful buy on market `market_id` credits the buyer, on the token of
/// the outcome asked for, exactly the shares that `calc_buy_amount` quotes for
/// that outcome, and leaves the buyer's balance of every other outcome of
/// every market unchanged; every token keeps its outcome.
pub proof fn law_contract_buy_credits_target(
    c: ContractState,
    sender: Seq<char>,
    cin: u128,
    market_id: u64,
    outcome_target: u16,
    min_shares_out: u128,
    current: Seq<char>,
)
    requires
        market_id < c.markets.len(),
        outcomes_distinct(c.markets[market_id as int].tokens),
        sender != current,
        market_buy_result(c, sender, cin, market_id, outcome_target, min_shares_out, current) is Ok,
    ensures
        ({
            let p = c.markets[market_id as int];
            let s = market_buy_result(c, sender, cin, market_id, outcome_target, min_shares_out, current)->Ok_0;
            let t = s.markets[market_id as int].tokens;
            let shares = calc_buy_amount_result(p, cin, outcome_target, current)->Ok_0;
            &&& calc_buy_amount_result(p, cin, outcome_target, current) is Ok
            &&& s.markets.len() == c.markets.len()
            &&& t.len() == p.tokens.len()
            &&& forall|i: int| 0 <= i < t.len() ==> #[trigger] t[i].0 == p.tokens[i].0
            &&& forall|i: int|
                0 <= i < t.len() ==> #[trigger] t[i].1.balance(sender) == p.tokens[i].1.balance(sender)
                    + (if p.tokens[i].0 == outcome_target { shares } else { 0 })
            &&& forall|m: int| 0 <= m < c.markets.len() && m != market_id ==> #[trigger] s.markets[m] == c.markets[m]
        }),
{
    let p = c.markets[market_id as int];
    law_buy_moves_balances(p, sender, cin, outcome_target, min_shares_out, current);
    let k = find_outcome(p.tokens, outcome_target)->Some_0;
    lemma_find_outcome_unique(p.tokens, outcome_target, k);
}

/// A successful sale on market `market_id` takes from the caller, on the
/// token of the outcome sold, exactly the shares that `calc_sell_out` quotes
/// for it and nothing on any other outcome, and pays back the collateral
/// asked for less the sale price times those shares (rounded down), the sale
/// price being the collateral plus the fee over the shares (rounded to the
/// nearest); other markets are left as they were.
pub proof fn law_contract_sell_pays_out(
    c: ContractState,
    market_id: u64,
    out: u128,
    outcome_target: u16,
    max_shares_in: u128,
    predecessor: Seq<char>,
    current: Seq<char>,
)
    requires
        market_id < c.markets.len(),
        outcomes_distinct(c.markets[market_id as int].tokens),
        predecessor != current,
        market_sell_result(c, market_id, out, outcome_target, max_shares_in, predecessor, current) is Ok,
    ensures
        ({
            let p = c.markets[market_id as int];
            let (s, pay) = market_sell_result(c, market_id, out, outcome_target, max_shares_in, predecessor, current)->Ok_0;
            let t = s.markets[market_id as int].tokens;
            let shares = calc_sell_out_result(p, out, outcome_target, current)->Ok_0;
            let burn = out + mul_u128_value(p.deno, out, p.fee);
            &&& calc_sell_out_result(p, out, outcome_target, current) is Ok
            &&& pay == out - mul_value(p.deno, div_u128_value(p.deno, burn as u128, shares) as u128, shares)
            &&& s.markets.len() == c.markets.len()
            &&& t.len() == p.tokens.len()
            &&& forall|i: int| 0 <= i < t.len() ==> #[trigger] t[i].0 == p.tokens[i].0
            &&& forall|i: int|
                0 <= i < t.len() ==> #[trigger] t[i].1.balance(predecessor) == p.tokens[i].1.balance(predecessor)
                    - (if p.tokens[i].0 == outcome_target { shares } else { 0 })
            &&& forall|m: int| 0 <= m < c.markets.len() && m != market_id ==> #[trigger] s.markets[m] == c.markets[m]
        }),
{
    let p = c.markets[market_id as int];
    law_sell_moves_balances(p, predecessor, out, outcome_target, max_shares_in, current, predecessor);
    let k = find_outcome(p.tokens, outcome_target)->Some_0;
    lemma_find_outcome_unique(p.tokens, outcome_target, k);
}

impl AMMContract {
    /// The market with id `market_id`.
    pub fn get_market_expect(&self, market_id: u64) -> (res: Result<&Market, AmmError>)
        ensures
            market_id < self@.markets.len() ==> res is Ok && res.unwrap()@ == self@.markets[market_id as int],
            market_id >= self@.markets.len() ==> res == Err::<&Market, AmmError>(AmmError::MarketNotFound),
    {
        if market_id >= self.markets.len() as u64 {
            return Err(AmmError::MarketNotFound);
        }
        Ok(&self.markets[market_id as usize])
    }

    /// The balance that `current`, the contract account, holds of each outcome
    /// token of market `id`.
    pub fn get_pool_balances(&self, id: u64, current: &String) -> (res: Result<Vec<u128>, AmmError>)
        ensures
            id < self@.markets.len() ==> res is Ok && res.unwrap()@ == self@.markets[id as int].tokens.map_values(
                |e: (u16, TokenState)| e.1.balance(current@),
            ),
            id >= self@.markets.len() ==> res == Err::<Vec<u128>, AmmError>(AmmError::MarketNotFound),
    {
        match self.get_market_expect(id) {
            Ok(market) => Ok(market.pool.get_pool_balances(current)),
            Err(e) => Err(e),
        }
    }

    /// The liquidity-token balance of `account_id` in market `market_id`.
    pub fn get_pool_token_balance(&self, market_id: u64, account_id: &String) -> (res: Result<u128, AmmError>)
        ensures
            market_id < self@.markets.len() ==> res == Ok::<u128, AmmError>(
                self@.markets[market_id as int].pool_token.balance(account_id@),
            ),
            market_id >= self@.markets.len() ==> res == Err::<u128, AmmError>(AmmError::MarketNotFound),
    {
        match self.get_market_expect(market_id) {
            Ok(market) => Ok(market.pool.get_pool_token_balance(account_id)),
            Err(e) => Err(e),
        }
    }

    /// The shares of `outcome_target` that `cin` collateral buys in market
    /// `market_id`.
    pub fn calc_buy_amount(&self, market_id: u64, cin: u128, outcome_target: u16, current: &String) -> (res: Result<u128, AmmError>)
        ensures
            market_id < self@.markets.len() ==> res == calc_buy_amount_result(
                self@.markets[market_id as int],
                cin,
                outcome_target,
                current@,
            ),
            market_id >= self@.markets.len() ==> res == Err::<u128, AmmError>(AmmError::MarketNotFound),
    {
        match self.get_market_expect(market_id) {
            Ok(market) => market.pool.calc_buy_amount(cin, outcome_target, current),
            Err(e) => Err(e),
        }
    }

    /// The amount that selling `outcome_target` for `out` collateral in market
    /// `market_id` prices at.
    pub fn calc_sell_out(&self, market_id: u64, out: u128, outcome_target: u16, current: &String) -> (res: Result<u128, AmmError>)
        ensures
            market_id < self@.markets.len() ==> res == calc_sell_out_result(
                self@.markets[market_id as int],
                out,
                outcome_target,
                current@,
            ),
            market_id >= self@.markets.len() ==> res == Err::<u128, AmmError>(AmmError::MarketNotFound),
    {
        match self.get_market_expect(market_id) {
            Ok(market) => market.pool.calc_sell_out(out, outcome_target, current),
            Err(e) => Err(e),
        }
    }

    /// `predecessor`, the account that made the call, sells shares of
    /// `outcome_target` in market `market_id` for `out` collateral, giving at
    /// most `max_shares_in` shares. Returns the collateral to send back to the
    /// seller.
    pub fn sell(
        &mut self,
        market_id: u64,
        out: u128,
        outcome_target: u16,
        max_shares_in: u128,
        predecessor: &String,
        current: &String,
    ) -> (res: Result<u128, AmmError>)
        ensures
            match market_sell_result(old(self)@, market_id, out, outcome_target, max_shares_in, predecessor@, current@) {
                Ok((s, pay)) => res == Ok::<u128, AmmError>(pay) && final(self)@ == s,
                Err(e) => res == Err::<u128, AmmError>(e) && final(self)@ == old(self)@,
            },
    {
        if market_id >= self.markets.len() as u64 {
            return Err(AmmError::MarketNotFound);
        }
        let i = market_id as usize;
        let ghost c0 = self@;
        let saved = self.markets[i].pool.outcome_tokens.duplicate();
        let market = &mut self.markets[i];
        let e = match market.pool.sell(predecessor, out, outcome_target, max_shares_in, current, predecessor) {
            Ok(e) => e,
            Err(err) => {
                assert(self@.markets =~= c0.markets);
                return Err(err);
            },
        };
        if e > out {
            self.markets[i].pool.outcome_tokens = saved;
            assert(self@.markets =~= c0.markets);
            return Err(AmmError::ArithmeticOverflow);
        }
        assert(self@.markets =~= c0.markets.update(i as int, self@.markets[i as int]));
        Ok(out - e)
    }

    /// `sender` buys shares in the market that `args` names with `cin`
    /// collateral that it transferred to the contract.
    pub fn buy(&mut self, sender: &String, cin: u128, args: &BuyArgs, current: &String) -> (res: Result<(), AmmError>)
        ensures
            match market_buy_result(
                old(self)@,
                sender@,
                cin,
                args.market_id,
                args.outcome_target,
                args.min_shares_out,
                current@,
            ) {
                Ok(s) => res is Ok && final(self)@ == s,
                Err(e) => res == Err::<(), AmmError>(e) && final(self)@ == old(self)@,
            },
    {
        if args.market_id >= self.markets.len() as u64 {
            return Err(AmmError::MarketNotFound);
        }
        let i = args.market_id as usize;
        let ghost c0 = self@;
        let market = &mut self.markets[i];
        let r = market.pool.buy(sender, cin, args.outcome_target, args.min_shares_out, current);
        assert(self@.markets =~= c0.markets.update(i as int, self@.markets[i as int]));
        match r {
            Ok(()) => Ok(()),
            Err(e) => {
                assert(self@.markets =~= c0.markets);
                Err(e)
            },
        }
    }
}

} // verus!
