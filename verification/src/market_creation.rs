//! Creating markets, and the data request that follows each new market.

use vstd::prelude::*;
use crate::account_map::entries_map;
use crate::data::{decimal, decimal_string, DataRequestArgs, DataRequestCall, GAS_BASE_TRANSFER};
use crate::error::AmmError;
use crate::market::Market;
use crate::outcome_token::TokenState;
use crate::pool::{lemma_pow10_fits, pow10, PoolState};
use crate::pool_factory::new_pool;
use crate::token_receiver::CreateMarketArgs;
use crate::{AMMContract, ContractState};

verus! {

/// The oracle's configuration, as far as market creation reads it.
#[derive(Debug)]
pub struct Config {
    pub bond_token: String,
    pub validity_bound: u128,
}

/// What follows the creation of market `market_id`: the data request, paid
/// with part of the bond, and the refund of the rest of the bond.
#[derive(Debug)]
pub struct DataRequestPlan {
    pub request: DataRequestCall,
    pub refund_token: String,
    pub refund_receiver: String,
    pub refund_amount: u128,
}

/// The gas attached to the call that continues market creation once the
/// oracle's configuration is known.
pub const GAS_PROCEED: u64 = 150_000_000_000_000;

/// The call back into this contract that continues market creation: the
/// bond `bond_in` that `sender` paid in `bond_token`, for market `market_id`.
#[derive(Debug, PartialEq, Eq)]
pub struct ProceedCall {
    pub sender: String,
    pub bond_token: String,
    pub bond_in: u128,
    pub market_id: u64,
    pub gas: u64,
}

/// The state of a new, empty pool.
pub open spec fn new_pool_state(
    id: u64,
    token_id: Seq<char>,
    decimals: u32,
    outcomes: u16,
    fee: u128,
    current: Seq<char>,
) -> PoolState {
    PoolState {
        id,
        token_id,
        deno: pow10(decimals as nat) as u128,
        outcomes,
        tokens: Seq::empty(),
        pool_token: TokenState {
            balances: Map::empty().insert(current, 0),
            total_supply: 0,
            pool_id: id,
            outcome_id: outcomes,
        },
        fee,
    }
}

/// The state after creating a market in `token_id` with `outcomes` outcomes
/// and `fee`, or why it is refused.
pub open spec fn create_market_result(
    c: ContractState,
    outcomes: u16,
    token_id: Seq<char>,
    fee: u128,
    current: Seq<char>,
) -> Result<ContractState, AmmError> {
    let list = entries_map(c.whitelist);
    if !list.contains_key(token_id) {
        Err(AmmError::TokenNotWhitelisted)
    } else if list[token_id] > 38 {
        Err(AmmError::ArithmeticOverflow)
    } else {
        Ok(
            ContractState {
                markets: c.markets.push(
                    new_pool_state(
                        c.markets.len() as u64,
                        token_id,
                        list[token_id],
                        outcomes,
                        fee,
                        current,
                    ),
                ),
                ..c
            },
        )
    }
}

/// Every market's pool carries the market's own id.
pub open spec fn markets_indexed(c: ContractState) -> bool {
    forall|i: int| 0 <= i < c.markets.len() ==> #[trigger] c.markets[i].id == i
}

/// A created market is found at the id that creation returned, with an empty
/// pool that carries that id, and the markets before it are left as they were.
pub proof fn law_created_market_is_found(
    c: ContractState,
    outcomes: u16,
    token_id: Seq<char>,
    fee: u128,
    current: Seq<char>,
)
    requires
        create_market_result(c, outcomes, token_id, fee, current) is Ok,
        c.markets.len() < u64::MAX,
    ensures
        ({
            let s = create_market_result(c, outcomes, token_id, fee, current)->Ok_0;
            let id = c.markets.len() as u64;
            &&& entries_map(c.whitelist).contains_key(token_id)
            &&& s.markets.len() == c.markets.len() + 1
            &&& s.markets[id as int].id == id
            &&& s.markets[id as int].token_id == token_id
            &&& s.markets[id as int].outcomes == outcomes
            &&& s.markets[id as int].fee == fee
            &&& s.markets[id as int].deno == pow10(entries_map(c.whitelist)[token_id] as nat)
            &&& s.markets[id as int].tokens.len() == 0
            &&& forall|i: int| 0 <= i < c.markets.len() ==> #[trigger] s.markets[i] == c.markets[i]
        }),
{
    lemma_pow10_fits(entries_map(c.whitelist)[token_id] as nat);
}

/// Creating a market keeps every market's pool carrying the market's id.
pub proof fn law_create_market_keeps_markets_indexed(
    c: ContractState,
    outcomes: u16,
    token_id: Seq<char>,
    fee: u128,
    current: Seq<char>,
)
    requires
        markets_indexed(c),
        c.markets.len() < u64::MAX,
        create_market_result(c, outcomes, token_id, fee, current) is Ok,
    ensures
        markets_indexed(create_market_result(c, outcomes, token_id, fee, current)->Ok_0),
{
    let s = create_market_result(c, outcomes, token_id, fee, current)->Ok_0;
    assert forall|i: int| 0 <= i < s.markets.len() implies #[trigger] s.markets[i].id == i by {
        if i < c.markets.len() {
            assert(s.markets[i] == c.markets[i]);
        }
    }
}

impl AMMContract {
    /// Creates a market as `pay` describes, with an empty pool, and returns
    /// its id, the number of markets before it.
    pub fn create_market(&mut self, pay: &CreateMarketArgs, current: &String) -> (res: Result<u64, AmmError>)
        ensures
            match create_market_result(old(self)@, pay.outcomes, pay.token_id@, pay.fee, current@) {
                Ok(s) => res == Ok::<u64, AmmError>(old(self)@.markets.len() as u64) && final(self)@ == s,
                Err(e) => res == Err::<u64, AmmError>(e) && final(self)@ == old(self)@,
            },
    {
        let fee = pay.fee;
        let id = self.markets.len() as u64;
        let decimals = match self.whitelist.0.get(&pay.token_id) {
            Some(d) => d,
            None => {
                return Err(AmmError::TokenNotWhitelisted);
            },
        };
        if decimals > 38 {
            return Err(AmmError::ArithmeticOverflow);
        }
        let pool = new_pool(id, pay.outcomes, pay.token_id.clone(), decimals, fee, current);
        let ghost c0 = self@;
        let market = Market { pool };
        self.markets.push(market);
        assert(self@.markets =~= c0.markets.push(
            new_pool_state(id, pay.token_id@, decimals, pay.outcomes, fee, current@),
        ));
        Ok(id)
    }

    /// Creates the market that `payload` describes for the bond `bound_in`
    /// that `sender` paid in `predecessor`, the token contract that made the
    /// call, and returns the call that continues once the oracle answers.
    pub fn create_market_callback(
        &mut self,
        sender: &String,
        bound_in: u128,
        payload: &CreateMarketArgs,
        predecessor: &String,
        current: &String,
    ) -> (res: Result<ProceedCall, AmmError>)
        ensures
            match create_market_result(old(self)@, payload.outcomes, payload.token_id@, payload.fee, current@) {
                Ok(s) => res is Ok && final(self)@ == s && ({
                    let call = res.unwrap();
                    &&& call.sender@ == sender@
                    &&& call.bond_token@ == predecessor@
                    &&& call.bond_in == bound_in
                    &&& call.market_id == old(self)@.markets.len() as u64
                    &&& call.gas == GAS_PROCEED
                }),
                Err(e) => res == Err::<ProceedCall, AmmError>(e) && final(self)@ == old(self)@,
            },
    {
        match self.create_market(payload, current) {
            Ok(id) => Ok(ProceedCall {
                sender: sender.clone(),
                bond_token: predecessor.clone(),
                bond_in: bound_in,
                market_id: id,
                gas: GAS_PROCEED,
            }),
            Err(e) => Err(e),
        }
    }

    /// After the oracle answered with `config`: of the bond `bond_in` that
    /// `sender` paid in `bond_token`, the validity bound pays for the data
    /// request of market `market_id` and the rest goes back to `sender`.
    pub fn proceed_datarequest_creation(
        &self,
        sender: &String,
        bond_token: &String,
        bond_in: u128,
        market_id: u64,
        market_args: &CreateMarketArgs,
        config: &Config,
        current: &String,
    ) -> (res: Result<DataRequestPlan, AmmError>)
        ensures
            bond_in < config.validity_bound ==> res == Err::<DataRequestPlan, AmmError>(
                AmmError::ArithmeticOverflow,
            ),
            bond_in >= config.validity_bound ==> res is Ok && ({
                let plan = res.unwrap();
                &&& plan.request.token@ == bond_token@
                &&& plan.request.receiver@ == self.receiver@
                &&& plan.request.amount == config.validity_bound
                &&& plan.request.challenge_period == market_args.challenge_period
                &&& plan.request.target_contract@ == current@
                &&& plan.request.tags@.map_values(|t: String| t@) == seq![decimal(market_id as nat)]
                &&& plan.request.gas == GAS_BASE_TRANSFER
                &&& plan.refund_token@ == bond_token@
                &&& plan.refund_receiver@ == sender@
                &&& plan.refund_amount == bond_in - config.validity_bound
            }),
    {
        let vb = config.validity_bound;
        if bond_in < vb {
            return Err(AmmError::ArithmeticOverflow);
        }
        let rb = bond_in - vb;
        let mut tags: Vec<String> = Vec::new();
        tags.push(decimal_string(market_id));
        assert(tags@.map_values(|t: String| t@) =~= seq![decimal(market_id as nat)]);
        let request = self.create_data_request(
            bond_token,
            vb,
            DataRequestArgs { tags, challenge_period: market_args.challenge_period },
            current,
        );
        Ok(DataRequestPlan {
            request,
            refund_token: bond_token.clone(),
            refund_receiver: sender.clone(),
            refund_amount: rb,
        })
    }
}

} // verus!
