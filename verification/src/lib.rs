//! An automated market maker for prediction markets: fixed-point math,
//! outcome-token ledgers, liquidity pools, market registry, storage
//! accounting and the token whitelist, each with its contract proved.

pub mod account_map;
pub mod data;
pub mod error;
pub mod market;
pub mod market_creation;
pub mod math;
pub mod outcome_map;
pub mod outcome_token;
pub mod pool;
pub mod pool_factory;
pub mod storage_manager;
pub mod token_receiver;
pub mod utils;
pub mod whitelist;

use vstd::prelude::*;
use crate::account_map::AccountMap;
use crate::market::Market;
use crate::pool::PoolState;
use crate::storage_manager::AccountStorageBalance;
use crate::whitelist::{whitelist_entries, Token, Whitelist};

verus! {

/// The state of the contract: where data requests go, who governs, the
/// markets, the token whitelist and the storage accounts.
pub struct AMMContract {
    pub receiver: String,
    pub gov: String,
    pub markets: Vec<Market>,
    pub whitelist: Whitelist,
    pub accounts: AccountMap<AccountStorageBalance>,
}

/// The state of the contract as values.
pub struct ContractState {
    pub receiver: Seq<char>,
    pub gov: Seq<char>,
    pub markets: Seq<PoolState>,
    pub whitelist: Seq<(Seq<char>, u32)>,
    pub accounts: Map<Seq<char>, AccountStorageBalance>,
}

impl View for AMMContract {
    type V = ContractState;

    open spec fn view(&self) -> ContractState {
        ContractState {
            receiver: self.receiver@,
            gov: self.gov@,
            markets: self.markets@.map_values(|m: Market| m@),
            whitelist: self.whitelist.0.entries(),
            accounts: self.accounts@,
        }
    }
}

impl AMMContract {
    /// A contract with no markets and no storage accounts, governed by `gov`,
    /// sending data requests to `receiver`, with `tokens` whitelisted.
    pub fn init(gov: String, tokens: Vec<Token>, receiver: String) -> (res: Self)
        ensures
            res@ == (ContractState {
                receiver: receiver@,
                gov: gov@,
                markets: Seq::empty(),
                whitelist: whitelist_entries(tokens@.map_values(|t: Token| t.entry())),
                accounts: Map::empty(),
            }),
    {
        let list = Whitelist::new(tokens);
        let res = Self { receiver, gov, markets: Vec::new(), whitelist: list, accounts: AccountMap::new() };
        assert(res@.markets =~= Seq::<PoolState>::empty());
        res
    }
}

} // verus!
