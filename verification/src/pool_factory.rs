//! Building pools for new markets.

use vstd::prelude::*;
use crate::pool::{pow10, Pool};
use crate::outcome_token::TokenState;

verus! {

/// A new empty pool for market `pool_id`; see `Pool::new`.
pub fn new_pool(pool_id: u64, outcomes: u16, token_id: String, decimals: u32, fee: u128, current: &String) -> (res: Pool)
    requires
        decimals <= 38,
    ensures
        res@.id == pool_id,
        res@.token_id == token_id@,
        res@.deno == pow10(decimals as nat),
        res@.outcomes == outcomes,
        res@.tokens == Seq::<(u16, TokenState)>::empty(),
        res@.pool_token.balances == Map::<Seq<char>, u128>::empty().insert(current@, 0),
        res@.pool_token.total_supply == 0,
        res@.pool_token.pool_id == pool_id,
        res@.pool_token.outcome_id == outcomes,
        res@.fee == fee,
{
    Pool::new(pool_id, token_id, decimals, outcomes, fee, current)
}

} // verus!
