//! Collateral arriving with a message: a purchase, or the creation of a market.

use vstd::prelude::*;
use crate::error::AmmError;
use crate::account_map::entries_map;
use crate::market::{law_contract_buy_credits_target, market_buy_result};
use crate::outcome_map::outcomes_distinct;
use crate::pool::{calc_buy_amount_result, lemma_pow10_fits, pow10};
use crate::market_creation::{create_market_result, ProceedCall, GAS_PROCEED};
use crate::{AMMContract, ContractState};

verus! {

/// What a market is created with.
#[derive(Debug)]
pub struct CreateMarketArgs {
    pub outcomes: u16,
    pub challenge_period: u64,
    pub token_id: String,
    pub fee: u128,
}

/// What a purchase asks for.
#[derive(Debug, Clone, Copy, PartialEq, Eq, Structural)]
pub struct BuyArgs {
    pub market_id: u64,
    pub outcome_target: u16,
    pub min_shares_out: u128,
}

/// The message that comes with a transfer of collateral.
#[derive(Debug)]
pub enum Payload {
    BuyArgs(BuyArgs),
    CreateMarketArgs(CreateMarketArgs),
}

/// What the contract does once the transferred collateral is accounted for.
#[derive(Debug, PartialEq, Eq)]
pub enum TransferAction {
    /// Answer the sender's token contract that this many tokens are returned.
    Value(u128),
    /// A market was created; this call continues its creation once the
    /// oracle answers.
    MarketCreated(ProceedCall),
}

/// The state after receiving `amount` collateral from `sender` with message
/// `payload`, or why it is refused.
pub open spec fn on_transfer_result(
    c: ContractState,
    sender: Seq<char>,
    amount: u128,
    payload: Payload,
    current: Seq<char>,
) -> Result<ContractState, AmmError> {
    if amount == 0 {
        Err(AmmError::ZeroAmount)
    } else {
        match payload {
            Payload::BuyArgs(b) => market_buy_result(
                c,
                sender,
                amount,
                b.market_id,
                b.outcome_target,
                b.min_shares_out,
                current,
            ),
            Payload::CreateMarketArgs(p) => create_market_result(c, p.outcomes, p.token_id@, p.fee, current),
        }
    }
}

/// Collateral sent with a purchase message buys the outcome that the message
/// names, on the market it names: the buyer is credited on that outcome's
/// token exactly the shares that `calc_buy_amount` quotes for it, and on no
/// other outcome.
pub proof fn law_transfer_buys_requested_outcome(
    c: ContractState,
    sender: Seq<char>,
    amount: u128,
    b: BuyArgs,
    current: Seq<char>,
)
    requires
        b.market_id < c.markets.len(),
        outcomes_distinct(c.markets[b.market_id as int].tokens),
        sender != current,
        on_transfer_result(c, sender, amount, Payload::BuyArgs(b), current) is Ok,
    ensures
        ({
            let p = c.markets[b.market_id as int];
            let s = on_transfer_result(c, sender, amount, Payload::BuyArgs(b), current)->Ok_0;
            let t = s.markets[b.market_id as int].tokens;
            let shares = calc_buy_amount_result(p, amount, b.outcome_target, current)->Ok_0;
            &&& amount > 0
            &&& calc_buy_amount_result(p, amount, b.outcome_target, current) is Ok
            &&& t.len() == p.tokens.len()
            &&& forall|i: int| 0 <= i < t.len() ==> #[trigger] t[i].0 == p.tokens[i].0
            &&& forall|i: int|
                0 <= i < t.len() ==> #[trigger] t[i].1.balance(sender) == p.tokens[i].1.balance(sender)
                    + (if p.tokens[i].0 == b.outcome_target { shares } else { 0 })
        }),
{
    law_contract_buy_credits_target(
        c,
        sender,
        amount,
        b.market_id,
        b.outcome_target,
        b.min_shares_out,
        current,
    );
}

/// Collateral sent with a market-creation message creates, at the next id, a
/// market with the outcomes, collateral token and fee that the message asks
/// for, priced in the whitelisted decimals of that token, with no outcome
/// tokens yet; the markets before it are left as they were.
pub proof fn law_transfer_creates_requested_market(
    c: ContractState,
    sender: Seq<char>,
    amount: u128,
    args: CreateMarketArgs,
    current: Seq<char>,
)
    requires
        c.markets.len() < u64::MAX,
        on_transfer_result(c, sender, amount, Payload::CreateMarketArgs(args), current) is Ok,
    ensures
        ({
            let s = on_transfer_result(c, sender, amount, Payload::CreateMarketArgs(args), current)->Ok_0;
            let n = c.markets.len() as int;
            &&& amount > 0
            &&& entries_map(c.whitelist).contains_key(args.token_id@)
            &&& s.markets.len() == n + 1
            &&& s.markets[n].id == n
            &&& s.markets[n].fee == args.fee
            &&& s.markets[n].outcomes == args.outcomes
            &&& s.markets[n].token_id == args.token_id@
            &&& s.markets[n].deno == pow10(entries_map(c.whitelist)[args.token_id@] as nat)
            &&& s.markets[n].tokens.len() == 0
            &&& forall|i: int| 0 <= i < n ==> #[trigger] s.markets[i] == c.markets[i]
        }),
{
    lemma_pow10_fits(entries_map(c.whitelist)[args.token_id@] as nat);
}

/// A contract that accepts collateral transfers that carry a message.
pub trait TokenReceiver {
    /// Accounts for `amount` collateral that `sender_id` transferred with the
    /// message `payload`; `predecessor` is the token contract that made the
    /// call and `current` the contract account.
    fn on_transfer(
        &mut self,
        sender_id: &String,
        amount: u128,
        payload: Payload,
        predecessor: &String,
        current: &String,
    ) -> Result<TransferAction, AmmError>;
}

impl TokenReceiver for AMMContract {
    fn on_transfer(
        &mut self,
        sender_id: &String,
        amount: u128,
        payload: Payload,
        predecessor: &String,
        current: &String,
    ) -> (res: Result<TransferAction, AmmError>)
        ensures
            match on_transfer_result(old(self)@, sender_id@, amount, payload, current@) {
                Ok(s) => final(self)@ == s && match payload {
                    Payload::BuyArgs(_) => res == Ok::<TransferAction, AmmError>(TransferAction::Value(0)),
                    Payload::CreateMarketArgs(_) => res matches Ok(TransferAction::MarketCreated(call)) && {
                        &&& call.sender@ == sender_id@
                        &&& call.bond_token@ == predecessor@
                        &&& call.bond_in == amount
                        &&& call.market_id == old(self)@.markets.len() as u64
                        &&& call.gas == GAS_PROCEED
                    },
                },
                Err(e) => res == Err::<TransferAction, AmmError>(e) && final(self)@ == old(self)@,
            },
    {
        if amount == 0 {
            return Err(AmmError::ZeroAmount);
        }
        match payload {
            Payload::BuyArgs(pay) => match self.buy(sender_id, amount, &pay, current) {
                Ok(()) => Ok(TransferAction::Value(0)),
                Err(e) => Err(e),
            },
            Payload::CreateMarketArgs(pay) => match self.create_market_callback(
                sender_id,
                amount,
                &pay,
                predecessor,
                current,
            ) {
                Ok(call) => Ok(TransferAction::MarketCreated(call)),
                Err(e) => Err(e),
            },
        }
    }
}

} // verus!
