//! A liquidity pool: one share token per outcome plus a liquidity token, the
//! pricing of trades against the pool, and the trades themselves.

use vstd::prelude::*;
use vstd::arithmetic::div_mod::lemma_fundamental_div_mod_converse;
use crate::error::AmmError;
use crate::math::{
    checked_div_u128, checked_mul, checked_mul_u128, mul_u128, div_u128_defined, div_u128_value, mul_defined,
    mul_u128_defined, mul_u128_value, mul_value, law_div_u128_of_zero, lemma_div_u128_fits,
};
use crate::outcome_map::{
    find_outcome, has_outcome, lemma_find_outcome_unique, lemma_find_outcome_update, outcomes_distinct,
    OutcomeTokens,
};
use crate::outcome_token::{law_mint_then_burn_restores, law_transfer_conserves, OutComeToken, TokenState};

verus! {

/// `10` to the power `n`.
pub open spec fn pow10(n: nat) -> nat
    decreases n,
{
    if n == 0 {
        1
    } else {
        10 * pow10((n - 1) as nat)
    }
}

proof fn lemma_pow10_monotone(m: nat, n: nat)
    requires
        m <= n,
    ensures
        pow10(m) <= pow10(n),
    decreases n - m,
{
    if m < n {
        lemma_pow10_monotone(m, (n - 1) as nat);
    }
}

proof fn lemma_pow10_38()
    ensures
        pow10(38) == 100_000_000_000_000_000_000_000_000_000_000_000_000int,
        pow10(38) <= u128::MAX,
{
    reveal_with_fuel(pow10, 39);
}

/// Up to `10^38`, a power of ten fits in a `u128`.
pub proof fn lemma_pow10_fits(n: nat)
    ensures
        n <= 38 ==> pow10(n) <= u128::MAX,
{
    if n <= 38 {
        lemma_pow10_monotone(n, 38);
        lemma_pow10_38();
    }
}

/// `10^decimals`, the number of base units in one whole collateral token.
fn ten_to_the(decimals: u32) -> (res: u128)
    requires
        decimals <= 38,
    ensures
        res == pow10(decimals as nat),
{
    let mut res: u128 = 1;
    let mut i: u32 = 0;
    while i < decimals
        invariant
            i <= decimals <= 38,
            res == pow10(i as nat),
        decreases decimals - i,
    {
        proof {
            lemma_pow10_monotone((i + 1) as nat, 38);
            lemma_pow10_38();
        }
        res = res * 10;
        i = i + 1;
    }
    res
}

/// The state of a pool.
pub struct PoolState {
    pub id: u64,
    pub token_id: Seq<char>,
    pub deno: u128,
    pub outcomes: u16,
    pub tokens: Seq<(u16, TokenState)>,
    pub pool_token: TokenState,
    pub fee: u128,
}

impl PoolState {
    /// The same pool with `tokens` as its outcome tokens.
    pub open spec fn with_tokens(self, tokens: Seq<(u16, TokenState)>) -> PoolState {
        PoolState { tokens, ..self }
    }
}

/// The balance that `current` holds of each outcome token, in the pool's order.
pub open spec fn outcome_balances(tokens: Seq<(u16, TokenState)>, current: Seq<char>) -> Seq<
    (u16, u128),
> {
    tokens.map_values(|e: (u16, TokenState)| (e.0, e.1.balance(current)))
}

/// One step of the pricing walk: every outcome other than `out` scales the
/// running amount `new` by `balance / (balance + fees)`, in fixed point.
pub open spec fn weigh_step(deno: u128, fees: u128, out: u16, new: u128, e: (u16, u128)) -> Option<
    u128,
> {
    if e.0 == out {
        Some(new)
    } else if !mul_u128_defined(deno, new, e.1) {
        None
    } else if e.1 + fees > u128::MAX {
        None
    } else {
        let dividend = mul_u128_value(deno, new, e.1) as u128;
        let divisor = (e.1 + fees) as u128;
        if div_u128_defined(deno, dividend, divisor) {
            Some(div_u128_value(deno, dividend, divisor) as u128)
        } else {
            None
        }
    }
}

/// The pricing walk over the outcome balances `s`, in order, starting from
/// `start`; `None` when a step overflows or divides by zero.
pub open spec fn weigh(deno: u128, fees: u128, out: u16, start: u128, s: Seq<(u16, u128)>) -> Option<
    u128,
>
    decreases s.len(),
{
    if s.len() == 0 {
        Some(start)
    } else {
        match weigh(deno, fees, out, start, s.drop_last()) {
            Some(new) => weigh_step(deno, fees, out, new, s.last()),
            None => None,
        }
    }
}

proof fn lemma_weigh_fails_forward(deno: u128, fees: u128, out: u16, start: u128, s: Seq<(u16, u128)>, k: int)
    requires
        0 <= k <= s.len(),
        weigh(deno, fees, out, start, s.take(k)) is None,
    ensures
        weigh(deno, fees, out, start, s) is None,
    decreases s.len() - k,
{
    if k == s.len() {
        assert(s.take(k) =~= s);
    } else {
        assert(s.take(k + 1).drop_last() =~= s.take(k));
        lemma_weigh_fails_forward(deno, fees, out, start, s, k + 1);
    }
}

/// The amount left of `tin` once the pool fee is taken, when buying.
pub open spec fn buy_fees(p: PoolState, tin: u128) -> Option<u128> {
    if mul_u128_defined(p.deno, tin, p.fee) && mul_u128_value(p.deno, tin, p.fee) <= tin {
        Some((tin - mul_u128_value(p.deno, tin, p.fee)) as u128)
    } else {
        None
    }
}

/// The amount left of `tin` once the pool fee is taken, when selling.
pub open spec fn sell_fees(p: PoolState, tin: u128) -> Option<u128> {
    if div_u128_defined(p.deno, tin, p.fee) && div_u128_value(p.deno, tin, p.fee) <= tin {
        Some((tin - div_u128_value(p.deno, tin, p.fee)) as u128)
    } else {
        None
    }
}

/// The shares of outcome `out` that `tin` collateral buys.
pub open spec fn calc_buy_amount_result(p: PoolState, tin: u128, out: u16, current: Seq<char>) -> Result<
    u128,
    AmmError,
> {
    match buy_fees(p, tin) {
        None => Err(AmmError::ArithmeticOverflow),
        Some(fees) => match find_outcome(p.tokens, out) {
            None => Err(AmmError::MissingOutcomeToken),
            Some(i) => {
                let balance = p.tokens[i].1.balance(current);
                match weigh(p.deno, fees, out, balance, outcome_balances(p.tokens, current)) {
                    None => Err(AmmError::ArithmeticOverflow),
                    Some(new) => if balance + fees <= u128::MAX && new <= balance + fees {
                        Ok((balance + fees - new) as u128)
                    } else {
                        Err(AmmError::ArithmeticOverflow)
                    },
                }
            },
        },
    }
}

/// The amount that selling for `tin` collateral of outcome `out` prices at.
pub open spec fn calc_sell_out_result(p: PoolState, tin: u128, out: u16, current: Seq<char>) -> Result<
    u128,
    AmmError,
> {
    match sell_fees(p, tin) {
        None => Err(AmmError::ArithmeticOverflow),
        Some(fees) => match find_outcome(p.tokens, out) {
            None => Err(AmmError::MissingOutcomeToken),
            Some(i) => {
                let balance = p.tokens[i].1.balance(current);
                match weigh(p.deno, fees, out, balance, outcome_balances(p.tokens, current)) {
                    None => Err(AmmError::ArithmeticOverflow),
                    Some(new) => if balance + new <= u128::MAX {
                        Ok(new)
                    } else {
                        Err(AmmError::ArithmeticOverflow)
                    },
                }
            },
        },
    }
}

/// Mints (`mint`) or burns (`!mint`) `amount` shares of a token for `current`.
pub open spec fn apply_token(t: TokenState, amount: u128, current: Seq<char>, mint: bool) -> Option<TokenState> {
    if mint {
        t.minted(current, amount)
    } else {
        t.burned(current, amount)
    }
}

/// Mints (`mint`) or burns (`!mint`) `amount` shares of outcome `k` for `current`.
pub open spec fn apply_outcome(
    tokens: Seq<(u16, TokenState)>,
    k: u16,
    amount: u128,
    current: Seq<char>,
    mint: bool,
) -> Result<Seq<(u16, TokenState)>, AmmError> {
    match find_outcome(tokens, k) {
        None => Err(AmmError::MissingOutcomeToken),
        Some(i) => {
            match apply_token(tokens[i].1, amount, current, mint) {
                None => Err(AmmError::ArithmeticOverflow),
                Some(t) => Ok(tokens.update(i, (k, t))),
            }
        },
    }
}

/// Mints or burns `amount` shares of each of the outcomes `0 .. count`, in order.
pub open spec fn apply_outcomes(
    tokens: Seq<(u16, TokenState)>,
    count: nat,
    amount: u128,
    current: Seq<char>,
    mint: bool,
) -> Result<Seq<(u16, TokenState)>, AmmError>
    decreases count,
{
    if count == 0 {
        Ok(tokens)
    } else {
        match apply_outcomes(tokens, (count - 1) as nat, amount, current, mint) {
            Err(e) => Err(e),
            Ok(t) => apply_outcome(t, (count - 1) as u16, amount, current, mint),
        }
    }
}

proof fn lemma_apply_outcomes_fails_forward(
    tokens: Seq<(u16, TokenState)>,
    k: nat,
    n: nat,
    amount: u128,
    current: Seq<char>,
    mint: bool,
)
    requires
        k <= n,
        apply_outcomes(tokens, k, amount, current, mint) is Err,
    ensures
        apply_outcomes(tokens, n, amount, current, mint) == apply_outcomes(
            tokens,
            k,
            amount,
            current,
            mint,
        ),
    decreases n - k,
{
    if k < n {
        lemma_apply_outcomes_fails_forward(tokens, k, (n - 1) as nat, amount, current, mint);
    }
}

/// Minting or burning on each outcome `0 .. count` succeeds exactly on
/// tokens that have all those outcomes, and changes each token of an outcome
/// below `count` by one mint or burn and no other token.
proof fn lemma_apply_outcomes_each(
    tokens: Seq<(u16, TokenState)>,
    count: nat,
    amount: u128,
    current: Seq<char>,
    mint: bool,
)
    requires
        outcomes_distinct(tokens),
        count <= 0x1_0000,
        apply_outcomes(tokens, count, amount, current, mint) is Ok,
    ensures
        ({
            let t = apply_outcomes(tokens, count, amount, current, mint)->Ok_0;
            &&& t.len() == tokens.len()
            &&& outcomes_distinct(t)
            &&& forall|k: u16| k < count ==> #[trigger] has_outcome(tokens, k)
            &&& forall|i: int| 0 <= i < t.len() ==> #[trigger] t[i].0 == tokens[i].0
            &&& forall|i: int|
                0 <= i < t.len() && tokens[i].0 < count ==> apply_token(
                    tokens[i].1,
                    amount,
                    current,
                    mint,
                ) == Some(#[trigger] t[i].1)
            &&& forall|i: int| 0 <= i < t.len() && tokens[i].0 >= count ==> #[trigger] t[i].1 == tokens[i].1
        }),
    decreases count,
{
    if count > 0 {
        let c1 = (count - 1) as nat;
        lemma_apply_outcomes_each(tokens, c1, amount, current, mint);
        let t1 = apply_outcomes(tokens, c1, amount, current, mint)->Ok_0;
        let k = c1 as u16;
        let j = find_outcome(t1, k)->Some_0;
        lemma_find_outcome_unique(t1, k, j);
        let t = apply_outcomes(tokens, count, amount, current, mint)->Ok_0;
        lemma_find_outcome_update(t1, j, t[j].1, 0);
        assert(t1[j].0 == tokens[j].0);
        assert(has_outcome(tokens, k));
        assert forall|kk: u16| kk < count implies #[trigger] has_outcome(tokens, kk) by {
            if kk < c1 {
                assert(has_outcome(tokens, kk));
            }
        }
        assert forall|i: int| 0 <= i < t.len() && tokens[i].0 < count implies apply_token(
            tokens[i].1,
            amount,
            current,
            mint,
        ) == Some(#[trigger] t[i].1) by {
            if i != j {
                assert(t1[i].0 != k);
            }
        }
        assert forall|i: int| 0 <= i < t.len() && tokens[i].0 >= count implies #[trigger] t[i].1
            == tokens[i].1 by {
            if i != j {
                assert(t1[i].0 != k);
            }
        }
    }
}

/// Minting or burning on each outcome `0 .. count` succeeds when every one of
/// those outcomes has a token and each of those tokens can take the change.
proof fn lemma_apply_outcomes_succeeds(
    tokens: Seq<(u16, TokenState)>,
    count: nat,
    amount: u128,
    current: Seq<char>,
    mint: bool,
)
    requires
        outcomes_distinct(tokens),
        count <= 0x1_0000,
        forall|k: u16| k < count ==> #[trigger] has_outcome(tokens, k),
        forall|i: int|
            0 <= i < tokens.len() && tokens[i].0 < count ==> (#[trigger] apply_token(
                tokens[i].1,
                amount,
                current,
                mint,
            )) is Some,
    ensures
        apply_outcomes(tokens, count, amount, current, mint) is Ok,
    decreases count,
{
    if count > 0 {
        let c1 = (count - 1) as nat;
        assert forall|k: u16| k < c1 implies #[trigger] has_outcome(tokens, k) by {
            assert(has_outcome(tokens, k));
        }
        lemma_apply_outcomes_succeeds(tokens, c1, amount, current, mint);
        lemma_apply_outcomes_each(tokens, c1, amount, current, mint);
        let t1 = apply_outcomes(tokens, c1, amount, current, mint)->Ok_0;
        let k = c1 as u16;
        assert(has_outcome(tokens, k));
        let j = choose|j: int| 0 <= j < tokens.len() && #[trigger] tokens[j].0 == k;
        assert(t1[j].0 == k);
        lemma_find_outcome_unique(t1, k, j);
        assert(apply_token(tokens[j].1, amount, current, mint) is Some);
    }
}

/// Removing from the pools what was just added to them gives every outcome
/// token back its supply and every account its balance.
pub proof fn law_add_then_remove_restores(
    tokens: Seq<(u16, TokenState)>,
    count: nat,
    amount: u128,
    current: Seq<char>,
)
    requires
        outcomes_distinct(tokens),
        count <= 0x1_0000,
        apply_outcomes(tokens, count, amount, current, true) is Ok,
    ensures
        ({
            let t1 = apply_outcomes(tokens, count, amount, current, true)->Ok_0;
            apply_outcomes(t1, count, amount, current, false) is Ok
        }),
        ({
            let t1 = apply_outcomes(tokens, count, amount, current, true)->Ok_0;
            let t2 = apply_outcomes(t1, count, amount, current, false)->Ok_0;
            &&& t2.len() == tokens.len()
            &&& forall|i: int| 0 <= i < t2.len() ==> #[trigger] t2[i].0 == tokens[i].0
            &&& forall|i: int| 0 <= i < t2.len() ==> #[trigger] t2[i].1.total_supply == tokens[i].1.total_supply
            &&& forall|i: int| 0 <= i < t2.len() ==> #[trigger] t2[i].1.pool_id == tokens[i].1.pool_id
            &&& forall|i: int| 0 <= i < t2.len() ==> #[trigger] t2[i].1.outcome_id == tokens[i].1.outcome_id
            &&& forall|i: int, who: Seq<char>|
                0 <= i < t2.len() ==> #[trigger] t2[i].1.balance(who) == tokens[i].1.balance(who)
        }),
{
    lemma_apply_outcomes_each(tokens, count, amount, current, true);
    let t1 = apply_outcomes(tokens, count, amount, current, true)->Ok_0;
    assert forall|k: u16| k < count implies #[trigger] has_outcome(t1, k) by {
        assert(has_outcome(tokens, k));
        let j = choose|j: int| 0 <= j < tokens.len() && #[trigger] tokens[j].0 == k;
        assert(t1[j].0 == k);
    }
    assert forall|i: int| 0 <= i < t1.len() && t1[i].0 < count implies (#[trigger] apply_token(
        t1[i].1,
        amount,
        current,
        false,
    )) is Some by {
        law_mint_then_burn_restores(tokens[i].1, current, amount);
    }
    lemma_apply_outcomes_succeeds(t1, count, amount, current, false);
    lemma_apply_outcomes_each(t1, count, amount, current, false);
    let t2 = apply_outcomes(t1, count, amount, current, false)->Ok_0;
    assert forall|i: int| 0 <= i < t2.len() implies {
        &&& t2[i].1.total_supply == tokens[i].1.total_supply
        &&& t2[i].1.pool_id == tokens[i].1.pool_id
        &&& t2[i].1.outcome_id == tokens[i].1.outcome_id
        &&& forall|who: Seq<char>| #[trigger] t2[i].1.balance(who) == tokens[i].1.balance(who)
    } by {
        assert(t1[i].0 == tokens[i].0);
        if tokens[i].0 < count {
            assert(apply_token(tokens[i].1, amount, current, true) == Some(t1[i].1));
            assert(apply_token(t1[i].1, amount, current, false) == Some(t2[i].1));
            law_mint_then_burn_restores(tokens[i].1, current, amount);
        } else {
            assert(t1[i].1 == tokens[i].1);
            assert(t2[i].1 == t1[i].1);
        }
    }
    assert forall|i: int, who: Seq<char>| 0 <= i < t2.len() implies #[trigger] t2[i].1.balance(who)
        == tokens[i].1.balance(who) by {
        assert(t1[i].0 == tokens[i].0);
        if tokens[i].0 < count {
            assert(apply_token(tokens[i].1, amount, current, true) == Some(t1[i].1));
            law_mint_then_burn_restores(tokens[i].1, current, amount);
        }
    }
}

/// The supply that outcome `k` has after minting (`mint`) or burning
/// `amount` on each of the outcomes `0 .. count`.
pub open spec fn supply_after(supply: u128, k: u16, count: nat, amount: u128, mint: bool) -> int {
    if k < count {
        if mint {
            supply + amount
        } else {
            supply - amount
        }
    } else {
        supply as int
    }
}

proof fn lemma_apply_outcomes_supplies(
    tokens: Seq<(u16, TokenState)>,
    count: nat,
    amount: u128,
    current: Seq<char>,
    mint: bool,
)
    requires
        outcomes_distinct(tokens),
        count <= 0x1_0000,
        apply_outcomes(tokens, count, amount, current, mint) is Ok,
    ensures
        ({
            let t = apply_outcomes(tokens, count, amount, current, mint)->Ok_0;
            &&& t.len() == tokens.len()
            &&& outcomes_distinct(t)
            &&& forall|i: int| 0 <= i < t.len() ==> #[trigger] t[i].0 == tokens[i].0
            &&& forall|i: int|
                0 <= i < t.len() ==> #[trigger] t[i].1.total_supply == supply_after(
                    tokens[i].1.total_supply,
                    tokens[i].0,
                    count,
                    amount,
                    mint,
                )
            &&& forall|i: int, who: Seq<char>|
                0 <= i < t.len() && who != current ==> #[trigger] t[i].1.balance(who)
                    == tokens[i].1.balance(who)
        }),
    decreases count,
{
    if count > 0 {
        let c1 = (count - 1) as nat;
        lemma_apply_outcomes_supplies(tokens, c1, amount, current, mint);
        let t1 = apply_outcomes(tokens, c1, amount, current, mint)->Ok_0;
        let k = c1 as u16;
        let j = find_outcome(t1, k)->Some_0;
        lemma_find_outcome_unique(t1, k, j);
        let t = apply_outcomes(tokens, count, amount, current, mint)->Ok_0;
        assert forall|i: int| 0 <= i < t.len() implies #[trigger] t[i].1.total_supply == supply_after(
            tokens[i].1.total_supply,
            tokens[i].0,
            count,
            amount,
            mint,
        ) by {
            if i != j {
                assert(t1[i].0 != k);
            }
        }
        assert forall|a: int, b: int| 0 <= a < t.len() && 0 <= b < t.len() && a != b implies t[a].0
            != t[b].0 by {
            assert(t[a].0 == t1[a].0 && t[b].0 == t1[b].0);
        }
        assert forall|i: int, who: Seq<char>|
            0 <= i < t.len() && who != current implies #[trigger] t[i].1.balance(who)
                == tokens[i].1.balance(who) by {
            assert(t1[i].1.balance(who) == tokens[i].1.balance(who));
        }
    }
}

/// A purchase mints the same amount (the collateral less the fee) into the
/// supply of every outcome token `0 .. outcomes`, leaves the supply of any
/// other outcome token as it was, and keeps each token in its place.
pub proof fn law_buy_mints_into_every_outcome(
    p: PoolState,
    sender: Seq<char>,
    amount_in: u128,
    target: u16,
    min_shares_out: u128,
    current: Seq<char>,
)
    requires
        outcomes_distinct(p.tokens),
        buy_result(p, sender, amount_in, target, min_shares_out, current) is Ok,
    ensures
        ({
            let t = buy_result(p, sender, amount_in, target, min_shares_out, current)->Ok_0;
            let mint = (amount_in - mul_u128_value(p.deno, amount_in, p.fee)) as u128;
            &&& t.len() == p.tokens.len()
            &&& forall|i: int| 0 <= i < t.len() ==> #[trigger] t[i].0 == p.tokens[i].0
            &&& forall|i: int|
                0 <= i < t.len() ==> #[trigger] t[i].1.total_supply == supply_after(
                    p.tokens[i].1.total_supply,
                    p.tokens[i].0,
                    p.outcomes as nat,
                    mint,
                    true,
                )
        }),
{
    let fee = mul_u128_value(p.deno, amount_in, p.fee) as u128;
    let mint = (amount_in - fee) as u128;
    lemma_apply_outcomes_supplies(p.tokens, p.outcomes as nat, mint, current, true);
}

/// A sale burns the same amount (the collateral plus the fee) from the supply
/// of every outcome token `0 .. outcomes`, leaves the supply of any other
/// outcome token as it was, and keeps each token in its place.
pub proof fn law_sell_burns_from_every_outcome(
    p: PoolState,
    sender: Seq<char>,
    amount_out: u128,
    target: u16,
    max_shares_in: u128,
    current: Seq<char>,
    predecessor: Seq<char>,
)
    requires
        outcomes_distinct(p.tokens),
        sell_result(p, sender, amount_out, target, max_shares_in, current, predecessor) is Ok,
    ensures
        ({
            let t = sell_result(p, sender, amount_out, target, max_shares_in, current, predecessor)->Ok_0.0;
            let burn = (amount_out + mul_u128_value(p.deno, amount_out, p.fee)) as u128;
            &&& t.len() == p.tokens.len()
            &&& forall|i: int| 0 <= i < t.len() ==> #[trigger] t[i].0 == p.tokens[i].0
            &&& forall|i: int|
                0 <= i < t.len() ==> #[trigger] t[i].1.total_supply == supply_after(
                    p.tokens[i].1.total_supply,
                    p.tokens[i].0,
                    p.outcomes as nat,
                    burn,
                    false,
                )
        }),
{
    let i = find_outcome(p.tokens, target)->Some_0;
    lemma_find_outcome_unique(p.tokens, target, i);
    let token_in = p.tokens[i].1;
    let shares = calc_sell_out_result(p, amount_out, target, current)->Ok_0;
    let t2 = token_in.transferred(predecessor, current, shares)->Some_0;
    let fee = mul_u128_value(p.deno, amount_out, p.fee) as u128;
    let burn = (amount_out + fee) as u128;
    let u = p.tokens.update(i, (target, t2));
    lemma_find_outcome_update(p.tokens, i, t2, target);
    lemma_apply_outcomes_supplies(u, p.outcomes as nat, burn, current, false);
}

/// A purchase gives the buyer exactly the shares that `calc_buy_amount`
/// quotes, on the token of the outcome bought.
pub proof fn law_buy_delivers_quoted_shares(
    p: PoolState,
    sender: Seq<char>,
    amount_in: u128,
    target: u16,
    min_shares_out: u128,
    current: Seq<char>,
)
    requires
        outcomes_distinct(p.tokens),
        sender != current,
        buy_result(p, sender, amount_in, target, min_shares_out, current) is Ok,
    ensures
        ({
            let t = buy_result(p, sender, amount_in, target, min_shares_out, current)->Ok_0;
            let i = find_outcome(p.tokens, target)->Some_0;
            &&& find_outcome(p.tokens, target) is Some
            &&& t[i].0 == target
            &&& t[i].1.balance(sender) == p.tokens[i].1.balance(sender) + calc_buy_amount_result(
                p,
                amount_in,
                target,
                current,
            )->Ok_0
        }),
{
    let fee = mul_u128_value(p.deno, amount_in, p.fee) as u128;
    let mint = (amount_in - fee) as u128;
    lemma_apply_outcomes_supplies(p.tokens, p.outcomes as nat, mint, current, true);
    let t1 = apply_outcomes(p.tokens, p.outcomes as nat, mint, current, true)->Ok_0;
    let i = find_outcome(p.tokens, target)->Some_0;
    lemma_find_outcome_unique(p.tokens, target, i);
    assert(t1[i].0 == target);
    lemma_find_outcome_unique(t1, target, i);
    assert(t1[i].1.balance(sender) == p.tokens[i].1.balance(sender));
}

/// A sale takes exactly the shares that `calc_sell_out` quotes from the
/// account that made the call, on the token of the outcome sold.
pub proof fn law_sell_takes_quoted_shares(
    p: PoolState,
    sender: Seq<char>,
    amount_out: u128,
    target: u16,
    max_shares_in: u128,
    current: Seq<char>,
    predecessor: Seq<char>,
)
    requires
        outcomes_distinct(p.tokens),
        predecessor != current,
        sell_result(p, sender, amount_out, target, max_shares_in, current, predecessor) is Ok,
    ensures
        ({
            let t = sell_result(p, sender, amount_out, target, max_shares_in, current, predecessor)->Ok_0.0;
            let i = find_outcome(p.tokens, target)->Some_0;
            &&& find_outcome(p.tokens, target) is Some
            &&& t[i].0 == target
            &&& t[i].1.balance(predecessor) == p.tokens[i].1.balance(predecessor)
                - calc_sell_out_result(p, amount_out, target, current)->Ok_0
        }),
{
    let i = find_outcome(p.tokens, target)->Some_0;
    lemma_find_outcome_unique(p.tokens, target, i);
    let token_in = p.tokens[i].1;
    let shares = calc_sell_out_result(p, amount_out, target, current)->Ok_0;
    let t2 = token_in.transferred(predecessor, current, shares)->Some_0;
    let fee = mul_u128_value(p.deno, amount_out, p.fee) as u128;
    let burn = (amount_out + fee) as u128;
    let u = p.tokens.update(i, (target, t2));
    lemma_find_outcome_update(p.tokens, i, t2, target);
    lemma_apply_outcomes_supplies(u, p.outcomes as nat, burn, current, false);
    let t = apply_outcomes(u, p.outcomes as nat, burn, current, false)->Ok_0;
    assert(t[i].1.balance(predecessor) == u[i].1.balance(predecessor));
}

/// A purchase moves these balances and no others: on each outcome token `0
/// .. outcomes` the contract account gains the collateral less the fee, on
/// the token bought it then gives the quoted shares to the buyer; every token
/// keeps its place, its pool and its outcome.
pub proof fn law_buy_moves_balances(
    p: PoolState,
    sender: Seq<char>,
    amount_in: u128,
    target: u16,
    min_shares_out: u128,
    current: Seq<char>,
)
    requires
        outcomes_distinct(p.tokens),
        sender != current,
        buy_result(p, sender, amount_in, target, min_shares_out, current) is Ok,
    ensures
        ({
            let t = buy_result(p, sender, amount_in, target, min_shares_out, current)->Ok_0;
            let shares = calc_buy_amount_result(p, amount_in, target, current)->Ok_0;
            let net = amount_in - mul_u128_value(p.deno, amount_in, p.fee);
            let k = find_outcome(p.tokens, target)->Some_0;
            &&& t.len() == p.tokens.len()
            &&& forall|i: int| 0 <= i < t.len() ==> #[trigger] t[i].0 == p.tokens[i].0
            &&& forall|i: int| 0 <= i < t.len() ==> #[trigger] t[i].1.pool_id == p.tokens[i].1.pool_id
                && t[i].1.outcome_id == p.tokens[i].1.outcome_id
            &&& forall|i: int|
                0 <= i < t.len() ==> #[trigger] t[i].1.balance(current) == p.tokens[i].1.balance(current)
                    + (if p.tokens[i].0 < p.outcomes { net } else { 0 }) - (if i == k { shares } else { 0 })
            &&& forall|i: int|
                0 <= i < t.len() ==> #[trigger] t[i].1.balance(sender) == p.tokens[i].1.balance(sender)
                    + (if i == k { shares } else { 0 })
            &&& forall|i: int, who: Seq<char>|
                0 <= i < t.len() && who != current && who != sender ==> #[trigger] t[i].1.balance(who)
                    == p.tokens[i].1.balance(who)
        }),
{
    let fee = mul_u128_value(p.deno, amount_in, p.fee) as u128;
    let mint = (amount_in - fee) as u128;
    let shares = calc_buy_amount_result(p, amount_in, target, current)->Ok_0;
    lemma_apply_outcomes_each(p.tokens, p.outcomes as nat, mint, current, true);
    let t1 = apply_outcomes(p.tokens, p.outcomes as nat, mint, current, true)->Ok_0;
    let k = find_outcome(p.tokens, target)->Some_0;
    lemma_find_outcome_unique(p.tokens, target, k);
    lemma_find_outcome_unique(t1, target, k);
    let t2 = t1[k].1.transferred(current, sender, shares)->Some_0;
    law_transfer_conserves(t1[k].1, current, sender, shares);
    let t = buy_result(p, sender, amount_in, target, min_shares_out, current)->Ok_0;
    assert(t == t1.update(k, (target, t2)));
    assert forall|i: int| 0 <= i < t.len() implies {
        &&& t[i].1.pool_id == p.tokens[i].1.pool_id
        &&& t[i].1.outcome_id == p.tokens[i].1.outcome_id
        &&& t[i].1.balance(current) == p.tokens[i].1.balance(current) + (if p.tokens[i].0 < p.outcomes {
            mint as int
        } else {
            0
        }) - (if i == k { shares as int } else { 0 })
        &&& t[i].1.balance(sender) == p.tokens[i].1.balance(sender) + (if i == k { shares as int } else { 0 })
        &&& forall|who: Seq<char>|
            who != current && who != sender ==> #[trigger] t[i].1.balance(who) == p.tokens[i].1.balance(who)
    } by {
        assert(t1[i].0 == p.tokens[i].0);
        if p.tokens[i].0 < p.outcomes {
            assert(apply_token(p.tokens[i].1, mint, current, true) == Some(t1[i].1));
        } else {
            assert(t1[i].1 == p.tokens[i].1);
        }
    }
}

/// A sale moves these balances and no others: on the token sold the quoted
/// shares go from the account that made the call to the contract account,
/// then on each outcome token `0 .. outcomes` the contract account loses the
/// collateral plus the fee; every token keeps its place, its pool and its
/// outcome. As the average price of a sale is always zero, the sale returns
/// the sale price times the shares, rounded down.
pub proof fn law_sell_moves_balances(
    p: PoolState,
    sender: Seq<char>,
    amount_out: u128,
    target: u16,
    max_shares_in: u128,
    current: Seq<char>,
    predecessor: Seq<char>,
)
    requires
        outcomes_distinct(p.tokens),
        predecessor != current,
        sell_result(p, sender, amount_out, target, max_shares_in, current, predecessor) is Ok,
    ensures
        ({
            let (t, to) = sell_result(p, sender, amount_out, target, max_shares_in, current, predecessor)->Ok_0;
            let shares = calc_sell_out_result(p, amount_out, target, current)->Ok_0;
            let burn = (amount_out + mul_u128_value(p.deno, amount_out, p.fee)) as u128;
            let k = find_outcome(p.tokens, target)->Some_0;
            &&& to == mul_value(p.deno, div_u128_value(p.deno, burn, shares) as u128, shares)
            &&& t.len() == p.tokens.len()
            &&& forall|i: int| 0 <= i < t.len() ==> #[trigger] t[i].0 == p.tokens[i].0
            &&& forall|i: int| 0 <= i < t.len() ==> #[trigger] t[i].1.pool_id == p.tokens[i].1.pool_id
                && t[i].1.outcome_id == p.tokens[i].1.outcome_id
            &&& forall|i: int|
                0 <= i < t.len() ==> #[trigger] t[i].1.balance(current) == p.tokens[i].1.balance(current)
                    + (if i == k { shares } else { 0 }) - (if p.tokens[i].0 < p.outcomes { burn } else { 0 })
            &&& forall|i: int|
                0 <= i < t.len() ==> #[trigger] t[i].1.balance(predecessor) == p.tokens[i].1.balance(
                    predecessor,
                ) - (if i == k { shares } else { 0 })
            &&& forall|i: int, who: Seq<char>|
                0 <= i < t.len() && who != current && who != predecessor ==> #[trigger] t[i].1.balance(who)
                    == p.tokens[i].1.balance(who)
        }),
{
    let k = find_outcome(p.tokens, target)->Some_0;
    lemma_find_outcome_unique(p.tokens, target, k);
    let token_in = p.tokens[k].1;
    let shares = calc_sell_out_result(p, amount_out, target, current)->Ok_0;
    let held = token_in.balance(sender);
    law_div_u128_of_zero(p.deno, held);
    let t2 = token_in.transferred(predecessor, current, shares)->Some_0;
    law_transfer_conserves(token_in, predecessor, current, shares);
    let fee = mul_u128_value(p.deno, amount_out, p.fee) as u128;
    let burn = (amount_out + fee) as u128;
    let sell = div_u128_value(p.deno, burn, shares) as u128;
    assert(mul_value(p.deno, 0, shares) == 0) by {
        lemma_fundamental_div_mod_converse(0, p.deno as int, 0, 0);
    }
    let u = p.tokens.update(k, (target, t2));
    lemma_find_outcome_update(p.tokens, k, t2, target);
    lemma_apply_outcomes_each(u, p.outcomes as nat, burn, current, false);
    let t = apply_outcomes(u, p.outcomes as nat, burn, current, false)->Ok_0;
    assert forall|i: int| 0 <= i < t.len() implies {
        &&& t[i].1.pool_id == p.tokens[i].1.pool_id
        &&& t[i].1.outcome_id == p.tokens[i].1.outcome_id
        &&& t[i].1.balance(current) == p.tokens[i].1.balance(current) + (if i == k {
            shares as int
        } else {
            0
        }) - (if p.tokens[i].0 < p.outcomes { burn as int } else { 0 })
        &&& t[i].1.balance(predecessor) == p.tokens[i].1.balance(predecessor) - (if i == k {
            shares as int
        } else {
            0
        })
        &&& forall|who: Seq<char>|
            who != current && who != predecessor ==> #[trigger] t[i].1.balance(who)
                == p.tokens[i].1.balance(who)
    } by {
        assert(u[i].0 == p.tokens[i].0);
        if p.tokens[i].0 < p.outcomes {
            assert(apply_token(u[i].1, burn, current, false) == Some(t[i].1));
        } else {
            assert(t[i].1 == u[i].1);
        }
    }
}

/// In a pool with two outcome tokens, a buy quote starts from the contract's
/// balance `b_out` of the outcome bought, scales it once by the other
/// outcome's balance `b_o` over `b_o + fees`, and quotes what that takes off
/// `b_out + fees`, where `fees` is the collateral less the fee. It is refused,
/// as arithmetic overflow, exactly when one of these steps is undefined. The
/// quote does not depend on the order in which the two tokens are kept.
pub proof fn law_calc_buy_two_outcomes(p: PoolState, tin: u128, out: u16, current: Seq<char>, j: int)
    requires
        p.tokens.len() == 2,
        p.tokens[0].0 != p.tokens[1].0,
        0 <= j < 2,
        p.tokens[j].0 == out,
    ensures
        ({
            let b_out = p.tokens[j].1.balance(current);
            let b_o = p.tokens[1 - j].1.balance(current);
            let fee = mul_u128_value(p.deno, tin, p.fee);
            let fees = tin - fee;
            let product = mul_u128_value(p.deno, b_out, b_o);
            let new = div_u128_value(p.deno, product as u128, (b_o + fees) as u128);
            let defined = mul_u128_defined(p.deno, tin, p.fee) && fee <= tin && mul_u128_defined(
                p.deno,
                b_out,
                b_o,
            ) && b_o + fees <= u128::MAX && div_u128_defined(p.deno, product as u128, (b_o + fees) as u128)
                && b_out + fees <= u128::MAX && new <= b_out + fees;
            calc_buy_amount_result(p, tin, out, current) == if defined {
                Ok::<u128, AmmError>((b_out + fees - new) as u128)
            } else {
                Err::<u128, AmmError>(AmmError::ArithmeticOverflow)
            }
        }),
{
    lemma_two_outcome_walk(p, out, current, j);
    lemma_div_u128_fits_all(p.deno);
}

/// In a pool with two outcome tokens, a sell quote starts from the contract's
/// balance `b_out` of the outcome sold and scales it once by the other
/// outcome's balance `b_o` over `b_o + fees`, where `fees` is the collateral
/// less the sale fee. It is refused, as arithmetic overflow, exactly when one
/// of these steps is undefined. The quote does not depend on the order in
/// which the two tokens are kept.
pub proof fn law_calc_sell_two_outcomes(p: PoolState, tin: u128, out: u16, current: Seq<char>, j: int)
    requires
        p.tokens.len() == 2,
        p.tokens[0].0 != p.tokens[1].0,
        0 <= j < 2,
        p.tokens[j].0 == out,
    ensures
        ({
            let b_out = p.tokens[j].1.balance(current);
            let b_o = p.tokens[1 - j].1.balance(current);
            let fee = div_u128_value(p.deno, tin, p.fee);
            let fees = tin - fee;
            let product = mul_u128_value(p.deno, b_out, b_o);
            let new = div_u128_value(p.deno, product as u128, (b_o + fees) as u128);
            let defined = div_u128_defined(p.deno, tin, p.fee) && fee <= tin && mul_u128_defined(
                p.deno,
                b_out,
                b_o,
            ) && b_o + fees <= u128::MAX && div_u128_defined(p.deno, product as u128, (b_o + fees) as u128)
                && b_out + new <= u128::MAX;
            calc_sell_out_result(p, tin, out, current) == if defined {
                Ok::<u128, AmmError>(new as u128)
            } else {
                Err::<u128, AmmError>(AmmError::ArithmeticOverflow)
            }
        }),
{
    lemma_two_outcome_walk(p, out, current, j);
    lemma_div_u128_fits_all(p.deno);
}

proof fn lemma_div_u128_fits_all(deno: u128)
    ensures
        forall|a: u128, b: u128|
            div_u128_defined(deno, a, b) ==> 0 <= #[trigger] div_u128_value(deno, a, b) <= u128::MAX,
{
    assert forall|a: u128, b: u128| div_u128_defined(deno, a, b) implies 0 <= #[trigger] div_u128_value(
        deno,
        a,
        b,
    ) <= u128::MAX by {
        lemma_div_u128_fits(deno, a, b);
    }
}

proof fn lemma_two_outcome_walk(p: PoolState, out: u16, current: Seq<char>, j: int)
    requires
        p.tokens.len() == 2,
        p.tokens[0].0 != p.tokens[1].0,
        0 <= j < 2,
        p.tokens[j].0 == out,
    ensures
        find_outcome(p.tokens, out) == Some(j),
        forall|fees: u128, start: u128|
            #[trigger] weigh(p.deno, fees, out, start, outcome_balances(p.tokens, current)) == weigh_step(
                p.deno,
                fees,
                out,
                start,
                (p.tokens[1 - j].0, p.tokens[1 - j].1.balance(current)),
            ),
{
    assert(outcomes_distinct(p.tokens));
    lemma_find_outcome_unique(p.tokens, out, j);
    let s = outcome_balances(p.tokens, current);
    assert(s.drop_last() =~= seq![s[0]]);
    assert(s.drop_last().drop_last() =~= Seq::<(u16, u128)>::empty());
    assert forall|fees: u128, start: u128|
        #[trigger] weigh(p.deno, fees, out, start, s) == weigh_step(
            p.deno,
            fees,
            out,
            start,
            (p.tokens[1 - j].0, p.tokens[1 - j].1.balance(current)),
        ) by {
        reveal_with_fuel(weigh, 3);
        assert(weigh(p.deno, fees, out, start, s.drop_last().drop_last()) == Some(start));
    }
}

/// What selling pays out, from the sale price `sell` and the average price `avg`.
pub open spec fn sell_payout(deno: u128, sell: u128, avg: u128, shares: u128) -> Option<u128> {
    if sell < avg {
        if mul_defined(deno, (avg - sell) as u128, shares) {
            Some(mul_value(deno, (avg - sell) as u128, shares) as u128)
        } else {
            None
        }
    } else if sell > avg {
        if mul_defined(deno, (sell - avg) as u128, shares) {
            Some(mul_value(deno, (sell - avg) as u128, shares) as u128)
        } else {
            None
        }
    } else {
        Some(0)
    }
}

/// The outcome tokens after `sender` buys outcome `target` for `amount_in`
/// collateral, asking for at least `min_shares_out` shares.
pub open spec fn buy_result(
    p: PoolState,
    sender: Seq<char>,
    amount_in: u128,
    target: u16,
    min_shares_out: u128,
    current: Seq<char>,
) -> Result<Seq<(u16, TokenState)>, AmmError> {
    match calc_buy_amount_result(p, amount_in, target, current) {
        Err(e) => Err(e),
        Ok(shares) => if shares < min_shares_out {
            Err(AmmError::SlippageExceeded)
        } else {
            let fee = mul_u128_value(p.deno, amount_in, p.fee) as u128;
            let mint = (amount_in - fee) as u128;
            match apply_outcomes(p.tokens, p.outcomes as nat, mint, current, true) {
                Err(e) => Err(e),
                Ok(t1) => match find_outcome(t1, target) {
                    None => Err(AmmError::MissingOutcomeToken),
                    Some(i) => match t1[i].1.transferred(current, sender, shares) {
                        None => Err(AmmError::ArithmeticOverflow),
                        Some(t2) => Ok(t1.update(i, (target, t2))),
                    },
                },
            }
        },
    }
}

/// The outcome tokens after `sender` sells outcome `target` for `amount_out`
/// collateral, giving at most `max_shares_in` shares, together with the amount
/// that the sale returns.
pub open spec fn sell_result(
    p: PoolState,
    sender: Seq<char>,
    amount_out: u128,
    target: u16,
    max_shares_in: u128,
    current: Seq<char>,
    predecessor: Seq<char>,
) -> Result<(Seq<(u16, TokenState)>, u128), AmmError> {
    match calc_sell_out_result(p, amount_out, target, current) {
        Err(e) => Err(e),
        Ok(shares) => if shares > max_shares_in {
            Err(AmmError::SlippageExceeded)
        } else {
            match find_outcome(p.tokens, target) {
                None => Err(AmmError::MissingOutcomeToken),
                Some(i) => {
                    let token_in = p.tokens[i].1;
                    let held = token_in.balance(sender);
                    if !mul_u128_defined(p.deno, amount_out, p.fee) {
                        Err(AmmError::ArithmeticOverflow)
                    } else if !div_u128_defined(p.deno, 0, held) {
                        Err(AmmError::ArithmeticOverflow)
                    } else if amount_out + mul_u128_value(p.deno, amount_out, p.fee) > u128::MAX {
                        Err(AmmError::ArithmeticOverflow)
                    } else {
                        let fee = mul_u128_value(p.deno, amount_out, p.fee) as u128;
                        let avg = div_u128_value(p.deno, 0, held) as u128;
                        let burn = (amount_out + fee) as u128;
                        if !div_u128_defined(p.deno, burn, shares) {
                            Err(AmmError::ArithmeticOverflow)
                        } else {
                            let sell = div_u128_value(p.deno, burn, shares) as u128;
                            match token_in.transferred(predecessor, current, shares) {
                                None => Err(AmmError::ArithmeticOverflow),
                                Some(t2) => match sell_payout(p.deno, sell, avg, shares) {
                                    None => Err(AmmError::ArithmeticOverflow),
                                    Some(to) => match apply_outcomes(
                                        p.tokens.update(i, (target, t2)),
                                        p.outcomes as nat,
                                        burn,
                                        current,
                                        false,
                                    ) {
                                        Err(e) => Err(e),
                                        Ok(t3) => Ok((t3, to)),
                                    },
                                },
                            }
                        }
                    }
                },
            }
        },
    }
}

/// Whether `token` can move `amount` shares from `from` to `to`.
fn can_transfer(token: &OutComeToken, from: &String, to: &String, amount: u128) -> (res: bool)
    ensures
        res == token@.transferred(from@, to@, amount) is Some,
{
    let held = token.get_balance(from);
    if amount > held {
        return false;
    }
    let target = if *from == *to {
        held - amount
    } else {
        token.get_balance(to)
    };
    target <= u128::MAX - amount
}

/// A pool of outcome tokens for one market.
pub struct Pool {
    pub id: u64,
    pub token_id: String,
    pub deno: u128,
    pub outcomes: u16,
    pub outcome_tokens: OutcomeTokens,
    pub pool_token: OutComeToken,
    pub fee: u128,
}

impl View for Pool {
    type V = PoolState;

    open spec fn view(&self) -> PoolState {
        PoolState {
            id: self.id,
            token_id: self.token_id@,
            deno: self.deno,
            outcomes: self.outcomes,
            tokens: self.outcome_tokens@,
            pool_token: self.pool_token@,
            fee: self.fee,
        }
    }
}

impl Pool {
    /// An empty pool for market `id`, priced in `token_id` with `decimals`
    /// decimals, for `outcomes` outcomes and the given fee. Its liquidity token
    /// starts with no supply, held (at zero) by `current`, the contract account.
    pub fn new(id: u64, token_id: String, decimals: u32, outcomes: u16, fee: u128, current: &String) -> (res: Self)
        requires
            decimals <= 38,
        ensures
            res@.id == id,
            res@.token_id == token_id@,
            res@.deno == pow10(decimals as nat),
            res@.outcomes == outcomes,
            res@.tokens == Seq::<(u16, TokenState)>::empty(),
            res@.pool_token.balances == Map::<Seq<char>, u128>::empty().insert(current@, 0),
            res@.pool_token.total_supply == 0,
            res@.pool_token.pool_id == id,
            res@.pool_token.outcome_id == outcomes,
            res@.fee == fee,
    {
        let deno = ten_to_the(decimals);
        Self {
            id,
            token_id,
            deno,
            outcomes,
            outcome_tokens: OutcomeTokens::new(),
            pool_token: OutComeToken::new(id, outcomes, 0, current),
            fee,
        }
    }

    /// The liquidity-token balance of `id`.
    pub fn get_pool_token_balance(&self, id: &String) -> (res: u128)
        ensures
            res == self@.pool_token.balance(id@),
    {
        self.pool_token.get_balance(id)
    }

    /// The balance that `current`, the contract account, holds of each outcome
    /// token, in the pool's order.
    pub fn get_pool_balances(&self, current: &String) -> (res: Vec<u128>)
        ensures
            res@ == self@.tokens.map_values(|e: (u16, TokenState)| e.1.balance(current@)),
    {
        let n = self.outcome_tokens.len();
        let mut res: Vec<u128> = Vec::new();
        let mut i: usize = 0;
        while i < n
            invariant
                n == self@.tokens.len(),
                i <= n,
                res@ =~= self@.tokens.take(i as int).map_values(
                    |e: (u16, TokenState)| e.1.balance(current@),
                ),
            decreases n - i,
        {
            res.push(self.outcome_tokens.token_at(i).get_balance(current));
            i = i + 1;
        }
        assert(self@.tokens.take(n as int) =~= self@.tokens);
        res
    }

    fn weigh_outcomes(&self, fees: u128, out: u16, start: u128, current: &String) -> (res: Option<u128>)
        ensures
            res == weigh(self.deno, fees, out, start, outcome_balances(self@.tokens, current@)),
    {
        let ghost s = outcome_balances(self@.tokens, current@);
        let n = self.outcome_tokens.len();
        let mut new = start;
        let mut i: usize = 0;
        assert(s.take(0) =~= Seq::<(u16, u128)>::empty());
        while i < n
            invariant
                n == self@.tokens.len(),
                s == outcome_balances(self@.tokens, current@),
                i <= n,
                weigh(self.deno, fees, out, start, s.take(i as int)) == Some(new),
            decreases n - i,
        {
            assert(s.take(i + 1).drop_last() =~= s.take(i as int));
            let k = self.outcome_tokens.key_at(i);
            if k != out {
                let b = self.outcome_tokens.token_at(i).get_balance(current);
                let mut next: Option<u128> = None;
                match checked_mul_u128(self.deno, new, b) {
                    Some(dividend) => {
                        if b <= u128::MAX - fees {
                            next = checked_div_u128(self.deno, dividend, b + fees);
                        }
                    },
                    None => {},
                }
                match next {
                    Some(v) => {
                        new = v;
                    },
                    None => {
                        proof {
                            lemma_weigh_fails_forward(self.deno, fees, out, start, s, i + 1);
                        }
                        return None;
                    },
                }
            }
            i = i + 1;
        }
        assert(s.take(n as int) =~= s);
        Some(new)
    }

    /// The shares of outcome `out` that `tin` collateral buys from the pool,
    /// with `current` the contract account.
    pub fn calc_buy_amount(&self, tin: u128, out: u16, current: &String) -> (res: Result<u128, AmmError>)
        ensures
            res == calc_buy_amount_result(self@, tin, out, current@),
    {
        let fees = match checked_mul_u128(self.deno, tin, self.fee) {
            Some(f) => if f <= tin {
                tin - f
            } else {
                return Err(AmmError::ArithmeticOverflow);
            },
            None => {
                return Err(AmmError::ArithmeticOverflow);
            },
        };
        let buy = match self.outcome_tokens.get(out) {
            Some(t) => t,
            None => {
                return Err(AmmError::MissingOutcomeToken);
            },
        };
        let balance = buy.get_balance(current);
        match self.weigh_outcomes(fees, out, balance, current) {
            Some(new) => if balance <= u128::MAX - fees && new <= balance + fees {
                Ok(balance + fees - new)
            } else {
                Err(AmmError::ArithmeticOverflow)
            },
            None => Err(AmmError::ArithmeticOverflow),
        }
    }

    /// The amount that selling outcome `out` for `tin` collateral prices at,
    /// with `current` the contract account.
    pub fn calc_sell_out(&self, tin: u128, out: u16, current: &String) -> (res: Result<u128, AmmError>)
        ensures
            res == calc_sell_out_result(self@, tin, out, current@),
    {
        let fees = match checked_div_u128(self.deno, tin, self.fee) {
            Some(f) => if f <= tin {
                tin - f
            } else {
                return Err(AmmError::ArithmeticOverflow);
            },
            None => {
                return Err(AmmError::ArithmeticOverflow);
            },
        };
        let sell = match self.outcome_tokens.get(out) {
            Some(t) => t,
            None => {
                return Err(AmmError::MissingOutcomeToken);
            },
        };
        let balance = sell.get_balance(current);
        match self.weigh_outcomes(fees, out, balance, current) {
            Some(new) => if balance <= u128::MAX - new {
                Ok(balance + new - balance)
            } else {
                Err(AmmError::ArithmeticOverflow)
            },
            None => Err(AmmError::ArithmeticOverflow),
        }
    }
}

impl Pool {
    /// Mints (`mint`) or burns `amount` shares for `current` on the token of
    /// each outcome `0 .. outcomes`. On a refusal the tokens may be left part
    /// way; the callers put them back.
    fn apply_to_pools(&mut self, amount: u128, current: &String, mint: bool) -> (res: Result<(), AmmError>)
        ensures
            final(self)@ == old(self)@.with_tokens(final(self)@.tokens),
            match apply_outcomes(old(self)@.tokens, old(self)@.outcomes as nat, amount, current@, mint) {
                Ok(t) => res is Ok && final(self)@.tokens == t,
                Err(e) => res == Err::<(), AmmError>(e),
            },
    {
        let ghost p0 = self@;
        let n = self.outcomes;
        let mut k: u16 = 0;
        while k < n
            invariant
                k <= n,
                n == p0.outcomes,
                p0 == old(self)@,
                self@ == p0.with_tokens(self@.tokens),
                apply_outcomes(p0.tokens, k as nat, amount, current@, mint) == Ok::<
                    Seq<(u16, TokenState)>,
                    AmmError,
                >(self@.tokens),
            decreases n - k,
        {
            match self.outcome_tokens.find(k) {
                None => {
                    proof {
                        lemma_apply_outcomes_fails_forward(p0.tokens, (k + 1) as nat, n as nat, amount, current@, mint);
                    }
                    return Err(AmmError::MissingOutcomeToken);
                },
                Some(i) => {
                    let mut token = self.outcome_tokens.token_at(i).duplicate();
                    let held = token.get_balance(current);
                    let total = token.total_supply();
                    if mint {
                        if total > u128::MAX - amount || held > u128::MAX - amount {
                            proof {
                                lemma_apply_outcomes_fails_forward(p0.tokens, (k + 1) as nat, n as nat, amount, current@, mint);
                            }
                            return Err(AmmError::ArithmeticOverflow);
                        }
                        token.mint(current, amount);
                    } else {
                        if amount > held || amount > total {
                            proof {
                                lemma_apply_outcomes_fails_forward(p0.tokens, (k + 1) as nat, n as nat, amount, current@, mint);
                            }
                            return Err(AmmError::ArithmeticOverflow);
                        }
                        token.burn(current, amount);
                    }
                    self.outcome_tokens.set_at(i, token);
                },
            }
            k = k + 1;
        }
        Ok(())
    }

    /// Mints `amount` shares for `current` on the token of each outcome.
    fn add_to_pools(&mut self, amount: u128, current: &String) -> (res: Result<(), AmmError>)
        ensures
            final(self)@ == old(self)@.with_tokens(final(self)@.tokens),
            match apply_outcomes(old(self)@.tokens, old(self)@.outcomes as nat, amount, current@, true) {
                Ok(t) => res is Ok && final(self)@.tokens == t,
                Err(e) => res == Err::<(), AmmError>(e),
            },
    {
        self.apply_to_pools(amount, current, true)
    }

    /// Burns `amount` shares of `current` on the token of each outcome.
    fn remove_from_pools(&mut self, amount: u128, current: &String) -> (res: Result<(), AmmError>)
        ensures
            final(self)@ == old(self)@.with_tokens(final(self)@.tokens),
            match apply_outcomes(old(self)@.tokens, old(self)@.outcomes as nat, amount, current@, false) {
                Ok(t) => res is Ok && final(self)@.tokens == t,
                Err(e) => res == Err::<(), AmmError>(e),
            },
    {
        self.apply_to_pools(amount, current, false)
    }

    /// `sender` buys shares of `outcome_target` for `amount_in` collateral,
    /// asking for at least `min_shares_out` shares; `current` is the contract
    /// account. The collateral, less the fee, is minted into every outcome
    /// token, and the bought shares move from the contract to the buyer.
    pub fn buy(
        &mut self,
        sender: &String,
        amount_in: u128,
        outcome_target: u16,
        min_shares_out: u128,
        current: &String,
    ) -> (res: Result<(), AmmError>)
        ensures
            outcomes_distinct(old(self)@.tokens),
            outcomes_distinct(final(self)@.tokens),
            match buy_result(old(self)@, sender@, amount_in, outcome_target, min_shares_out, current@) {
                Ok(t) => res is Ok && final(self)@ == old(self)@.with_tokens(t),
                Err(e) => res == Err::<(), AmmError>(e) && final(self)@ == old(self)@,
            },
    {
        proof {
            use_type_invariant(&self.outcome_tokens);
        }
        let shares_out = match self.calc_buy_amount(amount_in, outcome_target, current) {
            Ok(s) => s,
            Err(e) => {
                return Err(e);
            },
        };
        if shares_out < min_shares_out {
            return Err(AmmError::SlippageExceeded);
        }
        let fee = mul_u128(self.deno, amount_in, self.fee);
        let mint = amount_in - fee;
        let saved = self.outcome_tokens.duplicate();
        match self.add_to_pools(mint, current) {
            Ok(()) => {},
            Err(e) => {
                self.outcome_tokens = saved;
                return Err(e);
            },
        }
        let i = match self.outcome_tokens.find(outcome_target) {
            Some(i) => i,
            None => {
                self.outcome_tokens = saved;
                return Err(AmmError::MissingOutcomeToken);
            },
        };
        let mut out = self.outcome_tokens.token_at(i).duplicate();
        if !can_transfer(&out, current, sender, shares_out) {
            self.outcome_tokens = saved;
            return Err(AmmError::ArithmeticOverflow);
        }
        out.safe_transfer_internal(current, sender, shares_out);
        self.outcome_tokens.set_at(i, out);
        proof {
            use_type_invariant(&self.outcome_tokens);
        }
        Ok(())
    }

    /// `sender` sells shares of `outcome_target` for `amount_out` collateral,
    /// giving at most `max_shares_in` shares; `current` is the contract account
    /// and `predecessor` the account that made the call, whose shares move to
    /// the contract. The collateral and the fee are burned from every outcome
    /// token. Returns the amount computed from the sale and average prices.
    pub fn sell(
        &mut self,
        sender: &String,
        amount_out: u128,
        outcome_target: u16,
        max_shares_in: u128,
        current: &String,
        predecessor: &String,
    ) -> (res: Result<u128, AmmError>)
        ensures
            outcomes_distinct(old(self)@.tokens),
            outcomes_distinct(final(self)@.tokens),
            match sell_result(
                old(self)@,
                sender@,
                amount_out,
                outcome_target,
                max_shares_in,
                current@,
                predecessor@,
            ) {
                Ok((t, to)) => res == Ok::<u128, AmmError>(to) && final(self)@ == old(self)@.with_tokens(t),
                Err(e) => res == Err::<u128, AmmError>(e) && final(self)@ == old(self)@,
            },
    {
        proof {
            use_type_invariant(&self.outcome_tokens);
        }
        let shares_in = match self.calc_sell_out(amount_out, outcome_target, current) {
            Ok(s) => s,
            Err(e) => {
                return Err(e);
            },
        };
        if shares_in > max_shares_in {
            return Err(AmmError::SlippageExceeded);
        }
        let i = match self.outcome_tokens.find(outcome_target) {
            Some(i) => i,
            None => {
                return Err(AmmError::MissingOutcomeToken);
            },
        };
        let mut token_in = self.outcome_tokens.token_at(i).duplicate();
        let fee = match checked_mul_u128(self.deno, amount_out, self.fee) {
            Some(f) => f,
            None => {
                return Err(AmmError::ArithmeticOverflow);
            },
        };
        let held = token_in.get_balance(sender);
        let avg = match checked_div_u128(self.deno, 0, held) {
            Some(a) => a,
            None => {
                return Err(AmmError::ArithmeticOverflow);
            },
        };
        if amount_out > u128::MAX - fee {
            return Err(AmmError::ArithmeticOverflow);
        }
        let burn = amount_out + fee;
        let sell = match checked_div_u128(self.deno, burn, shares_in) {
            Some(v) => v,
            None => {
                return Err(AmmError::ArithmeticOverflow);
            },
        };
        if !can_transfer(&token_in, predecessor, current, shares_in) {
            return Err(AmmError::ArithmeticOverflow);
        }
        let payout = if sell < avg {
            checked_mul(self.deno, avg - sell, shares_in)
        } else if sell > avg {
            checked_mul(self.deno, sell - avg, shares_in)
        } else {
            Some(0)
        };
        let to = match payout {
            Some(v) => v,
            None => {
                return Err(AmmError::ArithmeticOverflow);
            },
        };
        let saved = self.outcome_tokens.duplicate();
        token_in.transfer(current, shares_in, predecessor);
        self.outcome_tokens.set_at(i, token_in);
        match self.remove_from_pools(burn, current) {
            Ok(()) => {},
            Err(e) => {
                self.outcome_tokens = saved;
                return Err(e);
            },
        }
        proof {
            use_type_invariant(&self.outcome_tokens);
        }
        Ok(to)
    }
}

} // verus!
