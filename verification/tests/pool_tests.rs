use amm::account_map::AccountMap;
use amm::error::AmmError;
use amm::outcome_token::{MintableToken, OutComeToken};
use amm::pool::Pool;
use amm::pool_factory::new_pool;

fn s(x: &str) -> String {
    x.to_string()
}

/// A pool with no fee in a token without decimals, and outcome tokens 0 and 1
/// whose supplies are held by the contract account.
fn pool_with(b0: u128, b1: u128, decimals: u32, fee: u128) -> Pool {
    let amm = s("amm");
    let mut pool = Pool::new(7, s("usdc"), decimals, 2, fee, &amm);
    pool.outcome_tokens.insert(0, OutComeToken::new(7, 0, b0, &amm));
    pool.outcome_tokens.insert(1, OutComeToken::new(7, 1, b1, &amm));
    pool
}

fn balance(pool: &Pool, outcome: u16, who: &str) -> u128 {
    pool.outcome_tokens.get(outcome).unwrap().get_balance(&s(who))
}

fn supply(pool: &Pool, outcome: u16) -> u128 {
    pool.outcome_tokens.get(outcome).unwrap().total_supply()
}

#[test]
fn account_map_keeps_first_insertion_order() {
    let mut m: AccountMap<u32> = AccountMap::new();
    m.insert(&s("b"), 1);
    m.insert(&s("a"), 2);
    m.insert(&s("b"), 3);
    let v = m.to_vec();
    assert_eq!(v, vec![(s("b"), 3), (s("a"), 2)]);
    assert_eq!(m.get(&s("b")), Some(3));
    assert_eq!(m.remove(&s("b")), Some(3));
    assert_eq!(m.remove(&s("b")), None);
    assert_eq!(m.get(&s("b")), None);
    assert!(m.contains_key(&s("a")));
    assert_eq!(m.len(), 1);
}

#[test]
fn mintable_token_tracks_supply_and_balances() {
    let amm = s("amm");
    let alice = s("alice");
    let mut t = MintableToken::new(1, 2, 100, &amm);
    assert_eq!(t.balance_of(&amm), 100);
    assert_eq!(t.total_supply, 100);
    t.mint(&alice, 40);
    assert_eq!(t.balance_of(&alice), 40);
    assert_eq!(t.total_supply, 140);
    t.burn(&amm, 30);
    assert_eq!(t.balance_of(&amm), 70);
    assert_eq!(t.total_supply, 110);
    t.deposit(&alice, 5);
    t.withdraw(&amm, 5);
    assert_eq!(t.balance_of(&alice), 45);
    assert_eq!(t.balance_of(&amm), 65);
    assert_eq!(t.total_supply, 110);
    assert_eq!(t.pool_id, 1);
    assert_eq!(t.outcome_id, 2);
}

#[test]
fn law_mint_then_burn_restores_example() {
    let amm = s("amm");
    let alice = s("alice");
    let mut t = OutComeToken::new(1, 0, 100, &amm);
    t.mint(&alice, 25);
    t.burn(&alice, 25);
    assert_eq!(t.get_balance(&alice), 0);
    assert_eq!(t.get_balance(&amm), 100);
    assert_eq!(t.total_supply(), 100);
}

#[test]
fn outcome_token_transfers_conserve_supply() {
    let amm = s("amm");
    let alice = s("alice");
    let mut t = OutComeToken::new(1, 0, 100, &amm);
    t.safe_transfer_internal(&amm, &alice, 30);
    assert_eq!(t.get_balance(&amm), 70);
    assert_eq!(t.get_balance(&alice), 30);
    t.transfer(&amm, 10, &alice);
    assert_eq!(t.get_balance(&amm), 80);
    assert_eq!(t.get_balance(&alice), 20);
    t.safe_transfer_internal(&alice, &amm, 20);
    t.safe_transfer_internal(&amm, &amm, 50);
    assert_eq!(t.get_balance(&amm), 100);
    assert_eq!(t.total_supply(), 100);
    assert_eq!(t.remove_account(&alice), Some(0));
    assert_eq!(t.remove_account(&alice), None);
    assert_eq!(t.total_supply(), 100);
}

#[test]
fn new_pool_sets_denomination() {
    let amm = s("amm");
    let p = new_pool(3, 2, s("dai"), 18, 5, &amm);
    assert_eq!(p.id, 3);
    assert_eq!(p.deno, 1_000_000_000_000_000_000);
    assert_eq!(p.outcomes, 2);
    assert_eq!(p.fee, 5);
    assert_eq!(p.token_id, s("dai"));
    assert_eq!(p.outcome_tokens.len(), 0);
    assert_eq!(p.get_pool_token_balance(&amm), 0);
    assert_eq!(p.pool_token.total_supply(), 0);
    let big = new_pool(4, 2, s("x"), 38, 0, &amm);
    assert_eq!(big.deno, 100_000_000_000_000_000_000_000_000_000_000_000_000);
}

#[test]
fn calc_buy_amount_without_fee() {
    let pool = pool_with(100, 100, 0, 0);
    assert_eq!(pool.calc_buy_amount(10, 0, &s("amm")), Ok(20));
}

#[test]
fn calc_buy_amount_with_fee_and_decimals() {
    let pool = pool_with(10_000, 10_000, 2, 2);
    assert_eq!(pool.deno, 100);
    assert_eq!(pool.calc_buy_amount(1_000, 0, &s("amm")), Ok(10_979));
}

#[test]
fn calc_buy_amount_missing_outcome() {
    let pool = pool_with(100, 100, 0, 0);
    assert_eq!(pool.calc_buy_amount(10, 5, &s("amm")), Err(AmmError::MissingOutcomeToken));
    let empty = Pool::new(1, s("usdc"), 0, 2, 0, &s("amm"));
    assert_eq!(empty.calc_buy_amount(10, 0, &s("amm")), Err(AmmError::MissingOutcomeToken));
}

#[test]
fn calc_buy_amount_fee_larger_than_input() {
    let pool = pool_with(100, 100, 0, 2);
    assert_eq!(pool.calc_buy_amount(10, 0, &s("amm")), Err(AmmError::ArithmeticOverflow));
}

#[test]
fn calc_sell_out_examples() {
    let pool = pool_with(100, 100, 0, 1);
    assert_eq!(pool.calc_sell_out(10, 0, &s("amm")), Ok(100));
    let pool = pool_with(100, 100, 0, 2);
    assert_eq!(pool.calc_sell_out(10, 0, &s("amm")), Ok(95));
    let no_fee = pool_with(100, 100, 0, 0);
    assert_eq!(no_fee.calc_sell_out(10, 0, &s("amm")), Err(AmmError::ArithmeticOverflow));
}

#[test]
fn get_pool_balances_in_pool_order() {
    let pool = pool_with(100, 250, 0, 0);
    assert_eq!(pool.get_pool_balances(&s("amm")), vec![100, 250]);
    assert_eq!(pool.get_pool_balances(&s("bob")), vec![0, 0]);
}

#[test]
fn buy_mints_into_every_outcome_and_pays_shares() {
    let mut pool = pool_with(100, 100, 0, 0);
    assert_eq!(pool.buy(&s("alice"), 10, 0, 20, &s("amm")), Ok(()));
    assert_eq!(supply(&pool, 0), 110);
    assert_eq!(supply(&pool, 1), 110);
    assert_eq!(balance(&pool, 0, "amm"), 90);
    assert_eq!(balance(&pool, 0, "alice"), 20);
    assert_eq!(balance(&pool, 1, "amm"), 110);
}

#[test]
fn buy_refusals_change_nothing() {
    let mut pool = pool_with(100, 100, 0, 0);
    assert_eq!(pool.buy(&s("alice"), 10, 0, 21, &s("amm")), Err(AmmError::SlippageExceeded));
    assert_eq!(pool.buy(&s("alice"), 10, 9, 0, &s("amm")), Err(AmmError::MissingOutcomeToken));
    let mut three = pool_with(100, 100, 0, 0);
    three.outcomes = 3;
    assert_eq!(three.buy(&s("alice"), 10, 0, 0, &s("amm")), Err(AmmError::MissingOutcomeToken));
    for p in [&pool, &three] {
        assert_eq!(supply(p, 0), 100);
        assert_eq!(supply(p, 1), 100);
        assert_eq!(balance(p, 0, "amm"), 100);
        assert_eq!(balance(p, 0, "alice"), 0);
    }
}

fn selling_pool() -> Pool {
    let amm = s("amm");
    let mut pool = Pool::new(7, s("usdc"), 0, 2, 20, &amm);
    let mut t0 = OutComeToken::new(7, 0, 200, &amm);
    t0.mint(&s("alice"), 300);
    pool.outcome_tokens.insert(0, t0);
    pool.outcome_tokens.insert(1, OutComeToken::new(7, 1, 1_000, &amm));
    pool
}

#[test]
fn sell_burns_from_every_outcome_and_prices_payout() {
    let mut pool = selling_pool();
    let alice = s("alice");
    assert_eq!(pool.calc_sell_out(10, 0, &s("amm")), Ok(198));
    assert_eq!(pool.sell(&alice, 10, 0, 1_000, &s("amm"), &alice), Ok(198));
    assert_eq!(balance(&pool, 0, "amm"), 188);
    assert_eq!(balance(&pool, 0, "alice"), 102);
    assert_eq!(supply(&pool, 0), 290);
    assert_eq!(balance(&pool, 1, "amm"), 790);
    assert_eq!(supply(&pool, 1), 790);
}

#[test]
fn sell_refusals_change_nothing() {
    let mut pool = selling_pool();
    let alice = s("alice");
    assert_eq!(pool.sell(&alice, 10, 0, 197, &s("amm"), &alice), Err(AmmError::SlippageExceeded));
    assert_eq!(pool.sell(&s("bob"), 10, 0, 1_000, &s("amm"), &s("bob")), Err(AmmError::ArithmeticOverflow));
    let mut thin = pool_with(100, 1_000, 0, 20);
    let mut t0 = OutComeToken::new(7, 0, 100, &s("amm"));
    t0.mint(&alice, 300);
    thin.outcome_tokens.insert(0, t0);
    assert_eq!(thin.sell(&alice, 10, 0, 1_000, &s("amm"), &alice), Err(AmmError::ArithmeticOverflow));
    assert_eq!(balance(&thin, 0, "alice"), 300);
    assert_eq!(balance(&thin, 0, "amm"), 100);
    assert_eq!(supply(&thin, 1), 1_000);
    assert_eq!(balance(&pool, 0, "alice"), 300);
    assert_eq!(supply(&pool, 0), 500);
}

#[test]
fn law_transfer_back_restores_example() {
    let amm = s("amm");
    let bob = s("bob");
    let mut t = OutComeToken::new(1, 0, 100, &amm);
    t.safe_transfer_internal(&amm, &bob, 60);
    t.safe_transfer_internal(&bob, &amm, 60);
    assert_eq!(t.get_balance(&amm), 100);
    assert_eq!(t.get_balance(&bob), 0);
    assert_eq!(t.total_supply(), 100);
}

#[test]
fn law_supply_matches_balances_example() {
    let amm = s("amm");
    let alice = s("alice");
    let bob = s("bob");
    let mut t = MintableToken::new(1, 0, 100, &amm);
    t.mint(&alice, 40);
    t.burn(&amm, 15);
    t.withdraw(&alice, 10);
    t.deposit(&bob, 10);
    let sum: u128 = t.accounts.to_vec().iter().map(|e| e.1).sum();
    assert_eq!(sum, t.total_supply);
    assert_eq!(t.total_supply, 125);
}

#[test]
fn law_sell_moves_balances_example() {
    let mut pool = selling_pool();
    let alice = s("alice");
    let burn = 10 + amm::math::mul_u128(pool.deno, 10, pool.fee);
    let shares = pool.calc_sell_out(10, 0, &s("amm")).unwrap();
    let expected = amm::math::mul(pool.deno, amm::math::div_u128(pool.deno, burn, shares), shares);
    assert_eq!(pool.sell(&alice, 10, 0, 1_000, &s("amm"), &alice), Ok(expected));
    assert_eq!(balance(&pool, 0, "amm"), 200 + shares - burn);
    assert_eq!(balance(&pool, 1, "amm"), 1_000 - burn);
}
