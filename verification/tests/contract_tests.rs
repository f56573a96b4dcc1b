use amm::data::{decimal_string, DataRequestArgs, GAS_BASE_TRANSFER};
use amm::error::AmmError;
use amm::market_creation::{Config, ProceedCall, GAS_PROCEED};
use amm::outcome_token::OutComeToken;
use amm::storage_manager::{AccountStorageBalance, StorageBalance, StorageManager, STORAGE_PRICE_PER_BYTE};
use amm::token_receiver::{BuyArgs, CreateMarketArgs, Payload, TokenReceiver, TransferAction};
use amm::utils::refund_deposit;
use amm::whitelist::{Token, Whitelist};
use amm::AMMContract;

fn s(x: &str) -> String {
    x.to_string()
}

fn token(id: &str, decimals: u32) -> Token {
    Token { id: s(id), decimals }
}

fn contract() -> AMMContract {
    AMMContract::init(s("gov"), vec![token("usdc", 0), token("dai", 2), token("usdc", 0)], s("oracle"))
}

fn market_args(token_id: &str) -> CreateMarketArgs {
    CreateMarketArgs { outcomes: 2, challenge_period: 100, token_id: s(token_id), fee: 0 }
}

#[test]
fn test_init() {
    let _contract = AMMContract::init(s("bob"), vec![Token::default()], s("charlie"));
}

#[test]
fn init_sets_whitelist_in_order() {
    let c = contract();
    assert_eq!(c.get_whitelist(), vec![(s("usdc"), 0), (s("dai"), 2)]);
    assert_eq!(c.gov, s("gov"));
    assert_eq!(c.receiver, s("oracle"));
    assert_eq!(c.markets.len(), 0);
}

#[test]
fn law_whitelist_keeps_last_decimals_example() {
    let w = Whitelist::new(vec![token("a", 1), token("b", 2), token("a", 3)]);
    assert_eq!(w.0.get(&s("a")), Some(3));
    assert_eq!(w.0.get(&s("b")), Some(2));
    assert_eq!(w.0.to_vec(), vec![(s("a"), 3), (s("b"), 2)]);
}

#[test]
fn whitelist_changes_need_governance() {
    let mut c = contract();
    assert_eq!(c.add_whitelist(token("eth", 18), &s("mallory")), Err(AmmError::NotGovernance));
    assert_eq!(c.set_whitelist(vec![], &s("mallory")), Err(AmmError::NotGovernance));
    assert_eq!(c.get_whitelist().len(), 2);
    assert_eq!(c.add_whitelist(token("eth", 18), &s("gov")), Ok(()));
    assert_eq!(c.add_whitelist(token("usdc", 6), &s("gov")), Ok(()));
    assert_eq!(c.get_whitelist(), vec![(s("usdc"), 6), (s("dai"), 2), (s("eth"), 18)]);
    assert_eq!(c.set_whitelist(vec![token("x", 1)], &s("gov")), Ok(()));
    assert_eq!(c.get_whitelist(), vec![(s("x"), 1)]);
}

#[test]
fn create_market_assigns_ids_in_order() {
    let mut c = contract();
    let amm = s("amm");
    assert_eq!(c.create_market(&market_args("usdc"), &amm), Ok(0));
    assert_eq!(c.create_market(&market_args("dai"), &amm), Ok(1));
    let m = c.get_market_expect(1).unwrap();
    assert_eq!(m.pool.id, 1);
    assert_eq!(m.pool.deno, 100);
    assert_eq!(m.pool.token_id, s("dai"));
    assert_eq!(c.get_market_expect(2).err(), Some(AmmError::MarketNotFound));
    assert_eq!(c.get_pool_balances(0, &amm), Ok(vec![]));
    assert_eq!(c.get_pool_token_balance(0, &amm), Ok(0));
    assert_eq!(c.get_pool_token_balance(5, &amm), Err(AmmError::MarketNotFound));
}

#[test]
fn create_market_refusals() {
    let mut c = contract();
    let amm = s("amm");
    assert_eq!(c.create_market(&market_args("eth"), &amm), Err(AmmError::TokenNotWhitelisted));
    c.add_whitelist(token("huge", 39), &s("gov")).unwrap();
    assert_eq!(c.create_market(&market_args("huge"), &amm), Err(AmmError::ArithmeticOverflow));
    assert_eq!(c.markets.len(), 0);
}

#[test]
fn create_market_callback_continues_with_the_bond() {
    let mut c = contract();
    let call = c.create_market_callback(&s("alice"), 500, &market_args("usdc"), &s("usdc"), &s("amm")).unwrap();
    assert_eq!(call.sender, s("alice"));
    assert_eq!(call.bond_token, s("usdc"));
    assert_eq!(call.bond_in, 500);
    assert_eq!(call.market_id, 0);
    assert_eq!(call.gas, GAS_PROCEED);
    assert_eq!(c.markets.len(), 1);
}

#[test]
fn proceed_splits_the_bond() {
    let c = contract();
    let config = Config { bond_token: s("usdc"), validity_bound: 30 };
    let plan = c
        .proceed_datarequest_creation(&s("alice"), &s("usdc"), 100, 7, &market_args("usdc"), &config, &s("amm"))
        .unwrap();
    assert_eq!(plan.request.token, s("usdc"));
    assert_eq!(plan.request.receiver, s("oracle"));
    assert_eq!(plan.request.amount, 30);
    assert_eq!(plan.request.challenge_period, 100);
    assert_eq!(plan.request.target_contract, s("amm"));
    assert_eq!(plan.request.tags, vec![s("7")]);
    assert_eq!(plan.request.gas, GAS_BASE_TRANSFER);
    assert_eq!(plan.refund_token, s("usdc"));
    assert_eq!(plan.refund_receiver, s("alice"));
    assert_eq!(plan.refund_amount, 70);
    let short = Config { bond_token: s("usdc"), validity_bound: 101 };
    assert!(c
        .proceed_datarequest_creation(&s("alice"), &s("usdc"), 100, 7, &market_args("usdc"), &short, &s("amm"))
        .is_err());
}

#[test]
fn create_data_request_addresses_the_oracle() {
    let c = contract();
    let args = DataRequestArgs { tags: vec![s("12")], challenge_period: 9 };
    let call = c.create_data_request(&s("dai"), 5, args, &s("amm"));
    assert_eq!(call.token, s("dai"));
    assert_eq!(call.receiver, s("oracle"));
    assert_eq!(call.amount, 5);
    assert_eq!(call.challenge_period, 9);
    assert_eq!(call.target_contract, s("amm"));
    assert_eq!(call.tags, vec![s("12")]);
    assert_eq!(call.gas, 50_000_000_000_000);
}

#[test]
fn decimal_string_examples() {
    assert_eq!(decimal_string(0), s("0"));
    assert_eq!(decimal_string(9), s("9"));
    assert_eq!(decimal_string(10), s("10"));
    assert_eq!(decimal_string(1_234_567_890), s("1234567890"));
    assert_eq!(decimal_string(u64::MAX), s("18446744073709551615"));
}

fn contract_with_market() -> AMMContract {
    let mut c = contract();
    let amm = s("amm");
    assert_eq!(
        c.on_transfer(&s("alice"), 50, Payload::CreateMarketArgs(market_args("usdc")), &s("usdc"), &amm),
        Ok(TransferAction::MarketCreated(ProceedCall {
            sender: s("alice"),
            bond_token: s("usdc"),
            bond_in: 50,
            market_id: 0,
            gas: GAS_PROCEED,
        }))
    );
    c.markets[0].pool.outcome_tokens.insert(0, OutComeToken::new(0, 0, 100, &amm));
    c.markets[0].pool.outcome_tokens.insert(1, OutComeToken::new(0, 1, 100, &amm));
    c
}

#[test]
fn on_transfer_buys() {
    let mut c = contract_with_market();
    let amm = s("amm");
    assert_eq!(c.calc_buy_amount(0, 10, 0, &amm), Ok(20));
    let args = BuyArgs { market_id: 0, outcome_target: 0, min_shares_out: 20 };
    assert_eq!(c.on_transfer(&s("alice"), 10, Payload::BuyArgs(args), &s("usdc"), &amm), Ok(TransferAction::Value(0)));
    assert_eq!(c.get_pool_balances(0, &amm), Ok(vec![90, 110]));
    let t0 = c.markets[0].pool.outcome_tokens.get(0).unwrap();
    assert_eq!(t0.get_balance(&s("alice")), 20);
}

#[test]
fn on_transfer_refusals() {
    let mut c = contract_with_market();
    let amm = s("amm");
    let args = BuyArgs { market_id: 0, outcome_target: 0, min_shares_out: 0 };
    assert_eq!(c.on_transfer(&s("alice"), 0, Payload::BuyArgs(args), &s("usdc"), &amm), Err(AmmError::ZeroAmount));
    let args = BuyArgs { market_id: 3, outcome_target: 0, min_shares_out: 0 };
    assert_eq!(c.on_transfer(&s("alice"), 10, Payload::BuyArgs(args), &s("usdc"), &amm), Err(AmmError::MarketNotFound));
    let args = BuyArgs { market_id: 0, outcome_target: 0, min_shares_out: 21 };
    assert_eq!(c.on_transfer(&s("alice"), 10, Payload::BuyArgs(args), &s("usdc"), &amm), Err(AmmError::SlippageExceeded));
    assert_eq!(c.on_transfer(&s("alice"), 10, Payload::CreateMarketArgs(market_args("eth")), &s("usdc"), &amm), Err(AmmError::TokenNotWhitelisted));
    assert_eq!(c.get_pool_balances(0, &amm), Ok(vec![100, 100]));
    assert_eq!(c.markets.len(), 1);
}

#[test]
fn a_new_market_has_no_outcome_tokens_to_trade() {
    let mut c = contract();
    let amm = s("amm");
    c.create_market(&market_args("usdc"), &amm).unwrap();
    let args = BuyArgs { market_id: 0, outcome_target: 0, min_shares_out: 0 };
    assert_eq!(c.buy(&s("alice"), 10, &args, &amm), Err(AmmError::MissingOutcomeToken));
}

#[test]
fn contract_sell_pays_out_the_difference() {
    let mut c = contract_with_market();
    let amm = s("amm");
    let alice = s("alice");
    c.markets[0].pool.fee = 20;
    let mut t0 = OutComeToken::new(0, 0, 200, &amm);
    t0.mint(&alice, 300);
    c.markets[0].pool.outcome_tokens.insert(0, t0);
    c.markets[0].pool.outcome_tokens.insert(1, OutComeToken::new(0, 1, 1_000, &amm));
    assert_eq!(c.calc_sell_out(0, 10, 0, &amm), Ok(198));
    assert_eq!(c.sell(0, 10, 0, 1_000, &alice, &amm), Err(AmmError::ArithmeticOverflow));
    assert_eq!(c.get_pool_balances(0, &amm), Ok(vec![200, 1_000]));
    assert_eq!(c.sell(0, 500, 0, 1_000_000, &alice, &amm), Err(AmmError::ArithmeticOverflow));
    assert_eq!(c.sell(9, 10, 0, 1_000, &alice, &amm), Err(AmmError::MarketNotFound));
    c.markets[0].pool.fee = 2;
    assert_eq!(c.sell(0, 10, 0, 1_000, &alice, &amm), Ok(10));
    assert_eq!(c.get_pool_balances(0, &amm), Ok(vec![369, 970]));
    let t0 = c.markets[0].pool.outcome_tokens.get(0).unwrap();
    assert_eq!(t0.get_balance(&alice), 101);
    assert_eq!(t0.total_supply(), 470);
}

#[test]
fn storage_deposit_and_withdraw() {
    let mut c = contract();
    let alice = s("alice");
    assert_eq!(c.storage_balance_of(&alice), None);
    assert_eq!(c.storage_deposit(None, 100, &alice), Ok(StorageBalance { total: 100, available: 100 }));
    assert_eq!(c.storage_deposit(Some(s("bob")), 7, &alice), Ok(StorageBalance { total: 7, available: 7 }));
    assert_eq!(c.storage_withdraw(40, &alice), Ok(StorageBalance { total: 60, available: 60 }));
    assert_eq!(c.storage_withdraw(61, &alice), Err(AmmError::ArithmeticOverflow));
    assert_eq!(c.storage_balance_of(&alice), Some(StorageBalance { total: 60, available: 60 }));
    assert_eq!(c.get_storage_account(&s("bob")), AccountStorageBalance { total: 7, available: 7 });
    assert_eq!(c.get_storage_account(&s("carol")), AccountStorageBalance { total: 0, available: 0 });
    assert_eq!(c.storage_deposit(None, u128::MAX, &alice), Err(AmmError::ArithmeticOverflow));
}

#[test]
fn law_deposit_then_withdraw_restores_example() {
    let mut c = contract();
    let alice = s("alice");
    c.storage_deposit(None, 100, &alice).unwrap();
    c.storage_deposit(None, 55, &alice).unwrap();
    c.storage_withdraw(55, &alice).unwrap();
    assert_eq!(c.get_storage_account(&alice), AccountStorageBalance { total: 100, available: 100 });
}

#[test]
fn use_storage_prices_freed_bytes() {
    let mut c = contract();
    let alice = s("alice");
    c.storage_deposit(None, 100, &alice).unwrap();
    assert_eq!(c.use_storage(&alice, 10, 5, 4), Ok(()));
    assert_eq!(
        c.get_storage_account(&alice),
        AccountStorageBalance { total: 100, available: 5 + 6 * STORAGE_PRICE_PER_BYTE }
    );
    assert_eq!(c.use_storage(&alice, 4, 5, 10), Err(AmmError::ArithmeticOverflow));
    assert_eq!(c.use_storage(&alice, 1, u128::MAX, 0), Err(AmmError::ArithmeticOverflow));
    assert_eq!(c.use_storage(&alice, 0, u128::MAX, 0), Ok(()));
    assert_eq!(c.use_storage(&s("bob"), 3, 1, 3), Ok(()));
    assert_eq!(c.get_storage_account(&s("bob")), AccountStorageBalance { total: 0, available: 1 });
}

#[test]
fn refund_deposit_examples() {
    assert_eq!(refund_deposit(10, 3, 100), Ok(Some(70)));
    assert_eq!(refund_deposit(10, 3, 31), Ok(None));
    assert_eq!(refund_deposit(10, 3, 30), Ok(None));
    assert_eq!(refund_deposit(10, 3, 29), Err(AmmError::DepositTooSmall));
    assert_eq!(refund_deposit(u64::MAX, u128::MAX, u128::MAX), Err(AmmError::ArithmeticOverflow));
}

#[test]
fn law_storage_moves_keep_used_part_example() {
    let mut c = contract();
    let alice = s("alice");
    c.storage_deposit(None, 100, &alice).unwrap();
    c.use_storage(&alice, 5, 30, 5).unwrap();
    let before = c.get_storage_account(&alice);
    assert_eq!(before, AccountStorageBalance { total: 100, available: 30 });
    c.storage_deposit(None, 20, &alice).unwrap();
    c.storage_withdraw(45, &alice).unwrap();
    let after = c.get_storage_account(&alice);
    assert_eq!(after.total - after.available, before.total - before.available);
    assert_eq!(after, AccountStorageBalance { total: 75, available: 5 });
}

#[test]
fn law_trades_keep_markets_indexed_example() {
    let mut c = contract_with_market();
    let amm = s("amm");
    c.create_market(&market_args("dai"), &amm).unwrap();
    let args = BuyArgs { market_id: 0, outcome_target: 1, min_shares_out: 0 };
    c.buy(&s("bob"), 10, &args, &amm).unwrap();
    for (i, m) in c.markets.iter().enumerate() {
        assert_eq!(m.pool.id, i as u64);
    }
    assert_eq!(c.get_market_expect(1).unwrap().pool.outcome_tokens.len(), 0);
}
