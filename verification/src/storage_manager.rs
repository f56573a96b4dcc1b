//! Accounting of the storage deposits that accounts attach.

use vstd::prelude::*;
use crate::error::AmmError;
use crate::{AMMContract, ContractState};

verus! {

/// The price of one byte of contract storage, in yoctoNEAR.
pub const STORAGE_PRICE_PER_BYTE: u128 = 10_000_000_000_000_000_000;

/// The storage deposit of an account: what it paid in all, and what is left.
#[derive(Clone, Copy, PartialEq, Eq, Structural, Debug)]
pub struct AccountStorageBalance {
    pub total: u128,
    pub available: u128,
}

/// The answer to a storage query or deposit.
#[derive(Clone, Copy, PartialEq, Eq, Structural, Debug)]
pub struct StorageBalance {
    pub total: u128,
    pub available: u128,
}

/// The storage account of `id`; an account that never deposited has nothing.
pub open spec fn storage_account(accounts: Map<Seq<char>, AccountStorageBalance>, id: Seq<char>) -> AccountStorageBalance {
    if accounts.contains_key(id) {
        accounts[id]
    } else {
        AccountStorageBalance { total: 0, available: 0 }
    }
}

/// The storage account of `id` after a deposit of `amount`; `None` on overflow.
pub open spec fn deposited_storage(account: AccountStorageBalance, amount: u128) -> Option<AccountStorageBalance> {
    if account.available + amount <= u128::MAX && account.total + amount <= u128::MAX {
        Some(AccountStorageBalance {
            total: (account.total + amount) as u128,
            available: (account.available + amount) as u128,
        })
    } else {
        None
    }
}

/// The storage account after a withdrawal of `amount`; `None` when it holds too little.
pub open spec fn withdrawn_storage(account: AccountStorageBalance, amount: u128) -> Option<AccountStorageBalance> {
    if amount <= account.available && amount <= account.total {
        Some(AccountStorageBalance {
            total: (account.total - amount) as u128,
            available: (account.available - amount) as u128,
        })
    } else {
        None
    }
}

/// The answer that reports `account`.
pub open spec fn balance_report(account: AccountStorageBalance) -> StorageBalance {
    StorageBalance { total: account.total, available: account.available }
}

/// Withdrawing what was just deposited gives the account back as it was, and
/// every other account is untouched.
pub proof fn law_deposit_then_withdraw_restores(
    accounts: Map<Seq<char>, AccountStorageBalance>,
    who: Seq<char>,
    amount: u128,
)
    requires
        deposited_storage(storage_account(accounts, who), amount) is Some,
    ensures
        ({
            let a1 = deposited_storage(storage_account(accounts, who), amount)->Some_0;
            &&& withdrawn_storage(a1, amount) == Some(storage_account(accounts, who))
            &&& forall|k: Seq<char>| #[trigger] storage_account(
                accounts.insert(who, a1).insert(who, withdrawn_storage(a1, amount)->Some_0),
                k,
            ) == storage_account(accounts, k)
        }),
{
}

/// Deposits and withdrawals move the total and the available balance of an
/// account together, so the part of the total that is in use stays the same.
pub proof fn law_storage_moves_keep_used_part(account: AccountStorageBalance, amount: u128)
    ensures
        deposited_storage(account, amount) matches Some(a) ==> a.total - a.available
            == account.total - account.available,
        withdrawn_storage(account, amount) matches Some(a) ==> a.total - a.available
            == account.total - account.available,
{
}

/// Every answer about a storage account reports the account's total in
/// `total` and what is available in `available`: a query reports the account
/// as it stands, a deposit reports both raised by the amount, a withdrawal
/// both lowered by it.
pub proof fn law_storage_answers_report_account(
    accounts: Map<Seq<char>, AccountStorageBalance>,
    who: Seq<char>,
    amount: u128,
)
    ensures
        accounts.contains_key(who) ==> balance_report(accounts[who]).total == accounts[who].total
            && balance_report(accounts[who]).available == accounts[who].available,
        deposited_storage(storage_account(accounts, who), amount) matches Some(a) ==> balance_report(a).total
            == storage_account(accounts, who).total + amount && balance_report(a).available
            == storage_account(accounts, who).available + amount,
        withdrawn_storage(storage_account(accounts, who), amount) matches Some(a) ==> balance_report(a).total
            == storage_account(accounts, who).total - amount && balance_report(a).available
            == storage_account(accounts, who).available - amount,
{
}

/// Storage deposits in the standard form: deposit, withdraw, query.
pub trait StorageManager {
    /// Adds `amount`, the attached deposit, to the storage account of `id`, or
    /// of `predecessor` (the account that made the call) when `id` is `None`.
    fn storage_deposit(&mut self, id: Option<String>, amount: u128, predecessor: &String) -> Result<StorageBalance, AmmError>;

    /// Takes `amount` from the storage account of `predecessor`; the caller
    /// then sends it to that account.
    fn storage_withdraw(&mut self, amount: u128, predecessor: &String) -> Result<StorageBalance, AmmError>;

    /// The storage account of `id`, if it has one.
    fn storage_balance_of(&self, id: &String) -> Option<StorageBalance>;
}

impl StorageManager for AMMContract {
    fn storage_deposit(&mut self, id: Option<String>, amount: u128, predecessor: &String) -> (res: Result<StorageBalance, AmmError>)
        ensures
            ({
                let who = match id {
                    Some(a) => a@,
                    None => predecessor@,
                };
                match deposited_storage(storage_account(old(self)@.accounts, who), amount) {
                    Some(acc) => res == Ok::<StorageBalance, AmmError>(balance_report(acc))
                        && final(self)@ == (ContractState {
                        accounts: old(self)@.accounts.insert(who, acc),
                        ..old(self)@
                    }),
                    None => res == Err::<StorageBalance, AmmError>(AmmError::ArithmeticOverflow)
                        && final(self)@ == old(self)@,
                }
            }),
    {
        let who = match id {
            Some(a) => a,
            None => predecessor.clone(),
        };
        let mut account = self.get_storage_account(&who);
        if account.available > u128::MAX - amount || account.total > u128::MAX - amount {
            return Err(AmmError::ArithmeticOverflow);
        }
        account.available = account.available + amount;
        account.total = account.total + amount;
        self.accounts.insert(&who, account);
        Ok(StorageBalance { total: account.total, available: account.available })
    }

    fn storage_withdraw(&mut self, amount: u128, predecessor: &String) -> (res: Result<StorageBalance, AmmError>)
        ensures
            match withdrawn_storage(storage_account(old(self)@.accounts, predecessor@), amount) {
                Some(acc) => res == Ok::<StorageBalance, AmmError>(balance_report(acc))
                    && final(self)@ == (ContractState {
                    accounts: old(self)@.accounts.insert(predecessor@, acc),
                    ..old(self)@
                }),
                None => res == Err::<StorageBalance, AmmError>(AmmError::ArithmeticOverflow)
                    && final(self)@ == old(self)@,
            },
    {
        let mut account = self.get_storage_account(predecessor);
        if amount > account.available || amount > account.total {
            return Err(AmmError::ArithmeticOverflow);
        }
        account.available = account.available - amount;
        account.total = account.total - amount;
        self.accounts.insert(predecessor, account);
        Ok(StorageBalance { total: account.total, available: account.available })
    }

    fn storage_balance_of(&self, id: &String) -> (res: Option<StorageBalance>)
        ensures
            res == (if self@.accounts.contains_key(id@) {
                Some(balance_report(self@.accounts[id@]))
            } else {
                None::<StorageBalance>
            }),
    {
        match self.accounts.get(id) {
            Some(a) => Some(StorageBalance { total: a.total, available: a.available }),
            None => None,
        }
    }
}

impl AMMContract {
    /// The storage account of `id`, with nothing in it if it never deposited.
    pub fn get_storage_account(&self, id: &String) -> (res: AccountStorageBalance)
        ensures
            res == storage_account(self@.accounts, id@),
    {
        match self.accounts.get(id) {
            Some(a) => a,
            None => AccountStorageBalance { total: 0, available: 0 },
        }
    }

    /// Charges `sender_id` for the storage it used: with `usage` the storage
    /// in use before the call and `current_usage` the storage in use now, the
    /// available balance becomes `balance` plus the price of the bytes by which
    /// the storage shrank.
    pub fn use_storage(&mut self, sender_id: &String, usage: u64, balance: u128, current_usage: u64) -> (res: Result<(), AmmError>)
        ensures
            ({
                let acc = storage_account(old(self)@.accounts, sender_id@);
                let available = balance + (usage - current_usage) * STORAGE_PRICE_PER_BYTE;
                if usage < current_usage || available > u128::MAX {
                    res == Err::<(), AmmError>(AmmError::ArithmeticOverflow) && final(self)@ == old(self)@
                } else {
                    res is Ok && final(self)@ == (ContractState {
                        accounts: old(self)@.accounts.insert(
                            sender_id@,
                            AccountStorageBalance { total: acc.total, available: available as u128 },
                        ),
                        ..old(self)@
                    })
                }
            }),
    {
        if usage < current_usage {
            return Err(AmmError::ArithmeticOverflow);
        }
        let d = (usage - current_usage) as u128;
        if d > 0 && (d > u128::MAX / STORAGE_PRICE_PER_BYTE || balance > u128::MAX - d * STORAGE_PRICE_PER_BYTE) {
            proof {
                if d > u128::MAX / STORAGE_PRICE_PER_BYTE {
                    assert(d * STORAGE_PRICE_PER_BYTE > u128::MAX) by (nonlinear_arith)
                        requires
                            d > u128::MAX / STORAGE_PRICE_PER_BYTE,
                            STORAGE_PRICE_PER_BYTE > 0,
                    ;
                }
            }
            return Err(AmmError::ArithmeticOverflow);
        }
        proof {
            if d > 0 {
                assert(d * STORAGE_PRICE_PER_BYTE <= u128::MAX) by (nonlinear_arith)
                    requires
                        d <= u128::MAX / STORAGE_PRICE_PER_BYTE,
                        STORAGE_PRICE_PER_BYTE > 0,
                ;
            }
        }
        let mut account = self.get_storage_account(sender_id);
        account.available = balance + d * STORAGE_PRICE_PER_BYTE;
        self.accounts.insert(sender_id, account);
        Ok(())
    }
}

} // verus!
