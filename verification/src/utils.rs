//! Settling the deposit attached to a call against the storage it used.

use vstd::prelude::*;
use crate::error::AmmError;

verus! {

/// Of `attached_deposit`, what is left once `storage_used` bytes are paid for
/// at `storage_byte_cost` each: `Some` refund when more than one unit is
/// left, `None` when nothing is to be sent back.
pub fn refund_deposit(storage_used: u64, storage_byte_cost: u128, attached_deposit: u128) -> (res: Result<Option<u128>, AmmError>)
    ensures
        storage_byte_cost * storage_used > u128::MAX ==> res == Err::<Option<u128>, AmmError>(
            AmmError::ArithmeticOverflow,
        ),
        storage_byte_cost * storage_used <= u128::MAX && storage_byte_cost * storage_used
            > attached_deposit ==> res == Err::<Option<u128>, AmmError>(AmmError::DepositTooSmall),
        storage_byte_cost * storage_used <= attached_deposit ==> res == Ok::<Option<u128>, AmmError>(
            if attached_deposit - storage_byte_cost * storage_used > 1 {
                Some((attached_deposit - storage_byte_cost * storage_used) as u128)
            } else {
                None
            },
        ),
{
    let used = storage_used as u128;
    let require_cost = match storage_byte_cost.checked_mul(used) {
        Some(c) => c,
        None => {
            return Err(AmmError::ArithmeticOverflow);
        },
    };
    if require_cost > attached_deposit {
        return Err(AmmError::DepositTooSmall);
    }
    let refund = attached_deposit - require_cost;
    if refund > 1 {
        Ok(Some(refund))
    } else {
        Ok(None)
    }
}

} // verus!
