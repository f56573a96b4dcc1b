//! Data requests: asking the oracle to resolve a market, paid for with a bond.

use vstd::prelude::*;
use crate::AMMContract;

verus! {

/// The gas attached to the transfer that carries a data request.
pub const GAS_BASE_TRANSFER: u64 = 50_000_000_000_000;

/// What a data request is made with.
#[derive(Debug)]
pub struct DataRequestArgs {
    pub tags: Vec<String>,
    pub challenge_period: u64,
}

/// A transfer of `amount` of `token` to `receiver`, carrying a new data
/// request for `target_contract` with the given tags and challenge period,
/// sent with `gas`.
#[derive(Debug)]
pub struct DataRequestCall {
    pub token: String,
    pub receiver: String,
    pub amount: u128,
    pub challenge_period: u64,
    pub target_contract: String,
    pub tags: Vec<String>,
    pub gas: u64,
}

/// The character of decimal digit `d`.
pub open spec fn digit_char(d: nat) -> char {
    if d == 0 {
        '0'
    } else if d == 1 {
        '1'
    } else if d == 2 {
        '2'
    } else if d == 3 {
        '3'
    } else if d == 4 {
        '4'
    } else if d == 5 {
        '5'
    } else if d == 6 {
        '6'
    } else if d == 7 {
        '7'
    } else if d == 8 {
        '8'
    } else {
        '9'
    }
}

/// The decimal digits of `n`, most significant first, without leading zeros.
pub open spec fn decimal(n: nat) -> Seq<char>
    decreases n,
{
    if n < 10 {
        seq![digit_char(n)]
    } else {
        decimal(n / 10).push(digit_char(n % 10))
    }
}

/// The number that a string of decimal digits stands for, most significant
/// digit first.
pub open spec fn decimal_value(s: Seq<char>) -> int
    decreases s.len(),
{
    if s.len() == 0 {
        0
    } else {
        decimal_value(s.drop_last()) * 10 + (s.last() as int - '0' as int)
    }
}

/// `decimal(n)` is the decimal numeral of `n`: it is made of the digits `0` to
/// `9`, reads back as `n`, and starts with `0` only when it is `"0"`.
pub proof fn law_decimal_reads_back(n: nat)
    ensures
        decimal(n).len() > 0,
        forall|i: int| 0 <= i < decimal(n).len() ==> '0' <= #[trigger] decimal(n)[i] <= '9',
        decimal_value(decimal(n)) == n,
        decimal(n)[0] == '0' ==> n == 0,
    decreases n,
{
    let s = decimal(n);
    lemma_digit_char_value(n % 10);
    if n >= 10 {
        law_decimal_reads_back(n / 10);
        assert(s.drop_last() == decimal(n / 10));
        assert(s[0] == decimal(n / 10)[0]);
        assert(n == (n / 10) * 10 + n % 10);
        assert(s.last() == digit_char(n % 10));
        assert(decimal_value(s) == decimal_value(s.drop_last()) * 10 + (s.last() as int - '0' as int));
    } else {
        assert(n % 10 == n);
        assert(s.drop_last() =~= Seq::<char>::empty());
        assert(decimal_value(s.drop_last()) == 0);
        assert(s.last() == digit_char(n));
        assert(decimal_value(s) == decimal_value(s.drop_last()) * 10 + (s.last() as int - '0' as int));
    }
}

proof fn lemma_digit_char_value(d: nat)
    requires
        d < 10,
    ensures
        digit_char(d) as int - '0' as int == d,
        '0' <= digit_char(d) <= '9',
        digit_char(d) == '0' ==> d == 0,
{
}

fn digit_str(d: u64) -> (res: &'static str)
    requires
        d < 10,
    ensures
        res@ == seq![digit_char(d as nat)],
{
    if d == 0 {
        proof { reveal_strlit("0"); }
        "0"
    } else if d == 1 {
        proof { reveal_strlit("1"); }
        "1"
    } else if d == 2 {
        proof { reveal_strlit("2"); }
        "2"
    } else if d == 3 {
        proof { reveal_strlit("3"); }
        "3"
    } else if d == 4 {
        proof { reveal_strlit("4"); }
        "4"
    } else if d == 5 {
        proof { reveal_strlit("5"); }
        "5"
    } else if d == 6 {
        proof { reveal_strlit("6"); }
        "6"
    } else if d == 7 {
        proof { reveal_strlit("7"); }
        "7"
    } else if d == 8 {
        proof { reveal_strlit("8"); }
        "8"
    } else {
        proof { reveal_strlit("9"); }
        "9"
    }
}

/// `n` written in decimal.
pub fn decimal_string(n: u64) -> (res: String)
    ensures
        res@ == decimal(n as nat),
    decreases n,
{
    if n < 10 {
        String::from_str(digit_str(n))
    } else {
        let mut s = decimal_string(n / 10);
        s.append(digit_str(n % 10));
        s
    }
}

impl AMMContract {
    /// The transfer of an `amount` bond in `bond_token` to the oracle that asks
    /// it to resolve a market for `current`, the contract account.
    pub fn create_data_request(
        &self,
        bond_token: &String,
        amount: u128,
        args: DataRequestArgs,
        current: &String,
    ) -> (res: DataRequestCall)
        ensures
            res.token@ == bond_token@,
            res.receiver@ == self.receiver@,
            res.amount == amount,
            res.challenge_period == args.challenge_period,
            res.target_contract@ == current@,
            res.tags@ == args.tags@,
            res.gas == GAS_BASE_TRANSFER,
    {
        DataRequestCall {
            token: bond_token.clone(),
            receiver: self.receiver.clone(),
            amount,
            challenge_period: args.challenge_period,
            target_contract: current.clone(),
            tags: args.tags,
            gas: GAS_BASE_TRANSFER,
        }
    }
}

} // verus!
