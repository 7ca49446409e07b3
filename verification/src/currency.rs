//! Moving funds between accounts: what the ledger asks of a currency, and a
//! currency held in memory.

use vstd::prelude::*;
use std::collections::HashMap;
use crate::types::{AccountId, Balance};

verus! {

/// Why a currency declined to move funds.
#[derive(Clone, Copy, Debug, PartialEq, Eq, Structural)]
pub enum TransferError {
    /// The sender holds less than the amount.
    InsufficientBalance,
    /// The receiver's balance cannot hold the amount.
    Overflow,
}

/// The balance of `who` once `amount` has moved from `from` to `to`.
pub open spec fn balance_after(
    before: Balance,
    who: AccountId,
    from: AccountId,
    to: AccountId,
    amount: Balance,
) -> int {
    if from == to {
        before as int
    } else if who == from {
        before - amount
    } else if who == to {
        before + amount
    } else {
        before as int
    }
}

/// A currency moves funds between accounts, all or nothing.
pub trait Currency {
    /// What `who` holds.
    spec fn free_balance(&self, who: AccountId) -> Balance;

    /// Whether the currency, as it stands, will move `amount` from `from` to `to`.
    spec fn can_transfer(&self, from: AccountId, to: AccountId, amount: Balance) -> bool;

    /// Moves `amount` from `from` to `to`, or declines and changes nothing.
    fn transfer(
        &mut self,
        from: AccountId,
        to: AccountId,
        amount: Balance,
    ) -> (done: Result<(), TransferError>)
        ensures
            done.is_ok() <==> old(self).can_transfer(from, to, amount),
            done.is_ok() ==> forall|who: AccountId|
                final(self).free_balance(who) == balance_after(
                    old(self).free_balance(who),
                    who,
                    from,
                    to,
                    amount,
                ),
            done.is_err() ==> forall|who: AccountId|
                final(self).free_balance(who) == old(self).free_balance(who),
    ;
}

/// A currency that keeps every balance in memory. An account that was never
/// credited holds nothing.
pub struct Bank {
    balances: HashMap<AccountId, Balance>,
}

impl View for Bank {
    type V = Map<AccountId, Balance>;

    closed spec fn view(&self) -> Map<AccountId, Balance> {
        self.balances@
    }
}

impl Bank {
    pub open spec fn balance(self, who: AccountId) -> Balance {
        if self@.contains_key(who) {
            self@[who]
        } else {
            0
        }
    }

    /// A bank in which nobody holds anything.
    pub fn new() -> (bank: Bank)
        ensures
            bank@ == Map::<AccountId, Balance>::empty(),
    {
        Bank { balances: HashMap::new() }
    }

    /// What `who` holds.
    pub fn balance_of(&self, who: AccountId) -> (held: Balance)
        ensures
            held == self.balance(who),
    {
        match self.balances.get(&who) {
            Some(held) => *held,
            None => 0,
        }
    }

    /// Sets what `who` holds, out of nothing.
    pub fn set_balance(&mut self, who: AccountId, amount: Balance)
        ensures
            final(self)@ == old(self)@.insert(who, amount),
    {
        self.balances.insert(who, amount);
    }
}

impl Currency for Bank {
    open spec fn free_balance(&self, who: AccountId) -> Balance {
        self.balance(who)
    }

    /// The sender holds the amount, and the receiver's balance can take it.
    open spec fn can_transfer(&self, from: AccountId, to: AccountId, amount: Balance) -> bool {
        &&& amount <= self.balance(from)
        &&& from != to ==> self.balance(to) + amount <= Balance::MAX
    }

    fn transfer(
        &mut self,
        from: AccountId,
        to: AccountId,
        amount: Balance,
    ) -> (done: Result<(), TransferError>)
        ensures
            old(self).balance(from) < amount <==> done == Err::<(), TransferError>(
                TransferError::InsufficientBalance,
            ),
    {
        let held: Balance = self.balance_of(from);
        if held < amount {
            return Err(TransferError::InsufficientBalance);
        }
        if from == to {
            return Ok(());
        }
        let other: Balance = self.balance_of(to);
        if other > Balance::MAX - amount {
            return Err(TransferError::Overflow);
        }
        self.balances.insert(from, held - amount);
        self.balances.insert(to, other + amount);
        Ok(())
    }
}

} // verus!
