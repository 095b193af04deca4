//! A bitcoin wallet whose withdrawals can fail.
use vstd::prelude::*;

use crate::text::{decimal, push_decimal};
use vstd::string::StringExecFns;

verus! {

/// An amount of bitcoin.
#[derive(Debug, Clone, Copy, PartialEq, Eq, Structural, PartialOrd, Ord, Hash)]
pub struct Bitcoin(pub u64);

impl Default for Bitcoin {
    fn default() -> (r: Self)
        ensures
            r == Bitcoin(0),
    {
        Bitcoin(0)
    }
}

impl Bitcoin {
    /// The amount as text, such as `10 BTC`.
    pub fn to_string(&self) -> (r: String)
        ensures
            r@ == decimal(self.0 as nat) + " BTC"@,
    {
        let mut out = String::new();
        push_decimal(&mut out, self.0);
        out.append(" BTC");
        out
    }
}

/// A withdrawal asked for more than the balance.
#[derive(Debug, PartialEq, Eq, Structural)]
pub struct InsufficientFundsError;

/// A wallet and what it holds.
pub struct Wallet {
    pub balance: Bitcoin,
}

impl Default for Wallet {
    fn default() -> (r: Self)
        ensures
            r.balance == Bitcoin(0),
    {
        Wallet { balance: Bitcoin::default() }
    }
}

impl Wallet {
    /// Adds `amount`; the new balance must fit in a `u64`.
    pub fn deposit(&mut self, amount: Bitcoin)
        requires
            old(self).balance.0 + amount.0 <= u64::MAX,
        ensures
            final(self).balance.0 == old(self).balance.0 + amount.0,
    {
        self.balance = Bitcoin(self.balance.0 + amount.0);
    }

    /// Takes `amount` out, unless it is more than the balance.
    pub fn withdraw(&mut self, amount: Bitcoin) -> (r: Result<(), InsufficientFundsError>)
        ensures
            r is Ok <==> amount.0 <= old(self).balance.0,
            r is Ok ==> final(self).balance.0 == old(self).balance.0 - amount.0,
            r is Err ==> r == Err::<(), _>(InsufficientFundsError) && final(self).balance
                == old(self).balance,
    {
        if amount.0 > self.balance.0 {
            return Err(InsufficientFundsError);
        }
        self.balance = Bitcoin(self.balance.0 - amount.0);
        Ok(())
    }

    /// What the wallet holds.
    pub fn balance(&self) -> (r: Bitcoin)
        ensures
            r == self.balance,
    {
        self.balance
    }
}

} // verus!
