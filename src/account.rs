//! A liquidity provider's staging account: tokens deposited before they
//! enter a pool.
use vstd::prelude::*;
use crate::book::BalanceBook;

verus! {

/// Why a staging-account operation was refused; the account is then
/// left as it was.
#[derive(PartialEq, Eq, Structural, Debug, Clone, Copy)]
pub enum AccountError {
    /// The account holds less of the token than asked for.
    InsufficientBalance,
    /// The new balance would not fit in 128 bits.
    Arithmetic,
}

pub struct Account {
    /// Deposited balance of each token.
    pub deposits: BalanceBook,
}

impl Account {
    pub open spec fn wf(&self) -> bool {
        self.deposits.wf()
    }

    /// What the account holds of `token`.
    pub open spec fn balance(&self, token: Seq<char>) -> nat {
        self.deposits.balance(token)
    }

    /// An account that holds nothing.
    pub fn new() -> (r: Account)
        ensures
            r.wf(),
            forall|t: Seq<char>| #[trigger] r.balance(t) == 0,
    {
        Account { deposits: BalanceBook::new() }
    }

    /// What the account holds of `token_id`.
    pub fn balance_of(&self, token_id: &String) -> (r: u128)
        requires
            self.wf(),
        ensures
            r == self.balance(token_id@),
    {
        self.deposits.get(token_id)
    }

    /// Adds `amount` of `token_id`.
    pub fn deposit(&mut self, token_id: &String, amount: u128) -> (r: Result<(), AccountError>)
        requires
            old(self).wf(),
        ensures
            final(self).wf(),
            old(self).balance(token_id@) + amount > u128::MAX <==> r is Err,
            r is Err ==> r == Err::<(), AccountError>(AccountError::Arithmetic) && *final(self) == *old(self),
            r is Ok ==> final(self).balance(token_id@) == old(self).balance(token_id@) + amount,
            r is Ok ==> forall|t: Seq<char>| t != token_id@ ==> #[trigger] final(self).balance(t) == old(self).balance(t),
    {
        let balance = self.deposits.get(token_id);
        match balance.checked_add(amount) {
            Some(v) => {
                self.deposits.set(token_id, v);
                Ok(())
            },
            None => Err(AccountError::Arithmetic),
        }
    }

    /// Takes `amount` of `token_id` out.
    pub fn withdraw(&mut self, token_id: &String, amount: u128) -> (r: Result<(), AccountError>)
        requires
            old(self).wf(),
        ensures
            final(self).wf(),
            old(self).balance(token_id@) < amount <==> r is Err,
            r is Err ==> r == Err::<(), AccountError>(AccountError::InsufficientBalance) && *final(self) == *old(self),
            r is Ok ==> final(self).balance(token_id@) == old(self).balance(token_id@) - amount,
            r is Ok ==> forall|t: Seq<char>| t != token_id@ ==> #[trigger] final(self).balance(t) == old(self).balance(t),
    {
        let balance = self.deposits.get(token_id);
        if balance < amount {
            return Err(AccountError::InsufficientBalance);
        }
        self.deposits.set(token_id, balance - amount);
        Ok(())
    }
}

} // verus!
