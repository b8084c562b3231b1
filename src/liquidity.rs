//! Liquidity operations of the registry, each split at its external calls:
//! a first step checks the request and says which call to make, and a
//! continuation takes the call's outcome and commits, re-reading the state
//! as it is then.
use vstd::prelude::*;
use crate::account::Account;
use crate::attestation::listed;
use crate::naming::{ledger_token_id, ledger_token_of, pool_account_id, pool_account_of};
use crate::pool::Pool;
use crate::registry::{
    find_name, find_text, from_pool_error, names_distinct, pool_error_spec, CallContext, Contract, RegistryError,
    CREATE_POOL_STORAGE_DEPOSIT, ONE_YOCTO,
};

verus! {

/// A request to the intents ledger for a pool's balances.
pub struct BalanceQuery {
    pub pool_id: u32,
    /// The pool's sub-account, whose balances are asked for.
    pub account_id: String,
    /// The ledger ids of the pool's two tokens.
    pub token_ids: Vec<String>,
}

/// A token transfer into the intents ledger, credited to `msg`'s account.
pub struct TokenTransfer {
    pub token_id: String,
    pub receiver_id: String,
    pub amount: u128,
    pub msg: String,
}

/// A withdrawal out of a pool's vault on the intents ledger.
pub struct Withdrawal {
    pub vault_account_id: String,
    pub intents_contract_id: String,
    pub token_id: String,
    pub receiver_id: String,
    pub amount: u128,
}

/// A pool whose sub-account is to be created.
pub struct PoolCreation {
    pub pool_id: u32,
    pub pool_account_id: String,
}

/// Shares minted for a deposit, and the transfers that move the deposit
/// into the pool's vault.
pub struct LiquidityDeposit {
    pub shares_minted: u128,
    pub transfers: Vec<TokenTransfer>,
}

/// A settled liquidity operation, to be logged.
pub enum LiquidityEvent {
    AddLiquidity { pool_id: u32, account_id: String, amounts: Vec<u128>, shares_minted: u128 },
    RemoveLiquidity { pool_id: u32, account_id: String, amounts: Vec<u128>, shares_burned: u128 },
    ClaimRewards { pool_id: u32, account_id: String, rewards: Vec<u128> },
}

/// Every call of a fan-out succeeded.
pub open spec fn all_succeeded(outcomes: Seq<bool>) -> bool {
    forall|i: int| 0 <= i < outcomes.len() ==> #[trigger] outcomes[i]
}

fn all_ok(outcomes: &Vec<bool>) -> (r: bool)
    ensures
        r == all_succeeded(outcomes@),
{
    let mut i: usize = 0;
    while i < outcomes.len()
        invariant
            i <= outcomes@.len(),
            forall|j: int| 0 <= j < i ==> #[trigger] outcomes@[j],
        decreases outcomes@.len() - i,
    {
        if !outcomes[i] {
            return false;
        }
        i = i + 1;
    }
    true
}

fn copy_values(v: &Vec<u128>) -> (r: Vec<u128>)
    ensures
        r@ == v@,
{
    let r = v.clone();
    assert(r@ =~= v@);
    r
}

/// What a token transfer to the registry asks for.
pub enum TokenReceiverMessage {
    /// Send the tokens on into the pool's vault.
    DepositIntoPool { pool_id: u32 },
    /// Keep the tokens in the sender's staging account, for `add_liquidity`.
    DepositIntoAccount { pool_id: u32 },
}

/// The answer to a token transfer.
pub enum TransferReply {
    /// Hand back this much to the sender.
    Refund(u128),
    /// Forward the tokens; then `on_deposit_into_pool`.
    Forward(TokenTransfer),
}

impl Contract {
    /// What account `a` holds of token `t` in its staging account.
    pub open spec fn staging_of(&self, a: Seq<char>, t: Seq<char>) -> nat {
        if exists|i: int| 0 <= i < self.accounts@.len() && (#[trigger] self.accounts@[i]).0@ == a {
            let i = choose|i: int| 0 <= i < self.accounts@.len() && (#[trigger] self.accounts@[i]).0@ == a;
            self.accounts@[i].1.balance(t)
        } else {
            0
        }
    }

    proof fn lemma_staging_at(&self, i: int, t: Seq<char>)
        requires
            names_distinct(self.accounts@),
            0 <= i < self.accounts@.len(),
        ensures
            self.staging_of(self.accounts@[i].0@, t) == self.accounts@[i].1.balance(t),
    {
        let a = self.accounts@[i].0@;
        let j = choose|j: int| 0 <= j < self.accounts@.len() && (#[trigger] self.accounts@[j]).0@ == a;
        if j < i {
            assert(self.accounts@[j].0@ != self.accounts@[i].0@);
        } else if j > i {
            assert(self.accounts@[i].0@ != self.accounts@[j].0@);
        }
    }

    proof fn lemma_staging_absent(&self, a: Seq<char>, t: Seq<char>)
        requires
            forall|i: int| 0 <= i < self.accounts@.len() ==> (#[trigger] self.accounts@[i]).0@ != a,
        ensures
            self.staging_of(a, t) == 0,
    {
    }

    /// Everything but the staging accounts is as in `o`.
    pub open spec fn same_but_accounts(&self, o: &Contract) -> bool {
        &&& self.owner_id == o.owner_id
        &&& self.current_account_id == o.current_account_id
        &&& self.intents_contract_id == o.intents_contract_id
        &&& self.paused == o.paused
        &&& self.pause_managers == o.pause_managers
        &&& self.unpause_managers == o.unpause_managers
        &&& self.pools == o.pools
        &&& self.approved_compose_hashes == o.approved_compose_hashes
        &&& self.workers == o.workers
        &&& self.worker_ping_timeout_ms == o.worker_ping_timeout_ms
    }

    /// What `account_id` holds of `token_id` in its staging account.
    pub fn get_account_balance(&self, account_id: &String, token_id: &String) -> (r: u128)
        requires
            self.wf(),
        ensures
            r == self.staging_of(account_id@, token_id@),
    {
        match find_name(&self.accounts, account_id) {
            Some(i) => {
                proof {
                    self.lemma_staging_at(i as int, token_id@);
                }
                self.accounts[i].1.balance_of(token_id)
            },
            None => {
                proof {
                    self.lemma_staging_absent(account_id@, token_id@);
                }
                0
            },
        }
    }

    /// Applies `deposit` (adding `amount`) or a withdrawal (taking it) to
    /// `account_id`'s balance of `token_id`, creating the account if needed.
    fn change_staging(&mut self, account_id: &String, token_id: &String, amount: u128, deposit: bool)
        requires
            old(self).wf(),
            deposit ==> old(self).staging_of(account_id@, token_id@) + amount <= u128::MAX,
            !deposit ==> old(self).staging_of(account_id@, token_id@) >= amount,
        ensures
            final(self).wf(),
            final(self).same_but_accounts(old(self)),
            deposit ==> final(self).staging_of(account_id@, token_id@) == old(self).staging_of(account_id@, token_id@) + amount,
            !deposit ==> final(self).staging_of(account_id@, token_id@) == old(self).staging_of(account_id@, token_id@) - amount,
            forall|a: Seq<char>, t: Seq<char>|
                !(a == account_id@ && t == token_id@) ==> #[trigger] final(self).staging_of(a, t) == old(self).staging_of(a, t),
    {
        let ghost old_self = *self;
        let i = match find_name(&self.accounts, account_id) {
            Some(i) => {
                proof {
                    self.lemma_staging_at(i as int, token_id@);
                }
                i
            },
            None => {
                proof {
                    self.lemma_staging_absent(account_id@, token_id@);
                }
                let ghost before = self.accounts@;
                self.accounts.push((account_id.clone(), Account::new()));
                proof {
                    let after = self.accounts@;
                    assert(after.drop_last() =~= before);
                    assert(names_distinct(after)) by {
                        assert forall|a: int, b: int| 0 <= a < b < after.len() implies #[trigger] after[a].0@ != #[trigger] after[b].0@ by {
                            assert(after[a] == before[a]);
                            if b < before.len() {
                                assert(after[b] == before[b]);
                            }
                        }
                    }
                    assert forall|k: int| 0 <= k < after.len() implies (#[trigger] after[k]).1.wf() by {
                        if k < before.len() {
                            assert(after[k] == before[k]);
                        }
                    }
                    assert forall|a: Seq<char>, t: Seq<char>| #[trigger] self.staging_of(a, t) == old_self.staging_of(a, t) by {
                        if a == account_id@ {
                            self.lemma_staging_at(before.len() as int, t);
                            old_self.lemma_staging_absent(a, t);
                        } else if exists|k: int| 0 <= k < before.len() && (#[trigger] before[k]).0@ == a {
                            let k = choose|k: int| 0 <= k < before.len() && (#[trigger] before[k]).0@ == a;
                            assert(after[k] == before[k]);
                            self.lemma_staging_at(k, t);
                            old_self.lemma_staging_at(k, t);
                        } else {
                            assert forall|k: int| 0 <= k < after.len() implies (#[trigger] after[k]).0@ != a by {
                                if k < before.len() {
                                    assert(after[k] == before[k]);
                                }
                            }
                        }
                    }
                    old_self.lemma_wf_from_tables_accounts(self);
                }
                self.accounts.len() - 1
            },
        };
        let ghost mid = *self;
        let ghost mid_accounts = self.accounts@;
        let (name, mut account) = self.accounts.remove(i);
        proof {
            assert(mid_accounts[i as int].1.wf());
            mid.lemma_staging_at(i as int, token_id@);
        }
        let res = if deposit {
            account.deposit(token_id, amount)
        } else {
            account.withdraw(token_id, amount)
        };
        self.accounts.insert(i, (name, account));
        proof {
            let after = self.accounts@;
            assert(after =~= mid_accounts.update(i as int, (name, account)));
            assert(names_distinct(after)) by {
                assert forall|a: int, b: int| 0 <= a < b < after.len() implies #[trigger] after[a].0@ != #[trigger] after[b].0@ by {
                    assert(after[a].0@ == mid_accounts[a].0@ && after[b].0@ == mid_accounts[b].0@);
                }
            }
            assert forall|k: int| 0 <= k < after.len() implies (#[trigger] after[k]).1.wf() by {
                if k != i {
                    assert(after[k] == mid_accounts[k]);
                }
            }
            assert forall|a: Seq<char>, t: Seq<char>| !(a == account_id@ && t == token_id@) implies #[trigger] self.staging_of(a, t) == mid.staging_of(a, t) by {
                if a == account_id@ {
                    self.lemma_staging_at(i as int, t);
                    mid.lemma_staging_at(i as int, t);
                } else if exists|k: int| 0 <= k < after.len() && (#[trigger] after[k]).0@ == a {
                    let k = choose|k: int| 0 <= k < after.len() && (#[trigger] after[k]).0@ == a;
                    assert(k != i);
                    assert(after[k] == mid_accounts[k]);
                    self.lemma_staging_at(k, t);
                    mid.lemma_staging_at(k, t);
                } else {
                    assert forall|k: int| 0 <= k < mid_accounts.len() implies (#[trigger] mid_accounts[k]).0@ != a by {
                        if k != i {
                            assert(after[k] == mid_accounts[k]);
                        }
                    }
                }
            }
            self.lemma_staging_at(i as int, token_id@);
            mid.lemma_wf_from_tables_accounts(self);
        }
    }

    /// `q` asks the intents ledger for the balances of pool `pool_id`'s
    /// sub-account in its two tokens.
    pub open spec fn is_balance_query(&self, q: BalanceQuery, pool_id: u32) -> bool {
        &&& q.pool_id == pool_id
        &&& q.account_id@ == pool_account_of(pool_id as nat, self.current_account_id@)
        &&& q.token_ids@.len() == 2
        &&& q.token_ids@[0]@ == ledger_token_of(self.pools@[pool_id as int].token_ids@[0]@)
        &&& q.token_ids@[1]@ == ledger_token_of(self.pools@[pool_id as int].token_ids@[1]@)
    }

    /// A request for pool `pool_id`'s balances on the intents ledger.
    pub fn sync_balances_from_intents(&self, pool_id: u32) -> (r: Result<BalanceQuery, RegistryError>)
        requires
            self.wf(),
        ensures
            if pool_id as int >= self.pools@.len() {
                r == Err::<BalanceQuery, RegistryError>(RegistryError::NotFound)
            } else {
                r matches Ok(q) && self.is_balance_query(q, pool_id)
            },
    {
        if pool_id as usize >= self.pools.len() {
            return Err(RegistryError::NotFound);
        }
        let pool = &self.pools[pool_id as usize];
        proof {
            assert(pool.wf());
        }
        let t0 = ledger_token_id(&pool.token_ids[0]);
        let t1 = ledger_token_id(&pool.token_ids[1]);
        let token_ids = vec![t0, t1];
        Ok(BalanceQuery { pool_id, account_id: pool_account_id(pool_id, &self.current_account_id), token_ids })
    }

    /// Overwrites pool `pool_id`'s reserves with the ledger's balances, net
    /// of unclaimed fees (never below zero), once the query has answered.
    pub fn on_sync_balances_from_intents(&mut self, pool_id: u32, balances: Option<Vec<u128>>) -> (r:
        Result<(), RegistryError>)
        requires
            old(self).wf(),
        ensures
            final(self).wf(),
            match balances {
                None => r == Err::<(), RegistryError>(RegistryError::ExternalCallFailed) && *final(self) == *old(self),
                Some(b) => if pool_id as int >= old(self).pools@.len() {
                    r == Err::<(), RegistryError>(RegistryError::NotFound) && *final(self) == *old(self)
                } else {
                let p = pool_id as int;
                let old_pool = old(self).pools@[p];
                if b@.len() != 2 {
                    r == Err::<(), RegistryError>(RegistryError::ExternalCallFailed) && *final(self) == *old(self)
                } else {
                    &&& r is Ok
                    &&& final(self).pools@.len() == old(self).pools@.len()
                    &&& final(self).pools@[p].amounts@ == seq![
                        (if b@[0] >= old_pool.unclaimed_fees@[0] { b@[0] - old_pool.unclaimed_fees@[0] } else { 0 }) as u128,
                        (if b@[1] >= old_pool.unclaimed_fees@[1] { b@[1] - old_pool.unclaimed_fees@[1] } else { 0 }) as u128,
                    ]
                    &&& final(self).pools@[p] == (Pool { amounts: final(self).pools@[p].amounts, ..old_pool })
                    &&& forall|q: int| 0 <= q < old(self).pools@.len() && q != p ==> #[trigger] final(self).pools@[q] == old(self).pools@[q]
                    &&& final(self).workers == old(self).workers
                    &&& final(self).same_settings(old(self))
                }
                },
            },
    {
        let balances = match balances {
            Some(b) => b,
            None => {
                return Err(RegistryError::ExternalCallFailed);
            },
        };
        if pool_id as usize >= self.pools.len() {
            return Err(RegistryError::NotFound);
        }
        if balances.len() != 2 {
            return Err(RegistryError::ExternalCallFailed);
        }
        let p = pool_id as usize;
        let ghost old_self = *self;
        let mut pool = self.pools.remove(p);
        proof {
            assert(old_self.pools@[p as int].wf());
        }
        let a0 = balances[0].saturating_sub(pool.unclaimed_fees[0]);
        let a1 = balances[1].saturating_sub(pool.unclaimed_fees[1]);
        pool.amounts.set(0, a0);
        pool.amounts.set(1, a1);
        self.pools.insert(p, pool);
        proof {
            assert(self.pools@ =~= old_self.pools@.update(p as int, pool));
            assert(pool.amounts@ =~= seq![a0, a1]);
            old_self.lemma_replace_pool(self, p as int);
        }
        Ok(())
    }

    /// The refusal, if any, of a request to create a pool.
    pub open spec fn create_pool_error(&self, ctx: &CallContext, token_ids: Seq<String>, fee: u32) -> Option<RegistryError> {
        if ctx.attached_deposit < CREATE_POOL_STORAGE_DEPOSIT {
            Some(RegistryError::Unauthorized)
        } else if !Pool::valid_terms(token_ids, fee) {
            Some(RegistryError::InvalidArgument)
        } else if self.pools@.len() >= u32::MAX {
            Some(RegistryError::Arithmetic)
        } else {
            None
        }
    }

    /// Asks to create a pool of `token_ids` with fee `fee` (basis points):
    /// its sub-account is to be created and funded first (then
    /// `on_create_liquidity_pool_account`).
    pub fn create_liquidity_pool(&self, ctx: &CallContext, token_ids: &Vec<String>, fee: u32) -> (r:
        Result<PoolCreation, RegistryError>)
        requires
            self.wf(),
        ensures
            match self.create_pool_error(ctx, token_ids@, fee) {
                Some(e) => r == Err::<PoolCreation, RegistryError>(e),
                None => r matches Ok(c) && c.pool_id == self.pools@.len() && c.pool_account_id@
                    == pool_account_of(c.pool_id as nat, self.current_account_id@),
            },
    {
        if ctx.attached_deposit < CREATE_POOL_STORAGE_DEPOSIT {
            return Err(RegistryError::Unauthorized);
        }
        if token_ids.len() != 2 || token_ids[0] == token_ids[1] || fee >= 10_000 {
            return Err(RegistryError::InvalidArgument);
        }
        if self.pools.len() >= 0xffff_ffffusize {
            return Err(RegistryError::Arithmetic);
        }
        let pool_id = self.pools.len() as u32;
        Ok(PoolCreation { pool_id, pool_account_id: pool_account_id(pool_id, &self.current_account_id) })
    }

    /// Adds the pool once its sub-account exists; returns its id, the
    /// next free one, or `None` where the account could not be created or
    /// the terms are invalid.
    pub fn on_create_liquidity_pool_account(&mut self, token_ids: Vec<String>, fee: u32, created: bool) -> (r:
        Option<u32>)
        requires
            old(self).wf(),
        ensures
            final(self).wf(),
            (created && Pool::valid_terms(token_ids@, fee) && old(self).pools@.len() < u32::MAX) <==> r is Some,
            r is None ==> *final(self) == *old(self),
            r matches Some(id) ==> {
                &&& id == old(self).pools@.len()
                &&& final(self).pools@.drop_last() == old(self).pools@
                &&& final(self).pools@.len() == old(self).pools@.len() + 1
                &&& final(self).pools@.last().token_ids@ == token_ids@
                &&& final(self).pools@.last().fee == fee
                &&& final(self).pools@.last().shares_total_supply == 0
                &&& final(self).pools@.last().worker_id is None
                &&& final(self).pools@.last().last_ping_timestamp_ms == 0
                &&& final(self).pools@.last().amounts@ == seq![0u128, 0u128]
                &&& final(self).pools@.last().unclaimed_fees@ == seq![0u128, 0u128]
                &&& final(self).pools@.last().fees_per_share@ == seq![0u128, 0u128]
                &&& forall|k: Seq<char>| #[trigger] final(self).pools@.last().shares_of(k) == 0
                &&& forall|i: int, k: Seq<char>| 0 <= i < 2 ==> #[trigger] final(self).pools@.last().last_claimed_fees@[i].balance(k) == 0
                &&& final(self).workers == old(self).workers
                &&& final(self).same_settings(old(self))
            },
    {
        if !created {
            return None;
        }
        if self.pools.len() >= 0xffff_ffffusize {
            return None;
        }
        let pool = match Pool::new(token_ids, fee) {
            Ok(p) => p,
            Err(_) => {
                return None;
            },
        };
        let pool_id = self.pools.len() as u32;
        let ghost old_self = *self;
        self.pools.push(pool);
        proof {
            let before = old_self.pools@;
            let after = self.pools@;
            assert(after.drop_last() =~= before);
            assert forall|q: int| 0 <= q < after.len() implies (#[trigger] after[q]).wf() by {
                if q < before.len() {
                    assert(after[q] == before[q]);
                }
            }
            assert forall|i: int| 0 <= i < self.workers@.len() implies self.seated(#[trigger] self.workers@[i]) by {
                assert(old_self.seated(old_self.workers@[i]));
                assert(after[self.workers@[i].1.pool_id as int] == before[self.workers@[i].1.pool_id as int]);
            }
        }
        Some(pool_id)
    }

    /// Moves `amount` of `token_id` into `account_id`'s staging account.
    pub fn deposit_into_account(&mut self, account_id: &String, token_id: &String, amount: u128) -> (r:
        Result<(), RegistryError>)
        requires
            old(self).wf(),
        ensures
            final(self).wf(),
            old(self).staging_of(account_id@, token_id@) + amount > u128::MAX ==> r == Err::<(), RegistryError>(
                RegistryError::Arithmetic) && *final(self) == *old(self),
            old(self).staging_of(account_id@, token_id@) + amount <= u128::MAX ==> {
                &&& r is Ok
                &&& final(self).same_but_accounts(old(self))
                &&& final(self).staging_of(account_id@, token_id@) == old(self).staging_of(account_id@, token_id@) + amount
                &&& forall|a: Seq<char>, t: Seq<char>| !(a == account_id@ && t == token_id@) ==> #[trigger] final(self).staging_of(a, t) == old(self).staging_of(a, t)
            },
    {
        let balance = self.get_account_balance(account_id, token_id);
        if balance.checked_add(amount).is_none() {
            return Err(RegistryError::Arithmetic);
        }
        self.change_staging(account_id, token_id, amount, true);
        Ok(())
    }

    /// Takes `amount` of `token_id` out of `account_id`'s staging account.
    pub fn withdraw_from_account(&mut self, account_id: &String, token_id: &String, amount: u128) -> (r:
        Result<(), RegistryError>)
        requires
            old(self).wf(),
        ensures
            final(self).wf(),
            old(self).staging_of(account_id@, token_id@) < amount ==> r == Err::<(), RegistryError>(
                RegistryError::InsufficientBalance) && *final(self) == *old(self),
            old(self).staging_of(account_id@, token_id@) >= amount ==> {
                &&& r is Ok
                &&& final(self).same_but_accounts(old(self))
                &&& final(self).staging_of(account_id@, token_id@) == old(self).staging_of(account_id@, token_id@) - amount
                &&& forall|a: Seq<char>, t: Seq<char>| !(a == account_id@ && t == token_id@) ==> #[trigger] final(self).staging_of(a, t) == old(self).staging_of(a, t)
            },
    {
        let balance = self.get_account_balance(account_id, token_id);
        if balance < amount {
            return Err(RegistryError::InsufficientBalance);
        }
        self.change_staging(account_id, token_id, amount, false);
        Ok(())
    }

    /// Asks to add `amounts` of the two tokens, already in the caller's
    /// staging account, to pool `pool_id`: the pool's balances are to be
    /// synced first (then `on_add_liquidity_start`).
    pub fn add_liquidity(&self, ctx: &CallContext, pool_id: u32, amounts: &Vec<u128>) -> (r: Result<
        BalanceQuery,
        RegistryError,
    >)
        requires
            self.wf(),
        ensures
            if ctx.attached_deposit != ONE_YOCTO {
                r == Err::<BalanceQuery, RegistryError>(RegistryError::Unauthorized)
            } else if amounts@.len() != 2 || amounts@[0] == 0 || amounts@[1] == 0 {
                r == Err::<BalanceQuery, RegistryError>(RegistryError::InvalidArgument)
            } else if pool_id as int >= self.pools@.len() {
                r == Err::<BalanceQuery, RegistryError>(RegistryError::NotFound)
            } else {
                r matches Ok(q) && self.is_balance_query(q, pool_id)
            },
    {
        if ctx.attached_deposit != ONE_YOCTO {
            return Err(RegistryError::Unauthorized);
        }
        if amounts.len() != 2 || amounts[0] == 0 || amounts[1] == 0 {
            return Err(RegistryError::InvalidArgument);
        }
        self.sync_balances_from_intents(pool_id)
    }

    /// The refusal, if any, of the continuation of an addition of liquidity.
    pub open spec fn add_start_error(&self, k: Seq<char>, pool_id: u32, amounts: Seq<u128>, synced: bool) -> Option<RegistryError> {
        if !synced {
            Some(RegistryError::ExternalCallFailed)
        } else if pool_id as int >= self.pools@.len() {
            Some(RegistryError::NotFound)
        } else if amounts.len() != 2 {
            Some(RegistryError::InvalidArgument)
        } else if self.staging_of(k, self.pools@[pool_id as int].token_ids@[0]@) < amounts[0]
            || self.staging_of(k, self.pools@[pool_id as int].token_ids@[1]@) < amounts[1] {
            Some(RegistryError::InsufficientBalance)
        } else {
            match self.pools@[pool_id as int].mint_error(amounts) {
                Some(e) => Some(pool_error_spec(e)),
                None => None,
            }
        }
    }

    /// Continues an addition of liquidity once the balances are synced:
    /// takes the amounts out of the staging account, mints the shares, and
    /// returns them with the transfers that move the tokens into the
    /// pool's vault (then `on_add_liquidity_end`).
    pub fn on_add_liquidity_start(&mut self, account_id: &String, pool_id: u32, amounts: Vec<u128>, synced: bool) -> (r:
        Result<LiquidityDeposit, RegistryError>)
        requires
            old(self).wf(),
        ensures
            final(self).wf(),
            match old(self).add_start_error(account_id@, pool_id, amounts@, synced) {
                Some(e) => r == Err::<LiquidityDeposit, RegistryError>(e) && final(self).unchanged_from(old(self)),
                None => r matches Ok(d) && {
                    let p = pool_id as int;
                    let op = old(self).pools@[p];
                    let np = final(self).pools@[p];
                    let s = d.shares_minted;
                    &&& s > 0
                    &&& op.mints(amounts@[0] as int, amounts@[1] as int, s as int)
                    &&& np.amounts@ == seq![(op.amounts@[0] + amounts@[0]) as u128, (op.amounts@[1] + amounts@[1]) as u128]
                    &&& np.shares_of(account_id@) == op.shares_of(account_id@) + s
                    &&& forall|k: Seq<char>| k != account_id@ ==> #[trigger] np.shares_of(k) == op.shares_of(k)
                    &&& np.shares_total_supply == op.shares_total_supply + s
                    &&& np.same_terms(&op)
                    &&& np.unclaimed_fees == op.unclaimed_fees
                    &&& np.fees_per_share == op.fees_per_share
                    &&& np.last_claimed_fees == op.last_claimed_fees
                    &&& final(self).pools@.len() == old(self).pools@.len()
                    &&& forall|q: int| 0 <= q < old(self).pools@.len() && q != p ==> #[trigger] final(self).pools@[q] == old(self).pools@[q]
                    &&& final(self).staging_of(account_id@, op.token_ids@[0]@) == old(self).staging_of(account_id@, op.token_ids@[0]@) - amounts@[0]
                    &&& final(self).staging_of(account_id@, op.token_ids@[1]@) == old(self).staging_of(account_id@, op.token_ids@[1]@) - amounts@[1]
                    &&& d.transfers@.len() == 2
                    &&& forall|i: int| 0 <= i < 2 ==> {
                        &&& (#[trigger] d.transfers@[i]).token_id@ == op.token_ids@[i]@
                        &&& d.transfers@[i].receiver_id@ == old(self).intents_contract_id@
                        &&& d.transfers@[i].amount == amounts@[i]
                        &&& d.transfers@[i].msg@ == pool_account_of(pool_id as nat, old(self).current_account_id@)
                    }
                    &&& final(self).workers == old(self).workers
                    &&& final(self).approved_compose_hashes == old(self).approved_compose_hashes
                },
            },
    {
        if !synced {
            return Err(RegistryError::ExternalCallFailed);
        }
        if pool_id as usize >= self.pools.len() {
            return Err(RegistryError::NotFound);
        }
        if amounts.len() != 2 {
            return Err(RegistryError::InvalidArgument);
        }
        let p = pool_id as usize;
        proof {
            assert(self.pools@[p as int].wf());
        }
        let token_ids = self.pools[p].get_token_ids();
        if self.get_account_balance(account_id, &token_ids[0]) < amounts[0]
            || self.get_account_balance(account_id, &token_ids[1]) < amounts[1] {
            return Err(RegistryError::InsufficientBalance);
        }
        let a0 = amounts[0];
        let a1 = amounts[1];
        let ghost old_self = *self;
        let mut pool = self.pools.remove(p);
        let minted = pool.add_liquidity(account_id, amounts);
        self.pools.insert(p, pool);
        proof {
            assert(self.pools@ =~= old_self.pools@.update(p as int, pool));
        }
        let shares_minted = match minted {
            Ok(s) => s,
            Err(e) => {
                proof {
                    assert(self.pools@ =~= old_self.pools@);
                    old_self.lemma_wf_from_tables(self);
                }
                return Err(from_pool_error(e));
            },
        };
        proof {
            old_self.lemma_replace_pool(self, p as int);
        }
        let ghost mid = *self;
        self.change_staging(account_id, &token_ids[0], a0, false);
        self.change_staging(account_id, &token_ids[1], a1, false);
        let msg = pool_account_id(pool_id, &self.current_account_id);
        let t0 = TokenTransfer {
            token_id: token_ids[0].clone(),
            receiver_id: self.intents_contract_id.clone(),
            amount: a0,
            msg: msg.clone(),
        };
        let t1 = TokenTransfer {
            token_id: token_ids[1].clone(),
            receiver_id: self.intents_contract_id.clone(),
            amount: a1,
            msg,
        };
        let transfers = vec![t0, t1];
        proof {
            assert(transfers@[0] == t0 && transfers@[1] == t1);
        }
        Ok(LiquidityDeposit { shares_minted, transfers })
    }


    /// Asks to burn `shares` of the caller's shares in pool `pool_id`: the
    /// pool's balances are to be synced first (then `on_remove_liquidity_start`).
    pub fn remove_liquidity(&self, ctx: &CallContext, pool_id: u32, shares: u128) -> (r: Result<
        BalanceQuery,
        RegistryError,
    >)
        requires
            self.wf(),
        ensures
            if ctx.attached_deposit != ONE_YOCTO {
                r == Err::<BalanceQuery, RegistryError>(RegistryError::Unauthorized)
            } else if shares == 0 {
                r == Err::<BalanceQuery, RegistryError>(RegistryError::InvalidArgument)
            } else if pool_id as int >= self.pools@.len() {
                r == Err::<BalanceQuery, RegistryError>(RegistryError::NotFound)
            } else {
                r matches Ok(q) && self.is_balance_query(q, pool_id)
            },
    {
        if ctx.attached_deposit != ONE_YOCTO {
            return Err(RegistryError::Unauthorized);
        }
        if shares == 0 {
            return Err(RegistryError::InvalidArgument);
        }
        self.sync_balances_from_intents(pool_id)
    }

    /// The refusal, if any, of the continuation of a removal of liquidity.
    pub open spec fn remove_start_error(&self, k: Seq<char>, pool_id: u32, shares: u128, synced: bool) -> Option<RegistryError> {
        if !synced {
            Some(RegistryError::ExternalCallFailed)
        } else if pool_id as int >= self.pools@.len() {
            Some(RegistryError::NotFound)
        } else {
            match self.pools@[pool_id as int].burn_error(k, shares) {
                Some(e) => Some(pool_error_spec(e)),
                None => None,
            }
        }
    }

    /// Continues a removal of liquidity once the balances are synced: burns
    /// the shares and returns the withdrawals of the provider's part of each
    /// reserve (then `on_remove_liquidity_end`).
    pub fn on_remove_liquidity_start(&mut self, account_id: &String, pool_id: u32, shares: u128, synced: bool) -> (r:
        Result<Vec<Withdrawal>, RegistryError>)
        requires
            old(self).wf(),
        ensures
            final(self).wf(),
            match old(self).remove_start_error(account_id@, pool_id, shares, synced) {
                Some(e) => r == Err::<Vec<Withdrawal>, RegistryError>(e) && final(self).unchanged_from(old(self)),
                None => r matches Ok(ws) && {
                    let p = pool_id as int;
                    let op = old(self).pools@[p];
                    let np = final(self).pools@[p];
                    &&& np.amounts@ == seq![(op.amounts@[0] - op.payout(shares, 0)) as u128, (op.amounts@[1] - op.payout(shares, 1)) as u128]
                    &&& np.shares_of(account_id@) == op.shares_of(account_id@) - shares
                    &&& forall|k: Seq<char>| k != account_id@ ==> #[trigger] np.shares_of(k) == op.shares_of(k)
                    &&& np.shares_total_supply == op.shares_total_supply - shares
                    &&& np.same_terms(&op)
                    &&& np.unclaimed_fees == op.unclaimed_fees
                    &&& np.fees_per_share == op.fees_per_share
                    &&& np.last_claimed_fees == op.last_claimed_fees
                    &&& final(self).pools@.len() == old(self).pools@.len()
                    &&& forall|q: int| 0 <= q < old(self).pools@.len() && q != p ==> #[trigger] final(self).pools@[q] == old(self).pools@[q]
                    &&& ws@.len() == 2
                    &&& forall|i: int| 0 <= i < 2 ==> {
                        &&& (#[trigger] ws@[i]).token_id@ == op.token_ids@[i]@
                        &&& ws@[i].amount == op.payout(shares, i)
                        &&& ws@[i].receiver_id@ == account_id@
                        &&& ws@[i].vault_account_id@ == pool_account_of(pool_id as nat, old(self).current_account_id@)
                        &&& ws@[i].intents_contract_id@ == old(self).intents_contract_id@
                    }
                    &&& final(self).workers == old(self).workers
                    &&& final(self).same_settings(old(self))
                },
            },
    {
        if !synced {
            return Err(RegistryError::ExternalCallFailed);
        }
        if pool_id as usize >= self.pools.len() {
            return Err(RegistryError::NotFound);
        }
        let p = pool_id as usize;
        proof {
            assert(self.pools@[p as int].wf());
        }
        let token_ids = self.pools[p].get_token_ids();
        let ghost old_self = *self;
        let mut pool = self.pools.remove(p);
        let burnt = pool.remove_liquidity(account_id, shares);
        self.pools.insert(p, pool);
        proof {
            assert(self.pools@ =~= old_self.pools@.update(p as int, pool));
        }
        let amounts = match burnt {
            Ok(a) => a,
            Err(e) => {
                proof {
                    assert(self.pools@ =~= old_self.pools@);
                    old_self.lemma_wf_from_tables(self);
                }
                return Err(from_pool_error(e));
            },
        };
        proof {
            old_self.lemma_replace_pool(self, p as int);
        }
        let vault = pool_account_id(pool_id, &self.current_account_id);
        let w0 = Withdrawal {
            vault_account_id: vault.clone(),
            intents_contract_id: self.intents_contract_id.clone(),
            token_id: token_ids[0].clone(),
            receiver_id: account_id.clone(),
            amount: amounts[0],
        };
        let w1 = Withdrawal {
            vault_account_id: vault,
            intents_contract_id: self.intents_contract_id.clone(),
            token_id: token_ids[1].clone(),
            receiver_id: account_id.clone(),
            amount: amounts[1],
        };
        let ws = vec![w0, w1];
        proof {
            assert(ws@[0] == w0 && ws@[1] == w1);
        }
        Ok(ws)
    }


    /// Records fees collected by the caller, the active worker of its pool
    /// whose fingerprint is still approved.
    pub fn collect_pool_fees(&mut self, ctx: &CallContext, fees: Vec<u128>) -> (r: Result<(), RegistryError>)
        requires
            old(self).wf(),
        ensures
            final(self).wf(),
            !old(self).is_worker(ctx.predecessor_account_id@) ==> r == Err::<(), RegistryError>(RegistryError::NotFound)
                && final(self).unchanged_from(old(self)),
            forall|i: int| 0 <= i < old(self).workers@.len() && (#[trigger] old(self).workers@[i]).0@ == ctx.predecessor_account_id@ ==> {
                let p = old(self).workers@[i].1.pool_id as int;
                let op = old(self).pools@[p];
                if !listed(old(self).approved_compose_hashes@, old(self).workers@[i].1.compose_hash@) {
                    r == Err::<(), RegistryError>(RegistryError::RevokedFingerprint) && final(self).unchanged_from(old(self))
                } else {
                    match op.fee_error(fees@) {
                        Some(e) => r == Err::<(), RegistryError>(pool_error_spec(e)) && final(self).unchanged_from(old(self)),
                        None => {
                            &&& r is Ok
                            &&& final(self).pools@.len() == old(self).pools@.len()
                            &&& op.shares_total_supply > 0 ==> final(self).pools@[p].fees_per_share@ == seq![
                                (op.fees_per_share@[0] + fees@[0] / op.shares_total_supply) as u128,
                                (op.fees_per_share@[1] + fees@[1] / op.shares_total_supply) as u128,
                            ]
                            &&& op.shares_total_supply > 0 ==> final(self).pools@[p].unclaimed_fees@ == seq![
                                (op.unclaimed_fees@[0] + fees@[0]) as u128,
                                (op.unclaimed_fees@[1] + fees@[1]) as u128,
                            ]
                            &&& op.shares_total_supply == 0 ==> final(self).pools@[p] == op
                            &&& forall|q: int| 0 <= q < old(self).pools@.len() && q != p ==> #[trigger] final(self).pools@[q] == old(self).pools@[q]
                            &&& final(self).workers == old(self).workers
                            &&& final(self).same_settings(old(self))
                        },
                    }
                }
            },
    {
        let i = match find_name(&self.workers, &ctx.predecessor_account_id) {
            Some(i) => i,
            None => {
                return Err(RegistryError::NotFound);
            },
        };
        proof {
            assert forall|j: int| 0 <= j < self.workers@.len() && (#[trigger] self.workers@[j]).0@ == ctx.predecessor_account_id@
                implies j == i by {
                if j < i {
                    assert(self.workers@[j].0@ != self.workers@[i as int].0@);
                } else if j > i {
                    assert(self.workers@[i as int].0@ != self.workers@[j].0@);
                }
            }
            assert(self.seated(self.workers@[i as int]));
        }
        if find_text(&self.approved_compose_hashes, &self.workers[i].1.compose_hash).is_none() {
            return Err(RegistryError::RevokedFingerprint);
        }
        let p = self.workers[i].1.pool_id as usize;
        if p >= self.pools.len() {
            return Err(RegistryError::NotFound);
        }
        let ghost old_self = *self;
        let mut pool = self.pools.remove(p);
        let res = pool.update_fees_in_pool(fees);
        self.pools.insert(p, pool);
        proof {
            assert(self.pools@ =~= old_self.pools@.update(p as int, pool));
            assert(old_self.pools@[p as int].wf());
        }
        match res {
            Ok(()) => {
                proof {
                    old_self.lemma_replace_pool(self, p as int);
                }
                Ok(())
            },
            Err(e) => {
                proof {
                    assert(self.pools@ =~= old_self.pools@);
                    old_self.lemma_wf_from_tables(self);
                }
                Err(from_pool_error(e))
            },
        }
    }

    /// The legs of a claim: each token with a positive reward, in order,
    /// with that reward.
    pub open spec fn claim_legs(pool: Pool, k: Seq<char>) -> Seq<(int, int)> {
        let r0 = pool.pending_reward(k, 0);
        let r1 = pool.pending_reward(k, 1);
        if r0 > 0 && r1 > 0 {
            seq![(0, r0), (1, r1)]
        } else if r0 > 0 {
            seq![(0, r0)]
        } else if r1 > 0 {
            seq![(1, r1)]
        } else {
            Seq::empty()
        }
    }

    /// The refusal, if any, of a claim of rewards.
    pub open spec fn claim_error(&self, ctx: &CallContext, pool_id: u32) -> Option<RegistryError> {
        if ctx.attached_deposit != ONE_YOCTO {
            Some(RegistryError::Unauthorized)
        } else if pool_id as int >= self.pools@.len() {
            Some(RegistryError::NotFound)
        } else {
            let pool = self.pools@[pool_id as int];
            let k = ctx.predecessor_account_id@;
            if pool.pending_reward(k, 0) > u128::MAX || pool.pending_reward(k, 1) > u128::MAX {
                Some(RegistryError::Arithmetic)
            } else if pool.pending_reward(k, 0) == 0 && pool.pending_reward(k, 1) == 0 {
                Some(RegistryError::NothingToClaim)
            } else {
                match pool.claim_error(k) {
                    Some(e) => Some(pool_error_spec(e)),
                    None => None,
                }
            }
        }
    }

    /// Claims the caller's rewards in pool `pool_id`: records the claim and
    /// returns a withdrawal for each token with a positive reward (then
    /// `on_claim_rewards`).
    pub fn claim_rewards(&mut self, ctx: &CallContext, pool_id: u32) -> (r: Result<Vec<Withdrawal>, RegistryError>)
        requires
            old(self).wf(),
        ensures
            final(self).wf(),
            match old(self).claim_error(ctx, pool_id) {
                Some(e) => r == Err::<Vec<Withdrawal>, RegistryError>(e) && final(self).unchanged_from(old(self)),
                None => r matches Ok(ws) && {
                    let p = pool_id as int;
                    let op = old(self).pools@[p];
                    let k = ctx.predecessor_account_id@;
                    let legs = Self::claim_legs(op, k);
                    let np = final(self).pools@[p];
                    &&& ws@.len() == legs.len()
                    &&& forall|j: int| 0 <= j < legs.len() ==> {
                        &&& (#[trigger] ws@[j]).token_id@ == op.token_ids@[legs[j].0]@
                        &&& ws@[j].amount == legs[j].1
                        &&& ws@[j].receiver_id@ == k
                        &&& ws@[j].vault_account_id@ == pool_account_of(pool_id as nat, old(self).current_account_id@)
                        &&& ws@[j].intents_contract_id@ == old(self).intents_contract_id@
                    }
                    &&& np.pending_reward(k, 0) == 0
                    &&& np.pending_reward(k, 1) == 0
                    &&& forall|i: int| 0 <= i < 2 ==> #[trigger] np.last_claimed_fees@[i].balance(k) == op.fees_per_share@[i]
                    &&& forall|i: int, a: Seq<char>| 0 <= i < 2 && a != k ==> #[trigger] np.last_claimed_fees@[i].balance(a) == op.last_claimed_fees@[i].balance(a)
                    &&& np.fees_per_share == op.fees_per_share
                    &&& np.shares == op.shares
                    &&& np.shares_total_supply == op.shares_total_supply
                    &&& np.amounts == op.amounts
                    &&& np.same_terms(&op)
                    &&& final(self).pools@[p].unclaimed_fees@ == seq![
                        (op.unclaimed_fees@[0] - op.pending_reward(k, 0)) as u128,
                        (op.unclaimed_fees@[1] - op.pending_reward(k, 1)) as u128,
                    ]
                    &&& final(self).pools@.len() == old(self).pools@.len()
                    &&& forall|q: int| 0 <= q < old(self).pools@.len() && q != p ==> #[trigger] final(self).pools@[q] == old(self).pools@[q]
                    &&& final(self).workers == old(self).workers
                    &&& final(self).same_settings(old(self))
                },
            },
    {
        if ctx.attached_deposit != ONE_YOCTO {
            return Err(RegistryError::Unauthorized);
        }
        if pool_id as usize >= self.pools.len() {
            return Err(RegistryError::NotFound);
        }
        let p = pool_id as usize;
        let account_id = &ctx.predecessor_account_id;
        proof {
            assert(self.pools@[p as int].wf());
        }
        let pending = match self.pools[p].calculate_pending_rewards(account_id) {
            Ok(v) => v,
            Err(_) => {
                return Err(RegistryError::Arithmetic);
            },
        };
        if pending[0] == 0 && pending[1] == 0 {
            return Err(RegistryError::NothingToClaim);
        }
        let token_ids = self.pools[p].get_token_ids();
        let ghost old_self = *self;
        let mut pool = self.pools.remove(p);
        let res = pool.mark_fees_claimed(account_id);
        self.pools.insert(p, pool);
        proof {
            assert(self.pools@ =~= old_self.pools@.update(p as int, pool));
        }
        match res {
            Ok(()) => {
                proof {
                    old_self.lemma_replace_pool(self, p as int);
                }
            },
            Err(e) => {
                proof {
                    assert(self.pools@ =~= old_self.pools@);
                    old_self.lemma_wf_from_tables(self);
                }
                return Err(from_pool_error(e));
            },
        }
        let vault = pool_account_id(pool_id, &self.current_account_id);
        let mut ws: Vec<Withdrawal> = Vec::new();
        let mut i: usize = 0;
        while i < 2
            invariant
                i <= 2,
                pending@.len() == 2,
                token_ids@.len() == 2,
                ws@.len() == Self::claim_legs_upto(pending@, i as int).len(),
                forall|j: int| 0 <= j < ws@.len() ==> {
                    &&& (#[trigger] ws@[j]).token_id@ == token_ids@[Self::claim_legs_upto(pending@, i as int)[j].0]@
                    &&& ws@[j].amount == Self::claim_legs_upto(pending@, i as int)[j].1
                    &&& ws@[j].receiver_id@ == account_id@
                    &&& ws@[j].vault_account_id@ == vault@
                    &&& ws@[j].intents_contract_id@ == self.intents_contract_id@
                },
            decreases 2 - i,
        {
            if pending[i] > 0 {
                ws.push(Withdrawal {
                    vault_account_id: vault.clone(),
                    intents_contract_id: self.intents_contract_id.clone(),
                    token_id: token_ids[i].clone(),
                    receiver_id: account_id.clone(),
                    amount: pending[i],
                });
            }
            i = i + 1;
        }
        proof {
            let op = old_self.pools@[p as int];
            assert(pending@[0] == op.pending_reward(account_id@, 0));
            assert(pending@[1] == op.pending_reward(account_id@, 1));
            let l0 = Self::claim_legs_upto(pending@, 0);
            let l1 = Self::claim_legs_upto(pending@, 1);
            assert(l0 =~= Seq::<(int, int)>::empty());
            assert(l1 =~= if pending@[0] > 0 { l0.push((0, pending@[0] as int)) } else { l0 });
            assert(Self::claim_legs_upto(pending@, 2) =~= Self::claim_legs(op, account_id@));
        }
        Ok(ws)
    }

    /// The legs among the first `n` rewards of `pending`.
    pub open spec fn claim_legs_upto(pending: Seq<u128>, n: int) -> Seq<(int, int)>
        decreases n,
    {
        if n <= 0 {
            Seq::empty()
        } else if pending[n - 1] > 0 {
            Self::claim_legs_upto(pending, n - 1).push((n - 1, pending[n - 1] as int))
        } else {
            Self::claim_legs_upto(pending, n - 1)
        }
    }


    /// Ends an addition of liquidity once the transfers into the vault have
    /// answered, one outcome each. The shares stay minted either way; the
    /// event is due only when every transfer succeeded.
    pub fn on_add_liquidity_end(&self, pool_id: u32, amounts: Vec<u128>, account_id: String, shares_to_mint: u128, outcomes: &Vec<bool>) -> (r:
        (u128, Option<LiquidityEvent>))
        ensures
            r.0 == shares_to_mint,
            all_succeeded(outcomes@) <==> r.1 is Some,
            r.1 is Some ==> (r.1 matches Some(LiquidityEvent::AddLiquidity { pool_id: id, account_id: a, amounts: am, shares_minted: s })
                && id == pool_id && a@ == account_id@ && am@ == amounts@ && s == shares_to_mint),
    {
        if all_ok(outcomes) {
            (shares_to_mint, Some(LiquidityEvent::AddLiquidity { pool_id, account_id, amounts, shares_minted: shares_to_mint }))
        } else {
            (shares_to_mint, None)
        }
    }

    /// Ends a removal of liquidity once the withdrawals have answered, one
    /// outcome each. The burn stands either way; the event is due only when
    /// every withdrawal succeeded.
    pub fn on_remove_liquidity_end(&self, pool_id: u32, account_id: String, amounts: Vec<u128>, shares: u128, outcomes: &Vec<bool>) -> (r:
        (Vec<u128>, Option<LiquidityEvent>))
        ensures
            r.0@ == amounts@,
            all_succeeded(outcomes@) <==> r.1 is Some,
            r.1 is Some ==> (r.1 matches Some(LiquidityEvent::RemoveLiquidity { pool_id: id, account_id: a, amounts: am, shares_burned: s })
                && id == pool_id && a@ == account_id@ && am@ == amounts@ && s == shares),
    {
        if all_ok(outcomes) {
            let logged = copy_values(&amounts);
            (amounts, Some(LiquidityEvent::RemoveLiquidity { pool_id, account_id, amounts: logged, shares_burned: shares }))
        } else {
            (amounts, None)
        }
    }

    /// Ends a claim once the withdrawals have answered, one outcome each.
    /// The claim stands either way; the event is due only when every
    /// withdrawal succeeded.
    pub fn on_claim_rewards(&self, pool_id: u32, account_id: String, rewards: Vec<u128>, outcomes: &Vec<bool>) -> (r:
        (Vec<u128>, Option<LiquidityEvent>))
        ensures
            r.0@ == rewards@,
            all_succeeded(outcomes@) <==> r.1 is Some,
            r.1 is Some ==> (r.1 matches Some(LiquidityEvent::ClaimRewards { pool_id: id, account_id: a, rewards: rw })
                && id == pool_id && a@ == account_id@ && rw@ == rewards@),
    {
        if all_ok(outcomes) {
            let logged = copy_values(&rewards);
            (rewards, Some(LiquidityEvent::ClaimRewards { pool_id, account_id, rewards: logged }))
        } else {
            (rewards, None)
        }
    }

    /// The refusal, if any, of depositing `amount` of `token` for pool `pool_id`.
    pub open spec fn deposit_error(&self, pool_id: u32, token: Seq<char>, amount: u128) -> Option<RegistryError> {
        if pool_id as int >= self.pools@.len() {
            Some(RegistryError::NotFound)
        } else if self.pools@[pool_id as int].token_ids@[0]@ != token && self.pools@[pool_id as int].token_ids@[1]@ != token {
            Some(RegistryError::InvalidArgument)
        } else if amount == 0 {
            Some(RegistryError::InvalidArgument)
        } else {
            None
        }
    }

    fn check_deposit(&self, pool_id: u32, token_id: &String, amount: u128) -> (r: Result<(), RegistryError>)
        requires
            self.wf(),
        ensures
            match self.deposit_error(pool_id, token_id@, amount) {
                Some(e) => r == Err::<(), RegistryError>(e),
                None => r is Ok,
            },
    {
        if pool_id as usize >= self.pools.len() {
            return Err(RegistryError::NotFound);
        }
        proof {
            assert(self.pools@[pool_id as int].wf());
        }
        let pool = &self.pools[pool_id as usize];
        if pool.token_ids[0] != *token_id && pool.token_ids[1] != *token_id {
            return Err(RegistryError::InvalidArgument);
        }
        if amount == 0 {
            return Err(RegistryError::InvalidArgument);
        }
        Ok(())
    }

    /// The transfer that forwards `amount` of `token_id` into pool
    /// `pool_id`'s vault (then `on_deposit_into_pool`).
    pub fn deposit_into_pool(&self, pool_id: u32, token_id: &String, amount: u128) -> (r: Result<TokenTransfer, RegistryError>)
        requires
            self.wf(),
        ensures
            match self.deposit_error(pool_id, token_id@, amount) {
                Some(e) => r == Err::<TokenTransfer, RegistryError>(e),
                None => r matches Ok(t) && {
                    &&& t.token_id@ == token_id@
                    &&& t.receiver_id@ == self.intents_contract_id@
                    &&& t.amount == amount
                    &&& t.msg@ == pool_account_of(pool_id as nat, self.current_account_id@)
                },
            },
    {
        match self.check_deposit(pool_id, token_id, amount) {
            Ok(()) => {},
            Err(e) => {
                return Err(e);
            },
        }
        Ok(TokenTransfer {
            token_id: token_id.clone(),
            receiver_id: self.intents_contract_id.clone(),
            amount,
            msg: pool_account_id(pool_id, &self.current_account_id),
        })
    }

    /// What to refund once a forwarded deposit has answered: what the
    /// ledger did not use, or everything where the transfer failed.
    pub fn on_deposit_into_pool(&self, amount: u128, used: Option<u128>) -> (r: u128)
        ensures
            r == match used {
                Some(u) => if u >= amount { 0 } else { (amount - u) as u128 },
                None => amount,
            },
    {
        match used {
            Some(u) => amount.saturating_sub(u),
            None => amount,
        }
    }

    /// Receives `amount` of the calling token contract's token from
    /// `sender_id`: no message refunds it all; otherwise the message says
    /// whether it goes on into a pool's vault or into the sender's staging
    /// account.
    pub fn ft_on_transfer(&mut self, ctx: &CallContext, sender_id: &String, amount: u128, message: Option<TokenReceiverMessage>) -> (r:
        Result<TransferReply, RegistryError>)
        requires
            old(self).wf(),
        ensures
            final(self).wf(),
            old(self).paused ==> r == Err::<TransferReply, RegistryError>(RegistryError::Paused) && *final(self) == *old(self),
            !old(self).paused ==> match message {
                None => r == Ok::<TransferReply, RegistryError>(TransferReply::Refund(amount)) && *final(self) == *old(self),
                Some(TokenReceiverMessage::DepositIntoPool { pool_id }) => *final(self) == *old(self) && match old(self).deposit_error(pool_id, ctx.predecessor_account_id@, amount) {
                    Some(e) => r == Err::<TransferReply, RegistryError>(e),
                    None => r matches Ok(TransferReply::Forward(t)) && {
                        &&& t.token_id@ == ctx.predecessor_account_id@
                        &&& t.receiver_id@ == old(self).intents_contract_id@
                        &&& t.amount == amount
                        &&& t.msg@ == pool_account_of(pool_id as nat, old(self).current_account_id@)
                    },
                },
                Some(TokenReceiverMessage::DepositIntoAccount { pool_id }) => match old(self).deposit_error(pool_id, ctx.predecessor_account_id@, amount) {
                    Some(e) => r == Err::<TransferReply, RegistryError>(e) && *final(self) == *old(self),
                    None => if old(self).staging_of(sender_id@, ctx.predecessor_account_id@) + amount > u128::MAX {
                        r == Err::<TransferReply, RegistryError>(RegistryError::Arithmetic) && *final(self) == *old(self)
                    } else {
                        &&& r == Ok::<TransferReply, RegistryError>(TransferReply::Refund(0))
                        &&& final(self).same_but_accounts(old(self))
                        &&& final(self).staging_of(sender_id@, ctx.predecessor_account_id@) == old(self).staging_of(sender_id@, ctx.predecessor_account_id@) + amount
                        &&& forall|a: Seq<char>, t: Seq<char>| !(a == sender_id@ && t == ctx.predecessor_account_id@) ==> #[trigger] final(self).staging_of(a, t) == old(self).staging_of(a, t)
                    },
                },
            },
    {
        if self.paused {
            return Err(RegistryError::Paused);
        }
        let token_id = &ctx.predecessor_account_id;
        match message {
            None => Ok(TransferReply::Refund(amount)),
            Some(TokenReceiverMessage::DepositIntoPool { pool_id }) => {
                match self.deposit_into_pool(pool_id, token_id, amount) {
                    Ok(t) => Ok(TransferReply::Forward(t)),
                    Err(e) => Err(e),
                }
            },
            Some(TokenReceiverMessage::DepositIntoAccount { pool_id }) => {
                match self.check_deposit(pool_id, token_id, amount) {
                    Ok(()) => {},
                    Err(e) => {
                        return Err(e);
                    },
                }
                match self.deposit_into_account(sender_id, token_id, amount) {
                    Ok(()) => Ok(TransferReply::Refund(0)),
                    Err(e) => Err(e),
                }
            },
        }
    }

    /// The owner's withdrawal of `amount` of `token_id` out of pool
    /// `pool_id`'s vault, to the owner.
    pub fn withdraw_from_pool(&self, ctx: &CallContext, pool_id: u32, token_id: &String, amount: u128) -> (r: Result<Withdrawal, RegistryError>)
        requires
            self.wf(),
        ensures
            if ctx.predecessor_account_id@ != self.owner_id@ || ctx.attached_deposit != ONE_YOCTO {
                r == Err::<Withdrawal, RegistryError>(RegistryError::Unauthorized)
            } else if pool_id as int >= self.pools@.len() {
                r == Err::<Withdrawal, RegistryError>(RegistryError::NotFound)
            } else if amount == 0 || (self.pools@[pool_id as int].token_ids@[0]@ != token_id@
                && self.pools@[pool_id as int].token_ids@[1]@ != token_id@) {
                r == Err::<Withdrawal, RegistryError>(RegistryError::InvalidArgument)
            } else {
                r matches Ok(w) && {
                    &&& w.vault_account_id@ == pool_account_of(pool_id as nat, self.current_account_id@)
                    &&& w.intents_contract_id@ == self.intents_contract_id@
                    &&& w.token_id@ == token_id@
                    &&& w.receiver_id@ == self.owner_id@
                    &&& w.amount == amount
                }
            },
    {
        if ctx.predecessor_account_id != self.owner_id || ctx.attached_deposit != ONE_YOCTO {
            return Err(RegistryError::Unauthorized);
        }
        if pool_id as usize >= self.pools.len() {
            return Err(RegistryError::NotFound);
        }
        match self.check_deposit(pool_id, token_id, amount) {
            Ok(()) => {},
            Err(e) => {
                return Err(e);
            },
        }
        Ok(Withdrawal {
            vault_account_id: pool_account_id(pool_id, &self.current_account_id),
            intents_contract_id: self.intents_contract_id.clone(),
            token_id: token_id.clone(),
            receiver_id: self.owner_id.clone(),
            amount,
        })
    }
}

} // verus!
