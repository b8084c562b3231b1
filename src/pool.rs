//! A two-token liquidity pool: share minting and burning, and the
//! fee-per-share accumulators from which providers' rewards are drawn.
use vstd::prelude::*;
use crate::book::BalanceBook;
use crate::math::{is_floor_sqrt, sqrt};

verus! {

/// Why a pool operation was refused; the pool is then left as it was.
#[derive(PartialEq, Eq, Structural, Debug, Clone, Copy)]
pub enum PoolError {
    /// Wrong token count, a zero amount, identical tokens, a fee of 100% or
    /// more, or a deposit too small to earn a share.
    InvalidArgument,
    /// The provider holds fewer shares than it asked to burn.
    InsufficientShares,
    /// An intermediate value does not fit in 128 bits, a reserve is empty
    /// where it divides, or rewards exceed the fees held back for them.
    Arithmetic,
}

pub open spec fn u128_max() -> int {
    u128::MAX as int
}

/// Shares for a deposit into a pool that already has shares: the smaller of
/// the two proportional amounts, each rounded down.
pub open spec fn proportional_shares(a0: int, a1: int, total: int, r0: int, r1: int) -> int {
    let s0 = a0 * total / r0;
    let s1 = a1 * total / r1;
    if s0 < s1 {
        s0
    } else {
        s1
    }
}

proof fn lemma_payout_le(a: int, burn: int, t: int)
    requires
        a >= 0,
        0 <= burn <= t,
        t > 0,
    ensures
        0 <= a * burn / t <= a,
{
    assert(0 <= a * burn <= a * t) by (nonlinear_arith)
        requires
            a >= 0,
            0 <= burn <= t,
    ;
    vstd::arithmetic::div_mod::lemma_div_is_ordered(a * burn, a * t, t);
    vstd::arithmetic::div_mod::lemma_div_multiples_vanish(a, t);
    vstd::arithmetic::mul::lemma_mul_is_commutative(a, t);
    vstd::arithmetic::div_mod::lemma_div_pos_is_pos(a * burn, t);
}

pub struct Pool {
    /// The two tokens of the pool.
    pub token_ids: Vec<String>,
    /// Reserves of each token, net of unclaimed fees.
    pub amounts: Vec<u128>,
    /// Swap fee in basis points.
    pub fee: u32,
    /// Shares held by each liquidity provider.
    pub shares: BalanceBook,
    /// Total number of shares.
    pub shares_total_supply: u128,
    /// Collected fees of each token not yet claimed.
    pub unclaimed_fees: Vec<u128>,
    /// Accumulated fees per share of each token.
    pub fees_per_share: Vec<u128>,
    /// For each token, the fees per share at each provider's last claim.
    pub last_claimed_fees: Vec<BalanceBook>,
    /// The account of the pool's registered worker.
    pub worker_id: Option<String>,
    /// When the registered worker last proved it was alive.
    pub last_ping_timestamp_ms: u64,
}

impl Pool {
    pub open spec fn wf(&self) -> bool {
        &&& self.token_ids@.len() == 2
        &&& self.token_ids@[0]@ != self.token_ids@[1]@
        &&& self.amounts@.len() == 2
        &&& self.unclaimed_fees@.len() == 2
        &&& self.fees_per_share@.len() == 2
        &&& self.last_claimed_fees@.len() == 2
        &&& self.fee < 10_000
        &&& self.shares.wf()
        &&& self.shares.total() == self.shares_total_supply
        &&& forall|i: int| 0 <= i < 2 ==> (#[trigger] self.last_claimed_fees@[i]).wf()
        &&& forall|i: int, k: Seq<char>|
            0 <= i < 2 ==> #[trigger] self.last_claimed_fees@[i].balance(k)
                <= self.fees_per_share@[i]
    }

    /// The fields that no liquidity or fee operation touches.
    pub open spec fn same_terms(&self, other: &Pool) -> bool {
        &&& self.token_ids == other.token_ids
        &&& self.fee == other.fee
        &&& self.worker_id == other.worker_id
        &&& self.last_ping_timestamp_ms == other.last_ping_timestamp_ms
    }

    /// Everything but the worker and its last ping is as in `other`.
    pub open spec fn same_but_worker(&self, other: &Pool) -> bool {
        &&& self.token_ids == other.token_ids
        &&& self.amounts == other.amounts
        &&& self.fee == other.fee
        &&& self.shares == other.shares
        &&& self.shares_total_supply == other.shares_total_supply
        &&& self.unclaimed_fees == other.unclaimed_fees
        &&& self.fees_per_share == other.fees_per_share
        &&& self.last_claimed_fees == other.last_claimed_fees
    }

    /// The shares of account `k`.
    pub open spec fn shares_of(&self, k: Seq<char>) -> nat {
        self.shares.balance(k)
    }

    /// Reward of account `k` in token `i` not yet claimed:
    /// `(fees_per_share[i] - last_claimed[k][i]) * shares[k]`.
    pub open spec fn pending_reward(&self, k: Seq<char>, i: int) -> int {
        (self.fees_per_share@[i] - self.last_claimed_fees@[i].balance(k)) * self.shares.balance(k)
    }

    /// Share conservation: in a well-formed pool the providers' shares sum
    /// to the total supply. Every operation of the pool keeps it well
    /// formed, so this holds after each of them.
    pub proof fn lemma_share_conservation(&self)
        requires
            self.wf(),
        ensures
            self.shares.total() == self.shares_total_supply,
    {
    }

    /// Whether `token_ids` and `fee` describe a valid pool.
    pub open spec fn valid_terms(token_ids: Seq<String>, fee: u32) -> bool {
        token_ids.len() == 2 && token_ids[0]@ != token_ids[1]@ && fee < 10_000
    }

    /// A pool of two distinct tokens with a fee under 100%, with no shares,
    /// reserves, fees or worker.
    pub fn new(token_ids: Vec<String>, fee: u32) -> (r: Result<Pool, PoolError>)
        ensures
            Self::valid_terms(token_ids@, fee) <==> r is Ok,
            !Self::valid_terms(token_ids@, fee) ==> r == Err::<Pool, PoolError>(PoolError::InvalidArgument),
            r matches Ok(p) ==> {
                &&& p.wf()
                &&& p.token_ids@ == token_ids@
                &&& p.fee == fee
                &&& p.amounts@ == seq![0u128, 0u128]
                &&& p.unclaimed_fees@ == seq![0u128, 0u128]
                &&& p.fees_per_share@ == seq![0u128, 0u128]
                &&& p.shares_total_supply == 0
                &&& forall|k: Seq<char>| #[trigger] p.shares_of(k) == 0
                &&& forall|i: int, k: Seq<char>| 0 <= i < 2 ==> #[trigger] p.last_claimed_fees@[i].balance(k) == 0
                &&& p.worker_id is None
                &&& p.last_ping_timestamp_ms == 0
            },
    {
        if token_ids.len() != 2 {
            return Err(PoolError::InvalidArgument);
        }
        if token_ids[0] == token_ids[1] {
            return Err(PoolError::InvalidArgument);
        }
        if fee >= 10_000 {
            return Err(PoolError::InvalidArgument);
        }
        let pool = Pool {
            token_ids,
            amounts: vec![0u128, 0u128],
            fee,
            shares: BalanceBook::new(),
            shares_total_supply: 0,
            unclaimed_fees: vec![0u128, 0u128],
            fees_per_share: vec![0u128, 0u128],
            last_claimed_fees: vec![BalanceBook::new(), BalanceBook::new()],
            worker_id: None,
            last_ping_timestamp_ms: 0,
        };
        Ok(pool)
    }

    /// The pool's two tokens.
    pub fn get_token_ids(&self) -> (r: Vec<String>)
        requires
            self.wf(),
        ensures
            r@ == self.token_ids@,
    {
        let r = vec![self.token_ids[0].clone(), self.token_ids[1].clone()];
        assert(r@ =~= self.token_ids@);
        r
    }

    /// Whether a worker is registered and pinged less than `timeout_ms` before `now_ms`.
    pub fn has_active_worker(&self, timeout_ms: u64, now_ms: u64) -> (r: bool)
        ensures
            r == (self.worker_id is Some && now_ms - self.last_ping_timestamp_ms < timeout_ms),
    {
        match self.worker_id {
            None => false,
            Some(_) => now_ms < self.last_ping_timestamp_ms || now_ms - self.last_ping_timestamp_ms < timeout_ms,
        }
    }

    /// The error, if any, with which a deposit of `amounts` is refused.
    pub open spec fn mint_error(&self, amounts: Seq<u128>) -> Option<PoolError> {
        if amounts.len() != 2 || amounts[0] == 0 || amounts[1] == 0 {
            Some(PoolError::InvalidArgument)
        } else if self.shares_total_supply == 0 {
            if amounts[0] * amounts[1] > u128_max() || self.amounts@[0] + amounts[0] > u128_max()
                || self.amounts@[1] + amounts[1] > u128_max() {
                Some(PoolError::Arithmetic)
            } else {
                None
            }
        } else if self.amounts@[0] == 0 || self.amounts@[1] == 0 || amounts[0]
            * self.shares_total_supply > u128_max() || amounts[1] * self.shares_total_supply
            > u128_max() {
            Some(PoolError::Arithmetic)
        } else if proportional_shares(
            amounts[0] as int,
            amounts[1] as int,
            self.shares_total_supply as int,
            self.amounts@[0] as int,
            self.amounts@[1] as int,
        ) == 0 {
            Some(PoolError::InvalidArgument)
        } else if self.amounts@[0] + amounts[0] > u128_max() || self.amounts@[1] + amounts[1]
            > u128_max() || self.shares_total_supply + proportional_shares(
            amounts[0] as int,
            amounts[1] as int,
            self.shares_total_supply as int,
            self.amounts@[0] as int,
            self.amounts@[1] as int,
        ) > u128_max() {
            Some(PoolError::Arithmetic)
        } else {
            None
        }
    }

    /// `s` is the number of shares that a deposit of `(a0, a1)` mints: the
    /// floor square root of `a0 * a1` into a pool without shares, the smaller
    /// proportional amount otherwise.
    pub open spec fn mints(&self, a0: int, a1: int, s: int) -> bool {
        if self.shares_total_supply == 0 {
            is_floor_sqrt(a0 * a1, s)
        } else {
            s == proportional_shares(
                a0,
                a1,
                self.shares_total_supply as int,
                self.amounts@[0] as int,
                self.amounts@[1] as int,
            )
        }
    }

    fn calculate_shares(&self, amounts: &Vec<u128>) -> (r: Result<u128, PoolError>)
        requires
            self.wf(),
            amounts@.len() == 2,
        ensures
            self.shares_total_supply == 0 ==> (amounts@[0] * amounts@[1] > u128_max()
                <==> r is Err),
            self.shares_total_supply > 0 ==> ((self.amounts@[0] == 0 || self.amounts@[1] == 0
                || amounts@[0] * self.shares_total_supply > u128_max() || amounts@[1]
                * self.shares_total_supply > u128_max()) <==> r is Err),
            r matches Ok(s) ==> self.mints(amounts@[0] as int, amounts@[1] as int, s as int),
            r matches Err(e) ==> e == PoolError::Arithmetic,
    {
        if self.shares_total_supply == 0 {
            match amounts[0].checked_mul(amounts[1]) {
                Some(p) => Ok(sqrt(p)),
                None => Err(PoolError::Arithmetic),
            }
        } else {
            if self.amounts[0] == 0 || self.amounts[1] == 0 {
                return Err(PoolError::Arithmetic);
            }
            let product0 = match amounts[0].checked_mul(self.shares_total_supply) {
                Some(p) => p,
                None => {
                    return Err(PoolError::Arithmetic);
                },
            };
            let product1 = match amounts[1].checked_mul(self.shares_total_supply) {
                Some(p) => p,
                None => {
                    return Err(PoolError::Arithmetic);
                },
            };
            let share0 = product0 / self.amounts[0];
            let share1 = product1 / self.amounts[1];
            if share0 < share1 {
                Ok(share0)
            } else {
                Ok(share1)
            }
        }
    }

    /// Adds `amounts` to the reserves and mints shares for `account_id`.
    pub fn add_liquidity(&mut self, account_id: &String, amounts: Vec<u128>) -> (r: Result<
        u128,
        PoolError,
    >)
        requires
            old(self).wf(),
        ensures
            final(self).wf(),
            match old(self).mint_error(amounts@) {
                Some(e) => r == Err::<u128, PoolError>(e) && *final(self) == *old(self),
                None => match r {
                    Ok(s) => {
                        &&& s > 0
                        &&& old(self).mints(amounts@[0] as int, amounts@[1] as int, s as int)
                        &&& final(self).amounts@ == seq![
                            (old(self).amounts@[0] + amounts@[0]) as u128,
                            (old(self).amounts@[1] + amounts@[1]) as u128,
                        ]
                        &&& final(self).shares_of(account_id@) == old(self).shares_of(account_id@) + s
                        &&& forall|k: Seq<char>|
                            k != account_id@ ==> #[trigger] final(self).shares_of(k) == old(self).shares_of(k)
                        &&& final(self).shares_total_supply == old(self).shares_total_supply + s
                        &&& final(self).same_terms(old(self))
                        &&& final(self).unclaimed_fees == old(self).unclaimed_fees
                        &&& final(self).fees_per_share == old(self).fees_per_share
                        &&& final(self).last_claimed_fees == old(self).last_claimed_fees
                    },
                    Err(_) => false,
                },
            },
    {
        if amounts.len() != 2 {
            return Err(PoolError::InvalidArgument);
        }
        if amounts[0] == 0 || amounts[1] == 0 {
            return Err(PoolError::InvalidArgument);
        }
        let shares_to_mint = match self.calculate_shares(&amounts) {
            Ok(s) => s,
            Err(e) => {
                return Err(e);
            },
        };
        proof {
            if self.shares_total_supply == 0 {
                let v = amounts@[0] * amounts@[1];
                assert(v >= 1) by (nonlinear_arith)
                    requires
                        amounts@[0] >= 1,
                        amounts@[1] >= 1,
                        v == amounts@[0] * amounts@[1],
                ;
                if shares_to_mint == 0 {
                    assert(v < 1 * 1);
                }
            }
        }
        if shares_to_mint == 0 {
            return Err(PoolError::InvalidArgument);
        }
        let new0 = match self.amounts[0].checked_add(amounts[0]) {
            Some(v) => v,
            None => {
                return Err(PoolError::Arithmetic);
            },
        };
        let new1 = match self.amounts[1].checked_add(amounts[1]) {
            Some(v) => v,
            None => {
                return Err(PoolError::Arithmetic);
            },
        };
        let new_total = match self.shares_total_supply.checked_add(shares_to_mint) {
            Some(v) => v,
            None => {
                return Err(PoolError::Arithmetic);
            },
        };
        let current_shares = self.shares.get(account_id);
        proof {
            self.shares.lemma_balance_le_total(account_id@);
        }
        self.amounts.set(0, new0);
        self.amounts.set(1, new1);
        self.shares.set(account_id, current_shares + shares_to_mint);
        self.shares_total_supply = new_total;
        proof {
            assert(self.amounts@ =~= seq![new0, new1]);
        }
        Ok(shares_to_mint)
    }

    /// Moves `amount` of `from`'s shares to `to`; the total supply and
    /// every other holder stay as they were.
    pub fn transfer_shares(&mut self, from: &String, to: &String, amount: u128)
        requires
            old(self).wf(),
            old(self).shares_of(from@) >= amount,
        ensures
            final(self).wf(),
            from@ != to@ ==> final(self).shares_of(from@) == old(self).shares_of(from@) - amount,
            from@ != to@ ==> final(self).shares_of(to@) == old(self).shares_of(to@) + amount,
            from@ == to@ ==> final(self).shares_of(from@) == old(self).shares_of(from@),
            forall|k: Seq<char>| k != from@ && k != to@ ==> #[trigger] final(self).shares_of(k) == old(self).shares_of(k),
            final(self).shares_total_supply == old(self).shares_total_supply,
            final(self).same_terms(old(self)),
            final(self).amounts == old(self).amounts,
            final(self).unclaimed_fees == old(self).unclaimed_fees,
            final(self).fees_per_share == old(self).fees_per_share,
            final(self).last_claimed_fees == old(self).last_claimed_fees,
    {
        let from_balance = self.shares.get(from);
        self.shares.set(from, from_balance - amount);
        let to_balance = self.shares.get(to);
        proof {
            self.shares.lemma_balance_le_total(to@);
        }
        self.shares.set(to, to_balance + amount);
    }

    /// The error, if any, with which burning `burn` shares of `k` is refused.
    pub open spec fn burn_error(&self, k: Seq<char>, burn: u128) -> Option<PoolError> {
        if burn == 0 {
            Some(PoolError::InvalidArgument)
        } else if self.shares_of(k) < burn {
            Some(PoolError::InsufficientShares)
        } else if self.amounts@[0] * burn > u128_max() || self.amounts@[1] * burn > u128_max() {
            Some(PoolError::Arithmetic)
        } else {
            None
        }
    }

    /// What burning `burn` shares pays out in token `i`: the reserve times
    /// the burnt fraction of all shares, rounded down.
    pub open spec fn payout(&self, burn: u128, i: int) -> int {
        self.amounts@[i] * burn / self.shares_total_supply as int
    }

    /// Burns `shares_to_burn` of `account_id`'s shares and takes its
    /// proportional part of each reserve out of the pool; returns that part.
    pub fn remove_liquidity(&mut self, account_id: &String, shares_to_burn: u128) -> (r: Result<
        Vec<u128>,
        PoolError,
    >)
        requires
            old(self).wf(),
        ensures
            final(self).wf(),
            match old(self).burn_error(account_id@, shares_to_burn) {
                Some(e) => r == Err::<Vec<u128>, PoolError>(e) && *final(self) == *old(self),
                None => match r {
                    Ok(out) => {
                        &&& out@ == seq![
                            old(self).payout(shares_to_burn, 0) as u128,
                            old(self).payout(shares_to_burn, 1) as u128,
                        ]
                        &&& final(self).amounts@ == seq![
                            (old(self).amounts@[0] - out@[0]) as u128,
                            (old(self).amounts@[1] - out@[1]) as u128,
                        ]
                        &&& final(self).shares_of(account_id@) == old(self).shares_of(account_id@)
                            - shares_to_burn
                        &&& forall|k: Seq<char>|
                            k != account_id@ ==> #[trigger] final(self).shares_of(k) == old(self).shares_of(k)
                        &&& final(self).shares_total_supply == old(self).shares_total_supply - shares_to_burn
                        &&& final(self).same_terms(old(self))
                        &&& final(self).unclaimed_fees == old(self).unclaimed_fees
                        &&& final(self).fees_per_share == old(self).fees_per_share
                        &&& final(self).last_claimed_fees == old(self).last_claimed_fees
                    },
                    Err(_) => false,
                },
            },
    {
        if shares_to_burn == 0 {
            return Err(PoolError::InvalidArgument);
        }
        let current_shares = self.shares.get(account_id);
        if current_shares < shares_to_burn {
            return Err(PoolError::InsufficientShares);
        }
        let product0 = match self.amounts[0].checked_mul(shares_to_burn) {
            Some(p) => p,
            None => {
                return Err(PoolError::Arithmetic);
            },
        };
        let product1 = match self.amounts[1].checked_mul(shares_to_burn) {
            Some(p) => p,
            None => {
                return Err(PoolError::Arithmetic);
            },
        };
        proof {
            self.shares.lemma_balance_le_total(account_id@);
            lemma_payout_le(self.amounts@[0] as int, shares_to_burn as int, self.shares_total_supply as int);
            lemma_payout_le(self.amounts@[1] as int, shares_to_burn as int, self.shares_total_supply as int);
        }
        let out0 = product0 / self.shares_total_supply;
        let out1 = product1 / self.shares_total_supply;
        let new0 = self.amounts[0] - out0;
        let new1 = self.amounts[1] - out1;
        self.amounts.set(0, new0);
        self.amounts.set(1, new1);
        self.shares.set(account_id, current_shares - shares_to_burn);
        self.shares_total_supply = self.shares_total_supply - shares_to_burn;
        let out = vec![out0, out1];
        proof {
            assert(self.amounts@ =~= seq![new0, new1]);
            assert(out@ =~= seq![out0, out1]);
        }
        Ok(out)
    }

    /// Rewards that `account_id` can claim in each token; refused only when
    /// one does not fit in 128 bits.
    pub fn calculate_pending_rewards(&self, account_id: &String) -> (r: Result<
        Vec<u128>,
        PoolError,
    >)
        requires
            self.wf(),
        ensures
            (self.pending_reward(account_id@, 0) <= u128_max() && self.pending_reward(account_id@, 1)
                <= u128_max()) <==> r is Ok,
            r matches Ok(v) ==> v@ == seq![
                self.pending_reward(account_id@, 0) as u128,
                self.pending_reward(account_id@, 1) as u128,
            ],
            r matches Err(e) ==> e == PoolError::Arithmetic,
    {
        let shares = self.shares.get(account_id);
        let last0 = self.last_claimed_fees[0].get(account_id);
        let last1 = self.last_claimed_fees[1].get(account_id);
        proof {
            assert(self.last_claimed_fees@[0].balance(account_id@) <= self.fees_per_share@[0]);
            assert(self.last_claimed_fees@[1].balance(account_id@) <= self.fees_per_share@[1]);
        }
        let pending0 = match (self.fees_per_share[0] - last0).checked_mul(shares) {
            Some(v) => v,
            None => {
                return Err(PoolError::Arithmetic);
            },
        };
        let pending1 = match (self.fees_per_share[1] - last1).checked_mul(shares) {
            Some(v) => v,
            None => {
                return Err(PoolError::Arithmetic);
            },
        };
        let out = vec![pending0, pending1];
        assert(out@ =~= seq![pending0, pending1]);
        Ok(out)
    }

    /// The error, if any, with which recording `collected` fees is refused.
    pub open spec fn fee_error(&self, collected: Seq<u128>) -> Option<PoolError> {
        if collected.len() != 2 {
            Some(PoolError::InvalidArgument)
        } else if self.shares_total_supply == 0 {
            None
        } else if self.unclaimed_fees@[0] + collected[0] > u128_max() || self.unclaimed_fees@[1]
            + collected[1] > u128_max() || self.fees_per_share@[0] + collected[0]
            / self.shares_total_supply > u128_max() || self.fees_per_share@[1] + collected[1]
            / self.shares_total_supply > u128_max() {
            Some(PoolError::Arithmetic)
        } else {
            None
        }
    }

    /// Records fees collected by the pool's worker: each token's fee is held
    /// back for the providers, and its share per share, rounded down, is
    /// added to the accumulator. A pool without shares records nothing.
    pub fn update_fees_in_pool(&mut self, collected_fees: Vec<u128>) -> (r: Result<(), PoolError>)
        requires
            old(self).wf(),
        ensures
            final(self).wf(),
            match old(self).fee_error(collected_fees@) {
                Some(e) => r == Err::<(), PoolError>(e) && *final(self) == *old(self),
                None => {
                    &&& r is Ok
                    &&& old(self).shares_total_supply == 0 ==> *final(self) == *old(self)
                    &&& old(self).shares_total_supply > 0 ==> {
                        &&& final(self).unclaimed_fees@ == seq![
                            (old(self).unclaimed_fees@[0] + collected_fees@[0]) as u128,
                            (old(self).unclaimed_fees@[1] + collected_fees@[1]) as u128,
                        ]
                        &&& final(self).fees_per_share@ == seq![
                            (old(self).fees_per_share@[0] + collected_fees@[0]
                                / old(self).shares_total_supply) as u128,
                            (old(self).fees_per_share@[1] + collected_fees@[1]
                                / old(self).shares_total_supply) as u128,
                        ]
                        &&& final(self).same_terms(old(self))
                        &&& final(self).amounts == old(self).amounts
                        &&& final(self).shares == old(self).shares
                        &&& final(self).shares_total_supply == old(self).shares_total_supply
                        &&& final(self).last_claimed_fees == old(self).last_claimed_fees
                    }
                },
            },
    {
        if collected_fees.len() != 2 {
            return Err(PoolError::InvalidArgument);
        }
        if self.shares_total_supply == 0 {
            return Ok(());
        }
        let total = self.shares_total_supply;
        let u0 = match self.unclaimed_fees[0].checked_add(collected_fees[0]) {
            Some(v) => v,
            None => {
                return Err(PoolError::Arithmetic);
            },
        };
        let u1 = match self.unclaimed_fees[1].checked_add(collected_fees[1]) {
            Some(v) => v,
            None => {
                return Err(PoolError::Arithmetic);
            },
        };
        let f0 = match self.fees_per_share[0].checked_add(collected_fees[0] / total) {
            Some(v) => v,
            None => {
                return Err(PoolError::Arithmetic);
            },
        };
        let f1 = match self.fees_per_share[1].checked_add(collected_fees[1] / total) {
            Some(v) => v,
            None => {
                return Err(PoolError::Arithmetic);
            },
        };
        self.unclaimed_fees.set(0, u0);
        self.unclaimed_fees.set(1, u1);
        self.fees_per_share.set(0, f0);
        self.fees_per_share.set(1, f1);
        proof {
            assert(self.unclaimed_fees@ =~= seq![u0, u1]);
            assert(self.fees_per_share@ =~= seq![f0, f1]);
        }
        Ok(())
    }

    /// The error, if any, with which `k`'s claim is refused.
    pub open spec fn claim_error(&self, k: Seq<char>) -> Option<PoolError> {
        if self.pending_reward(k, 0) > u128_max() || self.pending_reward(k, 1) > u128_max()
            || self.unclaimed_fees@[0] < self.pending_reward(k, 0) || self.unclaimed_fees@[1]
            < self.pending_reward(k, 1) {
            Some(PoolError::Arithmetic)
        } else {
            None
        }
    }

    fn snapshot_claimed(&mut self, account_id: &String, i: usize)
        requires
            old(self).wf(),
            i < 2,
        ensures
            final(self).wf(),
            final(self).last_claimed_fees@[i as int].balance(account_id@) == old(self).fees_per_share@[i as int],
            forall|k: Seq<char>|
                k != account_id@ ==> #[trigger] final(self).last_claimed_fees@[i as int].balance(k)
                    == old(self).last_claimed_fees@[i as int].balance(k),
            final(self).last_claimed_fees@[1 - i] == old(self).last_claimed_fees@[1 - i],
            final(self).last_claimed_fees@.len() == 2,
            final(self).same_terms(old(self)),
            final(self).amounts == old(self).amounts,
            final(self).shares == old(self).shares,
            final(self).shares_total_supply == old(self).shares_total_supply,
            final(self).unclaimed_fees == old(self).unclaimed_fees,
            final(self).fees_per_share == old(self).fees_per_share,
    {
        let ghost before = self.last_claimed_fees@;
        let mut book = self.last_claimed_fees.remove(i);
        book.set(account_id, self.fees_per_share[i]);
        self.last_claimed_fees.insert(i, book);
        proof {
            assert(self.last_claimed_fees@ =~= before.update(i as int, book));
            assert forall|j: int, k: Seq<char>| 0 <= j < 2 implies #[trigger] self.last_claimed_fees@[j].balance(k)
                <= self.fees_per_share@[j] by {
                if j != i {
                    assert(self.last_claimed_fees@[j] == before[j]);
                }
            }
        }
    }

    /// Pays `account_id`'s pending rewards out of the held-back fees and
    /// records that it has claimed up to the current fees per share.
    pub fn mark_fees_claimed(&mut self, account_id: &String) -> (r: Result<(), PoolError>)
        requires
            old(self).wf(),
        ensures
            final(self).wf(),
            match old(self).claim_error(account_id@) {
                Some(e) => r == Err::<(), PoolError>(e) && *final(self) == *old(self),
                None => {
                    &&& r is Ok
                    &&& final(self).unclaimed_fees@ == seq![
                        (old(self).unclaimed_fees@[0] - old(self).pending_reward(account_id@, 0)) as u128,
                        (old(self).unclaimed_fees@[1] - old(self).pending_reward(account_id@, 1)) as u128,
                    ]
                    &&& forall|i: int| 0 <= i < 2 ==> #[trigger] final(self).last_claimed_fees@[i].balance(account_id@)
                        == old(self).fees_per_share@[i]
                    &&& forall|i: int, k: Seq<char>|
                        0 <= i < 2 && k != account_id@ ==> #[trigger] final(self).last_claimed_fees@[i].balance(k)
                            == old(self).last_claimed_fees@[i].balance(k)
                    &&& forall|k: Seq<char>| #[trigger] final(self).pending_reward(k, 0) == if k == account_id@ {
                        0
                    } else {
                        old(self).pending_reward(k, 0)
                    }
                    &&& forall|k: Seq<char>| #[trigger] final(self).pending_reward(k, 1) == if k == account_id@ {
                        0
                    } else {
                        old(self).pending_reward(k, 1)
                    }
                    &&& final(self).same_terms(old(self))
                    &&& final(self).amounts == old(self).amounts
                    &&& final(self).shares == old(self).shares
                    &&& final(self).shares_total_supply == old(self).shares_total_supply
                    &&& final(self).fees_per_share == old(self).fees_per_share
                },
            },
    {
        let pending = match self.calculate_pending_rewards(account_id) {
            Ok(p) => p,
            Err(e) => {
                return Err(e);
            },
        };
        if self.unclaimed_fees[0] < pending[0] || self.unclaimed_fees[1] < pending[1] {
            return Err(PoolError::Arithmetic);
        }
        let u0 = self.unclaimed_fees[0] - pending[0];
        let u1 = self.unclaimed_fees[1] - pending[1];
        self.unclaimed_fees.set(0, u0);
        self.unclaimed_fees.set(1, u1);
        let ghost mid = *self;
        self.snapshot_claimed(account_id, 0);
        let ghost mid2 = *self;
        self.snapshot_claimed(account_id, 1);
        proof {
            assert(self.unclaimed_fees@ =~= seq![u0, u1]);
            assert(self.last_claimed_fees@[0] == mid2.last_claimed_fees@[0]);
            assert forall|k: Seq<char>| #[trigger] self.pending_reward(k, 0) == if k == account_id@ {
                0
            } else {
                old(self).pending_reward(k, 0)
            } by {
                assert(self.shares == old(self).shares);
                assert(self.fees_per_share == old(self).fees_per_share);
                if k == account_id@ {
                    assert(self.fees_per_share@[0] - self.last_claimed_fees@[0].balance(k) == 0);
                    assert(0 * self.shares.balance(k) == 0);
                } else {
                    assert(mid.last_claimed_fees@[0] == old(self).last_claimed_fees@[0]);
                    assert(mid2.last_claimed_fees@[0].balance(k) == mid.last_claimed_fees@[0].balance(k));
                    assert(self.last_claimed_fees@[0].balance(k) == mid2.last_claimed_fees@[0].balance(k));
                }
            }
            assert forall|k: Seq<char>| #[trigger] self.pending_reward(k, 1) == if k == account_id@ {
                0
            } else {
                old(self).pending_reward(k, 1)
            } by {
                assert(self.shares == old(self).shares);
                assert(self.fees_per_share == old(self).fees_per_share);
                if k == account_id@ {
                    assert(self.fees_per_share@[1] - self.last_claimed_fees@[1].balance(k) == 0);
                    assert(0 * self.shares.balance(k) == 0);
                } else {
                    assert(mid.last_claimed_fees@[1] == old(self).last_claimed_fees@[1]);
                    assert(mid2.last_claimed_fees@[1].balance(k) == mid.last_claimed_fees@[1].balance(k));
                    assert(self.last_claimed_fees@[1].balance(k) == mid2.last_claimed_fees@[1].balance(k));
                }
            }
            assert forall|i: int| 0 <= i < 2 implies #[trigger] self.last_claimed_fees@[i].balance(account_id@)
                == old(self).fees_per_share@[i] by {}
        }
        Ok(())
    }
}

} // verus!
