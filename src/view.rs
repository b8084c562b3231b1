//! Read-only queries of the registry. Each result is fixed by the state
//! alone, so asking twice with no change in between gives the same answer.
use vstd::prelude::*;
use crate::registry::{Contract, RegistryError, Worker};

verus! {

/// What a pool looks like from outside.
pub struct PoolInfo {
    pub token_ids: Vec<String>,
    pub amounts: Vec<u128>,
    pub fee: u32,
    pub unclaimed_fees: Vec<u128>,
    pub shares_total_supply: u128,
    pub fees_per_share: Vec<u128>,
    pub worker_id: Option<String>,
    pub last_ping_timestamp_ms: u64,
}

fn copy_amounts(v: &Vec<u128>) -> (r: Vec<u128>)
    ensures
        r@ == v@,
{
    let r = v.clone();
    assert(r@ =~= v@);
    r
}

impl Contract {
    /// The approved compose fingerprints.
    pub fn get_approved_compose_hashes(&self) -> (r: Vec<String>)
        ensures
            r@.len() == self.approved_compose_hashes@.len(),
            forall|i: int| 0 <= i < r@.len() ==> (#[trigger] r@[i])@ == self.approved_compose_hashes@[i]@,
    {
        let mut r: Vec<String> = Vec::new();
        let mut i: usize = 0;
        while i < self.approved_compose_hashes.len()
            invariant
                i <= self.approved_compose_hashes@.len(),
                r@.len() == i,
                forall|j: int| 0 <= j < i ==> (#[trigger] r@[j])@ == self.approved_compose_hashes@[j]@,
            decreases self.approved_compose_hashes@.len() - i,
        {
            r.push(self.approved_compose_hashes[i].clone());
            i = i + 1;
        }
        r
    }

    /// The number of pools.
    pub fn get_pool_len(&self) -> (r: u32)
        requires
            self.wf(),
        ensures
            r == self.pools@.len(),
    {
        self.pools.len() as u32
    }

    /// Pool `pool_id`, if it exists.
    pub fn get_pool(&self, pool_id: u32) -> (r: Option<PoolInfo>)
        requires
            self.wf(),
        ensures
            pool_id as int >= self.pools@.len() <==> r is None,
            r matches Some(info) ==> {
                let p = self.pools@[pool_id as int];
                &&& info.token_ids@ == p.token_ids@
                &&& info.amounts@ == p.amounts@
                &&& info.fee == p.fee
                &&& info.unclaimed_fees@ == p.unclaimed_fees@
                &&& info.shares_total_supply == p.shares_total_supply
                &&& info.fees_per_share@ == p.fees_per_share@
                &&& info.worker_id == p.worker_id
                &&& info.last_ping_timestamp_ms == p.last_ping_timestamp_ms
            },
    {
        if pool_id as usize >= self.pools.len() {
            return None;
        }
        let p = &self.pools[pool_id as usize];
        proof {
            assert(p.wf());
        }
        let worker_id = match &p.worker_id {
            Some(w) => Some(w.clone()),
            None => None,
        };
        Some(PoolInfo {
            token_ids: p.get_token_ids(),
            amounts: copy_amounts(&p.amounts),
            fee: p.fee,
            unclaimed_fees: copy_amounts(&p.unclaimed_fees),
            shares_total_supply: p.shares_total_supply,
            fees_per_share: copy_amounts(&p.fees_per_share),
            worker_id,
            last_ping_timestamp_ms: p.last_ping_timestamp_ms,
        })
    }

    /// The number of registered workers.
    pub fn get_worker_len(&self) -> (r: u32)
        ensures
            r == self.workers@.len() as u32,
    {
        self.workers.len() as u32
    }

    /// The worker registered under `account_id`, if any.
    pub fn get_worker(&self, account_id: &String) -> (r: Option<Worker>)
        requires
            self.wf(),
        ensures
            self.is_worker(account_id@) <==> r is Some,
            r matches Some(w) ==> forall|i: int| 0 <= i < self.workers@.len() && (#[trigger] self.workers@[i]).0@ == account_id@
                ==> w.same(&self.workers@[i].1),
    {
        let mut i: usize = 0;
        while i < self.workers.len()
            invariant
                self.wf(),
                i <= self.workers@.len(),
                forall|j: int| 0 <= j < i ==> (#[trigger] self.workers@[j]).0@ != account_id@,
            decreases self.workers@.len() - i,
        {
            if self.workers[i].0 == *account_id {
                proof {
                    assert forall|j: int| 0 <= j < self.workers@.len() && (#[trigger] self.workers@[j]).0@ == account_id@
                        implies j == i by {
                        if j > i {
                            assert(self.workers@[i as int].0@ != self.workers@[j].0@);
                        }
                    }
                }
                return Some(self.workers[i].1.duplicate());
            }
            i = i + 1;
        }
        None
    }

    /// Up to `limit` workers, from the `offset`-th on, in registration order.
    pub fn get_workers(&self, offset: u32, limit: u32) -> (r: Vec<Worker>)
        ensures
            r@.len() == if offset >= self.workers@.len() {
                0
            } else if self.workers@.len() - offset < limit {
                self.workers@.len() - offset
            } else {
                limit as int
            },
            forall|j: int| 0 <= j < r@.len() ==> (#[trigger] r@[j]).same(&self.workers@[offset + j].1),
    {
        let mut r: Vec<Worker> = Vec::new();
        let mut i: usize = offset as usize;
        let mut taken: u32 = 0;
        while i < self.workers.len() && taken < limit
            invariant
                offset <= i,
                i <= self.workers@.len() || i == offset,
                taken <= limit,
                r@.len() == taken,
                i == offset + taken,
                forall|j: int| 0 <= j < r@.len() ==> (#[trigger] r@[j]).same(&self.workers@[offset + j].1),
            decreases self.workers@.len() - i,
        {
            r.push(self.workers[i].1.duplicate());
            i = i + 1;
            taken = taken + 1;
        }
        r
    }

    /// How long a worker stays active after its last ping.
    pub fn get_worker_ping_timeout_ms(&self) -> (r: u64)
        ensures
            r == self.worker_ping_timeout_ms,
    {
        self.worker_ping_timeout_ms
    }

    /// The shares that `account_id` holds in pool `pool_id`, if the pool exists.
    pub fn get_liquidity_provider_shares(&self, pool_id: u32, account_id: &String) -> (r: Option<u128>)
        requires
            self.wf(),
        ensures
            pool_id as int >= self.pools@.len() <==> r is None,
            r matches Some(s) ==> s == self.pools@[pool_id as int].shares_of(account_id@),
    {
        if pool_id as usize >= self.pools.len() {
            return None;
        }
        proof {
            assert(self.pools@[pool_id as int].wf());
        }
        Some(self.pools[pool_id as usize].shares.get(account_id))
    }

    /// The rewards that `account_id` can claim in pool `pool_id`.
    pub fn get_pending_rewards(&self, pool_id: u32, account_id: &String) -> (r: Result<Vec<u128>, RegistryError>)
        requires
            self.wf(),
        ensures
            pool_id as int >= self.pools@.len() ==> r == Err::<Vec<u128>, RegistryError>(RegistryError::NotFound),
            (pool_id as int) < self.pools@.len() ==> {
                let p = self.pools@[pool_id as int];
                if p.pending_reward(account_id@, 0) > u128::MAX || p.pending_reward(account_id@, 1) > u128::MAX {
                    r == Err::<Vec<u128>, RegistryError>(RegistryError::Arithmetic)
                } else {
                    r matches Ok(v) && v@ == seq![p.pending_reward(account_id@, 0) as u128, p.pending_reward(account_id@, 1) as u128]
                }
            },
    {
        if pool_id as usize >= self.pools.len() {
            return Err(RegistryError::NotFound);
        }
        proof {
            assert(self.pools@[pool_id as int].wf());
        }
        match self.pools[pool_id as usize].calculate_pending_rewards(account_id) {
            Ok(v) => Ok(v),
            Err(_) => Err(RegistryError::Arithmetic),
        }
    }
}

} // verus!
