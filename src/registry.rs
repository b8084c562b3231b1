//! The registry's state and its worker lifecycle: one attested worker per
//! pool, admitted when the pool has none or its worker has gone stale,
//! kept alive by pings, and replaced only after its key is revoked.
use vstd::prelude::*;
use vstd::utf8::encode_utf8;
use crate::account::Account;
use crate::attestation::{attestation_outcome, listed, verify, AttestationError, AttestationReport};
use crate::codec::{hex_decoded, hex_of};
use crate::naming::{pool_account_id, pool_account_of};
use crate::pool::{Pool, PoolError};

verus! {

/// The payment that proves a call was intended.
pub const ONE_YOCTO: u128 = 1;

/// The payment that funds a new pool's sub-account (1.5 NEAR).
pub const CREATE_POOL_STORAGE_DEPOSIT: u128 = 1_500_000_000_000_000_000_000_000;

/// Why the registry refused a call; it is then left as it was.
#[derive(PartialEq, Eq, Structural, Debug, Clone, Copy)]
pub enum RegistryError {
    /// No such pool, worker, account or approved fingerprint.
    NotFound,
    /// Wrong caller or role, or the proof-of-intent or storage payment is
    /// missing.
    Unauthorized,
    /// Malformed amounts, wrong token count, fee out of range, zero amount.
    InvalidArgument,
    /// The attestation report was refused.
    Attestation(AttestationError),
    /// The pool has an active worker or already names the caller, or its
    /// seat changed while a registration waited on the vault.
    ConflictingWorker,
    /// The worker's fingerprint is no longer approved.
    RevokedFingerprint,
    /// The staging account holds too little.
    InsufficientBalance,
    /// The provider holds too few shares.
    InsufficientShares,
    /// The provider has no rewards to claim.
    NothingToClaim,
    /// An external call that this step depends on did not succeed.
    ExternalCallFailed,
    /// A value does not fit in its integer type.
    Arithmetic,
    /// The registry is paused.
    Paused,
}

/// The registry error for a refused pool operation.
pub fn from_pool_error(e: PoolError) -> (r: RegistryError)
    ensures
        r == pool_error_spec(e),
{
    match e {
        PoolError::InvalidArgument => RegistryError::InvalidArgument,
        PoolError::InsufficientShares => RegistryError::InsufficientShares,
        PoolError::Arithmetic => RegistryError::Arithmetic,
    }
}

pub open spec fn pool_error_spec(e: PoolError) -> RegistryError {
    match e {
        PoolError::InvalidArgument => RegistryError::InvalidArgument,
        PoolError::InsufficientShares => RegistryError::InsufficientShares,
        PoolError::Arithmetic => RegistryError::Arithmetic,
    }
}

/// Who makes a call, with what payment, and when.
pub struct CallContext {
    /// The account that made the call.
    pub predecessor_account_id: String,
    /// The public key that signed the transaction.
    pub signer_account_pk: String,
    /// Native currency attached to the call, in yocto.
    pub attached_deposit: u128,
    /// The block's time, in milliseconds.
    pub block_timestamp_ms: u64,
}

/// A registered worker.
pub struct Worker {
    pub pool_id: u32,
    pub checksum: String,
    pub compose_hash: String,
    pub public_key: String,
}

impl Worker {
    pub open spec fn same(&self, o: &Worker) -> bool {
        &&& self.pool_id == o.pool_id
        &&& self.checksum@ == o.checksum@
        &&& self.compose_hash@ == o.compose_hash@
        &&& self.public_key@ == o.public_key@
    }

    /// A copy of the worker.
    pub fn duplicate(&self) -> (r: Worker)
        ensures
            r.same(self),
    {
        Worker {
            pool_id: self.pool_id,
            checksum: self.checksum.clone(),
            compose_hash: self.compose_hash.clone(),
            public_key: self.public_key.clone(),
        }
    }
}

/// A registration waiting for the vault to confirm a key change.
pub struct PendingWorker {
    pub worker_id: String,
    pub pool_id: u32,
    pub public_key: String,
    pub compose_hash: String,
    pub checksum: String,
    /// The worker that the pool named when the registration was asked for,
    /// whose seat the new worker takes.
    pub evicted: Option<String>,
}

/// A signing key to grant or revoke in a pool's vault.
pub struct KeyChange {
    /// The pool's sub-account, which holds the vault.
    pub vault_account_id: String,
    /// The intents ledger on which the key acts.
    pub intents_contract_id: String,
    pub public_key: String,
}

/// What a successful registration asks of the vault next.
pub enum RegistrationStep {
    /// Revoke the stale worker's key; then `on_inactive_worker_key_removed`.
    RevokeOldKey { revoke: KeyChange, pending: PendingWorker },
    /// Grant the new worker's key; then `on_worker_key_added`.
    GrantKey { grant: KeyChange, pending: PendingWorker },
}

impl RegistrationStep {
    pub open spec fn key(&self) -> KeyChange {
        match self {
            RegistrationStep::RevokeOldKey { revoke, .. } => *revoke,
            RegistrationStep::GrantKey { grant, .. } => *grant,
        }
    }

    pub open spec fn pending(&self) -> PendingWorker {
        match self {
            RegistrationStep::RevokeOldKey { pending, .. } => *pending,
            RegistrationStep::GrantKey { pending, .. } => *pending,
        }
    }
}

/// The two optional account names are the same.
pub open spec fn same_name(a: Option<String>, b: Option<String>) -> bool {
    match (a, b) {
        (None, None) => true,
        (Some(x), Some(y)) => x@ == y@,
        _ => false,
    }
}

/// No two entries carry the same name.
pub open spec fn names_distinct<V>(s: Seq<(String, V)>) -> bool {
    forall|i: int, j: int| 0 <= i < j < s.len() ==> #[trigger] s[i].0@ != #[trigger] s[j].0@
}

/// No text appears twice.
pub open spec fn texts_distinct(s: Seq<String>) -> bool {
    forall|i: int, j: int| 0 <= i < j < s.len() ==> (#[trigger] s[i])@ != (#[trigger] s[j])@
}

/// A compose hash as the registry keeps it: the lowercase hex of its 32
/// bytes; `None` for text that is not such a hash.
pub open spec fn normalized_digest(s: Seq<char>) -> Option<Seq<char>> {
    match hex_decoded(encode_utf8(s)) {
        Some(b) => if b.len() == 32 {
            Some(hex_of(b))
        } else {
            None
        },
        None => None,
    }
}

pub(crate) fn find_name<V>(s: &Vec<(String, V)>, k: &String) -> (r: Option<usize>)
    ensures
        match r {
            Some(i) => i < s@.len() && s@[i as int].0@ == k@,
            None => forall|i: int| 0 <= i < s@.len() ==> (#[trigger] s@[i]).0@ != k@,
        },
{
    let mut i: usize = 0;
    while i < s.len()
        invariant
            i <= s@.len(),
            forall|j: int| 0 <= j < i ==> (#[trigger] s@[j]).0@ != k@,
        decreases s@.len() - i,
    {
        if s[i].0 == *k {
            return Some(i);
        }
        i = i + 1;
    }
    None
}

pub(crate) fn find_text(s: &Vec<String>, k: &String) -> (r: Option<usize>)
    ensures
        match r {
            Some(i) => i < s@.len() && s@[i as int]@ == k@,
            None => !listed(s@, k@),
        },
{
    let mut i: usize = 0;
    while i < s.len()
        invariant
            i <= s@.len(),
            forall|j: int| 0 <= j < i ==> (#[trigger] s@[j])@ != k@,
        decreases s@.len() - i,
    {
        if s[i] == *k {
            return Some(i);
        }
        i = i + 1;
    }
    None
}

pub struct Contract {
    /// The account allowed to administer the registry.
    pub owner_id: String,
    /// The registry's own account, parent of the pools' sub-accounts.
    pub current_account_id: String,
    /// The intents ledger that holds the pools' assets.
    pub intents_contract_id: String,
    /// Whether registration and deposits are suspended.
    pub paused: bool,
    /// Accounts that may pause, besides the owner.
    pub pause_managers: Vec<String>,
    /// Accounts that may unpause, besides the owner.
    pub unpause_managers: Vec<String>,
    pub pools: Vec<Pool>,
    /// Approved compose fingerprints, as lowercase hex.
    pub approved_compose_hashes: Vec<String>,
    /// Registered workers by account.
    pub workers: Vec<(String, Worker)>,
    /// Providers' staging accounts.
    pub accounts: Vec<(String, Account)>,
    /// How long a worker stays active after its last ping.
    pub worker_ping_timeout_ms: u64,
}

impl Contract {
    /// The worker entry `e` names a pool whose worker is `e`'s account.
    pub open spec fn seated(&self, e: (String, Worker)) -> bool {
        &&& (e.1.pool_id as int) < self.pools@.len()
        &&& self.pools@[e.1.pool_id as int].worker_id matches Some(w) && w@ == e.0@
    }

    /// `w` has a worker entry for pool `p`.
    pub open spec fn has_seat_at(&self, w: Seq<char>, p: int) -> bool {
        exists|i: int| 0 <= i < self.workers@.len() && (#[trigger] self.workers@[i]).0@ == w && self.workers@[i].1.pool_id == p
    }

    pub open spec fn wf(&self) -> bool {
        &&& self.pools@.len() <= u32::MAX
        &&& forall|p: int| 0 <= p < self.pools@.len() ==> (#[trigger] self.pools@[p]).wf()
        &&& texts_distinct(self.approved_compose_hashes@)
        &&& names_distinct(self.workers@)
        &&& forall|i: int| 0 <= i < self.workers@.len() ==> self.seated(#[trigger] self.workers@[i])
        &&& names_distinct(self.accounts@)
        &&& forall|i: int| 0 <= i < self.accounts@.len() ==> (#[trigger] self.accounts@[i]).1.wf()
    }

    /// Whether `a` has a worker entry.
    pub open spec fn is_worker(&self, a: Seq<char>) -> bool {
        exists|i: int| 0 <= i < self.workers@.len() && (#[trigger] self.workers@[i]).0@ == a
    }

    /// Whether pool `p` has a worker that pinged less than the timeout before `now_ms`.
    pub open spec fn active_worker(&self, p: int, now_ms: u64) -> bool {
        self.pools@[p].worker_id is Some && now_ms - self.pools@[p].last_ping_timestamp_ms
            < self.worker_ping_timeout_ms
    }

    /// Everything but the pools and the worker table is as in `o`.
    pub open spec fn same_settings(&self, o: &Contract) -> bool {
        &&& self.owner_id == o.owner_id
        &&& self.current_account_id == o.current_account_id
        &&& self.intents_contract_id == o.intents_contract_id
        &&& self.paused == o.paused
        &&& self.pause_managers == o.pause_managers
        &&& self.unpause_managers == o.unpause_managers
        &&& self.approved_compose_hashes == o.approved_compose_hashes
        &&& self.accounts == o.accounts
        &&& self.worker_ping_timeout_ms == o.worker_ping_timeout_ms
    }

    /// Nothing observable differs from `o`.
    pub open spec fn unchanged_from(&self, o: &Contract) -> bool {
        &&& self.pools@ == o.pools@
        &&& self.workers == o.workers
        &&& self.same_settings(o)
    }

    /// A registry owned by `owner_id`, at account `current_account_id`,
    /// with no pools, workers or approved fingerprints.
    pub fn new(
        owner_id: String,
        intents_contract_id: String,
        current_account_id: String,
        worker_ping_timeout_ms: u64,
    ) -> (r: Contract)
        ensures
            r.wf(),
            r.owner_id == owner_id,
            r.intents_contract_id == intents_contract_id,
            r.current_account_id == current_account_id,
            r.worker_ping_timeout_ms == worker_ping_timeout_ms,
            !r.paused,
            r.pause_managers@.len() == 0,
            r.unpause_managers@.len() == 0,
            r.pools@.len() == 0,
            r.workers@.len() == 0,
            r.approved_compose_hashes@.len() == 0,
            r.accounts@.len() == 0,
    {
        Contract {
            owner_id,
            current_account_id,
            intents_contract_id,
            paused: false,
            pause_managers: Vec::new(),
            unpause_managers: Vec::new(),
            pools: Vec::new(),
            approved_compose_hashes: Vec::new(),
            workers: Vec::new(),
            accounts: Vec::new(),
            worker_ping_timeout_ms,
        }
    }

    /// Well-formedness depends on the pools, workers, accounts and the
    /// distinctness of the approved fingerprints alone.
    pub proof fn lemma_wf_from_tables(&self, o: &Contract)
        requires
            self.wf(),
            o.pools@ == self.pools@,
            o.workers == self.workers,
            o.accounts == self.accounts,
            texts_distinct(o.approved_compose_hashes@),
        ensures
            o.wf(),
    {
        assert forall|p: int| 0 <= p < o.pools@.len() implies (#[trigger] o.pools@[p]).wf() by {
            assert(self.pools@[p].wf());
        }
        assert forall|i: int| 0 <= i < o.workers@.len() implies o.seated(#[trigger] o.workers@[i]) by {
            assert(self.seated(self.workers@[i]));
        }
    }

    /// Well-formed staging accounts, with everything else unchanged, keep
    /// the registry well formed.
    pub proof fn lemma_wf_from_tables_accounts(&self, o: &Contract)
        requires
            self.wf(),
            o.pools == self.pools,
            o.workers == self.workers,
            o.approved_compose_hashes == self.approved_compose_hashes,
            names_distinct(o.accounts@),
            forall|i: int| 0 <= i < o.accounts@.len() ==> (#[trigger] o.accounts@[i]).1.wf(),
        ensures
            o.wf(),
    {
        assert forall|i: int| 0 <= i < o.workers@.len() implies o.seated(#[trigger] o.workers@[i]) by {
            assert(self.seated(self.workers@[i]));
        }
    }

    /// Replacing one pool by a well-formed pool with the same worker keeps
    /// the registry well formed.
    pub proof fn lemma_replace_pool(&self, o: &Contract, p: int)
        requires
            self.wf(),
            0 <= p < self.pools@.len(),
            o.pools@ == self.pools@.update(p, o.pools@[p]),
            o.pools@[p].wf(),
            o.pools@[p].worker_id == self.pools@[p].worker_id,
            o.workers == self.workers,
            o.accounts == self.accounts,
            o.approved_compose_hashes == self.approved_compose_hashes,
        ensures
            o.wf(),
    {
        assert forall|q: int| 0 <= q < o.pools@.len() implies (#[trigger] o.pools@[q]).wf() by {
            if q != p {
                assert(self.pools@[q].wf());
            }
        }
        assert forall|i: int| 0 <= i < o.workers@.len() implies o.seated(#[trigger] o.workers@[i]) by {
            assert(self.seated(self.workers@[i]));
        }
    }

    /// Two worker entries that name the same pool are the same entry.
    pub proof fn lemma_one_worker_per_pool(&self, i: int, j: int)
        requires
            self.wf(),
            0 <= i < self.workers@.len(),
            0 <= j < self.workers@.len(),
            self.workers@[i].1.pool_id == self.workers@[j].1.pool_id,
        ensures
            i == j,
    {
        assert(self.seated(self.workers@[i]));
        assert(self.seated(self.workers@[j]));
        if i < j {
            assert(self.workers@[i].0@ != self.workers@[j].0@);
        } else if j < i {
            assert(self.workers@[j].0@ != self.workers@[i].0@);
        }
    }

    /// A ping can only reach the pool that names the caller as its worker:
    /// the caller's worker entry points at a pool whose `worker_id` is the
    /// caller, so no other pool's last ping can move.
    pub proof fn lemma_ping_reaches_own_pool(&self, i: int, p: int)
        requires
            self.wf(),
            0 <= i < self.workers@.len(),
            0 <= p < self.pools@.len(),
            !(self.pools@[p].worker_id matches Some(w) && w@ == self.workers@[i].0@),
        ensures
            self.workers@[i].1.pool_id != p,
    {
        assert(self.seated(self.workers@[i]));
    }

    /// The refusal, if any, that a registration meets before its report is read.
    pub open spec fn register_precheck(&self, ctx: &CallContext, pool_id: u32) -> Option<RegistryError> {
        if self.paused {
            Some(RegistryError::Paused)
        } else if ctx.attached_deposit != ONE_YOCTO {
            Some(RegistryError::Unauthorized)
        } else if pool_id as int >= self.pools@.len() {
            Some(RegistryError::NotFound)
        } else if self.active_worker(pool_id as int, ctx.block_timestamp_ms) {
            Some(RegistryError::ConflictingWorker)
        } else if self.pools@[pool_id as int].worker_id matches Some(w) && w@ == ctx.predecessor_account_id@ {
            Some(RegistryError::ConflictingWorker)
        } else {
            None
        }
    }

    /// A registration against a pool whose worker pinged less than the
    /// timeout ago fails with `ConflictingWorker`, whatever the report.
    pub proof fn lemma_active_worker_blocks_registration(
        &self,
        ctx: &CallContext,
        pool_id: u32,
        report: &AttestationReport,
    )
        requires
            !self.paused,
            ctx.attached_deposit == ONE_YOCTO,
            (pool_id as int) < self.pools@.len(),
            self.active_worker(pool_id as int, ctx.block_timestamp_ms),
        ensures
            self.registration_outcome(ctx, pool_id, report) == Err::<Seq<char>, RegistryError>(
                RegistryError::ConflictingWorker,
            ),
    {
    }

    /// Once the pool's worker is stale, a registration by another account
    /// with a report that attests an approved fingerprint goes through.
    pub proof fn lemma_stale_worker_is_replaced(
        &self,
        ctx: &CallContext,
        pool_id: u32,
        report: &AttestationReport,
    )
        requires
            !self.paused,
            ctx.attached_deposit == ONE_YOCTO,
            (pool_id as int) < self.pools@.len(),
            !self.active_worker(pool_id as int, ctx.block_timestamp_ms),
            !(self.pools@[pool_id as int].worker_id matches Some(w) && w@ == ctx.predecessor_account_id@),
            attestation_outcome(
                *report,
                ctx.signer_account_pk@,
                (ctx.block_timestamp_ms / 1000) as u64,
                self.approved_compose_hashes@,
            ) is Ok,
        ensures
            self.registration_outcome(ctx, pool_id, report) is Ok,
    {
    }

    /// The refusal or the fingerprint that a registration meets.
    pub open spec fn registration_outcome(
        &self,
        ctx: &CallContext,
        pool_id: u32,
        report: &AttestationReport,
    ) -> Result<Seq<char>, RegistryError> {
        match self.register_precheck(ctx, pool_id) {
            Some(e) => Err(e),
            None => match attestation_outcome(
                *report,
                ctx.signer_account_pk@,
                (ctx.block_timestamp_ms / 1000) as u64,
                self.approved_compose_hashes@,
            ) {
                Err(e) => Err(RegistryError::Attestation(e)),
                Ok(fp) => Ok(fp),
            },
        }
    }

    /// Asks to register the caller as pool `pool_id`'s worker, with the
    /// signer's key. Refused while the pool has an active worker or names the
    /// caller already, and unless the report attests an approved
    /// fingerprint. Where a stale worker holds the pool with an entry for it,
    /// its key is to be revoked first; otherwise the new key is to be granted.
    /// Nothing changes until the vault answers.
    pub fn register_worker(
        &self,
        ctx: &CallContext,
        pool_id: u32,
        report: &AttestationReport,
        checksum: String,
    ) -> (r: Result<RegistrationStep, RegistryError>)
        requires
            self.wf(),
        ensures
            match self.registration_outcome(ctx, pool_id, report) {
                Err(e) => r == Err::<RegistrationStep, RegistryError>(e),
                Ok(fp) => r matches Ok(step) && {
                    &&& step.pending().worker_id@ == ctx.predecessor_account_id@
                    &&& step.pending().pool_id == pool_id
                    &&& step.pending().public_key@ == ctx.signer_account_pk@
                    &&& step.pending().compose_hash@ == fp
                    &&& step.pending().checksum@ == checksum@
                    &&& same_name(step.pending().evicted, self.pools@[pool_id as int].worker_id)
                    &&& step.key().vault_account_id@ == pool_account_of(pool_id as nat, self.current_account_id@)
                    &&& step.key().intents_contract_id@ == self.intents_contract_id@
                    &&& if self.pools@[pool_id as int].worker_id matches Some(w) && self.has_seat_at(w@, pool_id as int) {
                        step is RevokeOldKey && exists|i: int|
                            0 <= i < self.workers@.len() && (#[trigger] self.workers@[i]).0@ == self.pools@[pool_id as int].worker_id->Some_0@
                                && self.workers@[i].1.pool_id == pool_id
                                && step.key().public_key@ == self.workers@[i].1.public_key@
                    } else {
                        step is GrantKey && step.key().public_key@ == ctx.signer_account_pk@
                    }
                },
            },
    {
        if self.paused {
            return Err(RegistryError::Paused);
        }
        if ctx.attached_deposit != ONE_YOCTO {
            return Err(RegistryError::Unauthorized);
        }
        if pool_id as usize >= self.pools.len() {
            return Err(RegistryError::NotFound);
        }
        let pool = &self.pools[pool_id as usize];
        if pool.has_active_worker(self.worker_ping_timeout_ms, ctx.block_timestamp_ms) {
            return Err(RegistryError::ConflictingWorker);
        }
        let evicted = match &pool.worker_id {
            Some(w) => {
                if *w == ctx.predecessor_account_id {
                    return Err(RegistryError::ConflictingWorker);
                }
                Some(w.clone())
            },
            None => None,
        };
        let compose_hash = match verify(
            report,
            &ctx.signer_account_pk,
            ctx.block_timestamp_ms / 1000,
            &self.approved_compose_hashes,
        ) {
            Ok(fp) => fp,
            Err(e) => {
                return Err(RegistryError::Attestation(e));
            },
        };
        let vault_account_id = pool_account_id(pool_id, &self.current_account_id);
        let seat = match &pool.worker_id {
            Some(w) => match find_name(&self.workers, w) {
                Some(i) => if self.workers[i].1.pool_id == pool_id {
                    Some(i)
                } else {
                    None
                },
                None => None,
            },
            None => None,
        };
        proof {
            if pool.worker_id is Some {
                let w = pool.worker_id->Some_0;
                if seat is None && self.has_seat_at(w@, pool_id as int) {
                    let j = choose|j: int| 0 <= j < self.workers@.len() && (#[trigger] self.workers@[j]).0@ == w@ && self.workers@[j].1.pool_id == pool_id;
                    let i = choose|i: int| 0 <= i < self.workers@.len() && (#[trigger] self.workers@[i]).0@ == w@ && self.workers@[i].1.pool_id != pool_id;
                    if i < j {
                        assert(self.workers@[i].0@ != self.workers@[j].0@);
                    } else if j < i {
                        assert(self.workers@[j].0@ != self.workers@[i].0@);
                    }
                }
            }
        }
        let pending = PendingWorker {
            worker_id: ctx.predecessor_account_id.clone(),
            pool_id,
            public_key: ctx.signer_account_pk.clone(),
            compose_hash,
            checksum,
            evicted,
        };
        match seat {
            Some(i) => {
                let revoke = KeyChange {
                    vault_account_id,
                    intents_contract_id: self.intents_contract_id.clone(),
                    public_key: self.workers[i].1.public_key.clone(),
                };
                Ok(RegistrationStep::RevokeOldKey { revoke, pending })
            },
            None => {
                let grant = KeyChange {
                    vault_account_id,
                    intents_contract_id: self.intents_contract_id.clone(),
                    public_key: ctx.signer_account_pk.clone(),
                };
                Ok(RegistrationStep::GrantKey { grant, pending })
            },
        }
    }

    fn set_pool_worker(&mut self, p: usize, worker_id: Option<String>, now_ms: u64)
        requires
            p < old(self).pools@.len(),
        ensures
            final(self).pools@.len() == old(self).pools@.len(),
            forall|q: int| 0 <= q < old(self).pools@.len() && q != p ==> #[trigger] final(self).pools@[q] == old(self).pools@[q],
            final(self).pools@[p as int].same_but_worker(&old(self).pools@[p as int]),
            final(self).pools@[p as int].worker_id == worker_id,
            final(self).pools@[p as int].last_ping_timestamp_ms == now_ms,
            final(self).same_settings(old(self)),
            final(self).workers == old(self).workers,
    {
        let ghost before = self.pools@;
        let mut pool = self.pools.remove(p);
        pool.worker_id = worker_id;
        pool.last_ping_timestamp_ms = now_ms;
        self.pools.insert(p, pool);
        assert(self.pools@ =~= before.update(p as int, pool));
    }

    /// The refusal, if any, of a revocation's continuation.
    pub open spec fn key_removed_error(&self, pending: &PendingWorker, removed: bool) -> Option<RegistryError> {
        if !removed {
            Some(RegistryError::ExternalCallFailed)
        } else if pending.pool_id as int >= self.pools@.len() {
            Some(RegistryError::NotFound)
        } else if self.pools@[pending.pool_id as int].worker_id is None {
            Some(RegistryError::NotFound)
        } else if !same_name(self.pools@[pending.pool_id as int].worker_id, pending.evicted) {
            Some(RegistryError::ConflictingWorker)
        } else {
            None
        }
    }

    /// Continues a registration once the vault has answered the revocation
    /// of the stale worker's key: where it succeeded, and the pool still
    /// names that worker, the worker's entry for the pool is deleted and the
    /// new key is to be granted (then `on_worker_key_added`). The pool itself
    /// keeps naming the stale worker until the grant lands.
    pub fn on_inactive_worker_key_removed(&mut self, pending: &PendingWorker, removed: bool) -> (r:
        Result<KeyChange, RegistryError>)
        requires
            old(self).wf(),
        ensures
            final(self).wf(),
            match old(self).key_removed_error(pending, removed) {
                Some(e) => r == Err::<KeyChange, RegistryError>(e) && *final(self) == *old(self),
                None => r matches Ok(grant) && {
                    let p = pending.pool_id as int;
                    let w = old(self).pools@[p].worker_id->Some_0@;
                    &&& grant.public_key@ == pending.public_key@
                    &&& grant.vault_account_id@ == pool_account_of(p as nat, old(self).current_account_id@)
                    &&& grant.intents_contract_id@ == old(self).intents_contract_id@
                    &&& final(self).pools == old(self).pools
                    &&& !final(self).has_seat_at(w, p)
                    &&& if old(self).has_seat_at(w, p) {
                        exists|i: int| 0 <= i < old(self).workers@.len()
                            && (#[trigger] old(self).workers@[i]).0@ == w
                            && old(self).workers@[i].1.pool_id == p
                            && final(self).workers@ == old(self).workers@.remove(i)
                    } else {
                        final(self).workers == old(self).workers
                    }
                    &&& final(self).same_settings(old(self))
                },
            },
    {
        if !removed {
            return Err(RegistryError::ExternalCallFailed);
        }
        if pending.pool_id as usize >= self.pools.len() {
            return Err(RegistryError::NotFound);
        }
        let p = pending.pool_id as usize;
        let stale = match &self.pools[p].worker_id {
            Some(w) => w.clone(),
            None => {
                return Err(RegistryError::NotFound);
            },
        };
        match &pending.evicted {
            Some(e) => {
                if *e != stale {
                    return Err(RegistryError::ConflictingWorker);
                }
            },
            None => {
                return Err(RegistryError::ConflictingWorker);
            },
        }
        let ghost old_self = *self;
        let ghost w = stale@;
        match find_name(&self.workers, &stale) {
            Some(i) => {
                if self.workers[i].1.pool_id as usize == p {
                    self.workers.remove(i);
                    proof {
                        let ow = old_self.workers@;
                        let nw = self.workers@;
                        assert(nw =~= ow.remove(i as int));
                        assert(names_distinct(nw)) by {
                            assert forall|a: int, b: int| 0 <= a < b < nw.len() implies #[trigger] nw[a].0@ != #[trigger] nw[b].0@ by {
                                let a2 = if a < i { a } else { a + 1 };
                                let b2 = if b < i { b } else { b + 1 };
                                assert(nw[a] == ow[a2] && nw[b] == ow[b2]);
                            }
                        }
                        assert forall|j: int| 0 <= j < nw.len() implies self.seated(#[trigger] nw[j]) by {
                            let j2 = if j < i { j } else { j + 1 };
                            assert(nw[j] == ow[j2]);
                            assert(old_self.seated(ow[j2]));
                        }
                        if self.has_seat_at(w, p as int) {
                            let j = choose|j: int| 0 <= j < nw.len() && (#[trigger] nw[j]).0@ == w && nw[j].1.pool_id == p;
                            let j2 = if j < i { j } else { j + 1 };
                            assert(nw[j] == ow[j2]);
                            if j2 < i {
                                assert(ow[j2].0@ != ow[i as int].0@);
                            } else {
                                assert(ow[i as int].0@ != ow[j2].0@);
                            }
                        }
                    }
                } else {
                    proof {
                        if old_self.has_seat_at(w, p as int) {
                            let j = choose|j: int| 0 <= j < old_self.workers@.len() && (#[trigger] old_self.workers@[j]).0@ == w && old_self.workers@[j].1.pool_id == p;
                            if j < i {
                                assert(old_self.workers@[j].0@ != old_self.workers@[i as int].0@);
                            } else if j > i {
                                assert(old_self.workers@[i as int].0@ != old_self.workers@[j].0@);
                            }
                        }
                    }
                }
            },
            None => {},
        }
        let grant = KeyChange {
            vault_account_id: pool_account_id(pending.pool_id, &self.current_account_id),
            intents_contract_id: self.intents_contract_id.clone(),
            public_key: pending.public_key.clone(),
        };
        Ok(grant)
    }

    /// The refusal, if any, of a grant's continuation.
    pub open spec fn key_added_error(&self, pending: &PendingWorker, added: bool) -> Option<RegistryError> {
        if !added {
            Some(RegistryError::ExternalCallFailed)
        } else if pending.pool_id as int >= self.pools@.len() {
            Some(RegistryError::NotFound)
        } else if !same_name(self.pools@[pending.pool_id as int].worker_id, pending.evicted) {
            Some(RegistryError::ConflictingWorker)
        } else if self.pools@[pending.pool_id as int].worker_id matches Some(w) && self.has_seat_at(w@, pending.pool_id as int) {
            Some(RegistryError::ConflictingWorker)
        } else {
            None
        }
    }

    /// Completes a registration once the vault has answered the grant of the
    /// new key: where it succeeded, the pool still names the worker that the
    /// registration found there, and that worker's entry for the pool is
    /// gone, the new worker is recorded and counts as pinged at `now_ms`.
    /// A caller that held another pool's seat leaves it: that pool is left
    /// without worker, and the returned key change revokes the caller's old
    /// key in its vault.
    pub fn on_worker_key_added(&mut self, pending: PendingWorker, added: bool, now_ms: u64) -> (r:
        Result<Option<KeyChange>, RegistryError>)
        requires
            old(self).wf(),
        ensures
            final(self).wf(),
            match old(self).key_added_error(&pending, added) {
                Some(e) => r == Err::<Option<KeyChange>, RegistryError>(e) && *final(self) == *old(self),
                None => r matches Ok(follow_up) && {
                    let p = pending.pool_id as int;
                    &&& final(self).pools@.len() == old(self).pools@.len()
                    &&& final(self).pools@[p].worker_id matches Some(w) && w@ == pending.worker_id@
                    &&& final(self).pools@[p].last_ping_timestamp_ms == now_ms
                    &&& final(self).pools@[p].same_but_worker(&old(self).pools@[p])
                    &&& final(self).same_settings(old(self))
                    &&& final(self).workers@.len() == old(self).workers@.len() + if old(self).is_worker(pending.worker_id@) { 0int } else { 1int }
                    &&& exists|i: int| 0 <= i < final(self).workers@.len() && {
                        &&& (#[trigger] final(self).workers@[i]).0@ == pending.worker_id@
                        &&& final(self).workers@[i].1.pool_id == pending.pool_id
                        &&& final(self).workers@[i].1.public_key@ == pending.public_key@
                        &&& final(self).workers@[i].1.compose_hash@ == pending.compose_hash@
                        &&& final(self).workers@[i].1.checksum@ == pending.checksum@
                        &&& forall|j: int| 0 <= j < old(self).workers@.len() && j != i ==> #[trigger] final(self).workers@[j] == old(self).workers@[j]
                    }
                    &&& !old(self).is_worker(pending.worker_id@) ==> {
                        &&& follow_up is None
                        &&& forall|q: int| 0 <= q < old(self).pools@.len() && q != p ==> #[trigger] final(self).pools@[q] == old(self).pools@[q]
                    }
                    &&& forall|i: int| 0 <= i < old(self).workers@.len() && (#[trigger] old(self).workers@[i]).0@ == pending.worker_id@ ==> {
                        let q = old(self).workers@[i].1.pool_id as int;
                        &&& q != p
                        &&& follow_up matches Some(kc) && {
                            &&& kc.vault_account_id@ == pool_account_of(q as nat, old(self).current_account_id@)
                            &&& kc.intents_contract_id@ == old(self).intents_contract_id@
                            &&& kc.public_key@ == old(self).workers@[i].1.public_key@
                        }
                        &&& final(self).pools@[q].worker_id is None
                        &&& final(self).pools@[q].same_but_worker(&old(self).pools@[q])
                        &&& final(self).pools@[q].last_ping_timestamp_ms == old(self).pools@[q].last_ping_timestamp_ms
                        &&& forall|o: int| 0 <= o < old(self).pools@.len() && o != p && o != q ==> #[trigger] final(self).pools@[o] == old(self).pools@[o]
                    }
                },
            },
    {
        if !added {
            return Err(RegistryError::ExternalCallFailed);
        }
        if pending.pool_id as usize >= self.pools.len() {
            return Err(RegistryError::NotFound);
        }
        let p = pending.pool_id as usize;
        match (&self.pools[p].worker_id, &pending.evicted) {
            (None, None) => {},
            (Some(a), Some(b)) => {
                if *a != *b {
                    return Err(RegistryError::ConflictingWorker);
                }
                match find_name(&self.workers, a) {
                    Some(i) => {
                        if self.workers[i].1.pool_id as usize == p {
                            return Err(RegistryError::ConflictingWorker);
                        }
                        proof {
                            if self.has_seat_at(a@, p as int) {
                                let j = choose|j: int| 0 <= j < self.workers@.len() && (#[trigger] self.workers@[j]).0@ == a@ && self.workers@[j].1.pool_id == p;
                                if j < i {
                                    assert(self.workers@[j].0@ != self.workers@[i as int].0@);
                                } else if j > i {
                                    assert(self.workers@[i as int].0@ != self.workers@[j].0@);
                                }
                            }
                        }
                    },
                    None => {},
                }
            },
            _ => {
                return Err(RegistryError::ConflictingWorker);
            },
        }
        let ghost old_self = *self;
        let worker_id = pending.worker_id;
        let worker = Worker {
            pool_id: pending.pool_id,
            checksum: pending.checksum,
            compose_hash: pending.compose_hash,
            public_key: pending.public_key,
        };
        proof {
            // No entry other than the caller's sits at pool `p`.
            assert forall|j: int| 0 <= j < old_self.workers@.len() && old_self.workers@[j].0@ != worker_id@ implies (#[trigger] old_self.workers@[j]).1.pool_id != p by {
                assert(old_self.seated(old_self.workers@[j]));
                if old_self.workers@[j].1.pool_id == p {
                    assert(old_self.has_seat_at(old_self.workers@[j].0@, p as int));
                }
            }
        }
        match find_name(&self.workers, &worker_id) {
            Some(i) => {
                let q = self.workers[i].1.pool_id as usize;
                proof {
                    assert(old_self.seated(old_self.workers@[i as int]));
                    assert forall|j: int| 0 <= j < old_self.workers@.len() && (#[trigger] old_self.workers@[j]).0@ == worker_id@ implies j == i by {
                        if j < i {
                            assert(old_self.workers@[j].0@ != old_self.workers@[i as int].0@);
                        } else if j > i {
                            assert(old_self.workers@[i as int].0@ != old_self.workers@[j].0@);
                        }
                    }
                    if q == p {
                        assert(old_self.has_seat_at(worker_id@, p as int));
                    }
                }
                let old_key = self.workers[i].1.public_key.clone();
                let last_ping = self.pools[q].last_ping_timestamp_ms;
                self.set_pool_worker(q, None, last_ping);
                self.set_pool_worker(p, Some(worker_id.clone()), now_ms);
                self.workers.set(i, (worker_id, worker));
                proof {
                    let ow = old_self.workers@;
                    let nw = self.workers@;
                    assert forall|o: int| 0 <= o < self.pools@.len() implies (#[trigger] self.pools@[o]).wf() by {
                        assert(old_self.pools@[o].wf());
                    }
                    assert(names_distinct(nw)) by {
                        assert forall|a: int, b: int| 0 <= a < b < nw.len() implies #[trigger] nw[a].0@ != #[trigger] nw[b].0@ by {
                            assert(nw[a].0@ == ow[a].0@ && nw[b].0@ == ow[b].0@);
                        }
                    }
                    assert forall|j: int| 0 <= j < nw.len() implies self.seated(#[trigger] nw[j]) by {
                        if j != i {
                            assert(nw[j] == ow[j]);
                            assert(old_self.seated(ow[j]));
                            assert(ow[j].0@ != ow[i as int].0@);
                        }
                    }
                    assert(nw[i as int].0@ == worker_id@);
                }
                let follow_up = KeyChange {
                    vault_account_id: pool_account_id(q as u32, &self.current_account_id),
                    intents_contract_id: self.intents_contract_id.clone(),
                    public_key: old_key,
                };
                Ok(Some(follow_up))
            },
            None => {
                self.set_pool_worker(p, Some(worker_id.clone()), now_ms);
                self.workers.push((worker_id, worker));
                proof {
                    let ow = old_self.workers@;
                    let nw = self.workers@;
                    assert(nw.drop_last() =~= ow);
                    assert forall|o: int| 0 <= o < self.pools@.len() implies (#[trigger] self.pools@[o]).wf() by {
                        assert(old_self.pools@[o].wf());
                    }
                    assert(names_distinct(nw)) by {
                        assert forall|a: int, b: int| 0 <= a < b < nw.len() implies #[trigger] nw[a].0@ != #[trigger] nw[b].0@ by {
                            assert(nw[a] == ow[a]);
                            if b < ow.len() {
                                assert(nw[b] == ow[b]);
                            }
                        }
                    }
                    assert forall|j: int| 0 <= j < nw.len() implies self.seated(#[trigger] nw[j]) by {
                        if j < ow.len() {
                            assert(nw[j] == ow[j]);
                            assert(old_self.seated(ow[j]));
                        }
                    }
                    assert(nw[ow.len() as int].0@ == worker_id@);
                }
                Ok(None)
            },
        }
    }

    /// Records that the caller, a registered worker whose fingerprint is
    /// still approved, is alive at the block's time.
    pub fn ping(&mut self, ctx: &CallContext) -> (r: Result<(), RegistryError>)
        requires
            old(self).wf(),
        ensures
            final(self).wf(),
            !old(self).is_worker(ctx.predecessor_account_id@) ==> r == Err::<(), RegistryError>(RegistryError::NotFound)
                && *final(self) == *old(self),
            forall|i: int| 0 <= i < old(self).workers@.len() && (#[trigger] old(self).workers@[i]).0@ == ctx.predecessor_account_id@ ==> {
                let p = old(self).workers@[i].1.pool_id as int;
                if !listed(old(self).approved_compose_hashes@, old(self).workers@[i].1.compose_hash@) {
                    r == Err::<(), RegistryError>(RegistryError::RevokedFingerprint) && *final(self) == *old(self)
                } else {
                    &&& r is Ok
                    &&& final(self).pools@.len() == old(self).pools@.len()
                    &&& final(self).pools@[p].last_ping_timestamp_ms == ctx.block_timestamp_ms
                    &&& final(self).pools@[p].worker_id == old(self).pools@[p].worker_id
                    &&& final(self).pools@[p].same_but_worker(&old(self).pools@[p])
                    &&& forall|q: int| 0 <= q < old(self).pools@.len() && q != p ==> #[trigger] final(self).pools@[q] == old(self).pools@[q]
                    &&& final(self).workers == old(self).workers
                    &&& final(self).same_settings(old(self))
                }
            },
    {
        let i = match find_name(&self.workers, &ctx.predecessor_account_id) {
            Some(i) => i,
            None => {
                return Err(RegistryError::NotFound);
            },
        };
        proof {
            assert forall|j: int| 0 <= j < self.workers@.len() && (#[trigger] self.workers@[j]).0@ == ctx.predecessor_account_id@
                implies j == i by {
                if j < i {
                    assert(self.workers@[j].0@ != self.workers@[i as int].0@);
                } else if j > i {
                    assert(self.workers@[i as int].0@ != self.workers@[j].0@);
                }
            }
            assert(self.seated(self.workers@[i as int]));
        }
        if find_text(&self.approved_compose_hashes, &self.workers[i].1.compose_hash).is_none() {
            return Err(RegistryError::RevokedFingerprint);
        }
        let p = self.workers[i].1.pool_id as usize;
        if p >= self.pools.len() {
            return Err(RegistryError::NotFound);
        }
        let registered = match &self.pools[p].worker_id {
            Some(w) => w.clone(),
            None => {
                return Err(RegistryError::Unauthorized);
            },
        };
        if registered != ctx.predecessor_account_id {
            return Err(RegistryError::Unauthorized);
        }
        let ghost old_self = *self;
        self.set_pool_worker(p, Some(registered), ctx.block_timestamp_ms);
        proof {
            assert forall|q: int| 0 <= q < self.pools@.len() implies (#[trigger] self.pools@[q]).wf() by {
                assert(old_self.pools@[q].wf());
            }
            assert forall|j: int| 0 <= j < self.workers@.len() implies self.seated(#[trigger] self.workers@[j]) by {
                assert(old_self.seated(old_self.workers@[j]));
            }
        }
        Ok(())
    }
}

} // verus!
