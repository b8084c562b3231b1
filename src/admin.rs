//! The owner's operations: the approved fingerprints, pausing, ownership.
use vstd::prelude::*;
use crate::attestation::listed;
use crate::codec::normalize_digest_hex;
use crate::registry::{find_text, normalized_digest, texts_distinct, Contract, RegistryError};

verus! {

/// Privileged roles that the owner hands out.
#[derive(PartialEq, Eq, Structural, Debug, Clone, Copy)]
pub enum Role {
    PauseManager,
    UnpauseManager,
}

/// `v` without any entry that reads `t`.
fn without_text(v: &Vec<String>, t: &String) -> (r: Vec<String>)
    ensures
        forall|f: Seq<char>| #[trigger] listed(r@, f) <==> (listed(v@, f) && f != t@),
{
    let mut r: Vec<String> = Vec::new();
    let mut i: usize = 0;
    while i < v.len()
        invariant
            i <= v@.len(),
            forall|f: Seq<char>| #[trigger] listed(r@, f) <==> (listed(v@.subrange(0, i as int), f) && f != t@),
        decreases v@.len() - i,
    {
        let ghost before = r@;
        if v[i] != *t {
            let item = v[i].clone();
            r.push(item);
            assert(r@ == before.push(item));
        }
        proof {
            let prev = v@.subrange(0, i as int);
            let next = v@.subrange(0, i + 1);
            assert(next =~= prev.push(v@[i as int]));
            assert(next[i as int] == v@[i as int]);
            assert forall|f: Seq<char>| #[trigger] listed(r@, f) <==> (listed(next, f) && f != t@) by {
                if listed(prev, f) {
                    let j = choose|j: int| 0 <= j < prev.len() && (#[trigger] prev[j])@ == f;
                    assert(next[j] == prev[j]);
                }
                if listed(next, f) {
                    let j = choose|j: int| 0 <= j < next.len() && (#[trigger] next[j])@ == f;
                    if j < i {
                        assert(prev[j] == next[j]);
                    }
                }
                if listed(r@, f) {
                    let j = choose|j: int| 0 <= j < r@.len() && (#[trigger] r@[j])@ == f;
                    if j < before.len() {
                        assert(r@[j] == before[j]);
                        assert(listed(before, f));
                    } else {
                        assert(v@[i as int]@ != t@);
                        assert(next[i as int]@ == f);
                    }
                }
                if listed(before, f) {
                    let j = choose|j: int| 0 <= j < before.len() && (#[trigger] before[j])@ == f;
                    assert(r@[j] == before[j]);
                }
                if v@[i as int]@ != t@ && f == v@[i as int]@ {
                    assert(r@.len() == before.len() + 1);
                    assert(r@[before.len() as int]@ == f);
                }
                if v@[i as int]@ == t@ {
                    assert(r@ == before);
                }
            }
        }
        i = i + 1;
    }
    assert(v@.subrange(0, v@.len() as int) =~= v@);
    r
}

/// `v` with `t` added, once.
fn with_text(v: &Vec<String>, t: &String) -> (r: Vec<String>)
    ensures
        forall|f: Seq<char>| #[trigger] listed(r@, f) <==> (listed(v@, f) || f == t@),
{
    let mut r = without_text(v, t);
    let ghost before = r@;
    r.push(t.clone());
    proof {
        assert forall|f: Seq<char>| #[trigger] listed(r@, f) <==> (listed(v@, f) || f == t@) by {
            if listed(before, f) {
                let j = choose|j: int| 0 <= j < before.len() && (#[trigger] before[j])@ == f;
                assert(r@[j] == before[j]);
            }
            if f == t@ {
                assert(r@[before.len() as int]@ == f);
            }
            if listed(r@, f) {
                let j = choose|j: int| 0 <= j < r@.len() && (#[trigger] r@[j])@ == f;
                if j < before.len() {
                    assert(r@[j] == before[j]);
                }
            }
        }
    }
    r
}

impl Contract {
    /// Everything but the approved fingerprints is as in `o`.
    pub open spec fn same_but_approved(&self, o: &Contract) -> bool {
        &&& self.owner_id == o.owner_id
        &&& self.current_account_id == o.current_account_id
        &&& self.intents_contract_id == o.intents_contract_id
        &&& self.paused == o.paused
        &&& self.pause_managers == o.pause_managers
        &&& self.unpause_managers == o.unpause_managers
        &&& self.pools == o.pools
        &&& self.workers == o.workers
        &&& self.accounts == o.accounts
        &&& self.worker_ping_timeout_ms == o.worker_ping_timeout_ms
    }

    /// Approves a compose fingerprint, given as the hex of 32 bytes in
    /// either case; it is kept in lowercase. Only the owner may.
    #[verifier::loop_isolation(false)]
    pub fn approve_compose_hash(&mut self, caller: &String, compose_hash: &String) -> (r: Result<
        (),
        RegistryError,
    >)
        requires
            old(self).wf(),
        ensures
            final(self).wf(),
            caller@ != old(self).owner_id@ ==> r == Err::<(), RegistryError>(RegistryError::Unauthorized)
                && *final(self) == *old(self),
            caller@ == old(self).owner_id@ ==> match normalized_digest(compose_hash@) {
                None => r == Err::<(), RegistryError>(RegistryError::InvalidArgument) && *final(self) == *old(self),
                Some(n) => {
                    &&& r is Ok
                    &&& final(self).same_but_approved(old(self))
                    &&& forall|f: Seq<char>| #[trigger] listed(final(self).approved_compose_hashes@, f) <==> (listed(
                        old(self).approved_compose_hashes@,
                        f,
                    ) || f == n)
                },
            },
    {
        if *caller != self.owner_id {
            return Err(RegistryError::Unauthorized);
        }
        let normalized = match normalize_digest_hex(compose_hash) {
            Some(n) => n,
            None => {
                return Err(RegistryError::InvalidArgument);
            },
        };
        let ghost before = self.approved_compose_hashes@;
        let mut i: usize = 0;
        while i < self.approved_compose_hashes.len()
            invariant
                self.approved_compose_hashes@ == before,
                i <= before.len(),
                forall|j: int| 0 <= j < i ==> (#[trigger] before[j])@ != normalized@,
            decreases before.len() - i,
        {
            if self.approved_compose_hashes[i] == normalized {
                return Ok(());
            }
            i = i + 1;
        }
        let ghost n = normalized@;
        let ghost old_self = *self;
        self.approved_compose_hashes.push(normalized);
        proof {
            let after = self.approved_compose_hashes@;
            assert(after.drop_last() =~= before);
            assert(texts_distinct(after)) by {
                assert forall|a: int, b: int| 0 <= a < b < after.len() implies (#[trigger] after[a])@ != (#[trigger] after[b])@ by {
                    assert(after[a] == before[a]);
                    if b < before.len() {
                        assert(after[b] == before[b]);
                    }
                }
            }
            assert forall|f: Seq<char>| #[trigger] listed(after, f) <==> (listed(before, f) || f == n) by {
                if listed(before, f) {
                    let j = choose|j: int| 0 <= j < before.len() && (#[trigger] before[j])@ == f;
                    assert(after[j] == before[j]);
                }
                if f == n {
                    assert(after[before.len() as int]@ == n);
                }
                if listed(after, f) {
                    let j = choose|j: int| 0 <= j < after.len() && (#[trigger] after[j])@ == f;
                    if j < before.len() {
                        assert(after[j] == before[j]);
                    }
                }
            }
            old_self.lemma_wf_from_tables(self);
        }
        Ok(())
    }

    /// Withdraws approval of a compose fingerprint, given in either case.
    /// Only the owner may; workers running it can no longer ping.
    #[verifier::loop_isolation(false)]
    pub fn remove_compose_hash(&mut self, caller: &String, compose_hash: &String) -> (r: Result<
        (),
        RegistryError,
    >)
        requires
            old(self).wf(),
        ensures
            final(self).wf(),
            caller@ != old(self).owner_id@ ==> r == Err::<(), RegistryError>(RegistryError::Unauthorized)
                && *final(self) == *old(self),
            caller@ == old(self).owner_id@ ==> match normalized_digest(compose_hash@) {
                None => r == Err::<(), RegistryError>(RegistryError::InvalidArgument) && *final(self) == *old(self),
                Some(n) => {
                &&& !listed(old(self).approved_compose_hashes@, n) ==> r == Err::<(), RegistryError>(
                    RegistryError::NotFound,
                ) && *final(self) == *old(self)
                &&& listed(old(self).approved_compose_hashes@, n) ==> {
                    &&& r is Ok
                    &&& final(self).same_but_approved(old(self))
                    &&& forall|f: Seq<char>| #[trigger] listed(final(self).approved_compose_hashes@, f) <==> (listed(
                        old(self).approved_compose_hashes@,
                        f,
                    ) && f != n)
                }
                },
            },
    {
        if *caller != self.owner_id {
            return Err(RegistryError::Unauthorized);
        }
        let normalized = match normalize_digest_hex(compose_hash) {
            Some(n) => n,
            None => {
                return Err(RegistryError::InvalidArgument);
            },
        };
        let ghost before = self.approved_compose_hashes@;
        let mut i: usize = 0;
        while i < self.approved_compose_hashes.len()
            invariant
                *self == *old(self),
                self.approved_compose_hashes@ == before,
                i <= before.len(),
                forall|j: int| 0 <= j < i ==> (#[trigger] before[j])@ != normalized@,
            decreases before.len() - i,
        {
            if self.approved_compose_hashes[i] == normalized {
                let ghost n = normalized@;
                let ghost old_self = *self;
                self.approved_compose_hashes.remove(i);
                proof {
                    let after = self.approved_compose_hashes@;
                    assert(after =~= before.remove(i as int));
                    assert(texts_distinct(after)) by {
                        assert forall|a: int, b: int| 0 <= a < b < after.len() implies (#[trigger] after[a])@ != (#[trigger] after[b])@ by {
                            let a2 = if a < i { a } else { a + 1 };
                            let b2 = if b < i { b } else { b + 1 };
                            assert(after[a] == before[a2] && after[b] == before[b2]);
                        }
                    }
                    assert forall|f: Seq<char>| #[trigger] listed(after, f) <==> (listed(before, f) && f != n) by {
                        if listed(before, f) && f != n {
                            let j = choose|j: int| 0 <= j < before.len() && (#[trigger] before[j])@ == f;
                            assert(j != i);
                            let j2 = if j < i { j } else { j - 1 };
                            assert(after[j2] == before[j]);
                        }
                        if listed(after, f) {
                            let j = choose|j: int| 0 <= j < after.len() && (#[trigger] after[j])@ == f;
                            let j2 = if j < i { j } else { j + 1 };
                            assert(after[j] == before[j2]);
                            if f == n {
                                if j2 < i {
                                    assert(before[j2]@ != before[i as int]@);
                                } else {
                                    assert(before[i as int]@ != before[j2]@);
                                }
                            }
                        }
                    }
                    old_self.lemma_wf_from_tables(self);
                }
                return Ok(());
            }
            i = i + 1;
        }
        Err(RegistryError::NotFound)
    }

    /// Whether `a` may pause: the owner or a pause manager.
    pub open spec fn may_pause(&self, a: Seq<char>) -> bool {
        a == self.owner_id@ || listed(self.pause_managers@, a)
    }

    /// Whether `a` may unpause: the owner or an unpause manager.
    pub open spec fn may_unpause(&self, a: Seq<char>) -> bool {
        a == self.owner_id@ || listed(self.unpause_managers@, a)
    }

    /// Suspends registration and deposits. The owner and the pause managers may.
    pub fn pause(&mut self, caller: &String) -> (r: Result<(), RegistryError>)
        requires
            old(self).wf(),
        ensures
            final(self).wf(),
            !old(self).may_pause(caller@) ==> r == Err::<(), RegistryError>(RegistryError::Unauthorized)
                && *final(self) == *old(self),
            old(self).may_pause(caller@) ==> r is Ok && *final(self) == (Contract {
                paused: true,
                ..*old(self)
            }),
    {
        if *caller != self.owner_id && find_text(&self.pause_managers, caller).is_none() {
            return Err(RegistryError::Unauthorized);
        }
        let ghost old_self = *self;
        self.paused = true;
        proof {
            old_self.lemma_wf_from_tables(self);
        }
        Ok(())
    }

    /// Resumes registration and deposits. The owner and the unpause managers may.
    pub fn unpause(&mut self, caller: &String) -> (r: Result<(), RegistryError>)
        requires
            old(self).wf(),
        ensures
            final(self).wf(),
            !old(self).may_unpause(caller@) ==> r == Err::<(), RegistryError>(RegistryError::Unauthorized)
                && *final(self) == *old(self),
            old(self).may_unpause(caller@) ==> r is Ok && *final(self) == (Contract {
                paused: false,
                ..*old(self)
            }),
    {
        if *caller != self.owner_id && find_text(&self.unpause_managers, caller).is_none() {
            return Err(RegistryError::Unauthorized);
        }
        let ghost old_self = *self;
        self.paused = false;
        proof {
            old_self.lemma_wf_from_tables(self);
        }
        Ok(())
    }

    /// Makes `account_id` a manager of `role`. Only the owner may.
    pub fn grant_role(&mut self, caller: &String, role: Role, account_id: &String) -> (r: Result<(), RegistryError>)
        requires
            old(self).wf(),
        ensures
            final(self).wf(),
            caller@ != old(self).owner_id@ ==> r == Err::<(), RegistryError>(RegistryError::Unauthorized)
                && *final(self) == *old(self),
            caller@ == old(self).owner_id@ ==> r is Ok && match role {
                Role::PauseManager => {
                    &&& *final(self) == (Contract { pause_managers: final(self).pause_managers, ..*old(self) })
                    &&& forall|f: Seq<char>| #[trigger] listed(final(self).pause_managers@, f) <==> (listed(old(self).pause_managers@, f) || f == account_id@)
                },
                Role::UnpauseManager => {
                    &&& *final(self) == (Contract { unpause_managers: final(self).unpause_managers, ..*old(self) })
                    &&& forall|f: Seq<char>| #[trigger] listed(final(self).unpause_managers@, f) <==> (listed(old(self).unpause_managers@, f) || f == account_id@)
                },
            },
    {
        if *caller != self.owner_id {
            return Err(RegistryError::Unauthorized);
        }
        let ghost old_self = *self;
        match role {
            Role::PauseManager => {
                self.pause_managers = with_text(&self.pause_managers, account_id);
            },
            Role::UnpauseManager => {
                self.unpause_managers = with_text(&self.unpause_managers, account_id);
            },
        }
        proof {
            old_self.lemma_wf_from_tables(self);
        }
        Ok(())
    }

    /// Takes `role` from `account_id`. Only the owner may.
    pub fn revoke_role(&mut self, caller: &String, role: Role, account_id: &String) -> (r: Result<(), RegistryError>)
        requires
            old(self).wf(),
        ensures
            final(self).wf(),
            caller@ != old(self).owner_id@ ==> r == Err::<(), RegistryError>(RegistryError::Unauthorized)
                && *final(self) == *old(self),
            caller@ == old(self).owner_id@ ==> r is Ok && match role {
                Role::PauseManager => {
                    &&& *final(self) == (Contract { pause_managers: final(self).pause_managers, ..*old(self) })
                    &&& forall|f: Seq<char>| #[trigger] listed(final(self).pause_managers@, f) <==> (listed(old(self).pause_managers@, f) && f != account_id@)
                },
                Role::UnpauseManager => {
                    &&& *final(self) == (Contract { unpause_managers: final(self).unpause_managers, ..*old(self) })
                    &&& forall|f: Seq<char>| #[trigger] listed(final(self).unpause_managers@, f) <==> (listed(old(self).unpause_managers@, f) && f != account_id@)
                },
            },
    {
        if *caller != self.owner_id {
            return Err(RegistryError::Unauthorized);
        }
        let ghost old_self = *self;
        match role {
            Role::PauseManager => {
                self.pause_managers = without_text(&self.pause_managers, account_id);
            },
            Role::UnpauseManager => {
                self.unpause_managers = without_text(&self.unpause_managers, account_id);
            },
        }
        proof {
            old_self.lemma_wf_from_tables(self);
        }
        Ok(())
    }

    /// Hands the registry to `new_owner_id`. Only the owner may.
    pub fn set_owner(&mut self, caller: &String, new_owner_id: String) -> (r: Result<(), RegistryError>)
        requires
            old(self).wf(),
        ensures
            final(self).wf(),
            caller@ != old(self).owner_id@ ==> r == Err::<(), RegistryError>(RegistryError::Unauthorized)
                && *final(self) == *old(self),
            caller@ == old(self).owner_id@ ==> r is Ok && *final(self) == (Contract {
                owner_id: new_owner_id,
                ..*old(self)
            }),
    {
        if *caller != self.owner_id {
            return Err(RegistryError::Unauthorized);
        }
        let ghost old_self = *self;
        self.owner_id = new_owner_id;
        proof {
            old_self.lemma_wf_from_tables(self);
        }
        Ok(())
    }
}

} // verus!
