use solver_registry::admin::Role;
use solver_registry::attestation::{AttestationReport, QuoteVerdict};
use solver_registry::liquidity::{LiquidityEvent, TokenReceiverMessage, TransferReply};
use solver_registry::naming::{decimal, ledger_token_id, pool_account_id};
use solver_registry::registry::{
    CallContext, Contract, RegistrationStep, RegistryError, CREATE_POOL_STORAGE_DEPOSIT,
};

const OWNER: &str = "owner.near";
const SELF_ID: &str = "registry.near";
const INTENTS: &str = "intents.near";
const WNEAR: &str = "wrap.near";
const USDC: &str = "usdc.near";
const COMPOSE: &str = "services:\n  solver:\n    image: solver:1.0\n";
const TIMEOUT_MS: u64 = 1_000;

fn s(v: &str) -> String {
    v.to_string()
}

fn ctx(caller: &str, key: &str, deposit: u128, now_ms: u64) -> CallContext {
    CallContext {
        predecessor_account_id: s(caller),
        signer_account_pk: s(key),
        attached_deposit: deposit,
        block_timestamp_ms: now_ms,
    }
}

fn key_of(worker: &str) -> String {
    format!("ed25519:{}", worker)
}

fn report_for(key: &str) -> AttestationReport {
    let mut quote = vec![0u8; 568];
    quote.extend_from_slice(&[0u8, 1u8]);
    quote.extend_from_slice(&near_sdk::env::sha256(key.as_bytes()));
    quote.extend_from_slice(&[0u8; 30]);
    AttestationReport {
        quote_hex: hex::encode(quote),
        verdict: QuoteVerdict { signature_valid: true, collateral_not_before_s: 0, collateral_not_after_s: u64::MAX },
        docker_compose_file: Some(s(COMPOSE)),
    }
}

fn fingerprint() -> String {
    hex::encode(near_sdk::env::sha256(COMPOSE.as_bytes()))
}

/// A registry with one pool and the compose fingerprint approved.
fn setup() -> Contract {
    let mut c = Contract::new(s(OWNER), s(INTENTS), s(SELF_ID), TIMEOUT_MS);
    let creation = c
        .create_liquidity_pool(&ctx(OWNER, "", CREATE_POOL_STORAGE_DEPOSIT, 0), &vec![s(WNEAR), s(USDC)], 30)
        .unwrap();
    assert_eq!(creation.pool_id, 0);
    assert_eq!(creation.pool_account_id, "pool-0.registry.near");
    assert_eq!(c.on_create_liquidity_pool_account(vec![s(WNEAR), s(USDC)], 30, true), Some(0));
    c.approve_compose_hash(&s(OWNER), &fingerprint().to_uppercase()).unwrap();
    c
}

/// Registers `worker` on pool 0 at `now_ms`, the vault confirming each step.
fn register(c: &mut Contract, worker: &str, now_ms: u64) -> Result<(), RegistryError> {
    let call = ctx(worker, &key_of(worker), 1, now_ms);
    match c.register_worker(&call, 0, &report_for(&key_of(worker)), s("checksum-1"))? {
        RegistrationStep::GrantKey { grant, pending } => {
            assert_eq!(grant.public_key, key_of(worker));
            c.on_worker_key_added(pending, true, now_ms).map(|_| ())
        },
        RegistrationStep::RevokeOldKey { revoke, pending } => {
            assert_ne!(revoke.public_key, key_of(worker));
            let grant = c.on_inactive_worker_key_removed(&pending, true)?;
            assert_eq!(grant.public_key, key_of(worker));
            assert_eq!(grant.vault_account_id, "pool-0.registry.near");
            c.on_worker_key_added(pending, true, now_ms).map(|_| ())
        },
    }
}

fn workers_of_pool(c: &Contract, pool_id: u32) -> usize {
    c.get_workers(0, 100).iter().filter(|w| w.pool_id == pool_id).count()
}

#[test]
fn names_are_derived() {
    assert_eq!(decimal(0), "0");
    assert_eq!(decimal(1234), "1234");
    assert_eq!(decimal(u32::MAX), "4294967295");
    assert_eq!(pool_account_id(7, &s(SELF_ID)), "pool-7.registry.near");
    assert_eq!(ledger_token_id(&s(WNEAR)), "nep141:wrap.near");
    let c = setup();
    let query = c.sync_balances_from_intents(0).unwrap();
    assert_eq!(query.account_id, "pool-0.registry.near");
    assert_eq!(query.token_ids, vec![s("nep141:wrap.near"), s("nep141:usdc.near")]);
}

#[test]
fn pool_creation_is_checked() {
    let mut c = Contract::new(s(OWNER), s(INTENTS), s(SELF_ID), TIMEOUT_MS);
    let tokens = vec![s(WNEAR), s(USDC)];
    assert_eq!(
        c.create_liquidity_pool(&ctx(OWNER, "", CREATE_POOL_STORAGE_DEPOSIT - 1, 0), &tokens, 30).err(),
        Some(RegistryError::Unauthorized)
    );
    assert_eq!(
        c.create_liquidity_pool(&ctx(OWNER, "", CREATE_POOL_STORAGE_DEPOSIT, 0), &vec![s(WNEAR)], 30).err(),
        Some(RegistryError::InvalidArgument)
    );
    assert_eq!(c.on_create_liquidity_pool_account(tokens.clone(), 30, false), None);
    assert_eq!(c.on_create_liquidity_pool_account(tokens.clone(), 10_000, true), None);
    assert_eq!(c.get_pool_len(), 0);
    assert_eq!(c.on_create_liquidity_pool_account(tokens.clone(), 30, true), Some(0));
    assert_eq!(c.on_create_liquidity_pool_account(tokens, 5, true), Some(1));
    assert_eq!(c.get_pool_len(), 2);
    assert_eq!(c.get_pool(1).unwrap().fee, 5);
    assert!(c.get_pool(2).is_none());
}

#[test]
fn approvals_need_the_owner() {
    let mut c = setup();
    assert_eq!(c.get_approved_compose_hashes(), vec![fingerprint()]);
    assert_eq!(c.approve_compose_hash(&s("mallory.near"), &fingerprint()), Err(RegistryError::Unauthorized));
    assert_eq!(c.approve_compose_hash(&s(OWNER), &s("not-hex")), Err(RegistryError::InvalidArgument));
    c.approve_compose_hash(&s(OWNER), &fingerprint()).unwrap();
    assert_eq!(c.get_approved_compose_hashes().len(), 1);
    c.remove_compose_hash(&s(OWNER), &fingerprint()).unwrap();
    assert!(c.get_approved_compose_hashes().is_empty());
    assert_eq!(c.remove_compose_hash(&s(OWNER), &fingerprint()), Err(RegistryError::NotFound));
}

#[test]
fn first_worker_registers_directly() {
    let mut c = setup();
    register(&mut c, "alice.near", 10_000).unwrap();
    let w = c.get_worker(&s("alice.near")).unwrap();
    assert_eq!(w.pool_id, 0);
    assert_eq!(w.public_key, key_of("alice.near"));
    assert_eq!(w.compose_hash, fingerprint());
    assert_eq!(w.checksum, "checksum-1");
    let pool = c.get_pool(0).unwrap();
    assert_eq!(pool.worker_id, Some(s("alice.near")));
    assert_eq!(pool.last_ping_timestamp_ms, 10_000);
    assert_eq!(c.get_worker_len(), 1);
}

#[test]
fn active_worker_blocks_registration() {
    let mut c = setup();
    register(&mut c, "alice.near", 10_000).unwrap();
    let bob = ctx("bob.near", &key_of("bob.near"), 1, 10_999);
    assert_eq!(
        c.register_worker(&bob, 0, &report_for(&key_of("bob.near")), s("c")).err(),
        Some(RegistryError::ConflictingWorker)
    );
    assert!(c.get_worker(&s("bob.near")).is_none());
    assert_eq!(workers_of_pool(&c, 0), 1);
    let alice_again = ctx("alice.near", &key_of("alice.near"), 1, 20_000);
    assert_eq!(
        c.register_worker(&alice_again, 0, &report_for(&key_of("alice.near")), s("c")).err(),
        Some(RegistryError::ConflictingWorker)
    );
}

#[test]
fn stale_worker_is_replaced_after_revocation() {
    let mut c = setup();
    register(&mut c, "alice.near", 10_000).unwrap();
    let bob = ctx("bob.near", &key_of("bob.near"), 1, 11_000);
    let step = c.register_worker(&bob, 0, &report_for(&key_of("bob.near")), s("c")).unwrap();
    let pending = match step {
        RegistrationStep::RevokeOldKey { revoke, pending } => {
            assert_eq!(revoke.public_key, key_of("alice.near"));
            assert_eq!(revoke.vault_account_id, "pool-0.registry.near");
            assert_eq!(revoke.intents_contract_id, INTENTS);
            pending
        },
        RegistrationStep::GrantKey { .. } => panic!("the stale key must be revoked first"),
    };
    // Nothing changes before the vault confirms.
    assert!(c.get_worker(&s("alice.near")).is_some());
    assert_eq!(
        c.on_inactive_worker_key_removed(&pending, false).err(),
        Some(RegistryError::ExternalCallFailed)
    );
    assert!(c.get_worker(&s("alice.near")).is_some());
    // Once revoked, the entry goes but the pool keeps naming Alice until the grant lands.
    let grant = c.on_inactive_worker_key_removed(&pending, true).unwrap();
    assert_eq!(grant.public_key, key_of("bob.near"));
    assert!(c.get_worker(&s("alice.near")).is_none());
    let pool = c.get_pool(0).unwrap();
    assert_eq!(pool.worker_id, Some(s("alice.near")));
    assert_eq!(pool.last_ping_timestamp_ms, 10_000);
    assert!(c.on_worker_key_added(pending, true, 11_000).unwrap().is_none());
    assert_eq!(c.get_pool(0).unwrap().worker_id, Some(s("bob.near")));
    assert_eq!(c.get_pool(0).unwrap().last_ping_timestamp_ms, 11_000);

    assert!(c.get_worker(&s("alice.near")).is_none());
    assert_eq!(c.get_worker(&s("bob.near")).unwrap().pool_id, 0);
    assert_eq!(c.get_pool(0).unwrap().worker_id, Some(s("bob.near")));
    assert_eq!(workers_of_pool(&c, 0), 1);
    assert_eq!(c.ping(&ctx("alice.near", "", 0, 11_500)), Err(RegistryError::NotFound));
}

#[test]
fn failed_grant_leaves_pool_free() {
    let mut c = setup();
    let call = ctx("alice.near", &key_of("alice.near"), 1, 5_000);
    let pending = match c.register_worker(&call, 0, &report_for(&key_of("alice.near")), s("c")).unwrap() {
        RegistrationStep::GrantKey { pending, .. } => pending,
        RegistrationStep::RevokeOldKey { .. } => panic!("no worker to revoke"),
    };
    assert_eq!(c.on_worker_key_added(pending, false, 5_000).err(), Some(RegistryError::ExternalCallFailed));
    assert_eq!(c.get_worker_len(), 0);
    assert_eq!(c.get_pool(0).unwrap().worker_id, None);
}

#[test]
fn only_the_registered_worker_pings() {
    let mut c = setup();
    assert_eq!(c.ping(&ctx("alice.near", "", 0, 1)), Err(RegistryError::NotFound));
    register(&mut c, "alice.near", 10_000).unwrap();
    assert_eq!(c.ping(&ctx("bob.near", "", 0, 10_500)), Err(RegistryError::NotFound));
    assert_eq!(c.get_pool(0).unwrap().last_ping_timestamp_ms, 10_000);
    c.ping(&ctx("alice.near", "", 0, 10_700)).unwrap();
    assert_eq!(c.get_pool(0).unwrap().last_ping_timestamp_ms, 10_700);
    c.remove_compose_hash(&s(OWNER), &fingerprint()).unwrap();
    assert_eq!(c.ping(&ctx("alice.near", "", 0, 10_800)), Err(RegistryError::RevokedFingerprint));
    assert_eq!(c.get_pool(0).unwrap().last_ping_timestamp_ms, 10_700);
}

#[test]
fn registration_preconditions() {
    let mut c = setup();
    let report = report_for(&key_of("alice.near"));
    let no_yocto = ctx("alice.near", &key_of("alice.near"), 0, 1);
    assert_eq!(c.register_worker(&no_yocto, 0, &report, s("c")).err(), Some(RegistryError::Unauthorized));
    let call = ctx("alice.near", &key_of("alice.near"), 1, 1);
    assert_eq!(c.register_worker(&call, 9, &report, s("c")).err(), Some(RegistryError::NotFound));
    let other_key = ctx("alice.near", &key_of("eve.near"), 1, 1);
    assert!(matches!(
        c.register_worker(&other_key, 0, &report, s("c")),
        Err(RegistryError::Attestation(_))
    ));
    assert_eq!(c.pause(&s("alice.near")), Err(RegistryError::Unauthorized));
    c.pause(&s(OWNER)).unwrap();
    assert_eq!(c.register_worker(&call, 0, &report, s("c")).err(), Some(RegistryError::Paused));
    c.unpause(&s(OWNER)).unwrap();
    assert!(c.register_worker(&call, 0, &report, s("c")).is_ok());
}

#[test]
fn liquidity_round_trip() {
    let mut c = setup();
    let alice = "alice.near";
    let deposit = |c: &mut Contract, token: &str, amount: u128| {
        c.ft_on_transfer(
            &ctx(token, "", 0, 0),
            &s(alice),
            amount,
            Some(TokenReceiverMessage::DepositIntoAccount { pool_id: 0 }),
        )
    };
    assert!(matches!(deposit(&mut c, WNEAR, 100), Ok(TransferReply::Refund(0))));
    assert!(matches!(deposit(&mut c, USDC, 400), Ok(TransferReply::Refund(0))));
    assert_eq!(deposit(&mut c, "other.near", 1).err(), Some(RegistryError::InvalidArgument));
    assert_eq!(c.get_account_balance(&s(alice), &s(WNEAR)), 100);

    let call = ctx(alice, "", 1, 0);
    assert_eq!(c.add_liquidity(&call, 0, &vec![100, 0]).err(), Some(RegistryError::InvalidArgument));
    assert_eq!(c.add_liquidity(&ctx(alice, "", 0, 0), 0, &vec![100, 400]).err(), Some(RegistryError::Unauthorized));
    assert_eq!(c.add_liquidity(&call, 3, &vec![100, 400]).err(), Some(RegistryError::NotFound));
    c.add_liquidity(&call, 0, &vec![100, 400]).unwrap();
    c.on_sync_balances_from_intents(0, Some(vec![0, 0])).unwrap();
    assert_eq!(
        c.on_add_liquidity_start(&s(alice), 0, vec![100, 500], true).err(),
        Some(RegistryError::InsufficientBalance)
    );
    let dep = c.on_add_liquidity_start(&s(alice), 0, vec![100, 400], true).unwrap();
    assert_eq!(dep.shares_minted, 200);
    assert_eq!(dep.transfers.len(), 2);
    assert_eq!(dep.transfers[1].token_id, USDC);
    assert_eq!(dep.transfers[1].amount, 400);
    assert_eq!(dep.transfers[1].receiver_id, INTENTS);
    assert_eq!(dep.transfers[1].msg, "pool-0.registry.near");
    let (shares, event) = c.on_add_liquidity_end(0, vec![100, 400], s(alice), dep.shares_minted, &vec![true, false]);
    assert_eq!(shares, 200);
    assert!(event.is_none());
    let (_, event) = c.on_add_liquidity_end(0, vec![100, 400], s(alice), 200, &vec![true, true]);
    match event {
        Some(LiquidityEvent::AddLiquidity { pool_id, account_id, amounts, shares_minted }) => {
            assert_eq!((pool_id, account_id.as_str(), amounts, shares_minted), (0, alice, vec![100, 400], 200));
        },
        _ => panic!("the event is due once every transfer succeeded"),
    }
    assert_eq!(c.get_account_balance(&s(alice), &s(WNEAR)), 0);
    assert_eq!(c.get_liquidity_provider_shares(0, &s(alice)), Some(200));

    c.remove_liquidity(&call, 0, 50).unwrap();
    assert_eq!(
        c.on_remove_liquidity_start(&s(alice), 0, 50, false).err(),
        Some(RegistryError::ExternalCallFailed)
    );
    c.on_sync_balances_from_intents(0, Some(vec![100, 400])).unwrap();
    let ws = c.on_remove_liquidity_start(&s(alice), 0, 50, true).unwrap();
    assert_eq!(ws.len(), 2);
    assert_eq!((ws[0].amount, ws[1].amount), (25, 100));
    assert_eq!(ws[0].receiver_id, alice);
    assert_eq!(c.get_pool(0).unwrap().shares_total_supply, 150);
    let (amounts, event) = c.on_remove_liquidity_end(0, s(alice), vec![25, 100], 50, &vec![true, false]);
    assert_eq!(amounts, vec![25, 100]);
    assert!(event.is_none());
    assert!(matches!(
        c.on_remove_liquidity_end(0, s(alice), vec![25, 100], 50, &vec![true, true]).1,
        Some(LiquidityEvent::RemoveLiquidity { shares_burned: 50, .. })
    ));
    assert_eq!(
        c.on_remove_liquidity_start(&s(alice), 0, 151, true).err(),
        Some(RegistryError::InsufficientShares)
    );
}

#[test]
fn worker_fees_become_claimable_rewards() {
    let mut c = setup();
    let alice = "alice.near";
    for (token, amount) in [(WNEAR, 100u128), (USDC, 400u128)] {
        c.ft_on_transfer(&ctx(token, "", 0, 0), &s(alice), amount, Some(TokenReceiverMessage::DepositIntoAccount { pool_id: 0 }))
            .unwrap();
    }
    c.on_add_liquidity_start(&s(alice), 0, vec![100, 400], true).unwrap();
    assert_eq!(c.collect_pool_fees(&ctx("worker.near", "", 0, 0), vec![400, 0]), Err(RegistryError::NotFound));
    register(&mut c, "worker.near", 50_000).unwrap();
    c.collect_pool_fees(&ctx("worker.near", "", 0, 50_001), vec![400, 0]).unwrap();
    assert_eq!(c.get_pending_rewards(0, &s(alice)), Ok(vec![400, 0]));
    assert_eq!(c.claim_rewards(&ctx("bob.near", "", 1, 0), 0).err(), Some(RegistryError::NothingToClaim));
    let ws = c.claim_rewards(&ctx(alice, "", 1, 0), 0).unwrap();
    assert_eq!(ws.len(), 1);
    assert_eq!(ws[0].token_id, WNEAR);
    assert_eq!(ws[0].amount, 400);
    let (rewards, event) = c.on_claim_rewards(0, s(alice), vec![400, 0], &vec![true]);
    assert_eq!(rewards, vec![400, 0]);
    assert!(matches!(event, Some(LiquidityEvent::ClaimRewards { .. })));
    let (rewards, event) = c.on_claim_rewards(0, s(alice), vec![400, 0], &vec![false]);
    assert_eq!(rewards, vec![400, 0]);
    assert!(event.is_none());
    assert_eq!(c.get_pending_rewards(0, &s(alice)), Ok(vec![0, 0]));
    assert_eq!(c.get_pool(0).unwrap().unclaimed_fees, vec![0, 0]);
    assert_eq!(c.claim_rewards(&ctx(alice, "", 1, 0), 0).err(), Some(RegistryError::NothingToClaim));
}

#[test]
fn sync_nets_out_unclaimed_fees() {
    let mut c = setup();
    c.pools[0].unclaimed_fees = vec![30, 500];
    c.on_sync_balances_from_intents(0, Some(vec![100, 400])).unwrap();
    assert_eq!(c.get_pool(0).unwrap().amounts, vec![70, 0]);
    assert_eq!(c.on_sync_balances_from_intents(0, None), Err(RegistryError::ExternalCallFailed));
    assert_eq!(c.on_sync_balances_from_intents(0, Some(vec![1])), Err(RegistryError::ExternalCallFailed));
    assert_eq!(c.on_sync_balances_from_intents(4, Some(vec![1, 1])), Err(RegistryError::NotFound));
}

#[test]
fn token_receiver_routes_deposits() {
    let mut c = setup();
    assert!(matches!(c.ft_on_transfer(&ctx(WNEAR, "", 0, 0), &s("a.near"), 70, None), Ok(TransferReply::Refund(70))));
    match c.ft_on_transfer(&ctx(WNEAR, "", 0, 0), &s("a.near"), 70, Some(TokenReceiverMessage::DepositIntoPool { pool_id: 0 })) {
        Ok(TransferReply::Forward(t)) => {
            assert_eq!(t.token_id, WNEAR);
            assert_eq!(t.receiver_id, INTENTS);
            assert_eq!(t.amount, 70);
            assert_eq!(t.msg, "pool-0.registry.near");
        },
        _ => panic!("the deposit should be forwarded"),
    }
    assert_eq!(
        c.ft_on_transfer(&ctx(WNEAR, "", 0, 0), &s("a.near"), 0, Some(TokenReceiverMessage::DepositIntoPool { pool_id: 0 })).err(),
        Some(RegistryError::InvalidArgument)
    );
    assert_eq!(
        c.ft_on_transfer(&ctx(WNEAR, "", 0, 0), &s("a.near"), 5, Some(TokenReceiverMessage::DepositIntoPool { pool_id: 1 })).err(),
        Some(RegistryError::NotFound)
    );
    assert_eq!(c.on_deposit_into_pool(70, Some(50)), 20);
    assert_eq!(c.on_deposit_into_pool(70, Some(90)), 0);
    assert_eq!(c.on_deposit_into_pool(70, None), 70);
    c.pause(&s(OWNER)).unwrap();
    assert_eq!(c.ft_on_transfer(&ctx(WNEAR, "", 0, 0), &s("a.near"), 5, None).err(), Some(RegistryError::Paused));
}

#[test]
fn owner_withdraws_from_pool() {
    let c = setup();
    let owner = ctx(OWNER, "", 1, 0);
    let w = c.withdraw_from_pool(&owner, 0, &s(USDC), 25).unwrap();
    assert_eq!(w.vault_account_id, "pool-0.registry.near");
    assert_eq!(w.receiver_id, OWNER);
    assert_eq!(w.amount, 25);
    assert_eq!(c.withdraw_from_pool(&owner, 0, &s(USDC), 0).err(), Some(RegistryError::InvalidArgument));
    assert_eq!(c.withdraw_from_pool(&owner, 0, &s("invalid-token"), 5).err(), Some(RegistryError::InvalidArgument));
    assert_eq!(c.withdraw_from_pool(&owner, 999, &s(USDC), 5).err(), Some(RegistryError::NotFound));
    assert_eq!(
        c.withdraw_from_pool(&ctx("alice.near", "", 1, 0), 0, &s(USDC), 5).err(),
        Some(RegistryError::Unauthorized)
    );
}

#[test]
fn views_repeat_without_mutation() {
    let mut c = setup();
    register(&mut c, "alice.near", 10_000).unwrap();
    let (a, b) = (c.get_pool(0).unwrap(), c.get_pool(0).unwrap());
    assert_eq!(a.token_ids, b.token_ids);
    assert_eq!(a.amounts, b.amounts);
    assert_eq!(a.worker_id, b.worker_id);
    assert_eq!(a.last_ping_timestamp_ms, b.last_ping_timestamp_ms);
    let (w1, w2) = (c.get_worker(&s("alice.near")).unwrap(), c.get_worker(&s("alice.near")).unwrap());
    assert_eq!((w1.pool_id, w1.public_key, w1.compose_hash), (w2.pool_id, w2.public_key, w2.compose_hash));
    assert_eq!(c.get_workers(0, 10).len(), 1);
    assert_eq!(c.get_workers(1, 10).len(), 0);
    assert_eq!(c.get_workers(0, 0).len(), 0);
    assert_eq!(c.get_worker_ping_timeout_ms(), TIMEOUT_MS);
    assert_eq!(c.get_liquidity_provider_shares(0, &s("x")), c.get_liquidity_provider_shares(0, &s("x")));
    assert_eq!(c.get_pending_rewards(5, &s("x")), Err(RegistryError::NotFound));
}

#[test]
fn worker_seated_elsewhere_moves_pools() {
    let mut c = setup();
    assert_eq!(c.on_create_liquidity_pool_account(vec![s(WNEAR), s(USDC)], 10, true), Some(1));
    register(&mut c, "alice.near", 10_000).unwrap();
    let call = ctx("alice.near", &key_of("alice.near"), 1, 10_100);
    let pending = match c.register_worker(&call, 1, &report_for(&key_of("alice.near")), s("c2")).unwrap() {
        RegistrationStep::GrantKey { grant, pending } => {
            assert_eq!(grant.vault_account_id, "pool-1.registry.near");
            pending
        },
        RegistrationStep::RevokeOldKey { .. } => panic!("pool 1 has no worker"),
    };
    let follow_up = c.on_worker_key_added(pending, true, 10_100).unwrap().unwrap();
    assert_eq!(follow_up.vault_account_id, "pool-0.registry.near");
    assert_eq!(follow_up.public_key, key_of("alice.near"));
    assert_eq!(c.get_worker(&s("alice.near")).unwrap().pool_id, 1);
    assert_eq!(c.get_pool(0).unwrap().worker_id, None);
    assert_eq!(c.get_pool(1).unwrap().worker_id, Some(s("alice.near")));
    assert_eq!(c.get_worker_len(), 1);
}

#[test]
fn grant_rechecks_the_seat() {
    let mut c = setup();
    let alice = ctx("alice.near", &key_of("alice.near"), 1, 1_000);
    let bob = ctx("bob.near", &key_of("bob.near"), 1, 1_000);
    let pending_alice = match c.register_worker(&alice, 0, &report_for(&key_of("alice.near")), s("c")).unwrap() {
        RegistrationStep::GrantKey { pending, .. } => pending,
        RegistrationStep::RevokeOldKey { .. } => panic!("no worker to revoke"),
    };
    let pending_bob = match c.register_worker(&bob, 0, &report_for(&key_of("bob.near")), s("c")).unwrap() {
        RegistrationStep::GrantKey { pending, .. } => pending,
        RegistrationStep::RevokeOldKey { .. } => panic!("no worker to revoke"),
    };
    c.on_worker_key_added(pending_alice, true, 1_000).unwrap();
    assert_eq!(c.on_worker_key_added(pending_bob, true, 1_001).err(), Some(RegistryError::ConflictingWorker));
    assert_eq!(c.get_pool(0).unwrap().worker_id, Some(s("alice.near")));
}

#[test]
fn pause_rights_follow_roles() {
    let mut c = setup();
    let manager = s("ops.near");
    assert_eq!(c.pause(&manager), Err(RegistryError::Unauthorized));
    assert_eq!(c.grant_role(&manager, Role::PauseManager, &manager), Err(RegistryError::Unauthorized));
    c.grant_role(&s(OWNER), Role::PauseManager, &manager).unwrap();
    c.pause(&manager).unwrap();
    assert!(c.paused);
    assert_eq!(c.unpause(&manager), Err(RegistryError::Unauthorized));
    c.grant_role(&s(OWNER), Role::UnpauseManager, &manager).unwrap();
    c.unpause(&manager).unwrap();
    assert!(!c.paused);
    c.revoke_role(&s(OWNER), Role::PauseManager, &manager).unwrap();
    assert_eq!(c.pause(&manager), Err(RegistryError::Unauthorized));
    assert!(c.pause_managers.is_empty());
}
