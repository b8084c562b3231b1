use solver_registry::book::BalanceBook;
use solver_registry::math::sqrt;
use solver_registry::pool::{Pool, PoolError};
use solver_registry::types::Prefix;

fn name(s: &str) -> String {
    s.to_string()
}

fn fresh_pool() -> Pool {
    Pool::new(vec![name("wrap.near"), name("usdc.near")], 30).unwrap()
}

fn total_of_holders(pool: &Pool, holders: &[&str]) -> u128 {
    holders.iter().map(|h| pool.shares.get(&name(h))).sum()
}

#[test]
fn sqrt_rounds_down() {
    assert_eq!(sqrt(0), 0);
    assert_eq!(sqrt(1), 1);
    assert_eq!(sqrt(15), 3);
    assert_eq!(sqrt(16), 4);
    assert_eq!(sqrt(40_000), 200);
    assert_eq!(sqrt(u128::MAX), u64::MAX as u128);
}

#[test]
fn pool_terms_are_checked() {
    assert!(Pool::new(vec![name("a.near")], 30).is_err());
    assert_eq!(
        Pool::new(vec![name("a.near"), name("a.near")], 30).err(),
        Some(PoolError::InvalidArgument)
    );
    assert_eq!(
        Pool::new(vec![name("a.near"), name("b.near")], 10_000).err(),
        Some(PoolError::InvalidArgument)
    );
    let pool = Pool::new(vec![name("a.near"), name("b.near")], 9_999).unwrap();
    assert_eq!(pool.get_token_ids(), vec![name("a.near"), name("b.near")]);
    assert_eq!(pool.shares_total_supply, 0);
}

#[test]
fn first_deposit_mints_floor_sqrt() {
    let mut pool = fresh_pool();
    let minted = pool.add_liquidity(&name("alice.near"), vec![100, 400]).unwrap();
    assert_eq!(minted, 200);
    assert_eq!(pool.shares.get(&name("alice.near")), 200);
    assert_eq!(pool.shares_total_supply, 200);
    assert_eq!(pool.amounts, vec![100, 400]);
}

#[test]
fn second_deposit_is_proportional() {
    let mut pool = fresh_pool();
    pool.amounts = vec![200, 800];
    pool.shares.set(&name("alice.near"), 200);
    pool.shares_total_supply = 200;

    let mut proportional = Pool { amounts: vec![200, 800], ..fresh_pool() };
    proportional.shares.set(&name("alice.near"), 200);
    proportional.shares_total_supply = 200;
    assert_eq!(proportional.add_liquidity(&name("bob.near"), vec![20, 80]), Ok(20));
    assert_eq!(proportional.amounts, vec![220, 880]);

    assert_eq!(pool.add_liquidity(&name("carol.near"), vec![20, 40]), Ok(10));
    assert_eq!(pool.shares.get(&name("carol.near")), 10);
    assert_eq!(pool.shares_total_supply, 210);
}

#[test]
fn zero_or_missing_amounts_are_refused() {
    let mut pool = fresh_pool();
    assert_eq!(pool.add_liquidity(&name("a"), vec![0, 5]), Err(PoolError::InvalidArgument));
    assert_eq!(pool.add_liquidity(&name("a"), vec![5]), Err(PoolError::InvalidArgument));
    assert_eq!(pool.add_liquidity(&name("a"), vec![u128::MAX, 2]), Err(PoolError::Arithmetic));
    assert_eq!(pool.shares_total_supply, 0);
    pool.add_liquidity(&name("a"), vec![1_000, 1_000]).unwrap();
    assert_eq!(pool.add_liquidity(&name("b"), vec![1_000, 0]), Err(PoolError::InvalidArgument));
    // A deposit worth less than one share mints nothing and is refused.
    let mut tiny = fresh_pool();
    tiny.add_liquidity(&name("a"), vec![1_000_000, 1]).unwrap();
    assert_eq!(tiny.shares_total_supply, 1_000);
    assert_eq!(tiny.add_liquidity(&name("b"), vec![1, 1]), Err(PoolError::InvalidArgument));
}

#[test]
fn removal_pays_the_burnt_fraction() {
    let mut pool = fresh_pool();
    pool.add_liquidity(&name("alice.near"), vec![100, 400]).unwrap();
    let out = pool.remove_liquidity(&name("alice.near"), 50).unwrap();
    assert_eq!(out, vec![25, 100]);
    assert_eq!(pool.amounts, vec![75, 300]);
    assert_eq!(pool.shares.get(&name("alice.near")), 150);
    assert_eq!(pool.shares_total_supply, 150);
    assert_eq!(pool.remove_liquidity(&name("alice.near"), 151), Err(PoolError::InsufficientShares));
    assert_eq!(pool.remove_liquidity(&name("bob.near"), 1), Err(PoolError::InsufficientShares));
    assert_eq!(pool.remove_liquidity(&name("alice.near"), 0), Err(PoolError::InvalidArgument));
    assert_eq!(pool.shares_total_supply, 150);
}

#[test]
fn shares_always_sum_to_supply() {
    let mut pool = fresh_pool();
    let holders = ["alice.near", "bob.near", "carol.near"];
    pool.add_liquidity(&name("alice.near"), vec![100, 400]).unwrap();
    pool.add_liquidity(&name("bob.near"), vec![30, 90]).unwrap();
    assert_eq!(total_of_holders(&pool, &holders), pool.shares_total_supply);
    pool.remove_liquidity(&name("alice.near"), 70).unwrap();
    pool.add_liquidity(&name("carol.near"), vec![7, 50]).unwrap();
    assert_eq!(total_of_holders(&pool, &holders), pool.shares_total_supply);
    pool.remove_liquidity(&name("bob.near"), pool.shares.get(&name("bob.near"))).unwrap();
    assert_eq!(pool.shares.get(&name("bob.near")), 0);
    assert_eq!(total_of_holders(&pool, &holders), pool.shares_total_supply);
}

#[test]
fn fees_accrue_per_share() {
    let mut pool = fresh_pool();
    pool.add_liquidity(&name("alice.near"), vec![40, 40]).unwrap();
    pool.add_liquidity(&name("bob.near"), vec![10, 10]).unwrap();
    assert_eq!(pool.shares_total_supply, 50);
    assert_eq!(pool.shares.get(&name("bob.near")), 10);
    pool.update_fees_in_pool(vec![100, 0]).unwrap();
    assert_eq!(pool.fees_per_share, vec![2, 0]);
    assert_eq!(pool.unclaimed_fees, vec![100, 0]);
    assert_eq!(pool.calculate_pending_rewards(&name("bob.near")), Ok(vec![20, 0]));
    assert_eq!(pool.calculate_pending_rewards(&name("alice.near")), Ok(vec![80, 0]));
    assert_eq!(pool.calculate_pending_rewards(&name("nobody.near")), Ok(vec![0, 0]));
}

#[test]
fn fee_dust_stays_unclaimed() {
    let mut pool = fresh_pool();
    pool.add_liquidity(&name("alice.near"), vec![40, 40]).unwrap();
    pool.update_fees_in_pool(vec![99, 41]).unwrap();
    assert_eq!(pool.fees_per_share, vec![2, 1]);
    assert_eq!(pool.unclaimed_fees, vec![99, 41]);
    pool.mark_fees_claimed(&name("alice.near")).unwrap();
    assert_eq!(pool.unclaimed_fees, vec![19, 1]);
    assert_eq!(pool.calculate_pending_rewards(&name("alice.near")), Ok(vec![0, 0]));
    assert_eq!(pool.last_claimed_fees[0].get(&name("alice.near")), 2);
    assert_eq!(pool.update_fees_in_pool(vec![1]), Err(PoolError::InvalidArgument));
}

#[test]
fn fees_without_shares_are_ignored() {
    let mut pool = fresh_pool();
    pool.update_fees_in_pool(vec![100, 100]).unwrap();
    assert_eq!(pool.fees_per_share, vec![0, 0]);
    assert_eq!(pool.unclaimed_fees, vec![0, 0]);
}

#[test]
fn worker_liveness_window() {
    let mut pool = fresh_pool();
    assert!(!pool.has_active_worker(1_000, 5_000));
    pool.worker_id = Some(name("w.near"));
    pool.last_ping_timestamp_ms = 4_000;
    assert!(pool.has_active_worker(1_000, 4_999));
    assert!(!pool.has_active_worker(1_000, 5_000));
    assert!(pool.has_active_worker(1_000, 3_000));
}

#[test]
fn balance_book_tracks_total() {
    let mut book = BalanceBook::new();
    book.set(&name("a"), 5);
    book.set(&name("b"), 7);
    book.set(&name("a"), 1);
    assert_eq!(book.get(&name("a")), 1);
    assert_eq!(book.get(&name("b")), 7);
    assert_eq!(book.get(&name("c")), 0);
    assert_eq!(book.entries.len(), 2);
}

#[test]
fn storage_keys_are_distinct_tags() {
    assert_eq!(Prefix::Pools.storage_key(), vec![0u8]);
    assert_eq!(Prefix::PoolShares.storage_key(), vec![1u8]);
    assert_eq!(Prefix::ApprovedComposeHashes.storage_key(), vec![2u8]);
    assert_eq!(Prefix::WorkerByAccountId.storage_key(), vec![3u8]);
}
