use solver_registry::multi_token::parse_u32;
use solver_registry::registry::{CallContext, Contract, RegistryError};

fn s(v: &str) -> String {
    v.to_string()
}

fn call(caller: &str, deposit: u128) -> CallContext {
    CallContext {
        predecessor_account_id: s(caller),
        signer_account_pk: String::new(),
        attached_deposit: deposit,
        block_timestamp_ms: 0,
    }
}

/// Two pools; alice holds 200 shares of pool 0 and 30 of pool 1.
fn setup() -> Contract {
    let mut c = Contract::new(s("owner.near"), s("intents.near"), s("registry.near"), 1_000);
    c.on_create_liquidity_pool_account(vec![s("a.near"), s("b.near")], 30, true).unwrap();
    c.on_create_liquidity_pool_account(vec![s("a.near"), s("c.near")], 30, true).unwrap();
    c.pools[0].add_liquidity(&s("alice.near"), vec![100, 400]).unwrap();
    c.pools[1].add_liquidity(&s("alice.near"), vec![30, 30]).unwrap();
    c
}

#[test]
fn share_token_ids_parse_like_u32() {
    assert_eq!(parse_u32(&s("0")), Some(0));
    assert_eq!(parse_u32(&s("42")), Some(42));
    assert_eq!(parse_u32(&s("+7")), Some(7));
    assert_eq!(parse_u32(&s("007")), Some(7));
    assert_eq!(parse_u32(&s("4294967295")), Some(u32::MAX));
    assert_eq!(parse_u32(&s("4294967296")), None);
    assert_eq!(parse_u32(&s("")), None);
    assert_eq!(parse_u32(&s("+")), None);
    assert_eq!(parse_u32(&s("-1")), None);
    assert_eq!(parse_u32(&s("1a")), None);
    for text in ["0", "+12", "99999999999", "x", "12 "] {
        assert_eq!(parse_u32(&s(text)), text.parse::<u32>().ok());
    }
}

#[test]
fn balances_and_supply() {
    let c = setup();
    assert_eq!(c.get_pool_share_token_id(1), "1");
    assert_eq!(c.mt_balance_of(&s("alice.near"), &s("0")), Ok(200));
    assert_eq!(c.mt_balance_of(&s("bob.near"), &s("1")), Ok(0));
    assert_eq!(c.mt_balance_of(&s("alice.near"), &s("2")), Err(RegistryError::NotFound));
    assert_eq!(c.mt_batch_balance_of(&s("alice.near"), &vec![s("1"), s("0")]), Ok(vec![30, 200]));
    assert_eq!(c.mt_batch_balance_of(&s("alice.near"), &vec![s("1"), s("x")]), Err(RegistryError::NotFound));
    assert_eq!(c.mt_supply(&s("0")), Some(200));
    assert_eq!(c.mt_batch_supply(&vec![s("1"), s("9")]), vec![Some(30), None]);
    let tokens = c.mt_token(vec![s("0"), s("5")]);
    assert_eq!(tokens[0].as_ref().map(|t| t.token_id.clone()), Some(s("0")));
    assert!(tokens[1].is_none());
}

#[test]
fn tokens_are_enumerated() {
    let c = setup();
    let all: Vec<String> = c.mt_tokens(None, None).into_iter().map(|t| t.token_id).collect();
    assert_eq!(all, vec![s("0"), s("1")]);
    assert_eq!(c.mt_tokens(Some(1), Some(5)).len(), 1);
    assert_eq!(c.mt_tokens(Some(0), Some(1)).len(), 1);
    assert!(c.mt_tokens(Some(2), None).is_empty());
    let owned: Vec<String> = c.mt_tokens_for_owner(&s("alice.near"), None, None).into_iter().map(|t| t.token_id).collect();
    assert_eq!(owned, vec![s("0"), s("1")]);
    assert_eq!(c.mt_tokens_for_owner(&s("alice.near"), Some(1), None)[0].token_id, "1");
    assert_eq!(c.mt_tokens_for_owner(&s("alice.near"), None, Some(1)).len(), 1);
    assert!(c.mt_tokens_for_owner(&s("bob.near"), None, None).is_empty());
}

#[test]
fn batch_transfer_moves_all_or_nothing() {
    let mut c = setup();
    let alice = call("alice.near", 1);
    let bob = s("bob.near");
    assert_eq!(
        c.mt_batch_transfer(&alice, &bob, &vec![s("0"), s("0")], &vec![150, 60], false),
        Err(RegistryError::InsufficientBalance)
    );
    assert_eq!(c.mt_balance_of(&bob, &s("0")), Ok(0));
    assert_eq!(c.mt_batch_transfer(&alice, &bob, &vec![s("0"), s("7")], &vec![1, 1], false), Err(RegistryError::NotFound));
    assert_eq!(c.mt_batch_transfer(&alice, &bob, &vec![s("0")], &vec![0], false), Err(RegistryError::InvalidArgument));
    assert_eq!(c.mt_batch_transfer(&alice, &bob, &vec![s("0")], &vec![1, 2], false), Err(RegistryError::InvalidArgument));
    assert_eq!(c.mt_batch_transfer(&alice, &s("alice.near"), &vec![s("0")], &vec![1], false), Err(RegistryError::InvalidArgument));
    assert_eq!(c.mt_batch_transfer(&call("alice.near", 0), &bob, &vec![s("0")], &vec![1], false), Err(RegistryError::Unauthorized));
    assert_eq!(c.mt_batch_transfer(&alice, &bob, &vec![s("0")], &vec![1], true), Err(RegistryError::InvalidArgument));

    c.mt_batch_transfer(&alice, &bob, &vec![s("0"), s("1"), s("0")], &vec![50, 10, 25], false).unwrap();
    assert_eq!(c.mt_balance_of(&s("alice.near"), &s("0")), Ok(125));
    assert_eq!(c.mt_balance_of(&bob, &s("0")), Ok(75));
    assert_eq!(c.mt_balance_of(&bob, &s("1")), Ok(10));
    assert_eq!(c.mt_supply(&s("0")), Some(200));
    c.mt_transfer(&call("bob.near", 1), &s("carol.near"), s("1"), 4, false).unwrap();
    assert_eq!(c.mt_balance_of(&s("carol.near"), &s("1")), Ok(4));
    assert_eq!(c.internal_mt_transfer(&s("carol.near"), &bob, &s("1"), 5), Err(RegistryError::InsufficientBalance));
}

#[test]
fn transfer_call_and_refunds() {
    let mut c = setup();
    let alice = call("alice.near", 1);
    let bob = s("bob.near");
    let pending = c
        .mt_batch_transfer_call(&alice, &bob, vec![s("0"), s("1")], vec![100, 20], false, s("hello"))
        .unwrap();
    assert_eq!(pending.previous_owner_ids, vec![s("alice.near"), s("alice.near")]);
    assert_eq!(pending.msg, "hello");
    // Bob gives away 90 of pool 0 before the answer is settled.
    c.internal_mt_transfer(&bob, &s("carol.near"), &s("0"), 90).unwrap();
    let used = c
        .mt_resolve_transfer(&pending.previous_owner_ids, &bob, &pending.token_ids, pending.amounts.clone(), false, Some(vec![40, 20]))
        .unwrap();
    assert_eq!(used, vec![90, 0]);
    assert_eq!(c.mt_balance_of(&s("alice.near"), &s("0")), Ok(110));
    assert_eq!(c.mt_balance_of(&s("alice.near"), &s("1")), Ok(30));
    assert_eq!(c.mt_balance_of(&bob, &s("0")), Ok(0));
    assert_eq!(c.mt_supply(&s("0")), Some(200));
}

#[test]
fn failed_receiver_gets_everything_back() {
    let mut c = setup();
    let pending = c
        .mt_transfer_call(&call("alice.near", 1), &s("bob.near"), s("1"), 30, false, String::new())
        .unwrap();
    let used = c
        .mt_resolve_transfer(&pending.previous_owner_ids, &s("bob.near"), &pending.token_ids, pending.amounts.clone(), false, None)
        .unwrap();
    assert_eq!(used, vec![0]);
    assert_eq!(c.mt_balance_of(&s("alice.near"), &s("1")), Ok(30));
    let owners = vec![s("alice.near"), s("eve.near")];
    assert_eq!(
        c.mt_resolve_transfer(&owners, &s("bob.near"), &vec![s("0"), s("1")], vec![1, 1], false, None),
        Err(RegistryError::InvalidArgument)
    );
}
