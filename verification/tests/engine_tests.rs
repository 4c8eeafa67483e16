use std::time::Duration;
use transaction_engine::engine::run_worker;
use transaction_engine::Account;
use transaction_engine::AccountId;
use transaction_engine::AccountStorage;
use transaction_engine::AsyncEngine;
use transaction_engine::Monetary;
use transaction_engine::Storage;
use transaction_engine::Transaction;
use transaction_engine::TransactionId;
use transaction_engine::TransactionType;

fn event(
    kind: TransactionType,
    transaction_id: TransactionId,
    account_id: AccountId,
    amount: Option<&str>,
) -> Transaction {
    Transaction {
        transaction_type: kind,
        transaction_id,
        account_id,
        amount: amount.map(|text| Monetary::parse(text).unwrap()),
    }
}

fn balances(storage: &mut AccountStorage, account_id: AccountId) -> (String, String, String, bool) {
    let account = storage.load(account_id).expect("Account missing from storage");
    let result = (
        account.available.to_text(),
        account.held.to_text(),
        account.total().to_text(),
        account.locked,
    );
    storage.save(account_id, account);
    result
}

#[test]
fn test_engine_routes_stream_to_accounts() {
    let events = vec![
        event(TransactionType::Deposit, 1, 1, Some("10.0")),
        event(TransactionType::Deposit, 2, 2, Some("20.0")),
        event(TransactionType::Withdrawal, 3, 1, Some("5.0")),
    ];

    let mut engine = AsyncEngine::new(AccountStorage::new());
    engine.process(&events);
    let mut storage = engine.into_storage();

    assert_eq!(balances(&mut storage, 1).0, "5.0000");
    assert_eq!(balances(&mut storage, 2).0, "20.0000");
}

#[test]
fn test_engine_continues_after_rejected_events() {
    let events = vec![
        event(TransactionType::Deposit, 1, 1, Some("10.0")),
        event(TransactionType::Withdrawal, 2, 1, Some("999.0")),
        event(TransactionType::Deposit, 3, 1, Some("20.0")),
    ];

    let mut engine = AsyncEngine::new(AccountStorage::new());
    engine.process(&events);
    let mut storage = engine.into_storage();

    assert_eq!(balances(&mut storage, 1).0, "30.0000");
}

#[test]
fn test_engine_orchestrates_complex_dispute_sequences() {
    let events = vec![
        event(TransactionType::Deposit, 1, 1, Some("100.0")),
        event(TransactionType::Deposit, 2, 1, Some("50.0")),
        event(TransactionType::Dispute, 1, 1, None),
        event(TransactionType::Resolve, 1, 1, None),
        event(TransactionType::Chargeback, 2, 1, None),
        event(TransactionType::Deposit, 3, 1, Some("10.0")),
    ];

    let mut engine = AsyncEngine::new(AccountStorage::new());
    engine.process(&events);
    let mut storage = engine.into_storage();

    let (available, held, _, locked) = balances(&mut storage, 1);
    assert_eq!(available, "160.0000");
    assert_eq!(held, "0.0000");
    assert!(!locked);
}

#[test]
fn test_engine_chargeback_locks_and_freezes() {
    let events = vec![
        event(TransactionType::Deposit, 1, 1, Some("100.0")),
        event(TransactionType::Deposit, 2, 1, Some("50.0")),
        event(TransactionType::Dispute, 2, 1, None),
        event(TransactionType::Chargeback, 2, 1, None),
        event(TransactionType::Deposit, 3, 1, Some("10.0")),
    ];

    let mut engine = AsyncEngine::new(AccountStorage::new());
    engine.process(&events);
    let mut storage = engine.into_storage();

    let (available, held, total, locked) = balances(&mut storage, 1);
    assert_eq!(available, "100.0000");
    assert_eq!(held, "0.0000");
    assert_eq!(total, "100.0000");
    assert!(locked);
}

#[test]
fn test_engine_outcome_ignores_registry_bounds() {
    let events = vec![
        event(TransactionType::Deposit, 1, 1, Some("10.0")),
        event(TransactionType::Deposit, 2, 2, Some("10.0")),
        event(TransactionType::Deposit, 3, 3, Some("10.0")),
        event(TransactionType::Deposit, 4, 1, Some("10.0")),
    ];

    let mut bounded = AsyncEngine::new(AccountStorage::new()).with_cache_capacity(2);
    bounded.process(&events);
    let mut bounded_storage = bounded.into_storage();

    let mut unbounded = AsyncEngine::new(AccountStorage::new());
    unbounded.process(&events);
    let mut unbounded_storage = unbounded.into_storage();

    for account_id in [1, 2, 3] {
        assert_eq!(
            balances(&mut bounded_storage, account_id),
            balances(&mut unbounded_storage, account_id)
        );
    }
    assert_eq!(balances(&mut bounded_storage, 1).0, "20.0000");
    assert_eq!(balances(&mut bounded_storage, 2).0, "10.0000");
    assert_eq!(balances(&mut bounded_storage, 3).0, "10.0000");
}

#[test]
fn test_engine_builders_keep_their_settings() {
    let engine = AsyncEngine::new(AccountStorage::new())
        .with_cache_capacity(2)
        .with_cache_timeout(Duration::from_millis(100));

    assert_eq!(engine.backpressure(), 256);
    assert_eq!(engine.cache_capacity(), 2);
    assert_eq!(engine.cache_timeout(), Duration::from_millis(100));
}

#[test]
fn test_worker_isolation_and_storage_persistence() {
    let mut storage = AccountStorage::new();

    run_worker(
        &mut storage,
        1,
        &vec![
            event(TransactionType::Deposit, 1, 1, Some("100.0")),
            event(TransactionType::Withdrawal, 3, 1, Some("50.0")),
        ],
    );
    run_worker(
        &mut storage,
        2,
        &vec![event(TransactionType::Deposit, 2, 2, Some("200.0"))],
    );

    let account1 = storage.load(1).expect("Account 1 missing");
    let account2 = storage.load(2).expect("Account 2 missing");

    assert_eq!(account1.available.to_text(), "50.0000");
    assert_eq!(account2.available.to_text(), "200.0000");
}

#[test]
fn test_worker_maintains_resilience_to_business_logic_errors() {
    let mut storage = AccountStorage::new();

    run_worker(
        &mut storage,
        1,
        &vec![
            event(TransactionType::Deposit, 1, 1, Some("10.0")),
            event(TransactionType::Withdrawal, 2, 1, Some("999.0")),
            event(TransactionType::Deposit, 3, 1, Some("20.0")),
        ],
    );

    let account = storage.load(1).expect("Account missing");

    assert_eq!(account.available.to_text(), "30.0000");
}

#[test]
fn test_worker_applies_events_in_arrival_order() {
    let deposit_then_withdraw = vec![
        event(TransactionType::Deposit, 1, 1, Some("10.0")),
        event(TransactionType::Withdrawal, 2, 1, Some("10.0")),
    ];
    let withdraw_then_deposit = vec![
        event(TransactionType::Withdrawal, 2, 1, Some("10.0")),
        event(TransactionType::Deposit, 1, 1, Some("10.0")),
    ];

    let mut storage = AccountStorage::new();
    run_worker(&mut storage, 1, &deposit_then_withdraw);
    assert_eq!(storage.load(1).unwrap().available.to_text(), "0.0000");

    let mut storage = AccountStorage::new();
    run_worker(&mut storage, 1, &withdraw_then_deposit);
    assert_eq!(storage.load(1).unwrap().available.to_text(), "10.0000");
}

#[test]
fn test_worker_eviction_and_rehydration_is_transparent() {
    let first_batch = vec![
        event(TransactionType::Deposit, 1, 1, Some("10.0")),
        event(TransactionType::Deposit, 2, 1, Some("5.0")),
        event(TransactionType::Dispute, 2, 1, None),
    ];
    let second_batch = vec![
        event(TransactionType::Resolve, 2, 1, None),
        event(TransactionType::Deposit, 3, 1, Some("20.0")),
    ];
    let whole: Vec<Transaction> = first_batch
        .iter()
        .chain(second_batch.iter())
        .cloned()
        .collect();

    let mut split_storage = AccountStorage::new();
    run_worker(&mut split_storage, 1, &first_batch);
    run_worker(&mut split_storage, 1, &second_batch);

    let mut whole_storage = AccountStorage::new();
    run_worker(&mut whole_storage, 1, &whole);

    let split_account = split_storage.load(1).unwrap();
    let whole_account = whole_storage.load(1).unwrap();

    assert_eq!(split_account.available.to_text(), "35.0000");
    assert_eq!(
        split_account.available.to_text(),
        whole_account.available.to_text()
    );
    assert_eq!(split_account.held.to_text(), whole_account.held.to_text());
    assert_eq!(split_account.locked, whole_account.locked);
}

#[test]
fn test_worker_rehydrates_an_idle_account() {
    let mut storage = AccountStorage::new();

    run_worker(
        &mut storage,
        1,
        &vec![event(TransactionType::Deposit, 1, 1, Some("10.0"))],
    );
    run_worker(
        &mut storage,
        1,
        &vec![event(TransactionType::Deposit, 2, 1, Some("20.0"))],
    );

    assert_eq!(storage.load(1).unwrap().available.to_text(), "30.0000");
}

#[test]
fn test_worker_saves_a_fresh_account_even_when_every_event_fails() {
    let mut storage = AccountStorage::new();

    run_worker(
        &mut storage,
        1,
        &vec![event(TransactionType::Withdrawal, 1, 1, Some("1.0"))],
    );

    let account = storage.load(1).expect("Account missing");
    assert_eq!(account.available.to_text(), "0.0000");
    assert_eq!(account.account_id, 1);
}

#[test]
fn test_worker_ignores_the_ids_other_workers_own() {
    let mut storage = AccountStorage::new();
    let mut other = Account::new(2);
    other.available = Monetary::parse("1.0").unwrap();
    storage.save(2, other);

    run_worker(
        &mut storage,
        1,
        &vec![event(TransactionType::Deposit, 1, 1, Some("10.0"))],
    );

    assert_eq!(storage.load(2).unwrap().available.to_text(), "1.0000");
    assert_eq!(storage.load(1).unwrap().available.to_text(), "10.0000");
}
