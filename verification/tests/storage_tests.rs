use transaction_engine::Account;
use transaction_engine::AccountStorage;
use transaction_engine::Monetary;
use transaction_engine::Storage;

#[test]
fn test_storage_basic_load_and_save_operations() {
    let mut storage = AccountStorage::new();

    assert!(storage.load(99).is_none());

    let mut account = Account::new(1);
    account.available = Monetary::parse("100.0").unwrap();
    storage.save(1, account);

    let retrieved_account = storage.load(1).expect("Account not found in storage");

    assert_eq!(retrieved_account.account_id, 1);
    assert_eq!(retrieved_account.available.to_text(), "100.0000");
}

#[test]
fn test_storage_iterator_collects_all_accounts() {
    let mut storage = AccountStorage::new();
    storage.save(1, Account::new(1));
    storage.save(2, Account::new(2));
    storage.save(3, Account::new(3));

    assert_eq!(storage.iter().len(), 3);
}

#[test]
fn test_storage_enforces_correct_overwrite_semantics() {
    let mut storage = AccountStorage::new();

    let mut account_version_1 = Account::new(1);
    account_version_1.available = Monetary::parse("10.0").unwrap();
    storage.save(1, account_version_1);

    let mut account_version_2 = storage.load(1).expect("Account v1 missing");
    account_version_2.available = Monetary::parse("20.0").unwrap();
    storage.save(1, account_version_2);

    let final_account = storage.load(1).expect("Final account version missing");

    assert_eq!(final_account.available.to_text(), "20.0000");
}

#[test]
fn test_storage_load_takes_the_entry_out() {
    let mut storage = AccountStorage::new();
    storage.save(5, Account::new(5));

    assert!(storage.load(5).is_some());
    assert!(storage.load(5).is_none());
    assert_eq!(storage.iter().len(), 0);
}

#[test]
fn test_storage_iterator_reports_saved_state() {
    let mut storage = AccountStorage::new();
    let mut account = Account::new(4);
    account.available = Monetary::parse("7.5").unwrap();
    storage.save(4, account);
    storage.save(9, Account::new(9));

    let mut entries = storage.iter();
    entries.sort_by_key(|entry| entry.0);

    assert_eq!(entries.len(), 2);
    assert_eq!(entries[0].0, 4);
    assert_eq!(entries[0].1.available.to_text(), "7.5000");
    assert_eq!(entries[1].0, 9);
    assert_eq!(entries[1].1.available.to_text(), "0.0000");
}
