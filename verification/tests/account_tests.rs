use transaction_engine::Account;
use transaction_engine::AccountError;
use transaction_engine::AccountId;
use transaction_engine::Monetary;
use transaction_engine::Transaction;
use transaction_engine::TransactionId;
use transaction_engine::TransactionType;

fn create_transaction(
    transaction_type: TransactionType,
    transaction_id: TransactionId,
    account_id: AccountId,
    amount: Option<&str>,
) -> Transaction {
    Transaction {
        transaction_type,
        transaction_id,
        account_id,
        amount: amount.map(|text| Monetary::parse(text).unwrap()),
    }
}

#[test]
fn test_successful_deposit_updates_balance() {
    let mut account = Account::new(1);
    let deposit = create_transaction(TransactionType::Deposit, 1, 1, Some("10.0"));

    account.apply(&deposit).unwrap();

    assert_eq!(account.available.to_text(), "10.0000");
    assert_eq!(account.total().to_text(), "10.0000");
}

#[test]
fn test_duplicate_deposit_fails_idempotency() {
    let mut account = Account::new(1);
    let deposit = create_transaction(TransactionType::Deposit, 1, 1, Some("10.0"));

    account.apply(&deposit).unwrap();

    let result = account.apply(&deposit);

    assert!(matches!(
        result,
        Err(AccountError::DuplicateTransaction { .. })
    ));
    assert_eq!(account.available.to_text(), "10.0000");
}

#[test]
fn test_withdrawal_with_exact_funds_succeeds() {
    let mut account = Account::new(1);
    account
        .apply(&create_transaction(TransactionType::Deposit, 1, 1, Some("10.0")))
        .unwrap();

    let withdrawal = create_transaction(TransactionType::Withdrawal, 2, 1, Some("10.0"));
    account.apply(&withdrawal).unwrap();

    assert_eq!(account.available.to_text(), "0.0000");
}

#[test]
fn test_withdrawal_with_insufficient_funds_fails() {
    let mut account = Account::new(1);
    account
        .apply(&create_transaction(TransactionType::Deposit, 1, 1, Some("10.0")))
        .unwrap();

    let withdrawal = create_transaction(TransactionType::Withdrawal, 2, 1, Some("10.0001"));
    let result = account.apply(&withdrawal);

    assert!(matches!(result, Err(AccountError::InsufficientFunds { .. })));
    assert_eq!(account.available.to_text(), "10.0000");
}

#[test]
fn test_dispute_and_resolve_lifecycle() {
    let mut account = Account::new(1);
    account
        .apply(&create_transaction(TransactionType::Deposit, 1, 1, Some("100.0")))
        .unwrap();
    account
        .apply(&create_transaction(TransactionType::Dispute, 1, 1, None))
        .unwrap();

    assert_eq!(account.available.to_text(), "0.0000");
    assert_eq!(account.held.to_text(), "100.0000");

    account
        .apply(&create_transaction(TransactionType::Resolve, 1, 1, None))
        .unwrap();

    assert_eq!(account.available.to_text(), "100.0000");
    assert_eq!(account.held.to_text(), "0.0000");
}

#[test]
fn test_dispute_and_chargeback_lifecycle() {
    let mut account = Account::new(1);
    account
        .apply(&create_transaction(TransactionType::Deposit, 1, 1, Some("100.0")))
        .unwrap();
    account
        .apply(&create_transaction(TransactionType::Dispute, 1, 1, None))
        .unwrap();
    account
        .apply(&create_transaction(TransactionType::Chargeback, 1, 1, None))
        .unwrap();

    assert_eq!(account.available.to_text(), "0.0000");
    assert_eq!(account.held.to_text(), "0.0000");
    assert_eq!(account.total().to_text(), "0.0000");
    assert!(account.locked);
}

#[test]
fn test_locked_account_rejects_subsequent_transactions() {
    let mut account = Account::new(1);
    account.locked = true;

    let deposit = create_transaction(TransactionType::Deposit, 1, 1, Some("10.0"));
    let result = account.apply(&deposit);

    assert!(matches!(result, Err(AccountError::AccountLocked { .. })));
}

#[test]
fn test_dispute_on_non_existent_transaction_fails() {
    let mut account = Account::new(1);
    let dispute = create_transaction(TransactionType::Dispute, 99, 1, None);
    let result = account.apply(&dispute);

    assert!(matches!(
        result,
        Err(AccountError::TransactionNotFound { .. })
    ));
}

#[test]
fn test_resolve_on_non_disputed_transaction_fails() {
    let mut account = Account::new(1);
    account
        .apply(&create_transaction(TransactionType::Deposit, 1, 1, Some("10.0")))
        .unwrap();

    let resolve = create_transaction(TransactionType::Resolve, 1, 1, None);
    let result = account.apply(&resolve);

    assert!(matches!(result, Err(AccountError::DisputeNotFound { .. })));
}

#[test]
fn test_withdrawal_is_isolated_from_held_funds() {
    let mut account = Account::new(1);
    account
        .apply(&create_transaction(TransactionType::Deposit, 1, 1, Some("100.0")))
        .unwrap();
    account
        .apply(&create_transaction(TransactionType::Dispute, 1, 1, None))
        .unwrap();
    account
        .apply(&create_transaction(TransactionType::Deposit, 2, 1, Some("50.0")))
        .unwrap();

    let withdrawal = create_transaction(TransactionType::Withdrawal, 3, 1, Some("50.0"));

    assert!(account.apply(&withdrawal).is_ok());
    assert_eq!(account.available.to_text(), "0.0000");
    assert_eq!(account.held.to_text(), "100.0000");
}

#[test]
fn test_zero_amount_deposit_is_accepted() {
    let mut account = Account::new(1);
    let deposit = create_transaction(TransactionType::Deposit, 1, 1, Some("0.0000"));
    account.apply(&deposit).unwrap();

    assert_eq!(account.available.to_text(), "0.0000");
}

#[test]
fn test_disputing_a_withdrawal_fails() {
    let mut account = Account::new(1);
    account
        .apply(&create_transaction(TransactionType::Deposit, 1, 1, Some("100.0")))
        .unwrap();
    account
        .apply(&create_transaction(TransactionType::Withdrawal, 2, 1, Some("50.0")))
        .unwrap();

    let dispute = create_transaction(TransactionType::Dispute, 2, 1, None);
    let result = account.apply(&dispute);

    assert!(matches!(
        result,
        Err(AccountError::TransactionNotFound { .. })
    ));
}

#[test]
fn test_total_is_available_plus_held() {
    let mut account = Account::new(7);
    account
        .apply(&create_transaction(TransactionType::Deposit, 1, 7, Some("30.25")))
        .unwrap();
    account
        .apply(&create_transaction(TransactionType::Deposit, 2, 7, Some("10.0")))
        .unwrap();
    account
        .apply(&create_transaction(TransactionType::Dispute, 2, 7, None))
        .unwrap();

    assert_eq!(account.available.to_text(), "30.2500");
    assert_eq!(account.held.to_text(), "10.0000");
    assert_eq!(account.total().to_text(), "40.2500");
}

#[test]
fn test_locked_account_state_is_frozen() {
    let mut account = Account::new(1);
    account
        .apply(&create_transaction(TransactionType::Deposit, 1, 1, Some("100.0")))
        .unwrap();
    account
        .apply(&create_transaction(TransactionType::Deposit, 2, 1, Some("40.0")))
        .unwrap();
    account
        .apply(&create_transaction(TransactionType::Dispute, 2, 1, None))
        .unwrap();
    account
        .apply(&create_transaction(TransactionType::Chargeback, 2, 1, None))
        .unwrap();

    assert!(account.locked);
    let before = (account.available.to_text(), account.held.to_text());

    let followers = vec![
        create_transaction(TransactionType::Deposit, 3, 1, Some("5.0")),
        create_transaction(TransactionType::Withdrawal, 4, 1, Some("5.0")),
        create_transaction(TransactionType::Dispute, 1, 1, None),
        create_transaction(TransactionType::Resolve, 1, 1, None),
        create_transaction(TransactionType::Chargeback, 1, 1, None),
    ];
    for event in followers {
        let result = account.apply(&event);
        assert!(matches!(result, Err(AccountError::AccountLocked { .. })));
    }

    assert_eq!(before.0, account.available.to_text());
    assert_eq!(before.1, account.held.to_text());
}

#[test]
fn test_dispute_is_one_shot_per_deposit() {
    let mut account = Account::new(1);
    account
        .apply(&create_transaction(TransactionType::Deposit, 1, 1, Some("25.0")))
        .unwrap();
    account
        .apply(&create_transaction(TransactionType::Dispute, 1, 1, None))
        .unwrap();
    account
        .apply(&create_transaction(TransactionType::Resolve, 1, 1, None))
        .unwrap();

    let second_dispute = create_transaction(TransactionType::Dispute, 1, 1, None);
    assert!(matches!(
        account.apply(&second_dispute),
        Err(AccountError::DuplicateDispute { .. })
    ));

    let second_resolve = create_transaction(TransactionType::Resolve, 1, 1, None);
    assert!(matches!(
        account.apply(&second_resolve),
        Err(AccountError::DisputeNotInProgress { .. })
    ));

    assert_eq!(account.available.to_text(), "25.0000");
    assert_eq!(account.held.to_text(), "0.0000");
}

#[test]
fn test_missing_and_negative_amounts_are_rejected() {
    let mut account = Account::new(1);

    let missing = create_transaction(TransactionType::Deposit, 1, 1, None);
    assert!(matches!(
        account.apply(&missing),
        Err(AccountError::AmountRequired { .. })
    ));

    let negative = create_transaction(TransactionType::Deposit, 1, 1, Some("-1.0"));
    assert!(matches!(
        account.apply(&negative),
        Err(AccountError::NegativeAmount { .. })
    ));

    let negative_withdrawal = create_transaction(TransactionType::Withdrawal, 1, 1, Some("-1.0"));
    assert!(matches!(
        account.apply(&negative_withdrawal),
        Err(AccountError::NegativeAmount { .. })
    ));

    assert_eq!(account.available.to_text(), "0.0000");
}

#[test]
fn test_deposit_overflow_is_rejected_without_change() {
    let mut account = Account::new(1);
    account
        .apply(&create_transaction(
            TransactionType::Deposit,
            1,
            1,
            Some("922337203685477.5807"),
        ))
        .unwrap();

    let more = create_transaction(TransactionType::Deposit, 2, 1, Some("0.0001"));
    assert!(matches!(
        account.apply(&more),
        Err(AccountError::Overflow { .. })
    ));

    assert_eq!(account.available.to_text(), "922337203685477.5807");
    assert_eq!(account.held.to_text(), "0.0000");
}

#[test]
fn test_dispute_moves_exact_deposit_amount() {
    let mut account = Account::new(1);
    account
        .apply(&create_transaction(TransactionType::Deposit, 1, 1, Some("12.3456")))
        .unwrap();
    account
        .apply(&create_transaction(TransactionType::Withdrawal, 2, 1, Some("2.3456")))
        .unwrap();
    account
        .apply(&create_transaction(TransactionType::Dispute, 1, 1, None))
        .unwrap();

    assert_eq!(account.available.to_text(), "-2.3456");
    assert_eq!(account.held.to_text(), "12.3456");
    assert_eq!(account.total().to_text(), "10.0000");
}

#[test]
fn test_zero_amount_deposit_can_be_disputed() {
    let mut account = Account::new(1);
    account
        .apply(&create_transaction(TransactionType::Deposit, 1, 1, Some("0.0")))
        .unwrap();
    account
        .apply(&create_transaction(TransactionType::Dispute, 1, 1, None))
        .unwrap();

    assert_eq!(account.available.to_text(), "0.0000");
    assert_eq!(account.held.to_text(), "0.0000");

    account
        .apply(&create_transaction(TransactionType::Resolve, 1, 1, None))
        .unwrap();

    assert_eq!(account.available.to_text(), "0.0000");
}

#[test]
fn test_duplicate_deposit_reports_missing_amount_first() {
    let mut account = Account::new(1);
    account
        .apply(&create_transaction(TransactionType::Deposit, 1, 1, Some("10.0")))
        .unwrap();

    let duplicate_without_amount = create_transaction(TransactionType::Deposit, 1, 1, None);
    assert!(matches!(
        account.apply(&duplicate_without_amount),
        Err(AccountError::AmountRequired { .. })
    ));

    let duplicate_negative = create_transaction(TransactionType::Deposit, 1, 1, Some("-2.0"));
    assert!(matches!(
        account.apply(&duplicate_negative),
        Err(AccountError::NegativeAmount { .. })
    ));

    assert_eq!(account.available.to_text(), "10.0000");
}
