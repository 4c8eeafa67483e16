//! The error vocabulary of the library.

use crate::transaction::Transaction;
use crate::transaction::TransactionType;
use crate::AccountId;
use crate::TransactionId;
use vstd::prelude::*;

verus! {

/// Why a piece of text was rejected as a monetary value.
#[derive(Clone, Copy, Debug, PartialEq, Eq, Structural)]
pub enum MonetaryError {
    /// The text is not of the shape `[+|-] digits [. up-to-4-digits]`
    /// after trimming, or its integer part does not fit a signed 64-bit
    /// count of whole units.
    InvalidFormat,
    /// The text is well formed but the scaled value does not fit a signed
    /// 64-bit count of ten-thousandths.
    Overflow,
}

/// Why the ledger rejected one event.  A rejected event never changes the
/// account it addressed.
#[derive(Clone, Copy, Debug, PartialEq, Eq, Structural)]
pub enum AccountError {
    /// A chargeback froze the account; nothing is applied after that.
    AccountLocked { account_id: AccountId },
    /// A deposit carries a transaction id the ledger already holds.
    DuplicateTransaction {
        account_id: AccountId,
        transaction_id: TransactionId,
        transaction_type: TransactionType,
    },
    /// The referenced deposit was disputed before, in progress or settled.
    DuplicateDispute {
        account_id: AccountId,
        transaction_id: TransactionId,
        transaction_type: TransactionType,
    },
    /// The referenced transaction id is no recorded deposit.
    TransactionNotFound {
        account_id: AccountId,
        transaction_id: TransactionId,
        transaction_type: TransactionType,
    },
    /// A resolve or chargeback names a deposit that is not disputed.
    DisputeNotFound {
        account_id: AccountId,
        transaction_id: TransactionId,
        transaction_type: TransactionType,
    },
    /// A deposit or withdrawal came without an amount.
    AmountRequired {
        account_id: AccountId,
        transaction_id: TransactionId,
        transaction_type: TransactionType,
    },
    /// A withdrawal asks for more than is available.
    InsufficientFunds {
        account_id: AccountId,
        transaction_id: TransactionId,
        transaction_type: TransactionType,
    },
    /// A resolve or chargeback names a dispute that was already settled.
    DisputeNotInProgress {
        account_id: AccountId,
        transaction_id: TransactionId,
        transaction_type: TransactionType,
    },
    /// A deposit or withdrawal carries a negative amount.
    NegativeAmount {
        account_id: AccountId,
        transaction_id: TransactionId,
        transaction_type: TransactionType,
    },
    /// Applying the event would leave a balance outside the representable
    /// range.
    Overflow {
        account_id: AccountId,
        transaction_id: TransactionId,
        transaction_type: TransactionType,
    },
}

impl AccountError {
    /// The rejection of `transaction` on a frozen account.
    pub fn account_locked(transaction: &Transaction) -> (r: Self)
        ensures
            r == (AccountError::AccountLocked { account_id: transaction.account_id }),
    {
        Self::AccountLocked { account_id: transaction.account_id }
    }

    /// The rejection of `transaction` as a repeated deposit id.
    pub fn duplicate_transaction(transaction: &Transaction) -> (r: Self)
        ensures
            r == (AccountError::DuplicateTransaction {
                account_id: transaction.account_id,
                transaction_id: transaction.transaction_id,
                transaction_type: transaction.transaction_type,
            }),
    {
        Self::DuplicateTransaction {
            account_id: transaction.account_id,
            transaction_id: transaction.transaction_id,
            transaction_type: transaction.transaction_type,
        }
    }

    /// The rejection of `transaction` as a repeated dispute.
    pub fn duplicate_dispute(transaction: &Transaction) -> (r: Self)
        ensures
            r == (AccountError::DuplicateDispute {
                account_id: transaction.account_id,
                transaction_id: transaction.transaction_id,
                transaction_type: transaction.transaction_type,
            }),
    {
        Self::DuplicateDispute {
            account_id: transaction.account_id,
            transaction_id: transaction.transaction_id,
            transaction_type: transaction.transaction_type,
        }
    }

    /// The rejection of `transaction` for want of the deposit it names.
    pub fn transaction_not_found(transaction: &Transaction) -> (r: Self)
        ensures
            r == (AccountError::TransactionNotFound {
                account_id: transaction.account_id,
                transaction_id: transaction.transaction_id,
                transaction_type: transaction.transaction_type,
            }),
    {
        Self::TransactionNotFound {
            account_id: transaction.account_id,
            transaction_id: transaction.transaction_id,
            transaction_type: transaction.transaction_type,
        }
    }

    /// The rejection of `transaction` for want of the dispute it names.
    pub fn dispute_not_found(transaction: &Transaction) -> (r: Self)
        ensures
            r == (AccountError::DisputeNotFound {
                account_id: transaction.account_id,
                transaction_id: transaction.transaction_id,
                transaction_type: transaction.transaction_type,
            }),
    {
        Self::DisputeNotFound {
            account_id: transaction.account_id,
            transaction_id: transaction.transaction_id,
            transaction_type: transaction.transaction_type,
        }
    }

    /// The rejection of `transaction` for want of an amount.
    pub fn amount_required(transaction: &Transaction) -> (r: Self)
        ensures
            r == (AccountError::AmountRequired {
                account_id: transaction.account_id,
                transaction_id: transaction.transaction_id,
                transaction_type: transaction.transaction_type,
            }),
    {
        Self::AmountRequired {
            account_id: transaction.account_id,
            transaction_id: transaction.transaction_id,
            transaction_type: transaction.transaction_type,
        }
    }

    /// The rejection of `transaction` for want of available funds.
    pub fn insufficient_funds(transaction: &Transaction) -> (r: Self)
        ensures
            r == (AccountError::InsufficientFunds {
                account_id: transaction.account_id,
                transaction_id: transaction.transaction_id,
                transaction_type: transaction.transaction_type,
            }),
    {
        Self::InsufficientFunds {
            account_id: transaction.account_id,
            transaction_id: transaction.transaction_id,
            transaction_type: transaction.transaction_type,
        }
    }

    /// The rejection of `transaction` because its dispute was settled.
    pub fn dispute_not_in_progress(transaction: &Transaction) -> (r: Self)
        ensures
            r == (AccountError::DisputeNotInProgress {
                account_id: transaction.account_id,
                transaction_id: transaction.transaction_id,
                transaction_type: transaction.transaction_type,
            }),
    {
        Self::DisputeNotInProgress {
            account_id: transaction.account_id,
            transaction_id: transaction.transaction_id,
            transaction_type: transaction.transaction_type,
        }
    }

    /// The rejection of `transaction` for a negative amount.
    pub fn negative_amount(transaction: &Transaction) -> (r: Self)
        ensures
            r == (AccountError::NegativeAmount {
                account_id: transaction.account_id,
                transaction_id: transaction.transaction_id,
                transaction_type: transaction.transaction_type,
            }),
    {
        Self::NegativeAmount {
            account_id: transaction.account_id,
            transaction_id: transaction.transaction_id,
            transaction_type: transaction.transaction_type,
        }
    }

    /// The rejection of `transaction` because a balance would overflow.
    pub fn overflow(transaction: &Transaction) -> (r: Self)
        ensures
            r == (AccountError::Overflow {
                account_id: transaction.account_id,
                transaction_id: transaction.transaction_id,
                transaction_type: transaction.transaction_type,
            }),
    {
        Self::Overflow {
            account_id: transaction.account_id,
            transaction_id: transaction.transaction_id,
            transaction_type: transaction.transaction_type,
        }
    }
}

} // verus!
