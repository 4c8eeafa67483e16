//! The event vocabulary of the input stream.

use crate::monetary::Monetary;
use crate::AccountId;
use crate::TransactionId;
use vstd::prelude::*;

verus! {

/// The kind of operation one record asks for.
#[derive(Clone, Copy, Debug, PartialEq, Eq, Structural)]
pub enum TransactionType {
    Deposit,
    Withdrawal,
    Dispute,
    Resolve,
    Chargeback,
}

/// One event of the stream, already well typed.
///
/// `amount` is present for deposits and withdrawals and absent for the
/// dispute-family kinds, which instead refer through `transaction_id` to
/// the deposit they contest.
#[derive(Clone, Copy, Debug)]
pub struct Transaction {
    /// What the event asks for.
    pub transaction_type: TransactionType,
    /// The deposit or withdrawal this event is, or the one it refers to.
    pub transaction_id: TransactionId,
    /// The client whose account the event addresses.
    pub account_id: AccountId,
    /// The funds moved, for deposits and withdrawals.
    pub amount: Option<Monetary>,
}

} // verus!
