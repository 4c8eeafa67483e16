//! A verified streaming transaction processor for a toy payments ledger.

pub mod account;
pub mod engine;
pub mod errors;
pub mod laws;
pub mod monetary;
pub mod storage;
pub mod transaction;

pub use account::Account;
pub use account::DisputeStatus;
pub use engine::run_worker;
pub use engine::AsyncEngine;
pub use errors::AccountError;
pub use errors::MonetaryError;
pub use monetary::Monetary;
pub use storage::AccountStorage;
pub use storage::Storage;
pub use transaction::Transaction;
pub use transaction::TransactionType;

use vstd::prelude::*;

verus! {

/// A client identifier as it appears on the wire.
pub type AccountId = u16;

/// A globally unique identifier for deposits and withdrawals; dispute-family
/// events carry the id of the transaction they refer to.
pub type TransactionId = u32;

} // verus!
