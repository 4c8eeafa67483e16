//! The per-account ledger state machine.
//!
//! An [`Account`] holds the available and held balance of one client, the
//! ledger of its accepted deposits, and the status of every dispute raised
//! against one of those deposits.  [`Account::apply`] is the one entry point
//! of the business logic; its whole effect is pinned down by the transition
//! function [`spec_apply`], and an event that is rejected leaves the account
//! exactly as it was.

use crate::errors::AccountError;
use crate::monetary::lemma_monetary_in_range;
use crate::monetary::Monetary;
use crate::transaction::Transaction;
use crate::transaction::TransactionType;
use crate::AccountId;
use crate::TransactionId;
use std::collections::HashMap;
use vstd::prelude::*;

verus! {

broadcast use {vstd::std_specs::hash::group_hash_axioms, lemma_monetary_in_range};

/// The status a dispute has reached.  A dispute is one-shot: once settled,
/// its deposit can never be disputed again.
#[derive(Clone, Copy, Debug, PartialEq, Eq, Structural)]
pub enum DisputeStatus {
    /// The disputed funds are held.
    InProgress,
    /// The dispute was dropped and the funds are available again.
    Resolved,
    /// The disputed funds left the account and the account is frozen.
    Chargeback,
}

/// The mathematical content of an account: balances as unbounded counts of
/// ten-thousandths, and the two histories as maps.
#[verifier::ext_equal]
pub ghost struct AccountView {
    pub account_id: AccountId,
    pub available: int,
    pub held: int,
    pub locked: bool,
    pub ledger: Map<TransactionId, int>,
    pub disputes: Map<TransactionId, DisputeStatus>,
}

/// The amounts a ledger of deposits records, as unbounded integers.
pub open spec fn ledger_view(m: Map<TransactionId, Monetary>) -> Map<TransactionId, int> {
    m.map_values(|x: Monetary| x@)
}

/// The amount an event carries, if any, as an unbounded integer.
pub open spec fn event_amount(t: Transaction) -> Option<int> {
    match t.amount {
        Some(m) => Some(m@),
        None => None,
    }
}

/// What a deposit does: a present, non-negative amount under a fresh
/// transaction id that keeps `available` representable grows `available`
/// and the ledger; anything else is rejected, the amount's presence and
/// sign checked before the id's freshness.
pub open spec fn spec_deposit(a: AccountView, t: Transaction) -> Result<AccountView, AccountError> {
    match event_amount(t) {
        None => Err(AccountError::AmountRequired {
            account_id: t.account_id,
            transaction_id: t.transaction_id,
            transaction_type: t.transaction_type,
        }),
        Some(m) => if m < 0 {
            Err(AccountError::NegativeAmount {
                account_id: t.account_id,
                transaction_id: t.transaction_id,
                transaction_type: t.transaction_type,
            })
        } else if a.ledger.contains_key(t.transaction_id) {
            Err(AccountError::DuplicateTransaction {
                account_id: t.account_id,
                transaction_id: t.transaction_id,
                transaction_type: t.transaction_type,
            })
        } else if !(i64::MIN <= a.available + m <= i64::MAX) {
            Err(AccountError::Overflow {
                account_id: t.account_id,
                transaction_id: t.transaction_id,
                transaction_type: t.transaction_type,
            })
        } else {
            Ok(AccountView {
                available: a.available + m,
                ledger: a.ledger.insert(t.transaction_id, m),
                ..a
            })
        },
    }
}

/// What a withdrawal does: a non-negative amount within `available` shrinks
/// `available`; the ledger never records withdrawals, so they can never be
/// disputed.
pub open spec fn spec_withdrawal(a: AccountView, t: Transaction) -> Result<
    AccountView,
    AccountError,
> {
    match event_amount(t) {
        None => Err(AccountError::AmountRequired {
            account_id: t.account_id,
            transaction_id: t.transaction_id,
            transaction_type: t.transaction_type,
        }),
        Some(m) => if m < 0 {
            Err(AccountError::NegativeAmount {
                account_id: t.account_id,
                transaction_id: t.transaction_id,
                transaction_type: t.transaction_type,
            })
        } else if a.available < m {
            Err(AccountError::InsufficientFunds {
                account_id: t.account_id,
                transaction_id: t.transaction_id,
                transaction_type: t.transaction_type,
            })
        } else if !(i64::MIN <= a.available - m <= i64::MAX) {
            Err(AccountError::Overflow {
                account_id: t.account_id,
                transaction_id: t.transaction_id,
                transaction_type: t.transaction_type,
            })
        } else {
            Ok(AccountView { available: a.available - m, ..a })
        },
    }
}

/// What a dispute does: a first dispute of a recorded deposit moves that
/// deposit's amount from `available` to `held`; a repeated dispute, or one
/// of an id the ledger does not hold, is rejected.
pub open spec fn spec_dispute(a: AccountView, t: Transaction) -> Result<AccountView, AccountError> {
    if a.disputes.contains_key(t.transaction_id) {
        Err(AccountError::DuplicateDispute {
            account_id: t.account_id,
            transaction_id: t.transaction_id,
            transaction_type: t.transaction_type,
        })
    } else if !a.ledger.contains_key(t.transaction_id) {
        Err(AccountError::TransactionNotFound {
            account_id: t.account_id,
            transaction_id: t.transaction_id,
            transaction_type: t.transaction_type,
        })
    } else {
        let m = a.ledger[t.transaction_id];
        if !(i64::MIN <= a.available - m <= i64::MAX) || !(i64::MIN <= a.held + m <= i64::MAX) {
            Err(AccountError::Overflow {
                account_id: t.account_id,
                transaction_id: t.transaction_id,
                transaction_type: t.transaction_type,
            })
        } else {
            Ok(AccountView {
                available: a.available - m,
                held: a.held + m,
                disputes: a.disputes.insert(t.transaction_id, DisputeStatus::InProgress),
                ..a
            })
        }
    }
}

/// What a resolve does: it settles a dispute that is in progress and moves
/// the funds back from `held` to `available`.
pub open spec fn spec_resolve(a: AccountView, t: Transaction) -> Result<AccountView, AccountError> {
    if !a.disputes.contains_key(t.transaction_id) {
        Err(AccountError::DisputeNotFound {
            account_id: t.account_id,
            transaction_id: t.transaction_id,
            transaction_type: t.transaction_type,
        })
    } else if a.disputes[t.transaction_id] != DisputeStatus::InProgress {
        Err(AccountError::DisputeNotInProgress {
            account_id: t.account_id,
            transaction_id: t.transaction_id,
            transaction_type: t.transaction_type,
        })
    } else if !a.ledger.contains_key(t.transaction_id) {
        Err(AccountError::TransactionNotFound {
            account_id: t.account_id,
            transaction_id: t.transaction_id,
            transaction_type: t.transaction_type,
        })
    } else {
        let m = a.ledger[t.transaction_id];
        if !(i64::MIN <= a.available + m <= i64::MAX) || !(i64::MIN <= a.held - m <= i64::MAX) {
            Err(AccountError::Overflow {
                account_id: t.account_id,
                transaction_id: t.transaction_id,
                transaction_type: t.transaction_type,
            })
        } else {
            Ok(AccountView {
                available: a.available + m,
                held: a.held - m,
                disputes: a.disputes.insert(t.transaction_id, DisputeStatus::Resolved),
                ..a
            })
        }
    }
}

/// What a chargeback does: it settles a dispute that is in progress, takes
/// the held funds out of the account for good, and freezes the account.
pub open spec fn spec_chargeback(a: AccountView, t: Transaction) -> Result<
    AccountView,
    AccountError,
> {
    if !a.disputes.contains_key(t.transaction_id) {
        Err(AccountError::DisputeNotFound {
            account_id: t.account_id,
            transaction_id: t.transaction_id,
            transaction_type: t.transaction_type,
        })
    } else if a.disputes[t.transaction_id] != DisputeStatus::InProgress {
        Err(AccountError::DisputeNotInProgress {
            account_id: t.account_id,
            transaction_id: t.transaction_id,
            transaction_type: t.transaction_type,
        })
    } else if !a.ledger.contains_key(t.transaction_id) {
        Err(AccountError::TransactionNotFound {
            account_id: t.account_id,
            transaction_id: t.transaction_id,
            transaction_type: t.transaction_type,
        })
    } else {
        let m = a.ledger[t.transaction_id];
        if !(i64::MIN <= a.held - m <= i64::MAX) {
            Err(AccountError::Overflow {
                account_id: t.account_id,
                transaction_id: t.transaction_id,
                transaction_type: t.transaction_type,
            })
        } else {
            Ok(AccountView {
                held: a.held - m,
                locked: true,
                disputes: a.disputes.insert(t.transaction_id, DisputeStatus::Chargeback),
                ..a
            })
        }
    }
}

/// The whole transition function of one account: a frozen account rejects
/// everything, otherwise the event's kind decides.
pub open spec fn spec_apply(a: AccountView, t: Transaction) -> Result<AccountView, AccountError> {
    if a.locked {
        Err(AccountError::AccountLocked { account_id: t.account_id })
    } else {
        match t.transaction_type {
            TransactionType::Deposit => spec_deposit(a, t),
            TransactionType::Withdrawal => spec_withdrawal(a, t),
            TransactionType::Dispute => spec_dispute(a, t),
            TransactionType::Resolve => spec_resolve(a, t),
            TransactionType::Chargeback => spec_chargeback(a, t),
        }
    }
}

/// One worker step: an accepted event transforms the account, a rejected
/// one is logged by the worker and changes nothing.
pub open spec fn spec_step(a: AccountView, t: Transaction) -> AccountView {
    match spec_apply(a, t) {
        Ok(b) => b,
        Err(_) => a,
    }
}

/// A worker's whole run: the events of its inbox applied in arrival order,
/// rejected ones dropped.
pub open spec fn spec_run(a: AccountView, ts: Seq<Transaction>) -> AccountView
    decreases ts.len(),
{
    if ts.len() == 0 {
        a
    } else {
        spec_run(spec_step(a, ts[0]), ts.drop_first())
    }
}

/// The fresh account of a client.
pub open spec fn spec_new_account(account_id: AccountId) -> AccountView {
    AccountView {
        account_id,
        available: 0,
        held: 0,
        locked: false,
        ledger: Map::empty(),
        disputes: Map::empty(),
    }
}

/// Inserting into a ledger and then reading it as integers is reading it
/// as integers and then inserting the integer amount.
proof fn lemma_ledger_view_insert(m: Map<TransactionId, Monetary>, k: TransactionId, v: Monetary)
    ensures
        ledger_view(m.insert(k, v)) == ledger_view(m).insert(k, v@),
{
    assert(ledger_view(m.insert(k, v)) =~= ledger_view(m).insert(k, v@));
}

/// The balances of every account value lie in the signed 64-bit range of
/// ten-thousandths: they are stored as [`Monetary`] amounts.
pub broadcast proof fn lemma_account_balances_in_range(account: Account)
    ensures
        i64::MIN <= (#[trigger] account@).available <= i64::MAX,
        i64::MIN <= account@.held <= i64::MAX,
{
}

/// The state of a single client account.
#[derive(Debug, Clone)]
pub struct Account {
    /// The client this account belongs to.
    pub account_id: AccountId,
    /// Funds at the client's disposal.
    pub available: Monetary,
    /// Funds held back by disputes in progress.
    pub held: Monetary,
    /// Whether a chargeback froze the account.
    pub locked: bool,
    /// Every accepted deposit, by transaction id.
    ledger: HashMap<TransactionId, Monetary>,
    /// Every dispute ever raised, by the disputed deposit's id.
    disputes: HashMap<TransactionId, DisputeStatus>,
}

impl View for Account {
    type V = AccountView;

    closed spec fn view(&self) -> AccountView {
        AccountView {
            account_id: self.account_id,
            available: self.available@,
            held: self.held@,
            locked: self.locked,
            ledger: ledger_view(self.ledger@),
            disputes: self.disputes@,
        }
    }
}

impl Account {
    /// Creates the empty, unlocked account of the given client.
    pub fn new(account_id: AccountId) -> (r: Self)
        ensures
            r@ == spec_new_account(account_id),
    {
        let r = Account {
            account_id,
            available: Monetary::new(),
            held: Monetary::new(),
            locked: false,
            ledger: HashMap::new(),
            disputes: HashMap::new(),
        };
        proof {
            assert(ledger_view(r.ledger@) =~= Map::<TransactionId, int>::empty());
            assert(r.disputes@ =~= Map::<TransactionId, DisputeStatus>::empty());
            assert(r@ =~= spec_new_account(account_id));
        }
        r
    }

    /// The total funds of the account: available plus held, whenever that
    /// sum is representable; past the representable range the available
    /// part alone is returned, and the sum is not silently wrapped.
    pub fn total(&self) -> (r: Monetary)
        ensures
            i64::MIN <= self@.available + self@.held <= i64::MAX ==> r@ == self@.available
                + self@.held,
            !(i64::MIN <= self@.available + self@.held <= i64::MAX) ==> r@ == self@.available,
    {
        match self.available.checked_add(self.held) {
            Some(total) => total,
            None => self.available,
        }
    }

    /// Looks the referenced deposit up in the ledger.
    fn get_deposit(&self, transaction: &Transaction) -> (r: Result<Monetary, AccountError>)
        ensures
            match r {
                Ok(m) => self@.ledger.contains_key(transaction.transaction_id) && m@
                    == self@.ledger[transaction.transaction_id],
                Err(e) => !self@.ledger.contains_key(transaction.transaction_id) && e
                    == (AccountError::TransactionNotFound {
                    account_id: transaction.account_id,
                    transaction_id: transaction.transaction_id,
                    transaction_type: transaction.transaction_type,
                }),
            },
    {
        match self.ledger.get(&transaction.transaction_id) {
            Some(amount) => Ok(*amount),
            None => Err(AccountError::transaction_not_found(transaction)),
        }
    }

    /// Requires the referenced dispute to exist and to be in progress.
    fn check_dispute_in_progress(&self, transaction: &Transaction) -> (r: Result<(), AccountError>)
        ensures
            match r {
                Ok(_) => self@.disputes.contains_key(transaction.transaction_id)
                    && self@.disputes[transaction.transaction_id] == DisputeStatus::InProgress,
                Err(e) => if !self@.disputes.contains_key(transaction.transaction_id) {
                    e == (AccountError::DisputeNotFound {
                        account_id: transaction.account_id,
                        transaction_id: transaction.transaction_id,
                        transaction_type: transaction.transaction_type,
                    })
                } else {
                    self@.disputes[transaction.transaction_id] != DisputeStatus::InProgress && e
                        == (AccountError::DisputeNotInProgress {
                        account_id: transaction.account_id,
                        transaction_id: transaction.transaction_id,
                        transaction_type: transaction.transaction_type,
                    })
                },
            },
    {
        let status = match self.disputes.get(&transaction.transaction_id) {
            Some(status) => *status,
            None => {
                return Err(AccountError::dispute_not_found(transaction));
            },
        };
        if status != DisputeStatus::InProgress {
            return Err(AccountError::dispute_not_in_progress(transaction));
        }
        Ok(())
    }

    /// Applies a deposit, as [`spec_deposit`] tells it.
    fn deposit(&mut self, transaction: &Transaction) -> (r: Result<(), AccountError>)
        ensures
            match r {
                Ok(_) => spec_deposit(old(self)@, *transaction) == Ok::<AccountView, AccountError>(
                    final(self)@,
                ),
                Err(e) => spec_deposit(old(self)@, *transaction) == Err::<AccountView, AccountError>(
                    e,
                ) && final(self)@ == old(self)@,
            },
    {
        let amount = match transaction.amount {
            Some(amount) => amount,
            None => {
                return Err(AccountError::amount_required(transaction));
            },
        };
        if amount.is_negative() {
            return Err(AccountError::negative_amount(transaction));
        }
        if self.ledger.contains_key(&transaction.transaction_id) {
            return Err(AccountError::duplicate_transaction(transaction));
        }
        let available = match self.available.checked_add(amount) {
            Some(available) => available,
            None => {
                return Err(AccountError::overflow(transaction));
            },
        };
        self.available = available;
        self.ledger.insert(transaction.transaction_id, amount);
        proof {
            lemma_ledger_view_insert(old(self).ledger@, transaction.transaction_id, amount);
            assert(final(self)@ =~= spec_deposit(old(self)@, *transaction)->Ok_0);
        }
        Ok(())
    }

    /// Applies a withdrawal, as [`spec_withdrawal`] tells it.
    fn withdrawal(&mut self, transaction: &Transaction) -> (r: Result<(), AccountError>)
        ensures
            match r {
                Ok(_) => spec_withdrawal(old(self)@, *transaction) == Ok::<
                    AccountView,
                    AccountError,
                >(final(self)@),
                Err(e) => spec_withdrawal(old(self)@, *transaction) == Err::<
                    AccountView,
                    AccountError,
                >(e) && final(self)@ == old(self)@,
            },
    {
        let amount = match transaction.amount {
            Some(amount) => amount,
            None => {
                return Err(AccountError::amount_required(transaction));
            },
        };
        if amount.is_negative() {
            return Err(AccountError::negative_amount(transaction));
        }
        if self.available.lt(&amount) {
            return Err(AccountError::insufficient_funds(transaction));
        }
        let available = match self.available.checked_sub(amount) {
            Some(available) => available,
            None => {
                return Err(AccountError::overflow(transaction));
            },
        };
        self.available = available;
        proof {
            assert(final(self)@ =~= spec_withdrawal(old(self)@, *transaction)->Ok_0);
        }
        Ok(())
    }

    /// Applies a dispute, as [`spec_dispute`] tells it.
    fn dispute(&mut self, transaction: &Transaction) -> (r: Result<(), AccountError>)
        ensures
            match r {
                Ok(_) => spec_dispute(old(self)@, *transaction) == Ok::<AccountView, AccountError>(
                    final(self)@,
                ),
                Err(e) => spec_dispute(old(self)@, *transaction) == Err::<AccountView, AccountError>(
                    e,
                ) && final(self)@ == old(self)@,
            },
    {
        if self.disputes.contains_key(&transaction.transaction_id) {
            return Err(AccountError::duplicate_dispute(transaction));
        }
        let amount = match self.get_deposit(transaction) {
            Ok(amount) => amount,
            Err(e) => {
                return Err(e);
            },
        };
        let available = match self.available.checked_sub(amount) {
            Some(available) => available,
            None => {
                return Err(AccountError::overflow(transaction));
            },
        };
        let held = match self.held.checked_add(amount) {
            Some(held) => held,
            None => {
                return Err(AccountError::overflow(transaction));
            },
        };
        self.available = available;
        self.held = held;
        self.disputes.insert(transaction.transaction_id, DisputeStatus::InProgress);
        proof {
            assert(final(self)@ =~= spec_dispute(old(self)@, *transaction)->Ok_0);
        }
        Ok(())
    }

    /// Applies a resolve, as [`spec_resolve`] tells it.
    fn resolve(&mut self, transaction: &Transaction) -> (r: Result<(), AccountError>)
        ensures
            match r {
                Ok(_) => spec_resolve(old(self)@, *transaction) == Ok::<AccountView, AccountError>(
                    final(self)@,
                ),
                Err(e) => spec_resolve(old(self)@, *transaction) == Err::<AccountView, AccountError>(
                    e,
                ) && final(self)@ == old(self)@,
            },
    {
        match self.check_dispute_in_progress(transaction) {
            Ok(_) => {},
            Err(e) => {
                return Err(e);
            },
        }
        let amount = match self.get_deposit(transaction) {
            Ok(amount) => amount,
            Err(e) => {
                return Err(e);
            },
        };
        let available = match self.available.checked_add(amount) {
            Some(available) => available,
            None => {
                return Err(AccountError::overflow(transaction));
            },
        };
        let held = match self.held.checked_sub(amount) {
            Some(held) => held,
            None => {
                return Err(AccountError::overflow(transaction));
            },
        };
        self.available = available;
        self.held = held;
        self.disputes.insert(transaction.transaction_id, DisputeStatus::Resolved);
        proof {
            assert(final(self)@ =~= spec_resolve(old(self)@, *transaction)->Ok_0);
        }
        Ok(())
    }

    /// Applies a chargeback, as [`spec_chargeback`] tells it.
    fn chargeback(&mut self, transaction: &Transaction) -> (r: Result<(), AccountError>)
        ensures
            match r {
                Ok(_) => spec_chargeback(old(self)@, *transaction) == Ok::<
                    AccountView,
                    AccountError,
                >(final(self)@),
                Err(e) => spec_chargeback(old(self)@, *transaction) == Err::<
                    AccountView,
                    AccountError,
                >(e) && final(self)@ == old(self)@,
            },
    {
        match self.check_dispute_in_progress(transaction) {
            Ok(_) => {},
            Err(e) => {
                return Err(e);
            },
        }
        let amount = match self.get_deposit(transaction) {
            Ok(amount) => amount,
            Err(e) => {
                return Err(e);
            },
        };
        let held = match self.held.checked_sub(amount) {
            Some(held) => held,
            None => {
                return Err(AccountError::overflow(transaction));
            },
        };
        self.held = held;
        self.locked = true;
        self.disputes.insert(transaction.transaction_id, DisputeStatus::Chargeback);
        proof {
            assert(final(self)@ =~= spec_chargeback(old(self)@, *transaction)->Ok_0);
        }
        Ok(())
    }

    /// Applies a single event to the account, exactly as [`spec_apply`]
    /// tells it.  An accepted event transforms the account into the state
    /// the transition function names; a rejected event returns the error
    /// the transition function names and changes nothing.
    pub fn apply(&mut self, transaction: &Transaction) -> (r: Result<(), AccountError>)
        ensures
            match r {
                Ok(_) => spec_apply(old(self)@, *transaction) == Ok::<AccountView, AccountError>(
                    final(self)@,
                ),
                Err(e) => spec_apply(old(self)@, *transaction) == Err::<AccountView, AccountError>(
                    e,
                ) && final(self)@ == old(self)@,
            },
    {
        if self.locked {
            return Err(AccountError::account_locked(transaction));
        }
        match transaction.transaction_type {
            TransactionType::Deposit => self.deposit(transaction),
            TransactionType::Withdrawal => self.withdrawal(transaction),
            TransactionType::Dispute => self.dispute(transaction),
            TransactionType::Resolve => self.resolve(transaction),
            TransactionType::Chargeback => self.chargeback(transaction),
        }
    }
}

} // verus!
