//! The laws of the ledger.
//!
//! Each proof function here states one property of the system over the
//! transition function [`spec_apply`] and the folds [`spec_run`] and
//! [`spec_process`] that the executable functions are proved against.

use crate::account::spec_apply;
use crate::account::spec_new_account;
use crate::account::spec_run;
use crate::account::spec_step;
use crate::account::AccountView;
use crate::account::DisputeStatus;
use crate::account::event_amount;
use crate::engine::lemma_run_append;
use crate::engine::stored_view;
use crate::errors::AccountError;
use crate::transaction::Transaction;
use crate::transaction::TransactionType;
use crate::AccountId;
use crate::TransactionId;
use vstd::prelude::*;

verus! {

/// Once locked, an account is final: every further event is rejected as
/// `AccountLocked`, and a run over any sequence of events leaves the
/// account exactly where it is — balances, ledger and disputes included.
pub proof fn lemma_locked_is_final(a: AccountView, ts: Seq<Transaction>)
    requires
        a.locked,
    ensures
        spec_run(a, ts) == a,
        forall|t: Transaction| #[trigger] spec_apply(a, t) == Err::<AccountView, AccountError>(
            AccountError::AccountLocked { account_id: t.account_id },
        ),
    decreases ts.len(),
{
    if ts.len() > 0 {
        assert(spec_step(a, ts[0]) == a);
        lemma_locked_is_final(a, ts.drop_first());
    }
}

/// An accepted deposit is recorded at once: right after the step, the
/// ledger maps the deposit's transaction id to its amount.
pub proof fn lemma_deposit_recorded(a: AccountView, t: Transaction, m: int)
    requires
        t.transaction_type == TransactionType::Deposit,
        event_amount(t) == Some(m),
        spec_apply(a, t) is Ok,
    ensures
        spec_step(a, t).ledger.contains_key(t.transaction_id),
        spec_step(a, t).ledger[t.transaction_id] == m,
{
}

/// The ledger is permanent: an entry, once made, survives every further
/// event with its amount unchanged.  Deposits insert only ids the ledger
/// does not hold yet, and nothing else writes the ledger at all.
pub proof fn lemma_ledger_entry_is_permanent(
    a: AccountView,
    ts: Seq<Transaction>,
    id: TransactionId,
)
    requires
        a.ledger.contains_key(id),
    ensures
        spec_run(a, ts).ledger.contains_key(id),
        spec_run(a, ts).ledger[id] == a.ledger[id],
    decreases ts.len(),
{
    if ts.len() > 0 {
        let b = spec_step(a, ts[0]);
        assert(b.ledger.contains_key(id) && b.ledger[id] == a.ledger[id]);
        lemma_ledger_entry_is_permanent(b, ts.drop_first(), id);
    }
}

/// For every accepted deposit, the ledger maps the deposit's id to the
/// deposited amount from that step on, whatever else follows.
pub proof fn lemma_deposit_amount_on_record(
    a: AccountView,
    t: Transaction,
    m: int,
    ts: Seq<Transaction>,
)
    requires
        t.transaction_type == TransactionType::Deposit,
        event_amount(t) == Some(m),
        spec_apply(a, t) is Ok,
    ensures
        spec_run(spec_step(a, t), ts).ledger.contains_key(t.transaction_id),
        spec_run(spec_step(a, t), ts).ledger[t.transaction_id] == m,
{
    lemma_deposit_recorded(a, t, m);
    lemma_ledger_entry_is_permanent(spec_step(a, t), ts, t.transaction_id);
}

/// A resolve or chargeback is a no-op unless the dispute it names is in
/// progress at that very moment: it is rejected, and the account does not
/// change.
pub proof fn lemma_settle_needs_open_dispute(a: AccountView, t: Transaction)
    requires
        t.transaction_type == TransactionType::Resolve || t.transaction_type
            == TransactionType::Chargeback,
        !(a.disputes.contains_key(t.transaction_id) && a.disputes[t.transaction_id]
            == DisputeStatus::InProgress),
    ensures
        spec_apply(a, t) is Err,
        spec_step(a, t) == a,
{
}

/// Whether the event at position `k` of a run from `a` is accepted.
pub open spec fn accepted_at(a: AccountView, ts: Seq<Transaction>, k: int) -> bool {
    spec_apply(spec_run(a, ts.take(k)), ts[k]) is Ok
}

/// A dispute that stands in progress after a run was opened during that
/// run by an accepted dispute event, and no later resolve or chargeback of
/// the same id was accepted: settling is possible only right after the
/// dispute, with nothing in between that settles it.
pub proof fn lemma_open_dispute_was_opened(a: AccountView, ts: Seq<Transaction>, id: TransactionId)
    requires
        !(a.disputes.contains_key(id) && a.disputes[id] == DisputeStatus::InProgress),
        spec_run(a, ts).disputes.contains_key(id),
        spec_run(a, ts).disputes[id] == DisputeStatus::InProgress,
    ensures
        exists|j: int|
            {
                &&& 0 <= j < ts.len()
                &&& (#[trigger] ts[j]).transaction_type == TransactionType::Dispute
                &&& ts[j].transaction_id == id
                &&& accepted_at(a, ts, j)
                &&& forall|k: int|
                    j < k < ts.len() ==> !((#[trigger] ts[k]).transaction_id == id
                        && (ts[k].transaction_type == TransactionType::Resolve
                        || ts[k].transaction_type == TransactionType::Chargeback)
                        && accepted_at(a, ts, k))
            },
    decreases ts.len(),
{
    let n = ts.len() as int;
    let front = ts.take(n - 1);
    let t = ts[n - 1];
    let b = spec_run(a, front);
    assert(ts =~= front.push(t));
    crate::engine::lemma_run_snoc(a, front, t);
    assert(spec_run(a, ts) == spec_step(b, t));
    if t.transaction_type == TransactionType::Dispute && t.transaction_id == id && spec_apply(
        b,
        t,
    ) is Ok {
        let j = n - 1;
        assert(front =~= ts.take(j));
        assert(accepted_at(a, ts, j));
    } else {
        assert(b.disputes.contains_key(id) && b.disputes[id] == DisputeStatus::InProgress);
        lemma_open_dispute_was_opened(a, front, id);
        let j = choose|j: int|
            {
                &&& 0 <= j < front.len()
                &&& (#[trigger] front[j]).transaction_type == TransactionType::Dispute
                &&& front[j].transaction_id == id
                &&& accepted_at(a, front, j)
                &&& forall|k: int|
                    j < k < front.len() ==> !((#[trigger] front[k]).transaction_id == id
                        && (front[k].transaction_type == TransactionType::Resolve
                        || front[k].transaction_type == TransactionType::Chargeback)
                        && accepted_at(a, front, k))
            };
        assert(ts.take(j) =~= front.take(j));
        assert(ts[j] == front[j]);
        assert(accepted_at(a, ts, j));
        assert forall|k: int|
            j < k < n implies !((#[trigger] ts[k]).transaction_id == id && (ts[k].transaction_type
            == TransactionType::Resolve || ts[k].transaction_type == TransactionType::Chargeback)
            && accepted_at(a, ts, k)) by {
            if k < n - 1 {
                assert(ts[k] == front[k]);
                assert(ts.take(k) =~= front.take(k));
            } else {
                assert(k == n - 1);
                assert(ts[k] == t);
                if t.transaction_id == id && (t.transaction_type == TransactionType::Resolve
                    || t.transaction_type == TransactionType::Chargeback) && spec_apply(b, t) is Ok {
                    assert(spec_step(b, t).disputes[id] != DisputeStatus::InProgress);
                }
                assert(ts.take(k) =~= front);
            }
        }
    }
}

/// Every dispute on record points at a ledger entry.
pub open spec fn disputes_cover_ledger(a: AccountView) -> bool {
    forall|id: TransactionId|
        #[trigger] a.disputes.contains_key(id) ==> a.ledger.contains_key(id)
}

/// The covering of disputes by the ledger survives every run.
pub proof fn lemma_disputes_stay_covered(a: AccountView, ts: Seq<Transaction>)
    requires
        disputes_cover_ledger(a),
    ensures
        disputes_cover_ledger(spec_run(a, ts)),
    decreases ts.len(),
{
    if ts.len() > 0 {
        let b = spec_step(a, ts[0]);
        assert(disputes_cover_ledger(b));
        lemma_disputes_stay_covered(b, ts.drop_first());
    }
}

/// Ledger entries come from deposits alone: an id that no deposit of the
/// run carries is absent from the ledger afterwards if it was absent
/// before.
pub proof fn lemma_ledger_keys_come_from_deposits(
    a: AccountView,
    ts: Seq<Transaction>,
    id: TransactionId,
)
    requires
        !a.ledger.contains_key(id),
        forall|j: int|
            0 <= j < ts.len() ==> !((#[trigger] ts[j]).transaction_type
                == TransactionType::Deposit && ts[j].transaction_id == id),
    ensures
        !spec_run(a, ts).ledger.contains_key(id),
    decreases ts.len(),
{
    if ts.len() > 0 {
        let b = spec_step(a, ts[0]);
        assert(!b.ledger.contains_key(id));
        lemma_ledger_keys_come_from_deposits(b, ts.drop_first(), id);
    }
}

/// Disputing an id that only a withdrawal ever carried never succeeds:
/// with transaction ids globally unique across deposits and withdrawals,
/// an account that saw no deposit under the id rejects the dispute as
/// `TransactionNotFound` — or as `AccountLocked` when a chargeback froze
/// it first — whatever else came before.
pub proof fn lemma_dispute_of_withdrawal_fails(
    account_id: AccountId,
    ts: Seq<Transaction>,
    t: Transaction,
)
    requires
        t.transaction_type == TransactionType::Dispute,
        forall|j: int|
            0 <= j < ts.len() ==> !((#[trigger] ts[j]).transaction_type
                == TransactionType::Deposit && ts[j].transaction_id == t.transaction_id),
    ensures
        ({
            let a = spec_run(spec_new_account(account_id), ts);
            spec_apply(a, t) == if a.locked {
                Err::<AccountView, AccountError>(AccountError::AccountLocked {
                    account_id: t.account_id,
                })
            } else {
                Err::<AccountView, AccountError>(AccountError::TransactionNotFound {
                    account_id: t.account_id,
                    transaction_id: t.transaction_id,
                    transaction_type: t.transaction_type,
                })
            }
        }),
        spec_step(spec_run(spec_new_account(account_id), ts), t) == spec_run(
            spec_new_account(account_id),
            ts,
        ),
{
    let a0 = spec_new_account(account_id);
    lemma_ledger_keys_come_from_deposits(a0, ts, t.transaction_id);
    lemma_disputes_stay_covered(a0, ts);
}

/// Eviction is transparent: a worker evicted after `ts1` saves its
/// account to the store; the worker spawned for the account's next event
/// loads exactly that state and continues with `ts2`.  The store ends as
/// if one never-evicted worker had processed `ts1 + ts2` in one sitting.
pub proof fn lemma_rehydration_transparent(
    store: Map<AccountId, AccountView>,
    account_id: AccountId,
    ts1: Seq<Transaction>,
    ts2: Seq<Transaction>,
)
    ensures
        ({
            let a0 = stored_view(store, account_id);
            let evicted = store.insert(account_id, spec_run(a0, ts1));
            evicted.insert(account_id, spec_run(stored_view(evicted, account_id), ts2))
                == store.insert(account_id, spec_run(a0, ts1 + ts2))
        }),
{
    let a0 = stored_view(store, account_id);
    lemma_run_append(a0, ts1, ts2);
    let evicted = store.insert(account_id, spec_run(a0, ts1));
    assert(stored_view(evicted, account_id) == spec_run(a0, ts1));
    assert(evicted.insert(account_id, spec_run(spec_run(a0, ts1), ts2)) =~= store.insert(
        account_id,
        spec_run(a0, ts1 + ts2),
    ));
}

} // verus!
