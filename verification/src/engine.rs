//! The dispatch engine.
//!
//! The engine partitions the event stream by account id and feeds every
//! account's events, in arrival order, to that account's state machine,
//! loading the account from the store first and saving it back afterwards.
//! [`AsyncEngine::process`] is the engine's whole effect on the store,
//! pinned down by the fold [`spec_process`]; [`run_worker`] is the life of
//! one account worker, from rehydration to its final save.  A concurrent
//! host can run many workers side by side and evict and rehydrate them at
//! will: the laws of [`crate::laws`] show the outcome stays the one these
//! folds name.

use crate::account::spec_new_account;
use crate::account::spec_run;
use crate::account::spec_step;
use crate::account::Account;
use crate::account::AccountView;
use crate::storage::Storage;
use crate::transaction::Transaction;
use crate::AccountId;
use core::time::Duration;
use vstd::prelude::*;

verus! {

/// Relies on `core::time::Duration::from_secs`, which builds the duration
/// of a whole number of seconds; nothing about the value is needed here,
/// the engine only hands the timeout on to its host.
pub assume_specification[ Duration::from_secs ](secs: u64) -> Duration;

/// The accounts of a store, by their mathematical content.
pub open spec fn views_of(store: Map<AccountId, Account>) -> Map<AccountId, AccountView> {
    store.map_values(|a: Account| a@)
}

/// The state a worker for `account_id` starts from: the stored account,
/// or a fresh one on the first event ever seen for that client.
pub open spec fn stored_view(store: Map<AccountId, AccountView>, account_id: AccountId) -> AccountView {
    if store.contains_key(account_id) {
        store[account_id]
    } else {
        spec_new_account(account_id)
    }
}

/// The events of one account, in stream order.
pub open spec fn events_for(ts: Seq<Transaction>, account_id: AccountId) -> Seq<Transaction>
    decreases ts.len(),
{
    if ts.len() == 0 {
        Seq::empty()
    } else {
        let rest = events_for(ts.drop_first(), account_id);
        if ts[0].account_id == account_id {
            seq![ts[0]] + rest
        } else {
            rest
        }
    }
}

/// What dispatching one event does to the store: the addressed account is
/// rehydrated or freshly created, takes the event, and stands in the store
/// again.
pub open spec fn spec_dispatch(store: Map<AccountId, AccountView>, t: Transaction) -> Map<
    AccountId,
    AccountView,
> {
    store.insert(t.account_id, spec_step(stored_view(store, t.account_id), t))
}

/// What dispatching a whole stream does to the store, event by event.
pub open spec fn spec_process(store: Map<AccountId, AccountView>, ts: Seq<Transaction>) -> Map<
    AccountId,
    AccountView,
>
    decreases ts.len(),
{
    if ts.len() == 0 {
        store
    } else {
        spec_process(spec_dispatch(store, ts[0]), ts.drop_first())
    }
}

// ---------------------------------------------------------------------------
// How the folds compose.
// ---------------------------------------------------------------------------

/// Running a worker over two inboxes in a row is running it over their
/// concatenation.
pub proof fn lemma_run_append(a: AccountView, ts1: Seq<Transaction>, ts2: Seq<Transaction>)
    ensures
        spec_run(a, ts1 + ts2) == spec_run(spec_run(a, ts1), ts2),
    decreases ts1.len(),
{
    if ts1.len() == 0 {
        assert(ts1 + ts2 =~= ts2);
    } else {
        assert((ts1 + ts2)[0] == ts1[0]);
        assert((ts1 + ts2).drop_first() =~= ts1.drop_first() + ts2);
        lemma_run_append(spec_step(a, ts1[0]), ts1.drop_first(), ts2);
    }
}

/// One more event at the end of an inbox is one more step after the run.
pub proof fn lemma_run_snoc(a: AccountView, ts: Seq<Transaction>, t: Transaction)
    ensures
        spec_run(a, ts.push(t)) == spec_step(spec_run(a, ts), t),
{
    assert(ts.push(t) =~= ts + seq![t]);
    lemma_run_append(a, ts, seq![t]);
    let b = spec_run(a, ts);
    assert(seq![t][0] == t);
    assert(seq![t].drop_first() =~= Seq::<Transaction>::empty());
    assert(spec_run(b, seq![t]) == spec_run(spec_step(b, t), Seq::<Transaction>::empty()));
    assert(spec_run(spec_step(b, t), Seq::<Transaction>::empty()) == spec_step(b, t));
}

/// One more event at the end of a stream is one more dispatch after the
/// fold.
proof fn lemma_process_snoc(store: Map<AccountId, AccountView>, ts: Seq<Transaction>, t: Transaction)
    ensures
        spec_process(store, ts.push(t)) == spec_dispatch(spec_process(store, ts), t),
    decreases ts.len(),
{
    if ts.len() == 0 {
        assert(ts.push(t)[0] == t);
        assert(ts.push(t).drop_first() =~= Seq::<Transaction>::empty());
        assert(spec_process(store, ts.push(t)) == spec_process(
            spec_dispatch(store, t),
            Seq::<Transaction>::empty(),
        ));
        assert(spec_process(spec_dispatch(store, t), Seq::<Transaction>::empty())
            == spec_dispatch(store, t));
    } else {
        assert(ts.push(t)[0] == ts[0]);
        assert(ts.push(t).drop_first() =~= ts.drop_first().push(t));
        lemma_process_snoc(spec_dispatch(store, ts[0]), ts.drop_first(), t);
    }
}

/// What the whole stream leaves in the store, read one account at a time:
/// an account stands in the processed store exactly when it was there
/// before or the stream addresses it, and what stands there is its own
/// events run over its own starting state.  Accounts influence one another
/// in no way.
pub proof fn lemma_process_per_account(
    store: Map<AccountId, AccountView>,
    ts: Seq<Transaction>,
    account_id: AccountId,
)
    ensures
        spec_process(store, ts).contains_key(account_id) == (store.contains_key(account_id)
            || events_for(ts, account_id).len() > 0),
        spec_process(store, ts).contains_key(account_id) ==> spec_process(store, ts)[account_id]
            == spec_run(stored_view(store, account_id), events_for(ts, account_id)),
    decreases ts.len(),
{
    if ts.len() == 0 {
    } else {
        let t = ts[0];
        let rest = ts.drop_first();
        let next = spec_dispatch(store, t);
        lemma_process_per_account(next, rest, account_id);
        if t.account_id == account_id {
            let a0 = stored_view(store, account_id);
            let run = seq![t] + events_for(rest, account_id);
            assert(events_for(ts, account_id) == run);
            assert(run[0] == t);
            assert(run.drop_first() =~= events_for(rest, account_id));
            assert(spec_run(a0, run) == spec_run(spec_step(a0, t), events_for(rest, account_id)));
            assert(stored_view(next, account_id) == spec_step(a0, t));
        } else {
            assert(events_for(ts, account_id) == events_for(rest, account_id));
            assert(next.contains_key(account_id) == store.contains_key(account_id));
            assert(stored_view(next, account_id) == stored_view(store, account_id));
        }
    }
}

/// Storing an account and reading the store as views commute.
proof fn lemma_views_of_insert(store: Map<AccountId, Account>, account_id: AccountId, a: Account)
    ensures
        views_of(store.insert(account_id, a)) == views_of(store).insert(account_id, a@),
{
    assert(views_of(store.insert(account_id, a)) =~= views_of(store).insert(account_id, a@));
}

/// Taking an account out and reading the store as views commute.
proof fn lemma_views_of_remove(store: Map<AccountId, Account>, account_id: AccountId)
    ensures
        views_of(store.remove(account_id)) == views_of(store).remove(account_id),
{
    assert(views_of(store.remove(account_id)) =~= views_of(store).remove(account_id));
}

// ---------------------------------------------------------------------------
// The worker and the engine.
// ---------------------------------------------------------------------------

/// The life of one account worker: it takes its account out of the store —
/// or begins a fresh one — applies every event of its inbox in arrival
/// order, logs and drops the rejected ones, and saves the account back
/// when the inbox is closed.  The order of `events` is the order the
/// dispatcher forwarded them in; the run folds over exactly that order.
#[verifier::loop_isolation(false)]
pub fn run_worker<S: Storage>(storage: &mut S, account_id: AccountId, events: &Vec<Transaction>)
    ensures
        views_of(final(storage).contents()) == views_of(old(storage).contents()).insert(
            account_id,
            spec_run(stored_view(views_of(old(storage).contents()), account_id), events@),
        ),
{
    let mut account = match storage.load(account_id) {
        Some(account) => account,
        None => Account::new(account_id),
    };
    let ghost a0 = stored_view(views_of(old(storage).contents()), account_id);
    proof {
        assert(account@ == a0);
    }
    let mut idx: usize = 0;
    while idx < events.len()
        invariant
            idx <= events@.len(),
            account@ == spec_run(a0, events@.take(idx as int)),
            storage.contents() == old(storage).contents().remove(account_id) || (
            !old(storage).contents().contains_key(account_id) && storage.contents() == old(
                storage,
            ).contents()),
        decreases events@.len() - idx,
    {
        let t = events[idx];
        match account.apply(&t) {
            Ok(_) => {},
            Err(_) => {},
        }
        proof {
            lemma_run_snoc(a0, events@.take(idx as int), t);
            assert(events@.take(idx as int + 1) =~= events@.take(idx as int).push(t));
        }
        idx += 1;
    }
    proof {
        assert(events@.take(events@.len() as int) =~= events@);
    }
    storage.save(account_id, account);
    proof {
        lemma_views_of_insert(old(storage).contents().remove(account_id), account_id, account);
        lemma_views_of_insert(old(storage).contents(), account_id, account);
        lemma_views_of_remove(old(storage).contents(), account_id);
        assert(views_of(old(storage).contents()).remove(account_id).insert(account_id, account@)
            =~= views_of(old(storage).contents()).insert(account_id, account@));
    }
}

/// The transaction processing engine: the store it serves, and the
/// configuration its concurrent host reads.
///
/// `backpressure` bounds the ingest channel, `cache_capacity` bounds how
/// many workers are live at once, and `cache_timeout` is the idle time
/// after which a worker is evicted.  The three only shape scheduling and
/// memory; the store the engine leaves behind is the one
/// [`spec_process`] names, whatever their values.
pub struct AsyncEngine<S: Storage> {
    storage: S,
    backpressure: usize,
    cache_capacity: u64,
    cache_timeout: Duration,
}

impl<S: Storage> AsyncEngine<S> {
    /// The store the engine serves.
    pub closed spec fn spec_storage(&self) -> S {
        self.storage
    }

    /// The bound of the ingest channel.
    pub closed spec fn spec_backpressure(&self) -> usize {
        self.backpressure
    }

    /// The bound of the worker registry.
    pub closed spec fn spec_cache_capacity(&self) -> u64 {
        self.cache_capacity
    }

    /// The idle time after which a worker is evicted.
    pub closed spec fn spec_cache_timeout(&self) -> Duration {
        self.cache_timeout
    }

    /// An engine over `storage` with the default configuration: an ingest
    /// window of 256 events, up to 5000 live workers, and eviction after
    /// five idle minutes.
    pub fn new(storage: S) -> (r: Self)
        ensures
            r.spec_storage() == storage,
            r.spec_backpressure() == 256,
            r.spec_cache_capacity() == 5000,
    {
        Self {
            storage,
            backpressure: 256,
            cache_capacity: 5000,
            cache_timeout: Duration::from_secs(300),
        }
    }

    /// The same engine, bounded to `capacity` live workers.
    pub fn with_cache_capacity(self, capacity: u64) -> (r: Self)
        ensures
            r.spec_storage() == self.spec_storage(),
            r.spec_backpressure() == self.spec_backpressure(),
            r.spec_cache_capacity() == capacity,
            r.spec_cache_timeout() == self.spec_cache_timeout(),
    {
        Self { cache_capacity: capacity, ..self }
    }

    /// The same engine, evicting workers after `timeout` of idleness.
    pub fn with_cache_timeout(self, timeout: Duration) -> (r: Self)
        ensures
            r.spec_storage() == self.spec_storage(),
            r.spec_backpressure() == self.spec_backpressure(),
            r.spec_cache_capacity() == self.spec_cache_capacity(),
            r.spec_cache_timeout() == timeout,
    {
        Self { cache_timeout: timeout, ..self }
    }

    /// Processes a drained stream of events against the store: every event
    /// reaches the account it addresses, in stream order, and the store
    /// ends as [`spec_process`] names it.  This is the engine's whole
    /// observable effect; a concurrent host adds scheduling, backpressure
    /// and eviction, none of which change the outcome.
    #[verifier::loop_isolation(false)]
    pub fn process(&mut self, events: &Vec<Transaction>)
        ensures
            views_of(final(self).spec_storage().contents()) == spec_process(
                views_of(old(self).spec_storage().contents()),
                events@,
            ),
            final(self).spec_backpressure() == old(self).spec_backpressure(),
            final(self).spec_cache_capacity() == old(self).spec_cache_capacity(),
            final(self).spec_cache_timeout() == old(self).spec_cache_timeout(),
    {
        let ghost start = views_of(old(self).spec_storage().contents());
        let mut idx: usize = 0;
        while idx < events.len()
            invariant
                idx <= events@.len(),
                views_of(self.storage.contents()) == spec_process(start, events@.take(idx as int)),
                self.backpressure == old(self).backpressure,
                self.cache_capacity == old(self).cache_capacity,
                self.cache_timeout == old(self).cache_timeout,
            decreases events@.len() - idx,
        {
            let t = events[idx];
            let ghost mid = views_of(self.storage.contents());
            let mut account = match self.storage.load(t.account_id) {
                Some(account) => account,
                None => Account::new(t.account_id),
            };
            match account.apply(&t) {
                Ok(_) => {},
                Err(_) => {},
            }
            self.storage.save(t.account_id, account);
            proof {
                lemma_views_of_remove(old(self).spec_storage().contents(), t.account_id);
                lemma_process_snoc(start, events@.take(idx as int), t);
                assert(events@.take(idx as int + 1) =~= events@.take(idx as int).push(t));
                let held = self.storage.contents();
                lemma_views_of_insert(held.remove(t.account_id), t.account_id, account);
                assert(views_of(self.storage.contents()) =~= spec_dispatch(mid, t));
            }
            idx += 1;
        }
        proof {
            assert(events@.take(events@.len() as int) =~= events@);
        }
    }

    /// The bound of the ingest channel.
    pub fn backpressure(&self) -> (r: usize)
        ensures
            r == self.spec_backpressure(),
    {
        self.backpressure
    }

    /// The bound of the worker registry.
    pub fn cache_capacity(&self) -> (r: u64)
        ensures
            r == self.spec_cache_capacity(),
    {
        self.cache_capacity
    }

    /// The idle time after which a worker is evicted.
    pub fn cache_timeout(&self) -> (r: Duration)
        ensures
            r == self.spec_cache_timeout(),
    {
        self.cache_timeout
    }

    /// A look into the store the engine serves.
    pub fn storage(&self) -> (r: &S)
        ensures
            *r == self.spec_storage(),
    {
        &self.storage
    }

    /// Takes the store back out of the engine.
    pub fn into_storage(self) -> (r: S)
        ensures
            r == self.spec_storage(),
    {
        self.storage
    }
}

} // verus!
