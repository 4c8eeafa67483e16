//! The shared account store.
//!
//! A concurrent map from account id to account state, kept in a
//! [`dashmap::DashMap`].  A worker that comes alive takes its account out
//! of the store and owns it exclusively; when the worker drains its inbox
//! and terminates, it saves the account back.  The store's contents are
//! named by the uninterpreted function [`store_contents`], and every
//! method's contract speaks over that name.

use crate::account::Account;
use crate::AccountId;
use vstd::prelude::*;

verus! {

/// The concurrent hash map the store is built on.
#[verifier::external_type_specification]
#[verifier::external_body]
#[verifier::reject_recursive_types(K)]
#[verifier::reject_recursive_types(V)]
#[verifier::reject_recursive_types(S)]
pub struct ExDashMap<K, V, S>(dashmap::DashMap<K, V, S>);

/// What the store's map holds, keyed by account id.
pub uninterp spec fn store_contents(m: &dashmap::DashMap<AccountId, Account>) -> Map<
    AccountId,
    Account,
>;

/// The store with nothing in it.
pub open spec fn empty_store() -> Map<AccountId, Account> {
    Map::empty()
}

/// Relies on `dashmap::DashMap::new`: the fresh map holds no entry.
#[verifier::external_body]
fn fresh_map() -> (r: dashmap::DashMap<AccountId, Account>)
    ensures
        store_contents(&r) == empty_store(),
{
    dashmap::DashMap::new()
}

/// Relies on `dashmap::DashMap::remove`: it takes the keyed entry out of
/// the map and hands it back, or leaves the map alone when the key is
/// absent.
#[verifier::external_body]
fn remove_entry(m: &mut dashmap::DashMap<AccountId, Account>, account_id: AccountId) -> (r: Option<
    Account,
>)
    ensures
        match r {
            Some(account) => store_contents(old(m)).contains_key(account_id) && account
                == store_contents(old(m))[account_id] && store_contents(final(m)) == store_contents(
                old(m),
            ).remove(account_id),
            None => !store_contents(old(m)).contains_key(account_id) && store_contents(final(m))
                == store_contents(old(m)),
        },
{
    m.remove(&account_id).map(|(_, account)| account)
}

/// Relies on `dashmap::DashMap::insert`: it maps the key to the given
/// value, replacing any entry the key had.
#[verifier::external_body]
fn insert_entry(m: &mut dashmap::DashMap<AccountId, Account>, account_id: AccountId, account: Account)
    ensures
        store_contents(final(m)) == store_contents(old(m)).insert(account_id, account),
{
    m.insert(account_id, account);
}

/// Relies on `dashmap::DashMap::iter`: the iterator yields each entry of
/// the map exactly once, in no promised order.
#[verifier::external_body]
fn collect_entries(m: &dashmap::DashMap<AccountId, Account>) -> (r: Vec<(AccountId, Account)>)
    ensures
        r@.len() == store_contents(m).dom().len(),
        forall|i: int|
            0 <= i < r@.len() ==> store_contents(m).contains_key(#[trigger] r@[i].0) && r@[i].1
                == store_contents(m)[r@[i].0],
        forall|i: int, j: int| 0 <= i < j < r@.len() ==> r@[i].0 != r@[j].0,
        forall|k: AccountId|
            store_contents(m).contains_key(k) ==> exists|i: int|
                0 <= i < r@.len() && (#[trigger] r@[i]).0 == k,
{
    m.iter().map(|entry| (*entry.key(), entry.value().clone())).collect()
}

/// What the workers need of a store: taking an account out and putting one
/// back, each all-or-nothing on the keyed entry.
pub trait Storage {
    /// The accounts the store currently holds.
    spec fn contents(&self) -> Map<AccountId, Account>;

    /// Takes the account of `account_id` out of the store, if the store
    /// holds one; the caller owns it until it saves it back.
    fn load(&mut self, account_id: AccountId) -> (r: Option<Account>)
        ensures
            match r {
                Some(account) => old(self).contents().contains_key(account_id) && account == old(
                    self,
                ).contents()[account_id] && final(self).contents() == old(
                    self,
                ).contents().remove(account_id),
                None => !old(self).contents().contains_key(account_id) && final(self).contents()
                    == old(self).contents(),
            },
    ;

    /// Saves `account` under `account_id`, replacing any entry there.
    fn save(&mut self, account_id: AccountId, account: Account)
        ensures
            final(self).contents() == old(self).contents().insert(account_id, account),
    ;
}

/// The in-memory store: a sharded concurrent map.
pub struct AccountStorage {
    cache: dashmap::DashMap<AccountId, Account>,
}

impl View for AccountStorage {
    type V = Map<AccountId, Account>;

    closed spec fn view(&self) -> Map<AccountId, Account> {
        store_contents(&self.cache)
    }
}

impl AccountStorage {
    /// An empty store.
    pub fn new() -> (r: Self)
        ensures
            r@ == Map::<AccountId, Account>::empty(),
    {
        AccountStorage { cache: fresh_map() }
    }

    /// Every account the store holds, each exactly once, in whatever order
    /// the shards yield them.
    pub fn iter(&self) -> (r: Vec<(AccountId, Account)>)
        ensures
            r@.len() == self@.dom().len(),
            forall|i: int|
                0 <= i < r@.len() ==> self@.contains_key(#[trigger] r@[i].0) && r@[i].1
                    == self@[r@[i].0],
            forall|i: int, j: int| 0 <= i < j < r@.len() ==> r@[i].0 != r@[j].0,
            forall|k: AccountId|
                self@.contains_key(k) ==> exists|i: int|
                    0 <= i < r@.len() && (#[trigger] r@[i]).0 == k,
    {
        collect_entries(&self.cache)
    }
}

impl Storage for AccountStorage {
    open spec fn contents(&self) -> Map<AccountId, Account> {
        self@
    }

    fn load(&mut self, account_id: AccountId) -> (r: Option<Account>) {
        remove_entry(&mut self.cache, account_id)
    }

    fn save(&mut self, account_id: AccountId, account: Account) {
        insert_entry(&mut self.cache, account_id, account)
    }
}

} // verus!
