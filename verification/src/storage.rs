//! The registry's storage maps, each held in an `ink_storage` hash map.
//!
//! Each map type the registry uses is an `ink_storage::collections::HashMap`, held in
//! the private field of a struct of this module whose insides the proofs do not see.
//! What a map holds is named by one uninterpreted function per map type, and the
//! wrappers below state what each method they call does to those contents.
//! The maps find keys through `Ord`; the keys are integers, byte arrays and pairs
//! of byte arrays, whose order std documents as numeric and lexicographic, so two
//! keys are the same key exactly when they are equal.
#![allow(unused_imports)]
use vstd::prelude::*;
use crate::account::AccountId;

verus! {

/// An (owner, operator) pair.
pub type OperatorKey = (AccountId, AccountId);

/// Map from token ids to accounts (token owners, token approvals).
#[verifier::external_body]
pub struct TokenAccountMap {
    m: ink_storage::collections::HashMap<u128, AccountId>,
}

/// Map from accounts to token counts (balances).
#[verifier::external_body]
pub struct AccountCountMap {
    m: ink_storage::collections::HashMap<AccountId, u128>,
}

/// Map from (owner, operator) pairs to an operator flag.
#[verifier::external_body]
pub struct OperatorMap {
    m: ink_storage::collections::HashMap<(AccountId, AccountId), bool>,
}

/// Map from token ids to asking prices (offers).
#[verifier::external_body]
pub struct TokenPriceMap {
    m: ink_storage::collections::HashMap<u128, u128>,
}

/// The key/value pairs held by a `TokenAccountMap`.
pub uninterp spec fn token_account_entries(m: TokenAccountMap) -> Map<u128, AccountId>;

/// The key/value pairs held by an `AccountCountMap`.
pub uninterp spec fn account_count_entries(m: AccountCountMap) -> Map<AccountId, u128>;

/// The key/value pairs held by an `OperatorMap`.
pub uninterp spec fn operator_entries(m: OperatorMap) -> Map<(AccountId, AccountId), bool>;

/// The key/value pairs held by a `TokenPriceMap`.
pub uninterp spec fn token_price_entries(m: TokenPriceMap) -> Map<u128, u128>;

/// A storage hash map counts its keys in a `u32`; inserting a new key into a map
/// that already holds `u32::MAX` keys overflows that counter.
pub open spec fn has_room_for<K, V>(m: Map<K, V>, k: K) -> bool {
    m.contains_key(k) || m.len() < u32::MAX
}

/// The value at `k`, if any.
pub open spec fn map_get<K, V>(m: Map<K, V>, k: K) -> Option<V> {
    if m.contains_key(k) {
        Some(m[k])
    } else {
        None
    }
}

impl View for TokenAccountMap {
    type V = Map<u128, AccountId>;

    open spec fn view(&self) -> Map<u128, AccountId> {
        token_account_entries(*self)
    }
}

impl View for AccountCountMap {
    type V = Map<AccountId, u128>;

    open spec fn view(&self) -> Map<AccountId, u128> {
        account_count_entries(*self)
    }
}

impl View for OperatorMap {
    type V = Map<(AccountId, AccountId), bool>;

    open spec fn view(&self) -> Map<(AccountId, AccountId), bool> {
        operator_entries(*self)
    }
}

impl View for TokenPriceMap {
    type V = Map<u128, u128>;

    open spec fn view(&self) -> Map<u128, u128> {
        token_price_entries(*self)
    }
}

impl TokenAccountMap {
    /// Calls `ink_storage::collections::HashMap::len`; claims it returns the number of
    /// keys held, which the map counts in a `u32`.
    #[verifier::external_body]
    pub(crate) fn len(&self) -> (r: u32)
        ensures
            r == token_account_entries(*self).len(),
    {
        self.m.len()
    }

    /// Calls `ink_storage::collections::HashMap::new`; claims the new map holds no keys.
    /// The map gets no storage key, so it lives in its cache and never reads contract storage.
    #[verifier::external_body]
    pub(crate) fn new() -> (r: Self)
        ensures
            token_account_entries(r).dom() == Set::<u128>::empty(),
    {
        TokenAccountMap { m: ink_storage::collections::HashMap::new() }
    }

    /// Calls `ink_storage::collections::HashMap::get`; claims it returns the value held at
    /// `k` (copied out), and `None` where the map holds no `k`.
    #[verifier::external_body]
    pub(crate) fn get(&self, k: u128) -> (r: Option<AccountId>)
        ensures
            r == map_get(token_account_entries(*self), k),
    {
        self.m.get(&k).copied()
    }

    /// Calls `ink_storage::collections::HashMap::insert`; claims the map then holds `v` at `k`
    /// and is otherwise unchanged. A new key increments the map's `u32` key counter, which
    /// overflows at `u32::MAX`; so a new key needs the map to hold fewer keys than that.
    /// The previous value that the call returns is dropped.
    #[verifier::external_body]
    pub(crate) fn insert(&mut self, k: u128, v: AccountId)
        requires
            has_room_for(token_account_entries(*old(self)), k),
        ensures
            token_account_entries(*final(self)) == token_account_entries(*old(self)).insert(k, v),
    {
        self.m.insert(k, v);
    }

    /// Calls `ink_storage::collections::HashMap::take`; claims the map then no longer holds
    /// `k` and is otherwise unchanged, and that it returns the value it held at `k`, if any.
    #[verifier::external_body]
    pub(crate) fn take(&mut self, k: u128) -> (r: Option<AccountId>)
        ensures
            token_account_entries(*final(self)) == token_account_entries(*old(self)).remove(k),
            r == map_get(token_account_entries(*old(self)), k),
    {
        self.m.take(&k)
    }
}

impl AccountCountMap {
    /// Calls `ink_storage::collections::HashMap::len`; claims it returns the number of
    /// keys held, which the map counts in a `u32`.
    #[verifier::external_body]
    pub(crate) fn len(&self) -> (r: u32)
        ensures
            r == account_count_entries(*self).len(),
    {
        self.m.len()
    }

    /// Calls `ink_storage::collections::HashMap::new`; claims the new map holds no keys.
    /// The map gets no storage key, so it lives in its cache and never reads contract storage.
    #[verifier::external_body]
    pub(crate) fn new() -> (r: Self)
        ensures
            account_count_entries(r).dom() == Set::<AccountId>::empty(),
    {
        AccountCountMap { m: ink_storage::collections::HashMap::new() }
    }

    /// Calls `ink_storage::collections::HashMap::get`; claims it returns the value held at
    /// `k` (copied out), and `None` where the map holds no `k`.
    #[verifier::external_body]
    pub(crate) fn get(&self, k: &AccountId) -> (r: Option<u128>)
        ensures
            r == map_get(account_count_entries(*self), *k),
    {
        self.m.get(k).copied()
    }

    /// Calls `ink_storage::collections::HashMap::insert`; claims the map then holds `v` at `k`
    /// and is otherwise unchanged. A new key increments the map's `u32` key counter, which
    /// overflows at `u32::MAX`; so a new key needs the map to hold fewer keys than that.
    /// The previous value that the call returns is dropped.
    #[verifier::external_body]
    pub(crate) fn insert(&mut self, k: AccountId, v: u128)
        requires
            has_room_for(account_count_entries(*old(self)), k),
        ensures
            account_count_entries(*final(self)) == account_count_entries(*old(self)).insert(k, v),
    {
        self.m.insert(k, v);
    }

    /// Calls `ink_storage::collections::HashMap::take`; claims the map then no longer holds
    /// `k` and is otherwise unchanged, and that it returns the value it held at `k`, if any.
    #[verifier::external_body]
    pub(crate) fn take(&mut self, k: &AccountId) -> (r: Option<u128>)
        ensures
            account_count_entries(*final(self)) == account_count_entries(*old(self)).remove(*k),
            r == map_get(account_count_entries(*old(self)), *k),
    {
        self.m.take(k)
    }
}

impl OperatorMap {
    /// Calls `ink_storage::collections::HashMap::len`; claims it returns the number of
    /// keys held, which the map counts in a `u32`.
    #[verifier::external_body]
    pub(crate) fn len(&self) -> (r: u32)
        ensures
            r == operator_entries(*self).len(),
    {
        self.m.len()
    }

    /// Calls `ink_storage::collections::HashMap::new`; claims the new map holds no keys.
    /// The map gets no storage key, so it lives in its cache and never reads contract storage.
    #[verifier::external_body]
    pub(crate) fn new() -> (r: Self)
        ensures
            operator_entries(r).dom() == Set::<OperatorKey>::empty(),
    {
        OperatorMap { m: ink_storage::collections::HashMap::new() }
    }

    /// Calls `ink_storage::collections::HashMap::get`; claims it returns the value held at
    /// `k` (copied out), and `None` where the map holds no `k`.
    #[verifier::external_body]
    pub(crate) fn get(&self, k: &(AccountId, AccountId)) -> (r: Option<bool>)
        ensures
            r == map_get(operator_entries(*self), *k),
    {
        self.m.get(k).copied()
    }

    /// Calls `ink_storage::collections::HashMap::insert`; claims the map then holds `v` at `k`
    /// and is otherwise unchanged. A new key increments the map's `u32` key counter, which
    /// overflows at `u32::MAX`; so a new key needs the map to hold fewer keys than that.
    /// The previous value that the call returns is dropped.
    #[verifier::external_body]
    pub(crate) fn insert(&mut self, k: (AccountId, AccountId), v: bool)
        requires
            has_room_for(operator_entries(*old(self)), k),
        ensures
            operator_entries(*final(self)) == operator_entries(*old(self)).insert(k, v),
    {
        self.m.insert(k, v);
    }

    /// Calls `ink_storage::collections::HashMap::take`; claims the map then no longer holds
    /// `k` and is otherwise unchanged, and that it returns the value it held at `k`, if any.
    #[verifier::external_body]
    pub(crate) fn take(&mut self, k: &(AccountId, AccountId)) -> (r: Option<bool>)
        ensures
            operator_entries(*final(self)) == operator_entries(*old(self)).remove(*k),
            r == map_get(operator_entries(*old(self)), *k),
    {
        self.m.take(k)
    }
}

impl TokenPriceMap {
    /// Calls `ink_storage::collections::HashMap::len`; claims it returns the number of
    /// keys held, which the map counts in a `u32`.
    #[verifier::external_body]
    pub(crate) fn len(&self) -> (r: u32)
        ensures
            r == token_price_entries(*self).len(),
    {
        self.m.len()
    }

    /// Calls `ink_storage::collections::HashMap::new`; claims the new map holds no keys.
    /// The map gets no storage key, so it lives in its cache and never reads contract storage.
    #[verifier::external_body]
    pub(crate) fn new() -> (r: Self)
        ensures
            token_price_entries(r).dom() == Set::<u128>::empty(),
    {
        TokenPriceMap { m: ink_storage::collections::HashMap::new() }
    }

    /// Calls `ink_storage::collections::HashMap::get`; claims it returns the value held at
    /// `k` (copied out), and `None` where the map holds no `k`.
    #[verifier::external_body]
    pub(crate) fn get(&self, k: u128) -> (r: Option<u128>)
        ensures
            r == map_get(token_price_entries(*self), k),
    {
        self.m.get(&k).copied()
    }

    /// Calls `ink_storage::collections::HashMap::insert`; claims the map then holds `v` at `k`
    /// and is otherwise unchanged. A new key increments the map's `u32` key counter, which
    /// overflows at `u32::MAX`; so a new key needs the map to hold fewer keys than that.
    /// The previous value that the call returns is dropped.
    #[verifier::external_body]
    pub(crate) fn insert(&mut self, k: u128, v: u128)
        requires
            has_room_for(token_price_entries(*old(self)), k),
        ensures
            token_price_entries(*final(self)) == token_price_entries(*old(self)).insert(k, v),
    {
        self.m.insert(k, v);
    }

    /// Calls `ink_storage::collections::HashMap::take`; claims the map then no longer holds
    /// `k` and is otherwise unchanged, and that it returns the value it held at `k`, if any.
    #[verifier::external_body]
    pub(crate) fn take(&mut self, k: u128) -> (r: Option<u128>)
        ensures
            token_price_entries(*final(self)) == token_price_entries(*old(self)).remove(k),
            r == map_get(token_price_entries(*old(self)), k),
    {
        self.m.take(&k)
    }

    /// Calls `ink_storage::collections::HashMap::iter` and copies each pair out; claims
    /// every entry of the map comes out exactly once. The order in which the map hands
    /// out its entries (the order of the slots of its key stash) is not stated.
    #[verifier::external_body]
    pub(crate) fn entries(&self) -> (r: Vec<(u128, u128)>)
        ensures
            r@.len() == token_price_entries(*self).len(),
            forall|i: int|
                #![trigger r@[i]]
                0 <= i < r@.len() ==> map_get(token_price_entries(*self), r@[i].0) == Some(r@[i].1),
            forall|i: int, j: int|
                #![trigger r@[i], r@[j]]
                0 <= i < j < r@.len() ==> r@[i].0 != r@[j].0,
            forall|k: u128|
                #![trigger token_price_entries(*self).contains_key(k)]
                token_price_entries(*self).contains_key(k) ==> exists|i: int|
                    0 <= i < r@.len() && r@[i].0 == k,
    {
        self.m.iter().map(|(t, p)| (*t, *p)).collect()
    }
}

} // verus!
