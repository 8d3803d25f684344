//! A keyed cache of values with the time each was stored.
use vstd::prelude::*;
use vstd::std_specs::hash::obeys_key_model;
use std::collections::HashMap;
use std::hash::Hash;
use std::time::{Duration, SystemTime};

verus! {

broadcast use vstd::std_specs::hash::group_hash_axioms;

#[verifier::external_type_specification]
#[verifier::external_body]
pub struct ExSystemTime(std::time::SystemTime);

/// A cache from keys to values, with a timeout.
pub struct Cache<T, M> where T: Hash + Eq, M: Hash + Clone {
    cache_items: HashMap<T, CacheItem<M>>,
    timeout: Duration,
}

/// A cached value and when it was stored.
struct CacheItem<M> {
    data: M,
    last_update: SystemTime,
}

/// `SystemTime::elapsed`: the time since `t`, or `None` where the clock
/// reads earlier than `t`.  What it gives depends on the clock, so nothing
/// is stated of it.
#[verifier::external_body]
fn elapsed_since(t: &SystemTime) -> (res: Option<Duration>) {
    t.elapsed().ok()
}

impl<T, M> Cache<T, M> where T: Hash + Eq, M: Hash + Clone {
    /// The values held, by key.
    pub closed spec fn contents(&self) -> Map<T, M> {
        self.cache_items@.map_values(|i: CacheItem<M>| i.data)
    }

    /// The time each value was stored at, by key.
    pub closed spec fn stamps(&self) -> Map<T, SystemTime> {
        self.cache_items@.map_values(|i: CacheItem<M>| i.last_update)
    }

    /// The timeout the cache was made with.
    pub closed spec fn timeout_of(&self) -> Duration {
        self.timeout
    }

    /// An empty cache with the given timeout.
    pub fn new(timeout: Duration) -> (res: Self)
        ensures
            res.contents().dom().is_empty(),
            res.stamps().dom().is_empty(),
            res.timeout_of() == timeout,
    {
        let res = Cache::<T, M> { cache_items: HashMap::new(), timeout };
        assert(res.contents().dom() =~= Set::<T>::empty());
        assert(res.stamps().dom() =~= Set::<T>::empty());
        res
    }

    /// The value held for `key` and the time it was stored at; for key types
    /// whose `Hash` and `Eq` follow their values, `None` exactly where no
    /// value is held for `key`.
    pub fn entry(&self, key: &T) -> (r: Option<(&M, &SystemTime)>)
        ensures
            obeys_key_model::<T>() ==> match r {
                Some((d, t)) => self.contents().contains_key(*key) && *d == self.contents()[*key]
                    && *t == self.stamps()[*key],
                None => !self.contents().contains_key(*key),
            },
    {
        match self.cache_items.get(key) {
            Some(item) => Some((&item.data, &item.last_update)),
            None => None,
        }
    }

    /// The value for `key`, cloned, where one is held and the time since it
    /// was stored can be read; `None` otherwise.  For key types whose `Hash`
    /// and `Eq` follow their values, a value comes back only for a key that
    /// is held, and it is a clone of the value held.
    pub fn get(&self, key: T) -> (res: Option<M>)
        ensures
            obeys_key_model::<T>() ==> match res {
                Some(d) => self.contents().contains_key(key) && cloned(self.contents()[key], d),
                None => true,
            },
            obeys_key_model::<T>() && !self.contents().contains_key(key) ==> res is None,
    {
        match self.entry(&key) {
            Some((data, stamp)) => Self::read_item(data, elapsed_since(stamp)),
            None => None,
        }
    }

    /// Stores `data` for `key`, stamped with the time `now`, replacing any
    /// earlier value for that key.  For key types whose `Hash` and `Eq` follow
    /// their values, the cache then holds `data` stored at `now` under `key`
    /// and is otherwise unchanged.
    pub fn update(&mut self, key: T, data: M, now: SystemTime)
        ensures
            obeys_key_model::<T>() ==> final(self).contents() == old(self).contents().insert(
                key,
                data,
            ),
            obeys_key_model::<T>() ==> final(self).stamps() == old(self).stamps().insert(key, now),
            final(self).timeout_of() == old(self).timeout_of(),
    {
        self.cache_items.insert(key, CacheItem { data, last_update: now });
        proof {
            if obeys_key_model::<T>() {
                assert(self.contents() =~= old(self).contents().insert(key, data));
                assert(self.stamps() =~= old(self).stamps().insert(key, now));
            }
        }
    }

    /// A clone of a cached value, given the time since it was stored (`None`
    /// where that could not be read, which gives `None`).
    pub fn read_item(data: &M, elapsed: Option<Duration>) -> (res: Option<M>)
        ensures
            match res {
                Some(d) => elapsed is Some && cloned(*data, d),
                None => elapsed is None,
            },
    {
        match elapsed {
            Some(_) => Some(data.clone()),
            None => None,
        }
    }
}

} // verus!
