//! The hash collections behind image updates and lock files: a set of names
//! and a map from names to hashes, each held in a `hashbrown` collection and
//! described by what it holds.
use vstd::prelude::*;

verus! {

/// A set of file names or paths, held in a `hashbrown::HashSet<String>`.
#[verifier::external_body]
pub struct NameSet {
    set: hashbrown::HashSet<String>,
}

/// What a `NameSet` holds.
pub uninterp spec fn name_set_items(s: NameSet) -> Set<Seq<char>>;

/// A map from file names to hashes, held in a `hashbrown::HashMap<String, String>`.
#[verifier::external_body]
pub struct HashIndex {
    map: hashbrown::HashMap<String, String>,
}

/// What a `HashIndex` holds.
pub uninterp spec fn hash_index_entries(m: HashIndex) -> Map<Seq<char>, Seq<char>>;

impl NameSet {
    /// `hashbrown::HashSet::new`: an empty set.
    #[verifier::external_body]
    pub(crate) fn new() -> (res: NameSet)
        ensures
            name_set_items(res) == Set::<Seq<char>>::empty(),
    {
        NameSet { set: hashbrown::HashSet::new() }
    }

    /// `hashbrown::HashSet::insert`: adds `v`; the result tells whether it was absent.
    #[verifier::external_body]
    pub(crate) fn insert(&mut self, v: String) -> (fresh: bool)
        ensures
            name_set_items(*final(self)) == name_set_items(*old(self)).insert(v@),
            fresh == !name_set_items(*old(self)).contains(v@),
    {
        self.set.insert(v)
    }

    /// `hashbrown::HashSet::is_empty`.
    #[verifier::external_body]
    pub(crate) fn is_empty(&self) -> (res: bool)
        ensures
            res == (name_set_items(*self) == Set::<Seq<char>>::empty()),
    {
        self.set.is_empty()
    }

    /// `hashbrown::HashSet::iter`, each item cloned: every item once, in no
    /// particular order.
    #[verifier::external_body]
    pub(crate) fn to_vec(&self) -> (res: Vec<String>)
        ensures
            res@.map_values(|s: String| s@).to_set() == name_set_items(*self),
            res@.map_values(|s: String| s@).no_duplicates(),
    {
        self.set.iter().cloned().collect()
    }
}

impl HashIndex {
    /// `hashbrown::HashMap::new`: an empty map.
    #[verifier::external_body]
    pub(crate) fn new() -> (res: HashIndex)
        ensures
            hash_index_entries(res).dom().is_empty(),
    {
        HashIndex { map: hashbrown::HashMap::new() }
    }

    /// `hashbrown::HashMap::insert`: maps `k` to `v`, replacing any earlier value.
    #[verifier::external_body]
    pub(crate) fn insert(&mut self, k: String, v: String)
        ensures
            hash_index_entries(*final(self)) == hash_index_entries(*old(self)).insert(k@, v@),
    {
        self.map.insert(k, v);
    }

    /// `hashbrown::HashMap::remove`: takes out the entry of `k` and gives its value.
    #[verifier::external_body]
    pub(crate) fn remove(&mut self, k: &str) -> (res: Option<String>)
        ensures
            hash_index_entries(*final(self)) == hash_index_entries(*old(self)).remove(k@),
            match res {
                Some(v) => hash_index_entries(*old(self)).contains_key(k@) && v@
                    == hash_index_entries(*old(self))[k@],
                None => !hash_index_entries(*old(self)).contains_key(k@),
            },
    {
        self.map.remove(k)
    }

    /// `hashbrown::HashMap::keys`, each key cloned: every key once, in no
    /// particular order.
    #[verifier::external_body]
    pub(crate) fn keys(&self) -> (res: Vec<String>)
        ensures
            res@.map_values(|s: String| s@).to_set() == hash_index_entries(*self).dom(),
            res@.map_values(|s: String| s@).no_duplicates(),
    {
        self.map.keys().cloned().collect()
    }
}

} // verus!
