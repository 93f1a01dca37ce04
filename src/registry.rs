//! The daemon's two registries, each a `hashbrown` map keyed by info hash.
use vstd::prelude::*;
use crate::state::{opt_state_view, InfoHash, TorrentState, TorrentStateView};

verus! {

/// The latest published state of each torrent.
#[verifier::external_body]
pub struct StateTable {
    inner: hashbrown::HashMap<InfoHash, TorrentState>,
}

/// What a state table holds: the view of each state, by info hash.
pub uninterp spec fn state_entries(t: StateTable) -> Map<Seq<u8>, TorrentStateView>;

/// The worker handle of each admitted torrent.
#[verifier::external_body]
pub struct HandleTable {
    inner: hashbrown::HashMap<InfoHash, u64>,
}

/// What a handle table holds: the worker of each torrent, by info hash.
pub uninterp spec fn handle_entries(t: HandleTable) -> Map<Seq<u8>, u64>;

impl StateTable {
    /// Relies on `hashbrown::HashMap::new`: the map is empty.
    #[verifier::external_body]
    pub fn new() -> (r: StateTable)
        ensures
            state_entries(r) =~= Map::empty(),
    {
        StateTable { inner: hashbrown::HashMap::new() }
    }

    /// Relies on `hashbrown::HashMap::get`: the value stored under the key,
    /// if any (cloned out).
    #[verifier::external_body]
    pub fn get(&self, h: &InfoHash) -> (r: Option<TorrentState>)
        ensures
            opt_state_view(r) == (if state_entries(*self).contains_key(h@) {
                Some(state_entries(*self)[h@])
            } else {
                None
            }),
    {
        self.inner.get(h).cloned()
    }

    /// Relies on `hashbrown::HashMap::insert`: the state is stored under its
    /// own info hash, replacing what was there.
    #[verifier::external_body]
    pub fn insert(&mut self, s: TorrentState)
        ensures
            state_entries(*final(self)) == state_entries(*old(self)).insert(s.info_hash@, s@),
    {
        self.inner.insert(s.info_hash, s);
    }

    /// Relies on `hashbrown::HashMap::iter`: each stored entry once, in no
    /// particular order (the states cloned out).
    #[verifier::external_body]
    pub fn entries(&self) -> (r: Vec<(InfoHash, TorrentState)>)
        ensures
            forall|i: int|
                #![trigger r@[i]]
                0 <= i < r@.len() ==> state_entries(*self).contains_key(r@[i].0@)
                    && state_entries(*self)[r@[i].0@] == r@[i].1@,
            forall|k: Seq<u8>|
                #[trigger] state_entries(*self).contains_key(k) ==> exists|i: int|
                    #![trigger r@[i]]
                    0 <= i < r@.len() && r@[i].0@ == k,
            forall|i: int, j: int|
                #![trigger r@[i], r@[j]]
                0 <= i < j < r@.len() ==> r@[i].0@ != r@[j].0@,
    {
        self.inner.iter().map(|(k, v)| (*k, v.clone())).collect()
    }
}

impl HandleTable {
    /// Relies on `hashbrown::HashMap::new`: the map is empty.
    #[verifier::external_body]
    pub fn new() -> (r: HandleTable)
        ensures
            handle_entries(r) =~= Map::empty(),
    {
        HandleTable { inner: hashbrown::HashMap::new() }
    }

    /// Relies on `hashbrown::HashMap::get`: the worker stored under the key,
    /// if any.
    #[verifier::external_body]
    pub fn get(&self, h: &InfoHash) -> (r: Option<u64>)
        ensures
            r == (if handle_entries(*self).contains_key(h@) {
                Some(handle_entries(*self)[h@])
            } else {
                None
            }),
    {
        self.inner.get(h).copied()
    }

    /// Relies on `hashbrown::HashMap::insert`: the worker is stored under the
    /// key, replacing what was there.
    #[verifier::external_body]
    pub fn insert(&mut self, h: InfoHash, w: u64)
        ensures
            handle_entries(*final(self)) == handle_entries(*old(self)).insert(h@, w),
    {
        self.inner.insert(h, w);
    }

    /// Relies on `hashbrown::HashMap::iter`: each stored entry once, in no
    /// particular order.
    #[verifier::external_body]
    pub fn entries(&self) -> (r: Vec<(InfoHash, u64)>)
        ensures
            forall|i: int|
                #![trigger r@[i]]
                0 <= i < r@.len() ==> handle_entries(*self).contains_key(r@[i].0@)
                    && handle_entries(*self)[r@[i].0@] == r@[i].1,
            forall|k: Seq<u8>|
                #[trigger] handle_entries(*self).contains_key(k) ==> exists|i: int|
                    #![trigger r@[i]]
                    0 <= i < r@.len() && r@[i].0@ == k,
            forall|i: int, j: int|
                #![trigger r@[i], r@[j]]
                0 <= i < j < r@.len() ==> r@[i].0@ != r@[j].0@,
    {
        self.inner.iter().map(|(k, v)| (*k, *v)).collect()
    }
}

} // verus!
