//! In-memory key/value state, one map of string keys to string values per process.
use vstd::prelude::*;
use crate::assoc::AssocMap;
use crate::types::{ProcessId, ProcessIdModel};

verus! {

/// The key/value map of `p` in `kv`, or the empty map.
pub open spec fn kv_of(kv: Map<ProcessIdModel, Map<Seq<char>, Seq<char>>>, p: ProcessIdModel) -> Map<Seq<char>, Seq<char>> {
    if kv.contains_key(p) {
        kv[p]
    } else {
        Map::empty()
    }
}

/// Key/value state, one map of string keys to string values per process.
pub trait KVState {
    spec fn well_formed(&self) -> bool;

    /// The map of each process.
    spec fn state(&self) -> Map<ProcessIdModel, Map<Seq<char>, Seq<char>>>;

    /// Stores `value` under `key` for `process`.
    fn set(&mut self, process: &ProcessId, key: &str, value: String)
        requires
            old(self).well_formed(),
        ensures
            final(self).well_formed(),
            final(self).state() == old(self).state().insert(process@, kv_of(old(self).state(), process@).insert(key@, value@)),
    ;

    /// The value stored under `key` for `process`, if any.
    fn get(&self, process: &ProcessId, key: &str) -> (r: Option<String>)
        requires
            self.well_formed(),
        ensures
            match r {
                Some(v) => kv_of(self.state(), process@).contains_key(key@) && v@ == kv_of(self.state(), process@)[key@],
                None => !kv_of(self.state(), process@).contains_key(key@),
            },
    ;
}

pub struct InMemoryKVState {
    kv: AssocMap<ProcessId, AssocMap<String, String>>,
}

impl View for InMemoryKVState {
    type V = Map<ProcessIdModel, Map<Seq<char>, Seq<char>>>;

    closed spec fn view(&self) -> Map<ProcessIdModel, Map<Seq<char>, Seq<char>>> {
        self.kv.model()
    }
}

impl InMemoryKVState {
    /// The outer map and every per-process map are well formed.
    pub closed spec fn wf(&self) -> bool {
        &&& self.kv.wf()
        &&& forall|p: ProcessIdModel| #[trigger] self.kv.entries().contains_key(p) ==> self.kv.entries()[p].wf()
    }

    /// An empty state.
    pub fn new() -> (r: InMemoryKVState)
        ensures
            r.wf(),
            r@ == Map::<ProcessIdModel, Map<Seq<char>, Seq<char>>>::empty(),
    {
        InMemoryKVState { kv: AssocMap::new() }
    }

    /// Stores `value` under `key` for `process`.
    pub fn set(&mut self, process: &ProcessId, key: &str, value: String)
        requires
            old(self).wf(),
        ensures
            final(self).wf(),
            final(self)@ == old(self)@.insert(process@, kv_of(old(self)@, process@).insert(key@, value@)),
    {
        let ghost pre = self@;
        let i = self.kv.entry(process, AssocMap::new());
        proof {
            self.kv.lemma_at(i as int);
        }
        let mut inner: AssocMap<String, String> = AssocMap::new();
        self.kv.swap_at(i, &mut inner);
        assert(inner.model() == kv_of(pre, process@));
        inner.insert(String::from_str(key), value);
        self.kv.swap_at(i, &mut inner);
        assert forall|p: ProcessIdModel| #[trigger] self.kv.entries().contains_key(p) implies self.kv.entries()[p].wf() by {
            if p != process@ {
                assert(old(self).kv.entries().contains_key(p));
            }
        }
    }

    /// The value stored under `key` for `process`, if any.
    pub fn get(&self, process: &ProcessId, key: &str) -> (r: Option<String>)
        requires
            self.wf(),
        ensures
            match r {
                Some(v) => kv_of(self@, process@).contains_key(key@) && v@ == kv_of(self@, process@)[key@],
                None => !kv_of(self@, process@).contains_key(key@),
            },
    {
        match self.kv.get(process) {
            Some(inner) => {
                let k = String::from_str(key);
                match inner.get(&k) {
                    Some(v) => Some(v.clone()),
                    None => None,
                }
            },
            None => None,
        }
    }
}

impl Default for InMemoryKVState {
    fn default() -> (r: InMemoryKVState)
        ensures
            r.wf(),
            r@ == Map::<ProcessIdModel, Map<Seq<char>, Seq<char>>>::empty(),
    {
        InMemoryKVState::new()
    }
}

impl KVState for InMemoryKVState {
    closed spec fn well_formed(&self) -> bool {
        self.wf()
    }

    closed spec fn state(&self) -> Map<ProcessIdModel, Map<Seq<char>, Seq<char>>> {
        self@
    }

    fn set(&mut self, process: &ProcessId, key: &str, value: String) {
        InMemoryKVState::set(self, process, key, value)
    }

    fn get(&self, process: &ProcessId, key: &str) -> (r: Option<String>) {
        InMemoryKVState::get(self, process, key)
    }
}

} // verus!
