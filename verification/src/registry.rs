//! Registries keyed by the external identifier namespace.
//!
//! A registry is plain associative storage: the scheduler adds an entry
//! when playback starts, and nothing here ever removes one — removal is
//! entirely the business of whoever manages the identifier's lifetime.
//! Holding a handle in a registry is what keeps it alive independently
//! of the code that created it.

use std::collections::HashMap;

use vstd::prelude::*;

use crate::output::AudioSink;
use crate::signal::AudioHandle;

verus! {

broadcast use vstd::std_specs::hash::group_hash_axioms;

/// Associative storage from an opaque identifier to a value, with no
/// automatic expiry. Identifiers come from the surrounding asset
/// system; nothing is assumed of them beyond equality.
pub struct Registry<T> {
    table: HashMap<u64, T>,
}

impl<T> View for Registry<T> {
    type V = Map<u64, T>;

    closed spec fn view(&self) -> Map<u64, T> {
        self.table@
    }
}

impl<T> Registry<T> {
    pub fn new() -> (r: Registry<T>)
        ensures
            r@ == Map::<u64, T>::empty(),
    {
        Registry { table: HashMap::new() }
    }

    /// Store `value` under `slot`, replacing any previous entry for the
    /// same identifier.
    pub fn insert(&mut self, slot: u64, value: T)
        ensures
            final(self)@ == old(self)@.insert(slot, value),
    {
        self.table.insert(slot, value);
    }

    pub fn get(&self, slot: u64) -> (r: Option<&T>)
        ensures
            match r {
                Some(v) => self@.contains_key(slot) && *v == self@[slot],
                None => !self@.contains_key(slot),
            },
    {
        self.table.get(&slot)
    }

    pub fn contains(&self, slot: u64) -> (b: bool)
        ensures
            b == self@.contains_key(slot),
    {
        self.table.contains_key(&slot)
    }

    pub fn len(&self) -> (n: usize)
        ensures
            n == self@.len(),
    {
        self.table.len()
    }
}

impl<T> Default for Registry<T> {
    fn default() -> (r: Self)
        ensures
            r@ == Map::<u64, T>::empty(),
    {
        Registry::new()
    }
}

/// Storage of all audio sinks.
pub type AudioSinks = Registry<AudioSink>;

/// Storage of all raw signal handles.
pub type AudioHandles = Registry<AudioHandle>;

} // verus!
