//! Per-extraction-pass memoization, keyed by object address.
//!
//! Three independent maps cache the three value classes resolved during a
//! pass: runtime type names, bounded string payloads, and decoded value
//! representations. Only successful decodes are stored, so a failed decode
//! can be retried on a later pass. The cache must be cleared in full before
//! each top-level tree extraction, lest a pass see stale results for a heap
//! that has mutated since.

use vstd::prelude::*;
use std::collections::HashMap;
use crate::values::DecodedValue;
use crate::values::ValueView;
use crate::values::view_of_value;
use crate::values::clone_decoded_value;

verus! {

broadcast use vstd::std_specs::hash::group_hash_axioms;

/// The three per-address caches of one extraction pass.
pub struct MemoryReadingCache {
    python_type_name_from_python_object_address: HashMap<u64, String>,
    python_string_value_max_length_4000: HashMap<u64, String>,
    dict_entry_value_representation: HashMap<u64, DecodedValue>,
}

impl MemoryReadingCache {
    /// The cached type names.
    pub closed spec fn type_names(self) -> Map<u64, String> {
        self.python_type_name_from_python_object_address@
    }

    /// The cached bounded string payloads.
    pub closed spec fn string_values(self) -> Map<u64, String> {
        self.python_string_value_max_length_4000@
    }

    /// The cached decoded representations, as mathematical values.
    pub closed spec fn value_representations(self) -> Map<u64, ValueView> {
        Map::new(
            |k: u64| self.dict_entry_value_representation@.contains_key(k),
            |k: u64| view_of_value(self.dict_entry_value_representation@[k]),
        )
    }

    /// An empty cache.
    pub fn new() -> (r: Self)
        ensures
            r.type_names() == Map::<u64, String>::empty(),
            r.string_values() == Map::<u64, String>::empty(),
            r.value_representations() == Map::<u64, ValueView>::empty(),
    {
        let r = MemoryReadingCache {
            python_type_name_from_python_object_address: HashMap::new(),
            python_string_value_max_length_4000: HashMap::new(),
            dict_entry_value_representation: HashMap::new(),
        };
        proof {
            assert(r.value_representations() =~= Map::<u64, ValueView>::empty());
        }
        r
    }

    /// Empties all three maps: nothing cached before the call survives it.
    pub fn clear(&mut self)
        ensures
            final(self).type_names() == Map::<u64, String>::empty(),
            final(self).string_values() == Map::<u64, String>::empty(),
            final(self).value_representations() == Map::<u64, ValueView>::empty(),
    {
        self.python_type_name_from_python_object_address.clear();
        self.python_string_value_max_length_4000.clear();
        self.dict_entry_value_representation.clear();
        proof {
            assert(self.value_representations() =~= Map::<u64, ValueView>::empty());
        }
    }

    /// The cached type name for `address`, if one is stored.
    pub fn get_python_type_name_from_python_object_address(&self, address: u64) -> (r: Option<
        String,
    >)
        ensures
            self.type_names().contains_key(address) ==> r == Some(self.type_names()[address]),
            !self.type_names().contains_key(address) ==> r is None,
    {
        match self.python_type_name_from_python_object_address.get(&address) {
            Some(name) => Some(name.clone()),
            None => None,
        }
    }

    /// Stores the type name resolved for `address`.
    pub fn insert_python_type_name(&mut self, address: u64, name: String)
        ensures
            final(self).type_names() == old(self).type_names().insert(address, name),
            final(self).string_values() == old(self).string_values(),
            final(self).value_representations() == old(self).value_representations(),
    {
        self.python_type_name_from_python_object_address.insert(address, name);
        proof {
            assert(self.value_representations() =~= old(self).value_representations());
        }
    }

    /// The cached bounded string payload for `address`, if one is stored.
    pub fn get_python_string_value_max_length_4000(&self, address: u64) -> (r: Option<String>)
        ensures
            self.string_values().contains_key(address) ==> r == Some(
                self.string_values()[address],
            ),
            !self.string_values().contains_key(address) ==> r is None,
    {
        match self.python_string_value_max_length_4000.get(&address) {
            Some(value) => Some(value.clone()),
            None => None,
        }
    }

    /// Stores the bounded string payload decoded at `address`.
    pub fn insert_python_string_value(&mut self, address: u64, value: String)
        ensures
            final(self).string_values() == old(self).string_values().insert(address, value),
            final(self).type_names() == old(self).type_names(),
            final(self).value_representations() == old(self).value_representations(),
    {
        self.python_string_value_max_length_4000.insert(address, value);
        proof {
            assert(self.value_representations() =~= old(self).value_representations());
        }
    }

    /// The cached decoded representation for `address`, if one is stored.
    pub fn get_dict_entry_value_representation(&self, address: u64) -> (r: Option<DecodedValue>)
        ensures
            self.value_representations().contains_key(address) ==> (r matches Some(v)
                && view_of_value(v) == self.value_representations()[address]),
            !self.value_representations().contains_key(address) ==> r is None,
    {
        match self.dict_entry_value_representation.get(&address) {
            Some(value) => Some(clone_decoded_value(value)),
            None => None,
        }
    }

    /// Stores the representation decoded at `address`.
    pub fn insert_dict_entry_value_representation(&mut self, address: u64, value: &DecodedValue)
        ensures
            final(self).value_representations() == old(self).value_representations().insert(
                address,
                view_of_value(*value),
            ),
            final(self).type_names() == old(self).type_names(),
            final(self).string_values() == old(self).string_values(),
    {
        self.dict_entry_value_representation.insert(address, clone_decoded_value(value));
        proof {
            assert(self.value_representations() =~= old(self).value_representations().insert(
                address,
                view_of_value(*value),
            ));
        }
    }
}

} // verus!
