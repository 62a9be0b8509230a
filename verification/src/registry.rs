//! The device registry: an upsertable mapping from device identifier to a
//! human-readable display alias, independent of whether the device has ever
//! written a record.

use vstd::prelude::*;
use vstd::map::*;
use crate::assoc::{
    lookup, keys_unique, find_index, lemma_lookup_none, lemma_lookup_at, lemma_lookup_push,
    lemma_lookup_update,
};

verus! {

/// The map read of a registry entry list: each key maps to the alias its
/// entry holds.
pub open spec fn alias_map(s: Seq<(String, String)>) -> Map<Seq<char>, Seq<char>> {
    Map::new(|k: Seq<char>| lookup(s, k) is Some, |k: Seq<char>| (lookup(s, k)->0)@)
}

/// Mapping from device identifier to display alias. Its view is the map of
/// registered aliases.
pub struct DeviceRegistry {
    entries: Vec<(String, String)>,
}

impl View for DeviceRegistry {
    type V = Map<Seq<char>, Seq<char>>;

    closed spec fn view(&self) -> Map<Seq<char>, Seq<char>> {
        alias_map(self.entries@)
    }
}

impl DeviceRegistry {
    /// Each device holds at most one entry.
    pub closed spec fn wf(&self) -> bool {
        keys_unique(self.entries@)
    }

    /// An empty registry.
    pub fn new() -> (r: DeviceRegistry)
        ensures
            r.wf(),
            r@ == Map::<Seq<char>, Seq<char>>::empty(),
    {
        let r = DeviceRegistry { entries: Vec::new() };
        proof {
            assert_maps_equal!(r@, Map::<Seq<char>, Seq<char>>::empty());
        }
        r
    }

    /// Upsert: associate `alias` with `device_id`, overwriting any alias
    /// registered before. Always succeeds.
    pub fn register(&mut self, device_id: String, alias: String)
        requires
            old(self).wf(),
        ensures
            final(self).wf(),
            final(self)@ == old(self)@.insert(device_id@, alias@),
    {
        let ghost s0 = self.entries@;
        let ghost id0 = device_id@;
        let ghost a0 = alias;
        match find_index(&self.entries, &device_id) {
            Some(i) => {
                self.entries[i].1 = alias;
                proof {
                    lemma_lookup_update(s0, i as int, a0);
                    assert(self.entries@ == s0.update(i as int, (s0[i as int].0, a0)));
                    assert_maps_equal!(self@, old(self)@.insert(id0, a0@), k => {
                        if k == id0 {
                            assert(lookup(self.entries@, k) == Some(a0));
                        } else {
                            assert(lookup(self.entries@, k) == lookup(s0, k));
                        }
                    });
                }
            },
            None => {
                self.entries.push((device_id, alias));
                proof {
                    lemma_lookup_push(s0, device_id, a0);
                    assert_maps_equal!(self@, old(self)@.insert(id0, a0@), k => {
                        if k == id0 {
                            assert(lookup(self.entries@, k) == Some(a0));
                        } else {
                            assert(lookup(self.entries@, k) == lookup(s0, k));
                        }
                    });
                }
            },
        }
    }

    /// The registered alias for `device_id`, or `None` if it was never
    /// registered (the caller then falls back to the identifier itself).
    pub fn alias_of(&self, device_id: &String) -> (r: Option<String>)
        requires
            self.wf(),
        ensures
            match r {
                Some(a) => self@.contains_key(device_id@) && a@ == self@[device_id@],
                None => !self@.contains_key(device_id@),
            },
    {
        match find_index(&self.entries, device_id) {
            Some(i) => {
                proof {
                    lemma_lookup_at(self.entries@, i as int);
                }
                Some(self.entries[i].1.clone())
            },
            None => {
                proof {
                    lemma_lookup_none(self.entries@, device_id@);
                }
                None
            },
        }
    }
}

/// Law: registering an alias makes exactly that alias visible for the
/// device, and registering twice in a row leaves only the later alias.
pub proof fn lemma_register_alias(
    m: Map<Seq<char>, Seq<char>>,
    k: Seq<char>,
    a1: Seq<char>,
    a2: Seq<char>,
)
    ensures
        m.insert(k, a1).contains_key(k),
        m.insert(k, a1)[k] == a1,
        m.insert(k, a1).insert(k, a2) == m.insert(k, a2),
{
    assert_maps_equal!(m.insert(k, a1).insert(k, a2), m.insert(k, a2));
}

} // verus!
