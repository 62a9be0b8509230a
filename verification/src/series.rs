//! The time-series store: one history buffer per device, created lazily on
//! the device's first write and never removed.

use vstd::prelude::*;
use vstd::map::*;
use crate::assoc::{
    lookup, keys_unique, find_index, lemma_lookup_none, lemma_lookup_at, lemma_lookup_some_index,
    lemma_lookup_push, lemma_lookup_update,
};
use crate::data::Record;
use crate::ring::{RingBuffer, spec_push};
use crate::CAPACITY;

verus! {

/// The map read of a store entry list: each key maps to the contents of its
/// history buffer, oldest record first.
pub open spec fn history_map(s: Seq<(String, RingBuffer)>) -> Map<Seq<char>, Seq<Record>> {
    Map::new(|k: Seq<char>| lookup(s, k) is Some, |k: Seq<char>| (lookup(s, k)->0)@)
}

/// The history a write to device `k` extends: the device's stored records,
/// or the empty sequence before its first write.
pub open spec fn buffer_of(m: Map<Seq<char>, Seq<Record>>, k: Seq<char>) -> Seq<Record> {
    if m.contains_key(k) {
        m[k]
    } else {
        Seq::empty()
    }
}

/// Mapping from device identifier to its bounded history of records. Its
/// view is the map from device to stored contents, oldest first.
pub struct TimeSeriesStore {
    entries: Vec<(String, RingBuffer)>,
}

impl View for TimeSeriesStore {
    type V = Map<Seq<char>, Seq<Record>>;

    closed spec fn view(&self) -> Map<Seq<char>, Seq<Record>> {
        history_map(self.entries@)
    }
}

impl TimeSeriesStore {
    /// Device identifiers in the store's internal iteration order: the
    /// order of first writes.
    pub closed spec fn order(&self) -> Seq<Seq<char>> {
        self.entries@.map_values(|e: (String, RingBuffer)| e.0@)
    }

    /// Each device holds at most one buffer; every buffer is a consistent
    /// ring of the fixed capacity holding between 1 and `CAPACITY` records.
    pub closed spec fn wf(&self) -> bool {
        &&& keys_unique(self.entries@)
        &&& forall|i: int|
            0 <= i < self.entries@.len() ==> {
                &&& (#[trigger] self.entries@[i]).1.wf()
                &&& self.entries@[i].1.capacity() == CAPACITY
                &&& 1 <= self.entries@[i].1@.len() <= CAPACITY
            }
    }

    /// An empty store.
    pub fn new() -> (r: TimeSeriesStore)
        ensures
            r.wf(),
            r@ == Map::<Seq<char>, Seq<Record>>::empty(),
            r.order() == Seq::<Seq<char>>::empty(),
    {
        let r = TimeSeriesStore { entries: Vec::new() };
        proof {
            assert_maps_equal!(r@, Map::<Seq<char>, Seq<Record>>::empty());
            assert(r.order() =~= Seq::<Seq<char>>::empty());
        }
        r
    }

    /// Append `rec` to the device's history, creating the buffer on the
    /// device's first write and silently evicting the oldest record once
    /// the buffer is full. Always succeeds; no record is dropped by the
    /// store short of that eviction.
    pub fn write(&mut self, device_id: String, rec: Record)
        requires
            old(self).wf(),
        ensures
            final(self).wf(),
            final(self)@ == old(self)@.insert(
                device_id@,
                spec_push(buffer_of(old(self)@, device_id@), CAPACITY as nat, rec),
            ),
            final(self).order() == if old(self)@.contains_key(device_id@) {
                old(self).order()
            } else {
                old(self).order().push(device_id@)
            },
    {
        let ghost s0 = self.entries@;
        let ghost id0 = device_id@;
        let ghost d0 = device_id;
        match find_index(&self.entries, &device_id) {
            Some(i) => {
                proof {
                    lemma_lookup_at(s0, i as int);
                }
                self.entries[i].1.push(rec);
                proof {
                    let b1 = self.entries@[i as int].1;
                    assert(self.entries@ == s0.update(i as int, (s0[i as int].0, b1)));
                    lemma_lookup_update(s0, i as int, b1);
                    assert_maps_equal!(self@, old(self)@.insert(id0, spec_push(buffer_of(old(self)@, id0), CAPACITY as nat, rec)), k => {
                        if k == id0 {
                            assert(lookup(self.entries@, k) == Some(b1));
                        } else {
                            assert(lookup(self.entries@, k) == lookup(s0, k));
                        }
                    });
                    assert(self.order() =~= old(self).order());
                }
            },
            None => {
                proof {
                    lemma_lookup_none(s0, id0);
                    assert(!old(self)@.contains_key(id0));
                }
                let mut b = RingBuffer::new(CAPACITY);
                b.push(rec);
                let ghost b1 = b;
                self.entries.push((device_id, b));
                proof {
                    assert(self.entries@ == s0.push((d0, b1)));
                    lemma_lookup_push(s0, d0, b1);
                    assert_maps_equal!(self@, old(self)@.insert(id0, spec_push(buffer_of(old(self)@, id0), CAPACITY as nat, rec)), k => {
                        if k == id0 {
                            assert(lookup(self.entries@, k) == Some(b1));
                        } else {
                            assert(lookup(self.entries@, k) == lookup(s0, k));
                        }
                    });
                    assert(self.order() =~= old(self).order().push(id0));
                }
            },
        }
    }

    /// The most recent record for the device, or `None` if it has never
    /// written one.
    pub fn latest(&self, device_id: &String) -> (r: Option<Record>)
        requires
            self.wf(),
        ensures
            match r {
                Some(rec) => self@.contains_key(device_id@) && self@[device_id@].len() > 0 && rec
                    == self@[device_id@].last(),
                None => !self@.contains_key(device_id@),
            },
    {
        match find_index(&self.entries, device_id) {
            Some(i) => {
                proof {
                    lemma_lookup_at(self.entries@, i as int);
                }
                self.entries[i].1.latest()
            },
            None => {
                proof {
                    lemma_lookup_none(self.entries@, device_id@);
                }
                None
            },
        }
    }

    /// How many devices have a history.
    pub fn device_count(&self) -> (n: usize)
        ensures
            n == self.order().len(),
    {
        self.entries.len()
    }

    /// The identifier of the device at position `i` of the iteration order.
    pub fn device_at(&self, i: usize) -> (id: String)
        requires
            i < self.order().len(),
        ensures
            id@ == self.order()[i as int],
    {
        self.entries[i].0.clone()
    }

    /// All device identifiers that currently have a history, in the
    /// internal iteration order. Devices that exist only in the registry
    /// are not the store's to report.
    pub fn known_devices(&self) -> (r: Vec<String>)
        ensures
            r@.len() == self.order().len(),
            forall|i: int| 0 <= i < r@.len() ==> r@[i]@ == self.order()[i],
    {
        let mut out: Vec<String> = Vec::new();
        let n = self.entries.len();
        let mut i: usize = 0;
        while i < n
            invariant
                n == self.order().len(),
                i <= n,
                out@.len() == i,
                forall|j: int| 0 <= j < i ==> out@[j]@ == self.order()[j],
            decreases n - i,
        {
            out.push(self.device_at(i));
            i = i + 1;
        }
        out
    }

    /// The most recent record of the device at position `i` of the
    /// iteration order.
    pub fn latest_at(&self, i: usize) -> (rec: Record)
        requires
            self.wf(),
            i < self.order().len(),
        ensures
            self@.contains_key(self.order()[i as int]),
            self@[self.order()[i as int]].len() >= 1,
            rec == self@[self.order()[i as int]].last(),
    {
        proof {
            lemma_lookup_at(self.entries@, i as int);
        }
        self.entries[i].1.last()
    }

    /// Law: the iteration order lists, without repetition, exactly the
    /// devices that have at least one stored record.
    pub proof fn lemma_order_dom(&self)
        requires
            self.wf(),
        ensures
            forall|k: Seq<char>| #[trigger] self.order().contains(k) <==> self@.contains_key(k),
            forall|i: int, j: int|
                0 <= i < j < self.order().len() ==> self.order()[i] != self.order()[j],
    {
        assert forall|k: Seq<char>| #[trigger] self.order().contains(k) <==> self@.contains_key(
            k,
        ) by {
            lemma_lookup_some_index(self.entries@, k);
            if self.order().contains(k) {
                let i = choose|i: int| 0 <= i < self.order().len() && self.order()[i] == k;
                assert(self.entries@[i].0@ == k);
            }
            if self@.contains_key(k) {
                let j = choose|j: int| 0 <= j < self.entries@.len() && self.entries@[j].0@ == k;
                assert(self.order()[j] == k);
            }
        }
    }

    /// Law: every stored history holds between one record and the capacity.
    pub proof fn lemma_buffer_bounds(&self)
        requires
            self.wf(),
        ensures
            forall|k: Seq<char>| #[trigger]
                self@.contains_key(k) ==> 1 <= self@[k].len() <= CAPACITY,
    {
        assert forall|k: Seq<char>| #[trigger] self@.contains_key(k) implies 1 <= self@[k].len()
            <= CAPACITY by {
            lemma_lookup_some_index(self.entries@, k);
            let j = choose|j: int| 0 <= j < self.entries@.len() && self.entries@[j].0@ == k;
            lemma_lookup_at(self.entries@, j);
        }
    }
}

} // verus!
