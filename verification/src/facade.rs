//! The store behind one serialization boundary: the alias registry and the
//! per-device histories, plus the clock that stamps accepted records.
//!
//! One `StoreFacade` value is the whole store state; the surrounding
//! process wraps it in a single exclusive-access guard and calls `write`,
//! `register` and `snapshot` under it, so the operations are totally
//! ordered and a snapshot observes alias and latest record of all devices
//! at one logical instant.

use vstd::prelude::*;
use crate::clock::Clock;
use crate::data::{InputRecord, OutputRecord, Record};
use crate::registry::DeviceRegistry;
use crate::ring::{spec_push, ts_sorted, ts_bounded, lemma_push_sorted, lemma_push_len};
use crate::series::{TimeSeriesStore, buffer_of};
use crate::CAPACITY;

verus! {

/// The alias shown for device `k`: the registered one, the identifier
/// itself when none was registered.
pub open spec fn alias_shown(aliases: Map<Seq<char>, Seq<char>>, k: Seq<char>) -> Seq<char> {
    if aliases.contains_key(k) {
        aliases[k]
    } else {
        k
    }
}

/// Registry, history store and clock composed behind one boundary.
pub struct StoreFacade {
    registry: DeviceRegistry,
    series: TimeSeriesStore,
    clock: Clock,
}

impl StoreFacade {
    /// The registered aliases.
    pub closed spec fn aliases(&self) -> Map<Seq<char>, Seq<char>> {
        self.registry@
    }

    /// Each writing device's stored records, oldest first.
    pub closed spec fn history(&self) -> Map<Seq<char>, Seq<Record>> {
        self.series@
    }

    /// The devices with a history, in internal iteration order.
    pub closed spec fn order(&self) -> Seq<Seq<char>> {
        self.series.order()
    }

    /// The greatest timestamp handed out so far.
    pub closed spec fn last_time(&self) -> u64 {
        self.clock.last_time()
    }

    /// The parts are consistent, and every stored history is sorted by
    /// timestamp and bounded by the last timestamp handed out.
    pub closed spec fn wf(&self) -> bool {
        &&& self.registry.wf()
        &&& self.series.wf()
        &&& forall|k: Seq<char>| #[trigger]
            self.history().contains_key(k) ==> ts_sorted(self.history()[k]) && ts_bounded(
                self.history()[k],
                self.last_time(),
            )
    }

    /// What a snapshot returns, as a function of the state alone: one
    /// triple per device with a history, in the internal iteration order.
    pub open spec fn snapshot_model(&self) -> Seq<(Seq<char>, Seq<char>, Record)> {
        Seq::new(
            self.order().len(),
            |i: int|
                (
                    self.order()[i],
                    alias_shown(self.aliases(), self.order()[i]),
                    self.history()[self.order()[i]].last(),
                ),
        )
    }

    /// An empty store: no aliases, no histories, no timestamp handed out.
    pub fn new() -> (s: StoreFacade)
        ensures
            s.wf(),
            s.aliases() == Map::<Seq<char>, Seq<char>>::empty(),
            s.history() == Map::<Seq<char>, Seq<Record>>::empty(),
            s.order() == Seq::<Seq<char>>::empty(),
            s.last_time() == 0,
    {
        StoreFacade { registry: DeviceRegistry::new(), series: TimeSeriesStore::new(), clock: Clock::new() }
    }

    /// Accept one reading for `device_id`: stamp it with a fresh timestamp
    /// no earlier than any handed out before, append it to the device's
    /// history (created on first sight, oldest record evicted once full)
    /// and return the stored record. Always succeeds; rate and volume are
    /// taken verbatim.
    pub fn write(&mut self, device_id: String, input: InputRecord) -> (r: Record)
        requires
            old(self).wf(),
        ensures
            final(self).wf(),
            r.rate == input.rate,
            r.total_volume == input.total_volume,
            r.timestamp >= old(self).last_time(),
            final(self).last_time() == r.timestamp,
            final(self).aliases() == old(self).aliases(),
            final(self).history() == old(self).history().insert(
                device_id@,
                spec_push(buffer_of(old(self).history(), device_id@), CAPACITY as nat, r),
            ),
            final(self).order() == if old(self).history().contains_key(device_id@) {
                old(self).order()
            } else {
                old(self).order().push(device_id@)
            },
    {
        proof {
            self.series.lemma_buffer_bounds();
        }
        let ghost id0 = device_id@;
        let t = self.clock.tick();
        let rec = Record { timestamp: t, rate: input.rate, total_volume: input.total_volume };
        self.series.write(device_id, rec);
        proof {
            let h0 = old(self).history();
            let b0 = buffer_of(h0, id0);
            if h0.contains_key(id0) {
                assert(old(self).history().contains_key(id0));
                assert(ts_sorted(b0));
                assert forall|i: int| 0 <= i < b0.len() implies b0[i].timestamp
                    <= rec.timestamp by {
                    assert(b0[i].timestamp <= old(self).last_time());
                }
            } else {
                assert(b0 =~= Seq::<Record>::empty());
            }
            lemma_push_sorted(b0, CAPACITY as nat, rec);
            assert forall|k: Seq<char>| #[trigger] self.history().contains_key(k) implies ts_sorted(
                self.history()[k],
            ) && ts_bounded(self.history()[k], self.last_time()) by {
                if k != id0 {
                    assert(old(self).history().contains_key(k));
                    assert(self.history()[k] == h0[k]);
                    assert(ts_sorted(h0[k]));
                    assert forall|i: int| 0 <= i < h0[k].len() implies h0[k][i].timestamp
                        <= self.last_time() by {
                        assert(h0[k][i].timestamp <= old(self).last_time());
                    }
                }
            }
        }
        rec
    }

    /// Upsert the display alias for `device_id`; the histories and the
    /// clock are untouched. Always succeeds.
    pub fn register(&mut self, device_id: String, alias: String)
        requires
            old(self).wf(),
        ensures
            final(self).wf(),
            final(self).aliases() == old(self).aliases().insert(device_id@, alias@),
            final(self).history() == old(self).history(),
            final(self).order() == old(self).order(),
            final(self).last_time() == old(self).last_time(),
    {
        self.registry.register(device_id, alias);
        proof {
            assert forall|k: Seq<char>| #[trigger] self.history().contains_key(k) implies ts_sorted(
                self.history()[k],
            ) && ts_bounded(self.history()[k], self.last_time()) by {
                assert(old(self).history().contains_key(k));
                assert(self.history()[k] == old(self).history()[k]);
            }
        }
    }

    /// The registered alias for `device_id`, or `None` if it was never
    /// registered.
    pub fn alias_of(&self, device_id: &String) -> (r: Option<String>)
        requires
            self.wf(),
        ensures
            match r {
                Some(a) => self.aliases().contains_key(device_id@) && a@ == self.aliases()[device_id@],
                None => !self.aliases().contains_key(device_id@),
            },
    {
        self.registry.alias_of(device_id)
    }

    /// The most recent record for `device_id`, or `None` if the device has
    /// never written one.
    pub fn latest(&self, device_id: &String) -> (r: Option<Record>)
        requires
            self.wf(),
        ensures
            match r {
                Some(rec) => self.history().contains_key(device_id@) && self.history()[device_id@].len() > 0
                    && rec == self.history()[device_id@].last(),
                None => !self.history().contains_key(device_id@),
            },
    {
        self.series.latest(device_id)
    }

    /// One consistent copy of the store: for every device with at least one
    /// stored record, its identifier, its shown alias and its most recent
    /// record, in the internal iteration order.
    pub fn snapshot(&self) -> (r: Vec<OutputRecord>)
        requires
            self.wf(),
        ensures
            r@.map_values(|o: OutputRecord| o@) == self.snapshot_model(),
    {
        let mut out: Vec<OutputRecord> = Vec::new();
        let n = self.series.device_count();
        let mut i: usize = 0;
        while i < n
            invariant
                self.wf(),
                n == self.order().len(),
                i <= n,
                out@.len() == i,
                forall|j: int| 0 <= j < i ==> out@[j]@ == self.snapshot_model()[j],
            decreases n - i,
        {
            let id = self.series.device_at(i);
            let rec = self.series.latest_at(i);
            let alias = match self.registry.alias_of(&id) {
                Some(a) => a,
                None => id.clone(),
            };
            out.push(OutputRecord { device_id: id, alias, record: rec });
            i = i + 1;
        }
        proof {
            assert(out@.map_values(|o: OutputRecord| o@) =~= self.snapshot_model());
        }
        out
    }

    /// Law: the devices a snapshot lists are exactly those with at least
    /// one stored record, each exactly once. Registration alone puts no
    /// device into a snapshot.
    pub proof fn lemma_snapshot_devices(&self)
        requires
            self.wf(),
        ensures
            forall|k: Seq<char>|
                (exists|i: int|
                    0 <= i < self.snapshot_model().len() && self.snapshot_model()[i].0 == k)
                    <==> self.history().contains_key(k),
            forall|i: int, j: int|
                0 <= i < j < self.snapshot_model().len() ==> self.snapshot_model()[i].0
                    != self.snapshot_model()[j].0,
    {
        self.series.lemma_order_dom();
        assert forall|k: Seq<char>|
            (exists|i: int|
                0 <= i < self.snapshot_model().len() && self.snapshot_model()[i].0 == k)
                <==> self.history().contains_key(k) by {
            if exists|i: int|
                0 <= i < self.snapshot_model().len() && self.snapshot_model()[i].0 == k {
                let i = choose|i: int|
                    0 <= i < self.snapshot_model().len() && self.snapshot_model()[i].0 == k;
                assert(self.order().contains(k)) by {
                    assert(self.order()[i] == k);
                }
            }
            if self.history().contains_key(k) {
                assert(self.order().contains(k));
                let i = choose|i: int| 0 <= i < self.order().len() && self.order()[i] == k;
                assert(self.snapshot_model()[i].0 == k);
            }
        }
    }

    /// Law: a snapshot reads the store's state and nothing else: two
    /// snapshots of the same state yield the same triples.
    pub proof fn lemma_snapshot_idempotent(
        &self,
        s1: Seq<(Seq<char>, Seq<char>, Record)>,
        s2: Seq<(Seq<char>, Seq<char>, Record)>,
    )
        requires
            s1 == self.snapshot_model(),
            s2 == self.snapshot_model(),
        ensures
            s1 == s2,
    {
    }

    /// Law: within every device's history the timestamps are non-decreasing
    /// in insertion order, and none exceeds the last timestamp the store
    /// handed out.
    pub proof fn lemma_history_sorted(&self)
        requires
            self.wf(),
        ensures
            forall|k: Seq<char>| #[trigger]
                self.history().contains_key(k) ==> ts_sorted(self.history()[k]) && ts_bounded(
                    self.history()[k],
                    self.last_time(),
                ),
    {
    }
}

/// Law: immediately after a write, the written device's latest record is
/// exactly the record the write returned.
pub proof fn lemma_write_latest(h: Map<Seq<char>, Seq<Record>>, k: Seq<char>, r: Record)
    ensures
        buffer_of(h.insert(k, spec_push(buffer_of(h, k), CAPACITY as nat, r)), k).len() > 0,
        buffer_of(h.insert(k, spec_push(buffer_of(h, k), CAPACITY as nat, r)), k).last() == r,
{
}

/// Law: every write contributes exactly one record to the written device —
/// its history grows by one until the capacity is reached and stays at the
/// capacity after — and leaves every other device's history unchanged.
pub proof fn lemma_write_contributes_one(h: Map<Seq<char>, Seq<Record>>, k: Seq<char>, r: Record)
    requires
        buffer_of(h, k).len() <= CAPACITY,
    ensures
        buffer_of(h.insert(k, spec_push(buffer_of(h, k), CAPACITY as nat, r)), k).len()
            == if buffer_of(h, k).len() < CAPACITY {
            buffer_of(h, k).len() + 1
        } else {
            CAPACITY as nat
        },
        forall|k2: Seq<char>|
            k2 != k ==> buffer_of(
                h.insert(k, spec_push(buffer_of(h, k), CAPACITY as nat, r)),
                k2,
            ) == buffer_of(h, k2),
{
    lemma_push_len(buffer_of(h, k), CAPACITY as nat, r);
}

} // verus!
