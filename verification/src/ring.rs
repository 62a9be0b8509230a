//! A fixed-capacity FIFO history buffer with O(1) push and O(1) access to
//! the most recent element.
//!
//! The buffer is a circular array: records live in `buf`, the oldest one at
//! index `start`. While the buffer is still filling, `start` stays 0 and a
//! push appends; once `buf` holds `cap` records, a push overwrites the
//! oldest slot and advances `start`, so eviction never shifts elements.

use vstd::prelude::*;
use crate::data::Record;

verus! {

/// What one push does to a buffer's contents at capacity `cap`: append the
/// record, evicting the oldest element first when the buffer is full.
pub open spec fn spec_push(s: Seq<Record>, cap: nat, r: Record) -> Seq<Record> {
    if s.len() < cap {
        s.push(r)
    } else {
        s.drop_first().push(r)
    }
}

/// The contents after a whole sequence of pushes `ws`, oldest write first,
/// starting from contents `s0`.
pub open spec fn after_writes(s0: Seq<Record>, cap: nat, ws: Seq<Record>) -> Seq<Record>
    decreases ws.len(),
{
    if ws.len() == 0 {
        s0
    } else {
        spec_push(after_writes(s0, cap, ws.drop_last()), cap, ws.last())
    }
}

/// The timestamps are non-decreasing in insertion order.
pub open spec fn ts_sorted(s: Seq<Record>) -> bool {
    forall|i: int, j: int| 0 <= i <= j < s.len() ==> s[i].timestamp <= s[j].timestamp
}

/// Every timestamp is at most `t`.
pub open spec fn ts_bounded(s: Seq<Record>, t: u64) -> bool {
    forall|i: int| 0 <= i < s.len() ==> s[i].timestamp <= t
}

/// Fixed-capacity FIFO container of records; its view is the contents in
/// insertion order, oldest first.
pub struct RingBuffer {
    buf: Vec<Record>,
    start: usize,
    cap: usize,
}

impl View for RingBuffer {
    type V = Seq<Record>;

    closed spec fn view(&self) -> Seq<Record> {
        self.buf@.subrange(self.start as int, self.buf.len() as int)
            + self.buf@.subrange(0, self.start as int)
    }
}

impl RingBuffer {
    /// The capacity fixed at construction.
    pub closed spec fn capacity(&self) -> nat {
        self.cap as nat
    }

    /// The circular representation is consistent: the array never exceeds
    /// the capacity, and `start` points into it, staying 0 until the array
    /// is full.
    pub closed spec fn wf(&self) -> bool {
        &&& self.cap >= 1
        &&& self.buf.len() <= self.cap
        &&& (self.buf.len() < self.cap ==> self.start == 0)
        &&& (self.buf.len() == self.cap ==> self.start < self.cap)
    }

    /// An empty buffer of the given capacity.
    pub fn new(cap: usize) -> (r: RingBuffer)
        requires
            cap >= 1,
        ensures
            r.wf(),
            r@ == Seq::<Record>::empty(),
            r.capacity() == cap,
    {
        let r = RingBuffer { buf: Vec::new(), start: 0, cap };
        proof {
            assert(r@ =~= Seq::<Record>::empty());
        }
        r
    }

    /// How many records are stored.
    pub fn len(&self) -> (n: usize)
        requires
            self.wf(),
        ensures
            n == self@.len(),
    {
        self.buf.len()
    }

    /// Append a record, silently evicting the oldest one when the buffer
    /// is full. Never fails.
    pub fn push(&mut self, r: Record)
        requires
            old(self).wf(),
        ensures
            final(self).wf(),
            final(self).capacity() == old(self).capacity(),
            final(self)@ == spec_push(old(self)@, old(self).capacity(), r),
    {
        if self.buf.len() < self.cap {
            self.buf.push(r);
            proof {
                assert(self@ =~= old(self)@.push(r));
            }
        } else {
            let s0 = self.start;
            self.buf[s0] = r;
            self.start = if s0 + 1 == self.cap { 0 } else { s0 + 1 };
            proof {
                assert(self@ =~= old(self)@.drop_first().push(r));
            }
        }
    }

    /// The record at position `i` of the insertion order, 0 being the
    /// oldest one stored.
    pub fn get(&self, i: usize) -> (r: Record)
        requires
            self.wf(),
            i < self@.len(),
        ensures
            r == self@[i as int],
    {
        let j = if i < self.buf.len() - self.start {
            self.start + i
        } else {
            i - (self.buf.len() - self.start)
        };
        proof {
            assert(self@[i as int] == self.buf@[j as int]);
        }
        self.buf[j]
    }

    /// The most recently pushed record of a non-empty buffer.
    pub fn last(&self) -> (r: Record)
        requires
            self.wf(),
            self@.len() > 0,
        ensures
            r == self@.last(),
    {
        let i = if self.start == 0 { self.buf.len() - 1 } else { self.start - 1 };
        proof {
            assert(self@.last() == self.buf@[i as int]);
        }
        self.buf[i]
    }

    /// The most recently pushed record, or `None` while the buffer is
    /// empty.
    pub fn latest(&self) -> (r: Option<Record>)
        requires
            self.wf(),
        ensures
            match r {
                Some(rec) => self@.len() > 0 && rec == self@.last(),
                None => self@.len() == 0,
            },
    {
        if self.buf.len() == 0 {
            None
        } else {
            Some(self.last())
        }
    }
}

/// Law: one push grows the contents by exactly one record until the
/// capacity is reached, and never past it.
pub proof fn lemma_push_len(s: Seq<Record>, cap: nat, r: Record)
    requires
        cap >= 1,
        s.len() <= cap,
    ensures
        spec_push(s, cap, r).len() <= cap,
        spec_push(s, cap, r).len() == if s.len() < cap { s.len() + 1 } else { cap },
{
}

/// Law: after any non-empty sequence of writes, the most recent element of
/// the buffer is exactly the last record written.
pub proof fn lemma_latest_after_writes(s0: Seq<Record>, cap: nat, ws: Seq<Record>)
    requires
        ws.len() > 0,
    ensures
        after_writes(s0, cap, ws).len() > 0,
        after_writes(s0, cap, ws).last() == ws.last(),
{
}

/// Law: a buffer filled from empty holds the writes themselves while they
/// fit, and exactly the most recent `cap` of them, in insertion order, once
/// they do not: the length never exceeds `cap`, and with `cap + 1` writes
/// the very first record is the one evicted.
pub proof fn lemma_after_writes_from_empty(cap: nat, ws: Seq<Record>)
    requires
        cap >= 1,
    ensures
        after_writes(Seq::<Record>::empty(), cap, ws) == if ws.len() <= cap {
            ws
        } else {
            ws.subrange(ws.len() - cap, ws.len() as int)
        },
    decreases ws.len(),
{
    if ws.len() == 0 {
        assert(after_writes(Seq::<Record>::empty(), cap, ws) =~= ws);
    } else {
        lemma_after_writes_from_empty(cap, ws.drop_last());
        let prev = after_writes(Seq::<Record>::empty(), cap, ws.drop_last());
        if ws.len() <= cap {
            assert(prev == ws.drop_last());
            assert(spec_push(prev, cap, ws.last()) =~= ws);
        } else if ws.len() == cap + 1 {
            assert(prev == ws.drop_last());
            assert(spec_push(prev, cap, ws.last()) =~= ws.subrange(1, ws.len() as int));
        } else {
            assert(prev =~= ws.subrange(ws.len() - 1 - cap, ws.len() - 1));
            assert(spec_push(prev, cap, ws.last()) =~= ws.subrange(ws.len() - cap, ws.len() as int));
        }
    }
}

/// Law: pushing a record whose timestamp is no earlier than everything
/// stored keeps the contents sorted by timestamp and bounded by that
/// timestamp.
pub proof fn lemma_push_sorted(s: Seq<Record>, cap: nat, r: Record)
    requires
        cap >= 1,
        s.len() <= cap,
        ts_sorted(s),
        ts_bounded(s, r.timestamp),
    ensures
        ts_sorted(spec_push(s, cap, r)),
        ts_bounded(spec_push(s, cap, r), r.timestamp),
{
    let out = spec_push(s, cap, r);
    assert forall|k: int| 0 <= k < out.len() implies out[k].timestamp <= r.timestamp by {
        if k < out.len() - 1 {
            if s.len() < cap {
                assert(out[k] == s[k]);
            } else {
                assert(out[k] == s[k + 1]);
            }
        } else {
            assert(out[k] == r);
        }
    }
    assert forall|i: int, j: int| 0 <= i <= j < out.len() implies out[i].timestamp
        <= out[j].timestamp by {
        if j < out.len() - 1 {
            if s.len() < cap {
                assert(out[i] == s[i]);
                assert(out[j] == s[j]);
            } else {
                assert(out[i] == s[i + 1]);
                assert(out[j] == s[j + 1]);
            }
        } else {
            assert(out[j] == r);
            assert(out[i].timestamp <= r.timestamp);
        }
    }
}

} // verus!
