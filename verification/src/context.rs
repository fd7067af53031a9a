//! Per-connection multiplexing state: identifier allocation and routing.
//!
//! A [`Context`] owns a monotonic identifier counter, a LIFO pool of
//! released identifiers consulted before the counter, and a table mapping
//! each live identifier to its sub-channel: a FIFO queue of routed items
//! plus the consumer's park flag. Delivery is FIFO per identifier; there is
//! no ordering guarantee across distinct identifiers. Routing to an
//! unregistered identifier is a silent no-op rather than an error, because
//! late or duplicate traffic after a local cancellation is expected.

use vstd::prelude::*;

verus! {

/// One registered sub-channel: its identifier, the items routed to it in
/// arrival order, and whether its consumer found the queue empty and parked.
struct Entry<T> {
    id: u64,
    queue: Vec<T>,
    parked: bool,
}

/// Identifier allocation plus the identifier-to-sub-channel routing table
/// of one endpoint of a connected pair.
pub struct Context<T> {
    counter: u64,
    pool: Vec<u64>,
    entries: Vec<Entry<T>>,
}

impl<T> Context<T> {
    /// The next identifier the monotonic counter would hand out.
    pub closed spec fn counter(self) -> u64 {
        self.counter
    }

    /// Released identifiers awaiting reuse; the last one is reused first.
    pub closed spec fn pool(self) -> Seq<u64> {
        self.pool@
    }

    spec fn entry_index(self, id: u64) -> int {
        choose|i: int| 0 <= i < self.entries@.len() && self.entries@[i].id == id
    }

    /// Whether `id` currently routes to a live sub-channel.
    pub closed spec fn is_live(self, id: u64) -> bool {
        exists|i: int| 0 <= i < self.entries@.len() && self.entries@[i].id == id
    }

    /// The items queued on sub-channel `id`, in arrival order.
    pub closed spec fn queue_of(self, id: u64) -> Seq<T>
        recommends
            self.is_live(id),
    {
        self.entries@[self.entry_index(id)].queue@
    }

    /// Whether the consumer of `id` parked after finding nothing ready.
    pub closed spec fn parked(self, id: u64) -> bool
        recommends
            self.is_live(id),
    {
        self.entries@[self.entry_index(id)].parked
    }

    /// Well-formedness: live identifiers are pairwise distinct, the reuse
    /// pool holds no duplicates and no live identifier, and everything the
    /// context ever handed out lies below the counter.
    pub closed spec fn wf(self) -> bool {
        &&& forall|i: int, j: int|
            0 <= i < j < self.entries@.len() ==> self.entries@[i].id != self.entries@[j].id
        &&& forall|i: int, j: int| 0 <= i < j < self.pool@.len() ==> self.pool@[i] != self.pool@[j]
        &&& forall|i: int| 0 <= i < self.pool@.len() ==> self.pool@[i] < self.counter
        &&& forall|i: int| 0 <= i < self.entries@.len() ==> self.entries@[i].id < self.counter
        &&& forall|i: int, j: int|
            0 <= i < self.entries@.len() && 0 <= j < self.pool@.len() ==> self.entries@[i].id
                != self.pool@[j]
    }

    proof fn lemma_entry_index(self, id: u64)
        requires
            self.wf(),
            self.is_live(id),
        ensures
            0 <= self.entry_index(id) < self.entries@.len(),
            self.entries@[self.entry_index(id)].id == id,
            forall|i: int|
                0 <= i < self.entries@.len() && self.entries@[i].id == id ==> i
                    == self.entry_index(id),
    {
        let k = self.entry_index(id);
        assert(0 <= k < self.entries@.len() && self.entries@[k].id == id);
        assert forall|i: int|
            0 <= i < self.entries@.len() && self.entries@[i].id == id implies i == k by {
            if i < k {
                assert(self.entries@[i].id != self.entries@[k].id);
            } else if k < i {
                assert(self.entries@[k].id != self.entries@[i].id);
            }
        }
    }

    /// An empty context: counter at zero, no pooled identifiers, no live
    /// sub-channels.
    pub fn new() -> (r: Context<T>)
        ensures
            r.wf(),
            r.counter() == 0,
            r.pool() =~= Seq::<u64>::empty(),
            forall|id: u64| !r.is_live(id),
    {
        Context { counter: 0, pool: Vec::new(), entries: Vec::new() }
    }

    /// The counter's current value, for capacity checks before forking.
    pub fn counter_value(&self) -> (c: u64)
        ensures
            c == self.counter(),
    {
        self.counter
    }

    /// How many released identifiers await reuse.
    pub fn pool_size(&self) -> (n: usize)
        ensures
            n == self.pool().len(),
    {
        self.pool.len()
    }

    /// Whether `id` currently routes to a live sub-channel — the
    /// executable query deciding [`Context::is_live`], so a caller can test
    /// before polling.
    pub fn live(&self, id: u64) -> (r: bool)
        requires
            self.wf(),
        ensures
            r == self.is_live(id),
    {
        self.find(id).is_some()
    }

    fn find(&self, id: u64) -> (r: Option<usize>)
        requires
            self.wf(),
        ensures
            match r {
                Some(i) => self.is_live(id) && i == self.entry_index(id),
                None => !self.is_live(id),
            },
    {
        let mut i: usize = 0;
        while i < self.entries.len()
            invariant
                self.wf(),
                0 <= i <= self.entries@.len(),
                forall|j: int| 0 <= j < i ==> self.entries@[j].id != id,
            decreases self.entries@.len() - i,
        {
            if self.entries[i].id == id {
                proof {
                    self.lemma_entry_index(id);
                }
                return Some(i);
            }
            i = i + 1;
        }
        None
    }

    /// Allocate the next free identifier — the most recently released one
    /// if any, else the counter — and register an empty sub-channel for it.
    ///
    /// Outstanding identifiers stay pairwise distinct: the returned
    /// identifier was not live before the call. After releasing an
    /// identifier, the next fork returns it before the counter advances.
    pub fn fork(&mut self) -> (id: u64)
        requires
            old(self).wf(),
            old(self).pool().len() > 0 || old(self).counter() < u64::MAX,
        ensures
            final(self).wf(),
            !old(self).is_live(id),
            final(self).is_live(id),
            final(self).queue_of(id) =~= Seq::<T>::empty(),
            !final(self).parked(id),
            forall|o: u64| o != id ==> final(self).is_live(o) == old(self).is_live(o),
            forall|o: u64|
                o != id && old(self).is_live(o) ==> final(self).queue_of(o) == old(self).queue_of(o)
                    && final(self).parked(o) == old(self).parked(o),
            if old(self).pool().len() > 0 {
                id == old(self).pool().last() && final(self).pool() =~= old(self).pool().drop_last()
                    && final(self).counter() == old(self).counter()
            } else {
                id == old(self).counter() && final(self).pool() =~= old(self).pool() && final(self).counter()
                    == old(self).counter() + 1
            },
    {
        let id = match self.pool.pop() {
            Some(id) => id,
            None => {
                let id = self.counter;
                self.counter = self.counter + 1;
                id
            },
        };
        self.entries.push(Entry { id, queue: Vec::new(), parked: false });
        proof {
            let n = self.entries@.len() - 1;
            assert(self.entries@[n].id == id);
            assert(self.wf());
            self.lemma_entry_index(id);
            assert forall|o: u64| o != id && old(self).is_live(o) implies self.queue_of(o) == old(
                self,
            ).queue_of(o) && self.parked(o) == old(self).parked(o) by {
                old(self).lemma_entry_index(o);
                let i = old(self).entry_index(o);
                assert(self.entries@[i].id == o);
                self.lemma_entry_index(o);
            }
            assert forall|o: u64| o != id implies self.is_live(o) == old(self).is_live(o) by {
                if old(self).is_live(o) {
                    old(self).lemma_entry_index(o);
                    let k = old(self).entry_index(o);
                    assert(self.entries@[k].id == o);
                }
                if self.is_live(o) {
                    self.lemma_entry_index(o);
                    let k = self.entry_index(o);
                    assert(k < n + 1);
                    assert(old(self).entries@[k].id == o);
                }
            }
        }
        id
    }

    /// Deliver `item` on sub-channel `id`, appending it to the queue.
    ///
    /// Routing to an identifier with no live sub-channel is a silent no-op:
    /// the context is left exactly as it was. Either way, no sub-channel
    /// other than `id` is affected. The returned flag says whether a parked
    /// consumer must be woken.
    pub fn route(&mut self, id: u64, item: T) -> (wake: bool)
        requires
            old(self).wf(),
        ensures
            final(self).wf(),
            final(self).counter() == old(self).counter(),
            final(self).pool() == old(self).pool(),
            forall|o: u64| final(self).is_live(o) == old(self).is_live(o),
            old(self).is_live(id) ==> final(self).queue_of(id) =~= old(self).queue_of(id).push(item)
                && final(self).parked(id) == old(self).parked(id),
            !old(self).is_live(id) ==> *final(self) == *old(self),
            forall|o: u64|
                o != id && old(self).is_live(o) ==> final(self).queue_of(o) == old(self).queue_of(o)
                    && final(self).parked(o) == old(self).parked(o),
            wake == (old(self).is_live(id) && old(self).parked(id)),
    {
        match self.find(id) {
            Some(i) => {
                proof {
                    old(self).lemma_entry_index(id);
                }
                let mut entry = self.entries.remove(i);
                let wake = entry.parked;
                entry.queue.push(item);
                self.entries.insert(i, entry);
                proof {
                    assert(self.entries@ =~= old(self).entries@.update(
                        i as int,
                        self.entries@[i as int],
                    ));
                    assert(self.entries@[i as int].id == id);
                    assert(self.wf());
                    self.lemma_entry_index(id);
                    assert forall|o: u64|
                        o != id && old(self).is_live(o) implies self.queue_of(o) == old(
                        self,
                    ).queue_of(o) && self.parked(o) == old(self).parked(o) by {
                        old(self).lemma_entry_index(o);
                        let k = old(self).entry_index(o);
                        assert(self.entries@[k].id == o);
                        self.lemma_entry_index(o);
                    }
                    assert forall|o: u64| self.is_live(o) == old(self).is_live(o) by {
                        if old(self).is_live(o) {
                            let k = old(self).entry_index(o);
                            assert(0 <= k < self.entries@.len() && self.entries@[k].id == o);
                        }
                        if self.is_live(o) {
                            let k = self.entry_index(o);
                            assert(0 <= k < old(self).entries@.len() && old(self).entries@[k].id
                                == o);
                        }
                    }
                }
                wake
            },
            None => false,
        }
    }

    /// Take the item at the front of sub-channel `id`, if any; otherwise
    /// record that the consumer parked. Items come out in routing order.
    pub fn poll(&mut self, id: u64) -> (r: Option<T>)
        requires
            old(self).wf(),
            old(self).is_live(id),
        ensures
            final(self).wf(),
            final(self).counter() == old(self).counter(),
            final(self).pool() == old(self).pool(),
            forall|o: u64| final(self).is_live(o) == old(self).is_live(o),
            forall|o: u64|
                o != id && old(self).is_live(o) ==> final(self).queue_of(o) == old(self).queue_of(o)
                    && final(self).parked(o) == old(self).parked(o),
            match r {
                Some(item) => old(self).queue_of(id).len() > 0 && item == old(self).queue_of(id)[0]
                    && final(self).queue_of(id) =~= old(self).queue_of(id).drop_first() && !final(self).parked(
                    id,
                ),
                None => old(self).queue_of(id).len() == 0 && final(self).queue_of(id) =~= old(
                    self,
                ).queue_of(id) && final(self).parked(id),
            },
    {
        let i = match self.find(id) {
            Some(i) => i,
            None => {
                proof {
                    assert(false);
                }
                0
            },
        };
        proof {
            old(self).lemma_entry_index(id);
        }
        let mut entry = self.entries.remove(i);
        let r = if entry.queue.len() > 0 {
            entry.parked = false;
            Some(entry.queue.remove(0))
        } else {
            entry.parked = true;
            None
        };
        self.entries.insert(i, entry);
        proof {
            assert(self.entries@ =~= old(self).entries@.update(i as int, self.entries@[i as int]));
            assert(self.entries@[i as int].id == id);
            assert(self.wf());
            self.lemma_entry_index(id);
            assert forall|o: u64|
                o != id && old(self).is_live(o) implies self.queue_of(o) == old(self).queue_of(o)
                && self.parked(o) == old(self).parked(o) by {
                old(self).lemma_entry_index(o);
                let k = old(self).entry_index(o);
                assert(self.entries@[k].id == o);
                self.lemma_entry_index(o);
            }
            assert forall|o: u64| self.is_live(o) == old(self).is_live(o) by {
                if old(self).is_live(o) {
                    let k = old(self).entry_index(o);
                    assert(0 <= k < self.entries@.len() && self.entries@[k].id == o);
                }
                if self.is_live(o) {
                    let k = self.entry_index(o);
                    assert(0 <= k < old(self).entries@.len() && old(self).entries@[k].id == o);
                }
            }
        }
        r
    }

    /// Remove the routing entry for `id`, discarding any still-queued
    /// items, and return the identifier to the reuse pool.
    pub fn release(&mut self, id: u64)
        requires
            old(self).wf(),
            old(self).is_live(id),
        ensures
            final(self).wf(),
            final(self).counter() == old(self).counter(),
            final(self).pool() =~= old(self).pool().push(id),
            !final(self).is_live(id),
            forall|o: u64| o != id ==> final(self).is_live(o) == old(self).is_live(o),
            forall|o: u64|
                o != id && old(self).is_live(o) ==> final(self).queue_of(o) == old(self).queue_of(o)
                    && final(self).parked(o) == old(self).parked(o),
    {
        let i = match self.find(id) {
            Some(i) => i,
            None => {
                proof {
                    assert(false);
                }
                0
            },
        };
        proof {
            old(self).lemma_entry_index(id);
        }
        self.entries.remove(i);
        self.pool.push(id);
        proof {
            assert forall|k: int| 0 <= k < self.entries@.len() implies self.entries@[k].id != id by {
                if k < i {
                    assert(self.entries@[k] == old(self).entries@[k]);
                } else {
                    assert(self.entries@[k] == old(self).entries@[k + 1]);
                }
            }
            assert(self.wf());
            assert forall|o: u64| o != id && old(self).is_live(o) implies self.is_live(o) by {
                let k = old(self).entry_index(o);
                old(self).lemma_entry_index(o);
                if k < i {
                    assert(self.entries@[k].id == o);
                } else {
                    assert(self.entries@[k - 1].id == o);
                }
            }
            assert forall|o: u64| o != id && self.is_live(o) implies old(self).is_live(o) by {
                let k = self.entry_index(o);
                self.lemma_entry_index(o);
                if k < i {
                    assert(old(self).entries@[k].id == o);
                } else {
                    assert(old(self).entries@[k + 1].id == o);
                }
            }
            assert forall|o: u64|
                o != id && old(self).is_live(o) implies self.queue_of(o) == old(self).queue_of(o)
                && self.parked(o) == old(self).parked(o) by {
                old(self).lemma_entry_index(o);
                let k = old(self).entry_index(o);
                if k < i {
                    assert(self.entries@[k].id == o);
                } else {
                    assert(self.entries@[k - 1].id == o);
                }
                self.lemma_entry_index(o);
            }
        }
    }

    /// Register a sub-channel for an identifier the peer allocated. If the
    /// identifier is already live, nothing changes. Otherwise an empty
    /// sub-channel is registered, the identifier leaves the reuse pool if it
    /// sat there, and the counter moves past it so a later fork cannot
    /// collide with it.
    pub fn accept(&mut self, id: u64)
        requires
            old(self).wf(),
            id < u64::MAX,
        ensures
            final(self).wf(),
            final(self).is_live(id),
            old(self).is_live(id) ==> *final(self) == *old(self),
            !old(self).is_live(id) ==> {
                &&& final(self).queue_of(id) =~= Seq::<T>::empty()
                &&& !final(self).parked(id)
                &&& final(self).counter() >= old(self).counter()
                &&& forall|o: u64| o != id ==> final(self).is_live(o) == old(self).is_live(o)
            },
            forall|o: u64|
                o != id && old(self).is_live(o) ==> final(self).queue_of(o) == old(self).queue_of(o)
                    && final(self).parked(o) == old(self).parked(o),
    {
        match self.find(id) {
            Some(_) => {},
            None => {
                let mut j: usize = 0;
                let mut found: Option<usize> = None;
                while j < self.pool.len() && found.is_none()
                    invariant
                        0 <= j <= self.pool@.len(),
                        match found {
                            Some(k) => k < self.pool@.len() && self.pool@[k as int] == id,
                            None => forall|k: int| 0 <= k < j ==> self.pool@[k] != id,
                        },
                    decreases self.pool@.len() - j,
                {
                    if self.pool[j] == id {
                        found = Some(j);
                    }
                    j = j + 1;
                }
                if let Some(k) = found {
                    self.pool.remove(k);
                }
                if self.counter <= id {
                    self.counter = id + 1;
                }
                self.entries.push(Entry { id, queue: Vec::new(), parked: false });
                proof {
                    let n = self.entries@.len() - 1;
                    assert(self.entries@[n].id == id);
                    assert(self.wf());
                    self.lemma_entry_index(id);
                    assert forall|o: u64|
                        o != id && old(self).is_live(o) implies self.queue_of(o) == old(
                        self,
                    ).queue_of(o) && self.parked(o) == old(self).parked(o) by {
                        old(self).lemma_entry_index(o);
                        let k = old(self).entry_index(o);
                        assert(self.entries@[k].id == o);
                        self.lemma_entry_index(o);
                    }
                    assert forall|o: u64| o != id implies self.is_live(o) == old(self).is_live(
                        o,
                    ) by {
                        if old(self).is_live(o) {
                            old(self).lemma_entry_index(o);
                            let k = old(self).entry_index(o);
                            assert(self.entries@[k].id == o);
                        }
                        if self.is_live(o) {
                            self.lemma_entry_index(o);
                            let k = self.entry_index(o);
                            assert(k < n + 1);
                            assert(old(self).entries@[k].id == o);
                        }
                    }
                }
            },
        }
    }
}

/// Items routed in order on one identifier are observed in that order:
/// routing `a` then `b` onto a queue places `a` strictly before `b`, and
/// [`Context::poll`] always yields the front of the queue, so a consumer
/// sees `a` before `b` however routing on other identifiers interleaves
/// with them — [`Context::route`] on any other identifier leaves this
/// queue untouched.
pub proof fn lemma_per_identifier_order<T>(q: Seq<T>, a: T, b: T)
    ensures
        q.push(a).push(b).len() == q.len() + 2,
        q.push(a).push(b)[q.len() as int] == a,
        q.push(a).push(b)[q.len() as int + 1] == b,
        forall|i: int| 0 <= i < q.len() ==> q.push(a).push(b)[i] == q[i],
{
}

} // verus!
