//! The server-side adapter: Calls in, Responses out.
//!
//! A [`Shim`] wraps a concrete implementation of the interface. It is a
//! sink for [`CallMessage`]s and a source of [`Response`]s: an incoming
//! request invokes the matching local method, decomposes the returned
//! value, and emits its fragments — fragment 0 for the top-level result,
//! a freshly forked sub-channel identifier for each nested pending part —
//! tagged with the request's call identifier, merged into the one outgoing
//! Response stream. Nested pending contents wait as obligations and are
//! decomposed one per [`Shim::pump`] step, so every step terminates. The
//! shim also implements the interface itself, forwarding directly to the
//! wrapped implementation.

use vstd::prelude::*;

use crate::context::Context;
use crate::kind::{deconstruct, deconstruct_post, is_wire, ready_count, waiting_ids, Value};
use crate::wire::{CallMessage, Response};

verus! {

/// A local implementation the shim can dispatch into: one entry point per
/// interface, selecting a method by its discriminant. An implementation
/// must return a deliverable value — every pending part already resolved —
/// since the shim cannot transmit a value that still waits on something.
pub trait Service: Sized {
    /// The implementation's behavioural contract: which result and
    /// successor state `invoke` may produce for a method and its arguments.
    /// Each implementation fixes it, and the shim's own contracts carry it
    /// through, so what the shim returns or emits is pinned by the
    /// implementation's specification.
    spec fn post(self, method: u64, args: Seq<Value>, r: Value, next: Self) -> bool;

    fn invoke(&mut self, method: u64, args: Vec<Value>) -> (r: Value)
        ensures
            crate::kind::is_grounded(r),
            old(self).post(method, args@, r, *final(self)),
    ;
}

/// The dispatch adapter around one implementation.
pub struct Shim<T: Service> {
    inner: T,
    frags: Context<Value>,
    obligations: Vec<(u64, u64, Value)>,
    out: Vec<Response>,
    relayed: Vec<Response>,
    parked: bool,
}

impl<T: Service> Shim<T> {
    /// The merged outgoing Response stream, oldest first.
    pub closed spec fn out(self) -> Seq<Response> {
        self.out@
    }

    /// The nested pending contents not yet decomposed, each tagged with its
    /// call identifier and its forked fragment identifier.
    pub closed spec fn obligations(self) -> Seq<(u64, u64, Value)> {
        self.obligations@
    }

    /// In-band responses received under the reserved relay discriminant,
    /// kept for the local forwarding path.
    pub closed spec fn relayed(self) -> Seq<Response> {
        self.relayed@
    }

    /// Whether the consumer of the outgoing stream parked.
    pub closed spec fn parked(self) -> bool {
        self.parked
    }

    /// The fragment-identifier counter.
    pub closed spec fn fragment_counter(self) -> u64 {
        self.frags.counter()
    }

    /// The wrapped implementation.
    pub closed spec fn inner(self) -> T {
        self.inner
    }

    /// Well-formedness: the fragment allocator is sound, identifier 0 is
    /// reserved for top-level results and never re-forked, and every held
    /// obligation is deliverable.
    pub closed spec fn wf(self) -> bool {
        &&& self.frags.wf()
        &&& self.frags.is_live(0)
        &&& self.frags.pool().len() == 0
        &&& forall|k: int, id: u64|
            0 <= k < self.obligations@.len() ==> !(#[trigger] waiting_ids(
                self.obligations@[k].2,
            ).contains(id))
        &&& forall|k: int| 0 <= k < self.obligations@.len() ==> #[trigger] self.obligations@[k].1
            >= 1
    }

    /// Wrap an implementation; nothing is queued yet, and fragment
    /// identifier 0 is reserved for top-level results.
    pub fn new(inner: T) -> (r: Shim<T>)
        ensures
            r.wf(),
            r.out() =~= Seq::<Response>::empty(),
            r.obligations() =~= Seq::<(u64, u64, Value)>::empty(),
            r.relayed() =~= Seq::<Response>::empty(),
            !r.parked(),
            r.inner() == inner,
            r.fragment_counter() == 1,
    {
        let mut frags: Context<Value> = Context::new();
        let top_level = frags.fork();
        proof {
            assert(top_level == 0);
        }
        Shim {
            inner,
            frags,
            obligations: Vec::new(),
            out: Vec::new(),
            relayed: Vec::new(),
            parked: false,
        }
    }

    /// Decompose one returned value and emit its fragments for `call_id`:
    /// a unit value emits nothing; any other deliverable value — unwrapped
    /// once if it is a resolved pending value, since the call's own
    /// sub-channel already carries it — is decomposed, its wire form goes
    /// out as fragment 0, and each nested pending content joins the
    /// obligations under its freshly forked fragment identifier. With the
    /// fragment-identifier space exhausted nothing is emitted.
    pub fn emit_result(&mut self, call_id: u64, rv: Value) -> (emitted: bool)
        requires
            old(self).wf(),
            forall|id: u64| !waiting_ids(rv).contains(id),
        ensures
            final(self).wf(),
            final(self).relayed() == old(self).relayed(),
            final(self).parked() == old(self).parked(),
            final(self).inner() == old(self).inner(),
            emitted == (!(rv is Unit) && ready_count(payload_of(rv)) + old(self).fragment_counter() <= u64::MAX),
            !emitted ==> final(self).out() == old(self).out() && final(self).obligations() == old(self).obligations() && final(self).fragment_counter() == old(self).fragment_counter(),
            emitted ==> {
                &&& final(self).fragment_counter() == old(self).fragment_counter() + ready_count(
                    payload_of(rv),
                )
                &&& final(self).out().len() == old(self).out().len() + 1
                &&& final(self).out().subrange(0, old(self).out().len() as int) =~= old(self).out()
                &&& final(self).out().last().call_id == call_id
                &&& final(self).out().last().fragment == 0
                &&& is_wire(final(self).out().last().data)
                &&& final(self).obligations().len() == old(self).obligations().len() + ready_count(
                    payload_of(rv),
                )
                &&& final(self).obligations().subrange(0, old(self).obligations().len() as int)
                    =~= old(self).obligations()
                &&& forall|k: int|
                    old(self).obligations().len() <= k < final(self).obligations().len() ==> (
                    #[trigger] final(self).obligations()[k]).0 == call_id && final(self).obligations()[k].1 as int == old(self).fragment_counter() + (k - old(self).obligations().len())
                &&& resolve_fragments(
                    final(self).out().last().data,
                    final(self).obligations().skip(old(self).obligations().len() as int),
                ) == payload_of(rv)
            },
    {
        let ghost rvg = rv;
        if matches!(rv, Value::Unit) {
            return false;
        }
        let inner_v = match rv {
            Value::Ready(b) => *b,
            other => other,
        };
        proof {
            assert(inner_v == payload_of(rvg));
            assert(waiting_ids(inner_v) == waiting_ids(rvg));
        }
        let capacity = match crate::kind::count_ready(&inner_v) {
            Some(n) => n <= u64::MAX - self.frags.counter_value(),
            None => false,
        };
        if !capacity {
            return false;
        }
        let ghost frags0 = self.frags;
        let mut obs: Vec<(u64, Value)> = Vec::new();
        let w = deconstruct(inner_v, &mut self.frags, &mut obs);
        let ghost obs_seq = obs@;
        let ghost obligations0 = self.obligations@;
        proof {
            assert(obs_seq.skip(0) =~= obs_seq);
            assert(deconstruct_post(inner_v, frags0, self.frags, Seq::empty(), obs_seq, w));
        }
        let ghost frags1 = self.frags;
        let mut i: usize = 0;
        #[verifier::loop_isolation(false)]
        while i < obs.len()
            invariant
                obs@ == obs_seq,
                0 <= i <= obs@.len(),
                self.frags == frags1,
                self.out@ == old(self).out@,
                self.relayed@ == old(self).relayed@,
                self.parked == old(self).parked,
                self.inner == old(self).inner,
                self.obligations@.len() == obligations0.len() + i,
                self.obligations@.subrange(0, obligations0.len() as int) =~= obligations0,
                forall|k: int|
                    0 <= k < i ==> #[trigger] self.obligations@[obligations0.len() + k] == (
                    call_id,
                    obs@[k].0,
                    obs@[k].1,
                ),
            decreases obs@.len() - i,
        {
            let (fid, content) = (obs[i].0, obs[i].1.dup());
            self.obligations.push((call_id, fid, content));
            i = i + 1;
        }
        self.out.push(Response { call_id, fragment: 0, data: w });
        proof {
            let new_obs = self.obligations@.skip(obligations0.len() as int);
            let pairs = Seq::new(new_obs.len(), |k: int| (new_obs[k].1, new_obs[k].2));
            assert forall|k: int| 0 <= k < pairs.len() implies pairs[k] == obs_seq[k] by {
                assert(new_obs[k] == self.obligations@[obligations0.len() + k]);
            }
            assert(pairs =~= obs_seq);
            assert(resolve_fragments(w, new_obs) == crate::kind::resolve_all(
                w,
                crate::kind::pairs_map(pairs),
            ));
            assert forall|k: int, id: u64|
                0 <= k < self.obligations@.len() implies !(#[trigger] waiting_ids(
                self.obligations@[k].2,
            ).contains(id)) by {
                if k < obligations0.len() {
                    assert(self.obligations@.subrange(0, obligations0.len() as int)[k]
                        == self.obligations@[k]);
                    assert(self.obligations@[k] == obligations0[k]);
                } else {
                    let j = k - obligations0.len();
                    assert(self.obligations@[obligations0.len() + j] == (
                        call_id,
                        obs_seq[j].0,
                        obs_seq[j].1,
                    ));
                    if waiting_ids(self.obligations@[k].2).contains(id) {
                        assert(waiting_ids(obs_seq[j].1).contains(id));
                        assert(obs_seq.skip(0)[j] == obs_seq[j]);
                        assert(waiting_ids(inner_v).contains(id));
                    }
                }
            }
            assert forall|k: int| 0 <= k < self.obligations@.len() implies #[trigger] self.obligations@[k].1
                >= 1 by {
                if k < obligations0.len() {
                    assert(self.obligations@.subrange(0, obligations0.len() as int)[k]
                        == self.obligations@[k]);
                    assert(self.obligations@[k] == obligations0[k]);
                } else {
                    let j = k - obligations0.len();
                    assert(self.obligations@[obligations0.len() + j] == (
                        call_id,
                        obs_seq[j].0,
                        obs_seq[j].1,
                    ));
                    assert(obs_seq.skip(0)[j] == obs_seq[j]);
                    assert(!frags0.is_live(obs_seq[j].0));
                    assert(frags0.is_live(0));
                }
            }
            assert forall|k: int|
                obligations0.len() <= k < self.obligations@.len() implies (
            #[trigger] self.obligations@[k]).0 == call_id && self.obligations@[k].1 as int
                == frags0.counter() + (k - obligations0.len()) by {
                let j = k - obligations0.len();
                assert(self.obligations@[obligations0.len() + j] == (
                    call_id,
                    obs_seq[j].0,
                    obs_seq[j].1,
                ));
                assert(obs_seq.skip(0)[j] == obs_seq[j]);
                assert(obs_seq.skip(0)[j].0 as int == frags0.counter() + j);
            }
            assert(frags0.is_live(0));
            assert(self.frags.is_live(0));
        }
        true
    }

    /// Receive one decoded call frame. A request invokes the matching
    /// local method and emits the result's fragments; a relayed in-band
    /// response is kept for the local forwarding path. The returned flag
    /// says whether a parked consumer of the outgoing stream must wake.
    pub fn handle_call(&mut self, m: CallMessage) -> (wake: bool)
        requires
            old(self).wf(),
        ensures
            final(self).wf(),
            final(self).parked() == old(self).parked(),
            match m {
                CallMessage::Invoke(c) => final(self).relayed() == old(self).relayed() && exists|
                    rv: Value,
                |
                    {
                        &&& crate::kind::is_grounded(rv)
                        &&& old(self).inner().post(c.method, c.args@, rv, final(self).inner())
                        &&& #[trigger] emitted_for(*old(self), *final(self), c.call_id, rv)
                    },
                CallMessage::Relay(p) => final(self).relayed() =~= old(self).relayed().push(p)
                    && final(self).out() == old(self).out() && final(self).obligations() == old(self).obligations(),
            },
            wake == (old(self).parked() && final(self).out().len() > old(self).out().len()),
    {
        match m {
            CallMessage::Invoke(c) => {
                let ghost inner0 = self.inner;
                let rv = self.inner.invoke(c.method, c.args);
                proof {
                    crate::kind::lemma_grounded_no_waiting(rv);
                }
                let ghost rvg = rv;
                let ghost inner1 = self.inner;
                let ghost pre = *self;
                let emitted = self.emit_result(c.call_id, rv);
                proof {
                    assert(pre.out() == old(self).out() && pre.relayed() == old(self).relayed()
                        && pre.obligations() == old(self).obligations() && pre.fragment_counter()
                        == old(self).fragment_counter());
                    assert(emitted_for(*old(self), *self, c.call_id, rvg));
                    assert(self.inner() == inner1);
                    assert(old(self).inner().post(c.method, c.args@, rvg, self.inner()));
                }
                emitted && self.parked
            },
            CallMessage::Relay(p) => {
                self.relayed.push(p);
                false
            },
        }
    }

    /// Decompose one waiting obligation — first queued, first served — and
    /// emit its fragment. Every nested pending part forks a further
    /// fragment and joins the obligations in turn, so one step always
    /// terminates even for arbitrarily nested values. Nothing happens on an
    /// empty obligation list; with the fragment-identifier space exhausted
    /// the obligation is discarded undelivered.
    pub fn pump(&mut self) -> (progress: bool)
        requires
            old(self).wf(),
        ensures
            final(self).wf(),
            final(self).relayed() == old(self).relayed(),
            final(self).parked() == old(self).parked(),
            final(self).inner() == old(self).inner(),
            progress == (old(self).obligations().len() > 0),
            !progress ==> final(self).out() == old(self).out() && final(self).obligations() == old(self).obligations() && final(self).fragment_counter() == old(self).fragment_counter(),
            progress ==> {
                &&& (final(self).out().len() == old(self).out().len() + 1 <==> ready_count(
                    old(self).obligations()[0].2,
                ) + old(self).fragment_counter() <= u64::MAX)
                &&& (final(self).out().len() == old(self).out().len() ==> final(self).obligations()
                    =~= old(self).obligations().drop_first() && final(self).fragment_counter()
                    == old(self).fragment_counter())
                &&& final(self).obligations().subrange(
                    0,
                    old(self).obligations().len() - 1,
                ) =~= old(self).obligations().drop_first()
                &&& final(self).out().len() <= old(self).out().len() + 1
                &&& final(self).out().subrange(0, old(self).out().len() as int) =~= old(self).out()
                &&& (final(self).out().len() == old(self).out().len() + 1 ==> {
                    &&& final(self).fragment_counter() == old(self).fragment_counter()
                        + ready_count(old(self).obligations()[0].2)
                    &&& final(self).obligations().len() == old(self).obligations().len() - 1
                        + ready_count(old(self).obligations()[0].2)
                    &&& forall|k: int|
                        old(self).obligations().len() - 1 <= k < final(self).obligations().len()
                            ==> (#[trigger] final(self).obligations()[k]).0 == old(self).obligations()[0].0 && final(self).obligations()[k].1 as int == old(self).fragment_counter() + (k - (old(self).obligations().len() - 1))
                    &&& final(self).out().last().call_id == old(self).obligations()[0].0
                    &&& final(self).out().last().fragment == old(self).obligations()[0].1
                    &&& is_wire(final(self).out().last().data)
                    &&& resolve_fragments(
                        final(self).out().last().data,
                        final(self).obligations().skip(old(self).obligations().len() - 1),
                    ) == old(self).obligations()[0].2
                })
            },
    {
        if self.obligations.len() == 0 {
            return false;
        }
        let (call_id, fragment, content) = self.obligations.remove(0);
        let ghost obligations0 = self.obligations@;
        let ghost content0 = content;
        proof {
            assert((call_id, fragment, content) == old(self).obligations@[0]);
        }
        let capacity = match crate::kind::count_ready(&content) {
            Some(n) => n <= u64::MAX - self.frags.counter_value(),
            None => false,
        };
        if !capacity {
            return true;
        }
        let ghost frags0 = self.frags;
        let mut obs: Vec<(u64, Value)> = Vec::new();
        let w = deconstruct(content, &mut self.frags, &mut obs);
        let ghost obs_seq = obs@;
        let ghost frags1 = self.frags;
        proof {
            assert(obs_seq.skip(0) =~= obs_seq);
            assert(deconstruct_post(content0, frags0, self.frags, Seq::empty(), obs_seq, w));
        }
        let mut i: usize = 0;
        #[verifier::loop_isolation(false)]
        while i < obs.len()
            invariant
                obs@ == obs_seq,
                0 <= i <= obs@.len(),
                self.frags == frags1,
                self.out@ == old(self).out@,
                self.relayed@ == old(self).relayed@,
                self.parked == old(self).parked,
                self.inner == old(self).inner,
                self.obligations@.len() == obligations0.len() + i,
                self.obligations@.subrange(0, obligations0.len() as int) =~= obligations0,
                forall|k: int|
                    0 <= k < i ==> #[trigger] self.obligations@[obligations0.len() + k] == (
                    call_id,
                    obs@[k].0,
                    obs@[k].1,
                ),
            decreases obs@.len() - i,
        {
            let (fid, item) = (obs[i].0, obs[i].1.dup());
            self.obligations.push((call_id, fid, item));
            i = i + 1;
        }
        self.out.push(Response { call_id, fragment, data: w });
        proof {
            let new_obs = self.obligations@.skip(obligations0.len() as int);
            let pairs = Seq::new(new_obs.len(), |k: int| (new_obs[k].1, new_obs[k].2));
            assert forall|k: int| 0 <= k < pairs.len() implies pairs[k] == obs_seq[k] by {
                assert(new_obs[k] == self.obligations@[obligations0.len() + k]);
            }
            assert(pairs =~= obs_seq);
            assert(resolve_fragments(w, new_obs) == crate::kind::resolve_all(
                w,
                crate::kind::pairs_map(pairs),
            ));
            assert forall|k: int, id: u64|
                0 <= k < self.obligations@.len() implies !(#[trigger] waiting_ids(
                self.obligations@[k].2,
            ).contains(id)) by {
                if k < obligations0.len() {
                    assert(self.obligations@.subrange(0, obligations0.len() as int)[k]
                        == self.obligations@[k]);
                    assert(self.obligations@[k] == obligations0[k]);
                    assert(obligations0[k] == old(self).obligations@[k + 1]);
                } else {
                    let j = k - obligations0.len();
                    assert(self.obligations@[obligations0.len() + j] == (
                        call_id,
                        obs_seq[j].0,
                        obs_seq[j].1,
                    ));
                    if waiting_ids(self.obligations@[k].2).contains(id) {
                        assert(waiting_ids(obs_seq[j].1).contains(id));
                        assert(obs_seq.skip(0)[j] == obs_seq[j]);
                        assert(waiting_ids(content0).contains(id));
                    }
                }
            }
            assert forall|k: int| 0 <= k < self.obligations@.len() implies #[trigger] self.obligations@[k].1
                >= 1 by {
                if k < obligations0.len() {
                    assert(self.obligations@.subrange(0, obligations0.len() as int)[k]
                        == self.obligations@[k]);
                    assert(self.obligations@[k] == obligations0[k]);
                    assert(obligations0[k] == old(self).obligations@[k + 1]);
                } else {
                    let j = k - obligations0.len();
                    assert(self.obligations@[obligations0.len() + j] == (
                        call_id,
                        obs_seq[j].0,
                        obs_seq[j].1,
                    ));
                    assert(obs_seq.skip(0)[j] == obs_seq[j]);
                    assert(!frags0.is_live(obs_seq[j].0));
                    assert(frags0.is_live(0));
                }
            }
            assert forall|k: int|
                obligations0.len() <= k < self.obligations@.len() implies (
            #[trigger] self.obligations@[k]).0 == call_id && self.obligations@[k].1 as int
                == frags0.counter() + (k - obligations0.len()) by {
                let j = k - obligations0.len();
                assert(self.obligations@[obligations0.len() + j] == (
                    call_id,
                    obs_seq[j].0,
                    obs_seq[j].1,
                ));
                assert(obs_seq.skip(0)[j] == obs_seq[j]);
                assert(obs_seq.skip(0)[j].0 as int == frags0.counter() + j);
            }
            assert(frags0.is_live(0));
            assert(self.frags.is_live(0));
        }
        true
    }

    /// The consumer's poll of the merged outgoing stream: the oldest
    /// unemitted Response, or a park on an empty stream.
    pub fn poll_response(&mut self) -> (r: Option<Response>)
        requires
            old(self).wf(),
        ensures
            final(self).wf(),
            final(self).relayed() == old(self).relayed(),
            final(self).obligations() == old(self).obligations(),
            final(self).inner() == old(self).inner(),
            match r {
                Some(p) => old(self).out().len() > 0 && p == old(self).out()[0] && final(self).out() =~= old(self).out().drop_first() && !final(self).parked(),
                None => old(self).out().len() == 0 && final(self).out() =~= old(self).out()
                    && final(self).parked(),
            },
    {
        if self.out.len() > 0 {
            self.parked = false;
            Some(self.out.remove(0))
        } else {
            self.parked = true;
            None
        }
    }

    /// The oldest relayed in-band response, if any, for the local
    /// forwarding path.
    pub fn take_relayed(&mut self) -> (r: Option<Response>)
        requires
            old(self).wf(),
        ensures
            final(self).wf(),
            final(self).out() == old(self).out(),
            final(self).obligations() == old(self).obligations(),
            final(self).parked() == old(self).parked(),
            final(self).inner() == old(self).inner(),
            match r {
                Some(p) => old(self).relayed().len() > 0 && p == old(self).relayed()[0] && final(self).relayed() =~= old(self).relayed().drop_first(),
                None => old(self).relayed().len() == 0 && final(self).relayed() =~= old(self).relayed(),
            },
    {
        if self.relayed.len() > 0 {
            Some(self.relayed.remove(0))
        } else {
            None
        }
    }

    /// The shim serves the interface itself: a direct call forwards to the
    /// wrapped implementation, so the same interface is satisfied by a
    /// local object and by a remote-connected peer alike.
    pub fn call_direct(&mut self, method: u64, args: Vec<Value>) -> (r: Value)
        requires
            old(self).wf(),
        ensures
            final(self).wf(),
            crate::kind::is_grounded(r),
            old(self).inner().post(method, args@, r, final(self).inner()),
            final(self).out() == old(self).out(),
            final(self).obligations() == old(self).obligations(),
            final(self).relayed() == old(self).relayed(),
            final(self).parked() == old(self).parked(),
    {
        self.inner.invoke(method, args)
    }
}

/// The value a call's sub-channel carries for a returned value: the content
/// of a resolved pending value — the call itself is the pending boundary —
/// and any other value as it stands.
pub open spec fn payload_of(rv: Value) -> Value {
    match rv {
        Value::Ready(b) => *b,
        other => other,
    }
}

/// Substituting a batch of emitted fragments back into a wire form, each
/// under its fragment identifier: what the peer's reconstruction does.
pub open spec fn resolve_fragments(w: Value, obs: Seq<(u64, u64, Value)>) -> Value {
    crate::kind::resolve_all(
        w,
        crate::kind::pairs_map(Seq::new(obs.len(), |k: int| (obs[k].1, obs[k].2))),
    )
}

/// What one emission step guarantees, relating the shim before and after,
/// the call identifier and the implementation's returned value; the
/// postcondition of [`Shim::emit_result`] as a predicate.
pub open spec fn emitted_for<T: Service>(pre: Shim<T>, post: Shim<T>, call_id: u64, rv: Value) -> bool {
    let emits = !(rv is Unit) && ready_count(payload_of(rv)) + pre.fragment_counter() <= u64::MAX;
    &&& post.relayed() == pre.relayed()
    &&& (!emits ==> post.out() == pre.out() && post.obligations() == pre.obligations()
        && post.fragment_counter() == pre.fragment_counter())
    &&& (emits ==> {
        &&& post.fragment_counter() == pre.fragment_counter() + ready_count(payload_of(rv))
        &&& post.out().len() == pre.out().len() + 1
        &&& post.out().subrange(0, pre.out().len() as int) =~= pre.out()
        &&& post.out().last().call_id == call_id
        &&& post.out().last().fragment == 0
        &&& is_wire(post.out().last().data)
        &&& post.obligations().len() == pre.obligations().len() + ready_count(payload_of(rv))
        &&& post.obligations().subrange(0, pre.obligations().len() as int) =~= pre.obligations()
        &&& forall|k: int|
            pre.obligations().len() <= k < post.obligations().len() ==> (
            #[trigger] post.obligations()[k]).0 == call_id && post.obligations()[k].1 as int
                == pre.fragment_counter() + (k - pre.obligations().len())
        &&& resolve_fragments(
            post.out().last().data,
            post.obligations().skip(pre.obligations().len() as int),
        ) == payload_of(rv)
    })
}

} // verus!
