//! The client-side stub: calls in, pending results out.
//!
//! A [`Remote`] owns the queue of outbound [`Call`]s the transport drains,
//! a call-identifier pool, and a map from call identifier to the
//! sub-channel awaiting that call's [`Response`] fragments. Invoking a
//! method allocates a call identifier, registers its sub-channel, enqueues
//! a Call, wakes the transport, and immediately hands back a pending value
//! wired to a fresh per-call multiplexer; fragments forwarded from the
//! transport resolve it. A Response whose call identifier is unknown is
//! silently dropped — it raced a local cancellation.

use vstd::prelude::*;

use crate::context::Context;
use crate::kind::Value;
use crate::wire::{Call, Response};

verus! {

/// The client stub for one connected pair.
pub struct Remote {
    queue: Vec<Call>,
    inbox: Context<(u64, Value)>,
    parked: bool,
}

impl Remote {
    /// The outbound calls the transport has not yet drained, oldest first.
    pub closed spec fn calls(self) -> Seq<Call> {
        self.queue@
    }

    /// Whether a call identifier is outstanding.
    pub closed spec fn call_live(self, id: u64) -> bool {
        self.inbox.is_live(id)
    }

    /// The undelivered (fragment index, data) pairs of an outstanding call,
    /// in arrival order.
    pub closed spec fn fragments_of(self, id: u64) -> Seq<(u64, Value)> {
        self.inbox.queue_of(id)
    }

    /// Whether the consumer of an outstanding call parked.
    pub closed spec fn call_parked(self, id: u64) -> bool {
        self.inbox.parked(id)
    }

    /// Whether the transport parked on an empty call queue.
    pub closed spec fn parked(self) -> bool {
        self.parked
    }

    /// Released call identifiers awaiting reuse, the last one first.
    pub closed spec fn pool(self) -> Seq<u64> {
        self.inbox.pool()
    }

    /// The call-identifier counter.
    pub closed spec fn counter(self) -> u64 {
        self.inbox.counter()
    }

    pub closed spec fn wf(self) -> bool {
        self.inbox.wf()
    }

    /// A stub with nothing queued and no outstanding call.
    pub fn new() -> (r: Remote)
        ensures
            r.wf(),
            r.calls() =~= Seq::<Call>::empty(),
            forall|id: u64| !r.call_live(id),
            !r.parked(),
            r.pool() =~= Seq::<u64>::empty(),
            r.counter() == 0,
    {
        Remote { queue: Vec::new(), inbox: Context::new(), parked: false }
    }

    /// Whether a call identifier can still be allocated.
    pub fn can_invoke(&self) -> (r: bool)
        ensures
            r == (self.pool().len() > 0 || self.counter() < u64::MAX),
    {
        self.inbox.pool_size() > 0 || self.inbox.counter_value() < u64::MAX
    }

    /// Invoke a method: allocate a call identifier — the most recently
    /// released one, else the counter — register its sub-channel, enqueue
    /// exactly one Call carrying the method discriminant, the arguments and
    /// the call identifier, and signal the transport. The pending result is
    /// whatever arrives on the new sub-channel.
    pub fn invoke(&mut self, method: u64, args: Vec<Value>) -> (r: (u64, bool))
        requires
            old(self).wf(),
            old(self).pool().len() > 0 || old(self).counter() < u64::MAX,
        ensures
            final(self).wf(),
            !old(self).call_live(r.0),
            final(self).call_live(r.0),
            final(self).fragments_of(r.0) =~= Seq::<(u64, Value)>::empty(),
            final(self).calls().len() == old(self).calls().len() + 1,
            final(self).calls().subrange(0, old(self).calls().len() as int) =~= old(self).calls(),
            final(self).calls().last().method == method,
            final(self).calls().last().args@ =~= args@,
            final(self).calls().last().call_id == r.0,
            forall|o: u64| o != r.0 ==> final(self).call_live(o) == old(self).call_live(o),
            forall|o: u64|
                o != r.0 && old(self).call_live(o) ==> final(self).fragments_of(o) == old(
                    self,
                ).fragments_of(o) && final(self).call_parked(o) == old(self).call_parked(o),
            if old(self).pool().len() > 0 {
                r.0 == old(self).pool().last() && final(self).pool() =~= old(
                    self,
                ).pool().drop_last() && final(self).counter() == old(self).counter()
            } else {
                r.0 == old(self).counter() && final(self).pool() =~= old(self).pool() && final(self).counter() == old(self).counter() + 1
            },
            r.1 == old(self).parked(),
            !final(self).parked(),
    {
        let call_id = self.inbox.fork();
        self.queue.push(Call { method, args, call_id });
        let wake = self.parked;
        self.parked = false;
        (call_id, wake)
    }

    /// The transport's poll of the outbound queue: the oldest undrained
    /// Call, or a park on an empty queue.
    pub fn poll_call(&mut self) -> (r: Option<Call>)
        requires
            old(self).wf(),
        ensures
            final(self).wf(),
            forall|o: u64| final(self).call_live(o) == old(self).call_live(o),
            forall|o: u64|
                old(self).call_live(o) ==> final(self).fragments_of(o) == old(self).fragments_of(o)
                    && final(self).call_parked(o) == old(self).call_parked(o),
            final(self).pool() == old(self).pool(),
            final(self).counter() == old(self).counter(),
            match r {
                Some(c) => old(self).calls().len() > 0 && c == old(self).calls()[0] && final(self).calls() =~= old(self).calls().drop_first() && !final(self).parked(),
                None => old(self).calls().len() == 0 && final(self).calls() =~= old(self).calls()
                    && final(self).parked(),
            },
    {
        if self.queue.len() > 0 {
            self.parked = false;
            Some(self.queue.remove(0))
        } else {
            self.parked = true;
            None
        }
    }

    /// Consume one Response from the transport: forward its (fragment,
    /// data) pair to the sub-channel registered for the call identifier,
    /// or drop it silently when no such call is outstanding — it arrived
    /// after a local cancellation, which is expected and harms nothing.
    /// No other call's sub-channel is affected either way.
    pub fn handle_response(&mut self, r: Response) -> (wake: bool)
        requires
            old(self).wf(),
        ensures
            final(self).wf(),
            final(self).calls() == old(self).calls(),
            final(self).parked() == old(self).parked(),
            final(self).pool() == old(self).pool(),
            final(self).counter() == old(self).counter(),
            forall|o: u64| final(self).call_live(o) == old(self).call_live(o),
            old(self).call_live(r.call_id) ==> final(self).fragments_of(r.call_id) =~= old(
                self,
            ).fragments_of(r.call_id).push((r.fragment, r.data)) && final(self).call_parked(
                r.call_id,
            ) == old(self).call_parked(r.call_id),
            !old(self).call_live(r.call_id) ==> *final(self) == *old(self),
            forall|o: u64|
                o != r.call_id && old(self).call_live(o) ==> final(self).fragments_of(o) == old(
                    self,
                ).fragments_of(o) && final(self).call_parked(o) == old(self).call_parked(o),
            wake == (old(self).call_live(r.call_id) && old(self).call_parked(r.call_id)),
    {
        self.inbox.route(r.call_id, (r.fragment, r.data))
    }

    /// The consumer's poll of one outstanding call: the oldest undelivered
    /// (fragment, data) pair, or a park on an empty sub-channel.
    pub fn take_fragment(&mut self, call_id: u64) -> (r: Option<(u64, Value)>)
        requires
            old(self).wf(),
            old(self).call_live(call_id),
        ensures
            final(self).wf(),
            final(self).calls() == old(self).calls(),
            final(self).parked() == old(self).parked(),
            final(self).pool() == old(self).pool(),
            final(self).counter() == old(self).counter(),
            forall|o: u64| final(self).call_live(o) == old(self).call_live(o),
            forall|o: u64|
                o != call_id && old(self).call_live(o) ==> final(self).fragments_of(o) == old(
                    self,
                ).fragments_of(o) && final(self).call_parked(o) == old(self).call_parked(o),
            match r {
                Some(item) => old(self).fragments_of(call_id).len() > 0 && item == old(
                    self,
                ).fragments_of(call_id)[0] && final(self).fragments_of(call_id) =~= old(
                    self,
                ).fragments_of(call_id).drop_first() && !final(self).call_parked(call_id),
                None => old(self).fragments_of(call_id).len() == 0 && final(self).fragments_of(
                    call_id,
                ) =~= old(self).fragments_of(call_id) && final(self).call_parked(call_id),
            },
    {
        self.inbox.poll(call_id)
    }

    /// Release an outstanding call once its value has fully constructed or
    /// errored: the entry leaves the table — any later Response for it is
    /// dropped — and the identifier returns to the reuse pool.
    pub fn release_call(&mut self, call_id: u64)
        requires
            old(self).wf(),
            old(self).call_live(call_id),
        ensures
            final(self).wf(),
            final(self).calls() == old(self).calls(),
            final(self).parked() == old(self).parked(),
            final(self).counter() == old(self).counter(),
            final(self).pool() =~= old(self).pool().push(call_id),
            !final(self).call_live(call_id),
            forall|o: u64| o != call_id ==> final(self).call_live(o) == old(self).call_live(o),
            forall|o: u64|
                o != call_id && old(self).call_live(o) ==> final(self).fragments_of(o) == old(
                    self,
                ).fragments_of(o) && final(self).call_parked(o) == old(self).call_parked(o),
    {
        self.inbox.release(call_id)
    }
}

/// The fresh per-call multiplexer an invocation hands to reconstruction:
/// sub-channel 0 carries the top-level result, and the returned pending
/// value waits on it.
pub fn pending_result() -> (r: (Context<Value>, Value))
    ensures
        r.0.wf(),
        r.0.is_live(0),
        r.0.queue_of(0) =~= Seq::<Value>::empty(),
        forall|id: u64| id != 0 ==> !r.0.is_live(id),
        r.1 == Value::Waiting(0),
{
    let mut ctx: Context<Value> = Context::new();
    let id = ctx.fork();
    (ctx, Value::Waiting(id))
}

/// Deliver one routed fragment into a per-call multiplexer: the fragment's
/// sub-channel is registered on first sight — a fork on the peer produces
/// the matching sub-stream here — and the data joins its queue in arrival
/// order.
pub fn deliver_fragment(pc: &mut Context<Value>, fragment: u64, data: Value) -> (wake: bool)
    requires
        old(pc).wf(),
        fragment < u64::MAX,
    ensures
        final(pc).wf(),
        final(pc).is_live(fragment),
        final(pc).queue_of(fragment) =~= if old(pc).is_live(fragment) {
            old(pc).queue_of(fragment).push(data)
        } else {
            seq![data]
        },
        forall|o: u64| o != fragment && old(pc).is_live(o) ==> final(pc).is_live(o),
        forall|o: u64|
            o != fragment && old(pc).is_live(o) ==> final(pc).queue_of(o) == old(pc).queue_of(o)
                && final(pc).parked(o) == old(pc).parked(o),
        wake == (old(pc).is_live(fragment) && old(pc).parked(fragment)),
{
    pc.accept(fragment);
    pc.route(fragment, data)
}

} // verus!
