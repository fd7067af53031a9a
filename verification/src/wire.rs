//! The wire shape of Call and Response.
//!
//! A Call rides as the ordered sequence `[method-discriminant, argument
//! values…, call-id]`; a discriminant equal to the method count is reserved
//! to mean "this frame is actually an in-band Response" and decodes as one
//! instead. A Response rides as `[call-id, fragment-index, result-data]`.
//! Decoding dispatches on the discriminant read first; any value outside
//! the valid method range, other than the reserved relay discriminant, is a
//! hard decode error — a tagged-sequence encoding has no safe place to
//! resynchronise, so such an error is fatal to the connection.

use vstd::prelude::*;

use crate::kind::{value_has_kind, Value};
use crate::protocol::Interface;

verus! {

/// A request: a method discriminant, the method's argument values in
/// order, and the call identifier whose sub-channels carry the results.
pub struct Call {
    pub method: u64,
    pub args: Vec<Value>,
    pub call_id: u64,
}

/// A reply fragment: which call it belongs to, which fragment it is — 0
/// for the top-level result, a forked sub-channel identifier for a nested
/// pending part — and the data itself.
pub struct Response {
    pub call_id: u64,
    pub fragment: u64,
    pub data: Value,
}

/// What a call frame decodes to: a request proper, or an in-band Response
/// relayed under the reserved discriminant.
pub enum CallMessage {
    Invoke(Call),
    Relay(Response),
}

/// Why a frame was rejected; fatal to the connection that carried it.
#[derive(Clone, Copy, PartialEq, Eq, Structural, Debug)]
pub enum ProtocolDecodeError {
    EmptyFrame,
    BadDiscriminant,
    UnknownMethod,
    WrongArity,
    BadArgument,
    BadCallId,
    BadRelay,
    BadResponse,
}

/// The frame a call serialises to.
pub open spec fn call_frame(c: Call) -> Seq<Value> {
    seq![Value::U64(c.method)] + c.args@ + seq![Value::U64(c.call_id)]
}

/// The frame a relayed response serialises to under the reserved
/// discriminant `count`, the interface's method count.
pub open spec fn relay_frame(count: u64, r: Response) -> Seq<Value> {
    seq![Value::U64(count), Value::U64(r.call_id), Value::U64(r.fragment), r.data]
}

/// The frame a response serialises to.
pub open spec fn response_frame(r: Response) -> Seq<Value> {
    seq![Value::U64(r.call_id), Value::U64(r.fragment), r.data]
}

/// A call well formed for an interface: a known method, one value per
/// declared argument, each matching its declared kind.
pub open spec fn call_wf(iface: Interface, c: Call) -> bool {
    &&& (c.method as int) < iface.methods@.len()
    &&& c.args@.len() == iface.methods@[c.method as int].args@.len()
    &&& forall|i: int|
        0 <= i < c.args@.len() ==> value_has_kind(
            #[trigger] c.args@[i],
            iface.methods@[c.method as int].args@[i],
        )
}

/// A frame that decodes as a call for `iface`.
pub open spec fn frame_is_call(iface: Interface, f: Seq<Value>) -> bool {
    &&& f.len() >= 2
    &&& f[0] matches Value::U64(m) && (m as int) < iface.methods@.len() && f.len()
        == iface.methods@[m as int].args@.len() + 2 && f[f.len() - 1] is U64 && forall|i: int|
        0 <= i < f.len() - 2 ==> value_has_kind(
            #[trigger] f[i + 1],
            iface.methods@[m as int].args@[i],
        )
}

/// A frame that decodes as an in-band relayed response for `iface`.
pub open spec fn frame_is_relay(iface: Interface, f: Seq<Value>) -> bool {
    &&& f.len() == 4
    &&& f[0] matches Value::U64(d) && d == iface.methods@.len()
    &&& f[1] is U64
    &&& f[2] is U64
}

/// A frame that decodes as a response.
pub open spec fn frame_is_response(f: Seq<Value>) -> bool {
    &&& f.len() == 3
    &&& f[0] is U64
    &&& f[1] is U64
}

/// The error an undecodable call frame is rejected with, checks in decoding
/// order.
pub open spec fn call_decode_error(iface: Interface, f: Seq<Value>) -> ProtocolDecodeError {
    if f.len() == 0 {
        ProtocolDecodeError::EmptyFrame
    } else if !(f[0] is U64) {
        ProtocolDecodeError::BadDiscriminant
    } else if f[0]->U64_0 > iface.methods@.len() {
        ProtocolDecodeError::UnknownMethod
    } else if f[0]->U64_0 == iface.methods@.len() {
        ProtocolDecodeError::BadRelay
    } else if f.len() != iface.methods@[f[0]->U64_0 as int].args@.len() + 2 {
        ProtocolDecodeError::WrongArity
    } else if !(f[f.len() - 1] is U64) {
        ProtocolDecodeError::BadCallId
    } else {
        ProtocolDecodeError::BadArgument
    }
}

/// The error an undecodable response frame is rejected with.
pub open spec fn response_decode_error(f: Seq<Value>) -> ProtocolDecodeError {
    ProtocolDecodeError::BadResponse
}

/// Serialise a call.
pub fn encode_call(c: &Call) -> (frame: Vec<Value>)
    ensures
        frame@ =~= call_frame(*c),
{
    let mut frame: Vec<Value> = Vec::new();
    frame.push(Value::U64(c.method));
    let mut i: usize = 0;
    #[verifier::loop_isolation(false)]
    while i < c.args.len()
        invariant
            0 <= i <= c.args@.len(),
            frame@.len() == i + 1,
            frame@[0] == Value::U64(c.method),
            forall|k: int| 0 <= k < i ==> frame@[k + 1] == c.args@[k],
        decreases c.args@.len() - i,
    {
        frame.push(c.args[i].dup());
        i = i + 1;
    }
    frame.push(Value::U64(c.call_id));
    frame
}

/// Serialise a response as an in-band relay frame under the reserved
/// discriminant `count`.
pub fn encode_relay(count: u64, r: &Response) -> (frame: Vec<Value>)
    ensures
        frame@ =~= relay_frame(count, *r),
{
    let mut frame: Vec<Value> = Vec::new();
    frame.push(Value::U64(count));
    frame.push(Value::U64(r.call_id));
    frame.push(Value::U64(r.fragment));
    frame.push(r.data.dup());
    frame
}

/// Serialise a response.
pub fn encode_response(r: &Response) -> (frame: Vec<Value>)
    ensures
        frame@ =~= response_frame(*r),
{
    let mut frame: Vec<Value> = Vec::new();
    frame.push(Value::U64(r.call_id));
    frame.push(Value::U64(r.fragment));
    frame.push(r.data.dup());
    frame
}

/// Decode a call frame against an interface: a request whose discriminant
/// names a method, a relayed response under the reserved discriminant, or
/// the first decode error in decoding order. Exactly the frames some
/// well-formed message serialises to decode.
pub fn decode_call(iface: &Interface, frame: &Vec<Value>) -> (r: Result<
    CallMessage,
    ProtocolDecodeError,
>)
    ensures
        match r {
            Ok(CallMessage::Invoke(c)) => frame_is_call(*iface, frame@) && call_wf(*iface, c)
                && frame@ =~= call_frame(c),
            Ok(CallMessage::Relay(p)) => frame_is_relay(*iface, frame@) && frame@ =~= relay_frame(
                iface.methods@.len() as u64,
                p,
            ),
            Err(e) => !frame_is_call(*iface, frame@) && !frame_is_relay(*iface, frame@) && e
                == call_decode_error(*iface, frame@),
        },
{
    let n = frame.len();
    if n == 0 {
        return Err(ProtocolDecodeError::EmptyFrame);
    }
    let d: u64 = match &frame[0] {
        Value::U64(d) => *d,
        _ => {
            return Err(ProtocolDecodeError::BadDiscriminant);
        },
    };
    let count = iface.methods.len();
    if d > count as u64 {
        return Err(ProtocolDecodeError::UnknownMethod);
    }
    if d == count as u64 {
        if n != 4 {
            return Err(ProtocolDecodeError::BadRelay);
        }
        let call_id: u64 = match &frame[1] {
            Value::U64(x) => *x,
            _ => {
                return Err(ProtocolDecodeError::BadRelay);
            },
        };
        let fragment: u64 = match &frame[2] {
            Value::U64(x) => *x,
            _ => {
                return Err(ProtocolDecodeError::BadRelay);
            },
        };
        let resp = Response { call_id, fragment, data: frame[3].dup() };
        proof {
            assert(frame@ =~= relay_frame(iface.methods@.len() as u64, resp));
        }
        return Ok(CallMessage::Relay(resp));
    }
    let desc = &iface.methods[d as usize];
    if n < 2 || n - 2 != desc.args.len() {
        return Err(ProtocolDecodeError::WrongArity);
    }
    let call_id: u64 = match &frame[n - 1] {
        Value::U64(x) => *x,
        _ => {
            return Err(ProtocolDecodeError::BadCallId);
        },
    };
    let mut args: Vec<Value> = Vec::new();
    let mut i: usize = 0;
    #[verifier::loop_isolation(false)]
    while i < n - 2
        invariant
            0 <= i <= n - 2,
            args@.len() == i,
            forall|k: int|
                0 <= k < i ==> args@[k] == frame@[k + 1] && value_has_kind(
                    #[trigger] args@[k],
                    iface.methods@[d as int].args@[k],
                ),
        decreases n - 2 - i,
    {
        if !crate::kind::kind_check(&frame[1 + i], &desc.args[i]) {
            proof {
                assert(!value_has_kind(frame@[i + 1], iface.methods@[d as int].args@[i as int]));
                assert(!frame_is_call(*iface, frame@));
            }
            return Err(ProtocolDecodeError::BadArgument);
        }
        args.push(frame[1 + i].dup());
        i = i + 1;
    }
    let c = Call { method: d, args, call_id };
    proof {
        assert(frame@ =~= call_frame(c));
        assert(call_wf(*iface, c));
        assert(frame_is_call(*iface, frame@));
    }
    Ok(CallMessage::Invoke(c))
}

/// Decode a response frame: exactly the frames some response serialises to
/// decode, and each to the one response whose frame it is.
pub fn decode_response(frame: &Vec<Value>) -> (r: Result<Response, ProtocolDecodeError>)
    ensures
        match r {
            Ok(p) => frame_is_response(frame@) && frame@ =~= response_frame(p),
            Err(e) => !frame_is_response(frame@) && e == response_decode_error(frame@),
        },
{
    if frame.len() != 3 {
        return Err(ProtocolDecodeError::BadResponse);
    }
    let call_id: u64 = match &frame[0] {
        Value::U64(x) => *x,
        _ => {
            return Err(ProtocolDecodeError::BadResponse);
        },
    };
    let fragment: u64 = match &frame[1] {
        Value::U64(x) => *x,
        _ => {
            return Err(ProtocolDecodeError::BadResponse);
        },
    };
    let resp = Response { call_id, fragment, data: frame[2].dup() };
    proof {
        assert(frame@ =~= response_frame(resp));
    }
    Ok(resp)
}

/// A well-formed call's frame always decodes: the wire shape loses nothing.
pub proof fn lemma_call_frame_decodes(iface: Interface, c: Call)
    requires
        call_wf(iface, c),
    ensures
        frame_is_call(iface, call_frame(c)),
        !frame_is_relay(iface, call_frame(c)),
{
    broadcast use vstd::seq::axiom_seq_add_len, vstd::seq::axiom_seq_add_index1, vstd::seq::axiom_seq_add_index2;

    let f = call_frame(c);
    assert(f[0] == Value::U64(c.method));
    assert(f[f.len() - 1] == Value::U64(c.call_id));
    assert forall|i: int| 0 <= i < f.len() - 2 implies value_has_kind(
        #[trigger] f[i + 1],
        iface.methods@[c.method as int].args@[i],
    ) by {
        assert(f[i + 1] == c.args@[i]);
    }
}

/// A response's frame always decodes, and determines the response.
pub proof fn lemma_response_frame_decodes(r1: Response, r2: Response)
    ensures
        frame_is_response(response_frame(r1)),
        response_frame(r1) == response_frame(r2) ==> r1 == r2,
{
    if response_frame(r1) == response_frame(r2) {
        assert(response_frame(r1)[0] == response_frame(r2)[0]);
        assert(response_frame(r1)[1] == response_frame(r2)[1]);
        assert(response_frame(r1)[2] == response_frame(r2)[2]);
    }
}

/// A call's frame determines the call: the encoding is injective.
pub proof fn lemma_call_frame_injective(c1: Call, c2: Call)
    requires
        call_frame(c1) == call_frame(c2),
    ensures
        c1.method == c2.method,
        c1.call_id == c2.call_id,
        c1.args@ == c2.args@,
{
    broadcast use vstd::seq::axiom_seq_add_len, vstd::seq::axiom_seq_add_index1, vstd::seq::axiom_seq_add_index2;

    let f1 = call_frame(c1);
    let f2 = call_frame(c2);
    assert(f1[0] == Value::U64(c1.method));
    assert(f2[0] == Value::U64(c2.method));
    assert(f1[0] == f2[0]);
    assert(f1.len() == c1.args@.len() + 2);
    assert(f2.len() == c2.args@.len() + 2);
    assert(f1.len() == f2.len());
    assert(c1.args@.len() == c2.args@.len());
    assert(f1[f1.len() - 1] == Value::U64(c1.call_id));
    assert(f2[f2.len() - 1] == Value::U64(c2.call_id));
    assert(f1[f1.len() - 1] == f2[f2.len() - 1]);
    assert forall|i: int| 0 <= i < c1.args@.len() implies c1.args@[i] == c2.args@[i] by {
        assert(f1[i + 1] == f2[i + 1]);
        assert(f1[i + 1] == c1.args@[i]);
        assert(f2[i + 1] == c2.args@[i]);
    }
    assert(c1.args@ =~= c2.args@);
}

} // verus!
