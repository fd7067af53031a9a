use vessels::context::Context;
use vessels::keyboard::{Alpha, Arrow, Event, Key, Keyboard, Number, parse_code};
use vessels::kind::{
    construct, count_ready, deconstruct, AsKind, Kind, KindError, resolve, Value,
};
use vessels::protocol::{
    protocol, ArgDef, InterfaceDef, ItemDef, MethodDef, ProtocolDefError, ReceiverDef,
};
use vessels::remote::{deliver_fragment, pending_result, Remote};
use vessels::sample::{Echo, Test, TestEnum, TestProtocol, TestStruct, test_protocol_def};
use vessels::shim::Shim;
use vessels::wire::{
    decode_call, decode_response, encode_call, encode_relay, encode_response, Call, CallMessage,
    ProtocolDecodeError, Response,
};

fn boxed(v: Value) -> Box<Value> {
    Box::new(v)
}

fn def_err(r: Result<vessels::protocol::Interface, ProtocolDefError>) -> ProtocolDefError {
    match r {
        Err(e) => e,
        Ok(_) => panic!("expected the description to be rejected"),
    }
}

fn kind_err(r: Result<Value, KindError>) -> KindError {
    match r {
        Err(e) => e,
        Ok(_) => panic!("expected a malformed value"),
    }
}

fn enum_err(r: Result<TestEnum, KindError>) -> KindError {
    match r {
        Err(e) => e,
        Ok(_) => panic!("expected a malformed value"),
    }
}

fn call_err(r: Result<CallMessage, ProtocolDecodeError>) -> ProtocolDecodeError {
    match r {
        Err(e) => e,
        Ok(_) => panic!("expected a decode error"),
    }
}

fn resp_err(r: Result<Response, ProtocolDecodeError>) -> ProtocolDecodeError {
    match r {
        Err(e) => e,
        Ok(_) => panic!("expected a decode error"),
    }
}

// The interface of the call/response scenario: m0(arg: u64) -> pending
// text, and m1() -> ().
fn two_method_def() -> InterfaceDef {
    let m0 = MethodDef {
        name: "m0".to_owned(),
        receiver: ReceiverDef::Shared,
        has_default_body: false,
        has_generics: false,
        has_where_clause: false,
        args: vec![ArgDef::Typed(Kind::U64)],
        ret: Some(Kind::PendingOf(Box::new(Kind::Text))),
    };
    let m1 = MethodDef {
        name: "m1".to_owned(),
        receiver: ReceiverDef::Shared,
        has_default_body: false,
        has_generics: false,
        has_where_clause: false,
        args: vec![],
        ret: None,
    };
    InterfaceDef {
        name: "Pair".to_owned(),
        has_generics: false,
        has_supertraits: false,
        items: vec![ItemDef::Method(m0), ItemDef::Method(m1)],
    }
}

#[test]
fn identifier_allocation_is_monotonic_and_reuses_lifo() {
    let mut ctx: Context<Value> = Context::new();
    let a = ctx.fork();
    let b = ctx.fork();
    let c = ctx.fork();
    assert_eq!(a, 0);
    assert_eq!(b, 1);
    assert_eq!(c, 2);
    ctx.release(b);
    // the next fork must return B's former identifier before the counter advances
    let d = ctx.fork();
    assert_eq!(d, b);
    let e = ctx.fork();
    assert_eq!(e, 3);
}

#[test]
fn identifier_reuse_is_lifo_with_two_released() {
    let mut ctx: Context<u64> = Context::new();
    let a = ctx.fork();
    let b = ctx.fork();
    ctx.release(a);
    ctx.release(b);
    assert_eq!(ctx.fork(), b);
    assert_eq!(ctx.fork(), a);
}

#[test]
fn routing_isolation_between_identifiers() {
    let mut ctx: Context<Value> = Context::new();
    let a = ctx.fork();
    let b = ctx.fork();
    ctx.route(a, Value::U64(7));
    assert!(ctx.poll(b).is_none());
    let got = ctx.poll(a).expect("item routed on a");
    assert!(got.deep_eq(&Value::U64(7)));
}

#[test]
fn cancellation_discards_late_traffic_silently() {
    let mut ctx: Context<Value> = Context::new();
    let x = ctx.fork();
    let y = ctx.fork();
    ctx.route(y, Value::Bool(true));
    ctx.release(x);
    // late traffic for the released identifier is dropped without error
    let wake = ctx.route(x, Value::U64(1));
    assert!(!wake);
    // and no other live identifier's routing is disturbed
    let got = ctx.poll(y).expect("y still routed");
    assert!(got.deep_eq(&Value::Bool(true)));
}

#[test]
fn per_identifier_order_is_fifo() {
    let mut ctx: Context<Value> = Context::new();
    let a = ctx.fork();
    let b = ctx.fork();
    // two producers interleaved across identifiers
    ctx.route(a, Value::U64(1));
    ctx.route(b, Value::U64(10));
    ctx.route(a, Value::U64(2));
    ctx.route(b, Value::U64(20));
    assert!(ctx.poll(a).unwrap().deep_eq(&Value::U64(1)));
    assert!(ctx.poll(a).unwrap().deep_eq(&Value::U64(2)));
    assert!(ctx.poll(b).unwrap().deep_eq(&Value::U64(10)));
    assert!(ctx.poll(b).unwrap().deep_eq(&Value::U64(20)));
}

#[test]
fn wake_only_after_park() {
    let mut ctx: Context<Value> = Context::new();
    let a = ctx.fork();
    // no park yet: enqueue does not demand a wake
    assert!(!ctx.route(a, Value::U64(1)));
    assert!(ctx.poll(a).is_some());
    // empty poll parks the consumer; the next enqueue must wake it
    assert!(ctx.poll(a).is_none());
    assert!(ctx.route(a, Value::U64(2)));
}

fn round_trips(v: Value) {
    let original = v.dup();
    let mut ctx: Context<Value> = Context::new();
    let mut obs: Vec<(u64, Value)> = Vec::new();
    let mut w = deconstruct(v, &mut ctx, &mut obs);
    for (id, content) in &obs {
        w = resolve(w, *id, content);
    }
    assert!(w.deep_eq(&original), "round trip changed the value");
}

#[test]
fn round_trip_primitives() {
    round_trips(Value::U64(42));
    round_trips(Value::U32(7));
    round_trips(Value::Bool(false));
    round_trips(Value::Text("hello".to_owned()));
    round_trips(Value::Unit);
    round_trips(Value::Phantom);
}

#[test]
fn round_trip_optional_and_result() {
    round_trips(Value::NoneOf);
    round_trips(Value::SomeOf(boxed(Value::U64(3))));
    round_trips(Value::OkOf(boxed(Value::Text("ok".to_owned()))));
    round_trips(Value::ErrOf(boxed(Value::Unit)));
}

#[test]
fn round_trip_products_and_sums() {
    round_trips(Value::Pair(boxed(Value::U64(1)), boxed(Value::Bool(true))));
    round_trips(Value::Tagged(2, boxed(Value::Pair(boxed(Value::U32(9)), boxed(Value::Unit)))));
}

#[test]
fn round_trip_resolved_pending() {
    round_trips(Value::Ready(boxed(Value::Text("later".to_owned()))));
}

#[test]
fn round_trip_unresolved_pending() {
    // an unresolved pending value is already in wire form: its identifier
    let mut ctx: Context<Value> = Context::new();
    let id = ctx.fork();
    let v = Value::Waiting(id);
    let mut obs: Vec<(u64, Value)> = Vec::new();
    let w = deconstruct(v, &mut ctx, &mut obs);
    assert!(obs.is_empty());
    assert!(w.deep_eq(&Value::Waiting(id)));
}

#[test]
fn round_trip_nested_pending() {
    let v = Value::Pair(
        boxed(Value::Text("outer".to_owned())),
        boxed(Value::Ready(boxed(Value::Pair(
            boxed(Value::U64(5)),
            boxed(Value::Ready(boxed(Value::U32(6)))),
        )))),
    );
    round_trips(v);
}

#[test]
fn deconstruct_forks_one_channel_per_ready_part() {
    let v = Value::Pair(
        boxed(Value::Ready(boxed(Value::U64(1)))),
        boxed(Value::Ready(boxed(Value::U64(2)))),
    );
    assert_eq!(count_ready(&v), Some(2));
    let mut ctx: Context<Value> = Context::new();
    let mut obs: Vec<(u64, Value)> = Vec::new();
    let w = deconstruct(v, &mut ctx, &mut obs);
    assert_eq!(obs.len(), 2);
    assert_ne!(obs[0].0, obs[1].0);
    match w {
        Value::Pair(a, b) => {
            assert!(matches!(*a, Value::Waiting(_)));
            assert!(matches!(*b, Value::Waiting(_)));
        },
        _ => panic!("wire form should stay a pair"),
    }
}

#[test]
fn construct_accepts_matching_and_rejects_malformed() {
    let ok = construct(Value::U64(3), &Kind::U64);
    assert!(ok.unwrap().deep_eq(&Value::U64(3)));
    let bad = construct(Value::U64(3), &Kind::Text);
    assert_eq!(kind_err(bad), KindError::MalformedValue);
    // a variant tag past the declared alternatives is malformed
    let sum = Kind::ChoiceOf(
        Box::new(Kind::U64),
        Box::new(Kind::ChoiceOf(Box::new(Kind::Unit), Box::new(Kind::Unit))),
    );
    let bad_tag = construct(Value::Tagged(9, boxed(Value::Unit)), &sum);
    assert_eq!(kind_err(bad_tag), KindError::MalformedValue);
    let good_tag = construct(Value::Tagged(1, boxed(Value::Unit)), &sum);
    assert!(good_tag.is_ok());
    // an unresolved pending part passes any pending kind
    let pend = construct(Value::Waiting(4), &Kind::PendingOf(Box::new(Kind::Text)));
    assert!(pend.is_ok());
}

#[test]
fn as_kind_round_trip_typed() {
    assert_eq!(u64::from_kind(17u64.into_kind()).unwrap(), 17);
    assert_eq!(u32::from_kind(9u32.into_kind()).unwrap(), 9);
    assert_eq!(bool::from_kind(true.into_kind()).unwrap(), true);
    assert_eq!(String::from_kind("abc".to_owned().into_kind()).unwrap(), "abc".to_owned());
    assert_eq!(<()>::from_kind(().into_kind()).unwrap(), ());
    assert!(u64::from_kind(Value::Bool(true)).is_err());
}

#[test]
fn as_kind_round_trip_sample_types() {
    let e = TestEnum::Numbers(4, 5);
    match TestEnum::from_kind(e.into_kind()).unwrap() {
        TestEnum::Numbers(a, b) => {
            assert_eq!(a, 4);
            assert_eq!(b, 5);
        },
        _ => panic!("wrong variant came back"),
    }
    match TestEnum::from_kind(TestEnum::Text("t".to_owned()).into_kind()).unwrap() {
        TestEnum::Text(s) => assert_eq!(s, "t".to_owned()),
        _ => panic!("wrong variant came back"),
    }
    assert!(matches!(TestEnum::from_kind(TestEnum::Empty.into_kind()).unwrap(), TestEnum::Empty));
    assert_eq!(enum_err(TestEnum::from_kind(Value::U64(1))), KindError::MalformedValue);

    let ts = TestStruct { data: "d".to_owned(), number: 8, future: Value::Waiting(3) };
    let back = TestStruct::from_kind(ts.into_kind()).unwrap();
    assert_eq!(back.data, "d".to_owned());
    assert_eq!(back.number, 8);
    assert!(back.future.deep_eq(&Value::Waiting(3)));
}

#[test]
fn validation_accepts_the_sample_interface() {
    let iface = protocol(test_protocol_def()).expect("the sample interface is valid");
    assert_eq!(iface.methods.len(), 2);
    assert_eq!(iface.methods[0].name, "test".to_owned());
    assert!(!iface.methods[0].mut_receiver);
    assert_eq!(iface.methods[0].args.len(), 1);
    assert_eq!(iface.methods[1].name, "sec_test".to_owned());
    assert_eq!(iface.methods[1].args.len(), 0);
}

fn plain_method(name: &str) -> MethodDef {
    MethodDef {
        name: name.to_owned(),
        receiver: ReceiverDef::Shared,
        has_default_body: false,
        has_generics: false,
        has_where_clause: false,
        args: vec![],
        ret: None,
    }
}

fn def_of(items: Vec<ItemDef>) -> InterfaceDef {
    InterfaceDef { name: "I".to_owned(), has_generics: false, has_supertraits: false, items }
}

#[test]
fn validation_rejects_each_violation() {
    let mut d = def_of(vec![ItemDef::Method(plain_method("a"))]);
    d.has_generics = true;
    assert_eq!(def_err(protocol(d)), ProtocolDefError::TraitGenerics);

    let mut d = def_of(vec![ItemDef::Method(plain_method("a"))]);
    d.has_supertraits = true;
    assert_eq!(def_err(protocol(d)), ProtocolDefError::Supertraits);

    let d = def_of(vec![]);
    assert_eq!(def_err(protocol(d)), ProtocolDefError::NoMethods);

    let d = def_of(vec![ItemDef::Method(plain_method("remote"))]);
    assert_eq!(def_err(protocol(d)), ProtocolDefError::ReservedMethodName { item: 0 });

    let d = def_of(vec![ItemDef::Method(plain_method("a")), ItemDef::Method(plain_method("into_protocol"))]);
    assert_eq!(def_err(protocol(d)), ProtocolDefError::ReservedMethodName { item: 1 });

    let mut m = plain_method("a");
    m.has_default_body = true;
    assert_eq!(def_err(protocol(def_of(vec![ItemDef::Method(m)]))), ProtocolDefError::DefaultBody { item: 0 });

    let mut m = plain_method("a");
    m.has_generics = true;
    assert_eq!(def_err(protocol(def_of(vec![ItemDef::Method(m)]))), ProtocolDefError::MethodGenerics { item: 0 });

    let mut m = plain_method("a");
    m.has_where_clause = true;
    assert_eq!(def_err(protocol(def_of(vec![ItemDef::Method(m)]))), ProtocolDefError::MethodWhereClause { item: 0 });

    let mut m = plain_method("a");
    m.receiver = ReceiverDef::ByValue;
    assert_eq!(def_err(protocol(def_of(vec![ItemDef::Method(m)]))), ProtocolDefError::SelfByValue { item: 0 });

    let mut m = plain_method("a");
    m.args = vec![ArgDef::Typed(Kind::U64), ArgDef::Anonymous];
    assert_eq!(
        def_err(protocol(def_of(vec![ItemDef::Method(m)]))),
        ProtocolDefError::AnonymousArgument { item: 0, arg: 1 }
    );

    let mut m = plain_method("a");
    m.receiver = ReceiverDef::Missing;
    assert_eq!(def_err(protocol(def_of(vec![ItemDef::Method(m)]))), ProtocolDefError::MissingReceiver { item: 0 });

    let d = def_of(vec![ItemDef::Other]);
    assert_eq!(def_err(protocol(d)), ProtocolDefError::ExpectedMethod { item: 0 });
}

#[test]
fn call_frame_shape_and_round_trip() {
    let iface = protocol(two_method_def()).unwrap();
    let c = Call { method: 0, args: vec![Value::U64(7)], call_id: 3 };
    let frame = encode_call(&c);
    // [method-discriminant, argument, call-id]
    assert_eq!(frame.len(), 3);
    assert!(frame[0].deep_eq(&Value::U64(0)));
    assert!(frame[1].deep_eq(&Value::U64(7)));
    assert!(frame[2].deep_eq(&Value::U64(3)));
    match decode_call(&iface, &frame).unwrap() {
        CallMessage::Invoke(back) => {
            assert_eq!(back.method, 0);
            assert_eq!(back.call_id, 3);
            assert_eq!(back.args.len(), 1);
            assert!(back.args[0].deep_eq(&Value::U64(7)));
        },
        _ => panic!("a call frame must decode as a call"),
    }
}

#[test]
fn relay_frame_round_trip() {
    let iface = protocol(two_method_def()).unwrap();
    let r = Response { call_id: 5, fragment: 0, data: Value::Text("x".to_owned()) };
    let frame = encode_relay(2, &r);
    assert_eq!(frame.len(), 4);
    assert!(frame[0].deep_eq(&Value::U64(2)));
    match decode_call(&iface, &frame).unwrap() {
        CallMessage::Relay(back) => {
            assert_eq!(back.call_id, 5);
            assert_eq!(back.fragment, 0);
            assert!(back.data.deep_eq(&Value::Text("x".to_owned())));
        },
        _ => panic!("the reserved discriminant must decode as a relay"),
    }
}

#[test]
fn response_frame_round_trip() {
    let r = Response { call_id: 9, fragment: 4, data: Value::U32(1) };
    let frame = encode_response(&r);
    assert_eq!(frame.len(), 3);
    let back = decode_response(&frame).unwrap();
    assert_eq!(back.call_id, 9);
    assert_eq!(back.fragment, 4);
    assert!(back.data.deep_eq(&Value::U32(1)));
}

#[test]
fn decode_rejects_each_malformed_frame() {
    let iface = protocol(two_method_def()).unwrap();
    assert_eq!(call_err(decode_call(&iface, &vec![])), ProtocolDecodeError::EmptyFrame);
    assert_eq!(
        call_err(decode_call(&iface, &vec![Value::Bool(true)])),
        ProtocolDecodeError::BadDiscriminant
    );
    assert_eq!(
        call_err(decode_call(&iface, &vec![Value::U64(3), Value::U64(0)])),
        ProtocolDecodeError::UnknownMethod
    );
    assert_eq!(
        call_err(decode_call(&iface, &vec![Value::U64(0), Value::U64(9)])),
        ProtocolDecodeError::WrongArity
    );
    assert_eq!(
        call_err(decode_call(&iface, &vec![Value::U64(0), Value::Bool(true), Value::U64(1)])),
        ProtocolDecodeError::BadArgument
    );
    assert_eq!(
        call_err(decode_call(&iface, &vec![Value::U64(0), Value::U64(9), Value::Bool(true)])),
        ProtocolDecodeError::BadCallId
    );
    assert_eq!(
        call_err(decode_call(&iface, &vec![Value::U64(2), Value::U64(0)])),
        ProtocolDecodeError::BadRelay
    );
    assert_eq!(
        resp_err(decode_response(&vec![Value::U64(1)])),
        ProtocolDecodeError::BadResponse
    );
    assert_eq!(
        resp_err(decode_response(&vec![Value::Bool(true), Value::U64(0), Value::Unit])),
        ProtocolDecodeError::BadResponse
    );
}

#[test]
fn call_response_shape_end_to_end() {
    // calling m0(7) on a Remote enqueues exactly one Call with
    // discriminant 0 and payload (7, call_id)
    let mut remote = Remote::new();
    assert!(remote.can_invoke());
    let (call_id, _) = remote.invoke(0, vec![Value::U64(7)]);
    let call = remote.poll_call().expect("one call queued");
    assert_eq!(call.method, 0);
    assert_eq!(call.call_id, call_id);
    assert_eq!(call.args.len(), 1);
    assert!(call.args[0].deep_eq(&Value::U64(7)));
    assert!(remote.poll_call().is_none(), "exactly one call was queued");

    // the shim, backed by an implementation returning "x", emits exactly
    // one Response with payload ("x", 0, call_id)
    let mut shim = Shim::new(Echo);
    shim.handle_call(CallMessage::Invoke(call));
    let resp = shim.poll_response().expect("one response emitted");
    assert_eq!(resp.call_id, call_id);
    assert_eq!(resp.fragment, 0);
    assert!(resp.data.deep_eq(&Value::Text("x".to_owned())));
    assert!(shim.poll_response().is_none(), "exactly one response was emitted");
    assert!(!shim.pump(), "no nested fragment was owed");

    // the Remote's pending value then resolves to "x"
    let (mut pc, pending) = pending_result();
    remote.handle_response(resp);
    let (fragment, data) = remote.take_fragment(call_id).expect("fragment forwarded");
    deliver_fragment(&mut pc, fragment, data);
    let delivered = pc.poll(0).expect("top-level fragment arrived");
    let resolved = resolve(pending, 0, &delivered);
    match resolved {
        Value::Ready(b) => assert!(b.deep_eq(&Value::Text("x".to_owned()))),
        _ => panic!("the pending value must resolve"),
    }
    remote.release_call(call_id);
}

#[test]
fn unit_method_emits_no_response() {
    let mut remote = Remote::new();
    let (call_id, _) = remote.invoke(1, vec![]);
    let call = remote.poll_call().unwrap();
    assert_eq!(call.method, 1);
    assert_eq!(call.call_id, call_id);
    assert!(call.args.is_empty());
    let mut shim = Shim::new(Echo);
    shim.handle_call(CallMessage::Invoke(call));
    assert!(shim.poll_response().is_none());
}

#[test]
fn response_after_release_is_dropped() {
    let mut remote = Remote::new();
    let (call_id, _) = remote.invoke(0, vec![Value::U64(1)]);
    let (other_id, _) = remote.invoke(0, vec![Value::U64(2)]);
    remote.release_call(call_id);
    // routing an item addressed to the released call must not error and
    // must not affect any other live call's routing
    let wake = remote.handle_response(Response {
        call_id,
        fragment: 0,
        data: Value::U64(9),
    });
    assert!(!wake);
    remote.handle_response(Response { call_id: other_id, fragment: 0, data: Value::U64(8) });
    let (frag, data) = remote.take_fragment(other_id).unwrap();
    assert_eq!(frag, 0);
    assert!(data.deep_eq(&Value::U64(8)));
}

#[test]
fn sample_interface_full_exchange() {
    // mirrors the original demo: test(52) yields a record whose nested
    // pending part carries Numbers(52, 25)
    let mut remote = Remote::new();
    let (call_id, _) = remote.invoke(0, vec![Value::U64(52)]);
    let call = remote.poll_call().unwrap();

    let mut shim = Shim::new(Test);
    shim.handle_call(CallMessage::Invoke(call));
    // the top-level record
    let top = shim.poll_response().expect("top-level fragment");
    assert_eq!(top.call_id, call_id);
    assert_eq!(top.fragment, 0);
    // one nested pending part is owed; pump emits it
    assert!(shim.pump());
    let nested = shim.poll_response().expect("nested fragment");
    assert_eq!(nested.call_id, call_id);
    // fragment identifiers are forked in sequence after the reserved 0
    assert_eq!(nested.fragment, 1);
    assert!(!shim.pump());

    // the remote side reconstructs the record
    let (mut pc, pending) = pending_result();
    remote.handle_response(top);
    remote.handle_response(nested);
    while let Some((frag, data)) = remote.take_fragment(call_id) {
        deliver_fragment(&mut pc, frag, data);
    }
    let top_value = pc.poll(0).expect("top-level value");
    let resolved = resolve(pending, 0, &top_value);
    let record = match resolved {
        Value::Ready(b) => TestStruct::from_kind(*b).expect("a well-formed record"),
        _ => panic!("the pending record must resolve"),
    };
    assert_eq!(record.data, "test".to_owned());
    assert_eq!(record.number, 52);
    // the record's own pending part resolves from its fragment
    let frag_id = match &record.future {
        Value::Waiting(id) => *id,
        _ => panic!("the nested part still waits on its fragment"),
    };
    let nested_value = pc.poll(frag_id).expect("nested value delivered");
    let nested_enum = TestEnum::from_kind(nested_value).expect("a well-formed variant");
    match nested_enum {
        TestEnum::Numbers(a, b) => {
            assert_eq!(a, 52);
            assert_eq!(b, 25);
        },
        _ => panic!("wrong nested variant"),
    }
}

#[test]
fn shim_serves_the_interface_directly() {
    let mut shim = Shim::new(Test);
    let rv = shim.call_direct(0, vec![Value::U64(3)]);
    match rv {
        Value::Ready(b) => {
            let record = TestStruct::from_kind(*b).unwrap();
            assert_eq!(record.number, 3);
        },
        _ => panic!("a direct call returns the implementation's value"),
    }
}

#[test]
fn shim_keeps_relayed_responses() {
    let iface = protocol(two_method_def()).unwrap();
    let r = Response { call_id: 1, fragment: 0, data: Value::Unit };
    let frame = encode_relay(2, &r);
    let msg = decode_call(&iface, &frame).unwrap();
    let mut shim = Shim::new(Echo);
    shim.handle_call(msg);
    let back = shim.take_relayed().expect("the relay was kept");
    assert_eq!(back.call_id, 1);
    assert!(shim.take_relayed().is_none());
}

#[test]
fn parse_code_maps_the_table() {
    assert_eq!(parse_code("Escape"), Key::Escape);
    assert_eq!(parse_code("KeyQ"), Key::Alpha(Alpha::Q));
    assert_eq!(parse_code("Digit0"), Key::Number(Number::Zero));
    assert_eq!(parse_code("ArrowLeft"), Key::Arrow(Arrow::Left));
    assert_eq!(parse_code("Backslash"), Key::Backslash);
    assert_eq!(parse_code("NoSuchCode"), Key::Unknown);
}

#[test]
fn keyboard_orders_events() {
    let mut kb = Keyboard::new();
    assert!(kb.next_event().is_none());
    kb.key_down("KeyA");
    kb.key_up("KeyA");
    assert_eq!(kb.next_event(), Some(Event::Down(Key::Alpha(Alpha::A))));
    assert_eq!(kb.next_event(), Some(Event::Up(Key::Alpha(Alpha::A))));
    assert!(kb.next_event().is_none());
}

#[test]
fn test_protocol_local_implementation() {
    let t = Test;
    let rv = t.test(52);
    match rv {
        Value::Ready(b) => {
            let record = TestStruct::from_kind(*b).unwrap();
            assert_eq!(record.data, "test".to_owned());
            assert_eq!(record.number, 52);
        },
        _ => panic!("test returns a resolved pending record"),
    }
    t.sec_test();
}

#[test]
fn decomposition_preserves_the_kind() {
    // a record kind with a nested pending part
    let t = Kind::PairOf(
        Box::new(Kind::Text),
        Box::new(Kind::PendingOf(Box::new(Kind::U64))),
    );
    let v = Value::Pair(
        boxed(Value::Text("k".to_owned())),
        boxed(Value::Ready(boxed(Value::U64(11)))),
    );
    let mut ctx: Context<Value> = Context::new();
    let mut obs: Vec<(u64, Value)> = Vec::new();
    let w = deconstruct(v, &mut ctx, &mut obs);
    // the peer's reconstruction accepts the wire form against the same kind
    let accepted = construct(w, &t).expect("the wire form keeps the kind");
    let mut back = accepted;
    for (id, content) in &obs {
        back = resolve(back, *id, content);
    }
    let expect = Value::Pair(
        boxed(Value::Text("k".to_owned())),
        boxed(Value::Ready(boxed(Value::U64(11)))),
    );
    assert!(back.deep_eq(&expect));
}

#[test]
fn liveness_is_queryable() {
    let mut ctx: Context<Value> = Context::new();
    let a = ctx.fork();
    assert!(ctx.live(a));
    assert!(!ctx.live(a + 1));
    ctx.release(a);
    assert!(!ctx.live(a));
}

#[test]
fn sequences_check_and_round_trip() {
    // [4, 5] as a chain, against the sequence-of-numbers kind
    let t = Kind::ListOf(Box::new(Kind::U64));
    let list = Value::Pair(
        boxed(Value::U64(4)),
        boxed(Value::Pair(boxed(Value::U64(5)), boxed(Value::Unit))),
    );
    assert!(construct(list, &t).is_ok());
    // the empty sequence is the bare chain end
    assert!(construct(Value::Unit, &t).is_ok());
    // a mistyped element is malformed
    let bad = Value::Pair(boxed(Value::Bool(true)), boxed(Value::Unit));
    assert_eq!(kind_err(construct(bad, &t)), KindError::MalformedValue);
    // a sequence of resolved pending parts round-trips
    round_trips(Value::Pair(
        boxed(Value::Ready(boxed(Value::U64(1)))),
        boxed(Value::Pair(boxed(Value::Ready(boxed(Value::U64(2)))), boxed(Value::Unit))),
    ));
}
