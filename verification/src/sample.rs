//! A small sample interface that exercises the whole runtime: two value
//! types with their canonical conversions, the interface trait, and one
//! local implementation the dispatch shim can wrap.

use vstd::prelude::*;

use crate::kind::{is_grounded, AsKind, Composite, KindError, Value};
use crate::protocol::{ArgDef, InterfaceDef, ItemDef, MethodDef, ReceiverDef};
use crate::shim::Service;

verus! {

/// A sum with a two-field variant, a text variant and an empty variant.
pub enum TestEnum {
    Numbers(u64, u32),
    Text(String),
    Empty,
}

/// A record holding text, a number and a nested pending value.
pub struct TestStruct {
    pub data: String,
    pub number: u64,
    pub future: Value,
}

impl AsKind<Composite> for TestEnum {
    open spec fn kind_spec(self) -> Value {
        match self {
            TestEnum::Numbers(a, b) => Value::Tagged(
                0,
                Box::new(
                    Value::Pair(
                        Box::new(Value::U64(a)),
                        Box::new(Value::Pair(Box::new(Value::U32(b)), Box::new(Value::Unit))),
                    ),
                ),
            ),
            TestEnum::Text(s) => Value::Tagged(
                1,
                Box::new(Value::Pair(Box::new(Value::Text(s)), Box::new(Value::Unit))),
            ),
            TestEnum::Empty => Value::Tagged(2, Box::new(Value::Unit)),
        }
    }

    open spec fn of_kind_spec(v: Value) -> Option<TestEnum> {
        match v {
            Value::Tagged(tag, payload) => if tag == 0 {
                match *payload {
                    Value::Pair(a, rest) => match (*a, *rest) {
                        (Value::U64(x), Value::Pair(b, end)) => match (*b, *end) {
                            (Value::U32(y), Value::Unit) => Some(TestEnum::Numbers(x, y)),
                            _ => None,
                        },
                        _ => None,
                    },
                    _ => None,
                }
            } else if tag == 1 {
                match *payload {
                    Value::Pair(s, end) => match (*s, *end) {
                        (Value::Text(t), Value::Unit) => Some(TestEnum::Text(t)),
                        _ => None,
                    },
                    _ => None,
                }
            } else if tag == 2 {
                match *payload {
                    Value::Unit => Some(TestEnum::Empty),
                    _ => None,
                }
            } else {
                None
            },
            _ => None,
        }
    }

    fn into_kind(self) -> Value {
        match self {
            TestEnum::Numbers(a, b) => Value::Tagged(
                0,
                Box::new(
                    Value::Pair(
                        Box::new(Value::U64(a)),
                        Box::new(Value::Pair(Box::new(Value::U32(b)), Box::new(Value::Unit))),
                    ),
                ),
            ),
            TestEnum::Text(s) => Value::Tagged(
                1,
                Box::new(Value::Pair(Box::new(Value::Text(s)), Box::new(Value::Unit))),
            ),
            TestEnum::Empty => Value::Tagged(2, Box::new(Value::Unit)),
        }
    }

    fn from_kind(w: Value) -> Result<TestEnum, KindError> {
        match w {
            Value::Tagged(tag, payload) => {
                if tag == 0 {
                    match *payload {
                        Value::Pair(a, rest) => match (*a, *rest) {
                            (Value::U64(x), Value::Pair(b, end)) => match (*b, *end) {
                                (Value::U32(y), Value::Unit) => Ok(TestEnum::Numbers(x, y)),
                                _ => Err(KindError::MalformedValue),
                            },
                            _ => Err(KindError::MalformedValue),
                        },
                        _ => Err(KindError::MalformedValue),
                    }
                } else if tag == 1 {
                    match *payload {
                        Value::Pair(s, end) => match (*s, *end) {
                            (Value::Text(t), Value::Unit) => Ok(TestEnum::Text(t)),
                            _ => Err(KindError::MalformedValue),
                        },
                        _ => Err(KindError::MalformedValue),
                    }
                } else if tag == 2 {
                    match *payload {
                        Value::Unit => Ok(TestEnum::Empty),
                        _ => Err(KindError::MalformedValue),
                    }
                } else {
                    Err(KindError::MalformedValue)
                }
            },
            _ => Err(KindError::MalformedValue),
        }
    }

    proof fn lemma_round_trip(self) {
    }
}

impl AsKind<Composite> for TestStruct {
    open spec fn kind_spec(self) -> Value {
        Value::Pair(
            Box::new(Value::Text(self.data)),
            Box::new(
                Value::Pair(
                    Box::new(Value::U64(self.number)),
                    Box::new(Value::Pair(Box::new(self.future), Box::new(Value::Unit))),
                ),
            ),
        )
    }

    open spec fn of_kind_spec(v: Value) -> Option<TestStruct> {
        match v {
            Value::Pair(d, rest) => match (*d, *rest) {
                (Value::Text(data), Value::Pair(n, rest2)) => match (*n, *rest2) {
                    (Value::U64(number), Value::Pair(f, end)) => match *end {
                        Value::Unit => Some(TestStruct { data, number, future: *f }),
                        _ => None,
                    },
                    _ => None,
                },
                _ => None,
            },
            _ => None,
        }
    }

    fn into_kind(self) -> Value {
        Value::Pair(
            Box::new(Value::Text(self.data)),
            Box::new(
                Value::Pair(
                    Box::new(Value::U64(self.number)),
                    Box::new(Value::Pair(Box::new(self.future), Box::new(Value::Unit))),
                ),
            ),
        )
    }

    fn from_kind(w: Value) -> Result<TestStruct, KindError> {
        match w {
            Value::Pair(d, rest) => match (*d, *rest) {
                (Value::Text(data), Value::Pair(n, rest2)) => match (*n, *rest2) {
                    (Value::U64(number), Value::Pair(f, end)) => match *end {
                        Value::Unit => Ok(TestStruct { data, number, future: *f }),
                        _ => Err(KindError::MalformedValue),
                    },
                    _ => Err(KindError::MalformedValue),
                },
                _ => Err(KindError::MalformedValue),
            },
            _ => Err(KindError::MalformedValue),
        }
    }

    proof fn lemma_round_trip(self) {
    }
}

/// The number [`Test`] dispatch reads from a call's argument list: the
/// first argument when it is numeric, else zero.
pub open spec fn arg_number(args: Seq<Value>) -> u64 {
    if args.len() > 0 && args[0] is U64 {
        args[0]->U64_0
    } else {
        0
    }
}

/// The nested pending part of the sample record: already resolved to the
/// variant carrying the call's number and the constant 25.
pub open spec fn sample_future(number: u64) -> Value {
    Value::Ready(
        Box::new(
            Value::Tagged(
                0,
                Box::new(
                    Value::Pair(
                        Box::new(Value::U64(number)),
                        Box::new(
                            Value::Pair(Box::new(Value::U32(25)), Box::new(Value::Unit)),
                        ),
                    ),
                ),
            ),
        ),
    )
}

/// Exactly the value the sample implementation produces for `number`: a
/// resolved pending record whose text reads `test`, whose number is the
/// call's, and whose nested pending part is [`sample_future`]. The text is
/// pinned by its view — two equal strings need not be one allocation.
pub open spec fn is_sample_record(number: u64, r: Value) -> bool {
    &&& r matches Value::Ready(rec)
    &&& *rec matches Value::Pair(d, rest)
    &&& *d matches Value::Text(s)
    &&& s@ == "test"@
    &&& *rest matches Value::Pair(n, rest2)
    &&& *n == Value::U64(number)
    &&& *rest2 matches Value::Pair(f, end)
    &&& *f == sample_future(number)
    &&& *end == Value::Unit
}

/// The sample interface: one method returning a pending record, one
/// returning nothing.
pub trait TestProtocol {
    /// What the implementation's `test` returns for each number.
    spec fn test_post(&self, number: u64, r: Value) -> bool;

    /// Produce, for `number`, a pending record whose nested pending part
    /// carries further numbers.
    fn test(&self, number: u64) -> (r: Value)
        ensures
            is_grounded(r),
            self.test_post(number, r),
    ;

    /// A call with no arguments and no result.
    fn sec_test(&self);
}

/// A local implementation of the sample interface.
pub struct Test;

impl TestProtocol for Test {
    open spec fn test_post(&self, number: u64, r: Value) -> bool {
        is_sample_record(number, r)
    }

    /// A ready record: fixed text, the number handed in, and a nested
    /// pending value already resolved to further numbers.
    fn test(&self, number: u64) -> (r: Value)
        ensures
            is_grounded(r),
            self.test_post(number, r),
    {
        proof {
            reveal_with_fuel(crate::kind::is_grounded, 10);
        }
        let nested = TestEnum::Numbers(number, 25).into_kind();
        let ts = TestStruct {
            data: "test".to_owned(),
            number,
            future: Value::Ready(Box::new(nested)),
        };
        let ghost gts = ts;
        let r = Value::Ready(Box::new(ts.into_kind()));
        proof {
            assert(gts.future == sample_future(number));
            assert(is_sample_record(number, r));
        }
        r
    }

    fn sec_test(&self) {
    }
}

impl Service for Test {
    /// Method 0 produces the sample record for the call's numeric
    /// argument; every other method does nothing and yields unit. The
    /// implementation is stateless.
    open spec fn post(self, method: u64, args: Seq<Value>, r: Value, next: Test) -> bool {
        &&& next == self
        &&& if method == 0 {
            is_sample_record(arg_number(args), r)
        } else {
            r == Value::Unit
        }
    }

    /// Dispatch by method index: 0 invokes `test` with its one numeric
    /// argument, any other index invokes `sec_test` and yields unit.
    fn invoke(&mut self, method: u64, args: Vec<Value>) -> Value {
        if method == 0 {
            let number: u64 = if args.len() > 0 {
                match &args[0] {
                    Value::U64(n) => *n,
                    _ => 0,
                }
            } else {
                0
            };
            proof {
                assert(number == arg_number(args@));
            }
            self.test(number)
        } else {
            self.sec_test();
            Value::Unit
        }
    }
}

/// Exactly what the echo implementation returns on its first method: a
/// pending text reading `x`.
pub open spec fn is_echo_result(r: Value) -> bool {
    &&& r matches Value::Ready(b)
    &&& *b matches Value::Text(s)
    &&& s@ == "x"@
}

/// A second, minimal implementation: its first method returns a pending
/// text reading `x`, and its other method returns nothing. One call of it
/// exercises the whole call/response shape.
pub struct Echo;

impl Service for Echo {
    /// Method 0 yields the pending text `x`; every other method yields
    /// unit. The implementation is stateless.
    open spec fn post(self, method: u64, args: Seq<Value>, r: Value, next: Echo) -> bool {
        &&& next == self
        &&& if method == 0 {
            is_echo_result(r)
        } else {
            r == Value::Unit
        }
    }

    fn invoke(&mut self, method: u64, args: Vec<Value>) -> Value {
        if method == 0 {
            let r = Value::Ready(Box::new(Value::Text("x".to_owned())));
            proof {
                reveal_with_fuel(crate::kind::is_grounded, 3);
            }
            r
        } else {
            Value::Unit
        }
    }
}

/// The return kind of the sample interface's `test` method: a pending
/// record of text, a number and a further pending part.
pub open spec fn test_return_kind() -> crate::kind::Kind {
    crate::kind::Kind::PendingOf(
        Box::new(
            crate::kind::Kind::PairOf(
                Box::new(crate::kind::Kind::Text),
                Box::new(
                    crate::kind::Kind::PairOf(
                        Box::new(crate::kind::Kind::U64),
                        Box::new(
                            crate::kind::Kind::PairOf(
                                Box::new(
                                    crate::kind::Kind::PendingOf(Box::new(crate::kind::Kind::Unit)),
                                ),
                                Box::new(crate::kind::Kind::Unit),
                            ),
                        ),
                    ),
                ),
            ),
        ),
    )
}

/// The description of the sample interface, as validation takes it: the
/// shared-receiver method `test` with one numeric argument and the pending
/// record result, then the argument-less, resultless `sec_test`.
pub fn test_protocol_def() -> (r: InterfaceDef)
    ensures
        crate::protocol::def_valid(r),
        r.items@.len() == 2,
        r.items@[0] matches ItemDef::Method(m) && {
            &&& m.name@ == "test"@
            &&& m.receiver is Shared
            &&& !m.has_default_body && !m.has_generics && !m.has_where_clause
            &&& m.args@ =~= seq![ArgDef::Typed(crate::kind::Kind::U64)]
            &&& m.ret == Some(test_return_kind())
        },
        r.items@[1] matches ItemDef::Method(m) && {
            &&& m.name@ == "sec_test"@
            &&& m.receiver is Shared
            &&& !m.has_default_body && !m.has_generics && !m.has_where_clause
            &&& m.args@ =~= Seq::<ArgDef>::empty()
            &&& m.ret is None
        },
{
    let test_ret = crate::kind::Kind::PendingOf(
        Box::new(
            crate::kind::Kind::PairOf(
                Box::new(crate::kind::Kind::Text),
                Box::new(
                    crate::kind::Kind::PairOf(
                        Box::new(crate::kind::Kind::U64),
                        Box::new(
                            crate::kind::Kind::PairOf(
                                Box::new(
                                    crate::kind::Kind::PendingOf(Box::new(crate::kind::Kind::Unit)),
                                ),
                                Box::new(crate::kind::Kind::Unit),
                            ),
                        ),
                    ),
                ),
            ),
        ),
    );
    let mut args0: Vec<ArgDef> = Vec::new();
    args0.push(ArgDef::Typed(crate::kind::Kind::U64));
    let m0 = MethodDef {
        name: "test".to_owned(),
        receiver: ReceiverDef::Shared,
        has_default_body: false,
        has_generics: false,
        has_where_clause: false,
        args: args0,
        ret: Some(test_ret),
    };
    let m1 = MethodDef {
        name: "sec_test".to_owned(),
        receiver: ReceiverDef::Shared,
        has_default_body: false,
        has_generics: false,
        has_where_clause: false,
        args: Vec::new(),
        ret: None,
    };
    let ghost gm0 = m0;
    let ghost gm1 = m1;
    proof {
        reveal_strlit("test");
        reveal_strlit("sec_test");
        reveal_strlit("remote");
        reveal_strlit("into_protocol");
        assert(gm0.args@.len() == 1 && gm0.args@[0] is Typed);
        assert(gm1.args@.len() == 0);
        assert(gm0.name@ == "test"@);
        assert(gm1.name@ == "sec_test"@);
        assert("test"@.len() == 4 && "remote"@.len() == 6 && "into_protocol"@.len() == 13);
        assert("sec_test"@.len() == 8);
        assert(crate::protocol::method_valid(gm0));
        assert(crate::protocol::method_valid(gm1));
        assert(gm0.ret == Some(test_return_kind()));
        assert(gm0.args@ =~= seq![ArgDef::Typed(crate::kind::Kind::U64)]);
    }
    let mut items: Vec<ItemDef> = Vec::new();
    items.push(ItemDef::Method(m0));
    items.push(ItemDef::Method(m1));
    let def = InterfaceDef {
        name: "TestProtocol".to_owned(),
        has_generics: false,
        has_supertraits: false,
        items,
    };
    proof {
        assert(def.items@[0] == ItemDef::Method(gm0));
        assert(def.items@[1] == ItemDef::Method(gm1));
        assert forall|i: int|
            0 <= i < def.items@.len() implies crate::protocol::item_valid(
            #[trigger] def.items@[i],
        ) by {
            if i == 0 {
                assert(crate::protocol::item_valid(ItemDef::Method(gm0)));
            } else {
                assert(crate::protocol::item_valid(ItemDef::Method(gm1)));
            }
        }
    }
    def
}

} // verus!
