//! The interface description and its validation.
//!
//! The protocol runtime is built from a description of a service interface:
//! an ordered method list, each method with an identifier, a
//! receiver-mutability flag, ordered argument kinds and a return kind. No
//! generic parameters, default bodies or constraint clauses are permitted on
//! the description or its methods, methods may not take themselves by value
//! or lack a receiver, and two method names are reserved for the runtime's
//! own entry points; a violation is rejected here, before any runtime
//! behaviour exists.

use vstd::prelude::*;

use crate::kind::Kind;

verus! {

/// How a described method takes its receiver.
pub enum ReceiverDef {
    Missing,
    Shared,
    Exclusive,
    ByValue,
}

/// One described argument: a kind, or an inferred / ignored binding that
/// the description cannot type.
pub enum ArgDef {
    Typed(Kind),
    Anonymous,
}

/// One described method.
pub struct MethodDef {
    pub name: String,
    pub receiver: ReceiverDef,
    pub has_default_body: bool,
    pub has_generics: bool,
    pub has_where_clause: bool,
    pub args: Vec<ArgDef>,
    pub ret: Option<Kind>,
}

/// One described interface item: a method, or something else entirely.
pub enum ItemDef {
    Method(MethodDef),
    Other,
}

/// A described interface, as handed in for validation.
pub struct InterfaceDef {
    pub name: String,
    pub has_generics: bool,
    pub has_supertraits: bool,
    pub items: Vec<ItemDef>,
}

/// Why a description was rejected; each variant names the first offending
/// item (and argument), in the order validation walks the description.
#[derive(Clone, Copy, PartialEq, Eq, Structural, Debug)]
pub enum ProtocolDefError {
    TraitGenerics,
    Supertraits,
    ReservedMethodName { item: usize },
    DefaultBody { item: usize },
    MethodGenerics { item: usize },
    MethodWhereClause { item: usize },
    SelfByValue { item: usize },
    AnonymousArgument { item: usize, arg: usize },
    MissingReceiver { item: usize },
    ExpectedMethod { item: usize },
    NoMethods,
}

/// One validated method: its name, whether it takes the receiver
/// exclusively, its argument kinds in order, and its return kind.
pub struct MethodDesc {
    pub name: String,
    pub mut_receiver: bool,
    pub args: Vec<Kind>,
    pub ret: Kind,
}

/// A validated interface: the ordered method list the runtime is built
/// from.
pub struct Interface {
    pub methods: Vec<MethodDesc>,
}

/// The kind of a described argument; an anonymous argument has none, and
/// never survives validation.
pub open spec fn arg_kind(a: ArgDef) -> Kind {
    match a {
        ArgDef::Typed(k) => k,
        ArgDef::Anonymous => Kind::Unit,
    }
}

/// The return kind of a described method: a described kind, else unit.
pub open spec fn ret_kind(r: Option<Kind>) -> Kind {
    match r {
        Some(k) => k,
        None => Kind::Unit,
    }
}

/// A described method that validation accepts.
pub open spec fn method_valid(m: MethodDef) -> bool {
    &&& m.name@ != "remote"@
    &&& m.name@ != "into_protocol"@
    &&& !m.has_default_body
    &&& !m.has_generics
    &&& !m.has_where_clause
    &&& (m.receiver is Shared || m.receiver is Exclusive)
    &&& forall|i: int| 0 <= i < m.args@.len() ==> m.args@[i] is Typed
}

/// A described item that validation accepts.
pub open spec fn item_valid(it: ItemDef) -> bool {
    match it {
        ItemDef::Method(m) => method_valid(m),
        ItemDef::Other => false,
    }
}

/// A description that validation accepts whole.
pub open spec fn def_valid(d: InterfaceDef) -> bool {
    &&& !d.has_generics
    &&& !d.has_supertraits
    &&& d.items@.len() > 0
    &&& forall|i: int| 0 <= i < d.items@.len() ==> item_valid(#[trigger] d.items@[i])
}

/// The first anonymous argument of a method, from position `j` on.
pub open spec fn first_anonymous(args: Seq<ArgDef>, j: int) -> int
    decreases args.len() - j,
{
    if j < 0 || j >= args.len() {
        args.len() as int
    } else if !(args[j] is Typed) {
        j
    } else {
        first_anonymous(args, j + 1)
    }
}

/// The error an invalid item is rejected with, checks in validation order.
pub open spec fn item_error(i: int, it: ItemDef) -> ProtocolDefError {
    match it {
        ItemDef::Other => ProtocolDefError::ExpectedMethod { item: i as usize },
        ItemDef::Method(m) => if m.name@ == "remote"@ || m.name@ == "into_protocol"@ {
            ProtocolDefError::ReservedMethodName { item: i as usize }
        } else if m.has_default_body {
            ProtocolDefError::DefaultBody { item: i as usize }
        } else if m.has_generics {
            ProtocolDefError::MethodGenerics { item: i as usize }
        } else if m.has_where_clause {
            ProtocolDefError::MethodWhereClause { item: i as usize }
        } else if m.receiver is ByValue {
            ProtocolDefError::SelfByValue { item: i as usize }
        } else if first_anonymous(m.args@, 0) < m.args@.len() {
            ProtocolDefError::AnonymousArgument {
                item: i as usize,
                arg: first_anonymous(m.args@, 0) as usize,
            }
        } else {
            ProtocolDefError::MissingReceiver { item: i as usize }
        },
    }
}

/// The error the first invalid item from position `i` on is rejected with;
/// with none, the description can only fail for want of methods.
pub open spec fn first_item_error(items: Seq<ItemDef>, i: int) -> ProtocolDefError
    decreases items.len() - i,
{
    if i < 0 || i >= items.len() {
        ProtocolDefError::NoMethods
    } else if item_valid(items[i]) {
        first_item_error(items, i + 1)
    } else {
        item_error(i, items[i])
    }
}

/// The error a description is rejected with: trait-level checks first, then
/// the items in order, then the demand for at least one method.
pub open spec fn first_def_error(d: InterfaceDef) -> ProtocolDefError {
    if d.has_generics {
        ProtocolDefError::TraitGenerics
    } else if d.has_supertraits {
        ProtocolDefError::Supertraits
    } else {
        first_item_error(d.items@, 0)
    }
}

/// A validated method corresponds to the described one: same name, the
/// receiver-mutability flag, the argument kinds in order, the return kind.
pub open spec fn method_corresponds(it: ItemDef, d: MethodDesc) -> bool {
    match it {
        ItemDef::Method(m) => {
            &&& d.name@ == m.name@
            &&& d.mut_receiver == (m.receiver is Exclusive)
            &&& d.args@.len() == m.args@.len()
            &&& forall|j: int| 0 <= j < m.args@.len() ==> d.args@[j] == arg_kind(#[trigger] m.args@[j])
            &&& d.ret == ret_kind(m.ret)
        },
        ItemDef::Other => false,
    }
}

proof fn lemma_first_item_error_skip(items: Seq<ItemDef>, i: int)
    requires
        0 <= i <= items.len(),
        forall|j: int| 0 <= j < i ==> item_valid(#[trigger] items[j]),
    ensures
        first_item_error(items, 0) == first_item_error(items, i),
    decreases i,
{
    if i > 0 {
        lemma_first_item_error_skip(items, i - 1);
        assert(item_valid(items[i - 1]));
    }
}

fn method_check(i: usize, m: &MethodDef) -> (r: Result<bool, ProtocolDefError>)
    ensures
        match r {
            Ok(mut_receiver) => method_valid(*m) && mut_receiver == (m.receiver is Exclusive),
            Err(e) => !method_valid(*m) && e == item_error(i as int, ItemDef::Method(*m)),
        },
{
    let reserved_remote: String = "remote".to_owned();
    let reserved_into: String = "into_protocol".to_owned();
    if m.name.eq(&reserved_remote) || m.name.eq(&reserved_into) {
        return Err(ProtocolDefError::ReservedMethodName { item: i });
    }
    if m.has_default_body {
        return Err(ProtocolDefError::DefaultBody { item: i });
    }
    if m.has_generics {
        return Err(ProtocolDefError::MethodGenerics { item: i });
    }
    if m.has_where_clause {
        return Err(ProtocolDefError::MethodWhereClause { item: i });
    }
    if matches!(m.receiver, ReceiverDef::ByValue) {
        return Err(ProtocolDefError::SelfByValue { item: i });
    }
    let mut j: usize = 0;
    proof {
        lemma_first_anonymous_lower(m.args@, 0);
    }
    #[verifier::loop_isolation(false)]
    while j < m.args.len()
        invariant
            0 <= j <= m.args@.len(),
            forall|k: int| 0 <= k < j ==> m.args@[k] is Typed,
            first_anonymous(m.args@, 0) >= j,
        decreases m.args@.len() - j,
    {
        if matches!(m.args[j], ArgDef::Anonymous) {
            proof {
                assert(!(m.args@[j as int] is Typed));
                assert(first_anonymous(m.args@, 0) == j) by {
                    lemma_first_anonymous_skip(m.args@, j as int);
                }
            }
            return Err(ProtocolDefError::AnonymousArgument { item: i, arg: j });
        }
        proof {
            lemma_first_anonymous_skip(m.args@, j + 1);
        }
        j = j + 1;
    }
    if matches!(m.receiver, ReceiverDef::Missing) {
        return Err(ProtocolDefError::MissingReceiver { item: i });
    }
    Ok(matches!(m.receiver, ReceiverDef::Exclusive))
}

proof fn lemma_first_anonymous_lower(args: Seq<ArgDef>, j: int)
    requires
        0 <= j <= args.len(),
    ensures
        first_anonymous(args, j) >= j,
    decreases args.len() - j,
{
    if j < args.len() && args[j] is Typed {
        lemma_first_anonymous_lower(args, j + 1);
    }
}

proof fn lemma_first_anonymous_skip(args: Seq<ArgDef>, j: int)
    requires
        0 <= j <= args.len(),
        forall|k: int| 0 <= k < j ==> args[k] is Typed,
    ensures
        first_anonymous(args, 0) >= j,
        j < args.len() && !(args[j] is Typed) ==> first_anonymous(args, 0) == j,
    decreases j,
{
    lemma_first_anonymous_skip_from(args, 0, j);
    lemma_first_anonymous_lower(args, j);
}

proof fn lemma_first_anonymous_skip_from(args: Seq<ArgDef>, i: int, j: int)
    requires
        0 <= i <= j <= args.len(),
        forall|k: int| 0 <= k < j ==> args[k] is Typed,
    ensures
        first_anonymous(args, i) == first_anonymous(args, j),
    decreases j - i,
{
    if i < j {
        assert(args[i] is Typed);
        lemma_first_anonymous_skip_from(args, i + 1, j);
    }
}

/// Validate a described interface and extract the runtime's method list.
///
/// The result is `Ok` exactly when the description carries no generic
/// parameters or supertraits, has at least one item, and every item is a
/// method with a reference receiver, no default body, no generics, no
/// `where` clause, no untypable argument, and a name that is not reserved.
/// A rejection reports the first violation in validation order.
pub fn protocol(def: InterfaceDef) -> (r: Result<Interface, ProtocolDefError>)
    ensures
        r is Ok <==> def_valid(def),
        match r {
            Ok(iface) => {
                &&& iface.methods@.len() == def.items@.len()
                &&& forall|i: int|
                    0 <= i < def.items@.len() ==> method_corresponds(
                        #[trigger] def.items@[i],
                        iface.methods@[i],
                    )
            },
            Err(e) => e == first_def_error(def),
        },
{
    if def.has_generics {
        return Err(ProtocolDefError::TraitGenerics);
    }
    if def.has_supertraits {
        return Err(ProtocolDefError::Supertraits);
    }
    if def.items.len() == 0 {
        return Err(ProtocolDefError::NoMethods);
    }
    let ghost gdef = def;
    let ghost items0 = gdef.items@;
    let mut items = def.items;
    let mut methods: Vec<MethodDesc> = Vec::new();
    let mut i: usize = 0;
    #[verifier::loop_isolation(false)]
    while items.len() > 0
        invariant
            items0.len() > 0,
            i + items@.len() == items0.len(),
            items@ =~= items0.skip(i as int),
            methods@.len() == i,
            forall|k: int| 0 <= k < i ==> item_valid(#[trigger] items0[k]),
            forall|k: int|
                0 <= k < i ==> method_corresponds(#[trigger] items0[k], methods@[k]),
        decreases items@.len(),
    {
        let it = items.remove(0);
        proof {
            assert(it == items0[i as int]);
        }
        match it {
            ItemDef::Method(m) => {
                match method_check(i, &m) {
                    Ok(mut_receiver) => {
                        let mut args: Vec<Kind> = Vec::new();
                        let mut margs = m.args;
                        let ghost margs0 = margs@;
                        #[verifier::loop_isolation(false)]
                        while margs.len() > 0
                            invariant
                                args@.len() + margs@.len() == margs0.len(),
                                margs@ =~= margs0.skip(args@.len() as int),
                                forall|k: int|
                                    0 <= k < args@.len() ==> args@[k] == arg_kind(
                                        #[trigger] margs0[k],
                                    ),
                            decreases margs@.len(),
                        {
                            let ghost n = args@.len();
                            let a = margs.remove(0);
                            proof {
                                assert(a == margs0[n as int]);
                            }
                            match a {
                                ArgDef::Typed(k) => args.push(k),
                                ArgDef::Anonymous => args.push(Kind::Unit),
                            }
                        }
                        let ret = match m.ret {
                            Some(k) => k,
                            None => Kind::Unit,
                        };
                        methods.push(MethodDesc { name: m.name, mut_receiver, args, ret });
                        proof {
                            assert(items0[i as int] == ItemDef::Method(m));
                        }
                    },
                    Err(e) => {
                        proof {
                            assert(items0[i as int] == ItemDef::Method(m));
                            assert(!item_valid(gdef.items@[i as int]));
                            assert(!def_valid(gdef));
                            lemma_first_item_error_skip(items0, i as int);
                            assert(first_item_error(items0, i as int) == item_error(
                                i as int,
                                items0[i as int],
                            ));
                            assert(first_def_error(gdef) == first_item_error(gdef.items@, 0));
                        }
                        return Err(e);
                    },
                }
            },
            ItemDef::Other => {
                proof {
                    assert(!item_valid(gdef.items@[i as int]));
                    assert(!def_valid(gdef));
                    lemma_first_item_error_skip(items0, i as int);
                    assert(first_def_error(gdef) == first_item_error(gdef.items@, 0));
                }
                return Err(ProtocolDefError::ExpectedMethod { item: i });
            },
        }
        i = i + 1;
    }
    Ok(Interface { methods })
}

} // verus!
