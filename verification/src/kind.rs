//! Value conversion: decomposing a typed value into its canonical wire
//! form and reconstructing it, recursively.
//!
//! A composite value recurses field by field: a synchronous field is
//! embedded inline; a pending field forks a sub-channel and embeds only the
//! sub-channel's identifier, and the content owed on that sub-channel is
//! recorded as an obligation. Reconstruction accepts a wire value against
//! the expected [`Kind`], and a pending part resolves once the item owed on
//! its identifier arrives. A value that does not match its expected kind
//! reports a terminal [`KindError::MalformedValue`] to the waiting
//! consumer; it never disturbs the multiplexer.

use vstd::prelude::*;

use crate::context::Context;

verus! {

/// A value of the protocol's canonical algebra.
///
/// Products (tuples and structs) are chains of [`Value::Pair`] ending in
/// [`Value::Unit`]; a variant of a sum is [`Value::Tagged`] with the index
/// of the variant and its field chain. A resolved pending value is
/// [`Value::Ready`]; an unresolved one is [`Value::Waiting`] and carries
/// the identifier of the sub-channel that will deliver exactly one item —
/// its content — then close.
pub enum Value {
    Unit,
    Phantom,
    U64(u64),
    U32(u32),
    Bool(bool),
    Text(String),
    NoneOf,
    SomeOf(Box<Value>),
    OkOf(Box<Value>),
    ErrOf(Box<Value>),
    Pair(Box<Value>, Box<Value>),
    Tagged(u64, Box<Value>),
    Ready(Box<Value>),
    Waiting(u64),
}

/// The kind — the wire-level type — a value is checked against when it is
/// reconstructed. A sum type is a right-nested chain of [`Kind::ChoiceOf`]:
/// the tag of a [`Value::Tagged`] value selects how many links to walk. A
/// sequence is [`Kind::ListOf`]: its values are chains of [`Value::Pair`]
/// ending in [`Value::Unit`], every element of the one element kind.
pub enum Kind {
    Unit,
    Phantom,
    U64,
    U32,
    Bool,
    Text,
    OptionOf(Box<Kind>),
    ResultOf(Box<Kind>, Box<Kind>),
    PairOf(Box<Kind>, Box<Kind>),
    ChoiceOf(Box<Kind>, Box<Kind>),
    ListOf(Box<Kind>),
    PendingOf(Box<Kind>),
}

/// The one terminal reconstruction error: the value did not match the
/// expected kind (missing field, unmatched variant tag, or a sub-channel
/// that closed before delivering its item).
#[derive(Clone, Copy, PartialEq, Eq, Structural, Debug)]
pub enum KindError {
    MalformedValue,
}

/// A wire value: decomposition has replaced every resolved pending part by
/// a sub-channel identifier, so no [`Value::Ready`] node remains.
pub open spec fn is_wire(v: Value) -> bool
    decreases v,
{
    match v {
        Value::Ready(_) => false,
        Value::SomeOf(b) => is_wire(*b),
        Value::OkOf(b) => is_wire(*b),
        Value::ErrOf(b) => is_wire(*b),
        Value::Pair(a, b) => is_wire(*a) && is_wire(*b),
        Value::Tagged(_, b) => is_wire(*b),
        _ => true,
    }
}

/// A fully synchronous value: no pending part at all. Call arguments are
/// synchronous.
pub open spec fn is_sync(v: Value) -> bool
    decreases v,
{
    match v {
        Value::Ready(_) => false,
        Value::Waiting(_) => false,
        Value::SomeOf(b) => is_sync(*b),
        Value::OkOf(b) => is_sync(*b),
        Value::ErrOf(b) => is_sync(*b),
        Value::Pair(a, b) => is_sync(*a) && is_sync(*b),
        Value::Tagged(_, b) => is_sync(*b),
        _ => true,
    }
}

/// A deliverable value: every pending part is resolved, so decomposition
/// can take it apart without waiting on anything.
pub open spec fn is_grounded(v: Value) -> bool
    decreases v,
{
    match v {
        Value::Waiting(_) => false,
        Value::Ready(b) => is_grounded(*b),
        Value::SomeOf(b) => is_grounded(*b),
        Value::OkOf(b) => is_grounded(*b),
        Value::ErrOf(b) => is_grounded(*b),
        Value::Pair(a, b) => is_grounded(*a) && is_grounded(*b),
        Value::Tagged(_, b) => is_grounded(*b),
        _ => true,
    }
}

/// The sub-channel identifiers an unresolved pending part of `v` waits on,
/// including those inside resolved pending parts.
pub open spec fn waiting_ids(v: Value) -> Set<u64>
    decreases v,
{
    match v {
        Value::Waiting(id) => set![id],
        Value::Ready(b) => waiting_ids(*b),
        Value::SomeOf(b) => waiting_ids(*b),
        Value::OkOf(b) => waiting_ids(*b),
        Value::ErrOf(b) => waiting_ids(*b),
        Value::Pair(a, b) => waiting_ids(*a).union(waiting_ids(*b)),
        Value::Tagged(_, b) => waiting_ids(*b),
        _ => Set::empty(),
    }
}

/// How many sub-channels one decomposition step of `v` forks: one per
/// outermost resolved pending part.
pub open spec fn ready_count(v: Value) -> nat
    decreases v,
{
    match v {
        Value::Ready(_) => 1,
        Value::SomeOf(b) => ready_count(*b),
        Value::OkOf(b) => ready_count(*b),
        Value::ErrOf(b) => ready_count(*b),
        Value::Pair(a, b) => ready_count(*a) + ready_count(*b),
        Value::Tagged(_, b) => ready_count(*b),
        _ => 0,
    }
}

/// Whether `v` matches the kind `t`. An unresolved pending part matches any
/// pending kind: what it will deliver cannot be checked before it arrives.
pub open spec fn value_has_kind(v: Value, t: Kind) -> bool
    decreases t, v,
{
    match t {
        Kind::Unit => v is Unit,
        Kind::Phantom => v is Phantom,
        Kind::U64 => v is U64,
        Kind::U32 => v is U32,
        Kind::Bool => v is Bool,
        Kind::Text => v is Text,
        Kind::OptionOf(inner) => match v {
            Value::NoneOf => true,
            Value::SomeOf(b) => value_has_kind(*b, *inner),
            _ => false,
        },
        Kind::ResultOf(okt, errt) => match v {
            Value::OkOf(b) => value_has_kind(*b, *okt),
            Value::ErrOf(b) => value_has_kind(*b, *errt),
            _ => false,
        },
        Kind::PairOf(at, bt) => match v {
            Value::Pair(a, b) => value_has_kind(*a, *at) && value_has_kind(*b, *bt),
            _ => false,
        },
        Kind::ChoiceOf(head, rest) => match v {
            Value::Tagged(tag, b) => if tag == 0 {
                value_has_kind(*b, *head)
            } else {
                value_has_kind(Value::Tagged((tag - 1) as u64, b), *rest)
            },
            _ => false,
        },
        Kind::ListOf(elem) => match v {
            Value::Unit => true,
            Value::Pair(a, rest) => value_has_kind(*a, *elem) && value_has_kind(*rest, t),
            _ => false,
        },
        Kind::PendingOf(inner) => match v {
            Value::Ready(b) => value_has_kind(*b, *inner),
            Value::Waiting(_) => true,
            _ => false,
        },
    }
}

/// The value `w` with every unresolved pending part whose identifier has an
/// entry in `m` replaced by the resolved content. A resolved pending part
/// is sealed: nothing inside it is substituted.
pub open spec fn resolve_all(w: Value, m: Map<u64, Value>) -> Value
    decreases w,
{
    match w {
        Value::Waiting(id) => if m.dom().contains(id) {
            Value::Ready(Box::new(m[id]))
        } else {
            w
        },
        Value::SomeOf(b) => Value::SomeOf(Box::new(resolve_all(*b, m))),
        Value::OkOf(b) => Value::OkOf(Box::new(resolve_all(*b, m))),
        Value::ErrOf(b) => Value::ErrOf(Box::new(resolve_all(*b, m))),
        Value::Pair(a, b) => Value::Pair(
            Box::new(resolve_all(*a, m)),
            Box::new(resolve_all(*b, m)),
        ),
        Value::Tagged(tag, b) => Value::Tagged(tag, Box::new(resolve_all(*b, m))),
        _ => w,
    }
}

/// The obligations of a decomposition as a map from sub-channel identifier
/// to the content owed on it.
pub open spec fn pairs_map(s: Seq<(u64, Value)>) -> Map<u64, Value>
    decreases s.len(),
{
    if s.len() == 0 {
        Map::empty()
    } else {
        pairs_map(s.drop_last()).insert(s.last().0, s.last().1)
    }
}

/// `pairs_map` binds exactly the listed identifiers, and with pairwise
/// distinct identifiers it binds each to its listed content.
pub proof fn lemma_pairs_map(s: Seq<(u64, Value)>)
    ensures
        forall|id: u64|
            pairs_map(s).dom().contains(id) <==> exists|k: int| 0 <= k < s.len() && s[k].0 == id,
        (forall|k: int, l: int| 0 <= k < l < s.len() ==> s[k].0 != s[l].0) ==> forall|k: int|
            0 <= k < s.len() ==> pairs_map(s).dom().contains(#[trigger] s[k].0) && pairs_map(s)[s[k].0]
                == s[k].1,
    decreases s.len(),
{
    if s.len() > 0 {
        lemma_pairs_map(s.drop_last());
        assert forall|id: u64| pairs_map(s).dom().contains(id) implies exists|k: int|
            0 <= k < s.len() && s[k].0 == id by {
            if id == s.last().0 {
                assert(s[s.len() - 1].0 == id);
            } else {
                assert(pairs_map(s.drop_last()).dom().contains(id));
                let k = choose|k: int| 0 <= k < s.drop_last().len() && s.drop_last()[k].0 == id;
                assert(s.drop_last()[k] == s[k]);
                assert(s[k].0 == id);
            }
        }
        assert forall|id: u64|
            (exists|k: int| 0 <= k < s.len() && s[k].0 == id) implies pairs_map(s).dom().contains(
            id,
        ) by {
            let k = choose|k: int| 0 <= k < s.len() && s[k].0 == id;
            if k < s.len() - 1 {
                assert(s.drop_last()[k] == s[k]);
                assert(s.drop_last()[k].0 == id);
                assert(pairs_map(s.drop_last()).dom().contains(id));
            } else {
                assert(id == s.last().0);
            }
            assert(pairs_map(s) == pairs_map(s.drop_last()).insert(s.last().0, s.last().1));
        }
        if forall|k: int, l: int| 0 <= k < l < s.len() ==> s[k].0 != s[l].0 {
            assert forall|k: int| 0 <= k < s.len() implies pairs_map(s).dom().contains(
                #[trigger] s[k].0,
            ) && pairs_map(s)[s[k].0] == s[k].1 by {
                if k < s.len() - 1 {
                    assert(s.drop_last()[k].0 == s[k].0 && s.drop_last()[k].1 == s[k].1);
                    assert(s[k].0 != s[s.len() - 1].0);
                }
            }
        }
    }
}

/// Substitution only consults the identifiers a value actually waits on:
/// two maps that agree there resolve it identically.
pub proof fn lemma_resolve_all_agree(v: Value, m1: Map<u64, Value>, m2: Map<u64, Value>)
    requires
        forall|id: u64| #[trigger]
            waiting_ids(v).contains(id) ==> (m1.dom().contains(id) <==> m2.dom().contains(id))
                && (m1.dom().contains(id) ==> m1[id] == m2[id]),
    ensures
        resolve_all(v, m1) == resolve_all(v, m2),
    decreases v,
{
    match v {
        Value::SomeOf(b) => {
            assert(waiting_ids(v) == waiting_ids(*b));
            lemma_resolve_all_agree(*b, m1, m2);
        },
        Value::OkOf(b) => {
            assert(waiting_ids(v) == waiting_ids(*b));
            lemma_resolve_all_agree(*b, m1, m2);
        },
        Value::ErrOf(b) => {
            assert(waiting_ids(v) == waiting_ids(*b));
            lemma_resolve_all_agree(*b, m1, m2);
        },
        Value::Pair(a, b) => {
            assert(waiting_ids(v) == waiting_ids(*a).union(waiting_ids(*b)));
            assert forall|id: u64| #[trigger]
                waiting_ids(*a).contains(id) implies waiting_ids(v).contains(id) by {}
            assert forall|id: u64| #[trigger]
                waiting_ids(*b).contains(id) implies waiting_ids(v).contains(id) by {}
            lemma_resolve_all_agree(*a, m1, m2);
            lemma_resolve_all_agree(*b, m1, m2);
        },
        Value::Tagged(_, b) => {
            assert(waiting_ids(v) == waiting_ids(*b));
            lemma_resolve_all_agree(*b, m1, m2);
        },
        Value::Waiting(id) => {
            assert(waiting_ids(v).contains(id));
        },
        _ => {},
    }
}

/// A map binding none of the identifiers a value waits on leaves it
/// untouched.
pub proof fn lemma_resolve_all_absent(v: Value, m: Map<u64, Value>)
    requires
        forall|id: u64| #[trigger] waiting_ids(v).contains(id) ==> !m.dom().contains(id),
    ensures
        resolve_all(v, m) == v,
    decreases v,
{
    match v {
        Value::SomeOf(b) => {
            assert(waiting_ids(v) == waiting_ids(*b));
            lemma_resolve_all_absent(*b, m);
        },
        Value::OkOf(b) => {
            assert(waiting_ids(v) == waiting_ids(*b));
            lemma_resolve_all_absent(*b, m);
        },
        Value::ErrOf(b) => {
            assert(waiting_ids(v) == waiting_ids(*b));
            lemma_resolve_all_absent(*b, m);
        },
        Value::Pair(a, b) => {
            assert(waiting_ids(v) == waiting_ids(*a).union(waiting_ids(*b)));
            assert forall|id: u64| #[trigger]
                waiting_ids(*a).contains(id) implies waiting_ids(v).contains(id) by {}
            assert forall|id: u64| #[trigger]
                waiting_ids(*b).contains(id) implies waiting_ids(v).contains(id) by {}
            lemma_resolve_all_absent(*a, m);
            lemma_resolve_all_absent(*b, m);
        },
        Value::Tagged(_, b) => {
            assert(waiting_ids(v) == waiting_ids(*b));
            lemma_resolve_all_absent(*b, m);
        },
        Value::Waiting(id) => {
            assert(waiting_ids(v).contains(id));
        },
        _ => {},
    }
}

/// With pairwise distinct identifiers overall, obligations appended after
/// `s1` touch nothing a value whose waiting identifiers avoid them resolves:
/// the combined map and the `s1` map resolve `w` identically.
pub proof fn lemma_resolve_all_append_left(w: Value, s1: Seq<(u64, Value)>, s2: Seq<(u64, Value)>)
    requires
        forall|k: int, l: int| 0 <= k < l < (s1 + s2).len() ==> (s1 + s2)[k].0 != (s1 + s2)[l].0,
        forall|id: u64| #[trigger]
            waiting_ids(w).contains(id) ==> !(exists|k: int| 0 <= k < s2.len() && s2[k].0 == id),
    ensures
        resolve_all(w, pairs_map(s1 + s2)) == resolve_all(w, pairs_map(s1)),
{
    lemma_pairs_map(s1);
    lemma_pairs_map(s1 + s2);
    assert forall|k: int, l: int| 0 <= k < l < s1.len() implies s1[k].0 != s1[l].0 by {
        assert((s1 + s2)[k] == s1[k] && (s1 + s2)[l] == s1[l]);
    }
    assert forall|id: u64| #[trigger]
        waiting_ids(w).contains(id) implies (pairs_map(s1 + s2).dom().contains(id) <==> pairs_map(
        s1,
    ).dom().contains(id)) && (pairs_map(s1 + s2).dom().contains(id) ==> pairs_map(s1 + s2)[id]
        == pairs_map(s1)[id]) by {
        if pairs_map(s1 + s2).dom().contains(id) {
            let k = choose|k: int| 0 <= k < (s1 + s2).len() && (s1 + s2)[k].0 == id;
            assert(!(k >= s1.len() && s2[k - s1.len()].0 == id));
            assert((s1 + s2)[k] == s1[k]);
            assert(pairs_map(s1).dom().contains(id));
            assert(pairs_map(s1)[s1[k].0] == s1[k].1);
            assert(pairs_map(s1 + s2)[(s1 + s2)[k].0] == (s1 + s2)[k].1);
        }
        if pairs_map(s1).dom().contains(id) {
            let k = choose|k: int| 0 <= k < s1.len() && s1[k].0 == id;
            assert((s1 + s2)[k] == s1[k]);
            assert(pairs_map(s1 + s2).dom().contains(id));
        }
    }
    lemma_resolve_all_agree(w, pairs_map(s1 + s2), pairs_map(s1));
}

/// The mirror image: obligations listed before `s2` touch nothing a value
/// whose waiting identifiers avoid them resolves.
pub proof fn lemma_resolve_all_append_right(w: Value, s1: Seq<(u64, Value)>, s2: Seq<(u64, Value)>)
    requires
        forall|k: int, l: int| 0 <= k < l < (s1 + s2).len() ==> (s1 + s2)[k].0 != (s1 + s2)[l].0,
        forall|id: u64| #[trigger]
            waiting_ids(w).contains(id) ==> !(exists|k: int| 0 <= k < s1.len() && s1[k].0 == id),
    ensures
        resolve_all(w, pairs_map(s1 + s2)) == resolve_all(w, pairs_map(s2)),
{
    lemma_pairs_map(s2);
    lemma_pairs_map(s1 + s2);
    assert forall|k: int, l: int| 0 <= k < l < s2.len() implies s2[k].0 != s2[l].0 by {
        assert((s1 + s2)[k + s1.len()] == s2[k] && (s1 + s2)[l + s1.len()] == s2[l]);
    }
    assert forall|id: u64| #[trigger]
        waiting_ids(w).contains(id) implies (pairs_map(s1 + s2).dom().contains(id) <==> pairs_map(
        s2,
    ).dom().contains(id)) && (pairs_map(s1 + s2).dom().contains(id) ==> pairs_map(s1 + s2)[id]
        == pairs_map(s2)[id]) by {
        if pairs_map(s1 + s2).dom().contains(id) {
            let k = choose|k: int| 0 <= k < (s1 + s2).len() && (s1 + s2)[k].0 == id;
            assert(!(k < s1.len() && s1[k].0 == id));
            assert((s1 + s2)[k] == s2[k - s1.len()]);
            assert(pairs_map(s2).dom().contains(id));
            assert(pairs_map(s2)[s2[k - s1.len()].0] == s2[k - s1.len()].1);
            assert(pairs_map(s1 + s2)[(s1 + s2)[k].0] == (s1 + s2)[k].1);
        }
        if pairs_map(s2).dom().contains(id) {
            let k = choose|k: int| 0 <= k < s2.len() && s2[k].0 == id;
            assert((s1 + s2)[k + s1.len()] == s2[k]);
            assert(pairs_map(s1 + s2).dom().contains(id));
        }
    }
    lemma_resolve_all_agree(w, pairs_map(s1 + s2), pairs_map(s2));
}

/// Decomposition preserves the kind: a wire form whose obligations resolve
/// to a value of some kind matches that kind itself, so the peer's
/// reconstruction accepts it. Together with the round-trip clause of
/// [`deconstruct_post`], reconstructing a decomposed value and resolving
/// its obligations yields the original, for every value of its kind.
pub proof fn lemma_deconstruct_preserves_kind(v: Value, w: Value, m: Map<u64, Value>, t: Kind)
    requires
        resolve_all(w, m) == v,
        is_wire(w),
        value_has_kind(v, t),
    ensures
        value_has_kind(w, t),
    decreases t, w,
{
    match t {
        Kind::OptionOf(inner) => {
            match w {
                Value::SomeOf(b) => {
                    lemma_deconstruct_preserves_kind(resolve_all(*b, m), *b, m, *inner);
                },
                _ => {},
            }
        },
        Kind::ResultOf(okt, errt) => {
            match w {
                Value::OkOf(b) => {
                    lemma_deconstruct_preserves_kind(resolve_all(*b, m), *b, m, *okt);
                },
                Value::ErrOf(b) => {
                    lemma_deconstruct_preserves_kind(resolve_all(*b, m), *b, m, *errt);
                },
                _ => {},
            }
        },
        Kind::PairOf(at, bt) => {
            match w {
                Value::Pair(a, b) => {
                    lemma_deconstruct_preserves_kind(resolve_all(*a, m), *a, m, *at);
                    lemma_deconstruct_preserves_kind(resolve_all(*b, m), *b, m, *bt);
                },
                _ => {},
            }
        },
        Kind::ChoiceOf(head, rest) => {
            match w {
                Value::Tagged(tag, b) => {
                    if tag == 0 {
                        lemma_deconstruct_preserves_kind(resolve_all(*b, m), *b, m, *head);
                    } else {
                        let w1 = Value::Tagged((tag - 1) as u64, b);
                        let v1 = Value::Tagged((tag - 1) as u64, Box::new(resolve_all(*b, m)));
                        assert(resolve_all(w1, m) == v1);
                        lemma_deconstruct_preserves_kind(v1, w1, m, *rest);
                    }
                },
                _ => {},
            }
        },
        Kind::ListOf(elem) => {
            match w {
                Value::Pair(a, b) => {
                    lemma_deconstruct_preserves_kind(resolve_all(*a, m), *a, m, *elem);
                    lemma_deconstruct_preserves_kind(resolve_all(*b, m), *b, m, t);
                },
                _ => {},
            }
        },
        _ => {},
    }
}

/// A deliverable value waits on nothing: its waiting-identifier set is
/// empty.
pub proof fn lemma_grounded_no_waiting(v: Value)
    requires
        is_grounded(v),
    ensures
        forall|id: u64| !waiting_ids(v).contains(id),
    decreases v,
{
    match v {
        Value::Ready(b) => {
            assert(waiting_ids(v) == waiting_ids(*b));
            lemma_grounded_no_waiting(*b);
        },
        Value::SomeOf(b) => {
            assert(waiting_ids(v) == waiting_ids(*b));
            lemma_grounded_no_waiting(*b);
        },
        Value::OkOf(b) => {
            assert(waiting_ids(v) == waiting_ids(*b));
            lemma_grounded_no_waiting(*b);
        },
        Value::ErrOf(b) => {
            assert(waiting_ids(v) == waiting_ids(*b));
            lemma_grounded_no_waiting(*b);
        },
        Value::Pair(a, b) => {
            assert(waiting_ids(v) == waiting_ids(*a).union(waiting_ids(*b)));
            lemma_grounded_no_waiting(*a);
            lemma_grounded_no_waiting(*b);
        },
        Value::Tagged(_, b) => {
            assert(waiting_ids(v) == waiting_ids(*b));
            lemma_grounded_no_waiting(*b);
        },
        _ => {},
    }
}

/// Count the sub-channels one decomposition step of `v` would fork, or
/// report that the count exceeds the identifier space.
pub fn count_ready(v: &Value) -> (r: Option<u64>)
    ensures
        match r {
            Some(n) => n as nat == ready_count(*v),
            None => ready_count(*v) > u64::MAX,
        },
    decreases v,
{
    match v {
        Value::Ready(_) => Some(1),
        Value::SomeOf(b) => count_ready(b),
        Value::OkOf(b) => count_ready(b),
        Value::ErrOf(b) => count_ready(b),
        Value::Tagged(_, b) => count_ready(b),
        Value::Pair(a, b) => {
            match (count_ready(a), count_ready(b)) {
                (Some(x), Some(y)) => x.checked_add(y),
                _ => None,
            }
        },
        _ => Some(0),
    }
}

/// Structural equality over the view of every field, the equality the
/// executable [`Value::deep_eq`] decides.
pub open spec fn eq_spec(a: Value, b: Value) -> bool
    decreases a,
{
    match (a, b) {
        (Value::Unit, Value::Unit) => true,
        (Value::Phantom, Value::Phantom) => true,
        (Value::U64(x), Value::U64(y)) => x == y,
        (Value::U32(x), Value::U32(y)) => x == y,
        (Value::Bool(x), Value::Bool(y)) => x == y,
        (Value::Text(s), Value::Text(t)) => s@ == t@,
        (Value::NoneOf, Value::NoneOf) => true,
        (Value::SomeOf(x), Value::SomeOf(y)) => eq_spec(*x, *y),
        (Value::OkOf(x), Value::OkOf(y)) => eq_spec(*x, *y),
        (Value::ErrOf(x), Value::ErrOf(y)) => eq_spec(*x, *y),
        (Value::Pair(x1, x2), Value::Pair(y1, y2)) => eq_spec(*x1, *y1) && eq_spec(*x2, *y2),
        (Value::Tagged(xt, x), Value::Tagged(yt, y)) => xt == yt && eq_spec(*x, *y),
        (Value::Ready(x), Value::Ready(y)) => eq_spec(*x, *y),
        (Value::Waiting(x), Value::Waiting(y)) => x == y,
        _ => false,
    }
}

/// Equal values are structurally equal.
pub proof fn lemma_eq_spec_refl(v: Value)
    ensures
        eq_spec(v, v),
    decreases v,
{
    match v {
        Value::SomeOf(b) => lemma_eq_spec_refl(*b),
        Value::OkOf(b) => lemma_eq_spec_refl(*b),
        Value::ErrOf(b) => lemma_eq_spec_refl(*b),
        Value::Pair(a, b) => {
            lemma_eq_spec_refl(*a);
            lemma_eq_spec_refl(*b);
        },
        Value::Tagged(_, b) => lemma_eq_spec_refl(*b),
        Value::Ready(b) => lemma_eq_spec_refl(*b),
        _ => {},
    }
}

impl Value {
    /// A deep copy, equal to the original.
    pub fn dup(&self) -> (r: Value)
        ensures
            r == *self,
        decreases self,
    {
        match self {
            Value::Unit => Value::Unit,
            Value::Phantom => Value::Phantom,
            Value::U64(x) => Value::U64(*x),
            Value::U32(x) => Value::U32(*x),
            Value::Bool(x) => Value::Bool(*x),
            Value::Text(s) => Value::Text(s.clone()),
            Value::NoneOf => Value::NoneOf,
            Value::SomeOf(b) => Value::SomeOf(Box::new(b.dup())),
            Value::OkOf(b) => Value::OkOf(Box::new(b.dup())),
            Value::ErrOf(b) => Value::ErrOf(Box::new(b.dup())),
            Value::Pair(a, b) => Value::Pair(Box::new(a.dup()), Box::new(b.dup())),
            Value::Tagged(tag, b) => Value::Tagged(*tag, Box::new(b.dup())),
            Value::Ready(b) => Value::Ready(Box::new(b.dup())),
            Value::Waiting(id) => Value::Waiting(*id),
        }
    }

    /// Structural equality, deciding [`eq_spec`].
    pub fn deep_eq(&self, other: &Value) -> (r: bool)
        ensures
            r == eq_spec(*self, *other),
        decreases self,
    {
        match (self, other) {
            (Value::Unit, Value::Unit) => true,
            (Value::Phantom, Value::Phantom) => true,
            (Value::U64(x), Value::U64(y)) => x == y,
            (Value::U32(x), Value::U32(y)) => x == y,
            (Value::Bool(x), Value::Bool(y)) => x == y,
            (Value::Text(s), Value::Text(t)) => s.eq(t),
            (Value::NoneOf, Value::NoneOf) => true,
            (Value::SomeOf(x), Value::SomeOf(y)) => x.deep_eq(y),
            (Value::OkOf(x), Value::OkOf(y)) => x.deep_eq(y),
            (Value::ErrOf(x), Value::ErrOf(y)) => x.deep_eq(y),
            (Value::Pair(x1, x2), Value::Pair(y1, y2)) => x1.deep_eq(y1) && x2.deep_eq(y2),
            (Value::Tagged(xt, x), Value::Tagged(yt, y)) => xt == yt && x.deep_eq(y),
            (Value::Ready(x), Value::Ready(y)) => x.deep_eq(y),
            (Value::Waiting(x), Value::Waiting(y)) => x == y,
            _ => false,
        }
    }
}

fn choice_check(tag: u64, payload: &Value, t: &Kind) -> (r: bool)
    ensures
        r == value_has_kind(Value::Tagged(tag, Box::new(*payload)), *t),
    decreases *t, *payload, 0nat,
{
    match t {
        Kind::ChoiceOf(head, rest) => {
            if tag == 0 {
                kind_check(payload, head)
            } else {
                choice_check(tag - 1, payload, rest)
            }
        },
        _ => false,
    }
}

/// Decide whether a value matches a kind.
pub fn kind_check(v: &Value, t: &Kind) -> (r: bool)
    ensures
        r == value_has_kind(*v, *t),
    decreases *t, *v, 1nat,
{
    match t {
        Kind::Unit => matches!(v, Value::Unit),
        Kind::Phantom => matches!(v, Value::Phantom),
        Kind::U64 => matches!(v, Value::U64(_)),
        Kind::U32 => matches!(v, Value::U32(_)),
        Kind::Bool => matches!(v, Value::Bool(_)),
        Kind::Text => matches!(v, Value::Text(_)),
        Kind::OptionOf(inner) => match v {
            Value::NoneOf => true,
            Value::SomeOf(b) => kind_check(b, inner),
            _ => false,
        },
        Kind::ResultOf(okt, errt) => match v {
            Value::OkOf(b) => kind_check(b, okt),
            Value::ErrOf(b) => kind_check(b, errt),
            _ => false,
        },
        Kind::PairOf(at, bt) => match v {
            Value::Pair(a, b) => kind_check(a, at) && kind_check(b, bt),
            _ => false,
        },
        Kind::ChoiceOf(_, _) => match v {
            Value::Tagged(tag, b) => choice_check(*tag, b, t),
            _ => false,
        },
        Kind::ListOf(elem) => match v {
            Value::Unit => true,
            Value::Pair(a, rest) => kind_check(a, elem) && kind_check(rest, t),
            _ => false,
        },
        Kind::PendingOf(inner) => match v {
            Value::Ready(b) => kind_check(b, inner),
            Value::Waiting(_) => true,
            _ => false,
        },
    }
}

/// Accept a wire value against the kind the consumer expects: the value
/// itself when it matches, the terminal [`KindError::MalformedValue`] when
/// it does not.
pub fn construct(w: Value, t: &Kind) -> (r: Result<Value, KindError>)
    ensures
        match r {
            Ok(v) => value_has_kind(w, *t) && v == w,
            Err(e) => !value_has_kind(w, *t) && e == KindError::MalformedValue,
        },
{
    if kind_check(&w, t) {
        Ok(w)
    } else {
        Err(KindError::MalformedValue)
    }
}

/// Everything one decomposition step guarantees, relating the value, the
/// multiplexer before and after, the obligation list before and after, and
/// the wire form. `new` below names the appended obligations.
pub open spec fn deconstruct_post(
    v: Value,
    c0: Context<Value>,
    c1: Context<Value>,
    obs0: Seq<(u64, Value)>,
    obs1: Seq<(u64, Value)>,
    w: Value,
) -> bool {
    let new = obs1.skip(obs0.len() as int);
    &&& new.len() == ready_count(v)
    &&& forall|k: int, l: int| 0 <= k < l < new.len() ==> new[k].0 != new[l].0
    &&& forall|k: int|
        0 <= k < new.len() ==> !c0.is_live(#[trigger] new[k].0) && c1.is_live(new[k].0)
            && c1.queue_of(new[k].0) =~= Seq::<Value>::empty()
    &&& forall|k: int, id: u64|
        0 <= k < new.len() && #[trigger] waiting_ids(new[k].1).contains(id) ==> waiting_ids(
            v,
        ).contains(id)
    &&& resolve_all(w, pairs_map(new)) == v
    &&& forall|id: u64| #[trigger]
        waiting_ids(w).contains(id) ==> waiting_ids(v).contains(id) || exists|k: int|
            0 <= k < new.len() && new[k].0 == id
    &&& forall|id: u64| #[trigger]
        c0.is_live(id) ==> c1.is_live(id) && c1.queue_of(id) == c0.queue_of(id) && c1.parked(id)
            == c0.parked(id)
    &&& forall|id: u64| #[trigger]
        c1.is_live(id) ==> c0.is_live(id) || exists|k: int| 0 <= k < new.len() && new[k].0 == id
    &&& c0.counter() <= c1.counter() <= c0.counter() + ready_count(v)
    &&& (c0.pool().len() == 0 ==> c1.pool().len() == 0 && c1.counter() == c0.counter()
        + ready_count(v) && forall|k: int|
        0 <= k < new.len() ==> (#[trigger] new[k].0) as int == c0.counter() + k)
}

/// Decompose a value into its wire form. `ctx` is the sending endpoint's
/// multiplexer: each outermost resolved pending part of `v` forks a fresh
/// sub-channel, rides in the wire form as that sub-channel's identifier
/// alone, and the content owed on the identifier is appended to `obs`.
///
/// Decomposition is total for every value, and the round trip is exact:
/// substituting the appended obligations back into the returned wire form —
/// as the paired endpoint eventually does, one routed item per identifier —
/// yields precisely `v` (the `resolve_all` clause of [`deconstruct_post`]).
pub fn deconstruct(v: Value, ctx: &mut Context<Value>, obs: &mut Vec<(u64, Value)>) -> (w: Value)
    requires
        old(ctx).wf(),
        forall|id: u64| #[trigger] waiting_ids(v).contains(id) ==> old(ctx).is_live(id),
        old(ctx).counter() + ready_count(v) <= u64::MAX,
    ensures
        final(ctx).wf(),
        is_wire(w),
        final(obs)@.len() >= old(obs)@.len(),
        final(obs)@.subrange(0, old(obs)@.len() as int) =~= old(obs)@,
        deconstruct_post(v, *old(ctx), *final(ctx), old(obs)@, final(obs)@, w),
    decreases v,
{
    let ghost obs0 = obs@;
    match v {
        Value::Ready(b) => {
            let id = ctx.fork();
            let content = *b;
            obs.push((id, content));
            proof {
                let new = obs@.skip(obs0.len() as int);
                assert(new =~= seq![(id, content)]);
                lemma_pairs_map(new);
                assert(new[0].0 == id && new[0].1 == content);
                assert(pairs_map(new).dom().contains(id) && pairs_map(new)[id] == content);
                assert(resolve_all(Value::Waiting(id), pairs_map(new)) == Value::Ready(
                    Box::new(content),
                ));
                assert(waiting_ids(v) == waiting_ids(content));
                assert(waiting_ids(Value::Waiting(id)) == set![id]);
                assert(obs@.subrange(0, obs0.len() as int) =~= obs0);
            }
            Value::Waiting(id)
        },
        Value::SomeOf(b) => {
            proof {
                assert(waiting_ids(v) == waiting_ids(*b));
                assert(ready_count(v) == ready_count(*b));
            }
            let inner = deconstruct(*b, ctx, obs);
            proof {
                let new = obs@.skip(obs0.len() as int);
                assert(resolve_all(Value::SomeOf(Box::new(inner)), pairs_map(new))
                    == Value::SomeOf(Box::new(resolve_all(inner, pairs_map(new)))));
                assert(waiting_ids(Value::SomeOf(Box::new(inner))) == waiting_ids(inner));
            }
            Value::SomeOf(Box::new(inner))
        },
        Value::OkOf(b) => {
            proof {
                assert(waiting_ids(v) == waiting_ids(*b));
                assert(ready_count(v) == ready_count(*b));
            }
            let inner = deconstruct(*b, ctx, obs);
            proof {
                let new = obs@.skip(obs0.len() as int);
                assert(resolve_all(Value::OkOf(Box::new(inner)), pairs_map(new)) == Value::OkOf(
                    Box::new(resolve_all(inner, pairs_map(new))),
                ));
                assert(waiting_ids(Value::OkOf(Box::new(inner))) == waiting_ids(inner));
            }
            Value::OkOf(Box::new(inner))
        },
        Value::ErrOf(b) => {
            proof {
                assert(waiting_ids(v) == waiting_ids(*b));
                assert(ready_count(v) == ready_count(*b));
            }
            let inner = deconstruct(*b, ctx, obs);
            proof {
                let new = obs@.skip(obs0.len() as int);
                assert(resolve_all(Value::ErrOf(Box::new(inner)), pairs_map(new)) == Value::ErrOf(
                    Box::new(resolve_all(inner, pairs_map(new))),
                ));
                assert(waiting_ids(Value::ErrOf(Box::new(inner))) == waiting_ids(inner));
            }
            Value::ErrOf(Box::new(inner))
        },
        Value::Tagged(tag, b) => {
            proof {
                assert(waiting_ids(v) == waiting_ids(*b));
                assert(ready_count(v) == ready_count(*b));
            }
            let inner = deconstruct(*b, ctx, obs);
            proof {
                let new = obs@.skip(obs0.len() as int);
                assert(resolve_all(Value::Tagged(tag, Box::new(inner)), pairs_map(new))
                    == Value::Tagged(tag, Box::new(resolve_all(inner, pairs_map(new)))));
                assert(waiting_ids(Value::Tagged(tag, Box::new(inner))) == waiting_ids(inner));
            }
            Value::Tagged(tag, Box::new(inner))
        },
        Value::Pair(a, b) => {
            let ghost va = *a;
            let ghost vb = *b;
            proof {
                assert(waiting_ids(v) == waiting_ids(va).union(waiting_ids(vb)));
                assert(ready_count(v) == ready_count(va) + ready_count(vb));
                assert forall|id: u64| #[trigger]
                    waiting_ids(va).contains(id) implies old(ctx).is_live(id) by {
                    assert(waiting_ids(v).contains(id));
                }
            }
            let wa = deconstruct(*a, ctx, obs);
            let ghost cmid = *ctx;
            let ghost obs_mid = obs@;
            let ghost new1 = obs_mid.skip(obs0.len() as int);
            proof {
                assert forall|id: u64| #[trigger]
                    waiting_ids(vb).contains(id) implies cmid.is_live(id) by {
                    assert(waiting_ids(v).contains(id));
                    assert(old(ctx).is_live(id));
                }
                assert forall|id: u64| #[trigger] waiting_ids(wa).contains(id) implies cmid.is_live(
                    id,
                ) by {
                    if waiting_ids(va).contains(id) {
                        assert(waiting_ids(v).contains(id));
                        assert(old(ctx).is_live(id));
                    } else {
                        let k = choose|k: int| 0 <= k < new1.len() && new1[k].0 == id;
                        assert(cmid.is_live(new1[k].0));
                    }
                }
            }
            let wb = deconstruct(*b, ctx, obs);
            proof {
                let obs_end = obs@;
                let new2 = obs_end.skip(obs_mid.len() as int);
                let new = obs_end.skip(obs0.len() as int);
                assert(obs_end.subrange(0, obs_mid.len() as int) =~= obs_mid);
                assert(new =~= new1 + new2);
                assert(obs_end.subrange(0, obs0.len() as int) =~= obs0);
                // the two batches use disjoint identifiers
                assert forall|k: int, l: int| 0 <= k < l < new.len() implies new[k].0
                    != new[l].0 by {
                    if l < new1.len() {
                        assert(new1[k].0 != new1[l].0);
                    } else if k >= new1.len() {
                        assert(new2[k - new1.len()].0 != new2[l - new1.len()].0);
                    } else {
                        assert(cmid.is_live(new1[k].0));
                        assert(!cmid.is_live(new2[l - new1.len()].0));
                    }
                }
                // substitution splits across the two batches
                assert forall|id: u64| #[trigger] waiting_ids(wa).contains(id) implies !(exists|
                    k: int,
                |
                    0 <= k < new2.len() && new2[k].0 == id) by {
                    assert(cmid.is_live(id));
                    if exists|k: int| 0 <= k < new2.len() && new2[k].0 == id {
                        let k = choose|k: int| 0 <= k < new2.len() && new2[k].0 == id;
                        assert(!cmid.is_live(new2[k].0));
                    }
                }
                lemma_resolve_all_append_left(wa, new1, new2);
                assert forall|id: u64| #[trigger] waiting_ids(wb).contains(id) implies !(exists|
                    k: int,
                |
                    0 <= k < new1.len() && new1[k].0 == id) by {
                    if exists|k: int| 0 <= k < new1.len() && new1[k].0 == id {
                        let k = choose|k: int| 0 <= k < new1.len() && new1[k].0 == id;
                        assert(cmid.is_live(new1[k].0));
                        if waiting_ids(vb).contains(id) {
                            assert(waiting_ids(v).contains(id));
                            assert(old(ctx).is_live(id));
                            assert(!old(ctx).is_live(new1[k].0));
                        } else {
                            let l = choose|l: int| 0 <= l < new2.len() && new2[l].0 == id;
                            assert(!cmid.is_live(new2[l].0));
                        }
                    }
                }
                lemma_resolve_all_append_right(wb, new1, new2);
                assert(resolve_all(Value::Pair(Box::new(wa), Box::new(wb)), pairs_map(new))
                    == Value::Pair(
                    Box::new(resolve_all(wa, pairs_map(new))),
                    Box::new(resolve_all(wb, pairs_map(new))),
                ));
                assert(resolve_all(wa, pairs_map(new)) == va);
                assert(resolve_all(wb, pairs_map(new)) == vb);
                // waiting identifiers of the combined wire form
                assert forall|id: u64| #[trigger]
                    waiting_ids(Value::Pair(Box::new(wa), Box::new(wb))).contains(
                        id,
                    ) implies waiting_ids(v).contains(id) || exists|k: int|
                    0 <= k < new.len() && new[k].0 == id by {
                    if waiting_ids(wa).contains(id) {
                        if !waiting_ids(va).contains(id) {
                            let k = choose|k: int| 0 <= k < new1.len() && new1[k].0 == id;
                            assert(new[k] == new1[k]);
                        }
                    } else {
                        assert(waiting_ids(wb).contains(id));
                        if !waiting_ids(vb).contains(id) {
                            let k = choose|k: int| 0 <= k < new2.len() && new2[k].0 == id;
                            assert(new[k + new1.len()] == new2[k]);
                        }
                    }
                }
                // obligations carry only identifiers the original value waited on
                assert forall|k: int, id: u64|
                    0 <= k < new.len() && #[trigger]
                    waiting_ids(new[k].1).contains(id) implies waiting_ids(v).contains(id) by {
                    if k < new1.len() {
                        assert(new[k] == new1[k]);
                        assert(waiting_ids(va).contains(id));
                    } else {
                        assert(new[k] == new2[k - new1.len()]);
                        assert(waiting_ids(vb).contains(id));
                    }
                }
                // the appended identifiers are fresh and live
                assert forall|k: int| 0 <= k < new.len() implies !old(ctx).is_live(
                    #[trigger] new[k].0,
                ) && ctx.is_live(new[k].0) && ctx.queue_of(new[k].0) =~= Seq::<Value>::empty() by {
                    if k < new1.len() {
                        assert(new[k] == new1[k]);
                        assert(cmid.is_live(new1[k].0));
                        assert(cmid.queue_of(new1[k].0) =~= Seq::<Value>::empty());
                    } else {
                        assert(new[k] == new2[k - new1.len()]);
                        assert(!cmid.is_live(new2[k - new1.len()].0));
                    }
                }
                assert forall|id: u64| #[trigger] ctx.is_live(id) implies old(ctx).is_live(id)
                    || exists|k: int| 0 <= k < new.len() && new[k].0 == id by {
                    if !old(ctx).is_live(id) {
                        if cmid.is_live(id) {
                            let k = choose|k: int| 0 <= k < new1.len() && new1[k].0 == id;
                            assert(new[k] == new1[k]);
                        } else {
                            let k = choose|k: int| 0 <= k < new2.len() && new2[k].0 == id;
                            assert(new[k + new1.len()] == new2[k]);
                        }
                    }
                }
            }
            Value::Pair(Box::new(wa), Box::new(wb))
        },
        other => {
            proof {
                assert(obs@.subrange(0, obs0.len() as int) =~= obs0);
                let new = obs@.skip(obs0.len() as int);
                assert(new =~= Seq::<(u64, Value)>::empty());
                assert(match other {
                    Value::Waiting(id) => !pairs_map(new).dom().contains(id),
                    _ => true,
                });
            }
            other
        },
    }
}

/// Resolve one pending part: every part of `v` waiting on `id` becomes a
/// resolved pending value holding `content`.
pub fn resolve(v: Value, id: u64, content: &Value) -> (r: Value)
    ensures
        r == resolve_all(v, Map::empty().insert(id, *content)),
    decreases v,
{
    match v {
        Value::Waiting(w) => {
            if w == id {
                Value::Ready(Box::new(content.dup()))
            } else {
                Value::Waiting(w)
            }
        },
        Value::SomeOf(b) => Value::SomeOf(Box::new(resolve(*b, id, content))),
        Value::OkOf(b) => Value::OkOf(Box::new(resolve(*b, id, content))),
        Value::ErrOf(b) => Value::ErrOf(Box::new(resolve(*b, id, content))),
        Value::Pair(a, b) => Value::Pair(
            Box::new(resolve(*a, id, content)),
            Box::new(resolve(*b, id, content)),
        ),
        Value::Tagged(tag, b) => Value::Tagged(tag, Box::new(resolve(*b, id, content))),
        other => other,
    }
}

/// Marks a family of [`AsKind`] conversions, so one concrete type can opt
/// into several without the implementations colliding.
pub trait AsKindMarker {

}

/// The marker for the base conversions of primitive types.
pub struct Primitive;

impl AsKindMarker for Primitive {

}

/// The marker for the conversions of composite types that recurse field by
/// field.
pub struct Composite;

impl AsKindMarker for Composite {

}

/// A type with a canonical decomposition into the value algebra and an
/// inverse reconstruction. Decomposition is total and deterministic;
/// reconstruction either succeeds or reports the one terminal decode error,
/// and reconstructing a decomposed value gives back the original —
/// every implementation proves [`AsKind::lemma_round_trip`].
pub trait AsKind<M: AsKindMarker>: Sized {
    /// The decomposed form of `self`.
    spec fn kind_spec(self) -> Value;

    /// Which values reconstruct, and to what.
    spec fn of_kind_spec(v: Value) -> Option<Self>;

    /// Decompose `self` into its canonical value.
    fn into_kind(self) -> (w: Value)
        ensures
            w == self.kind_spec(),
    ;

    /// Reconstruct from a value: exactly the values `of_kind_spec` accepts
    /// succeed, and a failure is the terminal [`KindError::MalformedValue`].
    fn from_kind(w: Value) -> (r: Result<Self, KindError>)
        ensures
            match r {
                Ok(x) => Self::of_kind_spec(w) == Some(x),
                Err(e) => Self::of_kind_spec(w) is None && e == KindError::MalformedValue,
            },
    ;

    /// Round trip: reconstructing the decomposition yields the original.
    proof fn lemma_round_trip(self)
        ensures
            Self::of_kind_spec(self.kind_spec()) == Some(self),
    ;
}

impl AsKind<Primitive> for u64 {
    open spec fn kind_spec(self) -> Value {
        Value::U64(self)
    }

    open spec fn of_kind_spec(v: Value) -> Option<u64> {
        match v {
            Value::U64(x) => Some(x),
            _ => None,
        }
    }

    fn into_kind(self) -> Value {
        Value::U64(self)
    }

    fn from_kind(w: Value) -> Result<u64, KindError> {
        match w {
            Value::U64(x) => Ok(x),
            _ => Err(KindError::MalformedValue),
        }
    }

    proof fn lemma_round_trip(self) {
    }
}

impl AsKind<Primitive> for u32 {
    open spec fn kind_spec(self) -> Value {
        Value::U32(self)
    }

    open spec fn of_kind_spec(v: Value) -> Option<u32> {
        match v {
            Value::U32(x) => Some(x),
            _ => None,
        }
    }

    fn into_kind(self) -> Value {
        Value::U32(self)
    }

    fn from_kind(w: Value) -> Result<u32, KindError> {
        match w {
            Value::U32(x) => Ok(x),
            _ => Err(KindError::MalformedValue),
        }
    }

    proof fn lemma_round_trip(self) {
    }
}

impl AsKind<Primitive> for bool {
    open spec fn kind_spec(self) -> Value {
        Value::Bool(self)
    }

    open spec fn of_kind_spec(v: Value) -> Option<bool> {
        match v {
            Value::Bool(x) => Some(x),
            _ => None,
        }
    }

    fn into_kind(self) -> Value {
        Value::Bool(self)
    }

    fn from_kind(w: Value) -> Result<bool, KindError> {
        match w {
            Value::Bool(x) => Ok(x),
            _ => Err(KindError::MalformedValue),
        }
    }

    proof fn lemma_round_trip(self) {
    }
}

impl AsKind<Primitive> for String {
    open spec fn kind_spec(self) -> Value {
        Value::Text(self)
    }

    open spec fn of_kind_spec(v: Value) -> Option<String> {
        match v {
            Value::Text(s) => Some(s),
            _ => None,
        }
    }

    fn into_kind(self) -> Value {
        Value::Text(self)
    }

    fn from_kind(w: Value) -> Result<String, KindError> {
        match w {
            Value::Text(s) => Ok(s),
            _ => Err(KindError::MalformedValue),
        }
    }

    proof fn lemma_round_trip(self) {
    }
}

impl AsKind<Primitive> for () {
    open spec fn kind_spec(self) -> Value {
        Value::Unit
    }

    open spec fn of_kind_spec(v: Value) -> Option<()> {
        match v {
            Value::Unit => Some(()),
            _ => None,
        }
    }

    fn into_kind(self) -> Value {
        Value::Unit
    }

    fn from_kind(w: Value) -> Result<(), KindError> {
        match w {
            Value::Unit => Ok(()),
            _ => Err(KindError::MalformedValue),
        }
    }

    proof fn lemma_round_trip(self) {
    }
}

} // verus!
