//! Boolean queries over a type tree, in the visiting order of mypy's
//! `BoolTypeQuery` with `ANY_STRATEGY`: a node either decides the answer
//! itself or asks its components left to right, stopping at the first
//! `true` or the first component that cannot be decided.

use vstd::prelude::*;
use crate::wire::{lemma_pairs_model, lemma_types_model, pairs_model, type_model, types_model, Type, TypeModel};

verus! {

/// Which question a walk asks of each node.
#[derive(Debug, Clone, Copy, PartialEq, Eq, Structural)]
pub enum BoolQuery {
    /// `InvalidInferredTypes`: an ambiguous `Never`, an erased type, or a
    /// meta type variable.
    InvalidInferred,
    /// `HasExplicitAny` and friends: an `Any` of the given `TypeOfAny`; a
    /// `TypedDictType` subtree answers false.
    AnyOfKind(i64),
    /// An `ErasedType` anywhere.
    Erased,
    /// An `UnpackType` anywhere.
    Unpack,
}

/// The node's own answer: `Some(d)` decides the walk at this node (`d`
/// is `None` for an alias, whose target is not held); `None` means "ask
/// the components".
pub open spec fn node_decision(t: TypeModel, q: BoolQuery) -> Option<Option<bool>> {
    match t {
        TypeModel::TypeAliasType { .. } => Some(None),
        _ => match q {
            BoolQuery::InvalidInferred => match t {
                TypeModel::UninhabitedType { ambiguous } => Some(Some(ambiguous)),
                TypeModel::ErasedType => Some(Some(true)),
                TypeModel::TypeVarType { meta_level, .. } => Some(Some(meta_level > 0)),
                _ => None,
            },
            BoolQuery::AnyOfKind(k) => match t {
                TypeModel::AnyType { type_of_any, .. } => Some(Some(type_of_any == k as int)),
                TypeModel::TypedDictType { .. } => Some(Some(false)),
                _ => None,
            },
            BoolQuery::Erased => match t {
                TypeModel::ErasedType => Some(Some(true)),
                _ => None,
            },
            BoolQuery::Unpack => match t {
                TypeModel::UnpackType { .. } => Some(Some(true)),
                _ => None,
            },
        },
    }
}

/// Combine the answer so far with the next component's answer.
pub open spec fn then_ask(so_far: Option<bool>, next: Option<bool>) -> Option<bool> {
    match so_far {
        Some(true) => Some(true),
        None => None,
        Some(false) => next,
    }
}

/// The query's answer for one type.
pub open spec fn query(t: TypeModel, q: BoolQuery) -> Option<bool>
    decreases t, 1nat,
{
    match node_decision(t, q) {
        Some(d) => d,
        None => match t {
            TypeModel::Instance { args, .. } => query_seq(args, q),
            TypeModel::TypeVarType { upper_bound, default, values, .. } => then_ask(
                then_ask(query(*upper_bound, q), query(*default, q)),
                query_seq(values, q),
            ),
            TypeModel::CallableType { arg_types, ret_type, .. } => then_ask(query_seq(arg_types, q), query(*ret_type, q)),
            TypeModel::Overloaded { items } => query_seq(items, q),
            TypeModel::TupleType { partial_fallback, items, .. } => then_ask(query(*partial_fallback, q), query_seq(items, q)),
            TypeModel::TypedDictType { items, .. } => query_pairs(items, q),
            TypeModel::UnionType { items, .. } => query_seq(items, q),
            TypeModel::TypeType { item, .. } => query(*item, q),
            TypeModel::UnpackType { typ, .. } => query(*typ, q),
            _ => Some(false),
        },
    }
}

/// The query's answer over a list of types, left to right.
pub open spec fn query_seq(s: Seq<TypeModel>, q: BoolQuery) -> Option<bool>
    decreases s, 0nat,
{
    if s.len() == 0 {
        Some(false)
    } else {
        then_ask(query_seq(s.drop_last(), q), query(s.last(), q))
    }
}

/// The query's answer over the value types of named items.
pub open spec fn query_pairs(s: Seq<(Seq<char>, TypeModel)>, q: BoolQuery) -> Option<bool>
    decreases s, 0nat,
{
    if s.len() == 0 {
        Some(false)
    } else {
        then_ask(query_pairs(s.drop_last(), q), query(s.last().1, q))
    }
}

fn then_ask_exec(so_far: Option<bool>, next: Option<bool>) -> (r: Option<bool>)
    ensures
        r == then_ask(so_far, next),
{
    match so_far {
        Some(true) => Some(true),
        None => None,
        Some(false) => next,
    }
}

/// Run query `q` over `t`.
pub fn run_query(t: &Type, q: BoolQuery) -> (r: Option<bool>)
    ensures
        r == query(t@, q),
    decreases t, 1nat,
{
    match t {
        Type::TypeAliasType { .. } => None,
        Type::UninhabitedType { ambiguous } => match q {
            BoolQuery::InvalidInferred => Some(*ambiguous),
            _ => Some(false),
        },
        Type::ErasedType => match q {
            BoolQuery::InvalidInferred | BoolQuery::Erased => Some(true),
            _ => Some(false),
        },
        Type::AnyType { type_of_any, .. } => match q {
            BoolQuery::AnyOfKind(k) => Some(*type_of_any == k),
            _ => Some(false),
        },
        Type::TypeVarType { meta_level, upper_bound, default, values, .. } => match q {
            BoolQuery::InvalidInferred => Some(*meta_level > 0),
            _ => {
                let a = run_query(upper_bound, q);
                let b = if a == Some(false) { run_query(default, q) } else { a };
                let c = if b == Some(false) { run_query_vec(values, q) } else { b };
                proof {
                    assert(then_ask(query(upper_bound@, q), query(default@, q)) == b);
                }
                c
            },
        },
        Type::Instance { args, .. } => run_query_vec(args, q),
        Type::CallableType { arg_types, ret_type, .. } => {
            let a = run_query_vec(arg_types, q);
            if a == Some(false) {
                run_query(ret_type, q)
            } else {
                a
            }
        },
        Type::Overloaded { items } => run_query_vec(items, q),
        Type::TupleType { partial_fallback, items, .. } => {
            let a = run_query(partial_fallback, q);
            if a == Some(false) {
                run_query_vec(items, q)
            } else {
                a
            }
        },
        Type::TypedDictType { items, .. } => match q {
            BoolQuery::AnyOfKind(_) => Some(false),
            _ => run_query_pairs(items, q),
        },
        Type::UnionType { items, .. } => run_query_vec(items, q),
        Type::TypeType { item, .. } => run_query(item, q),
        Type::UnpackType { typ, .. } => match q {
            BoolQuery::Unpack => Some(true),
            _ => run_query(typ, q),
        },
        _ => Some(false),
    }
}

/// Run query `q` over each type of `v`, left to right.
pub fn run_query_vec(v: &Vec<Type>, q: BoolQuery) -> (r: Option<bool>)
    ensures
        r == query_seq(types_model(v@), q),
    decreases v, 0nat,
{
    proof {
        lemma_types_model(v@);
    }
    let mut acc: Option<bool> = Some(false);
    let mut i: usize = 0;
    while i < v.len()
        invariant
            i <= v@.len(),
            types_model(v@).len() == v@.len(),
            forall|j: int| 0 <= j < v@.len() ==> #[trigger] types_model(v@)[j] == type_model(v@[j]),
            acc == query_seq(types_model(v@).take(i as int), q),
        decreases v@.len() - i,
    {
        proof {
            assert(types_model(v@).take(i + 1).drop_last() =~= types_model(v@).take(i as int));
            assert(types_model(v@).take(i + 1).last() == v@[i as int]@);
        }
        if acc == Some(false) {
            acc = run_query(&v[i], q);
        }
        i = i + 1;
    }
    proof {
        assert(types_model(v@).take(v@.len() as int) =~= types_model(v@));
    }
    acc
}

/// Run query `q` over the value types of `v`, left to right.
pub fn run_query_pairs(v: &Vec<(String, Type)>, q: BoolQuery) -> (r: Option<bool>)
    ensures
        r == query_pairs(pairs_model(v@), q),
    decreases v, 0nat,
{
    proof {
        lemma_pairs_model(v@);
    }
    let mut acc: Option<bool> = Some(false);
    let mut i: usize = 0;
    while i < v.len()
        invariant
            i <= v@.len(),
            pairs_model(v@).len() == v@.len(),
            forall|j: int| 0 <= j < v@.len() ==> #[trigger] pairs_model(v@)[j] == (v@[j].0@, type_model(v@[j].1)),
            acc == query_pairs(pairs_model(v@).take(i as int), q),
        decreases v@.len() - i,
    {
        proof {
            assert(pairs_model(v@).take(i + 1).drop_last() =~= pairs_model(v@).take(i as int));
            assert(pairs_model(v@).take(i + 1).last() == (v@[i as int].0@, v@[i as int].1@));
            assert(decreases_to!(v@ => v@[i as int]));
        }
        if acc == Some(false) {
            acc = run_query(&v[i].1, q);
        }
        i = i + 1;
    }
    proof {
        assert(pairs_model(v@).take(v@.len() as int) =~= pairs_model(v@));
    }
    acc
}

} // verus!
