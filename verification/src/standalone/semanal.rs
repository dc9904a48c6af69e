//! Semantic-analysis helpers: the `Any`-rewriting algebra and type queries
//! behind `--disallow-any-explicit` and `--disallow-any-unimported`, the
//! implicit first argument of a method, signature name elision, the
//! type-argument arity message, and the record-decidable steps of a
//! qualified-name lookup.
//!
//! `None` from an `Option` result, and `LookupOutcome::Deferred`, mean the
//! records cannot decide: a type alias whose target is not held, or a
//! missing snapshot.

use vstd::prelude::*;
use crate::query::{query, run_query, BoolQuery};
use crate::standalone::types::{append_types, cat};
use crate::text::{decimal, ends_with, owned, push_decimal, starts_with, str_eq};
use crate::translate::{apply_rewrite, rewrite, Rewrite};
use crate::typeinfo::{find_in_mro, mro_lookup, TypeResolver};
use crate::wire::{
    clone_type, clone_types, lemma_pairs_model, lemma_types_model, lemma_types_model_push, pairs_model, type_model,
    types_model, Type, TypeModel, EXPLICIT, FROM_UNIMPORTED_TYPE, SPECIAL_FORM,
};

verus! {

/// `make_any_non_explicit`: every explicit `Any` in `t` becomes a
/// special-form `Any`, since an inlined alias target is no longer an
/// explicit `Any`.
pub fn make_any_non_explicit(t: Type) -> (r: Type)
    ensures
        r@ == rewrite(t@, Rewrite::NonExplicitAny),
{
    apply_rewrite(&t, Rewrite::NonExplicitAny)
}

/// `make_any_non_unimported`: every unimported `Any` in `t` becomes a
/// special-form `Any`, and every `Any` walked loses its missing-import
/// name.
pub fn make_any_non_unimported(t: Type) -> (r: Type)
    ensures
        r@ == rewrite(t@, Rewrite::NonUnimportedAny),
{
    apply_rewrite(&t, Rewrite::NonUnimportedAny)
}

/// A callable model with its first parameter type replaced; a callable
/// without parameters is unchanged.
pub open spec fn replace_first_callable(c: TypeModel, new: TypeModel) -> Option<TypeModel> {
    match c {
        TypeModel::CallableType {
            fallback,
            instance_type,
            is_ellipsis_args,
            implicit,
            is_bound,
            from_concatenate,
            imprecise_arg_kinds,
            unpack_kwargs,
            from_type_type,
            arg_types,
            arg_kinds,
            arg_names,
            ret_type,
            name,
            variables,
            type_guard,
            type_is,
            special_sig,
            definition_ref,
        } => if arg_types.len() == 0 {
            Some(c)
        } else {
            Some(
                TypeModel::CallableType {
                    fallback,
                    instance_type,
                    is_ellipsis_args,
                    implicit,
                    is_bound,
                    from_concatenate,
                    imprecise_arg_kinds,
                    unpack_kwargs,
                    from_type_type,
                    arg_types: arg_types.update(0, new),
                    arg_kinds,
                    arg_names,
                    ret_type,
                    name,
                    variables,
                    type_guard,
                    type_is,
                    special_sig,
                    definition_ref,
                },
            )
        },
        _ => None,
    }
}

/// `replace_first_callable` over the items of an overload.
pub open spec fn replace_first_items(items: Seq<TypeModel>, new: TypeModel) -> Option<Seq<TypeModel>>
    decreases items.len(),
{
    if items.len() == 0 {
        Some(Seq::empty())
    } else {
        match (replace_first_items(items.drop_last(), new), replace_first_callable(items.last(), new)) {
            (Some(a), Some(b)) => Some(a.push(b)),
            _ => None,
        }
    }
}

/// `replace_implicit_first_type`: the first (implicit `self` / `cls`)
/// parameter type of a callable, or of each item of an overload, replaced
/// by `new`. `None` for anything else, or an overload item that is no
/// callable.
pub open spec fn replace_first_spec(sig: TypeModel, new: TypeModel) -> Option<TypeModel> {
    match sig {
        TypeModel::CallableType { .. } => replace_first_callable(sig, new),
        TypeModel::Overloaded { items } => match replace_first_items(items, new) {
            Some(b) => Some(TypeModel::Overloaded { items: b }),
            None => None,
        },
        _ => None,
    }
}

fn replace_first_callable_exec(c: Type, new: &Type) -> (r: Option<Type>)
    ensures
        match r {
            None => replace_first_callable(c@, new@).is_none(),
            Some(x) => replace_first_callable(c@, new@) == Some(x@),
        },
{
    match c {
        Type::CallableType {
            fallback,
            instance_type,
            is_ellipsis_args,
            implicit,
            is_bound,
            from_concatenate,
            imprecise_arg_kinds,
            unpack_kwargs,
            from_type_type,
            arg_types,
            arg_kinds,
            arg_names,
            ret_type,
            name,
            variables,
            type_guard,
            type_is,
            special_sig,
            definition_ref,
        } => {
            let mut arg_types = arg_types;
            let ghost before = arg_types@;
            proof {
                lemma_types_model(arg_types@);
            }
            if arg_types.len() > 0 {
                let n = clone_type(new);
                arg_types.set(0, n);
                proof {
                    lemma_types_model(arg_types@);
                    assert(types_model(arg_types@) =~= types_model(before).update(0, new@));
                }
            }
            Some(Type::CallableType {
                fallback,
                instance_type,
                is_ellipsis_args,
                implicit,
                is_bound,
                from_concatenate,
                imprecise_arg_kinds,
                unpack_kwargs,
                from_type_type,
                arg_types,
                arg_kinds,
                arg_names,
                ret_type,
                name,
                variables,
                type_guard,
                type_is,
                special_sig,
                definition_ref,
            })
        },
        _ => None,
    }
}

proof fn lemma_replace_items_none_persists(items: Seq<TypeModel>, new: TypeModel, k: int)
    requires
        0 <= k <= items.len(),
        replace_first_items(items.take(k), new).is_none(),
    ensures
        replace_first_items(items, new).is_none(),
    decreases items.len() - k,
{
    if k < items.len() {
        assert(items.take(k + 1).drop_last() =~= items.take(k));
        lemma_replace_items_none_persists(items, new, k + 1);
    } else {
        assert(items.take(k) =~= items);
    }
}

/// Swap the implicit first parameter type of a method's signature for
/// `new`.
pub fn replace_implicit_first_type(sig: Type, new: &Type) -> (r: Option<Type>)
    ensures
        match r {
            None => replace_first_spec(sig@, new@).is_none(),
            Some(x) => replace_first_spec(sig@, new@) == Some(x@),
        },
{
    let ghost sig_model = sig@;
    match sig {
        Type::CallableType { .. } => replace_first_callable_exec(sig, new),
        Type::Overloaded { items } => {
            proof {
                lemma_types_model(items@);
            }
            let ghost ms = types_model(items@);
            let mut out: Vec<Type> = Vec::new();
            let mut i: usize = 0;
            proof {
                assert(types_model(out@) =~= Seq::<TypeModel>::empty());
                assert(ms.take(0) =~= Seq::<TypeModel>::empty());
                assert(sig_model matches TypeModel::Overloaded { items: it } && it == ms);
            }
            while i < items.len()
                invariant
                    i <= items@.len(),
                    sig_model == sig@,
                    replace_first_spec(sig_model, new@) == match replace_first_items(ms, new@) {
                        Some(b) => Some(TypeModel::Overloaded { items: b }),
                        None => None,
                    },
                    ms == types_model(items@),
                    ms.len() == items@.len(),
                    forall|j: int| 0 <= j < items@.len() ==> #[trigger] ms[j] == type_model(items@[j]),
                    replace_first_items(ms.take(i as int), new@) == Some(types_model(out@)),
                decreases items@.len() - i,
            {
                proof {
                    assert(ms.take(i + 1).drop_last() =~= ms.take(i as int));
                    assert(ms.take(i + 1).last() == type_model(items@[i as int]));
                }
                let item = clone_type(&items[i]);
                match replace_first_callable_exec(item, new) {
                    None => {
                        proof {
                            lemma_replace_items_none_persists(ms, new@, i as int + 1);
                        }
                        return None;
                    },
                    Some(b) => {
                        proof {
                            lemma_types_model_push(out@, b);
                        }
                        out.push(b);
                    },
                }
                i = i + 1;
            }
            proof {
                assert(ms.take(items@.len() as int) =~= ms);
            }
            Some(Type::Overloaded { items: out })
        },
        _ => None,
    }
}

/// `has_explicit_any`: whether `t` is or contains an explicit `Any`; a
/// TypedDict subtree answers false. `None` at an alias.
pub fn has_explicit_any(t: &Type) -> (r: Option<bool>)
    ensures
        r == query(t@, BoolQuery::AnyOfKind(EXPLICIT)),
{
    run_query(t, BoolQuery::AnyOfKind(EXPLICIT))
}

/// `has_any_from_unimported_type`: whether `t` is or contains an `Any`
/// from an unimported type; a TypedDict subtree answers false. `None` at
/// an alias.
pub fn has_any_from_unimported_type(t: &Type) -> (r: Option<bool>)
    ensures
        r == query(t@, BoolQuery::AnyOfKind(FROM_UNIMPORTED_TYPE)),
{
    run_query(t, BoolQuery::AnyOfKind(FROM_UNIMPORTED_TYPE))
}

/// `check_for_explicit_any`: whether the explicit-`Any` report fires. It
/// fires only with `disallow_any_explicit` set outside a typeshed stub, on
/// a type that contains an explicit `Any`.
pub fn check_for_explicit_any(t: &Type, disallow_any_explicit: bool, is_typeshed_stub: bool) -> (r: Option<bool>)
    ensures
        r == if !disallow_any_explicit || is_typeshed_stub {
            Some(false)
        } else {
            query(t@, BoolQuery::AnyOfKind(EXPLICIT))
        },
{
    if !disallow_any_explicit || is_typeshed_stub {
        return Some(false);
    }
    has_explicit_any(t)
}

/// The direct components of a type, in `TypeQuery` order.
pub open spec fn children(t: TypeModel) -> Seq<TypeModel> {
    match t {
        TypeModel::Instance { args, .. } => args,
        TypeModel::TypeVarType { upper_bound, default, values, .. } => seq![*upper_bound, *default] + values,
        TypeModel::CallableType { arg_types, ret_type, .. } => arg_types.push(*ret_type),
        TypeModel::Overloaded { items } => items,
        TypeModel::TupleType { partial_fallback, items, .. } => seq![*partial_fallback] + items,
        TypeModel::TypedDictType { items, .. } => items.map_values(|p: (Seq<char>, TypeModel)| p.1),
        TypeModel::UnionType { items, .. } => items,
        TypeModel::TypeType { item, .. } => seq![*item],
        TypeModel::UnpackType { typ, .. } => seq![*typ],
        _ => Seq::empty(),
    }
}

/// `collect_all_inner_types`: the direct components of `t`, followed by
/// what each component collects, in order. `None` at an alias anywhere.
pub open spec fn inner_types(t: TypeModel) -> Option<Seq<TypeModel>>
    decreases t, 1nat,
{
    match t {
        TypeModel::TypeAliasType { .. } => None,
        _ => cat(Some(children(t)), inner_of_children(t)),
    }
}

/// What the components of `t` collect, in order.
pub open spec fn inner_of_children(t: TypeModel) -> Option<Seq<TypeModel>>
    decreases t, 0nat,
{
    match t {
        TypeModel::Instance { args, .. } => inner_list(args),
        TypeModel::TypeVarType { upper_bound, default, values, .. } => cat(
            cat(inner_types(*upper_bound), inner_types(*default)),
            inner_list(values),
        ),
        TypeModel::CallableType { arg_types, ret_type, .. } => cat(inner_list(arg_types), inner_types(*ret_type)),
        TypeModel::Overloaded { items } => inner_list(items),
        TypeModel::TupleType { partial_fallback, items, .. } => cat(inner_types(*partial_fallback), inner_list(items)),
        TypeModel::TypedDictType { items, .. } => inner_pairs(items),
        TypeModel::UnionType { items, .. } => inner_list(items),
        TypeModel::TypeType { item, .. } => inner_types(*item),
        TypeModel::UnpackType { typ, .. } => inner_types(*typ),
        _ => Some(Seq::empty()),
    }
}

/// `inner_types` over a list, concatenated in order.
pub open spec fn inner_list(s: Seq<TypeModel>) -> Option<Seq<TypeModel>>
    decreases s,
{
    if s.len() == 0 {
        Some(Seq::empty())
    } else {
        proof {
            assert(decreases_to!(s => s[s.len() - 1]));
        }
        cat(inner_list(s.drop_last()), inner_types(s.last()))
    }
}

/// `inner_types` over the value types of named items, concatenated.
pub open spec fn inner_pairs(s: Seq<(Seq<char>, TypeModel)>) -> Option<Seq<TypeModel>>
    decreases s,
{
    if s.len() == 0 {
        Some(Seq::empty())
    } else {
        proof {
            assert(decreases_to!(s => s[s.len() - 1]));
        }
        cat(inner_pairs(s.drop_last()), inner_types(s.last().1))
    }
}


/// A one-element list holding a copy of `t`.
fn singleton(t: &Type) -> (r: Vec<Type>)
    ensures
        types_model(r@) == seq![t@],
{
    let c = clone_type(t);
    let mut out: Vec<Type> = Vec::new();
    out.push(c);
    proof {
        lemma_types_model_push(Seq::<Type>::empty(), c);
        assert(out@ =~= Seq::<Type>::empty().push(c));
    }
    out
}

/// Copies of the direct components of a type.
fn children_exec(t: &Type) -> (r: Vec<Type>)
    ensures
        types_model(r@) == children(t@),
{
    match t {
        Type::Instance { args, .. } => clone_types(args),
        Type::TypeVarType { upper_bound, default, values, .. } => {
            let mut out = singleton(upper_bound);
            let d = singleton(default);
            append_types(&mut out, &d);
            append_types(&mut out, values);
            proof {
                assert(seq![upper_bound@] + seq![default@] =~= seq![upper_bound@, default@]);
            }
            out
        },
        Type::CallableType { arg_types, ret_type, .. } => {
            let mut out = clone_types(arg_types);
            let c = clone_type(ret_type);
            proof {
                lemma_types_model_push(out@, c);
            }
            out.push(c);
            out
        },
        Type::Overloaded { items } => clone_types(items),
        Type::TupleType { partial_fallback, items, .. } => {
            let mut out = singleton(partial_fallback);
            append_types(&mut out, items);
            out
        },
        Type::TypedDictType { items, .. } => {
            proof {
                lemma_pairs_model(items@);
            }
            let ghost pm = pairs_model(items@);
            let mut out: Vec<Type> = Vec::new();
            let mut i: usize = 0;
            proof {
                assert(types_model(out@) =~= Seq::<TypeModel>::empty());
            }
            while i < items.len()
                invariant
                    i <= items@.len(),
                    pm == pairs_model(items@),
                    pm.len() == items@.len(),
                    forall|j: int| 0 <= j < items@.len() ==> #[trigger] pm[j] == (items@[j].0@, type_model(items@[j].1)),
                    types_model(out@) == pm.take(i as int).map_values(|p: (Seq<char>, TypeModel)| p.1),
                decreases items@.len() - i,
            {
                let c = clone_type(&items[i].1);
                proof {
                    lemma_types_model_push(out@, c);
                    assert(pm.take(i + 1).map_values(|p: (Seq<char>, TypeModel)| p.1)
                        =~= pm.take(i as int).map_values(|p: (Seq<char>, TypeModel)| p.1).push(c@));
                }
                out.push(c);
                i = i + 1;
            }
            proof {
                assert(pm.take(items@.len() as int) =~= pm);
            }
            out
        },
        Type::UnionType { items, .. } => clone_types(items),
        Type::TypeType { item, .. } => singleton(item),
        Type::UnpackType { typ, .. } => singleton(typ),
        _ => {
            let out: Vec<Type> = Vec::new();
            proof {
                assert(types_model(out@) =~= Seq::<TypeModel>::empty());
            }
            out
        },
    }
}

/// Both lists, concatenated, when both are known.
fn cat_vecs(a: Option<Vec<Type>>, b: Option<Vec<Type>>) -> (r: Option<Vec<Type>>)
    ensures
        match r {
            None => cat(
                match a { Some(x) => Some(types_model(x@)), None => None },
                match b { Some(x) => Some(types_model(x@)), None => None },
            ).is_none(),
            Some(x) => cat(
                match a { Some(x) => Some(types_model(x@)), None => None },
                match b { Some(x) => Some(types_model(x@)), None => None },
            ) == Some(types_model(x@)),
        },
{
    match a {
        None => None,
        Some(mut x) => match b {
            None => None,
            Some(y) => {
                append_types(&mut x, &y);
                Some(x)
            },
        },
    }
}

/// `collect_all_inner_types`: the direct components of `t`, followed by
/// what each of them collects, in order, `t` itself excluded.
pub fn collect_all_inner_types(t: &Type) -> (r: Option<Vec<Type>>)
    ensures
        match r {
            None => inner_types(t@).is_none(),
            Some(x) => inner_types(t@) == Some(types_model(x@)),
        },
    decreases t, 1nat,
{
    match t {
        Type::TypeAliasType { .. } => None,
        _ => {
            let kids = children_exec(t);
            let rest = inner_children_exec(t);
            cat_vecs(Some(kids), rest)
        },
    }
}

fn inner_children_exec(t: &Type) -> (r: Option<Vec<Type>>)
    ensures
        match r {
            None => inner_of_children(t@).is_none(),
            Some(x) => inner_of_children(t@) == Some(types_model(x@)),
        },
    decreases t, 0nat,
{
    match t {
        Type::Instance { args, .. } => inner_list_exec(args),
        Type::TypeVarType { upper_bound, default, values, .. } => {
            let a = collect_all_inner_types(upper_bound);
            let b = collect_all_inner_types(default);
            let c = inner_list_exec(values);
            cat_vecs(cat_vecs(a, b), c)
        },
        Type::CallableType { arg_types, ret_type, .. } => {
            let a = inner_list_exec(arg_types);
            let b = collect_all_inner_types(ret_type);
            cat_vecs(a, b)
        },
        Type::Overloaded { items } => inner_list_exec(items),
        Type::TupleType { partial_fallback, items, .. } => {
            let a = collect_all_inner_types(partial_fallback);
            let b = inner_list_exec(items);
            cat_vecs(a, b)
        },
        Type::TypedDictType { items, .. } => inner_pairs_exec(items),
        Type::UnionType { items, .. } => inner_list_exec(items),
        Type::TypeType { item, .. } => collect_all_inner_types(item),
        Type::UnpackType { typ, .. } => collect_all_inner_types(typ),
        _ => {
            let out: Vec<Type> = Vec::new();
            proof {
                assert(types_model(out@) =~= Seq::<TypeModel>::empty());
            }
            Some(out)
        },
    }
}

proof fn lemma_inner_list_none_persists(s: Seq<TypeModel>, k: int)
    requires
        0 <= k <= s.len(),
        inner_list(s.take(k)).is_none(),
    ensures
        inner_list(s).is_none(),
    decreases s.len() - k,
{
    if k < s.len() {
        assert(s.take(k + 1).drop_last() =~= s.take(k));
        lemma_inner_list_none_persists(s, k + 1);
    } else {
        assert(s.take(k) =~= s);
    }
}

proof fn lemma_inner_pairs_none_persists(s: Seq<(Seq<char>, TypeModel)>, k: int)
    requires
        0 <= k <= s.len(),
        inner_pairs(s.take(k)).is_none(),
    ensures
        inner_pairs(s).is_none(),
    decreases s.len() - k,
{
    if k < s.len() {
        assert(s.take(k + 1).drop_last() =~= s.take(k));
        lemma_inner_pairs_none_persists(s, k + 1);
    } else {
        assert(s.take(k) =~= s);
    }
}

fn inner_list_exec(v: &Vec<Type>) -> (r: Option<Vec<Type>>)
    ensures
        match r {
            None => inner_list(types_model(v@)).is_none(),
            Some(x) => inner_list(types_model(v@)) == Some(types_model(x@)),
        },
    decreases v, 0nat,
{
    proof {
        lemma_types_model(v@);
    }
    let ghost ms = types_model(v@);
    let mut out: Vec<Type> = Vec::new();
    let mut i: usize = 0;
    proof {
        assert(types_model(out@) =~= Seq::<TypeModel>::empty());
        assert(ms.take(0) =~= Seq::<TypeModel>::empty());
    }
    while i < v.len()
        invariant
            i <= v@.len(),
            ms == types_model(v@),
            ms.len() == v@.len(),
            forall|j: int| 0 <= j < v@.len() ==> #[trigger] ms[j] == type_model(v@[j]),
            inner_list(ms.take(i as int)) == Some(types_model(out@)),
        decreases v@.len() - i,
    {
        proof {
            assert(ms.take(i + 1).drop_last() =~= ms.take(i as int));
            assert(ms.take(i + 1).last() == type_model(v@[i as int]));
        }
        match collect_all_inner_types(&v[i]) {
            None => {
                proof {
                    lemma_inner_list_none_persists(ms, i as int + 1);
                }
                return None;
            },
            Some(found) => {
                append_types(&mut out, &found);
            },
        }
        i = i + 1;
    }
    proof {
        assert(ms.take(v@.len() as int) =~= ms);
    }
    Some(out)
}

fn inner_pairs_exec(v: &Vec<(String, Type)>) -> (r: Option<Vec<Type>>)
    ensures
        match r {
            None => inner_pairs(pairs_model(v@)).is_none(),
            Some(x) => inner_pairs(pairs_model(v@)) == Some(types_model(x@)),
        },
    decreases v, 0nat,
{
    proof {
        lemma_pairs_model(v@);
    }
    let ghost ms = pairs_model(v@);
    let mut out: Vec<Type> = Vec::new();
    let mut i: usize = 0;
    proof {
        assert(types_model(out@) =~= Seq::<TypeModel>::empty());
        assert(ms.take(0) =~= Seq::<(Seq<char>, TypeModel)>::empty());
    }
    while i < v.len()
        invariant
            i <= v@.len(),
            ms == pairs_model(v@),
            ms.len() == v@.len(),
            forall|j: int| 0 <= j < v@.len() ==> #[trigger] ms[j] == (v@[j].0@, type_model(v@[j].1)),
            inner_pairs(ms.take(i as int)) == Some(types_model(out@)),
        decreases v@.len() - i,
    {
        proof {
            assert(ms.take(i + 1).drop_last() =~= ms.take(i as int));
            assert(ms.take(i + 1).last() == (v@[i as int].0@, type_model(v@[i as int].1)));
            assert(decreases_to!(v@ => v@[i as int]));
        }
        match collect_all_inner_types(&v[i].1) {
            None => {
                proof {
                    lemma_inner_pairs_none_persists(ms, i as int + 1);
                }
                return None;
            },
            Some(found) => {
                append_types(&mut out, &found);
            },
        }
        i = i + 1;
    }
    proof {
        assert(ms.take(v@.len() as int) =~= ms);
    }
    Some(out)
}


/// `unknown_unpack`: an `UnpackType` of a special-form `Any`, the shape of
/// an `Unpack` that could not be resolved. Anything that is not an
/// `UnpackType` is false; `None` when the unpacked target is an alias.
pub open spec fn unknown_unpack_spec(t: TypeModel) -> Option<bool> {
    match t {
        TypeModel::UnpackType { typ, .. } => match *typ {
            TypeModel::TypeAliasType { .. } => None,
            TypeModel::AnyType { type_of_any, .. } => Some(type_of_any == SPECIAL_FORM as int),
            _ => Some(false),
        },
        _ => Some(false),
    }
}

/// Whether `t` is the `Unpack` of a special-form `Any`.
pub fn unknown_unpack(t: &Type) -> (r: Option<bool>)
    ensures
        r == unknown_unpack_spec(t@),
{
    match t {
        Type::UnpackType { typ, .. } => {
            proof {
                assert(t@ matches TypeModel::UnpackType { typ: tm, .. } && *tm == type_model(**typ));
            }
            match &**typ {
                Type::TypeAliasType { .. } => None,
                Type::AnyType { type_of_any, .. } => Some(*type_of_any == SPECIAL_FORM),
                _ => Some(false),
            }
        },
        _ => Some(false),
    }
}

/// Whether `fullname` names the `Self` special form.
pub fn is_self_type_fullname(fullname: &str) -> (r: bool)
    ensures
        r == (fullname@ == "typing.Self"@ || fullname@ == "typing_extensions.Self"@),
{
    str_eq(fullname, "typing.Self") || str_eq(fullname, "typing_extensions.Self")
}

/// How many type arguments a generic expects, as the arity message says
/// it.
pub open spec fn arity_phrase(min: nat, max: nat) -> Seq<char> {
    if min == max {
        if min == 0 {
            "no type arguments"@
        } else if min == 1 {
            "1 type argument"@
        } else {
            decimal(min) + " type arguments"@
        }
    } else {
        "between "@ + decimal(min) + " and "@ + decimal(max) + " type arguments"@
    }
}

/// The type-argument arity message: `"name" expects <arity>, but <given>
/// given`, with a `given` of zero spelled `none`.
pub open spec fn arg_count_msg(min: nat, max: nat, given: nat, name: Seq<char>) -> Seq<char> {
    "\""@ + name + "\" expects "@ + arity_phrase(min, max) + ", but "@ + (if given == 0 {
        "none"@
    } else {
        decimal(given)
    }) + " given"@
}

/// The message for a generic subscripted with the wrong number of type
/// arguments.
pub fn wrong_type_arg_count_msg(min: usize, max: usize, given: usize, class_name: &str) -> (r: String)
    ensures
        r@ == arg_count_msg(min as nat, max as nat, given as nat, class_name@),
{
    let mut s = owned("\"");
    s.append(class_name);
    s.append("\" expects ");
    if min == max {
        if min == 0 {
            s.append("no type arguments");
        } else if min == 1 {
            s.append("1 type argument");
        } else {
            push_decimal(&mut s, min);
            s.append(" type arguments");
        }
    } else {
        s.append("between ");
        push_decimal(&mut s, min);
        s.append(" and ");
        push_decimal(&mut s, max);
        s.append(" type arguments");
    }
    s.append(", but ");
    if given == 0 {
        s.append("none");
    } else {
        push_decimal(&mut s, given);
    }
    s.append(" given");
    proof {
        let pre = "\""@ + class_name@ + "\" expects "@;
        let given_text = if given == 0 { "none"@ } else { decimal(given as nat) };
        if min == max {
            if min != 0 && min != 1 {
                assert(pre + decimal(min as nat) + " type arguments"@ =~= pre + (decimal(min as nat) + " type arguments"@));
            }
        } else {
            assert(pre + "between "@ + decimal(min as nat) + " and "@ + decimal(max as nat) + " type arguments"@
                =~= pre + ("between "@ + decimal(min as nat) + " and "@ + decimal(max as nat) + " type arguments"@));
        }
        assert(s@ =~= pre + arity_phrase(min as nat, max as nat) + ", but "@ + given_text + " given"@);
    }
    s
}

/// The magic methods whose parameters are positional-only: the non-binary
/// and binary magic methods, less those that accept keyword arguments.
pub open spec fn positional_only_magic(name: Seq<char>) -> bool {
    ||| name == "__abs__"@
    ||| name == "__complex__"@
    ||| name == "__contains__"@
    ||| name == "__del__"@
    ||| name == "__delattr__"@
    ||| name == "__delitem__"@
    ||| name == "__enter__"@
    ||| name == "__exit__"@
    ||| name == "__float__"@
    ||| name == "__getattr__"@
    ||| name == "__getattribute__"@
    ||| name == "__getitem__"@
    ||| name == "__hex__"@
    ||| name == "__int__"@
    ||| name == "__invert__"@
    ||| name == "__iter__"@
    ||| name == "__len__"@
    ||| name == "__long__"@
    ||| name == "__neg__"@
    ||| name == "__oct__"@
    ||| name == "__pos__"@
    ||| name == "__repr__"@
    ||| name == "__reversed__"@
    ||| name == "__setitem__"@
    ||| name == "__str__"@
    ||| name == "__add__"@
    ||| name == "__and__"@
    ||| name == "__divmod__"@
    ||| name == "__eq__"@
    ||| name == "__floordiv__"@
    ||| name == "__ge__"@
    ||| name == "__gt__"@
    ||| name == "__iadd__"@
    ||| name == "__iand__"@
    ||| name == "__idiv__"@
    ||| name == "__ifloordiv__"@
    ||| name == "__ilshift__"@
    ||| name == "__imatmul__"@
    ||| name == "__imod__"@
    ||| name == "__imul__"@
    ||| name == "__ior__"@
    ||| name == "__ipow__"@
    ||| name == "__irshift__"@
    ||| name == "__isub__"@
    ||| name == "__itruediv__"@
    ||| name == "__ixor__"@
    ||| name == "__le__"@
    ||| name == "__lshift__"@
    ||| name == "__lt__"@
    ||| name == "__matmul__"@
    ||| name == "__mod__"@
    ||| name == "__mul__"@
    ||| name == "__ne__"@
    ||| name == "__or__"@
    ||| name == "__pow__"@
    ||| name == "__radd__"@
    ||| name == "__rand__"@
    ||| name == "__rdiv__"@
    ||| name == "__rdivmod__"@
    ||| name == "__rfloordiv__"@
    ||| name == "__rlshift__"@
    ||| name == "__rmatmul__"@
    ||| name == "__rmod__"@
    ||| name == "__rmul__"@
    ||| name == "__ror__"@
    ||| name == "__rpow__"@
    ||| name == "__rrshift__"@
    ||| name == "__rshift__"@
    ||| name == "__rsub__"@
    ||| name == "__rtruediv__"@
    ||| name == "__rxor__"@
    ||| name == "__sub__"@
    ||| name == "__truediv__"@
    ||| name == "__xor__"@
}

/// Whether `name` is a magic method whose parameter names a signature
/// elides.
pub fn special_function_elide_names(name: &str) -> (r: bool)
    ensures
        r == positional_only_magic(name@),
{
        false
        || str_eq(name, "__abs__")
        || str_eq(name, "__complex__")
        || str_eq(name, "__contains__")
        || str_eq(name, "__del__")
        || str_eq(name, "__delattr__")
        || str_eq(name, "__delitem__")
        || str_eq(name, "__enter__")
        || str_eq(name, "__exit__")
        || str_eq(name, "__float__")
        || str_eq(name, "__getattr__")
        || str_eq(name, "__getattribute__")
        || str_eq(name, "__getitem__")
        || str_eq(name, "__hex__")
        || str_eq(name, "__int__")
        || str_eq(name, "__invert__")
        || str_eq(name, "__iter__")
        || str_eq(name, "__len__")
        || str_eq(name, "__long__")
        || str_eq(name, "__neg__")
        || str_eq(name, "__oct__")
        || str_eq(name, "__pos__")
        || str_eq(name, "__repr__")
        || str_eq(name, "__reversed__")
        || str_eq(name, "__setitem__")
        || str_eq(name, "__str__")
        || str_eq(name, "__add__")
        || str_eq(name, "__and__")
        || str_eq(name, "__divmod__")
        || str_eq(name, "__eq__")
        || str_eq(name, "__floordiv__")
        || str_eq(name, "__ge__")
        || str_eq(name, "__gt__")
        || str_eq(name, "__iadd__")
        || str_eq(name, "__iand__")
        || str_eq(name, "__idiv__")
        || str_eq(name, "__ifloordiv__")
        || str_eq(name, "__ilshift__")
        || str_eq(name, "__imatmul__")
        || str_eq(name, "__imod__")
        || str_eq(name, "__imul__")
        || str_eq(name, "__ior__")
        || str_eq(name, "__ipow__")
        || str_eq(name, "__irshift__")
        || str_eq(name, "__isub__")
        || str_eq(name, "__itruediv__")
        || str_eq(name, "__ixor__")
        || str_eq(name, "__le__")
        || str_eq(name, "__lshift__")
        || str_eq(name, "__lt__")
        || str_eq(name, "__matmul__")
        || str_eq(name, "__mod__")
        || str_eq(name, "__mul__")
        || str_eq(name, "__ne__")
        || str_eq(name, "__or__")
        || str_eq(name, "__pow__")
        || str_eq(name, "__radd__")
        || str_eq(name, "__rand__")
        || str_eq(name, "__rdiv__")
        || str_eq(name, "__rdivmod__")
        || str_eq(name, "__rfloordiv__")
        || str_eq(name, "__rlshift__")
        || str_eq(name, "__rmatmul__")
        || str_eq(name, "__rmod__")
        || str_eq(name, "__rmul__")
        || str_eq(name, "__ror__")
        || str_eq(name, "__rpow__")
        || str_eq(name, "__rrshift__")
        || str_eq(name, "__rshift__")
        || str_eq(name, "__rsub__")
        || str_eq(name, "__rtruediv__")
        || str_eq(name, "__rxor__")
        || str_eq(name, "__sub__")
        || str_eq(name, "__truediv__")
        || str_eq(name, "__xor__")
}

/// Whether a parameter name is elided from a signature: a leading dunder
/// that is not also a trailing one. An unnamed parameter is never elided.
pub fn argument_elide_name(name: Option<&str>) -> (r: bool)
    ensures
        r == match name {
            Some(n) => "__"@.len() <= n@.len() && n@.subrange(0, 2) == "__"@ && !(n@.len() >= 2 && n@.subrange(
                n@.len() - 2,
                n@.len() as int,
            ) == "__"@),
            None => false,
        },
{
    proof {
        reveal_strlit("__");
    }
    match name {
        Some(n) => starts_with(n, "__") && !ends_with(n, "__"),
        None => false,
    }
}


/// The answer of one record-decidable step of a qualified-name lookup.
#[derive(Debug, Clone, PartialEq, Eq)]
pub enum LookupOutcome {
    /// The name resolved; carries the fullname of the namespace that holds
    /// it: the defining MRO entry of a class member, or the module of a
    /// module chain.
    Resolved(String),
    /// The name is positively absent.
    NotFound,
    /// The records cannot decide: a missing snapshot, or a step that needs
    /// live symbol nodes.
    Deferred,
}

/// The model of a `LookupOutcome`.
pub enum LookupModel {
    Resolved(Seq<char>),
    NotFound,
    Deferred,
}

/// The model of a `LookupOutcome`.
pub open spec fn lookup_model(o: LookupOutcome) -> LookupModel {
    match o {
        LookupOutcome::Resolved(s) => LookupModel::Resolved(s@),
        LookupOutcome::NotFound => LookupModel::NotFound,
        LookupOutcome::Deferred => LookupModel::Deferred,
    }
}

/// `TypeInfo.get(name)` on the class `class_fullname`: the first MRO entry
/// with `name` among its own members. `Deferred` when the class, or an MRO
/// entry met before the answer, has no snapshot.
pub open spec fn member_lookup_spec(r: TypeResolver, class_fullname: Seq<char>, name: Seq<char>) -> LookupModel {
    match r.class_of(class_fullname) {
        None => LookupModel::Deferred,
        Some(snap) => match mro_lookup(r, snap.mro@, name, 0) {
            None => LookupModel::Deferred,
            Some(None) => LookupModel::NotFound,
            Some(Some(i)) => LookupModel::Resolved(snap.mro@[i]@),
        },
    }
}

/// The class arm of a qualified-name lookup: resolve `name` against the
/// MRO of `class_fullname`.
pub fn lookup_typeinfo_member(resolver: &TypeResolver, class_fullname: &str, name: &str) -> (r: LookupOutcome)
    ensures
        lookup_model(r) == member_lookup_spec(*resolver, class_fullname@, name@),
{
    match resolver.get(class_fullname) {
        None => LookupOutcome::Deferred,
        Some(snap) => match find_in_mro(resolver, &snap.mro, name, 0) {
            None => LookupOutcome::Deferred,
            Some(None) => LookupOutcome::NotFound,
            Some(Some(i)) => LookupOutcome::Resolved(snap.mro[i].clone()),
        },
    }
}

/// The index of the first `.` in `s[start..]`.
pub open spec fn first_dot(s: Seq<char>, start: int) -> Option<int>
    decreases s.len() - start,
{
    if start < 0 || start >= s.len() {
        None
    } else if s[start] == '.' {
        Some(start)
    } else {
        first_dot(s, start + 1)
    }
}

proof fn lemma_first_dot(s: Seq<char>, start: int)
    requires
        0 <= start,
    ensures
        match first_dot(s, start) {
            Some(i) => start <= i < s.len() && s[i] == '.',
            None => true,
        },
    decreases s.len() - start,
{
    if start < s.len() && s[start] != '.' {
        lemma_first_dot(s, start + 1);
    }
}

/// The end of the dotted-name segment that starts at `p`.
pub open spec fn segment_end(s: Seq<char>, p: int) -> int {
    match first_dot(s, p) {
        Some(i) => i,
        None => s.len() as int,
    }
}

/// The module-chain walk from the segment at `p`, in the namespace of
/// `module`: a hidden or absent name is `NotFound` (absent with a recorded
/// submodule of that name is `Deferred`, since whether the import is
/// visible is not recorded), the last segment resolves to `module`, and a
/// middle segment must name a submodule to descend into.
pub open spec fn chain_from(r: TypeResolver, s: Seq<char>, p: int, module: Seq<char>) -> LookupModel
    decreases s.len() - p,
{
    if p < 0 || p > s.len() {
        LookupModel::Deferred
    } else {
        match r.module_of(module) {
            None => LookupModel::Deferred,
            Some(m) => {
                let q = segment_end(s, p);
                let part = s.subrange(p, q);
                match m.symbols.lookup(part) {
                    None => if r.module_of(module + "."@ + part).is_some() {
                        LookupModel::Deferred
                    } else {
                        LookupModel::NotFound
                    },
                    Some((hidden, node)) => if hidden {
                        LookupModel::NotFound
                    } else if q >= s.len() {
                        LookupModel::Resolved(module)
                    } else {
                        match node {
                            Some((true, f)) => if q + 1 > p {
                                chain_from(r, s, q + 1, f@)
                            } else {
                                LookupModel::Deferred
                            },
                            _ => LookupModel::Deferred,
                        }
                    },
                }
            },
        }
    }
}

/// The module arm of a qualified-name lookup: `Deferred` for a name
/// without a dot, else the walk from the second segment in the namespace
/// of `module_fullname`, the module the first segment resolved to.
pub open spec fn module_chain_spec(r: TypeResolver, module_fullname: Seq<char>, dotted: Seq<char>) -> LookupModel {
    match first_dot(dotted, 0) {
        None => LookupModel::Deferred,
        Some(d) => chain_from(r, dotted, d + 1, module_fullname),
    }
}

/// The first `.` in `s` at or after `start`.
fn find_dot(s: &str, n: usize, start: usize) -> (r: Option<usize>)
    requires
        n == s@.len(),
        start <= n,
    ensures
        match r {
            Some(i) => first_dot(s@, start as int) == Some(i as int) && start <= i < n,
            None => first_dot(s@, start as int).is_none(),
        },
{
    let mut i = start;
    while i < n
        invariant
            n == s@.len(),
            start <= i <= n,
            first_dot(s@, start as int) == first_dot(s@, i as int),
        decreases n - i,
    {
        if s.get_char(i) == '.' {
            return Some(i);
        }
        i = i + 1;
    }
    None
}

/// The module arm of a qualified-name lookup: walk `dotted_name` through
/// module symbol tables from its second segment, starting in
/// `module_fullname`.
pub fn lookup_module_chain(resolver: &TypeResolver, module_fullname: &str, dotted_name: &str) -> (r: LookupOutcome)
    ensures
        lookup_model(r) == module_chain_spec(*resolver, module_fullname@, dotted_name@),
{
    let n = dotted_name.unicode_len();
    let d = match find_dot(dotted_name, n, 0) {
        None => {
            return LookupOutcome::Deferred;
        },
        Some(d) => d,
    };
    let mut p = d + 1;
    let mut module = owned(module_fullname);
    while p <= n
        invariant
            n == dotted_name@.len(),
            0 < p,
            module_chain_spec(*resolver, module_fullname@, dotted_name@) == chain_from(*resolver, dotted_name@, p as int, module@),
        decreases n + 1 - p,
    {
        let m = match resolver.get_module(module.as_str()) {
            None => {
                return LookupOutcome::Deferred;
            },
            Some(m) => m,
        };
        let q = match find_dot(dotted_name, n, p) {
            Some(i) => i,
            None => n,
        };
        let part = dotted_name.substring_char(p, q);
        match m.symbols.get(part) {
            None => {
                let mut sub = owned(module.as_str());
                sub.append(".");
                sub.append(part);
                if resolver.get_module(sub.as_str()).is_some() {
                    return LookupOutcome::Deferred;
                }
                return LookupOutcome::NotFound;
            },
            Some(entry) => {
                if entry.0 {
                    return LookupOutcome::NotFound;
                }
                if q >= n {
                    return LookupOutcome::Resolved(module);
                }
                match &entry.1 {
                    Some(node) => {
                        if node.0 {
                            module = owned(node.1.as_str());
                        } else {
                            return LookupOutcome::Deferred;
                        }
                    },
                    None => {
                        return LookupOutcome::Deferred;
                    },
                }
                p = q + 1;
            },
        }
    }
    LookupOutcome::Deferred
}

} // verus!
