//! Structural rewrites of a type tree, in the component order of mypy's
//! `TypeTranslator`: `Any` rewrites for inlined aliases and type-variable
//! erasure.

use vstd::prelude::*;
use crate::wire::{
    clone_opt_string, clone_opt_strings, clone_kinds, clone_literal, clone_opt_type, clone_pairs,
    clone_strings, clone_type, clone_types, lemma_pairs_model, lemma_types_model,
    lemma_types_model_push, opt_str_model, opt_type_model, pairs_model, type_model, types_model,
    ExtraAttrs, Type, TypeModel, EXPLICIT, FROM_UNIMPORTED_TYPE, SPECIAL_FORM,
};

verus! {

/// Which rewrite a walk applies.
#[derive(Debug, Clone, Copy, PartialEq, Eq, Structural)]
pub enum Rewrite {
    /// `make_any_non_explicit`: an explicit `Any` becomes a special-form one.
    NonExplicitAny,
    /// `make_any_non_unimported`: an unimported `Any` becomes a special-form
    /// one, and every `Any` loses its missing-import name.
    NonUnimportedAny,
    /// `erase_typevars`: every type variable becomes a special-form `Any`.
    EraseTypeVars,
}

/// The rewrite of one type.
pub open spec fn rewrite(t: TypeModel, w: Rewrite) -> TypeModel
    decreases t, 1nat,
{
    match t {
        TypeModel::AnyType { type_of_any, source_any, missing_import_name } => match w {
            Rewrite::NonExplicitAny => TypeModel::AnyType {
                type_of_any: if type_of_any == EXPLICIT as int { SPECIAL_FORM as int } else { type_of_any },
                source_any,
                missing_import_name,
            },
            Rewrite::NonUnimportedAny => TypeModel::AnyType {
                type_of_any: if type_of_any == FROM_UNIMPORTED_TYPE as int { SPECIAL_FORM as int } else { type_of_any },
                source_any,
                missing_import_name: None,
            },
            Rewrite::EraseTypeVars => t,
        },
        TypeModel::TypeVarType { .. } => match w {
            Rewrite::EraseTypeVars => TypeModel::AnyType {
                type_of_any: SPECIAL_FORM as int,
                source_any: None,
                missing_import_name: None,
            },
            _ => t,
        },
        TypeModel::Instance { type_ref, args, last_known_value, extra_attrs } => TypeModel::Instance {
            type_ref,
            args: rewrite_seq(args, w),
            last_known_value: match last_known_value {
                Some(b) => Some(Box::new(rewrite(*b, w))),
                None => None,
            },
            extra_attrs,
        },
        TypeModel::CallableType {
            fallback,
            instance_type,
            is_ellipsis_args,
            implicit,
            is_bound,
            from_concatenate,
            imprecise_arg_kinds,
            unpack_kwargs,
            from_type_type,
            arg_types,
            arg_kinds,
            arg_names,
            ret_type,
            name,
            variables,
            type_guard,
            type_is,
            special_sig,
            definition_ref,
        } => TypeModel::CallableType {
            fallback,
            instance_type,
            is_ellipsis_args,
            implicit,
            is_bound,
            from_concatenate,
            imprecise_arg_kinds,
            unpack_kwargs,
            from_type_type,
            arg_types: rewrite_seq(arg_types, w),
            arg_kinds,
            arg_names,
            ret_type: Box::new(rewrite(*ret_type, w)),
            name,
            variables,
            type_guard,
            type_is,
            special_sig,
            definition_ref,
        },
        TypeModel::Overloaded { items } => TypeModel::Overloaded { items: rewrite_seq(items, w) },
        TypeModel::TupleType { partial_fallback, items, implicit } => TypeModel::TupleType {
            partial_fallback: Box::new(rewrite(*partial_fallback, w)),
            items: rewrite_seq(items, w),
            implicit,
        },
        TypeModel::TypedDictType { fallback, items, required_keys, readonly_keys, is_closed } =>
            TypeModel::TypedDictType {
                fallback: Box::new(rewrite(*fallback, w)),
                items: rewrite_pairs(items, w),
                required_keys,
                readonly_keys,
                is_closed,
            },
        TypeModel::LiteralType { fallback, value } => TypeModel::LiteralType {
            fallback: Box::new(rewrite(*fallback, w)),
            value,
        },
        TypeModel::UnionType {
            items,
            uses_pep604_syntax,
            can_be_true,
            can_be_false,
            is_evaluated,
            original_str_expr,
            original_str_fallback,
        } => TypeModel::UnionType {
            items: rewrite_seq(items, w),
            uses_pep604_syntax,
            can_be_true,
            can_be_false,
            is_evaluated,
            original_str_expr,
            original_str_fallback,
        },
        TypeModel::TypeType { item, is_type_form } => TypeModel::TypeType {
            item: Box::new(rewrite(*item, w)),
            is_type_form,
        },
        TypeModel::UnpackType { typ, from_star_syntax } => TypeModel::UnpackType {
            typ: Box::new(rewrite(*typ, w)),
            from_star_syntax,
        },
        TypeModel::TypeAliasType { args, type_ref, is_recursive } => TypeModel::TypeAliasType {
            args: rewrite_seq(args, w),
            type_ref,
            is_recursive,
        },
        _ => t,
    }
}

/// The rewrite of each type of a list.
pub open spec fn rewrite_seq(s: Seq<TypeModel>, w: Rewrite) -> Seq<TypeModel>
    decreases s, 0nat,
{
    if s.len() == 0 {
        Seq::empty()
    } else {
        rewrite_seq(s.drop_last(), w).push(rewrite(s.last(), w))
    }
}

/// The rewrite of each value type of a list of named items.
pub open spec fn rewrite_pairs(s: Seq<(Seq<char>, TypeModel)>, w: Rewrite) -> Seq<(Seq<char>, TypeModel)>
    decreases s, 0nat,
{
    if s.len() == 0 {
        Seq::empty()
    } else {
        rewrite_pairs(s.drop_last(), w).push((s.last().0, rewrite(s.last().1, w)))
    }
}

fn clone_extra_attrs(e: &Option<ExtraAttrs>) -> (r: Option<ExtraAttrs>)
    ensures
        crate::wire::extra_model(r) == crate::wire::extra_model(*e),
{
    match e {
        Some(x) => Some(ExtraAttrs {
            attrs: clone_pairs(&x.attrs),
            immutable: clone_strings(&x.immutable),
            mod_name: clone_opt_string(&x.mod_name),
        }),
        None => None,
    }
}

/// Apply rewrite `w` to `t`.
pub fn apply_rewrite(t: &Type, w: Rewrite) -> (r: Type)
    ensures
        r@ == rewrite(t@, w),
    decreases t, 1nat,
{
    match t {
        Type::AnyType { type_of_any, source_any, missing_import_name } => match w {
            Rewrite::NonExplicitAny => {
                let k: i64 = if *type_of_any == EXPLICIT { SPECIAL_FORM } else { *type_of_any };
                let r = Type::AnyType {
                    type_of_any: k,
                    source_any: clone_opt_type(source_any),
                    missing_import_name: clone_opt_string(missing_import_name),
                };
                proof {
                    assert(k as int == if *type_of_any as int == EXPLICIT as int { SPECIAL_FORM as int } else { *type_of_any as int });
                    assert(r@ == rewrite(t@, w));
                }
                r
            },
            Rewrite::NonUnimportedAny => {
                let k: i64 = if *type_of_any == FROM_UNIMPORTED_TYPE { SPECIAL_FORM } else { *type_of_any };
                let r = Type::AnyType { type_of_any: k, source_any: clone_opt_type(source_any), missing_import_name: None };
                proof {
                    assert(k as int == if *type_of_any as int == FROM_UNIMPORTED_TYPE as int { SPECIAL_FORM as int } else { *type_of_any as int });
                }
                r
            },
            Rewrite::EraseTypeVars => clone_type(t),
        },
        Type::TypeVarType { .. } => match w {
            Rewrite::EraseTypeVars => {
                let r = Type::AnyType { type_of_any: SPECIAL_FORM, source_any: None, missing_import_name: None };
                proof {
                    assert(opt_type_model(None) == None::<Box<TypeModel>>);
                }
                r
            },
            _ => clone_type(t),
        },
        Type::Instance { type_ref, args, last_known_value, extra_attrs } => {
            let lkv = match last_known_value {
                Some(b) => Some(Box::new(apply_rewrite(b, w))),
                None => None,
            };
            proof {
                assert(opt_type_model(lkv) == match opt_type_model(*last_known_value) {
                    Some(b) => Some(Box::new(rewrite(*b, w))),
                    None => None,
                });
            }
            let r = Type::Instance {
                type_ref: type_ref.clone(),
                args: apply_rewrite_vec(args, w),
                last_known_value: lkv,
                extra_attrs: clone_extra_attrs(extra_attrs),
            };
            proof { assert(r@ == rewrite(t@, w)); }
            r
        },
        Type::CallableType {
            fallback,
            instance_type,
            is_ellipsis_args,
            implicit,
            is_bound,
            from_concatenate,
            imprecise_arg_kinds,
            unpack_kwargs,
            from_type_type,
            arg_types,
            arg_kinds,
            arg_names,
            ret_type,
            name,
            variables,
            type_guard,
            type_is,
            special_sig,
            definition_ref,
        } => Type::CallableType {
            fallback: Box::new(clone_type(fallback)),
            instance_type: clone_opt_type(instance_type),
            is_ellipsis_args: *is_ellipsis_args,
            implicit: *implicit,
            is_bound: *is_bound,
            from_concatenate: *from_concatenate,
            imprecise_arg_kinds: *imprecise_arg_kinds,
            unpack_kwargs: *unpack_kwargs,
            from_type_type: *from_type_type,
            arg_types: apply_rewrite_vec(arg_types, w),
            arg_kinds: clone_kinds(arg_kinds),
            arg_names: clone_opt_strings(arg_names),
            ret_type: Box::new(apply_rewrite(ret_type, w)),
            name: clone_opt_string(name),
            variables: clone_types(variables),
            type_guard: clone_opt_type(type_guard),
            type_is: clone_opt_type(type_is),
            special_sig: clone_opt_string(special_sig),
            definition_ref: clone_opt_string(definition_ref),
        },
        Type::Overloaded { items } => Type::Overloaded { items: apply_rewrite_vec(items, w) },
        Type::TupleType { partial_fallback, items, implicit } => Type::TupleType {
            partial_fallback: Box::new(apply_rewrite(partial_fallback, w)),
            items: apply_rewrite_vec(items, w),
            implicit: *implicit,
        },
        Type::TypedDictType { fallback, items, required_keys, readonly_keys, is_closed } => Type::TypedDictType {
            fallback: Box::new(apply_rewrite(fallback, w)),
            items: apply_rewrite_pairs(items, w),
            required_keys: clone_strings(required_keys),
            readonly_keys: clone_strings(readonly_keys),
            is_closed: *is_closed,
        },
        Type::LiteralType { fallback, value } => Type::LiteralType {
            fallback: Box::new(apply_rewrite(fallback, w)),
            value: clone_literal(value),
        },
        Type::UnionType {
            items,
            uses_pep604_syntax,
            can_be_true,
            can_be_false,
            is_evaluated,
            original_str_expr,
            original_str_fallback,
        } => Type::UnionType {
            items: apply_rewrite_vec(items, w),
            uses_pep604_syntax: *uses_pep604_syntax,
            can_be_true: *can_be_true,
            can_be_false: *can_be_false,
            is_evaluated: *is_evaluated,
            original_str_expr: clone_opt_string(original_str_expr),
            original_str_fallback: clone_opt_string(original_str_fallback),
        },
        Type::TypeType { item, is_type_form } => Type::TypeType {
            item: Box::new(apply_rewrite(item, w)),
            is_type_form: *is_type_form,
        },
        Type::UnpackType { typ, from_star_syntax } => Type::UnpackType {
            typ: Box::new(apply_rewrite(typ, w)),
            from_star_syntax: *from_star_syntax,
        },
        Type::TypeAliasType { args, type_ref, is_recursive } => Type::TypeAliasType {
            args: apply_rewrite_vec(args, w),
            type_ref: type_ref.clone(),
            is_recursive: *is_recursive,
        },
        _ => clone_type(t),
    }
}

/// Apply rewrite `w` to each type of `v`.
pub fn apply_rewrite_vec(v: &Vec<Type>, w: Rewrite) -> (r: Vec<Type>)
    ensures
        types_model(r@) == rewrite_seq(types_model(v@), w),
    decreases v, 0nat,
{
    proof {
        lemma_types_model(v@);
    }
    let mut out: Vec<Type> = Vec::new();
    let mut i: usize = 0;
    while i < v.len()
        invariant
            i <= v@.len(),
            types_model(v@).len() == v@.len(),
            forall|j: int| 0 <= j < v@.len() ==> #[trigger] types_model(v@)[j] == type_model(v@[j]),
            types_model(out@) == rewrite_seq(types_model(v@).take(i as int), w),
        decreases v@.len() - i,
    {
        let c = apply_rewrite(&v[i], w);
        proof {
            lemma_types_model_push(out@, c);
            assert(types_model(v@).take(i + 1).drop_last() =~= types_model(v@).take(i as int));
            assert(types_model(v@).take(i + 1).last() == v@[i as int]@);
        }
        out.push(c);
        i = i + 1;
    }
    proof {
        assert(types_model(v@).take(v@.len() as int) =~= types_model(v@));
    }
    out
}

/// Apply rewrite `w` to each value type of `v`.
pub fn apply_rewrite_pairs(v: &Vec<(String, Type)>, w: Rewrite) -> (r: Vec<(String, Type)>)
    ensures
        pairs_model(r@) == rewrite_pairs(pairs_model(v@), w),
    decreases v, 0nat,
{
    proof {
        lemma_pairs_model(v@);
    }
    let mut out: Vec<(String, Type)> = Vec::new();
    let mut i: usize = 0;
    while i < v.len()
        invariant
            i <= v@.len(),
            pairs_model(v@).len() == v@.len(),
            forall|j: int| 0 <= j < v@.len() ==> #[trigger] pairs_model(v@)[j] == (v@[j].0@, type_model(v@[j].1)),
            pairs_model(out@) == rewrite_pairs(pairs_model(v@).take(i as int), w),
        decreases v@.len() - i,
    {
        proof {
            assert(decreases_to!(v@ => v@[i as int]));
        }
        let c = (v[i].0.clone(), apply_rewrite(&v[i].1, w));
        proof {
            assert(out@.push(c).drop_last() =~= out@);
            assert(pairs_model(v@).take(i + 1).drop_last() =~= pairs_model(v@).take(i as int));
            assert(pairs_model(v@).take(i + 1).last() == (v@[i as int].0@, v@[i as int].1@));
        }
        out.push(c);
        i = i + 1;
    }
    proof {
        assert(pairs_model(v@).take(v@.len() as int) =~= pairs_model(v@));
    }
    out
}

} // verus!
