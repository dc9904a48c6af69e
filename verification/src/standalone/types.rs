//! The type algebra's structural operations: union construction and
//! flattening, truthiness defaults, bound erasure, self binding and the
//! `CallableType` / `TupleType` accessors.

use vstd::prelude::*;
use crate::text::str_eq;
use crate::standalone::expr::{any_from_another, any_from_another_exec};
use crate::standalone::call::{strip_self, strip_self_spec};
use crate::typeinfo::{is_metaclass, snapshot_is_metaclass, TypeResolver};
use crate::wire::{
    clone_kinds, clone_opt_string, lemma_pairs_model, pairs_model, clone_opt_strings, clone_opt_type, clone_type, clone_types,
    lemma_types_model, lemma_types_model_push, literal_model, opt_str_model, opt_strs_model,
    opt_type_model, type_model, types_model, LiteralModel, LiteralValue, Type, TypeModel,
};

verus! {

/// `Type.can_be_true_default` where the variant alone decides it; `None`
/// for a `TupleType`, a non-bool `LiteralType` and a `TypeAliasType`.
pub open spec fn truthy_default(t: TypeModel) -> Option<bool> {
    match t {
        TypeModel::NoneType => Some(false),
        TypeModel::UninhabitedType { .. } => Some(false),
        TypeModel::LiteralType { value, .. } => match value {
            LiteralModel::Bool(b) => Some(b),
            _ => None,
        },
        TypeModel::TupleType { .. } => None,
        TypeModel::TypeAliasType { .. } => None,
        TypeModel::UnionType { can_be_true, .. } => Some(can_be_true),
        _ => Some(true),
    }
}

/// `Type.can_be_false_default` where the variant alone decides it.
pub open spec fn falsy_default(t: TypeModel) -> Option<bool> {
    match t {
        TypeModel::NoneType => Some(true),
        TypeModel::UninhabitedType { .. } => Some(false),
        TypeModel::LiteralType { value, .. } => match value {
            LiteralModel::Bool(b) => Some(!b),
            _ => None,
        },
        TypeModel::TupleType { .. } => None,
        TypeModel::TypeAliasType { .. } => None,
        TypeModel::UnionType { can_be_false, .. } => Some(can_be_false),
        _ => Some(true),
    }
}

/// Whether a union item may be truthy: its default, and `true` where the
/// default needs facts this layer does not hold.
pub open spec fn item_may_be_true(t: TypeModel) -> bool {
    match truthy_default(t) {
        Some(b) => b,
        None => true,
    }
}

/// Whether a union item may be falsy, as for [`item_may_be_true`].
pub open spec fn item_may_be_false(t: TypeModel) -> bool {
    match falsy_default(t) {
        Some(b) => b,
        None => true,
    }
}

/// `UnionType.make_union`: no items is the empty union, one item is that
/// item, more is a `UnionType` whose truthiness flags are the OR over the
/// items.
pub open spec fn make_union_spec(items: Seq<TypeModel>) -> TypeModel {
    if items.len() == 0 {
        TypeModel::UninhabitedType { ambiguous: false }
    } else if items.len() == 1 {
        items[0]
    } else {
        TypeModel::UnionType {
            items: items,
            uses_pep604_syntax: false,
            can_be_true: exists|i: int| 0 <= i < items.len() && item_may_be_true(#[trigger] items[i]),
            can_be_false: exists|i: int| 0 <= i < items.len() && item_may_be_false(#[trigger] items[i]),
            is_evaluated: true,
            original_str_expr: None,
            original_str_fallback: None,
        }
    }
}

fn may_be_true(t: &Type) -> (r: bool)
    ensures
        r == item_may_be_true(t@),
{
    match can_be_true_default(t) {
        Some(b) => b,
        None => true,
    }
}

fn may_be_false(t: &Type) -> (r: bool)
    ensures
        r == item_may_be_false(t@),
{
    match can_be_false_default(t) {
        Some(b) => b,
        None => true,
    }
}

/// `UnionType.make_union`: no items is `UninhabitedType`, one item is that
/// item unwrapped, more than one is a `UnionType` whose `can_be_true` and
/// `can_be_false` are the OR over the items. No simplification.
pub fn make_union(items: Vec<Type>) -> (r: Type)
    ensures
        r@ == make_union_spec(types_model(items@)),
{
    proof {
        lemma_types_model(items@);
    }
    if items.len() == 0 {
        return Type::UninhabitedType { ambiguous: false };
    }
    if items.len() == 1 {
        let mut items = items;
        let only = items.pop().unwrap();
        return only;
    }
    let mut t = false;
    let mut f = false;
    let mut i: usize = 0;
    while i < items.len()
        invariant
            i <= items@.len(),
            types_model(items@).len() == items@.len(),
            forall|j: int| 0 <= j < items@.len() ==> #[trigger] types_model(items@)[j] == type_model(items@[j]),
            t == (exists|j: int| 0 <= j < i && item_may_be_true(#[trigger] types_model(items@)[j])),
            f == (exists|j: int| 0 <= j < i && item_may_be_false(#[trigger] types_model(items@)[j])),
        decreases items@.len() - i,
    {
        let bt = may_be_true(&items[i]);
        let bf = may_be_false(&items[i]);
        proof {
            assert(types_model(items@)[i as int] == items@[i as int]@);
        }
        t = t || bt;
        f = f || bf;
        i = i + 1;
    }
    Type::UnionType {
        items,
        uses_pep604_syntax: false,
        can_be_true: t,
        can_be_false: f,
        is_evaluated: true,
        original_str_expr: None,
        original_str_fallback: None,
    }
}

/// `UnionType.length`: the item count, or `None` for a non-union.
#[verifier::truncate]
pub fn union_length(t: &Type) -> (r: Option<i64>)
    ensures
        match *t {
            Type::UnionType { items, .. } => r == Some(#[verifier::truncate] (items@.len() as i64)),
            _ => r.is_none(),
        },
{
    match t {
        Type::UnionType { items, .. } => Some(#[verifier::truncate] (items.len() as i64)),
        _ => None,
    }
}

/// `TupleType.length`: the item count, or `None` for a non-tuple.
pub fn tuple_length(t: &Type) -> (r: Option<i64>)
    ensures
        match *t {
            Type::TupleType { items, .. } => r == Some(#[verifier::truncate] (items@.len() as i64)),
            _ => r.is_none(),
        },
{
    match t {
        Type::TupleType { items, .. } => Some(#[verifier::truncate] (items.len() as i64)),
        _ => None,
    }
}

/// `is_tuple`: a `TupleType`, or an `Instance` of `builtins.tuple`.
pub fn is_tuple(t: &Type) -> (r: bool)
    ensures
        r == match *t {
            Type::TupleType { .. } => true,
            Type::Instance { type_ref, .. } => type_ref@ == "builtins.tuple"@,
            _ => false,
        },
{
    match t {
        Type::TupleType { .. } => true,
        Type::Instance { type_ref, .. } => str_eq(type_ref.as_str(), "builtins.tuple"),
        _ => false,
    }
}

/// `is_named_instance`: an `Instance` of exactly `fullname`.
pub fn is_named_instance(t: &Type, fullname: &str) -> (r: bool)
    ensures
        r == match *t {
            Type::Instance { type_ref, .. } => type_ref@ == fullname@,
            _ => false,
        },
{
    match t {
        Type::Instance { type_ref, .. } => str_eq(type_ref.as_str(), fullname),
        _ => false,
    }
}

/// `get_proper_type`: every variant but `TypeAliasType` is already
/// proper and comes back unchanged; an alias declines, because the
/// resolver carries no alias targets to expand it with.
pub fn get_proper_type(t: &Type, resolver: &TypeResolver) -> (r: Option<Type>)
    ensures
        match *t {
            Type::TypeAliasType { .. } => r.is_none(),
            _ => r.is_some() && r.unwrap()@ == t@,
        },
{
    match t {
        Type::TypeAliasType { .. } => None,
        _ => Some(clone_type(t)),
    }
}

/// `Type.can_be_true_default` from the per-variant defaults alone.
pub fn can_be_true_default(t: &Type) -> (r: Option<bool>)
    ensures
        r == truthy_default(t@),
{
    match t {
        Type::NoneType => Some(false),
        Type::UninhabitedType { .. } => Some(false),
        Type::LiteralType { value, .. } => match value {
            LiteralValue::Bool(b) => Some(*b),
            _ => None,
        },
        Type::TupleType { .. } => None,
        Type::TypeAliasType { .. } => None,
        Type::UnionType { can_be_true, .. } => Some(*can_be_true),
        _ => Some(true),
    }
}

/// `Type.can_be_false_default` from the per-variant defaults alone.
pub fn can_be_false_default(t: &Type) -> (r: Option<bool>)
    ensures
        r == falsy_default(t@),
{
    match t {
        Type::NoneType => Some(true),
        Type::UninhabitedType { .. } => Some(false),
        Type::LiteralType { value, .. } => match value {
            LiteralValue::Bool(b) => Some(!*b),
            _ => None,
        },
        Type::TupleType { .. } => None,
        Type::TypeAliasType { .. } => None,
        Type::UnionType { can_be_false, .. } => Some(*can_be_false),
        _ => Some(true),
    }
}

/// `TypeType(item)` in the model.
pub open spec fn type_type_of(t: TypeModel) -> TypeModel {
    TypeModel::TypeType { item: Box::new(t), is_type_form: false }
}

/// `TypeType.make_normalized`: wrap in `TypeType`, distributing over the
/// items of a union.
pub open spec fn make_type_normalized_spec(t: TypeModel) -> TypeModel {
    match t {
        TypeModel::UnionType { items, .. } => make_union_spec(items.map_values(|i: TypeModel| type_type_of(i))),
        _ => type_type_of(t),
    }
}

/// `TypeType.make_normalized`: a `TypeType` of the item, or for a union
/// the union of the `TypeType`s of its items.
pub fn make_type_type_normalized(item: &Type) -> (r: Type)
    ensures
        r@ == make_type_normalized_spec(item@),
{
    match item {
        Type::UnionType { items, .. } => {
            proof {
                lemma_types_model(items@);
            }
            let mut out: Vec<Type> = Vec::new();
            let mut i: usize = 0;
            while i < items.len()
                invariant
                    i <= items@.len(),
                    types_model(items@).len() == items@.len(),
                    forall|j: int| 0 <= j < items@.len() ==> #[trigger] types_model(items@)[j] == type_model(items@[j]),
                    types_model(out@) == types_model(items@).take(i as int).map_values(|x: TypeModel| type_type_of(x)),
                decreases items@.len() - i,
            {
                let w = Type::TypeType { item: Box::new(clone_type(&items[i])), is_type_form: false };
                proof {
                    lemma_types_model_push(out@, w);
                    assert(types_model(items@).take(i + 1).map_values(|x: TypeModel| type_type_of(x)) =~= types_model(items@).take(
                        i as int,
                    ).map_values(|x: TypeModel| type_type_of(x)).push(type_type_of(items@[i as int]@)));
                }
                out.push(w);
                i = i + 1;
            }
            proof {
                assert(types_model(items@).take(items@.len() as int) =~= types_model(items@));
            }
            make_union(out)
        },
        _ => Type::TypeType { item: Box::new(clone_type(item)), is_type_form: false },
    }
}


/// `flatten_nested_unions`: nested union items expanded in place, in
/// order; `None` on a `TypeAliasType` item, whose target is not held.
pub open spec fn flatten_spec(items: Seq<Type>) -> Option<Seq<Type>>
    decreases items,
{
    if items.len() == 0 {
        Some(Seq::empty())
    } else {
        let last = items.last();
        match flatten_spec(items.drop_last()) {
            None => None,
            Some(prefix) => match last {
                Type::TypeAliasType { .. } => None,
                Type::UnionType { items: sub, .. } => {
                    proof {
                        assert(decreases_to!(items => last));
                    }
                    match flatten_spec(sub@) {
                        None => None,
                        Some(inner) => Some(prefix + inner),
                    }
                },
                _ => Some(prefix.push(last)),
            },
        }
    }
}

/// `types_model` distributes over concatenation.
pub proof fn lemma_types_model_concat(a: Seq<Type>, b: Seq<Type>)
    ensures
        types_model(a + b) == types_model(a) + types_model(b),
{
    lemma_types_model(a);
    lemma_types_model(b);
    lemma_types_model(a + b);
    assert(types_model(a + b) =~= types_model(a) + types_model(b));
}

/// Append copies of `extra` to `out`.
pub fn append_types(out: &mut Vec<Type>, extra: &Vec<Type>)
    ensures
        types_model(final(out)@) == types_model(old(out)@) + types_model(extra@),
        final(out)@.len() == old(out)@.len() + extra@.len(),
{
    let ghost start = out@;
    let mut i: usize = 0;
    while i < extra.len()
        invariant
            i <= extra@.len(),
            out@ .len() == start.len() + i,
            types_model(out@) == types_model(start) + types_model(extra@.take(i as int)),
        decreases extra@.len() - i,
    {
        let c = clone_type(&extra[i]);
        proof {
            lemma_types_model_push(out@, c);
            assert(extra@.take(i + 1) =~= extra@.take(i as int).push(extra@[i as int]));
            lemma_types_model_push(extra@.take(i as int), extra@[i as int]);
        }
        out.push(c);
        i = i + 1;
    }
    proof {
        assert(extra@.take(extra@.len() as int) =~= extra@);
    }
}

/// `flatten_nested_unions`: expand nested `UnionType` items into one flat
/// list. Declines on a `TypeAliasType` item, whose target is not held.
pub fn flatten_nested_unions(items: &[Type]) -> (r: Option<Vec<Type>>)
    ensures
        r.is_some() == flatten_spec(items@).is_some(),
        r.is_some() ==> types_model(r.unwrap()@) == types_model(flatten_spec(items@).unwrap()),
    decreases items@,
{
    let mut out: Vec<Type> = Vec::new();
    let mut i: usize = 0;
    while i < items.len()
        invariant
            i <= items@.len(),
            flatten_spec(items@.take(i as int)).is_some(),
            types_model(out@) == types_model(flatten_spec(items@.take(i as int)).unwrap()),
        decreases items@.len() - i,
    {
        proof {
            assert(items@.take(i + 1).drop_last() =~= items@.take(i as int));
            assert(items@.take(i + 1).last() == items@[i as int]);
        }
        match &items[i] {
            Type::TypeAliasType { .. } => {
                proof {
                    lemma_flatten_none_persists(items@, i as int + 1);
                }
                return None;
            },
            Type::UnionType { items: sub, .. } => {
                proof {
                    assert(decreases_to!(items@ => items@[i as int]));
                }
                match flatten_nested_unions(sub.as_slice()) {
                    None => {
                        proof {
                            lemma_flatten_none_persists(items@, i as int + 1);
                        }
                        return None;
                    },
                    Some(inner) => {
                        proof {
                            lemma_types_model_concat(flatten_spec(items@.take(i as int)).unwrap(), flatten_spec(sub@).unwrap());
                        }
                        append_types(&mut out, &inner);
                        proof {
                            lemma_types_model_concat(out@.subrange(0, 0), out@);
                        }
                    },
                }
            },
            _ => {
                let c = clone_type(&items[i]);
                proof {
                    lemma_types_model_push(out@, c);
                    lemma_types_model_push(flatten_spec(items@.take(i as int)).unwrap(), items@[i as int]);
                }
                out.push(c);
            },
        }
        i = i + 1;
    }
    proof {
        assert(items@.take(items@.len() as int) =~= items@);
    }
    Some(out)
}

proof fn lemma_flatten_none_persists(items: Seq<Type>, k: int)
    requires
        0 <= k <= items.len(),
        flatten_spec(items.take(k)).is_none(),
    ensures
        flatten_spec(items).is_none(),
    decreases items.len() - k,
{
    if k < items.len() {
        assert(items.take(k + 1).drop_last() =~= items.take(k));
        lemma_flatten_none_persists(items, k + 1);
    } else {
        assert(items.take(k) =~= items);
    }
}


/// `is_simple_literal`: a string or enum literal, or an instance whose last
/// known value is a string literal. `None` for an alias, a literal whose
/// fallback is not an instance, or a non-`str` literal whose fallback class
/// has no snapshot to say whether it is an enum.
pub open spec fn simple_literal_spec(t: TypeModel, r: TypeResolver) -> Option<bool> {
    match t {
        TypeModel::TypeAliasType { .. } => None,
        TypeModel::LiteralType { fallback, .. } => match *fallback {
            TypeModel::Instance { type_ref, .. } => if type_ref == "builtins.str"@ {
                Some(true)
            } else {
                match r.class_of(type_ref) {
                    None => None,
                    Some(snap) => Some(snap.is_enum),
                }
            },
            _ => None,
        },
        TypeModel::Instance { last_known_value, .. } => Some(
            match last_known_value {
                Some(lkv) => match *lkv {
                    TypeModel::LiteralType { value, .. } => value is Str,
                    _ => false,
                },
                None => false,
            },
        ),
        _ => Some(false),
    }
}

/// `is_simple_literal`: whether a literal narrows like a singleton.
pub fn is_simple_literal(t: &Type, resolver: &TypeResolver) -> (r: Option<bool>)
    ensures
        r == simple_literal_spec(t@, *resolver),
{
    match t {
        Type::TypeAliasType { .. } => None,
        Type::LiteralType { fallback, .. } => match &**fallback {
            Type::Instance { type_ref, .. } => {
                proof {
                    assert(t@ matches TypeModel::LiteralType { fallback: f, .. } && *f == type_model(**fallback));
                    assert(type_model(**fallback) matches TypeModel::Instance { type_ref: tr, .. } && tr == type_ref@);
                }
                if str_eq(type_ref.as_str(), "builtins.str") {
                    Some(true)
                } else {
                    match resolver.get(type_ref.as_str()) {
                        None => None,
                        Some(snap) => Some(snap.is_enum),
                    }
                }
            },
            _ => {
                proof {
                    assert(t@ matches TypeModel::LiteralType { fallback: f, .. } && *f == type_model(**fallback));
                }
                None
            },
        },
        Type::Instance { last_known_value, .. } => {
            let simple = match last_known_value {
                Some(lkv) => {
                    proof {
                        assert(opt_type_model(*last_known_value) == Some(Box::new(type_model(**lkv))));
                    }
                    match &**lkv {
                        Type::LiteralType { value, .. } => {
                            proof {
                                assert(type_model(**lkv) matches TypeModel::LiteralType { value: v, .. } && v == literal_model(*value));
                            }
                            match value {
                                LiteralValue::Str(_) => true,
                                _ => false,
                            }
                        },
                        _ => false,
                    }
                },
                None => false,
            };
            proof {
                assert(t@ matches TypeModel::Instance { last_known_value: l, .. } && l == opt_type_model(*last_known_value));
            }
            Some(simple)
        },
        _ => Some(false),
    }
}

/// `erase_to_bound`: a type variable becomes its upper bound and
/// `type[T]` becomes `type[bound]`; anything else is unchanged. `None` for
/// an alias.
pub open spec fn erase_to_bound_spec(t: TypeModel) -> Option<TypeModel> {
    match t {
        TypeModel::TypeAliasType { .. } => None,
        TypeModel::TypeVarType { upper_bound, .. } => Some(*upper_bound),
        TypeModel::TypeType { item, .. } => match *item {
            TypeModel::TypeVarType { upper_bound, .. } => Some(type_type_of(*upper_bound)),
            _ => Some(t),
        },
        _ => Some(t),
    }
}

/// `erase_to_bound`: replace a type variable with its upper bound.
pub fn erase_to_bound(t: &Type) -> (r: Option<Type>)
    ensures
        match r {
            None => erase_to_bound_spec(t@).is_none(),
            Some(x) => erase_to_bound_spec(t@) == Some(x@),
        },
{
    match t {
        Type::TypeAliasType { .. } => None,
        Type::TypeVarType { upper_bound, .. } => Some(clone_type(upper_bound)),
        Type::TypeType { item, .. } => match &**item {
            Type::TypeVarType { upper_bound, .. } => {
                proof {
                    assert(t@ matches TypeModel::TypeType { item: i, .. } && *i == type_model(**item));
                }
                Some(Type::TypeType { item: Box::new(clone_type(upper_bound)), is_type_form: false })
            },
            _ => {
                proof {
                    assert(t@ matches TypeModel::TypeType { item: i, .. } && *i == type_model(**item));
                }
                Some(clone_type(t))
            },
        },
        _ => Some(clone_type(t)),
    }
}

/// `Literal[value]` over the fallback `fb`.
pub open spec fn literal_of(fb: TypeModel, v: LiteralModel) -> TypeModel {
    TypeModel::LiteralType { fallback: Box::new(fb), value: v }
}

/// `try_expanding_sum_type_to_union` on what this layer can expand: the
/// targeted `builtins.bool` becomes `Literal[True] | Literal[False]`, an
/// instance of another targeted class is unchanged when its snapshot says
/// it is no enum, and anything else but a union is unchanged. `None` for an
/// alias, a union (whose expansion is simplified against the subtype
/// relation), an enum, or a targeted class without a snapshot.
pub open spec fn expand_sum_spec(t: TypeModel, target: Option<Seq<char>>, r: TypeResolver) -> Option<TypeModel> {
    match t {
        TypeModel::TypeAliasType { .. } => None,
        TypeModel::UnionType { .. } => None,
        TypeModel::Instance { type_ref, .. } => if target.is_some() && target != Some(type_ref) {
            Some(t)
        } else if type_ref == "builtins.bool"@ {
            Some(make_union_spec(seq![literal_of(t, LiteralModel::Bool(true)), literal_of(t, LiteralModel::Bool(false))]))
        } else {
            match r.class_of(type_ref) {
                None => None,
                Some(snap) => if snap.is_enum {
                    None
                } else {
                    Some(t)
                },
            }
        },
        _ => Some(t),
    }
}

/// `try_expanding_sum_type_to_union`: expand a sum type into the union of
/// its members, restricted to `target_fullname` when given.
pub fn try_expanding_sum_type_to_union(
    t: &Type,
    target_fullname: Option<&str>,
    strict_optional: bool,
    resolver: &TypeResolver,
) -> (r: Option<Type>)
    ensures
        match r {
            None => expand_sum_spec(t@, match target_fullname {
                Some(x) => Some(x@),
                None => None,
            }, *resolver).is_none(),
            Some(x) => expand_sum_spec(t@, match target_fullname {
                Some(x) => Some(x@),
                None => None,
            }, *resolver) == Some(x@),
        },
{
    match t {
        Type::TypeAliasType { .. } => None,
        Type::UnionType { .. } => None,
        Type::Instance { type_ref, .. } => {
            let off_target = match target_fullname {
                Some(name) => !str_eq(name, type_ref.as_str()),
                None => false,
            };
            if off_target {
                return Some(clone_type(t));
            }
            if str_eq(type_ref.as_str(), "builtins.bool") {
                let yes = Type::LiteralType { fallback: Box::new(clone_type(t)), value: LiteralValue::Bool(true) };
                let no = Type::LiteralType { fallback: Box::new(clone_type(t)), value: LiteralValue::Bool(false) };
                let mut items: Vec<Type> = Vec::new();
                items.push(yes);
                items.push(no);
                proof {
                    lemma_types_model_push(Seq::<Type>::empty(), yes);
                    lemma_types_model_push(seq![yes], no);
                    assert(Seq::<Type>::empty().push(yes) =~= seq![yes]);
                    assert(seq![yes].push(no) =~= items@);
                    assert(types_model(items@) =~= seq![literal_of(t@, LiteralModel::Bool(true)), literal_of(t@, LiteralModel::Bool(false))]);
                }
                return Some(make_union(items));
            }
            match resolver.get(type_ref.as_str()) {
                None => None,
                Some(snap) => {
                    if snap.is_enum {
                        None
                    } else {
                        Some(clone_type(t))
                    }
                },
            }
        },
        _ => Some(clone_type(t)),
    }
}

/// `is_recursive_pair` on what needs no alias expansion: two recursive
/// aliases are a recursive pair, two types that are not recursive aliases
/// are not, and a mixed pair is `None`.
pub open spec fn recursive_pair_spec(s: TypeModel, t: TypeModel) -> Option<bool> {
    let rs = s matches TypeModel::TypeAliasType { is_recursive, .. } && is_recursive;
    let rt = t matches TypeModel::TypeAliasType { is_recursive, .. } && is_recursive;
    if rs && rt {
        Some(true)
    } else if !rs && !rt {
        Some(false)
    } else {
        None
    }
}

/// Whether a pair of types can re-enter the same subtype recursion.
pub fn is_recursive_pair(s: &Type, t: &Type) -> (r: Option<bool>)
    ensures
        r == recursive_pair_spec(s@, t@),
{
    let rs = match s {
        Type::TypeAliasType { is_recursive, .. } => *is_recursive,
        _ => false,
    };
    let rt = match t {
        Type::TypeAliasType { is_recursive, .. } => *is_recursive,
        _ => false,
    };
    if rs && rt {
        Some(true)
    } else if !rs && !rt {
        Some(false)
    } else {
        None
    }
}

/// The parameter kinds of a callable model.
pub open spec fn callable_kinds(t: TypeModel) -> Option<Seq<i64>> {
    match t {
        TypeModel::CallableType { arg_kinds, .. } => Some(arg_kinds),
        _ => None,
    }
}

/// How many of `kinds[..k]` are `a` or `b`.
pub open spec fn count_tags(kinds: Seq<i64>, k: int, a: i64, b: i64) -> int
    decreases k,
{
    if k <= 0 {
        0
    } else {
        count_tags(kinds, k - 1, a, b) + if kinds[k - 1] == a || kinds[k - 1] == b {
            1int
        } else {
            0int
        }
    }
}

proof fn lemma_count_tags_bound(kinds: Seq<i64>, k: int, a: i64, b: i64)
    requires
        0 <= k,
    ensures
        0 <= count_tags(kinds, k, a, b) <= k,
    decreases k,
{
    if k > 0 {
        lemma_count_tags_bound(kinds, k - 1, a, b);
    }
}

/// Count the kinds in `kinds` that are `a` or `b`.
fn count_tags_exec(kinds: &Vec<i64>, a: i64, b: i64) -> (r: usize)
    ensures
        r == count_tags(kinds@, kinds@.len() as int, a, b),
{
    let mut n: usize = 0;
    let mut i: usize = 0;
    while i < kinds.len()
        invariant
            i <= kinds@.len(),
            n == count_tags(kinds@, i as int, a, b),
        decreases kinds@.len() - i,
    {
        proof {
            lemma_count_tags_bound(kinds@, i as int, a, b);
        }
        if kinds[i] == a || kinds[i] == b {
            n = n + 1;
        }
        i = i + 1;
    }
    n
}

/// `CallableType.min_args`: the number of `ARG_POS` parameters. `None` for
/// a non-callable.
#[verifier::truncate]
pub fn callable_min_args(t: &Type) -> (r: Option<i64>)
    ensures
        match callable_kinds(t@) {
            None => r.is_none(),
            Some(k) => r == Some(#[verifier::truncate] (count_tags(k, k.len() as int, 0, 0) as i64)),
        },
{
    match t {
        Type::CallableType { arg_kinds, .. } => {
            let n = count_tags_exec(arg_kinds, 0, 0);
            Some(#[verifier::truncate] (n as i64))
        },
        _ => None,
    }
}

/// `CallableType.is_var_arg`: whether a parameter is `*args`. `None` for a
/// non-callable.
pub fn callable_is_var_arg(t: &Type) -> (r: Option<bool>)
    ensures
        match callable_kinds(t@) {
            None => r.is_none(),
            Some(k) => r == Some(k.contains(2i64)),
        },
{
    match t {
        Type::CallableType { arg_kinds, .. } => Some(kinds_contain(arg_kinds, 2)),
        _ => None,
    }
}

/// `CallableType.is_kw_arg`: whether a parameter is `**kwargs`. `None` for
/// a non-callable.
pub fn callable_is_kw_arg(t: &Type) -> (r: Option<bool>)
    ensures
        match callable_kinds(t@) {
            None => r.is_none(),
            Some(k) => r == Some(k.contains(4i64)),
        },
{
    match t {
        Type::CallableType { arg_kinds, .. } => Some(kinds_contain(arg_kinds, 4)),
        _ => None,
    }
}

/// Whether `tag` occurs in `kinds`.
fn kinds_contain(kinds: &Vec<i64>, tag: i64) -> (r: bool)
    ensures
        r == kinds@.contains(tag),
{
    let mut i: usize = 0;
    while i < kinds.len()
        invariant
            i <= kinds@.len(),
            forall|j: int| 0 <= j < i ==> kinds@[j] != tag,
        decreases kinds@.len() - i,
    {
        if kinds[i] == tag {
            proof {
                assert(kinds@[i as int] == tag);
            }
            return true;
        }
        i = i + 1;
    }
    false
}

/// `CallableType.max_possible_positional_args`: `i64::MAX` when a
/// parameter is `*args` or `**kwargs`, else the number of `ARG_POS` and
/// `ARG_OPT` parameters. `None` for a non-callable.
#[verifier::truncate]
pub fn callable_max_possible_positional_args(t: &Type) -> (r: Option<i64>)
    ensures
        match callable_kinds(t@) {
            None => r.is_none(),
            Some(k) => r == Some(
                if k.contains(2i64) || k.contains(4i64) {
                    i64::MAX
                } else {
                    #[verifier::truncate] (count_tags(k, k.len() as int, 0, 1) as i64)
                },
            ),
        },
{
    match t {
        Type::CallableType { arg_kinds, .. } => {
            if kinds_contain(arg_kinds, 2) || kinds_contain(arg_kinds, 4) {
                return Some(i64::MAX);
            }
            let n = count_tags_exec(arg_kinds, 0, 1);
            Some(#[verifier::truncate] (n as i64))
        },
        _ => None,
    }
}

/// `CallableType.is_generic`: whether the callable declares type
/// variables. `None` for a non-callable.
pub fn callable_is_generic(t: &Type) -> (r: Option<bool>)
    ensures
        match t@ {
            TypeModel::CallableType { variables, .. } => r == Some(variables.len() > 0),
            _ => r.is_none(),
        },
{
    match t {
        Type::CallableType { variables, .. } => {
            proof {
                lemma_types_model(variables@);
            }
            Some(variables.len() > 0)
        },
        _ => None,
    }
}


/// Both results, concatenated, when both are known.
pub open spec fn cat(a: Option<Seq<TypeModel>>, b: Option<Seq<TypeModel>>) -> Option<Seq<TypeModel>> {
    match (a, b) {
        (Some(x), Some(y)) => Some(x + y),
        _ => None,
    }
}

/// `get_type_vars`: the type variables met walking `t` in `TypeQuery`
/// order, a type variable itself not walked into. `None` at an alias.
pub open spec fn tvars(t: TypeModel) -> Option<Seq<TypeModel>>
    decreases t, 1nat,
{
    match t {
        TypeModel::TypeAliasType { .. } => None,
        TypeModel::TypeVarType { .. } => Some(seq![t]),
        TypeModel::Instance { args, .. } => tvars_seq(args),
        TypeModel::CallableType { arg_types, ret_type, .. } => cat(tvars_seq(arg_types), tvars(*ret_type)),
        TypeModel::Overloaded { items } => tvars_seq(items),
        TypeModel::TupleType { partial_fallback, items, .. } => cat(tvars(*partial_fallback), tvars_seq(items)),
        TypeModel::TypedDictType { items, .. } => tvars_pairs(items),
        TypeModel::UnionType { items, .. } => tvars_seq(items),
        TypeModel::TypeType { item, .. } => tvars(*item),
        TypeModel::UnpackType { typ, .. } => tvars(*typ),
        _ => Some(Seq::empty()),
    }
}

/// `tvars` over a list, left to right.
pub open spec fn tvars_seq(s: Seq<TypeModel>) -> Option<Seq<TypeModel>>
    decreases s, 0nat,
{
    if s.len() == 0 {
        Some(Seq::empty())
    } else {
        proof {
            assert(decreases_to!(s => s[s.len() - 1]));
        }
        cat(tvars_seq(s.drop_last()), tvars(s.last()))
    }
}

/// `tvars` over the value types of named items, left to right.
pub open spec fn tvars_pairs(s: Seq<(Seq<char>, TypeModel)>) -> Option<Seq<TypeModel>>
    decreases s, 0nat,
{
    if s.len() == 0 {
        Some(Seq::empty())
    } else {
        proof {
            assert(decreases_to!(s => s[s.len() - 1]));
        }
        cat(tvars_pairs(s.drop_last()), tvars(s.last().1))
    }
}

/// Concatenate two optional lists of types.
fn cat_exec(a: Option<Vec<Type>>, b: Option<Vec<Type>>) -> (r: Option<Vec<Type>>)
    ensures
        match r {
            None => cat(
                match a { Some(x) => Some(types_model(x@)), None => None },
                match b { Some(x) => Some(types_model(x@)), None => None },
            ).is_none(),
            Some(x) => cat(
                match a { Some(x) => Some(types_model(x@)), None => None },
                match b { Some(x) => Some(types_model(x@)), None => None },
            ) == Some(types_model(x@)),
        },
{
    match a {
        None => None,
        Some(mut x) => match b {
            None => None,
            Some(y) => {
                append_types(&mut x, &y);
                Some(x)
            },
        },
    }
}

/// `get_type_vars` (`get_all_type_vars` with `include_all`, which differs
/// only on parameter specs and type variable tuples): every type variable
/// reachable in `t`. `None` at an alias.
pub fn get_type_vars(t: &Type, include_all: bool) -> (r: Option<Vec<Type>>)
    ensures
        match r {
            None => tvars(t@).is_none(),
            Some(x) => tvars(t@) == Some(types_model(x@)),
        },
    decreases t, 1nat,
{
    match t {
        Type::TypeAliasType { .. } => None,
        Type::TypeVarType { .. } => {
            let c = clone_type(t);
            let mut out: Vec<Type> = Vec::new();
            out.push(c);
            proof {
                lemma_types_model_push(Seq::<Type>::empty(), c);
                assert(out@ =~= Seq::<Type>::empty().push(c));
            }
            Some(out)
        },
        Type::Instance { args, .. } => tvars_vec(args, include_all),
        Type::CallableType { arg_types, ret_type, .. } => {
            let a = tvars_vec(arg_types, include_all);
            let b = get_type_vars(ret_type, include_all);
            cat_exec(a, b)
        },
        Type::Overloaded { items } => tvars_vec(items, include_all),
        Type::TupleType { partial_fallback, items, .. } => {
            let a = get_type_vars(partial_fallback, include_all);
            let b = tvars_vec(items, include_all);
            cat_exec(a, b)
        },
        Type::TypedDictType { items, .. } => tvars_pairs_vec(items, include_all),
        Type::UnionType { items, .. } => tvars_vec(items, include_all),
        Type::TypeType { item, .. } => get_type_vars(item, include_all),
        Type::UnpackType { typ, .. } => get_type_vars(typ, include_all),
        _ => {
            let out: Vec<Type> = Vec::new();
            proof {
                assert(types_model(out@) =~= Seq::<TypeModel>::empty());
            }
            Some(out)
        },
    }
}

/// `get_type_vars` over a list, left to right.
fn tvars_vec(v: &Vec<Type>, include_all: bool) -> (r: Option<Vec<Type>>)
    ensures
        match r {
            None => tvars_seq(types_model(v@)).is_none(),
            Some(x) => tvars_seq(types_model(v@)) == Some(types_model(x@)),
        },
    decreases v, 0nat,
{
    proof {
        lemma_types_model(v@);
    }
    let mut out: Vec<Type> = Vec::new();
    let mut i: usize = 0;
    proof {
        assert(types_model(v@).take(0) =~= Seq::<TypeModel>::empty());
        assert(types_model(out@) =~= Seq::<TypeModel>::empty());
    }
    while i < v.len()
        invariant
            i <= v@.len(),
            types_model(v@).len() == v@.len(),
            forall|j: int| 0 <= j < v@.len() ==> #[trigger] types_model(v@)[j] == type_model(v@[j]),
            tvars_seq(types_model(v@).take(i as int)) == Some(types_model(out@)),
        decreases v@.len() - i,
    {
        proof {
            let ms = types_model(v@);
            assert(ms.take(i + 1).drop_last() =~= ms.take(i as int));
            assert(ms.take(i + 1).last() == type_model(v@[i as int]));
        }
        match get_type_vars(&v[i], include_all) {
            None => {
                proof {
                    lemma_tvars_seq_none_persists(types_model(v@), i as int + 1);
                }
                return None;
            },
            Some(found) => {
                append_types(&mut out, &found);
            },
        }
        i = i + 1;
    }
    proof {
        assert(types_model(v@).take(v@.len() as int) =~= types_model(v@));
    }
    Some(out)
}

proof fn lemma_tvars_seq_none_persists(s: Seq<TypeModel>, k: int)
    requires
        0 <= k <= s.len(),
        tvars_seq(s.take(k)).is_none(),
    ensures
        tvars_seq(s).is_none(),
    decreases s.len() - k,
{
    if k < s.len() {
        assert(s.take(k + 1).drop_last() =~= s.take(k));
        lemma_tvars_seq_none_persists(s, k + 1);
    } else {
        assert(s.take(k) =~= s);
    }
}

proof fn lemma_tvars_pairs_none_persists(s: Seq<(Seq<char>, TypeModel)>, k: int)
    requires
        0 <= k <= s.len(),
        tvars_pairs(s.take(k)).is_none(),
    ensures
        tvars_pairs(s).is_none(),
    decreases s.len() - k,
{
    if k < s.len() {
        assert(s.take(k + 1).drop_last() =~= s.take(k));
        lemma_tvars_pairs_none_persists(s, k + 1);
    } else {
        assert(s.take(k) =~= s);
    }
}

/// `get_type_vars` over the value types of named items, left to right.
fn tvars_pairs_vec(v: &Vec<(String, Type)>, include_all: bool) -> (r: Option<Vec<Type>>)
    ensures
        match r {
            None => tvars_pairs(pairs_model(v@)).is_none(),
            Some(x) => tvars_pairs(pairs_model(v@)) == Some(types_model(x@)),
        },
    decreases v, 0nat,
{
    proof {
        lemma_pairs_model(v@);
    }
    let mut out: Vec<Type> = Vec::new();
    let mut i: usize = 0;
    proof {
        assert(types_model(out@) =~= Seq::<TypeModel>::empty());
    }
    while i < v.len()
        invariant
            i <= v@.len(),
            pairs_model(v@).len() == v@.len(),
            forall|j: int| 0 <= j < v@.len() ==> #[trigger] pairs_model(v@)[j] == (v@[j].0@, type_model(v@[j].1)),
            tvars_pairs(pairs_model(v@).take(i as int)) == Some(types_model(out@)),
        decreases v@.len() - i,
    {
        proof {
            let ms = pairs_model(v@);
            assert(ms.take(i + 1).drop_last() =~= ms.take(i as int));
            assert(ms.take(i + 1).last() == (v@[i as int].0@, type_model(v@[i as int].1)));
            assert(decreases_to!(v@ => v@[i as int]));
        }
        match get_type_vars(&v[i].1, include_all) {
            None => {
                proof {
                    lemma_tvars_pairs_none_persists(pairs_model(v@), i as int + 1);
                }
                return None;
            },
            Some(found) => {
                append_types(&mut out, &found);
            },
        }
        i = i + 1;
    }
    proof {
        assert(pairs_model(v@).take(v@.len() as int) =~= pairs_model(v@));
    }
    Some(out)
}


/// `bind_self` on its non-generic path: the method with its first
/// parameter dropped and marked bound. `None` for a non-callable, a
/// callable without parameters, one whose first parameter is `*args` or
/// `**kwargs`, and a generic callable, whose binding infers type arguments.
pub open spec fn bind_self_spec(t: TypeModel) -> Option<TypeModel> {
    match t {
        TypeModel::CallableType { arg_types, arg_kinds, variables, .. } => if arg_types.len() == 0 || arg_kinds.len() == 0
            || arg_kinds[0] == 2 || arg_kinds[0] == 4 || variables.len() > 0 {
            None
        } else {
            Some(strip_self_spec(t))
        },
        _ => None,
    }
}

/// `bind_self`: strip the first parameter of a method and mark it bound.
pub fn bind_self(t: &Type) -> (r: Option<Type>)
    ensures
        match r {
            None => bind_self_spec(t@).is_none(),
            Some(x) => bind_self_spec(t@) == Some(x@),
        },
{
    match t {
        Type::CallableType { arg_types, arg_kinds, variables, .. } => {
            proof {
                lemma_types_model(arg_types@);
                lemma_types_model(variables@);
            }
            if arg_types.len() == 0 || arg_kinds.len() == 0 || arg_kinds[0] == 2 || arg_kinds[0] == 4 || variables.len() > 0 {
                None
            } else {
                Some(strip_self(t))
            }
        },
        _ => None,
    }
}


/// The settings of a subtype question.
#[derive(Debug, Clone, Copy, Default, PartialEq, Eq)]
pub struct SubtypeContext {
    /// `None` is a subtype only of `None`, `object` and `Any` (or of
    /// everything, when off).
    pub strict_optional: bool,
    /// Promotions (`int` to `float` and the like) do not count.
    pub ignore_promotions: bool,
    /// Type arguments are not compared.
    pub ignore_type_params: bool,
}

/// The heads the subtype engine compares: `Any`, `Never`, `None` and the
/// class of an instance without a last known value or extra attributes
/// (`atom_of` further asks for no type arguments).
pub enum Atom {
    Any,
    Never,
    NoneT,
    Class(Seq<char>),
}

/// The atom a type is, if it is one.
pub open spec fn atom_of(t: TypeModel) -> Option<Atom> {
    match t {
        TypeModel::AnyType { .. } => Some(Atom::Any),
        TypeModel::UninhabitedType { .. } => Some(Atom::Never),
        TypeModel::NoneType => Some(Atom::NoneT),
        TypeModel::Instance { type_ref, args, last_known_value, extra_attrs } => if args.len() == 0
            && last_known_value.is_none() && extra_attrs.is_none() {
            Some(Atom::Class(type_ref))
        } else {
            None
        },
        _ => None,
    }
}

/// Whether class `c` is known not to be a protocol: `None` when it has no
/// snapshot or is one (a protocol is matched structurally, which is not
/// decided here).
pub open spec fn plain_class_verdict(r: TypeResolver, c: Seq<char>) -> Option<bool> {
    match r.class_of(c) {
        None => None,
        Some(cs) => if cs.is_protocol { None } else { Some(false) },
    }
}

/// Whether atom `l` is a subtype of atom `rt` (a proper subtype when
/// `proper`): `Any` is below and above everything, but as a proper
/// subtype only `Any` is below `Any` and `Any` only below `Any`; `Never` is
/// below everything; `None` is below `None`, `object` and, without strict
/// optional, everything; a class is below the classes of its MRO, and
/// with an `Any` base below everything but `None`. `None` where a
/// promotion or a protocol could decide otherwise, or a snapshot is
/// missing.
pub open spec fn atom_sub(r: TypeResolver, l: Atom, rt: Atom, ctx: SubtypeContext, proper: bool) -> Option<bool> {
    match (l, rt) {
        (Atom::Any, rt) => if proper {
            Some(rt is Any)
        } else {
            Some(true)
        },
        (Atom::Never, _) => Some(true),
        (Atom::NoneT, Atom::Any) => if proper {
            Some(!ctx.strict_optional)
        } else {
            Some(true)
        },
        (_, Atom::Any) => Some(!proper),
        (Atom::NoneT, Atom::NoneT) => Some(true),
        (Atom::NoneT, Atom::Never) => Some(!ctx.strict_optional),
        (Atom::NoneT, Atom::Class(c)) => if !ctx.strict_optional || c == "builtins.object"@ {
            Some(true)
        } else {
            plain_class_verdict(r, c)
        },
        (Atom::Class(lc), rt) => match r.class_of(lc) {
            None => None,
            Some(ls) => if !proper && ls.fallback_to_any {
                Some(!(rt is NoneT))
            } else {
                match rt {
                    Atom::Class(rc) => if ls.has_base.has(rc) {
                        Some(true)
                    } else if !ctx.ignore_promotions && ls.promote@.len() > 0 {
                        None
                    } else {
                        plain_class_verdict(r, rc)
                    },
                    _ => Some(false),
                }
            },
        },
    }
}

/// `Some(true)` when some verdict is true, `Some(false)` when all are
/// false, `None` otherwise.
pub open spec fn any_verdict(v: Seq<Option<bool>>) -> Option<bool> {
    if exists|i: int| 0 <= i < v.len() && v[i] == Some(true) {
        Some(true)
    } else if forall|i: int| 0 <= i < v.len() ==> v[i] == Some(false) {
        Some(false)
    } else {
        None
    }
}

/// `Some(false)` when some verdict is false, `Some(true)` when all are
/// true, `None` otherwise.
pub open spec fn all_verdict(v: Seq<Option<bool>>) -> Option<bool> {
    if exists|i: int| 0 <= i < v.len() && v[i] == Some(false) {
        Some(false)
    } else if forall|i: int| 0 <= i < v.len() ==> v[i] == Some(true) {
        Some(true)
    } else {
        None
    }
}

/// The head of a type for the nominal engine: its atom, or for an instance
/// without a last known value or extra attributes, its class whatever its
/// type arguments.
pub open spec fn head_of(t: TypeModel) -> Option<Atom> {
    match t {
        TypeModel::Instance { type_ref, last_known_value, extra_attrs, .. } => if last_known_value.is_none()
            && extra_attrs.is_none() {
            Some(Atom::Class(type_ref))
        } else {
            None
        },
        _ => atom_of(t),
    }
}

/// The type arguments of an instance; empty for any other type.
pub open spec fn inst_args(t: TypeModel) -> Seq<TypeModel> {
    match t {
        TypeModel::Instance { args, .. } => args,
        _ => Seq::empty(),
    }
}

/// Whether `t` is the ambiguous `Never` of an empty collection literal.
pub open spec fn ambiguous_never(t: TypeModel) -> bool {
    t matches TypeModel::UninhabitedType { ambiguous } && ambiguous
}

/// Three-valued "and": false when either is false, true when both are.
pub open spec fn and3(a: Option<bool>, b: Option<bool>) -> Option<bool> {
    if a == Some(false) || b == Some(false) {
        Some(false)
    } else if a == Some(true) && b == Some(true) {
        Some(true)
    } else {
        None
    }
}

/// Three-valued "or": true when either is true, false when both are.
pub open spec fn or3(a: Option<bool>, b: Option<bool>) -> Option<bool> {
    if a == Some(true) || b == Some(true) {
        Some(true)
    } else if a == Some(false) && b == Some(false) {
        Some(false)
    } else {
        None
    }
}

/// The verdict on one pair of type arguments, for a class type variable
/// of `variance` (0 invariant, 1 covariant, 2 contravariant, 3 not yet
/// inferred) and `kind` (0 type variable, 1 parameter spec, 2 type variable
/// tuple): `fw` says whether the left argument is below the right one, `bw`
/// the other way round, `same` whether they pass the same-type fast path.
/// An ambiguous `Never` on the left, a parameter spec and a variance not
/// yet inferred count as covariant; an invariant pair must be equivalent
/// (the same type, for a proper subtype). `None` for a type variable
/// tuple.
pub open spec fn param_verdict(
    variance: i64,
    kind: i64,
    ambiguous_left: bool,
    proper: bool,
    same: bool,
    fw: Option<bool>,
    bw: Option<bool>,
) -> Option<bool> {
    if kind == 2 {
        None
    } else if kind == 1 || variance == 1 || variance == 3 || (variance == 0 && ambiguous_left) {
        fw
    } else if variance == 2 {
        bw
    } else if variance == 0 {
        if proper && same {
            Some(true)
        } else {
            and_then_verdict(fw, bw)
        }
    } else {
        None
    }
}

/// The first `k` items of a union on the left, each below `rt`.
pub open spec fn all_items_below(
    r: TypeResolver,
    items: Seq<TypeModel>,
    rt: TypeModel,
    ctx: SubtypeContext,
    proper: bool,
    fuel: nat,
    k: int,
) -> Option<bool>
    decreases fuel, k,
{
    if k <= 0 {
        Some(true)
    } else {
        and3(all_items_below(r, items, rt, ctx, proper, fuel, k - 1), sub_fuel(r, items[k - 1], rt, ctx, proper, fuel))
    }
}

/// `l` below one of the first `k` items of a union on the right.
pub open spec fn below_some_item(
    r: TypeResolver,
    l: TypeModel,
    items: Seq<TypeModel>,
    ctx: SubtypeContext,
    proper: bool,
    fuel: nat,
    k: int,
) -> Option<bool>
    decreases fuel, k,
{
    if k <= 0 {
        Some(false)
    } else {
        or3(below_some_item(r, l, items, ctx, proper, fuel, k - 1), sub_fuel(r, l, items[k - 1], ctx, proper, fuel))
    }
}

/// The first `k` type argument pairs of `m` (what the left instance
/// presents to the right class) and `ra`, each by `param_verdict` with the
/// right class's type variables `tv`.
pub open spec fn args_below(
    r: TypeResolver,
    m: Seq<TypeModel>,
    ra: Seq<TypeModel>,
    tv: Seq<(String, i64, i64)>,
    ctx: SubtypeContext,
    proper: bool,
    fuel: nat,
    k: int,
) -> Option<bool>
    decreases fuel, k,
{
    if k <= 0 {
        Some(true)
    } else {
        and3(
            args_below(r, m, ra, tv, ctx, proper, fuel, k - 1),
            param_verdict(
                tv[k - 1].1,
                tv[k - 1].2,
                ambiguous_never(m[k - 1]),
                proper,
                fast_same_instance(m[k - 1], ra[k - 1]),
                sub_fuel(r, m[k - 1], ra[k - 1], ctx, proper, fuel),
                sub_fuel(r, ra[k - 1], m[k - 1], ctx, proper, fuel),
            ),
        )
    }
}

/// Whether a tuple's partial fallback is plain `builtins.tuple` (not a
/// named tuple).
pub open spec fn plain_tuple_fallback(t: TypeModel) -> bool {
    t matches TypeModel::Instance { type_ref, last_known_value, extra_attrs, .. } && type_ref == "builtins.tuple"@
        && last_known_value.is_none() && extra_attrs.is_none()
}

/// Whether no item is an unpacked (variadic) item.
pub open spec fn no_unpack(items: Seq<TypeModel>) -> bool {
    forall|i: int| 0 <= i < items.len() ==> !(#[trigger] items[i] is UnpackType)
}

/// The first `k` items of two tuples, each below its counterpart.
pub open spec fn items_below(
    r: TypeResolver,
    xs: Seq<TypeModel>,
    ys: Seq<TypeModel>,
    ctx: SubtypeContext,
    proper: bool,
    fuel: nat,
    k: int,
) -> Option<bool>
    decreases fuel, k,
{
    if k <= 0 {
        Some(true)
    } else {
        and3(items_below(r, xs, ys, ctx, proper, fuel, k - 1), sub_fuel(r, xs[k - 1], ys[k - 1], ctx, proper, fuel))
    }
}

/// Whether a callable's fallback is an instance of a class that is not a
/// metaclass (so the callable is not a type object).
pub open spec fn plain_fallback(r: TypeResolver, fb: TypeModel) -> bool {
    fb matches TypeModel::Instance { type_ref, .. } && r.class_of(type_ref) matches Some(s) && !snapshot_is_metaclass(s)
}

/// Whether a callable is one the engine compares: every argument
/// positional, no type variables, no `...` arguments, no type guard or
/// `TypeIs`, none of the concatenation, unpacked-kwargs or imprecise-kinds
/// markers, and not a type object.
pub open spec fn simple_callable(r: TypeResolver, t: TypeModel) -> bool {
    match t {
        TypeModel::CallableType {
            fallback,
            is_ellipsis_args,
            from_concatenate,
            imprecise_arg_kinds,
            unpack_kwargs,
            arg_types,
            arg_kinds,
            arg_names,
            variables,
            type_guard,
            type_is,
            ..
        } => {
            &&& arg_kinds.len() == arg_types.len()
            &&& arg_names.len() == arg_types.len()
            &&& forall|i: int| 0 <= i < arg_kinds.len() ==> #[trigger] arg_kinds[i] == 0
            &&& variables.len() == 0
            &&& !is_ellipsis_args && !from_concatenate && !imprecise_arg_kinds && !unpack_kwargs
            &&& type_guard.is_none() && type_is.is_none()
            &&& plain_fallback(r, *fallback)
        },
        _ => false,
    }
}

/// Whether the left callable's argument names fit the right one's: where
/// the right names a positional argument, the left names it the same.
pub open spec fn names_fit(ln: Seq<Option<Seq<char>>>, rn: Seq<Option<Seq<char>>>) -> bool {
    forall|i: int| 0 <= i < rn.len() && (#[trigger] rn[i]).is_some() ==> ln[i] == rn[i]
}

/// The number of arguments of a callable; 0 for any other type.
pub open spec fn arity(t: TypeModel) -> int {
    match t {
        TypeModel::CallableType { arg_types, .. } => arg_types.len() as int,
        _ => 0,
    }
}

/// Whether callable `l` is a subtype (a proper one when `proper`) of
/// `rt`: against another callable, when both are simple callables, they
/// must take as many arguments, the left must name each argument the right
/// names (unless either is implicit), its return type must be below the
/// right's and each right argument type below the left's; against an
/// instance of a class that is not a protocol, the left's fallback must be
/// below it. `None` otherwise.
pub open spec fn callable_sub(r: TypeResolver, l: TypeModel, rt: TypeModel, ctx: SubtypeContext, proper: bool, fuel: nat) -> Option<bool>
    decreases fuel, arity(rt) + 1,
{
    match (l, rt) {
        (
            TypeModel::CallableType { arg_types: la, arg_names: ln, ret_type: lr, implicit: li, .. },
            TypeModel::CallableType { arg_types: ra, arg_names: rn, ret_type: rr, implicit: ri, .. },
        ) => if !(simple_callable(r, l) && simple_callable(r, rt)) {
            None
        } else if la.len() != ra.len() {
            Some(false)
        } else if !(li || ri) && !names_fit(ln, rn) {
            Some(false)
        } else {
            and3(sub_fuel(r, *lr, *rr, ctx, proper, fuel), items_below(r, ra, la, ctx, proper, fuel, ra.len() as int))
        },
        (TypeModel::CallableType { fallback, .. }, TypeModel::Instance { type_ref: rc, .. }) => match r.class_of(rc) {
            Some(rs) => if rs.is_protocol {
                None
            } else {
                sub_fuel(r, *fallback, rt, ctx, proper, fuel)
            },
            None => None,
        },
        _ => None,
    }
}

/// An instance with its last known value dropped; any other type as it
/// is.
pub open spec fn strip_lkv(t: TypeModel) -> TypeModel {
    match t {
        TypeModel::Instance { type_ref, args, extra_attrs, .. } => TypeModel::Instance {
            type_ref,
            args,
            last_known_value: None,
            extra_attrs,
        },
        _ => t,
    }
}

/// Whether two literal values are equal as the values they stand for
/// (`True` equals `1`, `False` equals `0`).
pub open spec fn literal_values_equal(a: LiteralModel, b: LiteralModel) -> bool {
    match (a, b) {
        (LiteralModel::Int(x), LiteralModel::Int(y)) => x == y,
        (LiteralModel::Bool(x), LiteralModel::Bool(y)) => x == y,
        (LiteralModel::Str(x), LiteralModel::Str(y)) => x == y,
        (LiteralModel::Int(x), LiteralModel::Bool(y)) => x == if y { 1int } else { 0int },
        (LiteralModel::Bool(x), LiteralModel::Int(y)) => y == if x { 1int } else { 0int },
        _ => false,
    }
}

/// Whether a type variable's identity (raw id, meta level, namespace) is
/// that of another.
pub open spec fn same_type_var(a: TypeModel, b: TypeModel) -> bool {
    &&& a matches TypeModel::TypeVarType { raw_id: x, meta_level: mx, namespace: nx, .. }
    &&& b matches TypeModel::TypeVarType { raw_id: y, meta_level: my, namespace: ny, .. }
    &&& x == y
    &&& mx == my
    &&& nx == ny
}

/// Whether type variable `l` is a subtype of `rt`: the same type
/// variable always; otherwise when the union of its value restrictions
/// is, or its upper bound is.
pub open spec fn tv_sub(r: TypeResolver, l: TypeModel, rt: TypeModel, ctx: SubtypeContext, proper: bool, fuel: nat) -> Option<bool>
    decreases fuel, 1int,
{
    match l {
        TypeModel::TypeVarType { values, upper_bound, .. } => if same_type_var(l, rt) {
            Some(true)
        } else {
            let by_values = if values.len() == 0 {
                Some(false)
            } else {
                sub_fuel(r, make_union_spec(values), rt, ctx, proper, fuel)
            };
            or3(by_values, sub_fuel(r, *upper_bound, rt, ctx, proper, fuel))
        },
        _ => None,
    }
}

/// Whether literal `l` is a subtype of non-union `rt`: against a
/// literal, when they are equal (equal values and equal fallbacks;
/// `None` when the fallbacks are not both argument-free instances);
/// otherwise when its fallback is.
pub open spec fn lit_sub(r: TypeResolver, l: TypeModel, rt: TypeModel, ctx: SubtypeContext, proper: bool, fuel: nat) -> Option<bool>
    decreases fuel, 1int,
{
    match (l, rt) {
        (TypeModel::LiteralType { fallback: lf, value: lv }, TypeModel::LiteralType { fallback: rf, value: rv }) => if !literal_values_equal(lv, rv) {
            Some(false)
        } else {
            match (atom_of(*lf), atom_of(*rf)) {
                (Some(Atom::Class(a)), Some(Atom::Class(b))) => Some(a == b),
                _ => None,
            }
        },
        (TypeModel::LiteralType { fallback, .. }, _) => sub_fuel(r, *fallback, rt, ctx, proper, fuel),
        _ => None,
    }
}

/// Whether `type[item]` is a subtype of non-union `rt`: against another
/// `type[...]`, when the items are; against `object` or `type`, always;
/// against another class that is not a protocol, when the metaclass of
/// the item's class (a type variable's upper bound standing for it) is;
/// never against `None` or `Never`. `None` otherwise, and where a
/// snapshot or the metaclass is not known.
pub open spec fn type_sub(r: TypeResolver, l: TypeModel, rt: TypeModel, ctx: SubtypeContext, proper: bool, fuel: nat) -> Option<bool>
    decreases fuel, 1int,
{
    match (l, rt) {
        (TypeModel::TypeType { item, .. }, TypeModel::TypeType { item: ri, .. }) => sub_fuel(r, *item, *ri, ctx, proper, fuel),
        (TypeModel::TypeType { item, .. }, TypeModel::Instance { type_ref: rc, .. }) => if rc == "builtins.object"@ || rc
            == "builtins.type"@ {
            Some(true)
        } else {
            match r.class_of(rc) {
                None => None,
                Some(rs) => if rs.is_protocol {
                    None
                } else {
                    let it = match *item {
                        TypeModel::TypeVarType { upper_bound, .. } => *upper_bound,
                        x => x,
                    };
                    match it {
                        TypeModel::Instance { type_ref: ic, .. } => match r.class_of(ic) {
                            None => None,
                            Some(is) => match is.metaclass_fullname {
                                None => None,
                                Some(m) => if m@.len() == 0 {
                                    Some(false)
                                } else {
                                    sub_fuel(r, bare(m@), rt, ctx, proper, fuel)
                                },
                            },
                        },
                        _ => Some(false),
                    }
                },
            }
        },
        (TypeModel::TypeType { .. }, TypeModel::NoneType) => Some(false),
        (TypeModel::TypeType { .. }, TypeModel::UninhabitedType { .. }) => Some(false),
        _ => None,
    }
}

/// Whether atom `la` (`Any`, `Never` or `None`) is a subtype of a type
/// with no atom head (neither a union nor an alias nor an unpacked item
/// decided here): `Any` except as a proper subtype, `Never` always, and
/// `None` only without strict optional; an instance is below a type
/// variable or a literal only when its class has an `Any` base (and not
/// as a proper subtype). `None` otherwise (an instance on the right, a
/// class against other shapes, a class without a snapshot).
pub open spec fn atom_over(r: TypeResolver, la: Atom, rt: TypeModel, ctx: SubtypeContext, proper: bool) -> Option<bool> {
    if rt is TypeAliasType || rt is UnpackType || rt is UnionType || rt is Instance {
        None
    } else {
        match la {
            Atom::Any => Some(!proper),
            Atom::Never => Some(true),
            Atom::NoneT => Some(!ctx.strict_optional),
            Atom::Class(c) => if rt is TypeVarType || rt is LiteralType {
                match r.class_of(c) {
                    None => None,
                    Some(cs) => Some(!proper && cs.fallback_to_any),
                }
            } else {
                None
            },
        }
    }
}

/// Whether `left[la]` is a subtype (a proper one when `proper`) of
/// `right[ra]`, two instances of which at least one has type arguments:
/// with an `Any` base always (not as a proper subtype); when `rc` is in the
/// MRO of `lc`, the arguments `left` presents to `rc` are compared with
/// `ra` pair by pair, by the variance of `rc`'s type variables (not at all
/// when type parameters are ignored); otherwise false, unless `rc` is a
/// protocol. `None` where a snapshot is missing, the arguments cannot be
/// mapped or do not line up, a promotion could decide otherwise, or an
/// argument pair is not decided.
pub open spec fn inst_sub(
    r: TypeResolver,
    lc: Seq<char>,
    la: Seq<TypeModel>,
    rc: Seq<char>,
    ra: Seq<TypeModel>,
    ctx: SubtypeContext,
    proper: bool,
    fuel: nat,
) -> Option<bool>
    decreases fuel, ra.len() + 1,
{
    match r.class_of(lc) {
        None => None,
        Some(ls) => {
            let promotes = !ctx.ignore_promotions && ls.promote@.len() > 0;
            if !proper && ls.fallback_to_any {
                Some(true)
            } else if !ls.has_base.has(rc) {
                if promotes {
                    None
                } else {
                    plain_class_verdict(r, rc)
                }
            } else {
                let nominal = match (map_to_super_spec(r, lc, la, rc), r.class_of(rc)) {
                    (Some(m), Some(rs)) => if ctx.ignore_type_params {
                        Some(true)
                    } else if m.len() != ra.len() || rs.type_vars_with_variance@.len() != ra.len() {
                        None
                    } else {
                        args_below(r, m, ra, rs.type_vars_with_variance@, ctx, proper, fuel, ra.len() as int)
                    },
                    _ => None,
                };
                if nominal == Some(false) && promotes {
                    None
                } else {
                    nominal
                }
            }
        },
    }
}

/// Some of the first `k` items of an overloaded callable is below `rt`.
pub open spec fn some_item_below(
    r: TypeResolver,
    items: Seq<TypeModel>,
    rt: TypeModel,
    ctx: SubtypeContext,
    proper: bool,
    fuel: nat,
    k: int,
) -> Option<bool>
    decreases fuel, k,
{
    if k <= 0 {
        Some(false)
    } else {
        or3(some_item_below(r, items, rt, ctx, proper, fuel, k - 1), sub_fuel(r, items[k - 1], rt, ctx, proper, fuel))
    }
}

/// `l` is below each of the first `k` items of an overloaded callable.
pub open spec fn below_each_item(
    r: TypeResolver,
    l: TypeModel,
    items: Seq<TypeModel>,
    ctx: SubtypeContext,
    proper: bool,
    fuel: nat,
    k: int,
) -> Option<bool>
    decreases fuel, k,
{
    if k <= 0 {
        Some(true)
    } else {
        and3(below_each_item(r, l, items, ctx, proper, fuel, k - 1), sub_fuel(r, l, items[k - 1], ctx, proper, fuel))
    }
}

/// Whether `l` is a subtype (a proper one when `proper`) of `rt`, looking
/// at most `fuel` levels deep: everything but an unpacked item (or an
/// alias) is a non-proper subtype of `Any` and of an erased type; a union
/// on the left must have every item below `rt`; anything else is below a
/// union when it is below some item;
/// two plain tuples without unpacked items must have as many items, each
/// below its counterpart; an overloaded callable is below a callable
/// when one of its items is, and below a class that is not a protocol
/// when its first item's fallback is; a callable is below an overloaded
/// one when it is below each item; a callable against a callable or an instance
/// goes by `callable_sub`; two instances of which one has type arguments
/// go by `inst_sub`; atoms by `atom_sub`. `None` for the shapes not
/// decided here (overloads, named or variadic tuples, typed dicts,
/// literals, type variables, aliases and the rest) and when the fuel runs
/// out.
pub open spec fn sub_fuel(r: TypeResolver, l: TypeModel, rt: TypeModel, ctx: SubtypeContext, proper: bool, fuel: nat) -> Option<bool>
    decreases fuel, 0int,
{
    if fuel == 0 {
        None
    } else if !proper && (rt is AnyType || rt is ErasedType) && !(l is UnpackType) && !(l is TypeAliasType) {
        Some(true)
    } else {
        match l {
            TypeModel::UnionType { items, .. } => all_items_below(r, items, rt, ctx, proper, (fuel - 1) as nat, items.len() as int),
            _ => match rt {
                TypeModel::UnionType { items, .. } => if l is TypeVarType {
                    or3(
                        below_some_item(r, l, items, ctx, proper, (fuel - 1) as nat, items.len() as int),
                        tv_sub(r, l, rt, ctx, proper, (fuel - 1) as nat),
                    )
                } else {
                    below_some_item(r, l, items, ctx, proper, (fuel - 1) as nat, items.len() as int)
                },
                _ => match (l, rt) {
                    (
                        TypeModel::TupleType { partial_fallback: lf, items: li, .. },
                        TypeModel::TupleType { partial_fallback: rf, items: ri, .. },
                    ) => if !(plain_tuple_fallback(*lf) && plain_tuple_fallback(*rf) && no_unpack(li) && no_unpack(ri)) {
                        None
                    } else if li.len() != ri.len() {
                        Some(false)
                    } else {
                        items_below(r, li, ri, ctx, proper, (fuel - 1) as nat, li.len() as int)
                    },
                    (TypeModel::Overloaded { items }, TypeModel::CallableType { .. }) => some_item_below(
                        r,
                        items,
                        rt,
                        ctx,
                        proper,
                        (fuel - 1) as nat,
                        items.len() as int,
                    ),
                    (TypeModel::Overloaded { items }, TypeModel::Instance { type_ref: rc, .. }) => if items.len() > 0 {
                        match (items[0], r.class_of(rc)) {
                            (TypeModel::CallableType { fallback, .. }, Some(rs)) => if rs.is_protocol {
                                None
                            } else {
                                sub_fuel(r, *fallback, rt, ctx, proper, (fuel - 1) as nat)
                            },
                            _ => None,
                        }
                    } else {
                        None
                    },
                    (TypeModel::CallableType { .. }, TypeModel::Overloaded { items }) => below_each_item(
                        r,
                        l,
                        items,
                        ctx,
                        proper,
                        (fuel - 1) as nat,
                        items.len() as int,
                    ),
                    (TypeModel::CallableType { .. }, TypeModel::CallableType { .. }) => callable_sub(
                        r,
                        l,
                        rt,
                        ctx,
                        proper,
                        (fuel - 1) as nat,
                    ),
                    (TypeModel::CallableType { .. }, TypeModel::Instance { .. }) => callable_sub(
                        r,
                        l,
                        rt,
                        ctx,
                        proper,
                        (fuel - 1) as nat,
                    ),
                    (TypeModel::TypeVarType { .. }, _) => tv_sub(r, l, rt, ctx, proper, (fuel - 1) as nat),
                    (TypeModel::LiteralType { .. }, _) => lit_sub(r, l, rt, ctx, proper, (fuel - 1) as nat),
                    (TypeModel::TypeType { .. }, _) => type_sub(r, l, rt, ctx, proper, (fuel - 1) as nat),
                    (TypeModel::Instance { last_known_value: Some(v), .. }, _) => if rt is LiteralType {
                        sub_fuel(r, *v, rt, ctx, proper, (fuel - 1) as nat)
                    } else {
                        sub_fuel(r, strip_lkv(l), rt, ctx, proper, (fuel - 1) as nat)
                    },
                    (_, TypeModel::Instance { last_known_value: Some(_), .. }) => sub_fuel(
                        r,
                        l,
                        strip_lkv(rt),
                        ctx,
                        proper,
                        (fuel - 1) as nat,
                    ),
                    _ => match (head_of(l), head_of(rt)) {
                        (Some(Atom::Class(lc)), Some(Atom::Class(rc))) => if inst_args(l).len() == 0 && inst_args(
                            rt,
                        ).len() == 0 {
                            atom_sub(r, Atom::Class(lc), Atom::Class(rc), ctx, proper)
                        } else {
                            inst_sub(r, lc, inst_args(l), rc, inst_args(rt), ctx, proper, (fuel - 1) as nat)
                        },
                        (Some(la), Some(ra)) => atom_sub(r, la, ra, ctx, proper),
                        (Some(la), None) => atom_over(r, la, rt, ctx, proper),
                        _ => None,
                    },
                },
            },
        }
    }
}

/// How deep the subtype engine looks: deep enough for any type written by
/// hand.
pub open spec fn sub_depth() -> nat {
    64
}

/// Whether `l` is a subtype (a proper one when `proper`) of `rt`.
pub open spec fn sub_spec(r: TypeResolver, l: TypeModel, rt: TypeModel, ctx: SubtypeContext, proper: bool) -> Option<bool> {
    sub_fuel(r, l, rt, ctx, proper, sub_depth())
}

/// An atom as executable code holds it, the class name borrowed.
pub enum AtomExec<'a> {
    Any,
    Never,
    NoneT,
    Class(&'a String),
}

pub(crate) fn atom_exec(t: &Type) -> (r: Option<AtomExec<'_>>)
    ensures
        match r {
            None => atom_of(t@).is_none(),
            Some(AtomExec::Any) => atom_of(t@) == Some(Atom::Any),
            Some(AtomExec::Never) => atom_of(t@) == Some(Atom::Never),
            Some(AtomExec::NoneT) => atom_of(t@) == Some(Atom::NoneT),
            Some(AtomExec::Class(c)) => atom_of(t@) == Some(Atom::Class(c@)),
        },
{
    match t {
        Type::AnyType { .. } => Some(AtomExec::Any),
        Type::UninhabitedType { .. } => Some(AtomExec::Never),
        Type::NoneType => Some(AtomExec::NoneT),
        Type::Instance { type_ref, args, last_known_value, extra_attrs } => {
            proof {
                lemma_types_model(args@);
                assert(opt_type_model(None) == None::<Box<TypeModel>>);
                assert(crate::wire::extra_model(None) == None::<crate::wire::ExtraAttrsModel>);
                assert(t@ matches TypeModel::Instance { type_ref: tr, args: a, last_known_value: l, extra_attrs: e }
                    && tr == type_ref@ && a == types_model(args@) && l == opt_type_model(*last_known_value)
                    && e == crate::wire::extra_model(*extra_attrs));
            }
            if args.len() == 0 && last_known_value.is_none() && extra_attrs.is_none() {
                Some(AtomExec::Class(type_ref))
            } else {
                None
            }
        },
        _ => None,
    }
}

fn plain_class_verdict_exec(r: &TypeResolver, c: &str) -> (v: Option<bool>)
    ensures
        v == plain_class_verdict(*r, c@),
{
    match r.get(c) {
        None => None,
        Some(cs) => if cs.is_protocol { None } else { Some(false) },
    }
}

fn atom_sub_exec(r: &TypeResolver, l: &AtomExec, rt: &AtomExec, ctx: &SubtypeContext, proper: bool) -> (v: Option<bool>)
    ensures
        v == atom_sub(*r, atom_model(*l), atom_model(*rt), *ctx, proper),
{
    match (l, rt) {
        (AtomExec::Any, rt) => if proper {
            Some(matches!(rt, AtomExec::Any))
        } else {
            Some(true)
        },
        (AtomExec::Never, _) => Some(true),
        (AtomExec::NoneT, AtomExec::Any) => if proper {
            Some(!ctx.strict_optional)
        } else {
            Some(true)
        },
        (_, AtomExec::Any) => Some(!proper),
        (AtomExec::NoneT, AtomExec::NoneT) => Some(true),
        (AtomExec::NoneT, AtomExec::Never) => Some(!ctx.strict_optional),
        (AtomExec::NoneT, AtomExec::Class(c)) => if !ctx.strict_optional || str_eq(c.as_str(), "builtins.object") {
            Some(true)
        } else {
            plain_class_verdict_exec(r, c.as_str())
        },
        (AtomExec::Class(lc), rt) => match r.get(lc.as_str()) {
            None => None,
            Some(ls) => if !proper && ls.fallback_to_any {
                Some(!matches!(rt, AtomExec::NoneT))
            } else {
                match rt {
                    AtomExec::Class(rc) => if ls.has_base.contains(rc.as_str()) {
                        Some(true)
                    } else if !ctx.ignore_promotions && ls.promote.len() > 0 {
                        None
                    } else {
                        plain_class_verdict_exec(r, rc.as_str())
                    },
                    _ => Some(false),
                }
            },
        },
    }
}

/// The model of an exec atom.
pub open spec fn atom_model(a: AtomExec) -> Atom {
    match a {
        AtomExec::Any => Atom::Any,
        AtomExec::Never => Atom::Never,
        AtomExec::NoneT => Atom::NoneT,
        AtomExec::Class(c) => Atom::Class(c@),
    }
}


pub(crate) fn head_exec(t: &Type) -> (r: Option<AtomExec<'_>>)
    ensures
        match r {
            None => head_of(t@).is_none(),
            Some(a) => head_of(t@) == Some(atom_model(a)),
        },
{
    match t {
        Type::Instance { type_ref, args, last_known_value, extra_attrs } => {
            proof {
                lemma_types_model(args@);
                assert(opt_type_model(None) == None::<Box<TypeModel>>);
                assert(crate::wire::extra_model(None) == None::<crate::wire::ExtraAttrsModel>);
                assert(t@ matches TypeModel::Instance { type_ref: tr, args: a, last_known_value: l, extra_attrs: e }
                    && tr == type_ref@ && a == types_model(args@) && l == opt_type_model(*last_known_value)
                    && e == crate::wire::extra_model(*extra_attrs));
            }
            if last_known_value.is_none() && extra_attrs.is_none() {
                Some(AtomExec::Class(type_ref))
            } else {
                None
            }
        },
        _ => {
            let a = atom_exec(t);
            proof {
                assert(head_of(t@) == atom_of(t@));
            }
            match a {
                None => None,
                Some(x) => Some(x),
            }
        },
    }
}

/// The same-type fast path: two instances of one class, neither with type
/// arguments.
fn fast_same_exec(a: &Type, b: &Type) -> (r: bool)
    ensures
        r == fast_same_instance(a@, b@),
{
    match (a, b) {
        (Type::Instance { type_ref: x, args: aa, .. }, Type::Instance { type_ref: y, args: ba, .. }) => {
            proof {
                lemma_types_model(aa@);
                lemma_types_model(ba@);
                assert(a@ matches TypeModel::Instance { type_ref: xm, args: am, .. } && xm == x@ && am == types_model(aa@));
                assert(b@ matches TypeModel::Instance { type_ref: ym, args: bm, .. } && ym == y@ && bm == types_model(ba@));
            }
            str_eq(x.as_str(), y.as_str()) && aa.len() == 0 && ba.len() == 0
        },
        _ => false,
    }
}

fn and3_exec(a: Option<bool>, b: Option<bool>) -> (r: Option<bool>)
    ensures
        r == and3(a, b),
{
    if a == Some(false) || b == Some(false) {
        Some(false)
    } else if a == Some(true) && b == Some(true) {
        Some(true)
    } else {
        None
    }
}

fn or3_exec(a: Option<bool>, b: Option<bool>) -> (r: Option<bool>)
    ensures
        r == or3(a, b),
{
    if a == Some(true) || b == Some(true) {
        Some(true)
    } else if a == Some(false) && b == Some(false) {
        Some(false)
    } else {
        None
    }
}

fn inst_sub_exec(
    r: &TypeResolver,
    lc: &str,
    la: &Vec<Type>,
    rc: &str,
    ra: &Vec<Type>,
    ctx: &SubtypeContext,
    proper: bool,
    fuel: u64,
) -> (v: Option<bool>)
    ensures
        v == inst_sub(*r, lc@, types_model(la@), rc@, types_model(ra@), *ctx, proper, fuel as nat),
    decreases fuel, ra@.len() + 1,
{
    proof {
        lemma_types_model(ra@);
    }
    let ls = match r.get(lc) {
        None => {
            return None;
        },
        Some(ls) => ls,
    };
    let promotes = !ctx.ignore_promotions && ls.promote.len() > 0;
    if !proper && ls.fallback_to_any {
        return Some(true);
    }
    if !ls.has_base.contains(rc) {
        return if promotes {
            None
        } else {
            plain_class_verdict_exec(r, rc)
        };
    }
    let las = la.as_slice();
    let m_opt = map_instance_to_supertype(lc, las, rc, r);
    let rs_opt = r.get(rc);
    proof {
        assert(las@ == la@);
    }
    let nominal: Option<bool> = match (m_opt, rs_opt) {
        (Some(m), Some(rs)) => {
            proof {
                lemma_types_model(m@);
            }
            if ctx.ignore_type_params {
                Some(true)
            } else if m.len() != ra.len() || rs.type_vars_with_variance.len() != ra.len() {
                None
            } else {
                let tv = &rs.type_vars_with_variance;
                let ghost mm = types_model(m@);
                let ghost rm = types_model(ra@);
                let mut acc: Option<bool> = Some(true);
                let mut i: usize = 0;
                while i < ra.len()
                    invariant
                        i <= ra@.len(),
                        m@.len() == ra@.len(),
                        tv@.len() == ra@.len(),
                        mm == types_model(m@),
                        rm == types_model(ra@),
                        mm.len() == m@.len(),
                        rm.len() == ra@.len(),
                        forall|j: int| 0 <= j < m@.len() ==> #[trigger] mm[j] == m@[j]@,
                        forall|j: int| 0 <= j < ra@.len() ==> #[trigger] rm[j] == ra@[j]@,
                        acc == args_below(*r, mm, rm, tv@, *ctx, proper, fuel as nat, i as int),
                    decreases ra@.len() - i,
                {
                    let variance = tv[i].1;
                    let kind = tv[i].2;
                    let amb = match &m[i] {
                        Type::UninhabitedType { ambiguous } => *ambiguous,
                        _ => false,
                    };
                    proof {
                        assert(amb == ambiguous_never(mm[i as int]));
                    }
                    let v = if kind == 2 {
                        None
                    } else if kind == 1 || variance == 1 || variance == 3 || (variance == 0 && amb) {
                        sub_fuel_exec(r, &m[i], &ra[i], ctx, proper, fuel)
                    } else if variance == 2 {
                        sub_fuel_exec(r, &ra[i], &m[i], ctx, proper, fuel)
                    } else if variance == 0 {
                        if proper && fast_same_exec(&m[i], &ra[i]) {
                            Some(true)
                        } else {
                            match sub_fuel_exec(r, &m[i], &ra[i], ctx, proper, fuel) {
                                Some(false) => Some(false),
                                Some(true) => sub_fuel_exec(r, &ra[i], &m[i], ctx, proper, fuel),
                                None => None,
                            }
                        }
                    } else {
                        None
                    };
                    proof {
                        assert(v == param_verdict(
                            tv@[i as int].1,
                            tv@[i as int].2,
                            ambiguous_never(mm[i as int]),
                            proper,
                            fast_same_instance(mm[i as int], rm[i as int]),
                            sub_fuel(*r, mm[i as int], rm[i as int], *ctx, proper, fuel as nat),
                            sub_fuel(*r, rm[i as int], mm[i as int], *ctx, proper, fuel as nat),
                        ));
                    }
                    acc = and3_exec(acc, v);
                    i = i + 1;
                }
                acc
            }
        },
        _ => None,
    };
    if nominal == Some(false) && promotes {
        None
    } else {
        nominal
    }
}

pub(crate) fn plain_tuple_fallback_exec(t: &Type) -> (b: bool)
    ensures
        b == plain_tuple_fallback(t@),
{
    match t {
        Type::Instance { type_ref, args, last_known_value, extra_attrs } => {
            proof {
                lemma_types_model(args@);
                assert(opt_type_model(None) == None::<Box<TypeModel>>);
                assert(crate::wire::extra_model(None) == None::<crate::wire::ExtraAttrsModel>);
                assert(t@ matches TypeModel::Instance { type_ref: tr, last_known_value: l, extra_attrs: e, .. }
                    && tr == type_ref@ && l == opt_type_model(*last_known_value)
                    && e == crate::wire::extra_model(*extra_attrs));
            }
            str_eq(type_ref.as_str(), "builtins.tuple") && last_known_value.is_none() && extra_attrs.is_none()
        },
        _ => false,
    }
}

pub(crate) fn no_unpack_exec(items: &Vec<Type>) -> (b: bool)
    ensures
        b == no_unpack(types_model(items@)),
{
    proof {
        lemma_types_model(items@);
    }
    let mut i: usize = 0;
    while i < items.len()
        invariant
            i <= items@.len(),
            types_model(items@).len() == items@.len(),
            forall|j: int| 0 <= j < items@.len() ==> #[trigger] types_model(items@)[j] == items@[j]@,
            forall|j: int| 0 <= j < i ==> !(#[trigger] types_model(items@)[j] is UnpackType),
        decreases items@.len() - i,
    {
        let unpacked = match &items[i] {
            Type::UnpackType { .. } => true,
            _ => false,
        };
        if unpacked {
            assert(types_model(items@)[i as int] is UnpackType);
            return false;
        }
        i = i + 1;
    }
    true
}

fn tuple_sub_exec(
    r: &TypeResolver,
    lf: &Type,
    li: &Vec<Type>,
    rf: &Type,
    ri: &Vec<Type>,
    ctx: &SubtypeContext,
    proper: bool,
    fuel: u64,
) -> (v: Option<bool>)
    ensures
        v == (if !(plain_tuple_fallback(lf@) && plain_tuple_fallback(rf@) && no_unpack(types_model(li@)) && no_unpack(
            types_model(ri@),
        )) {
            None
        } else if types_model(li@).len() != types_model(ri@).len() {
            Some(false)
        } else {
            items_below(*r, types_model(li@), types_model(ri@), *ctx, proper, fuel as nat, types_model(li@).len() as int)
        }),
    decreases fuel, 1int,
{
    proof {
        lemma_types_model(li@);
        lemma_types_model(ri@);
    }
    if !(plain_tuple_fallback_exec(lf) && plain_tuple_fallback_exec(rf) && no_unpack_exec(li) && no_unpack_exec(ri)) {
        return None;
    }
    if li.len() != ri.len() {
        return Some(false);
    }
    let ghost xm = types_model(li@);
    let ghost ym = types_model(ri@);
    let mut acc: Option<bool> = Some(true);
    let mut i: usize = 0;
    while i < li.len()
        invariant
            i <= li@.len(),
            li@.len() == ri@.len(),
            xm == types_model(li@),
            ym == types_model(ri@),
            forall|j: int| 0 <= j < li@.len() ==> #[trigger] xm[j] == li@[j]@,
            forall|j: int| 0 <= j < ri@.len() ==> #[trigger] ym[j] == ri@[j]@,
            acc == items_below(*r, xm, ym, *ctx, proper, fuel as nat, i as int),
        decreases li@.len() - i,
    {
        let v = sub_fuel_exec(r, &li[i], &ri[i], ctx, proper, fuel);
        acc = and3_exec(acc, v);
        i = i + 1;
    }
    acc
}

fn plain_fallback_exec(r: &TypeResolver, fb: &Type) -> (b: bool)
    ensures
        b == plain_fallback(*r, fb@),
{
    match fb {
        Type::Instance { type_ref, .. } => {
            proof {
                assert(fb@ matches TypeModel::Instance { type_ref: t, .. } && t == type_ref@);
            }
            match r.get(type_ref.as_str()) {
                Some(s) => !is_metaclass(s),
                None => false,
            }
        },
        _ => false,
    }
}

fn simple_callable_exec(r: &TypeResolver, t: &Type) -> (b: bool)
    ensures
        b == simple_callable(*r, t@),
{
    match t {
        Type::CallableType {
            fallback,
            is_ellipsis_args,
            from_concatenate,
            imprecise_arg_kinds,
            unpack_kwargs,
            arg_types,
            arg_kinds,
            arg_names,
            variables,
            type_guard,
            type_is,
            ..
        } => {
            proof {
                lemma_types_model(arg_types@);
                lemma_types_model(variables@);
                assert(opt_type_model(None) == None::<Box<TypeModel>>);
                assert(t@ matches TypeModel::CallableType {
                    fallback: f,
                    is_ellipsis_args: e,
                    from_concatenate: c,
                    imprecise_arg_kinds: ik,
                    unpack_kwargs: u,
                    arg_types: at,
                    arg_kinds: ak,
                    arg_names: an,
                    variables: v,
                    type_guard: g,
                    type_is: ti,
                    ..
                } && *f == fallback@ && e == *is_ellipsis_args && c == *from_concatenate && ik == *imprecise_arg_kinds
                    && u == *unpack_kwargs && at == types_model(arg_types@) && ak == arg_kinds@
                    && an == crate::wire::opt_strs_model(arg_names@) && v == types_model(variables@)
                    && g == opt_type_model(*type_guard) && ti == opt_type_model(*type_is));
            }
            if arg_kinds.len() != arg_types.len() || arg_names.len() != arg_types.len() || variables.len() != 0 {
                return false;
            }
            if *is_ellipsis_args || *from_concatenate || *imprecise_arg_kinds || *unpack_kwargs {
                return false;
            }
            if type_guard.is_some() || type_is.is_some() {
                return false;
            }
            let mut i: usize = 0;
            while i < arg_kinds.len()
                invariant
                    i <= arg_kinds@.len(),
                    forall|j: int| 0 <= j < i ==> #[trigger] arg_kinds@[j] == 0,
                    t@ matches TypeModel::CallableType { arg_kinds: ak, .. } && ak == arg_kinds@,
                decreases arg_kinds@.len() - i,
            {
                if arg_kinds[i] != 0 {
                    return false;
                }
                i = i + 1;
            }
            plain_fallback_exec(r, fallback)
        },
        _ => false,
    }
}

fn names_fit_exec(ln: &Vec<Option<String>>, rn: &Vec<Option<String>>) -> (b: bool)
    requires
        ln@.len() == rn@.len(),
    ensures
        b == names_fit(crate::wire::opt_strs_model(ln@), crate::wire::opt_strs_model(rn@)),
{
    let ghost lm = crate::wire::opt_strs_model(ln@);
    let ghost rm = crate::wire::opt_strs_model(rn@);
    let mut i: usize = 0;
    while i < rn.len()
        invariant
            i <= rn@.len(),
            ln@.len() == rn@.len(),
            lm == crate::wire::opt_strs_model(ln@),
            rm == crate::wire::opt_strs_model(rn@),
            lm.len() == ln@.len(),
            rm.len() == rn@.len(),
            forall|j: int| 0 <= j < i && (#[trigger] rm[j]).is_some() ==> lm[j] == rm[j],
        decreases rn@.len() - i,
    {
        let ok = match (&ln[i], &rn[i]) {
            (_, None) => true,
            (Some(a), Some(b)) => str_eq(a.as_str(), b.as_str()),
            (None, Some(_)) => false,
        };
        proof {
            assert(lm[i as int] == crate::wire::opt_str_model(ln@[i as int]));
            assert(rm[i as int] == crate::wire::opt_str_model(rn@[i as int]));
        }
        if !ok {
            return false;
        }
        i = i + 1;
    }
    true
}

fn callable_sub_exec(r: &TypeResolver, l: &Type, rt: &Type, ctx: &SubtypeContext, proper: bool, fuel: u64) -> (v: Option<bool>)
    ensures
        v == callable_sub(*r, l@, rt@, *ctx, proper, fuel as nat),
    decreases fuel, arity(rt@) + 1,
{
    match (l, rt) {
        (
            Type::CallableType { arg_types: la, arg_names: ln, ret_type: lr, implicit: li, .. },
            Type::CallableType { arg_types: ra, arg_names: rn, ret_type: rr, implicit: ri, .. },
        ) => {
            proof {
                lemma_types_model(la@);
                lemma_types_model(ra@);
                assert(l@ matches TypeModel::CallableType { arg_types: a, arg_names: n, ret_type: t, implicit: i, .. }
                    && a == types_model(la@) && n == crate::wire::opt_strs_model(ln@) && *t == lr@ && i == *li);
                assert(rt@ matches TypeModel::CallableType { arg_types: a, arg_names: n, ret_type: t, implicit: i, .. }
                    && a == types_model(ra@) && n == crate::wire::opt_strs_model(rn@) && *t == rr@ && i == *ri);
                assert(arity(rt@) == ra@.len());
            }
            if !(simple_callable_exec(r, l) && simple_callable_exec(r, rt)) {
                return None;
            }
            if la.len() != ra.len() {
                return Some(false);
            }
            proof {
                assert(crate::wire::opt_strs_model(ln@).len() == ln@.len());
                assert(crate::wire::opt_strs_model(rn@).len() == rn@.len());
            }
            if !(*li || *ri) && !names_fit_exec(ln, rn) {
                return Some(false);
            }
            let ret = sub_fuel_exec(r, lr, rr, ctx, proper, fuel);
            let ghost xm = types_model(ra@);
            let ghost ym = types_model(la@);
            let mut acc: Option<bool> = Some(true);
            let mut i: usize = 0;
            while i < ra.len()
                invariant
                    i <= ra@.len(),
                    la@.len() == ra@.len(),
                    xm == types_model(ra@),
                    ym == types_model(la@),
                    arity(rt@) == ra@.len(),
                    forall|j: int| 0 <= j < ra@.len() ==> #[trigger] xm[j] == ra@[j]@,
                    forall|j: int| 0 <= j < la@.len() ==> #[trigger] ym[j] == la@[j]@,
                    acc == items_below(*r, xm, ym, *ctx, proper, fuel as nat, i as int),
                decreases ra@.len() - i,
            {
                let v = sub_fuel_exec(r, &ra[i], &la[i], ctx, proper, fuel);
                acc = and3_exec(acc, v);
                i = i + 1;
            }
            and3_exec(ret, acc)
        },
        (Type::CallableType { fallback, .. }, Type::Instance { type_ref: rc, .. }) => {
            proof {
                assert(l@ matches TypeModel::CallableType { fallback: f, .. } && *f == fallback@);
                assert(rt@ matches TypeModel::Instance { type_ref: t, .. } && t == rc@);
            }
            match r.get(rc.as_str()) {
                Some(rs) => if rs.is_protocol {
                    None
                } else {
                    sub_fuel_exec(r, fallback, rt, ctx, proper, fuel)
                },
                None => None,
            }
        },
        _ => None,
    }
}

fn literal_values_equal_exec(a: &LiteralValue, b: &LiteralValue) -> (r: bool)
    ensures
        r == literal_values_equal(literal_model(*a), literal_model(*b)),
{
    match (a, b) {
        (LiteralValue::Int(x), LiteralValue::Int(y)) => *x == *y,
        (LiteralValue::Bool(x), LiteralValue::Bool(y)) => *x == *y,
        (LiteralValue::Str(x), LiteralValue::Str(y)) => str_eq(x.as_str(), y.as_str()),
        (LiteralValue::Int(x), LiteralValue::Bool(y)) => *x == if *y { 1i64 } else { 0i64 },
        (LiteralValue::Bool(x), LiteralValue::Int(y)) => *y == if *x { 1i64 } else { 0i64 },
        _ => false,
    }
}

fn tv_sub_exec(r: &TypeResolver, l: &Type, rt: &Type, ctx: &SubtypeContext, proper: bool, fuel: u64) -> (v: Option<bool>)
    ensures
        v == tv_sub(*r, l@, rt@, *ctx, proper, fuel as nat),
    decreases fuel, 1int,
{
    match l {
        Type::TypeVarType { raw_id, meta_level, namespace, values, upper_bound, .. } => {
            proof {
                lemma_types_model(values@);
                assert(l@ matches TypeModel::TypeVarType { raw_id: x, meta_level: m, namespace: n, values: vs, upper_bound: ub, .. }
                    && x == *raw_id as int && m == *meta_level as int && n == namespace@ && vs == types_model(values@)
                    && *ub == upper_bound@);
            }
            let same = match rt {
                Type::TypeVarType { raw_id: y, meta_level: my, namespace: ny, .. } => {
                    proof {
                        assert(rt@ matches TypeModel::TypeVarType { raw_id: x, meta_level: m, namespace: n, .. }
                            && x == *y as int && m == *my as int && n == ny@);
                    }
                    *raw_id == *y && *meta_level == *my && str_eq(namespace.as_str(), ny.as_str())
                },
                _ => false,
            };
            if same {
                return Some(true);
            }
            let by_values = if values.len() == 0 {
                Some(false)
            } else {
                let u = make_union(clone_types(values));
                sub_fuel_exec(r, &u, rt, ctx, proper, fuel)
            };
            let by_bound = sub_fuel_exec(r, upper_bound, rt, ctx, proper, fuel);
            or3_exec(by_values, by_bound)
        },
        _ => None,
    }
}

fn lit_sub_exec(r: &TypeResolver, l: &Type, rt: &Type, ctx: &SubtypeContext, proper: bool, fuel: u64) -> (v: Option<bool>)
    ensures
        v == lit_sub(*r, l@, rt@, *ctx, proper, fuel as nat),
    decreases fuel, 1int,
{
    match (l, rt) {
        (Type::LiteralType { fallback: lf, value: lv }, Type::LiteralType { fallback: rf, value: rv }) => {
            proof {
                assert(l@ matches TypeModel::LiteralType { fallback: f, value: x } && *f == lf@ && x == literal_model(*lv));
                assert(rt@ matches TypeModel::LiteralType { fallback: f, value: x } && *f == rf@ && x == literal_model(*rv));
            }
            if !literal_values_equal_exec(lv, rv) {
                Some(false)
            } else {
                match (atom_exec(lf), atom_exec(rf)) {
                    (Some(AtomExec::Class(a)), Some(AtomExec::Class(b))) => Some(str_eq(a.as_str(), b.as_str())),
                    _ => None,
                }
            }
        },
        (Type::LiteralType { fallback, .. }, _) => {
            proof {
                assert(l@ matches TypeModel::LiteralType { fallback: f, .. } && *f == fallback@);
            }
            sub_fuel_exec(r, fallback, rt, ctx, proper, fuel)
        },
        _ => None,
    }
}

fn type_sub_exec(r: &TypeResolver, l: &Type, rt: &Type, ctx: &SubtypeContext, proper: bool, fuel: u64) -> (v: Option<bool>)
    ensures
        v == type_sub(*r, l@, rt@, *ctx, proper, fuel as nat),
    decreases fuel, 1int,
{
    match (l, rt) {
        (Type::TypeType { item, .. }, Type::TypeType { item: ri, .. }) => {
            proof {
                assert(l@ matches TypeModel::TypeType { item: i, .. } && *i == item@);
                assert(rt@ matches TypeModel::TypeType { item: i, .. } && *i == ri@);
            }
            sub_fuel_exec(r, item, ri, ctx, proper, fuel)
        },
        (Type::TypeType { item, .. }, Type::Instance { type_ref: rc, .. }) => {
            proof {
                assert(l@ matches TypeModel::TypeType { item: i, .. } && *i == item@);
                assert(rt@ matches TypeModel::Instance { type_ref: t, .. } && t == rc@);
            }
            if str_eq(rc.as_str(), "builtins.object") || str_eq(rc.as_str(), "builtins.type") {
                return Some(true);
            }
            let rs = match r.get(rc.as_str()) {
                None => {
                    return None;
                },
                Some(rs) => rs,
            };
            if rs.is_protocol {
                return None;
            }
            let it: &Type = match &**item {
                Type::TypeVarType { upper_bound, .. } => {
                    proof {
                        assert(item@ matches TypeModel::TypeVarType { upper_bound: ub, .. } && *ub == upper_bound@);
                    }
                    upper_bound
                },
                _ => item,
            };
            match it {
                Type::Instance { type_ref: ic, .. } => {
                    proof {
                        assert(it@ matches TypeModel::Instance { type_ref: t, .. } && t == ic@);
                    }
                    match r.get(ic.as_str()) {
                        None => None,
                        Some(is) => match &is.metaclass_fullname {
                            None => None,
                            Some(m) => if m.as_str().unicode_len() == 0 {
                                Some(false)
                            } else {
                                let meta = bare_exec(m.as_str());
                                sub_fuel_exec(r, &meta, rt, ctx, proper, fuel)
                            },
                        },
                    }
                },
                _ => Some(false),
            }
        },
        (Type::TypeType { .. }, Type::NoneType) => Some(false),
        (Type::TypeType { .. }, Type::UninhabitedType { .. }) => Some(false),
        _ => None,
    }
}

fn atom_over_exec(r: &TypeResolver, la: &AtomExec, rt: &Type, ctx: &SubtypeContext, proper: bool) -> (v: Option<bool>)
    ensures
        v == atom_over(*r, atom_model(*la), rt@, *ctx, proper),
{
    let skip = match rt {
        Type::TypeAliasType { .. } => true,
        Type::UnpackType { .. } => true,
        Type::UnionType { .. } => true,
        Type::Instance { .. } => true,
        _ => false,
    };
    if skip {
        return None;
    }
    match la {
        AtomExec::Any => Some(!proper),
        AtomExec::Never => Some(true),
        AtomExec::NoneT => Some(!ctx.strict_optional),
        AtomExec::Class(c) => {
            let target = match rt {
                Type::TypeVarType { .. } => true,
                Type::LiteralType { .. } => true,
                _ => false,
            };
            if !target {
                return None;
            }
            match r.get(c.as_str()) {
                None => None,
                Some(cs) => Some(!proper && cs.fallback_to_any),
            }
        },
    }
}

fn strip_lkv_exec(t: &Type) -> (s: Type)
    ensures
        s@ == strip_lkv(t@),
{
    match t {
        Type::Instance { type_ref, args, extra_attrs, .. } => {
            let s = Type::Instance {
                type_ref: type_ref.as_str().to_owned(),
                args: clone_types(args),
                last_known_value: None,
                extra_attrs: crate::wire::clone_extra(extra_attrs),
            };
            proof {
                assert(opt_type_model(None) == None::<Box<TypeModel>>);
                assert(t@ matches TypeModel::Instance { type_ref: tr, args: a, extra_attrs: e, .. }
                    && tr == type_ref@ && a == types_model(args@) && e == crate::wire::extra_model(*extra_attrs));
            }
            s
        },
        _ => clone_type(t),
    }
}

fn sub_fuel_exec(

r: &TypeResolver, l: &Type, rt: &Type, ctx: &SubtypeContext, proper: bool, fuel: u64) -> (v: Option<bool>)
    ensures
        v == sub_fuel(*r, l@, rt@, *ctx, proper, fuel as nat),
    decreases fuel, 0int,
{
    proof {
        assert(opt_type_model(None) == None::<Box<TypeModel>>);
    }
    if fuel == 0 {
        return None;
    }
    if !proper {
        let top = match rt {
            Type::AnyType { .. } => true,
            Type::ErasedType => true,
            _ => false,
        };
        let opaque = match l {
            Type::UnpackType { .. } => true,
            Type::TypeAliasType { .. } => true,
            _ => false,
        };
        if top && !opaque {
            return Some(true);
        }
    }
    let f = fuel - 1;
    match l {
        Type::UnionType { items, .. } => {
            proof {
                lemma_types_model(items@);
                assert(l@ matches TypeModel::UnionType { items: it, .. } && it == types_model(items@));
            }
            let ghost im = types_model(items@);
            let mut acc: Option<bool> = Some(true);
            let mut i: usize = 0;
            while i < items.len()
                invariant
                    i <= items@.len(),
                    im == types_model(items@),
                    im.len() == items@.len(),
                    forall|j: int| 0 <= j < items@.len() ==> #[trigger] im[j] == items@[j]@,
                    f < fuel,
                    acc == all_items_below(*r, im, rt@, *ctx, proper, f as nat, i as int),
                decreases items@.len() - i,
            {
                let v = sub_fuel_exec(r, &items[i], rt, ctx, proper, f);
                acc = and3_exec(acc, v);
                i = i + 1;
            }
            acc
        },
        _ => match rt {
            Type::UnionType { items, .. } => {
                proof {
                    lemma_types_model(items@);
                    assert(rt@ matches TypeModel::UnionType { items: it, .. } && it == types_model(items@));
                }
                let ghost im = types_model(items@);
                let mut acc: Option<bool> = Some(false);
                let mut i: usize = 0;
                while i < items.len()
                    invariant
                        i <= items@.len(),
                        im == types_model(items@),
                        im.len() == items@.len(),
                        forall|j: int| 0 <= j < items@.len() ==> #[trigger] im[j] == items@[j]@,
                        f < fuel,
                        acc == below_some_item(*r, l@, im, *ctx, proper, f as nat, i as int),
                    decreases items@.len() - i,
                {
                    let v = sub_fuel_exec(r, l, &items[i], ctx, proper, f);
                    acc = or3_exec(acc, v);
                    i = i + 1;
                }
                let is_tv = match l {
                    Type::TypeVarType { .. } => true,
                    _ => false,
                };
                if is_tv {
                    let by_var = tv_sub_exec(r, l, rt, ctx, proper, f);
                    or3_exec(acc, by_var)
                } else {
                    acc
                }
            },
            _ => {
                match (l, rt) {
                    (
                        Type::TupleType { partial_fallback: lf, items: li, .. },
                        Type::TupleType { partial_fallback: rf, items: ri, .. },
                    ) => {
                        proof {
                            lemma_types_model(li@);
                            lemma_types_model(ri@);
                            assert(l@ matches TypeModel::TupleType { partial_fallback: a, items: b, .. } && *a == lf@ && b == types_model(li@));
                            assert(rt@ matches TypeModel::TupleType { partial_fallback: a, items: b, .. } && *a == rf@ && b == types_model(ri@));
                        }
                        return tuple_sub_exec(r, lf, li, rf, ri, ctx, proper, f);
                    },
                    (Type::Overloaded { items }, Type::CallableType { .. }) => {
                        proof {
                            lemma_types_model(items@);
                            assert(l@ matches TypeModel::Overloaded { items: it } && it == types_model(items@));
                        }
                        let ghost im = types_model(items@);
                        let mut acc: Option<bool> = Some(false);
                        let mut i: usize = 0;
                        while i < items.len()
                            invariant
                                i <= items@.len(),
                                im == types_model(items@),
                                im.len() == items@.len(),
                                forall|j: int| 0 <= j < items@.len() ==> #[trigger] im[j] == items@[j]@,
                                f < fuel,
                                acc == some_item_below(*r, im, rt@, *ctx, proper, f as nat, i as int),
                            decreases items@.len() - i,
                        {
                            let v = sub_fuel_exec(r, &items[i], rt, ctx, proper, f);
                            acc = or3_exec(acc, v);
                            i = i + 1;
                        }
                        return acc;
                    },
                    (Type::Overloaded { items }, Type::Instance { type_ref: rc, .. }) => {
                        proof {
                            lemma_types_model(items@);
                            assert(l@ matches TypeModel::Overloaded { items: it } && it == types_model(items@));
                            assert(rt@ matches TypeModel::Instance { type_ref: t, .. } && t == rc@);
                        }
                        if items.len() == 0 {
                            return None;
                        }
                        return match &items[0] {
                            Type::CallableType { fallback, .. } => {
                                proof {
                                    assert(items@[0]@ matches TypeModel::CallableType { fallback: fb, .. } && *fb == fallback@);
                                }
                                match r.get(rc.as_str()) {
                                    Some(rs) => if rs.is_protocol {
                                        None
                                    } else {
                                        sub_fuel_exec(r, fallback, rt, ctx, proper, f)
                                    },
                                    None => None,
                                }
                            },
                            _ => None,
                        };
                    },
                    (Type::CallableType { .. }, Type::Overloaded { items }) => {
                        proof {
                            lemma_types_model(items@);
                            assert(rt@ matches TypeModel::Overloaded { items: it } && it == types_model(items@));
                        }
                        let ghost im = types_model(items@);
                        let mut acc: Option<bool> = Some(true);
                        let mut i: usize = 0;
                        while i < items.len()
                            invariant
                                i <= items@.len(),
                                im == types_model(items@),
                                im.len() == items@.len(),
                                forall|j: int| 0 <= j < items@.len() ==> #[trigger] im[j] == items@[j]@,
                                f < fuel,
                                acc == below_each_item(*r, l@, im, *ctx, proper, f as nat, i as int),
                            decreases items@.len() - i,
                        {
                            let v = sub_fuel_exec(r, l, &items[i], ctx, proper, f);
                            acc = and3_exec(acc, v);
                            i = i + 1;
                        }
                        return acc;
                    },
                    (Type::CallableType { .. }, Type::CallableType { .. }) => {
                        return callable_sub_exec(r, l, rt, ctx, proper, f);
                    },
                    (Type::CallableType { .. }, Type::Instance { .. }) => {
                        return callable_sub_exec(r, l, rt, ctx, proper, f);
                    },
                    (Type::TypeVarType { .. }, _) => {
                        return tv_sub_exec(r, l, rt, ctx, proper, f);
                    },
                    (Type::LiteralType { .. }, _) => {
                        return lit_sub_exec(r, l, rt, ctx, proper, f);
                    },
                    (Type::TypeType { .. }, _) => {
                        return type_sub_exec(r, l, rt, ctx, proper, f);
                    },
                    (Type::Instance { last_known_value: Some(v), .. }, _) => {
                        proof {
                            assert(opt_type_model(Some(*v)) == Some(Box::new(type_model(**v))));
                            assert(l@ matches TypeModel::Instance { last_known_value: Some(x), .. } && *x == type_model(**v));
                        }
                        let lit = match rt {
                            Type::LiteralType { .. } => true,
                            _ => false,
                        };
                        if lit {
                            return sub_fuel_exec(r, v, rt, ctx, proper, f);
                        }
                        let s = strip_lkv_exec(l);
                        return sub_fuel_exec(r, &s, rt, ctx, proper, f);
                    },
                    (_, Type::Instance { last_known_value: Some(w), .. }) => {
                        proof {
                            assert(opt_type_model(Some(*w)) == Some(Box::new(type_model(**w))));
                            assert(rt@ matches TypeModel::Instance { last_known_value: Some(x), .. } && *x == type_model(**w));
                        }
                        let s = strip_lkv_exec(rt);
                        return sub_fuel_exec(r, l, &s, ctx, proper, f);
                    },
                    _ => {},
                }
                match (head_exec(l), head_exec(rt)) {
                (Some(AtomExec::Class(lc)), Some(AtomExec::Class(rc))) => match (l, rt) {
                    (Type::Instance { args: la, .. }, Type::Instance { args: ra, .. }) => {
                        proof {
                            lemma_types_model(la@);
                            lemma_types_model(ra@);
                            assert(l@ matches TypeModel::Instance { args: a, .. } && a == types_model(la@));
                            assert(rt@ matches TypeModel::Instance { args: a, .. } && a == types_model(ra@));
                        }
                        if la.len() == 0 && ra.len() == 0 {
                            atom_sub_exec(r, &AtomExec::Class(lc), &AtomExec::Class(rc), ctx, proper)
                        } else {
                            inst_sub_exec(r, lc.as_str(), la, rc.as_str(), ra, ctx, proper, f)
                        }
                    },
                    _ => None,
                },
                (Some(la), Some(ra)) => atom_sub_exec(r, &la, &ra, ctx, proper),
                (Some(la), None) => atom_over_exec(r, &la, rt, ctx, proper),
                _ => None,
                }
            },
        },
    }
}

fn sub_exec(r: &TypeResolver, l: &Type, rt: &Type, ctx: &SubtypeContext, proper: bool) -> (v: Option<bool>)
    ensures
        v == sub_spec(*r, l@, rt@, *ctx, proper),
{
    sub_fuel_exec(r, l, rt, ctx, proper, 64)
}

/// `is_subtype`: whether `left` is a subtype of `right`; see [`sub_fuel`]
/// for the shapes decided and the rules applied to each.
pub fn is_subtype(left: &Type, right: &Type, ctx: &SubtypeContext, resolver: &TypeResolver) -> (r: Option<bool>)
    ensures
        r == sub_spec(*resolver, left@, right@, *ctx, false),
{
    sub_exec(resolver, left, right, ctx, false)
}

/// The conjunction of two verdicts asked in order: a false first one
/// decides, an undecided first one leaves it undecided.
pub open spec fn and_then_verdict(a: Option<bool>, b: Option<bool>) -> Option<bool> {
    match a {
        Some(false) => Some(false),
        Some(true) => b,
        None => None,
    }
}

/// The context of a question asked with a bare `strict_optional` flag.
pub open spec fn plain_ctx(ignore_promotions: bool, strict_optional: bool) -> SubtypeContext {
    SubtypeContext { strict_optional, ignore_promotions, ignore_type_params: false }
}

/// The fast path of `is_same_type`: two instances of one class, neither
/// with type arguments.
pub open spec fn fast_same_instance(a: TypeModel, b: TypeModel) -> bool {
    &&& a matches TypeModel::Instance { type_ref: x, args: aa, .. }
    &&& b matches TypeModel::Instance { type_ref: y, args: ba, .. }
    &&& x == y
    &&& aa.len() == 0
    &&& ba.len() == 0
}

/// `is_same_type`: the fast path, else each side a proper subtype of the
/// other.
pub open spec fn same_type_spec(r: TypeResolver, a: TypeModel, b: TypeModel, ignore_promotions: bool, strict_optional: bool) -> Option<bool> {
    if fast_same_instance(a, b) {
        Some(true)
    } else {
        and_then_verdict(
            sub_spec(r, a, b, plain_ctx(ignore_promotions, strict_optional), true),
            sub_spec(r, b, a, plain_ctx(ignore_promotions, strict_optional), true),
        )
    }
}

/// `is_same_type`: two argument-free instances of one class are the same;
/// otherwise each side must be a proper subtype of the other.
pub fn is_same_type(a: &Type, b: &Type, ignore_promotions: bool, strict_optional: bool, resolver: &TypeResolver) -> (r: Option<bool>)
    ensures
        r == same_type_spec(*resolver, a@, b@, ignore_promotions, strict_optional),
{
    if fast_same_exec(a, b) {
        return Some(true);
    }
    let ctx = SubtypeContext { strict_optional, ignore_promotions, ignore_type_params: false };
    match sub_exec(resolver, a, b, &ctx, true) {
        Some(false) => Some(false),
        Some(true) => sub_exec(resolver, b, a, &ctx, true),
        None => None,
    }
}

/// `is_equivalent`: each side is a subtype of the other.
pub fn is_equivalent(a: &Type, b: &Type, ignore_type_params: bool, strict_optional: bool, resolver: &TypeResolver) -> (r: Option<bool>)
    ensures
        r == and_then_verdict(
            sub_spec(*resolver, a@, b@, SubtypeContext { strict_optional, ignore_promotions: false, ignore_type_params }, false),
            sub_spec(*resolver, b@, a@, SubtypeContext { strict_optional, ignore_promotions: false, ignore_type_params }, false),
        ),
{
    let ctx = SubtypeContext { strict_optional, ignore_promotions: false, ignore_type_params };
    match sub_exec(resolver, a, b, &ctx, false) {
        Some(false) => Some(false),
        Some(true) => sub_exec(resolver, b, a, &ctx, false),
        None => None,
    }
}

/// `is_more_precise`: `right` is `Any`, or `left` is a proper subtype of
/// it. `None` on an alias `right`, and where the proper-subtype question
/// is not decided.
pub open spec fn more_precise_spec(r: TypeResolver, left: TypeModel, right: TypeModel, ignore_promotions: bool, strict_optional: bool) -> Option<bool> {
    match right {
        TypeModel::TypeAliasType { .. } => None,
        TypeModel::AnyType { .. } => Some(true),
        _ => sub_spec(r, left, right, plain_ctx(ignore_promotions, strict_optional), true),
    }
}

/// `is_more_precise`: `left` is a proper subtype of `right`, or `right`
/// is `Any`.
pub fn is_more_precise(left: &Type, right: &Type, ignore_promotions: bool, strict_optional: bool, resolver: &TypeResolver) -> (r: Option<bool>)
    ensures
        r == more_precise_spec(*resolver, left@, right@, ignore_promotions, strict_optional),
{
    match right {
        Type::TypeAliasType { .. } => None,
        Type::AnyType { .. } => Some(true),
        _ => {
            let ctx = SubtypeContext { strict_optional, ignore_promotions, ignore_type_params: false };
            sub_exec(resolver, left, right, &ctx, true)
        },
    }
}

/// Whether both operands are function-like, which the subtype-only join
/// and meet do not decide.
pub open spec fn both_function_like(s: TypeModel, t: TypeModel) -> bool {
    (s is CallableType || s is Overloaded) && (t is CallableType || t is Overloaded)
}

fn function_like(t: &Type) -> (r: bool)
    ensures
        r == (t@ is CallableType || t@ is Overloaded),
{
    match t {
        Type::CallableType { .. } => true,
        Type::Overloaded { .. } => true,
        _ => false,
    }
}

/// The `object` instance at the top of a bare instance's MRO: the last
/// entry of its class's MRO. `None` for another shape, or a class
/// without a snapshot or with an empty MRO.
pub open spec fn object_of(r: TypeResolver, t: TypeModel) -> Option<TypeModel> {
    match atom_of(t) {
        Some(Atom::Class(c)) => match r.class_of(c) {
            Some(cs) => if cs.mro@.len() > 0 {
                Some(TypeModel::Instance { type_ref: cs.mro@.last()@, args: Seq::empty(), last_known_value: None, extra_attrs: None })
            } else {
                None
            },
            None => None,
        },
        _ => None,
    }
}

/// `trivial_join`: the wider operand when one is a subtype of the other,
/// otherwise the `object` above `t`.
pub open spec fn trivial_join_spec(r: TypeResolver, s: TypeModel, t: TypeModel, ctx: SubtypeContext) -> Option<TypeModel> {
    if both_function_like(s, t) {
        None
    } else {
        match sub_spec(r, s, t, ctx, false) {
            None => None,
            Some(true) => Some(t),
            Some(false) => match sub_spec(r, t, s, ctx, false) {
                None => None,
                Some(true) => Some(s),
                Some(false) => object_of(r, t),
            },
        }
    }
}

fn object_of_exec(r: &TypeResolver, t: &Type) -> (res: Option<Type>)
    ensures
        match res {
            Some(x) => object_of(*r, t@) == Some(x@),
            None => object_of(*r, t@).is_none(),
        },
{
    match atom_exec(t) {
        Some(AtomExec::Class(c)) => match r.get(c.as_str()) {
            Some(cs) => if cs.mro.len() > 0 {
                let top = cs.mro[cs.mro.len() - 1].clone();
                let args: Vec<Type> = Vec::new();
                proof {
                    assert(types_model(args@) =~= Seq::<TypeModel>::empty());
                    assert(opt_type_model(None) == None::<Box<TypeModel>>);
                    assert(crate::wire::extra_model(None) == None::<crate::wire::ExtraAttrsModel>);
                }
                Some(Type::Instance { type_ref: top, args, last_known_value: None, extra_attrs: None })
            } else {
                None
            },
            None => None,
        },
        _ => None,
    }
}

/// `trivial_join`: the wider operand when one is a subtype of the other,
/// otherwise `object`.
pub fn trivial_join(s: &Type, t: &Type, ctx: &SubtypeContext, resolver: &TypeResolver) -> (r: Option<Type>)
    ensures
        match r {
            Some(x) => trivial_join_spec(*resolver, s@, t@, *ctx) == Some(x@),
            None => trivial_join_spec(*resolver, s@, t@, *ctx).is_none(),
        },
{
    if function_like(s) && function_like(t) {
        return None;
    }
    match sub_exec(resolver, s, t, ctx, false) {
        None => None,
        Some(true) => Some(clone_type(t)),
        Some(false) => match sub_exec(resolver, t, s, ctx, false) {
            None => None,
            Some(true) => Some(clone_type(s)),
            Some(false) => object_of_exec(resolver, t),
        },
    }
}

/// The empty meet: `Never`, or `None` without strict optional.
pub open spec fn bottom_spec(strict_optional: bool) -> TypeModel {
    if strict_optional {
        TypeModel::UninhabitedType { ambiguous: false }
    } else {
        TypeModel::NoneType
    }
}

fn bottom_type(strict_optional: bool) -> (r: Type)
    ensures
        r@ == bottom_spec(strict_optional),
{
    if strict_optional {
        Type::UninhabitedType { ambiguous: false }
    } else {
        Type::NoneType
    }
}

/// `trivial_meet`: the narrower operand when one is a subtype of the
/// other, otherwise the empty meet.
pub open spec fn trivial_meet_spec(r: TypeResolver, s: TypeModel, t: TypeModel, ctx: SubtypeContext) -> Option<TypeModel> {
    if both_function_like(s, t) {
        None
    } else {
        match sub_spec(r, s, t, ctx, false) {
            None => None,
            Some(true) => Some(s),
            Some(false) => match sub_spec(r, t, s, ctx, false) {
                None => None,
                Some(true) => Some(t),
                Some(false) => Some(bottom_spec(ctx.strict_optional)),
            },
        }
    }
}

/// `trivial_meet`: the narrower operand when one is a subtype of the
/// other, otherwise the empty meet.
pub fn trivial_meet(s: &Type, t: &Type, ctx: &SubtypeContext, resolver: &TypeResolver) -> (r: Option<Type>)
    ensures
        match r {
            Some(x) => trivial_meet_spec(*resolver, s@, t@, *ctx) == Some(x@),
            None => trivial_meet_spec(*resolver, s@, t@, *ctx).is_none(),
        },
{
    if function_like(s) && function_like(t) {
        return None;
    }
    match sub_exec(resolver, s, t, ctx, false) {
        None => None,
        Some(true) => Some(clone_type(s)),
        Some(false) => match sub_exec(resolver, t, s, ctx, false) {
            None => None,
            Some(true) => Some(clone_type(t)),
            Some(false) => Some(bottom_type(ctx.strict_optional)),
        },
    }
}

/// `meet_types` over the shapes decided here: the narrower operand when
/// one is a proper subtype of the other (promotions ignored); otherwise,
/// for atoms and instances: against `Any`, the other operand; against
/// `None`, `None` when the other is `object` or strict optional is off,
/// else `Never`; against `Never`, `Never`; for instances of two classes,
/// the one whose alternative promotion is the other's class, else the one
/// that is a subtype of the other (the second first), or the empty meet;
/// for two instances of one class with type arguments, the class over the
/// meets of the arguments when one is a subtype of the other, else the
/// empty meet; for `None` or `Never` against an instance, the empty meet.
/// `None` for other shapes and where a subtype question is not decided. Two literals neither of which is
/// below the other meet in the empty meet, as do a literal and `None`; a
/// literal meets `Never` in `Never` and `Any` in itself; an instance meets
/// a literal in the literal when the literal's fallback is below the
/// instance, else in the empty meet. A type variable meets `Any` in
/// itself, `Never` in `Never`, and an instance, a literal, `None` or
/// another type variable it is not related to in the empty meet.
pub open spec fn meet_spec(r: TypeResolver, s: TypeModel, t: TypeModel, ctx: SubtypeContext) -> Option<TypeModel> {
    meet_fuel(r, s, t, ctx, 32)
}

/// The meets of the first `k` type argument pairs (`ts[i]` of the second
/// operand first).
pub open spec fn meet_args(r: TypeResolver, ts: Seq<TypeModel>, ss: Seq<TypeModel>, ctx: SubtypeContext, fuel: nat, k: int) -> Option<Seq<TypeModel>>
    decreases fuel, k,
{
    if k <= 0 {
        Some(Seq::empty())
    } else {
        match (meet_args(r, ts, ss, ctx, fuel, k - 1), meet_fuel(r, ts[k - 1], ss[k - 1], ctx, fuel)) {
            (Some(p), Some(x)) => Some(p.push(x)),
            _ => None,
        }
    }
}

/// [`meet_spec`], looking at most `fuel` levels deep.
pub open spec fn meet_fuel(r: TypeResolver, s: TypeModel, t: TypeModel, ctx: SubtypeContext, fuel: nat) -> Option<TypeModel>
    decreases fuel, 0int,
{
    if fuel == 0 {
        None
    } else {
        meet_body(r, s, t, ctx, (fuel - 1) as nat)
    }
}

/// One level of [`meet_fuel`], with `fuel` left for the type arguments.
pub open spec fn meet_body(r: TypeResolver, s: TypeModel, t: TypeModel, ctx: SubtypeContext, fuel: nat) -> Option<TypeModel>
    decreases fuel, inst_args(t).len() + 1,
{
    let pctx = SubtypeContext { ignore_promotions: true, ..ctx };
    match sub_spec(r, s, t, pctx, true) {
        None => None,
        Some(true) => Some(s),
        Some(false) => match sub_spec(r, t, s, pctx, true) {
            None => None,
            Some(true) => Some(t),
            Some(false) => match (s, t) {
                (TypeModel::TypeVarType { .. }, TypeModel::AnyType { .. }) => Some(s),
                (TypeModel::AnyType { .. }, TypeModel::TypeVarType { .. }) => Some(t),
                (TypeModel::TypeVarType { .. }, TypeModel::UninhabitedType { .. }) => Some(t),
                (TypeModel::TypeVarType { .. }, _) => if meets_type_var_plainly(t) {
                    Some(bottom_spec(ctx.strict_optional))
                } else {
                    None
                },
                (_, TypeModel::TypeVarType { .. }) => if meets_type_var_plainly(s) {
                    Some(bottom_spec(ctx.strict_optional))
                } else {
                    None
                },
                (TypeModel::LiteralType { .. }, TypeModel::LiteralType { .. }) => Some(bottom_spec(ctx.strict_optional)),
                (TypeModel::LiteralType { .. }, TypeModel::NoneType) => Some(bottom_spec(ctx.strict_optional)),
                (TypeModel::LiteralType { .. }, TypeModel::UninhabitedType { .. }) => Some(t),
                (TypeModel::LiteralType { .. }, TypeModel::AnyType { .. }) => Some(s),
                (TypeModel::AnyType { .. }, TypeModel::LiteralType { .. }) => Some(t),
                (TypeModel::Instance { .. }, TypeModel::LiteralType { fallback, .. }) => if head_of(s).is_some() {
                    match sub_spec(r, *fallback, s, ctx, false) {
                        None => None,
                        Some(true) => Some(t),
                        Some(false) => Some(bottom_spec(ctx.strict_optional)),
                    }
                } else {
                    None
                },
                _ => match (head_of(s), head_of(t)) {
                (Some(Atom::Any), Some(_)) => Some(t),
                (Some(_), Some(Atom::Any)) => Some(s),
                (Some(sa), Some(Atom::NoneT)) => if !ctx.strict_optional || sa == Atom::Class("builtins.object"@) {
                    Some(t)
                } else {
                    Some(TypeModel::UninhabitedType { ambiguous: false })
                },
                (Some(_), Some(Atom::Never)) => Some(t),
                (Some(Atom::Class(sc)), Some(Atom::Class(tc))) => if sc == tc && (inst_args(s).len() > 0
                    || inst_args(t).len() > 0) {
                    match or3(sub_spec(r, t, s, ctx, false), sub_spec(r, s, t, ctx, false)) {
                        Some(false) => Some(bottom_spec(ctx.strict_optional)),
                        Some(true) => if inst_args(t).len() == inst_args(s).len() {
                            match meet_args(r, inst_args(t), inst_args(s), ctx, fuel, inst_args(t).len() as int) {
                                Some(args) => Some(
                                    TypeModel::Instance { type_ref: tc, args, last_known_value: None, extra_attrs: None },
                                ),
                                None => None,
                            }
                        } else {
                            None
                        },
                        None => None,
                    }
                } else if sc != tc && alt_promotes_to(r, tc, sc) {
                    Some(t)
                } else if sc != tc && alt_promotes_to(r, sc, tc) {
                    Some(s)
                } else {
                    match sub_spec(r, t, s, ctx, false) {
                        None => None,
                        Some(true) => Some(t),
                        Some(false) => match sub_spec(r, s, t, ctx, false) {
                            None => None,
                            Some(true) => Some(s),
                            Some(false) => Some(bottom_spec(ctx.strict_optional)),
                        },
                    }
                },
                (Some(_), Some(Atom::Class(_))) => Some(bottom_spec(ctx.strict_optional)),
                _ => None,
                },
            },
        },
    }
}

/// Whether `t` meets a type variable (neither below the other) in the
/// empty meet: an instance, a literal, `None` or another type variable.
pub open spec fn meets_type_var_plainly(t: TypeModel) -> bool {
    ||| head_of(t) matches Some(Atom::Class(_))
    ||| t is LiteralType
    ||| t is NoneType
    ||| t is TypeVarType
}

/// Whether class `c` has `target` as its alternative promotion.
pub open spec fn alt_promotes_to(r: TypeResolver, c: Seq<char>, target: Seq<char>) -> bool {
    r.class_of(c) matches Some(cs) && cs.alt_promote_fullname matches Some(p) && p@ == target
}

/// `meet_types`: the greatest lower bound of `s` and `t`, over the
/// shapes decided here.
pub fn meet_types(s: &Type, t: &Type, ctx: &SubtypeContext, resolver: &TypeResolver) -> (r: Option<Type>)
    ensures
        match r {
            Some(x) => meet_spec(*resolver, s@, t@, *ctx) == Some(x@),
            None => meet_spec(*resolver, s@, t@, *ctx).is_none(),
        },
{
    meet_fuel_exec(s, t, ctx, resolver, 32)
}

fn meet_fuel_exec(s: &Type, t: &Type, ctx: &SubtypeContext, resolver: &TypeResolver, fuel: u64) -> (r: Option<Type>)
    ensures
        match r {
            Some(x) => meet_fuel(*resolver, s@, t@, *ctx, fuel as nat) == Some(x@),
            None => meet_fuel(*resolver, s@, t@, *ctx, fuel as nat).is_none(),
        },
    decreases fuel, 0int,
{
    if fuel == 0 {
        return None;
    }
    meet_body_exec(s, t, ctx, resolver, fuel - 1)
}

proof fn lemma_meet_args_none(r: TypeResolver, ts: Seq<TypeModel>, ss: Seq<TypeModel>, ctx: SubtypeContext, fuel: nat, k: int, n: int)
    requires
        0 <= k <= n,
        meet_args(r, ts, ss, ctx, fuel, k).is_none(),
    ensures
        meet_args(r, ts, ss, ctx, fuel, n).is_none(),
    decreases n - k,
{
    if k < n {
        lemma_meet_args_none(r, ts, ss, ctx, fuel, k + 1, n);
    }
}

fn meet_args_exec(tc: &str, targs: &Vec<Type>, sargs: &Vec<Type>, ctx: &SubtypeContext, resolver: &TypeResolver, fuel: u64) -> (r: Option<Type>)
    requires
        targs@.len() == sargs@.len(),
    ensures
        match r {
            Some(x) => meet_args(*resolver, types_model(targs@), types_model(sargs@), *ctx, fuel as nat, targs@.len() as int) matches Some(args)
                && x@ == (TypeModel::Instance { type_ref: tc@, args, last_known_value: None, extra_attrs: None }),
            None => meet_args(*resolver, types_model(targs@), types_model(sargs@), *ctx, fuel as nat, targs@.len() as int).is_none(),
        },
    decreases fuel, targs@.len(),
{
    proof {
        lemma_types_model(targs@);
        lemma_types_model(sargs@);
    }
    let ghost tm = types_model(targs@);
    let ghost sm = types_model(sargs@);
    let mut out: Vec<Type> = Vec::new();
    proof {
        assert(types_model(out@) =~= Seq::<TypeModel>::empty());
    }
    let mut i: usize = 0;
    while i < targs.len()
        invariant
            i <= targs@.len(),
            targs@.len() == sargs@.len(),
            tm == types_model(targs@),
            sm == types_model(sargs@),
            tm.len() == targs@.len(),
            sm.len() == sargs@.len(),
            forall|j: int| 0 <= j < targs@.len() ==> #[trigger] tm[j] == targs@[j]@,
            forall|j: int| 0 <= j < sargs@.len() ==> #[trigger] sm[j] == sargs@[j]@,
            meet_args(*resolver, tm, sm, *ctx, fuel as nat, i as int) == Some(types_model(out@)),
        decreases targs@.len() - i,
    {
        match meet_fuel_exec(&targs[i], &sargs[i], ctx, resolver, fuel) {
            None => {
                proof {
                    lemma_meet_args_none(*resolver, tm, sm, *ctx, fuel as nat, i as int + 1, targs@.len() as int);
                }
                return None;
            },
            Some(x) => {
                proof {
                    lemma_types_model_push(out@, x);
                }
                out.push(x);
            },
        }
        i = i + 1;
    }
    let res = Type::Instance { type_ref: tc.to_owned(), args: out, last_known_value: None, extra_attrs: None };
    proof {
        assert(opt_type_model(None) == None::<Box<TypeModel>>);
        assert(crate::wire::extra_model(None) == None::<crate::wire::ExtraAttrsModel>);
    }
    Some(res)
}

fn meet_body_exec(s: &Type, t: &Type, ctx: &SubtypeContext, resolver: &TypeResolver, fuel: u64) -> (r: Option<Type>)
    ensures
        match r {
            Some(x) => meet_body(*resolver, s@, t@, *ctx, fuel as nat) == Some(x@),
            None => meet_body(*resolver, s@, t@, *ctx, fuel as nat).is_none(),
        },
    decreases fuel, inst_args(t@).len() + 1,
{
    let pctx = SubtypeContext { ignore_promotions: true, ..*ctx };
    match sub_exec(resolver, s, t, &pctx, true) {
        None => None,
        Some(true) => Some(clone_type(s)),
        Some(false) => match sub_exec(resolver, t, s, &pctx, true) {
            None => None,
            Some(true) => Some(clone_type(t)),
            Some(false) => {
                match (s, t) {
                    (Type::TypeVarType { .. }, Type::AnyType { .. }) => {
                        return Some(clone_type(s));
                    },
                    (Type::AnyType { .. }, Type::TypeVarType { .. }) => {
                        return Some(clone_type(t));
                    },
                    (Type::TypeVarType { .. }, Type::UninhabitedType { .. }) => {
                        return Some(clone_type(t));
                    },
                    (Type::TypeVarType { .. }, _) => {
                        return if meets_type_var_plainly_exec(t) {
                            Some(bottom_type(ctx.strict_optional))
                        } else {
                            None
                        };
                    },
                    (_, Type::TypeVarType { .. }) => {
                        return if meets_type_var_plainly_exec(s) {
                            Some(bottom_type(ctx.strict_optional))
                        } else {
                            None
                        };
                    },
                    (Type::LiteralType { .. }, Type::LiteralType { .. }) => {
                        return Some(bottom_type(ctx.strict_optional));
                    },
                    (Type::LiteralType { .. }, Type::NoneType) => {
                        return Some(bottom_type(ctx.strict_optional));
                    },
                    (Type::LiteralType { .. }, Type::UninhabitedType { .. }) => {
                        return Some(clone_type(t));
                    },
                    (Type::LiteralType { .. }, Type::AnyType { .. }) => {
                        return Some(clone_type(s));
                    },
                    (Type::AnyType { .. }, Type::LiteralType { .. }) => {
                        return Some(clone_type(t));
                    },
                    (Type::Instance { .. }, Type::LiteralType { fallback, .. }) => {
                        proof {
                            assert(t@ matches TypeModel::LiteralType { fallback: f, .. } && *f == fallback@);
                        }
                        if head_exec(s).is_none() {
                            return None;
                        }
                        return match sub_exec(resolver, fallback, s, ctx, false) {
                            None => None,
                            Some(true) => Some(clone_type(t)),
                            Some(false) => Some(bottom_type(ctx.strict_optional)),
                        };
                    },
                    _ => {},
                }
                match (head_exec(s), head_exec(t)) {
                (Some(AtomExec::Any), Some(_)) => Some(clone_type(t)),
                (Some(_), Some(AtomExec::Any)) => Some(clone_type(s)),
                (Some(sa), Some(AtomExec::NoneT)) => {
                    let obj = match sa {
                        AtomExec::Class(c) => str_eq(c.as_str(), "builtins.object"),
                        _ => false,
                    };
                    if !ctx.strict_optional || obj {
                        Some(clone_type(t))
                    } else {
                        Some(Type::UninhabitedType { ambiguous: false })
                    }
                },
                (Some(_), Some(AtomExec::Never)) => Some(clone_type(t)),
                (Some(AtomExec::Class(sc)), Some(AtomExec::Class(tc))) => {
                    let same = str_eq(sc.as_str(), tc.as_str());
                    if same && (inst_arg_count(s) > 0 || inst_arg_count(t) > 0) {
                        let a = sub_exec(resolver, t, s, ctx, false);
                        let b = sub_exec(resolver, s, t, ctx, false);
                        match or3_exec(a, b) {
                            Some(false) => Some(bottom_type(ctx.strict_optional)),
                            Some(true) => match (s, t) {
                                (Type::Instance { args: sargs, .. }, Type::Instance { args: targs, .. }) => {
                                    proof {
                                        lemma_types_model(sargs@);
                                        lemma_types_model(targs@);
                                        assert(s@ matches TypeModel::Instance { args: x, .. } && x == types_model(sargs@));
                                        assert(t@ matches TypeModel::Instance { args: x, .. } && x == types_model(targs@));
                                    }
                                    if targs.len() != sargs.len() {
                                        None
                                    } else {
                                        meet_args_exec(tc.as_str(), targs, sargs, ctx, resolver, fuel)
                                    }
                                },
                                _ => None,
                            },
                            None => None,
                        }
                    } else if !same && alt_promotes_to_exec(resolver, tc.as_str(), sc.as_str()) {
                        Some(clone_type(t))
                    } else if !same && alt_promotes_to_exec(resolver, sc.as_str(), tc.as_str()) {
                        Some(clone_type(s))
                    } else {
                        match sub_exec(resolver, t, s, ctx, false) {
                            None => None,
                            Some(true) => Some(clone_type(t)),
                            Some(false) => match sub_exec(resolver, s, t, ctx, false) {
                                None => None,
                                Some(true) => Some(clone_type(s)),
                                Some(false) => Some(bottom_type(ctx.strict_optional)),
                            },
                        }
                    }
                },
                (Some(_), Some(AtomExec::Class(_))) => Some(bottom_type(ctx.strict_optional)),
                _ => None,
                }
            },
        },
    }
}

fn meets_type_var_plainly_exec(t: &Type) -> (b: bool)
    ensures
        b == meets_type_var_plainly(t@),
{
    match t {
        Type::LiteralType { .. } => true,
        Type::NoneType => true,
        Type::TypeVarType { .. } => true,
        _ => match head_exec(t) {
            Some(AtomExec::Class(_)) => true,
            _ => false,
        },
    }
}

fn inst_arg_count(t: &Type) -> (n: usize)
    ensures
        n == inst_args(t@).len(),
{
    match t {
        Type::Instance { args, .. } => {
            proof {
                lemma_types_model(args@);
                assert(t@ matches TypeModel::Instance { args: a, .. } && a == types_model(args@));
            }
            args.len()
        },
        _ => 0,
    }
}

fn alt_promotes_to_exec(r: &TypeResolver, c: &str, target: &str) -> (b: bool)
    ensures
        b == alt_promotes_to(*r, c@, target@),
{
    match r.get(c) {
        Some(cs) => match &cs.alt_promote_fullname {
            Some(p) => str_eq(p.as_str(), target),
            None => false,
        },
        None => false,
    }
}

/// The position of the first raw id `id` in `ids`, from `k`.
pub open spec fn tv_slot(ids: Seq<i64>, id: int, k: int) -> Option<int>
    decreases ids.len() - k,
{
    if k < 0 || k >= ids.len() {
        None
    } else if ids[k] as int == id {
        Some(k)
    } else {
        tv_slot(ids, id, k + 1)
    }
}

/// `t` with the type variables of class `ns` (raw ids `ids`, meta level
/// 0) replaced by `args`, position for position. `None` for a type whose
/// expansion is not decided here: a union, callable, overloaded, typed
/// dict, `type[...]`, unpacked item or alias anywhere inside, a tuple
/// with an unpacked item, and a type variable of `ns` without an
/// argument.
pub open spec fn subst(t: TypeModel, ns: Seq<char>, ids: Seq<i64>, args: Seq<TypeModel>) -> Option<TypeModel>
    decreases t, 1nat,
{
    match t {
        TypeModel::TypeVarType { raw_id, namespace, meta_level, .. } => if namespace == ns && meta_level == 0 {
            match tv_slot(ids, raw_id, 0) {
                Some(i) => if i < args.len() {
                    Some(args[i])
                } else {
                    None
                },
                None => Some(t),
            }
        } else {
            Some(t)
        },
        TypeModel::Instance { type_ref, args: a, last_known_value, extra_attrs } => match subst_seq(a, ns, ids, args) {
            Some(a2) => Some(TypeModel::Instance { type_ref, args: a2, last_known_value, extra_attrs }),
            None => None,
        },
        TypeModel::TupleType { partial_fallback, items, implicit } => if no_unpack(items) {
            match (subst(*partial_fallback, ns, ids, args), subst_seq(items, ns, ids, args)) {
                (Some(f), Some(is)) => Some(TypeModel::TupleType { partial_fallback: Box::new(f), items: is, implicit }),
                _ => None,
            }
        } else {
            None
        },
        TypeModel::AnyType { .. } => Some(t),
        TypeModel::NoneType => Some(t),
        TypeModel::UninhabitedType { .. } => Some(t),
        TypeModel::ErasedType => Some(t),
        TypeModel::DeletedType { .. } => Some(t),
        TypeModel::LiteralType { .. } => Some(t),
        _ => None,
    }
}

/// [`subst`] over a list, item by item.
pub open spec fn subst_seq(s: Seq<TypeModel>, ns: Seq<char>, ids: Seq<i64>, args: Seq<TypeModel>) -> Option<Seq<TypeModel>>
    decreases s, 0nat,
{
    if s.len() == 0 {
        Some(Seq::empty())
    } else {
        proof {
            assert(decreases_to!(s => s[s.len() - 1]));
        }
        match (subst_seq(s.drop_last(), ns, ids, args), subst(s.last(), ns, ids, args)) {
            (Some(p), Some(x)) => Some(p.push(x)),
            _ => None,
        }
    }
}

/// Among `bases` from `k`, the first that is class `right` or has it
/// among its ancestors: `Some(Some(i))`; `Some(None)` when none is;
/// `None` when a base before that is not an instance or its class has no
/// snapshot.
pub open spec fn base_towards(r: TypeResolver, bases: Seq<Type>, right: Seq<char>, k: int) -> Option<Option<int>>
    decreases bases.len() - k,
{
    if k < 0 || k >= bases.len() {
        Some(None)
    } else {
        match bases[k]@ {
            TypeModel::Instance { type_ref: bc, .. } => if bc == right {
                Some(Some(k))
            } else {
                match r.class_of(bc) {
                    None => None,
                    Some(bs) => if bs.has_base.has(right) {
                        Some(Some(k))
                    } else {
                        base_towards(r, bases, right, k + 1)
                    },
                }
            },
            _ => None,
        }
    }
}

/// `map_instance_to_supertype`, looking at most `fuel` bases up: a class
/// maps to its own arguments; a superclass without type variables takes
/// none; otherwise the first declared base that is `right` or leads to
/// it, expanded with `left`'s arguments for `left`'s type variables (left
/// as it is for an instance without arguments), is mapped on. `None` for
/// `builtins.tuple` over a named tuple, where a snapshot is missing, no
/// base leads to `right`, the arguments do not line up with the type
/// variables, an expansion is not decided, or the fuel runs out.
pub open spec fn map_fuel(r: TypeResolver, left: Seq<char>, args: Seq<TypeModel>, right: Seq<char>, fuel: nat) -> Option<Seq<TypeModel>>
    decreases fuel,
{
    if left == right {
        Some(args)
    } else {
        match r.class_of(right) {
            None => None,
            Some(rs) => if right == "builtins.tuple"@ && (r.class_of(left).is_none() || r.class_of(left).unwrap().tuple_type.is_some()) {
                None
            } else if rs.type_vars@.len() == 0 {
                Some(Seq::empty())
            } else if fuel == 0 {
                None
            } else {
                match r.class_of(left) {
                    None => None,
                    Some(ls) => match base_towards(r, ls.bases@, right, 0) {
                        Some(Some(k)) => match ls.bases@[k]@ {
                            TypeModel::Instance { type_ref: bc, args: ba, .. } => {
                                let expanded = if args.len() == 0 {
                                    Some(ba)
                                } else if ls.type_var_raw_ids@.len() != args.len() {
                                    None
                                } else {
                                    subst_seq(ba, left, ls.type_var_raw_ids@, args)
                                };
                                match expanded {
                                    Some(ba2) => map_fuel(r, bc, ba2, right, (fuel - 1) as nat),
                                    None => None,
                                }
                            },
                            _ => None,
                        },
                        _ => None,
                    },
                }
            },
        }
    }
}

/// `map_instance_to_supertype`: the type arguments `left[args]` presents
/// to its superclass `right`; see [`map_fuel`].
pub open spec fn map_to_super_spec(r: TypeResolver, left: Seq<char>, args: Seq<TypeModel>, right: Seq<char>) -> Option<Seq<TypeModel>> {
    map_fuel(r, left, args, right, 32)
}

fn tv_slot_exec(ids: &Vec<i64>, id: i64) -> (r: Option<usize>)
    ensures
        match r {
            Some(i) => tv_slot(ids@, id as int, 0) == Some(i as int),
            None => tv_slot(ids@, id as int, 0).is_none(),
        },
{
    let mut k: usize = 0;
    while k < ids.len()
        invariant
            k <= ids@.len(),
            tv_slot(ids@, id as int, 0) == tv_slot(ids@, id as int, k as int),
        decreases ids@.len() - k,
    {
        if ids[k] == id {
            return Some(k);
        }
        k = k + 1;
    }
    None
}

fn subst_exec(t: &Type, ns: &str, ids: &Vec<i64>, args: &[Type]) -> (r: Option<Type>)
    ensures
        match r {
            Some(x) => subst(t@, ns@, ids@, types_model(args@)) == Some(x@),
            None => subst(t@, ns@, ids@, types_model(args@)).is_none(),
        },
    decreases t, 1nat,
{
    proof {
        lemma_types_model(args@);
    }
    match t {
        Type::TypeVarType { raw_id, namespace, meta_level, .. } => {
            proof {
                assert(t@ matches TypeModel::TypeVarType { raw_id: x, namespace: n, meta_level: m, .. } && x == *raw_id as int
                    && n == namespace@ && m == *meta_level as int);
            }
            if str_eq(namespace.as_str(), ns) && *meta_level == 0 {
                match tv_slot_exec(ids, *raw_id) {
                    Some(i) => if i < args.len() {
                        Some(clone_type(&args[i]))
                    } else {
                        None
                    },
                    None => Some(clone_type(t)),
                }
            } else {
                Some(clone_type(t))
            }
        },
        Type::Instance { type_ref, args: a, last_known_value, extra_attrs } => {
            proof {
                assert(t@ matches TypeModel::Instance { type_ref: tr, args: aa, last_known_value: l, extra_attrs: e }
                    && tr == type_ref@ && aa == types_model(a@) && l == opt_type_model(*last_known_value)
                    && e == crate::wire::extra_model(*extra_attrs));
            }
            match subst_vec(a, ns, ids, args) {
                Some(a2) => Some(Type::Instance {
                    type_ref: type_ref.as_str().to_owned(),
                    args: a2,
                    last_known_value: clone_opt_type(last_known_value),
                    extra_attrs: crate::wire::clone_extra(extra_attrs),
                }),
                None => None,
            }
        },
        Type::TupleType { partial_fallback, items, implicit } => {
            proof {
                assert(t@ matches TypeModel::TupleType { partial_fallback: f, items: is, implicit: im }
                    && *f == partial_fallback@ && is == types_model(items@) && im == *implicit);
            }
            if !no_unpack_exec(items) {
                return None;
            }
            match (subst_exec(partial_fallback, ns, ids, args), subst_vec(items, ns, ids, args)) {
                (Some(f), Some(is)) => Some(Type::TupleType { partial_fallback: Box::new(f), items: is, implicit: *implicit }),
                _ => None,
            }
        },
        Type::AnyType { .. } => Some(clone_type(t)),
        Type::NoneType => Some(clone_type(t)),
        Type::UninhabitedType { .. } => Some(clone_type(t)),
        Type::ErasedType => Some(clone_type(t)),
        Type::DeletedType { .. } => Some(clone_type(t)),
        Type::LiteralType { .. } => Some(clone_type(t)),
        _ => None,
    }
}

fn subst_vec(v: &Vec<Type>, ns: &str, ids: &Vec<i64>, args: &[Type]) -> (r: Option<Vec<Type>>)
    ensures
        match r {
            Some(x) => subst_seq(types_model(v@), ns@, ids@, types_model(args@)) == Some(types_model(x@)),
            None => subst_seq(types_model(v@), ns@, ids@, types_model(args@)).is_none(),
        },
    decreases v, 0nat,
{
    proof {
        lemma_types_model(v@);
    }
    let mut out: Vec<Type> = Vec::new();
    let mut i: usize = 0;
    proof {
        assert(types_model(v@).take(0) =~= Seq::<TypeModel>::empty());
        assert(types_model(out@) =~= Seq::<TypeModel>::empty());
    }
    while i < v.len()
        invariant
            i <= v@.len(),
            types_model(v@).len() == v@.len(),
            forall|j: int| 0 <= j < v@.len() ==> #[trigger] types_model(v@)[j] == type_model(v@[j]),
            subst_seq(types_model(v@).take(i as int), ns@, ids@, types_model(args@)) == Some(types_model(out@)),
        decreases v@.len() - i,
    {
        proof {
            let ms = types_model(v@);
            assert(ms.take(i + 1).drop_last() =~= ms.take(i as int));
            assert(ms.take(i + 1).last() == type_model(v@[i as int]));
        }
        match subst_exec(&v[i], ns, ids, args) {
            None => {
                proof {
                    lemma_subst_seq_none_persists(types_model(v@), ns@, ids@, types_model(args@), i as int + 1);
                }
                return None;
            },
            Some(x) => {
                proof {
                    lemma_types_model_push(out@, x);
                }
                out.push(x);
            },
        }
        i = i + 1;
    }
    proof {
        assert(types_model(v@).take(v@.len() as int) =~= types_model(v@));
    }
    Some(out)
}

proof fn lemma_subst_seq_none_persists(s: Seq<TypeModel>, ns: Seq<char>, ids: Seq<i64>, args: Seq<TypeModel>, k: int)
    requires
        0 <= k <= s.len(),
        subst_seq(s.take(k), ns, ids, args).is_none(),
    ensures
        subst_seq(s, ns, ids, args).is_none(),
    decreases s.len() - k,
{
    if k < s.len() {
        assert(s.take(k + 1).drop_last() =~= s.take(k));
        lemma_subst_seq_none_persists(s, ns, ids, args, k + 1);
    } else {
        assert(s.take(k) =~= s);
    }
}

fn base_towards_exec(r: &TypeResolver, bases: &Vec<Type>, right: &str) -> (res: Option<Option<usize>>)
    ensures
        match res {
            None => base_towards(*r, bases@, right@, 0).is_none(),
            Some(None) => base_towards(*r, bases@, right@, 0) == Some(None::<int>),
            Some(Some(i)) => base_towards(*r, bases@, right@, 0) == Some(Some(i as int)) && i < bases@.len(),
        },
{
    let mut k: usize = 0;
    while k < bases.len()
        invariant
            k <= bases@.len(),
            base_towards(*r, bases@, right@, 0) == base_towards(*r, bases@, right@, k as int),
        decreases bases@.len() - k,
    {
        match &bases[k] {
            Type::Instance { type_ref: bc, .. } => {
                proof {
                    assert(bases@[k as int]@ matches TypeModel::Instance { type_ref: t, .. } && t == bc@);
                }
                if str_eq(bc.as_str(), right) {
                    return Some(Some(k));
                }
                match r.get(bc.as_str()) {
                    None => {
                        return None;
                    },
                    Some(bs) => {
                        if bs.has_base.contains(right) {
                            return Some(Some(k));
                        }
                    },
                }
            },
            _ => {
                return None;
            },
        }
        k = k + 1;
    }
    Some(None)
}

fn clone_slice(args: &[Type]) -> (v: Vec<Type>)
    ensures
        types_model(v@) == types_model(args@),
{
    proof {
        lemma_types_model(args@);
    }
    let mut v: Vec<Type> = Vec::new();
    let mut i: usize = 0;
    while i < args.len()
        invariant
            i <= args@.len(),
            types_model(args@).len() == args@.len(),
            forall|j: int| 0 <= j < args@.len() ==> #[trigger] types_model(args@)[j] == args@[j]@,
            types_model(v@) == types_model(args@).take(i as int),
        decreases args@.len() - i,
    {
        let c = clone_type(&args[i]);
        proof {
            lemma_types_model_push(v@, c);
            assert(types_model(args@).take(i + 1) =~= types_model(args@).take(i as int).push(c@));
        }
        v.push(c);
        i = i + 1;
    }
    proof {
        assert(types_model(args@).take(args@.len() as int) =~= types_model(args@));
    }
    v
}

fn map_fuel_exec(left: &str, args: &[Type], right: &str, r: &TypeResolver, fuel: u64) -> (res: Option<Vec<Type>>)
    ensures
        match res {
            Some(v) => map_fuel(*r, left@, types_model(args@), right@, fuel as nat) == Some(types_model(v@)),
            None => map_fuel(*r, left@, types_model(args@), right@, fuel as nat).is_none(),
        },
    decreases fuel,
{
    proof {
        lemma_types_model(args@);
    }
    if str_eq(left, right) {
        return Some(clone_slice(args));
    }
    let rs = match r.get(right) {
        None => {
            return None;
        },
        Some(rs) => rs,
    };
    if str_eq(right, "builtins.tuple") {
        match r.get(left) {
            None => {
                return None;
            },
            Some(ls) => {
                if ls.tuple_type.is_some() {
                    return None;
                }
            },
        }
    }
    if rs.type_vars.len() == 0 {
        let v: Vec<Type> = Vec::new();
        proof {
            assert(types_model(v@) =~= Seq::<TypeModel>::empty());
        }
        return Some(v);
    }
    if fuel == 0 {
        return None;
    }
    let ls = match r.get(left) {
        None => {
            return None;
        },
        Some(ls) => ls,
    };
    let k = match base_towards_exec(r, &ls.bases, right) {
        Some(Some(k)) => k,
        _ => {
            return None;
        },
    };
    match &ls.bases[k] {
        Type::Instance { type_ref: bc, args: ba, .. } => {
            proof {
                lemma_types_model(ba@);
                assert(ls.bases@[k as int]@ matches TypeModel::Instance { type_ref: t, args: a, .. } && t == bc@ && a
                    == types_model(ba@));
            }
            let expanded = if args.len() == 0 {
                let c = clone_types(ba);
                Some(c)
            } else if ls.type_var_raw_ids.len() != args.len() {
                None
            } else {
                subst_vec(ba, left, &ls.type_var_raw_ids, args)
            };
            match expanded {
                Some(ba2) => {
                    let s = ba2.as_slice();
                    proof {
                        assert(s@ == ba2@);
                    }
                    map_fuel_exec(bc.as_str(), s, right, r, fuel - 1)
                },
                None => None,
            }
        },
        _ => None,
    }
}

/// The type arguments `left_ref[left_args]` presents to its supertype
/// `right_ref`; see [`map_fuel`].
pub fn map_instance_to_supertype(left_ref: &str, left_args: &[Type], right_ref: &str, resolver: &TypeResolver) -> (r: Option<Vec<Type>>)
    ensures
        match r {
            Some(v) => map_to_super_spec(*resolver, left_ref@, types_model(left_args@), right_ref@) == Some(types_model(v@)),
            None => map_to_super_spec(*resolver, left_ref@, types_model(left_args@), right_ref@).is_none(),
        },
{
    map_fuel_exec(left_ref, left_args, right_ref, resolver, 32)
}

/// `tuple_fallback`: the partial fallback of a tuple whose class is not
/// `builtins.tuple`; otherwise `builtins.tuple` over the union of the
/// items, decided here for no items (`Never`) and for one item that is
/// neither a union, an alias nor unpacked. `None` otherwise.
pub open spec fn tuple_fallback_spec(t: TypeModel) -> Option<TypeModel> {
    match t {
        TypeModel::TupleType { partial_fallback, items, .. } => match *partial_fallback {
            TypeModel::Instance { type_ref, extra_attrs, .. } => if type_ref != "builtins.tuple"@ {
                Some(*partial_fallback)
            } else if items.len() == 0 {
                Some(TypeModel::Instance {
                    type_ref,
                    args: seq![TypeModel::UninhabitedType { ambiguous: false }],
                    last_known_value: None,
                    extra_attrs,
                })
            } else if items.len() == 1 && !(items[0] is UnionType) && !(items[0] is TypeAliasType) && !(items[0] is UnpackType) {
                Some(TypeModel::Instance { type_ref, args: seq![items[0]], last_known_value: None, extra_attrs })
            } else {
                None
            },
            _ => None,
        },
        _ => None,
    }
}

/// `tuple_fallback`: the instance a tuple type falls back to.
pub fn tuple_fallback(t: &Type, resolver: &TypeResolver) -> (r: Option<Type>)
    ensures
        match r {
            Some(x) => tuple_fallback_spec(t@) == Some(x@),
            None => tuple_fallback_spec(t@).is_none(),
        },
{
    match t {
        Type::TupleType { partial_fallback, items, .. } => {
            proof {
                lemma_types_model(items@);
                assert(t@ matches TypeModel::TupleType { partial_fallback: pf, items: it, .. }
                    && *pf == type_model(**partial_fallback) && it == types_model(items@));
            }
            match &**partial_fallback {
                Type::Instance { type_ref, extra_attrs, .. } => {
                    proof {
                        assert(type_model(**partial_fallback) matches TypeModel::Instance { type_ref: tr, extra_attrs: ea, .. }
                            && tr == type_ref@ && ea == crate::wire::extra_model(*extra_attrs));
                    }
                    if !str_eq(type_ref.as_str(), "builtins.tuple") {
                        return Some(clone_type(partial_fallback));
                    }
                    let arg = if items.len() == 0 {
                        Type::UninhabitedType { ambiguous: false }
                    } else if items.len() == 1 {
                        match &items[0] {
                            Type::UnionType { .. } => {
                                return None;
                            },
                            Type::TypeAliasType { .. } => {
                                return None;
                            },
                            Type::UnpackType { .. } => {
                                return None;
                            },
                            other => clone_type(other),
                        }
                    } else {
                        return None;
                    };
                    let extra = match extra_attrs {
                        Some(_) => {
                            let c = clone_type(partial_fallback);
                            match c {
                                Type::Instance { extra_attrs, .. } => extra_attrs,
                                _ => None,
                            }
                        },
                        None => None,
                    };
                    let ghost ex = crate::wire::extra_model(extra);
                    let args = vec![arg];
                    let ghost am = types_model(args@);
                    proof {
                        lemma_types_model(args@);
                        assert(am =~= seq![args@[0]@]);
                        assert(opt_type_model(None) == None::<Box<TypeModel>>);
                    }
                    let out = Type::Instance { type_ref: type_ref.clone(), args, last_known_value: None, extra_attrs: extra };
                    proof {
                        assert(out@ == TypeModel::Instance { type_ref: type_ref@, args: am, last_known_value: None, extra_attrs: ex });
                    }
                    Some(out)
                },
                _ => None,
            }
        },
        _ => None,
    }
}


/// Whether an item equal to atom `a` is already kept: the exact-duplicate
/// lookup that runs before any subtype question.
pub open spec fn kept_has_atom(kept: Seq<TypeModel>, a: Atom) -> bool {
    exists|j: int| 0 <= j < kept.len() && atom_of(#[trigger] kept[j]) == Some(a)
}

/// The settings of the redundancy test: promotions never make an item
/// redundant.
pub open spec fn redundancy_ctx(strict_optional: bool) -> SubtypeContext {
    plain_ctx(true, strict_optional)
}

/// Whether a non-atomic item takes part in redundancy removal: an
/// instance with type arguments (no last known value or extra
/// attributes), a literal, a tuple, a callable, a type variable or a
/// `type[...]`.
pub open spec fn simplifiable(t: TypeModel) -> bool {
    ||| t matches TypeModel::Instance { last_known_value, extra_attrs, .. } && last_known_value.is_none()
        && extra_attrs.is_none()
    ||| t is LiteralType
    ||| t is TupleType
    ||| t is CallableType
    ||| t is TypeVarType
    ||| t is TypeType
}

/// Whether item `ti` stays beside the items kept so far: `Never` never
/// stays; an item equal to a kept one, or a proper subtype of one, does
/// not stay; any other does. `None` for an item that neither is an atom
/// nor takes part (see [`simplifiable`]), or where a subtype question is
/// not decided.
pub open spec fn keep_verdict(r: TypeResolver, ti: TypeModel, kept: Seq<TypeModel>, strict_optional: bool) -> Option<bool> {
    match atom_of(ti) {
        None => if simplifiable(ti) {
            match any_verdict(kept.map_values(|k: TypeModel| sub_spec(r, ti, k, redundancy_ctx(strict_optional), true))) {
                Some(true) => Some(false),
                Some(false) => Some(true),
                None => None,
            }
        } else {
            None
        },
        Some(Atom::Never) => Some(false),
        Some(a) => if kept_has_atom(kept, a) {
            Some(false)
        } else {
            match any_verdict(kept.map_values(|k: TypeModel| sub_spec(r, ti, k, redundancy_ctx(strict_optional), true))) {
                Some(true) => Some(false),
                Some(false) => Some(true),
                None => None,
            }
        },
    }
}

/// One left-to-right pass of redundancy removal: each item is tested
/// against the items the pass kept before it.
pub open spec fn redundancy_pass(r: TypeResolver, items: Seq<TypeModel>, strict_optional: bool) -> Option<Seq<TypeModel>>
    decreases items.len(),
{
    if items.len() == 0 {
        Some(Seq::empty())
    } else {
        match redundancy_pass(r, items.drop_last(), strict_optional) {
            None => None,
            Some(kept) => match keep_verdict(r, items.last(), kept, strict_optional) {
                None => None,
                Some(true) => Some(kept.push(items.last())),
                Some(false) => Some(kept),
            },
        }
    }
}

/// Redundancy removal: a pass, a second pass over the survivors in
/// reverse (so an item is also dropped for a later item that covers it),
/// and the original order restored.
pub open spec fn remove_redundant_spec(r: TypeResolver, items: Seq<TypeModel>, strict_optional: bool) -> Option<Seq<TypeModel>> {
    match redundancy_pass(r, items, strict_optional) {
        None => None,
        Some(k1) => match redundancy_pass(r, k1.reverse(), strict_optional) {
            None => None,
            Some(k2) => Some(k2.reverse()),
        },
    }
}

/// `flatten_nested_unions` on models: nested union items expanded in
/// place, in order; `None` on an alias item.
pub open spec fn flatten_model(items: Seq<TypeModel>) -> Option<Seq<TypeModel>>
    decreases items,
{
    if items.len() == 0 {
        Some(Seq::empty())
    } else {
        let last = items.last();
        match flatten_model(items.drop_last()) {
            None => None,
            Some(prefix) => match last {
                TypeModel::TypeAliasType { .. } => None,
                TypeModel::UnionType { items: sub, .. } => {
                    proof {
                        assert(decreases_to!(items => last));
                    }
                    match flatten_model(sub) {
                        None => None,
                        Some(inner) => Some(prefix + inner),
                    }
                },
                _ => Some(prefix.push(last)),
            },
        }
    }
}

/// Flattening a list of types agrees with flattening their models.
pub proof fn lemma_flatten_model(items: Seq<Type>)
    ensures
        flatten_spec(items).is_some() == flatten_model(types_model(items)).is_some(),
        flatten_spec(items).is_some() ==> types_model(flatten_spec(items).unwrap()) == flatten_model(types_model(items)).unwrap(),
    decreases items,
{
    if items.len() > 0 {
        let last = items.last();
        lemma_flatten_model(items.drop_last());
        assert(types_model(items).drop_last() == types_model(items.drop_last()));
        assert(types_model(items).last() == last@);
        match last {
            Type::UnionType { items: sub, .. } => {
                assert(decreases_to!(items => last));
                lemma_flatten_model(sub@);
                if flatten_spec(items.drop_last()).is_some() && flatten_spec(sub@).is_some() {
                    lemma_types_model_concat(flatten_spec(items.drop_last()).unwrap(), flatten_spec(sub@).unwrap());
                }
            },
            Type::TypeAliasType { .. } => {},
            _ => {
                if flatten_spec(items.drop_last()).is_some() {
                    lemma_types_model_push(flatten_spec(items.drop_last()).unwrap(), last);
                }
            },
        }
    }
}

/// A list of atoms flattens to itself.
pub proof fn lemma_flatten_model_atoms(items: Seq<TypeModel>)
    requires
        forall|i: int| 0 <= i < items.len() ==> atom_of(#[trigger] items[i]).is_some(),
    ensures
        flatten_model(items) == Some(items),
    decreases items.len(),
{
    if items.len() > 0 {
        let prefix = items.drop_last();
        assert forall|i: int| 0 <= i < prefix.len() implies atom_of(#[trigger] prefix[i]).is_some() by {
            assert(prefix[i] == items[i]);
        }
        lemma_flatten_model_atoms(prefix);
        assert(atom_of(items[items.len() - 1]).is_some());
        assert(prefix.push(items.last()) =~= items);
    }
}

/// `make_simplified_union`: the items flattened; a single item as it is;
/// otherwise the items with every redundant one removed, made into a
/// union. `None` where flattening declines, or where removal is not
/// decided (an item outside the atoms, or an open subtype question).
pub open spec fn simplified_union_spec(r: TypeResolver, items: Seq<TypeModel>, strict_optional: bool) -> Option<TypeModel> {
    match flatten_model(items) {
        None => None,
        Some(flat) => if flat.len() == 1 {
            Some(flat[0])
        } else {
            match remove_redundant_spec(r, flat, strict_optional) {
                None => None,
                Some(kept) => if contraction_open(r, kept) {
                    None
                } else {
                    Some(make_union_spec(kept))
                },
            }
        },
    }
}

/// Whether a literal could be contracted with others into its sum type:
/// a `bool` literal, or one whose fallback is an enum class, is not an
/// argument-free instance, or has no snapshot.
pub open spec fn contractible_literal(r: TypeResolver, t: TypeModel) -> bool {
    match t {
        TypeModel::LiteralType { fallback, value } => value is Bool || match atom_of(*fallback) {
            Some(Atom::Class(c)) => match r.class_of(c) {
                Some(cs) => cs.is_enum,
                None => true,
            },
            _ => true,
        },
        _ => false,
    }
}

/// Whether the kept items hold two or more literals of which one could be
/// contracted into its sum type (`Literal[True, False]` into `bool`, all
/// members of an enum into the enum); that contraction is not done here.
pub open spec fn contraction_open(r: TypeResolver, kept: Seq<TypeModel>) -> bool {
    exists|i: int, j: int|
        0 <= i < kept.len() && 0 <= j < kept.len() && i != j && (#[trigger] kept[i]) is LiteralType
            && contractible_literal(r, #[trigger] kept[j])
}

fn same_atom(a: &AtomExec, t: &Type) -> (r: bool)
    ensures
        r == (atom_of(t@) == Some(atom_model(*a))),
{
    match atom_exec(t) {
        None => false,
        Some(b) => match (a, b) {
            (AtomExec::Any, AtomExec::Any) => true,
            (AtomExec::Never, AtomExec::Never) => true,
            (AtomExec::NoneT, AtomExec::NoneT) => true,
            (AtomExec::Class(x), AtomExec::Class(y)) => str_eq(x.as_str(), y.as_str()),
            _ => false,
        },
    }
}

fn simplifiable_exec(t: &Type) -> (b: bool)
    ensures
        b == simplifiable(t@),
{
    match t {
        Type::Instance { args, last_known_value, extra_attrs, .. } => {
            proof {
                lemma_types_model(args@);
                assert(opt_type_model(None) == None::<Box<TypeModel>>);
                assert(crate::wire::extra_model(None) == None::<crate::wire::ExtraAttrsModel>);
                assert(t@ matches TypeModel::Instance { last_known_value: l, extra_attrs: e, .. }
                    && l == opt_type_model(*last_known_value) && e == crate::wire::extra_model(*extra_attrs));
            }
            last_known_value.is_none() && extra_attrs.is_none()
        },
        Type::LiteralType { .. } => true,
        Type::TupleType { .. } => true,
        Type::CallableType { .. } => true,
        Type::TypeVarType { .. } => true,
        Type::TypeType { .. } => true,
        _ => false,
    }
}

/// Whether `ti` is a proper subtype of some kept item, three-valued.
fn covered_by_kept(r: &TypeResolver, ti: &Type, kept: &Vec<Type>, strict_optional: bool) -> (v: Option<bool>)
    ensures
        v == any_verdict(types_model(kept@).map_values(|k: TypeModel| sub_spec(*r, ti@, k, redundancy_ctx(strict_optional), true))),
{
    let ghost km = types_model(kept@);
    proof {
        lemma_types_model(kept@);
    }
    let ctx = SubtypeContext { strict_optional, ignore_promotions: true, ignore_type_params: false };
    let ghost vs = km.map_values(|k: TypeModel| sub_spec(*r, ti@, k, redundancy_ctx(strict_optional), true));
    let mut saw_true = false;
    let mut all_false = true;
    let mut i: usize = 0;
    while i < kept.len()
        invariant
            i <= kept@.len(),
            km == types_model(kept@),
            km.len() == kept@.len(),
            forall|x: int| 0 <= x < kept@.len() ==> #[trigger] km[x] == kept@[x]@,
            ctx == redundancy_ctx(strict_optional),
            vs == km.map_values(|k: TypeModel| sub_spec(*r, ti@, k, redundancy_ctx(strict_optional), true)),
            saw_true == exists|x: int| 0 <= x < i && vs[x] == Some(true),
            all_false == forall|x: int| 0 <= x < i ==> vs[x] == Some(false),
        decreases kept@.len() - i,
    {
        let v = sub_exec(r, ti, &kept[i], &ctx, true);
        proof {
            assert(vs[i as int] == v);
        }
        if v == Some(true) {
            saw_true = true;
        }
        if v != Some(false) {
            all_false = false;
        }
        i = i + 1;
    }
    if saw_true {
        Some(true)
    } else if all_false {
        Some(false)
    } else {
        None
    }
}

fn contractible_literal_exec(r: &TypeResolver, t: &Type) -> (b: bool)
    ensures
        b == contractible_literal(*r, t@),
{
    match t {
        Type::LiteralType { fallback, value } => {
            proof {
                assert(t@ matches TypeModel::LiteralType { fallback: f, value: v } && *f == fallback@ && v == literal_model(*value));
            }
            let is_bool = match value {
                LiteralValue::Bool(_) => true,
                _ => false,
            };
            if is_bool {
                return true;
            }
            match atom_exec(fallback) {
                Some(AtomExec::Class(c)) => match r.get(c.as_str()) {
                    Some(cs) => cs.is_enum,
                    None => true,
                },
                _ => true,
            }
        },
        _ => false,
    }
}

fn contraction_open_exec(r: &TypeResolver, kept: &Vec<Type>) -> (b: bool)
    ensures
        b == contraction_open(*r, types_model(kept@)),
{
    let ghost km = types_model(kept@);
    proof {
        lemma_types_model(kept@);
    }
    let mut j: usize = 0;
    while j < kept.len()
        invariant
            j <= kept@.len(),
            km == types_model(kept@),
            km.len() == kept@.len(),
            forall|x: int| 0 <= x < kept@.len() ==> #[trigger] km[x] == kept@[x]@,
            forall|x: int, y: int|
                0 <= x < km.len() && 0 <= y < j && x != y && (#[trigger] km[x]) is LiteralType ==> !contractible_literal(
                    *r,
                    #[trigger] km[y],
                ),
        decreases kept@.len() - j,
    {
        if contractible_literal_exec(r, &kept[j]) {
            let mut i: usize = 0;
            while i < kept.len()
                invariant
                    i <= kept@.len(),
                    j < kept@.len(),
                    km == types_model(kept@),
                    km.len() == kept@.len(),
                    forall|x: int| 0 <= x < kept@.len() ==> #[trigger] km[x] == kept@[x]@,
                    contractible_literal(*r, km[j as int]),
                    forall|x: int| 0 <= x < i && x != j ==> !(#[trigger] km[x] is LiteralType),
                decreases kept@.len() - i,
            {
                let is_lit = match &kept[i] {
                    Type::LiteralType { .. } => true,
                    _ => false,
                };
                if is_lit && i != j {
                    proof {
                        assert(km[i as int] is LiteralType);
                        assert(0 <= i < km.len() && 0 <= j < km.len() && i != j && km[i as int] is LiteralType
                            && contractible_literal(*r, km[j as int]));
                    }
                    return true;
                }
                i = i + 1;
            }
        }
        j = j + 1;
    }
    false
}

fn keep_item(r: &TypeResolver, ti: &Type, kept: &Vec<Type>, strict_optional: bool) -> (v: Option<bool>)
    ensures
        v == keep_verdict(*r, ti@, types_model(kept@), strict_optional),
{
    let ghost km = types_model(kept@);
    proof {
        lemma_types_model(kept@);
    }
    let a = match atom_exec(ti) {
        None => {
            if !simplifiable_exec(ti) {
                return None;
            }
            return match covered_by_kept(r, ti, kept, strict_optional) {
                Some(true) => Some(false),
                Some(false) => Some(true),
                None => None,
            };
        },
        Some(a) => a,
    };
    proof {
        assert(atom_of(ti@) == Some(atom_model(a)));
    }
    if let AtomExec::Never = a {
        return Some(false);
    }
    proof {
        assert(atom_model(a) != Atom::Never);
    }
    let mut j: usize = 0;
    while j < kept.len()
        invariant
            j <= kept@.len(),
            km == types_model(kept@),
            km.len() == kept@.len(),
            forall|x: int| 0 <= x < kept@.len() ==> #[trigger] km[x] == kept@[x]@,
            forall|x: int| 0 <= x < j ==> atom_of(#[trigger] km[x]) != Some(atom_model(a)),
            atom_of(ti@) == Some(atom_model(a)),
            atom_model(a) != Atom::Never,
        decreases kept@.len() - j,
    {
        if same_atom(&a, &kept[j]) {
            proof {
                assert(atom_of(km[j as int]) == Some(atom_model(a)));
                assert(kept_has_atom(km, atom_model(a)));
            }
            return Some(false);
        }
        j = j + 1;
    }
    let ctx = SubtypeContext { strict_optional, ignore_promotions: true, ignore_type_params: false };
    let ghost vs = km.map_values(|k: TypeModel| sub_spec(*r, ti@, k, redundancy_ctx(strict_optional), true));
    let mut saw_true = false;
    let mut all_false = true;
    let mut i: usize = 0;
    while i < kept.len()
        invariant
            i <= kept@.len(),
            km == types_model(kept@),
            km.len() == kept@.len(),
            forall|x: int| 0 <= x < kept@.len() ==> #[trigger] km[x] == kept@[x]@,
            ctx == redundancy_ctx(strict_optional),
            vs == km.map_values(|k: TypeModel| sub_spec(*r, ti@, k, redundancy_ctx(strict_optional), true)),
            saw_true == exists|x: int| 0 <= x < i && vs[x] == Some(true),
            all_false == forall|x: int| 0 <= x < i ==> vs[x] == Some(false),
            atom_of(ti@) == Some(atom_model(a)),
            atom_model(a) != Atom::Never,
            !kept_has_atom(km, atom_model(a)),
        decreases kept@.len() - i,
    {
        let v = sub_exec(r, ti, &kept[i], &ctx, true);
        proof {
            assert(vs[i as int] == v);
        }
        if v == Some(true) {
            saw_true = true;
        }
        if v != Some(false) {
            all_false = false;
        }
        i = i + 1;
    }
    if saw_true {
        Some(false)
    } else if all_false {
        Some(true)
    } else {
        None
    }
}

proof fn lemma_pass_none_persists(r: TypeResolver, items: Seq<TypeModel>, k: int, strict_optional: bool)
    requires
        0 <= k <= items.len(),
        redundancy_pass(r, items.take(k), strict_optional).is_none(),
    ensures
        redundancy_pass(r, items, strict_optional).is_none(),
    decreases items.len() - k,
{
    if k < items.len() {
        assert(items.take(k + 1).drop_last() =~= items.take(k));
        lemma_pass_none_persists(r, items, k + 1, strict_optional);
    } else {
        assert(items.take(k) =~= items);
    }
}

fn redundancy_pass_exec(r: &TypeResolver, items: &Vec<Type>, strict_optional: bool) -> (res: Option<Vec<Type>>)
    ensures
        match res {
            Some(k) => redundancy_pass(*r, types_model(items@), strict_optional) == Some(types_model(k@)),
            None => redundancy_pass(*r, types_model(items@), strict_optional).is_none(),
        },
{
    let ghost im = types_model(items@);
    proof {
        lemma_types_model(items@);
        assert(im.take(0) =~= Seq::<TypeModel>::empty());
        assert(types_model(Seq::<Type>::empty()) =~= Seq::<TypeModel>::empty());
    }
    let mut kept: Vec<Type> = Vec::new();
    let mut i: usize = 0;
    while i < items.len()
        invariant
            i <= items@.len(),
            im == types_model(items@),
            im.len() == items@.len(),
            forall|x: int| 0 <= x < items@.len() ==> #[trigger] im[x] == items@[x]@,
            redundancy_pass(*r, im.take(i as int), strict_optional) == Some(types_model(kept@)),
        decreases items@.len() - i,
    {
        proof {
            assert(im.take(i + 1).drop_last() =~= im.take(i as int));
            assert(im.take(i + 1).last() == im[i as int]);
        }
        match keep_item(r, &items[i], &kept, strict_optional) {
            None => {
                proof {
                    lemma_pass_none_persists(*r, im, i + 1, strict_optional);
                }
                return None;
            },
            Some(true) => {
                let c = clone_type(&items[i]);
                proof {
                    lemma_types_model_push(kept@, c);
                }
                kept.push(c);
            },
            Some(false) => {},
        }
        i = i + 1;
    }
    proof {
        assert(im.take(im.len() as int) =~= im);
    }
    Some(kept)
}

fn reverse_types(v: Vec<Type>) -> (r: Vec<Type>)
    ensures
        types_model(r@) == types_model(v@).reverse(),
{
    let ghost v0 = v@;
    let ghost n = v@.len();
    let mut v = v;
    let mut out: Vec<Type> = Vec::new();
    while v.len() > 0
        invariant
            n == v0.len(),
            v@.len() + out@.len() == n,
            v@ == v0.take(v@.len() as int),
            forall|j: int| 0 <= j < out@.len() ==> #[trigger] out@[j] == v0[n - 1 - j],
        decreases v@.len(),
    {
        let ghost before = v@;
        let x = v.pop().unwrap();
        proof {
            assert(x == v0[before.len() - 1]);
            assert(v@ =~= v0.take(v@.len() as int));
        }
        out.push(x);
    }
    proof {
        lemma_types_model(out@);
        lemma_types_model(v0);
        let a = types_model(out@);
        let b = types_model(v0).reverse();
        assert(a.len() == b.len());
        assert forall|j: int| 0 <= j < a.len() implies a[j] == b[j] by {
            assert(out@[j] == v0[n - 1 - j]);
        }
        assert(a =~= b);
    }
    out
}

/// `make_simplified_union` at the default flags: the items flattened, a
/// single item returned as it is, otherwise every `Never`, every exact
/// duplicate and every item that is a proper subtype of another (with
/// promotions ignored) removed, then a union made of the rest. Declines
/// where flattening declines (an alias item), on an item outside `Any`,
/// `Never`, `None` and bare instances, and where a subtype question is
/// not decided.
pub fn make_simplified_union(items: &[Type], ctx: &SubtypeContext, resolver: &TypeResolver) -> (r: Option<Type>)
    ensures
        match r {
            Some(t) => simplified_union_spec(*resolver, types_model(items@), ctx.strict_optional) == Some(t@),
            None => simplified_union_spec(*resolver, types_model(items@), ctx.strict_optional).is_none(),
        },
{
    proof {
        lemma_flatten_model(items@);
    }
    let flat = match flatten_nested_unions(items) {
        None => {
            return None;
        },
        Some(f) => f,
    };
    let ghost fs = flatten_spec(items@).unwrap();
    proof {
        lemma_types_model(flat@);
        lemma_types_model(fs);
    }
    if flat.len() == 1 {
        return Some(clone_type(&flat[0]));
    }
    let so = ctx.strict_optional;
    let k1 = match redundancy_pass_exec(resolver, &flat, so) {
        None => {
            return None;
        },
        Some(k) => k,
    };
    let rev1 = reverse_types(k1);
    let k2 = match redundancy_pass_exec(resolver, &rev1, so) {
        None => {
            return None;
        },
        Some(k) => k,
    };
    let rev2 = reverse_types(k2);
    if contraction_open_exec(resolver, &rev2) {
        return None;
    }
    Some(make_union(rev2))
}


/// Whether a type is a bare instance.
pub open spec fn is_class_atom(t: TypeModel) -> bool {
    atom_of(t) matches Some(Atom::Class(_))
}

/// The mypyc native integer classes, which overlap `builtins.int`.
pub open spec fn native_int_name(c: Seq<char>) -> bool {
    c == "mypy_extensions.i64"@ || c == "mypy_extensions.i32"@ || c == "mypy_extensions.i16"@ || c == "mypy_extensions.u8"@
}

/// `is_overlapping_types` on the shapes decided here: an erased or deleted
/// operand overlaps anything, as does `Any`; two bare instances overlap
/// when one is a proper subtype of the other, then when one is a subtype
/// of the other (a proper one when checking overloads), then when the left
/// is a mypyc native integer and the right `builtins.int`, and two
/// unrelated instances do not overlap. `None` for an alias operand, any
/// other pair of shapes, and where a subtype question is not decided (a
/// protocol, a missing snapshot, a promotion).
pub open spec fn overlap_spec(
    r: TypeResolver,
    left: TypeModel,
    right: TypeModel,
    ignore_promotions: bool,
    overlap_for_overloads: bool,
    strict_optional: bool,
) -> Option<bool> {
    if left is TypeAliasType || right is TypeAliasType {
        None
    } else if left is ErasedType || left is DeletedType || right is ErasedType || right is DeletedType {
        Some(true)
    } else if left is AnyType || right is AnyType {
        Some(true)
    } else {
        overlap_classes(r, left, right, ignore_promotions, overlap_for_overloads, strict_optional)
    }
}

/// The overlap of two bare instances, as [`overlap_spec`] states it.
pub open spec fn overlap_classes(
    r: TypeResolver,
    left: TypeModel,
    right: TypeModel,
    ignore_promotions: bool,
    overlap_for_overloads: bool,
    strict_optional: bool,
) -> Option<bool> {
    match (atom_of(left), atom_of(right)) {
        (Some(Atom::Class(lc)), Some(Atom::Class(rc))) => {
            let ctx = plain_ctx(ignore_promotions, strict_optional);
            match any_verdict(seq![sub_spec(r, left, right, ctx, true), sub_spec(r, right, left, ctx, true)]) {
                None => None,
                Some(true) => Some(true),
                Some(false) => match any_verdict(
                    seq![
                        sub_spec(r, left, right, ctx, overlap_for_overloads),
                        sub_spec(r, right, left, ctx, overlap_for_overloads),
                    ],
                ) {
                    None => None,
                    Some(true) => Some(true),
                    Some(false) => Some(rc == "builtins.int"@ && native_int_name(lc)),
                },
            }
        },
        _ => None,
    }
}

fn either_verdict(a: Option<bool>, b: Option<bool>) -> (r: Option<bool>)
    ensures
        r == any_verdict(seq![a, b]),
{
    let ghost s = seq![a, b];
    proof {
        assert(s[0] == a && s[1] == b);
    }
    if a == Some(true) || b == Some(true) {
        proof {
            if a == Some(true) {
                assert(s[0] == Some(true));
            } else {
                assert(s[1] == Some(true));
            }
        }
        Some(true)
    } else if a == Some(false) && b == Some(false) {
        Some(false)
    } else {
        proof {
            if a != Some(false) {
                assert(s[0] != Some(false));
            } else {
                assert(s[1] != Some(false));
            }
        }
        None
    }
}

fn overlap_shape(t: &Type) -> (r: u8)
    ensures
        (r == 0) == (t@ is TypeAliasType),
        (r == 1) == (t@ is ErasedType || t@ is DeletedType),
        (r == 2) == (t@ is AnyType),
{
    match t {
        Type::TypeAliasType { .. } => 0,
        Type::ErasedType => 1,
        Type::DeletedType { .. } => 1,
        Type::AnyType { .. } => 2,
        _ => 3,
    }
}

/// Whether two types can hold the same value; see [`overlap_spec`].
pub fn is_overlapping_types(
    left: &Type,
    right: &Type,
    ignore_promotions: bool,
    overlap_for_overloads: bool,
    strict_optional: bool,
    resolver: &TypeResolver,
) -> (r: Option<bool>)
    ensures
        r == overlap_spec(*resolver, left@, right@, ignore_promotions, overlap_for_overloads, strict_optional),
{
    let (sl, sr) = (overlap_shape(left), overlap_shape(right));
    if sl == 0 || sr == 0 {
        return None;
    }
    if sl == 1 || sr == 1 || sl == 2 || sr == 2 {
        return Some(true);
    }
    let (lc, rc) = match (atom_exec(left), atom_exec(right)) {
        (Some(AtomExec::Class(lc)), Some(AtomExec::Class(rc))) => (lc, rc),
        _ => {
            return None;
        },
    };
    let ctx = SubtypeContext { strict_optional, ignore_promotions, ignore_type_params: false };
    match either_verdict(sub_exec(resolver, left, right, &ctx, true), sub_exec(resolver, right, left, &ctx, true)) {
        None => None,
        Some(true) => Some(true),
        Some(false) => match either_verdict(
            sub_exec(resolver, left, right, &ctx, overlap_for_overloads),
            sub_exec(resolver, right, left, &ctx, overlap_for_overloads),
        ) {
            None => None,
            Some(true) => Some(true),
            Some(false) => Some(
                str_eq(rc.as_str(), "builtins.int") && (str_eq(lc.as_str(), "mypy_extensions.i64") || str_eq(
                    lc.as_str(),
                    "mypy_extensions.i32",
                ) || str_eq(lc.as_str(), "mypy_extensions.i16") || str_eq(lc.as_str(), "mypy_extensions.u8")),
            ),
        },
    }
}

/// Whether a promotion keeps a declared instance from narrowing: the
/// declared class has a native-integer counterpart, or the narrowed class
/// is the counterpart of the declared one. `None` when either class has
/// no snapshot.
pub open spec fn promote_blocks(r: TypeResolver, d: Seq<char>, n: Seq<char>) -> Option<bool> {
    match (r.class_of(d), r.class_of(n)) {
        (Some(ds), Some(ns)) => Some(
            ds.alt_promote_fullname.is_some() || (ns.alt_promote_fullname matches Some(p) && p@ == d),
        ),
        _ => None,
    }
}

/// Whether a type is narrowed here: a bare instance or `Any`.
pub open spec fn narrowable(t: TypeModel) -> bool {
    is_class_atom(t) || t is AnyType
}

/// Narrowing one bare instance by another: the empty meet (`Never`, or
/// `None` without strict optional) when they do not overlap; the declared
/// instance when a promotion blocks narrowing; otherwise their meet. A
/// narrowing `Any`, or a declared `Any` narrowed by an instance, gives the
/// narrowing type.
#[verifier::opaque]
pub open spec fn narrow_pair_spec(r: TypeResolver, d: TypeModel, n: TypeModel, strict_optional: bool) -> Option<TypeModel> {
    match (atom_of(d), atom_of(n)) {
        (Some(Atom::Class(dc)), Some(Atom::Class(nc))) => match overlap_spec(r, d, n, false, false, strict_optional) {
            None => None,
            Some(false) => Some(bottom_spec(strict_optional)),
            Some(true) => match promote_blocks(r, dc, nc) {
                None => None,
                Some(true) => Some(d),
                Some(false) => meet_spec(r, d, n, plain_ctx(false, strict_optional)),
            },
        },
        _ => if narrowable(d) && narrowable(n) {
            Some(n)
        } else {
            None
        },
    }
}

/// Whether a declared union item stays in the narrowed union: it
/// overlaps the narrowing item (promotions ignored), or the narrowing
/// item is a subtype of it.
#[verifier::opaque]
pub open spec fn narrow_keep(r: TypeResolver, d: TypeModel, n: TypeModel, strict_optional: bool) -> Option<bool> {
    match overlap_spec(r, d, n, true, false, strict_optional) {
        None => None,
        Some(true) => Some(true),
        Some(false) => sub_spec(r, n, d, plain_ctx(false, strict_optional), false),
    }
}

/// The narrowings of declared item `d` by the first `m` narrowing items
/// that it keeps, in order.
pub open spec fn narrow_row(r: TypeResolver, d: TypeModel, ns: Seq<TypeModel>, strict_optional: bool, m: int) -> Option<Seq<TypeModel>>
    decreases m,
{
    if m <= 0 {
        Some(Seq::empty())
    } else {
        match narrow_row(r, d, ns, strict_optional, m - 1) {
            None => None,
            Some(p) => match narrow_keep(r, d, ns[m - 1], strict_optional) {
                None => None,
                Some(false) => Some(p),
                Some(true) => match narrow_pair_spec(r, d, ns[m - 1], strict_optional) {
                    None => None,
                    Some(x) => Some(p.push(x)),
                },
            },
        }
    }
}

/// The rows of the first `k` declared items, concatenated.
pub open spec fn narrow_rows(r: TypeResolver, ds: Seq<TypeModel>, ns: Seq<TypeModel>, strict_optional: bool, k: int) -> Option<Seq<TypeModel>>
    decreases k,
{
    if k <= 0 {
        Some(Seq::empty())
    } else {
        match narrow_rows(r, ds, ns, strict_optional, k - 1) {
            None => None,
            Some(p) => match narrow_row(r, ds[k - 1], ns, strict_optional, ns.len() as int) {
                None => None,
                Some(q) => Some(p + q),
            },
        }
    }
}

/// Whether every type of a list is narrowed here.
pub open spec fn all_narrowable(s: Seq<TypeModel>) -> bool {
    forall|i: int| 0 <= i < s.len() ==> narrowable(#[trigger] s[i])
}

/// `make_simplified_union` on a list of atoms, which flattening leaves as
/// it is.
pub open spec fn simplify_atoms_spec(r: TypeResolver, xs: Seq<TypeModel>, strict_optional: bool) -> Option<TypeModel> {
    if xs.len() == 1 {
        Some(xs[0])
    } else {
        match remove_redundant_spec(r, xs, strict_optional) {
            None => None,
            Some(kept) => if contraction_open(r, kept) {
                None
            } else {
                Some(make_union_spec(kept))
            },
        }
    }
}

/// `narrow_declared_type` over bare instances, `Any` and unions of them: a
/// declared union narrows item by item against each narrowing item (the
/// items of a narrowing union, or the narrowing type itself), keeping the
/// pairs that may meet, and simplifies the results into a union; a
/// declared instance narrows by a narrowing instance as
/// [`narrow_pair_spec`] says. `None` for any other shapes, and where a
/// question on the path is not decided.
pub open spec fn narrow_spec(r: TypeResolver, declared: TypeModel, narrowed: TypeModel, strict_optional: bool) -> Option<TypeModel> {
    match declared {
        TypeModel::UnionType { items: ds, .. } => {
            let ns = match narrowed {
                TypeModel::UnionType { items, .. } => items,
                _ => seq![narrowed],
            };
            if !all_narrowable(ds) || !all_narrowable(ns) {
                None
            } else {
                match narrow_rows(r, ds, ns, strict_optional, ds.len() as int) {
                    None => None,
                    Some(xs) => simplify_atoms_spec(r, xs, strict_optional),
                }
            }
        },
        _ => narrow_pair_spec(r, declared, narrowed, strict_optional),
    }
}

fn promote_blocks_exec(r: &TypeResolver, d: &String, n: &String) -> (v: Option<bool>)
    ensures
        v == promote_blocks(*r, d@, n@),
{
    match (r.get(d.as_str()), r.get(n.as_str())) {
        (Some(ds), Some(ns)) => {
            if ds.alt_promote_fullname.is_some() {
                return Some(true);
            }
            match &ns.alt_promote_fullname {
                Some(p) => Some(str_eq(p.as_str(), d.as_str())),
                None => Some(false),
            }
        },
        _ => None,
    }
}

fn narrow_pair(r: &TypeResolver, d: &Type, n: &Type, strict_optional: bool) -> (v: Option<Type>)
    ensures
        match v {
            Some(x) => narrow_pair_spec(*r, d@, n@, strict_optional) == Some(x@),
            None => narrow_pair_spec(*r, d@, n@, strict_optional).is_none(),
        },
{
    proof {
        reveal(narrow_pair_spec);
    }
    let (dc, nc) = match (atom_exec(d), atom_exec(n)) {
        (Some(AtomExec::Class(dc)), Some(AtomExec::Class(nc))) => (dc, nc),
        (da, na) => {
            let dn = match da {
                Some(AtomExec::Class(_)) => true,
                Some(AtomExec::Any) => true,
                _ => false,
            };
            let nn = match na {
                Some(AtomExec::Class(_)) => true,
                Some(AtomExec::Any) => true,
                _ => false,
            };
            if dn && nn {
                return Some(clone_type(n));
            }
            return None;
        },
    };
    proof {
        reveal(narrow_pair_spec);
    }
    match is_overlapping_types(d, n, false, false, strict_optional, r) {
        None => None,
        Some(false) => Some(bottom_type(strict_optional)),
        Some(true) => match promote_blocks_exec(r, dc, nc) {
            None => None,
            Some(true) => Some(clone_type(d)),
            Some(false) => {
                let ctx = SubtypeContext { strict_optional, ignore_promotions: false, ignore_type_params: false };
                meet_types(d, n, &ctx, r)
            },
        },
    }
}

fn all_narrowable_exec(v: &Vec<Type>) -> (r: bool)
    ensures
        r == all_narrowable(types_model(v@)),
{
    proof {
        lemma_types_model(v@);
    }
    let ghost vm = types_model(v@);
    let mut i: usize = 0;
    while i < v.len()
        invariant
            i <= v@.len(),
            vm == types_model(v@),
            vm.len() == v@.len(),
            forall|j: int| 0 <= j < v@.len() ==> #[trigger] vm[j] == v@[j]@,
            forall|j: int| 0 <= j < i ==> narrowable(#[trigger] vm[j]),
        decreases v@.len() - i,
    {
        let ok = match atom_exec(&v[i]) {
            Some(AtomExec::Class(_)) => true,
            Some(AtomExec::Any) => true,
            _ => false,
        };
        if !ok {
            proof {
                assert(!narrowable(vm[i as int]));
            }
            return false;
        }
        i = i + 1;
    }
    true
}

proof fn lemma_row_none(r: TypeResolver, d: TypeModel, ns: Seq<TypeModel>, so: bool, k: int, n: int)
    requires
        0 <= k <= n,
        narrow_row(r, d, ns, so, k).is_none(),
    ensures
        narrow_row(r, d, ns, so, n).is_none(),
    decreases n - k,
{
    if k < n {
        lemma_row_none(r, d, ns, so, k + 1, n);
    }
}

proof fn lemma_rows_none(r: TypeResolver, ds: Seq<TypeModel>, ns: Seq<TypeModel>, so: bool, k: int, n: int)
    requires
        0 <= k <= n,
        narrow_rows(r, ds, ns, so, k).is_none(),
    ensures
        narrow_rows(r, ds, ns, so, n).is_none(),
    decreases n - k,
{
    if k < n {
        lemma_rows_none(r, ds, ns, so, k + 1, n);
    }
}

fn narrow_keep_exec(r: &TypeResolver, d: &Type, n: &Type, strict_optional: bool) -> (v: Option<bool>)
    ensures
        v == narrow_keep(*r, d@, n@, strict_optional),
{
    proof {
        reveal(narrow_keep);
    }
    match is_overlapping_types(d, n, true, false, strict_optional, r) {
        None => None,
        Some(true) => Some(true),
        Some(false) => {
            let ctx = SubtypeContext { strict_optional, ignore_promotions: false, ignore_type_params: false };
            sub_exec(r, n, d, &ctx, false)
        },
    }
}

fn narrow_row_exec(r: &TypeResolver, d: &Type, ns: &Vec<Type>, strict_optional: bool, out: &mut Vec<Type>) -> (ok: bool)
    ensures
        ok == narrow_row(*r, d@, types_model(ns@), strict_optional, ns@.len() as int).is_some(),
        ok ==> types_model(final(out)@) == types_model(old(out)@) + narrow_row(*r, d@, types_model(ns@), strict_optional, ns@.len() as int).unwrap(),
{
    let ghost nm = types_model(ns@);
    let ghost start = out@;
    proof {
        lemma_types_model(ns@);
        assert(types_model(start) + Seq::<TypeModel>::empty() =~= types_model(start));
    }
    let mut m: usize = 0;
    while m < ns.len()
        invariant
            m <= ns@.len(),
            nm == types_model(ns@),
            nm.len() == ns@.len(),
            forall|j: int| 0 <= j < ns@.len() ==> #[trigger] nm[j] == ns@[j]@,
            narrow_row(*r, d@, nm, strict_optional, m as int).is_some(),
            types_model(out@) == types_model(start) + narrow_row(*r, d@, nm, strict_optional, m as int).unwrap(),
        decreases ns@.len() - m,
    {
        match narrow_keep_exec(r, d, &ns[m], strict_optional) {
            None => {
                proof {
                    lemma_row_none(*r, d@, nm, strict_optional, m + 1, nm.len() as int);
                }
                return false;
            },
            Some(false) => {},
            Some(true) => match narrow_pair(r, d, &ns[m], strict_optional) {
                None => {
                    proof {
                        lemma_row_none(*r, d@, nm, strict_optional, m + 1, nm.len() as int);
                    }
                    return false;
                },
                Some(x) => {
                    proof {
                        lemma_types_model_push(out@, x);
                        let p = narrow_row(*r, d@, nm, strict_optional, m as int).unwrap();
                        assert(types_model(start) + p.push(x@) =~= (types_model(start) + p).push(x@));
                    }
                    out.push(x);
                },
            },
        }
        m = m + 1;
    }
    true
}

/// Narrow a declared type by a narrower one; see [`narrow_spec`].
pub fn narrow_declared_type(declared: &Type, narrowed: &Type, strict_optional: bool, resolver: &TypeResolver) -> (r: Option<Type>)
    ensures
        match r {
            Some(x) => narrow_spec(*resolver, declared@, narrowed@, strict_optional) == Some(x@),
            None => narrow_spec(*resolver, declared@, narrowed@, strict_optional).is_none(),
        },
{
    let ds = match declared {
        Type::UnionType { items, .. } => items,
        _ => {
            return narrow_pair(resolver, declared, narrowed, strict_optional);
        },
    };
    let ns: Vec<Type> = match narrowed {
        Type::UnionType { items, .. } => clone_types(items),
        _ => vec![clone_type(narrowed)],
    };
    let ghost dm = types_model(ds@);
    let ghost nm = types_model(ns@);
    proof {
        lemma_types_model(ds@);
        lemma_types_model(ns@);
        assert(declared@ matches TypeModel::UnionType { items: it, .. } && it == dm);
        assert(nm == match narrowed@ {
            TypeModel::UnionType { items, .. } => items,
            _ => seq![narrowed@],
        }) by {
            match narrowed {
                Type::UnionType { items, .. } => {},
                _ => {
                    assert(nm =~= seq![narrowed@]);
                },
            }
        }
    }
    if !all_narrowable_exec(ds) || !all_narrowable_exec(&ns) {
        return None;
    }
    let mut xs: Vec<Type> = Vec::new();
    proof {
        assert(types_model(xs@) =~= Seq::<TypeModel>::empty());
    }
    let mut k: usize = 0;
    while k < ds.len()
        invariant
            k <= ds@.len(),
            dm == types_model(ds@),
            dm.len() == ds@.len(),
            forall|j: int| 0 <= j < ds@.len() ==> #[trigger] dm[j] == ds@[j]@,
            nm == types_model(ns@),
            nm.len() == ns@.len(),
            all_narrowable(dm),
            all_narrowable(nm),
            declared@ matches TypeModel::UnionType { items: it, .. } && it == dm,
            nm == match narrowed@ {
                TypeModel::UnionType { items, .. } => items,
                _ => seq![narrowed@],
            },
            narrow_rows(*resolver, dm, nm, strict_optional, k as int) == Some(types_model(xs@)),
        decreases ds@.len() - k,
    {
        let ghost before = xs@;
        let ok = narrow_row_exec(resolver, &ds[k], &ns, strict_optional, &mut xs);
        proof {
            assert(dm[k as int] == ds@[k as int]@);
            rows_step(*resolver, dm, nm, strict_optional, k as int);
        }
        if !ok {
            proof {
                lemma_rows_none(*resolver, dm, nm, strict_optional, k + 1, dm.len() as int);
            }
            return None;
        }
        k = k + 1;
    }
    proof {
        lemma_types_model(xs@);
        let xm = types_model(xs@);
        assert forall|i: int| 0 <= i < xm.len() implies atom_of(#[trigger] xm[i]).is_some() by {
            lemma_rows_atoms(*resolver, dm, nm, strict_optional, ds@.len() as int, i);
        }
        lemma_flatten_model_atoms(xm);
    }
    let ctx = SubtypeContext { strict_optional, ignore_promotions: false, ignore_type_params: false };
    make_simplified_union(xs.as_slice(), &ctx, resolver)
}

proof fn rows_step(r: TypeResolver, ds: Seq<TypeModel>, ns: Seq<TypeModel>, so: bool, k: int)
    requires
        0 <= k,
    ensures
        narrow_rows(r, ds, ns, so, k + 1) == match narrow_rows(r, ds, ns, so, k) {
            None => None,
            Some(p) => match narrow_row(r, ds[k], ns, so, ns.len() as int) {
                None => None,
                Some(q) => Some(p + q),
            },
        },
{
}

proof fn lemma_pair_atom(r: TypeResolver, d: TypeModel, n: TypeModel, so: bool)
    requires
        narrow_pair_spec(r, d, n, so) is Some,
    ensures
        atom_of(narrow_pair_spec(r, d, n, so).unwrap()).is_some(),
{
    reveal(narrow_pair_spec);
}

proof fn lemma_row_atoms(r: TypeResolver, d: TypeModel, ns: Seq<TypeModel>, so: bool, m: int)
    ensures
        narrow_row(r, d, ns, so, m) is Some ==> forall|i: int| 0 <= i < narrow_row(r, d, ns, so, m).unwrap().len()
            ==> atom_of(#[trigger] narrow_row(r, d, ns, so, m).unwrap()[i]).is_some(),
    decreases m,
{
    if m > 0 {
        lemma_row_atoms(r, d, ns, so, m - 1);
        if narrow_row(r, d, ns, so, m) is Some && narrow_keep(r, d, ns[m - 1], so) == Some(true) {
            lemma_pair_atom(r, d, ns[m - 1], so);
        }
    }
}

proof fn lemma_rows_atoms(r: TypeResolver, ds: Seq<TypeModel>, ns: Seq<TypeModel>, so: bool, k: int, i: int)
    requires
        narrow_rows(r, ds, ns, so, k) is Some,
        0 <= i < narrow_rows(r, ds, ns, so, k).unwrap().len(),
    ensures
        atom_of(narrow_rows(r, ds, ns, so, k).unwrap()[i]).is_some(),
    decreases k,
{
    if k > 0 {
        let p = narrow_rows(r, ds, ns, so, k - 1).unwrap();
        let q = narrow_row(r, ds[k - 1], ns, so, ns.len() as int).unwrap();
        if i < p.len() {
            lemma_rows_atoms(r, ds, ns, so, k - 1, i);
            assert((p + q)[i] == p[i]);
        } else {
            lemma_row_atoms(r, ds[k - 1], ns, so, ns.len() as int);
            assert((p + q)[i] == q[i - p.len()]);
        }
    }
}


/// How many steps the instance join may take up the class graph before it
/// declines (each step moves one side to a base).
pub const JOIN_FUEL: u64 = 64;

/// The class a bare instance names.
pub open spec fn bare_class_of(t: TypeModel) -> Option<Seq<char>> {
    match atom_of(t) {
        Some(Atom::Class(c)) => Some(c),
        _ => None,
    }
}

/// The bare instance of class `c`.
pub open spec fn bare(c: Seq<char>) -> TypeModel {
    TypeModel::Instance { type_ref: c, args: Seq::empty(), last_known_value: None, extra_attrs: None }
}

/// The settings of the proper-subtype question inside the instance join.
pub open spec fn join_ctx(strict_optional: bool) -> SubtypeContext {
    SubtypeContext { strict_optional, ignore_promotions: false, ignore_type_params: true }
}

/// Whether join result `a` is better than `b`: a non-protocol beats a
/// protocol (unless either is `object`); otherwise the longer MRO wins.
/// `None` when either class has no snapshot.
pub open spec fn is_better_spec(r: TypeResolver, a: Seq<char>, b: Seq<char>) -> Option<bool> {
    match (r.class_of(a), r.class_of(b)) {
        (Some(x), Some(y)) => if x.is_protocol != y.is_protocol && a != "builtins.object"@ && b != "builtins.object"@ {
            Some(!x.is_protocol)
        } else {
            Some(x.mro@.len() > y.mro@.len())
        },
        _ => None,
    }
}

/// The join of two classes: the class itself when they are the same;
/// otherwise the join through the supertypes of `t` when `t` has bases
/// and is a proper subtype of `s`, else through the supertypes of `s`.
/// `None` where a snapshot is missing, a question is not decided, or the
/// fuel runs out.
pub open spec fn join_inst(r: TypeResolver, t: Seq<char>, s: Seq<char>, so: bool, fuel: nat) -> Option<Seq<char>>
    decreases fuel, 2nat, 0nat,
{
    if t == s {
        Some(t)
    } else {
        match r.class_of(t) {
            None => None,
            Some(ts) => if ts.bases@.len() > 0 {
                match sub_spec(r, bare(t), bare(s), join_ctx(so), true) {
                    None => None,
                    Some(true) => via_super(r, t, s, so, fuel),
                    Some(false) => via_super(r, s, t, so, fuel),
                }
            } else {
                via_super(r, s, t, so, fuel)
            },
        }
    }
}

/// The join through the supertypes of `t`: the best of the joins of its
/// bases with `s`. `None` when either class has promotions (joins by duck
/// typing, not decided here), has no snapshot, or `t` has no bases.
pub open spec fn via_super(r: TypeResolver, t: Seq<char>, s: Seq<char>, so: bool, fuel: nat) -> Option<Seq<char>>
    decreases fuel, 1nat, 0nat,
{
    if fuel == 0 {
        None
    } else {
        match (r.class_of(t), r.class_of(s)) {
            (Some(ts), Some(ss)) => if ts.promote@.len() > 0 || ss.promote@.len() > 0 {
                None
            } else {
                match best_over(r, ts.bases@, s, so, fuel, ts.bases@.len() as int) {
                    Some(Some(b)) => Some(b),
                    _ => None,
                }
            },
            _ => None,
        }
    }
}

/// The best join of `s` with the first `k` of `bases` (`Some(None)` for
/// none yet); the first of two equally good results stays.
pub open spec fn best_over(r: TypeResolver, bases: Seq<Type>, s: Seq<char>, so: bool, fuel: nat, k: int) -> Option<Option<Seq<char>>>
    decreases fuel, 0nat, k,
{
    if k <= 0 || fuel == 0 {
        Some(None)
    } else {
        match best_over(r, bases, s, so, fuel, k - 1) {
            None => None,
            Some(prev) => match bare_class_of(bases[k - 1]@) {
                None => None,
                Some(b) => match join_inst(r, b, s, so, (fuel - 1) as nat) {
                    None => None,
                    Some(res) => match prev {
                        None => Some(Some(res)),
                        Some(best) => match is_better_spec(r, res, best) {
                            None => None,
                            Some(true) => Some(Some(res)),
                            Some(false) => Some(Some(best)),
                        },
                    },
                },
            },
        }
    }
}

/// The join of two bare instances: the instance join, unless either class
/// is a protocol (matched structurally, not decided here) or has no
/// snapshot.
pub open spec fn join_top(r: TypeResolver, t: Seq<char>, s: Seq<char>, so: bool) -> Option<Seq<char>> {
    match (r.class_of(t), r.class_of(s)) {
        (Some(x), Some(y)) => if x.is_protocol || y.is_protocol {
            None
        } else {
            join_inst(r, t, s, so, JOIN_FUEL as nat)
        },
        _ => None,
    }
}

/// Whether a type is an atom, an instance without a last known value or
/// extra attributes, or a union of atoms.
pub open spec fn joinable(t: TypeModel) -> bool {
    match t {
        TypeModel::UnionType { items, .. } => forall|i: int| 0 <= i < items.len() ==> atom_of(#[trigger] items[i]).is_some(),
        TypeModel::LiteralType { fallback, .. } => bare_class_of(*fallback).is_some(),
        TypeModel::TypeVarType { .. } => true,
        _ => head_of(t).is_some(),
    }
}

/// The join of a type with one it does not join by shape: the last class
/// of an instance's MRO (`object`), a type variable standing for its upper
/// bound. `None` for other shapes and where a snapshot is missing.
pub open spec fn default_join(r: TypeResolver, s: TypeModel) -> Option<TypeModel> {
    let b = match s {
        TypeModel::TypeVarType { upper_bound, .. } => *upper_bound,
        _ => s,
    };
    match b {
        TypeModel::Instance { type_ref, .. } => match r.class_of(type_ref) {
            Some(cs) => if cs.mro@.len() > 0 {
                Some(bare(cs.mro@.last()@))
            } else {
                None
            },
            None => None,
        },
        _ => None,
    }
}

/// The join of two literals: the literal itself when they are equal; the
/// join of their fallback classes otherwise. `None` for two enum
/// literals (their join is a union that may contract into the enum) and
/// where a snapshot is missing.
pub open spec fn literal_join(r: TypeResolver, sc: Seq<char>, sv: LiteralModel, tc: Seq<char>, tv: LiteralModel, t: TypeModel, so: bool) -> Option<TypeModel> {
    if sc == tc && literal_values_equal(sv, tv) && (sv is Bool) == (tv is Bool) {
        Some(t)
    } else {
        match (r.class_of(sc), r.class_of(tc)) {
            (Some(ss), Some(ts)) => if ss.is_enum && ts.is_enum {
                None
            } else {
                match join_top(r, tc, sc, so) {
                    None => None,
                    Some(c) => Some(bare(c)),
                }
            },
            _ => None,
        }
    }
}

/// The join of one pair of type arguments (`ta` of the second operand,
/// `sa` of the first) for a class type variable `tvar`: an `Any` on
/// either side gives an `Any` derived from it; for an invariant or
/// contravariant type variable, an ambiguous `Never` gives the other
/// argument, two arguments that are not equivalent give `Some(None)` (the
/// whole join is `object`), and two equal atoms give that atom. `None`
/// otherwise (a covariant or not yet inferred variable, whose join the
/// snapshots cannot check against the variable's values, a parameter spec
/// or type variable tuple, and equivalent arguments that are not equal
/// atoms).
pub open spec fn arg_join(r: TypeResolver, ta: TypeModel, sa: TypeModel, tvar: (String, i64, i64), strict_optional: bool) -> Option<
    Option<TypeModel>,
> {
    if ta is AnyType {
        Some(Some(any_from_another(ta)))
    } else if sa is AnyType {
        Some(Some(any_from_another(sa)))
    } else if tvar.2 != 0 || !(tvar.1 == 0 || tvar.1 == 2) {
        None
    } else if ambiguous_never(ta) {
        Some(Some(sa))
    } else if ambiguous_never(sa) {
        Some(Some(ta))
    } else {
        match and_then_verdict(
            sub_spec(r, ta, sa, plain_ctx(false, strict_optional), false),
            sub_spec(r, sa, ta, plain_ctx(false, strict_optional), false),
        ) {
            Some(false) => Some(None),
            Some(true) => if atom_of(ta).is_some() && atom_of(ta) == atom_of(sa) {
                Some(Some(ta))
            } else {
                None
            },
            None => None,
        }
    }
}

/// The joins of the first `k` argument pairs: `Some(None)` once a pair
/// sends the whole join to `object`.
pub open spec fn join_args(
    r: TypeResolver,
    ts: Seq<TypeModel>,
    ss: Seq<TypeModel>,
    tv: Seq<(String, i64, i64)>,
    strict_optional: bool,
    k: int,
) -> Option<Option<Seq<TypeModel>>>
    decreases k,
{
    if k <= 0 {
        Some(Some(Seq::empty()))
    } else {
        match join_args(r, ts, ss, tv, strict_optional, k - 1) {
            None => None,
            Some(None) => Some(None),
            Some(Some(prefix)) => match arg_join(r, ts[k - 1], ss[k - 1], tv[k - 1], strict_optional) {
                None => None,
                Some(None) => Some(None),
                Some(Some(a)) => Some(Some(prefix.push(a))),
            },
        }
    }
}

/// The join of two instances of class `c` with type arguments (`targs` of
/// the second operand, `sargs` of the first): the class over the
/// per-argument joins, or `object` when a pair of arguments is not
/// equivalent. `None` for a protocol, a class without a snapshot,
/// arguments that do not line up, and where a pair is not decided.
pub open spec fn generic_join(r: TypeResolver, c: Seq<char>, targs: Seq<TypeModel>, sargs: Seq<TypeModel>, strict_optional: bool) -> Option<TypeModel> {
    match r.class_of(c) {
        None => None,
        Some(cs) => if cs.is_protocol || targs.len() != sargs.len() || cs.type_vars_with_variance@.len() != targs.len() {
            None
        } else {
            match join_args(r, targs, sargs, cs.type_vars_with_variance@, strict_optional, targs.len() as int) {
                None => None,
                Some(None) => Some(bare("builtins.object"@)),
                Some(Some(args)) => Some(TypeModel::Instance { type_ref: c, args, last_known_value: None, extra_attrs: None }),
            }
        },
    }
}

/// The truthiness flags of a type.
pub open spec fn truth_pair(t: TypeModel) -> (bool, bool) {
    (item_may_be_true(t), item_may_be_false(t))
}

/// Whether a union's truthiness flags are the defaults its items give (so
/// resetting them to the defaults changes nothing); true of any other type.
pub open spec fn default_truth(t: TypeModel) -> bool {
    match t {
        TypeModel::UnionType { items, can_be_true, can_be_false, .. } => can_be_true == (exists|i: int|
            0 <= i < items.len() && item_may_be_true(#[trigger] items[i])) && can_be_false == (exists|i: int|
            0 <= i < items.len() && item_may_be_false(#[trigger] items[i])),
        _ => true,
    }
}

/// The join once the operands are ordered: against `Any`, `Any`; against
/// `None`, `None` when `s` is `None` or `Never` and otherwise the
/// simplified union (with strict optional), or `s` (without); against
/// `Never`, `s`; two argument-free instances join as classes, two
/// instances of one class with type arguments by `generic_join`; a literal
/// joins another literal by `literal_join`, and an instance through its
/// fallback; a type variable joins itself (with the same bound) in
/// itself, and anything else, like an instance joins a type variable, by
/// `default_join`; against a union, the union
/// when `s` is a proper subtype of it, else the simplified union of both.
pub open spec fn join_visit(r: TypeResolver, s: TypeModel, t: TypeModel, ctx: SubtypeContext) -> Option<TypeModel> {
    match t {
        TypeModel::AnyType { .. } => Some(t),
        TypeModel::NoneType => if ctx.strict_optional {
            if s is NoneType || s is UninhabitedType {
                Some(t)
            } else {
                simplified_union_spec(r, seq![s, t], true)
            }
        } else {
            Some(s)
        },
        TypeModel::UninhabitedType { .. } => Some(s),
        TypeModel::LiteralType { fallback: tf, value: tv } => match s {
            TypeModel::LiteralType { fallback: sf, value: sv } => match (bare_class_of(*sf), bare_class_of(*tf)) {
                (Some(sc), Some(tc)) => literal_join(r, sc, sv, tc, tv, t, ctx.strict_optional),
                _ => None,
            },
            _ => match (bare_class_of(s), bare_class_of(*tf)) {
                (Some(sc), Some(tc)) => match join_top(r, tc, sc, ctx.strict_optional) {
                    None => None,
                    Some(c) => Some(bare(c)),
                },
                _ => None,
            },
        },
        TypeModel::TypeVarType { .. } => if same_type_var(s, t) {
            match (s, t) {
                (TypeModel::TypeVarType { upper_bound: sb, .. }, TypeModel::TypeVarType { upper_bound: tb, .. }) => match (
                    bare_class_of(*sb),
                    bare_class_of(*tb),
                ) {
                    (Some(a), Some(b)) => if a == b {
                        Some(s)
                    } else {
                        None
                    },
                    _ => None,
                },
                _ => None,
            }
        } else {
            default_join(r, s)
        },
        TypeModel::Instance { .. } => match (bare_class_of(s), bare_class_of(t)) {
            (Some(sc), Some(tc)) => match join_top(r, tc, sc, ctx.strict_optional) {
                None => None,
                Some(c) => Some(bare(c)),
            },
            (None, Some(tc)) => match s {
                TypeModel::TypeVarType { .. } => default_join(r, s),
                TypeModel::LiteralType { fallback: sf, .. } => match bare_class_of(*sf) {
                    Some(sc) => match join_top(r, sc, tc, ctx.strict_optional) {
                        None => None,
                        Some(c) => Some(bare(c)),
                    },
                    None => None,
                },
                _ => None,
            },
            _ => match (head_of(s), head_of(t)) {
                (Some(Atom::Class(sc)), Some(Atom::Class(tc))) => if sc == tc {
                    generic_join(r, tc, inst_args(t), inst_args(s), ctx.strict_optional)
                } else {
                    None
                },
                _ => None,
            },
        },
        TypeModel::UnionType { .. } => match sub_spec(r, s, t, ctx, true) {
            None => None,
            Some(true) => Some(t),
            Some(false) => simplified_union_spec(r, seq![s, t], ctx.strict_optional),
        },
        _ => None,
    }
}

/// `join_types` over atoms and unions of atoms: a union goes second; an
/// `Any` first is the join; a `None`, then a `Never`, goes second unless
/// both are; then [`join_visit`]. Operands whose truthiness differs are
/// reset to their default truthiness first, which changes nothing but a
/// union whose flags are not its items' defaults: `None` there, and for
/// other shapes.
pub open spec fn join_spec(r: TypeResolver, s0: TypeModel, t0: TypeModel, ctx: SubtypeContext) -> Option<TypeModel> {
    if !joinable(s0) || !joinable(t0) {
        None
    } else if truth_pair(s0) != truth_pair(t0) && (!default_truth(s0) || !default_truth(t0)) {
        None
    } else {
        let (s1, t1) = if s0 is UnionType && !(t0 is UnionType) {
            (t0, s0)
        } else {
            (s0, t0)
        };
        if s1 is AnyType {
            Some(s1)
        } else {
            let (s2, t2) = if s1 is NoneType && !(t1 is NoneType) {
                (t1, s1)
            } else {
                (s1, t1)
            };
            let (s3, t3) = if s2 is UninhabitedType && !(t2 is UninhabitedType) {
                (t2, s2)
            } else {
                (s2, t2)
            };
            join_visit(r, s3, t3, ctx)
        }
    }
}

fn is_better_exec(r: &TypeResolver, a: &str, b: &str) -> (v: Option<bool>)
    ensures
        v == is_better_spec(*r, a@, b@),
{
    match (r.get(a), r.get(b)) {
        (Some(x), Some(y)) => if x.is_protocol != y.is_protocol && !str_eq(a, "builtins.object") && !str_eq(b, "builtins.object") {
            Some(!x.is_protocol)
        } else {
            Some(x.mro.len() > y.mro.len())
        },
        _ => None,
    }
}

fn bare_exec(c: &str) -> (t: Type)
    ensures
        t@ == bare(c@),
{
    let args: Vec<Type> = Vec::new();
    let t = Type::Instance { type_ref: c.to_owned(), args, last_known_value: None, extra_attrs: None };
    proof {
        assert(types_model(args@) =~= Seq::<TypeModel>::empty());
        assert(opt_type_model(None) == None::<Box<TypeModel>>);
        assert(crate::wire::extra_model(None) == None::<crate::wire::ExtraAttrsModel>);
    }
    t
}

fn join_inst_exec(r: &TypeResolver, t: &str, s: &str, so: bool, fuel: u64) -> (v: Option<String>)
    ensures
        match v {
            Some(c) => join_inst(*r, t@, s@, so, fuel as nat) == Some(c@),
            None => join_inst(*r, t@, s@, so, fuel as nat).is_none(),
        },
    decreases fuel, 2nat, 0nat,
{
    if str_eq(t, s) {
        return Some(t.to_owned());
    }
    match r.get(t) {
        None => None,
        Some(ts) => if ts.bases.len() > 0 {
            let bt = bare_exec(t);
            let bs = bare_exec(s);
            let ctx = SubtypeContext { strict_optional: so, ignore_promotions: false, ignore_type_params: true };
            match sub_exec(r, &bt, &bs, &ctx, true) {
                None => None,
                Some(true) => via_super_exec(r, t, s, so, fuel),
                Some(false) => via_super_exec(r, s, t, so, fuel),
            }
        } else {
            via_super_exec(r, s, t, so, fuel)
        },
    }
}

proof fn lemma_best_none(r: TypeResolver, bases: Seq<Type>, s: Seq<char>, so: bool, fuel: nat, k: int, n: int)
    requires
        0 <= k <= n,
        fuel > 0,
        best_over(r, bases, s, so, fuel, k).is_none(),
    ensures
        best_over(r, bases, s, so, fuel, n).is_none(),
    decreases n - k,
{
    if k < n {
        lemma_best_none(r, bases, s, so, fuel, k + 1, n);
    }
}

fn via_super_exec(r: &TypeResolver, t: &str, s: &str, so: bool, fuel: u64) -> (v: Option<String>)
    ensures
        match v {
            Some(c) => via_super(*r, t@, s@, so, fuel as nat) == Some(c@),
            None => via_super(*r, t@, s@, so, fuel as nat).is_none(),
        },
    decreases fuel, 1nat, 0nat,
{
    if fuel == 0 {
        return None;
    }
    let (ts, ss) = match (r.get(t), r.get(s)) {
        (Some(ts), Some(ss)) => (ts, ss),
        _ => {
            return None;
        },
    };
    if ts.promote.len() > 0 || ss.promote.len() > 0 {
        return None;
    }
    let bases = &ts.bases;
    let mut best: Option<String> = None;
    let mut k: usize = 0;
    while k < bases.len()
        invariant
            k <= bases@.len(),
            fuel > 0,
            r.class_of(t@) == Some(*ts),
            r.class_of(s@) == Some(*ss),
            ts.promote@.len() == 0,
            ss.promote@.len() == 0,
            bases@ == ts.bases@,
            best_over(*r, bases@, s@, so, fuel as nat, k as int) == Some(match best {
                Some(b) => Some(b@),
                None => None::<Seq<char>>,
            }),
        decreases bases@.len() - k,
    {
        let b = match atom_exec(&bases[k]) {
            Some(AtomExec::Class(c)) => c,
            _ => {
                proof {
                    lemma_best_none(*r, bases@, s@, so, fuel as nat, k + 1, bases@.len() as int);
                }
                return None;
            },
        };
        let res = match join_inst_exec(r, b.as_str(), s, so, fuel - 1) {
            None => {
                proof {
                    lemma_best_none(*r, bases@, s@, so, fuel as nat, k + 1, bases@.len() as int);
                }
                return None;
            },
            Some(x) => x,
        };
        let next = match best {
            None => res,
            Some(cur) => match is_better_exec(r, res.as_str(), cur.as_str()) {
                None => {
                    proof {
                        lemma_best_none(*r, bases@, s@, so, fuel as nat, k + 1, bases@.len() as int);
                    }
                    return None;
                },
                Some(true) => res,
                Some(false) => cur,
            },
        };
        best = Some(next);
        k = k + 1;
    }
    best
}

fn joinable_exec(t: &Type) -> (r: bool)
    ensures
        r == joinable(t@),
{
    match t {
        Type::UnionType { items, .. } => {
            proof {
                lemma_types_model(items@);
                assert(t@ matches TypeModel::UnionType { items: it, .. } && it == types_model(items@));
            }
            let ghost im = types_model(items@);
            let mut i: usize = 0;
            while i < items.len()
                invariant
                    i <= items@.len(),
                    im == types_model(items@),
                    im.len() == items@.len(),
                    forall|j: int| 0 <= j < items@.len() ==> #[trigger] im[j] == items@[j]@,
                    forall|j: int| 0 <= j < i ==> atom_of(#[trigger] im[j]).is_some(),
                    t@ matches TypeModel::UnionType { items: it, .. } && it == im,
                decreases items@.len() - i,
            {
                if atom_exec(&items[i]).is_none() {
                    proof {
                        assert(atom_of(im[i as int]).is_none());
                    }
                    return false;
                }
                i = i + 1;
            }
            true
        },
        Type::LiteralType { fallback, .. } => {
            proof {
                assert(t@ matches TypeModel::LiteralType { fallback: f, .. } && *f == fallback@);
            }
            bare_class_exec(fallback).is_some()
        },
        Type::TypeVarType { .. } => true,
        _ => head_exec(t).is_some(),
    }
}

fn default_truth_exec(t: &Type) -> (r: bool)
    ensures
        r == default_truth(t@),
{
    match t {
        Type::UnionType { items, can_be_true, can_be_false, .. } => {
            proof {
                lemma_types_model(items@);
                assert(t@ matches TypeModel::UnionType { items: it, can_be_true: ct, can_be_false: cf, .. } && it
                    == types_model(items@) && ct == *can_be_true && cf == *can_be_false);
            }
            let ghost im = types_model(items@);
            let mut bt = false;
            let mut bf = false;
            let mut i: usize = 0;
            while i < items.len()
                invariant
                    i <= items@.len(),
                    im == types_model(items@),
                    im.len() == items@.len(),
                    forall|j: int| 0 <= j < items@.len() ==> #[trigger] im[j] == items@[j]@,
                    bt == (exists|j: int| 0 <= j < i && item_may_be_true(#[trigger] im[j])),
                    bf == (exists|j: int| 0 <= j < i && item_may_be_false(#[trigger] im[j])),
                decreases items@.len() - i,
            {
                let x = may_be_true(&items[i]);
                let y = may_be_false(&items[i]);
                proof {
                    assert(im[i as int] == items@[i as int]@);
                }
                bt = bt || x;
                bf = bf || y;
                i = i + 1;
            }
            *can_be_true == bt && *can_be_false == bf
        },
        _ => true,
    }
}

fn simplify_pair(s: &Type, t: &Type, ctx: &SubtypeContext, r: &TypeResolver) -> (v: Option<Type>)
    ensures
        match v {
            Some(x) => simplified_union_spec(*r, seq![s@, t@], ctx.strict_optional) == Some(x@),
            None => simplified_union_spec(*r, seq![s@, t@], ctx.strict_optional).is_none(),
        },
{
    let items = vec![clone_type(s), clone_type(t)];
    proof {
        lemma_types_model(items@);
        assert(types_model(items@) =~= seq![s@, t@]);
    }
    make_simplified_union(items.as_slice(), ctx, r)
}

fn arg_join_exec(r: &TypeResolver, ta: &Type, sa: &Type, tvar: &(String, i64, i64), strict_optional: bool) -> (v: Option<Option<Type>>)
    ensures
        match v {
            None => arg_join(*r, ta@, sa@, *tvar, strict_optional).is_none(),
            Some(None) => arg_join(*r, ta@, sa@, *tvar, strict_optional) == Some(None::<TypeModel>),
            Some(Some(x)) => arg_join(*r, ta@, sa@, *tvar, strict_optional) == Some(Some(x@)),
        },
{
    let ta_any = match ta {
        Type::AnyType { .. } => true,
        _ => false,
    };
    if ta_any {
        return Some(Some(any_from_another_exec(ta)));
    }
    let sa_any = match sa {
        Type::AnyType { .. } => true,
        _ => false,
    };
    if sa_any {
        return Some(Some(any_from_another_exec(sa)));
    }
    if tvar.2 != 0 || !(tvar.1 == 0 || tvar.1 == 2) {
        return None;
    }
    let ta_amb = match ta {
        Type::UninhabitedType { ambiguous } => *ambiguous,
        _ => false,
    };
    if ta_amb {
        return Some(Some(clone_type(sa)));
    }
    let sa_amb = match sa {
        Type::UninhabitedType { ambiguous } => *ambiguous,
        _ => false,
    };
    if sa_amb {
        return Some(Some(clone_type(ta)));
    }
    let ectx = SubtypeContext { strict_optional, ignore_promotions: false, ignore_type_params: false };
    let verdict = match sub_exec(r, ta, sa, &ectx, false) {
        Some(false) => Some(false),
        Some(true) => sub_exec(r, sa, ta, &ectx, false),
        None => None,
    };
    match verdict {
        Some(false) => Some(None),
        Some(true) => match atom_exec(ta) {
            Some(a) => if same_atom(&a, sa) {
                Some(Some(clone_type(ta)))
            } else {
                None
            },
            None => None,
        },
        None => None,
    }
}

fn generic_join_exec(r: &TypeResolver, c: &str, targs: &Vec<Type>, sargs: &Vec<Type>, strict_optional: bool) -> (v: Option<Type>)
    ensures
        match v {
            Some(x) => generic_join(*r, c@, types_model(targs@), types_model(sargs@), strict_optional) == Some(x@),
            None => generic_join(*r, c@, types_model(targs@), types_model(sargs@), strict_optional).is_none(),
        },
{
    proof {
        lemma_types_model(targs@);
        lemma_types_model(sargs@);
    }
    let cs = match r.get(c) {
        None => {
            return None;
        },
        Some(cs) => cs,
    };
    if cs.is_protocol || targs.len() != sargs.len() || cs.type_vars_with_variance.len() != targs.len() {
        return None;
    }
    let tv = &cs.type_vars_with_variance;
    let ghost tm = types_model(targs@);
    let ghost sm = types_model(sargs@);
    let mut out: Vec<Type> = Vec::new();
    let mut i: usize = 0;
    while i < targs.len()
        invariant
            i <= targs@.len(),
            targs@.len() == sargs@.len(),
            tv@.len() == targs@.len(),
            tm == types_model(targs@),
            sm == types_model(sargs@),
            tm.len() == targs@.len(),
            sm.len() == sargs@.len(),
            forall|j: int| 0 <= j < targs@.len() ==> #[trigger] tm[j] == targs@[j]@,
            forall|j: int| 0 <= j < sargs@.len() ==> #[trigger] sm[j] == sargs@[j]@,
            join_args(*r, tm, sm, tv@, strict_optional, i as int) == Some(Some(types_model(out@))),
            r.class_of(c@) == Some(*cs),
            !cs.is_protocol,
            tv@ == cs.type_vars_with_variance@,
        decreases targs@.len() - i,
    {
        match arg_join_exec(r, &targs[i], &sargs[i], &tv[i], strict_optional) {
            None => {
                proof {
                    lemma_join_args_none(*r, tm, sm, tv@, strict_optional, i as int + 1, targs@.len() as int);
                }
                return None;
            },
            Some(None) => {
                proof {
                    lemma_join_args_object(*r, tm, sm, tv@, strict_optional, i as int + 1, targs@.len() as int);
                    assert(tm.len() == targs@.len());
                    assert(join_args(*r, tm, sm, cs.type_vars_with_variance@, strict_optional, tm.len() as int) == Some(
                        None::<Seq<TypeModel>>,
                    ));
                }
                let obj = bare_exec("builtins.object");
                proof {
                    assert(generic_join(*r, c@, tm, sm, strict_optional) == Some(bare("builtins.object"@)));
                }
                return Some(obj);
            },
            Some(Some(a)) => {
                proof {
                    lemma_types_model_push(out@, a);
                }
                out.push(a);
            },
        }
        i = i + 1;
    }
    let res = Type::Instance { type_ref: c.to_string(), args: out, last_known_value: None, extra_attrs: None };
    proof {
        assert(opt_type_model(None) == None::<Box<TypeModel>>);
        assert(crate::wire::extra_model(None) == None::<crate::wire::ExtraAttrsModel>);
    }
    Some(res)
}

/// Once the argument joins are undecided, they stay undecided.
proof fn lemma_join_args_none(
    r: TypeResolver,
    ts: Seq<TypeModel>,
    ss: Seq<TypeModel>,
    tv: Seq<(String, i64, i64)>,
    so: bool,
    k: int,
    n: int,
)
    requires
        0 <= k <= n,
        join_args(r, ts, ss, tv, so, k).is_none(),
    ensures
        join_args(r, ts, ss, tv, so, n).is_none(),
    decreases n - k,
{
    if k < n {
        lemma_join_args_none(r, ts, ss, tv, so, k + 1, n);
    }
}

/// Once a pair sends the join to `object`, it stays there.
proof fn lemma_join_args_object(
    r: TypeResolver,
    ts: Seq<TypeModel>,
    ss: Seq<TypeModel>,
    tv: Seq<(String, i64, i64)>,
    so: bool,
    k: int,
    n: int,
)
    requires
        0 <= k <= n,
        join_args(r, ts, ss, tv, so, k) == Some(None::<Seq<TypeModel>>),
    ensures
        join_args(r, ts, ss, tv, so, n) == Some(None::<Seq<TypeModel>>),
    decreases n - k,
{
    if k < n {
        lemma_join_args_object(r, ts, ss, tv, so, k + 1, n);
    }
}

fn join_top_bare_exec(r: &TypeResolver, tc: &str, sc: &str, so: bool) -> (v: Option<Type>)
    ensures
        match v {
            Some(x) => join_top(*r, tc@, sc@, so) matches Some(c) && x@ == bare(c),
            None => join_top(*r, tc@, sc@, so).is_none(),
        },
{
    let (x, y) = match (r.get(tc), r.get(sc)) {
        (Some(x), Some(y)) => (x, y),
        _ => {
            return None;
        },
    };
    if x.is_protocol || y.is_protocol {
        return None;
    }
    match join_inst_exec(r, tc, sc, so, JOIN_FUEL) {
        None => None,
        Some(c) => Some(bare_exec(c.as_str())),
    }
}

fn literal_join_exec(r: &TypeResolver, sc: &str, sv: &LiteralValue, tc: &str, tv: &LiteralValue, t: &Type, so: bool) -> (v: Option<Type>)
    ensures
        match v {
            Some(x) => literal_join(*r, sc@, literal_model(*sv), tc@, literal_model(*tv), t@, so) == Some(x@),
            None => literal_join(*r, sc@, literal_model(*sv), tc@, literal_model(*tv), t@, so).is_none(),
        },
{
    let sb = match sv {
        LiteralValue::Bool(_) => true,
        _ => false,
    };
    let tb = match tv {
        LiteralValue::Bool(_) => true,
        _ => false,
    };
    if str_eq(sc, tc) && literal_values_equal_exec(sv, tv) && sb == tb {
        return Some(clone_type(t));
    }
    match (r.get(sc), r.get(tc)) {
        (Some(ss), Some(ts)) => if ss.is_enum && ts.is_enum {
            None
        } else {
            join_top_bare_exec(r, tc, sc, so)
        },
        _ => None,
    }
}

fn bare_class_exec(t: &Type) -> (c: Option<&String>)
    ensures
        match c {
            Some(x) => bare_class_of(t@) == Some(x@),
            None => bare_class_of(t@).is_none(),
        },
{
    match atom_exec(t) {
        Some(AtomExec::Class(x)) => Some(x),
        _ => None,
    }
}

fn default_join_exec(r: &TypeResolver, s: &Type) -> (v: Option<Type>)
    ensures
        match v {
            Some(x) => default_join(*r, s@) == Some(x@),
            None => default_join(*r, s@).is_none(),
        },
{
    let b: &Type = match s {
        Type::TypeVarType { upper_bound, .. } => {
            proof {
                assert(s@ matches TypeModel::TypeVarType { upper_bound: u, .. } && *u == upper_bound@);
            }
            upper_bound
        },
        _ => s,
    };
    match b {
        Type::Instance { type_ref, .. } => {
            proof {
                assert(b@ matches TypeModel::Instance { type_ref: t, .. } && t == type_ref@);
            }
            match r.get(type_ref.as_str()) {
                Some(cs) => {
                    let n = cs.mro.len();
                    if n > 0 {
                        Some(bare_exec(cs.mro[n - 1].as_str()))
                    } else {
                        None
                    }
                },
                None => None,
            }
        },
        _ => None,
    }
}

fn join_visit_exec(r: &TypeResolver, s: &Type, t: &Type, ctx: &SubtypeContext) -> (v: Option<Type>)
    ensures
        match v {
            Some(x) => join_visit(*r, s@, t@, *ctx) == Some(x@),
            None => join_visit(*r, s@, t@, *ctx).is_none(),
        },
{
    match t {
        Type::AnyType { .. } => Some(clone_type(t)),
        Type::NoneType => if ctx.strict_optional {
            let low = match s {
                Type::NoneType => true,
                Type::UninhabitedType { .. } => true,
                _ => false,
            };
            if low {
                Some(clone_type(t))
            } else {
                simplify_pair(s, t, ctx, r)
            }
        } else {
            Some(clone_type(s))
        },
        Type::UninhabitedType { .. } => Some(clone_type(s)),
        Type::LiteralType { fallback: tf, value: tv } => {
            proof {
                assert(t@ matches TypeModel::LiteralType { fallback: f, value: v } && *f == tf@ && v == literal_model(*tv));
            }
            match s {
                Type::LiteralType { fallback: sf, value: sv } => {
                    proof {
                        assert(s@ matches TypeModel::LiteralType { fallback: f, value: v } && *f == sf@ && v == literal_model(*sv));
                    }
                    match (bare_class_exec(sf), bare_class_exec(tf)) {
                        (Some(sc), Some(tc)) => literal_join_exec(r, sc.as_str(), sv, tc.as_str(), tv, t, ctx.strict_optional),
                        _ => None,
                    }
                },
                _ => match (bare_class_exec(s), bare_class_exec(tf)) {
                    (Some(sc), Some(tc)) => join_top_bare_exec(r, tc.as_str(), sc.as_str(), ctx.strict_optional),
                    _ => None,
                },
            }
        },
        Type::TypeVarType { upper_bound: tb, .. } => {
            let same = match s {
                Type::TypeVarType { raw_id: x, meta_level: mx, namespace: nx, .. } => match t {
                    Type::TypeVarType { raw_id: y, meta_level: my, namespace: ny, .. } => {
                        proof {
                            assert(s@ matches TypeModel::TypeVarType { raw_id: a, meta_level: b, namespace: c, .. } && a == *x as int
                                && b == *mx as int && c == nx@);
                            assert(t@ matches TypeModel::TypeVarType { raw_id: a, meta_level: b, namespace: c, .. } && a == *y as int
                                && b == *my as int && c == ny@);
                        }
                        *x == *y && *mx == *my && str_eq(nx.as_str(), ny.as_str())
                    },
                    _ => false,
                },
                _ => false,
            };
            if same {
                match s {
                    Type::TypeVarType { upper_bound: sb, .. } => {
                        proof {
                            assert(s@ matches TypeModel::TypeVarType { upper_bound: u, .. } && *u == sb@);
                            assert(t@ matches TypeModel::TypeVarType { upper_bound: u, .. } && *u == tb@);
                        }
                        match (bare_class_exec(sb), bare_class_exec(tb)) {
                            (Some(a), Some(b)) => if str_eq(a.as_str(), b.as_str()) {
                                Some(clone_type(s))
                            } else {
                                None
                            },
                            _ => None,
                        }
                    },
                    _ => None,
                }
            } else {
                default_join_exec(r, s)
            }
        },
        Type::Instance { .. } => match (atom_exec(s), atom_exec(t)) {
            (None, Some(AtomExec::Class(_))) if matches!(s, Type::TypeVarType { .. }) => default_join_exec(r, s),
            (None, Some(AtomExec::Class(tc))) => match s {
                Type::LiteralType { fallback: sf, .. } => {
                    proof {
                        assert(s@ matches TypeModel::LiteralType { fallback: f, .. } && *f == sf@);
                    }
                    match bare_class_exec(sf) {
                        Some(sc) => join_top_bare_exec(r, sc.as_str(), tc.as_str(), ctx.strict_optional),
                        None => None,
                    }
                },
                _ => match (head_exec(s), head_exec(t), s, t) {
                    (Some(AtomExec::Class(sc)), Some(AtomExec::Class(tc)), Type::Instance { args: sargs, .. }, Type::Instance { args: targs, .. }) => {
                        proof {
                            lemma_types_model(sargs@);
                            lemma_types_model(targs@);
                            assert(s@ matches TypeModel::Instance { args: a, .. } && a == types_model(sargs@));
                            assert(t@ matches TypeModel::Instance { args: a, .. } && a == types_model(targs@));
                        }
                        if str_eq(sc.as_str(), tc.as_str()) {
                            generic_join_exec(r, tc.as_str(), targs, sargs, ctx.strict_optional)
                        } else {
                            None
                        }
                    },
                    _ => None,
                },
            },
            (Some(AtomExec::Class(sc)), Some(AtomExec::Class(tc))) => {
                let (x, y) = match (r.get(tc.as_str()), r.get(sc.as_str())) {
                    (Some(x), Some(y)) => (x, y),
                    _ => {
                        return None;
                    },
                };
                if x.is_protocol || y.is_protocol {
                    return None;
                }
                match join_inst_exec(r, tc.as_str(), sc.as_str(), ctx.strict_optional, JOIN_FUEL) {
                    None => None,
                    Some(c) => Some(bare_exec(c.as_str())),
                }
            },
            _ => match (head_exec(s), head_exec(t), s, t) {
                (Some(AtomExec::Class(sc)), Some(AtomExec::Class(tc)), Type::Instance { args: sargs, .. }, Type::Instance { args: targs, .. }) => {
                    proof {
                        lemma_types_model(sargs@);
                        lemma_types_model(targs@);
                        assert(s@ matches TypeModel::Instance { args: a, .. } && a == types_model(sargs@));
                        assert(t@ matches TypeModel::Instance { args: a, .. } && a == types_model(targs@));
                    }
                    if str_eq(sc.as_str(), tc.as_str()) {
                        generic_join_exec(r, tc.as_str(), targs, sargs, ctx.strict_optional)
                    } else {
                        None
                    }
                },
                _ => None,
            },
        },
        Type::UnionType { .. } => match sub_exec(r, s, t, ctx, true) {
            None => None,
            Some(true) => Some(clone_type(t)),
            Some(false) => simplify_pair(s, t, ctx, r),
        },
        _ => None,
    }
}

/// The least upper bound of `s` and `t`; see [`join_spec`].
pub fn join_types(s: &Type, t: &Type, ctx: &SubtypeContext, resolver: &TypeResolver) -> (r: Option<Type>)
    ensures
        match r {
            Some(x) => join_spec(*resolver, s@, t@, *ctx) == Some(x@),
            None => join_spec(*resolver, s@, t@, *ctx).is_none(),
        },
{
    if !joinable_exec(s) || !joinable_exec(t) {
        return None;
    }
    let su = match s {
        Type::UnionType { .. } => true,
        _ => false,
    };
    let tu = match t {
        Type::UnionType { .. } => true,
        _ => false,
    };
    if (may_be_true(s) != may_be_true(t) || may_be_false(s) != may_be_false(t)) && (!default_truth_exec(s)
        || !default_truth_exec(t)) {
        return None;
    }
    let (s1, t1) = if su && !tu {
        (t, s)
    } else {
        (s, t)
    };
    if let Type::AnyType { .. } = s1 {
        return Some(clone_type(s1));
    }
    let s1n = match s1 {
        Type::NoneType => true,
        _ => false,
    };
    let t1n = match t1 {
        Type::NoneType => true,
        _ => false,
    };
    let (s2, t2) = if s1n && !t1n {
        (t1, s1)
    } else {
        (s1, t1)
    };
    let s2b = match s2 {
        Type::UninhabitedType { .. } => true,
        _ => false,
    };
    let t2b = match t2 {
        Type::UninhabitedType { .. } => true,
        _ => false,
    };
    let (s3, t3) = if s2b && !t2b {
        (t2, s2)
    } else {
        (s2, t2)
    };
    join_visit_exec(resolver, s3, t3, ctx)
}

proof fn lemma_all_items_below(
    r: TypeResolver,
    items: Seq<TypeModel>,
    rt: TypeModel,
    ctx: SubtypeContext,
    proper: bool,
    fuel: nat,
    k: int,
)
    requires
        0 <= k <= items.len(),
    ensures
        all_items_below(r, items, rt, ctx, proper, fuel, k) == Some(true) <==> forall|i: int|
            0 <= i < k ==> sub_fuel(r, #[trigger] items[i], rt, ctx, proper, fuel) == Some(true),
        (exists|i: int| 0 <= i < k && sub_fuel(r, #[trigger] items[i], rt, ctx, proper, fuel) == Some(false))
            ==> all_items_below(r, items, rt, ctx, proper, fuel, k) == Some(false),
    decreases k,
{
    if k > 0 {
        lemma_all_items_below(r, items, rt, ctx, proper, fuel, k - 1);
        if exists|i: int| 0 <= i < k && sub_fuel(r, #[trigger] items[i], rt, ctx, proper, fuel) == Some(false) {
            let i = choose|i: int| 0 <= i < k && sub_fuel(r, #[trigger] items[i], rt, ctx, proper, fuel) == Some(false);
            if i < k - 1 {
                assert(exists|j: int| 0 <= j < k - 1 && sub_fuel(r, #[trigger] items[j], rt, ctx, proper, fuel) == Some(false));
            }
        }
    }
}

/// A union on the left is a subtype of `rt` exactly when every item is
/// (each asked one level deeper), and is not one as soon as some item is
/// not; this holds whenever the question is not the non-proper one against
/// `Any`, which every type passes.
pub proof fn law_union_is_below_when_every_item_is(
    r: TypeResolver,
    u: TypeModel,
    rt: TypeModel,
    ctx: SubtypeContext,
    proper: bool,
    fuel: nat,
)
    requires
        u is UnionType,
        proper || !(rt is AnyType || rt is ErasedType),
    ensures
        match u {
            TypeModel::UnionType { items, .. } => {
                &&& sub_fuel(r, u, rt, ctx, proper, fuel + 1) == Some(true) <==> forall|i: int|
                    0 <= i < items.len() ==> sub_fuel(r, #[trigger] items[i], rt, ctx, proper, fuel) == Some(true)
                &&& (exists|i: int| 0 <= i < items.len() && sub_fuel(r, #[trigger] items[i], rt, ctx, proper, fuel) == Some(false))
                    ==> sub_fuel(r, u, rt, ctx, proper, fuel + 1) == Some(false)
            },
            _ => true,
        },
{
    match u {
        TypeModel::UnionType { items, .. } => {
            lemma_all_items_below(r, items, rt, ctx, proper, fuel, items.len() as int);
        },
        _ => {},
    }
}

/// The length of the MRO of class `c`.
pub open spec fn mro_len(r: TypeResolver, c: Seq<char>) -> int {
    r.class_of(c).unwrap().mro@.len() as int
}

/// Whether no class the resolver knows is a protocol.
pub open spec fn protocol_free(r: TypeResolver) -> bool {
    forall|c: Seq<char>| #[trigger] r.class_of(c).is_some() ==> !r.class_of(c).unwrap().is_protocol
}

/// The join of `s` with base `i` of `bases`, one step down the fuel.
pub open spec fn base_join(r: TypeResolver, bases: Seq<Type>, s: Seq<char>, so: bool, fuel: nat, i: int) -> Option<Seq<char>> {
    match bare_class_of(bases[i]@) {
        Some(b) => join_inst(r, b, s, so, (fuel - 1) as nat),
        None => None,
    }
}

proof fn lemma_best_over_deepest(r: TypeResolver, bases: Seq<Type>, s: Seq<char>, so: bool, fuel: nat, k: int)
    requires
        protocol_free(r),
        fuel > 0,
        0 <= k <= bases.len(),
    ensures
        best_over(r, bases, s, so, fuel, k) == Some(None::<Seq<char>>) ==> k == 0,
        match best_over(r, bases, s, so, fuel, k) {
            Some(Some(res)) => exists|j: int|
                0 <= j < k && base_join(r, bases, s, so, fuel, j) == Some(res) && forall|i: int|
                    0 <= i < k ==> (#[trigger] base_join(r, bases, s, so, fuel, i)).is_some() && mro_len(
                        r,
                        base_join(r, bases, s, so, fuel, i).unwrap(),
                    ) <= mro_len(r, res) && (i < j ==> mro_len(r, base_join(r, bases, s, so, fuel, i).unwrap()) < mro_len(r, res)),
            _ => true,
        },
    decreases k,
{
    if k > 0 {
        lemma_best_over_deepest(r, bases, s, so, fuel, k - 1);
        match best_over(r, bases, s, so, fuel, k) {
            Some(Some(res)) => {
                let prev = best_over(r, bases, s, so, fuel, k - 1).unwrap();
                let c = base_join(r, bases, s, so, fuel, k - 1).unwrap();
                match prev {
                    None => {
                        assert(k - 1 == 0);
                        assert(res == c);
                        assert forall|i: int| 0 <= i < k implies (#[trigger] base_join(r, bases, s, so, fuel, i)).is_some()
                            && mro_len(r, base_join(r, bases, s, so, fuel, i).unwrap()) <= mro_len(r, res) && (i < 0
                            ==> mro_len(r, base_join(r, bases, s, so, fuel, i).unwrap()) < mro_len(r, res)) by {
                            assert(i == 0);
                        }
                    },
                    Some(best) => {
                        let j0 = choose|j: int|
                            0 <= j < k - 1 && base_join(r, bases, s, so, fuel, j) == Some(best) && forall|i: int|
                                0 <= i < k - 1 ==> (#[trigger] base_join(r, bases, s, so, fuel, i)).is_some() && mro_len(
                                    r,
                                    base_join(r, bases, s, so, fuel, i).unwrap(),
                                ) <= mro_len(r, best) && (i < j ==> mro_len(r, base_join(r, bases, s, so, fuel, i).unwrap())
                                    < mro_len(r, best));
                        assert(r.class_of(c).is_some() && r.class_of(best).is_some());
                        assert(!r.class_of(c).unwrap().is_protocol && !r.class_of(best).unwrap().is_protocol);
                        if mro_len(r, c) > mro_len(r, best) {
                            assert(res == c);
                            assert forall|i: int| 0 <= i < k implies (#[trigger] base_join(r, bases, s, so, fuel, i)).is_some()
                                && mro_len(r, base_join(r, bases, s, so, fuel, i).unwrap()) <= mro_len(r, res) && (i < k - 1
                                ==> mro_len(r, base_join(r, bases, s, so, fuel, i).unwrap()) < mro_len(r, res)) by {
                                if i < k - 1 {
                                    assert(base_join(r, bases, s, so, fuel, i).is_some());
                                }
                            }
                        } else {
                            assert(res == best);
                            assert forall|i: int| 0 <= i < k implies (#[trigger] base_join(r, bases, s, so, fuel, i)).is_some()
                                && mro_len(r, base_join(r, bases, s, so, fuel, i).unwrap()) <= mro_len(r, res) && (i < j0
                                ==> mro_len(r, base_join(r, bases, s, so, fuel, i).unwrap()) < mro_len(r, res)) by {
                                if i < k - 1 {
                                    assert(base_join(r, bases, s, so, fuel, i).is_some());
                                }
                            }
                        }
                    },
                }
            },
            _ => {},
        }
    }
}

/// In a class graph without protocols, the join through the bases of `t`
/// is the deepest of the joins of its bases with `s`: one of them, with an
/// MRO at least as long as every other's, and longer than that of each
/// base join before it (the first of equally deep ones stays). So two
/// classes that share `A` and `object` through their bases join to `A`.
pub proof fn law_join_via_bases_takes_the_deepest(r: TypeResolver, t: Seq<char>, s: Seq<char>, so: bool, fuel: nat)
    requires
        protocol_free(r),
    ensures
        match via_super(r, t, s, so, fuel) {
            Some(res) => {
                let bases = r.class_of(t).unwrap().bases@;
                exists|j: int|
                    0 <= j < bases.len() && base_join(r, bases, s, so, fuel, j) == Some(res) && forall|i: int|
                        0 <= i < bases.len() ==> (#[trigger] base_join(r, bases, s, so, fuel, i)).is_some() && mro_len(
                            r,
                            base_join(r, bases, s, so, fuel, i).unwrap(),
                        ) <= mro_len(r, res) && (i < j ==> mro_len(r, base_join(r, bases, s, so, fuel, i).unwrap()) < mro_len(
                            r,
                            res,
                        ))
            },
            None => true,
        },
{
    if via_super(r, t, s, so, fuel).is_some() {
        let bases = r.class_of(t).unwrap().bases@;
        lemma_best_over_deepest(r, bases, s, so, fuel, bases.len() as int);
    }
}

/// Whether `idx` places each item of `out` at a position of `items`, in
/// increasing order: `out` is a subsequence of `items`.
pub open spec fn placed_in(out: Seq<TypeModel>, items: Seq<TypeModel>, idx: Seq<int>) -> bool {
    &&& idx.len() == out.len()
    &&& forall|j: int| 0 <= j < out.len() ==> 0 <= #[trigger] idx[j] < items.len() && out[j] == items[idx[j]]
    &&& forall|i: int, j: int| 0 <= i < j < out.len() ==> #[trigger] idx[i] < #[trigger] idx[j]
}

proof fn lemma_keep_means_below_none(r: TypeResolver, ti: TypeModel, kept: Seq<TypeModel>, so: bool)
    requires
        keep_verdict(r, ti, kept, so) == Some(true),
    ensures
        forall|i: int| 0 <= i < kept.len() ==> sub_spec(r, ti, #[trigger] kept[i], redundancy_ctx(so), true) == Some(false),
{
    let v = kept.map_values(|k: TypeModel| sub_spec(r, ti, k, redundancy_ctx(so), true));
    assert(any_verdict(v) == Some(false));
    assert forall|i: int| 0 <= i < kept.len() implies sub_spec(r, ti, #[trigger] kept[i], redundancy_ctx(so), true) == Some(false) by {
        assert(v[i] == sub_spec(r, ti, kept[i], redundancy_ctx(so), true));
    }
}

/// What one pass keeps is a subsequence of its input in which no item is a
/// proper subtype of an item kept before it.
proof fn lemma_pass_keeps(r: TypeResolver, items: Seq<TypeModel>, so: bool) -> (idx: Seq<int>)
    requires
        redundancy_pass(r, items, so).is_some(),
    ensures
        placed_in(redundancy_pass(r, items, so).unwrap(), items, idx),
        forall|i: int, j: int|
            0 <= i < j < redundancy_pass(r, items, so).unwrap().len() ==> sub_spec(
                r,
                #[trigger] redundancy_pass(r, items, so).unwrap()[j],
                #[trigger] redundancy_pass(r, items, so).unwrap()[i],
                redundancy_ctx(so),
                true,
            ) == Some(false),
    decreases items.len(),
{
    if items.len() == 0 {
        Seq::empty()
    } else {
        let prev = redundancy_pass(r, items.drop_last(), so).unwrap();
        let idx0 = lemma_pass_keeps(r, items.drop_last(), so);
        let out = redundancy_pass(r, items, so).unwrap();
        if keep_verdict(r, items.last(), prev, so) == Some(true) {
            lemma_keep_means_below_none(r, items.last(), prev, so);
            let idx = idx0.push(items.len() - 1);
            assert(out == prev.push(items.last()));
            assert forall|i: int, j: int| 0 <= i < j < out.len() implies sub_spec(r, #[trigger] out[j], #[trigger] out[i], redundancy_ctx(so), true)
                == Some(false) by {
                if j == out.len() - 1 {
                    assert(out[j] == items.last());
                    assert(out[i] == prev[i]);
                } else {
                    assert(out[j] == prev[j] && out[i] == prev[i]);
                }
            }
            assert forall|i: int, j: int| 0 <= i < j < out.len() implies #[trigger] idx[i] < #[trigger] idx[j] by {
                if j < out.len() - 1 {
                    assert(idx[i] == idx0[i] && idx[j] == idx0[j]);
                } else {
                    assert(idx[i] == idx0[i]);
                    assert(idx0[i] < items.drop_last().len());
                }
            }
            assert forall|j: int| 0 <= j < out.len() implies 0 <= #[trigger] idx[j] < items.len() && out[j] == items[idx[j]] by {
                if j < out.len() - 1 {
                    assert(idx[j] == idx0[j]);
                    assert(items.drop_last()[idx0[j]] == items[idx0[j]]);
                }
            }
            idx
        } else {
            assert(out == prev);
            assert forall|j: int| 0 <= j < out.len() implies 0 <= #[trigger] idx0[j] < items.len() && out[j] == items[idx0[j]] by {
                assert(items.drop_last()[idx0[j]] == items[idx0[j]]);
            }
            idx0
        }
    }
}

/// After redundancy removal no item is a proper subtype of another: for
/// two distinct positions `i != j` of the result, the proper-subtype
/// question of item `i` against item `j` is answered no.
pub proof fn law_no_kept_item_is_below_another(r: TypeResolver, items: Seq<TypeModel>, so: bool)
    ensures
        match remove_redundant_spec(r, items, so) {
            Some(res) => forall|i: int, j: int|
                0 <= i < res.len() && 0 <= j < res.len() && i != j ==> sub_spec(r, #[trigger] res[i], #[trigger] res[j], redundancy_ctx(so), true)
                    == Some(false),
            None => true,
        },
{
    if remove_redundant_spec(r, items, so).is_some() {
        let k1 = redundancy_pass(r, items, so).unwrap();
        let idx1 = lemma_pass_keeps(r, items, so);
        let k2 = redundancy_pass(r, k1.reverse(), so).unwrap();
        let idx2 = lemma_pass_keeps(r, k1.reverse(), so);
        let res = k2.reverse();
        let n1 = k1.len() as int;
        let n2 = k2.len() as int;
        assert forall|a: int, b: int| 0 <= a < res.len() && 0 <= b < res.len() && a != b implies sub_spec(
            r,
            #[trigger] res[a],
            #[trigger] res[b],
            redundancy_ctx(so),
            true,
        ) == Some(false) by {
            let ja = n2 - 1 - a;
            let jb = n2 - 1 - b;
            assert(res[a] == k2[ja] && res[b] == k2[jb]);
            if a < b {
                assert(sub_spec(r, k2[ja], k2[jb], redundancy_ctx(so), true) == Some(false));
            } else {
                assert(idx2[ja] < idx2[jb]);
                let pa = n1 - 1 - idx2[ja];
                let pb = n1 - 1 - idx2[jb];
                assert(k2[ja] == k1.reverse()[idx2[ja]]);
                assert(k2[jb] == k1.reverse()[idx2[jb]]);
                assert(k1.reverse()[idx2[ja]] == k1[pa]);
                assert(k1.reverse()[idx2[jb]] == k1[pb]);
                assert(sub_spec(r, k1[pa], k1[pb], redundancy_ctx(so), true) == Some(false));
            }
        }
    }
}

proof fn lemma_flatten_no_union(items: Seq<TypeModel>)
    requires
        flatten_model(items).is_some(),
    ensures
        forall|i: int| 0 <= i < flatten_model(items).unwrap().len() ==> !(#[trigger] flatten_model(items).unwrap()[i] is UnionType),
    decreases items,
{
    if items.len() > 0 {
        let last = items.last();
        let prefix = flatten_model(items.drop_last()).unwrap();
        lemma_flatten_no_union(items.drop_last());
        let f = flatten_model(items).unwrap();
        match last {
            TypeModel::UnionType { items: sub, .. } => {
                assert(decreases_to!(items => last));
                lemma_flatten_no_union(sub);
                let inner = flatten_model(sub).unwrap();
                assert(f == prefix + inner);
                assert forall|i: int| 0 <= i < f.len() implies !(#[trigger] f[i] is UnionType) by {
                    if i < prefix.len() {
                        assert(f[i] == prefix[i]);
                    } else {
                        assert(f[i] == inner[i - prefix.len()]);
                    }
                }
            },
            _ => {
                assert forall|i: int| 0 <= i < f.len() implies !(#[trigger] f[i] is UnionType) by {
                    if i < prefix.len() {
                        assert(f[i] == prefix[i]);
                    }
                }
            },
        }
    }
}

/// When `make_simplified_union` gives a union, no item of it is a proper
/// subtype of (or the same as) another: every pair of distinct positions
/// is answered no by the proper-subtype question, so an item that another
/// item covers has been dropped.
pub proof fn law_simplified_union_has_no_redundant_item(r: TypeResolver, items: Seq<TypeModel>, so: bool)
    ensures
        match simplified_union_spec(r, items, so) {
            Some(TypeModel::UnionType { items: ks, .. }) => forall|i: int, j: int|
                0 <= i < ks.len() && 0 <= j < ks.len() && i != j ==> sub_spec(r, #[trigger] ks[i], #[trigger] ks[j], redundancy_ctx(so), true)
                    == Some(false),
            _ => true,
        },
{
    if flatten_model(items).is_some() {
        let flat = flatten_model(items).unwrap();
        if flat.len() == 1 {
            lemma_flatten_no_union(items);
            assert(!(flat[0] is UnionType));
        } else {
            law_no_kept_item_is_below_another(r, flat, so);
            if remove_redundant_spec(r, flat, so).is_some() {
                let kept = remove_redundant_spec(r, flat, so).unwrap();
                if kept.len() == 1 {
                    let k1 = redundancy_pass(r, flat, so).unwrap();
                    let idx1 = lemma_pass_keeps(r, flat, so);
                    let k2 = redundancy_pass(r, k1.reverse(), so).unwrap();
                    let idx2 = lemma_pass_keeps(r, k1.reverse(), so);
                    lemma_flatten_no_union(items);
                    assert(kept[0] == k2[0]);
                    assert(k2[0] == k1.reverse()[idx2[0]]);
                    assert(k1.reverse()[idx2[0]] == k1[k1.len() - 1 - idx2[0]]);
                    assert(k1[k1.len() - 1 - idx2[0]] == flat[idx1[k1.len() - 1 - idx2[0]]]);
                    assert(!(kept[0] is UnionType));
                }
            }
        }
    }
}

/// Whether item `y` makes item `x` redundant: the same atom, or `x` a
/// proper subtype of `y`.
pub open spec fn covers(r: TypeResolver, x: TypeModel, y: TypeModel, so: bool) -> bool {
    ||| atom_of(x).is_some() && atom_of(x) == atom_of(y)
    ||| sub_spec(r, x, y, redundancy_ctx(so), true) == Some(true)
}

proof fn lemma_drop_means_covered(r: TypeResolver, ti: TypeModel, kept: Seq<TypeModel>, so: bool)
    requires
        keep_verdict(r, ti, kept, so) == Some(false),
    ensures
        atom_of(ti) == Some(Atom::Never) || exists|j: int| 0 <= j < kept.len() && covers(r, ti, #[trigger] kept[j], so),
{
    let v = kept.map_values(|k: TypeModel| sub_spec(r, ti, k, redundancy_ctx(so), true));
    if atom_of(ti) != Some(Atom::Never) {
        if atom_of(ti).is_some() && kept_has_atom(kept, atom_of(ti).unwrap()) {
            let j = choose|j: int| 0 <= j < kept.len() && atom_of(#[trigger] kept[j]) == Some(atom_of(ti).unwrap());
            assert(covers(r, ti, kept[j], so));
        } else {
            assert(any_verdict(v) == Some(true));
            let j = choose|j: int| 0 <= j < v.len() && v[j] == Some(true);
            assert(v[j] == sub_spec(r, ti, kept[j], redundancy_ctx(so), true));
            assert(covers(r, ti, kept[j], so));
        }
    }
}

/// A pass drops only what it has to: every input item is `Never`, kept, or
/// made redundant by an item the pass keeps; and no kept item is `Never`.
proof fn lemma_pass_covers(r: TypeResolver, items: Seq<TypeModel>, so: bool)
    requires
        redundancy_pass(r, items, so).is_some(),
    ensures
        forall|j: int| 0 <= j < redundancy_pass(r, items, so).unwrap().len() ==> atom_of(
            #[trigger] redundancy_pass(r, items, so).unwrap()[j],
        ) != Some(Atom::Never),
        forall|p: int|
            0 <= p < items.len() ==> atom_of(#[trigger] items[p]) == Some(Atom::Never) || redundancy_pass(r, items, so).unwrap().contains(
                items[p],
            ) || exists|j: int|
                0 <= j < redundancy_pass(r, items, so).unwrap().len() && covers(r, items[p], #[trigger] redundancy_pass(r, items, so).unwrap()[j], so),
    decreases items.len(),
{
    if items.len() > 0 {
        let prev = redundancy_pass(r, items.drop_last(), so).unwrap();
        lemma_pass_covers(r, items.drop_last(), so);
        let out = redundancy_pass(r, items, so).unwrap();
        let last = items.last();
        if keep_verdict(r, last, prev, so) == Some(true) {
            assert(out == prev.push(last));
        } else {
            assert(out == prev);
            lemma_drop_means_covered(r, last, prev, so);
        }
        assert forall|j: int| 0 <= j < out.len() implies atom_of(#[trigger] out[j]) != Some(Atom::Never) by {
            if j < prev.len() {
                assert(out[j] == prev[j]);
            }
        }
        assert forall|p: int| 0 <= p < items.len() implies atom_of(#[trigger] items[p]) == Some(Atom::Never) || out.contains(items[p])
            || exists|j: int| 0 <= j < out.len() && covers(r, items[p], #[trigger] out[j], so) by {
            if p == items.len() - 1 {
                if out.len() > prev.len() {
                    assert(out[out.len() - 1] == items[p]);
                }
            } else {
                assert(items[p] == items.drop_last()[p]);
                if prev.contains(items[p]) {
                    let i = choose|i: int| 0 <= i < prev.len() && prev[i] == items[p];
                    assert(out[i] == prev[i]);
                } else if exists|j: int| 0 <= j < prev.len() && covers(r, items[p], #[trigger] prev[j], so) {
                    let j = choose|j: int| 0 <= j < prev.len() && covers(r, items[p], #[trigger] prev[j], so);
                    assert(out[j] == prev[j]);
                }
            }
        }
    }
}

/// Redundancy removal drops only redundant items: every input item is
/// `Never`, or kept, or made redundant (the same atom, or a proper subtype)
/// by an item `y` that is itself kept or made redundant by a kept item.
pub proof fn law_removed_items_are_covered(r: TypeResolver, items: Seq<TypeModel>, so: bool)
    ensures
        match remove_redundant_spec(r, items, so) {
            Some(res) => forall|p: int|
                0 <= p < items.len() ==> atom_of(#[trigger] items[p]) == Some(Atom::Never) || res.contains(items[p]) || exists|y: TypeModel|
                    #[trigger] covers(r, items[p], y, so) && (res.contains(y) || exists|z: TypeModel| #[trigger] res.contains(z) && covers(r, y, z, so)),
            None => true,
        },
{
    if remove_redundant_spec(r, items, so).is_some() {
        let k1 = redundancy_pass(r, items, so).unwrap();
        lemma_pass_covers(r, items, so);
        let rk1 = k1.reverse();
        let k2 = redundancy_pass(r, rk1, so).unwrap();
        lemma_pass_covers(r, rk1, so);
        let res = k2.reverse();
        assert forall|x: TypeModel| k2.contains(x) implies res.contains(x) by {
            let i = choose|i: int| 0 <= i < k2.len() && k2[i] == x;
            assert(res[k2.len() - 1 - i] == x);
        }
        assert forall|y: TypeModel| #[trigger] k1.contains(y) implies res.contains(y) || exists|z: TypeModel|
            #[trigger] res.contains(z) && covers(r, y, z, so) by {
            let i = choose|i: int| 0 <= i < k1.len() && k1[i] == y;
            let q = k1.len() - 1 - i;
            assert(rk1[q] == y);
            assert(atom_of(k1[i]) != Some(Atom::Never));
            if !k2.contains(y) {
                let j = choose|j: int| 0 <= j < k2.len() && covers(r, rk1[q], #[trigger] k2[j], so);
                assert(k2.contains(k2[j]));
                assert(res.contains(k2[j]));
            }
        }
        assert forall|p: int| 0 <= p < items.len() implies atom_of(#[trigger] items[p]) == Some(Atom::Never) || res.contains(items[p])
            || exists|y: TypeModel| #[trigger] covers(r, items[p], y, so) && (res.contains(y) || exists|z: TypeModel| #[trigger] res.contains(z)
                && covers(r, y, z, so)) by {
            if atom_of(items[p]) != Some(Atom::Never) {
                if k1.contains(items[p]) {
                    let i = choose|i: int| 0 <= i < k1.len() && k1[i] == items[p];
                    assert(k1.contains(k1[i]));
                    if !res.contains(items[p]) {
                        let z = choose|z: TypeModel| #[trigger] res.contains(z) && covers(r, items[p], z, so);
                        assert(covers(r, items[p], z, so) && (res.contains(z) || exists|w: TypeModel| #[trigger] res.contains(w)
                            && covers(r, z, w, so)));
                    }
                } else {
                    let j = choose|j: int| 0 <= j < k1.len() && covers(r, items[p], #[trigger] k1[j], so);
                    let y = k1[j];
                    assert(k1.contains(y));
                    assert(covers(r, items[p], y, so) && (res.contains(y) || exists|w: TypeModel| #[trigger] res.contains(w)
                        && covers(r, y, w, so)));
                    assert(exists|y: TypeModel| #[trigger] covers(r, items[p], y, so) && (res.contains(y) || exists|z: TypeModel| #[trigger] res.contains(z)
                        && covers(r, y, z, so)));
                }
            } else {
                assert(atom_of(items[p]) == Some(Atom::Never));
            }
        }
    }
}

proof fn lemma_below_some_item(
    r: TypeResolver,
    l: TypeModel,
    items: Seq<TypeModel>,
    ctx: SubtypeContext,
    proper: bool,
    fuel: nat,
    k: int,
)
    requires
        0 <= k <= items.len(),
    ensures
        (exists|i: int| 0 <= i < k && sub_fuel(r, l, #[trigger] items[i], ctx, proper, fuel) == Some(true))
            ==> below_some_item(r, l, items, ctx, proper, fuel, k) == Some(true),
        below_some_item(r, l, items, ctx, proper, fuel, k) == Some(false) <==> forall|i: int|
            0 <= i < k ==> sub_fuel(r, l, #[trigger] items[i], ctx, proper, fuel) == Some(false),
    decreases k,
{
    if k > 0 {
        lemma_below_some_item(r, l, items, ctx, proper, fuel, k - 1);
        if exists|i: int| 0 <= i < k && sub_fuel(r, l, #[trigger] items[i], ctx, proper, fuel) == Some(true) {
            let i = choose|i: int| 0 <= i < k && sub_fuel(r, l, #[trigger] items[i], ctx, proper, fuel) == Some(true);
            if i < k - 1 {
                assert(exists|j: int| 0 <= j < k - 1 && sub_fuel(r, l, #[trigger] items[j], ctx, proper, fuel) == Some(true));
            }
        }
    }
}

/// A type other than a union or a type variable is a subtype of a union
/// exactly when it is one of some item (each asked one level deeper): it
/// is one as soon as some item takes it, and is not one exactly when no
/// item does.
pub proof fn law_below_a_union_when_below_some_item(
    r: TypeResolver,
    l: TypeModel,
    u: TypeModel,
    ctx: SubtypeContext,
    proper: bool,
    fuel: nat,
)
    requires
        u is UnionType,
        !(l is UnionType),
        !(l is TypeVarType),
    ensures
        match u {
            TypeModel::UnionType { items, .. } => {
                &&& (exists|i: int| 0 <= i < items.len() && sub_fuel(r, l, #[trigger] items[i], ctx, proper, fuel) == Some(true))
                    ==> sub_fuel(r, l, u, ctx, proper, fuel + 1) == Some(true)
                &&& sub_fuel(r, l, u, ctx, proper, fuel + 1) == Some(false) <==> forall|i: int|
                    0 <= i < items.len() ==> sub_fuel(r, l, #[trigger] items[i], ctx, proper, fuel) == Some(false)
            },
            _ => true,
        },
{
    match u {
        TypeModel::UnionType { items, .. } => {
            lemma_below_some_item(r, l, items, ctx, proper, fuel, items.len() as int);
        },
        _ => {},
    }
}

} // verus!
