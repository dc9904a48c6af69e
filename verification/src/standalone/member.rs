//! Attribute and member access: the dispatch of a member lookup, method
//! self binding, operator presence, MRO member queries and the descriptor
//! protocol.
//!
//! Facts about classes come from the resolver's snapshots. `None` from an
//! `Option` result means the snapshots do not carry enough to decide, or a
//! type alias whose target is not held; it never means "false".

use vstd::prelude::*;
use crate::query::{query, run_query, BoolQuery};
use crate::standalone::call::{strip_self, strip_self_spec};
use crate::text::{owned, starts_with, str_eq};
use crate::typeinfo::{find_in_mro, is_metaclass, mro_lookup, snapshot_is_metaclass, TypeResolver};
use crate::wire::{
    clone_kinds, clone_opt_strings, clone_type, extra_model, lemma_types_model, literal_model, lemma_types_model_push, opt_str_model,
    opt_strs_model, opt_type_model, ExtraAttrsModel,
    type_model, types_model, LiteralModel, LiteralValue, Type, TypeModel,
};

verus! {

/// Which `_analyze_member_access` branch a proper type dispatches to.
#[derive(Debug, Clone, Copy, PartialEq, Eq, Structural)]
pub enum MemberAccessKind {
    /// `Instance`: instance member access.
    Instance,
    /// `Any`: the access is `Any`.
    Any,
    /// `Union`: per-item access.
    Union,
    /// A function-like type object: class-object member access.
    TypeCallable,
    /// `type[C]`: member access on the class object.
    TypeType,
    /// `TupleType`: recurse on the tuple fallback.
    Tuple,
    /// `LiteralType`, or a function-like that is no type object: recurse
    /// on the fallback.
    LiteralOrFunc,
    /// `TypedDictType`: TypedDict access.
    TypedDict,
    /// `None`: `None` member access.
    NoneType,
    /// A type variable: recurse on the bound.
    TypeVar,
    /// `DeletedType`: the deleted-as-rvalue error.
    Deleted,
    /// `Never`: a fresh `Never`.
    Uninhabited,
    /// Anything else: a missing attribute.
    Missing,
}

/// The dispatch code of the `Instance` branch.
pub const MA_INSTANCE: i64 = 0;

/// The dispatch code of the `Any` branch.
pub const MA_ANY: i64 = 1;

/// The dispatch code of the `Union` branch.
pub const MA_UNION: i64 = 2;

/// The dispatch code of the `TypeCallable` branch.
pub const MA_TYPE_CALLABLE: i64 = 3;

/// The dispatch code of the `TypeType` branch.
pub const MA_TYPE_TYPE: i64 = 4;

/// The dispatch code of the `Tuple` branch.
pub const MA_TUPLE: i64 = 5;

/// The dispatch code of the `LiteralOrFunc` branch.
pub const MA_LITERAL_OR_FUNC: i64 = 6;

/// The dispatch code of the `TypedDict` branch.
pub const MA_TYPEDDICT: i64 = 7;

/// The dispatch code of the `NoneType` branch.
pub const MA_NONE: i64 = 8;

/// The dispatch code of the `TypeVar` branch.
pub const MA_TYPEVAR: i64 = 9;

/// The dispatch code of the `Deleted` branch.
pub const MA_DELETED: i64 = 10;

/// The dispatch code of the `Uninhabited` branch.
pub const MA_UNINHABITED: i64 = 11;

/// The dispatch code of the `Missing` branch.
pub const MA_MISSING: i64 = 12;

/// The branch a dispatch code stands for; `None` for a code outside the
/// list.
pub open spec fn code_kind(code: i64) -> Option<MemberAccessKind> {
    if code == MA_INSTANCE {
        Some(MemberAccessKind::Instance)
    } else if code == MA_ANY {
        Some(MemberAccessKind::Any)
    } else if code == MA_UNION {
        Some(MemberAccessKind::Union)
    } else if code == MA_TYPE_CALLABLE {
        Some(MemberAccessKind::TypeCallable)
    } else if code == MA_TYPE_TYPE {
        Some(MemberAccessKind::TypeType)
    } else if code == MA_TUPLE {
        Some(MemberAccessKind::Tuple)
    } else if code == MA_LITERAL_OR_FUNC {
        Some(MemberAccessKind::LiteralOrFunc)
    } else if code == MA_TYPEDDICT {
        Some(MemberAccessKind::TypedDict)
    } else if code == MA_NONE {
        Some(MemberAccessKind::NoneType)
    } else if code == MA_TYPEVAR {
        Some(MemberAccessKind::TypeVar)
    } else if code == MA_DELETED {
        Some(MemberAccessKind::Deleted)
    } else if code == MA_UNINHABITED {
        Some(MemberAccessKind::Uninhabited)
    } else if code == MA_MISSING {
        Some(MemberAccessKind::Missing)
    } else {
        None
    }
}

/// Map a dispatch code onto its branch; `None` for a code outside the
/// list.
pub fn kind_from_code(code: i64) -> (r: Option<MemberAccessKind>)
    ensures
        r == code_kind(code),
{
    if code == MA_INSTANCE {
        Some(MemberAccessKind::Instance)
    } else if code == MA_ANY {
        Some(MemberAccessKind::Any)
    } else if code == MA_UNION {
        Some(MemberAccessKind::Union)
    } else if code == MA_TYPE_CALLABLE {
        Some(MemberAccessKind::TypeCallable)
    } else if code == MA_TYPE_TYPE {
        Some(MemberAccessKind::TypeType)
    } else if code == MA_TUPLE {
        Some(MemberAccessKind::Tuple)
    } else if code == MA_LITERAL_OR_FUNC {
        Some(MemberAccessKind::LiteralOrFunc)
    } else if code == MA_TYPEDDICT {
        Some(MemberAccessKind::TypedDict)
    } else if code == MA_NONE {
        Some(MemberAccessKind::NoneType)
    } else if code == MA_TYPEVAR {
        Some(MemberAccessKind::TypeVar)
    } else if code == MA_DELETED {
        Some(MemberAccessKind::Deleted)
    } else if code == MA_UNINHABITED {
        Some(MemberAccessKind::Uninhabited)
    } else if code == MA_MISSING {
        Some(MemberAccessKind::Missing)
    } else {
        None
    }
}

/// `CallableType.is_type_obj()` from a callable's fallback and return type:
/// the fallback class is a metaclass (a class without a snapshot is taken
/// as none) and the return type is not `Never`.
pub open spec fn type_obj_fast(fallback: TypeModel, ret: TypeModel, r: TypeResolver) -> bool {
    let meta = match fallback {
        TypeModel::Instance { type_ref, .. } => match r.class_of(type_ref) {
            Some(snap) => snapshot_is_metaclass(snap),
            None => false,
        },
        _ => false,
    };
    meta && !(ret is UninhabitedType)
}

/// Whether a callable with the given fallback and return type is a type
/// object.
pub fn is_type_obj(fallback: &Type, ret_type: &Type, resolver: &TypeResolver) -> (r: bool)
    ensures
        r == type_obj_fast(fallback@, ret_type@, *resolver),
{
    let meta = match fallback {
        Type::Instance { type_ref, .. } => match resolver.get(type_ref.as_str()) {
            Some(snap) => is_metaclass(snap),
            None => false,
        },
        _ => false,
    };
    let never = match ret_type {
        Type::UninhabitedType { .. } => true,
        _ => false,
    };
    meta && !never
}

/// Whether a function-like type is a type object: a callable by its own
/// fallback and return type, an overload by its first item.
pub open spec fn function_like_type_obj(t: TypeModel, r: TypeResolver) -> bool {
    match t {
        TypeModel::CallableType { fallback, ret_type, .. } => type_obj_fast(*fallback, *ret_type, r),
        TypeModel::Overloaded { items } => items.len() > 0 && match items[0] {
            TypeModel::CallableType { fallback, ret_type, .. } => type_obj_fast(*fallback, *ret_type, r),
            _ => false,
        },
        _ => false,
    }
}

fn function_like_is_type_obj(t: &Type, resolver: &TypeResolver) -> (r: bool)
    ensures
        r == function_like_type_obj(t@, *resolver),
{
    match t {
        Type::CallableType { fallback, ret_type, .. } => is_type_obj(fallback, ret_type, resolver),
        Type::Overloaded { items } => {
            proof {
                lemma_types_model(items@);
            }
            if items.len() == 0 {
                return false;
            }
            match &items[0] {
                Type::CallableType { fallback, ret_type, .. } => is_type_obj(fallback, ret_type, resolver),
                _ => false,
            }
        },
        _ => false,
    }
}

/// The `_analyze_member_access` branch of a type; `None` for an alias.
pub open spec fn member_access_spec(t: TypeModel, r: TypeResolver) -> Option<MemberAccessKind> {
    match t {
        TypeModel::TypeAliasType { .. } => None,
        TypeModel::Instance { .. } => Some(MemberAccessKind::Instance),
        TypeModel::AnyType { .. } => Some(MemberAccessKind::Any),
        TypeModel::UnionType { .. } => Some(MemberAccessKind::Union),
        TypeModel::CallableType { .. } | TypeModel::Overloaded { .. } => if function_like_type_obj(t, r) {
            Some(MemberAccessKind::TypeCallable)
        } else {
            Some(MemberAccessKind::LiteralOrFunc)
        },
        TypeModel::TypeType { .. } => Some(MemberAccessKind::TypeType),
        TypeModel::TupleType { .. } => Some(MemberAccessKind::Tuple),
        TypeModel::LiteralType { .. } => Some(MemberAccessKind::LiteralOrFunc),
        TypeModel::TypedDictType { .. } => Some(MemberAccessKind::TypedDict),
        TypeModel::NoneType => Some(MemberAccessKind::NoneType),
        TypeModel::TypeVarType { .. } => Some(MemberAccessKind::TypeVar),
        TypeModel::DeletedType { .. } => Some(MemberAccessKind::Deleted),
        TypeModel::UninhabitedType { .. } => Some(MemberAccessKind::Uninhabited),
        _ => Some(MemberAccessKind::Missing),
    }
}

/// The `_analyze_member_access` dispatch branch of a type.
pub fn classify_member_access(typ: &Type, resolver: &TypeResolver) -> (r: Option<MemberAccessKind>)
    ensures
        r == member_access_spec(typ@, *resolver),
{
    match typ {
        Type::TypeAliasType { .. } => None,
        Type::Instance { .. } => Some(MemberAccessKind::Instance),
        Type::AnyType { .. } => Some(MemberAccessKind::Any),
        Type::UnionType { .. } => Some(MemberAccessKind::Union),
        Type::CallableType { .. } | Type::Overloaded { .. } => {
            if function_like_is_type_obj(typ, resolver) {
                Some(MemberAccessKind::TypeCallable)
            } else {
                Some(MemberAccessKind::LiteralOrFunc)
            }
        },
        Type::TypeType { .. } => Some(MemberAccessKind::TypeType),
        Type::TupleType { .. } => Some(MemberAccessKind::Tuple),
        Type::LiteralType { .. } => Some(MemberAccessKind::LiteralOrFunc),
        Type::TypedDictType { .. } => Some(MemberAccessKind::TypedDict),
        Type::NoneType => Some(MemberAccessKind::NoneType),
        Type::TypeVarType { .. } => Some(MemberAccessKind::TypeVar),
        Type::DeletedType { .. } => Some(MemberAccessKind::Deleted),
        Type::UninhabitedType { .. } => Some(MemberAccessKind::Uninhabited),
        _ => Some(MemberAccessKind::Missing),
    }
}

/// `get_proper_type` without an alias store: every type but an alias is
/// its own proper type; an alias is `None`.
pub fn get_proper_type(typ: &Type) -> (r: Option<&Type>)
    ensures
        match *typ {
            Type::TypeAliasType { .. } => r.is_none(),
            _ => r == Some(typ),
        },
{
    match typ {
        Type::TypeAliasType { .. } => None,
        _ => Some(typ),
    }
}


/// `bind_self_fast` on one callable: unchanged without parameters or when
/// the first is `*args` / `**kwargs`, else the first parameter dropped and
/// marked bound. `None` for a non-callable, or a callable whose kinds list
/// is empty while it has parameters.
pub open spec fn bind_fast_callable(c: TypeModel) -> Option<TypeModel> {
    match c {
        TypeModel::CallableType { arg_types, arg_kinds, .. } => if arg_types.len() == 0 {
            Some(c)
        } else if arg_kinds.len() == 0 {
            None
        } else if arg_kinds[0] == 2 || arg_kinds[0] == 4 {
            Some(c)
        } else {
            Some(strip_self_spec(c))
        },
        _ => None,
    }
}

/// `bind_fast_callable` over the items of an overload.
pub open spec fn bind_fast_items(items: Seq<TypeModel>) -> Option<Seq<TypeModel>>
    decreases items.len(),
{
    if items.len() == 0 {
        Some(Seq::empty())
    } else {
        match (bind_fast_items(items.drop_last()), bind_fast_callable(items.last())) {
            (Some(a), Some(b)) => Some(a.push(b)),
            _ => None,
        }
    }
}

/// `bind_self_fast`: bind a callable or each item of an overload. `None`
/// for any other type, an empty overload, and a signature that carries an
/// `ErasedType` or an alias that could hide one.
pub open spec fn bind_fast_spec(t: TypeModel) -> Option<TypeModel> {
    if query(t, BoolQuery::Erased) != Some(false) {
        None
    } else {
        match t {
            TypeModel::CallableType { .. } => bind_fast_callable(t),
            TypeModel::Overloaded { items } => if items.len() == 0 {
                None
            } else {
                match bind_fast_items(items) {
                    None => None,
                    Some(b) => Some(TypeModel::Overloaded { items: b }),
                }
            },
            _ => None,
        }
    }
}

fn bind_fast_callable_exec(c: &Type) -> (r: Option<Type>)
    ensures
        match r {
            None => bind_fast_callable(c@).is_none(),
            Some(x) => bind_fast_callable(c@) == Some(x@),
        },
{
    match c {
        Type::CallableType { arg_types, arg_kinds, .. } => {
            proof {
                lemma_types_model(arg_types@);
            }
            if arg_types.len() == 0 {
                Some(clone_type(c))
            } else if arg_kinds.len() == 0 {
                None
            } else if arg_kinds[0] == 2 || arg_kinds[0] == 4 {
                Some(clone_type(c))
            } else {
                Some(strip_self(c))
            }
        },
        _ => None,
    }
}

proof fn lemma_bind_fast_items_none_persists(items: Seq<TypeModel>, k: int)
    requires
        0 <= k <= items.len(),
        bind_fast_items(items.take(k)).is_none(),
    ensures
        bind_fast_items(items).is_none(),
    decreases items.len() - k,
{
    if k < items.len() {
        assert(items.take(k + 1).drop_last() =~= items.take(k));
        lemma_bind_fast_items_none_persists(items, k + 1);
    } else {
        assert(items.take(k) =~= items);
    }
}

/// `bind_self_fast`: strip the first parameter from a callable, or from
/// each item of an overload, and mark it bound.
pub fn bind_self_fast(typ: &Type) -> (r: Option<Type>)
    ensures
        match r {
            None => bind_fast_spec(typ@).is_none(),
            Some(x) => bind_fast_spec(typ@) == Some(x@),
        },
{
    if run_query(typ, BoolQuery::Erased) != Some(false) {
        return None;
    }
    match typ {
        Type::CallableType { .. } => bind_fast_callable_exec(typ),
        Type::Overloaded { items } => {
            proof {
                lemma_types_model(items@);
            }
            if items.len() == 0 {
                return None;
            }
            let ghost ms = types_model(items@);
            let mut out: Vec<Type> = Vec::new();
            let mut i: usize = 0;
            proof {
                assert(types_model(out@) =~= Seq::<TypeModel>::empty());
                assert(typ@ matches TypeModel::Overloaded { items: it } && it == ms);
                assert(ms.take(0) =~= Seq::<TypeModel>::empty());
            }
            while i < items.len()
                invariant
                    i <= items@.len(),
                    ms == types_model(items@),
                    ms.len() == items@.len(),
                    forall|j: int| 0 <= j < items@.len() ==> #[trigger] ms[j] == type_model(items@[j]),
                    bind_fast_items(ms.take(i as int)) == Some(types_model(out@)),
                    bind_fast_spec(typ@) == match bind_fast_items(ms) {
                        None => None,
                        Some(b) => Some(TypeModel::Overloaded { items: b }),
                    },
                decreases items@.len() - i,
            {
                proof {
                    assert(ms.take(i + 1).drop_last() =~= ms.take(i as int));
                    assert(ms.take(i + 1).last() == type_model(items@[i as int]));
                }
                match bind_fast_callable_exec(&items[i]) {
                    None => {
                        proof {
                            lemma_bind_fast_items_none_persists(ms, i as int + 1);
                        }
                        return None;
                    },
                    Some(b) => {
                        proof {
                            lemma_types_model_push(out@, b);
                        }
                        out.push(b);
                    },
                }
                i = i + 1;
            }
            proof {
                assert(ms.take(items@.len() as int) =~= ms);
            }
            Some(Type::Overloaded { items: out })
        },
        _ => None,
    }
}


/// The `builtins.object` instance.
pub open spec fn object_model() -> TypeModel {
    TypeModel::Instance { type_ref: "builtins.object"@, args: Seq::empty(), last_known_value: None, extra_attrs: None }
}

fn object_instance() -> (r: Type)
    ensures
        r@ == object_model(),
{
    let args: Vec<Type> = Vec::new();
    proof {
        assert(types_model(args@) =~= Seq::<TypeModel>::empty());
        assert(opt_type_model(None) == None::<Box<TypeModel>>);
        assert(extra_model(None) == None::<ExtraAttrsModel>);
    }
    Type::Instance { type_ref: owned("builtins.object"), args, last_known_value: None, extra_attrs: None }
}

/// `instance_fallback`: an instance is itself, a tuple falls back to its
/// partial fallback, a literal or TypedDict to its fallback, anything else
/// to `builtins.object`. `None` for a tuple whose partial fallback is not
/// an instance.
pub open spec fn instance_fallback_spec(t: TypeModel) -> Option<TypeModel> {
    match t {
        TypeModel::Instance { .. } => Some(t),
        TypeModel::TupleType { partial_fallback, .. } => if *partial_fallback is Instance {
            Some(*partial_fallback)
        } else {
            None
        },
        TypeModel::LiteralType { fallback, .. } => Some(*fallback),
        TypeModel::TypedDictType { fallback, .. } => Some(*fallback),
        _ => Some(object_model()),
    }
}

/// The instance a type's members are looked up on.
pub fn instance_fallback(typ: &Type) -> (r: Option<Type>)
    ensures
        match r {
            None => instance_fallback_spec(typ@).is_none(),
            Some(x) => instance_fallback_spec(typ@) == Some(x@),
        },
{
    match typ {
        Type::Instance { .. } => Some(clone_type(typ)),
        Type::TupleType { partial_fallback, .. } => {
            proof {
                assert(typ@ matches TypeModel::TupleType { partial_fallback: pf, .. } && *pf == type_model(**partial_fallback));
            }
            match &**partial_fallback {
                Type::Instance { .. } => Some(clone_type(partial_fallback)),
                _ => None,
            }
        },
        Type::LiteralType { fallback, .. } => Some(clone_type(fallback)),
        Type::TypedDictType { fallback, .. } => Some(clone_type(fallback)),
        _ => Some(object_instance()),
    }
}

/// `TypeInfo.has_readable_member`: some class in the MRO of `type_ref`
/// has `name` among its own members. `None` when `type_ref` or an MRO
/// entry met before the answer has no snapshot.
pub open spec fn readable_spec(r: TypeResolver, type_ref: Seq<char>, name: Seq<char>) -> Option<bool> {
    match r.class_of(type_ref) {
        None => None,
        Some(snap) => match mro_lookup(r, snap.mro@, name, 0) {
            None => None,
            Some(Some(_)) => Some(true),
            Some(None) => Some(false),
        },
    }
}

/// Whether some class in the MRO of `type_ref` has `name` in its own
/// members, implicit or explicit.
pub fn has_readable_member(type_ref: &str, name: &str, resolver: &TypeResolver) -> (r: Option<bool>)
    ensures
        r == readable_spec(*resolver, type_ref@, name@),
{
    match resolver.get(type_ref) {
        None => None,
        Some(snap) => match find_in_mro(resolver, &snap.mro, name, 0) {
            None => None,
            Some(Some(_)) => Some(true),
            Some(None) => Some(false),
        },
    }
}

/// Whether a class of `mro[start..]` has `name` as a non-implicit member
/// with an explicit value; `None` at a missing snapshot met before it.
pub open spec fn super_attr_from(r: TypeResolver, mro: Seq<String>, name: Seq<char>, start: int) -> Option<bool>
    decreases mro.len() - start,
{
    if start < 0 || start >= mro.len() {
        Some(false)
    } else {
        match r.class_of(mro[start]@) {
            None => None,
            Some(snap) => if snap.member_info.lookup(name) == Some((false, true)) {
                Some(true)
            } else {
                super_attr_from(r, mro, name, start + 1)
            },
        }
    }
}

/// Whether `name` is a class attribute with an explicit value in some
/// superclass of `fullname`, the class's own entry skipped.
pub open spec fn in_superclass_spec(r: TypeResolver, fullname: Seq<char>, name: Seq<char>) -> Option<bool> {
    match r.class_of(fullname) {
        None => None,
        Some(snap) => super_attr_from(r, snap.mro@, name, 1),
    }
}

/// Whether `name` is defined as an explicitly valued, non-implicit
/// variable in a superclass of `fullname`.
pub fn defined_in_superclass(fullname: &str, name: &str, resolver: &TypeResolver) -> (r: Option<bool>)
    ensures
        r == in_superclass_spec(*resolver, fullname@, name@),
{
    match resolver.get(fullname) {
        None => None,
        Some(snap) => {
            let mro = &snap.mro;
            let mut i: usize = 1;
            while i < mro.len()
                invariant
                    1 <= i,
                    in_superclass_spec(*resolver, fullname@, name@) == super_attr_from(*resolver, mro@, name@, 1),
                    super_attr_from(*resolver, mro@, name@, 1) == super_attr_from(*resolver, mro@, name@, i as int),
                decreases mro@.len() - i,
            {
                match resolver.get(mro[i].as_str()) {
                    None => {
                        return None;
                    },
                    Some(base) => {
                        match base.member_info.get(name) {
                            Some(flags) => {
                                if !flags.0 && flags.1 {
                                    return Some(true);
                                }
                            },
                            None => {},
                        }
                    },
                }
                i = i + 1;
            }
            Some(false)
        },
    }
}

/// The descriptor-protocol methods a type declares.
#[derive(Debug, Clone, Copy, PartialEq, Eq, Structural)]
pub struct DescriptorProtocol {
    /// Whether the class has `__get__`.
    pub has_get: bool,
    /// Whether the class has `__set__`.
    pub has_set: bool,
}

/// The `__get__` / `__set__` presence of a descriptor's class; `None` for
/// a type that is not an instance, or when either MRO walk declines.
pub open spec fn descriptor_spec(t: TypeModel, r: TypeResolver) -> Option<DescriptorProtocol> {
    match t {
        TypeModel::Instance { type_ref, .. } => match (readable_spec(r, type_ref, "__get__"@), readable_spec(r, type_ref, "__set__"@)) {
            (Some(g), Some(s)) => Some(DescriptorProtocol { has_get: g, has_set: s }),
            _ => None,
        },
        _ => None,
    }
}

/// The `__get__` / `__set__` presence query behind
/// `analyze_descriptor_access`.
pub fn descriptor_has_get_set(descriptor: &Type, resolver: &TypeResolver) -> (r: Option<DescriptorProtocol>)
    ensures
        r == descriptor_spec(descriptor@, *resolver),
{
    match descriptor {
        Type::Instance { type_ref, .. } => {
            let g = has_readable_member(type_ref.as_str(), "__get__", resolver);
            let s = has_readable_member(type_ref.as_str(), "__set__", resolver);
            match (g, s) {
                (Some(has_get), Some(has_set)) => Some(DescriptorProtocol { has_get, has_set }),
                _ => None,
            }
        },
        _ => None,
    }
}

/// The answer so far, then the next one, for `any` left to right.
pub open spec fn or_next(so_far: Option<bool>, next: Option<bool>) -> Option<bool> {
    match so_far {
        Some(true) => Some(true),
        None => None,
        Some(false) => next,
    }
}

/// The answer so far, then the next one, for `all` left to right.
pub open spec fn and_next(so_far: Option<bool>, next: Option<bool>) -> Option<bool> {
    match so_far {
        Some(false) => Some(false),
        None => None,
        Some(true) => next,
    }
}

/// `is_descriptor`: an instance whose class has `__get__`, or a union with
/// such an item, left to right. `None` for an alias or a walk that
/// declines first.
pub open spec fn descriptor_test(t: TypeModel, r: TypeResolver) -> Option<bool>
    decreases t, 1nat,
{
    match t {
        TypeModel::TypeAliasType { .. } => None,
        TypeModel::Instance { type_ref, .. } => readable_spec(r, type_ref, "__get__"@),
        TypeModel::UnionType { items, .. } => descriptor_items(items, r),
        _ => Some(false),
    }
}

/// `descriptor_test` over union items, left to right.
pub open spec fn descriptor_items(items: Seq<TypeModel>, r: TypeResolver) -> Option<bool>
    decreases items, 0nat,
{
    if items.len() == 0 {
        Some(false)
    } else {
        proof {
            assert(decreases_to!(items => items[items.len() - 1]));
        }
        or_next(descriptor_items(items.drop_last(), r), descriptor_test(items.last(), r))
    }
}

/// Whether a type is a descriptor.
pub fn is_descriptor(typ: &Type, resolver: &TypeResolver) -> (r: Option<bool>)
    ensures
        r == descriptor_test(typ@, *resolver),
    decreases typ, 1nat,
{
    match typ {
        Type::TypeAliasType { .. } => None,
        Type::Instance { type_ref, .. } => has_readable_member(type_ref.as_str(), "__get__", resolver),
        Type::UnionType { items, .. } => descriptor_items_exec(items, resolver),
        _ => Some(false),
    }
}

fn descriptor_items_exec(items: &Vec<Type>, resolver: &TypeResolver) -> (r: Option<bool>)
    ensures
        r == descriptor_items(types_model(items@), *resolver),
    decreases items, 0nat,
{
    proof {
        lemma_types_model(items@);
    }
    let ghost ms = types_model(items@);
    let mut acc: Option<bool> = Some(false);
    let mut i: usize = 0;
    while i < items.len()
        invariant
            i <= items@.len(),
            ms == types_model(items@),
            ms.len() == items@.len(),
            forall|j: int| 0 <= j < items@.len() ==> #[trigger] ms[j] == type_model(items@[j]),
            acc == descriptor_items(ms.take(i as int), *resolver),
        decreases items@.len() - i,
    {
        proof {
            assert(ms.take(i + 1).drop_last() =~= ms.take(i as int));
            assert(ms.take(i + 1).last() == type_model(items@[i as int]));
        }
        if acc == Some(false) {
            acc = is_descriptor(&items[i], resolver);
        }
        i = i + 1;
    }
    proof {
        assert(ms.take(items@.len() as int) =~= ms);
    }
    acc
}

/// `None.__bool__`: a callable without parameters returning
/// `Literal[False]` over `builtins.bool`, with a `builtins.function`
/// fallback.
pub open spec fn none_bool_model() -> TypeModel {
    TypeModel::CallableType {
        fallback: Box::new(
            TypeModel::Instance { type_ref: "builtins.function"@, args: Seq::empty(), last_known_value: None, extra_attrs: None },
        ),
        instance_type: None,
        is_ellipsis_args: false,
        implicit: false,
        is_bound: false,
        from_concatenate: false,
        imprecise_arg_kinds: false,
        unpack_kwargs: false,
        from_type_type: false,
        arg_types: Seq::empty(),
        arg_kinds: Seq::empty(),
        arg_names: Seq::empty(),
        ret_type: Box::new(
            TypeModel::LiteralType {
                fallback: Box::new(
                    TypeModel::Instance { type_ref: "builtins.bool"@, args: Seq::empty(), last_known_value: None, extra_attrs: None },
                ),
                value: LiteralModel::Bool(false),
            },
        ),
        name: None,
        variables: Seq::empty(),
        type_guard: None,
        type_is: None,
        special_sig: None,
        definition_ref: None,
    }
}

/// The `__bool__` member of `None`.
pub fn none_bool_method_type() -> (r: Type)
    ensures
        r@ == none_bool_model(),
{
    let e1: Vec<Type> = Vec::new();
    let e2: Vec<Type> = Vec::new();
    let e3: Vec<Type> = Vec::new();
    let e4: Vec<Type> = Vec::new();
    let kinds: Vec<i64> = Vec::new();
    let names: Vec<Option<String>> = Vec::new();
    proof {
        assert(types_model(e1@) =~= Seq::<TypeModel>::empty());
        assert(types_model(e2@) =~= Seq::<TypeModel>::empty());
        assert(types_model(e3@) =~= Seq::<TypeModel>::empty());
        assert(types_model(e4@) =~= Seq::<TypeModel>::empty());
        assert(opt_strs_model(names@) =~= Seq::<Option<Seq<char>>>::empty());
        assert(kinds@ =~= Seq::<i64>::empty());
        assert(opt_type_model(None) == None::<Box<TypeModel>>);
        assert(extra_model(None) == None::<ExtraAttrsModel>);
        assert(opt_str_model(None) == None::<Seq<char>>);
    }
    let bool_fb = Type::Instance { type_ref: owned("builtins.bool"), args: e1, last_known_value: None, extra_attrs: None };
    let fn_fb = Type::Instance { type_ref: owned("builtins.function"), args: e2, last_known_value: None, extra_attrs: None };
    let ret = Type::LiteralType { fallback: Box::new(bool_fb), value: LiteralValue::Bool(false) };
    proof {
        assert(literal_model(LiteralValue::Bool(false)) == LiteralModel::Bool(false));
        assert(bool_fb@ == TypeModel::Instance { type_ref: "builtins.bool"@, args: Seq::empty(), last_known_value: None, extra_attrs: None });
        assert(ret@ == TypeModel::LiteralType {
            fallback: Box::new(
                TypeModel::Instance { type_ref: "builtins.bool"@, args: Seq::empty(), last_known_value: None, extra_attrs: None },
            ),
            value: LiteralModel::Bool(false),
        });
        assert(fn_fb@ == TypeModel::Instance { type_ref: "builtins.function"@, args: Seq::empty(), last_known_value: None, extra_attrs: None });
    }
    Type::CallableType {
        fallback: Box::new(fn_fb),
        instance_type: None,
        is_ellipsis_args: false,
        implicit: false,
        is_bound: false,
        from_concatenate: false,
        imprecise_arg_kinds: false,
        unpack_kwargs: false,
        from_type_type: false,
        arg_types: e3,
        arg_kinds: kinds,
        arg_names: names,
        ret_type: Box::new(ret),
        name: None,
        variables: e4,
        type_guard: None,
        type_is: None,
        special_sig: None,
        definition_ref: None,
    }
}


/// The class a function-like type object's members are looked up on: the
/// fallback class of the callable, or of an overload's first item.
pub open spec fn first_fallback_ref(t: TypeModel) -> Option<Seq<char>> {
    match t {
        TypeModel::CallableType { fallback, .. } => match *fallback {
            TypeModel::Instance { type_ref, .. } => Some(type_ref),
            _ => None,
        },
        TypeModel::Overloaded { items } => if items.len() > 0 {
            match items[0] {
                TypeModel::CallableType { fallback, .. } => match *fallback {
                    TypeModel::Instance { type_ref, .. } => Some(type_ref),
                    _ => None,
                },
                _ => None,
            }
        } else {
            None
        },
        _ => None,
    }
}

fn first_fallback(t: &Type) -> (r: Option<&String>)
    ensures
        match r {
            None => first_fallback_ref(t@).is_none(),
            Some(x) => first_fallback_ref(t@) == Some(x@),
        },
{
    match t {
        Type::CallableType { fallback, .. } => {
            proof {
                assert(t@ matches TypeModel::CallableType { fallback: f, .. } && *f == type_model(**fallback));
            }
            match &**fallback {
                Type::Instance { type_ref, .. } => Some(type_ref),
                _ => None,
            }
        },
        Type::Overloaded { items } => {
            proof {
                lemma_types_model(items@);
            }
            if items.len() == 0 {
                return None;
            }
            match &items[0] {
                Type::CallableType { fallback, .. } => {
                    proof {
                        assert(items@[0]@ matches TypeModel::CallableType { fallback: f, .. } && *f == type_model(**fallback));
                    }
                    match &**fallback {
                        Type::Instance { type_ref, .. } => Some(type_ref),
                        _ => None,
                    }
                },
                _ => None,
            }
        },
        _ => None,
    }
}

/// Whether the instance fallback of `t` has `op`.
pub open spec fn fallback_readable(t: TypeModel, op: Seq<char>, r: TypeResolver) -> Option<bool> {
    match instance_fallback_spec(t) {
        Some(TypeModel::Instance { type_ref, .. }) => readable_spec(r, type_ref, op),
        _ => None,
    }
}

fn fallback_readable_exec(t: &Type, op: &str, resolver: &TypeResolver) -> (r: Option<bool>)
    ensures
        r == fallback_readable(t@, op@, *resolver),
{
    match instance_fallback(t) {
        Some(fb) => match &fb {
            Type::Instance { type_ref, .. } => has_readable_member(type_ref.as_str(), op, resolver),
            _ => None,
        },
        None => None,
    }
}

/// The metaclass a class snapshot names, `builtins.type` by default.
pub open spec fn meta_name(s: crate::typeinfo::TypeInfoSnapshot) -> Seq<char> {
    match s.metaclass_fullname {
        Some(m) => m@,
        None => "builtins.type"@,
    }
}

/// `meta_has_operator`: `Any` has every operator; otherwise the metaclass
/// of the item's instance fallback class is asked. `None` for an alias, or
/// a class or metaclass without a snapshot.
pub open spec fn meta_op_spec(item: TypeModel, op: Seq<char>, r: TypeResolver) -> Option<bool> {
    match item {
        TypeModel::TypeAliasType { .. } => None,
        TypeModel::AnyType { .. } => Some(true),
        _ => match instance_fallback_spec(item) {
            Some(TypeModel::Instance { type_ref, .. }) => match r.class_of(type_ref) {
                None => None,
                Some(snap) => readable_spec(r, meta_name(snap), op),
            },
            _ => None,
        },
    }
}

/// Whether the metaclass of a type's class has the operator method.
pub fn meta_has_operator(item: &Type, op_method: &str, resolver: &TypeResolver) -> (r: Option<bool>)
    ensures
        r == meta_op_spec(item@, op_method@, *resolver),
{
    match item {
        Type::TypeAliasType { .. } => None,
        Type::AnyType { .. } => Some(true),
        _ => match instance_fallback(item) {
            Some(fb) => match &fb {
                Type::Instance { type_ref, .. } => match resolver.get(type_ref.as_str()) {
                    None => None,
                    Some(snap) => match &snap.metaclass_fullname {
                        Some(m) => has_readable_member(m.as_str(), op_method, resolver),
                        None => has_readable_member("builtins.type", op_method, resolver),
                    },
                },
                _ => None,
            },
            None => None,
        },
    }
}

/// `meta_has_operator` over the relevant items of a union, all of them.
pub open spec fn meta_op_items(items: Seq<TypeModel>, op: Seq<char>, strict: bool, r: TypeResolver) -> Option<bool>
    decreases items.len(),
{
    if items.len() == 0 {
        Some(true)
    } else {
        and_next(
            meta_op_items(items.drop_last(), op, strict, r),
            if !strict && items.last() is NoneType {
                Some(true)
            } else {
                meta_op_spec(items.last(), op, r)
            },
        )
    }
}

/// The `TypeType` arm of `has_operator`: `type[T]` asks the bound of `T`,
/// a union item every relevant member's metaclass, anything else its
/// metaclass. `None` for a value-restricted type variable or an alias.
pub open spec fn type_type_op(item: TypeModel, op: Seq<char>, strict: bool, r: TypeResolver) -> Option<bool> {
    let target: Option<TypeModel> = match item {
        TypeModel::TypeVarType { values, upper_bound, .. } => if values.len() > 0 {
            None
        } else {
            Some(*upper_bound)
        },
        _ => Some(item),
    };
    match target {
        None => None,
        Some(TypeModel::UnionType { items, .. }) => meta_op_items(items, op, strict, r),
        Some(x) => meta_op_spec(x, op, r),
    }
}

/// `has_operator`, after a type variable has been replaced by its bound.
pub open spec fn op_after_bound(t: TypeModel, op: Seq<char>, strict: bool, r: TypeResolver) -> Option<bool>
    decreases t, 1nat,
{
    match t {
        TypeModel::TypeAliasType { .. } => None,
        TypeModel::AnyType { .. } => Some(true),
        TypeModel::UnionType { items, .. } => op_items(items, op, strict, r),
        TypeModel::CallableType { .. } | TypeModel::Overloaded { .. } => if function_like_type_obj(t, r) {
            match first_fallback_ref(t) {
                Some(tr) => readable_spec(r, tr, op),
                None => None,
            }
        } else {
            fallback_readable(t, op, r)
        },
        TypeModel::TypeType { item, .. } => type_type_op(*item, op, strict, r),
        _ => fallback_readable(t, op, r),
    }
}

/// `has_operator` over the relevant items of a union, all of them, left
/// to right.
pub open spec fn op_items(items: Seq<TypeModel>, op: Seq<char>, strict: bool, r: TypeResolver) -> Option<bool>
    decreases items, 0nat,
{
    if items.len() == 0 {
        Some(true)
    } else {
        proof {
            assert(decreases_to!(items => items[items.len() - 1]));
        }
        and_next(
            op_items(items.drop_last(), op, strict, r),
            if !strict && items.last() is NoneType {
                Some(true)
            } else {
                op_spec(items.last(), op, strict, r)
            },
        )
    }
}

/// `has_operator`: whether a type has the operator method, by the rules of
/// operator access (class objects look in their metaclass; `__getattr__`
/// and instance-level attributes do not count). `None` for an alias, a
/// value-restricted type variable, or a missing snapshot.
pub open spec fn op_spec(t: TypeModel, op: Seq<char>, strict: bool, r: TypeResolver) -> Option<bool>
    decreases t, 2nat,
{
    match t {
        TypeModel::TypeAliasType { .. } => None,
        TypeModel::TypeVarType { values, upper_bound, .. } => if values.len() > 0 {
            None
        } else {
            op_after_bound(*upper_bound, op, strict, r)
        },
        _ => op_after_bound(t, op, strict, r),
    }
}

fn meta_op_items_exec(items: &Vec<Type>, op: &str, strict_optional: bool, resolver: &TypeResolver) -> (r: Option<bool>)
    ensures
        r == meta_op_items(types_model(items@), op@, strict_optional, *resolver),
{
    proof {
        lemma_types_model(items@);
    }
    let ghost ms = types_model(items@);
    let mut acc: Option<bool> = Some(true);
    let mut i: usize = 0;
    while i < items.len()
        invariant
            i <= items@.len(),
            ms == types_model(items@),
            ms.len() == items@.len(),
            forall|j: int| 0 <= j < items@.len() ==> #[trigger] ms[j] == type_model(items@[j]),
            acc == meta_op_items(ms.take(i as int), op@, strict_optional, *resolver),
        decreases items@.len() - i,
    {
        proof {
            assert(ms.take(i + 1).drop_last() =~= ms.take(i as int));
            assert(ms.take(i + 1).last() == type_model(items@[i as int]));
        }
        if acc == Some(true) {
            let skip = !strict_optional && match &items[i] {
                Type::NoneType => true,
                _ => false,
            };
            if !skip {
                acc = meta_has_operator(&items[i], op, resolver);
            }
        }
        i = i + 1;
    }
    proof {
        assert(ms.take(items@.len() as int) =~= ms);
    }
    acc
}

fn type_type_op_exec(item: &Type, op: &str, strict_optional: bool, resolver: &TypeResolver) -> (r: Option<bool>)
    ensures
        r == type_type_op(item@, op@, strict_optional, *resolver),
{
    let target: &Type = match item {
        Type::TypeVarType { values, upper_bound, .. } => {
            proof {
                lemma_types_model(values@);
            }
            proof {
                assert(item@ matches TypeModel::TypeVarType { upper_bound: ub, values: vs, .. }
                    && *ub == type_model(**upper_bound) && vs == types_model(values@));
            }
            if values.len() > 0 {
                return None;
            }
            upper_bound
        },
        _ => item,
    };
    match target {
        Type::UnionType { items, .. } => {
            proof {
                assert(target@ matches TypeModel::UnionType { items: it, .. } && it == types_model(items@));
            }
            meta_op_items_exec(items, op, strict_optional, resolver)
        },
        _ => meta_has_operator(target, op, resolver),
    }
}

fn op_items_exec(items: &Vec<Type>, op: &str, strict_optional: bool, resolver: &TypeResolver) -> (r: Option<bool>)
    ensures
        r == op_items(types_model(items@), op@, strict_optional, *resolver),
    decreases items, 0nat,
{
    proof {
        lemma_types_model(items@);
    }
    let ghost ms = types_model(items@);
    let mut acc: Option<bool> = Some(true);
    let mut i: usize = 0;
    while i < items.len()
        invariant
            i <= items@.len(),
            ms == types_model(items@),
            ms.len() == items@.len(),
            forall|j: int| 0 <= j < items@.len() ==> #[trigger] ms[j] == type_model(items@[j]),
            acc == op_items(ms.take(i as int), op@, strict_optional, *resolver),
        decreases items@.len() - i,
    {
        proof {
            assert(ms.take(i + 1).drop_last() =~= ms.take(i as int));
            assert(ms.take(i + 1).last() == type_model(items@[i as int]));
        }
        if acc == Some(true) {
            let skip = !strict_optional && match &items[i] {
                Type::NoneType => true,
                _ => false,
            };
            if !skip {
                acc = has_operator(&items[i], op, strict_optional, resolver);
            }
        }
        i = i + 1;
    }
    proof {
        assert(ms.take(items@.len() as int) =~= ms);
    }
    acc
}

fn op_after_bound_exec(t: &Type, op: &str, strict_optional: bool, resolver: &TypeResolver) -> (r: Option<bool>)
    ensures
        r == op_after_bound(t@, op@, strict_optional, *resolver),
    decreases t, 1nat,
{
    match t {
        Type::TypeAliasType { .. } => None,
        Type::AnyType { .. } => Some(true),
        Type::UnionType { items, .. } => op_items_exec(items, op, strict_optional, resolver),
        Type::CallableType { .. } | Type::Overloaded { .. } => {
            if function_like_is_type_obj(t, resolver) {
                match first_fallback(t) {
                    Some(tr) => has_readable_member(tr.as_str(), op, resolver),
                    None => None,
                }
            } else {
                fallback_readable_exec(t, op, resolver)
            }
        },
        Type::TypeType { item, .. } => type_type_op_exec(item, op, strict_optional, resolver),
        _ => fallback_readable_exec(t, op, resolver),
    }
}

/// Whether a type has the operator method `op_method`.
pub fn has_operator(typ: &Type, op_method: &str, strict_optional: bool, resolver: &TypeResolver) -> (r: Option<bool>)
    ensures
        r == op_spec(typ@, op_method@, strict_optional, *resolver),
    decreases typ, 2nat,
{
    match typ {
        Type::TypeAliasType { .. } => None,
        Type::TypeVarType { values, upper_bound, .. } => {
            proof {
                lemma_types_model(values@);
            }
            if values.len() > 0 {
                None
            } else {
                op_after_bound_exec(upper_bound, op_method, strict_optional, resolver)
            }
        },
        _ => op_after_bound_exec(typ, op_method, strict_optional, resolver),
    }
}

/// Whether `s` starts with `p`.
pub open spec fn has_prefix(s: Seq<char>, p: Seq<char>) -> bool {
    p.len() <= s.len() && s.subrange(0, p.len() as int) == p
}

/// The first class of `mro[start..]` that defines `name` decides: a
/// function, decorator or variable counts as custom unless its definer is
/// under `builtins.` or `typing.`; another kind of member is not custom.
/// `None` at a missing snapshot met first.
pub open spec fn definer_walk(r: TypeResolver, mro: Seq<String>, name: Seq<char>, start: int) -> Option<bool>
    decreases mro.len() - start,
{
    if start < 0 || start >= mro.len() {
        Some(false)
    } else {
        match r.class_of(mro[start]@) {
            None => None,
            Some(c) => match c.member_definers.lookup(name) {
                Some(entry) => Some(!has_prefix(entry.1@, "builtins."@) && !has_prefix(entry.1@, "typing."@)),
                None => if c.member_info.lookup(name).is_some() {
                    Some(false)
                } else {
                    definer_walk(r, mro, name, start + 1)
                },
            },
        }
    }
}

/// The `Instance` arm of `custom_special_method` by class name.
pub open spec fn instance_custom_spec(r: TypeResolver, type_ref: Seq<char>, name: Seq<char>) -> Option<bool> {
    match r.class_of(type_ref) {
        None => None,
        Some(snap) => definer_walk(r, snap.mro@, name, 0),
    }
}

/// Whether the class `type_ref` has a custom special method `name`.
pub fn instance_custom_special_method(type_ref: &str, name: &str, resolver: &TypeResolver) -> (r: Option<bool>)
    ensures
        r == instance_custom_spec(*resolver, type_ref@, name@),
{
    match resolver.get(type_ref) {
        None => None,
        Some(snap) => {
            let mro = &snap.mro;
            let mut i: usize = 0;
            while i < mro.len()
                invariant
                    instance_custom_spec(*resolver, type_ref@, name@) == definer_walk(*resolver, mro@, name@, 0),
                    definer_walk(*resolver, mro@, name@, 0) == definer_walk(*resolver, mro@, name@, i as int),
                decreases mro@.len() - i,
            {
                match resolver.get(mro[i].as_str()) {
                    None => {
                        return None;
                    },
                    Some(c) => match c.member_definers.get(name) {
                        Some(entry) => {
                            let b = starts_with(entry.1.as_str(), "builtins.");
                            let t = starts_with(entry.1.as_str(), "typing.");
                            return Some(!b && !t);
                        },
                        None => {
                            if c.member_info.contains_key(name) {
                                return Some(false);
                            }
                        },
                    },
                }
                i = i + 1;
            }
            Some(false)
        },
    }
}

/// `custom_special_method`: whether a type has a custom special method
/// such as `__eq__`; over a union every item with `check_all`, else some
/// item. `None` for an alias or a walk that declines first.
pub open spec fn custom_spec(t: TypeModel, name: Seq<char>, check_all: bool, r: TypeResolver) -> Option<bool>
    decreases t, 1nat,
{
    match t {
        TypeModel::TypeAliasType { .. } => None,
        TypeModel::Instance { type_ref, .. } => instance_custom_spec(r, type_ref, name),
        TypeModel::UnionType { items, .. } => custom_items(items, name, check_all, r),
        TypeModel::TupleType { partial_fallback, .. } => match *partial_fallback {
            TypeModel::Instance { type_ref, .. } => instance_custom_spec(r, type_ref, name),
            _ => None,
        },
        TypeModel::CallableType { .. } | TypeModel::Overloaded { .. } => if function_like_type_obj(t, r) {
            match first_fallback_ref(t) {
                Some(tr) => instance_custom_spec(r, tr, name),
                None => None,
            }
        } else {
            Some(false)
        },
        TypeModel::AnyType { .. } => Some(true),
        _ => Some(false),
    }
}

/// `custom_spec` over union items, left to right.
pub open spec fn custom_items(items: Seq<TypeModel>, name: Seq<char>, check_all: bool, r: TypeResolver) -> Option<bool>
    decreases items, 0nat,
{
    if items.len() == 0 {
        Some(check_all)
    } else {
        proof {
            assert(decreases_to!(items => items[items.len() - 1]));
        }
        if check_all {
            and_next(custom_items(items.drop_last(), name, check_all, r), custom_spec(items.last(), name, true, r))
        } else {
            or_next(custom_items(items.drop_last(), name, check_all, r), custom_spec(items.last(), name, false, r))
        }
    }
}

/// Whether a type has a custom special method such as `__eq__`: one whose
/// defining class is not under `builtins.` or `typing.`.
pub fn custom_special_method(typ: &Type, name: &str, check_all: bool, resolver: &TypeResolver) -> (r: Option<bool>)
    ensures
        r == custom_spec(typ@, name@, check_all, *resolver),
    decreases typ, 1nat,
{
    match typ {
        Type::TypeAliasType { .. } => None,
        Type::Instance { type_ref, .. } => instance_custom_special_method(type_ref.as_str(), name, resolver),
        Type::UnionType { items, .. } => custom_items_exec(items, name, check_all, resolver),
        Type::TupleType { partial_fallback, .. } => {
            proof {
                assert(typ@ matches TypeModel::TupleType { partial_fallback: pf, .. } && *pf == type_model(**partial_fallback));
            }
            match &**partial_fallback {
                Type::Instance { type_ref, .. } => instance_custom_special_method(type_ref.as_str(), name, resolver),
                _ => None,
            }
        },
        Type::CallableType { .. } | Type::Overloaded { .. } => {
            if function_like_is_type_obj(typ, resolver) {
                match first_fallback(typ) {
                    Some(tr) => instance_custom_special_method(tr.as_str(), name, resolver),
                    None => None,
                }
            } else {
                Some(false)
            }
        },
        Type::AnyType { .. } => Some(true),
        _ => Some(false),
    }
}

fn custom_items_exec(items: &Vec<Type>, name: &str, check_all: bool, resolver: &TypeResolver) -> (r: Option<bool>)
    ensures
        r == custom_items(types_model(items@), name@, check_all, *resolver),
    decreases items, 0nat,
{
    proof {
        lemma_types_model(items@);
    }
    let ghost ms = types_model(items@);
    let mut acc: Option<bool> = Some(check_all);
    let mut i: usize = 0;
    while i < items.len()
        invariant
            i <= items@.len(),
            ms == types_model(items@),
            ms.len() == items@.len(),
            forall|j: int| 0 <= j < items@.len() ==> #[trigger] ms[j] == type_model(items@[j]),
            acc == custom_items(ms.take(i as int), name@, check_all, *resolver),
        decreases items@.len() - i,
    {
        proof {
            assert(ms.take(i + 1).drop_last() =~= ms.take(i as int));
            assert(ms.take(i + 1).last() == type_model(items@[i as int]));
        }
        if acc == Some(check_all) {
            acc = custom_special_method(&items[i], name, check_all, resolver);
        }
        i = i + 1;
    }
    proof {
        assert(ms.take(items@.len() as int) =~= ms);
    }
    acc
}

} // verus!
