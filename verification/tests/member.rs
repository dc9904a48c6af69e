use type_kernel::standalone::member::{kind_from_code, MA_INSTANCE, MA_ANY, MA_UNION, MA_TYPE_CALLABLE, MA_TYPE_TYPE, MA_TUPLE, MA_LITERAL_OR_FUNC, MA_TYPEDDICT, MA_NONE, MA_TYPEVAR, MA_DELETED, MA_UNINHABITED, MA_MISSING};
use type_kernel::standalone::member::{DescriptorProtocol, MemberAccessKind, bind_self_fast, classify_member_access, custom_special_method, defined_in_superclass, descriptor_has_get_set, get_proper_type, has_operator, has_readable_member, instance_custom_special_method, instance_fallback, is_descriptor, is_type_obj, meta_has_operator, none_bool_method_type};
use type_kernel::standalone::call::{ArgKind};
use type_kernel::standalone::types::{make_type_type_normalized};
use type_kernel::wire::{LiteralValue, Type};
use type_kernel::typeinfo::{TypeInfoSnapshot, TypeResolver};
const ARG_POS: i64 = 0;
const ARG_STAR: i64 = 2;

fn inst(type_ref: &str) -> Type {
    Type::Instance {
        type_ref: type_ref.to_string(),
        args: vec![],
        last_known_value: None,
        extra_attrs: None,
    }
}

fn any_type() -> Type {
    Type::AnyType {
        type_of_any: 1,
        source_any: None,
        missing_import_name: None,
    }
}

fn alias() -> Type {
    Type::TypeAliasType {
        args: vec![],
        type_ref: "mod.Alias".to_string(),
        is_recursive: false,
    }
}

fn tuple_of(partial_fallback: Type, items: Vec<Type>) -> Type {
    Type::TupleType {
        partial_fallback: Box::new(partial_fallback),
        items,
        implicit: false,
    }
}

fn union(items: Vec<Type>) -> Type {
    Type::UnionType {
        items,
        uses_pep604_syntax: false,
        can_be_true: true,
        can_be_false: true,
        is_evaluated: true,
        original_str_expr: None,
        original_str_fallback: None,
    }
}

fn method(first_arg_kind: i64) -> Type {
    Type::CallableType {
        fallback: Box::new(inst("builtins.function")),
        instance_type: None,
        is_ellipsis_args: false,
        implicit: false,
        is_bound: false,
        from_concatenate: false,
        imprecise_arg_kinds: false,
        unpack_kwargs: false,
        from_type_type: false,
        arg_types: vec![inst("C")],
        arg_kinds: vec![first_arg_kind],
        arg_names: vec![Some("self".to_string())],
        ret_type: Box::new(inst("builtins.int")),
        name: Some("method".to_string()),
        variables: vec![],
        type_guard: None,
        type_is: None,
        special_sig: None,
        definition_ref: None,
    }
}

fn bound_method() -> Type {
    Type::CallableType {
        fallback: Box::new(inst("builtins.function")),
        instance_type: None,
        is_ellipsis_args: false,
        implicit: false,
        is_bound: true,
        from_concatenate: false,
        imprecise_arg_kinds: false,
        unpack_kwargs: false,
        from_type_type: false,
        arg_types: vec![],
        arg_kinds: vec![],
        arg_names: vec![],
        ret_type: Box::new(inst("builtins.int")),
        name: Some("method".to_string()),
        variables: vec![],
        type_guard: None,
        type_is: None,
        special_sig: None,
        definition_ref: None,
    }
}

fn class(fullname: &str, mro: &[&str], members: &[(&str, (bool, bool))]) -> TypeInfoSnapshot {
    let mut s = TypeInfoSnapshot {
        fullname: fullname.to_string(),
        name: fullname.to_string(),
        ..Default::default()
    };
    for entry in mro {
        s.mro.push((*entry).to_string());
        s.has_base.insert((*entry).to_string());
    }
    for (name, flags) in members {
        s.member_info.insert((*name).to_string(), *flags);
    }
    s
}

fn resolver_with(extra: Vec<TypeInfoSnapshot>) -> TypeResolver {
    let mut r = TypeResolver::new();
    let object = class("builtins.object", &["builtins.object"], &[]);
    r.insert("builtins.object".to_string(), object);
    let meta = class("builtins.type", &["builtins.type", "builtins.object"], &[]);
    r.insert("builtins.type".to_string(), meta);
    for s in extra {
        let key = s.fullname.clone();
        r.insert(key, s);
    }
    r
}

fn with_definer(mut s: TypeInfoSnapshot, name: &str, definer: &str) -> TypeInfoSnapshot {
    let entry = (0i64, definer.to_string());
    s.member_definers.insert(name.to_string(), entry);
    s
}

fn arg_count(typ: &Type) -> usize {
    match typ {
        Type::CallableType { arg_types, .. } => arg_types.len(),
        other => panic!("expected a CallableType, got {other:?}"),
    }
}

fn ret_type(typ: &Type) -> &Type {
    match typ {
        Type::CallableType { ret_type, .. } => ret_type,
        other => panic!("expected a CallableType, got {other:?}"),
    }
}

fn is_literal_false(typ: &Type) -> bool {
    match typ {
        Type::LiteralType { value, .. } => *value == LiteralValue::Bool(false),
        _ => false,
    }
}

fn instance_ref(typ: &Type) -> String {
    match typ {
        Type::Instance { type_ref, .. } => type_ref.clone(),
        other => panic!("expected an Instance, got {other:?}"),
    }
}

fn literal_fallback(typ: &Type) -> String {
    match typ {
        Type::LiteralType { fallback, .. } => instance_ref(fallback),
        other => panic!("expected a LiteralType, got {other:?}"),
    }
}

fn type_type_of(item: Type) -> Type {
    Type::TypeType {
        item: Box::new(item),
        is_type_form: false,
    }
}

#[test]
fn classify_dispatches_the_instance_and_singleton_branches() {
    let r = resolver_with(vec![class("C", &["C", "builtins.object"], &[])]);
    let instance = classify_member_access(&inst("C"), &r);
    assert_eq!(instance, Some(MemberAccessKind::Instance));
    let none = classify_member_access(&Type::NoneType, &r);
    assert_eq!(none, Some(MemberAccessKind::NoneType));
    let any = classify_member_access(&any_type(), &r);
    assert_eq!(any, Some(MemberAccessKind::Any));
}

#[test]
fn classify_defers_on_an_alias() {
    let r = resolver_with(vec![]);
    assert_eq!(classify_member_access(&alias(), &r), None);
}

#[test]
fn proper_type_passes_through_and_defers_on_an_alias() {
    let t = inst("C");
    assert_eq!(get_proper_type(&t), Some(&t));
    let a = alias();
    assert_eq!(get_proper_type(&a), None);
}

#[test]
fn type_obj_needs_a_metaclass_fallback() {
    let r = resolver_with(vec![]);
    let c = inst("C");
    assert!(is_type_obj(&inst("builtins.type"), &c, &r));
    assert!(!is_type_obj(&inst("builtins.function"), &c, &r));
}

#[test]
fn type_obj_rejects_an_uninhabited_return() {
    let r = resolver_with(vec![]);
    let never = Type::UninhabitedType { ambiguous: false };
    let meta = inst("builtins.type");
    assert!(!is_type_obj(&meta, &never, &r));
}

#[test]
fn bind_self_strips_the_first_positional_argument() {
    let m = method(ARG_POS);
    assert_eq!(bind_self_fast(&m), Some(bound_method()));
}

#[test]
fn bind_self_leaves_a_star_args_callable_unchanged() {
    let m = method(ARG_STAR);
    assert_eq!(bind_self_fast(&m), Some(m.clone()));
}

#[test]
fn bind_self_rejects_a_non_callable() {
    assert_eq!(bind_self_fast(&inst("C")), None);
}

#[test]
fn bind_self_rejects_an_erased_signature() {
    let mut m = method(ARG_POS);
    if let Type::CallableType { arg_types, .. } = &mut m {
        arg_types.push(Type::ErasedType);
    }
    assert_eq!(
        bind_self_fast(&m),
        None,
        "an ErasedType placeholder must keep its deferral"
    );
}

#[test]
fn instance_fallback_of_a_tuple_is_its_partial_fallback() {
    let items = vec![inst("builtins.int")];
    let t = tuple_of(inst("builtins.tuple"), items);
    let fb = instance_fallback(&t);
    assert_eq!(fb, Some(inst("builtins.tuple")));
}

#[test]
fn instance_fallback_of_an_unrelated_type_is_object() {
    let fb = instance_fallback(&Type::NoneType);
    assert_eq!(fb, Some(inst("builtins.object")));
}

#[test]
fn instance_fallback_defers_on_a_non_instance_tuple_fallback() {
    let t = tuple_of(Type::NoneType, vec![]);
    assert_eq!(instance_fallback(&t), None);
}

#[test]
fn has_operator_reads_the_mro() {
    let add = [("__add__", (false, false))];
    let c = class("C", &["C", "builtins.object"], &add);
    let r = resolver_with(vec![c]);
    let found = has_operator(&inst("C"), "__add__", true, &r);
    assert_eq!(found, Some(true));
}

#[test]
fn has_operator_is_false_when_the_member_is_absent() {
    let c = class("C", &["C", "builtins.object"], &[]);
    let r = resolver_with(vec![c]);
    let missing = has_operator(&inst("C"), "__add__", true, &r);
    assert_eq!(missing, Some(false));
}

#[test]
fn has_operator_defers_on_a_missing_snapshot() {
    let r = resolver_with(vec![]);
    let unknown = has_operator(&inst("C"), "__add__", true, &r);
    assert_eq!(unknown, None);
}

#[test]
fn meta_has_operator_reads_the_declared_metaclass() {
    let or = [("__or__", (false, false))];
    let m = class("M", &["M", "builtins.type"], &or);
    let mut c = class("C", &["C", "builtins.object"], &[]);
    c.metaclass_fullname = Some("M".to_string());
    let r = resolver_with(vec![m, c]);
    let found = meta_has_operator(&inst("C"), "__or__", &r);
    assert_eq!(found, Some(true));
    let absent = meta_has_operator(&inst("C"), "__and__", &r);
    assert_eq!(absent, Some(false));
}

#[test]
fn meta_has_operator_defaults_to_builtins_type() {
    let c = class("C", &["C", "builtins.object"], &[]);
    let r = resolver_with(vec![c]);
    let found = meta_has_operator(&inst("C"), "__call__", &r);
    assert_eq!(found, Some(false));
}

#[test]
fn readable_member_walks_the_mro() {
    let value = [("value", (false, true))];
    let b = class("B", &["B", "builtins.object"], &value);
    let c = class("C", &["C", "B", "builtins.object"], &[]);
    let r = resolver_with(vec![b, c]);
    assert_eq!(has_readable_member("C", "value", &r), Some(true));
}

#[test]
fn readable_member_is_false_when_no_class_declares_it() {
    let c = class("C", &["C", "builtins.object"], &[]);
    let r = resolver_with(vec![c]);
    assert_eq!(has_readable_member("C", "missing", &r), Some(false));
}

#[test]
fn readable_member_defers_on_a_missing_mro_entry() {
    let c = class("C", &["C", "mod.Absent"], &[]);
    let r = resolver_with(vec![c]);
    assert_eq!(has_readable_member("C", "value", &r), None);
}

#[test]
fn defined_in_superclass_finds_a_class_attribute() {
    let shape = [("shape", (false, true))];
    let b = class("B", &["B", "builtins.object"], &shape);
    let c = class("C", &["C", "B", "builtins.object"], &[]);
    let r = resolver_with(vec![b, c]);
    let found = defined_in_superclass("C", "shape", &r);
    assert_eq!(found, Some(true));
}

#[test]
fn defined_in_superclass_rejects_an_instance_attribute() {
    let shape = [("shape", (true, false))];
    let b = class("B", &["B", "builtins.object"], &shape);
    let c = class("C", &["C", "B", "builtins.object"], &[]);
    let r = resolver_with(vec![b, c]);
    assert_eq!(has_readable_member("C", "shape", &r), Some(true));
    let found = defined_in_superclass("C", "shape", &r);
    assert_eq!(found, Some(false));
}

#[test]
fn defined_in_superclass_skips_the_classs_own_entry() {
    let shape = [("shape", (false, true))];
    let c = class("C", &["C", "builtins.object"], &shape);
    let r = resolver_with(vec![c]);
    let found = defined_in_superclass("C", "shape", &r);
    assert_eq!(found, Some(false));
}

#[test]
fn descriptor_flags_report_get_without_set() {
    let get = [("__get__", (false, false))];
    let d = class("D", &["D", "builtins.object"], &get);
    let r = resolver_with(vec![d]);
    let flags = descriptor_has_get_set(&inst("D"), &r);
    let expected = Some(DescriptorProtocol {
        has_get: true,
        has_set: false,
    });
    assert_eq!(flags, expected);
    assert_eq!(is_descriptor(&inst("D"), &r), Some(true));
}

#[test]
fn descriptor_flags_reject_a_plain_instance() {
    let c = class("C", &["C", "builtins.object"], &[]);
    let r = resolver_with(vec![c]);
    let flags = descriptor_has_get_set(&inst("C"), &r);
    let expected = Some(DescriptorProtocol {
        has_get: false,
        has_set: false,
    });
    assert_eq!(flags, expected);
    assert_eq!(is_descriptor(&inst("C"), &r), Some(false));
}

#[test]
fn descriptor_flags_reject_a_non_instance() {
    let r = resolver_with(vec![]);
    assert_eq!(descriptor_has_get_set(&Type::NoneType, &r), None);
    let a = alias();
    assert_eq!(descriptor_has_get_set(&a, &r), None);
}

#[test]
fn none_bool_is_a_zero_arg_callable_returning_literal_false() {
    let result = none_bool_method_type();
    assert_eq!(arg_count(&result), 0, "no arguments");
    let ret = ret_type(&result);
    assert!(is_literal_false(ret), "must return Literal[False]");
    assert_eq!(literal_fallback(ret), "builtins.bool");
}

#[test]
fn make_type_type_wraps_a_plain_item() {
    let expected = type_type_of(inst("C"));
    assert_eq!(make_type_type_normalized(&inst("C")), expected);
}

#[test]
fn make_type_type_distributes_over_a_union() {
    let u = union(vec![inst("A"), inst("B")]);
    let expected = union(vec![type_type_of(inst("A")), type_type_of(inst("B"))]);
    assert_eq!(make_type_type_normalized(&u), expected);
}

#[test]
fn custom_special_method_true_for_a_user_definer() {
    let c = with_definer(class("C", &["C", "builtins.object"], &[]), "__eq__", "C");
    let r = resolver_with(vec![c]);
    let custom = custom_special_method(&inst("C"), "__eq__", false, &r);
    assert_eq!(custom, Some(true));
    let by_ref = instance_custom_special_method("C", "__eq__", &r);
    assert_eq!(by_ref, Some(true));
}

#[test]
fn custom_special_method_false_for_a_builtin_definer() {
    let bare = class("C", &["C", "builtins.object"], &[]);
    let c = with_definer(bare, "__eq__", "builtins.object");
    let r = resolver_with(vec![c]);
    let custom = custom_special_method(&inst("C"), "__eq__", false, &r);
    assert_eq!(custom, Some(false));
    let by_ref = instance_custom_special_method("C", "__eq__", &r);
    assert_eq!(by_ref, Some(false));
}

#[test]
fn custom_special_method_defers_without_the_snapshot() {
    let r = resolver_with(vec![]);
    let by_ref = instance_custom_special_method("C", "__eq__", &r);
    assert_eq!(by_ref, None);
    let a = alias();
    assert_eq!(custom_special_method(&a, "__eq__", false, &r), None);
}

#[test]
fn kind_mapping_covers_every_kernel_code() {
    let codes = [
        MA_INSTANCE,
        MA_ANY,
        MA_UNION,
        MA_TYPE_CALLABLE,
        MA_TYPE_TYPE,
        MA_TUPLE,
        MA_LITERAL_OR_FUNC,
        MA_TYPEDDICT,
        MA_NONE,
        MA_TYPEVAR,
        MA_DELETED,
        MA_UNINHABITED,
        MA_MISSING,
    ];
    assert_eq!(codes.len(), 13, "the kernel defines 13 codes");
    for code in codes {
        let mapped = kind_from_code(code);
        assert!(mapped.is_some(), "code {code} has no kind");
    }
    assert_eq!(kind_from_code(MA_MISSING + 1), None);
}

#[test]
fn kind_from_code_names_each_branch() {
    assert_eq!(kind_from_code(MA_INSTANCE), Some(MemberAccessKind::Instance));
    assert_eq!(kind_from_code(MA_TYPEVAR), Some(MemberAccessKind::TypeVar));
    assert_eq!(kind_from_code(MA_MISSING), Some(MemberAccessKind::Missing));
    assert_eq!(kind_from_code(-1), None);
}
