use type_kernel::standalone::semanal::{LookupOutcome, argument_elide_name, check_for_explicit_any, collect_all_inner_types, has_any_from_unimported_type, has_explicit_any, is_self_type_fullname, lookup_module_chain, lookup_typeinfo_member, make_any_non_explicit, make_any_non_unimported, replace_implicit_first_type, special_function_elide_names, unknown_unpack, wrong_type_arg_count_msg};
use type_kernel::wire::{EXPLICIT, FROM_UNIMPORTED_TYPE, Type};
use type_kernel::typeinfo::{NameMap, ModuleSnapshot, TypeInfoSnapshot, TypeResolver};

const FROM_ERROR: i64 = 5;
const SPECIAL_FORM: i64 = 6;

fn any(type_of_any: i64) -> Type {
    Type::AnyType {
        type_of_any,
        source_any: None,
        missing_import_name: None,
    }
}

fn any_with(type_of_any: i64, import: &str) -> Type {
    Type::AnyType {
        type_of_any,
        source_any: None,
        missing_import_name: Some(import.to_string()),
    }
}

fn instance(type_ref: &str, args: Vec<Type>) -> Type {
    Type::Instance {
        type_ref: type_ref.to_string(),
        args,
        last_known_value: None,
        extra_attrs: None,
    }
}

fn alias(type_ref: &str) -> Type {
    Type::TypeAliasType {
        args: Vec::new(),
        type_ref: type_ref.to_string(),
        is_recursive: false,
    }
}

fn unpack(target: Type) -> Type {
    Type::UnpackType {
        typ: Box::new(target),
        from_star_syntax: false,
    }
}

fn callable(arg_types: Vec<Type>) -> Type {
    let fallback = instance("builtins.function", vec![any(SPECIAL_FORM)]);
    Type::CallableType {
        fallback: Box::new(fallback),
        instance_type: None,
        is_ellipsis_args: false,
        implicit: false,
        is_bound: false,
        from_concatenate: false,
        imprecise_arg_kinds: false,
        unpack_kwargs: false,
        from_type_type: false,
        arg_types,
        arg_kinds: Vec::new(),
        arg_names: Vec::new(),
        ret_type: Box::new(Type::NoneType),
        name: None,
        variables: Vec::new(),
        type_guard: None,
        type_is: None,
        special_sig: None,
        definition_ref: None,
    }
}

fn any_kind(t: &Type) -> i64 {
    match t {
        Type::AnyType { type_of_any, .. } => *type_of_any,
        other => panic!("expected an AnyType, got {other:?}"),
    }
}

fn any_import(t: &Type) -> Option<&str> {
    match t {
        Type::AnyType { missing_import_name, .. } => missing_import_name.as_deref(),
        other => panic!("expected an AnyType, got {other:?}"),
    }
}

fn arg_types(t: &Type) -> &[Type] {
    match t {
        Type::CallableType { arg_types, .. } => arg_types,
        other => panic!("expected a CallableType, got {other:?}"),
    }
}

fn class(fullname: &str, mro: &[&str], members: &[&str]) -> TypeInfoSnapshot {
    let mut member_info = NameMap::new();
    for name in members {
        member_info.insert(name.to_string(), (false, false));
    }
    TypeInfoSnapshot {
        fullname: fullname.to_string(),
        mro: mro.iter().map(|m| m.to_string()).collect(),
        member_info,
        ..Default::default()
    }
}

fn module(entries: &[(&str, bool, Option<&str>)]) -> ModuleSnapshot {
    let mut symbols = NameMap::new();
    for &(name, hidden, nested) in entries {
        let node = nested.map(|f| (true, f.to_string()));
        symbols.insert(name.to_string(), (hidden, node));
    }
    ModuleSnapshot { symbols }
}

fn mro_resolver() -> TypeResolver {
    let mut resolver = TypeResolver::new();
    let base = class("mod.Base", &["mod.Base"], &["base_method"]);
    resolver.insert("mod.Base".to_string(), base);
    let sub = class("mod.Sub", &["mod.Sub", "mod.Base"], &[]);
    resolver.insert("mod.Sub".to_string(), sub);
    resolver
}

#[test]
fn make_any_non_explicit_rewrites_an_explicit_any() {
    assert_eq!(make_any_non_explicit(any(EXPLICIT)), any(SPECIAL_FORM));
}

#[test]
fn make_any_non_explicit_rejects_a_from_error_any() {
    let kept = make_any_non_explicit(any(FROM_ERROR));
    assert_eq!(any_kind(&kept), FROM_ERROR);
}

#[test]
fn make_any_non_unimported_rewrites_and_drops_the_import_name() {
    let rewritten = make_any_non_unimported(any_with(FROM_UNIMPORTED_TYPE, "missing"));
    assert_eq!(rewritten, any(SPECIAL_FORM));
}

#[test]
fn make_any_non_unimported_keeps_an_explicit_any() {
    let rewritten = make_any_non_unimported(any_with(EXPLICIT, "missing"));
    assert_eq!(any_kind(&rewritten), EXPLICIT);
    assert_eq!(any_import(&rewritten), None);
}

#[test]
fn replace_implicit_first_type_swaps_the_self_slot() {
    let sig = callable(vec![any(EXPLICIT), instance("builtins.int", vec![])]);
    let new = any(SPECIAL_FORM);
    let replaced = replace_implicit_first_type(sig, &new).unwrap();
    let args = arg_types(&replaced);
    assert_eq!(args.len(), 2);
    assert_eq!(any_kind(&args[0]), SPECIAL_FORM);
    assert_eq!(args[1], instance("builtins.int", vec![]));
}

#[test]
fn replace_implicit_first_type_rejects_a_non_callable() {
    let sig = instance("builtins.int", vec![]);
    let new = any(SPECIAL_FORM);
    assert_eq!(replace_implicit_first_type(sig, &new), None);
}

#[test]
fn has_explicit_any_finds_a_nested_explicit_any() {
    let t = instance("builtins.list", vec![any(EXPLICIT)]);
    assert_eq!(has_explicit_any(&t), Some(true));
}

#[test]
fn has_explicit_any_rejects_a_different_any_kind() {
    let t = instance("builtins.list", vec![any(FROM_ERROR)]);
    assert_eq!(has_explicit_any(&t), Some(false));
}

#[test]
fn has_explicit_any_defers_on_an_alias() {
    let t = instance("builtins.list", vec![alias("mod.A")]);
    assert_eq!(has_explicit_any(&t), None);
}

#[test]
fn has_any_from_unimported_type_matches_only_its_own_kind() {
    let unimported = instance("builtins.list", vec![any(FROM_UNIMPORTED_TYPE)]);
    assert_eq!(has_any_from_unimported_type(&unimported), Some(true));
    let explicit = instance("builtins.list", vec![any(EXPLICIT)]);
    assert_eq!(has_any_from_unimported_type(&explicit), Some(false));
}

#[test]
fn check_for_explicit_any_reports_only_when_the_gate_is_open() {
    let t = instance("builtins.list", vec![any(EXPLICIT)]);
    assert_eq!(check_for_explicit_any(&t, true, false), Some(true));
    assert_eq!(check_for_explicit_any(&t, false, false), Some(false));
    assert_eq!(check_for_explicit_any(&t, true, true), Some(false));
}

#[test]
fn check_for_explicit_any_defers_when_the_gate_is_open_on_an_alias() {
    let t = alias("mod.A");
    assert_eq!(check_for_explicit_any(&t, true, false), None);
}

#[test]
fn collect_all_inner_types_returns_children_not_the_root() {
    let inner = any(SPECIAL_FORM);
    let t = instance("builtins.list", vec![inner.clone()]);
    assert_eq!(collect_all_inner_types(&t), Some(vec![inner]));
}

#[test]
fn collect_all_inner_types_defers_on_an_alias() {
    assert_eq!(collect_all_inner_types(&alias("mod.A")), None);
}

#[test]
fn unknown_unpack_accepts_a_special_form_any_target() {
    let t = unpack(any(SPECIAL_FORM));
    assert_eq!(unknown_unpack(&t), Some(true));
}

#[test]
fn unknown_unpack_rejects_a_non_unpack_and_an_aliased_target() {
    assert_eq!(unknown_unpack(&Type::NoneType), Some(false));
    assert_eq!(unknown_unpack(&unpack(any(EXPLICIT))), Some(false));
    assert_eq!(unknown_unpack(&unpack(alias("mod.A"))), None);
}

#[test]
fn is_self_type_fullname_accepts_both_self_spellings() {
    assert!(is_self_type_fullname("typing.Self"));
    assert!(is_self_type_fullname("typing_extensions.Self"));
}

#[test]
fn is_self_type_fullname_rejects_a_plain_name() {
    assert!(!is_self_type_fullname("typing.Any"));
    assert!(!is_self_type_fullname("Self"));
}

#[test]
fn wrong_type_arg_count_msg_renders_the_fixed_arity_forms() {
    let zero = wrong_type_arg_count_msg(0, 0, 0, "Box");
    assert_eq!(zero, "\"Box\" expects no type arguments, but none given");
    let one = wrong_type_arg_count_msg(1, 1, 2, "Box");
    assert_eq!(one, "\"Box\" expects 1 type argument, but 2 given");
}

#[test]
fn wrong_type_arg_count_msg_renders_the_range_form() {
    let ranged = wrong_type_arg_count_msg(1, 3, 4, "Box");
    let expected = "\"Box\" expects between 1 and 3 type arguments, but 4 given";
    assert_eq!(ranged, expected);
}

#[test]
fn special_function_elide_names_accepts_a_positional_only_magic() {
    assert!(special_function_elide_names("__len__"));
    assert!(special_function_elide_names("__add__"));
}

#[test]
fn special_function_elide_names_rejects_a_kwargs_magic() {
    assert!(!special_function_elide_names("__init__"));
    assert!(!special_function_elide_names("__call__"));
    assert!(!special_function_elide_names("regular"));
}

#[test]
fn argument_elide_name_accepts_a_leading_dunder() {
    assert!(argument_elide_name(Some("__x")));
}

#[test]
fn argument_elide_name_rejects_a_dunder_and_an_unnamed_arg() {
    assert!(!argument_elide_name(Some("__x__")));
    assert!(!argument_elide_name(Some("x")));
    assert!(!argument_elide_name(None));
}

#[test]
fn lookup_typeinfo_member_walks_the_mro() {
    let resolver = mro_resolver();
    let found = lookup_typeinfo_member(&resolver, "mod.Sub", "base_method");
    assert_eq!(found, LookupOutcome::Resolved("mod.Base".to_string()));
}

#[test]
fn lookup_typeinfo_member_rejects_an_absent_member() {
    let resolver = mro_resolver();
    let missing = lookup_typeinfo_member(&resolver, "mod.Sub", "nope");
    assert_eq!(missing, LookupOutcome::NotFound);
}

#[test]
fn lookup_typeinfo_member_defers_without_a_snapshot() {
    let resolver = mro_resolver();
    let unknown = lookup_typeinfo_member(&resolver, "mod.Absent", "base_method");
    assert_eq!(unknown, LookupOutcome::Deferred);
}

#[test]
fn lookup_module_chain_resolves_the_owning_module() {
    let mut resolver = TypeResolver::new();
    resolver.insert_module("pkg".to_string(), module(&[("x", false, None)]));
    let found = lookup_module_chain(&resolver, "pkg", "pkg.x");
    assert_eq!(found, LookupOutcome::Resolved("pkg".to_string()));
}

#[test]
fn lookup_module_chain_rejects_a_hidden_name() {
    let mut resolver = TypeResolver::new();
    resolver.insert_module("pkg".to_string(), module(&[("_x", true, None)]));
    assert_eq!(
        lookup_module_chain(&resolver, "pkg", "pkg._x"),
        LookupOutcome::NotFound
    );
}

#[test]
fn lookup_module_chain_defers_on_an_unrecorded_module() {
    let resolver = TypeResolver::new();
    assert_eq!(
        lookup_module_chain(&resolver, "pkg", "pkg.x"),
        LookupOutcome::Deferred
    );
}
