use type_kernel::standalone::types::{join_types, is_overlapping_types, narrow_declared_type, make_simplified_union, is_equivalent, is_more_precise, is_same_type, is_subtype, map_instance_to_supertype, meet_types, trivial_join, trivial_meet, tuple_fallback, SubtypeContext, bind_self, callable_is_generic, callable_is_kw_arg, callable_is_var_arg, callable_max_possible_positional_args, callable_min_args, can_be_false_default, can_be_true_default, erase_to_bound, flatten_nested_unions, get_proper_type, get_type_vars, is_named_instance, is_recursive_pair, is_simple_literal, is_tuple, make_union, try_expanding_sum_type_to_union, tuple_length, union_length};
use type_kernel::standalone::call::{ArgKind};
use type_kernel::wire::{LiteralValue, Type};
use type_kernel::typeinfo::{TypeInfoSnapshot, TypeResolver};

fn instance(type_ref: &str) -> Type {
    Type::Instance {
        type_ref: type_ref.to_string(),
        args: Vec::new(),
        last_known_value: None,
        extra_attrs: None,
    }
}

fn alias_ref(fullname: &str) -> Type {
    Type::TypeAliasType {
        args: Vec::new(),
        type_ref: fullname.to_string(),
        is_recursive: false,
    }
}

fn any_type() -> Type {
    Type::AnyType {
        type_of_any: 0,
        source_any: None,
        missing_import_name: None,
    }
}

fn uninhabited() -> Type {
    Type::UninhabitedType { ambiguous: false }
}

fn snap(fullname: &str) -> TypeInfoSnapshot {
    let mut s = TypeInfoSnapshot {
        fullname: fullname.to_string(),
        name: fullname.to_string(),
        ..Default::default()
    };
    s.mro.push(fullname.to_string());
    s.has_base.insert(fullname.to_string());
    if fullname != "builtins.object" {
        s.mro.push("builtins.object".to_string());
        s.has_base.insert("builtins.object".to_string());
    }
    s
}

fn resolver(snaps: Vec<TypeInfoSnapshot>) -> TypeResolver {
    let mut r = TypeResolver::new();
    for s in snaps {
        r.insert(s.fullname.clone(), s);
    }
    r
}

fn builtins_resolver() -> TypeResolver {
    let int = snap("builtins.int");
    let text = snap("builtins.str");
    let obj = snap("builtins.object");
    resolver(vec![int, text, obj])
}

#[test]
fn make_union_follows_the_item_count() {
    let empty: Vec<Type> = Vec::new();
    assert_eq!(make_union(empty), uninhabited());
    let a = instance("a.A");
    assert_eq!(make_union(vec![a.clone()]), a);
    let two = make_union(vec![instance("a.A"), instance("a.B")]);
    assert_eq!(union_length(&two), Some(2));
}

#[test]
fn union_length_declines_on_a_non_union() {
    let a = instance("a.A");
    assert_eq!(union_length(&a), None);
}

#[test]
fn flatten_nested_unions_flattens_and_declines() {
    let inner = make_union(vec![instance("a.A"), instance("a.B")]);
    let outer = make_union(vec![inner, instance("a.C")]);
    let flat = flatten_nested_unions(&[outer]);
    assert_eq!(flat.map(|items| items.len()), Some(3));
    let aliased = [alias_ref("mod.A")];
    assert_eq!(flatten_nested_unions(&aliased), None);
}

#[test]
fn is_tuple_recognizes_both_tuple_shapes() {
    let fallback = instance("builtins.tuple");
    let tuple = Type::TupleType {
        partial_fallback: Box::new(fallback),
        items: vec![instance("builtins.int")],
        implicit: false,
    };
    assert!(is_tuple(&tuple));
    assert!(is_tuple(&instance("builtins.tuple")));
    assert!(!is_tuple(&instance("builtins.list")));
}

#[test]
fn is_named_instance_matches_the_fullname_only() {
    let a = instance("a.A");
    assert!(is_named_instance(&a, "a.A"));
    assert!(!is_named_instance(&a, "a.B"));
    assert!(!is_named_instance(&any_type(), "a.A"));
}

const ARG_POS: i64 = 0;
const ARG_OPT: i64 = 1;
const ARG_STAR: i64 = 2;
const ARG_STAR2: i64 = 4;

fn type_var(raw_id: i64, name: &str) -> Type {
    Type::TypeVarType {
        name: name.to_string(),
        fullname: format!("mod.{name}"),
        raw_id,
        namespace: String::new(),
        values: Vec::new(),
        upper_bound: Box::new(any_type()),
        default: Box::new(any_type()),
        variance: 0,
        meta_level: 0,
    }
}

fn callable(arg_kinds: Vec<i64>, variables: Vec<Type>) -> Type {
    let arg_types = vec![instance("builtins.object"); arg_kinds.len()];
    let arg_names = vec![None; arg_kinds.len()];
    Type::CallableType {
        fallback: Box::new(instance("builtins.function")),
        instance_type: None,
        is_ellipsis_args: false,
        implicit: false,
        is_bound: false,
        from_concatenate: false,
        imprecise_arg_kinds: false,
        unpack_kwargs: false,
        from_type_type: false,
        arg_types,
        arg_kinds,
        arg_names,
        ret_type: Box::new(instance("builtins.object")),
        name: None,
        variables,
        type_guard: None,
        type_is: None,
        special_sig: None,
        definition_ref: None,
    }
}

fn tuple(items: Vec<Type>) -> Type {
    Type::TupleType {
        partial_fallback: Box::new(instance("builtins.tuple")),
        items,
        implicit: false,
    }
}

fn recursive_alias(fullname: &str) -> Type {
    Type::TypeAliasType {
        args: Vec::new(),
        type_ref: fullname.to_string(),
        is_recursive: true,
    }
}

fn literal(value: LiteralValue, fallback: &str) -> Type {
    Type::LiteralType {
        fallback: Box::new(instance(fallback)),
        value,
    }
}

fn bool_literal(value: bool) -> Type {
    literal(LiteralValue::Bool(value), "builtins.bool")
}

fn int_literal(value: i64) -> Type {
    literal(LiteralValue::Int(value), "builtins.int")
}

fn str_literal(value: &str) -> Type {
    let text = LiteralValue::Str(value.to_string());
    literal(text, "builtins.str")
}

#[test]
fn get_proper_type_passes_a_proper_type_through() {
    let r = builtins_resolver();
    let int = instance("builtins.int");
    assert_eq!(get_proper_type(&int, &r), Some(int.clone()));
}

#[test]
fn get_proper_type_declines_on_an_alias() {
    let r = builtins_resolver();
    let alias = alias_ref("mod.A");
    assert_eq!(get_proper_type(&alias, &r), None);
}

#[test]
fn truthiness_defaults_follow_the_variant() {
    let int = instance("builtins.int");
    assert_eq!(can_be_true_default(&int), Some(true));
    assert_eq!(can_be_false_default(&int), Some(true));
    let never = uninhabited();
    assert_eq!(can_be_true_default(&never), Some(false));
    assert_eq!(can_be_false_default(&never), Some(false));
    assert_eq!(can_be_true_default(&Type::NoneType), Some(false));
    assert_eq!(can_be_false_default(&Type::NoneType), Some(true));
    let yes = bool_literal(true);
    assert_eq!(can_be_true_default(&yes), Some(true));
    assert_eq!(can_be_false_default(&yes), Some(false));
}

#[test]
fn truthiness_defaults_decline_where_a_snapshot_decides() {
    let plain = int_literal(1);
    assert_eq!(can_be_true_default(&plain), None);
    assert_eq!(can_be_false_default(&plain), None);
    let items = vec![instance("builtins.int")];
    assert_eq!(can_be_true_default(&tuple(items)), None);
}

#[test]
fn is_simple_literal_follows_the_fallback() {
    let r = builtins_resolver();
    let text = str_literal("x");
    assert_eq!(is_simple_literal(&text, &r), Some(true));
    let number = int_literal(1);
    assert_eq!(is_simple_literal(&number, &r), Some(false));
    let int = instance("builtins.int");
    assert_eq!(is_simple_literal(&int, &r), Some(false));
    let empty = resolver(Vec::new());
    assert_eq!(is_simple_literal(&number, &empty), None);
}

#[test]
fn erase_to_bound_replaces_a_type_variable_with_its_bound() {
    let tv = type_var(1, "T");
    assert_eq!(erase_to_bound(&tv), Some(any_type()));
    let int = instance("builtins.int");
    assert_eq!(erase_to_bound(&int), Some(int.clone()));
}

#[test]
fn erase_to_bound_declines_on_an_alias() {
    let alias = alias_ref("mod.A");
    assert_eq!(erase_to_bound(&alias), None);
}

#[test]
fn try_expanding_sum_type_expands_bool_into_literals() {
    let r = builtins_resolver();
    let b = instance("builtins.bool");
    let out = try_expanding_sum_type_to_union(&b, None, true, &r);
    let Type::UnionType { items, .. } = out.unwrap() else {
        panic!("expected a union of the two bool literals");
    };
    assert_eq!(items.len(), 2);
    assert_eq!(items[0], bool_literal(true));
    assert_eq!(items[1], bool_literal(false));
}

#[test]
fn try_expanding_sum_type_honours_a_target_and_declines_on_an_alias() {
    let r = builtins_resolver();
    let b = instance("builtins.bool");
    let off_target = Some("builtins.int");
    let out = try_expanding_sum_type_to_union(&b, off_target, true, &r);
    assert_eq!(out, Some(b));
    let alias = alias_ref("mod.A");
    let expanded = try_expanding_sum_type_to_union(&alias, None, true, &r);
    assert_eq!(expanded, None);
}

#[test]
fn get_type_vars_collects_a_nested_type_variable() {
    let tv = type_var(1, "T");
    let list_of_t = Type::Instance {
        type_ref: "builtins.list".to_string(),
        args: vec![tv.clone()],
        last_known_value: None,
        extra_attrs: None,
    };
    assert_eq!(get_type_vars(&list_of_t, false), Some(vec![tv]));
}

#[test]
fn get_type_vars_declines_on_an_alias() {
    let alias = alias_ref("mod.A");
    assert_eq!(get_type_vars(&alias, false), None);
}

#[test]
fn is_recursive_pair_decides_only_the_resolver_free_branches() {
    let rec = recursive_alias("mod.A");
    assert_eq!(is_recursive_pair(&rec, &rec), Some(true));
    let int = instance("builtins.int");
    assert_eq!(is_recursive_pair(&int, &int), Some(false));
    assert_eq!(is_recursive_pair(&rec, &int), None);
}

#[test]
fn bind_self_strips_the_first_parameter() {
    let method = callable(vec![ARG_POS, ARG_POS], Vec::new());
    let out = bind_self(&method);
    let Type::CallableType { arg_types, is_bound, .. } = out.unwrap() else {
        panic!("expected a bound callable");
    };
    assert_eq!(arg_types.len(), 1);
    assert!(is_bound);
}

#[test]
fn bind_self_declines_on_a_generic_callable() {
    let variables = vec![type_var(1, "T")];
    let generic = callable(vec![ARG_POS], variables);
    assert_eq!(bind_self(&generic), None);
    let int = instance("builtins.int");
    assert_eq!(bind_self(&int), None);
}

#[test]
fn callable_accessors_read_the_parameter_shape() {
    let plain = callable(vec![ARG_POS, ARG_OPT], Vec::new());
    assert_eq!(callable_min_args(&plain), Some(1));
    assert_eq!(callable_max_possible_positional_args(&plain), Some(2));
    assert_eq!(callable_is_var_arg(&plain), Some(false));
    assert_eq!(callable_is_kw_arg(&plain), Some(false));
    assert_eq!(callable_is_generic(&plain), Some(false));
    let starred = callable(vec![ARG_POS, ARG_STAR, ARG_STAR2], Vec::new());
    assert_eq!(callable_is_var_arg(&starred), Some(true));
    assert_eq!(callable_is_kw_arg(&starred), Some(true));
    let max = callable_max_possible_positional_args(&starred);
    assert_eq!(max, Some(i64::MAX));
    let generic = callable(vec![ARG_POS], vec![type_var(1, "T")]);
    assert_eq!(callable_is_generic(&generic), Some(true));
}

#[test]
fn callable_accessors_decline_on_a_non_callable() {
    let int = instance("builtins.int");
    assert_eq!(callable_min_args(&int), None);
    assert_eq!(callable_is_var_arg(&int), None);
    assert_eq!(callable_is_kw_arg(&int), None);
    assert_eq!(callable_is_generic(&int), None);
    assert_eq!(callable_max_possible_positional_args(&int), None);
}

#[test]
fn tuple_length_counts_items_and_declines_otherwise() {
    let items = vec![instance("builtins.int"), instance("builtins.str")];
    let tup = tuple(items);
    assert_eq!(tuple_length(&tup), Some(2));
    let int = instance("builtins.int");
    assert_eq!(tuple_length(&int), None);
}

fn ctx(strict_optional: bool) -> SubtypeContext {
    SubtypeContext { strict_optional, ..SubtypeContext::default() }
}

fn snap_with_bases(fullname: &str, base_refs: &[&str]) -> TypeInfoSnapshot {
    let mut s = snap(fullname);
    let mut bases = Vec::new();
    for base_ref in base_refs {
        bases.push(instance(base_ref));
        s.has_base.insert((*base_ref).to_string());
        s.mro.push((*base_ref).to_string());
    }
    s.bases = bases;
    s
}

fn hierarchy() -> TypeResolver {
    let base = snap("a.A");
    let derived = snap_with_bases("a.B", &["a.A"]);
    let other = snap("a.Z");
    resolver(vec![base, derived, other])
}

#[test]
fn trivial_join_picks_the_wider_operand_then_object() {
    let r = hierarchy();
    let a = instance("a.A");
    let b = instance("a.B");
    let out = trivial_join(&a, &b, &ctx(true), &r);
    assert_eq!(out, Some(instance("a.A")));
    let z = instance("a.Z");
    let out = trivial_join(&a, &z, &ctx(true), &r);
    assert_eq!(out, Some(instance("builtins.object")));
}

#[test]
fn meet_of_a_class_and_its_subclass_narrows_to_the_subclass() {
    let r = hierarchy();
    let a = instance("a.A");
    let b = instance("a.B");
    let out = meet_types(&a, &b, &ctx(true), &r);
    assert_eq!(out, Some(b));
}

#[test]
fn meet_declines_on_an_alias_operand() {
    let r = hierarchy();
    let alias = alias_ref("mod.A");
    let a = instance("a.A");
    let out = meet_types(&alias, &a, &ctx(true), &r);
    assert_eq!(out, None);
}

#[test]
fn trivial_meet_bottom_follows_strict_optional() {
    let r = hierarchy();
    let a = instance("a.A");
    let z = instance("a.Z");
    let strict = trivial_meet(&a, &z, &ctx(true), &r);
    assert_eq!(strict, Some(uninhabited()));
    let loose = trivial_meet(&a, &z, &ctx(false), &r);
    assert_eq!(loose, Some(Type::NoneType));
}

#[test]
fn trivial_meet_returns_the_narrower_operand() {
    let r = hierarchy();
    let a = instance("a.A");
    let b = instance("a.B");
    let out = trivial_meet(&a, &b, &ctx(true), &r);
    assert_eq!(out, Some(b));
}

#[test]
fn is_same_type_fast_paths_and_declines() {
    let r = hierarchy();
    let a = instance("a.A");
    let b = instance("a.B");
    assert_eq!(is_same_type(&a, &a, false, true, &r), Some(true));
    assert_eq!(is_same_type(&a, &b, false, true, &r), Some(false));
    let alias = alias_ref("mod.A");
    assert_eq!(is_same_type(&alias, &a, false, true, &r), None);
}

#[test]
fn is_equivalent_follows_subtyping_both_ways() {
    let r = hierarchy();
    let a = instance("a.A");
    let b = instance("a.B");
    assert_eq!(is_equivalent(&a, &a, false, true, &r), Some(true));
    assert_eq!(is_equivalent(&a, &b, false, true, &r), Some(false));
    let alias = alias_ref("mod.A");
    assert_eq!(is_equivalent(&alias, &a, false, true, &r), None);
}

#[test]
fn is_more_precise_accepts_any_and_declines_on_an_alias() {
    let r = hierarchy();
    let a = instance("a.A");
    let z = instance("a.Z");
    let any = any_type();
    assert_eq!(is_more_precise(&a, &any, false, true, &r), Some(true));
    assert_eq!(is_more_precise(&a, &z, false, true, &r), Some(false));
    let alias = alias_ref("mod.A");
    assert_eq!(is_more_precise(&alias, &a, false, true, &r), None);
}

#[test]
fn map_instance_to_supertype_fast_paths_and_declines() {
    let r = resolver(vec![snap("a.A")]);
    let args = [instance("builtins.int")];
    let mapped = map_instance_to_supertype("a.A", &args, "a.A", &r);
    assert_eq!(mapped, Some(args.to_vec()));
    let empty = resolver(Vec::new());
    let none = map_instance_to_supertype("a.X", &[], "a.Y", &empty);
    assert_eq!(none, None);
}

#[test]
fn the_reexported_is_subtype_sees_the_same_facts() {
    let r = hierarchy();
    let a = instance("a.A");
    let b = instance("a.B");
    let out = is_subtype(&b, &a, &ctx(true), &r);
    assert_eq!(out, Some(true));
}

#[test]
fn tuple_fallback_builds_the_tuple_instance() {
    let r = builtins_resolver();
    let int = instance("builtins.int");
    let tup = tuple(vec![int.clone()]);
    let out = tuple_fallback(&tup, &r);
    let Type::Instance { type_ref, args, .. } = out.unwrap() else {
        panic!("expected an Instance fallback");
    };
    assert_eq!(type_ref, "builtins.tuple");
    assert_eq!(args.len(), 1);
    assert_eq!(args[0], int);
}

#[test]
fn tuple_fallback_declines_on_a_non_tuple() {
    let r = builtins_resolver();
    let int = instance("builtins.int");
    assert_eq!(tuple_fallback(&int, &r), None);
}


#[test]
fn make_simplified_union_drops_an_item_another_covers() {
    let r = hierarchy();
    let items = [instance("a.A"), instance("a.B")];
    let a = instance("a.A");
    let out = make_simplified_union(&items, &ctx(true), &r);
    assert_eq!(out, Some(a));
}

#[test]
fn make_simplified_union_declines_on_an_alias_item() {
    let r = hierarchy();
    let items = [alias_ref("mod.A"), instance("a.A")];
    let out = make_simplified_union(&items, &ctx(true), &r);
    assert_eq!(out, None);
}

#[test]
fn make_simplified_union_drops_an_earlier_subclass_and_keeps_order() {
    let r = hierarchy();
    let items = [instance("a.B"), instance("a.Z"), instance("a.A")];
    let out = make_simplified_union(&items, &ctx(true), &r);
    assert_eq!(out, Some(make_union(vec![instance("a.Z"), instance("a.A")])));
}

#[test]
fn make_simplified_union_removes_never_and_duplicates() {
    let r = hierarchy();
    let items = [uninhabited(), instance("a.Z"), Type::NoneType, instance("a.Z"), Type::NoneType];
    let out = make_simplified_union(&items, &ctx(true), &r);
    assert_eq!(out, Some(make_union(vec![instance("a.Z"), Type::NoneType])));
    let empty: [Type; 0] = [];
    assert_eq!(make_simplified_union(&empty, &ctx(true), &r), Some(uninhabited()));
}

#[test]
fn make_simplified_union_flattens_and_unwraps_a_single_item() {
    let r = hierarchy();
    let nested = make_union(vec![instance("a.A"), instance("a.B")]);
    let out = make_simplified_union(&[nested], &ctx(true), &r);
    assert_eq!(out, Some(instance("a.A")));
    let single = tuple(vec![instance("a.A")]);
    assert_eq!(make_simplified_union(&[single.clone()], &ctx(true), &r), Some(single));
}

#[test]
fn make_simplified_union_declines_on_an_unknown_class_and_keeps_any_beside_a_class() {
    let r = hierarchy();
    let items = [instance("a.A"), instance("x.Unknown")];
    assert_eq!(make_simplified_union(&items, &ctx(true), &r), None);
    let items = [any_type(), instance("a.A")];
    assert_eq!(make_simplified_union(&items, &ctx(true), &r), Some(make_union(vec![any_type(), instance("a.A")])));
    let items = [any_type(), any_type()];
    assert_eq!(make_simplified_union(&items, &ctx(true), &r), Some(any_type()));
}

#[test]
fn narrow_declared_type_narrows_a_union_per_item() {
    let r = builtins_resolver();
    let int = instance("builtins.int");
    let text = instance("builtins.str");
    let declared = make_union(vec![int.clone(), text]);
    let out = narrow_declared_type(&declared, &int, true, &r);
    assert_eq!(out, Some(int));
}

#[test]
fn narrow_declared_type_makes_disjoint_operands_empty() {
    let r = builtins_resolver();
    let int = instance("builtins.int");
    let text = instance("builtins.str");
    let out = narrow_declared_type(&int, &text, true, &r);
    assert_eq!(out, Some(uninhabited()));
}

#[test]
fn narrow_declared_type_declines_on_an_undecidable_pair() {
    let r = resolver(Vec::new());
    let unknown = instance("a.Unknown");
    let out = narrow_declared_type(&unknown, &unknown, true, &r);
    assert_eq!(out, None);
}

#[test]
fn is_overlapping_types_decides_a_repeated_instance() {
    let r = builtins_resolver();
    let int = instance("builtins.int");
    let out = is_overlapping_types(&int, &int, false, false, true, &r);
    assert_eq!(out, Some(true));
}

#[test]
fn is_overlapping_types_declines_on_an_alias_operand() {
    let r = builtins_resolver();
    let alias = alias_ref("mod.A");
    let int = instance("builtins.int");
    let out = is_overlapping_types(&alias, &int, false, false, true, &r);
    assert_eq!(out, None);
}

#[test]
fn is_overlapping_types_separates_unrelated_classes_and_relates_subclasses() {
    let r = hierarchy();
    let a = instance("a.A");
    let b = instance("a.B");
    let z = instance("a.Z");
    assert_eq!(is_overlapping_types(&a, &z, false, false, true, &r), Some(false));
    assert_eq!(is_overlapping_types(&b, &a, false, true, true, &r), Some(true));
    assert_eq!(is_overlapping_types(&a, &b, false, false, true, &r), Some(true));
    assert_eq!(is_overlapping_types(&any_type(), &a, false, false, true, &r), Some(true));
    assert_eq!(is_overlapping_types(&a, &Type::ErasedType, false, false, true, &r), Some(true));
    assert_eq!(is_overlapping_types(&Type::NoneType, &a, false, false, true, &r), None);
}

#[test]
fn is_overlapping_types_lets_a_native_int_meet_int() {
    let r = resolver(vec![snap("builtins.int"), snap("mypy_extensions.i64")]);
    let native = instance("mypy_extensions.i64");
    let int = instance("builtins.int");
    assert_eq!(is_overlapping_types(&native, &int, false, false, true, &r), Some(true));
    assert_eq!(is_overlapping_types(&int, &native, false, false, true, &r), Some(false));
}

#[test]
fn narrow_declared_type_narrows_to_the_subclass_and_keeps_order() {
    let r = hierarchy();
    let a = instance("a.A");
    let b = instance("a.B");
    let z = instance("a.Z");
    assert_eq!(narrow_declared_type(&a, &b, true, &r), Some(b.clone()));
    assert_eq!(narrow_declared_type(&b, &a, true, &r), Some(b.clone()));
    assert_eq!(narrow_declared_type(&a, &z, false, &r), Some(Type::NoneType));
    let declared = make_union(vec![z.clone(), a.clone()]);
    let narrowed = make_union(vec![b.clone(), z.clone()]);
    let out = narrow_declared_type(&declared, &narrowed, true, &r);
    assert_eq!(out, Some(make_union(vec![z, b])));
}

#[test]
fn narrow_declared_type_keeps_a_declared_class_with_a_native_counterpart() {
    let mut int = snap("builtins.int");
    int.alt_promote_fullname = Some("mypy_extensions.i64".to_string());
    let r = resolver(vec![int, snap("builtins.object")]);
    let int_t = instance("builtins.int");
    let obj = instance("builtins.object");
    assert_eq!(narrow_declared_type(&int_t, &obj, true, &r), Some(int_t));
}

#[test]
fn join_of_two_instances_gives_their_common_base() {
    let c = snap("a.C");
    let d = snap_with_bases("a.D", &["a.C"]);
    let e = snap_with_bases("a.E", &["a.C"]);
    let r = resolver(vec![c, d, e]);
    let left = instance("a.D");
    let right = instance("a.E");
    let out = join_types(&left, &right, &ctx(true), &r);
    assert_eq!(out, Some(instance("a.C")));
}

#[test]
fn join_declines_on_an_alias_operand() {
    let r = hierarchy();
    let alias = alias_ref("mod.A");
    let a = instance("a.A");
    let out = join_types(&alias, &a, &ctx(true), &r);
    assert_eq!(out, None);
}

fn rooted_hierarchy() -> TypeResolver {
    let object = snap("builtins.object");
    let a = snap_with_bases("a.A", &["builtins.object"]);
    let b = snap_with_bases("a.B", &["a.A"]);
    let z = snap_with_bases("a.Z", &["builtins.object"]);
    resolver(vec![object, a, b, z])
}

#[test]
fn join_climbs_to_the_nearest_common_class() {
    let r = rooted_hierarchy();
    let a = instance("a.A");
    let b = instance("a.B");
    let z = instance("a.Z");
    assert_eq!(join_types(&b, &z, &ctx(true), &r), Some(instance("builtins.object")));
    assert_eq!(join_types(&b, &a, &ctx(true), &r), Some(a.clone()));
    assert_eq!(join_types(&a, &b, &ctx(true), &r), Some(a.clone()));
    assert_eq!(join_types(&a, &a, &ctx(true), &r), Some(a));
}

#[test]
fn join_handles_any_none_and_never() {
    let r = rooted_hierarchy();
    let a = instance("a.A");
    assert_eq!(join_types(&any_type(), &a, &ctx(true), &r), Some(any_type()));
    assert_eq!(join_types(&a, &any_type(), &ctx(true), &r), Some(any_type()));
    assert_eq!(join_types(&uninhabited(), &a, &ctx(true), &r), Some(a.clone()));
    assert_eq!(join_types(&Type::NoneType, &a, &ctx(false), &r), Some(a.clone()));
    assert_eq!(join_types(&Type::NoneType, &a, &ctx(true), &r), Some(make_union(vec![a.clone(), Type::NoneType])));
    assert_eq!(join_types(&Type::NoneType, &Type::NoneType, &ctx(true), &r), Some(Type::NoneType));
}

#[test]
fn join_with_a_union_keeps_or_extends_it() {
    let r = rooted_hierarchy();
    let a = instance("a.A");
    let b = instance("a.B");
    let z = instance("a.Z");
    let az = make_union(vec![a.clone(), z.clone()]);
    assert_eq!(join_types(&az, &b, &ctx(true), &r), Some(az.clone()));
    let bz = make_union(vec![b.clone(), z.clone()]);
    assert_eq!(join_types(&a, &bz, &ctx(true), &r), Some(make_union(vec![a, z])));
}

#[test]
fn join_of_none_and_a_union_adds_none_unless_its_truthiness_was_narrowed() {
    let r = rooted_hierarchy();
    let a = instance("a.A");
    let z = instance("a.Z");
    let az = make_union(vec![a.clone(), z.clone()]);
    let out = join_types(&Type::NoneType, &az, &ctx(true), &r);
    assert_eq!(out, Some(make_union(vec![a.clone(), z.clone(), Type::NoneType])));
    let narrowed = Type::UnionType {
        items: vec![a, z],
        uses_pep604_syntax: false,
        can_be_true: true,
        can_be_false: false,
        is_evaluated: true,
        original_str_expr: None,
        original_str_fallback: None,
    };
    assert_eq!(join_types(&Type::NoneType, &narrowed, &ctx(true), &r), None);
}

#[test]
fn narrow_declared_type_by_any_gives_any() {
    let r = hierarchy();
    let a = instance("a.A");
    let z = instance("a.Z");
    assert_eq!(narrow_declared_type(&a, &any_type(), true, &r), Some(any_type()));
    assert_eq!(narrow_declared_type(&any_type(), &a, true, &r), Some(a.clone()));
    let declared = make_union(vec![a, z]);
    assert_eq!(narrow_declared_type(&declared, &any_type(), true, &r), Some(any_type()));
}

#[test]
fn meet_with_any_none_and_never_follows_the_atoms() {
    let r = hierarchy();
    let a = instance("a.A");
    assert_eq!(meet_types(&any_type(), &a, &ctx(true), &r), Some(a.clone()));
    assert_eq!(meet_types(&a, &any_type(), &ctx(true), &r), Some(a.clone()));
    assert_eq!(meet_types(&Type::NoneType, &a, &ctx(true), &r), Some(uninhabited()));
    assert_eq!(meet_types(&Type::NoneType, &a, &ctx(false), &r), Some(Type::NoneType));
    assert_eq!(meet_types(&a, &uninhabited(), &ctx(true), &r), Some(uninhabited()));
    assert_eq!(meet_types(&any_type(), &any_type(), &ctx(true), &r), Some(any_type()));
}

fn generic_snap(fullname: &str, variances: &[i64]) -> TypeInfoSnapshot {
    let mut s = snap(fullname);
    for (i, v) in variances.iter().enumerate() {
        s.type_vars.push(format!("T{}", i));
        s.type_vars_with_variance.push((format!("T{}", i), *v, 0));
    }
    s
}

fn generic(type_ref: &str, args: Vec<Type>) -> Type {
    Type::Instance {
        type_ref: type_ref.to_string(),
        args,
        last_known_value: None,
        extra_attrs: None,
    }
}

fn generic_hierarchy() -> TypeResolver {
    let mut b = snap("a.B");
    b.mro.insert(1, "a.A".to_string());
    b.has_base.insert("a.A".to_string());
    resolver(vec![
        snap("builtins.object"),
        snap("a.A"),
        b,
        generic_snap("builtins.list", &[0]),
        generic_snap("typing.Sequence", &[1]),
        generic_snap("a.Sink", &[2]),
    ])
}

#[test]
fn identical_generic_instances_are_the_same_type() {
    let r = generic_hierarchy();
    let la = generic("builtins.list", vec![instance("a.A")]);
    assert_eq!(is_same_type(&la, &la.clone(), false, true, &r), Some(true));
    assert_eq!(is_subtype(&la, &la.clone(), &ctx(true), &r), Some(true));
    assert_eq!(is_equivalent(&la, &la.clone(), false, true, &r), Some(true));
}

#[test]
fn an_invariant_argument_must_match_exactly() {
    let r = generic_hierarchy();
    let la = generic("builtins.list", vec![instance("a.A")]);
    let lb = generic("builtins.list", vec![instance("a.B")]);
    assert_eq!(is_subtype(&lb, &la, &ctx(true), &r), Some(false));
    assert_eq!(is_subtype(&la, &lb, &ctx(true), &r), Some(false));
    assert_eq!(is_same_type(&la, &lb, false, true, &r), Some(false));
}

#[test]
fn a_covariant_argument_follows_its_subtype() {
    let r = generic_hierarchy();
    let sa = generic("typing.Sequence", vec![instance("a.A")]);
    let sb = generic("typing.Sequence", vec![instance("a.B")]);
    assert_eq!(is_subtype(&sb, &sa, &ctx(true), &r), Some(true));
    assert_eq!(is_subtype(&sa, &sb, &ctx(true), &r), Some(false));
}

#[test]
fn a_contravariant_argument_reverses_the_order() {
    let r = generic_hierarchy();
    let ka = generic("a.Sink", vec![instance("a.A")]);
    let kb = generic("a.Sink", vec![instance("a.B")]);
    assert_eq!(is_subtype(&ka, &kb, &ctx(true), &r), Some(true));
    assert_eq!(is_subtype(&kb, &ka, &ctx(true), &r), Some(false));
}

#[test]
fn unrelated_generic_classes_are_not_subtypes() {
    let r = generic_hierarchy();
    let la = generic("builtins.list", vec![instance("a.A")]);
    let ka = generic("a.Sink", vec![instance("a.A")]);
    assert_eq!(is_subtype(&la, &ka, &ctx(true), &r), Some(false));
    let obj = instance("builtins.object");
    assert_eq!(is_subtype(&la, &obj, &ctx(true), &r), Some(true));
}

#[test]
fn an_ambiguous_never_argument_counts_as_covariant() {
    let r = generic_hierarchy();
    let empty = generic("builtins.list", vec![Type::UninhabitedType { ambiguous: true }]);
    let la = generic("builtins.list", vec![instance("a.A")]);
    assert_eq!(is_subtype(&empty, &la, &ctx(true), &r), Some(true));
    let never = generic("builtins.list", vec![uninhabited()]);
    assert_eq!(is_subtype(&never, &la, &ctx(true), &r), Some(false));
}

#[test]
fn nested_generic_arguments_are_compared_recursively() {
    let r = generic_hierarchy();
    let inner_a = generic("typing.Sequence", vec![instance("a.A")]);
    let inner_b = generic("typing.Sequence", vec![instance("a.B")]);
    let outer_a = generic("typing.Sequence", vec![inner_a.clone()]);
    let outer_b = generic("typing.Sequence", vec![inner_b.clone()]);
    assert_eq!(is_subtype(&outer_b, &outer_a, &ctx(true), &r), Some(true));
    let list_a = generic("builtins.list", vec![inner_a]);
    let list_b = generic("builtins.list", vec![inner_b]);
    assert_eq!(is_subtype(&list_b, &list_a, &ctx(true), &r), Some(false));
}

#[test]
fn a_generic_instance_against_a_union_picks_an_item() {
    let r = generic_hierarchy();
    let sa = generic("typing.Sequence", vec![instance("a.A")]);
    let sb = generic("typing.Sequence", vec![instance("a.B")]);
    let u = make_union(vec![Type::NoneType, sa]);
    assert_eq!(is_subtype(&sb, &u, &ctx(true), &r), Some(true));
}

#[test]
fn plain_tuples_compare_item_by_item() {
    let r = generic_hierarchy();
    let ab = tuple(vec![instance("a.A"), instance("a.B")]);
    let bb = tuple(vec![instance("a.B"), instance("a.B")]);
    assert_eq!(is_subtype(&bb, &ab, &ctx(true), &r), Some(true));
    assert_eq!(is_subtype(&ab, &bb, &ctx(true), &r), Some(false));
    let short = tuple(vec![instance("a.B")]);
    assert_eq!(is_subtype(&short, &ab, &ctx(true), &r), Some(false));
    assert_eq!(is_same_type(&ab, &ab.clone(), false, true, &r), Some(true));
}

#[test]
fn a_named_or_variadic_tuple_is_not_decided() {
    let r = generic_hierarchy();
    let named = Type::TupleType {
        partial_fallback: Box::new(instance("a.Point")),
        items: vec![instance("a.A")],
        implicit: false,
    };
    let plain = tuple(vec![instance("a.A")]);
    assert_eq!(is_subtype(&named, &plain, &ctx(true), &r), None);
    let variadic = tuple(vec![Type::UnpackType { typ: Box::new(instance("a.A")), from_star_syntax: true }]);
    assert_eq!(is_subtype(&variadic, &plain, &ctx(true), &r), None);
}

fn signature(args: Vec<(Type, Option<&str>)>, ret: Type) -> Type {
    let mut c = callable(vec![0; args.len()], Vec::new());
    if let Type::CallableType { arg_types, arg_names, ret_type, .. } = &mut c {
        *arg_types = args.iter().map(|(t, _)| t.clone()).collect();
        *arg_names = args.iter().map(|(_, n)| n.map(|s| s.to_string())).collect();
        *ret_type = Box::new(ret);
    }
    c
}

fn callable_hierarchy() -> TypeResolver {
    let mut r = generic_hierarchy();
    r.insert("builtins.function".to_string(), snap("builtins.function"));
    r
}

#[test]
fn callables_take_wider_arguments_and_give_narrower_results() {
    let r = callable_hierarchy();
    let wide = signature(vec![(instance("a.A"), None)], instance("a.B"));
    let narrow = signature(vec![(instance("a.B"), None)], instance("a.A"));
    assert_eq!(is_subtype(&wide, &narrow, &ctx(true), &r), Some(true));
    assert_eq!(is_subtype(&narrow, &wide, &ctx(true), &r), Some(false));
    assert_eq!(is_same_type(&wide, &wide.clone(), false, true, &r), Some(true));
}

#[test]
fn callables_of_different_arity_are_not_subtypes() {
    let r = callable_hierarchy();
    let one = signature(vec![(instance("a.A"), None)], instance("a.A"));
    let two = signature(vec![(instance("a.A"), None), (instance("a.A"), None)], instance("a.A"));
    assert_eq!(is_subtype(&one, &two, &ctx(true), &r), Some(false));
    assert_eq!(is_subtype(&two, &one, &ctx(true), &r), Some(false));
}

#[test]
fn a_named_argument_must_keep_its_name() {
    let r = callable_hierarchy();
    let named_x = signature(vec![(instance("a.A"), Some("x"))], instance("a.A"));
    let named_y = signature(vec![(instance("a.A"), Some("y"))], instance("a.A"));
    let unnamed = signature(vec![(instance("a.A"), None)], instance("a.A"));
    assert_eq!(is_subtype(&named_x, &named_y, &ctx(true), &r), Some(false));
    assert_eq!(is_subtype(&named_x, &unnamed, &ctx(true), &r), Some(true));
    assert_eq!(is_subtype(&unnamed, &named_x, &ctx(true), &r), Some(false));
}

#[test]
fn a_callable_is_below_object_and_any_through_its_fallback() {
    let r = callable_hierarchy();
    let f = signature(vec![(instance("a.A"), None)], instance("a.A"));
    assert_eq!(is_subtype(&f, &instance("builtins.object"), &ctx(true), &r), Some(true));
    assert_eq!(is_subtype(&f, &instance("a.A"), &ctx(true), &r), Some(false));
    assert_eq!(is_subtype(&f, &any_type(), &ctx(true), &r), Some(true));
}

#[test]
fn a_generic_or_variadic_callable_is_not_decided() {
    let r = callable_hierarchy();
    let plain = signature(vec![(instance("a.A"), None)], instance("a.A"));
    let generic_one = callable(vec![0], vec![Type::NoneType]);
    assert_eq!(is_subtype(&generic_one, &plain, &ctx(true), &r), None);
    let star = callable(vec![2], Vec::new());
    assert_eq!(is_subtype(&star, &plain, &ctx(true), &r), None);
}

#[test]
fn meet_of_generic_instances_follows_subtyping() {
    let r = generic_hierarchy();
    let sa = generic("typing.Sequence", vec![instance("a.A")]);
    let sb = generic("typing.Sequence", vec![instance("a.B")]);
    assert_eq!(meet_types(&sa, &sb, &ctx(true), &r), Some(sb.clone()));
    let la = generic("builtins.list", vec![instance("a.A")]);
    let lb = generic("builtins.list", vec![instance("a.B")]);
    assert_eq!(meet_types(&la, &lb, &ctx(true), &r), Some(uninhabited()));
    assert_eq!(meet_types(&la, &lb, &ctx(false), &r), Some(Type::NoneType));
    let ka = generic("a.Sink", vec![instance("a.A")]);
    assert_eq!(meet_types(&la, &ka, &ctx(true), &r), Some(uninhabited()));
}

#[test]
fn meet_prefers_the_instance_whose_alternative_promotion_matches() {
    let mut x = snap("a.X");
    x.alt_promote_fullname = Some("a.Y".to_string());
    let r = resolver(vec![snap("builtins.object"), x, snap("a.Y")]);
    let out = meet_types(&instance("a.Y"), &instance("a.X"), &ctx(true), &r);
    assert_eq!(out, Some(instance("a.X")));
    let back = meet_types(&instance("a.X"), &instance("a.Y"), &ctx(true), &r);
    assert_eq!(back, Some(instance("a.X")));
}

#[test]
fn join_of_generic_instances_of_one_class() {
    let r = generic_hierarchy();
    let la = generic("builtins.list", vec![instance("a.A")]);
    let lb = generic("builtins.list", vec![instance("a.B")]);
    assert_eq!(join_types(&la, &la.clone(), &ctx(true), &r), Some(la.clone()));
    assert_eq!(join_types(&la, &lb, &ctx(true), &r), Some(instance("builtins.object")));
    let empty = generic("builtins.list", vec![Type::UninhabitedType { ambiguous: true }]);
    assert_eq!(join_types(&empty, &la, &ctx(true), &r), Some(la.clone()));
    let sa = generic("typing.Sequence", vec![instance("a.A")]);
    let sb = generic("typing.Sequence", vec![instance("a.B")]);
    assert_eq!(join_types(&sa, &sb, &ctx(true), &r), None);
}

#[test]
fn join_with_an_any_argument_derives_an_any() {
    let r = generic_hierarchy();
    let la = generic("builtins.list", vec![instance("a.A")]);
    let any = any_type();
    let l_any = generic("builtins.list", vec![any.clone()]);
    let derived = Type::AnyType { type_of_any: 7, source_any: Some(Box::new(any)), missing_import_name: None };
    assert_eq!(join_types(&la, &l_any, &ctx(true), &r), Some(generic("builtins.list", vec![derived])));
}

fn literal_of(fallback: &str, value: LiteralValue) -> Type {
    Type::LiteralType { fallback: Box::new(instance(fallback)), value }
}

fn type_var_of(raw_id: i64, bound: Type, values: Vec<Type>) -> Type {
    Type::TypeVarType {
        name: "T".to_string(),
        fullname: "m.T".to_string(),
        raw_id,
        namespace: "m.f".to_string(),
        values,
        upper_bound: Box::new(bound),
        default: Box::new(any_type()),
        variance: 0,
        meta_level: 0,
    }
}

fn literal_hierarchy() -> TypeResolver {
    let mut boolean = snap("builtins.bool");
    boolean.mro.insert(1, "builtins.int".to_string());
    boolean.has_base.insert("builtins.int".to_string());
    let mut meta = snap("a.Meta");
    meta.mro.insert(1, "builtins.type".to_string());
    meta.has_base.insert("builtins.type".to_string());
    let mut with_meta = snap("a.WithMeta");
    with_meta.metaclass_fullname = Some("a.Meta".to_string());
    let mut plain = snap("a.A");
    plain.metaclass_fullname = Some(String::new());
    let mut int = snap("builtins.int");
    int.bases = vec![instance("builtins.object")];
    let mut text = snap("builtins.str");
    text.bases = vec![instance("builtins.object")];
    resolver(vec![
        snap("builtins.object"),
        int,
        text,
        snap("builtins.type"),
        boolean,
        meta,
        with_meta,
        plain,
    ])
}

#[test]
fn a_literal_is_below_its_fallback_and_equal_literals() {
    let r = literal_hierarchy();
    let one = literal_of("builtins.int", LiteralValue::Int(1));
    let two = literal_of("builtins.int", LiteralValue::Int(2));
    assert_eq!(is_subtype(&one, &instance("builtins.int"), &ctx(true), &r), Some(true));
    assert_eq!(is_subtype(&one, &instance("builtins.str"), &ctx(true), &r), Some(false));
    assert_eq!(is_subtype(&one, &one.clone(), &ctx(true), &r), Some(true));
    assert_eq!(is_subtype(&one, &two, &ctx(true), &r), Some(false));
    let truth = literal_of("builtins.bool", LiteralValue::Bool(true));
    assert_eq!(is_subtype(&truth, &instance("builtins.int"), &ctx(true), &r), Some(true));
    let int_one = literal_of("builtins.int", LiteralValue::Int(1));
    assert_eq!(is_subtype(&truth, &int_one, &ctx(true), &r), Some(false));
}

#[test]
fn an_instance_with_a_last_known_value_is_read_as_its_class_or_its_value() {
    let r = literal_hierarchy();
    let one = literal_of("builtins.int", LiteralValue::Int(1));
    let known = Type::Instance {
        type_ref: "builtins.int".to_string(),
        args: Vec::new(),
        last_known_value: Some(Box::new(one.clone())),
        extra_attrs: None,
    };
    assert_eq!(is_subtype(&known, &instance("builtins.int"), &ctx(true), &r), Some(true));
    assert_eq!(is_subtype(&known, &one, &ctx(true), &r), Some(true));
    assert_eq!(is_subtype(&instance("builtins.int"), &known, &ctx(true), &r), Some(true));
}

#[test]
fn a_type_variable_is_below_itself_its_bound_and_its_values() {
    let r = literal_hierarchy();
    let t = type_var_of(1, instance("builtins.int"), Vec::new());
    let u = type_var_of(2, instance("builtins.object"), Vec::new());
    assert_eq!(is_subtype(&t, &t.clone(), &ctx(true), &r), Some(true));
    assert_eq!(is_subtype(&t, &instance("builtins.object"), &ctx(true), &r), Some(true));
    assert_eq!(is_subtype(&t, &instance("builtins.str"), &ctx(true), &r), Some(false));
    assert_eq!(is_subtype(&t, &u, &ctx(true), &r), Some(false));
    let restricted = type_var_of(3, instance("builtins.object"), vec![instance("builtins.int"), instance("builtins.bool")]);
    assert_eq!(is_subtype(&restricted, &instance("builtins.int"), &ctx(true), &r), Some(true));
    let u_or_str = make_union(vec![u.clone(), instance("builtins.str")]);
    assert_eq!(is_subtype(&u, &u_or_str, &ctx(true), &r), Some(true));
    assert_eq!(is_subtype(&Type::NoneType, &t, &ctx(true), &r), Some(false));
    assert_eq!(is_subtype(&uninhabited(), &t, &ctx(true), &r), Some(true));
}

#[test]
fn a_class_object_is_below_type_and_its_metaclass() {
    let r = literal_hierarchy();
    let ty = |name: &str| Type::TypeType { item: Box::new(instance(name)), is_type_form: false };
    assert_eq!(is_subtype(&ty("a.A"), &instance("builtins.type"), &ctx(true), &r), Some(true));
    assert_eq!(is_subtype(&ty("a.A"), &instance("builtins.object"), &ctx(true), &r), Some(true));
    assert_eq!(is_subtype(&ty("a.WithMeta"), &instance("a.Meta"), &ctx(true), &r), Some(true));
    assert_eq!(is_subtype(&ty("a.A"), &instance("a.Meta"), &ctx(true), &r), Some(false));
    assert_eq!(is_subtype(&ty("builtins.bool"), &ty("builtins.int"), &ctx(true), &r), Some(true));
    assert_eq!(is_subtype(&ty("builtins.int"), &ty("builtins.bool"), &ctx(true), &r), Some(false));
}

fn class_type_var(raw_id: i64, namespace: &str) -> Type {
    Type::TypeVarType {
        name: "T".to_string(),
        fullname: format!("{}.T", namespace),
        raw_id,
        namespace: namespace.to_string(),
        values: Vec::new(),
        upper_bound: Box::new(instance("builtins.object")),
        default: Box::new(any_type()),
        variance: 1,
        meta_level: 0,
    }
}

fn inheriting_hierarchy() -> TypeResolver {
    let mut seq = generic_snap("typing.Sequence", &[1]);
    seq.type_var_raw_ids = vec![1];
    let mut list = generic_snap("builtins.list", &[0]);
    list.type_var_raw_ids = vec![1];
    list.mro.insert(1, "typing.Sequence".to_string());
    list.has_base.insert("typing.Sequence".to_string());
    list.bases = vec![generic("typing.Sequence", vec![class_type_var(1, "builtins.list")])];
    let mut ints = snap("a.IntList");
    ints.mro.insert(1, "builtins.list".to_string());
    ints.mro.insert(2, "typing.Sequence".to_string());
    ints.has_base.insert("builtins.list".to_string());
    ints.has_base.insert("typing.Sequence".to_string());
    ints.bases = vec![generic("builtins.list", vec![instance("builtins.int")])];
    let mut b = snap("a.B");
    b.mro.insert(1, "a.A".to_string());
    b.has_base.insert("a.A".to_string());
    resolver(vec![snap("builtins.object"), snap("builtins.int"), snap("a.A"), b, seq, list, ints])
}

#[test]
fn a_generic_superclass_is_reached_through_the_bases() {
    let r = inheriting_hierarchy();
    let args = [instance("a.B")];
    assert_eq!(
        map_instance_to_supertype("builtins.list", &args, "typing.Sequence", &r),
        Some(vec![instance("a.B")])
    );
    assert_eq!(
        map_instance_to_supertype("a.IntList", &[], "typing.Sequence", &r),
        Some(vec![instance("builtins.int")])
    );
    let lb = generic("builtins.list", vec![instance("a.B")]);
    let sa = generic("typing.Sequence", vec![instance("a.A")]);
    assert_eq!(is_subtype(&lb, &sa, &ctx(true), &r), Some(true));
    assert_eq!(is_subtype(&sa, &lb, &ctx(true), &r), Some(false));
    let s_int = generic("typing.Sequence", vec![instance("builtins.int")]);
    assert_eq!(is_subtype(&instance("a.IntList"), &s_int, &ctx(true), &r), Some(true));
    assert_eq!(is_subtype(&instance("a.IntList"), &sa, &ctx(true), &r), Some(false));
}

#[test]
fn simplification_drops_covered_generic_and_literal_items() {
    let r = generic_hierarchy();
    let la = generic("builtins.list", vec![instance("a.A")]);
    let sa = generic("typing.Sequence", vec![instance("a.A")]);
    let sb = generic("typing.Sequence", vec![instance("a.B")]);
    assert_eq!(make_simplified_union(&[la.clone(), la.clone()], &ctx(true), &r), Some(la.clone()));
    assert_eq!(make_simplified_union(&[sb.clone(), sa.clone()], &ctx(true), &r), Some(sa.clone()));
    let l = literal_hierarchy();
    let one = literal_of("builtins.int", LiteralValue::Int(1));
    let two = literal_of("builtins.int", LiteralValue::Int(2));
    let int = instance("builtins.int");
    assert_eq!(make_simplified_union(&[one.clone(), int.clone()], &ctx(true), &l), Some(int.clone()));
    assert_eq!(
        make_simplified_union(&[one.clone(), two.clone()], &ctx(true), &l),
        Some(make_union(vec![one.clone(), two.clone()]))
    );
}

#[test]
fn a_literal_set_that_could_contract_is_not_decided() {
    let l = literal_hierarchy();
    let yes = literal_of("builtins.bool", LiteralValue::Bool(true));
    let no = literal_of("builtins.bool", LiteralValue::Bool(false));
    assert_eq!(make_simplified_union(&[yes, no], &ctx(true), &l), None);
}

#[test]
fn literals_join_through_their_fallbacks() {
    let r = literal_hierarchy();
    let one = literal_of("builtins.int", LiteralValue::Int(1));
    let two = literal_of("builtins.int", LiteralValue::Int(2));
    let text = literal_of("builtins.str", LiteralValue::Str("a".to_string()));
    let int = instance("builtins.int");
    assert_eq!(join_types(&one, &one.clone(), &ctx(true), &r), Some(one.clone()));
    assert_eq!(join_types(&one, &two, &ctx(true), &r), Some(int.clone()));
    assert_eq!(join_types(&one, &text, &ctx(true), &r), Some(instance("builtins.object")));
    assert_eq!(join_types(&int, &one, &ctx(true), &r), Some(int.clone()));
    assert_eq!(join_types(&one, &int, &ctx(true), &r), Some(int.clone()));
}

#[test]
fn literals_meet_in_themselves_or_nothing() {
    let r = literal_hierarchy();
    let one = literal_of("builtins.int", LiteralValue::Int(1));
    let two = literal_of("builtins.int", LiteralValue::Int(2));
    assert_eq!(meet_types(&one, &two, &ctx(true), &r), Some(uninhabited()));
    assert_eq!(meet_types(&instance("builtins.str"), &one, &ctx(true), &r), Some(uninhabited()));
    assert_eq!(meet_types(&instance("builtins.int"), &one, &ctx(true), &r), Some(one.clone()));
    assert_eq!(meet_types(&one, &Type::NoneType, &ctx(true), &r), Some(uninhabited()));
}

#[test]
fn type_variables_join_themselves_and_otherwise_reach_object() {
    let r = literal_hierarchy();
    let t = type_var_of(1, instance("builtins.int"), Vec::new());
    let u = type_var_of(2, instance("builtins.str"), Vec::new());
    let obj = instance("builtins.object");
    assert_eq!(join_types(&t, &t.clone(), &ctx(true), &r), Some(t.clone()));
    assert_eq!(join_types(&t, &u, &ctx(true), &r), Some(obj.clone()));
    assert_eq!(join_types(&t, &instance("builtins.int"), &ctx(true), &r), Some(obj.clone()));
    assert_eq!(join_types(&instance("builtins.int"), &t, &ctx(true), &r), Some(obj.clone()));
}

#[test]
fn a_type_variable_meets_what_it_is_not_related_to_in_nothing() {
    let r = literal_hierarchy();
    let t = type_var_of(1, instance("builtins.int"), Vec::new());
    let u = type_var_of(2, instance("builtins.str"), Vec::new());
    assert_eq!(meet_types(&t, &u, &ctx(true), &r), Some(uninhabited()));
    assert_eq!(meet_types(&t, &instance("builtins.str"), &ctx(true), &r), Some(uninhabited()));
    assert_eq!(meet_types(&t, &instance("builtins.object"), &ctx(true), &r), Some(t.clone()));
    assert_eq!(meet_types(&t, &any_type(), &ctx(true), &r), Some(t.clone()));
}

#[test]
fn overloaded_callables_compare_item_by_item() {
    let r = callable_hierarchy();
    let aa = signature(vec![(instance("a.A"), None)], instance("a.A"));
    let bb = signature(vec![(instance("a.B"), None)], instance("a.B"));
    let ba = signature(vec![(instance("a.B"), None)], instance("a.A"));
    let ab = signature(vec![(instance("a.A"), None)], instance("a.B"));
    let over = Type::Overloaded { items: vec![aa.clone(), bb.clone()] };
    assert_eq!(is_subtype(&over, &ba, &ctx(true), &r), Some(true));
    assert_eq!(is_subtype(&over, &ab, &ctx(true), &r), Some(false));
    let targets = Type::Overloaded { items: vec![ba.clone(), aa.clone()] };
    assert_eq!(is_subtype(&ab, &targets, &ctx(true), &r), Some(true));
    assert_eq!(is_subtype(&bb, &targets, &ctx(true), &r), Some(false));
    assert_eq!(is_subtype(&over, &instance("builtins.object"), &ctx(true), &r), Some(true));
    assert_eq!(is_subtype(&over, &instance("a.A"), &ctx(true), &r), Some(false));
}

#[test]
fn related_instances_of_one_class_meet_argument_by_argument() {
    let r = generic_hierarchy();
    let l_any = generic("builtins.list", vec![any_type()]);
    let la = generic("builtins.list", vec![instance("a.A")]);
    assert_eq!(meet_types(&l_any, &la, &ctx(true), &r), Some(la.clone()));
    assert_eq!(meet_types(&la, &l_any, &ctx(true), &r), Some(la.clone()));
}
