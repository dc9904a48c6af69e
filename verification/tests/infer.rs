use type_kernel::standalone::infer::{any_constraints, infer_callable_arguments_constraints, infer_constraints_if_possible, pre_validate_solutions, skip_reverse_union_constraints, solve_constraints_polymorphic, InferIfPossible, type_eq, Constraint, SUBTYPE_OF, SUPERTYPE_OF, infer_constraints, infer_constraints_typevar_template, infer_directed_arg_constraints, is_trivial_bound, is_type_type, neg_op, unwrap_type_type};
use type_kernel::wire::{LiteralValue, Type};
use type_kernel::typeinfo::{TypeInfoSnapshot, TypeResolver};
fn instance(name: &str, args: Vec<Type>) -> Type {
    Type::Instance {
        type_ref: name.to_string(),
        args,
        last_known_value: None,
        extra_attrs: None,
    }
}

fn int_ty() -> Type {
    instance("builtins.int", Vec::new())
}

fn str_ty() -> Type {
    instance("builtins.str", Vec::new())
}

fn object_ty() -> Type {
    instance("builtins.object", Vec::new())
}

fn tvar(raw_id: i64) -> Type {
    Type::TypeVarType {
        name: "T".to_string(),
        fullname: "m.T".to_string(),
        raw_id,
        namespace: String::new(),
        values: Vec::new(),
        upper_bound: Box::new(object_ty()),
        default: Box::new(Type::AnyType {
            type_of_any: 4,
            source_any: None,
            missing_import_name: None,
        }),
        variance: 0,
        meta_level: 0,
    }
}

fn tvar_bound(raw_id: i64, bound: Type) -> Type {
    let mut t = tvar(raw_id);
    if let Type::TypeVarType { upper_bound, .. } = &mut t {
        *upper_bound = Box::new(bound);
    }
    t
}

fn type_type(item: Type) -> Type {
    Type::TypeType {
        item: Box::new(item),
        is_type_form: false,
    }
}

fn union(items: Vec<Type>) -> Type {
    Type::UnionType {
        items,
        uses_pep604_syntax: false,
        can_be_true: true,
        can_be_false: true,
        is_evaluated: true,
        original_str_expr: None,
        original_str_fallback: None,
    }
}

fn constraint(origin: Type, op: i64, target: Type) -> Constraint {
    Constraint {
        origin_type_var: origin,
        op,
        target,
        extra_tvars: Vec::new(),
    }
}

fn callable(arg: Type, ret: Type) -> Type {
    Type::CallableType {
        fallback: Box::new(instance("builtins.function", Vec::new())),
        instance_type: None,
        is_ellipsis_args: false,
        implicit: false,
        is_bound: false,
        from_concatenate: false,
        imprecise_arg_kinds: false,
        unpack_kwargs: false,
        from_type_type: false,
        arg_types: vec![arg],
        arg_kinds: vec![0],
        arg_names: vec![None],
        ret_type: Box::new(ret),
        name: None,
        variables: Vec::new(),
        type_guard: None,
        type_is: None,
        special_sig: None,
        definition_ref: None,
    }
}

fn resolver_with(fullnames: &[&str]) -> TypeResolver {
    let mut r = TypeResolver::new();
    for f in fullnames {
        let mut s = TypeInfoSnapshot {
            fullname: f.to_string(),
            name: f.to_string(),
            ..Default::default()
        };
        s.mro.push(f.to_string());
        s.has_base.insert(f.to_string());
        if *f != "builtins.object" {
            s.mro.push("builtins.object".to_string());
            s.has_base.insert("builtins.object".to_string());
        }
        r.insert(f.to_string(), s);
    }
    r
}

fn primitives() -> TypeResolver {
    resolver_with(&["builtins.int", "builtins.str", "builtins.object"])
}

#[test]
fn infer_constraints_typevar_template_emits_one_constraint() {
    let c = infer_constraints_typevar_template(&tvar(1), &int_ty(), SUBTYPE_OF);
    assert_eq!(c, Some(constraint(tvar(1), SUBTYPE_OF, int_ty())));
}

#[test]
fn infer_constraints_typevar_template_rejects_an_instance() {
    let c = infer_constraints_typevar_template(&int_ty(), &str_ty(), SUBTYPE_OF);
    assert_eq!(c, None);
}

#[test]
fn infer_constraints_full_emits_the_typevar_template_constraint() {
    let r = primitives();
    let cs = infer_constraints(&tvar(1), &int_ty(), SUBTYPE_OF, &r, true);
    assert_eq!(cs, Some(vec![constraint(tvar(1), SUBTYPE_OF, int_ty())]));
}

#[test]
fn infer_constraints_full_honours_the_direction() {
    let r = primitives();
    let cs = infer_constraints(&tvar(1), &int_ty(), SUPERTYPE_OF, &r, true);
    assert_eq!(cs, Some(vec![constraint(tvar(1), SUPERTYPE_OF, int_ty())]));
}

#[test]
fn neg_op_flips_the_direction() {
    assert_eq!(neg_op(SUBTYPE_OF), SUPERTYPE_OF);
    assert_eq!(neg_op(SUPERTYPE_OF), SUBTYPE_OF);
}

#[test]
fn is_type_type_accepts_a_type_and_an_all_type_union() {
    assert!(is_type_type(&type_type(int_ty())));
    assert!(is_type_type(&union(vec![
        type_type(int_ty()),
        type_type(str_ty())
    ])));
    assert!(!is_type_type(&int_ty()));
    assert!(!is_type_type(&union(vec![type_type(int_ty()), str_ty()])));
}

#[test]
fn unwrap_type_type_yields_the_item_and_rejects_a_mixed_union() {
    assert_eq!(unwrap_type_type(&type_type(int_ty())), Some(int_ty()));
    let mixed = union(vec![type_type(int_ty()), str_ty()]);
    assert_eq!(unwrap_type_type(&mixed), None);
}

#[test]
fn is_trivial_bound_accepts_only_object_and_opt_in_tuple() {
    assert_eq!(is_trivial_bound(&object_ty(), false), Some(true));
    assert_eq!(is_trivial_bound(&int_ty(), false), Some(false));
    let tuple = instance("builtins.tuple", vec![object_ty()]);
    assert_eq!(is_trivial_bound(&tuple, false), Some(false));
    assert_eq!(is_trivial_bound(&tuple, true), Some(true));
}

#[test]
fn infer_directed_arg_constraints_inverts_the_direction() {
    let r = primitives();
    let cs = infer_directed_arg_constraints(&tvar(1), &int_ty(), SUBTYPE_OF, &r, true);
    assert_eq!(cs, Some(vec![constraint(tvar(1), SUPERTYPE_OF, int_ty())]));
}

#[test]
fn skip_reverse_union_constraints_drops_the_self_reverse_pair() {
    let c = constraint(tvar(1), SUBTYPE_OF, union(vec![tvar(1), int_ty()]));
    let kept = skip_reverse_union_constraints(&[c]);
    assert_eq!(kept, Some(Vec::new()));
}

#[test]
fn skip_reverse_union_constraints_keeps_a_plain_pair() {
    let c = constraint(tvar(1), SUBTYPE_OF, int_ty());
    assert_eq!(skip_reverse_union_constraints(&[c.clone()]), Some(vec![c]));
}

#[test]
fn any_constraints_passes_a_single_valid_option_through() {
    let r = primitives();
    let c = constraint(tvar(1), SUBTYPE_OF, int_ty());
    let options = vec![Some(vec![c.clone()]), None];
    assert_eq!(any_constraints(options, false, true, &r), Some(vec![c]));
}

#[test]
fn any_constraints_without_a_valid_option_is_empty() {
    let r = primitives();
    let options = vec![None, None];
    assert_eq!(any_constraints(options, false, true, &r), Some(Vec::new()));
}

#[test]
fn solve_constraints_polymorphic_solves_a_single_lower_bound() {
    let r = primitives();
    let cs = vec![constraint(tvar(1), SUPERTYPE_OF, int_ty())];
    let solved = solve_constraints_polymorphic(&[tvar(1)], &cs, false, true, &r);
    assert_eq!(solved, Some(vec![Some(int_ty())]));
}

#[test]
fn solve_constraints_polymorphic_leaves_a_contradicted_var_unsolved() {
    let r = primitives();
    let cs = vec![
        constraint(tvar(1), SUBTYPE_OF, int_ty()),
        constraint(tvar(1), SUPERTYPE_OF, str_ty()),
    ];
    let solved = solve_constraints_polymorphic(&[tvar(1)], &cs, false, true, &r);
    assert_eq!(solved, Some(vec![None]));
}

#[test]
fn pre_validate_solutions_keeps_a_bound_satisfying_solution() {
    let r = primitives();
    let res = vec![Some(int_ty())];
    let validated = pre_validate_solutions(res, &[tvar(1)], &[], &r, true);
    assert_eq!(validated, Some(vec![Some(int_ty())]));
}

#[test]
fn pre_validate_solutions_falls_back_to_the_upper_bound() {
    let r = primitives();
    let tvar_int = tvar_bound(1, int_ty());
    let validated = pre_validate_solutions(vec![Some(str_ty())], &[tvar_int], &[], &r, true);
    assert_eq!(validated, Some(vec![Some(int_ty())]));
}

#[test]
fn infer_constraints_if_possible_reports_an_unsatisfiable_pair() {
    let r = primitives();
    let tvar_int = tvar_bound(1, int_ty());
    let out = infer_constraints_if_possible(&tvar_int, &str_ty(), SUPERTYPE_OF, &r, true);
    assert_eq!(out, Some(InferIfPossible::Unsatisfiable));
}

#[test]
fn infer_constraints_if_possible_infers_a_satisfiable_pair() {
    let r = primitives();
    let tvar_int = tvar_bound(1, int_ty());
    let out = infer_constraints_if_possible(&tvar_int, &int_ty(), SUPERTYPE_OF, &r, true);
    let c = constraint(tvar_int, SUPERTYPE_OF, int_ty());
    let want = InferIfPossible::Constraints(vec![c]);
    assert_eq!(out, Some(want));
}

#[test]
fn infer_callable_arguments_constraints_pairs_the_formals() {
    let r = primitives();
    let template = callable(tvar(1), int_ty());
    let actual = callable(int_ty(), int_ty());
    let cs = infer_callable_arguments_constraints(&template, &actual, SUBTYPE_OF, &r, true);
    assert_eq!(cs, Some(vec![constraint(tvar(1), SUPERTYPE_OF, int_ty())]));
}

#[test]
fn infer_callable_arguments_constraints_rejects_a_non_callable() {
    let r = primitives();
    let cs = infer_callable_arguments_constraints(&int_ty(), &int_ty(), SUBTYPE_OF, &r, true);
    assert_eq!(cs, None);
}

fn tvar_named(raw_id: i64, name: &str) -> Type {
    let mut t = tvar(raw_id);
    if let Type::TypeVarType { name: n, fullname, .. } = &mut t {
        *n = name.to_string();
        *fullname = format!("m.{name}");
    }
    t
}

fn callable_args(args: Vec<Type>, names: Vec<Option<String>>) -> Type {
    let mut c = callable(int_ty(), int_ty());
    if let Type::CallableType { arg_types, arg_kinds, arg_names, .. } = &mut c {
        *arg_kinds = vec![0; args.len()];
        *arg_types = args;
        *arg_names = names;
    }
    c
}

#[test]
fn type_eq_follows_the_equality_of_types() {
    assert_eq!(type_eq(&int_ty(), &int_ty()), Some(true));
    assert_eq!(type_eq(&int_ty(), &str_ty()), Some(false));
    assert_eq!(type_eq(&int_ty(), &tvar(1)), Some(false));
    assert_eq!(type_eq(&tvar(1), &tvar_named(1, "U")), Some(true));
    assert_eq!(type_eq(&tvar(1), &tvar(2)), Some(false));
    assert_eq!(type_eq(&tvar(1), &tvar_bound(1, int_ty())), Some(false));
    let list_int = instance("builtins.list", vec![int_ty()]);
    let list_str = instance("builtins.list", vec![str_ty()]);
    assert_eq!(type_eq(&list_int, &list_str), Some(false));
    assert_eq!(type_eq(&union(vec![int_ty()]), &union(vec![int_ty()])), None);
    let one = Type::LiteralType { fallback: Box::new(int_ty()), value: LiteralValue::Int(1) };
    let yes = Type::LiteralType { fallback: Box::new(int_ty()), value: LiteralValue::Bool(true) };
    assert_eq!(type_eq(&one, &yes), Some(true));
}

#[test]
fn skip_reverse_union_constraints_drops_the_pair_an_item_stands_for() {
    let t = tvar_named(1, "T");
    let u = tvar_named(2, "U");
    let c0 = constraint(t.clone(), SUPERTYPE_OF, union(vec![u.clone(), int_ty()]));
    let c1 = constraint(u.clone(), SUBTYPE_OF, t.clone());
    let c2 = constraint(t.clone(), SUPERTYPE_OF, u.clone());
    let c3 = constraint(t.clone(), SUBTYPE_OF, int_ty());
    let kept = skip_reverse_union_constraints(&[c0.clone(), c1, c2, c3.clone()]);
    assert_eq!(kept, Some(vec![c0, c3]));
}

#[test]
fn skip_reverse_union_constraints_declines_on_an_alias_target() {
    let alias = Type::TypeAliasType { args: Vec::new(), type_ref: "m.A".to_string(), is_recursive: false };
    let c = constraint(tvar(1), SUBTYPE_OF, alias);
    assert_eq!(skip_reverse_union_constraints(&[c]), None);
}

#[test]
fn any_constraints_eagerly_skips_empty_options_and_declines_on_several() {
    let r = primitives();
    let c = constraint(tvar(1), SUBTYPE_OF, int_ty());
    let options = vec![Some(Vec::new()), Some(vec![c.clone()])];
    assert_eq!(any_constraints(options, true, true, &r), Some(vec![c.clone()]));
    let options = vec![Some(Vec::new()), Some(vec![c.clone()])];
    assert_eq!(any_constraints(options, false, true, &r), None);
}

#[test]
fn solve_constraints_polymorphic_without_constraints_gives_ambiguous_never() {
    let r = primitives();
    let never = Type::UninhabitedType { ambiguous: true };
    let solved = solve_constraints_polymorphic(&[tvar(1), tvar(2)], &[], false, true, &r);
    assert_eq!(solved, Some(vec![Some(never.clone()), Some(never)]));
    assert_eq!(solve_constraints_polymorphic(&[], &[], false, true, &r), Some(Vec::new()));
}

#[test]
fn solve_constraints_polymorphic_derives_any_and_drops_an_ambiguous_upper_bound() {
    let r = primitives();
    let any = Type::AnyType { type_of_any: 2, source_any: None, missing_import_name: None };
    let cs = vec![constraint(tvar(1), SUPERTYPE_OF, any.clone())];
    let solved = solve_constraints_polymorphic(&[tvar(1)], &cs, false, true, &r);
    let derived = Type::AnyType { type_of_any: 7, source_any: Some(Box::new(any)), missing_import_name: None };
    assert_eq!(solved, Some(vec![Some(derived)]));
    let never = Type::UninhabitedType { ambiguous: true };
    let cs = vec![constraint(tvar(1), SUBTYPE_OF, never.clone())];
    let solved = solve_constraints_polymorphic(&[tvar(1)], &cs, false, true, &r);
    assert_eq!(solved, Some(vec![Some(never)]));
}

#[test]
fn solve_constraints_polymorphic_declines_beyond_one_bound_per_direction() {
    let r = primitives();
    let cs = vec![constraint(tvar(1), SUPERTYPE_OF, int_ty()), constraint(tvar(1), SUPERTYPE_OF, str_ty())];
    assert_eq!(solve_constraints_polymorphic(&[tvar(1)], &cs, false, true, &r), None);
    let cs = vec![constraint(tvar(1), SUPERTYPE_OF, int_ty())];
    assert_eq!(solve_constraints_polymorphic(&[tvar(1), tvar(2)], &cs, false, true, &r), None);
}

#[test]
fn pre_validate_solutions_pairs_as_far_as_both_lists_go() {
    let r = primitives();
    let validated = pre_validate_solutions(vec![Some(int_ty()), None, Some(str_ty())], &[tvar(1), tvar(2)], &[], &r, true);
    assert_eq!(validated, Some(vec![Some(int_ty()), None]));
}

#[test]
fn pre_validate_solutions_keeps_the_solution_when_the_bound_breaks_a_constraint() {
    let r = primitives();
    let tvar_int = tvar_bound(1, int_ty());
    let cs = vec![constraint(tvar_int.clone(), SUPERTYPE_OF, str_ty())];
    let validated = pre_validate_solutions(vec![Some(str_ty())], &[tvar_int], &cs, &r, true);
    assert_eq!(validated, Some(vec![Some(str_ty())]));
}

#[test]
fn infer_callable_arguments_constraints_swaps_sides_and_declines_on_names() {
    let r = primitives();
    let template = callable_args(vec![tvar(1), tvar(2)], vec![None, None]);
    let actual = callable_args(vec![int_ty()], vec![None]);
    let cs = infer_callable_arguments_constraints(&template, &actual, SUPERTYPE_OF, &r, true);
    assert_eq!(cs, Some(vec![constraint(tvar(1), SUBTYPE_OF, int_ty())]));
    let named = callable_args(vec![int_ty()], vec![Some("x".to_string())]);
    assert_eq!(infer_callable_arguments_constraints(&template, &named, SUBTYPE_OF, &r, true), None);
}

#[test]
fn infer_constraints_gives_none_for_a_bare_instance_template() {
    let r = primitives();
    assert_eq!(infer_constraints(&int_ty(), &str_ty(), SUBTYPE_OF, &r, true), Some(Vec::new()));
    let out = infer_constraints_if_possible(&int_ty(), &str_ty(), SUBTYPE_OF, &r, true);
    assert_eq!(out, Some(InferIfPossible::Unsatisfiable));
    let out = infer_constraints_if_possible(&object_ty(), &str_ty(), SUPERTYPE_OF, &r, true);
    assert_eq!(out, Some(InferIfPossible::Constraints(Vec::new())));
}

#[test]
fn infer_constraints_simplifies_a_union_actual_first() {
    let r = primitives();
    let redundant = union(vec![int_ty(), object_ty()]);
    let cs = infer_constraints(&tvar(1), &redundant, SUBTYPE_OF, &r, true);
    assert_eq!(cs, Some(vec![constraint(tvar(1), SUBTYPE_OF, object_ty())]));
    let optional = union(vec![int_ty(), Type::NoneType]);
    let cs = infer_constraints(&tvar(1), &optional, SUPERTYPE_OF, &r, true);
    let expected = Type::UnionType {
        items: vec![int_ty(), Type::NoneType],
        uses_pep604_syntax: false,
        can_be_true: true,
        can_be_false: true,
        is_evaluated: true,
        original_str_expr: None,
        original_str_fallback: None,
    };
    assert_eq!(cs, Some(vec![constraint(tvar(1), SUPERTYPE_OF, expected)]));
}

#[test]
fn any_constraints_keeps_the_first_of_several_identical_options() {
    let r = primitives();
    let c = constraint(tvar(1), SUBTYPE_OF, int_ty());
    let any = Type::AnyType { type_of_any: 2, source_any: None, missing_import_name: None };
    let up = constraint(tvar(1), SUBTYPE_OF, any.clone());
    let down = constraint(tvar(1), SUPERTYPE_OF, any);
    let options = vec![Some(vec![c.clone(), up.clone()]), None, Some(vec![down, c.clone()])];
    assert_eq!(any_constraints(options, false, true, &r), Some(vec![c.clone(), up]));
    let other = constraint(tvar(1), SUBTYPE_OF, str_ty());
    let options = vec![Some(vec![c]), Some(vec![other])];
    assert_eq!(any_constraints(options, false, true, &r), None);
}

fn generic_resolver() -> TypeResolver {
    let mut r = primitives();
    for (name, variance) in [("builtins.list", 0i64), ("typing.Sequence", 1), ("m.Sink", 2)] {
        let mut s = TypeInfoSnapshot {
            fullname: name.to_string(),
            name: name.to_string(),
            ..Default::default()
        };
        s.mro.push(name.to_string());
        s.has_base.insert(name.to_string());
        s.mro.push("builtins.object".to_string());
        s.has_base.insert("builtins.object".to_string());
        s.type_vars.push("T".to_string());
        s.type_vars_with_variance.push(("T".to_string(), variance, 0));
        r.insert(name.to_string(), s);
    }
    r
}

#[test]
fn an_invariant_argument_constrains_both_ways() {
    let r = generic_resolver();
    let template = instance("builtins.list", vec![tvar(1)]);
    let actual = instance("builtins.list", vec![int_ty()]);
    let cs = infer_constraints(&template, &actual, SUPERTYPE_OF, &r, true);
    assert_eq!(
        cs,
        Some(vec![constraint(tvar(1), SUPERTYPE_OF, int_ty()), constraint(tvar(1), SUBTYPE_OF, int_ty())])
    );
    let down = infer_constraints(&template, &actual, SUBTYPE_OF, &r, true);
    assert_eq!(
        down,
        Some(vec![constraint(tvar(1), SUBTYPE_OF, int_ty()), constraint(tvar(1), SUPERTYPE_OF, int_ty())])
    );
}

#[test]
fn a_covariant_argument_constrains_in_the_direction() {
    let r = generic_resolver();
    let template = instance("typing.Sequence", vec![tvar(1)]);
    let actual = instance("typing.Sequence", vec![int_ty()]);
    let cs = infer_constraints(&template, &actual, SUPERTYPE_OF, &r, true);
    assert_eq!(cs, Some(vec![constraint(tvar(1), SUPERTYPE_OF, int_ty())]));
}

#[test]
fn a_contravariant_argument_constrains_the_other_way() {
    let r = generic_resolver();
    let template = instance("m.Sink", vec![tvar(1)]);
    let actual = instance("m.Sink", vec![int_ty()]);
    let cs = infer_constraints(&template, &actual, SUPERTYPE_OF, &r, true);
    assert_eq!(cs, Some(vec![constraint(tvar(1), SUBTYPE_OF, int_ty())]));
}

#[test]
fn nested_generic_templates_are_inferred_recursively() {
    let r = generic_resolver();
    let template = instance("typing.Sequence", vec![instance("typing.Sequence", vec![tvar(1)])]);
    let actual = instance("typing.Sequence", vec![instance("typing.Sequence", vec![str_ty()])]);
    let cs = infer_constraints(&template, &actual, SUPERTYPE_OF, &r, true);
    assert_eq!(cs, Some(vec![constraint(tvar(1), SUPERTYPE_OF, str_ty())]));
}

#[test]
fn a_generic_template_without_type_variables_gives_nothing() {
    let r = generic_resolver();
    let template = instance("builtins.list", vec![int_ty()]);
    let actual = instance("builtins.list", vec![str_ty()]);
    assert_eq!(infer_constraints(&template, &actual, SUPERTYPE_OF, &r, true), Some(Vec::new()));
}

#[test]
fn an_unrelated_generic_actual_gives_nothing() {
    let r = generic_resolver();
    let template = instance("builtins.list", vec![tvar(1)]);
    let actual = instance("m.Sink", vec![int_ty()]);
    assert_eq!(infer_constraints(&template, &actual, SUPERTYPE_OF, &r, true), Some(Vec::new()));
    let missing = instance("m.Missing", vec![int_ty()]);
    assert_eq!(infer_constraints(&template, &missing, SUPERTYPE_OF, &r, true), None);
}

#[test]
fn a_generic_template_against_any_infers_each_argument_against_it() {
    let r = generic_resolver();
    let any = Type::AnyType { type_of_any: 2, source_any: None, missing_import_name: None };
    let template = instance("builtins.list", vec![tvar(1)]);
    let cs = infer_constraints(&template, &any, SUPERTYPE_OF, &r, true);
    assert_eq!(cs, Some(vec![constraint(tvar(1), SUPERTYPE_OF, any.clone())]));
}

#[test]
fn a_literal_actual_is_read_through_its_fallback() {
    let r = generic_resolver();
    let template = instance("typing.Sequence", vec![tvar(1)]);
    let lit = Type::LiteralType {
        fallback: Box::new(instance("typing.Sequence", vec![int_ty()])),
        value: LiteralValue::Int(1),
    };
    let cs = infer_constraints(&template, &lit, SUPERTYPE_OF, &r, true);
    assert_eq!(cs, Some(vec![constraint(tvar(1), SUPERTYPE_OF, int_ty())]));
}

#[test]
fn a_union_actual_is_simplified_then_read_item_by_item() {
    let r = generic_resolver();
    let template = instance("builtins.list", vec![tvar(1)]);
    let actual = union(vec![int_ty(), str_ty(), int_ty()]);
    assert_eq!(infer_constraints(&template, &actual, SUPERTYPE_OF, &r, true), Some(Vec::new()));
    assert_eq!(infer_constraints(&template, &actual, SUBTYPE_OF, &r, true), None);
    let single = union(vec![instance("builtins.list", vec![int_ty()])]);
    assert_eq!(
        infer_constraints(&template, &single, SUPERTYPE_OF, &r, true),
        Some(vec![constraint(tvar(1), SUPERTYPE_OF, int_ty()), constraint(tvar(1), SUBTYPE_OF, int_ty())])
    );
}

#[test]
fn a_subclass_actual_is_mapped_to_the_template_class() {
    let mut r = generic_resolver();
    let mut seq = TypeInfoSnapshot {
        fullname: "typing.Sequence".to_string(),
        name: "Sequence".to_string(),
        ..Default::default()
    };
    seq.mro = vec!["typing.Sequence".to_string(), "builtins.object".to_string()];
    seq.has_base.insert("typing.Sequence".to_string());
    seq.has_base.insert("builtins.object".to_string());
    seq.type_vars.push("T".to_string());
    seq.type_vars_with_variance.push(("T".to_string(), 1, 0));
    seq.type_var_raw_ids.push(1);
    let mut list = TypeInfoSnapshot {
        fullname: "builtins.list".to_string(),
        name: "list".to_string(),
        ..Default::default()
    };
    list.mro = vec!["builtins.list".to_string(), "typing.Sequence".to_string(), "builtins.object".to_string()];
    for n in ["builtins.list", "typing.Sequence", "builtins.object"] {
        list.has_base.insert(n.to_string());
    }
    list.type_vars.push("T".to_string());
    list.type_vars_with_variance.push(("T".to_string(), 0, 0));
    list.type_var_raw_ids.push(1);
    let mut own = tvar(1);
    if let Type::TypeVarType { namespace, .. } = &mut own {
        *namespace = "builtins.list".to_string();
    }
    list.bases.push(instance("typing.Sequence", vec![own]));
    r.insert("typing.Sequence".to_string(), seq);
    r.insert("builtins.list".to_string(), list);
    let template = instance("typing.Sequence", vec![tvar(7)]);
    let actual = instance("builtins.list", vec![int_ty()]);
    let cs = infer_constraints(&template, &actual, SUPERTYPE_OF, &r, true);
    assert_eq!(cs, Some(vec![constraint(tvar(7), SUPERTYPE_OF, int_ty())]));
}

#[test]
fn a_union_template_below_an_actual_joins_its_items_constraints() {
    let r = primitives();
    let template = union(vec![tvar(1), Type::NoneType]);
    let cs = infer_constraints(&template, &int_ty(), SUBTYPE_OF, &r, true);
    assert_eq!(cs, Some(vec![constraint(tvar(1), SUBTYPE_OF, int_ty())]));
    assert_eq!(infer_constraints(&template, &int_ty(), SUPERTYPE_OF, &r, true), None);
}

fn tuple_of(items: Vec<Type>) -> Type {
    Type::TupleType { partial_fallback: Box::new(instance("builtins.tuple", Vec::new())), items, implicit: false }
}

#[test]
fn a_tuple_template_is_inferred_item_by_item() {
    let r = primitives();
    let template = tuple_of(vec![tvar(1), int_ty()]);
    let actual = tuple_of(vec![str_ty(), int_ty()]);
    let cs = infer_constraints(&template, &actual, SUPERTYPE_OF, &r, true);
    assert_eq!(cs, Some(vec![constraint(tvar(1), SUPERTYPE_OF, str_ty())]));
    let short = tuple_of(vec![str_ty()]);
    assert_eq!(infer_constraints(&template, &short, SUPERTYPE_OF, &r, true), Some(Vec::new()));
}
