use type_kernel::standalone::stmt::{AliasContext, AssignmentBranch, AssignmentLvalue, AssignmentLvalueType, AssignmentSpecial, HandlerTest, InferredTypeFacts, LvalueFacts, LvalueKind, RaiseOutcome, ReturnOutcome, ReturnStmtFacts, RvalueCount, RvalueCountFacts, SimpleAssignment, SimpleAssignmentFacts, UsageRequirement, VarNodeFacts, any_is_proper_subtype_of, check_assignment, check_except_handler_test, check_lvalue, check_return_stmt, check_rvalue_count, check_simple_assignment, get_types_from_except_handler, infer_operator_assignment_method, inplace_method_name, is_unreachable_map, is_valid_inferred_type, lvalue_skip_definition, no_return_expected, type_check_raise, type_requires_usage, with_exit_suppresses};
use type_kernel::wire::{LiteralValue, Type};
use type_kernel::typeinfo::{TypeInfoSnapshot, TypeResolver};
fn instance(type_ref: &str) -> Type {
    Type::Instance {
        type_ref: type_ref.to_string(),
        args: Vec::new(),
        last_known_value: None,
        extra_attrs: None,
    }
}

fn union(items: Vec<Type>) -> Type {
    Type::UnionType {
        items,
        uses_pep604_syntax: false,
        can_be_true: true,
        can_be_false: true,
        is_evaluated: false,
        original_str_expr: None,
        original_str_fallback: None,
    }
}

fn any_type() -> Type {
    Type::AnyType {
        type_of_any: 0,
        source_any: None,
        missing_import_name: None,
    }
}

fn bool_literal(value: bool) -> Type {
    Type::LiteralType {
        fallback: Box::new(instance("builtins.bool")),
        value: LiteralValue::Bool(value),
    }
}

#[test]
fn return_value_against_annotation_needs_the_subtype_tail() {
    let ret = instance("builtins.int");
    let facts = ReturnStmtFacts {
        in_checked_function: true,
        ..ReturnStmtFacts::default()
    };
    let got = instance("builtins.str");
    assert_eq!(
        check_return_stmt(Some(&got), &ret, &facts),
        ReturnOutcome::CheckSubtype
    );
}

#[test]
fn return_value_in_a_none_function_is_rejected() {
    let facts = ReturnStmtFacts {
        declared_none_return: true,
        in_checked_function: true,
        ..ReturnStmtFacts::default()
    };
    let got = instance("builtins.int");
    assert_eq!(
        check_return_stmt(Some(&got), &Type::NoneType, &facts),
        ReturnOutcome::DeclaredNoneFail
    );
}

#[test]
fn return_none_in_a_none_function_is_accepted() {
    let facts = ReturnStmtFacts {
        declared_none_return: true,
        in_checked_function: true,
        ..ReturnStmtFacts::default()
    };
    assert_eq!(
        check_return_stmt(Some(&Type::NoneType), &Type::NoneType, &facts),
        ReturnOutcome::DeclaredNoneOk
    );
}

#[test]
fn empty_return_in_a_checked_value_function_is_rejected() {
    let facts = ReturnStmtFacts {
        in_checked_function: true,
        ..ReturnStmtFacts::default()
    };
    let ret = instance("builtins.int");
    assert_eq!(
        check_return_stmt(None, &ret, &facts),
        ReturnOutcome::EmptyFail
    );
}

#[test]
fn empty_return_in_an_unchecked_function_is_accepted() {
    let facts = ReturnStmtFacts::default();
    let ret = instance("builtins.int");
    assert_eq!(
        check_return_stmt(None, &ret, &facts),
        ReturnOutcome::EmptyOk
    );
}

#[test]
fn returned_any_warns_only_under_warn_return_any() {
    let facts = ReturnStmtFacts {
        warn_return_any: true,
        in_checked_function: true,
        ..ReturnStmtFacts::default()
    };
    let ret = instance("builtins.int");
    assert_eq!(
        check_return_stmt(Some(&any_type()), &ret, &facts),
        ReturnOutcome::WarnReturnAny
    );
    let quiet = ReturnStmtFacts {
        in_checked_function: true,
        ..ReturnStmtFacts::default()
    };
    assert_eq!(
        check_return_stmt(Some(&any_type()), &ret, &quiet),
        ReturnOutcome::AnyReturnOk
    );
}

#[test]
fn async_generator_return_is_rejected() {
    let facts = ReturnStmtFacts {
        is_async_generator: true,
        in_checked_function: true,
        ..ReturnStmtFacts::default()
    };
    let ret = instance("builtins.int");
    let got = instance("builtins.int");
    assert_eq!(
        check_return_stmt(Some(&got), &ret, &facts),
        ReturnOutcome::AsyncGeneratorFail
    );
}

#[test]
fn uninhabited_return_type_forbids_a_value() {
    let never = Type::UninhabitedType { ambiguous: false };
    assert!(no_return_expected(&never, false));
    assert!(!no_return_expected(&never, true));
    let ambiguous = Type::UninhabitedType { ambiguous: true };
    assert!(!no_return_expected(&ambiguous, false));
    assert!(!no_return_expected(&instance("builtins.int"), false));
}

#[test]
fn proper_subtype_of_any_holds_for_any_and_unions_of_any() {
    assert!(any_is_proper_subtype_of(&any_type()));
    let mixed = union(vec![instance("builtins.int"), any_type()]);
    assert!(any_is_proper_subtype_of(&mixed));
    assert!(!any_is_proper_subtype_of(&instance("builtins.int")));
}

#[test]
fn a_new_name_binds_as_a_definition() {
    let facts = LvalueFacts {
        is_definition: true,
        is_name: true,
        node_is_var: true,
        ..LvalueFacts::default()
    };
    assert_eq!(check_lvalue(&facts), LvalueKind::NameDef);
}

#[test]
fn an_existing_name_rebinds_without_a_definition() {
    let facts = LvalueFacts {
        is_name: true,
        node_is_var: true,
        ..LvalueFacts::default()
    };
    assert_eq!(check_lvalue(&facts), LvalueKind::Name);
}

#[test]
fn a_starred_target_routes_to_the_multiple_lvalue_arm() {
    let facts = LvalueFacts {
        is_star: true,
        ..LvalueFacts::default()
    };
    assert_eq!(check_lvalue(&facts), LvalueKind::Star);
}

#[test]
fn redefinition_skips_the_definition_arm() {
    let base = LvalueFacts {
        is_definition: true,
        is_name: true,
        node_is_var: true,
        skip_definition: true,
        ..LvalueFacts::default()
    };
    assert_eq!(check_lvalue(&base), LvalueKind::Name);
}

#[test]
fn skip_definition_needs_every_conjunct() {
    let full = VarNodeFacts {
        is_var: true,
        is_inferred: true,
        has_type: true,
        type_is_partial: false,
        is_index_var: false,
    };
    assert!(lvalue_skip_definition(true, &full));
    assert!(!lvalue_skip_definition(false, &full));
    assert!(!lvalue_skip_definition(
        true,
        &VarNodeFacts {
            type_is_partial: true,
            ..full
        }
    ));
    assert!(!lvalue_skip_definition(
        true,
        &VarNodeFacts {
            is_index_var: true,
            ..full
        }
    ));
    assert!(!lvalue_skip_definition(
        true,
        &VarNodeFacts {
            is_inferred: false,
            ..full
        }
    ));
}

fn name_lvalue(name: &str) -> AssignmentLvalue {
    AssignmentLvalue {
        is_name_expr: true,
        node_truthy: true,
        node_name: Some(name.to_string()),
        ..AssignmentLvalue::default()
    }
}

#[test]
fn an_ordinary_name_assignment_is_a_simple_definition() {
    let lv = name_lvalue("x");
    let ty = AssignmentLvalueType::default();
    let got = check_assignment(&lv, Some(&ty), true, false);
    assert_eq!(got.special, AssignmentSpecial::NoSpecial);
    assert_eq!(got.branch, AssignmentBranch::Simple);
}

#[test]
fn slots_is_special_only_inside_a_class_body() {
    let lv = name_lvalue("__slots__");
    assert_eq!(
        check_assignment(&lv, None, false, true).special,
        AssignmentSpecial::Slots
    );
    assert_eq!(
        check_assignment(&lv, None, false, false).special,
        AssignmentSpecial::NoSpecial
    );
}

#[test]
fn a_member_match_args_assignment_always_fails() {
    let lv = AssignmentLvalue {
        is_member_expr: true,
        lvalue_name: Some("__match_args__".to_string()),
        ..AssignmentLvalue::default()
    };
    assert_eq!(
        check_assignment(&lv, None, false, true).special,
        AssignmentSpecial::MemberMatchArgs
    );
}

#[test]
fn a_missing_lvalue_type_takes_the_no_type_branch() {
    let lv = name_lvalue("x");
    let got = check_assignment(&lv, None, false, false);
    assert_eq!(got.branch, AssignmentBranch::NoType);
}

#[test]
fn a_partial_none_lvalue_type_takes_the_inference_branch() {
    let lv = name_lvalue("x");
    let ty = AssignmentLvalueType { partial_none: true };
    let got = check_assignment(&lv, Some(&ty), false, false);
    assert_eq!(got.branch, AssignmentBranch::PartialNone);
}

#[test]
fn a_kindless_member_routes_to_the_member_branch() {
    let lv = AssignmentLvalue {
        is_member_expr: true,
        member_kind_none: true,
        ..AssignmentLvalue::default()
    };
    let ty = AssignmentLvalueType::default();
    let got = check_assignment(&lv, Some(&ty), false, false);
    assert_eq!(got.branch, AssignmentBranch::Member);
}

#[test]
fn a_declared_target_checks_directly() {
    let facts = SimpleAssignmentFacts::default();
    let declared = instance("builtins.int");
    assert_eq!(
        check_simple_assignment(Some(&declared), &facts),
        Some(SimpleAssignment::Direct)
    );
}

#[test]
fn a_stub_ellipsis_initializer_is_accepted_unchecked() {
    let facts = SimpleAssignmentFacts {
        is_stub: true,
        rvalue_is_ellipsis: true,
        ..SimpleAssignmentFacts::default()
    };
    let declared = instance("builtins.int");
    assert_eq!(
        check_simple_assignment(Some(&declared), &facts),
        Some(SimpleAssignment::StubEllipsis)
    );
}

#[test]
fn a_union_target_with_an_inferred_non_argument_falls_back() {
    let facts = SimpleAssignmentFacts {
        has_inferred: true,
        inferred_is_argument: false,
        ..SimpleAssignmentFacts::default()
    };
    let target = union(vec![instance("builtins.int"), instance("builtins.str")]);
    assert_eq!(
        check_simple_assignment(Some(&target), &facts),
        Some(SimpleAssignment::FallbackNoPreferred)
    );
}

#[test]
fn an_inferred_argument_target_prefers_the_lvalue_type() {
    let facts = SimpleAssignmentFacts {
        has_inferred: true,
        inferred_is_argument: true,
        ..SimpleAssignmentFacts::default()
    };
    let target = union(vec![instance("builtins.int"), instance("builtins.str")]);
    assert_eq!(
        check_simple_assignment(Some(&target), &facts),
        Some(SimpleAssignment::FallbackLvaluePreferred)
    );
}

#[test]
fn a_simple_rvalue_never_enters_the_fallback_arm() {
    let facts = SimpleAssignmentFacts {
        has_inferred: true,
        simple_rvalue: true,
        ..SimpleAssignmentFacts::default()
    };
    let target = union(vec![instance("builtins.int"), instance("builtins.str")]);
    assert_eq!(
        check_simple_assignment(Some(&target), &facts),
        Some(SimpleAssignment::Direct)
    );
}

#[test]
fn matching_arity_passes() {
    let facts = RvalueCountFacts {
        lvalues_len: 2,
        rvalue_count: 2,
        ..RvalueCountFacts::default()
    };
    assert_eq!(check_rvalue_count(&facts), RvalueCount::Pass);
}

#[test]
fn a_plain_count_mismatch_is_rejected() {
    let facts = RvalueCountFacts {
        lvalues_len: 3,
        rvalue_count: 2,
        ..RvalueCountFacts::default()
    };
    assert_eq!(check_rvalue_count(&facts), RvalueCount::WrongCount);
}

#[test]
fn a_starred_target_absorbs_extra_items() {
    let facts = RvalueCountFacts {
        has_star: true,
        star_index: 1,
        lvalues_len: 2,
        rvalue_count: 5,
        ..RvalueCountFacts::default()
    };
    assert_eq!(check_rvalue_count(&facts), RvalueCount::Pass);
}

#[test]
fn a_starred_target_still_needs_one_item_each() {
    let facts = RvalueCountFacts {
        has_star: true,
        star_index: 1,
        lvalues_len: 3,
        rvalue_count: 1,
        ..RvalueCountFacts::default()
    };
    assert_eq!(check_rvalue_count(&facts), RvalueCount::StarTooFewTargets);
}

#[test]
fn an_unpacking_rvalue_requires_a_starred_target() {
    let facts = RvalueCountFacts {
        lvalues_len: 2,
        rvalue_count: 2,
        rvalue_unpack: Some(1),
        ..RvalueCountFacts::default()
    };
    assert_eq!(check_rvalue_count(&facts), RvalueCount::StarRequired);
}

#[test]
fn asymmetric_unpack_prefixes_warn() {
    let facts = RvalueCountFacts {
        has_star: true,
        star_index: 2,
        lvalues_len: 3,
        rvalue_count: 3,
        rvalue_unpack: Some(0),
        ..RvalueCountFacts::default()
    };
    assert_eq!(
        check_rvalue_count(&facts),
        RvalueCount::UnpackAsymmetricWarn
    );
}

#[test]
fn an_inferred_none_needs_final_or_redefinition() {
    let facts = InferredTypeFacts::default();
    let aliases = AliasContext::empty();
    assert_eq!(
        is_valid_inferred_type(&Type::NoneType, &facts, &aliases),
        Some(false)
    );
    let final_facts = InferredTypeFacts {
        is_lvalue_final: true,
        ..InferredTypeFacts::default()
    };
    assert_eq!(
        is_valid_inferred_type(&Type::NoneType, &final_facts, &aliases),
        Some(true)
    );
}

#[test]
fn an_inhabited_instance_is_a_valid_inferred_type() {
    let facts = InferredTypeFacts::default();
    let aliases = AliasContext::empty();
    let got = instance("builtins.int");
    assert_eq!(is_valid_inferred_type(&got, &facts, &aliases), Some(true));
}

#[test]
fn an_uninhabited_inferred_type_is_never_valid() {
    let facts = InferredTypeFacts::default();
    let aliases = AliasContext::empty();
    let never = Type::UninhabitedType { ambiguous: false };
    assert_eq!(
        is_valid_inferred_type(&never, &facts, &aliases),
        Some(false)
    );
}

#[test]
fn an_alias_defers_without_a_snapshot() {
    let facts = InferredTypeFacts::default();
    let aliases = AliasContext::empty();
    let alias = Type::TypeAliasType {
        args: Vec::new(),
        type_ref: "mod.A".to_string(),
        is_recursive: false,
    };
    assert_eq!(is_valid_inferred_type(&alias, &facts, &aliases), None);
}

#[test]
fn an_inplace_capable_target_uses_the_inplace_method() {
    assert_eq!(
        infer_operator_assignment_method(true, true, "__add__"),
        (true, "__iadd__".to_string())
    );
}

#[test]
fn a_target_without_the_inplace_member_falls_back() {
    assert_eq!(
        infer_operator_assignment_method(true, false, "__add__"),
        (false, "__add__".to_string())
    );
    assert_eq!(
        infer_operator_assignment_method(false, false, "__add__"),
        (false, "__add__".to_string())
    );
}

#[test]
fn the_inplace_name_keeps_every_character_after_the_operator() {
    assert_eq!(inplace_method_name("__truediv__"), "__itruediv__");
    assert_eq!(inplace_method_name("__floordiv__"), "__ifloordiv__");
}

#[test]
fn an_exception_instance_raises_plainly() {
    let exc = instance("builtins.ValueError");
    assert_eq!(type_check_raise(&exc, None), RaiseOutcome::Plain);
}

#[test]
fn a_deleted_type_short_circuits_every_other_arm() {
    let deleted = Type::DeletedType { source: None };
    assert_eq!(type_check_raise(&deleted, None), RaiseOutcome::Deleted);
    assert_eq!(
        type_check_raise(&deleted, Some("builtins.NotImplemented")),
        RaiseOutcome::Deleted
    );
}

#[test]
fn raising_not_implemented_is_called_out() {
    let notimpl = instance("builtins._NotImplementedType");
    assert_eq!(
        type_check_raise(&notimpl, None),
        RaiseOutcome::NotImplemented
    );
    let exc = instance("builtins.ValueError");
    assert_eq!(
        type_check_raise(&exc, Some("builtins.NotImplemented")),
        RaiseOutcome::NotImplemented
    );
}

#[test]
fn a_true_literal_exit_suppresses() {
    assert!(with_exit_suppresses(&bool_literal(true), true));
    assert!(with_exit_suppresses(&bool_literal(true), false));
    assert!(!with_exit_suppresses(&bool_literal(false), true));
}

#[test]
fn a_plain_bool_exit_suppresses_only_under_strict_optional() {
    let plain = instance("builtins.bool");
    assert!(with_exit_suppresses(&plain, true));
    assert!(!with_exit_suppresses(&plain, false));
    assert!(!with_exit_suppresses(&instance("builtins.str"), true));
}

#[test]
fn a_single_exception_type_binds_itself() {
    let exc = instance("builtins.ValueError");
    assert_eq!(get_types_from_except_handler(&exc, true), vec![exc]);
}

#[test]
fn a_tuple_handler_binds_every_item() {
    let tup = Type::TupleType {
        partial_fallback: Box::new(instance("builtins.tuple")),
        items: vec![
            instance("builtins.ValueError"),
            instance("builtins.KeyError"),
        ],
        implicit: false,
    };
    assert_eq!(
        get_types_from_except_handler(&tup, true),
        vec![
            instance("builtins.ValueError"),
            instance("builtins.KeyError")
        ]
    );
}

#[test]
fn a_non_strict_optional_union_drops_none() {
    let u = union(vec![instance("builtins.ValueError"), Type::NoneType]);
    assert_eq!(
        get_types_from_except_handler(&u, false),
        vec![instance("builtins.ValueError")]
    );
    assert_eq!(get_types_from_except_handler(&u, true).len(), 2);
}

#[test]
fn a_non_exception_handler_test_is_invalid() {
    let resolver = TypeResolver::new();
    let got = instance("builtins.int");
    assert_eq!(
        check_except_handler_test(&got, &resolver),
        Some(HandlerTest::Invalid)
    );
}

#[test]
fn an_any_handler_test_is_passed_through() {
    let resolver = TypeResolver::new();
    assert_eq!(
        check_except_handler_test(&any_type(), &resolver),
        Some(HandlerTest::Any(any_type()))
    );
}

#[test]
fn an_uninhabited_handler_test_is_skipped() {
    let resolver = TypeResolver::new();
    let never = Type::UninhabitedType { ambiguous: false };
    assert_eq!(
        check_except_handler_test(&never, &resolver),
        Some(HandlerTest::Skip)
    );
}

#[test]
fn a_type_object_handler_yields_its_instance_type() {
    let exc = instance("builtins.ValueError");
    let type_obj = Type::TypeType {
        item: Box::new(exc.clone()),
        is_type_form: false,
    };
    let resolver = TypeResolver::new();
    assert_eq!(
        check_except_handler_test(&type_obj, &resolver),
        Some(HandlerTest::Exception(exc))
    );
}

#[test]
fn an_uninhabited_binder_value_makes_code_unreachable() {
    let never = Type::UninhabitedType { ambiguous: false };
    let values = [instance("builtins.int"), never];
    assert_eq!(is_unreachable_map(&values), Some(true));
}

#[test]
fn inhabited_binder_values_stay_reachable() {
    let values = [instance("builtins.int"), instance("builtins.str")];
    assert_eq!(is_unreachable_map(&values), Some(false));
    assert_eq!(is_unreachable_map(&[]), Some(false));
}

#[test]
fn an_alias_binder_value_defers_the_reachability_question() {
    let alias = Type::TypeAliasType {
        args: Vec::new(),
        type_ref: "mod.A".to_string(),
        is_recursive: false,
    };
    assert_eq!(is_unreachable_map(&[alias]), None);
}

#[test]
fn a_coroutine_return_earns_the_unused_coroutine_note() {
    let resolver = TypeResolver::new();
    let aliases = AliasContext::empty();
    let coro = instance("typing.Coroutine");
    assert_eq!(
        type_requires_usage(&coro, &resolver, &aliases),
        Some(UsageRequirement::UnusedCoroutine)
    );
}

#[test]
fn an_awaitable_return_earns_the_unused_awaitable_note() {
    let mut snap = TypeInfoSnapshot {
        fullname: "mod.Await".to_string(),
        mro: vec!["mod.Await".to_string()],
        ..TypeInfoSnapshot::default()
    };
    snap.member_info
        .insert("__await__".to_string(), (false, true));
    let mut resolver = TypeResolver::new();
    resolver.insert("mod.Await".to_string(), snap);
    let aliases = AliasContext::empty();
    let got = instance("mod.Await");
    assert_eq!(
        type_requires_usage(&got, &resolver, &aliases),
        Some(UsageRequirement::UnusedAwaitable)
    );
}

#[test]
fn a_plain_class_needs_no_usage_note() {
    let snap = TypeInfoSnapshot {
        fullname: "mod.Plain".to_string(),
        mro: vec!["mod.Plain".to_string()],
        ..TypeInfoSnapshot::default()
    };
    let mut resolver = TypeResolver::new();
    resolver.insert("mod.Plain".to_string(), snap);
    let aliases = AliasContext::empty();
    let got = instance("mod.Plain");
    assert_eq!(
        type_requires_usage(&got, &resolver, &aliases),
        Some(UsageRequirement::NoNote)
    );
}

#[test]
fn an_incomplete_mro_defers_the_usage_question() {
    let resolver = TypeResolver::new();
    let aliases = AliasContext::empty();
    let got = instance("builtins.int");
    assert_eq!(type_requires_usage(&got, &resolver, &aliases), None);
}
