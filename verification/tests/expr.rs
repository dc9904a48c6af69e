use type_kernel::standalone::expr::{ERR_INVALID_SPECIFIER, ERR_KEY_HAS_BRACE, ERR_NESTING_TOO_DEEP, ERR_UNEXPECTED_CLOSE, ERR_UNMATCHED_OPEN, FormatStringError, OperatorDefiner, OperatorVariantOrder, SpecifierAnalysis, SpecifierAnalysisError, analyze_conversion_specifiers, check_op_reversible_variant_order, find_non_escaped_targets, format_string_error, get_coroutine_return_type, get_generator_receive_type, get_generator_return_type, get_generator_yield_type, is_async_generator_return_type, is_generator_return_type, is_numeric_format_type, is_string_literal, lookup_operator_definer, op_falls_back_to_cmp, op_method_shortcuts, parse_conversion_specifiers, parse_format_value, parse_placeholder_format, reverse_op_method, try_getting_int_literals, try_getting_literal, tuple_context_matches, unknown_format_code};
use type_kernel::wire::{LiteralValue, Type};
use type_kernel::typeinfo::{TypeInfoSnapshot, TypeResolver};
const ANY_SPECIAL_FORM: i64 = 6;
const COVARIANT: i64 = 1;

fn instance(type_ref: &str, args: Vec<Type>) -> Type {
    Type::Instance {
        type_ref: type_ref.to_string(),
        args,
        last_known_value: None,
        extra_attrs: None,
    }
}

fn instance_with_lkv(type_ref: &str, lkv: Type) -> Type {
    Type::Instance {
        type_ref: type_ref.to_string(),
        args: Vec::new(),
        last_known_value: Some(Box::new(lkv)),
        extra_attrs: None,
    }
}

fn special_form_any() -> Type {
    Type::AnyType {
        type_of_any: ANY_SPECIAL_FORM,
        source_any: None,
        missing_import_name: None,
    }
}

fn alias() -> Type {
    Type::TypeAliasType {
        args: Vec::new(),
        type_ref: "mod.A".to_string(),
        is_recursive: false,
    }
}

fn literal(value: LiteralValue, fallback: &str) -> Type {
    Type::LiteralType {
        fallback: Box::new(instance(fallback, Vec::new())),
        value,
    }
}

fn union(items: Vec<Type>) -> Type {
    Type::UnionType {
        items,
        uses_pep604_syntax: false,
        can_be_true: true,
        can_be_false: true,
        is_evaluated: true,
        original_str_expr: None,
        original_str_fallback: None,
    }
}

fn tuple(items: Vec<Type>) -> Type {
    Type::TupleType {
        partial_fallback: Box::new(instance("builtins.tuple", vec![special_form_any()])),
        items,
        implicit: false,
    }
}

fn snap(fullname: &str, name: &str, tvars: usize) -> TypeInfoSnapshot {
    let mut s = TypeInfoSnapshot {
        fullname: fullname.to_string(),
        name: name.to_string(),
        ..Default::default()
    };
    s.mro.push(fullname.to_string());
    s.has_base.insert(fullname.to_string());
    s.type_vars_with_variance = (0..tvars)
        .map(|i| (format!("T{i}"), COVARIANT, 0))
        .collect();
    s
}

fn with_member(mut s: TypeInfoSnapshot, name: &str) -> TypeInfoSnapshot {
    s.member_info.insert(name.to_string(), (false, true));
    s
}

fn resolver(snaps: Vec<TypeInfoSnapshot>) -> TypeResolver {
    let mut r = TypeResolver::new();
    for s in snaps {
        r.insert(s.fullname.clone(), s);
    }
    r
}

fn generator_resolver() -> TypeResolver {
    resolver(vec![
        snap("typing.Generator", "Generator", 3),
        snap("typing.Awaitable", "Awaitable", 1),
        snap("typing.AsyncGenerator", "AsyncGenerator", 2),
        snap("builtins.object", "object", 0),
        snap("builtins.int", "int", 0),
        snap("builtins.str", "str", 0),
        snap("builtins.bool", "bool", 0),
    ])
}

fn concrete_generator() -> Type {
    instance(
        "typing.Generator",
        vec![
            instance("builtins.int", Vec::new()),
            instance("builtins.str", Vec::new()),
            instance("builtins.bool", Vec::new()),
        ],
    )
}

#[test]
fn same_type_shortcut_operands_use_the_forward_variant_alone() {
    let r = resolver(vec![snap("a.A", "A", 0)]);
    let a = instance("a.A", Vec::new());
    assert_eq!(
        check_op_reversible_variant_order("__add__", &a, &a, &r, true),
        Some(OperatorVariantOrder::ShortcutSingle)
    );
}

#[test]
fn unrelated_operands_use_normal_variant_order() {
    let a = with_member(snap("a.A", "A", 0), "__add__");
    let b = snap("a.B", "B", 0);
    let r = resolver(vec![a, b]);
    let left = instance("a.A", Vec::new());
    let right = instance("a.B", Vec::new());
    assert_eq!(
        check_op_reversible_variant_order("__add__", &left, &right, &r, true),
        Some(OperatorVariantOrder::Normal)
    );
}

#[test]
fn an_any_operand_defers_the_variant_order() {
    let r = resolver(vec![snap("a.A", "A", 0)]);
    let a = instance("a.A", Vec::new());
    assert_eq!(
        check_op_reversible_variant_order("__add__", &special_form_any(), &a, &r, true),
        None
    );
}

#[test]
fn the_definer_walks_the_mro_to_the_defining_class() {
    let obj = with_member(snap("builtins.object", "object", 0), "__add__");
    let mut a = snap("a.A", "A", 0);
    a.mro.push("builtins.object".to_string());
    let r = resolver(vec![obj, a]);
    assert_eq!(
        lookup_operator_definer(&r, "a.A", "__add__"),
        Some(OperatorDefiner::Found("builtins.object".to_string()))
    );
}

#[test]
fn a_dunder_no_mro_class_defines_is_absent_not_a_deferral() {
    let r = resolver(vec![snap("a.A", "A", 0)]);
    assert_eq!(
        lookup_operator_definer(&r, "a.A", "__radd__"),
        Some(OperatorDefiner::Absent)
    );
}

#[test]
fn a_missing_snapshot_defers_the_definer_lookup() {
    let r = resolver(Vec::new());
    assert_eq!(lookup_operator_definer(&r, "a.Unknown", "__add__"), None);
}

#[test]
fn the_shortcut_table_holds_forward_dunders_only() {
    assert!(op_method_shortcuts("__add__"));
    assert!(!op_method_shortcuts("__radd__"));
}

#[test]
fn the_cmp_fallback_table_holds_comparison_dunders_only() {
    assert!(op_falls_back_to_cmp("__lt__"));
    assert!(!op_falls_back_to_cmp("__add__"));
}

#[test]
fn reverse_op_method_mirrors_and_reports_a_missing_partner() {
    assert_eq!(reverse_op_method("__add__"), Some("__radd__"));
    assert_eq!(reverse_op_method("__lt__"), Some("__gt__"));
    assert_eq!(reverse_op_method("__index__"), None);
}

#[test]
fn try_getting_literal_unwraps_a_last_known_value() {
    let lkv = literal(LiteralValue::Int(3), "builtins.int");
    let t = instance_with_lkv("builtins.int", lkv.clone());
    assert_eq!(try_getting_literal(&t), Some(lkv));
}

#[test]
fn try_getting_literal_defers_on_an_alias() {
    assert_eq!(try_getting_literal(&alias()), None);
}

#[test]
fn int_literals_collect_every_union_member_in_order() {
    let u = union(vec![
        literal(LiteralValue::Int(1), "builtins.int"),
        literal(LiteralValue::Int(2), "builtins.int"),
    ]);
    assert_eq!(try_getting_int_literals(&u), Some(vec![1, 2]));
}

#[test]
fn a_str_literal_yields_no_int_literals() {
    let s = literal(LiteralValue::Str("x".to_string()), "builtins.str");
    assert_eq!(try_getting_int_literals(&s), None);
}

#[test]
fn only_a_str_literal_is_a_string_literal() {
    let s = literal(LiteralValue::Str("x".to_string()), "builtins.str");
    assert_eq!(is_string_literal(&s), Some(true));
    let i = literal(LiteralValue::Int(1), "builtins.int");
    assert_eq!(is_string_literal(&i), Some(false));
}

#[test]
fn is_string_literal_defers_on_an_alias() {
    assert_eq!(is_string_literal(&alias()), None);
}

#[test]
fn a_fixed_tuple_context_fits_when_the_plain_count_fits() {
    let i = instance("builtins.int", Vec::new());
    let ctx = tuple(vec![i.clone(), i]);
    assert_eq!(tuple_context_matches(&[0, 0], &ctx), Some(true));
    assert_eq!(tuple_context_matches(&[0, 0, 0], &ctx), Some(false));
}

#[test]
fn an_alias_context_defers_the_tuple_match() {
    assert_eq!(tuple_context_matches(&[0], &alias()), None);
}

#[test]
fn a_generator_return_type_is_recognized() {
    let r = generator_resolver();
    let g = concrete_generator();
    assert_eq!(is_generator_return_type(&g, false, true, &r), Some(true));
}

#[test]
fn an_async_generator_return_type_is_recognized() {
    let r = generator_resolver();
    let ag = instance(
        "typing.AsyncGenerator",
        vec![instance("builtins.int", Vec::new()), special_form_any()],
    );
    assert_eq!(is_async_generator_return_type(&ag, true, &r), Some(true));
}

#[test]
fn an_alias_defers_both_generator_classifications() {
    let r = generator_resolver();
    let a = alias();
    assert_eq!(is_generator_return_type(&a, false, true, &r), None);
    assert_eq!(is_async_generator_return_type(&a, true, &r), None);
}

#[test]
fn the_three_generator_parameters_come_out_in_declaration_order() {
    let r = generator_resolver();
    let g = concrete_generator();
    assert_eq!(
        get_generator_yield_type(&g, false, true, &r),
        Some(instance("builtins.int", Vec::new()))
    );
    assert_eq!(
        get_generator_receive_type(&g, false, true, &r),
        Some(instance("builtins.str", Vec::new()))
    );
    assert_eq!(
        get_generator_return_type(&g, false, true, &r),
        Some(instance("builtins.bool", Vec::new()))
    );
}

#[test]
fn an_alias_defers_every_generator_parameter_extraction() {
    let r = generator_resolver();
    let a = alias();
    assert_eq!(get_generator_yield_type(&a, false, true, &r), None);
    assert_eq!(get_generator_receive_type(&a, false, true, &r), None);
    assert_eq!(get_generator_return_type(&a, false, true, &r), None);
}

#[test]
fn the_coroutine_return_type_is_the_third_argument() {
    let c = instance(
        "typing.Coroutine",
        vec![
            special_form_any(),
            special_form_any(),
            instance("builtins.int", Vec::new()),
        ],
    );
    assert_eq!(
        get_coroutine_return_type(&c),
        Some(instance("builtins.int", Vec::new()))
    );
}

#[test]
fn a_coroutine_instance_without_a_third_argument_defers() {
    let c = instance(
        "typing.Coroutine",
        vec![special_form_any(), special_form_any()],
    );
    assert_eq!(get_coroutine_return_type(&c), None);
}

#[test]
fn the_numeric_format_tables_differ_between_the_two_styles() {
    assert!(is_numeric_format_type("d", false));
    assert!(is_numeric_format_type("%", true));
    assert!(!is_numeric_format_type("%", false));
    assert!(!is_numeric_format_type("s", true));
}

#[test]
fn printf_specifiers_keep_the_key_apart_from_the_conversion() {
    let specs = parse_conversion_specifiers("%(name)s");
    assert_eq!(specs.len(), 1);
    assert_eq!(specs[0].whole_seq, "%(name)s");
    assert_eq!(specs[0].start_pos, 0);
    assert_eq!(specs[0].key, Some("name".to_string()));
    assert_eq!(specs[0].conv_type, "s");
}

#[test]
fn a_star_width_stays_a_star_and_a_percent_literal_stays_a_type() {
    let star = parse_conversion_specifiers("%*d");
    assert_eq!(star.len(), 1);
    assert_eq!(star[0].width, "*");
    assert_eq!(star[0].conv_type, "d");
    assert_eq!(star[0].key, None);

    let pct = parse_conversion_specifiers("100%%");
    assert_eq!(pct.len(), 1);
    assert_eq!(pct[0].conv_type, "%");
}

#[test]
fn a_format_string_without_specifiers_parses_to_nothing() {
    assert!(parse_conversion_specifiers("no specifiers here").is_empty());
}

#[test]
fn non_escaped_targets_are_raw_field_text_at_character_offsets() {
    assert_eq!(
        find_non_escaped_targets("{name}"),
        Ok(vec![("name".to_string(), 1)])
    );
    assert_eq!(
        find_non_escaped_targets("ā{}"),
        Ok(vec![(String::new(), 2)])
    );
    assert_eq!(find_non_escaped_targets("{{}}"), Ok(vec![]));
}

#[test]
fn an_unbalanced_brace_is_a_named_error_not_an_empty_field_list() {
    assert_eq!(
        find_non_escaped_targets("}"),
        Err(FormatStringError::UnexpectedCloseBrace)
    );
    assert_eq!(
        find_non_escaped_targets("{"),
        Err(FormatStringError::UnmatchedOpenBrace)
    );
}

#[test]
fn a_new_style_field_decomposes_into_key_conversion_and_spec() {
    let specs = parse_format_value("{name:d}").expect("a builtin field must parse");
    assert_eq!(specs.len(), 1);
    assert_eq!(specs[0].whole_seq, "name:d");
    assert_eq!(specs[0].key, Some("name".to_string()));
    assert_eq!(specs[0].conv_type, "d");
    assert!(!specs[0].non_standard_format_spec);
}

#[test]
fn a_bang_conversion_keeps_its_bang() {
    let specs = parse_format_value("{!r}").expect("a builtin field must parse");
    assert_eq!(specs[0].conversion, Some("!r".to_string()));
}

#[test]
fn a_malformed_template_names_its_error_instead_of_parsing() {
    assert_eq!(
        parse_format_value("}"),
        Err(FormatStringError::UnexpectedCloseBrace)
    );
    assert_eq!(
        parse_format_value("{"),
        Err(FormatStringError::UnmatchedOpenBrace)
    );
}

#[test]
fn every_mypy_format_error_code_maps_to_its_own_variant() {
    assert_eq!(
        format_string_error(ERR_UNEXPECTED_CLOSE),
        Some(FormatStringError::UnexpectedCloseBrace)
    );
    assert_eq!(
        format_string_error(ERR_UNMATCHED_OPEN),
        Some(FormatStringError::UnmatchedOpenBrace)
    );
    assert_eq!(
        format_string_error(ERR_INVALID_SPECIFIER),
        Some(FormatStringError::InvalidSpecifier)
    );
    assert_eq!(
        format_string_error(ERR_KEY_HAS_BRACE),
        Some(FormatStringError::KeyContainsBrace)
    );
    assert_eq!(
        format_string_error(ERR_NESTING_TOO_DEEP),
        Some(FormatStringError::NestingTooDeep)
    );
    assert_eq!(format_string_error(0), None);
    assert_eq!(unknown_format_code(99), FormatStringError::InvalidSpecifier);
}

#[test]
fn a_placeholder_spec_decomposes_into_all_nine_parts() {
    let p = parse_placeholder_format("x<+#012,.3f").expect("a builtin spec must parse");
    assert_eq!(p.fill, Some("x".to_string()));
    assert_eq!(p.align, Some("<".to_string()));
    assert_eq!(p.sign, Some("+".to_string()));
    assert!(p.alternate);
    assert!(p.zero_pad);
    assert_eq!(p.width, "12");
    assert_eq!(p.grouping, Some(",".to_string()));
    assert_eq!(p.precision, ".3");
    assert_eq!(p.conv_type, "f");
}

#[test]
fn a_spec_outside_the_builtin_grammar_is_not_a_builtin_spec() {
    assert_eq!(parse_placeholder_format("d extra"), None);
}

#[test]
fn keyed_specifiers_analyze_as_keyed() {
    let specs = parse_conversion_specifiers("%(a)s %(b)d");
    assert_eq!(
        analyze_conversion_specifiers(&specs),
        Ok(SpecifierAnalysis {
            has_star: false,
            has_key: true,
            all_have_keys: true,
        })
    );
}

#[test]
fn positional_specifiers_analyze_as_unkeyed() {
    let specs = parse_conversion_specifiers("%d %s");
    assert_eq!(
        analyze_conversion_specifiers(&specs),
        Ok(SpecifierAnalysis {
            has_star: false,
            has_key: false,
            all_have_keys: false,
        })
    );
}

#[test]
fn a_star_beside_a_key_is_rejected_as_star_with_key() {
    let specs = parse_conversion_specifiers("%(a)*d");
    assert_eq!(
        analyze_conversion_specifiers(&specs),
        Err(SpecifierAnalysisError::StarWithKey)
    );
}

#[test]
fn mixing_keyed_and_unkeyed_specifiers_is_rejected_as_mixed_keys() {
    let specs = parse_conversion_specifiers("%(a)s %d");
    assert_eq!(
        analyze_conversion_specifiers(&specs),
        Err(SpecifierAnalysisError::MixedKeys)
    );
}
