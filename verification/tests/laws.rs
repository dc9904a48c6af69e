use type_kernel::standalone::call::{map_actuals_to_formals, map_formals_to_actuals, ActualArg, FormalParam};
use type_kernel::standalone::expr::{
    check_op_reversible_variant_order, find_non_escaped_targets, get_coroutine_return_type,
    get_generator_yield_type, parse_conversion_specifiers, parse_format_value, FormatStringError,
    OperatorVariantOrder, FROM_ANOTHER_ANY,
};
use type_kernel::standalone::infer::{solve_constraints_polymorphic, type_eq, Constraint, SUPERTYPE_OF};
use type_kernel::standalone::records::{BaseFact, ClassFacts, RecordError, RecordStore, TypeVarFact};
use type_kernel::typeinfo::{TypeInfoSnapshot, TypeResolver};
use type_kernel::wire::{Type, FROM_ERROR};

fn instance(name: &str) -> Type {
    Type::Instance { type_ref: name.to_string(), args: Vec::new(), last_known_value: None, extra_attrs: None }
}

fn with_bases(fullname: &str, bases: &[&str]) -> ClassFacts {
    let mut facts = ClassFacts::new(fullname);
    for base in bases {
        facts.bases.push(BaseFact::plain(base));
    }
    facts
}

#[test]
fn positional_actuals_bind_in_order_and_extra_ones_drop() {
    let actual = vec![ActualArg::positional(); 3];
    let formal = vec![FormalParam::positional("a"), FormalParam::positional("b")];
    let fwd = map_actuals_to_formals(&actual, &formal).unwrap();
    assert_eq!(fwd.as_slices(), &[vec![0], vec![1]][..]);
    let rev = map_formals_to_actuals(&actual, &formal).unwrap();
    assert_eq!(rev.as_slices(), &[vec![0], vec![1], vec![]][..]);
}

#[test]
fn printf_specifiers_sit_at_their_start_positions() {
    let s = "ā %d and %(key)-5.2f %%";
    let chars: Vec<char> = s.chars().collect();
    let specs = parse_conversion_specifiers(s);
    assert_eq!(specs.len(), 3);
    for spec in &specs {
        let n = spec.whole_seq.chars().count();
        let text: String = chars[spec.start_pos..spec.start_pos + n].iter().collect();
        assert_eq!(text, spec.whole_seq);
        assert!(spec.whole_seq.starts_with('%'));
    }
    assert_eq!(specs[1].key, Some("key".to_string()));
    assert_eq!(specs[1].flags, "-");
    assert_eq!(specs[1].width, "5");
    assert_eq!(specs[1].precision, "2");
    assert_eq!(specs[1].conv_type, "f");
}

#[test]
fn raw_fields_sit_between_their_braces() {
    let s = "x{a}{{y}}{b:{c}}";
    let chars: Vec<char> = s.chars().collect();
    let fields = find_non_escaped_targets(s).unwrap();
    assert_eq!(fields, vec![("a".to_string(), 2), ("b:{c}".to_string(), 10)]);
    for (text, pos) in &fields {
        let n = text.chars().count();
        assert_eq!(chars[pos - 1], '{');
        assert_eq!(chars[pos + n], '}');
        let got: String = chars[*pos..pos + n].iter().collect();
        assert_eq!(&got, text);
    }
}

#[test]
fn nested_fields_follow_their_field_and_three_levels_are_refused() {
    let specs = parse_format_value("{a:{b}}").unwrap();
    assert_eq!(specs.len(), 2);
    assert!(specs[0].non_standard_format_spec);
    assert_eq!(specs[0].format_spec, Some("{b}".to_string()));
    assert_eq!(specs[1].key, Some("b".to_string()));
    assert_eq!(parse_format_value("{a:{b:{c}}}"), Err(FormatStringError::NestingTooDeep));
    assert_eq!(parse_format_value("{a{b}:x}"), Err(FormatStringError::KeyContainsBrace));
    assert_eq!(parse_format_value("{a!}"), Err(FormatStringError::InvalidSpecifier));
}

#[test]
fn a_subclass_defining_the_reflected_dunder_goes_first() {
    let mut r = TypeResolver::new();
    let mut a = TypeInfoSnapshot { fullname: "m.A".to_string(), ..Default::default() };
    a.mro.push("m.A".to_string());
    a.has_base.insert("m.A".to_string());
    a.member_info.insert("__add__".to_string(), (false, true));
    let mut b = TypeInfoSnapshot { fullname: "m.B".to_string(), ..Default::default() };
    b.mro.push("m.B".to_string());
    b.mro.push("m.A".to_string());
    b.has_base.insert("m.B".to_string());
    b.has_base.insert("m.A".to_string());
    b.member_info.insert("__radd__".to_string(), (false, true));
    r.insert("m.A".to_string(), a);
    r.insert("m.B".to_string(), b);
    let got = check_op_reversible_variant_order("__add__", &instance("m.A"), &instance("m.B"), &r, true);
    assert_eq!(got, Some(OperatorVariantOrder::ReverseFirst));
}

#[test]
fn generator_extraction_recovers_with_error_and_derived_anys() {
    let r = TypeResolver::new();
    let mut g = TypeInfoSnapshot { fullname: "typing.Generator".to_string(), ..Default::default() };
    g.mro.push("typing.Generator".to_string());
    g.has_base.insert("typing.Generator".to_string());
    let mut r2 = r;
    r2.insert("typing.Generator".to_string(), g);
    let mut ag = TypeInfoSnapshot { fullname: "typing.AsyncGenerator".to_string(), ..Default::default() };
    ag.mro.push("typing.AsyncGenerator".to_string());
    ag.has_base.insert("typing.AsyncGenerator".to_string());
    r2.insert("typing.AsyncGenerator".to_string(), ag);
    let mut int = TypeInfoSnapshot { fullname: "builtins.int".to_string(), ..Default::default() };
    int.mro.push("builtins.int".to_string());
    r2.insert("builtins.int".to_string(), int);
    let got = get_generator_yield_type(&instance("builtins.int"), false, true, &r2);
    let want = Type::AnyType { type_of_any: FROM_ERROR, source_any: None, missing_import_name: None };
    assert_eq!(got, Some(want));
    let any = Type::AnyType { type_of_any: 2, source_any: None, missing_import_name: Some("m".to_string()) };
    let derived = get_coroutine_return_type(&any).unwrap();
    let want = Type::AnyType { type_of_any: FROM_ANOTHER_ANY, source_any: Some(Box::new(any.clone())), missing_import_name: Some("m".to_string()) };
    assert_eq!(derived, want);
}

#[test]
fn the_mro_is_the_class_then_its_ancestors() {
    let mut store = RecordStore::new();
    store.insert_class(ClassFacts::new("builtins.object")).unwrap();
    store.insert_class(with_bases("m.A", &["builtins.object"])).unwrap();
    store.insert_class(with_bases("m.B", &["m.A"])).unwrap();
    store.insert_class(with_bases("m.C", &["m.A"])).unwrap();
    store.insert_class(with_bases("m.D", &["m.B", "m.C"])).unwrap();
    let mro = store.mro("m.D").unwrap().to_vec();
    assert_eq!(mro, vec!["m.D", "m.B", "m.C", "m.A", "builtins.object"]);
    for name in &mro {
        assert!(store.has_base("m.D", name).unwrap());
    }
}

#[test]
fn every_record_error_renders_its_message() {
    let cases = vec![
        (RecordError::UnknownClass { fullname: "m.C".to_string() }, "no class record was produced for `m.C`"),
        (RecordError::UnknownModule { fullname: "m".to_string() }, "no symbol table was produced for module `m`"),
        (RecordError::UnknownSymbol { module: "m".to_string(), name: "x".to_string() }, "`m` has no visible symbol `x`"),
        (
            RecordError::UnresolvedBase { class: "m.C".to_string(), base: "m.B".to_string() },
            "base `m.B` of `m.C` does not resolve to a record",
        ),
        (
            RecordError::UnresolvedPromotion { class: "m.C".to_string(), name: "x".to_string() },
            "promotion target `x` of `m.C` is not a class",
        ),
        (
            RecordError::CyclicBases { class: "m.A".to_string(), cycle: vec!["m.A".to_string(), "m.B".to_string()] },
            "cycle in the inheritance hierarchy of `m.A`: [\"m.A\", \"m.B\"]",
        ),
        (
            RecordError::DuplicateBase { class: "m.C".to_string(), base: "m.B".to_string() },
            "duplicate base class `m.B` of `m.C`",
        ),
        (RecordError::Unlinearizable { class: "m.Z".to_string() }, "no consistent MRO for `m.Z`"),
        (
            RecordError::Unsupported { subject: "m.C".to_string(), reason: "why".to_string() },
            "cannot produce a record for `m.C`: why",
        ),
    ];
    for (err, want) in cases {
        assert_eq!(err.message(), want);
    }
}

#[test]
fn a_refused_record_leaves_the_store_as_it_was() {
    let mut store = RecordStore::new();
    store.insert_class(ClassFacts::new("builtins.object")).unwrap();
    let before = store.len();
    let err = store.insert_class(with_bases("m.C", &["m.Missing"])).unwrap_err();
    assert_eq!(err, RecordError::UnresolvedBase { class: "m.C".to_string(), base: "m.Missing".to_string() });
    assert_eq!(store.len(), before);
    assert!(store.class("m.C").is_none());
    assert!(store.facts("m.C").is_none());
}

fn type_var(raw_id: i64, bound: Type) -> Type {
    Type::TypeVarType {
        name: "T".to_string(),
        fullname: "m.T".to_string(),
        raw_id,
        namespace: String::new(),
        values: Vec::new(),
        upper_bound: Box::new(bound),
        default: Box::new(instance("builtins.object")),
        variance: 0,
        meta_level: 0,
    }
}

#[test]
fn type_equality_decides_the_same_both_ways() {
    let pairs = [
        (instance("a.A"), instance("a.A")),
        (instance("a.A"), instance("a.B")),
        (type_var(1, instance("a.A")), type_var(1, instance("a.B"))),
        (type_var(1, instance("a.A")), instance("a.A")),
        (Type::NoneType, Type::UninhabitedType { ambiguous: false }),
    ];
    for (a, b) in pairs.iter() {
        assert_eq!(type_eq(a, b), type_eq(b, a));
    }
}

#[test]
fn polymorphic_solutions_pair_with_the_variables() {
    let mut r = TypeResolver::new();
    for name in ["builtins.int", "builtins.object"] {
        let mut s = TypeInfoSnapshot { fullname: name.to_string(), name: name.to_string(), ..Default::default() };
        s.has_base.insert(name.to_string());
        s.has_base.insert("builtins.object".to_string());
        s.mro.push(name.to_string());
        r.insert(name.to_string(), s);
    }
    let vars = [type_var(1, instance("builtins.object")), type_var(2, instance("builtins.object"))];
    let cs = vec![
        Constraint { origin_type_var: vars[0].clone(), op: SUPERTYPE_OF, target: instance("builtins.int"), extra_tvars: Vec::new() },
        Constraint { origin_type_var: vars[1].clone(), op: SUPERTYPE_OF, target: instance("builtins.object"), extra_tvars: Vec::new() },
    ];
    let solved = solve_constraints_polymorphic(&vars, &cs, false, true, &r).unwrap();
    assert_eq!(solved.len(), vars.len());
    assert_eq!(solved, vec![Some(instance("builtins.int")), Some(instance("builtins.object"))]);
}

#[test]
fn inserted_upper_bounds_read_back_in_order() {
    let mut store = RecordStore::new();
    store.insert_class(ClassFacts::new("builtins.object")).unwrap();
    let mut facts = with_bases("m.Holder", &["builtins.object"]);
    let kinds = [(0i64, Some(instance("m.Bound"))), (2, Some(instance("m.Ignored"))), (0, None)];
    for (i, (kind, bound)) in kinds.iter().enumerate() {
        facts.type_vars.push(TypeVarFact {
            name: format!("T{}", i),
            variance: 0,
            kind: *kind,
            raw_id: i as i64 + 1,
            upper_bound: bound.clone(),
            tuple_fallback: None,
        });
    }
    store.insert_class(facts).unwrap();
    let bounds = store.type_var_upper_bounds("m.Holder").unwrap();
    assert_eq!(bounds, vec![Some(instance("m.Bound")), None, None]);
    assert_eq!(
        store.type_var_upper_bounds("m.Never"),
        Err(RecordError::UnknownClass { fullname: "m.Never".to_string() })
    );
}
