use type_kernel::standalone::call::{ActualArg, ActualArgType, ActualToFormal, ArgKind, CallDispatch, CallableSignature, CorrespondingArgument, FormalArgument, FormalParam, FormalToActual, TypeobjFacts, TypeobjGate, any_unpack_anywhere, argument_by_name, argument_by_position, calibrate_type_obj_return, callable_corresponding_argument, callable_signature, check_callable_call_tail, classify_call, classify_typeobj_gate, formal_arguments, is_type_obj, kw_arg, map_actuals_to_formals, map_actuals_to_formals_with_types, map_formals_to_actuals, map_formals_to_actuals_with_types, normalize_callable, possible_none_type_var_overlap, real_union, synthesize_arg_from_kwarg, synthesize_arg_from_vararg, var_arg};
use type_kernel::wire::{Type};
use type_kernel::typeinfo::{TypeInfoSnapshot, TypeResolver, is_metaclass};

fn any_type() -> Type {
    Type::AnyType {
        type_of_any: 0,
        source_any: None,
        missing_import_name: None,
    }
}

fn instance(fullname: &str) -> Type {
    Type::Instance {
        type_ref: fullname.to_string(),
        args: Vec::new(),
        last_known_value: None,
        extra_attrs: None,
    }
}

fn none_type() -> Type {
    Type::NoneType
}

fn union_of(items: Vec<Type>) -> Type {
    Type::UnionType {
        items,
        uses_pep604_syntax: false,
        can_be_true: true,
        can_be_false: true,
        is_evaluated: true,
        original_str_expr: None,
        original_str_fallback: None,
    }
}

fn type_var() -> Type {
    Type::TypeVarType {
        name: "T".to_string(),
        fullname: "mod.T".to_string(),
        raw_id: 1,
        namespace: "mod".to_string(),
        values: Vec::new(),
        upper_bound: Box::new(any_type()),
        default: Box::new(any_type()),
        variance: 0,
        meta_level: 0,
    }
}

fn tuple_of(items: Vec<Type>) -> Type {
    Type::TupleType {
        partial_fallback: Box::new(instance("builtins.tuple")),
        items,
        implicit: false,
    }
}

fn unpack(typ: Type) -> Type {
    Type::UnpackType {
        typ: Box::new(typ),
        from_star_syntax: false,
    }
}

fn alias() -> Type {
    Type::TypeAliasType {
        args: Vec::new(),
        type_ref: "mod.A".to_string(),
        is_recursive: false,
    }
}

fn typed_dict(keys: &[&str]) -> Type {
    let mut items: Vec<(String, Type)> = Vec::new();
    let mut required: Vec<String> = Vec::new();
    for key in keys {
        items.push(((*key).to_string(), any_type()));
        required.push((*key).to_string());
    }
    Type::TypedDictType {
        fallback: Box::new(instance("builtins.dict")),
        items,
        required_keys: required,
        readonly_keys: Vec::new(),
        is_closed: true,
    }
}

fn callable_shaped(
    fallback: &str,
    unpack_kwargs: bool,
    variables: Vec<Type>,
    ret_type: Type,
    args: Vec<(Type, ArgKind, Option<String>)>,
) -> Type {
    let mut arg_types = Vec::with_capacity(args.len());
    let mut arg_kinds = Vec::with_capacity(args.len());
    let mut arg_names = Vec::with_capacity(args.len());
    for (typ, kind, name) in args {
        arg_types.push(typ);
        arg_kinds.push(kind.as_i64());
        arg_names.push(name);
    }
    Type::CallableType {
        fallback: Box::new(instance(fallback)),
        instance_type: None,
        is_ellipsis_args: false,
        implicit: false,
        is_bound: false,
        from_concatenate: false,
        imprecise_arg_kinds: false,
        unpack_kwargs,
        from_type_type: false,
        arg_types,
        arg_kinds,
        arg_names,
        ret_type: Box::new(ret_type),
        name: None,
        variables,
        type_guard: None,
        type_is: None,
        special_sig: None,
        definition_ref: None,
    }
}

fn callable(args: Vec<(Type, ArgKind, Option<String>)>) -> Type {
    callable_shaped("builtins.function", false, Vec::new(), any_type(), args)
}

fn with_fallback(fallback: &str, ret_type: Type) -> Type {
    callable_shaped(fallback, false, Vec::new(), ret_type, Vec::new())
}

fn type_obj(ret_type: Type) -> Type {
    let mut callee = callable_shaped(
        "builtins.type",
        false,
        Vec::new(),
        ret_type,
        vec![(instance("builtins.str"), ArgKind::Pos, None)],
    );
    if let Type::CallableType { instance_type, .. } = &mut callee {
        *instance_type = Some(Box::new(instance("builtins.type")));
    }
    callee
}

fn resolver_with_metaclass() -> TypeResolver {
    let mut resolver = TypeResolver::new();
    let mut snap = TypeInfoSnapshot::default();
    snap.fullname = "mod.Meta".to_string();
    snap.has_base.insert("builtins.type".to_string());
    resolver.insert("mod.Meta".to_string(), snap);
    resolver
}

fn resolver_with_function() -> TypeResolver {
    let mut resolver = TypeResolver::new();
    let mut snap = TypeInfoSnapshot::default();
    snap.fullname = "builtins.function".to_string();
    resolver.insert("builtins.function".to_string(), snap);
    resolver
}

struct StarTypes(Vec<Option<Type>>);

impl ActualArgType for StarTypes {
    fn actual_arg_type(&self, index: usize) -> Option<&Type> {
        self.0.get(index)?.as_ref()
    }
}

fn positional(count: usize) -> Vec<ActualArg> {
    vec![ActualArg::positional(); count]
}

fn formals(names: &[&str]) -> Vec<FormalParam> {
    names.iter().map(|n| FormalParam::positional(n)).collect()
}

fn star_formal() -> FormalParam {
    FormalParam::new(ArgKind::Star, None)
}

fn star2_formal() -> FormalParam {
    FormalParam::new(ArgKind::Star2, None)
}

fn signature(callee: &Type) -> CallableSignature<'_> {
    callable_signature(callee).expect("the callee is a CallableType in these tests")
}

fn expect_type(typ: Option<Type>) -> Type {
    typ.expect("the operation decides")
}

fn expect_mapped(mapped: Option<FormalToActual>) -> FormalToActual {
    mapped.expect("the mapping decides")
}

fn expect_reverse(mapped: Option<ActualToFormal>) -> ActualToFormal {
    mapped.expect("the reverse mapping decides")
}

fn expect_found(arg: Option<FormalArgument>) -> FormalArgument {
    arg.expect("the lookup finds a parameter")
}

#[test]
fn arg_kind_round_trips_its_tags() {
    let kinds = [
        ArgKind::Pos,
        ArgKind::Opt,
        ArgKind::Star,
        ArgKind::Named,
        ArgKind::Star2,
        ArgKind::NamedOpt,
    ];
    for (tag, kind) in kinds.iter().enumerate() {
        assert_eq!(kind.as_i64(), tag as i64);
        assert_eq!(ArgKind::from_i64(tag as i64), Some(*kind));
    }
    assert_eq!(ArgKind::from_i64(6), None);
}

#[test]
fn arg_kind_predicates_match_mypy() {
    assert!(ArgKind::Pos.is_positional(false));
    assert!(ArgKind::Opt.is_positional(false));
    assert!(ArgKind::Star.is_positional(true));
    assert!(!ArgKind::Star.is_positional(false));
    assert!(ArgKind::Star2.is_named(true));
    assert!(!ArgKind::Star2.is_named(false));
    assert!(ArgKind::Named.is_named(false));
    assert!(ArgKind::Pos.is_required());
    assert!(ArgKind::Named.is_required());
    assert!(ArgKind::Opt.is_optional());
    assert!(ArgKind::NamedOpt.is_optional());
    assert!(!ArgKind::NamedOpt.is_required());
    assert!(ArgKind::Star.is_star());
    assert!(ArgKind::Star2.is_star());
    assert!(!ArgKind::Pos.is_star());
}

#[test]
fn classify_call_covers_the_dispatch_chain() {
    let plain = callable(Vec::new());
    assert_eq!(classify_call(&plain), CallDispatch::PlainCallable);
    let generic = callable_shaped(
        "builtins.function",
        false,
        vec![type_var()],
        any_type(),
        Vec::new(),
    );
    assert_eq!(classify_call(&generic), CallDispatch::GenericCallable);
    let overloaded = Type::Overloaded {
        items: vec![callable(Vec::new())],
    };
    assert_eq!(classify_call(&overloaded), CallDispatch::Overloaded);
    assert_eq!(classify_call(&any_type()), CallDispatch::Any);
    let union = union_of(vec![instance("builtins.int"), none_type()]);
    assert_eq!(classify_call(&union), CallDispatch::Union);
    assert_eq!(classify_call(&instance("mod.C")), CallDispatch::Instance);
    let type_type = Type::TypeType {
        item: Box::new(instance("mod.C")),
        is_type_form: false,
    };
    assert_eq!(classify_call(&type_type), CallDispatch::TypeType);
    assert_eq!(classify_call(&none_type()), CallDispatch::Other);
}

#[test]
fn normalize_callable_expands_unpacked_kwargs() {
    let kwargs = typed_dict(&["a", "b"]);
    let callee = callable_shaped(
        "builtins.function",
        true,
        Vec::new(),
        any_type(),
        vec![(kwargs, ArgKind::Star2, None)],
    );
    let normalized = expect_type(normalize_callable(&callee));
    let sig = signature(&normalized);
    assert_eq!(sig.arg_types.len(), 2);
    assert_eq!(sig.arg_kinds.to_vec(), vec![ArgKind::Named.as_i64(); 2]);
    assert_eq!(sig.arg_names[0].as_deref(), Some("a"));
    assert_eq!(sig.arg_names[1].as_deref(), Some("b"));
    assert!(!sig.unpack_kwargs);
}

#[test]
fn normalize_callable_expands_a_var_arg_tuple() {
    let unpacked = unpack(tuple_of(vec![any_type(), any_type()]));
    let callee = callable(vec![(unpacked, ArgKind::Star, None)]);
    let normalized = expect_type(normalize_callable(&callee));
    let sig = signature(&normalized);
    assert_eq!(sig.arg_types.len(), 2);
    assert_eq!(sig.arg_kinds.to_vec(), vec![ArgKind::Pos.as_i64(); 2]);
}

#[test]
fn normalize_callable_rejects_a_non_callable() {
    assert_eq!(normalize_callable(&instance("builtins.int")), None);
}

#[test]
fn calibrate_type_obj_return_wraps_the_argument() {
    let arg = instance("builtins.str");
    let callee = callable(vec![(arg.clone(), ArgKind::Pos, None)]);
    let out = expect_type(calibrate_type_obj_return(&callee, &arg));
    let Type::CallableType { ret_type, .. } = out else {
        panic!("expected a CallableType");
    };
    assert_eq!(
        *ret_type,
        Type::TypeType {
            item: Box::new(arg),
            is_type_form: false,
        }
    );
}

#[test]
fn calibrate_type_obj_return_distributes_a_union() {
    let arg = union_of(vec![instance("builtins.int"), instance("builtins.str")]);
    let callee = callable(vec![(any_type(), ArgKind::Pos, None)]);
    let out = expect_type(calibrate_type_obj_return(&callee, &arg));
    let Type::CallableType { ret_type, .. } = out else {
        panic!("expected a CallableType");
    };
    assert_eq!(
        *ret_type,
        union_of(vec![
            Type::TypeType {
                item: Box::new(instance("builtins.int")),
                is_type_form: false,
            },
            Type::TypeType {
                item: Box::new(instance("builtins.str")),
                is_type_form: false,
            },
        ])
    );
}

#[test]
fn calibrate_type_obj_return_defers_on_an_alias_argument() {
    let callee = callable(vec![(any_type(), ArgKind::Pos, None)]);
    assert_eq!(calibrate_type_obj_return(&callee, &alias()), None);
}

#[test]
fn calibrate_type_obj_return_rejects_a_non_callable_callee() {
    let callee = instance("builtins.int");
    let arg = instance("builtins.str");
    assert_eq!(calibrate_type_obj_return(&callee, &arg), None);
}

#[test]
fn check_callable_call_tail_calibrates_a_type_object() {
    let callee = type_obj(any_type());
    let args = [instance("builtins.str")];
    let out = expect_type(check_callable_call_tail(&callee, &args));
    let Type::CallableType { ret_type, .. } = out else {
        panic!("expected a CallableType");
    };
    assert_eq!(
        *ret_type,
        Type::TypeType {
            item: Box::new(instance("builtins.str")),
            is_type_form: false,
        }
    );
}

#[test]
fn check_callable_call_tail_defers_for_a_plain_callable() {
    let callee = callable(vec![(any_type(), ArgKind::Pos, None)]);
    let args = [instance("builtins.str")];
    assert_eq!(check_callable_call_tail(&callee, &args), None);
}

#[test]
fn check_callable_call_tail_defers_on_two_arguments() {
    let callee = type_obj(any_type());
    let args = [instance("builtins.str"), instance("builtins.int")];
    assert_eq!(check_callable_call_tail(&callee, &args), None);
}

#[test]
fn is_type_obj_true_for_a_metaclass_fallback() {
    let callee = with_fallback("mod.Meta", instance("builtins.str"));
    let resolver = resolver_with_metaclass();
    assert_eq!(is_type_obj(&callee, &resolver), Some(true));
}

#[test]
fn is_type_obj_false_for_a_plain_function_fallback() {
    let callee = with_fallback("builtins.function", instance("builtins.str"));
    let resolver = resolver_with_function();
    assert_eq!(is_type_obj(&callee, &resolver), Some(false));
}

#[test]
fn is_type_obj_defers_without_the_snapshot() {
    let callee = with_fallback("mod.Meta", instance("builtins.str"));
    let resolver = TypeResolver::new();
    assert_eq!(is_type_obj(&callee, &resolver), None);
}

#[test]
fn classify_typeobj_gate_fires_the_protocol_arm() {
    let facts = TypeobjFacts {
        is_type_obj: true,
        is_protocol: true,
        is_abstract: false,
        from_type_type: false,
        fallback_to_any: false,
    };
    assert_eq!(classify_typeobj_gate(&facts), TypeobjGate::Protocol);
}

#[test]
fn classify_typeobj_gate_fires_the_abstract_arm() {
    let facts = TypeobjFacts {
        is_type_obj: true,
        is_protocol: false,
        is_abstract: true,
        from_type_type: false,
        fallback_to_any: false,
    };
    assert_eq!(classify_typeobj_gate(&facts), TypeobjGate::Abstract);
}

#[test]
fn classify_typeobj_gate_exemptions_pass() {
    let mut facts = TypeobjFacts {
        is_type_obj: true,
        is_protocol: true,
        is_abstract: true,
        from_type_type: true,
        fallback_to_any: false,
    };
    assert_eq!(classify_typeobj_gate(&facts), TypeobjGate::Pass);
    facts.from_type_type = false;
    facts.fallback_to_any = true;
    assert_eq!(classify_typeobj_gate(&facts), TypeobjGate::Pass);
    facts.is_type_obj = false;
    facts.fallback_to_any = false;
    assert_eq!(classify_typeobj_gate(&facts), TypeobjGate::Pass);
}

#[test]
fn callable_signature_reads_a_callable() {
    let callee = callable(vec![(instance("builtins.int"), ArgKind::Pos, None)]);
    let sig = signature(&callee);
    assert_eq!(sig.arg_types.len(), 1);
    assert_eq!(sig.arg_kind(0), Some(ArgKind::Pos));
    assert_eq!(sig.arg_kind(1), None);
    assert!(!sig.is_ellipsis_args);
    assert!(!sig.unpack_kwargs);
    assert_eq!(sig.type_guard, None);
}

#[test]
fn callable_signature_rejects_an_instance() {
    assert!(callable_signature(&instance("mod.C")).is_none());
}

#[test]
fn callable_signature_types_the_formal_params() {
    let callee = callable(vec![
        (
            instance("builtins.int"),
            ArgKind::Pos,
            Some("a".to_string()),
        ),
        (any_type(), ArgKind::Star2, None),
    ]);
    let sig = signature(&callee);
    let params = sig.formal_params().expect("the kinds are ArgKind tags");
    assert_eq!(params.len(), 2);
    assert_eq!(params[0], FormalParam::positional("a"));
    assert_eq!(params[1].kind, ArgKind::Star2);
    assert_eq!(params[1].name, None);
}

#[test]
fn var_arg_and_kw_arg_find_the_star_formals() {
    let callee = callable(vec![
        (
            instance("builtins.int"),
            ArgKind::Pos,
            Some("a".to_string()),
        ),
        (any_type(), ArgKind::Star, None),
        (any_type(), ArgKind::Star2, None),
    ]);
    let sig = signature(&callee);
    let var = expect_found(var_arg(&sig));
    assert_eq!(var.pos, Some(1));
    assert!(!var.required);
    let kw = expect_found(kw_arg(&sig));
    assert_eq!(kw.pos, Some(2));
}

#[test]
fn var_arg_absent_without_a_star_formal() {
    let callee = callable(vec![(any_type(), ArgKind::Pos, Some("a".to_string()))]);
    let sig = signature(&callee);
    assert_eq!(var_arg(&sig), None);
    assert_eq!(kw_arg(&sig), None);
}

#[test]
fn formal_arguments_skips_star_formals() {
    let callee = callable(vec![
        (
            instance("builtins.int"),
            ArgKind::Pos,
            Some("a".to_string()),
        ),
        (any_type(), ArgKind::Star, None),
        (any_type(), ArgKind::Star2, None),
    ]);
    let sig = signature(&callee);
    let args = formal_arguments(&sig);
    assert_eq!(args.len(), 1);
    assert_eq!(args[0].name.as_deref(), Some("a"));
    assert_eq!(args[0].pos, Some(0));
    assert!(args[0].required);
}

#[test]
fn formal_arguments_end_the_positional_section_at_a_named() {
    let callee = callable(vec![
        (any_type(), ArgKind::Pos, Some("a".to_string())),
        (any_type(), ArgKind::Named, Some("b".to_string())),
        (any_type(), ArgKind::Opt, Some("c".to_string())),
    ]);
    let sig = signature(&callee);
    let args = formal_arguments(&sig);
    assert_eq!(args.len(), 3);
    assert_eq!(args[0].pos, Some(0));
    assert_eq!(args[1].pos, None);
    assert!(args[1].required);
    assert_eq!(args[2].pos, None);
    assert!(!args[2].required);
}

#[test]
fn argument_by_name_matches_a_formal() {
    let callee = callable(vec![(any_type(), ArgKind::Pos, Some("a".to_string()))]);
    let sig = signature(&callee);
    let found = expect_found(argument_by_name(&sig, "a"));
    assert_eq!(found.name.as_deref(), Some("a"));
    assert_eq!(found.pos, Some(0));
    assert!(found.required);
}

#[test]
fn argument_by_name_synthesizes_from_kwargs() {
    let callee = callable(vec![(any_type(), ArgKind::Star2, None)]);
    let sig = signature(&callee);
    let found = expect_found(argument_by_name(&sig, "anything"));
    assert_eq!(found.name.as_deref(), Some("anything"));
    assert_eq!(found.pos, None);
    assert!(!found.required);
}

#[test]
fn argument_by_name_absent_without_kwargs() {
    let callee = callable(vec![(any_type(), ArgKind::Pos, Some("a".to_string()))]);
    let sig = signature(&callee);
    assert_eq!(argument_by_name(&sig, "z"), None);
    assert_eq!(synthesize_arg_from_kwarg(&sig, Some("z".to_string())), None);
}

#[test]
fn argument_by_position_reads_an_in_range_formal() {
    let callee = callable(vec![
        (any_type(), ArgKind::Pos, Some("a".to_string())),
        (any_type(), ArgKind::Named, Some("b".to_string())),
    ]);
    let sig = signature(&callee);
    let found = expect_found(argument_by_position(&sig, 0));
    assert_eq!(found.pos, Some(0));
    assert_eq!(argument_by_position(&sig, 1), None);
}

#[test]
fn argument_by_position_synthesizes_from_vararg() {
    let callee = callable(vec![
        (any_type(), ArgKind::Pos, Some("a".to_string())),
        (any_type(), ArgKind::Star, None),
    ]);
    let sig = signature(&callee);
    let found = expect_found(argument_by_position(&sig, 5));
    assert_eq!(found.pos, Some(5));
    assert_eq!(found.name, None);
    assert!(!found.required);
}

#[test]
fn argument_by_position_absent_without_vararg() {
    let callee = callable(vec![(any_type(), ArgKind::Pos, Some("a".to_string()))]);
    let sig = signature(&callee);
    assert_eq!(argument_by_position(&sig, 5), None);
    assert_eq!(synthesize_arg_from_vararg(&sig, Some(5)), None);
}

#[test]
fn callable_corresponding_argument_finds_by_name() {
    let callee = callable(vec![(any_type(), ArgKind::Pos, Some("a".to_string()))]);
    let sig = signature(&callee);
    let model = FormalArgument {
        name: Some("a".to_string()),
        pos: Some(0),
        typ: any_type(),
        required: true,
    };
    match callable_corresponding_argument(&sig, &model) {
        CorrespondingArgument::Found(found) => {
            assert_eq!(found.name.as_deref(), Some("a"));
            assert_eq!(found.pos, Some(0));
        }
        other => panic!("expected a corresponding argument, got {other:?}"),
    }
}

#[test]
fn callable_corresponding_argument_absent_when_nothing_matches() {
    let callee = callable(vec![(any_type(), ArgKind::Pos, Some("a".to_string()))]);
    let sig = signature(&callee);
    let model = FormalArgument {
        name: Some("z".to_string()),
        pos: None,
        typ: any_type(),
        required: true,
    };
    let found = callable_corresponding_argument(&sig, &model);
    assert_eq!(found, CorrespondingArgument::Absent);
}

#[test]
fn map_actuals_to_formals_binds_positionals() {
    let formal = formals(&["x", "y"]);
    let mapped = expect_mapped(map_actuals_to_formals(&positional(2), &formal));
    assert_eq!(mapped.len(), 2);
    assert_eq!(mapped.as_slices().to_vec(), vec![vec![0i64], vec![1i64]]);
}

#[test]
fn map_actuals_to_formals_drops_an_overflowing_positional() {
    let formal = formals(&["x"]);
    let mapped = expect_mapped(map_actuals_to_formals(&positional(2), &formal));
    assert_eq!(mapped.as_slices().to_vec(), vec![vec![0i64]]);
    let reverse = expect_reverse(map_formals_to_actuals(&positional(2), &formal));
    assert_eq!(reverse.as_slices().to_vec(), vec![vec![0i64], vec![]]);
}

#[test]
fn map_actuals_to_formals_routes_an_unknown_keyword_to_kwargs() {
    let actual = vec![ActualArg::named("z")];
    let formal = vec![FormalParam::positional("x"), star2_formal()];
    let mapped = expect_mapped(map_actuals_to_formals(&actual, &formal));
    assert_eq!(
        mapped.as_slices().to_vec(),
        vec![Vec::<i64>::new(), vec![0]]
    );
}

#[test]
fn map_actuals_to_formals_defers_on_a_star_actual() {
    let actual = vec![ActualArg::star()];
    let formal = formals(&["x"]);
    assert_eq!(map_actuals_to_formals(&actual, &formal), None);
    assert_eq!(map_formals_to_actuals(&actual, &formal), None);
}

#[test]
fn map_actuals_to_formals_with_types_unpacks_a_tuple_star() {
    let actual = vec![ActualArg::star()];
    let types = StarTypes(vec![Some(tuple_of(vec![any_type(), any_type()]))]);
    let formal = formals(&["x", "y", "z"]);
    let mapped = expect_mapped(map_actuals_to_formals_with_types(&actual, &formal, &types));
    assert_eq!(
        mapped.as_slices().to_vec(),
        vec![vec![0i64], vec![0i64], vec![]]
    );
    let reverse = expect_reverse(map_formals_to_actuals_with_types(&actual, &formal, &types));
    assert_eq!(reverse.as_slices().to_vec(), vec![vec![0i64, 1i64]]);
}

#[test]
fn map_actuals_to_formals_with_types_binds_an_iterable_star() {
    let actual = vec![ActualArg::star()];
    let types = StarTypes(vec![Some(instance("builtins.list"))]);
    let formal = vec![FormalParam::positional("x"), star_formal()];
    let mapped = expect_mapped(map_actuals_to_formals_with_types(&actual, &formal, &types));
    assert_eq!(mapped.as_slices().to_vec(), vec![vec![0i64], vec![0i64]]);
}

#[test]
fn map_actuals_to_formals_with_types_fills_ambiguous_kwargs() {
    let actual = vec![ActualArg::star2()];
    let types = StarTypes(vec![Some(instance("builtins.dict"))]);
    let formal = vec![FormalParam::positional("x"), star2_formal()];
    let mapped = expect_mapped(map_actuals_to_formals_with_types(&actual, &formal, &types));
    assert_eq!(mapped.as_slices().to_vec(), vec![vec![0i64], vec![0i64]]);
}

#[test]
fn map_actuals_to_formals_with_types_defers_without_a_star_type() {
    let actual = vec![ActualArg::star()];
    let types = StarTypes(vec![None]);
    let formal = formals(&["x"]);
    let mapped = map_actuals_to_formals_with_types(&actual, &formal, &types);
    assert_eq!(mapped, None);
}

#[test]
fn real_union_counts_relevant_items() {
    let resolver = TypeResolver::new();
    let union = union_of(vec![instance("builtins.int"), none_type()]);
    assert_eq!(real_union(&union, true, &resolver), Some(true));
    assert_eq!(real_union(&union, false, &resolver), Some(false));
    let plain = instance("builtins.int");
    assert_eq!(real_union(&plain, true, &resolver), Some(false));
}

#[test]
fn possible_none_type_var_overlap_needs_both_a_none_and_a_typevar() {
    let resolver = TypeResolver::new();
    let optional = union_of(vec![none_type(), instance("builtins.int")]);
    let none_target = callable(vec![(none_type(), ArgKind::Pos, None)]);
    let tvar_target = callable(vec![(type_var(), ArgKind::Pos, None)]);
    let targets = vec![none_target, tvar_target];
    let args = vec![optional];
    let overlap = possible_none_type_var_overlap(&args, &targets, &resolver);
    assert_eq!(overlap, Some(true));
    let plain = vec![instance("builtins.int")];
    let overlap = possible_none_type_var_overlap(&plain, &targets, &resolver);
    assert_eq!(overlap, Some(false));
}

#[test]
fn possible_none_type_var_overlap_defers_on_a_non_callable_target() {
    let resolver = TypeResolver::new();
    let optional = union_of(vec![none_type(), instance("builtins.int")]);
    let args = vec![optional];
    let targets = vec![instance("builtins.int")];
    let overlap = possible_none_type_var_overlap(&args, &targets, &resolver);
    assert_eq!(overlap, None);
}

#[test]
fn any_unpack_anywhere_detects_an_unpacked_argument() {
    let unpacking = callable(vec![(unpack(any_type()), ArgKind::Pos, None)]);
    assert!(any_unpack_anywhere(&unpacking));
    let plain = callable(vec![(any_type(), ArgKind::Pos, None)]);
    assert!(!any_unpack_anywhere(&plain));
    assert!(!any_unpack_anywhere(&instance("mod.C")));
}
