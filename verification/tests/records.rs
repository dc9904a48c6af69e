use type_kernel::standalone::records::{
    instance_type, module_of, promotion_target, qualified, short_name, BaseFact, ClassFacts, MemberFact, MemberKind,
    ModuleFacts, RecordError, RecordStore, SymbolFact, SymbolKind, SymbolScope, TypeVarFact, IS_ABSTRACT,
};
use type_kernel::typeinfo::NameMap;

fn unknown_class(fullname: &str) -> RecordError {
    RecordError::UnknownClass { fullname: fullname.to_string() }
}

fn unknown_module(fullname: &str) -> RecordError {
    RecordError::UnknownModule { fullname: fullname.to_string() }
}

fn unknown_symbol(module: &str, name: &str) -> RecordError {
    RecordError::UnknownSymbol { module: module.to_string(), name: name.to_string() }
}

fn unresolved_base(class: &str, base: &str) -> RecordError {
    RecordError::UnresolvedBase { class: class.to_string(), base: base.to_string() }
}

fn unresolved_promotion(class: &str, name: &str) -> RecordError {
    RecordError::UnresolvedPromotion { class: class.to_string(), name: name.to_string() }
}

fn cyclic_bases(class: &str, base: &str) -> RecordError {
    RecordError::CyclicBases { class: class.to_string(), cycle: vec![class.to_string(), base.to_string()] }
}

fn duplicate_base(class: &str, base: &str) -> RecordError {
    RecordError::DuplicateBase { class: class.to_string(), base: base.to_string() }
}

fn unlinearizable(class: &str) -> RecordError {
    RecordError::Unlinearizable { class: class.to_string() }
}

fn unsupported(subject: &str, reason: &str) -> RecordError {
    RecordError::Unsupported { subject: subject.to_string(), reason: reason.to_string() }
}

fn names(items: &[&str]) -> Vec<String> {
    let mut out = Vec::with_capacity(items.len());
    for item in items {
        out.push((*item).to_string());
    }
    out
}

fn with_bases(fullname: &str, bases: &[&str]) -> ClassFacts {
    let mut facts = ClassFacts::new(fullname);
    for base in bases {
        facts.bases.push(BaseFact::plain(base));
    }
    facts
}

fn root_store() -> RecordStore {
    let mut store = RecordStore::new();
    let object = ClassFacts::new("builtins.object");
    let type_info = with_bases("builtins.type", &["builtins.object"]);
    store.insert_class(object).unwrap();
    store.insert_class(type_info).unwrap();
    store
}

fn protocol_store() -> RecordStore {
    let mut store = root_store();
    let meta = with_bases("abc.ABCMeta", &["builtins.type"]);
    store.insert_class(meta).unwrap();
    let mut protocol = with_bases("typing.Container", &["builtins.object"]);
    protocol.is_protocol = true;
    let member = MemberFact::function().with_abstract_status(IS_ABSTRACT);
    protocol.members.insert("__contains__".to_string(), member);
    let alias = MemberFact::of_kind(MemberKind::TypeAlias);
    protocol.members.insert("Alias".to_string(), alias);
    let nested = MemberFact::of_kind(MemberKind::Other);
    protocol.members.insert("Nested".to_string(), nested);
    let excluded = MemberFact::function();
    protocol.members.insert("__init__".to_string(), excluded);
    store.insert_class(protocol).unwrap();
    store
}

fn builtins_classes(names: &[&str]) -> ModuleFacts {
    let mut module = ModuleFacts {
        fullname: "builtins".to_string(),
        symbols: NameMap::new(),
    };
    for name in names {
        let fact = SymbolFact::class("builtins", name);
        module.symbols.insert((*name).to_string(), fact);
    }
    module
}

fn add_member(facts: &mut ClassFacts, name: &str, member: MemberFact) {
    facts.members.insert(name.to_string(), member);
}

#[test]
fn object_record_has_no_bases_and_a_single_entry_mro() {
    let store = root_store();
    let snapshot = store.class("builtins.object").unwrap();
    assert!(snapshot.bases.is_empty());
    let want = names(&["builtins.object"]);
    assert_eq!(snapshot.mro, want);
    assert_eq!(snapshot.name, "object");
    assert_eq!(snapshot.metaclass_fullname, Some(String::new()));
}

#[test]
fn baseless_class_gets_the_implicit_object_base() {
    let mut store = root_store();
    let facts = ClassFacts::new("mymod.Plain");
    store.insert_class(facts).unwrap();
    let want = names(&["mymod.Plain", "builtins.object"]);
    assert_eq!(store.mro("mymod.Plain").unwrap().to_vec(), want);
    let bases = store.bases("mymod.Plain").unwrap();
    assert_eq!(bases, vec![instance_type("builtins.object", &[])]);
}

#[test]
fn mro_is_c3_over_the_produced_records() {
    let mut store = root_store();
    store.insert_module(builtins_classes(&["float"]));
    let int = with_bases("builtins.int", &["builtins.object"]);
    store.insert_class(int).unwrap();
    let bool_facts = with_bases("builtins.bool", &["builtins.int"]);
    store.insert_class(bool_facts).unwrap();
    let want = names(&["builtins.bool", "builtins.int", "builtins.object"]);
    let got = store.mro("builtins.bool").unwrap().to_vec();
    assert_eq!(got, want);
    assert!(store.has_base("builtins.bool", "builtins.int").unwrap());
    assert!(!store.has_base("builtins.int", "builtins.bool").unwrap());
}

#[test]
fn unlinearizable_hierarchy_is_refused() {
    let mut store = root_store();
    let a = with_bases("mymod.A", &["builtins.object"]);
    let b = with_bases("mymod.B", &["builtins.object"]);
    let x = with_bases("mymod.X", &["mymod.A", "mymod.B"]);
    let y = with_bases("mymod.Y", &["mymod.B", "mymod.A"]);
    let z = with_bases("mymod.Z", &["mymod.X", "mymod.Y"]);
    store.insert_class(a).unwrap();
    store.insert_class(b).unwrap();
    store.insert_class(x).unwrap();
    store.insert_class(y).unwrap();
    let err = store.insert_class(z).unwrap_err();
    assert_eq!(err, unlinearizable("mymod.Z"));
}

#[test]
fn unresolved_base_is_refused_not_guessed() {
    let mut store = root_store();
    let facts = with_bases("mymod.C", &["mymod.Missing"]);
    let err = store.insert_class(facts).unwrap_err();
    assert_eq!(err, unresolved_base("mymod.C", "mymod.Missing"));
    assert!(store.class("mymod.C").is_none());
}

#[test]
fn cyclic_base_list_is_refused_not_looped() {
    let mut store = root_store();
    let a = with_bases("mymod.A", &["builtins.object"]);
    store.insert_class(a).unwrap();
    let b = with_bases("mymod.B", &["mymod.A"]);
    store.insert_class(b).unwrap();
    let again = with_bases("mymod.A", &["mymod.B"]);
    let err = store.insert_class(again).unwrap_err();
    assert_eq!(err, cyclic_bases("mymod.A", "mymod.B"));
    let self_base = with_bases("mymod.Self", &["mymod.Self"]);
    let err = store.insert_class(self_base).unwrap_err();
    assert_eq!(err, unresolved_base("mymod.Self", "mymod.Self"));
}

#[test]
fn duplicate_base_is_refused() {
    let mut store = root_store();
    let facts = with_bases("mymod.C", &["builtins.object", "builtins.object"]);
    let err = store.insert_class(facts).unwrap_err();
    assert_eq!(err, duplicate_base("mymod.C", "builtins.object"));
}

#[test]
fn builtins_type_is_its_own_metaclass() {
    let store = root_store();
    let snapshot = store.class("builtins.type").unwrap();
    let want = Some("builtins.type".to_string());
    assert_eq!(snapshot.metaclass_fullname, want);
}

#[test]
fn declared_metaclass_outside_the_type_hierarchy_wins() {
    let mut store = root_store();
    let meta = with_bases("mymod.Meta", &["builtins.object"]);
    store.insert_class(meta).unwrap();
    let mut facts = with_bases("mymod.C", &["builtins.object"]);
    facts.declared_metaclass = Some("mymod.Meta".to_string());
    store.insert_class(facts).unwrap();
    let snapshot = store.class("mymod.C").unwrap();
    let want = Some("mymod.Meta".to_string());
    assert_eq!(snapshot.metaclass_fullname, want);
}

#[test]
fn protocol_in_the_mro_installs_abcmeta() {
    let mut store = protocol_store();
    let facts = with_bases("mymod.C", &["typing.Container"]);
    store.insert_class(facts).unwrap();
    let snapshot = store.class("mymod.C").unwrap();
    let want = Some("abc.ABCMeta".to_string());
    assert_eq!(snapshot.metaclass_fullname, want);
    let protocol = store.class("typing.Container").unwrap();
    assert_eq!(protocol.metaclass_fullname, want);
}

#[test]
fn protocol_rule_refuses_a_store_without_the_abc_record() {
    let mut store = root_store();
    let mut protocol = with_bases("typing.Container", &["builtins.object"]);
    protocol.is_protocol = true;
    let err = store.insert_class(protocol).unwrap_err();
    assert_eq!(err, unknown_class("abc.ABCMeta"));
}

#[test]
fn enum_metaclass_sets_is_enum() {
    let mut store = root_store();
    let meta = with_bases("enum.EnumMeta", &["builtins.type"]);
    store.insert_class(meta).unwrap();
    let mut facts = with_bases("colors.Color", &["builtins.object"]);
    facts.declared_metaclass = Some("enum.EnumMeta".to_string());
    store.insert_class(facts).unwrap();
    let snapshot = store.class("colors.Color").unwrap();
    assert!(snapshot.is_enum);
}

#[test]
fn generic_enum_is_refused() {
    let mut store = root_store();
    let meta = with_bases("enum.EnumMeta", &["builtins.type"]);
    store.insert_class(meta).unwrap();
    let mut facts = with_bases("colors.Color", &["builtins.object"]);
    facts.declared_metaclass = Some("enum.EnumMeta".to_string());
    facts.type_vars.push(TypeVarFact {
        name: "T".to_string(),
        variance: 0,
        kind: 0,
        raw_id: 1,
        upper_bound: None,
        tuple_fallback: None,
    });
    let err = store.insert_class(facts).unwrap_err();
    let reason = "an enum class cannot be generic (semanal.py:4050)";
    assert_eq!(err, unsupported("colors.Color", reason));
}

#[test]
fn protocol_members_skip_object_auxiliary_and_excluded_names() {
    let mut store = protocol_store();
    let facts = with_bases("mymod.C", &["typing.Container"]);
    store.insert_class(facts).unwrap();
    let snapshot = store.class("mymod.C").unwrap();
    let want = names(&["Nested", "__contains__"]);
    assert_eq!(snapshot.protocol_members, want);
}

#[test]
fn abstract_member_makes_the_class_abstract() {
    let mut store = protocol_store();
    let facts = with_bases("mymod.C", &["typing.Container"]);
    store.insert_class(facts).unwrap();
    assert!(store.class("mymod.C").unwrap().is_abstract);
}

#[test]
fn concrete_member_shadows_the_abstract_one() {
    let mut store = protocol_store();
    let mut facts = with_bases("mymod.C", &["typing.Container"]);
    let concrete = MemberFact::function();
    facts.members.insert("__contains__".to_string(), concrete);
    store.insert_class(facts).unwrap();
    assert!(!store.class("mymod.C").unwrap().is_abstract);
}

#[test]
fn newtype_is_never_abstract() {
    let mut store = protocol_store();
    let mut facts = with_bases("mymod.C", &["typing.Container"]);
    facts.is_newtype = true;
    store.insert_class(facts).unwrap();
    assert!(!store.class("mymod.C").unwrap().is_abstract);
}

#[test]
fn promotion_uses_the_table_and_the_module_symbol_table() {
    let mut store = root_store();
    store.insert_module(builtins_classes(&["float", "complex"]));
    let float = with_bases("builtins.float", &["builtins.object"]);
    store.insert_class(float).unwrap();
    let int = with_bases("builtins.int", &["builtins.object"]);
    store.insert_class(int).unwrap();
    let got = store.promote("builtins.int").unwrap();
    assert_eq!(got, vec![instance_type("builtins.float", &[])]);
    let got = store.promote("builtins.float").unwrap();
    assert_eq!(got, vec![instance_type("builtins.complex", &[])]);
    let got = store.promote("builtins.object").unwrap();
    assert!(got.is_empty());
}

#[test]
fn promotion_table_matches_the_python_source() {
    assert_eq!(promotion_target("builtins.int"), Some("float"));
    assert_eq!(promotion_target("builtins.float"), Some("complex"));
    assert_eq!(promotion_target("builtins.bytearray"), Some("bytes"));
    assert_eq!(promotion_target("builtins.memoryview"), Some("bytes"));
    assert_eq!(promotion_target("builtins.str"), None);
}

#[test]
fn explicit_promote_wins_over_the_table() {
    let mut store = root_store();
    let mut facts = with_bases("builtins.int", &["builtins.object"]);
    facts.promote.push(instance_type("mymod.Wide", &[]));
    store.insert_class(facts).unwrap();
    let got = store.promote("builtins.int").unwrap();
    assert_eq!(got, vec![instance_type("mymod.Wide", &[])]);
}

#[test]
fn promotion_target_must_be_a_class_symbol() {
    let mut store = root_store();
    let mut module = builtins_classes(&["float"]);
    let fact = SymbolFact::of_kind("builtins", "float", SymbolKind::Var);
    module.symbols.insert("float".to_string(), fact);
    store.insert_module(module);
    let facts = with_bases("builtins.int", &["builtins.object"]);
    let err = store.insert_class(facts).unwrap_err();
    assert_eq!(err, unresolved_promotion("builtins.int", "float"));
}

#[test]
fn promotion_needs_the_module_symbol_table() {
    let mut store = root_store();
    let facts = with_bases("builtins.int", &["builtins.object"]);
    let err = store.insert_class(facts).unwrap_err();
    assert_eq!(err, unknown_symbol("builtins", "float"));
}

#[test]
fn member_maps_follow_the_node_kind_rule() {
    let mut store = root_store();
    let mut facts = with_bases("mymod.C", &["builtins.object"]);
    add_member(&mut facts, "method", MemberFact::function());
    add_member(&mut facts, "prop", MemberFact::decorator());
    add_member(&mut facts, "attr", MemberFact::var(true));
    let alias = MemberFact::of_kind(MemberKind::TypeAlias);
    add_member(&mut facts, "alias", alias);
    store.insert_class(facts).unwrap();
    let snapshot = store.class("mymod.C").unwrap();
    assert_eq!(snapshot.member_info.len(), 4);
    assert_eq!(snapshot.member_definers.len(), 3);
    let want = (0, "mymod.C".to_string());
    assert_eq!(*snapshot.member_definers.get("method").unwrap(), want);
    let want = (1, "mymod.C".to_string());
    assert_eq!(*snapshot.member_definers.get("prop").unwrap(), want);
    let want = (2, "mymod.C".to_string());
    assert_eq!(*snapshot.member_definers.get("attr").unwrap(), want);
    assert_eq!(*snapshot.member_info.get("attr").unwrap(), (false, true));
    assert_eq!(*snapshot.member_info.get("alias").unwrap(), (false, false));
    let member = store.member("mymod.C", "alias").unwrap().unwrap();
    assert_eq!(member.kind, MemberKind::TypeAlias);
    assert!(store.member("mymod.C", "missing").unwrap().is_none());
}

#[test]
fn type_var_facts_fill_the_parallel_arrays() {
    let mut store = root_store();
    let mut facts = with_bases("mymod.Box", &["builtins.object"]);
    let bound = instance_type("builtins.object", &[]);
    facts.type_vars.push(TypeVarFact {
        name: "T".to_string(),
        variance: 1,
        kind: 0,
        raw_id: 1,
        upper_bound: Some(bound),
        tuple_fallback: None,
    });
    facts.type_vars.push(TypeVarFact {
        name: "P".to_string(),
        variance: 0,
        kind: 1,
        raw_id: 2,
        upper_bound: None,
        tuple_fallback: None,
    });
    store.insert_class(facts).unwrap();
    let snapshot = store.class("mymod.Box").unwrap();
    assert_eq!(snapshot.type_vars, names(&["T", "P"]));
    assert_eq!(snapshot.type_var_raw_ids, vec![1, 2]);
    let want = vec![("T".to_string(), 1, 0), ("P".to_string(), 0, 1)];
    assert_eq!(snapshot.type_vars_with_variance, want);
    assert!(snapshot.has_param_spec_type);
    assert!(!snapshot.has_type_var_tuple_type);
    assert_eq!(store.variance("mymod.Box", "T").unwrap(), Some(1));
    assert_eq!(store.variance("mymod.Box", "Q").unwrap(), None);
    let object = instance_type("builtins.object", &[]);
    let want = vec![Some(object), None];
    let bounds = store.type_var_upper_bounds("mymod.Box").unwrap();
    assert_eq!(bounds, want);
}

#[test]
fn queries_decode_what_the_snapshot_stores() {
    let mut store = root_store();
    let mut facts = with_bases("mymod.Pair", &["builtins.object"]);
    facts.tuple_type = Some(instance_type("builtins.tuple", &[]));
    facts.type_var_tuple_prefix = Some(1);
    facts.type_var_tuple_suffix = Some(2);
    store.insert_class(facts).unwrap();
    let got = store.bases("mymod.Pair").unwrap();
    assert_eq!(got, vec![instance_type("builtins.object", &[])]);
    let got = store.tuple_type("mymod.Pair").unwrap();
    assert_eq!(got, Some(instance_type("builtins.tuple", &[])));
    assert_eq!(store.tuple_type("builtins.object").unwrap(), None);
    let snapshot = store.class("mymod.Pair").unwrap();
    assert_eq!(snapshot.type_var_tuple_prefix, Some(1));
    assert_eq!(snapshot.type_var_tuple_suffix, Some(2));
    let err = store.bases("mymod.Absent").unwrap_err();
    assert_eq!(err, unknown_class("mymod.Absent"));
}

#[test]
fn fallback_to_any_is_inherited_along_the_mro() {
    let mut store = root_store();
    let mut base = with_bases("mymod.Base", &["builtins.object"]);
    base.fallback_to_any = true;
    store.insert_class(base).unwrap();
    let child = with_bases("mymod.Child", &["mymod.Base"]);
    store.insert_class(child).unwrap();
    assert!(store.class("mymod.Child").unwrap().fallback_to_any);
    assert!(!store.class("builtins.object").unwrap().fallback_to_any);
}

#[test]
fn resolver_carries_the_classes_and_the_module_snapshots() {
    let mut store = root_store();
    store.insert_module(builtins_classes(&["float"]));
    let int = with_bases("builtins.int", &["builtins.object"]);
    store.insert_class(int).unwrap();
    let resolver = store.resolver();
    assert_eq!(resolver.len(), 3);
    assert!(resolver.get("builtins.int").is_some());
    let module = resolver.get_module("builtins").unwrap();
    assert_eq!(module.visible("float"), Some(true));
    assert_eq!(module.visible("missing"), None);
}

#[test]
fn symbol_lookup_covers_module_class_and_function_scopes() {
    let mut store = root_store();
    store.insert_module(builtins_classes(&["float"]));
    let mut facts = with_bases("mymod.C", &["builtins.object"]);
    add_member(&mut facts, "method", MemberFact::function());
    store.insert_class(facts).unwrap();
    let scope = SymbolScope::Module("builtins".to_string());
    let got = store.lookup(&scope, "float").unwrap().unwrap();
    assert_eq!(got.fullname, "builtins.float");
    assert_eq!(got.kind, SymbolKind::Class);
    let scope = SymbolScope::Class("mymod.C".to_string());
    let got = store.lookup(&scope, "method").unwrap().unwrap();
    assert_eq!(got.fullname, "mymod.C.method");
    assert_eq!(got.kind, SymbolKind::Function);
    assert!(store.lookup(&scope, "float").unwrap().is_none());
    let scope = SymbolScope::Function {
        module: "builtins".to_string(),
        function: "f".to_string(),
        class: Some("mymod.C".to_string()),
    };
    let got = store.lookup(&scope, "method").unwrap().unwrap();
    assert_eq!(got.scope, scope);
    let got = store.lookup(&scope, "float").unwrap().unwrap();
    assert_eq!(got.fullname, "builtins.float");
    assert!(store.lookup(&scope, "local").unwrap().is_none());
    let scope = SymbolScope::Module("mymod".to_string());
    let err = store.lookup(&scope, "float").unwrap_err();
    assert_eq!(err, unknown_module("mymod"));
}

#[test]
fn module_snapshot_projects_visibility_and_submodules() {
    let mut module = ModuleFacts {
        fullname: "pkg".to_string(),
        symbols: NameMap::new(),
    };
    let public = SymbolFact::class("pkg", "pub");
    module.symbols.insert("pub".to_string(), public);
    let mut hidden = SymbolFact::class("other", "hidden");
    hidden.module_hidden = true;
    module.symbols.insert("hidden".to_string(), hidden);
    let sub = SymbolFact::of_kind("pkg", "sub", SymbolKind::Module);
    module.symbols.insert("sub".to_string(), sub);
    let snapshot = module.snapshot();
    assert_eq!(snapshot.visible("pub"), Some(true));
    assert_eq!(snapshot.visible("hidden"), Some(false));
    assert_eq!(snapshot.visible("absent"), None);
    assert_eq!(snapshot.module_fullname("sub"), Some("pkg.sub"));
    assert_eq!(snapshot.module_fullname("pub"), None);
    assert_eq!(snapshot.module_fullname("hidden"), None);
    assert!(module.resolve("hidden").is_none());
}

#[test]
fn disjoint_base_changes_no_snapshot_field() {
    let mut plain_store = root_store();
    let mut flagged_store = root_store();
    let plain = with_bases("mymod.C", &["builtins.object"]);
    let mut flagged = with_bases("mymod.C", &["builtins.object"]);
    flagged.disjoint_base = true;
    plain_store.insert_class(plain).unwrap();
    flagged_store.insert_class(flagged).unwrap();
    let plain_record = plain_store.class("mymod.C");
    let flagged_record = flagged_store.class("mymod.C");
    assert_eq!(plain_record, flagged_record);
    assert!(flagged_store.facts("mymod.C").unwrap().disjoint_base);
    assert!(!plain_store.facts("mymod.C").unwrap().disjoint_base);
}

#[test]
fn name_falls_back_to_the_last_dotted_segment() {
    assert_eq!(short_name("builtins.int"), "int");
    assert_eq!(short_name("int"), "int");
    assert_eq!(module_of("builtins.int"), "builtins");
    assert_eq!(module_of("int"), "");
    assert_eq!(qualified("builtins", "int"), "builtins.int");
    assert_eq!(qualified("", "int"), "int");
    let mut store = root_store();
    let mut facts = with_bases("mymod.C", &["builtins.object"]);
    facts.name = "renamed".to_string();
    store.insert_class(facts).unwrap();
    assert_eq!(store.class("mymod.C").unwrap().name, "renamed");
}

#[test]
fn empty_fullname_is_refused() {
    let mut store = root_store();
    let err = store.insert_class(ClassFacts::new("")).unwrap_err();
    assert_eq!(err, unsupported("", "a class record needs a fullname"));
}

#[test]
fn member_kind_node_kinds_match_the_snapshot_vocabulary() {
    assert_eq!(MemberKind::Function.node_kind(), 0);
    assert_eq!(MemberKind::Decorator.node_kind(), 1);
    assert_eq!(MemberKind::Var.node_kind(), 2);
    assert_eq!(MemberKind::TypeAlias.node_kind(), -1);
    assert_eq!(MemberKind::TypeVarLike.node_kind(), -1);
    assert_eq!(MemberKind::Module.node_kind(), -1);
    assert_eq!(MemberKind::Other.node_kind(), -1);
    assert!(MemberKind::TypeAlias.is_auxiliary());
    assert!(MemberKind::TypeVarLike.is_auxiliary());
    assert!(MemberKind::Module.is_auxiliary());
    assert!(!MemberKind::Other.is_auxiliary());
    assert!(!MemberKind::Function.is_auxiliary());
}

#[test]
fn reinserting_a_class_replaces_its_record() {
    let mut store = root_store();
    let facts = with_bases("mymod.C", &["builtins.object"]);
    store.insert_class(facts).unwrap();
    assert_eq!(store.len(), 3);
    let mut grown = with_bases("mymod.C", &["builtins.object"]);
    add_member(&mut grown, "method", MemberFact::function());
    store.insert_class(grown).unwrap();
    assert_eq!(store.len(), 3);
    assert!(store.member("mymod.C", "method").unwrap().is_some());
}
