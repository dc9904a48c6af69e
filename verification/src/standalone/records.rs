//! The semantic record layer: how class snapshots and module symbol
//! tables are produced from source facts. A [`RecordStore`] keeps the
//! facts of every class next to the snapshot built from them, because the
//! metaclass, abstract-status and protocol-member calculations of a class
//! read facts of its bases that no snapshot carries.

use vstd::prelude::*;
use crate::text::{
    lemma_str_lt_total, lemma_str_lt_transitive, owned, str_eq, str_less, str_lt, strictly_sorted,
};
use crate::typeinfo::{
    assoc_find, assoc_index, lemma_assoc_index, lemma_assoc_same_keys, ModuleSnapshot, NameMap, NameSet, TypeInfoSnapshot,
    TypeResolver,
};
use crate::wire::{clone_opt_string, clone_strings, clone_types, lemma_types_model, opt_type_model, strs_model, types_model, Type, TypeModel};

verus! {

/// `NOT_ABSTRACT`.
pub const NOT_ABSTRACT: i64 = 0;

/// `IS_ABSTRACT`: an `@abstractmethod`, or a variable marked abstract.
pub const IS_ABSTRACT: i64 = 1;

/// `IMPLICITLY_ABSTRACT`: a protocol method with a trivial body outside a
/// stub.
pub const IMPLICITLY_ABSTRACT: i64 = 2;

/// The node kinds of a class member the record layer tells apart.
#[derive(Debug, Clone, Copy, PartialEq, Eq, Structural)]
pub enum MemberKind {
    /// A function or an overloaded function.
    Function,
    /// A decorated function not folded into an overload.
    Decorator,
    /// A variable: a class-level annotation, with or without a value.
    Var,
    /// A type alias.
    TypeAlias,
    /// A type variable, parameter spec or type variable tuple definition.
    TypeVarLike,
    /// A module bound in a class body.
    Module,
    /// Anything else, such as a nested class.
    Other,
}

/// The node kind a snapshot's `member_definers` stores: 0 for a function,
/// 1 for a decorator, 2 for a variable, -1 for everything else.
pub open spec fn node_kind_of(k: MemberKind) -> i64 {
    match k {
        MemberKind::Function => 0,
        MemberKind::Decorator => 1,
        MemberKind::Var => 2,
        _ => -1i64,
    }
}

/// Whether a member is an auxiliary definition that protocol members
/// skip: a type alias, a type-variable definition or a module.
pub open spec fn auxiliary_kind(k: MemberKind) -> bool {
    k == MemberKind::TypeAlias || k == MemberKind::TypeVarLike || k == MemberKind::Module
}

impl MemberKind {
    /// The node kind stored in `member_definers`.
    pub fn node_kind(self) -> (r: i64)
        ensures
            r == node_kind_of(self),
    {
        match self {
            MemberKind::Function => 0,
            MemberKind::Decorator => 1,
            MemberKind::Var => 2,
            _ => -1,
        }
    }

    /// Whether this kind of member is an auxiliary definition.
    pub fn is_auxiliary(self) -> (r: bool)
        ensures
            r == auxiliary_kind(self),
    {
        match self {
            MemberKind::TypeAlias | MemberKind::TypeVarLike | MemberKind::Module => true,
            _ => false,
        }
    }
}

/// One member of a class body.
#[derive(Debug, Clone, Copy, PartialEq, Eq, Structural)]
pub struct MemberFact {
    /// The member's node kind.
    pub kind: MemberKind,
    /// Whether the member was bound implicitly (an instance attribute
    /// inferred from `self.x = ...`).
    pub implicit: bool,
    /// Whether a variable carries an assigned value.
    pub has_explicit_value: bool,
    /// The member's abstract status.
    pub abstract_status: i64,
}

impl MemberFact {
    /// A member of the given kind, every other fact at its default.
    pub fn of_kind(kind: MemberKind) -> (r: MemberFact)
        ensures
            r == (MemberFact { kind, implicit: false, has_explicit_value: false, abstract_status: NOT_ABSTRACT }),
    {
        MemberFact { kind, implicit: false, has_explicit_value: false, abstract_status: NOT_ABSTRACT }
    }

    /// A function member.
    pub fn function() -> (r: MemberFact)
        ensures
            r == (MemberFact {
                kind: MemberKind::Function,
                implicit: false,
                has_explicit_value: false,
                abstract_status: NOT_ABSTRACT,
            }),
    {
        MemberFact::of_kind(MemberKind::Function)
    }

    /// A decorator member.
    pub fn decorator() -> (r: MemberFact)
        ensures
            r == (MemberFact {
                kind: MemberKind::Decorator,
                implicit: false,
                has_explicit_value: false,
                abstract_status: NOT_ABSTRACT,
            }),
    {
        MemberFact::of_kind(MemberKind::Decorator)
    }

    /// A variable member; `has_explicit_value` says whether it is assigned.
    pub fn var(has_explicit_value: bool) -> (r: MemberFact)
        ensures
            r == (MemberFact { kind: MemberKind::Var, implicit: false, has_explicit_value, abstract_status: NOT_ABSTRACT }),
    {
        MemberFact { kind: MemberKind::Var, implicit: false, has_explicit_value, abstract_status: NOT_ABSTRACT }
    }

    /// The same member with the given abstract status.
    pub fn with_abstract_status(self, status: i64) -> (r: MemberFact)
        ensures
            r == (MemberFact { abstract_status: status, ..self }),
    {
        MemberFact { abstract_status: status, ..self }
    }
}

/// One declared base class: its fullname and type arguments.
#[derive(Debug, Clone, PartialEq)]
pub struct BaseFact {
    /// The base's fullname, which must already resolve in the store.
    pub fullname: String,
    /// The type arguments in source order.
    pub args: Vec<Type>,
}

impl BaseFact {
    /// A base with no type arguments.
    pub fn plain(fullname: &str) -> (r: BaseFact)
        ensures
            r.fullname@ == fullname@,
            r.args@.len() == 0,
    {
        BaseFact { fullname: owned(fullname), args: Vec::new() }
    }
}

/// One class type variable.
#[derive(Debug, Clone, PartialEq)]
pub struct TypeVarFact {
    /// The variable's name.
    pub name: String,
    /// 0 invariant, 1 covariant, 2 contravariant, 3 not yet inferred.
    pub variance: i64,
    /// 0 a type variable, 1 a parameter spec, 2 a type variable tuple.
    pub kind: i64,
    /// The variable's raw id.
    pub raw_id: i64,
    /// The upper bound, read only for a type variable.
    pub upper_bound: Option<Type>,
    /// The tuple fallback, read only for a type variable tuple.
    pub tuple_fallback: Option<Type>,
}

/// The source facts of one class.
#[derive(Debug, Clone, Default, PartialEq)]
pub struct ClassFacts {
    /// The class fullname.
    pub fullname: String,
    /// The short name; empty means the last segment of the fullname.
    pub name: String,
    /// The declared bases in source order, without the implicit
    /// `builtins.object`.
    pub bases: Vec<BaseFact>,
    /// The class's own members.
    pub members: NameMap<MemberFact>,
    /// The class type variables in declaration order.
    pub type_vars: Vec<TypeVarFact>,
    pub is_protocol: bool,
    /// Set by the source, or by an enum metaclass.
    pub is_enum: bool,
    pub is_named_tuple: bool,
    pub is_newtype: bool,
    /// The metaclass the class body asks for, before the MRO walk.
    pub declared_metaclass: Option<String>,
    /// The tuple type of a named tuple class.
    pub tuple_type: Option<Type>,
    /// Explicit promotion targets; empty means the built-in table.
    pub promote: Vec<Type>,
    pub alt_promote_fullname: Option<String>,
    pub meta_fallback_to_any: bool,
    /// Declared `fallback_to_any`; the inherited part is computed.
    pub fallback_to_any: bool,
    pub type_var_tuple_prefix: Option<usize>,
    pub type_var_tuple_suffix: Option<usize>,
    pub enum_members: Vec<String>,
    /// Whether the class carries the stub-only disjoint-base decorator, a
    /// fact no snapshot field holds.
    pub disjoint_base: bool,
}

impl ClassFacts {
    /// The facts of a class that declares nothing but its fullname.
    pub fn new(fullname: &str) -> (r: ClassFacts)
        ensures
            r.fullname@ == fullname@,
            r.name@.len() == 0,
            r.bases@.len() == 0,
            r.members.entries@.len() == 0,
            r.type_vars@.len() == 0,
            !r.is_protocol && !r.is_enum && !r.is_named_tuple && !r.is_newtype,
            r.declared_metaclass.is_none(),
            r.tuple_type.is_none(),
            r.promote@.len() == 0,
            r.alt_promote_fullname.is_none(),
            !r.meta_fallback_to_any && !r.fallback_to_any,
            r.type_var_tuple_prefix.is_none() && r.type_var_tuple_suffix.is_none(),
            r.enum_members@.len() == 0,
            !r.disjoint_base,
    {
        ClassFacts {
            fullname: owned(fullname),
            name: String::new(),
            bases: Vec::new(),
            members: NameMap::new(),
            type_vars: Vec::new(),
            is_protocol: false,
            is_enum: false,
            is_named_tuple: false,
            is_newtype: false,
            declared_metaclass: None,
            tuple_type: None,
            promote: Vec::new(),
            alt_promote_fullname: None,
            meta_fallback_to_any: false,
            fallback_to_any: false,
            type_var_tuple_prefix: None,
            type_var_tuple_suffix: None,
            enum_members: Vec::new(),
            disjoint_base: false,
        }
    }
}

/// The node kinds a module symbol can have.
#[derive(Debug, Clone, Copy, PartialEq, Eq, Structural)]
pub enum SymbolKind {
    /// A class.
    Class,
    /// A function, overload or decorated function.
    Function,
    /// A variable.
    Var,
    /// A module.
    Module,
    /// A type alias.
    TypeAlias,
    /// A type-variable definition.
    TypeVarLike,
    /// Anything else.
    Other,
}

/// One entry of a module symbol table.
#[derive(Debug, Clone, PartialEq, Eq)]
pub struct SymbolFact {
    /// The symbol's fullname.
    pub fullname: String,
    /// The node kind.
    pub kind: SymbolKind,
    /// Whether the symbol is hidden from importers.
    pub module_hidden: bool,
}

/// `module.name`, or `name` when the module is empty.
pub open spec fn qualified_spec(module: Seq<char>, name: Seq<char>) -> Seq<char> {
    if module.len() == 0 {
        name
    } else {
        module + "."@ + name
    }
}

/// `module.name`, or `name` when the module is empty.
pub fn qualified(module: &str, name: &str) -> (r: String)
    ensures
        r@ == qualified_spec(module@, name@),
{
    if module.unicode_len() == 0 {
        return owned(name);
    }
    let mut s = owned(module);
    s.append(".");
    s.append(name);
    s
}

impl SymbolFact {
    /// A visible class symbol named `module.name`.
    pub fn class(module: &str, name: &str) -> (r: SymbolFact)
        ensures
            r.fullname@ == qualified_spec(module@, name@),
            r.kind == SymbolKind::Class,
            !r.module_hidden,
    {
        SymbolFact { fullname: qualified(module, name), kind: SymbolKind::Class, module_hidden: false }
    }

    /// A visible symbol of the given kind named `module.name`.
    pub fn of_kind(module: &str, name: &str, kind: SymbolKind) -> (r: SymbolFact)
        ensures
            r.fullname@ == qualified_spec(module@, name@),
            r.kind == kind,
            !r.module_hidden,
    {
        SymbolFact { fullname: qualified(module, name), kind, module_hidden: false }
    }
}

/// The index of the last `.` in `s[..end]`.
pub open spec fn last_dot_before(s: Seq<char>, end: int) -> Option<int>
    decreases end,
{
    if end <= 0 || end > s.len() {
        None
    } else if s[end - 1] == '.' {
        Some(end - 1)
    } else {
        last_dot_before(s, end - 1)
    }
}

/// The index of the last `.` in `s`.
pub open spec fn last_dot(s: Seq<char>) -> Option<int> {
    last_dot_before(s, s.len() as int)
}

proof fn lemma_last_dot_before(s: Seq<char>, end: int)
    requires
        0 <= end <= s.len(),
    ensures
        match last_dot_before(s, end) {
            Some(i) => 0 <= i < end && s[i] == '.',
            None => true,
        },
    decreases end,
{
    if end > 0 && s[end - 1] != '.' {
        lemma_last_dot_before(s, end - 1);
    }
}

/// The index of the last `.` in `s`.
fn find_last_dot(s: &str) -> (r: Option<usize>)
    ensures
        match r {
            Some(i) => last_dot(s@) == Some(i as int) && i < s@.len(),
            None => last_dot(s@).is_none(),
        },
{
    let n = s.unicode_len();
    let mut end = n;
    while end > 0
        invariant
            end <= n,
            n == s@.len(),
            last_dot(s@) == last_dot_before(s@, end as int),
        decreases end,
    {
        if s.get_char(end - 1) == '.' {
            return Some(end - 1);
        }
        end = end - 1;
    }
    None
}

/// The module part of a fullname: everything before the last dot, or
/// nothing.
pub open spec fn module_part(s: Seq<char>) -> Seq<char> {
    match last_dot(s) {
        Some(i) => s.take(i),
        None => Seq::empty(),
    }
}

/// The short name of a fullname: everything after the last dot.
pub open spec fn short_part(s: Seq<char>) -> Seq<char> {
    match last_dot(s) {
        Some(i) => s.skip(i + 1),
        None => s,
    }
}

/// The module part of a fullname: `builtins.int` lives in `builtins`.
pub fn module_of(fullname: &str) -> (r: &str)
    ensures
        r@ == module_part(fullname@),
{
    match find_last_dot(fullname) {
        Some(i) => {
            let r = fullname.substring_char(0, i);
            proof {
                assert(r@ =~= fullname@.take(i as int));
            }
            r
        },
        None => {
            proof {
                reveal_strlit("");
            }
            ""
        },
    }
}

/// The short name of a fullname.
pub fn short_name(fullname: &str) -> (r: &str)
    ensures
        r@ == short_part(fullname@),
{
    let n = fullname.unicode_len();
    match find_last_dot(fullname) {
        Some(i) => {
            let r = fullname.substring_char(i + 1, n);
            proof {
                assert(r@ =~= fullname@.skip(i + 1));
            }
            r
        },
        None => fullname,
    }
}

/// The built-in ad-hoc promotions: the name, in the class's own module,
/// that `int`, `float`, `bytearray` and `memoryview` promote to.
pub open spec fn promotion_spec(fullname: Seq<char>) -> Option<Seq<char>> {
    if fullname == "builtins.int"@ {
        Some("float"@)
    } else if fullname == "builtins.float"@ {
        Some("complex"@)
    } else if fullname == "builtins.bytearray"@ || fullname == "builtins.memoryview"@ {
        Some("bytes"@)
    } else {
        None
    }
}

/// The name a class is promoted to by the built-in promotion table.
pub fn promotion_target(fullname: &str) -> (r: Option<&'static str>)
    ensures
        match r {
            Some(x) => promotion_spec(fullname@) == Some(x@),
            None => promotion_spec(fullname@).is_none(),
        },
{
    if str_eq(fullname, "builtins.int") {
        Some("float")
    } else if str_eq(fullname, "builtins.float") {
        Some("complex")
    } else if str_eq(fullname, "builtins.bytearray") || str_eq(fullname, "builtins.memoryview") {
        Some("bytes")
    } else {
        None
    }
}

/// A bare instance of `fullname` with the given type arguments.
pub open spec fn instance_model(fullname: Seq<char>, args: Seq<TypeModel>) -> TypeModel {
    TypeModel::Instance { type_ref: fullname, args, last_known_value: None, extra_attrs: None }
}

/// A bare instance of `fullname` with the given type arguments.
pub fn instance_type(fullname: &str, args: &[Type]) -> (r: Type)
    ensures
        r@ == instance_model(fullname@, types_model(args@)),
{
    let mut v: Vec<Type> = Vec::new();
    let mut i: usize = 0;
    proof {
        lemma_types_model(args@);
    }
    while i < args.len()
        invariant
            i <= args@.len(),
            types_model(args@).len() == args@.len(),
            forall|j: int| 0 <= j < args@.len() ==> #[trigger] types_model(args@)[j] == args@[j]@,
            types_model(v@) == types_model(args@).take(i as int),
        decreases args@.len() - i,
    {
        let c = crate::wire::clone_type(&args[i]);
        proof {
            crate::wire::lemma_types_model_push(v@, c);
            assert(types_model(args@).take(i + 1) =~= types_model(args@).take(i as int).push(c@));
        }
        v.push(c);
        i = i + 1;
    }
    proof {
        assert(types_model(args@).take(args@.len() as int) =~= types_model(args@));
        assert(opt_type_model(None) == None::<Box<TypeModel>>);
        assert(crate::wire::extra_model(None) == None::<crate::wire::ExtraAttrsModel>);
    }
    Type::Instance { type_ref: owned(fullname), args: v, last_known_value: None, extra_attrs: None }
}


/// The source facts of one module's symbol table.
#[derive(Debug, Clone, PartialEq)]
pub struct ModuleFacts {
    /// The module fullname.
    pub fullname: String,
    /// Every top-level name, visible or hidden.
    pub symbols: NameMap<SymbolFact>,
}

/// The snapshot entry of one symbol: hidden or not, and for a module its
/// fullname.
pub open spec fn symbol_entry_ok(fact: SymbolFact, entry: (bool, Option<(bool, String)>)) -> bool {
    &&& entry.0 == fact.module_hidden
    &&& match entry.1 {
        Some(node) => fact.kind == SymbolKind::Module && node.0 && node.1@ == fact.fullname@,
        None => fact.kind != SymbolKind::Module,
    }
}

impl ModuleFacts {
    /// The module snapshot of these facts: every symbol with its hidden
    /// flag, and a module symbol with its fullname.
    pub fn snapshot(&self) -> (r: ModuleSnapshot)
        ensures
            forall|k: Seq<char>| #[trigger] r.symbols.lookup(k).is_some() == self.symbols.lookup(k).is_some(),
            forall|k: Seq<char>|
                #![trigger r.symbols.lookup(k)]
                self.symbols.lookup(k).is_some() ==> symbol_entry_ok(
                    self.symbols.lookup(k).unwrap(),
                    r.symbols.lookup(k).unwrap(),
                ),
    {
        let src = &self.symbols.entries;
        let mut out: Vec<(String, (bool, Option<(bool, String)>))> = Vec::new();
        let mut i: usize = 0;
        while i < src.len()
            invariant
                i <= src@.len(),
                out@.len() == i,
                forall|j: int| 0 <= j < i ==> #[trigger] out@[j].0@ == src@[j].0@,
                forall|j: int| 0 <= j < i ==> symbol_entry_ok(src@[j].1, #[trigger] out@[j].1),
            decreases src@.len() - i,
        {
            let fact = &src[i].1;
            let node = match fact.kind {
                SymbolKind::Module => Some((true, fact.fullname.clone())),
                _ => None,
            };
            out.push((src[i].0.clone(), (fact.module_hidden, node)));
            i = i + 1;
        }
        let r = ModuleSnapshot { symbols: NameMap { entries: out } };
        proof {
            assert forall|k: Seq<char>| #[trigger] r.symbols.lookup(k).is_some() == self.symbols.lookup(k).is_some()
                && (self.symbols.lookup(k).is_some() ==> symbol_entry_ok(
                    self.symbols.lookup(k).unwrap(),
                    r.symbols.lookup(k).unwrap(),
                )) by {
                lemma_assoc_same_keys(out@, src@, k);
                lemma_assoc_index(out@, k);
                lemma_assoc_index(src@, k);
            }
        }
        r
    }

    /// The symbol `name` denotes, or `None` when it is absent or hidden.
    pub fn resolve(&self, name: &str) -> (r: Option<&SymbolFact>)
        ensures
            match self.symbols.lookup(name@) {
                Some(f) => if f.module_hidden {
                    r.is_none()
                } else {
                    r == Some(&f)
                },
                None => r.is_none(),
            },
    {
        match self.symbols.get(name) {
            Some(fact) => {
                if fact.module_hidden {
                    None
                } else {
                    Some(fact)
                }
            },
            None => None,
        }
    }
}

/// The frame a name is looked up in.
#[derive(Debug, Clone, PartialEq, Eq)]
pub enum SymbolScope {
    /// A module frame.
    Module(String),
    /// A class frame.
    Class(String),
    /// A function frame inside `module`, optionally inside a class. Its
    /// locals are binder state, not records: a lookup answers from the
    /// enclosing class and module.
    Function { module: String, function: String, class: Option<String> },
}

/// The model of a `SymbolScope`.
pub enum ScopeModel {
    Module(Seq<char>),
    Class(Seq<char>),
    Function { module: Seq<char>, function: Seq<char>, class: Option<Seq<char>> },
}

/// The model of a `SymbolScope`.
pub open spec fn scope_model(s: SymbolScope) -> ScopeModel {
    match s {
        SymbolScope::Module(m) => ScopeModel::Module(m@),
        SymbolScope::Class(c) => ScopeModel::Class(c@),
        SymbolScope::Function { module, function, class } => ScopeModel::Function {
            module: module@,
            function: function@,
            class: match class {
                Some(c) => Some(c@),
                None => None,
            },
        },
    }
}

fn clone_scope(s: &SymbolScope) -> (r: SymbolScope)
    ensures
        scope_model(r) == scope_model(*s),
{
    match s {
        SymbolScope::Module(m) => SymbolScope::Module(m.clone()),
        SymbolScope::Class(c) => SymbolScope::Class(c.clone()),
        SymbolScope::Function { module, function, class } => SymbolScope::Function {
            module: module.clone(),
            function: function.clone(),
            class: match class {
                Some(c) => Some(c.clone()),
                None => None,
            },
        },
    }
}

/// What a symbol lookup denotes.
#[derive(Debug, Clone, PartialEq, Eq)]
pub struct SymbolRef {
    /// The denoted fullname.
    pub fullname: String,
    /// The node kind.
    pub kind: SymbolKind,
    /// The frame that was asked.
    pub scope: SymbolScope,
}

/// Why a record could not be produced.
#[derive(Debug, Clone, PartialEq, Eq)]
pub enum RecordError {
    /// No record was produced for this class.
    UnknownClass { fullname: String },
    /// No symbol table was produced for this module.
    UnknownModule { fullname: String },
    /// The module has no visible symbol of this name.
    UnknownSymbol { module: String, name: String },
    /// A base fullname has no record.
    UnresolvedBase { class: String, base: String },
    /// A promotion target does not name a class.
    UnresolvedPromotion { class: String, name: String },
    /// The base list is cyclic.
    CyclicBases { class: String, cycle: Vec<String> },
    /// The same base appears twice.
    DuplicateBase { class: String, base: String },
    /// C3 finds no consistent linearization.
    Unlinearizable { class: String },
    /// The record needs a transformation the record layer does not make.
    Unsupported { subject: String, reason: String },
}

/// The model of a `RecordError`.
pub enum ErrModel {
    UnknownClass(Seq<char>),
    UnknownModule(Seq<char>),
    UnknownSymbol(Seq<char>, Seq<char>),
    UnresolvedBase(Seq<char>, Seq<char>),
    UnresolvedPromotion(Seq<char>, Seq<char>),
    CyclicBases(Seq<char>, Seq<Seq<char>>),
    DuplicateBase(Seq<char>, Seq<char>),
    Unlinearizable(Seq<char>),
    Unsupported(Seq<char>, Seq<char>),
}

/// The model of a `RecordError`.
pub open spec fn err_model(e: RecordError) -> ErrModel {
    match e {
        RecordError::UnknownClass { fullname } => ErrModel::UnknownClass(fullname@),
        RecordError::UnknownModule { fullname } => ErrModel::UnknownModule(fullname@),
        RecordError::UnknownSymbol { module, name } => ErrModel::UnknownSymbol(module@, name@),
        RecordError::UnresolvedBase { class, base } => ErrModel::UnresolvedBase(class@, base@),
        RecordError::UnresolvedPromotion { class, name } => ErrModel::UnresolvedPromotion(class@, name@),
        RecordError::CyclicBases { class, cycle } => ErrModel::CyclicBases(class@, strs_model(cycle@)),
        RecordError::DuplicateBase { class, base } => ErrModel::DuplicateBase(class@, base@),
        RecordError::Unlinearizable { class } => ErrModel::Unlinearizable(class@),
        RecordError::Unsupported { subject, reason } => ErrModel::Unsupported(subject@, reason@),
    }
}

/// The names of a cycle as a bracketed list of quoted names.
pub open spec fn quoted_list(s: Seq<Seq<char>>) -> Seq<char> {
    "["@ + quoted_items(s) + "]"@
}

/// The quoted names of `s`, separated by `, `.
pub open spec fn quoted_items(s: Seq<Seq<char>>) -> Seq<char>
    decreases s.len(),
{
    if s.len() == 0 {
        Seq::empty()
    } else if s.len() == 1 {
        "\""@ + s[0] + "\""@
    } else {
        quoted_items(s.drop_last()) + ", \""@ + s.last() + "\""@
    }
}

/// The message a record error renders as.
pub open spec fn err_message(e: ErrModel) -> Seq<char> {
    match e {
        ErrModel::UnknownClass(f) => "no class record was produced for `"@ + f + "`"@,
        ErrModel::UnknownModule(f) => "no symbol table was produced for module `"@ + f + "`"@,
        ErrModel::UnknownSymbol(m, n) => "`"@ + m + "` has no visible symbol `"@ + n + "`"@,
        ErrModel::UnresolvedBase(c, b) => "base `"@ + b + "` of `"@ + c + "` does not resolve to a record"@,
        ErrModel::UnresolvedPromotion(c, n) => "promotion target `"@ + n + "` of `"@ + c + "` is not a class"@,
        ErrModel::CyclicBases(c, cycle) => "cycle in the inheritance hierarchy of `"@ + c + "`: "@ + quoted_list(cycle),
        ErrModel::DuplicateBase(c, b) => "duplicate base class `"@ + b + "` of `"@ + c + "`"@,
        ErrModel::Unlinearizable(c) => "no consistent MRO for `"@ + c + "`"@,
        ErrModel::Unsupported(s, r) => "cannot produce a record for `"@ + s + "`: "@ + r,
    }
}

/// Three pieces, joined.
fn join3(a: &str, b: &str, c: &str) -> (r: String)
    ensures
        r@ == a@ + b@ + c@,
{
    let mut s = owned(a);
    s.append(b);
    s.append(c);
    s
}

/// Five pieces, joined.
fn join5(a: &str, b: &str, c: &str, d: &str, e: &str) -> (r: String)
    ensures
        r@ == a@ + b@ + c@ + d@ + e@,
{
    let mut s = owned(a);
    s.append(b);
    s.append(c);
    s.append(d);
    s.append(e);
    s
}

impl RecordError {
    /// The human-readable message of this error.
    pub fn message(&self) -> (r: String)
        ensures
            r@ == err_message(err_model(*self)),
    {
        match self {
            RecordError::UnknownClass { fullname } => join3("no class record was produced for `", fullname.as_str(), "`"),
            RecordError::UnknownModule { fullname } => join3(
                "no symbol table was produced for module `",
                fullname.as_str(),
                "`",
            ),
            RecordError::UnknownSymbol { module, name } => join5(
                "`",
                module.as_str(),
                "` has no visible symbol `",
                name.as_str(),
                "`",
            ),
            RecordError::UnresolvedBase { class, base } => join5(
                "base `",
                base.as_str(),
                "` of `",
                class.as_str(),
                "` does not resolve to a record",
            ),
            RecordError::UnresolvedPromotion { class, name } => join5(
                "promotion target `",
                name.as_str(),
                "` of `",
                class.as_str(),
                "` is not a class",
            ),
            RecordError::CyclicBases { class, cycle } => {
                let mut s = join3("cycle in the inheritance hierarchy of `", class.as_str(), "`: ");
                let list = quoted_list_exec(cycle);
                s.append(list.as_str());
                s
            },
            RecordError::DuplicateBase { class, base } => join5(
                "duplicate base class `",
                base.as_str(),
                "` of `",
                class.as_str(),
                "`",
            ),
            RecordError::Unlinearizable { class } => join3("no consistent MRO for `", class.as_str(), "`"),
            RecordError::Unsupported { subject, reason } => join3(
                "cannot produce a record for `",
                subject.as_str(),
                "`: ",
            ).concat(reason.as_str()),
        }
    }
}

fn quoted_list_exec(v: &Vec<String>) -> (r: String)
    ensures
        r@ == quoted_list(strs_model(v@)),
{
    let ghost m = strs_model(v@);
    let mut s = String::new();
    let mut i: usize = 0;
    proof {
        assert(m.take(0) =~= Seq::<Seq<char>>::empty());
    }
    while i < v.len()
        invariant
            i <= v@.len(),
            m == strs_model(v@),
            m.len() == v@.len(),
            s@ == quoted_items(m.take(i as int)),
        decreases v@.len() - i,
    {
        proof {
            assert(m.take(i + 1).drop_last() =~= m.take(i as int));
            assert(m[i as int] == v@[i as int]@);
        }
        if i == 0 {
            s.append("\"");
        } else {
            s.append(", \"");
        }
        s.append(v[i].as_str());
        s.append("\"");
        proof {
            if i == 0 {
                assert(s@ =~= "\""@ + m.take(1)[0] + "\""@);
            }
        }
        i = i + 1;
    }
    proof {
        assert(m.take(v@.len() as int) =~= m);
    }
    let mut r = owned("[");
    r.append(s.as_str());
    r.append("]");
    r
}


/// A produced record set: class snapshots, the facts each was built from,
/// and the module symbol tables.
#[derive(Debug)]
pub struct RecordStore {
    classes: NameMap<TypeInfoSnapshot>,
    facts: NameMap<ClassFacts>,
    modules: NameMap<ModuleFacts>,
}

impl RecordStore {
    /// The class record of `fullname`.
    pub closed spec fn class_rec(&self, fullname: Seq<char>) -> Option<TypeInfoSnapshot> {
        self.classes.lookup(fullname)
    }

    /// The facts the class record of `fullname` was built from.
    pub closed spec fn facts_rec(&self, fullname: Seq<char>) -> Option<ClassFacts> {
        self.facts.lookup(fullname)
    }

    /// The module symbol table of `fullname`.
    pub closed spec fn module_rec(&self, fullname: Seq<char>) -> Option<ModuleFacts> {
        self.modules.lookup(fullname)
    }

    /// The number of class records.
    pub closed spec fn class_count(&self) -> nat {
        self.classes.entries@.len()
    }

    /// An empty store.
    pub fn new() -> (r: RecordStore)
        ensures
            r.class_count() == 0,
            forall|k: Seq<char>| #[trigger] r.class_rec(k).is_none(),
            forall|k: Seq<char>| #[trigger] r.facts_rec(k).is_none(),
            forall|k: Seq<char>| #[trigger] r.module_rec(k).is_none(),
    {
        RecordStore { classes: NameMap::new(), facts: NameMap::new(), modules: NameMap::new() }
    }

    /// The number of class records held.
    pub fn len(&self) -> (r: usize)
        ensures
            r == self.class_count(),
    {
        self.classes.entries.len()
    }

    /// Whether no class record is held.
    pub fn is_empty(&self) -> (r: bool)
        ensures
            r == (self.class_count() == 0),
    {
        self.classes.entries.len() == 0
    }

    /// Install a module symbol table, replacing one of the same name.
    pub fn insert_module(&mut self, module: ModuleFacts)
        ensures
            final(self).module_rec(module.fullname@) == Some(module),
            forall|k: Seq<char>| k != module.fullname@ ==> #[trigger] final(self).module_rec(k) == old(self).module_rec(k),
            forall|k: Seq<char>| #[trigger] final(self).class_rec(k) == old(self).class_rec(k),
            forall|k: Seq<char>| #[trigger] final(self).facts_rec(k) == old(self).facts_rec(k),
            final(self).class_count() == old(self).class_count(),
    {
        let key = module.fullname.clone();
        self.modules.insert(key, module);
    }

    /// The symbol table of `fullname`.
    pub fn module(&self, fullname: &str) -> (r: Option<&ModuleFacts>)
        ensures
            r.is_some() == self.module_rec(fullname@).is_some(),
            r.is_some() ==> *r.unwrap() == self.module_rec(fullname@).unwrap(),
    {
        self.modules.get(fullname)
    }

    /// The visible symbol `name` of module `fullname`; a missing module, or
    /// a missing or hidden name, is an error.
    pub fn lookup_module_symbol(&self, fullname: &str, name: &str) -> (r: Result<&SymbolFact, RecordError>)
        ensures
            match self.module_rec(fullname@) {
                None => r matches Err(e) && err_model(e) == ErrModel::UnknownModule(fullname@),
                Some(m) => match m.symbols.lookup(name@) {
                    Some(f) => if f.module_hidden {
                        r matches Err(e) && err_model(e) == ErrModel::UnknownSymbol(fullname@, name@)
                    } else {
                        r == Ok::<&SymbolFact, RecordError>(&f)
                    },
                    None => r matches Err(e) && err_model(e) == ErrModel::UnknownSymbol(fullname@, name@),
                },
            },
    {
        match self.modules.get(fullname) {
            None => Err(RecordError::UnknownModule { fullname: owned(fullname) }),
            Some(module) => match module.resolve(name) {
                Some(fact) => Ok(fact),
                None => Err(RecordError::UnknownSymbol { module: owned(fullname), name: owned(name) }),
            },
        }
    }

    /// The class record of `fullname`.
    pub fn class(&self, fullname: &str) -> (r: Option<&TypeInfoSnapshot>)
        ensures
            r.is_some() == self.class_rec(fullname@).is_some(),
            r.is_some() ==> *r.unwrap() == self.class_rec(fullname@).unwrap(),
    {
        self.classes.get(fullname)
    }

    /// The class record of `fullname`, or an unknown-class error.
    pub fn resolve(&self, fullname: &str) -> (r: Result<&TypeInfoSnapshot, RecordError>)
        ensures
            match self.class_rec(fullname@) {
                Some(s) => r == Ok::<&TypeInfoSnapshot, RecordError>(&s),
                None => r matches Err(e) && err_model(e) == ErrModel::UnknownClass(fullname@),
            },
    {
        match self.classes.get(fullname) {
            Some(s) => Ok(s),
            None => Err(RecordError::UnknownClass { fullname: owned(fullname) }),
        }
    }

    /// The facts the class record of `fullname` was built from.
    pub fn facts(&self, fullname: &str) -> (r: Option<&ClassFacts>)
        ensures
            r.is_some() == self.facts_rec(fullname@).is_some(),
            r.is_some() ==> *r.unwrap() == self.facts_rec(fullname@).unwrap(),
    {
        self.facts.get(fullname)
    }

    fn class_facts(&self, fullname: &str) -> (r: Result<&ClassFacts, RecordError>)
        ensures
            match self.facts_rec(fullname@) {
                Some(f) => r == Ok::<&ClassFacts, RecordError>(&f),
                None => r matches Err(e) && err_model(e) == ErrModel::UnknownClass(fullname@),
            },
    {
        match self.facts.get(fullname) {
            Some(f) => Ok(f),
            None => Err(RecordError::UnknownClass { fullname: owned(fullname) }),
        }
    }

    /// The MRO of the class record of `fullname`.
    pub fn mro(&self, fullname: &str) -> (r: Result<&[String], RecordError>)
        ensures
            match self.class_rec(fullname@) {
                Some(s) => r matches Ok(m) && m@ == s.mro@,
                None => r matches Err(e) && err_model(e) == ErrModel::UnknownClass(fullname@),
            },
    {
        let s = self.resolve(fullname)?;
        Ok(s.mro.as_slice())
    }

    /// Whether `base` is in the MRO of `fullname`.
    pub fn has_base(&self, fullname: &str, base: &str) -> (r: Result<bool, RecordError>)
        ensures
            match self.class_rec(fullname@) {
                Some(s) => r == Ok::<bool, RecordError>(s.has_base.has(base@)),
                None => r matches Err(e) && err_model(e) == ErrModel::UnknownClass(fullname@),
            },
    {
        let s = self.resolve(fullname)?;
        Ok(s.has_base.contains(base))
    }

    /// The declared bases of `fullname`, as instances.
    pub fn bases(&self, fullname: &str) -> (r: Result<Vec<Type>, RecordError>)
        ensures
            match self.class_rec(fullname@) {
                Some(s) => r matches Ok(v) && types_model(v@) == types_model(s.bases@),
                None => r matches Err(e) && err_model(e) == ErrModel::UnknownClass(fullname@),
            },
    {
        let s = self.resolve(fullname)?;
        Ok(clone_types(&s.bases))
    }

    /// The promotion targets of `fullname`.
    pub fn promote(&self, fullname: &str) -> (r: Result<Vec<Type>, RecordError>)
        ensures
            match self.class_rec(fullname@) {
                Some(s) => r matches Ok(v) && types_model(v@) == types_model(s.promote@),
                None => r matches Err(e) && err_model(e) == ErrModel::UnknownClass(fullname@),
            },
    {
        let s = self.resolve(fullname)?;
        Ok(clone_types(&s.promote))
    }

    /// The tuple type of `fullname`, for a named tuple class.
    pub fn tuple_type(&self, fullname: &str) -> (r: Result<Option<Type>, RecordError>)
        ensures
            match self.class_rec(fullname@) {
                Some(s) => r matches Ok(t) && opt_model(t) == opt_model(s.tuple_type),
                None => r matches Err(e) && err_model(e) == ErrModel::UnknownClass(fullname@),
            },
    {
        let s = self.resolve(fullname)?;
        Ok(clone_opt(&s.tuple_type))
    }

    /// The upper bound of each class type variable of `fullname`.
    pub fn type_var_upper_bounds(&self, fullname: &str) -> (r: Result<Vec<Option<Type>>, RecordError>)
        ensures
            match self.class_rec(fullname@) {
                Some(s) => r matches Ok(v) && opts_model(v@) == opts_model(s.type_var_upper_bounds@),
                None => r matches Err(e) && err_model(e) == ErrModel::UnknownClass(fullname@),
            },
    {
        let s = self.resolve(fullname)?;
        Ok(clone_opts(&s.type_var_upper_bounds))
    }

    /// The variance of the class type variable `name` of `fullname`.
    pub fn variance(&self, fullname: &str, name: &str) -> (r: Result<Option<i64>, RecordError>)
        ensures
            match self.class_rec(fullname@) {
                Some(s) => r == Ok::<Option<i64>, RecordError>(variance_from(s.type_vars_with_variance@, name@, 0)),
                None => r matches Err(e) && err_model(e) == ErrModel::UnknownClass(fullname@),
            },
    {
        let s = self.resolve(fullname)?;
        let v = &s.type_vars_with_variance;
        let mut i: usize = 0;
        while i < v.len()
            invariant
                i <= v@.len(),
                self.class_rec(fullname@) matches Some(ss) && ss.type_vars_with_variance@ == v@,
                variance_from(v@, name@, 0) == variance_from(v@, name@, i as int),
            decreases v@.len() - i,
        {
            if str_eq(v[i].0.as_str(), name) {
                return Ok(Some(v[i].1));
            }
            i = i + 1;
        }
        Ok(None)
    }

    /// The own member `name` of class `fullname`.
    pub fn member(&self, fullname: &str, name: &str) -> (r: Result<Option<&MemberFact>, RecordError>)
        ensures
            match self.facts_rec(fullname@) {
                Some(f) => r matches Ok(m) && m == match f.members.lookup(name@) {
                    Some(x) => Some(&x),
                    None => None,
                },
                None => r matches Err(e) && err_model(e) == ErrModel::UnknownClass(fullname@),
            },
    {
        let f = self.class_facts(fullname)?;
        Ok(f.members.get(name))
    }
}

/// The variance of the first type variable named `name` from `start`.
pub open spec fn variance_from(v: Seq<(String, i64, i64)>, name: Seq<char>, start: int) -> Option<i64>
    decreases v.len() - start,
{
    if start < 0 || start >= v.len() {
        None
    } else if v[start].0@ == name {
        Some(v[start].1)
    } else {
        variance_from(v, name, start + 1)
    }
}

/// The model of an optional type.
pub open spec fn opt_model(t: Option<Type>) -> Option<TypeModel> {
    match t {
        Some(x) => Some(x@),
        None => None,
    }
}

/// The models of a list of optional types.
pub open spec fn opts_model(v: Seq<Option<Type>>) -> Seq<Option<TypeModel>> {
    v.map_values(|t: Option<Type>| opt_model(t))
}

fn clone_opt(t: &Option<Type>) -> (r: Option<Type>)
    ensures
        opt_model(r) == opt_model(*t),
{
    match t {
        Some(x) => Some(crate::wire::clone_type(x)),
        None => None,
    }
}

fn clone_opts(v: &Vec<Option<Type>>) -> (r: Vec<Option<Type>>)
    ensures
        opts_model(r@) == opts_model(v@),
{
    let mut out: Vec<Option<Type>> = Vec::new();
    let mut i: usize = 0;
    while i < v.len()
        invariant
            i <= v@.len(),
            out@.len() == i,
            forall|j: int| 0 <= j < i ==> opt_model(#[trigger] out@[j]) == opt_model(v@[j]),
        decreases v@.len() - i,
    {
        out.push(clone_opt(&v[i]));
        i = i + 1;
    }
    proof {
        assert(opts_model(out@) =~= opts_model(v@));
    }
    out
}


/// The outcome of a symbol lookup, in the model.
pub enum LookupRes {
    Failed(ErrModel),
    Found(Seq<char>, SymbolKind),
    Missing,
}

/// The symbol kind a class member answers a lookup with.
pub open spec fn member_symbol_kind_spec(k: MemberKind) -> SymbolKind {
    match k {
        MemberKind::Function | MemberKind::Decorator => SymbolKind::Function,
        MemberKind::Var => SymbolKind::Var,
        MemberKind::TypeAlias => SymbolKind::TypeAlias,
        MemberKind::TypeVarLike => SymbolKind::TypeVarLike,
        MemberKind::Module => SymbolKind::Module,
        MemberKind::Other => SymbolKind::Other,
    }
}

fn member_symbol_kind(k: MemberKind) -> (r: SymbolKind)
    ensures
        r == member_symbol_kind_spec(k),
{
    match k {
        MemberKind::Function | MemberKind::Decorator => SymbolKind::Function,
        MemberKind::Var => SymbolKind::Var,
        MemberKind::TypeAlias => SymbolKind::TypeAlias,
        MemberKind::TypeVarLike => SymbolKind::TypeVarLike,
        MemberKind::Module => SymbolKind::Module,
        MemberKind::Other => SymbolKind::Other,
    }
}

/// A lookup in a class frame: the class's own members.
pub open spec fn class_lookup_spec(st: RecordStore, class: Seq<char>, name: Seq<char>) -> LookupRes {
    match st.facts_rec(class) {
        None => LookupRes::Failed(ErrModel::UnknownClass(class)),
        Some(f) => match f.members.lookup(name) {
            None => LookupRes::Missing,
            Some(m) => LookupRes::Found(qualified_spec(class, name), member_symbol_kind_spec(m.kind)),
        },
    }
}

/// A visible symbol of a module, if any.
pub open spec fn visible_symbol(m: ModuleFacts, name: Seq<char>) -> Option<SymbolFact> {
    match m.symbols.lookup(name) {
        Some(f) => if f.module_hidden {
            None
        } else {
            Some(f)
        },
        None => None,
    }
}

/// A symbol lookup in a frame: a module frame must hold the name, a class
/// frame answers from the class's own members, and a function frame from
/// its enclosing class, then its module, where a miss may be a local and
/// is no error.
pub open spec fn scope_lookup_spec(st: RecordStore, scope: ScopeModel, name: Seq<char>) -> LookupRes {
    match scope {
        ScopeModel::Module(m) => match st.module_rec(m) {
            None => LookupRes::Failed(ErrModel::UnknownModule(m)),
            Some(mf) => match visible_symbol(mf, name) {
                Some(f) => LookupRes::Found(f.fullname@, f.kind),
                None => LookupRes::Failed(ErrModel::UnknownSymbol(m, name)),
            },
        },
        ScopeModel::Class(c) => class_lookup_spec(st, c, name),
        ScopeModel::Function { module, class, .. } => {
            let hit = match class {
                Some(c) => class_lookup_spec(st, c, name),
                None => LookupRes::Missing,
            };
            match hit {
                LookupRes::Missing => match st.module_rec(module) {
                    None => LookupRes::Failed(ErrModel::UnknownModule(module)),
                    Some(mf) => match visible_symbol(mf, name) {
                        Some(f) => LookupRes::Found(f.fullname@, f.kind),
                        None => LookupRes::Missing,
                    },
                },
                _ => hit,
            }
        },
    }
}

/// Whether an exec lookup result matches its model.
pub open spec fn lookup_matches(r: Result<Option<SymbolRef>, RecordError>, want: LookupRes, scope: SymbolScope) -> bool {
    match r {
        Err(e) => want == LookupRes::Failed(err_model(e)),
        Ok(None) => want == LookupRes::Missing,
        Ok(Some(sr)) => want == LookupRes::Found(sr.fullname@, sr.kind) && scope_model(sr.scope) == scope_model(scope),
    }
}

impl RecordStore {
    fn class_lookup(&self, class: &str, name: &str, scope: &SymbolScope) -> (r: Result<Option<SymbolRef>, RecordError>)
        ensures
            lookup_matches(r, class_lookup_spec(*self, class@, name@), *scope),
    {
        let f = self.class_facts(class)?;
        match f.members.get(name) {
            None => Ok(None),
            Some(m) => Ok(
                Some(SymbolRef { fullname: qualified(class, name), kind: member_symbol_kind(m.kind), scope: clone_scope(scope) }),
            ),
        }
    }

    /// Look `name` up in a frame the record layer owns: a module's symbol
    /// table, a class's own members, or, for a function frame, its
    /// enclosing class and module.
    pub fn lookup(&self, scope: &SymbolScope, name: &str) -> (r: Result<Option<SymbolRef>, RecordError>)
        ensures
            lookup_matches(r, scope_lookup_spec(*self, scope_model(*scope), name@), *scope),
    {
        match scope {
            SymbolScope::Module(module) => {
                let fact = self.lookup_module_symbol(module.as_str(), name)?;
                Ok(Some(SymbolRef { fullname: fact.fullname.clone(), kind: fact.kind, scope: clone_scope(scope) }))
            },
            SymbolScope::Class(class) => self.class_lookup(class.as_str(), name, scope),
            SymbolScope::Function { module, class, .. } => {
                let hit = match class {
                    Some(c) => self.class_lookup(c.as_str(), name, scope)?,
                    None => None,
                };
                if hit.is_some() {
                    return Ok(hit);
                }
                match self.modules.get(module.as_str()) {
                    None => Err(RecordError::UnknownModule { fullname: module.clone() }),
                    Some(found) => match found.resolve(name) {
                        Some(fact) => Ok(
                            Some(SymbolRef { fullname: fact.fullname.clone(), kind: fact.kind, scope: clone_scope(scope) }),
                        ),
                        None => Ok(None),
                    },
                }
            },
        }
    }
}


/// The bases a class is built with: its declared bases, or the implicit
/// `builtins.object` when it declares none (and is not `object`).
pub open spec fn implicit_object_base(f: ClassFacts) -> bool {
    f.bases@.len() == 0 && f.fullname@ != "builtins.object"@
}

/// The fullnames of the bases a class is built with.
pub open spec fn base_names(f: ClassFacts) -> Seq<Seq<char>> {
    if implicit_object_base(f) {
        seq!["builtins.object"@]
    } else {
        f.bases@.map_values(|b: BaseFact| b.fullname@)
    }
}

/// The bases a class is built with, as instances.
pub open spec fn base_types(f: ClassFacts) -> Seq<TypeModel> {
    if implicit_object_base(f) {
        seq![instance_model("builtins.object"@, Seq::empty())]
    } else {
        f.bases@.map_values(|b: BaseFact| instance_model(b.fullname@, types_model(b.args@)))
    }
}

/// The first index from `i` whose name occurs earlier in `names`.
pub open spec fn first_dup_from(names: Seq<Seq<char>>, i: int) -> Option<int>
    decreases names.len() - i,
{
    if i < 0 || i >= names.len() {
        None
    } else if names.take(i).contains(names[i]) {
        Some(i)
    } else {
        first_dup_from(names, i + 1)
    }
}

/// The first base from `i` that has no record, or whose record makes the
/// class its own ancestor.
pub open spec fn unresolved_from(st: RecordStore, f: ClassFacts, names: Seq<Seq<char>>, i: int) -> Option<ErrModel>
    decreases names.len() - i,
{
    if i < 0 || i >= names.len() {
        None
    } else {
        match st.class_rec(names[i]) {
            None => Some(ErrModel::UnresolvedBase(f.fullname@, names[i])),
            Some(b) => if names[i] == f.fullname@ || strs_model(b.mro@).contains(f.fullname@) {
                Some(ErrModel::CyclicBases(f.fullname@, seq![f.fullname@, names[i]]))
            } else {
                unresolved_from(st, f, names, i + 1)
            },
        }
    }
}

/// Base fixup: a duplicate base, then an unresolved or cyclic base, in
/// base order.
pub open spec fn fixup_error(st: RecordStore, f: ClassFacts) -> Option<ErrModel> {
    let names = base_names(f);
    match first_dup_from(names, 0) {
        Some(i) => Some(ErrModel::DuplicateBase(f.fullname@, names[i])),
        None => unresolved_from(st, f, names, 0),
    }
}

/// The total length of a list of lists.
pub open spec fn total_len(seqs: Seq<Seq<Seq<char>>>) -> nat
    decreases seqs.len(),
{
    if seqs.len() == 0 {
        0
    } else {
        total_len(seqs.drop_last()) + seqs.last().len()
    }
}

/// A list without its head; an empty list stays empty.
pub open spec fn tail_of(s: Seq<Seq<char>>) -> Seq<Seq<char>> {
    if s.len() > 0 {
        s.drop_first()
    } else {
        s
    }
}

/// Whether `h` occurs in the tail of some list.
pub open spec fn in_some_tail(seqs: Seq<Seq<Seq<char>>>, h: Seq<char>) -> bool {
    exists|k: int| 0 <= k < seqs.len() && #[trigger] tail_of(seqs[k]).contains(h)
}

/// The first list from `j` whose head is in no list's tail.
pub open spec fn pick_index(seqs: Seq<Seq<Seq<char>>>, j: int) -> Option<int>
    decreases seqs.len() - j,
{
    if j < 0 || j >= seqs.len() {
        None
    } else if seqs[j].len() > 0 && !in_some_tail(seqs, seqs[j][0]) {
        Some(j)
    } else {
        pick_index(seqs, j + 1)
    }
}

/// Every list that starts with `h`, without it.
pub open spec fn drop_head(seqs: Seq<Seq<Seq<char>>>, h: Seq<char>) -> Seq<Seq<Seq<char>>> {
    seqs.map_values(|s: Seq<Seq<char>>| if s.len() > 0 && s[0] == h { s.drop_first() } else { s })
}

pub proof fn lemma_pick_index(seqs: Seq<Seq<Seq<char>>>, j: int)
    requires
        0 <= j,
    ensures
        match pick_index(seqs, j) {
            Some(i) => j <= i < seqs.len() && seqs[i].len() > 0 && !in_some_tail(seqs, seqs[i][0]),
            None => true,
        },
    decreases seqs.len() - j,
{
    if j < seqs.len() && !(seqs[j].len() > 0 && !in_some_tail(seqs, seqs[j][0])) {
        lemma_pick_index(seqs, j + 1);
    }
}

pub proof fn lemma_drop_head_le(seqs: Seq<Seq<Seq<char>>>, h: Seq<char>)
    ensures
        total_len(drop_head(seqs, h)) <= total_len(seqs),
    decreases seqs.len(),
{
    if seqs.len() > 0 {
        assert(drop_head(seqs, h).drop_last() =~= drop_head(seqs.drop_last(), h));
        lemma_drop_head_le(seqs.drop_last(), h);
    }
}

pub proof fn lemma_drop_head_lt(seqs: Seq<Seq<Seq<char>>>, h: Seq<char>, j: int)
    requires
        0 <= j < seqs.len(),
        seqs[j].len() > 0,
        seqs[j][0] == h,
    ensures
        total_len(drop_head(seqs, h)) < total_len(seqs),
    decreases seqs.len(),
{
    assert(drop_head(seqs, h).drop_last() =~= drop_head(seqs.drop_last(), h));
    if j == seqs.len() - 1 {
        lemma_drop_head_le(seqs.drop_last(), h);
    } else {
        lemma_drop_head_lt(seqs.drop_last(), h, j);
    }
}

/// The C3 merge: repeatedly take the first head that is in no list's
/// tail, remove it from the heads of every list, until all are empty.
/// `None` when no head qualifies.
pub open spec fn c3_merge(seqs: Seq<Seq<Seq<char>>>) -> Option<Seq<Seq<char>>>
    decreases total_len(seqs),
{
    if total_len(seqs) == 0 {
        Some(Seq::empty())
    } else {
        match pick_index(seqs, 0) {
            None => None,
            Some(j) => {
                proof {
                    lemma_pick_index(seqs, 0);
                    lemma_drop_head_lt(seqs, seqs[j][0], j);
                }
                match c3_merge(drop_head(seqs, seqs[j][0])) {
                    None => None,
                    Some(rest) => Some(seq![seqs[j][0]] + rest),
                }
            },
        }
    }
}

/// The MRO of a class whose bases have the given MROs: the class, then the
/// C3 merge of the base MROs and the base list.
pub open spec fn linearize_spec(st: RecordStore, f: ClassFacts) -> Option<Seq<Seq<char>>> {
    let names = base_names(f);
    let mros = names.map_values(|n: Seq<char>| strs_model(st.class_rec(n).unwrap().mro@));
    match c3_merge(mros.push(names)) {
        None => None,
        Some(m) => Some(seq![f.fullname@] + m),
    }
}

/// The models of a list of lists of names.
pub open spec fn seqs_model(v: Seq<Vec<String>>) -> Seq<Seq<Seq<char>>> {
    v.map_values(|s: Vec<String>| strs_model(s@))
}

proof fn lemma_total_zero(seqs: Seq<Seq<Seq<char>>>)
    ensures
        (total_len(seqs) == 0) == (forall|k: int| 0 <= k < seqs.len() ==> #[trigger] seqs[k].len() == 0),
    decreases seqs.len(),
{
    if seqs.len() > 0 {
        lemma_total_zero(seqs.drop_last());
        if total_len(seqs) == 0 {
            assert forall|k: int| 0 <= k < seqs.len() implies #[trigger] seqs[k].len() == 0 by {
                if k < seqs.len() - 1 {
                    assert(seqs[k] == seqs.drop_last()[k]);
                }
            }
        } else {
            if forall|k: int| 0 <= k < seqs.len() ==> #[trigger] seqs[k].len() == 0 {
                assert forall|k: int| 0 <= k < seqs.drop_last().len() implies #[trigger] seqs.drop_last()[k].len() == 0 by {
                    assert(seqs[k] == seqs.drop_last()[k]);
                }
                assert(seqs[seqs.len() - 1].len() == 0);
            }
        }
    }
}

/// Whether every list is empty.
fn all_empty(seqs: &Vec<Vec<String>>) -> (r: bool)
    ensures
        r == (total_len(seqs_model(seqs@)) == 0),
{
    let mut k: usize = 0;
    while k < seqs.len()
        invariant
            k <= seqs@.len(),
            forall|i: int| 0 <= i < k ==> #[trigger] seqs@[i]@.len() == 0,
        decreases seqs@.len() - k,
    {
        if seqs[k].len() > 0 {
            proof {
                lemma_total_zero(seqs_model(seqs@));
                assert(seqs_model(seqs@)[k as int].len() > 0);
            }
            return false;
        }
        k = k + 1;
    }
    proof {
        lemma_total_zero(seqs_model(seqs@));
        assert forall|i: int| 0 <= i < seqs_model(seqs@).len() implies #[trigger] seqs_model(seqs@)[i].len() == 0 by {
            assert(seqs@[i]@.len() == 0);
        }
    }
    true
}

/// Whether `h` occurs in the tail of some list.
fn in_some_tail_exec(seqs: &Vec<Vec<String>>, h: &str) -> (r: bool)
    ensures
        r == in_some_tail(seqs_model(seqs@), h@),
{
    let ghost m = seqs_model(seqs@);
    let mut k: usize = 0;
    while k < seqs.len()
        invariant
            k <= seqs@.len(),
            m == seqs_model(seqs@),
            forall|i: int| 0 <= i < k ==> !(#[trigger] tail_of(m[i])).contains(h@),
        decreases seqs@.len() - k,
    {
        let s = &seqs[k];
        let mut t: usize = 1;
        proof {
            assert(m[k as int] == strs_model(s@));
        }
        while t < s.len()
            invariant
                1 <= t,
                k < seqs@.len(),
                m == seqs_model(seqs@),
                m[k as int] == strs_model(s@),
                forall|u: int| 1 <= u < t && u < s@.len() ==> s@[u]@ != h@,
            decreases s@.len() - t,
        {
            if str_eq(s[t].as_str(), h) {
                proof {
                    assert(tail_of(m[k as int])[t - 1] == h@);
                    assert(tail_of(m[k as int]).contains(h@));
                }
                return true;
            }
            t = t + 1;
        }
        proof {
            assert forall|x: int| 0 <= x < tail_of(m[k as int]).len() implies tail_of(m[k as int])[x] != h@ by {
                assert(tail_of(m[k as int])[x] == s@[x + 1]@);
            }
        }
        k = k + 1;
    }
    false
}

/// `drop_head` on concrete lists.
fn drop_head_exec(seqs: &Vec<Vec<String>>, h: &str) -> (r: Vec<Vec<String>>)
    ensures
        seqs_model(r@) == drop_head(seqs_model(seqs@), h@),
{
    let mut out: Vec<Vec<String>> = Vec::new();
    let mut k: usize = 0;
    while k < seqs.len()
        invariant
            k <= seqs@.len(),
            out@.len() == k,
            forall|i: int| 0 <= i < k ==> #[trigger] seqs_model(out@)[i] == drop_head(seqs_model(seqs@), h@)[i],
        decreases seqs@.len() - k,
    {
        let s = &seqs[k];
        let drop = s.len() > 0 && str_eq(s[0].as_str(), h);
        let start: usize = if drop { 1 } else { 0 };
        let mut c: Vec<String> = Vec::new();
        let mut t = start;
        while t < s.len()
            invariant
                start <= t <= s@.len(),
                strs_model(c@) == strs_model(s@).subrange(start as int, t as int),
            decreases s@.len() - t,
        {
            let x = s[t].clone();
            proof {
                assert(strs_model(c@.push(x)) =~= strs_model(c@).push(x@));
                assert(strs_model(s@).subrange(start as int, t + 1) =~= strs_model(s@).subrange(start as int, t as int).push(x@));
            }
            c.push(x);
            t = t + 1;
        }
        proof {
            let sm = strs_model(s@);
            if drop {
                assert(sm.subrange(1, sm.len() as int) =~= sm.drop_first());
            } else {
                assert(sm.subrange(0, sm.len() as int) =~= sm);
            }
        }
        let ghost prev = out@;
        out.push(c);
        proof {
            assert forall|i: int| 0 <= i < k + 1 implies #[trigger] seqs_model(out@)[i] == drop_head(seqs_model(seqs@), h@)[i] by {
                if i < k {
                    assert(out@[i] == prev[i]);
                    assert(seqs_model(prev)[i] == drop_head(seqs_model(seqs@), h@)[i]);
                } else {
                    assert(seqs_model(out@)[i] == strs_model(c@));
                }
            }
        }
        k = k + 1;
    }
    proof {
        assert(seqs_model(out@) =~= drop_head(seqs_model(seqs@), h@));
    }
    out
}

/// The first list whose head is in no list's tail.
fn find_pick(cur: &Vec<Vec<String>>) -> (r: Option<usize>)
    ensures
        match r {
            Some(j) => pick_index(seqs_model(cur@), 0) == Some(j as int) && j < cur@.len() && cur@[j as int]@.len() > 0,
            None => pick_index(seqs_model(cur@), 0).is_none(),
        },
{
    let ghost m = seqs_model(cur@);
    let mut j: usize = 0;
    while j < cur.len()
        invariant
            j <= cur@.len(),
            m == seqs_model(cur@),
            pick_index(m, 0) == pick_index(m, j as int),
        decreases cur@.len() - j,
    {
        if cur[j].len() > 0 && !in_some_tail_exec(cur, cur[j][0].as_str()) {
            proof {
                assert(m[j as int][0] == cur@[j as int]@[0]@);
            }
            return Some(j);
        }
        proof {
            if cur@[j as int]@.len() > 0 {
                assert(m[j as int][0] == cur@[j as int]@[0]@);
            }
        }
        j = j + 1;
    }
    None
}

/// The C3 merge on concrete lists.
fn c3_merge_exec(seqs: Vec<Vec<String>>) -> (r: Option<Vec<String>>)
    ensures
        match r {
            None => c3_merge(seqs_model(seqs@)).is_none(),
            Some(v) => c3_merge(seqs_model(seqs@)) == Some(strs_model(v@)),
        },
{
    let ghost orig = seqs_model(seqs@);
    let mut cur = seqs;
    let mut result: Vec<String> = Vec::new();
    loop
        invariant
            orig == seqs_model(seqs@),
            c3_merge(orig) == match c3_merge(seqs_model(cur@)) {
                None => None,
                Some(rest) => Some(strs_model(result@) + rest),
            },
        decreases total_len(seqs_model(cur@)),
    {
        if all_empty(&cur) {
            proof {
                assert(strs_model(result@) + Seq::<Seq<char>>::empty() =~= strs_model(result@));
            }
            return Some(result);
        }
        let ghost m = seqs_model(cur@);
        let found = find_pick(&cur);
        match found {
            None => {
                return None;
            },
            Some(j) => {
                let h = cur[j][0].clone();
                proof {
                    lemma_pick_index(m, 0);
                    lemma_drop_head_lt(m, m[j as int][0], j as int);
                    assert(strs_model(result@.push(h)) =~= strs_model(result@).push(h@));
                    assert(seq![h@] + c3_merge(drop_head(m, h@)).unwrap_or(Seq::empty()) == seq![h@] + c3_merge(drop_head(m, h@)).unwrap_or(Seq::empty()));
                }
                let next = drop_head_exec(&cur, h.as_str());
                result.push(h);
                cur = next;
                proof {
                    assert forall|rest: Seq<Seq<char>>| #![trigger strs_model(result@) + rest] strs_model(result@) + rest
                        == strs_model(result@).drop_last() + (seq![strs_model(result@).last()] + rest) by {
                        assert(strs_model(result@) + rest =~= strs_model(result@).drop_last() + (seq![strs_model(result@).last()] + rest));
                    }
                }
            },
        }
    }
}


/// Whether class `name` has `base` in its MRO, reading the class being
/// built from its new MRO and every other class from its record; `None`
/// when `name` has no record.
pub open spec fn has_base_incl(st: RecordStore, f: ClassFacts, mro: Seq<Seq<char>>, name: Seq<char>, base: Seq<char>) -> Option<bool> {
    if name == f.fullname@ {
        Some(mro.contains(base))
    } else {
        match st.class_rec(name) {
            None => None,
            Some(s) => Some(s.has_base.has(base)),
        }
    }
}

/// The facts of class `name`, the class being built included.
pub open spec fn facts_incl(st: RecordStore, f: ClassFacts, name: Seq<char>) -> Option<ClassFacts> {
    if name == f.fullname@ {
        Some(f)
    } else {
        st.facts_rec(name)
    }
}

/// The metaclass walk over `mro[i..]`: each declared metaclass of a base
/// replaces the winner when it is a subclass of it, is dropped when the
/// winner is a subclass of it, and otherwise the conflict leaves no
/// metaclass. `Err` at a class or metaclass without a record.
pub open spec fn meta_walk(
    st: RecordStore,
    f: ClassFacts,
    mro: Seq<Seq<char>>,
    i: int,
    winner: Option<Seq<char>>,
) -> Result<Option<Seq<char>>, ErrModel>
    decreases mro.len() - i,
{
    if i < 0 || i >= mro.len() {
        Ok(winner)
    } else {
        match facts_incl(st, f, mro[i]) {
            None => Err(ErrModel::UnknownClass(mro[i])),
            Some(bf) => match bf.declared_metaclass {
                None => meta_walk(st, f, mro, i + 1, winner),
                Some(sm) => match winner {
                    None => meta_walk(st, f, mro, i + 1, Some(sm@)),
                    Some(cur) => match has_base_incl(st, f, mro, cur, sm@) {
                        None => Err(ErrModel::UnknownClass(cur)),
                        Some(true) => meta_walk(st, f, mro, i + 1, winner),
                        Some(false) => match has_base_incl(st, f, mro, sm@, cur) {
                            None => Err(ErrModel::UnknownClass(sm@)),
                            Some(true) => meta_walk(st, f, mro, i + 1, Some(sm@)),
                            Some(false) => Ok(None),
                        },
                    },
                },
            },
        }
    }
}

/// Whether a class of `mro[i..]` is a protocol; `Err` at a class without
/// facts met before one.
pub open spec fn proto_walk(st: RecordStore, f: ClassFacts, mro: Seq<Seq<char>>, i: int) -> Result<bool, ErrModel>
    decreases mro.len() - i,
{
    if i < 0 || i >= mro.len() {
        Ok(false)
    } else {
        match facts_incl(st, f, mro[i]) {
            None => Err(ErrModel::UnknownClass(mro[i])),
            Some(bf) => if bf.is_protocol {
                Ok(true)
            } else {
                proto_walk(st, f, mro, i + 1)
            },
        }
    }
}

/// The metaclass after the declared one: `type` is its own metaclass;
/// otherwise the MRO walk decides, and a protocol, or a subclass of one,
/// left with no metaclass or `type` gets `abc.ABCMeta`.
pub open spec fn meta_rest(st: RecordStore, f: ClassFacts, mro: Seq<Seq<char>>, declared: Option<Seq<char>>) -> Result<
    Option<Seq<char>>,
    ErrModel,
> {
    if f.fullname@ == "builtins.type"@ {
        Ok(Some("builtins.type"@))
    } else {
        match meta_walk(st, f, mro, 1, declared) {
            Err(e) => Err(e),
            Ok(w) => match proto_walk(st, f, mro, 0) {
                Err(e) => Err(e),
                Ok(any_protocol) => if any_protocol && (w.is_none() || w == Some("builtins.type"@)) {
                    if st.class_rec("abc.ABCMeta"@).is_some() {
                        Ok(Some("abc.ABCMeta"@))
                    } else {
                        Err(ErrModel::UnknownClass("abc.ABCMeta"@))
                    }
                } else {
                    Ok(w)
                },
            },
        }
    }
}

/// The calculated metaclass of the class being built: a declared
/// metaclass outside the `type` hierarchy wins outright; otherwise
/// `meta_rest`. `None` is no metaclass.
pub open spec fn meta_spec(st: RecordStore, f: ClassFacts, mro: Seq<Seq<char>>) -> Result<Option<Seq<char>>, ErrModel> {
    match f.declared_metaclass {
        Some(m) => match has_base_incl(st, f, mro, m@, "builtins.type"@) {
            None => Err(ErrModel::UnknownClass(m@)),
            Some(false) => Ok(Some(m@)),
            Some(true) => meta_rest(st, f, mro, Some(m@)),
        },
        None => meta_rest(st, f, mro, None),
    }
}

/// Whether the class being built is an enum: an enum metaclass makes it
/// one, and then it must not be generic.
pub open spec fn enum_spec(st: RecordStore, f: ClassFacts, mro: Seq<Seq<char>>, meta: Option<Seq<char>>) -> Result<bool, ErrModel> {
    match meta {
        None => Ok(f.is_enum),
        Some(m) => match has_base_incl(st, f, mro, m, "enum.EnumMeta"@) {
            None => Err(ErrModel::UnknownClass(m)),
            Some(false) => Ok(f.is_enum),
            Some(true) => if f.type_vars@.len() > 0 {
                Err(ErrModel::Unsupported(f.fullname@, "an enum class cannot be generic (semanal.py:4050)"@))
            } else {
                Ok(true)
            },
        },
    }
}

/// Whether `mro` holds `x`.
fn names_contain(mro: &Vec<String>, x: &str) -> (r: bool)
    ensures
        r == strs_model(mro@).contains(x@),
{
    let mut i: usize = 0;
    while i < mro.len()
        invariant
            i <= mro@.len(),
            forall|j: int| 0 <= j < i ==> mro@[j]@ != x@,
        decreases mro@.len() - i,
    {
        if str_eq(mro[i].as_str(), x) {
            proof {
                assert(strs_model(mro@)[i as int] == x@);
            }
            return true;
        }
        i = i + 1;
    }
    proof {
        if strs_model(mro@).contains(x@) {
            let k = choose|k: int| 0 <= k < strs_model(mro@).len() && strs_model(mro@)[k] == x@;
            assert(mro@[k]@ == x@);
        }
    }
    false
}

impl RecordStore {
    fn has_base_including(&self, f: &ClassFacts, mro: &Vec<String>, name: &str, base: &str) -> (r: Option<bool>)
        ensures
            r == has_base_incl(*self, *f, strs_model(mro@), name@, base@),
    {
        if str_eq(name, f.fullname.as_str()) {
            Some(names_contain(mro, base))
        } else {
            match self.classes.get(name) {
                None => None,
                Some(s) => Some(s.has_base.contains(base)),
            }
        }
    }

    fn facts_including<'a>(&'a self, f: &'a ClassFacts, name: &str) -> (r: Option<&'a ClassFacts>)
        ensures
            match facts_incl(*self, *f, name@) {
                None => r.is_none(),
                Some(x) => r == Some(&x),
            },
    {
        if str_eq(name, f.fullname.as_str()) {
            Some(f)
        } else {
            self.facts.get(name)
        }
    }

    fn meta_walk_exec(&self, f: &ClassFacts, mro: &Vec<String>, declared: Option<String>) -> (r: Result<Option<String>, RecordError>)
        ensures
            match r {
                Err(e) => meta_walk(*self, *f, strs_model(mro@), 1, opt_str(declared)) == Err::<Option<Seq<char>>, ErrModel>(err_model(e)),
                Ok(w) => meta_walk(*self, *f, strs_model(mro@), 1, opt_str(declared)) == Ok::<Option<Seq<char>>, ErrModel>(opt_str(w)),
            },
    {
        let ghost m = strs_model(mro@);
        let mut winner = declared;
        let mut i: usize = 1;
        while i < mro.len()
            invariant
                1 <= i,
                m == strs_model(mro@),
                meta_walk(*self, *f, m, 1, opt_str(declared)) == meta_walk(*self, *f, m, i as int, opt_str(winner)),
            decreases mro@.len() - i,
        {
            match self.facts_including(f, mro[i].as_str()) {
                None => {
                    return Err(RecordError::UnknownClass { fullname: mro[i].clone() });
                },
                Some(bf) => match &bf.declared_metaclass {
                    None => {},
                    Some(sm) => {
                        match &winner {
                            None => {
                                winner = Some(sm.clone());
                            },
                            Some(cur) => {
                                match self.has_base_including(f, mro, cur.as_str(), sm.as_str()) {
                                    None => {
                                        return Err(RecordError::UnknownClass { fullname: cur.clone() });
                                    },
                                    Some(true) => {},
                                    Some(false) => {
                                        match self.has_base_including(f, mro, sm.as_str(), cur.as_str()) {
                                            None => {
                                                return Err(RecordError::UnknownClass { fullname: sm.clone() });
                                            },
                                            Some(true) => {
                                                winner = Some(sm.clone());
                                            },
                                            Some(false) => {
                                                return Ok(None);
                                            },
                                        }
                                    },
                                }
                            },
                        }
                    },
                },
            }
            i = i + 1;
        }
        Ok(winner)
    }

    fn proto_walk_exec(&self, f: &ClassFacts, mro: &Vec<String>) -> (r: Result<bool, RecordError>)
        ensures
            match r {
                Err(e) => proto_walk(*self, *f, strs_model(mro@), 0) == Err::<bool, ErrModel>(err_model(e)),
                Ok(b) => proto_walk(*self, *f, strs_model(mro@), 0) == Ok::<bool, ErrModel>(b),
            },
    {
        let ghost m = strs_model(mro@);
        let mut i: usize = 0;
        while i < mro.len()
            invariant
                m == strs_model(mro@),
                proto_walk(*self, *f, m, 0) == proto_walk(*self, *f, m, i as int),
            decreases mro@.len() - i,
        {
            match self.facts_including(f, mro[i].as_str()) {
                None => {
                    return Err(RecordError::UnknownClass { fullname: mro[i].clone() });
                },
                Some(bf) => {
                    if bf.is_protocol {
                        return Ok(true);
                    }
                },
            }
            i = i + 1;
        }
        Ok(false)
    }

    fn metaclass(&self, f: &ClassFacts, mro: &Vec<String>) -> (r: Result<Option<String>, RecordError>)
        ensures
            match r {
                Err(e) => meta_spec(*self, *f, strs_model(mro@)) == Err::<Option<Seq<char>>, ErrModel>(err_model(e)),
                Ok(w) => meta_spec(*self, *f, strs_model(mro@)) == Ok::<Option<Seq<char>>, ErrModel>(opt_str(w)),
            },
    {
        let declared: Option<String> = match &f.declared_metaclass {
            Some(m) => match self.has_base_including(f, mro, m.as_str(), "builtins.type") {
                None => {
                    return Err(RecordError::UnknownClass { fullname: m.clone() });
                },
                Some(false) => {
                    return Ok(Some(m.clone()));
                },
                Some(true) => Some(m.clone()),
            },
            None => None,
        };
        if str_eq(f.fullname.as_str(), "builtins.type") {
            return Ok(Some(owned("builtins.type")));
        }
        let w = self.meta_walk_exec(f, mro, declared)?;
        let any_protocol = self.proto_walk_exec(f, mro)?;
        let default_meta = match &w {
            None => true,
            Some(x) => str_eq(x.as_str(), "builtins.type"),
        };
        if any_protocol && default_meta {
            if self.classes.get("abc.ABCMeta").is_some() {
                return Ok(Some(owned("abc.ABCMeta")));
            }
            return Err(RecordError::UnknownClass { fullname: owned("abc.ABCMeta") });
        }
        Ok(w)
    }

    fn enum_exec(&self, f: &ClassFacts, mro: &Vec<String>, meta: &Option<String>) -> (r: Result<bool, RecordError>)
        ensures
            match r {
                Err(e) => enum_spec(*self, *f, strs_model(mro@), opt_str(*meta)) == Err::<bool, ErrModel>(err_model(e)),
                Ok(b) => enum_spec(*self, *f, strs_model(mro@), opt_str(*meta)) == Ok::<bool, ErrModel>(b),
            },
    {
        match meta {
            None => Ok(f.is_enum),
            Some(m) => match self.has_base_including(f, mro, m.as_str(), "enum.EnumMeta") {
                None => Err(RecordError::UnknownClass { fullname: m.clone() }),
                Some(false) => Ok(f.is_enum),
                Some(true) => {
                    if f.type_vars.len() > 0 {
                        Err(RecordError::Unsupported { subject: f.fullname.clone(), reason: owned("an enum class cannot be generic (semanal.py:4050)") })
                    } else {
                        Ok(true)
                    }
                },
            },
        }
    }
}

/// The model of an optional string.
pub open spec fn opt_str(s: Option<String>) -> Option<Seq<char>> {
    match s {
        Some(x) => Some(x@),
        None => None,
    }
}


/// The first index in `mro[i..n)` whose class has no facts.
pub open spec fn missing_from(st: RecordStore, f: ClassFacts, mro: Seq<Seq<char>>, i: int, n: int) -> Option<int>
    decreases n - i,
{
    if i < 0 || i >= n || i >= mro.len() {
        None
    } else if facts_incl(st, f, mro[i]).is_none() {
        Some(i)
    } else {
        missing_from(st, f, mro, i + 1, n)
    }
}

pub proof fn lemma_missing_from(st: RecordStore, f: ClassFacts, mro: Seq<Seq<char>>, i: int, n: int)
    requires
        0 <= i,
        n <= mro.len(),
    ensures
        match missing_from(st, f, mro, i, n) {
            Some(k) => i <= k < n && facts_incl(st, f, mro[k]).is_none()
                && forall|j: int| i <= j < k ==> #[trigger] facts_incl(st, f, mro[j]).is_some(),
            None => forall|j: int| i <= j < n ==> #[trigger] facts_incl(st, f, mro[j]).is_some(),
        },
    decreases n - i,
{
    if i < n && facts_incl(st, f, mro[i]).is_some() {
        lemma_missing_from(st, f, mro, i + 1, n);
    }
}

/// The attributes protocol membership leaves out.
pub open spec fn excluded_protocol_attr(k: Seq<char>) -> bool {
    ||| k == "__abstractmethods__"@
    ||| k == "__annotations__"@
    ||| k == "__class_getitem__"@
    ||| k == "__dict__"@
    ||| k == "__doc__"@
    ||| k == "__init__"@
    ||| k == "__module__"@
    ||| k == "__new__"@
    ||| k == "__slots__"@
    ||| k == "__subclasshook__"@
    ||| k == "__weakref__"@
}

fn is_excluded_protocol_attr(k: &str) -> (r: bool)
    ensures
        r == excluded_protocol_attr(k@),
{
    str_eq(k, "__abstractmethods__") || str_eq(k, "__annotations__") || str_eq(k, "__class_getitem__")
        || str_eq(k, "__dict__") || str_eq(k, "__doc__") || str_eq(k, "__init__") || str_eq(k, "__module__")
        || str_eq(k, "__new__") || str_eq(k, "__slots__") || str_eq(k, "__subclasshook__") || str_eq(k, "__weakref__")
}

/// Whether class `c` contributes `k` to the protocol members: it is a
/// protocol that defines `k` as neither an auxiliary definition nor an
/// excluded attribute.
pub open spec fn proto_contrib(st: RecordStore, f: ClassFacts, c: Seq<char>, k: Seq<char>) -> bool {
    match facts_incl(st, f, c) {
        Some(bf) => bf.is_protocol && match bf.members.lookup(k) {
            Some(m) => !auxiliary_kind(m.kind) && !excluded_protocol_attr(k),
            None => false,
        },
        None => false,
    }
}

/// Whether `k` is a protocol member: contributed by a class of the MRO
/// other than its last entry, `object`.
pub open spec fn protocol_member(st: RecordStore, f: ClassFacts, mro: Seq<Seq<char>>, k: Seq<char>) -> bool {
    exists|i: int| 0 <= i < mro.len() - 1 && #[trigger] proto_contrib(st, f, mro[i], k)
}

/// The protocol members are computable when every class of the MRO but
/// the last has facts; otherwise the first one without is the error.
pub open spec fn protocol_error(st: RecordStore, f: ClassFacts, mro: Seq<Seq<char>>) -> Option<ErrModel> {
    match missing_from(st, f, mro, 0, mro.len() - 1) {
        Some(i) => Some(ErrModel::UnknownClass(mro[i])),
        None => None,
    }
}


/// Whether one of the first `e` entries is bound to `k`.
pub open spec fn key_before<V>(entries: Seq<(String, V)>, e: int, k: Seq<char>) -> bool {
    exists|x: int| 0 <= x < e && (#[trigger] entries[x]).0@ == k
}

/// Insert `x` into a strictly sorted list, keeping it strictly sorted.
fn insert_sorted(v: &mut Vec<String>, x: String)
    requires
        strictly_sorted(strs_model(old(v)@)),
    ensures
        strictly_sorted(strs_model(final(v)@)),
        forall|k: Seq<char>| #[trigger] strs_model(final(v)@).contains(k) <==> (strs_model(old(v)@).contains(k) || k == x@),
{
    let ghost m = strs_model(v@);
    let mut i: usize = 0;
    while i < v.len()
        invariant
            i <= v@.len(),
            m == strs_model(v@),
            strictly_sorted(m),
            forall|j: int| 0 <= j < i ==> str_lt(#[trigger] m[j], x@),
        ensures
            i <= v@.len(),
            m == strs_model(v@),
            forall|j: int| 0 <= j < i ==> str_lt(#[trigger] m[j], x@),
            i < v@.len() ==> !str_lt(m[i as int], x@),
        decreases v@.len() - i,
    {
        if !str_less(v[i].as_str(), x.as_str()) {
            break;
        }
        i = i + 1;
    }
    if i < v.len() && str_eq(v[i].as_str(), x.as_str()) {
        proof {
            assert forall|k: Seq<char>| #[trigger] strs_model(v@).contains(k) <==> (m.contains(k) || k == x@) by {
                if k == x@ {
                    assert(m[i as int] == k);
                }
            }
        }
        return;
    }
    let ghost xv = x@;
    proof {
        if i < v@.len() {
            lemma_str_lt_total(m[i as int], xv);
        }
    }
    v.insert(i, x);
    proof {
        let n = strs_model(v@);
        assert(n =~= m.insert(i as int, xv));
        assert forall|a: int, b: int| 0 <= a < b < n.len() implies str_lt(#[trigger] n[a], #[trigger] n[b]) by {
            if b < i {
            } else if b == i {
            } else if a < i {
                if b - 1 == i {
                    lemma_str_lt_transitive(n[a], xv, n[b]);
                } else {
                    lemma_str_lt_transitive(n[a], xv, m[i as int]);
                    lemma_str_lt_transitive(n[a], m[i as int], n[b]);
                }
            } else if a == i {
                if b - 1 > i {
                    lemma_str_lt_transitive(xv, m[i as int], n[b]);
                }
            } else {
            }
        }
        assert forall|k: Seq<char>| #[trigger] n.contains(k) <==> (m.contains(k) || k == xv) by {
            if n.contains(k) {
                let j = choose|j: int| 0 <= j < n.len() && n[j] == k;
                if j < i {
                    assert(m[j] == k);
                } else if j > i {
                    assert(m[j - 1] == k);
                }
            }
            if m.contains(k) {
                let j = choose|j: int| 0 <= j < m.len() && m[j] == k;
                if j < i {
                    assert(n[j] == k);
                } else {
                    assert(n[j + 1] == k);
                }
            }
            if k == xv {
                assert(n[i as int] == k);
            }
        }
    }
}


impl RecordStore {
    /// The sorted protocol members of the class being built.
    fn protocol_members(&self, f: &ClassFacts, mro: &Vec<String>) -> (r: Result<Vec<String>, RecordError>)
        ensures
            match r {
                Err(e) => protocol_error(*self, *f, strs_model(mro@)) == Some(err_model(e)),
                Ok(v) => protocol_error(*self, *f, strs_model(mro@)).is_none()
                    && strictly_sorted(strs_model(v@))
                    && forall|k: Seq<char>| #[trigger] strs_model(v@).contains(k)
                        <==> protocol_member(*self, *f, strs_model(mro@), k),
            },
    {
        let ghost m = strs_model(mro@);
        let n: usize = if mro.len() > 0 { mro.len() - 1 } else { 0 };
        let mut out: Vec<String> = Vec::new();
        let mut i: usize = 0;
        proof {
            lemma_missing_from(*self, *f, m, 0, m.len() - 1);
        }
        while i < n
            invariant
                n <= mro@.len(),
                n == if mro@.len() > 0 { mro@.len() - 1 } else { 0 },
                i <= n,
                m == strs_model(mro@),
                missing_from(*self, *f, m, 0, m.len() - 1) == missing_from(*self, *f, m, i as int, m.len() - 1),
                strictly_sorted(strs_model(out@)),
                forall|k: Seq<char>| #[trigger] strs_model(out@).contains(k)
                    <==> exists|j: int| 0 <= j < i && #[trigger] proto_contrib(*self, *f, m[j], k),
            decreases n - i,
        {
            let bf = match self.facts_including(f, mro[i].as_str()) {
                None => {
                    return Err(RecordError::UnknownClass { fullname: mro[i].clone() });
                },
                Some(bf) => bf,
            };
            let ghost out0 = strs_model(out@);
            if bf.is_protocol {
                let mut e: usize = 0;
                while e < bf.members.entries.len()
                    invariant
                        e <= bf.members.entries@.len(),
                        i < n,
                        n <= mro@.len(),
                        m == strs_model(mro@),
                        bf.is_protocol,
                        facts_incl(*self, *f, m[i as int]) == Some(*bf),
                        strictly_sorted(strs_model(out@)),
                        forall|k: Seq<char>| #[trigger] strs_model(out@).contains(k) <==> (out0.contains(k) || (
                            proto_contrib(*self, *f, m[i as int], k) && key_before(bf.members.entries@, e as int, k))),
                    decreases bf.members.entries@.len() - e,
                {
                    let name = &bf.members.entries[e].0;
                    let member = bf.members.get(name.as_str());
                    proof {
                        lemma_assoc_index(bf.members.entries@, name@);
                    }
                    let take = match member {
                        Some(mf) => !mf.kind.is_auxiliary() && !is_excluded_protocol_attr(name.as_str()),
                        None => false,
                    };
                    let ghost before = strs_model(out@);
                    if take {
                        insert_sorted(&mut out, name.clone());
                    }
                    proof {
                        assert(take == proto_contrib(*self, *f, m[i as int], name@));
                        let ents = bf.members.entries@;
                        assert forall|k: Seq<char>| #[trigger] strs_model(out@).contains(k) <==> (out0.contains(k) || (
                            proto_contrib(*self, *f, m[i as int], k) && key_before(ents, e + 1, k))) by {
                            if key_before(ents, e + 1, k) {
                                let x = choose|x: int| 0 <= x < e + 1 && (#[trigger] ents[x]).0@ == k;
                                if x < e {
                                    assert(key_before(ents, e as int, k));
                                } else {
                                    assert(k == name@);
                                }
                            }
                            if key_before(ents, e as int, k) {
                                let x = choose|x: int| 0 <= x < e && (#[trigger] ents[x]).0@ == k;
                                assert(ents[x].0@ == k);
                                assert(key_before(ents, e + 1, k));
                            }
                            if k == name@ {
                                assert(ents[e as int].0@ == k);
                                assert(key_before(ents, e + 1, k));
                            }
                            if strs_model(out@).contains(k) {
                                if !(take && k == name@) {
                                    assert(before.contains(k));
                                }
                            }
                        }
                    }
                    e = e + 1;
                }
                proof {
                    assert forall|k: Seq<char>| #[trigger] strs_model(out@).contains(k)
                        <==> exists|j: int| 0 <= j < i + 1 && #[trigger] proto_contrib(*self, *f, m[j], k) by {
                        lemma_assoc_index(bf.members.entries@, k);
                        if proto_contrib(*self, *f, m[i as int], k) {
                            let x = assoc_index(bf.members.entries@, k).unwrap();
                            assert(bf.members.entries@[x].0@ == k);
                            assert(key_before(bf.members.entries@, bf.members.entries@.len() as int, k));
                        }
                        if exists|j: int| 0 <= j < i + 1 && #[trigger] proto_contrib(*self, *f, m[j], k) {
                            let j = choose|j: int| 0 <= j < i + 1 && #[trigger] proto_contrib(*self, *f, m[j], k);
                            if j < i {
                                assert(out0.contains(k));
                            }
                        }
                    }
                }
            } else {
                proof {
                    assert forall|k: Seq<char>| #[trigger] strs_model(out@).contains(k)
                        <==> exists|j: int| 0 <= j < i + 1 && #[trigger] proto_contrib(*self, *f, m[j], k) by {
                        if exists|j: int| 0 <= j < i + 1 && #[trigger] proto_contrib(*self, *f, m[j], k) {
                            let j = choose|j: int| 0 <= j < i + 1 && #[trigger] proto_contrib(*self, *f, m[j], k);
                            assert(j < i);
                        }
                    }
                }
            }
            i = i + 1;
        }
        proof {
            lemma_missing_from(*self, *f, m, i as int, m.len() - 1);
        }
        Ok(out)
    }
}


/// A member left abstract: a function, decorated function or variable
/// whose abstract status is explicit or implicit.
pub open spec fn abstract_member(m: MemberFact) -> bool {
    (m.kind == MemberKind::Function || m.kind == MemberKind::Decorator || m.kind == MemberKind::Var)
        && (m.abstract_status == IS_ABSTRACT || m.abstract_status == IMPLICITLY_ABSTRACT)
}

/// Whether class `c` defines `k` itself.
pub open spec fn defines_at(st: RecordStore, f: ClassFacts, c: Seq<char>, k: Seq<char>) -> bool {
    match facts_incl(st, f, c) {
        Some(bf) => bf.members.lookup(k).is_some(),
        None => false,
    }
}

/// Whether class `c` defines `k` as an abstract member.
pub open spec fn abstract_at(st: RecordStore, f: ClassFacts, c: Seq<char>, k: Seq<char>) -> bool {
    match facts_incl(st, f, c) {
        Some(bf) => match bf.members.lookup(k) {
            Some(m) => abstract_member(m),
            None => false,
        },
        None => false,
    }
}

/// Whether a class of `mro[..n)` defines `k`.
pub open spec fn defined_before(st: RecordStore, f: ClassFacts, mro: Seq<Seq<char>>, n: int, k: Seq<char>) -> bool {
    exists|j: int| 0 <= j < n && #[trigger] defines_at(st, f, mro[j], k)
}

/// Whether `k` is abstract where the MRO walk over `mro[..n)` first meets
/// it: a class defines it abstract and no earlier class defines it.
pub open spec fn abstract_before(st: RecordStore, f: ClassFacts, mro: Seq<Seq<char>>, n: int, k: Seq<char>) -> bool {
    exists|i: int| 0 <= i < n && #[trigger] abstract_at(st, f, mro[i], k) && !defined_before(st, f, mro, i, k)
}

/// Whether the class being built is abstract: a newtype never is;
/// otherwise some member is abstract where the MRO walk first meets it.
/// `Err` at the first class of the MRO without facts.
pub open spec fn abstract_spec(st: RecordStore, f: ClassFacts, mro: Seq<Seq<char>>) -> Result<bool, ErrModel> {
    if f.is_newtype {
        Ok(false)
    } else {
        match missing_from(st, f, mro, 0, mro.len() as int) {
            Some(i) => Err(ErrModel::UnknownClass(mro[i])),
            None => Ok(exists|k: Seq<char>| #[trigger] abstract_before(st, f, mro, mro.len() as int, k)),
        }
    }
}

fn is_abstract_member(m: &MemberFact) -> (r: bool)
    ensures
        r == abstract_member(*m),
{
    let kind_ok = match m.kind {
        MemberKind::Function | MemberKind::Decorator | MemberKind::Var => true,
        _ => false,
    };
    kind_ok && (m.abstract_status == IS_ABSTRACT || m.abstract_status == IMPLICITLY_ABSTRACT)
}

impl RecordStore {
    /// Whether the class being built is abstract.
    fn is_abstract(&self, f: &ClassFacts, mro: &Vec<String>) -> (r: Result<bool, RecordError>)
        ensures
            match r {
                Err(e) => abstract_spec(*self, *f, strs_model(mro@)) == Err::<bool, ErrModel>(err_model(e)),
                Ok(b) => abstract_spec(*self, *f, strs_model(mro@)) == Ok::<bool, ErrModel>(b),
            },
    {
        if f.is_newtype {
            return Ok(false);
        }
        let ghost m = strs_model(mro@);
        let mut concrete = NameSet::new();
        let mut found = false;
        let mut i: usize = 0;
        proof {
            lemma_missing_from(*self, *f, m, 0, m.len() as int);
        }
        while i < mro.len()
            invariant
                i <= mro@.len(),
                m == strs_model(mro@),
                !f.is_newtype,
                missing_from(*self, *f, m, 0, m.len() as int) == missing_from(*self, *f, m, i as int, m.len() as int),
                forall|k: Seq<char>| #[trigger] concrete.has(k) <==> defined_before(*self, *f, m, i as int, k),
                found == exists|k: Seq<char>| #[trigger] abstract_before(*self, *f, m, i as int, k),
            decreases mro@.len() - i,
        {
            let bf = match self.facts_including(f, mro[i].as_str()) {
                None => {
                    return Err(RecordError::UnknownClass { fullname: mro[i].clone() });
                },
                Some(bf) => bf,
            };
            let ghost c = m[i as int];
            let ghost ents = bf.members.entries@;
            let ghost found0 = found;
            let mut e: usize = 0;
            while e < bf.members.entries.len()
                invariant
                    e <= ents.len(),
                    ents == bf.members.entries@,
                    i < mro@.len(),
                    m == strs_model(mro@),
                    c == m[i as int],
                    facts_incl(*self, *f, c) == Some(*bf),
                    found == (found0 || exists|k: Seq<char>| #[trigger] key_before(ents, e as int, k)
                        && abstract_at(*self, *f, c, k) && !concrete.has(k)),
                decreases ents.len() - e,
            {
                let name = &bf.members.entries[e].0;
                proof {
                    lemma_assoc_index(ents, name@);
                }
                let hit = match bf.members.get(name.as_str()) {
                    Some(mf) => is_abstract_member(mf) && !concrete.contains(name.as_str()),
                    None => false,
                };
                proof {
                    assert(ents[e as int].0@ == name@);
                    assert(key_before(ents, e + 1, name@));
                    assert forall|k: Seq<char>| #[trigger] key_before(ents, e + 1, k) implies key_before(ents, e as int, k) || k == name@ by {
                        let x = choose|x: int| 0 <= x < e + 1 && (#[trigger] ents[x]).0@ == k;
                        if x < e {
                            assert(ents[x].0@ == k);
                        }
                    }
                    assert forall|k: Seq<char>| #[trigger] key_before(ents, e as int, k) implies key_before(ents, e + 1, k) by {
                        let x = choose|x: int| 0 <= x < e && (#[trigger] ents[x]).0@ == k;
                        assert(ents[x].0@ == k);
                    }
                }
                if hit {
                    found = true;
                }
                e = e + 1;
            }
            let ghost concrete0 = concrete;
            let mut e2: usize = 0;
            while e2 < bf.members.entries.len()
                invariant
                    e2 <= ents.len(),
                    ents == bf.members.entries@,
                    forall|k: Seq<char>| #[trigger] concrete.has(k) <==> (concrete0.has(k) || key_before(ents, e2 as int, k)),
                decreases ents.len() - e2,
            {
                let name = bf.members.entries[e2].0.clone();
                let ghost nv = name@;
                concrete.insert(name);
                proof {
                    assert(ents[e2 as int].0@ == nv);
                    assert forall|k: Seq<char>| #[trigger] concrete.has(k) <==> (concrete0.has(k) || key_before(ents, e2 + 1, k)) by {
                        if key_before(ents, e2 + 1, k) {
                            let x = choose|x: int| 0 <= x < e2 + 1 && (#[trigger] ents[x]).0@ == k;
                            if x < e2 {
                                assert(key_before(ents, e2 as int, k));
                            }
                        }
                        if key_before(ents, e2 as int, k) {
                            let x = choose|x: int| 0 <= x < e2 && (#[trigger] ents[x]).0@ == k;
                            assert(ents[x].0@ == k);
                        }
                        if k == nv {
                            assert(key_before(ents, e2 + 1, k));
                        }
                    }
                }
                e2 = e2 + 1;
            }
            proof {
                assert forall|k: Seq<char>| #[trigger] key_before(ents, ents.len() as int, k) <==> defines_at(*self, *f, c, k) by {
                    lemma_assoc_index(ents, k);
                    if key_before(ents, ents.len() as int, k) {
                        let x = choose|x: int| 0 <= x < ents.len() && (#[trigger] ents[x]).0@ == k;
                        assert(ents[x].0@ == k);
                    }
                    if defines_at(*self, *f, c, k) {
                        let x = assoc_index(ents, k).unwrap();
                        assert(ents[x].0@ == k);
                    }
                }
                assert forall|k: Seq<char>| #[trigger] defined_before(*self, *f, m, i + 1, k)
                    <==> (defined_before(*self, *f, m, i as int, k) || defines_at(*self, *f, c, k)) by {
                    if defined_before(*self, *f, m, i + 1, k) {
                        let j = choose|j: int| 0 <= j < i + 1 && #[trigger] defines_at(*self, *f, m[j], k);
                        if j < i {
                            assert(defined_before(*self, *f, m, i as int, k));
                        }
                    }
                    if defined_before(*self, *f, m, i as int, k) {
                        let j = choose|j: int| 0 <= j < i && #[trigger] defines_at(*self, *f, m[j], k);
                        assert(defines_at(*self, *f, m[j], k));
                    }
                }
                assert forall|k: Seq<char>| #[trigger] abstract_before(*self, *f, m, i + 1, k)
                    <==> (abstract_before(*self, *f, m, i as int, k) || (abstract_at(*self, *f, c, k)
                        && !defined_before(*self, *f, m, i as int, k))) by {
                    if abstract_before(*self, *f, m, i + 1, k) {
                        let x = choose|x: int| 0 <= x < i + 1 && #[trigger] abstract_at(*self, *f, m[x], k)
                            && !defined_before(*self, *f, m, x, k);
                        if x < i {
                            assert(abstract_before(*self, *f, m, i as int, k));
                        }
                    }
                    if abstract_before(*self, *f, m, i as int, k) {
                        let x = choose|x: int| 0 <= x < i && #[trigger] abstract_at(*self, *f, m[x], k)
                            && !defined_before(*self, *f, m, x, k);
                        assert(abstract_at(*self, *f, m[x], k));
                    }
                    if abstract_at(*self, *f, c, k) && !defined_before(*self, *f, m, i as int, k) {
                        assert(abstract_at(*self, *f, m[i as int], k));
                    }
                }
                if found {
                    if !found0 {
                        let k = choose|k: Seq<char>| #[trigger] key_before(ents, ents.len() as int, k)
                            && abstract_at(*self, *f, c, k) && !concrete0.has(k);
                        assert(abstract_before(*self, *f, m, i + 1, k));
                    } else {
                        let k = choose|k: Seq<char>| #[trigger] abstract_before(*self, *f, m, i as int, k);
                        assert(abstract_before(*self, *f, m, i + 1, k));
                    }
                }
                if exists|k: Seq<char>| #[trigger] abstract_before(*self, *f, m, i + 1, k) {
                    let k = choose|k: Seq<char>| #[trigger] abstract_before(*self, *f, m, i + 1, k);
                    if abstract_before(*self, *f, m, i as int, k) {
                        assert(found0);
                    } else {
                        assert(defines_at(*self, *f, c, k));
                        assert(key_before(ents, ents.len() as int, k));
                    }
                }
            }
            i = i + 1;
        }
        proof {
            lemma_missing_from(*self, *f, m, i as int, m.len() as int);
        }
        Ok(found)
    }
}


/// The promotion targets of the class being built: the explicit ones when
/// the facts state any, otherwise the built-in table's name resolved in
/// the class's own module, which must be a visible class symbol. A module
/// without a symbol table has no such symbol.
pub open spec fn promote_spec(st: RecordStore, f: ClassFacts) -> Result<Seq<TypeModel>, ErrModel> {
    if f.promote@.len() > 0 {
        Ok(types_model(f.promote@))
    } else {
        match promotion_spec(f.fullname@) {
            None => Ok(Seq::empty()),
            Some(name) => {
                let module = module_part(f.fullname@);
                match st.module_rec(module) {
                    None => Err(ErrModel::UnknownSymbol(module, name)),
                    Some(mf) => match mf.symbols.lookup(name) {
                        None => Err(ErrModel::UnknownSymbol(module, name)),
                        Some(sym) => if sym.module_hidden {
                            Err(ErrModel::UnknownSymbol(module, name))
                        } else if sym.kind != SymbolKind::Class {
                            Err(ErrModel::UnresolvedPromotion(f.fullname@, name))
                        } else {
                            Ok(seq![instance_model(sym.fullname@, Seq::empty())])
                        },
                    },
                }
            },
        }
    }
}

/// Whether the class being built falls back to `Any`: declared so, or
/// inherited from a recorded class of its MRO other than itself.
pub open spec fn fallback_spec(st: RecordStore, f: ClassFacts, mro: Seq<Seq<char>>) -> bool {
    f.fallback_to_any || exists|i: int| 0 <= i < mro.len() && #[trigger] inherits_fallback(st, f, mro[i])
}

/// Whether class `c`, not the one being built, has a record that falls
/// back to `Any`.
pub open spec fn inherits_fallback(st: RecordStore, f: ClassFacts, c: Seq<char>) -> bool {
    c != f.fullname@ && match st.class_rec(c) {
        Some(s) => s.fallback_to_any,
        None => false,
    }
}

impl RecordStore {
    /// The promotion targets of the class being built.
    fn promote_types(&self, f: &ClassFacts) -> (r: Result<Vec<Type>, RecordError>)
        ensures
            match r {
                Err(e) => promote_spec(*self, *f) == Err::<Seq<TypeModel>, ErrModel>(err_model(e)),
                Ok(v) => promote_spec(*self, *f) == Ok::<Seq<TypeModel>, ErrModel>(types_model(v@)),
            },
    {
        if f.promote.len() > 0 {
            return Ok(clone_types(&f.promote));
        }
        match promotion_target(f.fullname.as_str()) {
            None => {
                let v: Vec<Type> = Vec::new();
                proof {
                    assert(types_model(v@) =~= Seq::<TypeModel>::empty());
                }
                Ok(v)
            },
            Some(name) => {
                let module = module_of(f.fullname.as_str());
                if self.modules.get(module).is_none() {
                    return Err(RecordError::UnknownSymbol { module: owned(module), name: owned(name) });
                }
                let sym = self.lookup_module_symbol(module, name)?;
                if sym.kind != SymbolKind::Class {
                    return Err(RecordError::UnresolvedPromotion { class: f.fullname.clone(), name: owned(name) });
                }
                let t = instance_type(sym.fullname.as_str(), &[]);
                let v = vec![t];
                proof {
                    assert(types_model(Seq::<Type>::empty()) =~= Seq::<TypeModel>::empty());
                    lemma_types_model(v@);
                    assert(v@[0] == t);
                    assert(types_model(v@) =~= seq![t@]);
                }
                Ok(v)
            },
        }
    }

    /// Whether the class being built falls back to `Any`.
    fn fallback_to_any(&self, f: &ClassFacts, mro: &Vec<String>) -> (r: bool)
        ensures
            r == fallback_spec(*self, *f, strs_model(mro@)),
    {
        if f.fallback_to_any {
            return true;
        }
        let ghost m = strs_model(mro@);
        let mut i: usize = 0;
        while i < mro.len()
            invariant
                i <= mro@.len(),
                m == strs_model(mro@),
                forall|j: int| 0 <= j < i ==> !#[trigger] inherits_fallback(*self, *f, m[j]),
            decreases mro@.len() - i,
        {
            if !str_eq(mro[i].as_str(), f.fullname.as_str()) {
                match self.classes.get(mro[i].as_str()) {
                    Some(sn) => {
                        if sn.fallback_to_any {
                            proof {
                                assert(inherits_fallback(*self, *f, m[i as int]));
                            }
                            return true;
                        }
                    },
                    None => {},
                }
            }
            proof {
                assert(!inherits_fallback(*self, *f, m[i as int]));
            }
            i = i + 1;
        }
        false
    }
}


/// The bound a type variable contributes: its upper bound for a type
/// variable, none for a parameter spec or a type variable tuple.
pub open spec fn bound_of(t: TypeVarFact) -> Option<TypeModel> {
    if t.kind == 0 {
        opt_model(t.upper_bound)
    } else {
        None
    }
}

/// The tuple fallback of the first type variable tuple from `i`.
pub open spec fn first_tuple_fallback(tvs: Seq<TypeVarFact>, i: int) -> Option<TypeModel>
    decreases tvs.len() - i,
{
    if i < 0 || i >= tvs.len() {
        None
    } else if tvs[i].kind == 2 {
        opt_model(tvs[i].tuple_fallback)
    } else {
        first_tuple_fallback(tvs, i + 1)
    }
}

/// The per-type-variable arrays of a snapshot, built in one pass.
struct TypeVarArrays {
    names: Vec<String>,
    with_variance: Vec<(String, i64, i64)>,
    upper_bounds: Vec<Option<Type>>,
    raw_ids: Vec<i64>,
}

/// What the per-type-variable arrays hold for type variables `tvs`.
pub open spec fn type_var_arrays_match(
    tvs: Seq<TypeVarFact>,
    names: Seq<String>,
    with_variance: Seq<(String, i64, i64)>,
    upper_bounds: Seq<Option<Type>>,
    raw_ids: Seq<i64>,
) -> bool {
    &&& names.len() == tvs.len()
    &&& with_variance.len() == tvs.len()
    &&& upper_bounds.len() == tvs.len()
    &&& raw_ids.len() == tvs.len()
    &&& forall|i: int| 0 <= i < tvs.len() ==> {
        &&& (#[trigger] names[i])@ == tvs[i].name@
        &&& with_variance[i].0@ == tvs[i].name@
        &&& with_variance[i].1 == tvs[i].variance
        &&& with_variance[i].2 == tvs[i].kind
        &&& opt_model(upper_bounds[i]) == bound_of(tvs[i])
        &&& raw_ids[i] == tvs[i].raw_id
    }
}

fn type_var_arrays(tvs: &Vec<TypeVarFact>) -> (r: TypeVarArrays)
    ensures
        type_var_arrays_match(tvs@, r.names@, r.with_variance@, r.upper_bounds@, r.raw_ids@),
{
    let mut a = TypeVarArrays { names: Vec::new(), with_variance: Vec::new(), upper_bounds: Vec::new(), raw_ids: Vec::new() };
    let mut i: usize = 0;
    while i < tvs.len()
        invariant
            i <= tvs@.len(),
            type_var_arrays_match(tvs@.take(i as int), a.names@, a.with_variance@, a.upper_bounds@, a.raw_ids@),
        decreases tvs@.len() - i,
    {
        let t = &tvs[i];
        let ghost a0 = (a.names@, a.with_variance@, a.upper_bounds@, a.raw_ids@);
        let n1 = t.name.clone();
        let n2 = t.name.clone();
        let b = if t.kind == 0 { clone_opt(&t.upper_bound) } else { None };
        proof {
            assert(n1@ == t.name@);
            assert(n2@ == t.name@);
            assert(opt_model(b) == bound_of(*t));
        }
        a.names.push(n1);
        a.raw_ids.push(t.raw_id);
        a.with_variance.push((n2, t.variance, t.kind));
        a.upper_bounds.push(b);
        proof {
            let tk = tvs@.take(i + 1);
            assert forall|j: int| 0 <= j < tk.len() implies {
                &&& (#[trigger] a.names@[j])@ == tk[j].name@
                &&& a.with_variance@[j].0@ == tk[j].name@
                &&& a.with_variance@[j].1 == tk[j].variance
                &&& a.with_variance@[j].2 == tk[j].kind
                &&& opt_model(a.upper_bounds@[j]) == bound_of(tk[j])
                &&& a.raw_ids@[j] == tk[j].raw_id
            } by {
                if j < i {
                    assert(tk[j] == tvs@.take(i as int)[j]);
                    assert(a.names@[j] == a0.0[j]);
                    assert(a.with_variance@[j] == a0.1[j]);
                    assert(a.upper_bounds@[j] == a0.2[j]);
                    assert(a.raw_ids@[j] == a0.3[j]);
                } else {
                    assert(tk[j] == *t);
                }
            }
            assert(a.names@.len() == tk.len());
            assert(a.with_variance@.len() == tk.len());
            assert(a.upper_bounds@.len() == tk.len());
            assert(a.raw_ids@.len() == tk.len());
            assert(type_var_arrays_match(tk, a.names@, a.with_variance@, a.upper_bounds@, a.raw_ids@));
        }
        i = i + 1;
    }
    proof {
        assert(tvs@.take(tvs@.len() as int) =~= tvs@);
    }
    a
}

/// Whether a type variable of `tvs` has kind `kind`.
pub open spec fn has_tv_kind(tvs: Seq<TypeVarFact>, kind: i64) -> bool {
    exists|i: int| 0 <= i < tvs.len() && (#[trigger] tvs[i]).kind == kind
}

fn any_tv_kind(tvs: &Vec<TypeVarFact>, kind: i64) -> (r: bool)
    ensures
        r == has_tv_kind(tvs@, kind),
{
    let mut i: usize = 0;
    while i < tvs.len()
        invariant
            i <= tvs@.len(),
            forall|j: int| 0 <= j < i ==> (#[trigger] tvs@[j]).kind != kind,
        decreases tvs@.len() - i,
    {
        if tvs[i].kind == kind {
            return true;
        }
        i = i + 1;
    }
    false
}

fn tuple_fallback_of(tvs: &Vec<TypeVarFact>) -> (r: Option<Type>)
    ensures
        opt_model(r) == first_tuple_fallback(tvs@, 0),
{
    let mut i: usize = 0;
    while i < tvs.len()
        invariant
            i <= tvs@.len(),
            first_tuple_fallback(tvs@, 0) == first_tuple_fallback(tvs@, i as int),
        decreases tvs@.len() - i,
    {
        if tvs[i].kind == 2 {
            return clone_opt(&tvs[i].tuple_fallback);
        }
        i = i + 1;
    }
    None
}

/// The `(implicit, has_explicit_value)` pair a member contributes.
pub open spec fn info_of(m: Option<MemberFact>) -> Option<(bool, bool)> {
    match m {
        Some(x) => Some((x.implicit, x.has_explicit_value)),
        None => None,
    }
}

/// The `(node kind, definer)` pair a member contributes: only a function,
/// decorated function or variable has one.
pub open spec fn definer_of(m: Option<MemberFact>, fullname: Seq<char>) -> Option<(i64, Seq<char>)> {
    match m {
        Some(x) => if node_kind_of(x.kind) >= 0 {
            Some((node_kind_of(x.kind), fullname))
        } else {
            None
        },
        None => None,
    }
}

/// The model of a definer entry.
pub open spec fn definer_model(d: Option<(i64, String)>) -> Option<(i64, Seq<char>)> {
    match d {
        Some((k, c)) => Some((k, c@)),
        None => None,
    }
}

proof fn lemma_assoc_find_push<V>(s: Seq<(String, V)>, x: (String, V), k: Seq<char>)
    ensures
        assoc_find(s, k).is_some() ==> assoc_find(s.push(x), k) === assoc_find(s, k),
        assoc_find(s, k).is_none() && x.0@ == k ==> assoc_find(s.push(x), k) === Some(x.1),
        assoc_find(s, k).is_none() && x.0@ != k ==> assoc_find(s.push(x), k).is_none(),
    decreases s.len(),
{
    if s.len() > 0 {
        assert(s.push(x)[0] == s[0]);
        assert(s.push(x).drop_first() =~= s.drop_first().push(x));
        lemma_assoc_find_push(s.drop_first(), x, k);
    } else {
        assert(s.push(x)[0] == x);
        assert(s.push(x).drop_first() =~= Seq::<(String, V)>::empty());
        assert(assoc_find(s.push(x).drop_first(), k).is_none());
    }
}

/// The two member maps of a snapshot: every own member's
/// `(implicit, has_explicit_value)`, and the definer of each own
/// function, decorated function or variable.
fn member_maps(f: &ClassFacts) -> (r: (NameMap<(bool, bool)>, NameMap<(i64, String)>))
    ensures
        forall|k: Seq<char>| #[trigger] r.0.lookup(k) == info_of(f.members.lookup(k)),
        forall|k: Seq<char>| #[trigger] definer_model(r.1.lookup(k)) == definer_of(f.members.lookup(k), f.fullname@),
{
    let ghost ents = f.members.entries@;
    let mut info: NameMap<(bool, bool)> = NameMap::new();
    let mut defs: NameMap<(i64, String)> = NameMap::new();
    let mut e: usize = 0;
    while e < f.members.entries.len()
        invariant
            e <= ents.len(),
            ents == f.members.entries@,
            forall|k: Seq<char>| #[trigger] info.lookup(k) == info_of(assoc_find(ents.take(e as int), k)),
            forall|k: Seq<char>| #[trigger] definer_model(defs.lookup(k)) == definer_of(assoc_find(ents.take(e as int), k), f.fullname@),
        decreases ents.len() - e,
    {
        let name = &f.members.entries[e].0;
        let mf = &f.members.entries[e].1;
        let ghost ent = ents[e as int];
        proof {
            assert(ents.take(e + 1) =~= ents.take(e as int).push(ent));
        }
        if !info.contains_key(name.as_str()) {
            proof {
                assert(assoc_find(ents.take(e as int), name@).is_none());
                assert(definer_model(defs.lookup(name@)).is_none());
            }
            info.insert(name.clone(), (mf.implicit, mf.has_explicit_value));
            let nk = mf.kind.node_kind();
            if nk >= 0 {
                let fl = f.fullname.clone();
                proof {
                    assert(fl@ == f.fullname@);
                }
                defs.insert(name.clone(), (nk, fl));
                proof {
                    assert(definer_model(defs.lookup(name@)) == Some((nk, f.fullname@)));
                }
            }
        }
        proof {
            assert forall|k: Seq<char>| #[trigger] info.lookup(k) == info_of(assoc_find(ents.take(e + 1), k)) by {
                lemma_assoc_find_push(ents.take(e as int), ent, k);
            }
            assert forall|k: Seq<char>| #[trigger] definer_model(defs.lookup(k)) == definer_of(assoc_find(ents.take(e + 1), k), f.fullname@) by {
                lemma_assoc_find_push(ents.take(e as int), ent, k);
            }
        }
        e = e + 1;
    }
    proof {
        assert(ents.take(ents.len() as int) =~= ents);
    }
    (info, defs)
}


pub proof fn lemma_first_dup_from(names: Seq<Seq<char>>, i: int)
    requires
        0 <= i,
    ensures
        match first_dup_from(names, i) {
            Some(k) => i <= k < names.len() && names.take(k).contains(names[k])
                && forall|j: int| i <= j < k ==> !(#[trigger] names.take(j)).contains(names[j]),
            None => forall|j: int| i <= j < names.len() ==> !(#[trigger] names.take(j)).contains(names[j]),
        },
    decreases names.len() - i,
{
    if i < names.len() && !names.take(i).contains(names[i]) {
        lemma_first_dup_from(names, i + 1);
    }
}

pub proof fn lemma_unresolved_from(st: RecordStore, f: ClassFacts, names: Seq<Seq<char>>, i: int)
    requires
        0 <= i,
        unresolved_from(st, f, names, i).is_none(),
    ensures
        forall|j: int| i <= j < names.len() ==> (#[trigger] st.class_rec(names[j])).is_some(),
    decreases names.len() - i,
{
    if i < names.len() {
        lemma_unresolved_from(st, f, names, i + 1);
    }
}

impl RecordStore {
    /// The base names and base instances a class is built with, after the
    /// duplicate, unresolved and cyclic-base refusals.
    fn fixed_up_bases(&self, f: &ClassFacts) -> (r: Result<(Vec<String>, Vec<Type>), RecordError>)
        ensures
            match r {
                Err(e) => fixup_error(*self, *f) == Some(err_model(e)),
                Ok((names, types)) => fixup_error(*self, *f).is_none() && strs_model(names@) == base_names(*f)
                    && types_model(types@) == base_types(*f),
            },
    {
        let mut names: Vec<String> = Vec::new();
        let mut types: Vec<Type> = Vec::new();
        if f.bases.len() == 0 && !str_eq(f.fullname.as_str(), "builtins.object") {
            names.push(owned("builtins.object"));
            let t = instance_type("builtins.object", &[]);
            types.push(t);
            proof {
                assert(types_model(Seq::<Type>::empty()) =~= Seq::<TypeModel>::empty());
                lemma_types_model(types@);
                assert(types_model(types@) =~= base_types(*f));
                assert(strs_model(names@) =~= base_names(*f));
            }
        } else {
            let mut i: usize = 0;
            while i < f.bases.len()
                invariant
                    i <= f.bases@.len(),
                    !implicit_object_base(*f),
                    names@.len() == i,
                    types@.len() == i,
                    forall|j: int| 0 <= j < i ==> (#[trigger] names@[j])@ == f.bases@[j].fullname@,
                    forall|j: int| 0 <= j < i ==> (#[trigger] types@[j])@ == instance_model(f.bases@[j].fullname@, types_model(f.bases@[j].args@)),
                decreases f.bases@.len() - i,
            {
                let b = &f.bases[i];
                names.push(b.fullname.clone());
                types.push(instance_type(b.fullname.as_str(), b.args.as_slice()));
                i = i + 1;
            }
            proof {
                lemma_types_model(types@);
                assert(types_model(types@) =~= base_types(*f));
                assert(strs_model(names@) =~= base_names(*f));
            }
        }
        let ghost nm = strs_model(names@);
        proof {
            lemma_first_dup_from(nm, 0);
        }
        let mut i: usize = 0;
        while i < names.len()
            invariant
                i <= names@.len(),
                nm == strs_model(names@),
                nm == base_names(*f),
                forall|j: int| 0 <= j < i ==> !(#[trigger] nm.take(j)).contains(nm[j]),
            decreases names@.len() - i,
        {
            let mut j: usize = 0;
            while j < i
                invariant
                    j <= i,
                    i < names@.len(),
                    nm == strs_model(names@),
                    nm == base_names(*f),
                    forall|x: int| 0 <= x < i ==> !(#[trigger] nm.take(x)).contains(nm[x]),
                    forall|x: int| 0 <= x < j ==> nm[x] != nm[i as int],
                decreases i - j,
            {
                if str_eq(names[j].as_str(), names[i].as_str()) {
                    proof {
                        assert(nm.take(i as int)[j as int] == nm[i as int]);
                        lemma_first_dup_from(nm, 0);
                        assert(nm.take(i as int).contains(nm[i as int]));
                        match first_dup_from(nm, 0) {
                            Some(k) => {
                                if k < i {
                                } else if k > i {
                                }
                            },
                            None => {},
                        }
                        assert(first_dup_from(nm, 0) == Some(i as int));
                    }
                    return Err(RecordError::DuplicateBase { class: f.fullname.clone(), base: names[i].clone() });
                }
                j = j + 1;
            }
            proof {
                assert(!nm.take(i as int).contains(nm[i as int]));
            }
            i = i + 1;
        }
        proof {
            lemma_first_dup_from(nm, 0);
            assert(first_dup_from(nm, 0).is_none());
        }
        let mut i: usize = 0;
        while i < names.len()
            invariant
                i <= names@.len(),
                nm == strs_model(names@),
                nm == base_names(*f),
                fixup_error(*self, *f) == unresolved_from(*self, *f, nm, i as int),
            decreases names@.len() - i,
        {
            match self.classes.get(names[i].as_str()) {
                None => {
                    return Err(RecordError::UnresolvedBase { class: f.fullname.clone(), base: names[i].clone() });
                },
                Some(b) => {
                    if str_eq(names[i].as_str(), f.fullname.as_str()) || names_contain(&b.mro, f.fullname.as_str()) {
                        let cycle = vec![f.fullname.clone(), names[i].clone()];
                        proof {
                            assert(strs_model(cycle@) =~= seq![f.fullname@, nm[i as int]]);
                        }
                        return Err(RecordError::CyclicBases { class: f.fullname.clone(), cycle });
                    }
                },
            }
            i = i + 1;
        }
        Ok((names, types))
    }

    /// The C3 linearization of the class being built over the records of
    /// its (fixed-up) bases.
    fn linearize(&self, f: &ClassFacts, names: &Vec<String>) -> (r: Result<Vec<String>, RecordError>)
        requires
            fixup_error(*self, *f).is_none(),
            strs_model(names@) == base_names(*f),
        ensures
            match r {
                Err(e) => linearize_spec(*self, *f).is_none() && err_model(e) == ErrModel::Unlinearizable(f.fullname@),
                Ok(m) => linearize_spec(*self, *f) == Some(strs_model(m@)),
            },
    {
        let ghost nm = strs_model(names@);
        proof {
            lemma_unresolved_from(*self, *f, nm, 0);
        }
        let ghost mros = nm.map_values(|n: Seq<char>| strs_model(self.class_rec(n).unwrap().mro@));
        let mut seqs: Vec<Vec<String>> = Vec::new();
        let mut i: usize = 0;
        while i < names.len()
            invariant
                i <= names@.len(),
                nm == strs_model(names@),
                mros == nm.map_values(|n: Seq<char>| strs_model(self.class_rec(n).unwrap().mro@)),
                forall|j: int| 0 <= j < nm.len() ==> (#[trigger] self.class_rec(nm[j])).is_some(),
                seqs@.len() == i,
                forall|j: int| 0 <= j < i ==> strs_model((#[trigger] seqs@[j])@) == mros[j],
            decreases names@.len() - i,
        {
            let b = self.classes.get(names[i].as_str());
            proof {
                assert(self.class_rec(nm[i as int]).is_some());
            }
            let bm = clone_strings(&b.unwrap().mro);
            seqs.push(bm);
            i = i + 1;
        }
        let last = clone_strings(names);
        seqs.push(last);
        proof {
            assert(seqs_model(seqs@) =~= mros.push(nm));
        }
        match c3_merge_exec(seqs) {
            None => Err(RecordError::Unlinearizable { class: f.fullname.clone() }),
            Some(rest) => {
                let mut mro: Vec<String> = Vec::new();
                mro.push(f.fullname.clone());
                let mut k: usize = 0;
                while k < rest.len()
                    invariant
                        k <= rest@.len(),
                        strs_model(mro@) == seq![f.fullname@] + strs_model(rest@).take(k as int),
                    decreases rest@.len() - k,
                {
                    let x = rest[k].clone();
                    proof {
                        assert(strs_model(mro@.push(x)) =~= strs_model(mro@).push(x@));
                        assert(strs_model(rest@).take(k + 1) =~= strs_model(rest@).take(k as int).push(x@));
                    }
                    mro.push(x);
                    k = k + 1;
                }
                proof {
                    assert(strs_model(rest@).take(rest@.len() as int) =~= strs_model(rest@));
                }
                Ok(mro)
            },
        }
    }
}


/// Why the record of class `f` cannot be built over store `st`, in the
/// order the construction meets the refusals: an empty fullname, base
/// fixup, C3 linearization, the metaclass, the enum rule, the protocol
/// members, the abstract status and the promotion targets. `None` when the
/// record can be built.
pub open spec fn build_error(st: RecordStore, f: ClassFacts) -> Option<ErrModel> {
    if f.fullname@.len() == 0 {
        Some(ErrModel::Unsupported(Seq::empty(), "a class record needs a fullname"@))
    } else {
        match fixup_error(st, f) {
            Some(e) => Some(e),
            None => match linearize_spec(st, f) {
                None => Some(ErrModel::Unlinearizable(f.fullname@)),
                Some(mro) => match meta_spec(st, f, mro) {
                    Err(e) => Some(e),
                    Ok(meta) => match enum_spec(st, f, mro, meta) {
                        Err(e) => Some(e),
                        Ok(_) => match protocol_error(st, f, mro) {
                            Some(e) => Some(e),
                            None => match abstract_spec(st, f, mro) {
                                Err(e) => Some(e),
                                Ok(_) => match promote_spec(st, f) {
                                    Err(e) => Some(e),
                                    Ok(_) => None,
                                },
                            },
                        },
                    },
                },
            },
        }
    }
}

/// The snapshot `s` is the record of class `f` built over store `st`.
pub open spec fn built_from(st: RecordStore, f: ClassFacts, s: TypeInfoSnapshot) -> bool {
    let mro = linearize_spec(st, f).unwrap();
    let meta = meta_spec(st, f, mro)->Ok_0;
    &&& s.fullname@ == f.fullname@
    &&& s.name@ == (if f.name@.len() == 0 { short_part(f.fullname@) } else { f.name@ })
    &&& strs_model(s.mro@) == mro
    &&& forall|k: Seq<char>| #[trigger] s.has_base.has(k) <==> mro.contains(k)
    &&& types_model(s.bases@) == base_types(f)
    &&& s.is_protocol == f.is_protocol
    &&& s.is_enum == enum_spec(st, f, mro, meta)->Ok_0
    &&& strs_model(s.enum_members@) == strs_model(f.enum_members@)
    &&& s.fallback_to_any == fallback_spec(st, f, mro)
    &&& s.meta_fallback_to_any == f.meta_fallback_to_any
    &&& s.is_named_tuple == f.is_named_tuple
    &&& s.is_newtype == f.is_newtype
    &&& s.is_abstract == abstract_spec(st, f, mro)->Ok_0
    &&& type_var_arrays_match(
        f.type_vars@,
        s.type_vars@,
        s.type_vars_with_variance@,
        s.type_var_upper_bounds@,
        s.type_var_raw_ids@,
    )
    &&& strictly_sorted(strs_model(s.protocol_members@))
    &&& forall|k: Seq<char>| #[trigger] strs_model(s.protocol_members@).contains(k) <==> protocol_member(st, f, mro, k)
    &&& opt_str(s.metaclass_fullname) == Some(
        match meta {
            Some(m) => m,
            None => Seq::<char>::empty(),
        },
    )
    &&& forall|k: Seq<char>| #[trigger] s.member_info.lookup(k) == info_of(f.members.lookup(k))
    &&& forall|k: Seq<char>| #[trigger] definer_model(s.member_definers.lookup(k)) == definer_of(f.members.lookup(k), f.fullname@)
    &&& s.has_param_spec_type == has_tv_kind(f.type_vars@, 1)
    &&& s.has_type_var_tuple_type == has_tv_kind(f.type_vars@, 2)
    &&& types_model(s.promote@) == promote_spec(st, f)->Ok_0
    &&& opt_str(s.alt_promote_fullname) == opt_str(f.alt_promote_fullname)
    &&& opt_model(s.tuple_type) == opt_model(f.tuple_type)
    &&& s.type_var_tuple_prefix == f.type_var_tuple_prefix
    &&& s.type_var_tuple_suffix == f.type_var_tuple_suffix
    &&& opt_model(s.type_var_tuple_fallback) == first_tuple_fallback(f.type_vars@, 0)
}

/// The set of the names in `v`.
fn name_set(v: &Vec<String>) -> (r: NameSet)
    ensures
        forall|k: Seq<char>| #[trigger] r.has(k) <==> strs_model(v@).contains(k),
{
    let mut set = NameSet::new();
    let mut i: usize = 0;
    while i < v.len()
        invariant
            i <= v@.len(),
            forall|k: Seq<char>| #[trigger] set.has(k) <==> strs_model(v@).take(i as int).contains(k),
        decreases v@.len() - i,
    {
        let x = v[i].clone();
        let ghost xv = x@;
        set.insert(x);
        proof {
            assert(strs_model(v@).take(i + 1) =~= strs_model(v@).take(i as int).push(xv));
            assert forall|k: Seq<char>| #[trigger] set.has(k) <==> strs_model(v@).take(i + 1).contains(k) by {
                let t = strs_model(v@).take(i as int);
                if t.push(xv).contains(k) && k != xv {
                    let j = choose|j: int| 0 <= j < t.push(xv).len() && t.push(xv)[j] == k;
                    assert(t[j] == k);
                }
                if t.contains(k) {
                    let j = choose|j: int| 0 <= j < t.len() && t[j] == k;
                    assert(t.push(xv)[j] == k);
                }
                if k == xv {
                    assert(t.push(xv)[i as int] == k);
                }
            }
        }
        i = i + 1;
    }
    proof {
        assert(strs_model(v@).take(v@.len() as int) =~= strs_model(v@));
    }
    set
}

impl RecordStore {
    /// Build the record of class `f` over the current store.
    fn build_snapshot(&self, f: &ClassFacts) -> (r: Result<TypeInfoSnapshot, RecordError>)
        ensures
            match r {
                Err(e) => build_error(*self, *f) == Some(err_model(e)),
                Ok(s) => build_error(*self, *f).is_none() && built_from(*self, *f, s),
            },
    {
        if f.fullname.as_str().unicode_len() == 0 {
            let reason = owned("a class record needs a fullname");
            let subject = String::new();
            proof {
                reveal_strlit("a class record needs a fullname");
                assert(subject@ =~= Seq::<char>::empty());
            }
            return Err(RecordError::Unsupported { subject, reason });
        }
        let (names, types) = self.fixed_up_bases(f)?;
        let mro = self.linearize(f, &names)?;
        let ghost m = strs_model(mro@);
        let meta = self.metaclass(f, &mro)?;
        let is_enum = self.enum_exec(f, &mro, &meta)?;
        let protocol_members = self.protocol_members(f, &mro)?;
        let is_abstract = self.is_abstract(f, &mro)?;
        let promote = self.promote_types(f)?;
        let name = if f.name.as_str().unicode_len() == 0 {
            owned(short_name(f.fullname.as_str()))
        } else {
            f.name.clone()
        };
        let has_base = name_set(&mro);
        let fallback_to_any = self.fallback_to_any(f, &mro);
        let arrays = type_var_arrays(&f.type_vars);
        let (member_info, member_definers) = member_maps(f);
        let metaclass_fullname = match meta {
            Some(x) => Some(x),
            None => {
                let e = String::new();
                proof {
                    assert(e@ =~= Seq::<char>::empty());
                }
                Some(e)
            },
        };
        let s = TypeInfoSnapshot {
            fullname: f.fullname.clone(),
            name,
            mro,
            has_base,
            bases: types,
            is_protocol: f.is_protocol,
            is_enum,
            enum_members: clone_strings(&f.enum_members),
            fallback_to_any,
            meta_fallback_to_any: f.meta_fallback_to_any,
            is_named_tuple: f.is_named_tuple,
            is_newtype: f.is_newtype,
            is_abstract,
            type_vars: arrays.names,
            protocol_members,
            metaclass_fullname,
            member_info,
            member_definers,
            type_vars_with_variance: arrays.with_variance,
            type_var_upper_bounds: arrays.upper_bounds,
            type_var_raw_ids: arrays.raw_ids,
            has_param_spec_type: any_tv_kind(&f.type_vars, 1),
            has_type_var_tuple_type: any_tv_kind(&f.type_vars, 2),
            promote,
            alt_promote_fullname: clone_opt_string(&f.alt_promote_fullname),
            tuple_type: clone_opt(&f.tuple_type),
            type_var_tuple_prefix: f.type_var_tuple_prefix,
            type_var_tuple_suffix: f.type_var_tuple_suffix,
            type_var_tuple_fallback: tuple_fallback_of(&f.type_vars),
        };
        Ok(s)
    }

    /// Build the record of class `facts` and store it with its facts; a
    /// fullname already held is replaced. On a refusal the store is left
    /// as it was.
    pub fn insert_class(&mut self, facts: ClassFacts) -> (r: Result<(), RecordError>)
        ensures
            match build_error(*old(self), facts) {
                Some(e) => r matches Err(x) && err_model(x) == e && *final(self) == *old(self),
                None => {
                    &&& r is Ok
                    &&& final(self).class_rec(facts.fullname@) matches Some(s) && built_from(*old(self), facts, s)
                    &&& final(self).facts_rec(facts.fullname@) == Some(facts)
                    &&& forall|k: Seq<char>| k != facts.fullname@ ==> #[trigger] final(self).class_rec(k) == old(self).class_rec(k)
                    &&& forall|k: Seq<char>| k != facts.fullname@ ==> #[trigger] final(self).facts_rec(k) == old(self).facts_rec(k)
                    &&& forall|k: Seq<char>| #[trigger] final(self).module_rec(k) == old(self).module_rec(k)
                    &&& final(self).class_count() == old(self).class_count() + if old(self).class_rec(facts.fullname@).is_some() {
                        0int
                    } else {
                        1int
                    }
                },
            },
    {
        let s = self.build_snapshot(&facts)?;
        let key = facts.fullname.clone();
        let key2 = facts.fullname.clone();
        self.classes.insert(key, s);
        self.facts.insert(key2, facts);
        Ok(())
    }
}


/// Two snapshots hold the same record: equal in every field, the type
/// fields compared by their models.
pub open spec fn same_snapshot(a: TypeInfoSnapshot, b: TypeInfoSnapshot) -> bool {
    &&& a.fullname == b.fullname
    &&& a.name == b.name
    &&& a.mro@ == b.mro@
    &&& a.has_base.items@ == b.has_base.items@
    &&& types_model(a.bases@) == types_model(b.bases@)
    &&& a.is_protocol == b.is_protocol
    &&& a.is_enum == b.is_enum
    &&& a.enum_members@ == b.enum_members@
    &&& a.fallback_to_any == b.fallback_to_any
    &&& a.meta_fallback_to_any == b.meta_fallback_to_any
    &&& a.is_named_tuple == b.is_named_tuple
    &&& a.is_newtype == b.is_newtype
    &&& a.is_abstract == b.is_abstract
    &&& a.type_vars@ == b.type_vars@
    &&& a.protocol_members@ == b.protocol_members@
    &&& a.metaclass_fullname == b.metaclass_fullname
    &&& a.member_info.entries@ == b.member_info.entries@
    &&& a.member_definers.entries@ == b.member_definers.entries@
    &&& a.type_vars_with_variance@ == b.type_vars_with_variance@
    &&& opts_model(a.type_var_upper_bounds@) == opts_model(b.type_var_upper_bounds@)
    &&& a.type_var_raw_ids@ == b.type_var_raw_ids@
    &&& a.has_param_spec_type == b.has_param_spec_type
    &&& a.has_type_var_tuple_type == b.has_type_var_tuple_type
    &&& types_model(a.promote@) == types_model(b.promote@)
    &&& a.alt_promote_fullname == b.alt_promote_fullname
    &&& opt_model(a.tuple_type) == opt_model(b.tuple_type)
    &&& a.type_var_tuple_prefix == b.type_var_tuple_prefix
    &&& a.type_var_tuple_suffix == b.type_var_tuple_suffix
    &&& opt_model(a.type_var_tuple_fallback) == opt_model(b.type_var_tuple_fallback)
}

fn copy_strs(v: &Vec<String>) -> (r: Vec<String>)
    ensures
        r@ == v@,
{
    let mut out: Vec<String> = Vec::new();
    let mut i: usize = 0;
    while i < v.len()
        invariant
            i <= v@.len(),
            out@ == v@.take(i as int),
        decreases v@.len() - i,
    {
        out.push(v[i].clone());
        proof {
            assert(v@.take(i + 1) =~= v@.take(i as int).push(v@[i as int]));
        }
        i = i + 1;
    }
    proof {
        assert(v@.take(v@.len() as int) =~= v@);
    }
    out
}

fn copy_info(v: &Vec<(String, (bool, bool))>) -> (r: Vec<(String, (bool, bool))>)
    ensures
        r@ == v@,
{
    let mut out: Vec<(String, (bool, bool))> = Vec::new();
    let mut i: usize = 0;
    while i < v.len()
        invariant
            i <= v@.len(),
            out@ == v@.take(i as int),
        decreases v@.len() - i,
    {
        out.push((v[i].0.clone(), v[i].1));
        proof {
            assert(v@.take(i + 1) =~= v@.take(i as int).push(v@[i as int]));
        }
        i = i + 1;
    }
    proof {
        assert(v@.take(v@.len() as int) =~= v@);
    }
    out
}

fn copy_definers(v: &Vec<(String, (i64, String))>) -> (r: Vec<(String, (i64, String))>)
    ensures
        r@ == v@,
{
    let mut out: Vec<(String, (i64, String))> = Vec::new();
    let mut i: usize = 0;
    while i < v.len()
        invariant
            i <= v@.len(),
            out@ == v@.take(i as int),
        decreases v@.len() - i,
    {
        out.push((v[i].0.clone(), (v[i].1.0, v[i].1.1.clone())));
        proof {
            assert(v@.take(i + 1) =~= v@.take(i as int).push(v@[i as int]));
        }
        i = i + 1;
    }
    proof {
        assert(v@.take(v@.len() as int) =~= v@);
    }
    out
}

fn copy_triples(v: &Vec<(String, i64, i64)>) -> (r: Vec<(String, i64, i64)>)
    ensures
        r@ == v@,
{
    let mut out: Vec<(String, i64, i64)> = Vec::new();
    let mut i: usize = 0;
    while i < v.len()
        invariant
            i <= v@.len(),
            out@ == v@.take(i as int),
        decreases v@.len() - i,
    {
        out.push((v[i].0.clone(), v[i].1, v[i].2));
        proof {
            assert(v@.take(i + 1) =~= v@.take(i as int).push(v@[i as int]));
        }
        i = i + 1;
    }
    proof {
        assert(v@.take(v@.len() as int) =~= v@);
    }
    out
}

fn copy_opt_str(s: &Option<String>) -> (r: Option<String>)
    ensures
        r == *s,
{
    match s {
        Some(x) => Some(x.clone()),
        None => None,
    }
}

/// A copy of a snapshot.
fn copy_snapshot(a: &TypeInfoSnapshot) -> (r: TypeInfoSnapshot)
    ensures
        same_snapshot(r, *a),
{
    TypeInfoSnapshot {
        fullname: a.fullname.clone(),
        name: a.name.clone(),
        mro: copy_strs(&a.mro),
        has_base: NameSet { items: copy_strs(&a.has_base.items) },
        bases: clone_types(&a.bases),
        is_protocol: a.is_protocol,
        is_enum: a.is_enum,
        enum_members: copy_strs(&a.enum_members),
        fallback_to_any: a.fallback_to_any,
        meta_fallback_to_any: a.meta_fallback_to_any,
        is_named_tuple: a.is_named_tuple,
        is_newtype: a.is_newtype,
        is_abstract: a.is_abstract,
        type_vars: copy_strs(&a.type_vars),
        protocol_members: copy_strs(&a.protocol_members),
        metaclass_fullname: copy_opt_str(&a.metaclass_fullname),
        member_info: NameMap { entries: copy_info(&a.member_info.entries) },
        member_definers: NameMap { entries: copy_definers(&a.member_definers.entries) },
        type_vars_with_variance: copy_triples(&a.type_vars_with_variance),
        type_var_upper_bounds: clone_opts(&a.type_var_upper_bounds),
        type_var_raw_ids: crate::wire::clone_kinds(&a.type_var_raw_ids),
        has_param_spec_type: a.has_param_spec_type,
        has_type_var_tuple_type: a.has_type_var_tuple_type,
        promote: clone_types(&a.promote),
        alt_promote_fullname: copy_opt_str(&a.alt_promote_fullname),
        tuple_type: clone_opt(&a.tuple_type),
        type_var_tuple_prefix: a.type_var_tuple_prefix,
        type_var_tuple_suffix: a.type_var_tuple_suffix,
        type_var_tuple_fallback: clone_opt(&a.type_var_tuple_fallback),
    }
}

impl RecordStore {
    /// The class snapshots and module symbol tables of this store as a
    /// resolver.
    pub fn resolver(&self) -> (r: TypeResolver)
        ensures
            forall|k: Seq<char>| #[trigger] r.class_of(k).is_some() == self.class_rec(k).is_some(),
            forall|k: Seq<char>| self.class_rec(k).is_some() ==> same_snapshot(#[trigger] r.class_of(k).unwrap(), self.class_rec(k).unwrap()),
            r.classes.entries@.len() == self.class_count(),
            forall|k: Seq<char>| #[trigger] r.module_of(k).is_some() == self.module_rec(k).is_some(),
            forall|k: Seq<char>|
                #![trigger r.module_of(k)]
                self.module_rec(k).is_some() ==> forall|n: Seq<char>| #[trigger] r.module_of(k).unwrap().symbols.lookup(n).is_some()
                    == self.module_rec(k).unwrap().symbols.lookup(n).is_some() && (self.module_rec(k).unwrap().symbols.lookup(n).is_some()
                    ==> symbol_entry_ok(self.module_rec(k).unwrap().symbols.lookup(n).unwrap(), r.module_of(k).unwrap().symbols.lookup(n).unwrap())),
    {
        let src = &self.classes.entries;
        let mut out: Vec<(String, TypeInfoSnapshot)> = Vec::new();
        let mut i: usize = 0;
        while i < src.len()
            invariant
                i <= src@.len(),
                out@.len() == i,
                forall|j: int| 0 <= j < i ==> #[trigger] out@[j].0@ == src@[j].0@,
                forall|j: int| 0 <= j < i ==> same_snapshot(#[trigger] out@[j].1, src@[j].1),
            decreases src@.len() - i,
        {
            out.push((src[i].0.clone(), copy_snapshot(&src[i].1)));
            i = i + 1;
        }
        let msrc = &self.modules.entries;
        let mut mout: Vec<(String, ModuleSnapshot)> = Vec::new();
        let mut i: usize = 0;
        while i < msrc.len()
            invariant
                i <= msrc@.len(),
                mout@.len() == i,
                forall|j: int| 0 <= j < i ==> #[trigger] mout@[j].0@ == msrc@[j].0@,
                forall|j: int| 0 <= j < i ==> forall|n: Seq<char>| #[trigger] (#[trigger] mout@[j]).1.symbols.lookup(n).is_some()
                    == msrc@[j].1.symbols.lookup(n).is_some() && (msrc@[j].1.symbols.lookup(n).is_some()
                    ==> symbol_entry_ok(msrc@[j].1.symbols.lookup(n).unwrap(), mout@[j].1.symbols.lookup(n).unwrap())),
            decreases msrc@.len() - i,
        {
            mout.push((msrc[i].0.clone(), msrc[i].1.snapshot()));
            i = i + 1;
        }
        let r = TypeResolver { classes: NameMap { entries: out }, modules: NameMap { entries: mout } };
        proof {
            assert forall|k: Seq<char>| #[trigger] r.class_of(k).is_some() == self.class_rec(k).is_some()
                && (self.class_rec(k).is_some() ==> same_snapshot(r.class_of(k).unwrap(), self.class_rec(k).unwrap())) by {
                lemma_assoc_same_keys(out@, src@, k);
                lemma_assoc_index(out@, k);
                lemma_assoc_index(src@, k);
            }
            assert forall|k: Seq<char>| #[trigger] r.module_of(k).is_some() == self.module_rec(k).is_some()
                && (self.module_rec(k).is_some() ==> forall|n: Seq<char>| #[trigger] r.module_of(k).unwrap().symbols.lookup(n).is_some()
                    == self.module_rec(k).unwrap().symbols.lookup(n).is_some() && (self.module_rec(k).unwrap().symbols.lookup(n).is_some()
                    ==> symbol_entry_ok(self.module_rec(k).unwrap().symbols.lookup(n).unwrap(), r.module_of(k).unwrap().symbols.lookup(n).unwrap()))) by {
                lemma_assoc_same_keys(mout@, msrc@, k);
                lemma_assoc_index(mout@, k);
                lemma_assoc_index(msrc@, k);
            }
        }
        r
    }
}


/// Every name the C3 merge produces comes from one of its input lists.
pub proof fn lemma_c3_merge_from_inputs(seqs: Seq<Seq<Seq<char>>>, x: Seq<char>)
    requires
        c3_merge(seqs).is_some(),
        c3_merge(seqs).unwrap().contains(x),
    ensures
        exists|k: int| 0 <= k < seqs.len() && (#[trigger] seqs[k]).contains(x),
    decreases total_len(seqs),
{
    if total_len(seqs) == 0 {
    } else {
        let j = pick_index(seqs, 0).unwrap();
        lemma_pick_index(seqs, 0);
        lemma_drop_head_lt(seqs, seqs[j][0], j);
        let h = seqs[j][0];
        let rest = c3_merge(drop_head(seqs, h)).unwrap();
        assert(c3_merge(seqs).unwrap() == seq![h] + rest);
        if x == h {
            assert(seqs[j][0] == x);
            assert(seqs[j].contains(x));
        } else {
            let i = choose|i: int| 0 <= i < c3_merge(seqs).unwrap().len() && c3_merge(seqs).unwrap()[i] == x;
            assert(rest[i - 1] == x);
            assert(rest.contains(x));
            lemma_c3_merge_from_inputs(drop_head(seqs, h), x);
            let k = choose|k: int| 0 <= k < drop_head(seqs, h).len() && (#[trigger] drop_head(seqs, h)[k]).contains(x);
            let dk = drop_head(seqs, h)[k];
            let t = choose|t: int| 0 <= t < dk.len() && dk[t] == x;
            if seqs[k].len() > 0 && seqs[k][0] == h {
                assert(dk == seqs[k].drop_first());
                assert(seqs[k][t + 1] == x);
            } else {
                assert(dk == seqs[k]);
            }
            assert(seqs[k].contains(x));
        }
    }
}

/// The record of a class lists the class itself first in its MRO, and
/// every later entry is one of its bases or comes from a base's MRO: C3
/// linearization invents no class.
pub proof fn law_mro_is_the_class_then_its_ancestors(st: RecordStore, f: ClassFacts, s: TypeInfoSnapshot, i: int)
    requires
        build_error(st, f).is_none(),
        built_from(st, f, s),
        1 <= i < s.mro@.len(),
    ensures
        s.mro@.len() >= 1,
        s.mro@[0]@ == f.fullname@,
        s.has_base.has(f.fullname@),
        base_names(f).contains(s.mro@[i]@) || exists|k: int| 0 <= k < base_names(f).len()
            && strs_model(st.class_rec(#[trigger] base_names(f)[k]).unwrap().mro@).contains(s.mro@[i]@),
{
    let names = base_names(f);
    let mros = names.map_values(|n: Seq<char>| strs_model(st.class_rec(n).unwrap().mro@));
    let merged = c3_merge(mros.push(names)).unwrap();
    let m = strs_model(s.mro@);
    assert(m == seq![f.fullname@] + merged);
    assert(m[0] == f.fullname@);
    assert(m.contains(f.fullname@));
    assert(merged[i - 1] == m[i]);
    assert(merged.contains(m[i]));
    lemma_c3_merge_from_inputs(mros.push(names), m[i]);
    let k = choose|k: int| 0 <= k < mros.push(names).len() && (#[trigger] mros.push(names)[k]).contains(m[i]);
    if k < names.len() {
        assert(mros.push(names)[k] == strs_model(st.class_rec(names[k]).unwrap().mro@));
    } else {
        assert(mros.push(names)[k] == names);
    }
}

/// Inserting a class and reading back its type variables' upper bounds
/// gives, in declaration order, the bound of each plain type variable and
/// nothing for a parameter spec or a type variable tuple: `insert_class`
/// records what `type_var_upper_bounds` returns for that class.
pub proof fn law_inserted_upper_bounds_read_back(st: RecordStore, f: ClassFacts, s: TypeInfoSnapshot)
    requires
        build_error(st, f).is_none(),
        built_from(st, f, s),
    ensures
        opts_model(s.type_var_upper_bounds@) == f.type_vars@.map_values(|t: TypeVarFact| bound_of(t)),
{
    assert(type_var_arrays_match(f.type_vars@, s.type_vars@, s.type_vars_with_variance@, s.type_var_upper_bounds@, s.type_var_raw_ids@));
    assert forall|i: int| 0 <= i < f.type_vars@.len() implies opts_model(s.type_var_upper_bounds@)[i]
        == bound_of(f.type_vars@[i]) by {
        assert(s.type_vars@[i]@ == f.type_vars@[i].name@);
    }
    assert(opts_model(s.type_var_upper_bounds@) =~= f.type_vars@.map_values(|t: TypeVarFact| bound_of(t)));
}

proof fn lemma_pick_index_skips(seqs: Seq<Seq<Seq<char>>>, j: int)
    requires
        0 <= j,
        pick_index(seqs, j).is_some(),
    ensures
        forall|i: int| j <= i < pick_index(seqs, j).unwrap() ==> (#[trigger] seqs[i]).len() == 0 || in_some_tail(seqs, seqs[i][0]),
    decreases seqs.len() - j,
{
    if j < seqs.len() && !(seqs[j].len() > 0 && !in_some_tail(seqs, seqs[j][0])) {
        lemma_pick_index_skips(seqs, j + 1);
    }
}

/// Each step of the C3 merge takes the head of the first list, in order,
/// whose head is in no list's tail: the merged order starts with that head
/// and goes on with the merge of the lists once that head is taken off.
pub proof fn law_c3_takes_first_free_head(seqs: Seq<Seq<Seq<char>>>, m: Seq<Seq<char>>)
    requires
        c3_merge(seqs) == Some(m),
        m.len() > 0,
    ensures
        exists|j: int|
            0 <= j < seqs.len() && (#[trigger] seqs[j]).len() > 0 && m[0] == seqs[j][0] && !in_some_tail(seqs, seqs[j][0])
                && forall|i: int| 0 <= i < j ==> (#[trigger] seqs[i]).len() == 0 || in_some_tail(seqs, seqs[i][0]),
        c3_merge(drop_head(seqs, m[0])) == Some(m.drop_first()),
{
    let j = pick_index(seqs, 0).unwrap();
    lemma_pick_index(seqs, 0);
    lemma_pick_index_skips(seqs, 0);
    lemma_drop_head_lt(seqs, seqs[j][0], j);
    let rest = c3_merge(drop_head(seqs, seqs[j][0])).unwrap();
    assert(m == seq![seqs[j][0]] + rest);
    assert(m.drop_first() =~= rest);
    assert(seqs[j].len() > 0 && m[0] == seqs[j][0]);
}

} // verus!

