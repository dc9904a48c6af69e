//! Statement checking decisions: return, assignment targets and arity,
//! augmented assignment, raise, with, try/except, reachability.
//!
//! Each operation takes the scalar facts mypy reads off live AST nodes as
//! an explicit `*Facts` record and returns the branch mypy takes. `None`
//! from an `Option` result means the decision needs a type alias target
//! or a snapshot the caller did not supply.

use vstd::prelude::*;
use crate::query::{query, run_query, then_ask, BoolQuery};
use crate::text::{owned, str_eq, str_in};
use crate::translate::{apply_rewrite, rewrite, Rewrite};
use crate::standalone::call::{is_type_obj, type_obj_spec};
use crate::standalone::types::append_types;
use crate::typeinfo::{find_in_mro, mro_lookup, TypeInfoSnapshot, TypeResolver};
use crate::wire::{clone_type, clone_types, lemma_types_model, lemma_types_model_push, type_model, types_model, LiteralModel, Type, TypeModel};

verus! {

/// The alias store statement checks expand aliases from. This layer holds
/// no alias targets, so every alias a check meets declines.
#[derive(Debug)]
pub struct AliasContext {
    entries: usize,
}

impl AliasContext {
    /// A context with no alias snapshots: every `TypeAliasType` declines.
    pub fn empty() -> (r: AliasContext) {
        AliasContext { entries: 0 }
    }
}

impl Default for AliasContext {
    fn default() -> (r: AliasContext) {
        AliasContext::empty()
    }
}

/// The facts `check_return_stmt` reads off the enclosing definition and
/// the returned expression.
#[derive(Debug, Clone, Copy, Default, PartialEq, Eq)]
pub struct ReturnStmtFacts {
    /// `self.is_async_generator()`.
    pub is_async_generator: bool,
    /// `self.is_generator()`.
    pub is_generator: bool,
    /// `self.is_coroutine()`.
    pub is_coroutine: bool,
    /// The enclosing def is annotated to return `None`.
    pub declared_none_return: bool,
    /// `self.options.warn_return_any`.
    pub warn_return_any: bool,
    /// `self.current_node_deferred`.
    pub current_node_deferred: bool,
    /// The enclosing def is a binary dunder.
    pub name_in_binary_magic: bool,
    /// The returned expression is the `NotImplemented` literal.
    pub expr_is_literal_not_implemented: bool,
    /// The enclosing def is a lambda.
    pub is_lambda: bool,
    /// `self.in_checked_function()`.
    pub in_checked_function: bool,
}

/// The decision front of `TypeChecker.check_return_stmt`.
#[derive(Debug, Clone, Copy, PartialEq, Eq, Structural)]
pub enum ReturnOutcome {
    /// RETURN_IN_ASYNC_GENERATOR.
    AsyncGeneratorFail,
    /// WARN_RETURN_ANY.
    WarnReturnAny,
    /// A returned `Any` is accepted.
    AnyReturnOk,
    /// The lambda / `None`-value exemption.
    DeclaredNoneOk,
    /// NO_RETURN_VALUE_EXPECTED.
    DeclaredNoneFail,
    /// Run the `check_subtype` tail.
    CheckSubtype,
    /// An empty `return` is accepted.
    EmptyOk,
    /// RETURN_VALUE_EXPECTED.
    EmptyFail,
}

/// Whether a model is an `Instance` of `fullname`.
pub open spec fn is_instance_of(t: TypeModel, fullname: Seq<char>) -> bool {
    match t {
        TypeModel::Instance { type_ref, .. } => type_ref == fullname,
        _ => false,
    }
}

/// `is_proper_subtype(AnyType(special_form), ret)`, structurally: `ret`
/// is `Any`, or a union with such an item.
pub open spec fn any_proper_subtype(t: TypeModel) -> bool
    decreases t, 1nat,
{
    match t {
        TypeModel::AnyType { .. } => true,
        TypeModel::UnionType { items, .. } => any_proper_subtype_seq(items),
        _ => false,
    }
}

pub open spec fn any_proper_subtype_seq(s: Seq<TypeModel>) -> bool
    decreases s, 0nat,
{
    s.len() > 0 && (any_proper_subtype_seq(s.drop_last()) || any_proper_subtype(s.last()))
}

/// The decision of `check_return_stmt` after the `NoReturn` arm.
pub open spec fn return_outcome(returned: Option<TypeModel>, ret: TypeModel, f: ReturnStmtFacts) -> ReturnOutcome {
    match returned {
        Some(got) => {
            let not_implemented = is_instance_of(got, "builtins._NotImplementedType"@);
            let is_any = not_implemented || got is AnyType;
            if f.is_async_generator {
                ReturnOutcome::AsyncGeneratorFail
            } else if is_any {
                if f.warn_return_any && !f.current_node_deferred && !any_proper_subtype(ret) && !(
                f.name_in_binary_magic && f.expr_is_literal_not_implemented) && !is_instance_of(ret, "builtins.object"@)
                    && !f.is_lambda {
                    ReturnOutcome::WarnReturnAny
                } else {
                    ReturnOutcome::AnyReturnOk
                }
            } else if f.declared_none_return {
                if f.is_lambda || got is NoneType {
                    ReturnOutcome::DeclaredNoneOk
                } else {
                    ReturnOutcome::DeclaredNoneFail
                }
            } else {
                ReturnOutcome::CheckSubtype
            }
        },
        None => {
            if f.is_generator && !f.is_coroutine && ret is AnyType {
                ReturnOutcome::EmptyOk
            } else if ret is NoneType || ret is AnyType {
                ReturnOutcome::EmptyOk
            } else if f.in_checked_function {
                ReturnOutcome::EmptyFail
            } else {
                ReturnOutcome::EmptyOk
            }
        },
    }
}

fn is_instance_named(t: &Type, fullname: &str) -> (r: bool)
    ensures
        r == is_instance_of(t@, fullname@),
{
    match t {
        Type::Instance { type_ref, .. } => str_eq(type_ref.as_str(), fullname),
        _ => false,
    }
}

/// `TypeChecker.check_return_stmt`, the decision front. `returned` is
/// `None` for a bare `return`, otherwise the type of the returned
/// expression; `return_type` is the enclosing definition's return type.
pub fn check_return_stmt(returned: Option<&Type>, return_type: &Type, facts: &ReturnStmtFacts) -> (r: ReturnOutcome)
    ensures
        r == return_outcome(
            match returned {
                Some(t) => Some(t@),
                None => None,
            },
            return_type@,
            *facts,
        ),
{
    match returned {
        Some(got) => {
            let not_implemented = is_instance_named(got, "builtins._NotImplementedType");
            let is_any = not_implemented || match got {
                Type::AnyType { .. } => true,
                _ => false,
            };
            if facts.is_async_generator {
                ReturnOutcome::AsyncGeneratorFail
            } else if is_any {
                if facts.warn_return_any && !facts.current_node_deferred && !any_is_proper_subtype_of(return_type)
                    && !(facts.name_in_binary_magic && facts.expr_is_literal_not_implemented) && !is_instance_named(
                    return_type,
                    "builtins.object",
                ) && !facts.is_lambda {
                    ReturnOutcome::WarnReturnAny
                } else {
                    ReturnOutcome::AnyReturnOk
                }
            } else if facts.declared_none_return {
                let got_none = match got {
                    Type::NoneType => true,
                    _ => false,
                };
                if facts.is_lambda || got_none {
                    ReturnOutcome::DeclaredNoneOk
                } else {
                    ReturnOutcome::DeclaredNoneFail
                }
            } else {
                ReturnOutcome::CheckSubtype
            }
        },
        None => {
            let ret_any = match return_type {
                Type::AnyType { .. } => true,
                _ => false,
            };
            let ret_none = match return_type {
                Type::NoneType => true,
                _ => false,
            };
            if facts.is_generator && !facts.is_coroutine && ret_any {
                ReturnOutcome::EmptyOk
            } else if ret_none || ret_any {
                ReturnOutcome::EmptyOk
            } else if facts.in_checked_function {
                ReturnOutcome::EmptyFail
            } else {
                ReturnOutcome::EmptyOk
            }
        },
    }
}

/// The NO_RETURN_EXPECTED arm of `check_return_stmt`: the return type is
/// a non-ambiguous `UninhabitedType` and the definition is not a lambda.
pub fn no_return_expected(return_type: &Type, is_lambda: bool) -> (r: bool)
    ensures
        r == (return_type@ matches TypeModel::UninhabitedType { ambiguous } && !ambiguous && !is_lambda),
{
    match return_type {
        Type::UninhabitedType { ambiguous } => !*ambiguous && !is_lambda,
        _ => false,
    }
}

/// `not is_proper_subtype(AnyType(special_form), ret)` negated: whether a
/// special-form `Any` is a proper subtype of the return type, decided
/// structurally (an `Any`, or a union with such an item).
pub fn any_is_proper_subtype_of(return_type: &Type) -> (r: bool)
    ensures
        r == any_proper_subtype(return_type@),
    decreases return_type, 1nat,
{
    match return_type {
        Type::AnyType { .. } => true,
        Type::UnionType { items, .. } => any_proper_subtype_vec(items),
        _ => false,
    }
}

fn any_proper_subtype_vec(items: &Vec<Type>) -> (r: bool)
    ensures
        r == any_proper_subtype_seq(types_model(items@)),
    decreases items, 0nat,
{
    proof {
        lemma_types_model(items@);
    }
    let mut found = false;
    let mut i: usize = 0;
    while i < items.len()
        invariant
            i <= items@.len(),
            types_model(items@).len() == items@.len(),
            forall|j: int| 0 <= j < items@.len() ==> #[trigger] types_model(items@)[j] == type_model(items@[j]),
            found == any_proper_subtype_seq(types_model(items@).take(i as int)),
        decreases items@.len() - i,
    {
        proof {
            assert(types_model(items@).take(i + 1).drop_last() =~= types_model(items@).take(i as int));
            assert(types_model(items@).take(i + 1).last() == items@[i as int]@);
        }
        let b = any_is_proper_subtype_of(&items[i]);
        found = found || b;
        i = i + 1;
    }
    proof {
        assert(types_model(items@).take(items@.len() as int) =~= types_model(items@));
    }
    found
}

/// The lvalue-node facts `check_lvalue` dispatches on.
#[derive(Debug, Clone, Copy, Default, PartialEq, Eq)]
pub struct LvalueFacts {
    /// `self.is_definition(lvalue)`.
    pub is_definition: bool,
    /// The lvalue is a `NameExpr`.
    pub is_name: bool,
    /// The lvalue is a `MemberExpr`.
    pub is_member: bool,
    /// The lvalue is an `IndexExpr`.
    pub is_index: bool,
    /// The lvalue is a `TupleExpr`.
    pub is_tuple: bool,
    /// The lvalue is a `ListExpr`.
    pub is_list: bool,
    /// The lvalue is a `StarExpr`.
    pub is_star: bool,
    /// `isinstance(lvalue.node, Var)`.
    pub node_is_var: bool,
    /// The `allow_redefinition` conjunction; see [`lvalue_skip_definition`].
    pub skip_definition: bool,
}

/// The `Var`-node facts the `allow_redefinition` conjunction reads.
#[derive(Debug, Clone, Copy, Default, PartialEq, Eq)]
pub struct VarNodeFacts {
    /// `isinstance(lvalue.node, Var)`.
    pub is_var: bool,
    /// `lvalue.node.is_inferred`.
    pub is_inferred: bool,
    /// `lvalue.node.type is not None`.
    pub has_type: bool,
    /// `isinstance(lvalue.node.type, PartialType)`.
    pub type_is_partial: bool,
    /// `lvalue.node.is_index_var`.
    pub is_index_var: bool,
}

/// Which arm of `TypeChecker.check_lvalue` handles the target.
#[derive(Debug, Clone, Copy, PartialEq, Eq, Structural)]
pub enum LvalueKind {
    /// A name being defined.
    NameDef,
    /// A member being defined.
    MemberDef,
    /// `check_indexed_assignment`.
    Index,
    /// `check_member_assignment`.
    Member,
    /// A plain name rebinding.
    Name,
    /// `check_assignment_to_multiple_lvalues`.
    TupleList,
    /// A starred target.
    Star,
    /// No arm matched.
    Else,
}

/// The dispatch of `check_lvalue`: a definition (of a name bound to a
/// `Var`, or of a member) that redefinition does not skip, then the
/// `isinstance` chain.
pub open spec fn lvalue_kind(f: LvalueFacts) -> LvalueKind {
    if f.is_definition && (!f.is_name || f.node_is_var) && !f.skip_definition && (f.is_name || f.is_member) {
        if f.is_name {
            LvalueKind::NameDef
        } else {
            LvalueKind::MemberDef
        }
    } else if f.is_index {
        LvalueKind::Index
    } else if f.is_member {
        LvalueKind::Member
    } else if f.is_name {
        LvalueKind::Name
    } else if f.is_tuple || f.is_list {
        LvalueKind::TupleList
    } else if f.is_star {
        LvalueKind::Star
    } else {
        LvalueKind::Else
    }
}

/// `TypeChecker.check_lvalue`, the branch dispatch.
pub fn check_lvalue(facts: &LvalueFacts) -> (r: LvalueKind)
    ensures
        r == lvalue_kind(*facts),
{
    if facts.is_definition && (!facts.is_name || facts.node_is_var) && !facts.skip_definition && (facts.is_name
        || facts.is_member) {
        if facts.is_name {
            LvalueKind::NameDef
        } else {
            LvalueKind::MemberDef
        }
    } else if facts.is_index {
        LvalueKind::Index
    } else if facts.is_member {
        LvalueKind::Member
    } else if facts.is_name {
        LvalueKind::Name
    } else if facts.is_tuple || facts.is_list {
        LvalueKind::TupleList
    } else if facts.is_star {
        LvalueKind::Star
    } else {
        LvalueKind::Else
    }
}

/// The `skip_definition` conjunction of `check_lvalue`: with
/// `--allow-redefinition`, an inferred local that already has a
/// non-partial type and is not a comprehension index variable rebinds
/// instead of re-checking as a definition.
pub fn lvalue_skip_definition(allow_redefinition: bool, var: &VarNodeFacts) -> (r: bool)
    ensures
        r == (allow_redefinition && var.is_var && var.is_inferred && var.has_type && !var.type_is_partial
            && !var.is_index_var),
{
    allow_redefinition && var.is_var && var.is_inferred && var.has_type && !var.type_is_partial && !var.is_index_var
}


/// The lvalue-node facts `check_assignment`'s special-name front reads.
#[derive(Debug, Clone, Default, PartialEq, Eq)]
pub struct AssignmentLvalue {
    /// The lvalue is a `NameExpr`.
    pub is_name_expr: bool,
    /// `bool(lvalue.node)` for a `NameExpr`.
    pub node_truthy: bool,
    /// `lvalue.node.name` for a `NameExpr` with a truthy node.
    pub node_name: Option<String>,
    /// The lvalue is a `MemberExpr`.
    pub is_member_expr: bool,
    /// `lvalue.name` for a `MemberExpr`.
    pub lvalue_name: Option<String>,
    /// `lvalue.kind is None` for a `MemberExpr`.
    pub member_kind_none: bool,
}

/// The `lvalue_type` shape facts `check_assignment` dispatches on.
#[derive(Debug, Clone, Copy, Default, PartialEq, Eq)]
pub struct AssignmentLvalueType {
    /// `isinstance(lvalue_type, PartialType) and lvalue_type.type is None`.
    pub partial_none: bool,
}

/// The special-name front of `TypeChecker.check_assignment`.
#[derive(Debug, Clone, Copy, PartialEq, Eq, Structural)]
pub enum AssignmentSpecial {
    /// No special-name check applies.
    NoSpecial,
    /// `__setattr__` / `__getattribute__` / `__getattr__`.
    SetattrSignature,
    /// `__slots__` inside a class body.
    Slots,
    /// `__match_args__` with an inferred `Var`.
    MatchArgs,
    /// `__post_init__`.
    PostInit,
    /// A `MemberExpr` `__match_args__` assignment: always a failure.
    MemberMatchArgs,
}

/// The `lvalue_type` dispatch of `TypeChecker.check_assignment`.
#[derive(Debug, Clone, Copy, PartialEq, Eq, Structural)]
pub enum AssignmentBranch {
    /// No lvalue type.
    NoType,
    /// The partial-`None` inference arm.
    PartialNone,
    /// `check_member_assignment`.
    Member,
    /// Routes to [`check_simple_assignment`].
    Simple,
}

/// The two decisions `check_assignment` makes before any arm body.
#[derive(Debug, Clone, Copy, PartialEq, Eq)]
pub struct AssignmentDecision {
    /// The special-name front result.
    pub special: AssignmentSpecial,
    /// The `lvalue_type` dispatch result.
    pub branch: AssignmentBranch,
}

/// The special-name decision of `check_assignment`.
pub open spec fn assignment_special(lv: AssignmentLvalue, has_inferred: bool, active_class: bool) -> AssignmentSpecial {
    let node = if lv.is_name_expr && lv.node_truthy && lv.node_name.is_some() {
        Some(lv.node_name.unwrap()@)
    } else {
        None
    };
    match node {
        Some(name) => if name == "__setattr__"@ || name == "__getattribute__"@ || name == "__getattr__"@ {
            AssignmentSpecial::SetattrSignature
        } else if name == "__slots__"@ && active_class {
            AssignmentSpecial::Slots
        } else if name == "__match_args__"@ && has_inferred {
            AssignmentSpecial::MatchArgs
        } else if name == "__post_init__"@ {
            AssignmentSpecial::PostInit
        } else {
            AssignmentSpecial::NoSpecial
        },
        None => if lv.is_member_expr && lv.lvalue_name.is_some() && lv.lvalue_name.unwrap()@ == "__match_args__"@ {
            AssignmentSpecial::MemberMatchArgs
        } else {
            AssignmentSpecial::NoSpecial
        },
    }
}

/// The `lvalue_type` decision of `check_assignment`.
pub open spec fn assignment_branch(lv: AssignmentLvalue, lvalue_type: Option<AssignmentLvalueType>) -> AssignmentBranch {
    match lvalue_type {
        None => AssignmentBranch::NoType,
        Some(t) => if t.partial_none {
            AssignmentBranch::PartialNone
        } else if lv.is_member_expr && lv.member_kind_none {
            AssignmentBranch::Member
        } else {
            AssignmentBranch::Simple
        },
    }
}

/// `TypeChecker.check_assignment`, the decision front: the special-name
/// check and the `lvalue_type` dispatch. `has_inferred` is
/// `inferred is not None`, `active_class` is
/// `self.scope.active_class() is not None`.
pub fn check_assignment(
    lvalue: &AssignmentLvalue,
    lvalue_type: Option<&AssignmentLvalueType>,
    has_inferred: bool,
    active_class: bool,
) -> (r: AssignmentDecision)
    ensures
        r.special == assignment_special(*lvalue, has_inferred, active_class),
        r.branch == assignment_branch(
            *lvalue,
            match lvalue_type {
                Some(t) => Some(*t),
                None => None,
            },
        ),
{
    let special = match &lvalue.node_name {
        Some(name) if lvalue.is_name_expr && lvalue.node_truthy => {
            let n = name.as_str();
            if str_eq(n, "__setattr__") || str_eq(n, "__getattribute__") || str_eq(n, "__getattr__") {
                AssignmentSpecial::SetattrSignature
            } else if str_eq(n, "__slots__") && active_class {
                AssignmentSpecial::Slots
            } else if str_eq(n, "__match_args__") && has_inferred {
                AssignmentSpecial::MatchArgs
            } else if str_eq(n, "__post_init__") {
                AssignmentSpecial::PostInit
            } else {
                AssignmentSpecial::NoSpecial
            }
        },
        _ => {
            let member_match = match &lvalue.lvalue_name {
                Some(n) => lvalue.is_member_expr && str_eq(n.as_str(), "__match_args__"),
                None => false,
            };
            if member_match {
                AssignmentSpecial::MemberMatchArgs
            } else {
                AssignmentSpecial::NoSpecial
            }
        },
    };
    let branch = match lvalue_type {
        None => AssignmentBranch::NoType,
        Some(t) => if t.partial_none {
            AssignmentBranch::PartialNone
        } else if lvalue.is_member_expr && lvalue.member_kind_none {
            AssignmentBranch::Member
        } else {
            AssignmentBranch::Simple
        },
    };
    AssignmentDecision { special, branch }
}

/// The facts `check_simple_assignment` reads besides the lvalue type.
#[derive(Debug, Clone, Copy, Default, PartialEq, Eq)]
pub struct SimpleAssignmentFacts {
    /// `self.is_stub`.
    pub is_stub: bool,
    /// `isinstance(rvalue, EllipsisExpr)`.
    pub rvalue_is_ellipsis: bool,
    /// `inferred is not None`.
    pub has_inferred: bool,
    /// `inferred.is_argument`.
    pub inferred_is_argument: bool,
    /// `simple_rvalue(rvalue)`.
    pub simple_rvalue: bool,
}

/// The head dispatch of `TypeChecker.check_simple_assignment`.
#[derive(Debug, Clone, Copy, PartialEq, Eq, Structural)]
pub enum SimpleAssignment {
    /// A stub `x: T = ...` initializer: accept without a subtype check.
    StubEllipsis,
    /// The direct arm: no fallback re-inference.
    Direct,
    /// The fallback arm with no preferred type: the inferred context wins.
    FallbackNoPreferred,
    /// The fallback arm with the lvalue type preferred.
    FallbackLvaluePreferred,
}

/// The head dispatch of `check_simple_assignment`: a stub ellipsis is
/// accepted; a union target with a non-simple rvalue re-infers, preferring
/// the declared type unless an inferred non-argument variable is bound;
/// everything else checks directly. `None` for an alias target.
pub open spec fn simple_assignment(lvalue_type: Option<TypeModel>, f: SimpleAssignmentFacts) -> Option<SimpleAssignment> {
    if f.is_stub && f.rvalue_is_ellipsis {
        Some(SimpleAssignment::StubEllipsis)
    } else {
        match lvalue_type {
            Some(TypeModel::TypeAliasType { .. }) => None,
            Some(TypeModel::UnionType { .. }) => if f.simple_rvalue {
                Some(SimpleAssignment::Direct)
            } else if !f.has_inferred || f.inferred_is_argument {
                Some(SimpleAssignment::FallbackLvaluePreferred)
            } else {
                Some(SimpleAssignment::FallbackNoPreferred)
            },
            _ => Some(SimpleAssignment::Direct),
        }
    }
}

/// `TypeChecker.check_simple_assignment`, the head dispatch for a single
/// target. `lvalue_type` is the declared or inferred lvalue type, `None`
/// when the caller has none.
pub fn check_simple_assignment(lvalue_type: Option<&Type>, facts: &SimpleAssignmentFacts) -> (r: Option<SimpleAssignment>)
    ensures
        r == simple_assignment(
            match lvalue_type {
                Some(t) => Some(t@),
                None => None,
            },
            *facts,
        ),
{
    if facts.is_stub && facts.rvalue_is_ellipsis {
        return Some(SimpleAssignment::StubEllipsis);
    }
    match lvalue_type {
        Some(Type::TypeAliasType { .. }) => None,
        Some(Type::UnionType { .. }) => if facts.simple_rvalue {
            Some(SimpleAssignment::Direct)
        } else if !facts.has_inferred || facts.inferred_is_argument {
            Some(SimpleAssignment::FallbackLvaluePreferred)
        } else {
            Some(SimpleAssignment::FallbackNoPreferred)
        },
        _ => Some(SimpleAssignment::Direct),
    }
}

/// The target / rvalue arity facts of a multiple assignment.
#[derive(Debug, Clone, Copy, Default, PartialEq, Eq)]
pub struct RvalueCountFacts {
    /// Some target is a `StarExpr`.
    pub has_star: bool,
    /// The index of the first starred target.
    pub star_index: i64,
    /// `len(lvalues)`.
    pub lvalues_len: i64,
    /// The rvalue's item count.
    pub rvalue_count: i64,
    /// The rvalue unpack position, `None` when there is no unpack.
    pub rvalue_unpack: Option<i64>,
}

/// The outcome of `check_rvalue_count_in_assignment`.
#[derive(Debug, Clone, Copy, PartialEq, Eq, Structural)]
pub enum RvalueCount {
    /// The arity matches.
    Pass,
    /// An unpacking rvalue needs a starred target.
    StarRequired,
    /// More targets than an unpacking rvalue can fill.
    UnpackTooManyTargets,
    /// Asymmetric prefix / suffix around the two unpacks: a warning only.
    UnpackAsymmetricWarn,
    /// A starred target with too few rvalue items.
    StarTooFewTargets,
    /// A plain target list whose length differs from the rvalue's.
    WrongCount,
}

/// The arity gate of `check_rvalue_count_in_assignment`.
pub open spec fn rvalue_count_outcome(f: RvalueCountFacts) -> RvalueCount {
    match f.rvalue_unpack {
        Some(unpack) => if !f.has_star {
            RvalueCount::StarRequired
        } else if f.lvalues_len > f.rvalue_count {
            RvalueCount::UnpackTooManyTargets
        } else {
            let left_prefix = f.star_index as int;
            let left_suffix = f.lvalues_len - f.star_index - 1;
            let right_prefix = unpack as int;
            let right_suffix = f.rvalue_count - unpack - 1;
            if left_suffix > right_suffix || left_prefix > right_prefix {
                RvalueCount::UnpackAsymmetricWarn
            } else {
                RvalueCount::Pass
            }
        },
        None => if f.has_star {
            if f.lvalues_len - 1 > f.rvalue_count {
                RvalueCount::StarTooFewTargets
            } else {
                RvalueCount::Pass
            }
        } else if f.rvalue_count != f.lvalues_len {
            RvalueCount::WrongCount
        } else {
            RvalueCount::Pass
        },
    }
}

/// `TypeChecker.check_rvalue_count_in_assignment`: the arity gate every
/// tuple-unpacking and multiple assignment passes through.
pub fn check_rvalue_count(facts: &RvalueCountFacts) -> (r: RvalueCount)
    ensures
        r == rvalue_count_outcome(*facts),
{
    match facts.rvalue_unpack {
        Some(unpack) => if !facts.has_star {
            RvalueCount::StarRequired
        } else if facts.lvalues_len > facts.rvalue_count {
            RvalueCount::UnpackTooManyTargets
        } else {
            let left_prefix = facts.star_index as i128;
            let left_suffix = facts.lvalues_len as i128 - facts.star_index as i128 - 1;
            let right_prefix = unpack as i128;
            let right_suffix = facts.rvalue_count as i128 - unpack as i128 - 1;
            if left_suffix > right_suffix || left_prefix > right_prefix {
                RvalueCount::UnpackAsymmetricWarn
            } else {
                RvalueCount::Pass
            }
        },
        None => if facts.has_star {
            if facts.lvalues_len as i128 - 1 > facts.rvalue_count as i128 {
                RvalueCount::StarTooFewTargets
            } else {
                RvalueCount::Pass
            }
        } else if facts.rvalue_count != facts.lvalues_len {
            RvalueCount::WrongCount
        } else {
            RvalueCount::Pass
        },
    }
}

/// The facts [`is_valid_inferred_type`] reads about the target.
#[derive(Debug, Clone, Copy, Default, PartialEq, Eq)]
pub struct InferredTypeFacts {
    /// The lvalue is a `Final` declaration.
    pub is_lvalue_final: bool,
    /// The lvalue is a class or instance member.
    pub is_lvalue_member: bool,
    /// `self.options.allow_redefinition`.
    pub allow_redefinition: bool,
}

/// `mypy.checker.is_valid_inferred_type`: `None` may be bound only to a
/// final target or, with redefinition allowed, a non-member one; `Never`
/// never; anything else unless it holds an ambiguous `Never`, an erased
/// type or a meta type variable. `None` for an alias.
pub open spec fn valid_inferred(t: TypeModel, f: InferredTypeFacts) -> Option<bool> {
    match t {
        TypeModel::TypeAliasType { .. } => None,
        TypeModel::NoneType => Some(f.is_lvalue_final || (!f.is_lvalue_member && f.allow_redefinition)),
        TypeModel::UninhabitedType { .. } => Some(false),
        _ => match query(t, BoolQuery::InvalidInferred) {
            Some(b) => Some(!b),
            None => None,
        },
    }
}

/// `mypy.checker.is_valid_inferred_type` with its `InvalidInferredTypes`
/// visitor: whether a type just inferred for a variable may be bound.
pub fn is_valid_inferred_type(typ: &Type, facts: &InferredTypeFacts, aliases: &AliasContext) -> (r: Option<bool>)
    ensures
        r == valid_inferred(typ@, *facts),
{
    match typ {
        Type::TypeAliasType { .. } => None,
        Type::NoneType => Some(facts.is_lvalue_final || (!facts.is_lvalue_member && facts.allow_redefinition)),
        Type::UninhabitedType { .. } => Some(false),
        _ => match run_query(typ, BoolQuery::InvalidInferred) {
            Some(b) => Some(!b),
            None => None,
        },
    }
}

/// The `"__i" + method[2:]` name of `_find_inplace_method`.
pub open spec fn inplace_name(method: Seq<char>) -> Seq<char> {
    "__i"@ + (if method.len() >= 2 { method.subrange(2, method.len() as int) } else { Seq::empty() })
}

/// The in-place dunder an operator dunder maps to: `"__i"` followed by the
/// method name after its first two characters.
pub fn inplace_method_name(method: &str) -> (r: String)
    ensures
        r@ == inplace_name(method@),
{
    let mut out = owned("__i");
    let n = method.unicode_len();
    if n >= 2 {
        let rest = method.substring_char(2, n);
        out.append(rest);
    }
    out
}

/// `TypeChecker.infer_operator_assignment_method`: `(true, in-place
/// name)` when the operator admits an in-place method and the target's
/// class can read it, else `(false, method)`.
pub fn infer_operator_assignment_method(in_ops: bool, has_inplace: bool, method: &str) -> (r: (bool, String))
    ensures
        r.0 == (in_ops && has_inplace),
        r.1@ == if in_ops && has_inplace { inplace_name(method@) } else { method@ },
{
    if in_ops && has_inplace {
        (true, inplace_method_name(method))
    } else {
        (false, owned(method))
    }
}

/// The dispatch of `TypeChecker.type_check_raise`.
#[derive(Debug, Clone, Copy, PartialEq, Eq, Structural)]
pub enum RaiseOutcome {
    /// The raised expression's type is `DeletedType`.
    Deleted,
    /// An ordinary exception type.
    Plain,
    /// `NotImplemented` was raised.
    NotImplemented,
}

/// The decision of `type_check_raise`.
pub open spec fn raise_outcome(t: TypeModel, callee: Option<Seq<char>>) -> RaiseOutcome {
    if t is DeletedType {
        RaiseOutcome::Deleted
    } else if is_instance_of(t, "builtins._NotImplementedType"@) || callee == Some("builtins.NotImplemented"@) {
        RaiseOutcome::NotImplemented
    } else {
        RaiseOutcome::Plain
    }
}

/// `TypeChecker.type_check_raise`, the dispatch front. `typ` is the type
/// of the raised expression and `callee_fullname` the callee's fullname
/// when the expression is a call of a named reference.
pub fn type_check_raise(typ: &Type, callee_fullname: Option<&str>) -> (r: RaiseOutcome)
    ensures
        r == raise_outcome(
            typ@,
            match callee_fullname {
                Some(c) => Some(c@),
                None => None,
            },
        ),
{
    match typ {
        Type::DeletedType { .. } => RaiseOutcome::Deleted,
        _ => {
            let by_callee = match callee_fullname {
                Some(c) => str_eq(c, "builtins.NotImplemented"),
                None => false,
            };
            if is_instance_named(typ, "builtins._NotImplementedType") || by_callee {
                RaiseOutcome::NotImplemented
            } else {
                RaiseOutcome::Plain
            }
        },
    }
}

/// The `__exit__` suppression test of `visit_with_stmt`: `Literal[True]`
/// of `bool`, or plain `bool` under strict optional.
pub open spec fn exit_suppresses(t: TypeModel, strict_optional: bool) -> bool {
    match t {
        TypeModel::LiteralType { fallback, value } => is_instance_of(*fallback, "builtins.bool"@) && value == LiteralModel::Bool(true),
        TypeModel::Instance { type_ref, .. } => type_ref == "builtins.bool"@ && strict_optional,
        _ => false,
    }
}

/// Whether the context manager's `__exit__` return type makes the `with`
/// body's exceptions swallowed.
pub fn with_exit_suppresses(exit_return_type: &Type, strict_optional: bool) -> (r: bool)
    ensures
        r == exit_suppresses(exit_return_type@, strict_optional),
{
    match exit_return_type {
        Type::LiteralType { fallback, value } => {
            let is_true = match value {
                crate::wire::LiteralValue::Bool(b) => *b,
                _ => false,
            };
            is_instance_named(fallback, "builtins.bool") && is_true
        },
        Type::Instance { type_ref, .. } => str_eq(type_ref.as_str(), "builtins.bool") && strict_optional,
        _ => false,
    }
}


/// The exception types one `except` clause binds: a tuple's items, the
/// union's relevant items each expanded in turn (`None` dropped without
/// strict optional), the item type of a variadic `tuple[T, ...]`, or the
/// type itself.
pub open spec fn except_types(t: TypeModel, strict: bool) -> Seq<TypeModel>
    decreases t, 1nat,
{
    match t {
        TypeModel::TupleType { items, .. } => items,
        TypeModel::UnionType { items, .. } => except_types_items(items, strict),
        TypeModel::Instance { type_ref, args, .. } => if type_ref == "builtins.tuple"@ && args.len() > 0 {
            seq![args[0]]
        } else {
            seq![t]
        },
        _ => seq![t],
    }
}

/// `except_types` over the relevant items of a union, in order.
pub open spec fn except_types_items(items: Seq<TypeModel>, strict: bool) -> Seq<TypeModel>
    decreases items, 0nat,
{
    if items.len() == 0 {
        Seq::empty()
    } else {
        let rest = except_types_items(items.drop_last(), strict);
        if !strict && items.last() is NoneType {
            rest
        } else {
            proof {
                assert(decreases_to!(items => items[items.len() - 1]));
            }
            rest + except_types(items.last(), strict)
        }
    }
}

/// `TypeChecker.get_types_from_except_handler`: the exception types one
/// `except` clause binds, flattened over tuples and unions.
pub fn get_types_from_except_handler(typ: &Type, strict_optional: bool) -> (r: Vec<Type>)
    ensures
        types_model(r@) == except_types(typ@, strict_optional),
    decreases typ, 1nat,
{
    match typ {
        Type::TupleType { items, .. } => clone_types(items),
        Type::UnionType { items, .. } => except_types_of_items(items, strict_optional),
        Type::Instance { type_ref, args, .. } => {
            proof {
                lemma_types_model(args@);
            }
            if str_eq(type_ref.as_str(), "builtins.tuple") && args.len() > 0 {
                let first = clone_type(&args[0]);
                let mut out: Vec<Type> = Vec::new();
                out.push(first);
                proof {
                    lemma_types_model_push(Seq::<Type>::empty(), first);
                    assert(out@ =~= Seq::<Type>::empty().push(first));
                }
                out
            } else {
                one_type(typ)
            }
        },
        _ => one_type(typ),
    }
}

/// `get_types_from_except_handler` over the relevant items of a union.
fn except_types_of_items(items: &Vec<Type>, strict_optional: bool) -> (r: Vec<Type>)
    ensures
        types_model(r@) == except_types_items(types_model(items@), strict_optional),
    decreases items, 0nat,
{
    let mut out: Vec<Type> = Vec::new();
    let mut i: usize = 0;
    proof {
        lemma_types_model(items@);
    }
    while i < items.len()
        invariant
            i <= items@.len(),
            types_model(items@).len() == items@.len(),
            forall|j: int| 0 <= j < items@.len() ==> #[trigger] types_model(items@)[j] == type_model(items@[j]),
            types_model(out@) == except_types_items(types_model(items@).take(i as int), strict_optional),
        decreases items@.len() - i,
    {
        proof {
            let ms = types_model(items@);
            assert(ms.take(i + 1).drop_last() =~= ms.take(i as int));
            assert(ms.take(i + 1).last() == type_model(items@[i as int]));
        }
        let is_none = match &items[i] {
            Type::NoneType => true,
            _ => false,
        };
        if strict_optional || !is_none {
            let sub = get_types_from_except_handler(&items[i], strict_optional);
            append_types(&mut out, &sub);
        }
        i = i + 1;
    }
    proof {
        assert(types_model(items@).take(items@.len() as int) =~= types_model(items@));
    }
    out
}

/// A one-element list holding a copy of `t`.
fn one_type(t: &Type) -> (r: Vec<Type>)
    ensures
        types_model(r@) == seq![t@],
{
    let c = clone_type(t);
    let mut out: Vec<Type> = Vec::new();
    out.push(c);
    proof {
        lemma_types_model_push(Seq::<Type>::empty(), c);
        assert(out@ =~= Seq::<Type>::empty().push(c));
    }
    out
}

/// The classification of one `except` handler test type.
#[derive(Debug, Clone, PartialEq)]
pub enum HandlerTest {
    /// `Any`: bound as-is.
    Any(Type),
    /// `Never`: skipped.
    Skip,
    /// Not a valid exception type.
    Invalid,
    /// The exception instance type a type object or `type[E]` stands for.
    Exception(Type),
}

/// The model of a `HandlerTest`.
pub enum HandlerTestModel {
    Any(TypeModel),
    Skip,
    Invalid,
    Exception(TypeModel),
}

/// The model of a `HandlerTest`.
pub open spec fn handler_test_model(h: HandlerTest) -> HandlerTestModel {
    match h {
        HandlerTest::Any(t) => HandlerTestModel::Any(t@),
        HandlerTest::Skip => HandlerTestModel::Skip,
        HandlerTest::Invalid => HandlerTestModel::Invalid,
        HandlerTest::Exception(t) => HandlerTestModel::Exception(t@),
    }
}

/// The first item of a function-like type, when it is a callable.
pub open spec fn first_callable(t: TypeModel) -> Option<TypeModel> {
    match t {
        TypeModel::CallableType { .. } => Some(t),
        TypeModel::Overloaded { items } => if items.len() > 0 && items[0] is CallableType {
            Some(items[0])
        } else {
            None
        },
        _ => None,
    }
}

/// `check_except_handler_test` for one test type: `None` for an alias, an
/// overload without a callable first item, or a type object whose
/// metaclass the resolver cannot tell.
pub open spec fn handler_test_spec(t: TypeModel, r: TypeResolver) -> Option<HandlerTestModel> {
    match t {
        TypeModel::AnyType { .. } => Some(HandlerTestModel::Any(t)),
        TypeModel::UninhabitedType { .. } => Some(HandlerTestModel::Skip),
        TypeModel::TypeAliasType { .. } => None,
        TypeModel::TypeType { item, .. } => Some(HandlerTestModel::Exception(*item)),
        TypeModel::CallableType { .. } | TypeModel::Overloaded { .. } => match first_callable(t) {
            None => None,
            Some(c) => match type_obj_spec(c, r) {
                None => None,
                Some(false) => Some(HandlerTestModel::Invalid),
                Some(true) => match c {
                    TypeModel::CallableType { ret_type, .. } => Some(
                        HandlerTestModel::Exception(rewrite(*ret_type, Rewrite::EraseTypeVars)),
                    ),
                    _ => None,
                },
            },
        },
        _ => Some(HandlerTestModel::Invalid),
    }
}

/// `TypeChecker.check_except_handler_test`, the classification of one
/// handler test type.
pub fn check_except_handler_test(typ: &Type, resolver: &TypeResolver) -> (r: Option<HandlerTest>)
    ensures
        match r {
            None => handler_test_spec(typ@, *resolver).is_none(),
            Some(h) => handler_test_spec(typ@, *resolver) == Some(handler_test_model(h)),
        },
{
    match typ {
        Type::AnyType { .. } => Some(HandlerTest::Any(clone_type(typ))),
        Type::UninhabitedType { .. } => Some(HandlerTest::Skip),
        Type::TypeAliasType { .. } => None,
        Type::TypeType { item, .. } => Some(HandlerTest::Exception(clone_type(item))),
        Type::CallableType { ret_type, .. } => exception_of_callable(typ, ret_type, resolver),
        Type::Overloaded { items } => {
            proof {
                lemma_types_model(items@);
            }
            if items.len() == 0 {
                return None;
            }
            match &items[0] {
                Type::CallableType { ret_type, .. } => exception_of_callable(&items[0], ret_type, resolver),
                _ => None,
            }
        },
        _ => Some(HandlerTest::Invalid),
    }
}

/// The handler classification of a callable item with return type `ret`.
fn exception_of_callable(c: &Type, ret: &Type, resolver: &TypeResolver) -> (r: Option<HandlerTest>)
    requires
        c@ matches TypeModel::CallableType { ret_type, .. } && *ret_type == ret@,
    ensures
        match r {
            None => type_obj_spec(c@, *resolver).is_none(),
            Some(h) => match type_obj_spec(c@, *resolver) {
                None => false,
                Some(false) => h == HandlerTest::Invalid,
                Some(true) => handler_test_model(h) == HandlerTestModel::Exception(rewrite(ret@, Rewrite::EraseTypeVars)),
            },
        },
{
    match is_type_obj(c, resolver) {
        None => None,
        Some(false) => Some(HandlerTest::Invalid),
        Some(true) => Some(HandlerTest::Exception(apply_rewrite(ret, Rewrite::EraseTypeVars))),
    }
}

/// Whether a frame of narrowed values makes the code after it unreachable,
/// scanning from `start`: `Some(true)` at the first `Never`, `None` at an
/// alias met before it.
pub open spec fn unreachable_from(types: Seq<TypeModel>, start: int) -> Option<bool>
    decreases types.len() - start,
{
    if start < 0 || start >= types.len() {
        Some(false)
    } else {
        match types[start] {
            TypeModel::UninhabitedType { .. } => Some(true),
            TypeModel::TypeAliasType { .. } => None,
            _ => unreachable_from(types, start + 1),
        }
    }
}

/// `mypy.checker.is_unreachable_map`: whether any narrowed value is
/// uninhabited.
pub fn is_unreachable_map(types: &[Type]) -> (r: Option<bool>)
    ensures
        r == unreachable_from(types_model(types@), 0),
{
    proof {
        lemma_types_model(types@);
    }
    let mut i: usize = 0;
    while i < types.len()
        invariant
            i <= types@.len(),
            types_model(types@).len() == types@.len(),
            forall|j: int| 0 <= j < types@.len() ==> #[trigger] types_model(types@)[j] == type_model(types@[j]),
            unreachable_from(types_model(types@), 0) == unreachable_from(types_model(types@), i as int),
        decreases types@.len() - i,
    {
        match &types[i] {
            Type::UninhabitedType { .. } => {
                return Some(true);
            },
            Type::TypeAliasType { .. } => {
                return None;
            },
            _ => {},
        }
        i = i + 1;
    }
    Some(false)
}

/// The unused-value note a discarded value earns.
#[derive(Debug, Clone, Copy, PartialEq, Eq)]
pub enum UsageRequirement {
    /// `typing.Coroutine`: unused coroutine.
    UnusedCoroutine,
    /// The class has a member `__await__`: unused awaitable.
    UnusedAwaitable,
    /// No note.
    NoNote,
}

/// `mypy.checker.type_requires_usage` over the resolver: `None` for an
/// alias, or a class whose MRO walk meets a missing snapshot before the
/// answer.
pub open spec fn usage_spec(t: TypeModel, r: TypeResolver) -> Option<UsageRequirement> {
    match t {
        TypeModel::TypeAliasType { .. } => None,
        TypeModel::Instance { type_ref, .. } => if type_ref == "typing.Coroutine"@ {
            Some(UsageRequirement::UnusedCoroutine)
        } else {
            match r.class_of(type_ref) {
                None => None,
                Some(snap) => match mro_lookup(r, snap.mro@, "__await__"@, 0) {
                    None => None,
                    Some(Some(_)) => Some(UsageRequirement::UnusedAwaitable),
                    Some(None) => Some(UsageRequirement::NoNote),
                },
            }
        },
        _ => Some(UsageRequirement::NoNote),
    }
}

/// Which unused-value note, if any, a discarded value of type `typ` earns.
pub fn type_requires_usage(typ: &Type, resolver: &TypeResolver, aliases: &AliasContext) -> (r: Option<UsageRequirement>)
    ensures
        r == usage_spec(typ@, *resolver),
{
    match typ {
        Type::TypeAliasType { .. } => None,
        Type::Instance { type_ref, .. } => {
            if str_eq(type_ref.as_str(), "typing.Coroutine") {
                return Some(UsageRequirement::UnusedCoroutine);
            }
            match resolver.get(type_ref.as_str()) {
                None => None,
                Some(snap) => match find_in_mro(resolver, &snap.mro, "__await__", 0) {
                    None => None,
                    Some(Some(_)) => Some(UsageRequirement::UnusedAwaitable),
                    Some(None) => Some(UsageRequirement::NoNote),
                },
            }
        },
        _ => Some(UsageRequirement::NoNote),
    }
}

} // verus!
