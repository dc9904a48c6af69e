//! Type inference: constraints and the queries the constraint builder and
//! solver make on single types.

use vstd::prelude::*;
use crate::standalone::types::{
    all_verdict, and_then_verdict, any_verdict, atom_exec, atom_of, get_type_vars, is_same_type, is_subtype, make_simplified_union, make_union, make_union_spec, plain_ctx,
    map_instance_to_supertype, map_to_super_spec, no_unpack, no_unpack_exec, plain_tuple_fallback, plain_tuple_fallback_exec, same_type_spec, simplified_union_spec, sub_spec, tvars, Atom, AtomExec,
    SubtypeContext,
};
use crate::standalone::expr::any_from_another;
use crate::text::str_eq;
use crate::typeinfo::TypeResolver;
use crate::wire::{
    clone_type, clone_types, lemma_types_model, lemma_types_model_push, literal_model, opt_type_model, type_model, types_model,
    ExtraAttrsModel, LiteralModel, LiteralValue, Type, TypeModel, SPECIAL_FORM,
};

verus! {

/// The constraint direction `T <: target`.
pub const SUBTYPE_OF: i64 = 0;

/// The constraint direction `T :> target`.
pub const SUPERTYPE_OF: i64 = 1;

/// `TypeOfAny.suggestion_engine`.
pub const SUGGESTION_ENGINE: i64 = 9;

/// The opposite direction.
pub open spec fn neg_op_spec(op: i64) -> i64 {
    if op == SUBTYPE_OF {
        SUPERTYPE_OF
    } else {
        SUBTYPE_OF
    }
}

/// The opposite direction.
pub fn neg_op(op: i64) -> (r: i64)
    ensures
        r == neg_op_spec(op),
{
    if op == SUBTYPE_OF {
        SUPERTYPE_OF
    } else {
        SUBTYPE_OF
    }
}

/// One inferred constraint: `origin_type_var op target`.
#[derive(Debug, Clone, PartialEq)]
pub struct Constraint {
    pub origin_type_var: Type,
    pub op: i64,
    pub target: Type,
    /// Type variables the target introduces, for polymorphic solving.
    pub extra_tvars: Vec<Type>,
}

/// The model of a constraint.
pub struct ConstraintModel {
    pub origin_type_var: TypeModel,
    pub op: i64,
    pub target: TypeModel,
    pub extra_tvars: Seq<TypeModel>,
}

impl View for Constraint {
    type V = ConstraintModel;

    open spec fn view(&self) -> ConstraintModel {
        ConstraintModel {
            origin_type_var: self.origin_type_var@,
            op: self.op,
            target: self.target@,
            extra_tvars: types_model(self.extra_tvars@),
        }
    }
}

/// The constraint a type-variable template emits against `actual`.
pub open spec fn tv_constraint(template: TypeModel, actual: TypeModel, direction: i64) -> ConstraintModel {
    ConstraintModel { origin_type_var: template, op: direction, target: actual, extra_tvars: Seq::empty() }
}

/// The first branch of constraint inference: a type-variable template
/// emits one constraint against the actual. `None` for any other template,
/// and for a union or alias actual (which inference normalizes first) or
/// an `Any` from the suggestion engine (which inference ignores).
pub open spec fn typevar_template_spec(template: TypeModel, actual: TypeModel, direction: i64) -> Option<ConstraintModel> {
    if !(template is TypeVarType) || actual is UnionType || actual is TypeAliasType {
        None
    } else if actual matches TypeModel::AnyType { type_of_any, .. } && type_of_any == SUGGESTION_ENGINE as int {
        None
    } else {
        Some(tv_constraint(template, actual, direction))
    }
}

fn new_constraint(template: &Type, actual: &Type, direction: i64) -> (r: Constraint)
    ensures
        r@ == tv_constraint(template@, actual@, direction),
{
    let extra: Vec<Type> = Vec::new();
    proof {
        assert(types_model(extra@) =~= Seq::<TypeModel>::empty());
    }
    Constraint { origin_type_var: clone_type(template), op: direction, target: clone_type(actual), extra_tvars: extra }
}

fn suggestion_any(t: &Type) -> (r: bool)
    ensures
        r == (t@ matches TypeModel::AnyType { type_of_any, .. } && type_of_any == SUGGESTION_ENGINE as int),
{
    match t {
        Type::AnyType { type_of_any, .. } => *type_of_any == SUGGESTION_ENGINE,
        _ => false,
    }
}

/// The constraint a type-variable template emits; `None` for every other
/// template shape, a union or alias actual, and a suggestion-engine `Any`.
pub fn infer_constraints_typevar_template(template: &Type, actual: &Type, direction: i64) -> (r: Option<Constraint>)
    ensures
        match r {
            Some(c) => typevar_template_spec(template@, actual@, direction) == Some(c@),
            None => typevar_template_spec(template@, actual@, direction).is_none(),
        },
{
    let tv = match template {
        Type::TypeVarType { .. } => true,
        _ => false,
    };
    let opaque = match actual {
        Type::UnionType { .. } => true,
        Type::TypeAliasType { .. } => true,
        _ => false,
    };
    if !tv || opaque || suggestion_any(actual) {
        return None;
    }
    Some(new_constraint(template, actual, direction))
}

/// The actual as inference reads it: a union is simplified first.
pub open spec fn simplified_actual(r: TypeResolver, actual: TypeModel, strict_optional: bool) -> Option<TypeModel> {
    match actual {
        TypeModel::UnionType { items, .. } => simplified_union_spec(r, items, strict_optional),
        _ => Some(actual),
    }
}

/// Two constraint lists joined; `None` when either is.
pub open spec fn cat_cs(a: Option<Seq<ConstraintModel>>, b: Option<Seq<ConstraintModel>>) -> Option<Seq<ConstraintModel>> {
    match (a, b) {
        (Some(x), Some(y)) => Some(x + y),
        _ => None,
    }
}

/// The constraints of the first `k` pairs of type arguments `xs[i]`
/// (template side) and `ys[i]` (actual side), for class type variables
/// `tv` (`(name, variance, kind)`): in `direction` unless the variable is
/// contravariant, then in the opposite direction unless it is covariant.
/// `None` for a pair whose variable is not a plain type variable.
pub open spec fn args_constraints(
    r: TypeResolver,
    xs: Seq<TypeModel>,
    ys: Seq<TypeModel>,
    tv: Seq<(String, i64, i64)>,
    direction: i64,
    strict_optional: bool,
    fuel: nat,
    k: int,
) -> Option<Seq<ConstraintModel>>
    decreases fuel, k,
{
    if k <= 0 {
        Some(Seq::empty())
    } else {
        let prev = args_constraints(r, xs, ys, tv, direction, strict_optional, fuel, k - 1);
        if tv[k - 1].2 != 0 {
            None
        } else {
            let fw = if tv[k - 1].1 != 2 {
                infer_fuel(r, xs[k - 1], ys[k - 1], direction, strict_optional, fuel)
            } else {
                Some(Seq::empty())
            };
            let bw = if tv[k - 1].1 != 1 {
                infer_fuel(r, xs[k - 1], ys[k - 1], neg_op_spec(direction), strict_optional, fuel)
            } else {
                Some(Seq::empty())
            };
            cat_cs(cat_cs(prev, fw), bw)
        }
    }
}

/// The constraints of an instance template `tc[targs]` against an
/// instance actual `ac[aa]`: for `SUBTYPE_OF` when `ac` is in the MRO of
/// `tc`, the template mapped to `ac` against the actual's arguments; for
/// `SUPERTYPE_OF` when `tc` is in the MRO of `ac`, the template's
/// arguments against the actual mapped to `tc`; pair by pair by
/// `args_constraints`; none between classes unrelated in that direction
/// when neither is a protocol. `None` where a protocol could match
/// structurally (not decided here), where a snapshot is missing, and where
/// the arguments cannot be mapped or do not line up.
pub open spec fn inst_constraints(
    r: TypeResolver,
    tc: Seq<char>,
    targs: Seq<TypeModel>,
    ac: Seq<char>,
    aa: Seq<TypeModel>,
    direction: i64,
    strict_optional: bool,
    fuel: nat,
) -> Option<Seq<ConstraintModel>>
    decreases fuel, targs.len() + aa.len() + 1,
{
    match (r.class_of(tc), r.class_of(ac)) {
        (Some(ts), Some(acs)) => if direction == SUBTYPE_OF && ts.has_base.has(ac) {
            match map_to_super_spec(r, tc, targs, ac) {
                Some(m) => if m.len() == aa.len() && acs.type_vars_with_variance@.len() == aa.len() {
                    args_constraints(r, m, aa, acs.type_vars_with_variance@, direction, strict_optional, fuel, aa.len() as int)
                } else {
                    None
                },
                None => None,
            }
        } else if direction == SUPERTYPE_OF && acs.has_base.has(tc) {
            match map_to_super_spec(r, ac, aa, tc) {
                Some(m) => if m.len() == targs.len() && ts.type_vars_with_variance@.len() == targs.len() {
                    args_constraints(r, targs, m, ts.type_vars_with_variance@, direction, strict_optional, fuel, targs.len() as int)
                } else {
                    None
                },
                None => None,
            }
        } else if !ts.is_protocol && !acs.is_protocol {
            Some(Seq::empty())
        } else {
            None
        },
        _ => None,
    }
}

/// The constraints of the first `k` template arguments `ts` against an
/// `Any` actual, each in `direction`.
pub open spec fn against_any(
    r: TypeResolver,
    ts: Seq<TypeModel>,
    any: TypeModel,
    direction: i64,
    strict_optional: bool,
    fuel: nat,
    k: int,
) -> Option<Seq<ConstraintModel>>
    decreases fuel, k,
{
    if k <= 0 {
        Some(Seq::empty())
    } else {
        cat_cs(
            against_any(r, ts, any, direction, strict_optional, fuel, k - 1),
            infer_fuel(r, ts[k - 1], any, direction, strict_optional, fuel),
        )
    }
}

/// The constraints of a template against the first `k` items of a union
/// actual, one after another.
pub open spec fn union_items_constraints(
    r: TypeResolver,
    template: TypeModel,
    items: Seq<TypeModel>,
    direction: i64,
    strict_optional: bool,
    fuel: nat,
    k: int,
) -> Option<Seq<ConstraintModel>>
    decreases fuel, k,
{
    if k <= 0 {
        Some(Seq::empty())
    } else {
        cat_cs(
            union_items_constraints(r, template, items, direction, strict_optional, fuel, k - 1),
            infer_fuel(r, template, items[k - 1], direction, strict_optional, fuel),
        )
    }
}

/// The constraints of the first `k` items of a union template against
/// `actual`, one after another.
pub open spec fn template_items_constraints(
    r: TypeResolver,
    ts: Seq<TypeModel>,
    actual: TypeModel,
    direction: i64,
    strict_optional: bool,
    fuel: nat,
    k: int,
) -> Option<Seq<ConstraintModel>>
    decreases fuel, k,
{
    if k <= 0 {
        Some(Seq::empty())
    } else {
        cat_cs(
            template_items_constraints(r, ts, actual, direction, strict_optional, fuel, k - 1),
            infer_fuel(r, ts[k - 1], actual, direction, strict_optional, fuel),
        )
    }
}

/// The constraints of the first `k` item pairs of a tuple template and a
/// tuple actual, one after another.
pub open spec fn tuple_items_constraints(
    r: TypeResolver,
    ts: Seq<TypeModel>,
    xs: Seq<TypeModel>,
    direction: i64,
    strict_optional: bool,
    fuel: nat,
    k: int,
) -> Option<Seq<ConstraintModel>>
    decreases fuel, k,
{
    if k <= 0 {
        Some(Seq::empty())
    } else {
        cat_cs(
            tuple_items_constraints(r, ts, xs, direction, strict_optional, fuel, k - 1),
            infer_fuel(r, ts[k - 1], xs[k - 1], direction, strict_optional, fuel),
        )
    }
}

/// The number of items of a tuple; 0 for any other type.
pub open spec fn tuple_arity(t: TypeModel) -> int {
    match t {
        TypeModel::TupleType { items, .. } => items.len() as int,
        _ => 0,
    }
}

/// The constraints of a tuple template without unpacked items: against a
/// plain tuple of as many items (no unpacked item), each item's
/// constraints, then the fallbacks'; against a tuple of another length,
/// an instance or a literal, none; against `Any`, each item's constraints
/// against it. `None` for named tuples, unpacked items, and other actuals.
pub open spec fn tuple_template_constraints(
    r: TypeResolver,
    template: TypeModel,
    actual: TypeModel,
    direction: i64,
    strict_optional: bool,
    fuel: nat,
) -> Option<Seq<ConstraintModel>>
    decreases fuel, tuple_arity(template) + 1,
{
    match template {
        TypeModel::TupleType { partial_fallback: tf, items: ti, .. } => if !no_unpack(ti) || !plain_tuple_fallback(*tf) {
            None
        } else {
            match actual {
                TypeModel::TupleType { partial_fallback: af, items: ai, .. } => if !no_unpack(ai) || !plain_tuple_fallback(*af) {
                    None
                } else if ai.len() != ti.len() {
                    Some(Seq::empty())
                } else {
                    cat_cs(
                        tuple_items_constraints(r, ti, ai, direction, strict_optional, fuel, ti.len() as int),
                        infer_fuel(r, *tf, *af, direction, strict_optional, fuel),
                    )
                },
                TypeModel::AnyType { .. } => against_any(r, ti, actual, direction, strict_optional, fuel, ti.len() as int),
                TypeModel::Instance { .. } => Some(Seq::empty()),
                TypeModel::LiteralType { .. } => Some(Seq::empty()),
                _ => None,
            }
        },
        _ => None,
    }
}

/// Constraint inference, looking at most `fuel` levels deep: a
/// type-variable template gives the one constraint against the actual, a
/// union actual simplified first (none against a suggestion-engine
/// `Any`); an instance template without type variables gives none; an
/// instance template with type variables against an instance actual (or a
/// literal, by its fallback) goes by `inst_constraints`, against `Any`
/// gives each template argument's constraints against that `Any`, and
/// against a union simplifies it first, then (for `SUPERTYPE_OF`) joins
/// the constraints against each remaining item; a union template (for
/// `SUBTYPE_OF`) is simplified, then joins its items' constraints; a
/// tuple template goes by `tuple_template_constraints`; an `Any`, `None`
/// or `Never` template gives none.
/// `None` for every other template (callables, typed dicts and the rest,
/// and a union template for `SUPERTYPE_OF`), for an alias
/// actual where the actual is read, for a union actual against an atom
/// template, for a generic instance template against anything but an
/// instance, a literal, `Any` or a union (or with an unpacked argument
/// against `Any`, or against a union for `SUBTYPE_OF`), where
/// simplification is not decided, and when the fuel runs out.
pub open spec fn infer_fuel(
    r: TypeResolver,
    template: TypeModel,
    actual: TypeModel,
    direction: i64,
    strict_optional: bool,
    fuel: nat,
) -> Option<Seq<ConstraintModel>>
    decreases fuel, 0int,
{
    if fuel == 0 {
        None
    } else {
        match atom_of(template) {
            Some(Atom::Class(_)) => Some(Seq::empty()),
            Some(_) => if actual is UnionType || actual is TypeAliasType {
                None
            } else {
                Some(Seq::empty())
            },
            None => match template {
                TypeModel::TypeVarType { .. } => if actual is TypeAliasType {
                    None
                } else {
                    match simplified_actual(r, actual, strict_optional) {
                        None => None,
                        Some(a) => if a matches TypeModel::AnyType { type_of_any, .. } && type_of_any
                            == SUGGESTION_ENGINE as int {
                            Some(Seq::empty())
                        } else {
                            Some(seq![tv_constraint(template, a, direction)])
                        },
                    }
                },
                TypeModel::Instance { type_ref: tc, args: targs, .. } => if tvars(template) == Some(
                    Seq::<TypeModel>::empty(),
                ) {
                    Some(Seq::empty())
                } else {
                    match actual {
                        TypeModel::Instance { type_ref: ac, args: aa, .. } => inst_constraints(
                            r,
                            tc,
                            targs,
                            ac,
                            aa,
                            direction,
                            strict_optional,
                            (fuel - 1) as nat,
                        ),
                        TypeModel::LiteralType { fallback, .. } => match *fallback {
                            TypeModel::Instance { type_ref: ac, args: aa, .. } => inst_constraints(
                                r,
                                tc,
                                targs,
                                ac,
                                aa,
                                direction,
                                strict_optional,
                                (fuel - 1) as nat,
                            ),
                            _ => None,
                        },
                        TypeModel::AnyType { .. } => if no_unpack(targs) {
                            against_any(r, targs, actual, direction, strict_optional, (fuel - 1) as nat, targs.len() as int)
                        } else {
                            None
                        },
                        TypeModel::UnionType { .. } => match simplified_actual(r, actual, strict_optional) {
                            None => None,
                            Some(a) => match a {
                                TypeModel::UnionType { items, .. } => if direction == SUPERTYPE_OF {
                                    union_items_constraints(
                                        r,
                                        template,
                                        items,
                                        direction,
                                        strict_optional,
                                        (fuel - 1) as nat,
                                        items.len() as int,
                                    )
                                } else {
                                    None
                                },
                                _ => infer_fuel(r, template, a, direction, strict_optional, (fuel - 1) as nat),
                            },
                        },
                        _ => None,
                    }
                },
                TypeModel::TupleType { .. } => tuple_template_constraints(r, template, actual, direction, strict_optional, (fuel - 1) as nat),
                TypeModel::UnionType { items, .. } => if direction == SUBTYPE_OF {
                    match simplified_union_spec(r, items, strict_optional) {
                        None => None,
                        Some(t2) => match t2 {
                            TypeModel::UnionType { items: ti, .. } => template_items_constraints(
                                r,
                                ti,
                                actual,
                                direction,
                                strict_optional,
                                (fuel - 1) as nat,
                                ti.len() as int,
                            ),
                            _ => infer_fuel(r, t2, actual, direction, strict_optional, (fuel - 1) as nat),
                        },
                    }
                } else {
                    None
                },
                _ => None,
            },
        }
    }
}

/// How deep constraint inference looks.
pub open spec fn infer_depth() -> nat {
    64
}

/// Constraint inference; see [`infer_fuel`] for the shapes it decides.
pub open spec fn infer_full_spec(
    r: TypeResolver,
    template: TypeModel,
    actual: TypeModel,
    direction: i64,
    strict_optional: bool,
) -> Option<Seq<ConstraintModel>> {
    infer_fuel(r, template, actual, direction, strict_optional, infer_depth())
}

/// The models of a list of constraints.
pub open spec fn constraints_model(v: Seq<Constraint>) -> Seq<ConstraintModel> {
    v.map_values(|c: Constraint| c@)
}

fn args_constraints_exec(
    r: &TypeResolver,
    xs: &Vec<Type>,
    ys: &Vec<Type>,
    tv: &Vec<(String, i64, i64)>,
    direction: i64,
    strict_optional: bool,
    fuel: u64,
) -> (res: Option<Vec<Constraint>>)
    requires
        xs@.len() == ys@.len(),
        tv@.len() == ys@.len(),
    ensures
        match res {
            Some(v) => args_constraints(*r, types_model(xs@), types_model(ys@), tv@, direction, strict_optional, fuel as nat, ys@.len() as int)
                == Some(constraints_model(v@)),
            None => args_constraints(*r, types_model(xs@), types_model(ys@), tv@, direction, strict_optional, fuel as nat, ys@.len() as int).is_none(),
        },
    decreases fuel, ys@.len(),
{
    proof {
        lemma_types_model(xs@);
        lemma_types_model(ys@);
    }
    let ghost xm = types_model(xs@);
    let ghost ym = types_model(ys@);
    let mut acc: Option<Vec<Constraint>> = Some(Vec::new());
    proof {
        assert(constraints_model(Seq::<Constraint>::empty()) =~= Seq::<ConstraintModel>::empty());
    }
    let mut i: usize = 0;
    while i < ys.len()
        invariant
            i <= ys@.len(),
            xs@.len() == ys@.len(),
            tv@.len() == ys@.len(),
            xm == types_model(xs@),
            ym == types_model(ys@),
            forall|j: int| 0 <= j < xs@.len() ==> #[trigger] xm[j] == xs@[j]@,
            forall|j: int| 0 <= j < ys@.len() ==> #[trigger] ym[j] == ys@[j]@,
            match acc {
                Some(v) => args_constraints(*r, xm, ym, tv@, direction, strict_optional, fuel as nat, i as int) == Some(constraints_model(v@)),
                None => args_constraints(*r, xm, ym, tv@, direction, strict_optional, fuel as nat, i as int).is_none(),
            },
        decreases ys@.len() - i,
    {
        let variance = tv[i].1;
        let kind = tv[i].2;
        let next = match acc {
            None => None,
            Some(mut cs) => if kind != 0 {
                None
            } else {
                let fw = if variance != 2 {
                    infer_fuel_exec(&xs[i], &ys[i], direction, r, strict_optional, fuel)
                } else {
                    let e: Vec<Constraint> = Vec::new();
                    proof {
                        assert(constraints_model(e@) =~= Seq::<ConstraintModel>::empty());
                    }
                    Some(e)
                };
                match fw {
                    None => None,
                    Some(f) => {
                        append_constraints(&mut cs, &f);
                        let bw = if variance != 1 {
                            infer_fuel_exec(&xs[i], &ys[i], neg_op(direction), r, strict_optional, fuel)
                        } else {
                            let e: Vec<Constraint> = Vec::new();
                            proof {
                                assert(constraints_model(e@) =~= Seq::<ConstraintModel>::empty());
                            }
                            Some(e)
                        };
                        match bw {
                            None => None,
                            Some(b) => {
                                append_constraints(&mut cs, &b);
                                Some(cs)
                            },
                        }
                    },
                }
            },
        };
        acc = next;
        i = i + 1;
    }
    acc
}

fn inst_constraints_exec(
    r: &TypeResolver,
    tc: &str,
    targs: &Vec<Type>,
    ac: &str,
    aa: &Vec<Type>,
    direction: i64,
    strict_optional: bool,
    fuel: u64,
) -> (res: Option<Vec<Constraint>>)
    ensures
        match res {
            Some(v) => inst_constraints(*r, tc@, types_model(targs@), ac@, types_model(aa@), direction, strict_optional, fuel as nat)
                == Some(constraints_model(v@)),
            None => inst_constraints(*r, tc@, types_model(targs@), ac@, types_model(aa@), direction, strict_optional, fuel as nat).is_none(),
        },
    decreases fuel, targs@.len() + aa@.len() + 1,
{
    proof {
        lemma_types_model(targs@);
        lemma_types_model(aa@);
    }
    let ts = match r.get(tc) {
        None => {
            return None;
        },
        Some(s) => s,
    };
    let acs = match r.get(ac) {
        None => {
            return None;
        },
        Some(s) => s,
    };
    if direction == SUBTYPE_OF && ts.has_base.contains(ac) {
        let tas = targs.as_slice();
        proof {
            assert(tas@ == targs@);
        }
        match map_instance_to_supertype(tc, tas, ac, r) {
            None => None,
            Some(m) => {
                proof {
                    lemma_types_model(m@);
                }
                if m.len() == aa.len() && acs.type_vars_with_variance.len() == aa.len() {
                    args_constraints_exec(r, &m, aa, &acs.type_vars_with_variance, direction, strict_optional, fuel)
                } else {
                    None
                }
            },
        }
    } else if direction == SUPERTYPE_OF && acs.has_base.contains(tc) {
        let aas = aa.as_slice();
        proof {
            assert(aas@ == aa@);
        }
        match map_instance_to_supertype(ac, aas, tc, r) {
            None => None,
            Some(m) => {
                proof {
                    lemma_types_model(m@);
                }
                if m.len() == targs.len() && ts.type_vars_with_variance.len() == targs.len() {
                    args_constraints_exec(r, targs, &m, &ts.type_vars_with_variance, direction, strict_optional, fuel)
                } else {
                    None
                }
            },
        }
    } else if !ts.is_protocol && !acs.is_protocol {
        let v: Vec<Constraint> = Vec::new();
        proof {
            assert(constraints_model(v@) =~= Seq::<ConstraintModel>::empty());
        }
        Some(v)
    } else {
        None
    }
}

fn against_any_exec(
    ts: &Vec<Type>,
    any: &Type,
    direction: i64,
    r: &TypeResolver,
    strict_optional: bool,
    fuel: u64,
) -> (res: Option<Vec<Constraint>>)
    ensures
        match res {
            Some(v) => against_any(*r, types_model(ts@), any@, direction, strict_optional, fuel as nat, ts@.len() as int)
                == Some(constraints_model(v@)),
            None => against_any(*r, types_model(ts@), any@, direction, strict_optional, fuel as nat, ts@.len() as int).is_none(),
        },
    decreases fuel, ts@.len(),
{
    proof {
        lemma_types_model(ts@);
    }
    let ghost tm = types_model(ts@);
    let mut acc: Option<Vec<Constraint>> = Some(Vec::new());
    proof {
        assert(constraints_model(Seq::<Constraint>::empty()) =~= Seq::<ConstraintModel>::empty());
    }
    let mut i: usize = 0;
    while i < ts.len()
        invariant
            i <= ts@.len(),
            tm == types_model(ts@),
            forall|j: int| 0 <= j < ts@.len() ==> #[trigger] tm[j] == ts@[j]@,
            match acc {
                Some(v) => against_any(*r, tm, any@, direction, strict_optional, fuel as nat, i as int) == Some(constraints_model(v@)),
                None => against_any(*r, tm, any@, direction, strict_optional, fuel as nat, i as int).is_none(),
            },
        decreases ts@.len() - i,
    {
        let next = match acc {
            None => None,
            Some(mut cs) => match infer_fuel_exec(&ts[i], any, direction, r, strict_optional, fuel) {
                None => None,
                Some(c) => {
                    append_constraints(&mut cs, &c);
                    Some(cs)
                },
            },
        };
        acc = next;
        i = i + 1;
    }
    acc
}

fn union_items_constraints_exec(
    template: &Type,
    items: &Vec<Type>,
    direction: i64,
    r: &TypeResolver,
    strict_optional: bool,
    fuel: u64,
) -> (res: Option<Vec<Constraint>>)
    ensures
        match res {
            Some(v) => union_items_constraints(*r, template@, types_model(items@), direction, strict_optional, fuel as nat, items@.len() as int)
                == Some(constraints_model(v@)),
            None => union_items_constraints(*r, template@, types_model(items@), direction, strict_optional, fuel as nat, items@.len() as int).is_none(),
        },
    decreases fuel, items@.len(),
{
    proof {
        lemma_types_model(items@);
    }
    let ghost im = types_model(items@);
    let mut acc: Option<Vec<Constraint>> = Some(Vec::new());
    proof {
        assert(constraints_model(Seq::<Constraint>::empty()) =~= Seq::<ConstraintModel>::empty());
    }
    let mut i: usize = 0;
    while i < items.len()
        invariant
            i <= items@.len(),
            im == types_model(items@),
            forall|j: int| 0 <= j < items@.len() ==> #[trigger] im[j] == items@[j]@,
            match acc {
                Some(v) => union_items_constraints(*r, template@, im, direction, strict_optional, fuel as nat, i as int) == Some(constraints_model(v@)),
                None => union_items_constraints(*r, template@, im, direction, strict_optional, fuel as nat, i as int).is_none(),
            },
        decreases items@.len() - i,
    {
        let next = match acc {
            None => None,
            Some(mut cs) => match infer_fuel_exec(template, &items[i], direction, r, strict_optional, fuel) {
                None => None,
                Some(c) => {
                    append_constraints(&mut cs, &c);
                    Some(cs)
                },
            },
        };
        acc = next;
        i = i + 1;
    }
    acc
}

fn template_items_exec(
    ts: &Vec<Type>,
    actual: &Type,
    direction: i64,
    r: &TypeResolver,
    strict_optional: bool,
    fuel: u64,
) -> (res: Option<Vec<Constraint>>)
    ensures
        match res {
            Some(v) => template_items_constraints(*r, types_model(ts@), actual@, direction, strict_optional, fuel as nat, ts@.len() as int)
                == Some(constraints_model(v@)),
            None => template_items_constraints(*r, types_model(ts@), actual@, direction, strict_optional, fuel as nat, ts@.len() as int).is_none(),
        },
    decreases fuel, ts@.len(),
{
    proof {
        lemma_types_model(ts@);
    }
    let ghost tm = types_model(ts@);
    let mut acc: Option<Vec<Constraint>> = Some(Vec::new());
    proof {
        assert(constraints_model(Seq::<Constraint>::empty()) =~= Seq::<ConstraintModel>::empty());
    }
    let mut i: usize = 0;
    while i < ts.len()
        invariant
            i <= ts@.len(),
            tm == types_model(ts@),
            forall|j: int| 0 <= j < ts@.len() ==> #[trigger] tm[j] == ts@[j]@,
            match acc {
                Some(v) => template_items_constraints(*r, tm, actual@, direction, strict_optional, fuel as nat, i as int) == Some(constraints_model(v@)),
                None => template_items_constraints(*r, tm, actual@, direction, strict_optional, fuel as nat, i as int).is_none(),
            },
        decreases ts@.len() - i,
    {
        let next = match acc {
            None => None,
            Some(mut cs) => match infer_fuel_exec(&ts[i], actual, direction, r, strict_optional, fuel) {
                None => None,
                Some(c) => {
                    append_constraints(&mut cs, &c);
                    Some(cs)
                },
            },
        };
        acc = next;
        i = i + 1;
    }
    acc
}

fn tuple_items_exec(
    ts: &Vec<Type>,
    xs: &Vec<Type>,
    direction: i64,
    r: &TypeResolver,
    strict_optional: bool,
    fuel: u64,
) -> (res: Option<Vec<Constraint>>)
    requires
        ts@.len() == xs@.len(),
    ensures
        match res {
            Some(v) => tuple_items_constraints(*r, types_model(ts@), types_model(xs@), direction, strict_optional, fuel as nat, ts@.len() as int)
                == Some(constraints_model(v@)),
            None => tuple_items_constraints(*r, types_model(ts@), types_model(xs@), direction, strict_optional, fuel as nat, ts@.len() as int).is_none(),
        },
    decreases fuel, ts@.len(),
{
    proof {
        lemma_types_model(ts@);
        lemma_types_model(xs@);
    }
    let ghost tm = types_model(ts@);
    let ghost xm = types_model(xs@);
    let mut acc: Option<Vec<Constraint>> = Some(Vec::new());
    proof {
        assert(constraints_model(Seq::<Constraint>::empty()) =~= Seq::<ConstraintModel>::empty());
    }
    let mut i: usize = 0;
    while i < ts.len()
        invariant
            i <= ts@.len(),
            ts@.len() == xs@.len(),
            tm == types_model(ts@),
            xm == types_model(xs@),
            forall|j: int| 0 <= j < ts@.len() ==> #[trigger] tm[j] == ts@[j]@,
            forall|j: int| 0 <= j < xs@.len() ==> #[trigger] xm[j] == xs@[j]@,
            match acc {
                Some(v) => tuple_items_constraints(*r, tm, xm, direction, strict_optional, fuel as nat, i as int) == Some(constraints_model(v@)),
                None => tuple_items_constraints(*r, tm, xm, direction, strict_optional, fuel as nat, i as int).is_none(),
            },
        decreases ts@.len() - i,
    {
        let next = match acc {
            None => None,
            Some(mut cs) => match infer_fuel_exec(&ts[i], &xs[i], direction, r, strict_optional, fuel) {
                None => None,
                Some(c) => {
                    append_constraints(&mut cs, &c);
                    Some(cs)
                },
            },
        };
        acc = next;
        i = i + 1;
    }
    acc
}

fn tuple_template_exec(
    template: &Type,
    actual: &Type,
    direction: i64,
    r: &TypeResolver,
    strict_optional: bool,
    fuel: u64,
) -> (res: Option<Vec<Constraint>>)
    ensures
        match res {
            Some(v) => tuple_template_constraints(*r, template@, actual@, direction, strict_optional, fuel as nat) == Some(constraints_model(v@)),
            None => tuple_template_constraints(*r, template@, actual@, direction, strict_optional, fuel as nat).is_none(),
        },
    decreases fuel, tuple_arity(template@) + 1,
{
    match template {
        Type::TupleType { partial_fallback: tf, items: ti, .. } => {
            proof {
                lemma_types_model(ti@);
                assert(template@ matches TypeModel::TupleType { partial_fallback: f, items: i, .. } && *f == tf@ && i
                    == types_model(ti@));
            }
            proof {
                assert(tuple_arity(template@) == ti@.len());
            }
            if !no_unpack_exec(ti) || !plain_tuple_fallback_exec(tf) {
                return None;
            }
            match actual {
                Type::TupleType { partial_fallback: af, items: ai, .. } => {
                    proof {
                        lemma_types_model(ai@);
                        assert(actual@ matches TypeModel::TupleType { partial_fallback: f, items: i, .. } && *f == af@ && i
                            == types_model(ai@));
                    }
                    if !no_unpack_exec(ai) || !plain_tuple_fallback_exec(af) {
                        return None;
                    }
                    if ai.len() != ti.len() {
                        let v: Vec<Constraint> = Vec::new();
                        proof {
                            assert(constraints_model(v@) =~= Seq::<ConstraintModel>::empty());
                        }
                        return Some(v);
                    }
                    match tuple_items_exec(ti, ai, direction, r, strict_optional, fuel) {
                        None => None,
                        Some(mut cs) => match infer_fuel_exec(tf, af, direction, r, strict_optional, fuel) {
                            None => None,
                            Some(c) => {
                                append_constraints(&mut cs, &c);
                                Some(cs)
                            },
                        },
                    }
                },
                Type::AnyType { .. } => against_any_exec(ti, actual, direction, r, strict_optional, fuel),
                Type::Instance { .. } | Type::LiteralType { .. } => {
                    let v: Vec<Constraint> = Vec::new();
                    proof {
                        assert(constraints_model(v@) =~= Seq::<ConstraintModel>::empty());
                    }
                    Some(v)
                },
                _ => None,
            }
        },
        _ => None,
    }
}

fn infer_fuel_exec(
    template: &Type,
    actual: &Type,
    direction: i64,
    resolver: &TypeResolver,
    strict_optional: bool,
    fuel: u64,
) -> (r: Option<Vec<Constraint>>)
    ensures
        match r {
            Some(v) => infer_fuel(*resolver, template@, actual@, direction, strict_optional, fuel as nat) == Some(constraints_model(v@)),
            None => infer_fuel(*resolver, template@, actual@, direction, strict_optional, fuel as nat).is_none(),
        },
    decreases fuel, 0int,
{
    if fuel == 0 {
        return None;
    }
    let opaque = match actual {
        Type::UnionType { .. } => true,
        Type::TypeAliasType { .. } => true,
        _ => false,
    };
    match atom_exec(template) {
        Some(a) => {
            let class = match a {
                AtomExec::Class(_) => true,
                _ => false,
            };
            if !class && opaque {
                return None;
            }
            let v: Vec<Constraint> = Vec::new();
            proof {
                assert(constraints_model(v@) =~= Seq::<ConstraintModel>::empty());
            }
            return Some(v);
        },
        None => {},
    }
    match template {
        Type::Instance { type_ref: tc, args: targs, .. } => {
            proof {
                lemma_types_model(targs@);
                assert(template@ matches TypeModel::Instance { type_ref: t, args: a, .. } && t == tc@ && a == types_model(targs@));
            }
            match get_type_vars(template, false) {
                Some(tvs) => {
                    proof {
                        lemma_types_model(tvs@);
                    }
                    if tvs.len() == 0 {
                        let v: Vec<Constraint> = Vec::new();
                        proof {
                            assert(types_model(tvs@) =~= Seq::<TypeModel>::empty());
                            assert(constraints_model(v@) =~= Seq::<ConstraintModel>::empty());
                        }
                        return Some(v);
                    }
                },
                None => {},
            }
            return match actual {
                Type::Instance { type_ref: ac, args: aa, .. } => {
                    proof {
                        lemma_types_model(aa@);
                        assert(actual@ matches TypeModel::Instance { type_ref: t, args: a, .. } && t == ac@ && a == types_model(aa@));
                    }
                    inst_constraints_exec(resolver, tc.as_str(), targs, ac.as_str(), aa, direction, strict_optional, fuel - 1)
                },
                Type::LiteralType { fallback, .. } => {
                    proof {
                        assert(actual@ matches TypeModel::LiteralType { fallback: fb, .. } && *fb == fallback@);
                    }
                    match &**fallback {
                        Type::Instance { type_ref: ac, args: aa, .. } => {
                            proof {
                                lemma_types_model(aa@);
                                assert(fallback@ matches TypeModel::Instance { type_ref: t, args: a, .. } && t == ac@ && a == types_model(aa@));
                            }
                            inst_constraints_exec(resolver, tc.as_str(), targs, ac.as_str(), aa, direction, strict_optional, fuel - 1)
                        },
                        _ => None,
                    }
                },
                Type::AnyType { .. } => {
                    if no_unpack_exec(targs) {
                        against_any_exec(targs, actual, direction, resolver, strict_optional, fuel - 1)
                    } else {
                        None
                    }
                },
                Type::UnionType { items, .. } => {
                    proof {
                        assert(actual@ matches TypeModel::UnionType { items: it, .. } && it == types_model(items@));
                    }
                    let ctx = SubtypeContext { strict_optional, ignore_promotions: false, ignore_type_params: false };
                    let its = items.as_slice();
                    proof {
                        assert(its@ == items@);
                        assert(simplified_actual(*resolver, actual@, strict_optional) == simplified_union_spec(
                            *resolver,
                            types_model(items@),
                            strict_optional,
                        ));
                    }
                    match make_simplified_union(its, &ctx, resolver) {
                        None => None,
                        Some(a) => match &a {
                            Type::UnionType { items: ai, .. } => {
                                proof {
                                    lemma_types_model(ai@);
                                    assert(a@ matches TypeModel::UnionType { items: it, .. } && it == types_model(ai@));
                                }
                                if direction == SUPERTYPE_OF {
                                    let out = union_items_constraints_exec(template, ai, direction, resolver, strict_optional, fuel - 1);
                                    proof {
                                        assert(infer_fuel(*resolver, template@, actual@, direction, strict_optional, fuel as nat)
                                            == union_items_constraints(*resolver, template@, types_model(ai@), direction, strict_optional, (fuel - 1) as nat, types_model(ai@).len() as int));
                                    }
                                    out
                                } else {
                                    None
                                }
                            },
                            _ => {
                                let out = infer_fuel_exec(template, &a, direction, resolver, strict_optional, fuel - 1);
                                proof {
                                    assert(infer_fuel(*resolver, template@, actual@, direction, strict_optional, fuel as nat)
                                        == infer_fuel(*resolver, template@, a@, direction, strict_optional, (fuel - 1) as nat));
                                }
                                out
                            },
                        },
                    }
                },
                _ => None,
            };
        },
        _ => {},
    }
    match template {
        Type::TupleType { .. } => {
            return tuple_template_exec(template, actual, direction, resolver, strict_optional, fuel - 1);
        },
        Type::UnionType { items, .. } => {
            if direction != SUBTYPE_OF {
                return None;
            }
            proof {
                assert(template@ matches TypeModel::UnionType { items: it, .. } && it == types_model(items@));
            }
            let ctx = SubtypeContext { strict_optional, ignore_promotions: false, ignore_type_params: false };
            let its = items.as_slice();
            proof {
                assert(its@ == items@);
            }
            return match make_simplified_union(its, &ctx, resolver) {
                None => None,
                Some(t2) => match &t2 {
                    Type::UnionType { items: ti, .. } => {
                        proof {
                            lemma_types_model(ti@);
                            assert(t2@ matches TypeModel::UnionType { items: it, .. } && it == types_model(ti@));
                        }
                        template_items_exec(ti, actual, direction, resolver, strict_optional, fuel - 1)
                    },
                    _ => infer_fuel_exec(&t2, actual, direction, resolver, strict_optional, fuel - 1),
                },
            };
        },
        _ => {},
    }
    let tv = match template {
        Type::TypeVarType { .. } => true,
        _ => false,
    };
    let alias = match actual {
        Type::TypeAliasType { .. } => true,
        _ => false,
    };
    if !tv || alias {
        return None;
    }
    let simplified = match actual {
        Type::UnionType { items, .. } => {
            proof {
                assert(actual@ matches TypeModel::UnionType { items: it, .. } && it == types_model(items@));
            }
            let ctx = SubtypeContext { strict_optional, ignore_promotions: false, ignore_type_params: false };
            match make_simplified_union(items.as_slice(), &ctx, resolver) {
                None => {
                    return None;
                },
                Some(x) => x,
            }
        },
        _ => clone_type(actual),
    };
    if suggestion_any(&simplified) {
        let v: Vec<Constraint> = Vec::new();
        proof {
            assert(constraints_model(v@) =~= Seq::<ConstraintModel>::empty());
        }
        return Some(v);
    }
    let v = vec![new_constraint(template, &simplified, direction)];
    proof {
        assert(constraints_model(v@) =~= seq![v@[0]@]);
    }
    Some(v)
}

/// Constraint inference with both wrapper flags; see [`infer_fuel`] for
/// the shapes it decides. `skip_neg_op` only drops the opposite-direction
/// constraints of callable parameters and `erase_types` only erases the
/// template's type variables for a structural protocol match; neither
/// shape is decided here, so neither flag changes a decided result.
pub fn infer_constraints_full(
    template: &Type,
    actual: &Type,
    direction: i64,
    resolver: &TypeResolver,
    strict_optional: bool,
    skip_neg_op: bool,
    erase_types: bool,
) -> (r: Option<Vec<Constraint>>)
    ensures
        match r {
            Some(v) => infer_full_spec(*resolver, template@, actual@, direction, strict_optional) == Some(constraints_model(v@)),
            None => infer_full_spec(*resolver, template@, actual@, direction, strict_optional).is_none(),
        },
{
    infer_fuel_exec(template, actual, direction, resolver, strict_optional, 64)
}

/// Constraint inference with the wrapper's defaults (`skip_neg_op` off,
/// `erase_types` on).
pub fn infer_constraints(
    template: &Type,
    actual: &Type,
    direction: i64,
    resolver: &TypeResolver,
    strict_optional: bool,
) -> (r: Option<Vec<Constraint>>)
    ensures
        match r {
            Some(v) => infer_full_spec(*resolver, template@, actual@, direction, strict_optional) == Some(constraints_model(v@)),
            None => infer_full_spec(*resolver, template@, actual@, direction, strict_optional).is_none(),
        },
{
    infer_constraints_full(template, actual, direction, resolver, strict_optional, false, true)
}

/// Constraints between two arguments under the direction of their
/// callables: none when either side is unpacked; otherwise the direction
/// is inverted for argument contravariance, and for `SUPERTYPE_OF` the
/// two sides swap.
pub open spec fn directed_arg_spec(
    r: TypeResolver,
    left: TypeModel,
    right: TypeModel,
    direction: i64,
    strict_optional: bool,
) -> Option<Seq<ConstraintModel>> {
    if left is UnpackType || right is UnpackType {
        Some(Seq::empty())
    } else if direction == SUBTYPE_OF {
        infer_full_spec(r, left, right, neg_op_spec(direction), strict_optional)
    } else {
        infer_full_spec(r, right, left, neg_op_spec(direction), strict_optional)
    }
}

/// Constraints between two arguments, with the direction inverted for
/// argument contravariance.
pub fn infer_directed_arg_constraints(
    left: &Type,
    right: &Type,
    direction: i64,
    resolver: &TypeResolver,
    strict_optional: bool,
) -> (r: Option<Vec<Constraint>>)
    ensures
        match r {
            Some(v) => directed_arg_spec(*resolver, left@, right@, direction, strict_optional) == Some(constraints_model(v@)),
            None => directed_arg_spec(*resolver, left@, right@, direction, strict_optional).is_none(),
        },
{
    let unpacked = match (left, right) {
        (Type::UnpackType { .. }, _) => true,
        (_, Type::UnpackType { .. }) => true,
        _ => false,
    };
    if unpacked {
        let v: Vec<Constraint> = Vec::new();
        proof {
            assert(constraints_model(v@) =~= Seq::<ConstraintModel>::empty());
        }
        return Some(v);
    }
    if direction == SUBTYPE_OF {
        infer_constraints(left, right, neg_op(direction), resolver, strict_optional)
    } else {
        infer_constraints(right, left, neg_op(direction), resolver, strict_optional)
    }
}

/// Whether every item of a union is a `type[...]`.
pub open spec fn all_type_types(items: Seq<TypeModel>) -> bool {
    forall|i: int| 0 <= i < items.len() ==> (#[trigger] items[i]) is TypeType
}

/// Whether a type is a `type[...]`, or a union whose every item is one.
pub open spec fn type_type_spec(t: TypeModel) -> bool {
    match t {
        TypeModel::TypeType { .. } => true,
        TypeModel::UnionType { items, .. } => all_type_types(items),
        _ => false,
    }
}

fn all_type_types_exec(items: &Vec<Type>) -> (r: bool)
    ensures
        r == all_type_types(types_model(items@)),
{
    proof {
        lemma_types_model(items@);
    }
    let mut i: usize = 0;
    while i < items.len()
        invariant
            i <= items@.len(),
            types_model(items@).len() == items@.len(),
            forall|j: int| 0 <= j < items@.len() ==> #[trigger] types_model(items@)[j] == items@[j]@,
            forall|j: int| 0 <= j < i ==> (#[trigger] types_model(items@)[j]) is TypeType,
        decreases items@.len() - i,
    {
        let ok = match &items[i] {
            Type::TypeType { .. } => true,
            _ => false,
        };
        if !ok {
            proof {
                assert(!(types_model(items@)[i as int] is TypeType));
            }
            return false;
        }
        i = i + 1;
    }
    true
}

/// Whether a type is a `type[...]`, or a union whose every item is one.
pub fn is_type_type(tp: &Type) -> (r: bool)
    ensures
        r == type_type_spec(tp@),
{
    match tp {
        Type::TypeType { .. } => true,
        Type::UnionType { items, .. } => {
            proof {
                assert(tp@ matches TypeModel::UnionType { items: it, .. } && it == types_model(items@));
            }
            all_type_types_exec(items)
        },
        _ => false,
    }
}

/// The item of a `type[...]`.
pub open spec fn type_item(t: TypeModel) -> TypeModel {
    match t {
        TypeModel::TypeType { item, .. } => *item,
        _ => t,
    }
}

/// The inner type of a `type[...]`, or the union of the inner items of an
/// all-`type[...]` union; `None` for any other type.
pub open spec fn unwrap_type_type_spec(t: TypeModel) -> Option<TypeModel> {
    match t {
        TypeModel::TypeType { item, .. } => Some(*item),
        TypeModel::UnionType { items, .. } => if all_type_types(items) {
            Some(make_union_spec(items.map_values(|x: TypeModel| type_item(x))))
        } else {
            None
        },
        _ => None,
    }
}

/// The inner type of a `type[...]`, or the union of the inner items of an
/// all-`type[...]` union.
pub fn unwrap_type_type(tp: &Type) -> (r: Option<Type>)
    ensures
        match r {
            Some(x) => unwrap_type_type_spec(tp@) == Some(x@),
            None => unwrap_type_type_spec(tp@).is_none(),
        },
{
    match tp {
        Type::TypeType { item, .. } => {
            proof {
                assert(tp@ matches TypeModel::TypeType { item: i, .. } && *i == type_model(**item));
            }
            Some(clone_type(item))
        },
        Type::UnionType { items, .. } => {
            proof {
                lemma_types_model(items@);
                assert(tp@ matches TypeModel::UnionType { items: it, .. } && it == types_model(items@));
            }
            if !all_type_types_exec(items) {
                return None;
            }
            let ghost im = types_model(items@);
            let mut inner: Vec<Type> = Vec::new();
            let mut i: usize = 0;
            while i < items.len()
                invariant
                    i <= items@.len(),
                    im == types_model(items@),
                    im.len() == items@.len(),
                    forall|j: int| 0 <= j < items@.len() ==> #[trigger] im[j] == items@[j]@,
                    inner@.len() == i,
                    forall|j: int| 0 <= j < i ==> (#[trigger] inner@[j])@ == type_item(im[j]),
                decreases items@.len() - i,
            {
                match &items[i] {
                    Type::TypeType { item, .. } => {
                        proof {
                            assert(items@[i as int]@ matches TypeModel::TypeType { item: it, .. } && *it == type_model(**item));
                        }
                        inner.push(clone_type(item));
                    },
                    _ => {
                        inner.push(clone_type(&items[i]));
                    },
                }
                i = i + 1;
            }
            proof {
                lemma_types_model(inner@);
                assert(types_model(inner@) =~= im.map_values(|x: TypeModel| type_item(x)));
            }
            Some(make_union(inner))
        },
        _ => None,
    }
}

/// Whether a bound is the trivial top: a `builtins.object` instance, or
/// when `allow_tuple` a `builtins.tuple` instance whose first argument is
/// one. `None` on an alias, and on a tuple whose first argument is an
/// alias or missing.
pub open spec fn trivial_bound_spec(t: TypeModel, allow_tuple: bool) -> Option<bool> {
    match t {
        TypeModel::TypeAliasType { .. } => None,
        TypeModel::Instance { type_ref, args, .. } => if type_ref == "builtins.tuple"@ {
            if !allow_tuple {
                Some(false)
            } else if args.len() == 0 || args[0] is TypeAliasType {
                None
            } else {
                Some(args[0] matches TypeModel::Instance { type_ref: a, .. } && a == "builtins.object"@)
            }
        } else {
            Some(type_ref == "builtins.object"@)
        },
        _ => Some(false),
    }
}

/// Whether a bound is the trivial `builtins.object` top (or a tuple of it
/// when `allow_tuple`).
pub fn is_trivial_bound(t: &Type, allow_tuple: bool) -> (r: Option<bool>)
    ensures
        r == trivial_bound_spec(t@, allow_tuple),
{
    match t {
        Type::TypeAliasType { .. } => None,
        Type::Instance { type_ref, args, .. } => {
            proof {
                lemma_types_model(args@);
                assert(t@ matches TypeModel::Instance { type_ref: tr, args: a, .. } && tr == type_ref@ && a == types_model(args@));
            }
            if str_eq(type_ref.as_str(), "builtins.tuple") {
                if !allow_tuple {
                    Some(false)
                } else if args.len() == 0 {
                    None
                } else {
                    match &args[0] {
                        Type::TypeAliasType { .. } => None,
                        Type::Instance { type_ref: a, .. } => {
                            proof {
                                assert(args@[0]@ matches TypeModel::Instance { type_ref: am, .. } && am == a@);
                            }
                            Some(str_eq(a.as_str(), "builtins.object"))
                        },
                        _ => Some(false),
                    }
                }
            } else {
                Some(str_eq(type_ref.as_str(), "builtins.object"))
            }
        },
        _ => Some(false),
    }
}


/// A number for each variant of a type, telling the variants apart.
pub open spec fn variant_tag(t: TypeModel) -> int {
    match t {
        TypeModel::AnyType { .. } => 0,
        TypeModel::NoneType => 1,
        TypeModel::UninhabitedType { .. } => 2,
        TypeModel::ErasedType => 3,
        TypeModel::DeletedType { .. } => 4,
        TypeModel::Instance { .. } => 5,
        TypeModel::TypeVarType { .. } => 6,
        TypeModel::CallableType { .. } => 7,
        TypeModel::Overloaded { .. } => 8,
        TypeModel::TupleType { .. } => 9,
        TypeModel::TypedDictType { .. } => 10,
        TypeModel::LiteralType { .. } => 11,
        TypeModel::UnionType { .. } => 12,
        TypeModel::TypeType { .. } => 13,
        TypeModel::UnpackType { .. } => 14,
        TypeModel::TypeAliasType { .. } => 15,
    }
}

fn variant_tag_exec(t: &Type) -> (r: u8)
    ensures
        r as int == variant_tag(t@),
{
    match t {
        Type::AnyType { .. } => 0,
        Type::NoneType => 1,
        Type::UninhabitedType { .. } => 2,
        Type::ErasedType => 3,
        Type::DeletedType { .. } => 4,
        Type::Instance { .. } => 5,
        Type::TypeVarType { .. } => 6,
        Type::CallableType { .. } => 7,
        Type::Overloaded { .. } => 8,
        Type::TupleType { .. } => 9,
        Type::TypedDictType { .. } => 10,
        Type::LiteralType { .. } => 11,
        Type::UnionType { .. } => 12,
        Type::TypeType { .. } => 13,
        Type::UnpackType { .. } => 14,
        Type::TypeAliasType { .. } => 15,
    }
}

/// `==` on literal values, where `True` equals `1` and `False` equals `0`.
pub open spec fn literal_value_eq(a: LiteralModel, b: LiteralModel) -> bool {
    match (a, b) {
        (LiteralModel::Bool(x), LiteralModel::Bool(y)) => x == y,
        (LiteralModel::Int(x), LiteralModel::Int(y)) => x == y,
        (LiteralModel::Str(x), LiteralModel::Str(y)) => x == y,
        (LiteralModel::Bool(x), LiteralModel::Int(y)) => (if x { 1int } else { 0int }) == y,
        (LiteralModel::Int(x), LiteralModel::Bool(y)) => x == (if y { 1int } else { 0int }),
        _ => false,
    }
}

/// `==` on extra attributes: equal when both are absent, unequal when one
/// is; not decided when both are present.
pub open spec fn extra_eq_spec(a: Option<ExtraAttrsModel>, b: Option<ExtraAttrsModel>) -> Option<bool> {
    match (a, b) {
        (None, None) => Some(true),
        (Some(_), Some(_)) => None,
        _ => Some(false),
    }
}

/// `==` on types: two types of different variants are unequal; all `Any`
/// types are equal, as are all `None` and all `Never` types; instances
/// compare class, arguments, last known value and extra attributes in
/// that order; type variables compare their id, then upper bound, then
/// value restriction; literals compare fallback, then value. `None` where
/// a comparison on that path is not decided, and for two types of any
/// other same variant.
pub open spec fn type_eq_spec(a: TypeModel, b: TypeModel) -> Option<bool>
    decreases a, 1nat,
{
    if variant_tag(a) != variant_tag(b) {
        Some(false)
    } else {
        match a {
            TypeModel::AnyType { .. } => Some(true),
            TypeModel::NoneType => Some(true),
            TypeModel::UninhabitedType { .. } => Some(true),
            TypeModel::Instance { type_ref: r1, args: a1, last_known_value: l1, extra_attrs: e1 } => match b {
                TypeModel::Instance { type_ref: r2, args: a2, last_known_value: l2, extra_attrs: e2 } => if r1 != r2 {
                    Some(false)
                } else {
                    and_then_verdict(types_eq_spec(a1, a2), and_then_verdict(opt_type_eq_spec(l1, l2), extra_eq_spec(e1, e2)))
                },
                _ => None,
            },
            TypeModel::TypeVarType { raw_id: i1, namespace: n1, meta_level: m1, upper_bound: u1, values: v1, .. } => match b {
                TypeModel::TypeVarType { raw_id: i2, namespace: n2, meta_level: m2, upper_bound: u2, values: v2, .. } => if i1
                    != i2 || m1 != m2 || n1 != n2 {
                    Some(false)
                } else {
                    and_then_verdict(type_eq_spec(*u1, *u2), types_eq_spec(v1, v2))
                },
                _ => None,
            },
            TypeModel::LiteralType { fallback: f1, value: v1 } => match b {
                TypeModel::LiteralType { fallback: f2, value: v2 } => and_then_verdict(
                    type_eq_spec(*f1, *f2),
                    Some(literal_value_eq(v1, v2)),
                ),
                _ => None,
            },
            _ => None,
        }
    }
}

/// `==` on optional types.
pub open spec fn opt_type_eq_spec(a: Option<Box<TypeModel>>, b: Option<Box<TypeModel>>) -> Option<bool>
    decreases a, 2nat,
{
    match a {
        None => Some(b.is_none()),
        Some(x) => match b {
            None => Some(false),
            Some(y) => type_eq_spec(*x, *y),
        },
    }
}

/// `==` on lists of types: unequal lengths are unequal; otherwise the
/// items compare in order and the first that is not equal decides.
pub open spec fn types_eq_spec(a: Seq<TypeModel>, b: Seq<TypeModel>) -> Option<bool>
    decreases a, 0nat,
{
    if a.len() != b.len() {
        Some(false)
    } else if a.len() == 0 {
        Some(true)
    } else {
        and_then_verdict(types_eq_spec(a.drop_last(), b.drop_last()), type_eq_spec(a.last(), b.last()))
    }
}

/// Equality of types is symmetric: comparing `a` with `b` decides the
/// same way as comparing `b` with `a`, and declines on the same pairs.
pub proof fn law_type_eq_symmetric(a: TypeModel, b: TypeModel)
    ensures
        type_eq_spec(a, b) == type_eq_spec(b, a),
    decreases a, 1nat,
{
    if variant_tag(a) == variant_tag(b) {
        match a {
            TypeModel::Instance { args: a1, last_known_value: l1, .. } => match b {
                TypeModel::Instance { args: a2, last_known_value: l2, .. } => {
                    law_types_eq_symmetric(a1, a2);
                    law_opt_type_eq_symmetric(l1, l2);
                },
                _ => {},
            },
            TypeModel::TypeVarType { upper_bound: u1, values: v1, .. } => match b {
                TypeModel::TypeVarType { upper_bound: u2, values: v2, .. } => {
                    law_type_eq_symmetric(*u1, *u2);
                    law_types_eq_symmetric(v1, v2);
                },
                _ => {},
            },
            TypeModel::LiteralType { fallback: f1, .. } => match b {
                TypeModel::LiteralType { fallback: f2, .. } => {
                    law_type_eq_symmetric(*f1, *f2);
                },
                _ => {},
            },
            _ => {},
        }
    }
}

/// Equality of optional types is symmetric.
pub proof fn law_opt_type_eq_symmetric(a: Option<Box<TypeModel>>, b: Option<Box<TypeModel>>)
    ensures
        opt_type_eq_spec(a, b) == opt_type_eq_spec(b, a),
    decreases a, 2nat,
{
    match a {
        Some(x) => match b {
            Some(y) => {
                law_type_eq_symmetric(*x, *y);
            },
            None => {},
        },
        None => {},
    }
}

/// Equality of lists of types is symmetric.
pub proof fn law_types_eq_symmetric(a: Seq<TypeModel>, b: Seq<TypeModel>)
    ensures
        types_eq_spec(a, b) == types_eq_spec(b, a),
    decreases a, 0nat,
{
    if a.len() == b.len() && a.len() > 0 {
        law_types_eq_symmetric(a.drop_last(), b.drop_last());
        law_type_eq_symmetric(a.last(), b.last());
    }
}

proof fn lemma_types_eq_prefix(a: Seq<TypeModel>, b: Seq<TypeModel>, k: int)
    requires
        a.len() == b.len(),
        0 <= k <= a.len(),
        types_eq_spec(a.take(k), b.take(k)) != Some(true),
    ensures
        types_eq_spec(a, b) == types_eq_spec(a.take(k), b.take(k)),
    decreases a.len() - k,
{
    if k < a.len() {
        assert(a.take(k + 1).drop_last() =~= a.take(k));
        assert(b.take(k + 1).drop_last() =~= b.take(k));
        lemma_types_eq_prefix(a, b, k + 1);
    } else {
        assert(a.take(k) =~= a);
        assert(b.take(k) =~= b);
    }
}

fn literal_eq_exec(a: &LiteralValue, b: &LiteralValue) -> (r: bool)
    ensures
        r == literal_value_eq(literal_model(*a), literal_model(*b)),
{
    match (a, b) {
        (LiteralValue::Bool(x), LiteralValue::Bool(y)) => *x == *y,
        (LiteralValue::Int(x), LiteralValue::Int(y)) => *x == *y,
        (LiteralValue::Str(x), LiteralValue::Str(y)) => str_eq(x.as_str(), y.as_str()),
        (LiteralValue::Bool(x), LiteralValue::Int(y)) => (if *x { 1i64 } else { 0i64 }) == *y,
        (LiteralValue::Int(x), LiteralValue::Bool(y)) => *x == (if *y { 1i64 } else { 0i64 }),
        _ => false,
    }
}

fn and_then_exec(a: Option<bool>, b: Option<bool>) -> (r: Option<bool>)
    ensures
        r == and_then_verdict(a, b),
{
    match a {
        Some(true) => b,
        other => other,
    }
}

/// `==` on types, as [`type_eq_spec`] states it.
pub fn type_eq(a: &Type, b: &Type) -> (r: Option<bool>)
    ensures
        r == type_eq_spec(a@, b@),
    decreases a, 1nat,
{
    if variant_tag_exec(a) != variant_tag_exec(b) {
        return Some(false);
    }
    match a {
        Type::AnyType { .. } => {
            proof {
                assert(a@ is AnyType);
            }
            Some(true)
        },
        Type::NoneType => Some(true),
        Type::UninhabitedType { .. } => Some(true),
        Type::Instance { type_ref: r1, args: a1, last_known_value: l1, extra_attrs: e1 } => match b {
            Type::Instance { type_ref: r2, args: a2, last_known_value: l2, extra_attrs: e2 } => {
                if !str_eq(r1.as_str(), r2.as_str()) {
                    return Some(false);
                }
                let va = types_eq(a1, a2);
                if va != Some(true) {
                    return va;
                }
                let vl = opt_type_eq(l1, l2);
                if vl != Some(true) {
                    return vl;
                }
                proof {
                    assert(a@ matches TypeModel::Instance { extra_attrs: ea, last_known_value: la, .. }
                        && ea == crate::wire::extra_model(*e1) && la == opt_type_model(*l1));
                    assert(b@ matches TypeModel::Instance { extra_attrs: eb, last_known_value: lb, .. }
                        && eb == crate::wire::extra_model(*e2) && lb == opt_type_model(*l2));
                }
                match (e1, e2) {
                    (None, None) => Some(true),
                    (Some(_), Some(_)) => None,
                    _ => Some(false),
                }
            },
            _ => None,
        },
        Type::TypeVarType { raw_id: i1, namespace: n1, meta_level: m1, upper_bound: u1, values: v1, .. } => match b {
            Type::TypeVarType { raw_id: i2, namespace: n2, meta_level: m2, upper_bound: u2, values: v2, .. } => {
                if *i1 != *i2 || *m1 != *m2 || !str_eq(n1.as_str(), n2.as_str()) {
                    return Some(false);
                }
                let vu = type_eq(u1, u2);
                if vu != Some(true) {
                    return vu;
                }
                types_eq(v1, v2)
            },
            _ => None,
        },
        Type::LiteralType { fallback: f1, value: v1 } => match b {
            Type::LiteralType { fallback: f2, value: v2 } => {
                let vf = type_eq(f1, f2);
                proof {
                    assert(a@ matches TypeModel::LiteralType { fallback: fa, value: va } && *fa == type_model(**f1)
                        && va == literal_model(*v1));
                    assert(b@ matches TypeModel::LiteralType { fallback: fb, value: vb } && *fb == type_model(**f2)
                        && vb == literal_model(*v2));
                }
                and_then_exec(vf, Some(literal_eq_exec(v1, v2)))
            },
            _ => None,
        },
        _ => None,
    }
}

fn opt_type_eq(a: &Option<Box<Type>>, b: &Option<Box<Type>>) -> (r: Option<bool>)
    ensures
        r == opt_type_eq_spec(opt_type_model(*a), opt_type_model(*b)),
    decreases a, 2nat,
{
    match a {
        None => Some(b.is_none()),
        Some(x) => match b {
            None => Some(false),
            Some(y) => type_eq(x, y),
        },
    }
}

/// `==` on lists of types, as [`types_eq_spec`] states it.
pub fn types_eq(a: &Vec<Type>, b: &Vec<Type>) -> (r: Option<bool>)
    ensures
        r == types_eq_spec(types_model(a@), types_model(b@)),
    decreases a, 0nat,
{
    let ghost am = types_model(a@);
    let ghost bm = types_model(b@);
    proof {
        lemma_types_model(a@);
        lemma_types_model(b@);
    }
    if a.len() != b.len() {
        return Some(false);
    }
    proof {
        assert(am.take(0) =~= Seq::<TypeModel>::empty());
        assert(bm.take(0) =~= Seq::<TypeModel>::empty());
    }
    let mut i: usize = 0;
    while i < a.len()
        invariant
            i <= a@.len(),
            a@.len() == b@.len(),
            am == types_model(a@),
            bm == types_model(b@),
            am.len() == a@.len(),
            bm.len() == b@.len(),
            forall|j: int| 0 <= j < a@.len() ==> #[trigger] am[j] == a@[j]@,
            forall|j: int| 0 <= j < b@.len() ==> #[trigger] bm[j] == b@[j]@,
            types_eq_spec(am.take(i as int), bm.take(i as int)) == Some(true),
        decreases a@.len() - i,
    {
        let v = type_eq(&a[i], &b[i]);
        proof {
            assert(am.take(i + 1).drop_last() =~= am.take(i as int));
            assert(bm.take(i + 1).drop_last() =~= bm.take(i as int));
            assert(am.take(i + 1).last() == am[i as int]);
            assert(bm.take(i + 1).last() == bm[i as int]);
        }
        if v != Some(true) {
            proof {
                lemma_types_eq_prefix(am, bm, i + 1);
            }
            return v;
        }
        i = i + 1;
    }
    proof {
        assert(am.take(am.len() as int) =~= am);
        assert(bm.take(bm.len() as int) =~= bm);
    }
    Some(true)
}


/// A copy of a constraint, equal to it in the model.
pub fn clone_constraint(c: &Constraint) -> (r: Constraint)
    ensures
        r@ == c@,
{
    Constraint {
        origin_type_var: clone_type(&c.origin_type_var),
        op: c.op,
        target: clone_type(&c.target),
        extra_tvars: clone_types(&c.extra_tvars),
    }
}

/// Whether two type variables have the same id (raw id, meta level and
/// namespace); `None` when either is not a type variable.
pub open spec fn tv_id_eq(a: TypeModel, b: TypeModel) -> Option<bool> {
    match a {
        TypeModel::TypeVarType { raw_id: i1, meta_level: m1, namespace: n1, .. } => match b {
            TypeModel::TypeVarType { raw_id: i2, meta_level: m2, namespace: n2, .. } => Some(i1 == i2 && m1 == m2 && n1 == n2),
            _ => None,
        },
        _ => None,
    }
}

fn tv_id_eq_exec(a: &Type, b: &Type) -> (r: Option<bool>)
    ensures
        r == tv_id_eq(a@, b@),
{
    match a {
        Type::TypeVarType { raw_id: i1, meta_level: m1, namespace: n1, .. } => match b {
            Type::TypeVarType { raw_id: i2, meta_level: m2, namespace: n2, .. } => Some(
                *i1 == *i2 && *m1 == *m2 && str_eq(n1.as_str(), n2.as_str()),
            ),
            _ => None,
        },
        _ => None,
    }
}

/// `==` on constraints: the id of the variable, then the direction, then
/// the target.
pub open spec fn constraint_eq_spec(c1: ConstraintModel, c2: ConstraintModel) -> Option<bool> {
    match tv_id_eq(c1.origin_type_var, c2.origin_type_var) {
        None => None,
        Some(false) => Some(false),
        Some(true) => if c1.op != c2.op {
            Some(false)
        } else {
            type_eq_spec(c1.target, c2.target)
        },
    }
}

fn constraint_eq(c1: &Constraint, c2: &Constraint) -> (r: Option<bool>)
    ensures
        r == constraint_eq_spec(c1@, c2@),
{
    match tv_id_eq_exec(&c1.origin_type_var, &c2.origin_type_var) {
        None => None,
        Some(false) => Some(false),
        Some(true) => if c1.op != c2.op {
            Some(false)
        } else {
            type_eq(&c1.target, &c2.target)
        },
    }
}

/// A constraint the reverse-union filter removes: one of the input list
/// itself (by its index), or one made from a union item.
pub enum ReverseEntry {
    Own(int),
    Made(ConstraintModel),
}

/// The two constraints a type-variable item `item` of `c`'s union target
/// stands for: `item` against the variable in the opposite direction, and
/// the variable against `item`.
pub open spec fn made_pair(c: ConstraintModel, item: TypeModel) -> Seq<ReverseEntry> {
    seq![
        ReverseEntry::Made(ConstraintModel { origin_type_var: item, op: neg_op_spec(c.op), target: c.origin_type_var, extra_tvars: Seq::empty() }),
        ReverseEntry::Made(ConstraintModel { origin_type_var: c.origin_type_var, op: c.op, target: item, extra_tvars: Seq::empty() }),
    ]
}

/// What one union item of constraint `c` (at index `i`) removes: nothing
/// for an item that is not a type variable; `c` itself when the item is
/// `c`'s own variable and `c` is `SUBTYPE_OF`; otherwise the made pair.
pub open spec fn item_entries(c: ConstraintModel, i: int, item: TypeModel) -> Option<Seq<ReverseEntry>> {
    if !(item is TypeVarType) {
        Some(Seq::empty())
    } else if c.op == SUBTYPE_OF {
        match type_eq_spec(item, c.origin_type_var) {
            None => None,
            Some(true) => Some(seq![ReverseEntry::Own(i)]),
            Some(false) => Some(made_pair(c, item)),
        }
    } else {
        Some(made_pair(c, item))
    }
}

/// What the union items of constraint `c` remove, item by item.
pub open spec fn items_entries(c: ConstraintModel, i: int, items: Seq<TypeModel>) -> Option<Seq<ReverseEntry>>
    decreases items.len(),
{
    if items.len() == 0 {
        Some(Seq::empty())
    } else {
        match items_entries(c, i, items.drop_last()) {
            None => None,
            Some(p) => match item_entries(c, i, items.last()) {
                None => None,
                Some(q) => Some(p + q),
            },
        }
    }
}

/// What constraint `c` (at index `i`) removes: the entries of its union
/// target's items; nothing for another target; `None` for an alias target.
pub open spec fn constraint_entries(c: ConstraintModel, i: int) -> Option<Seq<ReverseEntry>> {
    match c.target {
        TypeModel::UnionType { items, .. } => items_entries(c, i, items),
        TypeModel::TypeAliasType { .. } => None,
        _ => Some(Seq::empty()),
    }
}

/// Everything the constraints remove, constraint by constraint.
pub open spec fn reverse_entries(cs: Seq<ConstraintModel>) -> Option<Seq<ReverseEntry>>
    decreases cs.len(),
{
    if cs.len() == 0 {
        Some(Seq::empty())
    } else {
        match reverse_entries(cs.drop_last()) {
            None => None,
            Some(p) => match constraint_entries(cs.last(), cs.len() - 1) {
                None => None,
                Some(q) => Some(p + q),
            },
        }
    }
}

/// Whether entry `e` matches constraint `j`: an own entry matches the
/// constraint it was taken from, and otherwise by `==`.
pub open spec fn entry_matches(cs: Seq<ConstraintModel>, e: ReverseEntry, j: int) -> Option<bool> {
    match e {
        ReverseEntry::Own(i) => if i == j {
            Some(true)
        } else {
            constraint_eq_spec(cs[i], cs[j])
        },
        ReverseEntry::Made(m) => constraint_eq_spec(m, cs[j]),
    }
}

/// Whether constraint `j` is among the removed ones.
pub open spec fn dropped_verdict(cs: Seq<ConstraintModel>, es: Seq<ReverseEntry>, j: int) -> Option<bool> {
    any_verdict(es.map_values(|e: ReverseEntry| entry_matches(cs, e, j)))
}

/// The first `n` constraints that are not removed, in order.
pub open spec fn survivors(cs: Seq<ConstraintModel>, es: Seq<ReverseEntry>, n: int) -> Option<Seq<ConstraintModel>>
    decreases n,
{
    if n <= 0 {
        Some(Seq::empty())
    } else {
        match survivors(cs, es, n - 1) {
            None => None,
            Some(p) => match dropped_verdict(cs, es, n - 1) {
                None => None,
                Some(true) => Some(p),
                Some(false) => Some(p.push(cs[n - 1])),
            },
        }
    }
}

/// The constraints that polymorphic solving keeps: every constraint whose
/// target is a union is scanned for type-variable items; `T <: T | ...`
/// removes itself, and any other such item removes the two constraints it
/// stands for; what is removed is dropped wherever it occurs. `None` for
/// an alias target, and where a comparison is not decided.
pub open spec fn skip_reverse_spec(cs: Seq<ConstraintModel>) -> Option<Seq<ConstraintModel>> {
    match reverse_entries(cs) {
        None => None,
        Some(es) => survivors(cs, es, cs.len() as int),
    }
}

enum EntryExec {
    Own(usize),
    Made(Constraint),
}

spec fn entry_model(e: EntryExec) -> ReverseEntry {
    match e {
        EntryExec::Own(i) => ReverseEntry::Own(i as int),
        EntryExec::Made(c) => ReverseEntry::Made(c@),
    }
}

spec fn entries_model(v: Seq<EntryExec>) -> Seq<ReverseEntry> {
    v.map_values(|e: EntryExec| entry_model(e))
}

proof fn lemma_entries_push(v: Seq<EntryExec>, e: EntryExec)
    ensures
        entries_model(v.push(e)) == entries_model(v) + seq![entry_model(e)],
{
    assert(entries_model(v.push(e)) =~= entries_model(v) + seq![entry_model(e)]);
}

fn item_entries_exec(c: &Constraint, i: usize, item: &Type, out: &mut Vec<EntryExec>) -> (ok: bool)
    ensures
        ok == item_entries(c@, i as int, item@).is_some(),
        ok ==> entries_model(final(out)@) == entries_model(old(out)@) + item_entries(c@, i as int, item@).unwrap(),
{
    let is_tv = match item {
        Type::TypeVarType { .. } => true,
        _ => false,
    };
    if !is_tv {
        proof {
            assert(entries_model(out@) + Seq::<ReverseEntry>::empty() =~= entries_model(out@));
        }
        return true;
    }
    if c.op == SUBTYPE_OF {
        match type_eq(item, &c.origin_type_var) {
            None => {
                return false;
            },
            Some(true) => {
                proof {
                    lemma_entries_push(out@, EntryExec::Own(i));
                }
                out.push(EntryExec::Own(i));
                return true;
            },
            Some(false) => {},
        }
    }
    let m1 = new_constraint(item, &c.origin_type_var, neg_op(c.op));
    let m2 = new_constraint(&c.origin_type_var, item, c.op);
    let ghost g1 = m1@;
    let ghost g2 = m2@;
    let ghost start = out@;
    proof {
        lemma_entries_push(out@, EntryExec::Made(m1));
    }
    out.push(EntryExec::Made(m1));
    proof {
        lemma_entries_push(out@, EntryExec::Made(m2));
    }
    out.push(EntryExec::Made(m2));
    proof {
        assert(entries_model(out@) =~= entries_model(start) + made_pair(c@, item@));
    }
    true
}

proof fn lemma_items_entries_none(c: ConstraintModel, i: int, items: Seq<TypeModel>, k: int)
    requires
        0 <= k <= items.len(),
        items_entries(c, i, items.take(k)).is_none(),
    ensures
        items_entries(c, i, items).is_none(),
    decreases items.len() - k,
{
    if k < items.len() {
        assert(items.take(k + 1).drop_last() =~= items.take(k));
        lemma_items_entries_none(c, i, items, k + 1);
    } else {
        assert(items.take(k) =~= items);
    }
}

fn constraint_entries_exec(c: &Constraint, i: usize, out: &mut Vec<EntryExec>) -> (ok: bool)
    ensures
        ok == constraint_entries(c@, i as int).is_some(),
        ok ==> entries_model(final(out)@) == entries_model(old(out)@) + constraint_entries(c@, i as int).unwrap(),
{
    match &c.target {
        Type::UnionType { items, .. } => {
            let ghost im = types_model(items@);
            let ghost start = out@;
            proof {
                lemma_types_model(items@);
                assert(c@.target matches TypeModel::UnionType { items: it, .. } && it == im);
                assert(im.take(0) =~= Seq::<TypeModel>::empty());
                assert(entries_model(start) + Seq::<ReverseEntry>::empty() =~= entries_model(start));
            }
            let mut k: usize = 0;
            while k < items.len()
                invariant
                    k <= items@.len(),
                    im == types_model(items@),
                    im.len() == items@.len(),
                    forall|j: int| 0 <= j < items@.len() ==> #[trigger] im[j] == items@[j]@,
                    c@.target matches TypeModel::UnionType { items: it, .. } && it == im,
                    items_entries(c@, i as int, im.take(k as int)).is_some(),
                    entries_model(out@) == entries_model(start) + items_entries(c@, i as int, im.take(k as int)).unwrap(),
                decreases items@.len() - k,
            {
                proof {
                    assert(im.take(k + 1).drop_last() =~= im.take(k as int));
                    assert(im.take(k + 1).last() == im[k as int]);
                }
                let ghost before = out@;
                if !item_entries_exec(c, i, &items[k], out) {
                    proof {
                        lemma_items_entries_none(c@, i as int, im, k + 1);
                    }
                    return false;
                }
                proof {
                    let p = items_entries(c@, i as int, im.take(k as int)).unwrap();
                    let q = item_entries(c@, i as int, im[k as int]).unwrap();
                    assert(entries_model(out@) =~= entries_model(start) + (p + q));
                }
                k = k + 1;
            }
            proof {
                assert(im.take(im.len() as int) =~= im);
            }
            true
        },
        Type::TypeAliasType { .. } => false,
        _ => {
            proof {
                assert(entries_model(out@) + Seq::<ReverseEntry>::empty() =~= entries_model(out@));
            }
            true
        },
    }
}

proof fn lemma_reverse_entries_none(cs: Seq<ConstraintModel>, k: int)
    requires
        0 <= k <= cs.len(),
        reverse_entries(cs.take(k)).is_none(),
    ensures
        reverse_entries(cs).is_none(),
    decreases cs.len() - k,
{
    if k < cs.len() {
        assert(cs.take(k + 1).drop_last() =~= cs.take(k));
        lemma_reverse_entries_none(cs, k + 1);
    } else {
        assert(cs.take(k) =~= cs);
    }
}

fn entry_matches_exec(cs: &[Constraint], e: &EntryExec, j: usize) -> (r: Option<bool>)
    requires
        j < cs@.len(),
        match e {
            EntryExec::Own(i) => i < cs@.len(),
            _ => true,
        },
    ensures
        r == entry_matches(constraints_model(cs@), entry_model(*e), j as int),
{
    match e {
        EntryExec::Own(i) => if *i == j {
            Some(true)
        } else {
            constraint_eq(&cs[*i], &cs[j])
        },
        EntryExec::Made(m) => constraint_eq(m, &cs[j]),
    }
}

/// Drop the constraints that polymorphic solving would double-count
/// because they come from a union carrying the origin variable; see
/// [`skip_reverse_spec`].
pub fn skip_reverse_union_constraints(constraints: &[Constraint]) -> (r: Option<Vec<Constraint>>)
    ensures
        match r {
            Some(v) => skip_reverse_spec(constraints_model(constraints@)) == Some(constraints_model(v@)),
            None => skip_reverse_spec(constraints_model(constraints@)).is_none(),
        },
{
    let ghost cm = constraints_model(constraints@);
    let mut es: Vec<EntryExec> = Vec::new();
    proof {
        assert(cm.take(0) =~= Seq::<ConstraintModel>::empty());
        assert(entries_model(es@) =~= Seq::<ReverseEntry>::empty());
    }
    let mut i: usize = 0;
    while i < constraints.len()
        invariant
            i <= constraints@.len(),
            cm == constraints_model(constraints@),
            cm.len() == constraints@.len(),
            reverse_entries(cm.take(i as int)).is_some(),
            entries_model(es@) == reverse_entries(cm.take(i as int)).unwrap(),
            forall|x: int| 0 <= x < es@.len() ==> match #[trigger] es@[x] {
                EntryExec::Own(o) => o < i,
                _ => true,
            },
        decreases constraints@.len() - i,
    {
        proof {
            assert(cm.take(i + 1).drop_last() =~= cm.take(i as int));
            assert(cm.take(i + 1).last() == cm[i as int]);
            assert(cm[i as int] == constraints@[i as int]@);
        }
        let ghost before = es@;
        if !constraint_entries_exec(&constraints[i], i, &mut es) {
            proof {
                lemma_reverse_entries_none(cm, i + 1);
            }
            return None;
        }
        proof {
            assert(entries_model(es@).len() == es@.len());
            assert(entries_model(before).len() == before.len());
            assert forall|x: int| 0 <= x < es@.len() implies match #[trigger] es@[x] {
                EntryExec::Own(o) => o < i + 1,
                _ => true,
            } by {
                if x < before.len() {
                    assert(entries_model(es@)[x] == entries_model(before)[x]);
                } else {
                    lemma_own_entries_index(cm[i as int], i as int, x - before.len());
                    assert(entries_model(es@)[x] == constraint_entries(cm[i as int], i as int).unwrap()[x - before.len()]);
                }
                match es@[x] {
                    EntryExec::Own(o) => {
                        assert(entries_model(es@)[x] == ReverseEntry::Own(o as int));
                    },
                    _ => {},
                }
            }
        }
        i = i + 1;
    }
    proof {
        assert(cm.take(cm.len() as int) =~= cm);
    }
    let ghost em = entries_model(es@);
    let mut out: Vec<Constraint> = Vec::new();
    let mut j: usize = 0;
    proof {
        assert(constraints_model(out@) =~= Seq::<ConstraintModel>::empty());
    }
    while j < constraints.len()
        invariant
            j <= constraints@.len(),
            cm == constraints_model(constraints@),
            cm.len() == constraints@.len(),
            em == entries_model(es@),
            reverse_entries(cm) == Some(em),
            forall|x: int| 0 <= x < es@.len() ==> match #[trigger] es@[x] {
                EntryExec::Own(o) => o < constraints@.len(),
                _ => true,
            },
            survivors(cm, em, j as int) == Some(constraints_model(out@)),
        decreases constraints@.len() - j,
    {
        let ghost vs = em.map_values(|e: ReverseEntry| entry_matches(cm, e, j as int));
        let mut saw_true = false;
        let mut all_false = true;
        let mut x: usize = 0;
        while x < es.len()
            invariant
                x <= es@.len(),
                j < constraints@.len(),
                cm == constraints_model(constraints@),
                em == entries_model(es@),
                forall|y: int| 0 <= y < es@.len() ==> match #[trigger] es@[y] {
                    EntryExec::Own(o) => o < constraints@.len(),
                    _ => true,
                },
                vs == em.map_values(|e: ReverseEntry| entry_matches(cm, e, j as int)),
                saw_true == exists|y: int| 0 <= y < x && vs[y] == Some(true),
                all_false == forall|y: int| 0 <= y < x ==> vs[y] == Some(false),
            decreases es@.len() - x,
        {
            let v = entry_matches_exec(constraints, &es[x], j);
            proof {
                assert(vs[x as int] == v);
            }
            if v == Some(true) {
                saw_true = true;
            }
            if v != Some(false) {
                all_false = false;
            }
            x = x + 1;
        }
        let d = if saw_true {
            Some(true)
        } else if all_false {
            Some(false)
        } else {
            None
        };
        proof {
            assert(d == dropped_verdict(cm, em, j as int));
        }
        match d {
            None => {
                proof {
                    lemma_survivors_none(cm, em, j as int + 1);
                }
                return None;
            },
            Some(true) => {},
            Some(false) => {
                let c = clone_constraint(&constraints[j]);
                proof {
                    assert(constraints_model(out@.push(c)) =~= constraints_model(out@).push(c@));
                    assert(cm[j as int] == constraints@[j as int]@);
                }
                out.push(c);
            },
        }
        j = j + 1;
    }
    Some(out)
}

proof fn lemma_survivors_none(cs: Seq<ConstraintModel>, es: Seq<ReverseEntry>, k: int)
    requires
        0 <= k <= cs.len(),
        survivors(cs, es, k).is_none(),
    ensures
        survivors(cs, es, cs.len() as int).is_none(),
    decreases cs.len() - k,
{
    if k < cs.len() {
        lemma_survivors_none(cs, es, k + 1);
    }
}

proof fn lemma_items_own(c: ConstraintModel, i: int, items: Seq<TypeModel>)
    ensures
        items_entries(c, i, items) is Some ==> forall|y: int| 0 <= y < items_entries(c, i, items).unwrap().len()
            ==> (#[trigger] items_entries(c, i, items).unwrap()[y] matches ReverseEntry::Own(o) ==> o == i),
    decreases items.len(),
{
    if items.len() > 0 {
        lemma_items_own(c, i, items.drop_last());
    }
}

proof fn lemma_own_entries_index(c: ConstraintModel, i: int, y: int)
    requires
        constraint_entries(c, i) is Some,
        0 <= y < constraint_entries(c, i).unwrap().len(),
    ensures
        constraint_entries(c, i).unwrap()[y] matches ReverseEntry::Own(o) ==> o == i,
{
    match c.target {
        TypeModel::UnionType { items, .. } => {
            lemma_items_own(c, i, items);
        },
        _ => {},
    }
}


/// The outcome of constraint inference behind the satisfiability gates.
#[derive(Debug, Clone, PartialEq)]
pub enum InferIfPossible {
    /// A gate rejected the pair, so no constraint may be emitted.
    Unsatisfiable,
    /// The inferred constraints.
    Constraints(Vec<Constraint>),
}

/// `Any` of the special-form kind, which type variables erase to.
pub open spec fn special_any() -> TypeModel {
    TypeModel::AnyType { type_of_any: SPECIAL_FORM as int, source_any: None, missing_import_name: None }
}

/// Type variables erased to `Any`, on the shapes decided here: a type
/// variable is erased; an atom holds none and stays; `None` otherwise.
pub open spec fn erased_spec(t: TypeModel) -> Option<TypeModel> {
    if t is TypeVarType {
        Some(special_any())
    } else if atom_of(t).is_some() {
        Some(t)
    } else {
        None
    }
}

/// The upper bound of a type variable.
pub open spec fn bound_of(t: TypeModel) -> TypeModel {
    match t {
        TypeModel::TypeVarType { upper_bound, .. } => *upper_bound,
        _ => t,
    }
}

/// Inference behind three gates: for `SUBTYPE_OF` the erased template
/// must be a subtype of the actual; for `SUPERTYPE_OF` the actual must be
/// a subtype of the erased template and, for a type-variable template, of
/// its erased upper bound. `Some(None)` when a gate rejects, `Some(Some)`
/// with the inferred constraints otherwise; `None` where erasure, a gate
/// or the inference is not decided.
pub open spec fn if_possible_spec(
    r: TypeResolver,
    template: TypeModel,
    actual: TypeModel,
    direction: i64,
    strict_optional: bool,
) -> Option<Option<Seq<ConstraintModel>>> {
    let ctx = plain_ctx(false, strict_optional);
    match erased_spec(template) {
        None => None,
        Some(et) => {
            let g1 = if direction == SUBTYPE_OF {
                sub_spec(r, et, actual, ctx, false)
            } else {
                Some(true)
            };
            let g2 = if direction == SUPERTYPE_OF {
                sub_spec(r, actual, et, ctx, false)
            } else {
                Some(true)
            };
            let g3 = if direction == SUPERTYPE_OF && template is TypeVarType {
                match erased_spec(bound_of(template)) {
                    None => None,
                    Some(eb) => sub_spec(r, actual, eb, ctx, false),
                }
            } else {
                Some(true)
            };
            match and_then_verdict(g1, and_then_verdict(g2, g3)) {
                None => None,
                Some(false) => Some(None),
                Some(true) => match infer_full_spec(r, template, actual, direction, strict_optional) {
                    None => None,
                    Some(cs) => Some(Some(cs)),
                },
            }
        },
    }
}

fn erased(t: &Type) -> (r: Option<Type>)
    ensures
        match r {
            Some(x) => erased_spec(t@) == Some(x@),
            None => erased_spec(t@).is_none(),
        },
{
    match t {
        Type::TypeVarType { .. } => {
            proof {
                assert(opt_type_model(None) == None::<Box<TypeModel>>);
                assert(crate::wire::opt_str_model(None) == None::<Seq<char>>);
            }
            Some(Type::AnyType { type_of_any: SPECIAL_FORM, source_any: None, missing_import_name: None })
        },
        _ => match atom_exec(t) {
            Some(_) => Some(clone_type(t)),
            None => None,
        },
    }
}

/// Constraint inference behind the satisfiability gates; see
/// [`if_possible_spec`].
pub fn infer_constraints_if_possible(
    template: &Type,
    actual: &Type,
    direction: i64,
    resolver: &TypeResolver,
    strict_optional: bool,
) -> (r: Option<InferIfPossible>)
    ensures
        match r {
            None => if_possible_spec(*resolver, template@, actual@, direction, strict_optional).is_none(),
            Some(InferIfPossible::Unsatisfiable) => if_possible_spec(*resolver, template@, actual@, direction, strict_optional)
                == Some(None::<Seq<ConstraintModel>>),
            Some(InferIfPossible::Constraints(v)) => if_possible_spec(*resolver, template@, actual@, direction, strict_optional)
                == Some(Some(constraints_model(v@))),
        },
{
    let ctx = SubtypeContext { strict_optional, ignore_promotions: false, ignore_type_params: false };
    let et = match erased(template) {
        None => {
            return None;
        },
        Some(e) => e,
    };
    if direction == SUBTYPE_OF {
        match is_subtype(&et, actual, &ctx, resolver) {
            None => {
                return None;
            },
            Some(false) => {
                return Some(InferIfPossible::Unsatisfiable);
            },
            Some(true) => {},
        }
    }
    if direction == SUPERTYPE_OF {
        match is_subtype(actual, &et, &ctx, resolver) {
            None => {
                return None;
            },
            Some(false) => {
                return Some(InferIfPossible::Unsatisfiable);
            },
            Some(true) => {},
        }
        match template {
            Type::TypeVarType { upper_bound, .. } => {
                proof {
                    assert(bound_of(template@) == type_model(**upper_bound));
                }
                let eb = match erased(upper_bound) {
                    None => {
                        return None;
                    },
                    Some(e) => e,
                };
                match is_subtype(actual, &eb, &ctx, resolver) {
                    None => {
                        return None;
                    },
                    Some(false) => {
                        return Some(InferIfPossible::Unsatisfiable);
                    },
                    Some(true) => {},
                }
            },
            _ => {},
        }
    }
    match infer_constraints(template, actual, direction, resolver, strict_optional) {
        None => None,
        Some(v) => Some(InferIfPossible::Constraints(v)),
    }
}

/// Whether a parameter list is plain positional: the three lists agree in
/// length, every kind is positional (required or optional) and no
/// parameter is named.
pub open spec fn plain_positional(kinds: Seq<i64>, names: Seq<Option<Seq<char>>>, types: Seq<TypeModel>) -> bool {
    &&& kinds.len() == types.len()
    &&& names.len() == types.len()
    &&& forall|i: int| 0 <= i < kinds.len() ==> (#[trigger] kinds[i] == 0 || kinds[i] == 1)
    &&& forall|i: int| 0 <= i < names.len() ==> (#[trigger] names[i]).is_none()
}

/// The constraints of the first `n` argument pairs, in order.
pub open spec fn paired_constraints(
    r: TypeResolver,
    left: Seq<TypeModel>,
    right: Seq<TypeModel>,
    direction: i64,
    strict_optional: bool,
    n: int,
) -> Option<Seq<ConstraintModel>>
    decreases n,
{
    if n <= 0 {
        Some(Seq::empty())
    } else {
        match paired_constraints(r, left, right, direction, strict_optional, n - 1) {
            None => None,
            Some(p) => match directed_arg_spec(r, left[n - 1], right[n - 1], direction, strict_optional) {
                None => None,
                Some(c) => Some(p + c),
            },
        }
    }
}

/// The smaller of two integers.
pub open spec fn min_int(a: int, b: int) -> int {
    if a <= b {
        a
    } else {
        b
    }
}

/// Constraints between the arguments of two callables with plain
/// positional parameters: the subtype side is the template for
/// `SUBTYPE_OF` and the actual otherwise; each of its arguments is paired
/// with the other side's argument at the same position, and the pairs'
/// directed constraints are concatenated. `None` for an operand that is
/// not a callable or not plain positional, and where a pair is not
/// decided.
pub open spec fn callable_args_spec(
    r: TypeResolver,
    template: TypeModel,
    actual: TypeModel,
    direction: i64,
    strict_optional: bool,
) -> Option<Seq<ConstraintModel>> {
    match template {
        TypeModel::CallableType { arg_types: ta, arg_kinds: tk, arg_names: tn, .. } => match actual {
            TypeModel::CallableType { arg_types: aa, arg_kinds: ak, arg_names: an, .. } => if !plain_positional(tk, tn, ta)
                || !plain_positional(ak, an, aa) {
                None
            } else if direction == SUBTYPE_OF {
                paired_constraints(r, ta, aa, direction, strict_optional, min_int(ta.len() as int, aa.len() as int))
            } else {
                paired_constraints(r, aa, ta, direction, strict_optional, min_int(ta.len() as int, aa.len() as int))
            },
            _ => None,
        },
        _ => None,
    }
}

fn plain_positional_exec(kinds: &Vec<i64>, names: &Vec<Option<String>>, types: &Vec<Type>) -> (r: bool)
    ensures
        r == plain_positional(kinds@, crate::wire::opt_strs_model(names@), types_model(types@)),
{
    proof {
        lemma_types_model(types@);
    }
    if kinds.len() != types.len() || names.len() != types.len() {
        return false;
    }
    let ghost nm = crate::wire::opt_strs_model(names@);
    let mut i: usize = 0;
    while i < kinds.len()
        invariant
            i <= kinds@.len(),
            kinds@.len() == types@.len(),
            names@.len() == types@.len(),
            nm == crate::wire::opt_strs_model(names@),
            nm.len() == names@.len(),
            forall|j: int| 0 <= j < names@.len() ==> (#[trigger] nm[j]).is_none() == names@[j].is_none(),
            forall|j: int| 0 <= j < i ==> (#[trigger] kinds@[j] == 0 || kinds@[j] == 1),
            forall|j: int| 0 <= j < i ==> (#[trigger] nm[j]).is_none(),
        decreases kinds@.len() - i,
    {
        if kinds[i] != 0 && kinds[i] != 1 {
            return false;
        }
        if names[i].is_some() {
            proof {
                assert(!nm[i as int].is_none());
            }
            return false;
        }
        i = i + 1;
    }
    true
}

proof fn lemma_paired_none(r: TypeResolver, left: Seq<TypeModel>, right: Seq<TypeModel>, direction: i64, so: bool, k: int, n: int)
    requires
        0 <= k <= n,
        paired_constraints(r, left, right, direction, so, k).is_none(),
    ensures
        paired_constraints(r, left, right, direction, so, n).is_none(),
    decreases n - k,
{
    if k < n {
        lemma_paired_none(r, left, right, direction, so, k + 1, n);
    }
}

fn append_constraints(out: &mut Vec<Constraint>, extra: &Vec<Constraint>)
    ensures
        constraints_model(final(out)@) == constraints_model(old(out)@) + constraints_model(extra@),
{
    let ghost start = out@;
    proof {
        assert(constraints_model(extra@.take(0)) =~= Seq::<ConstraintModel>::empty());
        assert(constraints_model(start) + Seq::<ConstraintModel>::empty() =~= constraints_model(start));
    }
    let mut i: usize = 0;
    while i < extra.len()
        invariant
            i <= extra@.len(),
            constraints_model(out@) == constraints_model(start) + constraints_model(extra@.take(i as int)),
        decreases extra@.len() - i,
    {
        let c = clone_constraint(&extra[i]);
        proof {
            assert(constraints_model(out@.push(c)) =~= constraints_model(out@).push(c@));
            assert(constraints_model(extra@.take(i + 1)) =~= constraints_model(extra@.take(i as int)).push(extra@[i as int]@));
        }
        out.push(c);
        i = i + 1;
    }
    proof {
        assert(extra@.take(extra@.len() as int) =~= extra@);
    }
}

/// Constraints between the arguments of two callables; see
/// [`callable_args_spec`].
pub fn infer_callable_arguments_constraints(
    template: &Type,
    actual: &Type,
    direction: i64,
    resolver: &TypeResolver,
    strict_optional: bool,
) -> (r: Option<Vec<Constraint>>)
    ensures
        match r {
            Some(v) => callable_args_spec(*resolver, template@, actual@, direction, strict_optional) == Some(constraints_model(v@)),
            None => callable_args_spec(*resolver, template@, actual@, direction, strict_optional).is_none(),
        },
{
    let (ta, tk, tn) = match template {
        Type::CallableType { arg_types, arg_kinds, arg_names, .. } => (arg_types, arg_kinds, arg_names),
        _ => {
            return None;
        },
    };
    let (aa, ak, an) = match actual {
        Type::CallableType { arg_types, arg_kinds, arg_names, .. } => (arg_types, arg_kinds, arg_names),
        _ => {
            return None;
        },
    };
    proof {
        assert(template@ matches TypeModel::CallableType { arg_types: x, arg_kinds: y, arg_names: z, .. }
            && x == types_model(ta@) && y == tk@ && z == crate::wire::opt_strs_model(tn@));
        assert(actual@ matches TypeModel::CallableType { arg_types: x, arg_kinds: y, arg_names: z, .. }
            && x == types_model(aa@) && y == ak@ && z == crate::wire::opt_strs_model(an@));
        lemma_types_model(ta@);
        lemma_types_model(aa@);
    }
    if !plain_positional_exec(tk, tn, ta) || !plain_positional_exec(ak, an, aa) {
        return None;
    }
    let (left, right) = if direction == SUBTYPE_OF {
        (ta, aa)
    } else {
        (aa, ta)
    };
    let ghost lm = types_model(left@);
    let ghost rm = types_model(right@);
    let n: usize = if ta.len() <= aa.len() {
        ta.len()
    } else {
        aa.len()
    };
    let mut out: Vec<Constraint> = Vec::new();
    proof {
        lemma_types_model(left@);
        lemma_types_model(right@);
        assert(constraints_model(out@) =~= Seq::<ConstraintModel>::empty());
        assert(n as int == min_int(types_model(ta@).len() as int, types_model(aa@).len() as int));
        assert(callable_args_spec(*resolver, template@, actual@, direction, strict_optional) == paired_constraints(*resolver, lm, rm, direction, strict_optional, n as int));
    }
    let mut i: usize = 0;
    while i < n
        invariant
            i <= n,
            n <= left@.len(),
            n <= right@.len(),
            lm == types_model(left@),
            rm == types_model(right@),
            forall|j: int| 0 <= j < left@.len() ==> #[trigger] lm[j] == left@[j]@,
            lm.len() == left@.len(),
            rm.len() == right@.len(),
            forall|j: int| 0 <= j < right@.len() ==> #[trigger] rm[j] == right@[j]@,
            callable_args_spec(*resolver, template@, actual@, direction, strict_optional) == paired_constraints(*resolver, lm, rm, direction, strict_optional, n as int),
            paired_constraints(*resolver, lm, rm, direction, strict_optional, i as int) == Some(constraints_model(out@)),
        decreases n - i,
    {
        match infer_directed_arg_constraints(&left[i], &right[i], direction, resolver, strict_optional) {
            None => {
                proof {
                    lemma_paired_none(*resolver, lm, rm, direction, strict_optional, i + 1, n as int);
                }
                return None;
            },
            Some(cs) => {
                append_constraints(&mut out, &cs);
            },
        }
        i = i + 1;
    }
    Some(out)
}

/// The options that count: for `eager`, the present and non-empty ones;
/// otherwise the present ones.
pub open spec fn valid_option(o: Option<Seq<ConstraintModel>>, eager: bool) -> bool {
    match o {
        None => false,
        Some(cs) => !eager || cs.len() > 0,
    }
}

/// The model of a list of options.
pub open spec fn options_model(v: Seq<Option<Vec<Constraint>>>) -> Seq<Option<Seq<ConstraintModel>>> {
    v.map_values(|o: Option<Vec<Constraint>>| match o {
        Some(cs) => Some(constraints_model(cs@)),
        None => None,
    })
}

/// Whether two constraints are the same: the same variable, the same
/// direction (or both against `Any`), and targets that are the same type.
/// `None` for an alias target read on the way, and where a question is
/// not decided.
pub open spec fn same_constraint_spec(r: TypeResolver, c1: ConstraintModel, c2: ConstraintModel, strict_optional: bool) -> Option<bool> {
    if c1.target is TypeAliasType || (c1.target is AnyType && c2.target is TypeAliasType) {
        None
    } else {
        match tv_id_eq(c1.origin_type_var, c2.origin_type_var) {
            None => None,
            Some(false) => Some(false),
            Some(true) => if c1.op != c2.op && !(c1.target is AnyType && c2.target is AnyType) {
                Some(false)
            } else {
                same_type_spec(r, c1.target, c2.target, true, strict_optional)
            },
        }
    }
}

/// Whether constraint `i` of `x` is surely the same as some constraint of
/// `y`.
pub open spec fn covered_at(r: TypeResolver, x: Seq<ConstraintModel>, y: Seq<ConstraintModel>, i: int, strict_optional: bool) -> bool {
    exists|j: int| 0 <= j < y.len() && #[trigger] same_constraint_spec(r, x[i], y[j], strict_optional) == Some(true)
}

/// Whether every constraint of `x` is surely the same as some constraint
/// of `y`.
pub open spec fn surely_covered(r: TypeResolver, x: Seq<ConstraintModel>, y: Seq<ConstraintModel>, strict_optional: bool) -> bool {
    forall|i: int| 0 <= i < x.len() ==> #[trigger] covered_at(r, x, y, i, strict_optional)
}

/// Whether two constraint lists are surely the same, each covering the
/// other.
pub open spec fn surely_same(r: TypeResolver, x: Seq<ConstraintModel>, y: Seq<ConstraintModel>, strict_optional: bool) -> bool {
    surely_covered(r, x, y, strict_optional) && surely_covered(r, y, x, strict_optional)
}

/// What a collection of candidate constraint lists implies, one of which
/// must hold: nothing when no option counts; the one option when exactly
/// one counts; the first when several count and all are surely the same
/// as it. `None` otherwise (options that differ are merged, filtered or
/// given up on, which is not decided here).
pub open spec fn any_constraints_spec(
    r: TypeResolver,
    options: Seq<Option<Seq<ConstraintModel>>>,
    eager: bool,
    strict_optional: bool,
) -> Option<Seq<ConstraintModel>> {
    let valid = options.filter(|o: Option<Seq<ConstraintModel>>| valid_option(o, eager));
    if valid.len() == 0 {
        Some(Seq::empty())
    } else if valid.len() == 1 {
        Some(valid[0].unwrap())
    } else if forall|k: int| 1 <= k < valid.len() ==> surely_same(r, valid[0].unwrap(), #[trigger] valid[k].unwrap(), strict_optional) {
        Some(valid[0].unwrap())
    } else {
        None
    }
}

fn same_constraint(r: &TypeResolver, c1: &Constraint, c2: &Constraint, strict_optional: bool) -> (v: Option<bool>)
    ensures
        v == same_constraint_spec(*r, c1@, c2@, strict_optional),
{
    let a1 = match &c1.target {
        Type::TypeAliasType { .. } => {
            return None;
        },
        Type::AnyType { .. } => true,
        _ => false,
    };
    let a2 = match &c2.target {
        Type::TypeAliasType { .. } => {
            if a1 {
                return None;
            }
            false
        },
        Type::AnyType { .. } => true,
        _ => false,
    };
    match tv_id_eq_exec(&c1.origin_type_var, &c2.origin_type_var) {
        None => None,
        Some(false) => Some(false),
        Some(true) => if c1.op != c2.op && !(a1 && a2) {
            Some(false)
        } else {
            is_same_type(&c1.target, &c2.target, true, strict_optional, r)
        },
    }
}

fn covered_exec(r: &TypeResolver, x: &Vec<Constraint>, y: &Vec<Constraint>, strict_optional: bool) -> (b: bool)
    ensures
        b == surely_covered(*r, constraints_model(x@), constraints_model(y@), strict_optional),
{
    let ghost xm = constraints_model(x@);
    let ghost ym = constraints_model(y@);
    let mut i: usize = 0;
    while i < x.len()
        invariant
            i <= x@.len(),
            xm == constraints_model(x@),
            ym == constraints_model(y@),
            xm.len() == x@.len(),
            ym.len() == y@.len(),
            forall|k: int| 0 <= k < i ==> #[trigger] covered_at(*r, xm, ym, k, strict_optional),
        decreases x@.len() - i,
    {
        let mut found = false;
        let mut j: usize = 0;
        while j < y.len() && !found
            invariant
                j <= y@.len(),
                i < x@.len(),
                xm == constraints_model(x@),
                ym == constraints_model(y@),
                xm.len() == x@.len(),
                ym.len() == y@.len(),
                found ==> covered_at(*r, xm, ym, i as int, strict_optional),
                !found ==> forall|jj: int| 0 <= jj < j ==> #[trigger] same_constraint_spec(*r, xm[i as int], ym[jj], strict_optional) != Some(true),
            decreases y@.len() - j + (if found { 0int } else { 1int }),
        {
            let v = same_constraint(r, &x[i], &y[j], strict_optional);
            proof {
                assert(xm[i as int] == x@[i as int]@);
                assert(ym[j as int] == y@[j as int]@);
            }
            if v == Some(true) {
                found = true;
            } else {
                j = j + 1;
            }
        }
        if !found {
            proof {
                assert(!covered_at(*r, xm, ym, i as int, strict_optional));
            }
            return false;
        }
        i = i + 1;
    }
    true
}

/// What a collection of candidate constraint lists implies; see
/// [`any_constraints_spec`].
pub fn any_constraints(
    options: Vec<Option<Vec<Constraint>>>,
    eager: bool,
    strict_optional: bool,
    resolver: &TypeResolver,
) -> (r: Option<Vec<Constraint>>)
    ensures
        match r {
            Some(v) => any_constraints_spec(*resolver, options_model(options@), eager, strict_optional) == Some(constraints_model(v@)),
            None => any_constraints_spec(*resolver, options_model(options@), eager, strict_optional).is_none(),
        },
{
    let ghost om = options_model(options@);
    let ghost f = |o: Option<Seq<ConstraintModel>>| valid_option(o, eager);
    let mut idx: Vec<usize> = Vec::new();
    let mut i: usize = 0;
    proof {
        assert(om.take(0).filter(f) =~= Seq::<Option<Seq<ConstraintModel>>>::empty());
        assert(idx@.map_values(|k: usize| om[k as int]) =~= Seq::<Option<Seq<ConstraintModel>>>::empty());
    }
    while i < options.len()
        invariant
            i <= options@.len(),
            om == options_model(options@),
            om.len() == options@.len(),
            f == (|o: Option<Seq<ConstraintModel>>| valid_option(o, eager)),
            forall|k: int| 0 <= k < idx@.len() ==> #[trigger] idx@[k] < i,
            om.take(i as int).filter(f) == idx@.map_values(|k: usize| om[k as int]),
        decreases options@.len() - i,
    {
        let valid = match &options[i] {
            None => false,
            Some(cs) => !eager || cs.len() > 0,
        };
        proof {
            assert(om[i as int] == match options@[i as int] {
                Some(cs) => Some(constraints_model(cs@)),
                None => None::<Seq<ConstraintModel>>,
            });
            assert(valid == f(om[i as int]));
            lemma_filter_step(om.take(i as int), f, om[i as int]);
            assert(om.take(i as int).push(om[i as int]) =~= om.take(i + 1));
        }
        if valid {
            proof {
                assert(idx@.push(i).map_values(|k: usize| om[k as int]) =~= idx@.map_values(|k: usize| om[k as int]).push(om[i as int]));
            }
            idx.push(i);
        }
        i = i + 1;
    }
    proof {
        assert(om.take(om.len() as int) =~= om);
    }
    let ghost valid_seq = om.filter(f);
    proof {
        assert(valid_seq.len() == idx@.len());
        assert forall|k: int| 0 <= k < idx@.len() implies #[trigger] valid_seq[k] == om[idx@[k] as int] by {}
        assert forall|k: int| 0 <= k < valid_seq.len() implies valid_option(#[trigger] valid_seq[k], eager) by {
            om.lemma_filter_pred(f, k);
        }
    }
    if idx.len() == 0 {
        let v: Vec<Constraint> = Vec::new();
        proof {
            assert(constraints_model(v@) =~= Seq::<ConstraintModel>::empty());
        }
        return Some(v);
    }
    let first = idx[0];
    let x = match &options[first] {
        Some(cs) => cs,
        None => {
            proof {
                assert(valid_option(valid_seq[0], eager));
            }
            return None;
        },
    };
    proof {
        assert(om[first as int] == Some(constraints_model(x@)));
    }
    let mut k: usize = 1;
    while k < idx.len()
        invariant
            1 <= k <= idx@.len(),
            om == options_model(options@),
            om.len() == options@.len(),
            f == (|o: Option<Seq<ConstraintModel>>| valid_option(o, eager)),
            valid_seq == om.filter(f),
            valid_seq.len() == idx@.len(),
            forall|q: int| 0 <= q < idx@.len() ==> #[trigger] idx@[q] < om.len(),
            forall|q: int| 0 <= q < idx@.len() ==> #[trigger] valid_seq[q] == om[idx@[q] as int],
            forall|q: int| 0 <= q < valid_seq.len() ==> valid_option(#[trigger] valid_seq[q], eager),
            valid_seq[0] == Some(constraints_model(x@)),
            forall|q: int| 1 <= q < k ==> surely_same(*resolver, valid_seq[0].unwrap(), #[trigger] valid_seq[q].unwrap(), strict_optional),
        decreases idx@.len() - k,
    {
        let y = match &options[idx[k]] {
            Some(cs) => cs,
            None => {
                proof {
                    assert(valid_option(valid_seq[k as int], eager));
                }
                return None;
            },
        };
        proof {
            assert(om[idx@[k as int] as int] == Some(constraints_model(y@)));
            assert(valid_seq[k as int] == Some(constraints_model(y@)));
        }
        let same = covered_exec(resolver, x, y, strict_optional) && covered_exec(resolver, y, x, strict_optional);
        if !same {
            proof {
                assert(!surely_same(*resolver, valid_seq[0].unwrap(), valid_seq[k as int].unwrap(), strict_optional));
            }
            return None;
        }
        k = k + 1;
    }
    let mut options = options;
    let picked = options.swap_remove(first);
    proof {
        assert(om[first as int] == match picked {
            Some(cs) => Some(constraints_model(cs@)),
            None => None::<Seq<ConstraintModel>>,
        });
    }
    match picked {
        Some(cs) => Some(cs),
        None => Some(Vec::new()),
    }
}

proof fn lemma_filter_step(s: Seq<Option<Seq<ConstraintModel>>>, f: spec_fn(Option<Seq<ConstraintModel>>) -> bool, x: Option<Seq<ConstraintModel>>)
    ensures
        s.push(x).filter(f) == if f(x) {
            s.filter(f).push(x)
        } else {
            s.filter(f)
        },
{
    reveal(Seq::filter);
    assert(s.push(x).drop_last() =~= s);
}


/// The model of a list of optional types.
pub open spec fn opt_types_model(v: Seq<Option<Type>>) -> Seq<Option<TypeModel>> {
    v.map_values(|o: Option<Type>| match o {
        Some(t) => Some(t@),
        None => None,
    })
}

fn clone_opt(o: &Option<Type>) -> (r: Option<Type>)
    ensures
        match r {
            Some(t) => *o matches Some(u) && t@ == u@,
            None => o.is_none(),
        },
{
    match o {
        Some(t) => Some(clone_type(t)),
        None => None,
    }
}

/// Whether a bound is a callable protocol: an instance of a protocol
/// class with a `__call__` member. `None` for an alias, and for an
/// instance whose class has no snapshot.
pub open spec fn callable_protocol_spec(r: TypeResolver, t: TypeModel) -> Option<bool> {
    match t {
        TypeModel::TypeAliasType { .. } => None,
        TypeModel::Instance { type_ref, .. } => match r.class_of(type_ref) {
            None => None,
            Some(cs) => Some(
                cs.is_protocol && exists|k: int| 0 <= k < cs.protocol_members@.len() && (#[trigger] cs.protocol_members@[k])@ == "__call__"@,
            ),
        },
        _ => Some(false),
    }
}

fn callable_protocol_exec(r: &TypeResolver, t: &Type) -> (v: Option<bool>)
    ensures
        v == callable_protocol_spec(*r, t@),
{
    match t {
        Type::TypeAliasType { .. } => None,
        Type::Instance { type_ref, .. } => match r.get(type_ref.as_str()) {
            None => None,
            Some(cs) => {
                if !cs.is_protocol {
                    return Some(false);
                }
                let mut k: usize = 0;
                while k < cs.protocol_members.len()
                    invariant
                        k <= cs.protocol_members@.len(),
                        cs.is_protocol,
                        r.class_of(type_ref@) == Some(*cs),
                        t@ matches TypeModel::Instance { type_ref: tr, .. } && tr == type_ref@,
                        forall|j: int| 0 <= j < k ==> (#[trigger] cs.protocol_members@[j])@ != "__call__"@,
                    decreases cs.protocol_members@.len() - k,
                {
                    if str_eq(cs.protocol_members[k].as_str(), "__call__") {
                        proof {
                            assert((cs.protocol_members@[k as int])@ == "__call__"@);
                        }
                        return Some(true);
                    }
                    k = k + 1;
                }
                Some(false)
            },
        },
        _ => Some(false),
    }
}

/// Whether upper bound `ub` satisfies constraint `c`: `ub <: target` for
/// `SUBTYPE_OF`, `target <: ub` for `SUPERTYPE_OF`, trivially otherwise.
pub open spec fn bound_fits(r: TypeResolver, ub: TypeModel, c: ConstraintModel, strict_optional: bool) -> Option<bool> {
    if c.op == SUBTYPE_OF {
        sub_spec(r, ub, c.target, plain_ctx(false, strict_optional), false)
    } else if c.op == SUPERTYPE_OF {
        sub_spec(r, c.target, ub, plain_ctx(false, strict_optional), false)
    } else {
        Some(true)
    }
}

/// The validated solution for one variable `t`: a solution outside the
/// variable's upper bound is replaced by the bound when the bound
/// satisfies every constraint; a callable-protocol bound, an absent
/// solution and a solution within the bound are kept. `None` for a
/// variable that is not a type variable, and where a question on the
/// path is not decided.
pub open spec fn validated_one(
    r: TypeResolver,
    s: Option<TypeModel>,
    t: TypeModel,
    cs: Seq<ConstraintModel>,
    strict_optional: bool,
) -> Option<Option<TypeModel>> {
    match t {
        TypeModel::TypeVarType { upper_bound, .. } => match callable_protocol_spec(r, *upper_bound) {
            None => None,
            Some(true) => Some(s),
            Some(false) => match s {
                None => Some(None),
                Some(st) => match sub_spec(r, st, *upper_bound, plain_ctx(false, strict_optional), false) {
                    None => None,
                    Some(true) => Some(s),
                    Some(false) => match all_verdict(cs.map_values(|c: ConstraintModel| bound_fits(r, *upper_bound, c, strict_optional))) {
                        None => None,
                        Some(true) => Some(Some(*upper_bound)),
                        Some(false) => Some(s),
                    },
                },
            },
        },
        _ => None,
    }
}

/// The first `n` validated solutions.
pub open spec fn validated_prefix(
    r: TypeResolver,
    res: Seq<Option<TypeModel>>,
    vars: Seq<TypeModel>,
    cs: Seq<ConstraintModel>,
    strict_optional: bool,
    n: int,
) -> Option<Seq<Option<TypeModel>>>
    decreases n,
{
    if n <= 0 {
        Some(Seq::empty())
    } else {
        match validated_prefix(r, res, vars, cs, strict_optional, n - 1) {
            None => None,
            Some(p) => match validated_one(r, res[n - 1], vars[n - 1], cs, strict_optional) {
                None => None,
                Some(v) => Some(p.push(v)),
            },
        }
    }
}

/// Solutions checked against their variables' upper bounds, pairing the
/// two lists as far as both go.
pub open spec fn pre_validate_spec(
    r: TypeResolver,
    res: Seq<Option<TypeModel>>,
    vars: Seq<TypeModel>,
    cs: Seq<ConstraintModel>,
    strict_optional: bool,
) -> Option<Seq<Option<TypeModel>>> {
    validated_prefix(r, res, vars, cs, strict_optional, min_int(res.len() as int, vars.len() as int))
}

proof fn lemma_validated_none(
    r: TypeResolver,
    res: Seq<Option<TypeModel>>,
    vars: Seq<TypeModel>,
    cs: Seq<ConstraintModel>,
    strict_optional: bool,
    k: int,
    n: int,
)
    requires
        0 <= k <= n,
        validated_prefix(r, res, vars, cs, strict_optional, k).is_none(),
    ensures
        validated_prefix(r, res, vars, cs, strict_optional, n).is_none(),
    decreases n - k,
{
    if k < n {
        lemma_validated_none(r, res, vars, cs, strict_optional, k + 1, n);
    }
}

fn bound_fits_all(r: &TypeResolver, ub: &Type, constraints: &[Constraint], strict_optional: bool) -> (v: Option<bool>)
    ensures
        v == all_verdict(constraints_model(constraints@).map_values(
            |c: ConstraintModel| bound_fits(*r, ub@, c, strict_optional),
        )),
{
    let ctx = SubtypeContext { strict_optional, ignore_promotions: false, ignore_type_params: false };
    let ghost cm = constraints_model(constraints@);
    let ghost vs = cm.map_values(|c: ConstraintModel| bound_fits(*r, ub@, c, strict_optional));
    let mut saw_false = false;
    let mut all_true = true;
    let mut i: usize = 0;
    while i < constraints.len()
        invariant
            i <= constraints@.len(),
            cm == constraints_model(constraints@),
            cm.len() == constraints@.len(),
            ctx == plain_ctx(false, strict_optional),
            vs == cm.map_values(|c: ConstraintModel| bound_fits(*r, ub@, c, strict_optional)),
            saw_false == exists|x: int| 0 <= x < i && vs[x] == Some(false),
            all_true == forall|x: int| 0 <= x < i ==> vs[x] == Some(true),
        decreases constraints@.len() - i,
    {
        let c = &constraints[i];
        let v = if c.op == SUBTYPE_OF {
            is_subtype(ub, &c.target, &ctx, r)
        } else if c.op == SUPERTYPE_OF {
            is_subtype(&c.target, ub, &ctx, r)
        } else {
            Some(true)
        };
        proof {
            assert(cm[i as int] == constraints@[i as int]@);
            assert(vs[i as int] == v);
        }
        if v == Some(false) {
            saw_false = true;
        }
        if v != Some(true) {
            all_true = false;
        }
        i = i + 1;
    }
    if saw_false {
        Some(false)
    } else if all_true {
        Some(true)
    } else {
        None
    }
}

fn validate_one(r: &TypeResolver, s: &Option<Type>, t: &Type, constraints: &[Constraint], strict_optional: bool) -> (v: Option<Option<Type>>)
    ensures
        match v {
            None => validated_one(*r, opt_model(*s), t@, constraints_model(constraints@), strict_optional).is_none(),
            Some(o) => validated_one(*r, opt_model(*s), t@, constraints_model(constraints@), strict_optional) == Some(opt_model(o)),
        },
{
    let ub = match t {
        Type::TypeVarType { upper_bound, .. } => upper_bound,
        _ => {
            return None;
        },
    };
    proof {
        assert(t@ matches TypeModel::TypeVarType { upper_bound: u, .. } && *u == type_model(**ub));
    }
    match callable_protocol_exec(r, ub) {
        None => {
            return None;
        },
        Some(true) => {
            return Some(clone_opt(s));
        },
        Some(false) => {},
    }
    let st = match s {
        None => {
            return Some(None);
        },
        Some(x) => x,
    };
    let ctx = SubtypeContext { strict_optional, ignore_promotions: false, ignore_type_params: false };
    match is_subtype(st, ub, &ctx, r) {
        None => None,
        Some(true) => Some(clone_opt(s)),
        Some(false) => match bound_fits_all(r, ub, constraints, strict_optional) {
            None => None,
            Some(true) => Some(Some(clone_type(ub))),
            Some(false) => Some(clone_opt(s)),
        },
    }
}

/// The model of an optional type.
pub open spec fn opt_model(o: Option<Type>) -> Option<TypeModel> {
    match o {
        Some(t) => Some(t@),
        None => None,
    }
}

/// Solutions checked against their variables' upper bounds; see
/// [`pre_validate_spec`].
pub fn pre_validate_solutions(
    res: Vec<Option<Type>>,
    original_vars: &[Type],
    constraints: &[Constraint],
    resolver: &TypeResolver,
    strict_optional: bool,
) -> (r: Option<Vec<Option<Type>>>)
    ensures
        match r {
            Some(v) => pre_validate_spec(*resolver, opt_types_model(res@), types_model(original_vars@), constraints_model(constraints@), strict_optional)
                == Some(opt_types_model(v@)),
            None => pre_validate_spec(*resolver, opt_types_model(res@), types_model(original_vars@), constraints_model(constraints@), strict_optional).is_none(),
        },
        r is Some ==> r.unwrap()@.len() == min_int(res@.len() as int, original_vars@.len() as int),
{
    let ghost rm = opt_types_model(res@);
    let ghost vm = types_model(original_vars@);
    let ghost cm = constraints_model(constraints@);
    proof {
        lemma_types_model(original_vars@);
    }
    let n: usize = if res.len() <= original_vars.len() {
        res.len()
    } else {
        original_vars.len()
    };
    let mut out: Vec<Option<Type>> = Vec::new();
    proof {
        assert(opt_types_model(out@) =~= Seq::<Option<TypeModel>>::empty());
    }
    let mut i: usize = 0;
    while i < n
        invariant
            i <= n,
            n as int == min_int(rm.len() as int, vm.len() as int),
            rm == opt_types_model(res@),
            rm.len() == res@.len(),
            vm == types_model(original_vars@),
            vm.len() == original_vars@.len(),
            forall|j: int| 0 <= j < original_vars@.len() ==> #[trigger] vm[j] == original_vars@[j]@,
            cm == constraints_model(constraints@),
            validated_prefix(*resolver, rm, vm, cm, strict_optional, i as int) == Some(opt_types_model(out@)),
            out@.len() == i,
        decreases n - i,
    {
        proof {
            assert(rm[i as int] == opt_model(res@[i as int]));
        }
        match validate_one(resolver, &res[i], &original_vars[i], constraints, strict_optional) {
            None => {
                proof {
                    lemma_validated_none(*resolver, rm, vm, cm, strict_optional, i + 1, n as int);
                }
                return None;
            },
            Some(o) => {
                proof {
                    assert(opt_types_model(out@.push(o)) =~= opt_types_model(out@).push(opt_model(o)));
                }
                out.push(o);
            },
        }
        i = i + 1;
    }
    Some(out)
}


/// A constraint the polymorphic solve decides here: on a type variable,
/// introducing no type variables, against an atom.
pub open spec fn solvable_constraint(c: ConstraintModel) -> bool {
    c.origin_type_var is TypeVarType && c.extra_tvars.len() == 0 && atom_of(c.target).is_some()
}

/// The targets of the constraints on variable `v` in direction `op`, in
/// order.
pub open spec fn bound_targets(cs: Seq<ConstraintModel>, v: TypeModel, op: i64) -> Seq<TypeModel>
    decreases cs.len(),
{
    if cs.len() == 0 {
        Seq::empty()
    } else {
        let p = bound_targets(cs.drop_last(), v, op);
        if tv_id_eq(cs.last().origin_type_var, v) == Some(true) && cs.last().op == op {
            p.push(cs.last().target)
        } else {
            p
        }
    }
}

/// The ambiguous `Never` that stands for "no constraint reached this
/// variable".
pub open spec fn ambiguous_never() -> TypeModel {
    TypeModel::UninhabitedType { ambiguous: true }
}

/// The solution from at most one lower and one upper bound: an ambiguous
/// `Never` upper bound is ignored; with neither bound, an ambiguous
/// `Never`; an `Any` bound (the upper one first) gives an `Any` derived
/// from it; one bound alone is the solution; with both, the lower bound
/// when it is a subtype of the upper, else no solution (`Some(None)`).
/// `None` where that subtype question is not decided.
pub open spec fn solve_one_spec(r: TypeResolver, lower: Option<TypeModel>, upper: Option<TypeModel>, strict_optional: bool) -> Option<Option<TypeModel>> {
    let top = match upper {
        Some(u) => if u == ambiguous_never() {
            None
        } else {
            upper
        },
        None => None,
    };
    if lower.is_none() && top.is_none() {
        Some(Some(ambiguous_never()))
    } else if top matches Some(TypeModel::AnyType { .. }) {
        Some(Some(any_from_another(top.unwrap())))
    } else if lower matches Some(TypeModel::AnyType { .. }) {
        Some(Some(any_from_another(lower.unwrap())))
    } else if lower.is_none() {
        Some(top)
    } else if top.is_none() {
        Some(lower)
    } else {
        match sub_spec(r, lower.unwrap(), top.unwrap(), plain_ctx(false, strict_optional), false) {
            None => None,
            Some(true) => Some(lower),
            Some(false) => Some(None),
        }
    }
}

/// The solution for variable `v`: from its one lower and one upper bound.
/// `None` when it has no bound (it would become a free variable) or more
/// than one in a direction (which needs joins and meets).
pub open spec fn var_solution(r: TypeResolver, cs: Seq<ConstraintModel>, v: TypeModel, strict_optional: bool) -> Option<Option<TypeModel>> {
    let lows = bound_targets(cs, v, SUPERTYPE_OF);
    let ups = bound_targets(cs, v, SUBTYPE_OF);
    if lows.len() + ups.len() == 0 || lows.len() > 1 || ups.len() > 1 {
        None
    } else {
        solve_one_spec(
            r,
            if lows.len() == 1 { Some(lows[0]) } else { None },
            if ups.len() == 1 { Some(ups[0]) } else { None },
            strict_optional,
        )
    }
}

/// The solutions of the first `n` variables.
pub open spec fn solutions_prefix(r: TypeResolver, vars: Seq<TypeModel>, cs: Seq<ConstraintModel>, strict_optional: bool, n: int) -> Option<
    Seq<Option<TypeModel>>,
>
    decreases n,
{
    if n <= 0 {
        Some(Seq::empty())
    } else {
        match solutions_prefix(r, vars, cs, strict_optional, n - 1) {
            None => None,
            Some(p) => match var_solution(r, cs, vars[n - 1], strict_optional) {
                None => None,
                Some(s) => Some(p.push(s)),
            },
        }
    }
}

/// The strict polymorphic solve on the shapes decided here: no variables
/// give no solutions; with no constraints every variable is an ambiguous
/// `Never`; otherwise each variable is solved from its own bounds; the
/// solutions are then checked against the upper bounds. `None` for a
/// variable that is not a type variable, a constraint that is not
/// solvable here, and where a variable's solution is not decided.
pub open spec fn solve_poly_spec(r: TypeResolver, vars: Seq<TypeModel>, cs: Seq<ConstraintModel>, strict_optional: bool) -> Option<Seq<Option<TypeModel>>> {
    if vars.len() == 0 {
        Some(Seq::empty())
    } else if exists|i: int| 0 <= i < vars.len() && !(#[trigger] vars[i] is TypeVarType) {
        None
    } else if exists|i: int| 0 <= i < cs.len() && !solvable_constraint(#[trigger] cs[i]) {
        None
    } else {
        let raw = if cs.len() == 0 {
            Some(Seq::new(vars.len(), |i: int| Some(ambiguous_never())))
        } else {
            solutions_prefix(r, vars, cs, strict_optional, vars.len() as int)
        };
        match raw {
            None => None,
            Some(res) => pre_validate_spec(r, res, vars, cs, strict_optional),
        }
    }
}

fn solve_one_exec(r: &TypeResolver, lower: Option<&Type>, upper: Option<&Type>, strict_optional: bool) -> (v: Option<Option<Type>>)
    ensures
        match v {
            None => solve_one_spec(*r, opt_ref_model(lower), opt_ref_model(upper), strict_optional).is_none(),
            Some(o) => solve_one_spec(*r, opt_ref_model(lower), opt_ref_model(upper), strict_optional) == Some(opt_model(o)),
        },
{
    let top: Option<&Type> = match upper {
        Some(u) => match u {
            Type::UninhabitedType { ambiguous } => if *ambiguous {
                None
            } else {
                upper
            },
            _ => {
                proof {
                    assert(u@ != ambiguous_never());
                }
                upper
            },
        },
        None => None,
    };
    proof {
        assert(opt_ref_model(top) == match opt_ref_model(upper) {
            Some(u) => if u == ambiguous_never() {
                None
            } else {
                opt_ref_model(upper)
            },
            None => None,
        });
    }
    if lower.is_none() && top.is_none() {
        return Some(Some(Type::UninhabitedType { ambiguous: true }));
    }
    if let Some(t) = top {
        if let Type::AnyType { .. } = t {
            return Some(Some(crate::standalone::expr::any_from_another_exec(t)));
        }
    }
    if let Some(l) = lower {
        if let Type::AnyType { .. } = l {
            return Some(Some(crate::standalone::expr::any_from_another_exec(l)));
        }
    }
    match (lower, top) {
        (None, Some(t)) => Some(Some(clone_type(t))),
        (Some(l), None) => Some(Some(clone_type(l))),
        (Some(l), Some(t)) => {
            let ctx = SubtypeContext { strict_optional, ignore_promotions: false, ignore_type_params: false };
            match is_subtype(l, t, &ctx, r) {
                None => None,
                Some(true) => Some(Some(clone_type(l))),
                Some(false) => Some(None),
            }
        },
        (None, None) => Some(Some(Type::UninhabitedType { ambiguous: true })),
    }
}

/// The model of an optional borrowed type.
pub open spec fn opt_ref_model(o: Option<&Type>) -> Option<TypeModel> {
    match o {
        Some(t) => Some(t@),
        None => None,
    }
}

fn var_solution_exec(r: &TypeResolver, constraints: &[Constraint], v: &Type, strict_optional: bool) -> (s: Option<Option<Type>>)
    requires
        v@ is TypeVarType,
        forall|i: int| 0 <= i < constraints@.len() ==> solvable_constraint(#[trigger] constraints_model(constraints@)[i]),
    ensures
        match s {
            None => var_solution(*r, constraints_model(constraints@), v@, strict_optional).is_none(),
            Some(o) => var_solution(*r, constraints_model(constraints@), v@, strict_optional) == Some(opt_model(o)),
        },
{
    let ghost cm = constraints_model(constraints@);
    let mut lows: usize = 0;
    let mut ups: usize = 0;
    let mut low: Option<&Type> = None;
    let mut up: Option<&Type> = None;
    proof {
        assert(cm.take(0) =~= Seq::<ConstraintModel>::empty());
    }
    let mut j: usize = 0;
    while j < constraints.len()
        invariant
            j <= constraints@.len(),
            cm == constraints_model(constraints@),
            cm.len() == constraints@.len(),
            v@ is TypeVarType,
            lows as int == bound_targets(cm.take(j as int), v@, SUPERTYPE_OF).len(),
            ups as int == bound_targets(cm.take(j as int), v@, SUBTYPE_OF).len(),
            lows <= j,
            ups <= j,
            lows >= 1 ==> low is Some && opt_ref_model(low) == Some(bound_targets(cm.take(j as int), v@, SUPERTYPE_OF)[0]),
            ups >= 1 ==> up is Some && opt_ref_model(up) == Some(bound_targets(cm.take(j as int), v@, SUBTYPE_OF)[0]),
        decreases constraints@.len() - j,
    {
        let c = &constraints[j];
        let same = tv_id_eq_exec(&c.origin_type_var, v) == Some(true);
        proof {
            assert(cm[j as int] == c@);
            assert(cm.take(j + 1).drop_last() =~= cm.take(j as int));
            assert(cm.take(j + 1).last() == cm[j as int]);
        }
        if same && c.op == SUPERTYPE_OF {
            if lows == 0 {
                low = Some(&c.target);
            }
            lows = lows + 1;
        }
        if same && c.op == SUBTYPE_OF {
            if ups == 0 {
                up = Some(&c.target);
            }
            ups = ups + 1;
        }
        j = j + 1;
    }
    proof {
        assert(cm.take(cm.len() as int) =~= cm);
    }
    if (lows == 0 && ups == 0) || lows > 1 || ups > 1 {
        return None;
    }
    let lower = if lows == 1 {
        low
    } else {
        None
    };
    let upper = if ups == 1 {
        up
    } else {
        None
    };
    solve_one_exec(r, lower, upper, strict_optional)
}

/// The strict polymorphic solve; see [`solve_poly_spec`]. The result
/// pairs with `original_vars`; `infer_unions` only matters for several
/// lower bounds, which are not decided here.
pub fn solve_constraints_polymorphic(
    original_vars: &[Type],
    constraints: &[Constraint],
    infer_unions: bool,
    strict_optional: bool,
    resolver: &TypeResolver,
) -> (r: Option<Vec<Option<Type>>>)
    ensures
        match r {
            Some(v) => solve_poly_spec(*resolver, types_model(original_vars@), constraints_model(constraints@), strict_optional)
                == Some(opt_types_model(v@)),
            None => solve_poly_spec(*resolver, types_model(original_vars@), constraints_model(constraints@), strict_optional).is_none(),
        },
        r is Some ==> r.unwrap()@.len() == original_vars@.len(),
{
    let ghost vm = types_model(original_vars@);
    let ghost cm = constraints_model(constraints@);
    proof {
        lemma_types_model(original_vars@);
    }
    if original_vars.len() == 0 {
        let v: Vec<Option<Type>> = Vec::new();
        proof {
            assert(opt_types_model(v@) =~= Seq::<Option<TypeModel>>::empty());
        }
        return Some(v);
    }
    let mut i: usize = 0;
    while i < original_vars.len()
        invariant
            i <= original_vars@.len(),
            vm == types_model(original_vars@),
            vm.len() == original_vars@.len(),
            forall|j: int| 0 <= j < original_vars@.len() ==> #[trigger] vm[j] == original_vars@[j]@,
            forall|j: int| 0 <= j < i ==> #[trigger] vm[j] is TypeVarType,
        decreases original_vars@.len() - i,
    {
        match &original_vars[i] {
            Type::TypeVarType { .. } => {},
            _ => {
                proof {
                    assert(!(vm[i as int] is TypeVarType));
                }
                return None;
            },
        }
        i = i + 1;
    }
    let mut k: usize = 0;
    while k < constraints.len()
        invariant
            k <= constraints@.len(),
            cm == constraints_model(constraints@),
            cm.len() == constraints@.len(),
            forall|j: int| 0 <= j < k ==> solvable_constraint(#[trigger] cm[j]),
            vm == types_model(original_vars@),
            vm.len() == original_vars@.len(),
            vm.len() > 0,
            forall|j: int| 0 <= j < original_vars@.len() ==> #[trigger] vm[j] is TypeVarType,
        decreases constraints@.len() - k,
    {
        let c = &constraints[k];
        proof {
            assert(cm[k as int] == c@);
            lemma_types_model(c.extra_tvars@);
        }
        let tv = match &c.origin_type_var {
            Type::TypeVarType { .. } => true,
            _ => false,
        };
        if !tv || c.extra_tvars.len() != 0 || atom_exec(&c.target).is_none() {
            proof {
                assert(!solvable_constraint(cm[k as int]));
            }
            return None;
        }
        k = k + 1;
    }
    let mut raw: Vec<Option<Type>> = Vec::new();
    proof {
        assert(opt_types_model(raw@) =~= Seq::<Option<TypeModel>>::empty());
    }
    if constraints.len() == 0 {
        let mut x: usize = 0;
        while x < original_vars.len()
            invariant
                x <= original_vars@.len(),
                raw@.len() == x,
                opt_types_model(raw@) == Seq::new(x as nat, |i: int| Some(ambiguous_never())),
            decreases original_vars@.len() - x,
        {
            let t = Type::UninhabitedType { ambiguous: true };
            proof {
                assert(opt_types_model(raw@.push(Some(t))) =~= opt_types_model(raw@).push(Some(t@)));
                assert(opt_types_model(raw@.push(Some(t))) =~= Seq::new((x + 1) as nat, |i: int| Some(ambiguous_never())));
            }
            raw.push(Some(t));
            x = x + 1;
        }
    } else {
        let mut x: usize = 0;
        while x < original_vars.len()
            invariant
                x <= original_vars@.len(),
                vm == types_model(original_vars@),
                vm.len() == original_vars@.len(),
                forall|j: int| 0 <= j < original_vars@.len() ==> #[trigger] vm[j] == original_vars@[j]@,
                forall|j: int| 0 <= j < original_vars@.len() ==> #[trigger] vm[j] is TypeVarType,
                cm == constraints_model(constraints@),
                forall|j: int| 0 <= j < constraints@.len() ==> solvable_constraint(#[trigger] cm[j]),
                cm.len() == constraints@.len(),
                constraints@.len() > 0,
                vm.len() > 0,
                solutions_prefix(*resolver, vm, cm, strict_optional, x as int) == Some(opt_types_model(raw@)),
                raw@.len() == x,
            decreases original_vars@.len() - x,
        {
            proof {
                assert(vm[x as int] is TypeVarType);
            }
            match var_solution_exec(resolver, constraints, &original_vars[x], strict_optional) {
                None => {
                    proof {
                        lemma_solutions_none(*resolver, vm, cm, strict_optional, x + 1, vm.len() as int);
                    }
                    return None;
                },
                Some(o) => {
                    proof {
                        assert(opt_types_model(raw@.push(o)) =~= opt_types_model(raw@).push(opt_model(o)));
                    }
                    raw.push(o);
                },
            }
            x = x + 1;
        }
    }
    pre_validate_solutions(raw, original_vars, constraints, resolver, strict_optional)
}

proof fn lemma_solutions_none(r: TypeResolver, vars: Seq<TypeModel>, cs: Seq<ConstraintModel>, strict_optional: bool, k: int, n: int)
    requires
        0 <= k <= n,
        solutions_prefix(r, vars, cs, strict_optional, k).is_none(),
    ensures
        solutions_prefix(r, vars, cs, strict_optional, n).is_none(),
    decreases n - k,
{
    if k < n {
        lemma_solutions_none(r, vars, cs, strict_optional, k + 1, n);
    }
}

} // verus!
