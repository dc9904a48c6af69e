//! Call checking: `check_call` dispatch, callable parameter queries, the
//! type-object gate, and the binding of actual arguments to formal
//! parameters, star arguments included.

use vstd::prelude::*;
use crate::text::str_eq;
use crate::query::{query, query_seq, run_query, run_query_vec, then_ask, BoolQuery};
use crate::standalone::types::{make_type_normalized_spec, make_type_type_normalized};
use crate::typeinfo::{is_metaclass, snapshot_is_metaclass, TypeResolver};
use crate::wire::{clone_kinds, clone_opt_strings, clone_opt_type, clone_type, clone_types, clone_opt_string, lemma_pairs_model, lemma_types_model, lemma_types_model_push, opt_str_model, opt_strs_model, pairs_model, strs_model, type_model, types_model, Type, TypeModel};

verus! {

/// `mypy.nodes.ArgKind`.
#[derive(Debug, Clone, Copy, PartialEq, Eq, Structural)]
pub enum ArgKind {
    /// `ARG_POS`: a required positional parameter, or a positional actual.
    Pos,
    /// `ARG_OPT`: a positional parameter with a default.
    Opt,
    /// `ARG_STAR`: `*args`.
    Star,
    /// `ARG_NAMED`: a required keyword parameter, or a `name=` actual.
    Named,
    /// `ARG_STAR2`: `**kwargs`.
    Star2,
    /// `ARG_NAMED_OPT`: a keyword parameter with a default.
    NamedOpt,
}

/// The `ArgKind.value` tag of each kind.
pub open spec fn kind_tag(k: ArgKind) -> i64 {
    match k {
        ArgKind::Pos => 0,
        ArgKind::Opt => 1,
        ArgKind::Star => 2,
        ArgKind::Named => 3,
        ArgKind::Star2 => 4,
        ArgKind::NamedOpt => 5,
    }
}

/// `ArgKind.is_positional(star)` on a raw tag.
pub open spec fn tag_is_positional(t: i64, star: bool) -> bool {
    t == 0 || t == 1 || (star && t == 2)
}

/// `ArgKind.is_named(star)` on a raw tag.
pub open spec fn tag_is_named(t: i64, star: bool) -> bool {
    t == 3 || t == 5 || (star && t == 4)
}

/// `ArgKind.is_star()` on a raw tag.
pub open spec fn tag_is_star(t: i64) -> bool {
    t == 2 || t == 4
}

/// `ArgKind.is_required()` on a raw tag.
pub open spec fn tag_is_required(t: i64) -> bool {
    t == 0 || t == 3
}

/// `ArgKind.is_optional()` on a raw tag.
pub open spec fn tag_is_optional(t: i64) -> bool {
    t == 1 || t == 5
}

impl ArgKind {
    /// The `mypy.nodes.ArgKind.value` tag.
    pub fn as_i64(self) -> (r: i64)
        ensures
            r == kind_tag(self),
    {
        match self {
            ArgKind::Pos => 0,
            ArgKind::Opt => 1,
            ArgKind::Star => 2,
            ArgKind::Named => 3,
            ArgKind::Star2 => 4,
            ArgKind::NamedOpt => 5,
        }
    }

    /// Inverse of [`ArgKind::as_i64`]: `None` for a tag outside `0..=5`.
    pub fn from_i64(tag: i64) -> (r: Option<ArgKind>)
        ensures
            r.is_some() == (0 <= tag <= 5),
            r.is_some() ==> kind_tag(r.unwrap()) == tag,
    {
        match tag {
            0 => Some(ArgKind::Pos),
            1 => Some(ArgKind::Opt),
            2 => Some(ArgKind::Star),
            3 => Some(ArgKind::Named),
            4 => Some(ArgKind::Star2),
            5 => Some(ArgKind::NamedOpt),
            _ => None,
        }
    }

    /// `ArgKind.is_positional(star)`.
    pub fn is_positional(self, star: bool) -> (r: bool)
        ensures
            r == tag_is_positional(kind_tag(self), star),
    {
        match self {
            ArgKind::Pos | ArgKind::Opt => true,
            ArgKind::Star => star,
            _ => false,
        }
    }

    /// `ArgKind.is_named(star)`: with `star` set, "named or `**kwargs`".
    pub fn is_named(self, star: bool) -> (r: bool)
        ensures
            r == tag_is_named(kind_tag(self), star),
    {
        match self {
            ArgKind::Named | ArgKind::NamedOpt => true,
            ArgKind::Star2 => star,
            _ => false,
        }
    }

    /// `ArgKind.is_star()`.
    pub fn is_star(self) -> (r: bool)
        ensures
            r == tag_is_star(kind_tag(self)),
    {
        match self {
            ArgKind::Star | ArgKind::Star2 => true,
            _ => false,
        }
    }

    /// `ArgKind.is_required()`.
    pub fn is_required(self) -> (r: bool)
        ensures
            r == tag_is_required(kind_tag(self)),
    {
        match self {
            ArgKind::Pos | ArgKind::Named => true,
            _ => false,
        }
    }

    /// `ArgKind.is_optional()`.
    pub fn is_optional(self) -> (r: bool)
        ensures
            r == tag_is_optional(kind_tag(self)),
    {
        match self {
            ArgKind::Opt | ArgKind::NamedOpt => true,
            _ => false,
        }
    }
}

/// The tag `classify_call` answers a plain `CallableType` with.
pub const CALL_PLAIN: i64 = 0;
/// The tag for a `CallableType` with type variables.
pub const CALL_WITH_VARS: i64 = 1;
/// The tag for an `Overloaded`.
pub const CALL_OVERLOADED: i64 = 2;
/// The tag for `Any`.
pub const CALL_ANY: i64 = 3;
/// The tag for a union.
pub const CALL_UNION: i64 = 4;
/// The tag for an `Instance`.
pub const CALL_INSTANCE: i64 = 5;
/// The tag for a `TypeType`.
pub const CALL_TYPE_TYPE: i64 = 6;

/// The `check_call` dispatch branch a callee type takes.
#[derive(Debug, Clone, Copy, PartialEq, Eq, Structural)]
pub enum CallDispatch {
    /// A `CallableType` with no type variables: check it directly.
    PlainCallable,
    /// A `CallableType` with type variables: infer them, then check.
    GenericCallable,
    /// An `Overloaded`: pick an item, then check that item.
    Overloaded,
    /// `Any`: the call is unchecked.
    Any,
    /// A union: `check_union_call` checks each item.
    Union,
    /// An `Instance`: routes to `__call__` member access.
    Instance,
    /// A `TypeType`: falls through to member access.
    TypeType,
    /// Anything else: mypy reports it as not callable.
    Other,
}

/// The dispatch branch named by a `CALL_*` tag.
pub open spec fn dispatch_of_tag(tag: i64) -> CallDispatch {
    if tag == CALL_PLAIN {
        CallDispatch::PlainCallable
    } else if tag == CALL_WITH_VARS {
        CallDispatch::GenericCallable
    } else if tag == CALL_OVERLOADED {
        CallDispatch::Overloaded
    } else if tag == CALL_ANY {
        CallDispatch::Any
    } else if tag == CALL_UNION {
        CallDispatch::Union
    } else if tag == CALL_INSTANCE {
        CallDispatch::Instance
    } else if tag == CALL_TYPE_TYPE {
        CallDispatch::TypeType
    } else {
        CallDispatch::Other
    }
}

impl CallDispatch {
    /// The branch a `CALL_*` tag names; an unknown tag is `Other`.
    pub fn from_i64(tag: i64) -> (r: CallDispatch)
        ensures
            r == dispatch_of_tag(tag),
    {
        if tag == CALL_PLAIN {
            CallDispatch::PlainCallable
        } else if tag == CALL_WITH_VARS {
            CallDispatch::GenericCallable
        } else if tag == CALL_OVERLOADED {
            CallDispatch::Overloaded
        } else if tag == CALL_ANY {
            CallDispatch::Any
        } else if tag == CALL_UNION {
            CallDispatch::Union
        } else if tag == CALL_INSTANCE {
            CallDispatch::Instance
        } else if tag == CALL_TYPE_TYPE {
            CallDispatch::TypeType
        } else {
            CallDispatch::Other
        }
    }
}

/// The `isinstance` chain at the head of `check_call`, over the model.
pub open spec fn call_dispatch(t: TypeModel) -> CallDispatch {
    match t {
        TypeModel::CallableType { variables, .. } => if variables.len() == 0 {
            CallDispatch::PlainCallable
        } else {
            CallDispatch::GenericCallable
        },
        TypeModel::Overloaded { .. } => CallDispatch::Overloaded,
        TypeModel::AnyType { .. } => CallDispatch::Any,
        TypeModel::UnionType { .. } => CallDispatch::Union,
        TypeModel::Instance { .. } => CallDispatch::Instance,
        TypeModel::TypeType { .. } => CallDispatch::TypeType,
        _ => CallDispatch::Other,
    }
}

/// Which branch of call checking a callee type takes.
/// Total: a shape the chain does not name is [`CallDispatch::Other`].
pub fn classify_call(callee: &Type) -> (r: CallDispatch)
    ensures
        r == call_dispatch(callee@),
{
    proof {
        reveal_with_fuel(types_model, 1);
    }
    match callee {
        Type::CallableType { variables, .. } => {
            proof {
                lemma_types_model(variables@);
            }
            if variables.len() == 0 {
                CallDispatch::PlainCallable
            } else {
                CallDispatch::GenericCallable
            }
        },
        Type::Overloaded { .. } => CallDispatch::Overloaded,
        Type::AnyType { .. } => CallDispatch::Any,
        Type::UnionType { .. } => CallDispatch::Union,
        Type::Instance { .. } => CallDispatch::Instance,
        Type::TypeType { .. } => CallDispatch::TypeType,
        _ => CallDispatch::Other,
    }
}

/// The type-object failure arm of `check_callable_call`.
#[derive(Debug, Clone, Copy, PartialEq, Eq, Structural)]
pub enum TypeobjGate {
    /// No failure: the call proceeds.
    Pass,
    /// mypy's `CANNOT_INSTANTIATE_PROTOCOL`.
    Protocol,
    /// mypy's `cannot_instantiate_abstract_class`.
    Abstract,
}

/// The callee facts the type-object gate reads.
#[derive(Debug, Clone, Copy, PartialEq, Eq)]
pub struct TypeobjFacts {
    /// `callee.is_type_obj()`.
    pub is_type_obj: bool,
    /// `callee.type_object().is_protocol`.
    pub is_protocol: bool,
    /// `callee.type_object().is_abstract`.
    pub is_abstract: bool,
    /// `callee.from_type_type`: the `Type[...]` exemption.
    pub from_type_type: bool,
    /// `callee.type_object().fallback_to_any`: the `Any`-base exemption.
    pub fallback_to_any: bool,
}

/// Which refusal applies: a type object not exempt through `Type[...]` or
/// an `Any` base is refused as a protocol first, then as an abstract
/// class.
pub open spec fn typeobj_gate(f: TypeobjFacts) -> TypeobjGate {
    let exempt = f.from_type_type || f.fallback_to_any;
    if f.is_type_obj && f.is_protocol && !exempt {
        TypeobjGate::Protocol
    } else if f.is_type_obj && f.is_abstract && !exempt {
        TypeobjGate::Abstract
    } else {
        TypeobjGate::Pass
    }
}

/// The type-object failure arm of `check_callable_call`.
pub fn classify_typeobj_gate(facts: &TypeobjFacts) -> (r: TypeobjGate)
    ensures
        r == typeobj_gate(*facts),
{
    let exempt = facts.from_type_type || facts.fallback_to_any;
    if facts.is_type_obj && facts.is_protocol && !exempt {
        TypeobjGate::Protocol
    } else if facts.is_type_obj && facts.is_abstract && !exempt {
        TypeobjGate::Abstract
    } else {
        TypeobjGate::Pass
    }
}


/// One callable parameter, looked up by name or by position
/// (`mypy.types.FormalArgument`).
#[derive(Debug, PartialEq)]
pub struct FormalArgument {
    /// The parameter's name, when it has one.
    pub name: Option<String>,
    /// The positional index, when it can be passed positionally.
    pub pos: Option<usize>,
    /// The parameter's declared type.
    pub typ: Type,
    /// Whether an actual is required (`ArgKind.is_required()`).
    pub required: bool,
}

/// The model of a [`FormalArgument`].
pub struct FormalArgModel {
    pub name: Option<Seq<char>>,
    pub pos: Option<int>,
    pub typ: TypeModel,
    pub required: bool,
}

pub open spec fn opt_usize_model(p: Option<usize>) -> Option<int> {
    match p {
        Some(x) => Some(x as int),
        None => None,
    }
}

impl View for FormalArgument {
    type V = FormalArgModel;

    open spec fn view(&self) -> FormalArgModel {
        FormalArgModel {
            name: opt_str_model(self.name),
            pos: opt_usize_model(self.pos),
            typ: self.typ@,
            required: self.required,
        }
    }
}

impl Clone for FormalArgument {
    fn clone(&self) -> (r: Self)
        ensures
            r@ == self@,
    {
        FormalArgument {
            name: clone_opt_string(&self.name),
            pos: self.pos,
            typ: clone_type(&self.typ),
            required: self.required,
        }
    }
}

/// The outcome of [`callable_corresponding_argument`].
#[derive(Debug, Clone, PartialEq)]
pub enum CorrespondingArgument {
    /// The corresponding parameter.
    Found(FormalArgument),
    /// Neither the by-name nor the by-position lookup produced one.
    Absent,
    /// Producing one needs `meet_types` of the two candidates, which this
    /// layer does not decide; the caller must reject, not guess.
    Undecidable,
}

/// The model of a [`CorrespondingArgument`].
pub enum CorrespondingModel {
    Found(FormalArgModel),
    Absent,
    Undecidable,
}

impl View for CorrespondingArgument {
    type V = CorrespondingModel;

    open spec fn view(&self) -> CorrespondingModel {
        match self {
            CorrespondingArgument::Found(a) => CorrespondingModel::Found(a@),
            CorrespondingArgument::Absent => CorrespondingModel::Absent,
            CorrespondingArgument::Undecidable => CorrespondingModel::Undecidable,
        }
    }
}

/// The `CallableType` fields the call kernel reads, borrowed.
#[derive(Debug, Clone)]
pub struct CallableSignature<'a> {
    /// `callee.arg_types`.
    pub arg_types: &'a [Type],
    /// `callee.arg_kinds` as raw `ArgKind.value` tags.
    pub arg_kinds: &'a [i64],
    /// `callee.arg_names`.
    pub arg_names: &'a [Option<String>],
    /// `callee.ret_type`.
    pub ret_type: &'a Type,
    /// `callee.is_ellipsis_args`: the `Callable[..., X]` shape.
    pub is_ellipsis_args: bool,
    /// `callee.implicit`.
    pub implicit: bool,
    /// `callee.from_concatenate`.
    pub from_concatenate: bool,
    /// `callee.imprecise_arg_kinds`.
    pub imprecise_arg_kinds: bool,
    /// `callee.unpack_kwargs`.
    pub unpack_kwargs: bool,
    /// `callee.type_guard` payload.
    pub type_guard: Option<&'a Type>,
    /// `callee.type_is` payload.
    pub type_is: Option<&'a Type>,
}

pub open spec fn min2(a: int, b: int) -> int {
    if a <= b { a } else { b }
}

impl<'a> CallableSignature<'a> {
    /// The number of parameters the name and position queries walk: the
    /// shortest of the three parallel lists.
    pub open spec fn param_count(&self) -> int {
        min2(min2(self.arg_types@.len() as int, self.arg_kinds@.len() as int), self.arg_names@.len() as int)
    }

    /// The number of parameters `var_arg` / `kw_arg` walk.
    pub open spec fn typed_count(&self) -> int {
        min2(self.arg_types@.len() as int, self.arg_kinds@.len() as int)
    }

    /// `arg_kinds[i]` as a typed [`ArgKind`]; `None` when the index is out
    /// of range or the tag is not an `ArgKind.value`.
    pub fn arg_kind(&self, i: usize) -> (r: Option<ArgKind>)
        ensures
            r.is_some() == (i < self.arg_kinds@.len() && 0 <= self.arg_kinds@[i as int] <= 5),
            r.is_some() ==> kind_tag(r.unwrap()) == self.arg_kinds@[i as int],
    {
        if i < self.arg_kinds.len() {
            ArgKind::from_i64(self.arg_kinds[i])
        } else {
            None
        }
    }

    /// The parameters as [`FormalParam`] records, pairing kinds with names.
    /// `None` when a kind tag is not an `ArgKind.value`.
    pub fn formal_params(&self) -> (r: Option<Vec<FormalParam>>)
        ensures
            ({
                let m = min2(self.arg_kinds@.len() as int, self.arg_names@.len() as int);
                &&& r.is_some() == (forall|i: int| 0 <= i < m ==> 0 <= #[trigger] self.arg_kinds@[i] <= 5)
                &&& r.is_some() ==> r.unwrap()@.len() == m
                &&& r.is_some() ==> forall|i: int| 0 <= i < m ==> {
                    &&& kind_tag(#[trigger] r.unwrap()@[i].kind) == self.arg_kinds@[i]
                    &&& opt_str_model(r.unwrap()@[i].name) == opt_str_model(self.arg_names@[i])
                }
            }),
    {
        let m = if self.arg_kinds.len() <= self.arg_names.len() {
            self.arg_kinds.len()
        } else {
            self.arg_names.len()
        };
        let mut out: Vec<FormalParam> = Vec::new();
        let mut i: usize = 0;
        while i < m
            invariant
                m == min2(self.arg_kinds@.len() as int, self.arg_names@.len() as int),
                i <= m,
                out@.len() == i,
                forall|j: int| 0 <= j < i ==> 0 <= #[trigger] self.arg_kinds@[j] <= 5,
                forall|j: int| 0 <= j < i ==> {
                    &&& kind_tag(#[trigger] out@[j].kind) == self.arg_kinds@[j]
                    &&& opt_str_model(out@[j].name) == opt_str_model(self.arg_names@[j])
                },
            decreases m - i,
        {
            match ArgKind::from_i64(self.arg_kinds[i]) {
                Some(kind) => {
                    out.push(FormalParam { kind, name: clone_opt_string(&self.arg_names[i]) });
                },
                None => {
                    return None;
                },
            }
            i = i + 1;
        }
        Some(out)
    }
}

/// One actual argument at a call site.
#[derive(Debug, Clone, PartialEq, Eq)]
pub struct ActualArg {
    /// `arg_kinds[i]`.
    pub kind: ArgKind,
    /// `arg_names[i]`: the `name=` of a keyword actual, else `None`.
    pub name: Option<String>,
}

impl ActualArg {
    /// A positional actual (`ARG_POS`).
    pub fn positional() -> (r: ActualArg)
        ensures
            r.kind == ArgKind::Pos,
            r.name.is_none(),
    {
        ActualArg { kind: ArgKind::Pos, name: None }
    }

    /// A keyword actual `name=` (`ARG_NAMED`).
    pub fn named(name: &str) -> (r: ActualArg)
        ensures
            r.kind == ArgKind::Named,
            r.name.is_some() && r.name.unwrap()@ == name@,
    {
        ActualArg { kind: ArgKind::Named, name: Some(name.to_owned()) }
    }

    /// A `*args` actual (`ARG_STAR`).
    pub fn star() -> (r: ActualArg)
        ensures
            r.kind == ArgKind::Star,
            r.name.is_none(),
    {
        ActualArg { kind: ArgKind::Star, name: None }
    }

    /// A `**kwargs` actual (`ARG_STAR2`).
    pub fn star2() -> (r: ActualArg)
        ensures
            r.kind == ArgKind::Star2,
            r.name.is_none(),
    {
        ActualArg { kind: ArgKind::Star2, name: None }
    }
}

/// One formal parameter of a callee.
#[derive(Debug, Clone, PartialEq, Eq)]
pub struct FormalParam {
    /// `callee.arg_kinds[i]`.
    pub kind: ArgKind,
    /// `callee.arg_names[i]`.
    pub name: Option<String>,
}

impl FormalParam {
    /// A parameter of `kind`.
    pub fn new(kind: ArgKind, name: Option<String>) -> (r: FormalParam)
        ensures
            r.kind == kind,
            r.name == name,
    {
        FormalParam { kind, name }
    }

    /// A required positional parameter called `name`.
    pub fn positional(name: &str) -> (r: FormalParam)
        ensures
            r.kind == ArgKind::Pos,
            r.name.is_some() && r.name.unwrap()@ == name@,
    {
        FormalParam::new(ArgKind::Pos, Some(name.to_owned()))
    }
}

/// The `CallableType` fields the call kernel reads. `None` when `callee`
/// is not a `CallableType`.
pub fn callable_signature(callee: &Type) -> (r: Option<CallableSignature<'_>>)
    ensures
        match *callee {
            Type::CallableType {
                arg_types,
                arg_kinds,
                arg_names,
                ret_type,
                is_ellipsis_args,
                implicit,
                from_concatenate,
                imprecise_arg_kinds,
                unpack_kwargs,
                type_guard,
                type_is,
                ..
            } => r.is_some() && {
                let sig = r.unwrap();
                &&& sig.arg_types@ == arg_types@
                &&& sig.arg_kinds@ == arg_kinds@
                &&& sig.arg_names@ == arg_names@
                &&& *sig.ret_type == *ret_type
                &&& sig.is_ellipsis_args == is_ellipsis_args
                &&& sig.implicit == implicit
                &&& sig.from_concatenate == from_concatenate
                &&& sig.imprecise_arg_kinds == imprecise_arg_kinds
                &&& sig.unpack_kwargs == unpack_kwargs
                &&& sig.type_guard.is_some() == type_guard.is_some()
                &&& type_guard.is_some() ==> *sig.type_guard.unwrap() == *type_guard.unwrap()
                &&& sig.type_is.is_some() == type_is.is_some()
                &&& type_is.is_some() ==> *sig.type_is.unwrap() == *type_is.unwrap()
            },
            _ => r.is_none(),
        },
{
    match callee {
        Type::CallableType {
            arg_types,
            arg_kinds,
            arg_names,
            ret_type,
            is_ellipsis_args,
            implicit,
            from_concatenate,
            imprecise_arg_kinds,
            unpack_kwargs,
            type_guard,
            type_is,
            ..
        } => {
            let tg: Option<&Type> = match type_guard {
                Some(b) => Some(&**b),
                None => None,
            };
            let ti: Option<&Type> = match type_is {
                Some(b) => Some(&**b),
                None => None,
            };
            Some(CallableSignature {
                arg_types: arg_types.as_slice(),
                arg_kinds: arg_kinds.as_slice(),
                arg_names: arg_names.as_slice(),
                ret_type: &**ret_type,
                is_ellipsis_args: *is_ellipsis_args,
                implicit: *implicit,
                from_concatenate: *from_concatenate,
                imprecise_arg_kinds: *imprecise_arg_kinds,
                unpack_kwargs: *unpack_kwargs,
                type_guard: tg,
                type_is: ti,
            })
        },
        _ => None,
    }
}


/// The first index in `start..n` whose kind tag is `tag`.
pub open spec fn first_kind_from(kinds: Seq<i64>, n: int, tag: i64, start: int) -> Option<int>
    decreases n - start,
{
    if start >= n {
        None
    } else if kinds[start] == tag {
        Some(start)
    } else {
        first_kind_from(kinds, n, tag, start + 1)
    }
}

/// Whether a parameter at or before index `i` is named or starred: from
/// there on no parameter is passed positionally.
pub open spec fn done_with_positional(kinds: Seq<i64>, i: int) -> bool {
    exists|j: int| 0 <= j <= i && (tag_is_named(#[trigger] kinds[j], false) || tag_is_star(kinds[j]))
}

/// The first star parameter of kind `tag` as a formal argument.
pub open spec fn star_param_spec(sig: CallableSignature, tag: i64) -> Option<FormalArgModel> {
    match first_kind_from(sig.arg_kinds@, sig.typed_count(), tag, 0) {
        Some(i) => Some(
            FormalArgModel { name: None, pos: Some(i), typ: sig.arg_types@[i]@, required: false },
        ),
        None => None,
    }
}

/// `CallableType.try_synthesizing_arg_from_kwarg`: any name maps to the
/// `**kwargs` type.
pub open spec fn kwarg_synth_spec(sig: CallableSignature, name: Option<Seq<char>>) -> Option<FormalArgModel> {
    match star_param_spec(sig, 4) {
        Some(kw) => Some(FormalArgModel { name: name, pos: None, typ: kw.typ, required: false }),
        None => None,
    }
}

/// `CallableType.try_synthesizing_arg_from_vararg`: any position maps to
/// the `*args` type.
pub open spec fn vararg_synth_spec(sig: CallableSignature, pos: Option<int>) -> Option<FormalArgModel> {
    match star_param_spec(sig, 2) {
        Some(va) => Some(FormalArgModel { name: None, pos: pos, typ: va.typ, required: false }),
        None => None,
    }
}

/// The formal arguments of the first `k` parameters
/// (`CallableType.formal_arguments`, star parameters left out).
pub open spec fn formal_args_upto(sig: CallableSignature, k: int) -> Seq<FormalArgModel>
    decreases k,
{
    if k <= 0 {
        Seq::empty()
    } else {
        let i = k - 1;
        let prev = formal_args_upto(sig, i);
        if tag_is_star(sig.arg_kinds@[i]) {
            prev
        } else {
            prev.push(
                FormalArgModel {
                    name: opt_str_model(sig.arg_names@[i]),
                    pos: if done_with_positional(sig.arg_kinds@, i) { None } else { Some(i) },
                    typ: sig.arg_types@[i]@,
                    required: tag_is_required(sig.arg_kinds@[i]),
                },
            )
        }
    }
}

/// The first non-star parameter in `start..param_count` called `name`.
pub open spec fn name_index_from(sig: CallableSignature, name: Seq<char>, start: int) -> Option<int>
    decreases sig.param_count() - start,
{
    if start >= sig.param_count() {
        None
    } else if !tag_is_star(sig.arg_kinds@[start]) && opt_str_model(sig.arg_names@[start]) == Some(name) {
        Some(start)
    } else {
        name_index_from(sig, name, start + 1)
    }
}

/// `CallableType.argument_by_name`.
pub open spec fn argument_by_name_spec(sig: CallableSignature, name: Seq<char>) -> Option<FormalArgModel> {
    match name_index_from(sig, name, 0) {
        Some(i) => Some(
            FormalArgModel {
                name: Some(name),
                pos: if done_with_positional(sig.arg_kinds@, i) { None } else { Some(i) },
                typ: sig.arg_types@[i]@,
                required: tag_is_required(sig.arg_kinds@[i]),
            },
        ),
        None => kwarg_synth_spec(sig, Some(name)),
    }
}

/// `CallableType.argument_by_position`.
pub open spec fn argument_by_position_spec(sig: CallableSignature, p: int) -> Option<FormalArgModel> {
    if p >= sig.param_count() || !tag_is_positional(sig.arg_kinds@[p], false) {
        vararg_synth_spec(sig, Some(p))
    } else {
        Some(
            FormalArgModel {
                name: opt_str_model(sig.arg_names@[p]),
                pos: Some(p),
                typ: sig.arg_types@[p]@,
                required: sig.arg_kinds@[p] == 0,
            },
        )
    }
}

/// `typeops.callable_corresponding_argument`, with the `meet_types`
/// merge reported as undecidable.
pub open spec fn corresponding_spec(sig: CallableSignature, model: FormalArgModel) -> CorrespondingModel {
    let by_name = match model.name {
        Some(n) => argument_by_name_spec(sig, n),
        None => None,
    };
    let by_pos = match model.pos {
        Some(p) => argument_by_position_spec(sig, p),
        None => None,
    };
    match (by_name, by_pos) {
        (None, None) => CorrespondingModel::Absent,
        (Some(a), None) => CorrespondingModel::Found(a),
        (None, Some(b)) => CorrespondingModel::Found(b),
        (Some(a), Some(b)) => if a == b {
            CorrespondingModel::Found(a)
        } else if !(a.required || b.required) && b.name.is_none() && a.pos.is_none() {
            CorrespondingModel::Undecidable
        } else {
            CorrespondingModel::Found(a)
        },
    }
}

fn first_kind_index(kinds: &[i64], n: usize, tag: i64) -> (r: Option<usize>)
    requires
        n <= kinds@.len(),
    ensures
        opt_usize_model(r) == first_kind_from(kinds@, n as int, tag, 0),
        r.is_some() ==> r.unwrap() < n,
{
    let mut i: usize = 0;
    while i < n
        invariant
            n <= kinds@.len(),
            i <= n,
            first_kind_from(kinds@, n as int, tag, 0) == first_kind_from(kinds@, n as int, tag, i as int),
        decreases n - i,
    {
        if kinds[i] == tag {
            return Some(i);
        }
        i = i + 1;
    }
    None
}

fn typed_count(sig: &CallableSignature<'_>) -> (r: usize)
    ensures
        r == sig.typed_count(),
{
    if sig.arg_types.len() <= sig.arg_kinds.len() {
        sig.arg_types.len()
    } else {
        sig.arg_kinds.len()
    }
}

fn param_count(sig: &CallableSignature<'_>) -> (r: usize)
    ensures
        r == sig.param_count(),
{
    let t = typed_count(sig);
    if t <= sig.arg_names.len() {
        t
    } else {
        sig.arg_names.len()
    }
}

fn star_param(sig: &CallableSignature<'_>, tag: i64) -> (r: Option<FormalArgument>)
    ensures
        r.is_some() == star_param_spec(*sig, tag).is_some(),
        r.is_some() ==> r.unwrap()@ == star_param_spec(*sig, tag).unwrap(),
{
    let n = typed_count(sig);
    match first_kind_index(sig.arg_kinds, n, tag) {
        Some(i) => Some(FormalArgument { name: None, pos: Some(i), typ: clone_type(&sig.arg_types[i]), required: false }),
        None => None,
    }
}

/// `CallableType.var_arg`: the first `*args` parameter.
pub fn var_arg(sig: &CallableSignature<'_>) -> (r: Option<FormalArgument>)
    ensures
        r.is_some() == star_param_spec(*sig, 2).is_some(),
        r.is_some() ==> r.unwrap()@ == star_param_spec(*sig, 2).unwrap(),
{
    star_param(sig, 2)
}

/// `CallableType.kw_arg`: the first `**kwargs` parameter.
pub fn kw_arg(sig: &CallableSignature<'_>) -> (r: Option<FormalArgument>)
    ensures
        r.is_some() == star_param_spec(*sig, 4).is_some(),
        r.is_some() ==> r.unwrap()@ == star_param_spec(*sig, 4).unwrap(),
{
    star_param(sig, 4)
}

/// `CallableType.formal_arguments`: the non-star parameters in order,
/// with `pos` cleared from the first named-or-star parameter onwards.
pub fn formal_arguments(sig: &CallableSignature<'_>) -> (r: Vec<FormalArgument>)
    ensures
        r@.len() == formal_args_upto(*sig, sig.param_count()).len(),
        forall|i: int| 0 <= i < r@.len() ==> #[trigger] r@[i]@ == formal_args_upto(*sig, sig.param_count())[i],
{
    let n = param_count(sig);
    let mut out: Vec<FormalArgument> = Vec::new();
    let mut done = false;
    let mut i: usize = 0;
    while i < n
        invariant
            n == sig.param_count(),
            i <= n,
            done == (exists|j: int| 0 <= j < i && (tag_is_named(#[trigger] sig.arg_kinds@[j], false) || tag_is_star(sig.arg_kinds@[j]))),
            out@.len() == formal_args_upto(*sig, i as int).len(),
            forall|j: int| 0 <= j < out@.len() ==> #[trigger] out@[j]@ == formal_args_upto(*sig, i as int)[j],
        decreases n - i,
    {
        let k = sig.arg_kinds[i];
        let named_or_star = k == 3 || k == 5 || k == 2 || k == 4;
        if named_or_star {
            done = true;
        }
        proof {
            assert(done == done_with_positional(sig.arg_kinds@, i as int)) by {
                if named_or_star {
                    assert(tag_is_named(sig.arg_kinds@[i as int], false) || tag_is_star(sig.arg_kinds@[i as int]));
                }
            }
        }
        if !(k == 2 || k == 4) {
            let ghost before = out@;
            out.push(FormalArgument {
                name: clone_opt_string(&sig.arg_names[i]),
                pos: if done { None } else { Some(i) },
                typ: clone_type(&sig.arg_types[i]),
                required: k == 0 || k == 3,
            });
            proof {
                assert forall|j: int| 0 <= j < out@.len() implies #[trigger] out@[j]@ == formal_args_upto(*sig, i + 1)[j] by {
                    if j < before.len() {
                        assert(out@[j] == before[j]);
                    }
                }
            }
        }
        i = i + 1;
    }
    out
}

fn name_index(sig: &CallableSignature<'_>, name: &str) -> (r: Option<usize>)
    ensures
        opt_usize_model(r) == name_index_from(*sig, name@, 0),
        r.is_some() ==> r.unwrap() < sig.param_count(),
{
    let n = param_count(sig);
    let mut i: usize = 0;
    while i < n
        invariant
            n == sig.param_count(),
            i <= n,
            name_index_from(*sig, name@, 0) == name_index_from(*sig, name@, i as int),
        decreases n - i,
    {
        let k = sig.arg_kinds[i];
        if !(k == 2 || k == 4) {
            match &sig.arg_names[i] {
                Some(x) => {
                    if str_eq(x.as_str(), name) {
                        return Some(i);
                    }
                },
                None => {},
            }
        }
        i = i + 1;
    }
    None
}

fn seen_named_or_star(kinds: &[i64], i: usize) -> (r: bool)
    requires
        i < kinds@.len(),
    ensures
        r == done_with_positional(kinds@, i as int),
{
    let mut j: usize = 0;
    while j <= i
        invariant
            i < kinds@.len(),
            j <= i + 1,
            forall|m: int| 0 <= m < j ==> !(tag_is_named(#[trigger] kinds@[m], false) || tag_is_star(kinds@[m])),
        decreases i + 1 - j,
    {
        let k = kinds[j];
        if k == 3 || k == 5 || k == 2 || k == 4 {
            assert(tag_is_named(kinds@[j as int], false) || tag_is_star(kinds@[j as int]));
            return true;
        }
        j = j + 1;
    }
    false
}

/// `CallableType.try_synthesizing_arg_from_kwarg`: any name maps to the
/// `**kwargs` type when the signature has one.
pub fn synthesize_arg_from_kwarg(sig: &CallableSignature<'_>, name: Option<String>) -> (r: Option<FormalArgument>)
    ensures
        r.is_some() == kwarg_synth_spec(*sig, opt_str_model(name)).is_some(),
        r.is_some() ==> r.unwrap()@ == kwarg_synth_spec(*sig, opt_str_model(name)).unwrap(),
{
    match kw_arg(sig) {
        Some(kw) => Some(FormalArgument { name, pos: None, typ: kw.typ, required: false }),
        None => None,
    }
}

/// `CallableType.try_synthesizing_arg_from_vararg`: any position maps to
/// the `*args` type when the signature has one.
pub fn synthesize_arg_from_vararg(sig: &CallableSignature<'_>, position: Option<usize>) -> (r: Option<FormalArgument>)
    ensures
        r.is_some() == vararg_synth_spec(*sig, opt_usize_model(position)).is_some(),
        r.is_some() ==> r.unwrap()@ == vararg_synth_spec(*sig, opt_usize_model(position)).unwrap(),
{
    match var_arg(sig) {
        Some(va) => Some(FormalArgument { name: None, pos: position, typ: va.typ, required: false }),
        None => None,
    }
}

/// `CallableType.argument_by_name`: the non-star parameter called
/// `name`, else the one synthesized from `**kwargs`, else `None`.
pub fn argument_by_name(sig: &CallableSignature<'_>, name: &str) -> (r: Option<FormalArgument>)
    ensures
        r.is_some() == argument_by_name_spec(*sig, name@).is_some(),
        r.is_some() ==> r.unwrap()@ == argument_by_name_spec(*sig, name@).unwrap(),
{
    match name_index(sig, name) {
        Some(i) => {
            let done = seen_named_or_star(sig.arg_kinds, i);
            let k = sig.arg_kinds[i];
            Some(FormalArgument {
                name: Some(name.to_owned()),
                pos: if done { None } else { Some(i) },
                typ: clone_type(&sig.arg_types[i]),
                required: k == 0 || k == 3,
            })
        },
        None => synthesize_arg_from_kwarg(sig, Some(name.to_owned())),
    }
}

/// `CallableType.argument_by_position`: the parameter at `position` when
/// it accepts positional arguments, else the one synthesized from
/// `*args`, else `None`.
pub fn argument_by_position(sig: &CallableSignature<'_>, position: usize) -> (r: Option<FormalArgument>)
    ensures
        r.is_some() == argument_by_position_spec(*sig, position as int).is_some(),
        r.is_some() ==> r.unwrap()@ == argument_by_position_spec(*sig, position as int).unwrap(),
{
    let n = param_count(sig);
    if position >= n {
        return synthesize_arg_from_vararg(sig, Some(position));
    }
    let k = sig.arg_kinds[position];
    if k == 0 || k == 1 {
        Some(FormalArgument {
            name: clone_opt_string(&sig.arg_names[position]),
            pos: Some(position),
            typ: clone_type(&sig.arg_types[position]),
            required: k == 0,
        })
    } else {
        synthesize_arg_from_vararg(sig, Some(position))
    }
}

/// `mypy.typeops.callable_corresponding_argument`: the parameter of `sig`
/// that corresponds to `model`, merging the by-name and by-position
/// lookups. A merge that needs `meet_types` is [`CorrespondingArgument::Undecidable`].
pub fn callable_corresponding_argument(sig: &CallableSignature<'_>, model: &FormalArgument) -> (r: CorrespondingArgument)
    ensures
        r@ == corresponding_spec(*sig, model@),
{
    let by_name = match &model.name {
        Some(n) => argument_by_name(sig, n.as_str()),
        None => None,
    };
    let by_pos = match model.pos {
        Some(p) => argument_by_position(sig, p),
        None => None,
    };
    match (by_name, by_pos) {
        (None, None) => CorrespondingArgument::Absent,
        (Some(a), None) => CorrespondingArgument::Found(a),
        (None, Some(b)) => CorrespondingArgument::Found(b),
        (Some(a), Some(b)) => {
            let same_name = match (&a.name, &b.name) {
                (Some(x), Some(y)) => str_eq(x.as_str(), y.as_str()),
                (None, None) => true,
                _ => false,
            };
            if same_name && a.pos == b.pos && a.required == b.required {
                proof {
                    assert(a@.typ == b@.typ);
                }
                CorrespondingArgument::Found(a)
            } else if !(a.required || b.required) && b.name.is_none() && a.pos.is_none() {
                CorrespondingArgument::Undecidable
            } else {
                CorrespondingArgument::Found(a)
            }
        },
    }
}


/// The actual-to-formal binding of one call: entry `i` lists the indices
/// of the actual arguments bound to formal `i`.
#[derive(Debug, Clone, PartialEq, Eq)]
pub struct FormalToActual(Vec<Vec<i64>>);

/// The formal-to-actual binding of one call: entry `i` lists the formals
/// actual `i` binds to. The reverse of [`FormalToActual`].
#[derive(Debug, Clone, PartialEq, Eq)]
pub struct ActualToFormal(Vec<Vec<i64>>);

/// The rows of a binding table as sequences.
pub open spec fn rows(m: Seq<Vec<i64>>) -> Seq<Seq<i64>> {
    m.map_values(|v: Vec<i64>| v@)
}

impl View for FormalToActual {
    type V = Seq<Seq<i64>>;

    closed spec fn view(&self) -> Seq<Seq<i64>> {
        rows(self.0@)
    }
}

impl View for ActualToFormal {
    type V = Seq<Seq<i64>>;

    closed spec fn view(&self) -> Seq<Seq<i64>> {
        rows(self.0@)
    }
}

impl FormalToActual {
    /// The mapping as one list of actual indices per formal.
    pub fn as_slices(&self) -> (r: &[Vec<i64>])
        ensures
            rows(r@) == self@,
    {
        self.0.as_slice()
    }

    /// How many formals the mapping covers.
    pub fn len(&self) -> (r: usize)
        ensures
            r == self@.len(),
    {
        self.0.len()
    }

    /// Whether the callee has no formals at all.
    pub fn is_empty(&self) -> (r: bool)
        ensures
            r == (self@.len() == 0),
    {
        self.0.len() == 0
    }
}

impl ActualToFormal {
    /// The mapping as one list of formal indices per actual.
    pub fn as_slices(&self) -> (r: &[Vec<i64>])
        ensures
            rows(r@) == self@,
    {
        self.0.as_slice()
    }

    /// How many actuals the mapping covers.
    pub fn len(&self) -> (r: usize)
        ensures
            r == self@.len(),
    {
        self.0.len()
    }

    /// Whether the call site has no actual arguments.
    pub fn is_empty(&self) -> (r: bool)
        ensures
            r == (self@.len() == 0),
    {
        self.0.len() == 0
    }
}

/// The star-actual type lookup mypy passes to `map_actuals_to_formals` as
/// its `actual_arg_type` callback, implemented by the caller over the
/// types it holds. `None` means the actual's type is unavailable.
pub trait ActualArgType {
    /// The proper type of actual argument `index`, or `None`.
    fn actual_arg_type(&self, index: usize) -> Option<&Type>;
}

/// Whether `types` could be what a star-type lookup gives for the
/// actuals: one entry per actual, `None` for every actual that is not
/// `*args` or `**kwargs`.
pub open spec fn lookup_shaped(actual: Seq<ActualArg>, types: Seq<Option<TypeModel>>) -> bool {
    &&& types.len() == actual.len()
    &&& forall|i: int| 0 <= i < actual.len() && !tag_is_star(kind_tag(actual[i].kind)) ==> (#[trigger] types[i]).is_none()
}

/// The model of an answer of a star-type lookup.
pub open spec fn answer_model(t: Option<&Type>) -> Option<TypeModel> {
    match t {
        Some(x) => Some(x@),
        None => None,
    }
}

/// Whether `types` is what `lookup` answers for the actuals: shaped as by
/// [`lookup_shaped`], and for each `*args` / `**kwargs` actual an answer
/// that `lookup.actual_arg_type` can give for that actual's index.
pub open spec fn lookup_answers<T: ActualArgType + ?Sized>(
    lookup: &T,
    actual: Seq<ActualArg>,
    types: Seq<Option<TypeModel>>,
) -> bool {
    &&& lookup_shaped(actual, types)
    &&& forall|i: int|
        0 <= i < actual.len() && tag_is_star(kind_tag(actual[i].kind)) ==> exists|t: Option<&Type>|
            #[trigger] call_ensures(T::actual_arg_type, (lookup, i as usize), t) && answer_model(t) == types[i]
}

/// The walk's state after some actuals: the table so far, the `**kwargs`
/// actuals of unknown shape, and the next positional formal.
pub struct BindState {
    pub mapped: Seq<Seq<i64>>,
    pub ambiguous: Seq<i64>,
    pub fi: int,
}

/// Append actual `a` to row `i`.
pub open spec fn push_at(m: Seq<Seq<i64>>, i: int, a: int) -> Seq<Seq<i64>> {
    m.update(i, m[i].push(a as i64))
}

/// The first formal in `start..` called `name`, or the formal count.
pub open spec fn find_name_from(formal: Seq<FormalParam>, name: Seq<char>, start: int) -> int
    decreases formal.len() - start,
{
    if start >= formal.len() {
        formal.len() as int
    } else if opt_str_model(formal[start].name) == Some(name) {
        start
    } else {
        find_name_from(formal, name, start + 1)
    }
}

/// The first formal in `start..` of kind `kind`, or the formal count.
pub open spec fn find_kind_from(formal: Seq<FormalParam>, kind: ArgKind, start: int) -> int
    decreases formal.len() - start,
{
    if start >= formal.len() {
        formal.len() as int
    } else if formal[start].kind == kind {
        start
    } else {
        find_kind_from(formal, kind, start + 1)
    }
}

/// A `*args` actual of tuple type with `count` items: one formal per item,
/// stopping at the formals' end or at `**kwargs`; a `*args` formal absorbs
/// every remaining item.
pub open spec fn tuple_fill(formal: Seq<FormalParam>, m: Seq<Seq<i64>>, fi: int, count: nat, ai: int) -> (Seq<Seq<i64>>, int)
    decreases count,
{
    if count == 0 || fi < 0 || fi >= formal.len() || formal[fi].kind == ArgKind::Star2 {
        (m, fi)
    } else {
        let next = if formal[fi].kind != ArgKind::Star { fi + 1 } else { fi };
        tuple_fill(formal, push_at(m, fi, ai), next, (count - 1) as nat, ai)
    }
}

/// A `*args` actual of any other type: every remaining positional formal,
/// up to and including a `*args` formal.
pub open spec fn iter_fill(formal: Seq<FormalParam>, m: Seq<Seq<i64>>, fi: int, ai: int) -> (Seq<Seq<i64>>, int)
    decreases formal.len() - fi,
{
    if fi < 0 || fi >= formal.len() || tag_is_named(kind_tag(formal[fi].kind), true) {
        (m, fi)
    } else if formal[fi].kind == ArgKind::Star {
        (push_at(m, fi, ai), fi)
    } else {
        iter_fill(formal, push_at(m, fi, ai), fi + 1, ai)
    }
}

/// Route one name to the formal called that (unless it is `*args`), else
/// to the first `**kwargs` formal, else nowhere.
pub open spec fn named_route(formal: Seq<FormalParam>, m: Seq<Seq<i64>>, name: Seq<char>, ai: int, skip_star: bool) -> Seq<Seq<i64>> {
    let idx = find_name_from(formal, name, 0);
    let s2 = find_kind_from(formal, ArgKind::Star2, 0);
    if idx < formal.len() && !(skip_star && formal[idx].kind == ArgKind::Star) {
        push_at(m, idx, ai)
    } else if s2 < formal.len() {
        push_at(m, s2, ai)
    } else {
        m
    }
}

/// A `**kwargs` actual of TypedDict type: each key routes by name.
pub open spec fn key_fill(formal: Seq<FormalParam>, m: Seq<Seq<i64>>, keys: Seq<(Seq<char>, TypeModel)>, ai: int) -> Seq<Seq<i64>>
    decreases keys.len(),
{
    if keys.len() == 0 {
        m
    } else {
        named_route(formal, key_fill(formal, m, keys.drop_last(), ai), keys.last().0, ai, false)
    }
}

/// The models of a list of optional star types.
pub open spec fn star_models(types: Seq<Option<Type>>) -> Seq<Option<TypeModel>> {
    types.map_values(|o: Option<Type>| match o {
        Some(t) => Some(t@),
        None => None,
    })
}

/// The star type recorded for actual `i`.
pub open spec fn star_type_at(types: Seq<Option<TypeModel>>, i: int) -> Option<TypeModel> {
    if 0 <= i < types.len() {
        types[i]
    } else {
        None
    }
}

/// One actual's step of the actual-to-formal binding walk.
pub open spec fn bind_step(formal: Seq<FormalParam>, st: BindState, a: ActualArg, ai: int, t: Option<TypeModel>) -> Option<BindState> {
    let n = formal.len() as int;
    match a.kind {
        ArgKind::Pos => if st.fi < 0 || st.fi >= n {
            Some(st)
        } else if !tag_is_star(kind_tag(formal[st.fi].kind)) {
            Some(BindState { mapped: push_at(st.mapped, st.fi, ai), fi: st.fi + 1, ..st })
        } else if formal[st.fi].kind == ArgKind::Star {
            Some(BindState { mapped: push_at(st.mapped, st.fi, ai), ..st })
        } else {
            Some(st)
        },
        ArgKind::Star => match t {
            None => None,
            Some(TypeModel::TupleType { items, .. }) => {
                let (m, fi) = tuple_fill(formal, st.mapped, st.fi, items.len(), ai);
                Some(BindState { mapped: m, fi: fi, ..st })
            },
            Some(_) => {
                let (m, fi) = iter_fill(formal, st.mapped, st.fi, ai);
                Some(BindState { mapped: m, fi: fi, ..st })
            },
        },
        ArgKind::Named | ArgKind::NamedOpt => match a.name {
            None => None,
            Some(nm) => Some(BindState { mapped: named_route(formal, st.mapped, nm@, ai, true), ..st }),
        },
        ArgKind::Star2 => match t {
            None => None,
            Some(TypeModel::TypedDictType { items, .. }) => Some(
                BindState { mapped: key_fill(formal, st.mapped, items, ai), ..st },
            ),
            Some(_) => Some(BindState { ambiguous: st.ambiguous.push(ai as i64), ..st }),
        },
        ArgKind::Opt => None,
    }
}

/// The walk's state after the first `k` actuals.
pub open spec fn bind_upto(actual: Seq<ActualArg>, formal: Seq<FormalParam>, types: Seq<Option<TypeModel>>, k: int) -> Option<BindState>
    decreases k,
{
    if k <= 0 {
        Some(BindState { mapped: Seq::new(formal.len(), |i: int| Seq::<i64>::empty()), ambiguous: Seq::empty(), fi: 0 })
    } else {
        match bind_upto(actual, formal, types, k - 1) {
            None => None,
            Some(st) => bind_step(formal, st, actual[k - 1], k - 1, star_type_at(types, k - 1)),
        }
    }
}

/// Whether an unknown `**kwargs` is assumed to fill formal `i`: a named
/// formal nothing bound yet (or only a `*args` actual did), never a
/// `*args` formal, always a `**kwargs` formal.
pub open spec fn unbound_at(actual: Seq<ActualArg>, formal: Seq<FormalParam>, m: Seq<Seq<i64>>, i: int) -> bool {
    let named = formal[i].name.is_some() && formal[i].name.unwrap()@.len() > 0;
    let first_is_star = m[i].len() > 0 && 0 <= m[i][0] < actual.len() && actual[m[i][0] as int].kind == ArgKind::Star;
    (named && (m[i].len() == 0 || first_is_star) && formal[i].kind != ArgKind::Star) || formal[i].kind == ArgKind::Star2
}

/// The actual-to-formal binding with the star actuals' types
/// given by `types`: the walk, then the ambiguous-kwargs pass.
pub open spec fn bind_spec(actual: Seq<ActualArg>, formal: Seq<FormalParam>, types: Seq<Option<TypeModel>>) -> Option<Seq<Seq<i64>>> {
    match bind_upto(actual, formal, types, actual.len() as int) {
        None => None,
        Some(st) => Some(
            Seq::new(
                formal.len(),
                |i: int|
                    if unbound_at(actual, formal, st.mapped, i) {
                        st.mapped[i] + st.ambiguous
                    } else {
                        st.mapped[i]
                    },
            ),
        ),
    }
}

/// Whether some actual is `*args` or `**kwargs`.
pub open spec fn has_star_actual(actual: Seq<ActualArg>) -> bool {
    exists|i: int| 0 <= i < actual.len() && tag_is_star(kind_tag(#[trigger] actual[i].kind))
}


/// Once the walk fails it stays failed.
proof fn lemma_bind_none_persists(actual: Seq<ActualArg>, formal: Seq<FormalParam>, types: Seq<Option<TypeModel>>, k: int, j: int)
    requires
        0 <= k <= j,
        bind_upto(actual, formal, types, k).is_none(),
    ensures
        bind_upto(actual, formal, types, j).is_none(),
    decreases j - k,
{
    if j > k {
        lemma_bind_none_persists(actual, formal, types, k, j - 1);
    }
}

fn push_row(m: &mut Vec<Vec<i64>>, i: usize, a: i64)
    requires
        i < old(m)@.len(),
    ensures
        final(m)@.len() == old(m)@.len(),
        rows(final(m)@) == push_at(rows(old(m)@), i as int, a as int),
{
    let mut row = clone_kinds(&m[i]);
    row.push(a);
    let ghost r = row@;
    m.set(i, row);
    proof {
        assert(rows(m@) =~= push_at(rows(old(m)@), i as int, a as int));
    }
}

fn find_name(formal: &[FormalParam], name: &str) -> (r: usize)
    ensures
        r as int == find_name_from(formal@, name@, 0),
        r <= formal@.len(),
{
    let mut i: usize = 0;
    while i < formal.len()
        invariant
            i <= formal@.len(),
            find_name_from(formal@, name@, 0) == find_name_from(formal@, name@, i as int),
        decreases formal@.len() - i,
    {
        match &formal[i].name {
            Some(x) => {
                if str_eq(x.as_str(), name) {
                    return i;
                }
            },
            None => {},
        }
        i = i + 1;
    }
    i
}

fn find_kind(formal: &[FormalParam], kind: ArgKind) -> (r: usize)
    ensures
        r as int == find_kind_from(formal@, kind, 0),
        r <= formal@.len(),
{
    let mut i: usize = 0;
    while i < formal.len()
        invariant
            i <= formal@.len(),
            find_kind_from(formal@, kind, 0) == find_kind_from(formal@, kind, i as int),
        decreases formal@.len() - i,
    {
        if formal[i].kind == kind {
            return i;
        }
        i = i + 1;
    }
    i
}

fn route_name(formal: &[FormalParam], m: &mut Vec<Vec<i64>>, name: &str, ai: i64, skip_star: bool)
    requires
        old(m)@.len() == formal@.len(),
    ensures
        final(m)@.len() == formal@.len(),
        rows(final(m)@) == named_route(formal@, rows(old(m)@), name@, ai as int, skip_star),
{
    let idx = find_name(formal, name);
    let s2 = find_kind(formal, ArgKind::Star2);
    if idx < formal.len() && !(skip_star && formal[idx].kind == ArgKind::Star) {
        push_row(m, idx, ai);
    } else if s2 < formal.len() {
        push_row(m, s2, ai);
    }
}

fn fill_tuple(formal: &[FormalParam], m: &mut Vec<Vec<i64>>, fi: usize, count: usize, ai: i64) -> (r: usize)
    requires
        old(m)@.len() == formal@.len(),
        fi <= formal@.len(),
    ensures
        final(m)@.len() == formal@.len(),
        r <= formal@.len(),
        (rows(final(m)@), r as int) == tuple_fill(formal@, rows(old(m)@), fi as int, count as nat, ai as int),
{
    let mut f = fi;
    let mut c: usize = 0;
    while c < count && f < formal.len() && formal[f].kind != ArgKind::Star2
        invariant
            m@.len() == formal@.len(),
            f <= formal@.len(),
            c <= count,
            tuple_fill(formal@, rows(old(m)@), fi as int, count as nat, ai as int)
                == tuple_fill(formal@, rows(m@), f as int, (count - c) as nat, ai as int),
        decreases count - c,
    {
        let kind = formal[f].kind;
        push_row(m, f, ai);
        if kind != ArgKind::Star {
            f = f + 1;
        }
        c = c + 1;
    }
    f
}

fn fill_iter(formal: &[FormalParam], m: &mut Vec<Vec<i64>>, fi: usize, ai: i64) -> (r: usize)
    requires
        old(m)@.len() == formal@.len(),
        fi <= formal@.len(),
    ensures
        final(m)@.len() == formal@.len(),
        r <= formal@.len(),
        (rows(final(m)@), r as int) == iter_fill(formal@, rows(old(m)@), fi as int, ai as int),
{
    let mut f = fi;
    while f < formal.len() && !formal[f].kind.is_named(true)
        invariant
            m@.len() == formal@.len(),
            f <= formal@.len(),
            iter_fill(formal@, rows(old(m)@), fi as int, ai as int) == iter_fill(formal@, rows(m@), f as int, ai as int),
        decreases formal@.len() - f,
    {
        let kind = formal[f].kind;
        push_row(m, f, ai);
        if kind == ArgKind::Star {
            return f;
        }
        f = f + 1;
    }
    f
}

fn fill_keys(formal: &[FormalParam], m: &mut Vec<Vec<i64>>, items: &Vec<(String, Type)>, ai: i64)
    requires
        old(m)@.len() == formal@.len(),
    ensures
        final(m)@.len() == formal@.len(),
        rows(final(m)@) == key_fill(formal@, rows(old(m)@), pairs_model(items@), ai as int),
{
    let mut j: usize = 0;
    proof {
        assert(items@.take(0) =~= Seq::<(String, Type)>::empty());
    }
    while j < items.len()
        invariant
            m@.len() == formal@.len(),
            j <= items@.len(),
            rows(m@) == key_fill(formal@, rows(old(m)@), pairs_model(items@.take(j as int)), ai as int),
        decreases items@.len() - j,
    {
        proof {
            assert(items@.take(j + 1).drop_last() =~= items@.take(j as int));
            assert(items@.take(j + 1).last() == items@[j as int]);
            let pm = pairs_model(items@.take(j + 1));
            assert(pm.drop_last() =~= pairs_model(items@.take(j as int)));
            assert(pm.last().0 == items@[j as int].0@);
        }
        route_name(formal, m, items[j].0.as_str(), ai, false);
        j = j + 1;
    }
    proof {
        assert(items@.take(items@.len() as int) =~= items@);
    }
}

fn empty_rows(n: usize) -> (r: Vec<Vec<i64>>)
    ensures
        rows(r@) == Seq::new(n as nat, |i: int| Seq::<i64>::empty()),
        r@.len() == n,
{
    let mut out: Vec<Vec<i64>> = Vec::new();
    let mut i: usize = 0;
    while i < n
        invariant
            i <= n,
            out@.len() == i,
            forall|j: int| 0 <= j < i ==> (#[trigger] out@[j])@.len() == 0,
        decreases n - i,
    {
        out.push(Vec::new());
        i = i + 1;
    }
    assert forall|j: int| 0 <= j < n implies #[trigger] rows(out@)[j] == Seq::<i64>::empty() by {
        assert(out@[j]@ =~= Seq::<i64>::empty());
    }
    assert(rows(out@) =~= Seq::new(n as nat, |i: int| Seq::<i64>::empty()));
    out
}

fn is_unbound(actual: &[ActualArg], formal: &[FormalParam], m: &Vec<Vec<i64>>, i: usize) -> (r: bool)
    requires
        i < formal@.len(),
        m@.len() == formal@.len(),
        actual@.len() <= i64::MAX,
    ensures
        r == unbound_at(actual@, formal@, rows(m@), i as int),
{
    let named = match &formal[i].name {
        Some(nm) => nm.as_str().unicode_len() > 0,
        None => false,
    };
    let row = &m[i];
    assert(row@ == rows(m@)[i as int]);
    let first_is_star = if row.len() > 0 {
        let a = row[0];
        if 0 <= a && a < actual.len() as i64 {
            let k = a as usize;
            actual[k].kind == ArgKind::Star
        } else {
            false
        }
    } else {
        false
    };
    proof {
        if row@.len() > 0 {
            assert(rows(m@)[i as int][0] == row@[0]);
        }
    }
    (named && (row.len() == 0 || first_is_star) && formal[i].kind != ArgKind::Star) || formal[i].kind == ArgKind::Star2
}

fn extend_row(m: &mut Vec<Vec<i64>>, i: usize, extra: &Vec<i64>)
    requires
        i < old(m)@.len(),
    ensures
        final(m)@.len() == old(m)@.len(),
        rows(final(m)@) == rows(old(m)@).update(i as int, rows(old(m)@)[i as int] + extra@),
{
    let mut row = clone_kinds(&m[i]);
    let mut j: usize = 0;
    while j < extra.len()
        invariant
            j <= extra@.len(),
            i < m@.len(),
            row@ == m@[i as int]@ + extra@.take(j as int),
        decreases extra@.len() - j,
    {
        row.push(extra[j]);
        j = j + 1;
        assert(row@ =~= m@[i as int]@ + extra@.take(j as int));
    }
    assert(extra@.take(extra@.len() as int) =~= extra@);
    m.set(i, row);
    assert(rows(m@) =~= rows(old(m)@).update(i as int, rows(old(m)@)[i as int] + extra@));
}

/// [`map_actuals_to_formals`] with the star actuals' types given as a
/// list indexed by actual position (`types[i]` is read only when actual
/// `i` is `*args` or `**kwargs`). `None` when a star actual's type is
/// missing, a keyword actual carries no name, or an actual is `ARG_OPT`.
pub fn map_actuals_to_formals_with_star_types(
    actual: &[ActualArg],
    formal: &[FormalParam],
    types: &[Option<Type>],
) -> (r: Option<FormalToActual>)
    requires
        actual@.len() <= i64::MAX,
    ensures
        r.is_some() == bind_spec(actual@, formal@, star_models(types@)).is_some(),
        r.is_some() ==> r.unwrap()@ == bind_spec(actual@, formal@, star_models(types@)).unwrap(),
{
    let n = formal.len();
    let mut m = empty_rows(n);
    let mut amb: Vec<i64> = Vec::new();
    let mut fi: usize = 0;
    let mut ai: usize = 0;
    while ai < actual.len()
        invariant
            actual@.len() <= i64::MAX,
            n == formal@.len(),
            m@.len() == n,
            fi <= n,
            ai <= actual@.len(),
            bind_upto(actual@, formal@, star_models(types@), ai as int) == Some(
                BindState { mapped: rows(m@), ambiguous: amb@, fi: fi as int },
            ),
        decreases actual@.len() - ai,
    {
        let a = ai as i64;
        let ghost st = BindState { mapped: rows(m@), ambiguous: amb@, fi: fi as int };
        let t: Option<&Type> = if ai < types.len() {
            match &types[ai] {
                Some(x) => Some(x),
                None => None,
            }
        } else {
            None
        };
        proof {
            assert(star_type_at(star_models(types@), ai as int) == match t {
                Some(x) => Some(x@),
                None => None::<TypeModel>,
            });
            match t {
                Some(Type::TupleType { items, .. }) => {
                    lemma_types_model(items@);
                    assert(t.unwrap()@ matches TypeModel::TupleType { items: im, .. } && im.len() == items@.len());
                },
                Some(Type::TypedDictType { items, .. }) => {
                    assert(t.unwrap()@ matches TypeModel::TypedDictType { items: im, .. } && im == pairs_model(items@));
                },
                _ => {},
            }
        }
        match actual[ai].kind {
            ArgKind::Pos => {
                if fi < n {
                    let kind = formal[fi].kind;
                    if !kind.is_star() {
                        push_row(&mut m, fi, a);
                        fi = fi + 1;
                    } else if kind == ArgKind::Star {
                        push_row(&mut m, fi, a);
                    }
                }
            },
            ArgKind::Star => {
                match t {
                    None => {
                        proof {
                            lemma_bind_none_persists(actual@, formal@, star_models(types@), ai + 1, actual@.len() as int);
                        }
                        return None;
                    },
                    Some(Type::TupleType { items, .. }) => {
                        fi = fill_tuple(formal, &mut m, fi, items.len(), a);
                    },
                    Some(_) => {
                        fi = fill_iter(formal, &mut m, fi, a);
                    },
                }
            },
            ArgKind::Named | ArgKind::NamedOpt => {
                match &actual[ai].name {
                    None => {
                        proof {
                            lemma_bind_none_persists(actual@, formal@, star_models(types@), ai + 1, actual@.len() as int);
                        }
                        return None;
                    },
                    Some(nm) => {
                        route_name(formal, &mut m, nm.as_str(), a, true);
                    },
                }
            },
            ArgKind::Star2 => {
                match t {
                    None => {
                        proof {
                            lemma_bind_none_persists(actual@, formal@, star_models(types@), ai + 1, actual@.len() as int);
                        }
                        return None;
                    },
                    Some(Type::TypedDictType { items, .. }) => {
                        fill_keys(formal, &mut m, items, a);
                    },
                    Some(_) => {
                        amb.push(a);
                    },
                }
            },
            ArgKind::Opt => {
                proof {
                    lemma_bind_none_persists(actual@, formal@, star_models(types@), ai + 1, actual@.len() as int);
                }
                return None;
            },
        }
        ai = ai + 1;
    }
    let ghost before = rows(m@);
    let ghost amb_all = amb@;
    let mut i: usize = 0;
    while i < n
        invariant
            actual@.len() <= i64::MAX,
            n == formal@.len(),
            m@.len() == n,
            i <= n,
            before.len() == n,
            forall|j: int| i <= j < n ==> #[trigger] rows(m@)[j] == before[j],
            forall|j: int| 0 <= j < i ==> #[trigger] rows(m@)[j] == (if unbound_at(actual@, formal@, before, j) {
                before[j] + amb_all
            } else {
                before[j]
            }),
            amb@ == amb_all,
        decreases n - i,
    {
        proof {
            assert(rows(m@)[i as int] == before[i as int]);
        }
        let ub = is_unbound(actual, formal, &m, i);
        proof {
            assert(unbound_at(actual@, formal@, rows(m@), i as int) == unbound_at(actual@, formal@, before, i as int));
        }
        if ub {
            extend_row(&mut m, i, &amb);
        }
        i = i + 1;
    }
    proof {
        assert(rows(m@) =~= bind_spec(actual@, formal@, star_models(types@)).unwrap());
    }
    Some(FormalToActual(m))
}


/// Record formal `f` against every in-range actual listed in `row`.
pub open spec fn reverse_row(acc: Seq<Seq<i64>>, row: Seq<i64>, f: int) -> Seq<Seq<i64>>
    decreases row.len(),
{
    if row.len() == 0 {
        acc
    } else {
        let prev = reverse_row(acc, row.drop_last(), f);
        let a = row.last() as int;
        if 0 <= a < prev.len() {
            push_at(prev, a, f)
        } else {
            prev
        }
    }
}

/// The reverse of the first `k` rows of a formal-to-actual table over
/// `n` actuals.
pub open spec fn reverse_upto(fwd: Seq<Seq<i64>>, n: nat, k: int) -> Seq<Seq<i64>>
    decreases k,
{
    if k <= 0 {
        Seq::new(n, |a: int| Seq::<i64>::empty())
    } else {
        reverse_row(reverse_upto(fwd, n, k - 1), fwd[k - 1], k - 1)
    }
}

/// The reverse of a whole formal-to-actual table.
pub open spec fn reverse_spec(fwd: Seq<Seq<i64>>, n: nat) -> Seq<Seq<i64>> {
    reverse_upto(fwd, n, fwd.len() as int)
}

proof fn lemma_reverse_row_len(acc: Seq<Seq<i64>>, row: Seq<i64>, f: int)
    ensures
        reverse_row(acc, row, f).len() == acc.len(),
    decreases row.len(),
{
    if row.len() > 0 {
        lemma_reverse_row_len(acc, row.drop_last(), f);
    }
}

proof fn lemma_push_contains(s: Seq<i64>, v: i64, x: i64)
    ensures
        s.push(v).contains(x) <==> (s.contains(x) || x == v),
{
    if s.push(v).contains(x) {
        let j = choose|j: int| 0 <= j < s.push(v).len() && s.push(v)[j] == x;
        if j < s.len() {
            assert(s[j] == x);
        }
    }
    if s.contains(x) {
        let j = choose|j: int| 0 <= j < s.len() && s[j] == x;
        assert(s.push(v)[j] == x);
    }
    if x == v {
        assert(s.push(v)[s.len() as int] == x);
    }
}

proof fn lemma_reverse_row(acc: Seq<Seq<i64>>, row: Seq<i64>, f: int, a: int, x: i64)
    requires
        0 <= a < acc.len(),
        a <= i64::MAX,
        0 <= f <= i64::MAX,
    ensures
        reverse_row(acc, row, f).len() == acc.len(),
        reverse_row(acc, row, f)[a].contains(x) <==> (acc[a].contains(x) || (x == f as i64 && row.contains(a as i64))),
    decreases row.len(),
{
    lemma_reverse_row_len(acc, row, f);
    if row.len() > 0 {
        let prev = reverse_row(acc, row.drop_last(), f);
        lemma_reverse_row(acc, row.drop_last(), f, a, x);
        lemma_push_contains(row.drop_last(), row.last(), a as i64);
        assert(row.drop_last().push(row.last()) =~= row);
        let last = row.last() as int;
        if 0 <= last < prev.len() && a == last {
            lemma_push_contains(prev[a], f as i64, x);
        }
    }
}

proof fn lemma_reverse_upto(fwd: Seq<Seq<i64>>, n: nat, k: int, a: int, f: int)
    requires
        0 <= k <= fwd.len(),
        fwd.len() <= i64::MAX,
        0 <= a < n,
        a <= i64::MAX,
        0 <= f < fwd.len(),
    ensures
        reverse_upto(fwd, n, k).len() == n,
        reverse_upto(fwd, n, k)[a].contains(f as i64) <==> (f < k && fwd[f].contains(a as i64)),
    decreases k,
{
    if k > 0 {
        lemma_reverse_upto(fwd, n, k - 1, a, f);
        lemma_reverse_row(reverse_upto(fwd, n, k - 1), fwd[k - 1], k - 1, a, f as i64);
    } else {
        assert(reverse_upto(fwd, n, k)[a] =~= Seq::<i64>::empty());
    }
}

/// The reverse table is the forward table read the other way: formal `f`
/// is listed against actual `a` exactly when actual `a` is listed against
/// formal `f`.
pub proof fn lemma_reverse_is_inverse(fwd: Seq<Seq<i64>>, n: nat, a: int, f: int)
    requires
        0 <= a < n,
        a <= i64::MAX,
        0 <= f < fwd.len(),
        fwd.len() <= i64::MAX,
    ensures
        reverse_spec(fwd, n).len() == n,
        reverse_spec(fwd, n)[a].contains(f as i64) <==> fwd[f].contains(a as i64),
{
    lemma_reverse_upto(fwd, n, fwd.len() as int, a, f);
}

proof fn lemma_reverse_upto_len(fwd: Seq<Seq<i64>>, n: nat, k: int)
    ensures
        reverse_upto(fwd, n, k).len() == n,
    decreases k,
{
    if k > 0 {
        lemma_reverse_upto_len(fwd, n, k - 1);
        lemma_reverse_row_len(reverse_upto(fwd, n, k - 1), fwd[k - 1], k - 1);
    }
}

fn reverse_mapping(fwd: &Vec<Vec<i64>>, n_actuals: usize) -> (r: Vec<Vec<i64>>)
    requires
        fwd@.len() <= i64::MAX,
    ensures
        r@.len() == n_actuals,
        rows(r@) == reverse_spec(rows(fwd@), n_actuals as nat),
{
    let mut out = empty_rows(n_actuals);
    let mut f: usize = 0;
    proof {
        lemma_reverse_upto_len(rows(fwd@), n_actuals as nat, 0);
    }
    while f < fwd.len()
        invariant
            fwd@.len() <= i64::MAX,
            f <= fwd@.len(),
            out@.len() == n_actuals,
            reverse_upto(rows(fwd@), n_actuals as nat, f as int).len() == n_actuals,
            rows(out@) == reverse_upto(rows(fwd@), n_actuals as nat, f as int),
        decreases fwd@.len() - f,
    {
        let row = &fwd[f];
        let ghost acc0 = rows(out@);
        let mut j: usize = 0;
        while j < row.len()
            invariant
                fwd@.len() <= i64::MAX,
                f < fwd@.len(),
                row@ == rows(fwd@)[f as int],
                j <= row@.len(),
                out@.len() == n_actuals,
                acc0.len() == n_actuals,
                rows(out@) == reverse_row(acc0, row@.take(j as int), f as int),
            decreases row@.len() - j,
        {
            proof {
                assert(row@.take(j + 1).drop_last() =~= row@.take(j as int));
                lemma_reverse_row_len(acc0, row@.take(j as int), f as int);
            }
            let a = row[j];
            if a >= 0 {
                let au = a as u64;
                if au < n_actuals as u64 {
                    push_row(&mut out, au as usize, f as i64);
                }
            }
            j = j + 1;
        }
        proof {
            assert(row@.take(row@.len() as int) =~= row@);
        }
        f = f + 1;
        proof {
            lemma_reverse_upto_len(rows(fwd@), n_actuals as nat, f as int);
        }
    }
    out
}

/// The actual-to-formal binding for a call with no `*args`
/// or `**kwargs` actual: which actual binds to which formal. `None` when
/// the call has a star actual (see [`map_actuals_to_formals_with_types`]),
/// a keyword actual carries no name, or an actual is `ARG_OPT`.
pub fn map_actuals_to_formals(actual: &[ActualArg], formal: &[FormalParam]) -> (r: Option<FormalToActual>)
    requires
        actual@.len() <= i64::MAX,
    ensures
        r.is_some() == (!has_star_actual(actual@) && bind_spec(actual@, formal@, Seq::empty()).is_some()),
        r.is_some() ==> r.unwrap()@ == bind_spec(actual@, formal@, Seq::empty()).unwrap(),
{
    let mut i: usize = 0;
    while i < actual.len()
        invariant
            i <= actual@.len(),
            forall|j: int| 0 <= j < i ==> !tag_is_star(kind_tag(#[trigger] actual@[j].kind)),
        decreases actual@.len() - i,
    {
        if actual[i].kind.is_star() {
            return None;
        }
        i = i + 1;
    }
    let empty: Vec<Option<Type>> = Vec::new();
    proof {
        assert(empty@ =~= Seq::<Option<Type>>::empty());
        assert(star_models(empty@) =~= Seq::<Option<TypeModel>>::empty());
    }
    map_actuals_to_formals_with_star_types(actual, formal, empty.as_slice())
}

/// The formal-to-actual binding: the reverse of
/// [`map_actuals_to_formals`], indexed by actual. Declines on the same
/// inputs.
pub fn map_formals_to_actuals(actual: &[ActualArg], formal: &[FormalParam]) -> (r: Option<ActualToFormal>)
    requires
        actual@.len() <= i64::MAX,
        formal@.len() <= i64::MAX,
    ensures
        r.is_some() == (!has_star_actual(actual@) && bind_spec(actual@, formal@, Seq::empty()).is_some()),
        r.is_some() ==> r.unwrap()@ == reverse_spec(bind_spec(actual@, formal@, Seq::empty()).unwrap(), actual@.len()),
{
    match map_actuals_to_formals(actual, formal) {
        Some(fwd) => {
            assert(fwd.0@.len() == rows(fwd.0@).len());
            Some(ActualToFormal(reverse_mapping(&fwd.0, actual.len())))
        },
        None => None,
    }
}

fn collect_star_types<T: ActualArgType + ?Sized>(actual: &[ActualArg], actual_types: &T) -> (r: Vec<Option<Type>>)
    ensures
        lookup_answers(actual_types, actual@, star_models(r@)),
{
    let mut out: Vec<Option<Type>> = Vec::new();
    let mut i: usize = 0;
    while i < actual.len()
        invariant
            i <= actual@.len(),
            out@.len() == i,
            forall|j: int| 0 <= j < i && !tag_is_star(kind_tag(actual@[j].kind)) ==> (#[trigger] out@[j]).is_none(),
            forall|j: int|
                0 <= j < i && tag_is_star(kind_tag(actual@[j].kind)) ==> exists|t: Option<&Type>|
                    #[trigger] call_ensures(T::actual_arg_type, (actual_types, j as usize), t) && answer_model(t)
                        == star_models(out@)[j],
        decreases actual@.len() - i,
    {
        let t = if actual[i].kind.is_star() {
            let a = actual_types.actual_arg_type(i);
            let c = match a {
                Some(x) => Some(clone_type(x)),
                None => None,
            };
            proof {
                assert(call_ensures(T::actual_arg_type, (actual_types, i), a));
                assert(answer_model(a) == star_models(seq![c])[0]);
            }
            c
        } else {
            None
        };
        let ghost before = out@;
        out.push(t);
        proof {
            assert forall|j: int|
                0 <= j < i + 1 && tag_is_star(kind_tag(actual@[j].kind)) implies exists|t2: Option<&Type>|
                    #[trigger] call_ensures(T::actual_arg_type, (actual_types, j as usize), t2) && answer_model(t2)
                        == star_models(out@)[j] by {
                assert(star_models(out@)[j] == star_models(seq![out@[j]])[0]);
                if j < i {
                    assert(out@[j] == before[j]);
                    assert(star_models(before)[j] == star_models(seq![before[j]])[0]);
                }
            }
        }
        i = i + 1;
    }
    proof {
        assert(star_models(out@).len() == actual@.len());
    }
    out
}

/// [`map_actuals_to_formals`] for a call with `*args` / `**kwargs`
/// actuals, reading each star actual's type through [`ActualArgType`]:
/// the binding with, for each star actual, the type the lookup answers
/// for its index (the lookup is the caller's, so the contract speaks of
/// an answer it can give). A call with no star actual is bound exactly as
/// by [`map_actuals_to_formals`].
pub fn map_actuals_to_formals_with_types<T: ActualArgType + ?Sized>(
    actual: &[ActualArg],
    formal: &[FormalParam],
    actual_types: &T,
) -> (r: Option<FormalToActual>)
    requires
        actual@.len() <= i64::MAX,
    ensures
        !has_star_actual(actual@) ==> r.is_some() == bind_spec(actual@, formal@, Seq::empty()).is_some()
            && (r.is_some() ==> r.unwrap()@ == bind_spec(actual@, formal@, Seq::empty()).unwrap()),
        exists|types: Seq<Option<TypeModel>>| #![auto] lookup_answers(actual_types, actual@, types)
            && r.is_some() == bind_spec(actual@, formal@, types).is_some()
            && (r.is_some() ==> r.unwrap()@ == bind_spec(actual@, formal@, types).unwrap()),
{
    let mut any_star = false;
    let mut i: usize = 0;
    while i < actual.len()
        invariant
            i <= actual@.len(),
            any_star == (exists|j: int| 0 <= j < i && tag_is_star(kind_tag(#[trigger] actual@[j].kind))),
        decreases actual@.len() - i,
    {
        if actual[i].kind.is_star() {
            any_star = true;
        }
        i = i + 1;
    }
    if !any_star {
        let r = map_actuals_to_formals(actual, formal);
        proof {
            let t2 = Seq::new(actual@.len(), |j: int| None::<TypeModel>);
            lemma_bind_ignores_prefix(actual@, formal@, Seq::empty(), t2, actual@.len() as int);
            assert(lookup_shaped(actual@, t2));
            assert(lookup_answers(actual_types, actual@, t2));
        }
        return r;
    }
    let types = collect_star_types(actual, actual_types);
    let r = map_actuals_to_formals_with_star_types(actual, formal, types.as_slice());
    proof {
        assert(lookup_answers(actual_types, actual@, star_models(types@)));
    }
    r
}

/// Without star actuals the walk never reads the star types.
proof fn lemma_bind_ignores_prefix(actual: Seq<ActualArg>, formal: Seq<FormalParam>, t1: Seq<Option<TypeModel>>, t2: Seq<Option<TypeModel>>, k: int)
    requires
        0 <= k <= actual.len(),
        !has_star_actual(actual),
    ensures
        bind_upto(actual, formal, t1, k) == bind_upto(actual, formal, t2, k),
    decreases k,
{
    if k > 0 {
        lemma_bind_ignores_prefix(actual, formal, t1, t2, k - 1);
        assert(!tag_is_star(kind_tag(actual[k - 1].kind)));
    }
}

/// The reverse of [`map_actuals_to_formals_with_types`], indexed by
/// actual argument.
pub fn map_formals_to_actuals_with_types<T: ActualArgType + ?Sized>(
    actual: &[ActualArg],
    formal: &[FormalParam],
    actual_types: &T,
) -> (r: Option<ActualToFormal>)
    requires
        actual@.len() <= i64::MAX,
        formal@.len() <= i64::MAX,
    ensures
        exists|types: Seq<Option<TypeModel>>| #![auto] lookup_answers(actual_types, actual@, types)
            && r.is_some() == bind_spec(actual@, formal@, types).is_some()
            && (r.is_some() ==> r.unwrap()@ == reverse_spec(bind_spec(actual@, formal@, types).unwrap(), actual@.len())),
{
    let fwd = map_actuals_to_formals_with_types(actual, formal, actual_types);
    match fwd {
        Some(f) => {
            assert(f.0@.len() == rows(f.0@).len());
            proof {
                let types = choose|types: Seq<Option<TypeModel>>| #![auto] lookup_answers(actual_types, actual@, types)
                    && fwd.is_some() == bind_spec(actual@, formal@, types).is_some()
                    && (fwd.is_some() ==> fwd.unwrap()@ == bind_spec(actual@, formal@, types).unwrap());
                assert(bind_spec(actual@, formal@, types).unwrap().len() == formal@.len());
            }
            let out = reverse_mapping(&f.0, actual.len());
            Some(ActualToFormal(out))
        },
        None => None,
    }
}


/// `CallableType.is_type_obj()` with the metaclass test read off the
/// resolver: `None` for a non-callable, a fallback that is not an
/// instance, a fallback class without a snapshot, or an alias return type
/// behind a metaclass fallback.
pub open spec fn type_obj_spec(callee: TypeModel, r: TypeResolver) -> Option<bool> {
    match callee {
        TypeModel::CallableType { fallback, ret_type, .. } => match *fallback {
            TypeModel::Instance { type_ref, .. } => match r.class_of(type_ref) {
                None => None,
                Some(snap) => if !snapshot_is_metaclass(snap) {
                    Some(false)
                } else {
                    match *ret_type {
                        TypeModel::UninhabitedType { .. } => Some(false),
                        TypeModel::TypeAliasType { .. } => None,
                        _ => Some(true),
                    }
                },
            },
            _ => None,
        },
        _ => None,
    }
}

/// Whether a callable is a type object: its fallback class is a metaclass
/// and it does not return `Never`.
pub fn is_type_obj(callee: &Type, resolver: &TypeResolver) -> (r: Option<bool>)
    ensures
        r == type_obj_spec(callee@, *resolver),
{
    match callee {
        Type::CallableType { fallback, ret_type, .. } => match &**fallback {
            Type::Instance { type_ref, .. } => match resolver.get(type_ref.as_str()) {
                None => None,
                Some(snap) => {
                    proof {
                        assert(type_model(**fallback) matches TypeModel::Instance { type_ref: tr, .. } && tr == type_ref@);
                        assert(callee@ matches TypeModel::CallableType { fallback: fb, ret_type: rt, .. }
                            && *fb == type_model(**fallback) && *rt == type_model(**ret_type));
                    }
                    if !is_metaclass(snap) {
                        Some(false)
                    } else {
                        match &**ret_type {
                            Type::UninhabitedType { .. } => Some(false),
                            Type::TypeAliasType { .. } => None,
                            _ => Some(true),
                        }
                    }
                },
            },
            _ => None,
        },
        _ => None,
    }
}


/// `s` without its last element; empty stays empty.
pub open spec fn butlast<A>(s: Seq<A>) -> Seq<A> {
    if s.len() == 0 {
        s
    } else {
        s.drop_last()
    }
}

/// A callable model with its parameter lists, return type and
/// `unpack_kwargs` flag replaced; every other field kept.
pub open spec fn with_signature(
    c: TypeModel,
    types: Seq<TypeModel>,
    kinds: Seq<i64>,
    names: Seq<Option<Seq<char>>>,
    ret: TypeModel,
    unpack: bool,
) -> TypeModel {
    match c {
        TypeModel::CallableType {
            fallback,
            instance_type,
            is_ellipsis_args,
            implicit,
            is_bound,
            from_concatenate,
            imprecise_arg_kinds,
            unpack_kwargs,
            from_type_type,
            arg_types,
            arg_kinds,
            arg_names,
            ret_type,
            name,
            variables,
            type_guard,
            type_is,
            special_sig,
            definition_ref,
        } => TypeModel::CallableType {
            fallback,
            instance_type,
            is_ellipsis_args,
            implicit,
            is_bound,
            from_concatenate,
            imprecise_arg_kinds,
            unpack_kwargs: unpack,
            from_type_type,
            arg_types: types,
            arg_kinds: kinds,
            arg_names: names,
            ret_type: Box::new(ret),
            name,
            variables,
            type_guard,
            type_is,
            special_sig,
            definition_ref,
        },
        _ => c,
    }
}

/// A copy of callable `c` with the given parameter lists, return type and
/// `unpack_kwargs` flag.
pub(crate) fn rebuild_callable(
    c: &Type,
    arg_types: Vec<Type>,
    arg_kinds: Vec<i64>,
    arg_names: Vec<Option<String>>,
    ret: Type,
    unpack: bool,
) -> (r: Type)
    requires
        c is CallableType,
    ensures
        r@ == with_signature(c@, types_model(arg_types@), arg_kinds@, opt_strs_model(arg_names@), ret@, unpack),
{
    match c {
        Type::CallableType {
            fallback,
            instance_type,
            is_ellipsis_args,
            implicit,
            is_bound,
            from_concatenate,
            imprecise_arg_kinds,
            from_type_type,
            name,
            variables,
            type_guard,
            type_is,
            special_sig,
            definition_ref,
            ..
        } => Type::CallableType {
            fallback: Box::new(clone_type(fallback)),
            instance_type: clone_opt_type(instance_type),
            is_ellipsis_args: *is_ellipsis_args,
            implicit: *implicit,
            is_bound: *is_bound,
            from_concatenate: *from_concatenate,
            imprecise_arg_kinds: *imprecise_arg_kinds,
            unpack_kwargs: unpack,
            from_type_type: *from_type_type,
            arg_types,
            arg_kinds,
            arg_names,
            ret_type: Box::new(ret),
            name: clone_opt_string(name),
            variables: clone_types(variables),
            type_guard: clone_opt_type(type_guard),
            type_is: clone_opt_type(type_is),
            special_sig: clone_opt_string(special_sig),
            definition_ref: clone_opt_string(definition_ref),
        },
        _ => clone_type(c),
    }
}

/// Append copies of `v[lo..hi]` to `out`.
fn extend_types(out: &mut Vec<Type>, v: &Vec<Type>, lo: usize, hi: usize)
    requires
        lo <= hi <= v@.len(),
    ensures
        types_model(final(out)@) == types_model(old(out)@) + types_model(v@).subrange(lo as int, hi as int),
{
    let ghost start = out@;
    proof {
        lemma_types_model(v@);
    }
    let mut i: usize = lo;
    while i < hi
        invariant
            lo <= i <= hi <= v@.len(),
            types_model(v@).len() == v@.len(),
            forall|j: int| 0 <= j < v@.len() ==> #[trigger] types_model(v@)[j] == type_model(v@[j]),
            types_model(out@) == types_model(start) + types_model(v@).subrange(lo as int, i as int),
        decreases hi - i,
    {
        let c = clone_type(&v[i]);
        proof {
            lemma_types_model_push(out@, c);
            assert(types_model(v@).subrange(lo as int, i + 1) =~= types_model(v@).subrange(lo as int, i as int).push(c@));
        }
        out.push(c);
        i = i + 1;
    }
}

/// Append `v[lo..hi]` to `out`.
fn extend_kinds(out: &mut Vec<i64>, v: &Vec<i64>, lo: usize, hi: usize)
    requires
        lo <= hi <= v@.len(),
    ensures
        final(out)@ == old(out)@ + v@.subrange(lo as int, hi as int),
{
    let ghost start = out@;
    let mut i: usize = lo;
    while i < hi
        invariant
            lo <= i <= hi <= v@.len(),
            out@ == start + v@.subrange(lo as int, i as int),
        decreases hi - i,
    {
        out.push(v[i]);
        proof {
            assert(v@.subrange(lo as int, i + 1) =~= v@.subrange(lo as int, i as int).push(v@[i as int]));
        }
        i = i + 1;
    }
}

/// Append copies of `v[lo..hi]` to `out`.
fn extend_names(out: &mut Vec<Option<String>>, v: &Vec<Option<String>>, lo: usize, hi: usize)
    requires
        lo <= hi <= v@.len(),
    ensures
        opt_strs_model(final(out)@) == opt_strs_model(old(out)@) + opt_strs_model(v@).subrange(lo as int, hi as int),
{
    let ghost start = out@;
    let mut i: usize = lo;
    while i < hi
        invariant
            lo <= i <= hi <= v@.len(),
            opt_strs_model(out@) == opt_strs_model(start) + opt_strs_model(v@).subrange(lo as int, i as int),
        decreases hi - i,
    {
        let c = clone_opt_string(&v[i]);
        proof {
            assert(opt_strs_model(out@.push(c)) =~= opt_strs_model(out@).push(opt_str_model(c)));
            assert(opt_strs_model(v@).subrange(lo as int, i + 1) =~= opt_strs_model(v@).subrange(lo as int, i as int).push(opt_str_model(c)));
        }
        out.push(c);
        i = i + 1;
    }
}

/// The parameter kind a `**kwargs: Unpack[TD]` key expands to.
pub open spec fn key_kind(required: Seq<Seq<char>>, key: Seq<char>) -> i64 {
    if required.contains(key) {
        3
    } else {
        5
    }
}

/// `CallableType.with_unpacked_kwargs()`: a `**kwargs: Unpack[TD]` callable
/// takes the TypedDict's keys as keyword parameters, required keys as
/// `ARG_NAMED` and the others as `ARG_NAMED_OPT`. `None` for a non-callable,
/// or when the last parameter type is not a TypedDict.
pub open spec fn unpacked_kwargs_spec(c: TypeModel) -> Option<TypeModel> {
    match c {
        TypeModel::CallableType { unpack_kwargs, arg_types, arg_kinds, arg_names, ret_type, .. } => if !unpack_kwargs {
            Some(c)
        } else if arg_types.len() == 0 {
            None
        } else {
            match arg_types.last() {
                TypeModel::TypedDictType { items, required_keys, .. } => Some(
                    with_signature(
                        c,
                        butlast(arg_types) + items.map_values(|p: (Seq<char>, TypeModel)| p.1),
                        butlast(arg_kinds) + items.map_values(|p: (Seq<char>, TypeModel)| key_kind(required_keys, p.0)),
                        butlast(arg_names) + items.map_values(|p: (Seq<char>, TypeModel)| Some(p.0)),
                        *ret_type,
                        false,
                    ),
                ),
                _ => None,
            }
        },
        _ => None,
    }
}

/// Whether `s` contains `x`.
fn strings_contain(v: &Vec<String>, x: &str) -> (r: bool)
    ensures
        r == strs_model(v@).contains(x@),
{
    let mut i: usize = 0;
    while i < v.len()
        invariant
            i <= v@.len(),
            forall|j: int| 0 <= j < i ==> v@[j]@ != x@,
        decreases v@.len() - i,
    {
        if str_eq(v[i].as_str(), x) {
            proof {
                assert(strs_model(v@)[i as int] == x@);
            }
            return true;
        }
        i = i + 1;
    }
    proof {
        if strs_model(v@).contains(x@) {
            let k = choose|k: int| 0 <= k < strs_model(v@).len() && strs_model(v@)[k] == x@;
            assert(v@[k]@ == x@);
        }
    }
    false
}

/// `with_unpacked_kwargs` on a callable.
fn with_unpacked_kwargs(c: &Type) -> (r: Option<Type>)
    ensures
        match r {
            None => unpacked_kwargs_spec(c@).is_none(),
            Some(t) => unpacked_kwargs_spec(c@) == Some(t@),
        },
{
    match c {
        Type::CallableType { unpack_kwargs, arg_types, arg_kinds, arg_names, ret_type, .. } => {
            if !*unpack_kwargs {
                return Some(clone_type(c));
            }
            proof {
                lemma_types_model(arg_types@);
            }
            if arg_types.len() == 0 {
                return None;
            }
            let last = arg_types.len() - 1;
            match &arg_types[last] {
                Type::TypedDictType { items, required_keys, .. } => {
                    let mut types: Vec<Type> = Vec::new();
                    extend_types(&mut types, arg_types, 0, last);
                    let mut kinds: Vec<i64> = Vec::new();
                    let klen = if arg_kinds.len() == 0 { 0 } else { arg_kinds.len() - 1 };
                    extend_kinds(&mut kinds, arg_kinds, 0, klen);
                    let mut names: Vec<Option<String>> = Vec::new();
                    let nlen = if arg_names.len() == 0 { 0 } else { arg_names.len() - 1 };
                    extend_names(&mut names, arg_names, 0, nlen);
                    let ghost types0 = types@;
                    let ghost kinds0 = kinds@;
                    let ghost names0 = names@;
                    proof {
                        lemma_pairs_model(items@);
                    }
                    let ghost im = pairs_model(items@);
                    let ghost req = strs_model(required_keys@);
                    let mut i: usize = 0;
                    while i < items.len()
                        invariant
                            i <= items@.len(),
                            im == pairs_model(items@),
                            req == strs_model(required_keys@),
                            im.len() == items@.len(),
                            forall|j: int| 0 <= j < items@.len() ==> #[trigger] im[j] == (items@[j].0@, type_model(items@[j].1)),
                            types_model(types@) == types_model(types0) + im.take(i as int).map_values(|p: (Seq<char>, TypeModel)| p.1),
                            kinds@ == kinds0 + im.take(i as int).map_values(|p: (Seq<char>, TypeModel)| key_kind(req, p.0)),
                            opt_strs_model(names@) == opt_strs_model(names0) + im.take(i as int).map_values(|p: (Seq<char>, TypeModel)| Some(p.0)),
                        decreases items@.len() - i,
                    {
                        let t = clone_type(&items[i].1);
                        let required = strings_contain(required_keys, items[i].0.as_str());
                        let k: i64 = if required { 3 } else { 5 };
                        let nm = items[i].0.clone();
                        proof {
                            lemma_types_model_push(types@, t);
                            assert(im.take(i + 1) =~= im.take(i as int).push(im[i as int]));
                            assert(im.take(i + 1).map_values(|p: (Seq<char>, TypeModel)| p.1)
                                =~= im.take(i as int).map_values(|p: (Seq<char>, TypeModel)| p.1).push(t@));
                            assert(im.take(i + 1).map_values(|p: (Seq<char>, TypeModel)| key_kind(req, p.0))
                                =~= im.take(i as int).map_values(|p: (Seq<char>, TypeModel)| key_kind(req, p.0)).push(k));
                            assert(im.take(i + 1).map_values(|p: (Seq<char>, TypeModel)| Some(p.0))
                                =~= im.take(i as int).map_values(|p: (Seq<char>, TypeModel)| Some(p.0)).push(Some(nm@)));
                            assert(opt_strs_model(names@.push(Some(nm))) =~= opt_strs_model(names@).push(Some(nm@)));
                        }
                        types.push(t);
                        kinds.push(k);
                        names.push(Some(nm));
                        i = i + 1;
                    }
                    proof {
                        assert(im.take(items@.len() as int) =~= im);
                        assert(types_model(arg_types@).subrange(0, last as int) =~= butlast(types_model(arg_types@)));
                        assert(arg_kinds@.subrange(0, klen as int) =~= butlast(arg_kinds@));
                        assert(opt_strs_model(arg_names@).subrange(0, nlen as int) =~= butlast(opt_strs_model(arg_names@)));
                    }
                    let ret = clone_type(ret_type);
                    Some(rebuild_callable(c, types, kinds, names, ret, false))
                },
                _ => None,
            }
        },
        _ => None,
    }
}


/// `s.take(n)`, or all of `s` when it is shorter.
pub open spec fn clamp_take<A>(s: Seq<A>, n: int) -> Seq<A> {
    if 0 <= n <= s.len() {
        s.take(n)
    } else {
        s
    }
}

/// `s.skip(n)`, or nothing when `s` is shorter.
pub open spec fn clamp_skip<A>(s: Seq<A>, n: int) -> Seq<A> {
    if 0 <= n <= s.len() {
        s.skip(n)
    } else {
        Seq::empty()
    }
}

/// The index of the first `UnpackType` among `items[start..]`.
pub open spec fn first_unpack_from(items: Seq<TypeModel>, start: int) -> Option<int>
    decreases items.len() - start,
{
    if start < 0 || start >= items.len() {
        None
    } else if items[start] is UnpackType {
        Some(start)
    } else {
        first_unpack_from(items, start + 1)
    }
}

/// `n` copies of `x`.
pub open spec fn repeat<A>(x: A, n: int) -> Seq<A> {
    Seq::new(n as nat, |i: int| x)
}

/// The replacement of a `*args: *tuple[...]` parameter in
/// `with_normalized_var_args`, as parameter types, kinds and names:
/// `Some(None)` leaves the callable as it is, `None` declines (an alias
/// to expand, a malformed variadic tuple, or a `*args` without a name
/// slot). `star_name` is the `*args` name, `None` when the name list is
/// too short to hold one.
pub open spec fn var_args_middle(
    fb: TypeModel,
    items: Seq<TypeModel>,
    implicit: bool,
    star_name: Option<Option<Seq<char>>>,
) -> Option<Option<(Seq<TypeModel>, Seq<i64>, Seq<Option<Seq<char>>>)>> {
    match first_unpack_from(items, 0) {
        None => Some(Some((items, repeat(0i64, items.len() as int), repeat(None::<Seq<char>>, items.len() as int)))),
        Some(u) => if u == 0 && items.len() > 1 {
            Some(None)
        } else {
            match var_args_tail(fb, items, implicit, u) {
                None => None,
                Some(None) => Some(None),
                Some(Some(last)) => match star_name {
                    None => None,
                    Some(nm) => Some(Some((items.take(u).push(last), repeat(0i64, u).push(2i64), repeat(None::<Seq<char>>, u).push(nm)))),
                },
            }
        },
    }
}

/// The last parameter type of a normalized `*args` whose tuple has its
/// unpack at `u`: the rest of the tuple from `u` re-wrapped, or the item
/// type of a final `*tuple[X, ...]`. `Some(None)` leaves the callable as
/// it is; `None` declines.
pub open spec fn var_args_tail(fb: TypeModel, items: Seq<TypeModel>, implicit: bool, u: int) -> Option<Option<TypeModel>> {
    match items[u] {
        TypeModel::UnpackType { typ: nested, .. } => match *nested {
            TypeModel::TypeAliasType { .. } => None,
            TypeModel::Instance { type_ref, args, .. } => if u < items.len() - 1 {
                Some(Some(rest_unpack(fb, items, implicit, u)))
            } else if type_ref == "builtins.tuple"@ && args.len() > 0 {
                Some(Some(args[0]))
            } else {
                None
            },
            _ => if u < items.len() - 1 {
                Some(Some(rest_unpack(fb, items, implicit, u)))
            } else {
                Some(None)
            },
        },
        _ => None,
    }
}

/// `*tuple[items[u:]]` over the same fallback.
pub open spec fn rest_unpack(fb: TypeModel, items: Seq<TypeModel>, implicit: bool, u: int) -> TypeModel {
    TypeModel::UnpackType {
        typ: Box::new(TypeModel::TupleType { partial_fallback: Box::new(fb), items: items.skip(u), implicit }),
        from_star_syntax: false,
    }
}

/// `CallableType.with_normalized_var_args()`: a `*args: *tuple[X, Y]`
/// parameter becomes positional parameters `X, Y`, and the prefix of
/// `*args: *tuple[X, *Ts, Y]` before the inner unpack becomes positional.
/// `None` for a non-callable or where `var_args_middle` declines.
pub open spec fn normalized_var_args_spec(c: TypeModel) -> Option<TypeModel> {
    match c {
        TypeModel::CallableType { arg_types, arg_kinds, arg_names, ret_type, unpack_kwargs, .. } => match first_kind_from(
            arg_kinds,
            min2(arg_types.len() as int, arg_kinds.len() as int),
            2,
            0,
        ) {
            None => Some(c),
            Some(vi) => match arg_types[vi] {
                TypeModel::UnpackType { typ, .. } => match *typ {
                    TypeModel::TypeAliasType { .. } => None,
                    TypeModel::TupleType { partial_fallback, items, implicit } => match var_args_middle(
                        *partial_fallback,
                        items,
                        implicit,
                        if vi < arg_names.len() { Some(arg_names[vi]) } else { None },
                    ) {
                        None => None,
                        Some(None) => Some(c),
                        Some(Some(mid)) => Some(
                            with_signature(
                                c,
                                arg_types.take(vi) + mid.0 + arg_types.skip(vi + 1),
                                arg_kinds.take(vi) + mid.1 + arg_kinds.skip(vi + 1),
                                clamp_take(arg_names, vi) + mid.2 + clamp_skip(arg_names, vi + 1),
                                *ret_type,
                                unpack_kwargs,
                            ),
                        ),
                    },
                    _ => Some(c),
                },
                _ => Some(c),
            },
        },
        _ => None,
    }
}

/// `CallableType.with_unpacked_kwargs()` then `with_normalized_var_args()`.
pub open spec fn normalize_spec(c: TypeModel) -> Option<TypeModel> {
    match unpacked_kwargs_spec(c) {
        None => None,
        Some(c2) => normalized_var_args_spec(c2),
    }
}

/// The index of the first `UnpackType` item.
fn first_unpack(items: &Vec<Type>) -> (r: Option<usize>)
    ensures
        opt_usize_model(r) == first_unpack_from(types_model(items@), 0),
        r.is_some() ==> r.unwrap() < items@.len(),
{
    proof {
        lemma_types_model(items@);
    }
    let mut i: usize = 0;
    while i < items.len()
        invariant
            i <= items@.len(),
            types_model(items@).len() == items@.len(),
            forall|j: int| 0 <= j < items@.len() ==> #[trigger] types_model(items@)[j] == type_model(items@[j]),
            first_unpack_from(types_model(items@), 0) == first_unpack_from(types_model(items@), i as int),
        decreases items@.len() - i,
    {
        match &items[i] {
            Type::UnpackType { .. } => {
                return Some(i);
            },
            _ => {},
        }
        i = i + 1;
    }
    None
}

/// `n` positional kinds followed, when `star` holds, by one `*args` kind.
fn pos_kinds(n: usize) -> (r: Vec<i64>)
    ensures
        r@ == repeat(0i64, n as int),
{
    let mut out: Vec<i64> = Vec::new();
    let mut i: usize = 0;
    while i < n
        invariant
            i <= n,
            out@ == repeat(0i64, i as int),
        decreases n - i,
    {
        out.push(0);
        i = i + 1;
        proof {
            assert(out@ =~= repeat(0i64, i as int));
        }
    }
    out
}

/// `n` absent names.
fn no_names(n: usize) -> (r: Vec<Option<String>>)
    ensures
        opt_strs_model(r@) == repeat(None::<Seq<char>>, n as int),
{
    let mut out: Vec<Option<String>> = Vec::new();
    let mut i: usize = 0;
    while i < n
        invariant
            i <= n,
            opt_strs_model(out@) == repeat(None::<Seq<char>>, i as int),
        decreases n - i,
    {
        proof {
            assert(opt_strs_model(out@.push(None)) =~= opt_strs_model(out@).push(None));
        }
        out.push(None);
        i = i + 1;
        proof {
            assert(opt_strs_model(out@) =~= repeat(None::<Seq<char>>, i as int));
        }
    }
    out
}

/// The model of an optional name slot.
pub open spec fn opt_name_slot(s: Option<Option<String>>) -> Option<Option<Seq<char>>> {
    match s {
        Some(n) => Some(opt_str_model(n)),
        None => None,
    }
}

/// `var_args_tail` on concrete lists.
fn var_args_tail_exec(fb: &Type, items: &Vec<Type>, implicit: bool, u: usize) -> (r: Option<Option<Type>>)
    requires
        u < items@.len(),
    ensures
        match r {
            None => var_args_tail(fb@, types_model(items@), implicit, u as int).is_none(),
            Some(None) => var_args_tail(fb@, types_model(items@), implicit, u as int) == Some(None::<TypeModel>),
            Some(Some(l)) => var_args_tail(fb@, types_model(items@), implicit, u as int) == Some(Some(l@)),
        },
{
    proof {
        lemma_types_model(items@);
    }
    let ghost ms = types_model(items@);
    match &items[u] {
        Type::UnpackType { typ: nested, .. } => {
            proof {
                assert(ms[u as int] == type_model(items@[u as int]));
                assert(ms[u as int] matches TypeModel::UnpackType { typ: nt, .. } && *nt == type_model(**nested));
            }
            match &**nested {
                Type::TypeAliasType { .. } => None,
                Type::Instance { type_ref, args, .. } => {
                    if u < items.len() - 1 {
                        Some(Some(rest_unpack_exec(fb, items, implicit, u)))
                    } else {
                        proof {
                            lemma_types_model(args@);
                            assert(type_model(**nested) matches TypeModel::Instance { type_ref: tr, args: a, .. }
                                && tr == type_ref@ && a == types_model(args@));
                        }
                        if str_eq(type_ref.as_str(), "builtins.tuple") && args.len() > 0 {
                            Some(Some(clone_type(&args[0])))
                        } else {
                            None
                        }
                    }
                },
                _ => {
                    if u < items.len() - 1 {
                        Some(Some(rest_unpack_exec(fb, items, implicit, u)))
                    } else {
                        Some(None)
                    }
                },
            }
        },
        _ => None,
    }
}

/// `rest_unpack` on concrete lists.
fn rest_unpack_exec(fb: &Type, items: &Vec<Type>, implicit: bool, u: usize) -> (r: Type)
    requires
        u <= items@.len(),
    ensures
        r@ == rest_unpack(fb@, types_model(items@), implicit, u as int),
{
    let mut rest: Vec<Type> = Vec::new();
    extend_types(&mut rest, items, u, items.len());
    proof {
        lemma_types_model(items@);
        assert(types_model(Seq::<Type>::empty()) =~= Seq::<TypeModel>::empty());
        assert(types_model(rest@) =~= types_model(items@).skip(u as int));
    }
    let f = clone_type(fb);
    let tup = Type::TupleType { partial_fallback: Box::new(f), items: rest, implicit };
    proof {
        assert(tup@ == TypeModel::TupleType {
            partial_fallback: Box::new(fb@),
            items: types_model(items@).skip(u as int),
            implicit,
        });
    }
    Type::UnpackType { typ: Box::new(tup), from_star_syntax: false }
}

/// `var_args_middle` on concrete lists.
fn var_args_middle_exec(
    fb: &Type,
    items: &Vec<Type>,
    implicit: bool,
    star_name: Option<Option<String>>,
) -> (r: Option<Option<(Vec<Type>, Vec<i64>, Vec<Option<String>>)>>)
    ensures
        match r {
            None => var_args_middle(fb@, types_model(items@), implicit, opt_name_slot(star_name)).is_none(),
            Some(None) => var_args_middle(fb@, types_model(items@), implicit, opt_name_slot(star_name)) == Some(
                None::<(Seq<TypeModel>, Seq<i64>, Seq<Option<Seq<char>>>)>,
            ),
            Some(Some(m)) => var_args_middle(fb@, types_model(items@), implicit, opt_name_slot(star_name)) == Some(
                Some((types_model(m.0@), m.1@, opt_strs_model(m.2@))),
            ),
        },
{
    proof {
        lemma_types_model(items@);
    }
    let ghost ms = types_model(items@);
    match first_unpack(items) {
        None => {
            let t = clone_types(items);
            let k = pos_kinds(items.len());
            let n = no_names(items.len());
            Some(Some((t, k, n)))
        },
        Some(u) => {
            if u == 0 && items.len() > 1 {
                return Some(None);
            }
            match var_args_tail_exec(fb, items, implicit, u) {
                None => None,
                Some(None) => Some(None),
                Some(Some(last)) => match star_name {
                    None => None,
                    Some(nm) => {
                        let mut t: Vec<Type> = Vec::new();
                        extend_types(&mut t, items, 0, u);
                        proof {
                            lemma_types_model_push(t@, last);
                            assert(types_model(Seq::<Type>::empty()) =~= Seq::<TypeModel>::empty());
                            assert(ms.subrange(0, u as int) =~= ms.take(u as int));
                        }
                        t.push(last);
                        let mut k = pos_kinds(u);
                        k.push(2);
                        let mut n = no_names(u);
                        proof {
                            assert(opt_strs_model(n@.push(nm)) =~= opt_strs_model(n@).push(opt_str_model(nm)));
                        }
                        n.push(nm);
                        Some(Some((t, k, n)))
                    },
                },
            }
        },
    }
}

/// `with_normalized_var_args` on a callable.
fn with_normalized_var_args(c: &Type) -> (r: Option<Type>)
    ensures
        match r {
            None => normalized_var_args_spec(c@).is_none(),
            Some(t) => normalized_var_args_spec(c@) == Some(t@),
        },
{
    match c {
        Type::CallableType { arg_types, arg_kinds, arg_names, ret_type, unpack_kwargs, .. } => {
            proof {
                lemma_types_model(arg_types@);
            }
            let n = if arg_types.len() <= arg_kinds.len() { arg_types.len() } else { arg_kinds.len() };
            let vi = match first_kind_index(arg_kinds.as_slice(), n, 2) {
                None => {
                    return Some(clone_type(c));
                },
                Some(v) => v,
            };
            proof {
                assert(c@ matches TypeModel::CallableType { arg_types: at, arg_kinds: ak, arg_names: an, .. }
                    && at == types_model(arg_types@) && ak == arg_kinds@ && an == opt_strs_model(arg_names@));
                assert(types_model(arg_types@)[vi as int] == type_model(arg_types@[vi as int]));
            }
            match &arg_types[vi] {
                Type::UnpackType { typ, .. } => match &**typ {
                    Type::TypeAliasType { .. } => {
                        proof {
                            assert(type_model(arg_types@[vi as int]) matches TypeModel::UnpackType { typ: t2, .. } && *t2 == type_model(**typ));
                        }
                        None
                    },
                    Type::TupleType { partial_fallback, items, implicit } => {
                        let star_name: Option<Option<String>> = if vi < arg_names.len() {
                            Some(clone_opt_string(&arg_names[vi]))
                        } else {
                            None
                        };
                        proof {
                            assert(opt_name_slot(star_name) == (if vi < arg_names@.len() {
                                Some(opt_strs_model(arg_names@)[vi as int])
                            } else {
                                None
                            }));
                        }
                        proof {
                            assert(type_model(arg_types@[vi as int]) matches TypeModel::UnpackType { typ: t2, .. } && *t2 == type_model(**typ));
                            assert(type_model(**typ) matches TypeModel::TupleType { partial_fallback: pf, items: it, implicit: im }
                                && *pf == type_model(**partial_fallback) && it == types_model(items@) && im == *implicit);
                        }
                        match var_args_middle_exec(partial_fallback, items, *implicit, star_name) {
                            None => None,
                            Some(None) => Some(clone_type(c)),
                            Some(Some(mid)) => {
                                let (mt, mk, mn) = mid;
                                let mut types: Vec<Type> = Vec::new();
                                extend_types(&mut types, arg_types, 0, vi);
                                append_types_vec(&mut types, &mt);
                                extend_types(&mut types, arg_types, vi + 1, arg_types.len());
                                let mut kinds: Vec<i64> = Vec::new();
                                extend_kinds(&mut kinds, arg_kinds, 0, vi);
                                extend_kinds(&mut kinds, &mk, 0, mk.len());
                                extend_kinds(&mut kinds, arg_kinds, vi + 1, arg_kinds.len());
                                let mut names: Vec<Option<String>> = Vec::new();
                                let pre = if vi <= arg_names.len() { vi } else { arg_names.len() };
                                extend_names(&mut names, arg_names, 0, pre);
                                extend_names(&mut names, &mn, 0, mn.len());
                                let post = if vi + 1 <= arg_names.len() { vi + 1 } else { arg_names.len() };
                                extend_names(&mut names, arg_names, post, arg_names.len());
                                proof {
                                    let tm = types_model(arg_types@);
                                    assert(types_model(Seq::<Type>::empty()) =~= Seq::<TypeModel>::empty());
                                    assert(tm.subrange(0, vi as int) =~= tm.take(vi as int));
                                    assert(tm.subrange(vi + 1, tm.len() as int) =~= tm.skip(vi + 1));
                                    assert(mk@.subrange(0, mk@.len() as int) =~= mk@);
                                    assert(arg_kinds@.subrange(0, vi as int) =~= arg_kinds@.take(vi as int));
                                    assert(arg_kinds@.subrange(vi + 1, arg_kinds@.len() as int) =~= arg_kinds@.skip(vi + 1));
                                    let nm = opt_strs_model(arg_names@);
                                    assert(opt_strs_model(mn@).subrange(0, mn@.len() as int) =~= opt_strs_model(mn@));
                                    assert(nm.subrange(0, pre as int) =~= clamp_take(nm, vi as int));
                                    assert(nm.subrange(post as int, nm.len() as int) =~= clamp_skip(nm, vi + 1));
                                    assert(opt_strs_model(Seq::<Option<String>>::empty()) =~= Seq::<Option<Seq<char>>>::empty());
                                }
                                let ret = clone_type(ret_type);
                                Some(rebuild_callable(c, types, kinds, names, ret, *unpack_kwargs))
                            },
                        }
                    },
                    _ => Some(clone_type(c)),
                },
                _ => Some(clone_type(c)),
            }
        },
        _ => None,
    }
}

/// Append copies of all of `extra` to `out`.
fn append_types_vec(out: &mut Vec<Type>, extra: &Vec<Type>)
    ensures
        types_model(final(out)@) == types_model(old(out)@) + types_model(extra@),
{
    extend_types(out, extra, 0, extra.len());
    proof {
        lemma_types_model(extra@);
        assert(types_model(extra@).subrange(0, extra@.len() as int) =~= types_model(extra@));
    }
}

/// `CallableType.with_unpacked_kwargs()` then `with_normalized_var_args()`,
/// the normalization at the head of `check_callable_call`.
pub fn normalize_callable(callee: &Type) -> (r: Option<Type>)
    ensures
        match r {
            None => normalize_spec(callee@).is_none(),
            Some(t) => normalize_spec(callee@) == Some(t@),
        },
{
    match with_unpacked_kwargs(callee) {
        None => None,
        Some(step) => with_normalized_var_args(&step),
    }
}


/// The type-object return calibration: the callable with its return type
/// replaced by `TypeType.make_normalized(arg)`. `None` for a non-callable
/// or an alias argument, whose target is not held.
pub open spec fn calibrate_spec(callee: TypeModel, arg: TypeModel) -> Option<TypeModel> {
    if arg is TypeAliasType {
        None
    } else {
        match callee {
            TypeModel::CallableType { arg_types, arg_kinds, arg_names, unpack_kwargs, .. } => Some(
                with_signature(callee, arg_types, arg_kinds, arg_names, make_type_normalized_spec(arg), unpack_kwargs),
            ),
            _ => None,
        }
    }
}

/// `TypeType.make_normalized(arg_types[0])` as a type-object callable's
/// return type. The `is_type_obj()` gate is the caller's.
pub fn calibrate_type_obj_return(callee: &Type, arg_type: &Type) -> (r: Option<Type>)
    ensures
        match r {
            None => calibrate_spec(callee@, arg_type@).is_none(),
            Some(t) => calibrate_spec(callee@, arg_type@) == Some(t@),
        },
{
    if let Type::TypeAliasType { .. } = arg_type {
        return None;
    }
    match callee {
        Type::CallableType { arg_types, arg_kinds, arg_names, unpack_kwargs, .. } => {
            let new_ret = make_type_type_normalized(arg_type);
            let types = clone_types(arg_types);
            let kinds = clone_kinds(arg_kinds);
            let names = clone_opt_strings(arg_names);
            Some(rebuild_callable(callee, types, kinds, names, new_ret, *unpack_kwargs))
        },
        _ => None,
    }
}

/// A return type the tail can tell is equivalent to `builtins.type`:
/// `Any`, or the bare `builtins.type` instance.
pub open spec fn type_ret_equivalent(t: TypeModel) -> bool {
    match t {
        TypeModel::AnyType { .. } => true,
        TypeModel::Instance { type_ref, args, .. } => type_ref == "builtins.type"@ && args.len() == 0,
        _ => false,
    }
}

/// The `check_callable_call` tail after argument binding: a type object
/// over `builtins.type` whose return type is equivalent to `type`, called
/// with exactly one argument, returns `type[arg]`. `None` whenever the
/// calibration does not apply or cannot be decided without a resolver.
pub open spec fn call_tail_spec(callee: TypeModel, args: Seq<TypeModel>) -> Option<TypeModel> {
    match callee {
        TypeModel::CallableType { fallback, ret_type, .. } => if (match *fallback {
            TypeModel::Instance { type_ref, .. } => type_ref == "builtins.type"@,
            _ => false,
        }) && type_ret_equivalent(*ret_type) && args.len() == 1 {
            calibrate_spec(callee, args[0])
        } else {
            None
        },
        _ => None,
    }
}

/// The `check_callable_call` tail: the type-object return calibration,
/// gated on the callee being a type object and on exactly one argument.
pub fn check_callable_call_tail(callee: &Type, arg_types: &[Type]) -> (r: Option<Type>)
    ensures
        match r {
            None => call_tail_spec(callee@, types_model(arg_types@)).is_none(),
            Some(t) => call_tail_spec(callee@, types_model(arg_types@)) == Some(t@),
        },
{
    proof {
        lemma_types_model(arg_types@);
    }
    match callee {
        Type::CallableType { fallback, ret_type, .. } => {
            let meta = match &**fallback {
                Type::Instance { type_ref, .. } => str_eq(type_ref.as_str(), "builtins.type"),
                _ => false,
            };
            let equivalent = match &**ret_type {
                Type::AnyType { .. } => true,
                Type::Instance { type_ref, args, .. } => {
                    proof {
                        lemma_types_model(args@);
                    }
                    str_eq(type_ref.as_str(), "builtins.type") && args.len() == 0
                },
                _ => false,
            };
            proof {
                assert(callee@ matches TypeModel::CallableType { fallback: fb, ret_type: rt, .. }
                    && *fb == type_model(**fallback) && *rt == type_model(**ret_type));
            }
            if meta && equivalent && arg_types.len() == 1 {
                calibrate_type_obj_return(callee, &arg_types[0])
            } else {
                None
            }
        },
        _ => None,
    }
}

/// `ExpressionChecker.real_union` counting: the relevant items of a union,
/// `None` items dropped without strict optional; `None` at an alias item
/// whose proper type would be needed.
pub open spec fn relevant_count(items: Seq<TypeModel>, strict: bool) -> Option<int>
    decreases items.len(),
{
    if items.len() == 0 {
        Some(0)
    } else {
        match relevant_count(items.drop_last(), strict) {
            None => None,
            Some(n) => if strict {
                Some(n + 1)
            } else {
                match items.last() {
                    TypeModel::TypeAliasType { .. } => None,
                    TypeModel::NoneType => Some(n),
                    _ => Some(n + 1),
                }
            },
        }
    }
}

/// `ExpressionChecker.real_union`: a union with more than one relevant
/// item. `None` for an alias, or an alias item that must be inspected.
pub open spec fn real_union_spec(t: TypeModel, strict: bool) -> Option<bool> {
    match t {
        TypeModel::TypeAliasType { .. } => None,
        TypeModel::UnionType { items, .. } => match relevant_count(items, strict) {
            None => None,
            Some(n) => Some(n > 1),
        },
        _ => Some(false),
    }
}

/// Whether a type is a union with more than one relevant item, which makes
/// `check_call` dispatch per union item.
pub fn real_union(typ: &Type, strict_optional: bool, resolver: &TypeResolver) -> (r: Option<bool>)
    ensures
        r == real_union_spec(typ@, strict_optional),
{
    match typ {
        Type::TypeAliasType { .. } => None,
        Type::UnionType { items, .. } => {
            proof {
                lemma_types_model(items@);
                assert(typ@ matches TypeModel::UnionType { items: it, .. } && it == types_model(items@));
            }
            let mut n: usize = 0;
            let mut i: usize = 0;
            while i < items.len()
                invariant
                    i <= items@.len(),
                    n <= i,
                    types_model(items@).len() == items@.len(),
                    forall|j: int| 0 <= j < items@.len() ==> #[trigger] types_model(items@)[j] == type_model(items@[j]),
                    relevant_count(types_model(items@).take(i as int), strict_optional) == Some(n as int),
                    real_union_spec(typ@, strict_optional) == match relevant_count(types_model(items@), strict_optional) {
                        None => None,
                        Some(c) => Some(c > 1),
                    },
                decreases items@.len() - i,
            {
                proof {
                    let ms = types_model(items@);
                    assert(ms.take(i + 1).drop_last() =~= ms.take(i as int));
                    assert(ms.take(i + 1).last() == type_model(items@[i as int]));
                }
                if strict_optional {
                    n = n + 1;
                } else {
                    match &items[i] {
                        Type::TypeAliasType { .. } => {
                            proof {
                                lemma_relevant_count_none_persists(types_model(items@), strict_optional, i as int + 1);
                            }
                            return None;
                        },
                        Type::NoneType => {},
                        _ => {
                            n = n + 1;
                        },
                    }
                }
                i = i + 1;
            }
            proof {
                assert(types_model(items@).take(items@.len() as int) =~= types_model(items@));
            }
            Some(n > 1)
        },
        _ => Some(false),
    }
}

/// Once a prefix of the items declines, every longer prefix does.
proof fn lemma_relevant_count_none_persists(items: Seq<TypeModel>, strict: bool, k: int)
    requires
        0 <= k <= items.len(),
        relevant_count(items.take(k), strict).is_none(),
    ensures
        relevant_count(items, strict).is_none(),
    decreases items.len() - k,
{
    if k < items.len() {
        assert(items.take(k + 1).drop_last() =~= items.take(k));
        lemma_relevant_count_none_persists(items, strict, k + 1);
    } else {
        assert(items.take(k) =~= items);
    }
}


/// Whether some argument type is a union with a `None` item. `None` at an
/// alias argument, or an alias item of a union argument.
pub open spec fn optional_arg_spec(args: Seq<TypeModel>) -> Option<bool>
    decreases args.len(),
{
    if args.len() == 0 {
        Some(false)
    } else {
        match optional_arg_spec(args.drop_last()) {
            None => None,
            Some(b) => match args.last() {
                TypeModel::TypeAliasType { .. } => None,
                TypeModel::UnionType { items, .. } => match union_has_none(items) {
                    None => None,
                    Some(h) => Some(b || h),
                },
                _ => Some(b),
            },
        }
    }
}

/// Whether a union's items hold `None`; `None` at an alias item.
pub open spec fn union_has_none(items: Seq<TypeModel>) -> Option<bool>
    decreases items.len(),
{
    if items.len() == 0 {
        Some(false)
    } else {
        match union_has_none(items.drop_last()) {
            None => None,
            Some(b) => match items.last() {
                TypeModel::TypeAliasType { .. } => None,
                TypeModel::NoneType => Some(true),
                _ => Some(b),
            },
        }
    }
}

/// The parameter types of a callable model; empty for anything else.
pub open spec fn callable_args(t: TypeModel) -> Seq<TypeModel> {
    match t {
        TypeModel::CallableType { arg_types, .. } => arg_types,
        _ => Seq::empty(),
    }
}

/// The fewest parameters among the first `k` targets.
pub open spec fn min_arity(targets: Seq<TypeModel>, k: int) -> int
    decreases k,
{
    if k <= 1 {
        callable_args(targets[0]).len() as int
    } else {
        min2(min_arity(targets, k - 1), callable_args(targets[k - 1]).len() as int)
    }
}

/// At parameter `i`, whether some of the first `k` targets take `None` and
/// whether some take a type variable; `None` at an alias.
pub open spec fn column_flags(targets: Seq<TypeModel>, i: int, k: int) -> Option<(bool, bool)>
    decreases k,
{
    if k <= 0 {
        Some((false, false))
    } else {
        match column_flags(targets, i, k - 1) {
            None => None,
            Some((n, v)) => match callable_args(targets[k - 1])[i] {
                TypeModel::TypeAliasType { .. } => None,
                TypeModel::NoneType => Some((true, v)),
                TypeModel::TypeVarType { .. } => Some((n, true)),
                _ => Some((n, v)),
            },
        }
    }
}

/// Scan parameter positions `i..n` for one where a target takes `None` and
/// another a type variable.
pub open spec fn overlap_from(targets: Seq<TypeModel>, i: int, n: int) -> Option<bool>
    decreases n - i,
{
    if i >= n {
        Some(false)
    } else {
        match column_flags(targets, i, targets.len() as int) {
            None => None,
            Some((has_none, has_var)) => if has_none && has_var {
                Some(true)
            } else {
                overlap_from(targets, i + 1, n)
            },
        }
    }
}

/// `ExpressionChecker.possible_none_type_var_overlap`: some argument is an
/// optional union, and at some position below every target's arity one
/// target takes `None` where another takes a type variable. `None` where an
/// alias must be inspected, or when the targets are not all callables.
pub open spec fn none_overlap_spec(args: Seq<TypeModel>, targets: Seq<TypeModel>) -> Option<bool> {
    match optional_arg_spec(args) {
        None => None,
        Some(false) => Some(false),
        Some(true) => if targets.len() == 0 || exists|c: int| 0 <= c < targets.len() && !(#[trigger] targets[c] is CallableType) {
            None
        } else {
            overlap_from(targets, 0, min_arity(targets, targets.len() as int))
        },
    }
}

/// Whether a union's items hold `None`.
fn union_has_none_exec(items: &Vec<Type>) -> (r: Option<bool>)
    ensures
        r == union_has_none(types_model(items@)),
{
    proof {
        lemma_types_model(items@);
    }
    let mut acc = false;
    let mut i: usize = 0;
    while i < items.len()
        invariant
            i <= items@.len(),
            types_model(items@).len() == items@.len(),
            forall|j: int| 0 <= j < items@.len() ==> #[trigger] types_model(items@)[j] == type_model(items@[j]),
            union_has_none(types_model(items@).take(i as int)) == Some(acc),
        decreases items@.len() - i,
    {
        proof {
            let ms = types_model(items@);
            assert(ms.take(i + 1).drop_last() =~= ms.take(i as int));
            assert(ms.take(i + 1).last() == type_model(items@[i as int]));
        }
        match &items[i] {
            Type::TypeAliasType { .. } => {
                proof {
                    lemma_union_has_none_persists(types_model(items@), i as int + 1);
                }
                return None;
            },
            Type::NoneType => {
                acc = true;
            },
            _ => {},
        }
        i = i + 1;
    }
    proof {
        assert(types_model(items@).take(items@.len() as int) =~= types_model(items@));
    }
    Some(acc)
}

proof fn lemma_union_has_none_persists(items: Seq<TypeModel>, k: int)
    requires
        0 <= k <= items.len(),
        union_has_none(items.take(k)).is_none(),
    ensures
        union_has_none(items).is_none(),
    decreases items.len() - k,
{
    if k < items.len() {
        assert(items.take(k + 1).drop_last() =~= items.take(k));
        lemma_union_has_none_persists(items, k + 1);
    } else {
        assert(items.take(k) =~= items);
    }
}

proof fn lemma_optional_arg_persists(args: Seq<TypeModel>, k: int)
    requires
        0 <= k <= args.len(),
        optional_arg_spec(args.take(k)).is_none(),
    ensures
        optional_arg_spec(args).is_none(),
    decreases args.len() - k,
{
    if k < args.len() {
        assert(args.take(k + 1).drop_last() =~= args.take(k));
        lemma_optional_arg_persists(args, k + 1);
    } else {
        assert(args.take(k) =~= args);
    }
}

/// Whether some argument type is an optional union.
fn optional_arg_exec(args: &[Type]) -> (r: Option<bool>)
    ensures
        r == optional_arg_spec(types_model(args@)),
{
    proof {
        lemma_types_model(args@);
    }
    let mut acc = false;
    let mut i: usize = 0;
    while i < args.len()
        invariant
            i <= args@.len(),
            types_model(args@).len() == args@.len(),
            forall|j: int| 0 <= j < args@.len() ==> #[trigger] types_model(args@)[j] == type_model(args@[j]),
            optional_arg_spec(types_model(args@).take(i as int)) == Some(acc),
        decreases args@.len() - i,
    {
        proof {
            let ms = types_model(args@);
            assert(ms.take(i + 1).drop_last() =~= ms.take(i as int));
            assert(ms.take(i + 1).last() == type_model(args@[i as int]));
        }
        match &args[i] {
            Type::TypeAliasType { .. } => {
                proof {
                    lemma_optional_arg_persists(types_model(args@), i as int + 1);
                }
                return None;
            },
            Type::UnionType { items, .. } => {
                match union_has_none_exec(items) {
                    None => {
                        proof {
                            lemma_optional_arg_persists(types_model(args@), i as int + 1);
                        }
                        return None;
                    },
                    Some(h) => {
                        acc = acc || h;
                    },
                }
            },
            _ => {},
        }
        i = i + 1;
    }
    proof {
        assert(types_model(args@).take(args@.len() as int) =~= types_model(args@));
    }
    Some(acc)
}

/// `column_flags` at parameter `i` over every target.
fn column_flags_exec(targets: &[Type], i: usize) -> (r: Option<(bool, bool)>)
    requires
        forall|c: int| 0 <= c < targets@.len() ==> #[trigger] targets@[c] is CallableType,
        forall|c: int| 0 <= c < targets@.len() ==> i < callable_args(#[trigger] types_model(targets@)[c]).len(),
    ensures
        r == column_flags(types_model(targets@), i as int, targets@.len() as int),
{
    proof {
        lemma_types_model(targets@);
    }
    let ghost tm = types_model(targets@);
    let mut has_none = false;
    let mut has_var = false;
    let mut k: usize = 0;
    while k < targets.len()
        invariant
            k <= targets@.len(),
            tm == types_model(targets@),
            tm.len() == targets@.len(),
            forall|j: int| 0 <= j < targets@.len() ==> #[trigger] tm[j] == type_model(targets@[j]),
            forall|c: int| 0 <= c < targets@.len() ==> #[trigger] targets@[c] is CallableType,
            forall|c: int| 0 <= c < targets@.len() ==> i < callable_args(#[trigger] tm[c]).len(),
            column_flags(tm, i as int, k as int) == Some((has_none, has_var)),
        decreases targets@.len() - k,
    {
        let args = match &targets[k] {
            Type::CallableType { arg_types, .. } => arg_types,
            _ => {
                proof {
                    assert(false);
                }
                return None;
            },
        };
        proof {
            assert(tm[k as int] == type_model(targets@[k as int]));
            lemma_types_model(args@);
            assert(callable_args(tm[k as int]) == types_model(args@));
            assert(i < callable_args(tm[k as int]).len());
            assert(callable_args(tm[k as int])[i as int] == type_model(args@[i as int]));
        }
        match &args[i] {
            Type::TypeAliasType { .. } => {
                proof {
                    lemma_column_flags_none_persists(tm, i as int, k as int + 1, targets@.len() as int);
                }
                return None;
            },
            Type::NoneType => {
                has_none = true;
            },
            Type::TypeVarType { .. } => {
                has_var = true;
            },
            _ => {},
        }
        k = k + 1;
    }
    Some((has_none, has_var))
}

proof fn lemma_column_flags_none_persists(targets: Seq<TypeModel>, i: int, k: int, n: int)
    requires
        0 <= k <= n,
        column_flags(targets, i, k).is_none(),
    ensures
        column_flags(targets, i, n).is_none(),
    decreases n - k,
{
    if k < n {
        lemma_column_flags_none_persists(targets, i, k + 1, n);
    }
}

/// `ExpressionChecker.possible_none_type_var_overlap`: the heuristic that
/// forces union math during overload resolution.
pub fn possible_none_type_var_overlap(arg_types: &[Type], plausible_targets: &[Type], resolver: &TypeResolver) -> (r: Option<bool>)
    ensures
        r == none_overlap_spec(types_model(arg_types@), types_model(plausible_targets@)),
{
    proof {
        lemma_types_model(plausible_targets@);
    }
    let ghost tm = types_model(plausible_targets@);
    match optional_arg_exec(arg_types) {
        None => {
            return None;
        },
        Some(false) => {
            return Some(false);
        },
        Some(true) => {},
    }
    if plausible_targets.len() == 0 {
        return None;
    }
    let mut k: usize = 0;
    let mut min_len: usize = 0;
    while k < plausible_targets.len()
        invariant
            0 < plausible_targets@.len(),
            optional_arg_spec(types_model(arg_types@)) == Some(true),
            k <= plausible_targets@.len(),
            tm == types_model(plausible_targets@),
            tm.len() == plausible_targets@.len(),
            forall|j: int| 0 <= j < plausible_targets@.len() ==> #[trigger] tm[j] == type_model(plausible_targets@[j]),
            forall|c: int| 0 <= c < k ==> #[trigger] plausible_targets@[c] is CallableType,
            k > 0 ==> min_len == min_arity(tm, k as int),
        decreases plausible_targets@.len() - k,
    {
        match &plausible_targets[k] {
            Type::CallableType { arg_types: ts, .. } => {
                proof {
                    lemma_types_model(ts@);
                    assert(tm[k as int] == type_model(plausible_targets@[k as int]));
                    assert(callable_args(tm[k as int]) == types_model(ts@));
                }
                if k == 0 || ts.len() < min_len {
                    min_len = ts.len();
                }
            },
            _ => {
                proof {
                    assert(tm[k as int] == type_model(plausible_targets@[k as int]));
                    assert(!(tm[k as int] is CallableType));
                }
                return None;
            },
        }
        k = k + 1;
    }
    proof {
        assert forall|c: int| 0 <= c < tm.len() implies #[trigger] tm[c] is CallableType by {
            assert(tm[c] == type_model(plausible_targets@[c]));
        }
        lemma_min_arity_bound(tm, tm.len() as int);
    }
    let mut i: usize = 0;
    while i < min_len
        invariant
            i <= min_len,
            0 < plausible_targets@.len(),
            optional_arg_spec(types_model(arg_types@)) == Some(true),
            min_len == min_arity(tm, tm.len() as int),
            forall|c: int| 0 <= c < tm.len() ==> #[trigger] tm[c] is CallableType,
            tm == types_model(plausible_targets@),
            forall|c: int| 0 <= c < plausible_targets@.len() ==> #[trigger] plausible_targets@[c] is CallableType,
            forall|c: int| 0 <= c < tm.len() ==> min_len <= callable_args(#[trigger] tm[c]).len(),
            tm.len() == plausible_targets@.len(),
            overlap_from(tm, 0, min_len as int) == overlap_from(tm, i as int, min_len as int),
        decreases min_len - i,
    {
        match column_flags_exec(plausible_targets, i) {
            None => {
                return None;
            },
            Some((has_none, has_var)) => {
                if has_none && has_var {
                    return Some(true);
                }
            },
        }
        i = i + 1;
    }
    Some(false)
}

/// Every counted target has at least `min_arity` parameters.
proof fn lemma_min_arity_bound(targets: Seq<TypeModel>, k: int)
    requires
        1 <= k <= targets.len(),
    ensures
        forall|c: int| 0 <= c < k ==> min_arity(targets, k) <= callable_args(#[trigger] targets[c]).len(),
    decreases k,
{
    if k > 1 {
        lemma_min_arity_bound(targets, k - 1);
    }
}


/// Whether a callable carries an `UnpackType` anywhere in its parameter
/// types or its return type. An alias there, whose target is not held,
/// counts as possibly carrying one; any other type carries none.
pub open spec fn any_unpack_spec(t: TypeModel) -> bool {
    match t {
        TypeModel::CallableType { arg_types, ret_type, .. } => then_ask(
            query_seq(arg_types, BoolQuery::Unpack),
            query(*ret_type, BoolQuery::Unpack),
        ) != Some(false),
        _ => false,
    }
}

/// Whether an unpacked variadic item occurs anywhere in `typ`, which the
/// callable-compatibility and overload checks refuse to compare.
pub fn any_unpack_anywhere(typ: &Type) -> (r: bool)
    ensures
        r == any_unpack_spec(typ@),
{
    match typ {
        Type::CallableType { arg_types, ret_type, .. } => {
            let a = run_query_vec(arg_types, BoolQuery::Unpack);
            let b = if a == Some(false) { run_query(ret_type, BoolQuery::Unpack) } else { a };
            b != Some(false)
        },
        _ => false,
    }
}


/// A callable model marked bound; anything else unchanged.
pub open spec fn bound_copy(c: TypeModel) -> TypeModel {
    match c {
        TypeModel::CallableType {
            fallback,
            instance_type,
            is_ellipsis_args,
            implicit,
            is_bound,
            from_concatenate,
            imprecise_arg_kinds,
            unpack_kwargs,
            from_type_type,
            arg_types,
            arg_kinds,
            arg_names,
            ret_type,
            name,
            variables,
            type_guard,
            type_is,
            special_sig,
            definition_ref,
        } => TypeModel::CallableType {
            fallback,
            instance_type,
            is_ellipsis_args,
            implicit,
            is_bound: true,
            from_concatenate,
            imprecise_arg_kinds,
            unpack_kwargs,
            from_type_type,
            arg_types,
            arg_kinds,
            arg_names,
            ret_type,
            name,
            variables,
            type_guard,
            type_is,
            special_sig,
            definition_ref,
        },
        _ => c,
    }
}

/// Mark a callable bound.
pub(crate) fn mark_bound(c: Type) -> (r: Type)
    ensures
        r@ == bound_copy(c@),
{
    match c {
        Type::CallableType {
            fallback,
            instance_type,
            is_ellipsis_args,
            implicit,
            from_concatenate,
            imprecise_arg_kinds,
            unpack_kwargs,
            from_type_type,
            arg_types,
            arg_kinds,
            arg_names,
            ret_type,
            name,
            variables,
            type_guard,
            type_is,
            special_sig,
            definition_ref,
            ..
        } => Type::CallableType {
            fallback,
            instance_type,
            is_ellipsis_args,
            implicit,
            is_bound: true,
            from_concatenate,
            imprecise_arg_kinds,
            unpack_kwargs,
            from_type_type,
            arg_types,
            arg_kinds,
            arg_names,
            ret_type,
            name,
            variables,
            type_guard,
            type_is,
            special_sig,
            definition_ref,
        },
        other => other,
    }
}

/// A method's callable with its first parameter dropped and marked bound.
pub open spec fn strip_self_spec(c: TypeModel) -> TypeModel {
    match c {
        TypeModel::CallableType { arg_types, arg_kinds, arg_names, ret_type, unpack_kwargs, .. } => bound_copy(
            with_signature(
                c,
                arg_types.skip(1),
                clamp_skip(arg_kinds, 1),
                clamp_skip(arg_names, 1),
                *ret_type,
                unpack_kwargs,
            ),
        ),
        _ => c,
    }
}

/// Drop a method's first parameter and mark it bound.
pub(crate) fn strip_self(c: &Type) -> (r: Type)
    requires
        c@ matches TypeModel::CallableType { arg_types, .. } && arg_types.len() > 0,
    ensures
        r@ == strip_self_spec(c@),
{
    match c {
        Type::CallableType { arg_types, arg_kinds, arg_names, ret_type, unpack_kwargs, .. } => {
            proof {
                lemma_types_model(arg_types@);
            }
            let mut types: Vec<Type> = Vec::new();
            extend_types(&mut types, arg_types, 1, arg_types.len());
            let mut kinds: Vec<i64> = Vec::new();
            let k0 = if arg_kinds.len() == 0 { 0 } else { 1 };
            extend_kinds(&mut kinds, arg_kinds, k0, arg_kinds.len());
            let mut names: Vec<Option<String>> = Vec::new();
            let n0 = if arg_names.len() == 0 { 0 } else { 1 };
            extend_names(&mut names, arg_names, n0, arg_names.len());
            proof {
                let tm = types_model(arg_types@);
                assert(types_model(Seq::<Type>::empty()) =~= Seq::<TypeModel>::empty());
                assert(opt_strs_model(Seq::<Option<String>>::empty()) =~= Seq::<Option<Seq<char>>>::empty());
                assert(tm.subrange(1, tm.len() as int) =~= tm.skip(1));
                assert(arg_kinds@.subrange(k0 as int, arg_kinds@.len() as int) =~= clamp_skip(arg_kinds@, 1));
                let nm = opt_strs_model(arg_names@);
                assert(nm.subrange(n0 as int, nm.len() as int) =~= clamp_skip(nm, 1));
            }
            let ret = clone_type(ret_type);
            let stripped = rebuild_callable(c, types, kinds, names, ret, *unpack_kwargs);
            mark_bound(stripped)
        },
        _ => clone_type(c),
    }
}


/// The binding of plain positional actuals to plain positional formals:
/// formal `j` takes actual `j` when there is one.
pub open spec fn positional_rows(n_actual: int, n_formal: nat) -> Seq<Seq<i64>> {
    Seq::new(n_formal, |j: int| if j < n_actual { seq![j as i64] } else { Seq::<i64>::empty() })
}

proof fn lemma_positional_upto(actual: Seq<ActualArg>, formal: Seq<FormalParam>, types: Seq<Option<TypeModel>>, k: int)
    requires
        0 <= k <= actual.len(),
        actual.len() <= i64::MAX,
        forall|i: int| 0 <= i < actual.len() ==> (#[trigger] actual[i]).kind == ArgKind::Pos,
        forall|j: int| 0 <= j < formal.len() ==> (#[trigger] formal[j]).kind == ArgKind::Pos,
    ensures
        bind_upto(actual, formal, types, k) == Some(BindState {
            mapped: positional_rows(k, formal.len()),
            ambiguous: Seq::empty(),
            fi: if k <= formal.len() { k } else { formal.len() as int },
        }),
    decreases k,
{
    if k == 0 {
        assert(positional_rows(0, formal.len()) =~= Seq::new(formal.len(), |i: int| Seq::<i64>::empty()));
    } else {
        lemma_positional_upto(actual, formal, types, k - 1);
        let st = bind_upto(actual, formal, types, k - 1).unwrap();
        assert(actual[k - 1].kind == ArgKind::Pos);
        if k - 1 < formal.len() {
            assert(formal[k - 1].kind == ArgKind::Pos);
            assert(push_at(st.mapped, k - 1, k - 1) =~= positional_rows(k, formal.len()));
        } else {
            assert(st.mapped =~= positional_rows(k, formal.len()));
        }
    }
}

/// Plain positional actuals bind in order to plain positional formals:
/// formal `j` takes exactly actual `j`, and a positional actual past the
/// last formal is dropped rather than bound.
pub proof fn law_positional_actuals_bind_in_order(actual: Seq<ActualArg>, formal: Seq<FormalParam>)
    requires
        actual.len() <= i64::MAX,
        forall|i: int| 0 <= i < actual.len() ==> (#[trigger] actual[i]).kind == ArgKind::Pos,
        forall|j: int| 0 <= j < formal.len() ==> (#[trigger] formal[j]).kind == ArgKind::Pos,
    ensures
        !has_star_actual(actual),
        bind_spec(actual, formal, Seq::empty()) == Some(positional_rows(actual.len() as int, formal.len())),
{
    lemma_positional_upto(actual, formal, Seq::empty(), actual.len() as int);
    let st = bind_upto(actual, formal, Seq::empty(), actual.len() as int).unwrap();
    assert(bind_spec(actual, formal, Seq::empty()).unwrap() =~= positional_rows(actual.len() as int, formal.len())) by {
        assert forall|i: int| 0 <= i < formal.len() implies st.mapped[i] + st.ambiguous =~= st.mapped[i] by {}
    }
    assert forall|i: int| 0 <= i < actual.len() implies !tag_is_star(kind_tag(#[trigger] actual[i].kind)) by {
        assert(actual[i].kind == ArgKind::Pos);
    }
}

/// The reverse binding is the forward one read the other way: actual `a`
/// lists formal `f` exactly when formal `f` lists actual `a`.
pub proof fn law_reverse_binding_mirrors_forward(actual: Seq<ActualArg>, formal: Seq<FormalParam>, a: int, f: int)
    requires
        actual.len() <= i64::MAX,
        formal.len() <= i64::MAX,
        bind_spec(actual, formal, Seq::empty()).is_some(),
        0 <= a < actual.len(),
        0 <= f < formal.len(),
    ensures
        reverse_spec(bind_spec(actual, formal, Seq::empty()).unwrap(), actual.len())[a].contains(f as i64)
            <==> bind_spec(actual, formal, Seq::empty()).unwrap()[f].contains(a as i64),
{
    lemma_reverse_is_inverse(bind_spec(actual, formal, Seq::empty()).unwrap(), actual.len(), a, f);
}


/// The tag of an argument kind is in `0..=5` and names that kind alone, so
/// reading back the tag `as_i64` writes gives the same kind.
pub proof fn law_arg_kind_tags_round_trip(k: ArgKind, j: ArgKind)
    ensures
        0 <= kind_tag(k) <= 5,
        kind_tag(k) == kind_tag(j) ==> k == j,
{
}

/// Each row of `m2` holds what the same row of `m1` holds, give or take
/// the value `ai`.
pub open spec fn adds_only(m1: Seq<Seq<i64>>, m2: Seq<Seq<i64>>, ai: i64) -> bool {
    &&& m2.len() == m1.len()
    &&& forall|i: int, x: i64|
        #![trigger m2[i].contains(x)]
        #![trigger m1[i].contains(x)]
        0 <= i < m1.len() && x != ai ==> (m2[i].contains(x) <==> m1[i].contains(x))
}

proof fn lemma_concat_contains(s: Seq<i64>, t: Seq<i64>, x: i64)
    ensures
        (s + t).contains(x) <==> (s.contains(x) || t.contains(x)),
{
    if s.contains(x) {
        let j = choose|j: int| 0 <= j < s.len() && s[j] == x;
        assert((s + t)[j] == x);
    }
    if t.contains(x) {
        let j = choose|j: int| 0 <= j < t.len() && t[j] == x;
        assert((s + t)[s.len() + j] == x);
    }
    if (s + t).contains(x) {
        let j = choose|j: int| 0 <= j < (s + t).len() && (s + t)[j] == x;
        if j < s.len() {
            assert(s[j] == x);
        } else {
            assert(t[j - s.len()] == x);
        }
    }
}

proof fn lemma_push_at_adds_only(m: Seq<Seq<i64>>, i: int, a: int)
    requires
        0 <= i < m.len(),
    ensures
        adds_only(m, push_at(m, i, a), a as i64),
        push_at(m, i, a)[i].contains(a as i64),
{
    assert forall|k: int, x: i64| 0 <= k < m.len() && x != (a as i64) implies
        (push_at(m, i, a)[k].contains(x) <==> m[k].contains(x)) by {
        if k == i {
            lemma_push_contains(m[i], a as i64, x);
        }
    }
    lemma_push_contains(m[i], a as i64, a as i64);
}

proof fn lemma_adds_only_trans(m1: Seq<Seq<i64>>, m2: Seq<Seq<i64>>, m3: Seq<Seq<i64>>, ai: i64)
    requires
        adds_only(m1, m2, ai),
        adds_only(m2, m3, ai),
    ensures
        adds_only(m1, m3, ai),
{
    assert forall|i: int, x: i64| 0 <= i < m1.len() && x != ai implies (m3[i].contains(x) <==> m1[i].contains(x)) by {
        assert(m3[i].contains(x) <==> m2[i].contains(x));
    }
}

proof fn lemma_tuple_fill_adds_only(formal: Seq<FormalParam>, m: Seq<Seq<i64>>, fi: int, count: nat, ai: int)
    requires
        m.len() == formal.len(),
    ensures
        adds_only(m, tuple_fill(formal, m, fi, count, ai).0, ai as i64),
    decreases count,
{
    if count == 0 || fi < 0 || fi >= formal.len() || formal[fi].kind == ArgKind::Star2 {
    } else {
        let next = if formal[fi].kind != ArgKind::Star { fi + 1 } else { fi };
        lemma_push_at_adds_only(m, fi, ai);
        lemma_tuple_fill_adds_only(formal, push_at(m, fi, ai), next, (count - 1) as nat, ai);
        lemma_adds_only_trans(m, push_at(m, fi, ai), tuple_fill(formal, m, fi, count, ai).0, ai as i64);
    }
}

proof fn lemma_iter_fill_adds_only(formal: Seq<FormalParam>, m: Seq<Seq<i64>>, fi: int, ai: int)
    requires
        m.len() == formal.len(),
    ensures
        adds_only(m, iter_fill(formal, m, fi, ai).0, ai as i64),
    decreases formal.len() - fi,
{
    if fi < 0 || fi >= formal.len() || tag_is_named(kind_tag(formal[fi].kind), true) {
    } else if formal[fi].kind == ArgKind::Star {
        lemma_push_at_adds_only(m, fi, ai);
    } else {
        lemma_push_at_adds_only(m, fi, ai);
        lemma_iter_fill_adds_only(formal, push_at(m, fi, ai), fi + 1, ai);
        lemma_adds_only_trans(m, push_at(m, fi, ai), iter_fill(formal, m, fi, ai).0, ai as i64);
    }
}

proof fn lemma_find_name_bound(formal: Seq<FormalParam>, name: Seq<char>, start: int)
    requires
        0 <= start,
    ensures
        start <= find_name_from(formal, name, start) <= formal.len() || (start > formal.len()
            && find_name_from(formal, name, start) == formal.len()),
        find_name_from(formal, name, start) < formal.len() ==> opt_str_model(
            formal[find_name_from(formal, name, start)].name,
        ) == Some(name),
        forall|g: int| start <= g < find_name_from(formal, name, start) ==> opt_str_model(#[trigger] formal[g].name) != Some(name),
    decreases formal.len() - start,
{
    if start < formal.len() && opt_str_model(formal[start].name) != Some(name) {
        lemma_find_name_bound(formal, name, start + 1);
    }
}

proof fn lemma_find_kind_bound(formal: Seq<FormalParam>, kind: ArgKind, start: int)
    requires
        0 <= start,
    ensures
        find_kind_from(formal, kind, start) <= formal.len() || start > formal.len(),
        find_kind_from(formal, kind, start) >= start || start > formal.len(),
        find_kind_from(formal, kind, start) < formal.len() ==> formal[find_kind_from(formal, kind, start)].kind == kind,
        forall|g: int| start <= g < find_kind_from(formal, kind, start) ==> (#[trigger] formal[g]).kind != kind,
    decreases formal.len() - start,
{
    if start < formal.len() && formal[start].kind != kind {
        lemma_find_kind_bound(formal, kind, start + 1);
    }
}

/// Where `named_route` puts a keyword called `name`: the first formal of
/// that name unless it is a skipped `*args`, else the first `**kwargs`.
pub open spec fn named_target(formal: Seq<FormalParam>, name: Seq<char>, skip_star: bool) -> Option<int> {
    let idx = find_name_from(formal, name, 0);
    let s2 = find_kind_from(formal, ArgKind::Star2, 0);
    if idx < formal.len() && !(skip_star && formal[idx].kind == ArgKind::Star) {
        Some(idx)
    } else if s2 < formal.len() {
        Some(s2)
    } else {
        None
    }
}

proof fn lemma_named_route_adds_only(formal: Seq<FormalParam>, m: Seq<Seq<i64>>, name: Seq<char>, ai: int, skip_star: bool)
    requires
        m.len() == formal.len(),
    ensures
        adds_only(m, named_route(formal, m, name, ai, skip_star), ai as i64),
        forall|i: int| 0 <= i < formal.len() && !m[i].contains(ai as i64) ==>
            (#[trigger] named_route(formal, m, name, ai, skip_star)[i].contains(ai as i64) <==> named_target(formal, name, skip_star) == Some(i)),
{
    lemma_find_name_bound(formal, name, 0);
    lemma_find_kind_bound(formal, ArgKind::Star2, 0);
    let r = named_route(formal, m, name, ai, skip_star);
    match named_target(formal, name, skip_star) {
        Some(t) => {
            lemma_push_at_adds_only(m, t, ai);
            assert forall|i: int| 0 <= i < formal.len() && i != t implies r[i] == m[i] by {}
        },
        None => {
            assert(r == m);
        },
    }
}

proof fn lemma_key_fill_adds_only(formal: Seq<FormalParam>, m: Seq<Seq<i64>>, keys: Seq<(Seq<char>, TypeModel)>, ai: int)
    requires
        m.len() == formal.len(),
    ensures
        adds_only(m, key_fill(formal, m, keys, ai), ai as i64),
    decreases keys.len(),
{
    if keys.len() > 0 {
        let m1 = key_fill(formal, m, keys.drop_last(), ai);
        lemma_key_fill_adds_only(formal, m, keys.drop_last(), ai);
        lemma_named_route_adds_only(formal, m1, keys.last().0, ai, false);
        lemma_adds_only_trans(m, m1, key_fill(formal, m, keys, ai), ai as i64);
    }
}

proof fn lemma_bind_step_adds_only(formal: Seq<FormalParam>, st: BindState, a: ActualArg, ai: int, t: Option<TypeModel>)
    requires
        st.mapped.len() == formal.len(),
        bind_step(formal, st, a, ai, t).is_some(),
    ensures
        adds_only(st.mapped, bind_step(formal, st, a, ai, t).unwrap().mapped, ai as i64),
        bind_step(formal, st, a, ai, t).unwrap().ambiguous == st.ambiguous
            || bind_step(formal, st, a, ai, t).unwrap().ambiguous == st.ambiguous.push(ai as i64),
        (a.kind == ArgKind::Named || a.kind == ArgKind::NamedOpt) ==> bind_step(formal, st, a, ai, t).unwrap().mapped
            == named_route(formal, st.mapped, a.name.unwrap()@, ai, true) && bind_step(formal, st, a, ai, t).unwrap().ambiguous
            == st.ambiguous,
{
    let n = formal.len() as int;
    assert(adds_only(st.mapped, st.mapped, ai as i64));
    match a.kind {
        ArgKind::Pos => {
            if 0 <= st.fi < n && (!tag_is_star(kind_tag(formal[st.fi].kind)) || formal[st.fi].kind == ArgKind::Star) {
                lemma_push_at_adds_only(st.mapped, st.fi, ai);
            }
        },
        ArgKind::Star => match t {
            Some(TypeModel::TupleType { items, .. }) => {
                lemma_tuple_fill_adds_only(formal, st.mapped, st.fi, items.len(), ai);
            },
            Some(_) => {
                lemma_iter_fill_adds_only(formal, st.mapped, st.fi, ai);
            },
            None => {},
        },
        ArgKind::Named | ArgKind::NamedOpt => {
            lemma_named_route_adds_only(formal, st.mapped, a.name.unwrap()@, ai, true);
        },
        ArgKind::Star2 => match t {
            Some(TypeModel::TypedDictType { items, .. }) => {
                lemma_key_fill_adds_only(formal, st.mapped, items, ai);
            },
            _ => {},
        },
        ArgKind::Opt => {},
    }
}

/// After `k` actuals every row and the ambiguous list hold indices below `k`.
proof fn lemma_bind_upto_below(actual: Seq<ActualArg>, formal: Seq<FormalParam>, types: Seq<Option<TypeModel>>, k: int)
    requires
        actual.len() <= i64::MAX,
        0 <= k <= actual.len(),
        bind_upto(actual, formal, types, k).is_some(),
    ensures
        bind_upto(actual, formal, types, k).unwrap().mapped.len() == formal.len(),
        forall|i: int, x: i64| 0 <= i < formal.len() && #[trigger] bind_upto(actual, formal, types, k).unwrap().mapped[i].contains(x) ==> 0 <= x < k,
        forall|x: i64| #[trigger] bind_upto(actual, formal, types, k).unwrap().ambiguous.contains(x) ==> 0 <= x < k,
    decreases k,
{
    if k > 0 {
        lemma_bind_upto_below(actual, formal, types, k - 1);
        let st = bind_upto(actual, formal, types, k - 1).unwrap();
        let st2 = bind_upto(actual, formal, types, k).unwrap();
        lemma_bind_step_adds_only(formal, st, actual[k - 1], k - 1, star_type_at(types, k - 1));
        assert forall|i: int, x: i64| 0 <= i < formal.len() && #[trigger] st2.mapped[i].contains(x) implies 0 <= x < k by {
            if x != ((k - 1) as i64) {
                assert(st.mapped[i].contains(x));
            }
        }
        assert forall|x: i64| #[trigger] st2.ambiguous.contains(x) implies 0 <= x < k by {
            if x != ((k - 1) as i64) {
                if st2.ambiguous != st.ambiguous {
                    lemma_push_contains(st.ambiguous, (k - 1) as i64, x);
                }
                assert(st.ambiguous.contains(x));
            }
        }
    } else {
        let st = bind_upto(actual, formal, types, 0).unwrap();
        assert forall|i: int, x: i64| 0 <= i < formal.len() && #[trigger] st.mapped[i].contains(x) implies 0 <= x < k by {
            assert(st.mapped[i] =~= Seq::<i64>::empty());
        }
    }
}

/// Once keyword actual `a` is routed, the rows holding it stay exactly the
/// one it was routed to, and the ambiguous list never holds it.
proof fn lemma_keyword_row_after(actual: Seq<ActualArg>, formal: Seq<FormalParam>, types: Seq<Option<TypeModel>>, a: int, k: int)
    requires
        actual.len() <= i64::MAX,
        0 <= a < k <= actual.len(),
        actual[a].kind == ArgKind::Named || actual[a].kind == ArgKind::NamedOpt,
        actual[a].name.is_some(),
        bind_upto(actual, formal, types, k).is_some(),
    ensures
        bind_upto(actual, formal, types, k).unwrap().mapped.len() == formal.len(),
        forall|i: int| 0 <= i < formal.len() ==> (#[trigger] bind_upto(actual, formal, types, k).unwrap().mapped[i].contains(a as i64)
            <==> named_target(formal, actual[a].name.unwrap()@, true) == Some(i)),
        !bind_upto(actual, formal, types, k).unwrap().ambiguous.contains(a as i64),
    decreases k,
{
    lemma_bind_upto_below(actual, formal, types, k);
    let st2 = bind_upto(actual, formal, types, k).unwrap();
    if bind_upto(actual, formal, types, k - 1).is_none() {
        assert(false);
    }
    let st = bind_upto(actual, formal, types, k - 1).unwrap();
    lemma_bind_upto_below(actual, formal, types, k - 1);
    lemma_bind_step_adds_only(formal, st, actual[k - 1], k - 1, star_type_at(types, k - 1));
    if k - 1 == a {
        let nm = actual[a].name.unwrap()@;
        lemma_named_route_adds_only(formal, st.mapped, nm, a, true);
        assert forall|i: int| 0 <= i < formal.len() implies !st.mapped[i].contains(a as i64) by {
            if st.mapped[i].contains(a as i64) {
                assert(0 <= (a as i64) < a);
            }
        }
        if st.ambiguous.contains(a as i64) {
            assert(0 <= (a as i64) < a);
        }
    } else {
        lemma_keyword_row_after(actual, formal, types, a, k - 1);
        assert forall|i: int| 0 <= i < formal.len() implies (#[trigger] st2.mapped[i].contains(a as i64)
            <==> st.mapped[i].contains(a as i64)) by {}
        if st2.ambiguous != st.ambiguous {
            lemma_push_contains(st.ambiguous, (k - 1) as i64, a as i64);
        }
    }
}

proof fn lemma_keyword_rows(actual: Seq<ActualArg>, formal: Seq<FormalParam>, types: Seq<Option<TypeModel>>, a: int)
    requires
        actual.len() <= i64::MAX,
        0 <= a < actual.len(),
        actual[a].kind == ArgKind::Named || actual[a].kind == ArgKind::NamedOpt,
        actual[a].name.is_some(),
        bind_spec(actual, formal, types).is_some(),
    ensures
        forall|i: int| 0 <= i < formal.len() ==> (#[trigger] bind_spec(actual, formal, types).unwrap()[i].contains(a as i64)
            <==> named_target(formal, actual[a].name.unwrap()@, true) == Some(i)),
{
    let k = actual.len() as int;
    lemma_keyword_row_after(actual, formal, types, a, k);
    let st = bind_upto(actual, formal, types, k).unwrap();
    assert forall|i: int| 0 <= i < formal.len() implies (#[trigger] bind_spec(actual, formal, types).unwrap()[i].contains(a as i64)
        <==> st.mapped[i].contains(a as i64)) by {
        lemma_concat_contains(st.mapped[i], st.ambiguous, a as i64);
    }
}

/// A keyword actual whose name is that of a formal other than `*args` (the
/// first formal of that name) binds to that formal and to no other: not to
/// `**kwargs`.
pub proof fn law_keyword_binds_to_its_named_formal(
    actual: Seq<ActualArg>,
    formal: Seq<FormalParam>,
    types: Seq<Option<TypeModel>>,
    a: int,
    f: int,
)
    requires
        actual.len() <= i64::MAX,
        0 <= a < actual.len(),
        0 <= f < formal.len(),
        actual[a].kind == ArgKind::Named || actual[a].kind == ArgKind::NamedOpt,
        actual[a].name.is_some(),
        opt_str_model(formal[f].name) == Some(actual[a].name.unwrap()@),
        formal[f].kind != ArgKind::Star,
        forall|g: int| 0 <= g < f ==> opt_str_model(#[trigger] formal[g].name) != Some(actual[a].name.unwrap()@),
    ensures
        match bind_spec(actual, formal, types) {
            Some(m) => m[f].contains(a as i64) && forall|g: int| 0 <= g < formal.len() && g != f ==> !(#[trigger] m[g]).contains(a as i64),
            None => true,
        },
{
    let nm = actual[a].name.unwrap()@;
    lemma_find_name_bound(formal, nm, 0);
    if find_name_from(formal, nm, 0) < f {
        assert(opt_str_model(formal[find_name_from(formal, nm, 0)].name) != Some(nm));
    }
    if f < find_name_from(formal, nm, 0) {
        assert(opt_str_model(formal[f].name) != Some(nm));
    }
    assert(named_target(formal, nm, true) == Some(f));
    if bind_spec(actual, formal, types).is_some() {
        lemma_keyword_rows(actual, formal, types, a);
    }
}

/// A keyword actual that names no formal (or only a `*args` formal) binds to
/// the first `**kwargs` formal and to no other; with no `**kwargs` formal it
/// binds nowhere.
pub proof fn law_unmatched_keyword_goes_to_kwargs(
    actual: Seq<ActualArg>,
    formal: Seq<FormalParam>,
    types: Seq<Option<TypeModel>>,
    a: int,
)
    requires
        actual.len() <= i64::MAX,
        0 <= a < actual.len(),
        actual[a].kind == ArgKind::Named || actual[a].kind == ArgKind::NamedOpt,
        actual[a].name.is_some(),
        forall|g: int| 0 <= g < formal.len() && opt_str_model(#[trigger] formal[g].name) == Some(actual[a].name.unwrap()@)
            ==> formal[g].kind == ArgKind::Star,
    ensures
        match bind_spec(actual, formal, types) {
            Some(m) => forall|g: int| 0 <= g < formal.len() ==> ((#[trigger] m[g]).contains(a as i64) <==> (formal[g].kind
                == ArgKind::Star2 && forall|h: int| 0 <= h < g ==> (#[trigger] formal[h]).kind != ArgKind::Star2)),
            None => true,
        },
{
    let nm = actual[a].name.unwrap()@;
    lemma_find_name_bound(formal, nm, 0);
    lemma_find_kind_bound(formal, ArgKind::Star2, 0);
    let s2 = find_kind_from(formal, ArgKind::Star2, 0);
    if bind_spec(actual, formal, types).is_some() {
        lemma_keyword_rows(actual, formal, types, a);
        let m = bind_spec(actual, formal, types).unwrap();
        assert forall|g: int| 0 <= g < formal.len() implies ((#[trigger] m[g]).contains(a as i64) <==> (formal[g].kind
            == ArgKind::Star2 && forall|h: int| 0 <= h < g ==> (#[trigger] formal[h]).kind != ArgKind::Star2)) by {
            if formal[g].kind == ArgKind::Star2 && forall|h: int| 0 <= h < g ==> (#[trigger] formal[h]).kind != ArgKind::Star2 {
                if s2 < g {
                    assert(formal[s2].kind == ArgKind::Star2);
                }
                assert(s2 == g);
            }
        }
    }
}

} // verus!
