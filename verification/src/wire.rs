//! The kernel's type representation and its mathematical model.
//!
//! `Type` mirrors mypy's `ProperType` family plus `TypeAliasType`. Its
//! model `TypeModel` replaces every owned container by a sequence and
//! every string by its characters, so contracts compare types by value.

use vstd::prelude::*;

verus! {

/// `TypeOfAny.unannotated`.
pub const UNANNOTATED: i64 = 1;
/// `TypeOfAny.explicit`.
pub const EXPLICIT: i64 = 2;
/// `TypeOfAny.from_unimported_type`.
pub const FROM_UNIMPORTED_TYPE: i64 = 3;
/// `TypeOfAny.from_omitted_generics`.
pub const FROM_OMITTED_GENERICS: i64 = 4;
/// `TypeOfAny.from_error`.
pub const FROM_ERROR: i64 = 5;
/// `TypeOfAny.special_form`.
pub const SPECIAL_FORM: i64 = 6;

/// The value a `LiteralType` carries.
#[derive(Debug, PartialEq)]
pub enum LiteralValue {
    Bool(bool),
    Int(i64),
    Str(String),
}

/// `mypy.types.ExtraAttrs`: attributes synthesized onto an `Instance`.
#[derive(Debug, PartialEq)]
pub struct ExtraAttrs {
    pub attrs: Vec<(String, Type)>,
    pub immutable: Vec<String>,
    pub mod_name: Option<String>,
}

/// A type of the kernel.
#[derive(Debug, PartialEq)]
pub enum Type {
    AnyType { type_of_any: i64, source_any: Option<Box<Type>>, missing_import_name: Option<String> },
    NoneType,
    UninhabitedType { ambiguous: bool },
    ErasedType,
    DeletedType { source: Option<String> },
    Instance {
        type_ref: String,
        args: Vec<Type>,
        last_known_value: Option<Box<Type>>,
        extra_attrs: Option<ExtraAttrs>,
    },
    TypeVarType {
        name: String,
        fullname: String,
        raw_id: i64,
        namespace: String,
        values: Vec<Type>,
        upper_bound: Box<Type>,
        default: Box<Type>,
        variance: i64,
        meta_level: i64,
    },
    CallableType {
        fallback: Box<Type>,
        instance_type: Option<Box<Type>>,
        is_ellipsis_args: bool,
        implicit: bool,
        is_bound: bool,
        from_concatenate: bool,
        imprecise_arg_kinds: bool,
        unpack_kwargs: bool,
        from_type_type: bool,
        arg_types: Vec<Type>,
        arg_kinds: Vec<i64>,
        arg_names: Vec<Option<String>>,
        ret_type: Box<Type>,
        name: Option<String>,
        variables: Vec<Type>,
        type_guard: Option<Box<Type>>,
        type_is: Option<Box<Type>>,
        special_sig: Option<String>,
        definition_ref: Option<String>,
    },
    Overloaded { items: Vec<Type> },
    TupleType { partial_fallback: Box<Type>, items: Vec<Type>, implicit: bool },
    TypedDictType {
        fallback: Box<Type>,
        items: Vec<(String, Type)>,
        required_keys: Vec<String>,
        readonly_keys: Vec<String>,
        is_closed: bool,
    },
    LiteralType { fallback: Box<Type>, value: LiteralValue },
    UnionType {
        items: Vec<Type>,
        uses_pep604_syntax: bool,
        can_be_true: bool,
        can_be_false: bool,
        is_evaluated: bool,
        original_str_expr: Option<String>,
        original_str_fallback: Option<String>,
    },
    TypeType { item: Box<Type>, is_type_form: bool },
    UnpackType { typ: Box<Type>, from_star_syntax: bool },
    TypeAliasType { args: Vec<Type>, type_ref: String, is_recursive: bool },
}

/// The model of a `LiteralValue`.
pub enum LiteralModel {
    Bool(bool),
    Int(int),
    Str(Seq<char>),
}

/// The model of an `ExtraAttrs`.
pub struct ExtraAttrsModel {
    pub attrs: Seq<(Seq<char>, TypeModel)>,
    pub immutable: Seq<Seq<char>>,
    pub mod_name: Option<Seq<char>>,
}

/// The model of a `Type`: the same tree with sequences for containers.
pub enum TypeModel {
    AnyType { type_of_any: int, source_any: Option<Box<TypeModel>>, missing_import_name: Option<Seq<char>> },
    NoneType,
    UninhabitedType { ambiguous: bool },
    ErasedType,
    DeletedType { source: Option<Seq<char>> },
    Instance {
        type_ref: Seq<char>,
        args: Seq<TypeModel>,
        last_known_value: Option<Box<TypeModel>>,
        extra_attrs: Option<ExtraAttrsModel>,
    },
    TypeVarType {
        name: Seq<char>,
        fullname: Seq<char>,
        raw_id: int,
        namespace: Seq<char>,
        values: Seq<TypeModel>,
        upper_bound: Box<TypeModel>,
        default: Box<TypeModel>,
        variance: int,
        meta_level: int,
    },
    CallableType {
        fallback: Box<TypeModel>,
        instance_type: Option<Box<TypeModel>>,
        is_ellipsis_args: bool,
        implicit: bool,
        is_bound: bool,
        from_concatenate: bool,
        imprecise_arg_kinds: bool,
        unpack_kwargs: bool,
        from_type_type: bool,
        arg_types: Seq<TypeModel>,
        arg_kinds: Seq<i64>,
        arg_names: Seq<Option<Seq<char>>>,
        ret_type: Box<TypeModel>,
        name: Option<Seq<char>>,
        variables: Seq<TypeModel>,
        type_guard: Option<Box<TypeModel>>,
        type_is: Option<Box<TypeModel>>,
        special_sig: Option<Seq<char>>,
        definition_ref: Option<Seq<char>>,
    },
    Overloaded { items: Seq<TypeModel> },
    TupleType { partial_fallback: Box<TypeModel>, items: Seq<TypeModel>, implicit: bool },
    TypedDictType {
        fallback: Box<TypeModel>,
        items: Seq<(Seq<char>, TypeModel)>,
        required_keys: Seq<Seq<char>>,
        readonly_keys: Seq<Seq<char>>,
        is_closed: bool,
    },
    LiteralType { fallback: Box<TypeModel>, value: LiteralModel },
    UnionType {
        items: Seq<TypeModel>,
        uses_pep604_syntax: bool,
        can_be_true: bool,
        can_be_false: bool,
        is_evaluated: bool,
        original_str_expr: Option<Seq<char>>,
        original_str_fallback: Option<Seq<char>>,
    },
    TypeType { item: Box<TypeModel>, is_type_form: bool },
    UnpackType { typ: Box<TypeModel>, from_star_syntax: bool },
    TypeAliasType { args: Seq<TypeModel>, type_ref: Seq<char>, is_recursive: bool },
}

pub open spec fn opt_str_model(s: Option<String>) -> Option<Seq<char>> {
    match s {
        Some(x) => Some(x@),
        None => None,
    }
}

pub open spec fn strs_model(s: Seq<String>) -> Seq<Seq<char>> {
    s.map_values(|x: String| x@)
}

pub open spec fn opt_strs_model(s: Seq<Option<String>>) -> Seq<Option<Seq<char>>> {
    s.map_values(|x: Option<String>| opt_str_model(x))
}

pub open spec fn literal_model(v: LiteralValue) -> LiteralModel {
    match v {
        LiteralValue::Bool(b) => LiteralModel::Bool(b),
        LiteralValue::Int(i) => LiteralModel::Int(i as int),
        LiteralValue::Str(s) => LiteralModel::Str(s@),
    }
}

pub open spec fn opt_type_model(t: Option<Box<Type>>) -> Option<Box<TypeModel>>
    decreases t, 2nat,
{
    match t {
        Some(b) => Some(Box::new(type_model(*b))),
        None => None,
    }
}

pub open spec fn extra_model(e: Option<ExtraAttrs>) -> Option<ExtraAttrsModel>
    decreases e, 2nat,
{
    match e {
        Some(x) => Some(ExtraAttrsModel {
            attrs: pairs_model(x.attrs@),
            immutable: strs_model(x.immutable@),
            mod_name: opt_str_model(x.mod_name),
        }),
        None => None,
    }
}

/// The model of a type.
pub open spec fn type_model(t: Type) -> TypeModel
    decreases t, 1nat,
{
    match t {
        Type::AnyType { type_of_any, source_any, missing_import_name } => TypeModel::AnyType {
            type_of_any: type_of_any as int,
            source_any: opt_type_model(source_any),
            missing_import_name: opt_str_model(missing_import_name),
        },
        Type::NoneType => TypeModel::NoneType,
        Type::UninhabitedType { ambiguous } => TypeModel::UninhabitedType { ambiguous },
        Type::ErasedType => TypeModel::ErasedType,
        Type::DeletedType { source } => TypeModel::DeletedType { source: opt_str_model(source) },
        Type::Instance { type_ref, args, last_known_value, extra_attrs } => TypeModel::Instance {
            type_ref: type_ref@,
            args: types_model(args@),
            last_known_value: opt_type_model(last_known_value),
            extra_attrs: extra_model(extra_attrs),
        },
        Type::TypeVarType { name, fullname, raw_id, namespace, values, upper_bound, default, variance, meta_level } =>
            TypeModel::TypeVarType {
                name: name@,
                fullname: fullname@,
                raw_id: raw_id as int,
                namespace: namespace@,
                values: types_model(values@),
                upper_bound: Box::new(type_model(*upper_bound)),
                default: Box::new(type_model(*default)),
                variance: variance as int,
                meta_level: meta_level as int,
            },
        Type::CallableType {
            fallback,
            instance_type,
            is_ellipsis_args,
            implicit,
            is_bound,
            from_concatenate,
            imprecise_arg_kinds,
            unpack_kwargs,
            from_type_type,
            arg_types,
            arg_kinds,
            arg_names,
            ret_type,
            name,
            variables,
            type_guard,
            type_is,
            special_sig,
            definition_ref,
        } => TypeModel::CallableType {
            fallback: Box::new(type_model(*fallback)),
            instance_type: opt_type_model(instance_type),
            is_ellipsis_args,
            implicit,
            is_bound,
            from_concatenate,
            imprecise_arg_kinds,
            unpack_kwargs,
            from_type_type,
            arg_types: types_model(arg_types@),
            arg_kinds: arg_kinds@,
            arg_names: opt_strs_model(arg_names@),
            ret_type: Box::new(type_model(*ret_type)),
            name: opt_str_model(name),
            variables: types_model(variables@),
            type_guard: opt_type_model(type_guard),
            type_is: opt_type_model(type_is),
            special_sig: opt_str_model(special_sig),
            definition_ref: opt_str_model(definition_ref),
        },
        Type::Overloaded { items } => TypeModel::Overloaded { items: types_model(items@) },
        Type::TupleType { partial_fallback, items, implicit } => TypeModel::TupleType {
            partial_fallback: Box::new(type_model(*partial_fallback)),
            items: types_model(items@),
            implicit,
        },
        Type::TypedDictType { fallback, items, required_keys, readonly_keys, is_closed } =>
            TypeModel::TypedDictType {
                fallback: Box::new(type_model(*fallback)),
                items: pairs_model(items@),
                required_keys: strs_model(required_keys@),
                readonly_keys: strs_model(readonly_keys@),
                is_closed,
            },
        Type::LiteralType { fallback, value } => TypeModel::LiteralType {
            fallback: Box::new(type_model(*fallback)),
            value: literal_model(value),
        },
        Type::UnionType {
            items,
            uses_pep604_syntax,
            can_be_true,
            can_be_false,
            is_evaluated,
            original_str_expr,
            original_str_fallback,
        } => TypeModel::UnionType {
            items: types_model(items@),
            uses_pep604_syntax,
            can_be_true,
            can_be_false,
            is_evaluated,
            original_str_expr: opt_str_model(original_str_expr),
            original_str_fallback: opt_str_model(original_str_fallback),
        },
        Type::TypeType { item, is_type_form } => TypeModel::TypeType {
            item: Box::new(type_model(*item)),
            is_type_form,
        },
        Type::UnpackType { typ, from_star_syntax } => TypeModel::UnpackType {
            typ: Box::new(type_model(*typ)),
            from_star_syntax,
        },
        Type::TypeAliasType { args, type_ref, is_recursive } => TypeModel::TypeAliasType {
            args: types_model(args@),
            type_ref: type_ref@,
            is_recursive,
        },
    }
}

/// The models of a sequence of types, element by element.
pub open spec fn types_model(s: Seq<Type>) -> Seq<TypeModel>
    decreases s, 0nat,
{
    if s.len() == 0 {
        Seq::empty()
    } else {
        types_model(s.drop_last()).push(type_model(s.last()))
    }
}

/// The models of a sequence of named types, element by element.
pub open spec fn pairs_model(s: Seq<(String, Type)>) -> Seq<(Seq<char>, TypeModel)>
    decreases s, 0nat,
{
    if s.len() == 0 {
        Seq::empty()
    } else {
        pairs_model(s.drop_last()).push((s.last().0@, type_model(s.last().1)))
    }
}

impl View for Type {
    type V = TypeModel;

    open spec fn view(&self) -> TypeModel {
        type_model(*self)
    }
}

/// `types_model` keeps the length and maps each element.
pub proof fn lemma_types_model(s: Seq<Type>)
    ensures
        types_model(s).len() == s.len(),
        forall|i: int| 0 <= i < s.len() ==> #[trigger] types_model(s)[i] == type_model(s[i]),
    decreases s.len(),
{
    if s.len() > 0 {
        lemma_types_model(s.drop_last());
    }
}

/// `types_model` distributes over `push`.
pub proof fn lemma_types_model_push(s: Seq<Type>, t: Type)
    ensures
        types_model(s.push(t)) == types_model(s).push(type_model(t)),
{
    assert(s.push(t).drop_last() =~= s);
}

/// `pairs_model` keeps the length and maps each element.
pub proof fn lemma_pairs_model(s: Seq<(String, Type)>)
    ensures
        pairs_model(s).len() == s.len(),
        forall|i: int| 0 <= i < s.len() ==> #[trigger] pairs_model(s)[i] == (s[i].0@, type_model(s[i].1)),
    decreases s.len(),
{
    if s.len() > 0 {
        lemma_pairs_model(s.drop_last());
    }
}

impl Clone for Type {
    fn clone(&self) -> (r: Self)
        ensures
            r@ == self@,
    {
        clone_type(self)
    }
}

pub fn clone_opt_string(s: &Option<String>) -> (r: Option<String>)
    ensures
        opt_str_model(r) == opt_str_model(*s),
{
    match s {
        Some(x) => Some(x.clone()),
        None => None,
    }
}

pub fn clone_strings(v: &Vec<String>) -> (r: Vec<String>)
    ensures
        strs_model(r@) == strs_model(v@),
        r@.len() == v@.len(),
{
    let mut out: Vec<String> = Vec::new();
    let mut i: usize = 0;
    while i < v.len()
        invariant
            i <= v@.len(),
            out@.len() == i,
            forall|j: int| 0 <= j < i ==> #[trigger] out@[j]@ == v@[j]@,
        decreases v@.len() - i,
    {
        out.push(v[i].clone());
        i = i + 1;
    }
    assert(strs_model(out@) =~= strs_model(v@));
    out
}

pub fn clone_opt_strings(v: &Vec<Option<String>>) -> (r: Vec<Option<String>>)
    ensures
        opt_strs_model(r@) == opt_strs_model(v@),
        r@.len() == v@.len(),
{
    let mut out: Vec<Option<String>> = Vec::new();
    let mut i: usize = 0;
    while i < v.len()
        invariant
            i <= v@.len(),
            out@.len() == i,
            forall|j: int| 0 <= j < i ==> opt_str_model(#[trigger] out@[j]) == opt_str_model(v@[j]),
        decreases v@.len() - i,
    {
        out.push(clone_opt_string(&v[i]));
        i = i + 1;
    }
    assert(opt_strs_model(out@) =~= opt_strs_model(v@));
    out
}

pub fn clone_kinds(v: &Vec<i64>) -> (r: Vec<i64>)
    ensures
        r@ == v@,
{
    let mut out: Vec<i64> = Vec::new();
    let mut i: usize = 0;
    while i < v.len()
        invariant
            i <= v@.len(),
            out@ == v@.subrange(0, i as int),
        decreases v@.len() - i,
    {
        out.push(v[i]);
        i = i + 1;
        assert(out@ =~= v@.subrange(0, i as int));
    }
    assert(v@.subrange(0, v@.len() as int) =~= v@);
    out
}

pub fn clone_literal(v: &LiteralValue) -> (r: LiteralValue)
    ensures
        literal_model(r) == literal_model(*v),
{
    match v {
        LiteralValue::Bool(b) => LiteralValue::Bool(*b),
        LiteralValue::Int(i) => LiteralValue::Int(*i),
        LiteralValue::Str(s) => LiteralValue::Str(s.clone()),
    }
}

pub fn clone_opt_type(t: &Option<Box<Type>>) -> (r: Option<Box<Type>>)
    ensures
        opt_type_model(r) == opt_type_model(*t),
    decreases t, 2nat,
{
    match t {
        Some(b) => Some(Box::new(clone_type(b))),
        None => None,
    }
}

pub(crate) fn clone_extra(e: &Option<ExtraAttrs>) -> (r: Option<ExtraAttrs>)
    ensures
        extra_model(r) == extra_model(*e),
    decreases e, 2nat,
{
    match e {
        Some(x) => Some(ExtraAttrs {
            attrs: clone_pairs(&x.attrs),
            immutable: clone_strings(&x.immutable),
            mod_name: clone_opt_string(&x.mod_name),
        }),
        None => None,
    }
}

/// A copy of `t`, equal to it in the model.
pub fn clone_type(t: &Type) -> (r: Type)
    ensures
        r@ == t@,
    decreases t, 1nat,
{
    match t {
        Type::AnyType { type_of_any, source_any, missing_import_name } => Type::AnyType {
            type_of_any: *type_of_any,
            source_any: clone_opt_type(source_any),
            missing_import_name: clone_opt_string(missing_import_name),
        },
        Type::NoneType => Type::NoneType,
        Type::UninhabitedType { ambiguous } => Type::UninhabitedType { ambiguous: *ambiguous },
        Type::ErasedType => Type::ErasedType,
        Type::DeletedType { source } => Type::DeletedType { source: clone_opt_string(source) },
        Type::Instance { type_ref, args, last_known_value, extra_attrs } => Type::Instance {
            type_ref: type_ref.clone(),
            args: clone_types(args),
            last_known_value: clone_opt_type(last_known_value),
            extra_attrs: clone_extra(extra_attrs),
        },
        Type::TypeVarType { name, fullname, raw_id, namespace, values, upper_bound, default, variance, meta_level } =>
            Type::TypeVarType {
                name: name.clone(),
                fullname: fullname.clone(),
                raw_id: *raw_id,
                namespace: namespace.clone(),
                values: clone_types(values),
                upper_bound: Box::new(clone_type(upper_bound)),
                default: Box::new(clone_type(default)),
                variance: *variance,
                meta_level: *meta_level,
            },
        Type::CallableType {
            fallback,
            instance_type,
            is_ellipsis_args,
            implicit,
            is_bound,
            from_concatenate,
            imprecise_arg_kinds,
            unpack_kwargs,
            from_type_type,
            arg_types,
            arg_kinds,
            arg_names,
            ret_type,
            name,
            variables,
            type_guard,
            type_is,
            special_sig,
            definition_ref,
        } => Type::CallableType {
            fallback: Box::new(clone_type(fallback)),
            instance_type: clone_opt_type(instance_type),
            is_ellipsis_args: *is_ellipsis_args,
            implicit: *implicit,
            is_bound: *is_bound,
            from_concatenate: *from_concatenate,
            imprecise_arg_kinds: *imprecise_arg_kinds,
            unpack_kwargs: *unpack_kwargs,
            from_type_type: *from_type_type,
            arg_types: clone_types(arg_types),
            arg_kinds: clone_kinds(arg_kinds),
            arg_names: clone_opt_strings(arg_names),
            ret_type: Box::new(clone_type(ret_type)),
            name: clone_opt_string(name),
            variables: clone_types(variables),
            type_guard: clone_opt_type(type_guard),
            type_is: clone_opt_type(type_is),
            special_sig: clone_opt_string(special_sig),
            definition_ref: clone_opt_string(definition_ref),
        },
        Type::Overloaded { items } => Type::Overloaded { items: clone_types(items) },
        Type::TupleType { partial_fallback, items, implicit } => Type::TupleType {
            partial_fallback: Box::new(clone_type(partial_fallback)),
            items: clone_types(items),
            implicit: *implicit,
        },
        Type::TypedDictType { fallback, items, required_keys, readonly_keys, is_closed } =>
            Type::TypedDictType {
                fallback: Box::new(clone_type(fallback)),
                items: clone_pairs(items),
                required_keys: clone_strings(required_keys),
                readonly_keys: clone_strings(readonly_keys),
                is_closed: *is_closed,
            },
        Type::LiteralType { fallback, value } => Type::LiteralType {
            fallback: Box::new(clone_type(fallback)),
            value: clone_literal(value),
        },
        Type::UnionType {
            items,
            uses_pep604_syntax,
            can_be_true,
            can_be_false,
            is_evaluated,
            original_str_expr,
            original_str_fallback,
        } => Type::UnionType {
            items: clone_types(items),
            uses_pep604_syntax: *uses_pep604_syntax,
            can_be_true: *can_be_true,
            can_be_false: *can_be_false,
            is_evaluated: *is_evaluated,
            original_str_expr: clone_opt_string(original_str_expr),
            original_str_fallback: clone_opt_string(original_str_fallback),
        },
        Type::TypeType { item, is_type_form } => Type::TypeType {
            item: Box::new(clone_type(item)),
            is_type_form: *is_type_form,
        },
        Type::UnpackType { typ, from_star_syntax } => Type::UnpackType {
            typ: Box::new(clone_type(typ)),
            from_star_syntax: *from_star_syntax,
        },
        Type::TypeAliasType { args, type_ref, is_recursive } => Type::TypeAliasType {
            args: clone_types(args),
            type_ref: type_ref.clone(),
            is_recursive: *is_recursive,
        },
    }
}

/// A copy of a list of types, equal to it in the model.
pub fn clone_types(v: &Vec<Type>) -> (r: Vec<Type>)
    ensures
        types_model(r@) == types_model(v@),
        r@.len() == v@.len(),
    decreases v, 0nat,
{
    let mut out: Vec<Type> = Vec::new();
    let mut i: usize = 0;
    while i < v.len()
        invariant
            i <= v@.len(),
            out@.len() == i,
            types_model(out@) == types_model(v@.subrange(0, i as int)),
        decreases v@.len() - i,
    {
        let c = clone_type(&v[i]);
        proof {
            assert(out@.push(c).drop_last() =~= out@);
            assert(v@.subrange(0, i + 1).drop_last() =~= v@.subrange(0, i as int));
        }
        out.push(c);
        i = i + 1;
    }
    proof {
        assert(v@.subrange(0, v@.len() as int) =~= v@);
    }
    out
}

/// A copy of a list of named types, equal to it in the model.
pub fn clone_pairs(v: &Vec<(String, Type)>) -> (r: Vec<(String, Type)>)
    ensures
        pairs_model(r@) == pairs_model(v@),
        r@.len() == v@.len(),
    decreases v, 0nat,
{
    let mut out: Vec<(String, Type)> = Vec::new();
    let mut i: usize = 0;
    while i < v.len()
        invariant
            i <= v@.len(),
            out@.len() == i,
            pairs_model(out@) == pairs_model(v@.subrange(0, i as int)),
        decreases v@.len() - i,
    {
        let c = (v[i].0.clone(), clone_type(&v[i].1));
        proof {
            assert(out@.push(c).drop_last() =~= out@);
            assert(v@.subrange(0, i + 1).drop_last() =~= v@.subrange(0, i as int));
        }
        out.push(c);
        i = i + 1;
    }
    proof {
        assert(v@.subrange(0, v@.len() as int) =~= v@);
    }
    out
}

} // verus!
