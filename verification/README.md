# type_kernel

A verified type kernel in the style of mypy: the data model of types and
class snapshots, and the decisions a type checker makes over them, each an
executable Rust function whose behaviour Verus proves against a contract.

## Layout

- `src/wire.rs`: the `Type` tree and its mathematical model `TypeModel`.
- `src/typeinfo.rs`: class and module snapshots, and the resolver that maps
  names to them.
- `src/text.rs`, `src/query.rs`, `src/translate.rs`: string helpers, resolver
  queries and name translation.
- `src/standalone/`: the checker surface, one module per area:
  - `types.rs`: unions, subtyping, supertype mapping,
    `make_simplified_union`, joins, meets, narrowing and overlap;
  - `infer.rs`: constraints (type-variable and nominal instance templates),
    type equality, the reverse-union filter and the polymorphic solve;
  - `call.rs`: argument-to-parameter binding and call dispatch;
  - `member.rs`: member-access dispatch and descriptor queries;
  - `expr.rs`: format strings and operator tables;
  - `stmt.rs`: assignment, return and raise decisions;
  - `semanal.rs`, `records.rs`: semantic-analysis rules and the class record
    store (C3 linearization, snapshots).
- `tests/`: scenario tests, one file per area, and `laws.rs` for the laws
  checked on concrete values.

## Declining

Many operations return `Option`. `None` never means "no result": it means
the operation reached a shape it does not decide, and the caller must treat
it as a refusal. Each contract states exactly on which inputs the answer is
decided and what it is.

The library declines more often than a full checker would. In particular:

- There is no alias store: a `TypeAliasType` is never expanded, so every
  question that has to look through an alias declines.
- Subtyping covers `Any`, `Never`, `None`, instances (a last known value
  read away, type arguments compared by variance after mapping to the
  superclass through the declared bases), literals (equal literals, or
  through the fallback), type variables (the same variable, value
  restrictions, upper bound), `type[...]` (items, `object`/`type`, the
  metaclass), plain tuples, non-generic callables whose arguments are all
  positional, an overloaded callable against a callable or a class (and
  a callable against an overloaded one), and unions of these. Two
  overloaded callables, generic or variadic callables, named and variadic
  tuples, typed dicts, instances with extra attributes, structural
  protocol matches and promotions that could change a verdict decline.
- Supertype mapping follows the first declared base that leads to the
  superclass, substituting the class's type variables; a base whose
  arguments hold a union, callable or other shape the substitution does
  not cover declines.
- Union simplification removes redundant items among the shapes above;
  a union holding two or more literals of which one could contract into
  its sum type (`bool`, an enum) declines.
- Joins cover `Any`, `Never`, `None`, argument-free instances, literals,
  type variables and unions of atoms, and two instances of one class
  whose type variables are invariant or contravariant (covariant
  arguments would need the type variables' value restrictions, which the
  snapshots do not carry). Meets cover those and instances with type
  arguments (argument by argument for two related instances of one
  class). The joins and meets of callables, tuples and typed dicts are
  not implemented.
- Constraint inference covers type-variable templates, templates without
  type variables, instance templates against instances (mapped through
  their bases), literals, `Any` and (for `SUPERTYPE_OF`) unions, plain
  tuple templates (item by item), and union templates (for
  `SUBTYPE_OF`); callable, named or variadic tuple and typed-dict
  templates and protocol matches decline.
- Types are held as `Type` values; the serialized form of types is not
  part of the library, and neither are the parameter-list and unbound
  type shapes.
