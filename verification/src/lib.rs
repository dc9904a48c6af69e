//! A mypy-style type kernel: the type algebra's data model, call-site
//! argument binding, statement-level check decisions and the semantic
//! record queries a Python-free type checker runs, each with a contract.

pub mod query;
pub mod standalone;
pub mod text;
pub mod translate;
pub mod typeinfo;
pub mod wire;
