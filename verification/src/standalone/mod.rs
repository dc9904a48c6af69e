//! The public check surface, one submodule per area.

pub mod call;
pub mod expr;
pub mod infer;
pub mod member;
pub mod records;
pub mod semanal;
pub mod stmt;
pub mod types;
