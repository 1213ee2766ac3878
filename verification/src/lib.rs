//! Monomorphic type inference for a small functional expression language:
//! a type algebra, substitutions, scoped contexts with a fresh-name supply,
//! unification with an occurs check, and the inference judgment itself.

pub mod error;
pub mod ty;
pub mod data;
pub mod builder;
pub mod expr;
pub mod laws;
