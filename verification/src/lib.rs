//! Semantic analysis and IR construction for a declarative algebraic-constraint
//! language: a scoped symbol table with access validation, a deduplicated
//! algebraic expression graph with polynomial-degree computation, expression
//! lowering (including list comprehensions and list folding), and the
//! integrity/boundary constraint builders that populate per-segment constraint
//! lists consumed by a backend code generator.

pub mod access_validation;
pub mod ast;
pub mod boundary_stmts;
pub mod constraint_builder;
pub mod degree;
pub mod errors;
pub mod graph;
pub mod integrity_stmts;
pub mod lowering;
pub mod substitution;
pub mod symbol_table;

use vstd::prelude::*;

verus! {

} // verus!
