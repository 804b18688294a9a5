//! Substitution of bound variables in list-comprehension bodies: replacing
//! each occurrence of a bound name with the concrete element access it
//! ranges over.

use vstd::prelude::*;

use crate::ast::{Expression, ListFoldingType};

verus! {

/// `e` with every reference to the name `binding` replaced by `repl`.
/// Substitution touches only whole-name references: indexed accesses keep
/// their own names.
pub open spec fn subst(e: Expression, binding: Seq<char>, repl: Expression) -> Expression
    decreases e,
{
    match e {
        Expression::Elem(name) => if name@ == binding {
            repl
        } else {
            e
        },
        Expression::Add(l, r) => Expression::Add(
            Box::new(subst(*l, binding, repl)),
            Box::new(subst(*r, binding, repl)),
        ),
        Expression::Sub(l, r) => Expression::Sub(
            Box::new(subst(*l, binding, repl)),
            Box::new(subst(*r, binding, repl)),
        ),
        Expression::Mul(l, r) => Expression::Mul(
            Box::new(subst(*l, binding, repl)),
            Box::new(subst(*r, binding, repl)),
        ),
        Expression::Exp(b, exponent) => Expression::Exp(
            Box::new(subst(*b, binding, repl)),
            exponent,
        ),
        _ => e,
    }
}

/// Copies an expression tree.
pub fn clone_expr(e: &Expression) -> (r: Expression)
    ensures
        r == *e,
    decreases *e,
{
    match e {
        Expression::Const(value) => Expression::Const(*value),
        Expression::Elem(name) => Expression::Elem(name.clone()),
        Expression::VectorAccess(va) => Expression::VectorAccess(
            crate::ast::VectorAccess { name: va.name.clone(), idx: va.idx },
        ),
        Expression::MatrixAccess(ma) => Expression::MatrixAccess(
            crate::ast::MatrixAccess {
                name: ma.name.clone(),
                row_idx: ma.row_idx,
                col_idx: ma.col_idx,
            },
        ),
        Expression::NamedTraceAccess(nta) => Expression::NamedTraceAccess(
            crate::ast::NamedTraceAccess {
                name: nta.name.clone(),
                idx: nta.idx,
                row_offset: nta.row_offset,
            },
        ),
        Expression::IndexedTraceAccess(ita) => Expression::IndexedTraceAccess(
            crate::ast::IndexedTraceAccess {
                trace_segment: ita.trace_segment,
                col_idx: ita.col_idx,
                row_offset: ita.row_offset,
            },
        ),
        Expression::Add(l, r_) => Expression::Add(
            Box::new(clone_expr(l)),
            Box::new(clone_expr(r_)),
        ),
        Expression::Sub(l, r_) => Expression::Sub(
            Box::new(clone_expr(l)),
            Box::new(clone_expr(r_)),
        ),
        Expression::Mul(l, r_) => Expression::Mul(
            Box::new(clone_expr(l)),
            Box::new(clone_expr(r_)),
        ),
        Expression::Exp(b, exponent) => Expression::Exp(Box::new(clone_expr(b)), *exponent),
        Expression::ListFolding(lft) => Expression::ListFolding(
            match lft {
                ListFoldingType::Sum(name) => ListFoldingType::Sum(name.clone()),
                ListFoldingType::Prod(name) => ListFoldingType::Prod(name.clone()),
            },
        ),
    }
}

/// Replaces every reference to `binding` in `e` by `repl`.
pub fn substitute(e: &Expression, binding: &String, repl: &Expression) -> (r: Expression)
    ensures
        r == subst(*e, binding@, *repl),
    decreases *e,
{
    match e {
        Expression::Elem(name) => {
            if name.eq(binding) {
                clone_expr(repl)
            } else {
                clone_expr(e)
            }
        },
        Expression::Add(l, r_) => Expression::Add(
            Box::new(substitute(l, binding, repl)),
            Box::new(substitute(r_, binding, repl)),
        ),
        Expression::Sub(l, r_) => Expression::Sub(
            Box::new(substitute(l, binding, repl)),
            Box::new(substitute(r_, binding, repl)),
        ),
        Expression::Mul(l, r_) => Expression::Mul(
            Box::new(substitute(l, binding, repl)),
            Box::new(substitute(r_, binding, repl)),
        ),
        Expression::Exp(b, exponent) => Expression::Exp(
            Box::new(substitute(b, binding, repl)),
            *exponent,
        ),
        _ => clone_expr(e),
    }
}

} // verus!
