//! Expression lowering: the recursive translation of AST expressions into
//! graph nodes, resolving identifiers through the symbol table, expanding
//! list-folding operators into operation chains, and inferring the trace
//! segment and row offset an expression touches.
//!
//! The spec functions here mirror the lowering exactly: `check_expr` says on
//! which expressions lowering succeeds and with which error it fails,
//! `seg_of` gives the largest trace segment any trace access of the
//! expression touches, `off_of` the largest row offset, `expr_degree` the
//! polynomial degree of the node the expression lowers to, and `root_shape`
//! what that node holds.

use vstd::prelude::*;

use crate::access_validation::{
    matrix_access_result, named_trace_access_result, vector_access_result,
};
use crate::ast::{Expression, ListFoldingType, MatrixAccess, NamedTraceAccess, VariableType,
    VectorAccess};
use crate::degree::{degree_of, lemma_degree_prefix, nat_max};
use crate::errors::SemanticError;
use crate::graph::{
    new_keys_bound, nodes_grow, op_children_lt, roots_grow, AlgebraicGraph, NodeIndex, Operation,
    SymbolRefKind, VariableRoots, VariableValue,
};
use crate::symbol_table::{
    find_sym, has_name, ConstantType, Symbol, SymbolTable, SymbolType, TraceSegment,
};

verus! {

/// Ranks the two lowering layers for termination: expressions reached
/// through a variable's stored value are lowered with variable references
/// disallowed, so the rank strictly drops on that step.
pub open spec fn allow_rank(allow: bool) -> int {
    if allow {
        1
    } else {
        0
    }
}

/// The larger of two integers.
pub open spec fn int_max(a: int, b: int) -> int {
    if a >= b {
        a
    } else {
        b
    }
}

/// Whether a symbol type is a vector a list folding can range over:
/// variables are not admitted as folding iterables.
pub open spec fn foldable(ty: SymbolType) -> bool {
    match ty {
        SymbolType::Constant(ConstantType::Vector(_)) => true,
        SymbolType::PublicInput(_) => true,
        SymbolType::RandomValuesBinding(_, _) => true,
        SymbolType::TraceColumns(_) => true,
        _ => false,
    }
}

/// The declared element count of a foldable symbol.
pub open spec fn foldable_len(ty: SymbolType) -> int {
    match ty {
        SymbolType::Constant(ConstantType::Vector(v)) => v@.len() as int,
        SymbolType::PublicInput(size) => size as int,
        SymbolType::RandomValuesBinding(_, size) => size as int,
        SymbolType::TraceColumns(tc) => tc.size as int,
        _ => 0,
    }
}

/// The node one element of a folding iterable lowers to.
pub open spec fn fold_elem_op(ty: SymbolType, sym_idx: int, i: int) -> Operation {
    match ty {
        SymbolType::Constant(ConstantType::Vector(v)) => Operation::Constant(v@[i]),
        SymbolType::PublicInput(_) => Operation::SymbolRef(
            SymbolRefKind::PublicInput,
            sym_idx as usize,
            i as usize,
        ),
        SymbolType::RandomValuesBinding(_, _) => Operation::SymbolRef(
            SymbolRefKind::RandomValue,
            sym_idx as usize,
            i as usize,
        ),
        SymbolType::TraceColumns(tc) => Operation::TraceAccess(
            tc.trace_segment,
            (tc.offset + i) as usize,
            0,
        ),
        _ => Operation::Constant(0),
    }
}

/// The name a list-folding operator folds over.
pub open spec fn fold_name(lft: ListFoldingType) -> Seq<char> {
    match lft {
        ListFoldingType::Sum(name) => name@,
        ListFoldingType::Prod(name) => name@,
    }
}

/// Whether lowering succeeds on `e` against the declared symbols, and with
/// which semantic error it fails otherwise. `allow` is true at the top
/// level; inside a variable's stored value further variable references are
/// rejected.
pub open spec fn check_expr(syms: Seq<Symbol>, e: Expression, allow: bool) -> Result<
    (),
    SemanticError,
>
    decreases allow_rank(allow), e,
{
    match e {
        Expression::Const(_) => Ok(()),
        Expression::Elem(name) => {
            if !has_name(syms, name@) {
                Err(SemanticError::UndeclaredIdentifier)
            } else {
                match find_sym(syms, name@) {
                    SymbolType::Constant(ConstantType::Scalar(_)) => Ok(()),
                    SymbolType::PeriodicColumn(_, _) => Ok(()),
                    SymbolType::RandomValuesBinding(_, size) => if size == 1 {
                        Ok(())
                    } else {
                        Err(SemanticError::InvalidAccess)
                    },
                    SymbolType::TraceColumns(tc) => if tc.size == 1 {
                        Ok(())
                    } else {
                        Err(SemanticError::InvalidAccess)
                    },
                    SymbolType::Variable(VariableType::Scalar(e2)) => if allow {
                        check_expr(syms, e2, false)
                    } else {
                        Err(SemanticError::InvalidAccess)
                    },
                    _ => Err(SemanticError::InvalidAccess),
                }
            }
        },
        Expression::VectorAccess(va) => {
            if !has_name(syms, va.name@) {
                Err(SemanticError::UndeclaredIdentifier)
            } else {
                let ty = find_sym(syms, va.name@);
                match vector_access_result(ty, va.idx as int) {
                    Err(err) => Err(err),
                    Ok(_) => match ty {
                        SymbolType::Variable(VariableType::Scalar(e2)) => if allow {
                            check_expr(syms, e2, false)
                        } else {
                            Err(SemanticError::InvalidAccess)
                        },
                        SymbolType::Variable(VariableType::Vector(v)) => if allow {
                            check_expr(syms, v@[va.idx as int], false)
                        } else {
                            Err(SemanticError::InvalidAccess)
                        },
                        _ => Ok(()),
                    },
                }
            }
        },
        Expression::MatrixAccess(ma) => {
            if !has_name(syms, ma.name@) {
                Err(SemanticError::UndeclaredIdentifier)
            } else {
                let ty = find_sym(syms, ma.name@);
                match matrix_access_result(ty, ma.row_idx as int, ma.col_idx as int) {
                    Err(err) => Err(err),
                    Ok(_) => match ty {
                        SymbolType::Variable(VariableType::Scalar(e2)) => if allow {
                            check_expr(syms, e2, false)
                        } else {
                            Err(SemanticError::InvalidAccess)
                        },
                        SymbolType::Variable(VariableType::Vector(v)) => if !allow {
                            Err(SemanticError::InvalidAccess)
                        } else if (ma.row_idx as int) < v@.len() {
                            check_expr(syms, v@[ma.row_idx as int], false)
                        } else {
                            Err(SemanticError::OutOfBounds)
                        },
                        SymbolType::Variable(VariableType::Matrix(m)) => if allow {
                            check_expr(syms, m@[ma.row_idx as int]@[ma.col_idx as int], false)
                        } else {
                            Err(SemanticError::InvalidAccess)
                        },
                        _ => Ok(()),
                    },
                }
            }
        },
        Expression::NamedTraceAccess(nta) => {
            if !has_name(syms, nta.name@) {
                Err(SemanticError::UndeclaredIdentifier)
            } else {
                match named_trace_access_result(find_sym(syms, nta.name@), nta.idx as int) {
                    Err(err) => Err(err),
                    Ok(_) => Ok(()),
                }
            }
        },
        Expression::IndexedTraceAccess(_) => Ok(()),
        Expression::Add(l, r) => if check_expr(syms, *l, allow) is Err {
            check_expr(syms, *l, allow)
        } else {
            check_expr(syms, *r, allow)
        },
        Expression::Sub(l, r) => if check_expr(syms, *l, allow) is Err {
            check_expr(syms, *l, allow)
        } else {
            check_expr(syms, *r, allow)
        },
        Expression::Mul(l, r) => if check_expr(syms, *l, allow) is Err {
            check_expr(syms, *l, allow)
        } else {
            check_expr(syms, *r, allow)
        },
        Expression::Exp(b, _) => check_expr(syms, *b, allow),
        Expression::ListFolding(lft) => {
            if !has_name(syms, fold_name(lft)) {
                Err(SemanticError::UndeclaredIdentifier)
            } else if foldable(find_sym(syms, fold_name(lft))) {
                Ok(())
            } else {
                Err(SemanticError::InvalidAccess)
            }
        },
    }
}

/// The largest trace segment any trace access of `e` touches; 0 when `e`
/// touches no trace. Meaningful on expressions `check_expr` accepts.
pub open spec fn seg_of(syms: Seq<Symbol>, e: Expression, allow: bool) -> int
    decreases allow_rank(allow), e,
{
    match e {
        Expression::Const(_) => 0,
        Expression::Elem(name) => {
            if !has_name(syms, name@) {
                0
            } else {
                match find_sym(syms, name@) {
                    SymbolType::TraceColumns(tc) => tc.trace_segment as int,
                    SymbolType::Variable(VariableType::Scalar(e2)) => if allow {
                        seg_of(syms, e2, false)
                    } else {
                        0
                    },
                    _ => 0,
                }
            }
        },
        Expression::VectorAccess(va) => {
            if !has_name(syms, va.name@) {
                0
            } else {
                match find_sym(syms, va.name@) {
                    SymbolType::TraceColumns(tc) => tc.trace_segment as int,
                    SymbolType::Variable(VariableType::Scalar(e2)) => if allow {
                        seg_of(syms, e2, false)
                    } else {
                        0
                    },
                    SymbolType::Variable(VariableType::Vector(v)) => if allow && (va.idx as int)
                        < v@.len() {
                        seg_of(syms, v@[va.idx as int], false)
                    } else {
                        0
                    },
                    _ => 0,
                }
            }
        },
        Expression::MatrixAccess(ma) => {
            if !has_name(syms, ma.name@) {
                0
            } else {
                match find_sym(syms, ma.name@) {
                    SymbolType::Variable(VariableType::Scalar(e2)) => if allow {
                        seg_of(syms, e2, false)
                    } else {
                        0
                    },
                    SymbolType::Variable(VariableType::Vector(v)) => if allow && (ma.row_idx as int)
                        < v@.len() {
                        seg_of(syms, v@[ma.row_idx as int], false)
                    } else {
                        0
                    },
                    SymbolType::Variable(VariableType::Matrix(m)) => if allow && (ma.row_idx as int)
                        < m@.len() {
                        seg_of(syms, m@[ma.row_idx as int]@[ma.col_idx as int], false)
                    } else {
                        0
                    },
                    _ => 0,
                }
            }
        },
        Expression::NamedTraceAccess(nta) => {
            if !has_name(syms, nta.name@) {
                0
            } else {
                match find_sym(syms, nta.name@) {
                    SymbolType::TraceColumns(tc) => tc.trace_segment as int,
                    _ => 0,
                }
            }
        },
        Expression::IndexedTraceAccess(ita) => ita.trace_segment as int,
        Expression::Add(l, r) => int_max(seg_of(syms, *l, allow), seg_of(syms, *r, allow)),
        Expression::Sub(l, r) => int_max(seg_of(syms, *l, allow), seg_of(syms, *r, allow)),
        Expression::Mul(l, r) => int_max(seg_of(syms, *l, allow), seg_of(syms, *r, allow)),
        Expression::Exp(b, _) => seg_of(syms, *b, allow),
        Expression::ListFolding(lft) => {
            if !has_name(syms, fold_name(lft)) {
                0
            } else {
                match find_sym(syms, fold_name(lft)) {
                    SymbolType::TraceColumns(tc) => if tc.size > 0 {
                        tc.trace_segment as int
                    } else {
                        0
                    },
                    _ => 0,
                }
            }
        },
    }
}

/// The largest row offset any trace access of `e` touches; 0 when `e`
/// touches no trace. Meaningful on expressions `check_expr` accepts.
pub open spec fn off_of(syms: Seq<Symbol>, e: Expression, allow: bool) -> int
    decreases allow_rank(allow), e,
{
    match e {
        Expression::Const(_) => 0,
        Expression::Elem(name) => {
            if has_name(syms, name@) {
                match find_sym(syms, name@) {
                    SymbolType::Variable(VariableType::Scalar(e2)) => if allow {
                        off_of(syms, e2, false)
                    } else {
                        0
                    },
                    _ => 0,
                }
            } else {
                0
            }
        },
        Expression::VectorAccess(va) => {
            if has_name(syms, va.name@) {
                match find_sym(syms, va.name@) {
                    SymbolType::Variable(VariableType::Scalar(e2)) => if allow {
                        off_of(syms, e2, false)
                    } else {
                        0
                    },
                    SymbolType::Variable(VariableType::Vector(v)) => if allow && (va.idx as int)
                        < v@.len() {
                        off_of(syms, v@[va.idx as int], false)
                    } else {
                        0
                    },
                    _ => 0,
                }
            } else {
                0
            }
        },
        Expression::MatrixAccess(ma) => {
            if has_name(syms, ma.name@) {
                match find_sym(syms, ma.name@) {
                    SymbolType::Variable(VariableType::Scalar(e2)) => if allow {
                        off_of(syms, e2, false)
                    } else {
                        0
                    },
                    SymbolType::Variable(VariableType::Vector(v)) => if allow && (ma.row_idx as int)
                        < v@.len() {
                        off_of(syms, v@[ma.row_idx as int], false)
                    } else {
                        0
                    },
                    SymbolType::Variable(VariableType::Matrix(m)) => if allow && (ma.row_idx as int)
                        < m@.len() {
                        off_of(syms, m@[ma.row_idx as int]@[ma.col_idx as int], false)
                    } else {
                        0
                    },
                    _ => 0,
                }
            } else {
                0
            }
        },
        Expression::NamedTraceAccess(nta) => nta.row_offset as int,
        Expression::IndexedTraceAccess(ita) => ita.row_offset as int,
        Expression::Add(l, r) => int_max(off_of(syms, *l, allow), off_of(syms, *r, allow)),
        Expression::Sub(l, r) => int_max(off_of(syms, *l, allow), off_of(syms, *r, allow)),
        Expression::Mul(l, r) => int_max(off_of(syms, *l, allow), off_of(syms, *r, allow)),
        Expression::Exp(b, _) => off_of(syms, *b, allow),
        Expression::ListFolding(_) => 0,
    }
}

/// Segment inference: a direct trace access is assigned its own segment,
/// and a compound expression the larger of its operands' segments — so an
/// expression whose trace references all touch the main trace is assigned
/// segment 0, and any auxiliary-trace reference reassigns it to that
/// auxiliary segment.
pub proof fn lemma_segment_inference(
    syms: Seq<Symbol>,
    l: Expression,
    r: Expression,
    ita: crate::ast::IndexedTraceAccess,
    allow: bool,
)
    ensures
        seg_of(syms, Expression::IndexedTraceAccess(ita), allow) == ita.trace_segment as int,
        seg_of(syms, Expression::Add(Box::new(l), Box::new(r)), allow) == int_max(
            seg_of(syms, l, allow),
            seg_of(syms, r, allow),
        ),
        seg_of(syms, Expression::Sub(Box::new(l), Box::new(r)), allow) == int_max(
            seg_of(syms, l, allow),
            seg_of(syms, r, allow),
        ),
        seg_of(syms, Expression::Mul(Box::new(l), Box::new(r)), allow) == int_max(
            seg_of(syms, l, allow),
            seg_of(syms, r, allow),
        ),
{
}


/// The degree one element of a folding iterable contributes: elements of a
/// constant vector are constants, all other foldable elements are degree-1
/// references.
pub open spec fn fold_elem_degree(ty: SymbolType) -> nat {
    match ty {
        SymbolType::Constant(ConstantType::Vector(_)) => 0,
        SymbolType::PublicInput(_) => 1,
        SymbolType::RandomValuesBinding(_, _) => 1,
        SymbolType::TraceColumns(_) => 1,
        _ => 0,
    }
}

/// The polynomial degree of the node an expression lowers to, as a function
/// of the expression and the declared symbols alone. Meaningful on
/// expressions `check_expr` accepts.
pub open spec fn expr_degree(syms: Seq<Symbol>, e: Expression, allow: bool) -> nat
    decreases allow_rank(allow), e,
{
    match e {
        Expression::Const(_) => 0,
        Expression::Elem(name) => {
            if !has_name(syms, name@) {
                0
            } else {
                match find_sym(syms, name@) {
                    SymbolType::RandomValuesBinding(_, _) => 1,
                    SymbolType::TraceColumns(_) => 1,
                    SymbolType::Variable(VariableType::Scalar(e2)) => if allow {
                        expr_degree(syms, e2, false)
                    } else {
                        0
                    },
                    _ => 0,
                }
            }
        },
        Expression::VectorAccess(va) => {
            if !has_name(syms, va.name@) {
                0
            } else {
                match find_sym(syms, va.name@) {
                    SymbolType::PublicInput(_) => 1,
                    SymbolType::RandomValuesBinding(_, _) => 1,
                    SymbolType::TraceColumns(_) => 1,
                    SymbolType::Variable(VariableType::Scalar(e2)) => if allow {
                        expr_degree(syms, e2, false)
                    } else {
                        0
                    },
                    SymbolType::Variable(VariableType::Vector(v)) => if allow && (va.idx as int)
                        < v@.len() {
                        expr_degree(syms, v@[va.idx as int], false)
                    } else {
                        0
                    },
                    _ => 0,
                }
            }
        },
        Expression::MatrixAccess(ma) => {
            if !has_name(syms, ma.name@) {
                0
            } else {
                match find_sym(syms, ma.name@) {
                    SymbolType::Variable(VariableType::Scalar(e2)) => if allow {
                        expr_degree(syms, e2, false)
                    } else {
                        0
                    },
                    SymbolType::Variable(VariableType::Vector(v)) => if allow && (ma.row_idx as int)
                        < v@.len() {
                        expr_degree(syms, v@[ma.row_idx as int], false)
                    } else {
                        0
                    },
                    SymbolType::Variable(VariableType::Matrix(m)) => if allow && (ma.row_idx as int)
                        < m@.len() {
                        expr_degree(syms, m@[ma.row_idx as int]@[ma.col_idx as int], false)
                    } else {
                        0
                    },
                    _ => 0,
                }
            }
        },
        Expression::NamedTraceAccess(_) => 1,
        Expression::IndexedTraceAccess(_) => 1,
        Expression::Add(l, r) => nat_max(
            expr_degree(syms, *l, allow),
            expr_degree(syms, *r, allow),
        ),
        Expression::Sub(l, r) => nat_max(
            expr_degree(syms, *l, allow),
            expr_degree(syms, *r, allow),
        ),
        Expression::Mul(l, r) => expr_degree(syms, *l, allow) + expr_degree(syms, *r, allow),
        Expression::Exp(b, ex) => expr_degree(syms, *b, allow) * (ex as nat),
        Expression::ListFolding(lft) => {
            if !has_name(syms, fold_name(lft)) {
                0
            } else {
                let ty = find_sym(syms, fold_name(lft));
                let n = foldable_len(ty);
                match lft {
                    ListFoldingType::Sum(_) => if n == 0 {
                        0
                    } else {
                        fold_elem_degree(ty)
                    },
                    ListFoldingType::Prod(_) => if n == 0 {
                        0
                    } else {
                        (n as nat) * fold_elem_degree(ty)
                    },
                }
            }
        },
    }
}

/// What the root node of a lowered expression holds: exact for every leaf
/// (the resolved constant, symbol reference or trace access), the operation
/// kind for compound expressions, and the shape of the chain head for a
/// folding. Meaningful on expressions `check_expr` accepts.
pub open spec fn root_shape(syms: Seq<Symbol>, e: Expression, op: Operation, allow: bool) -> bool
    decreases allow_rank(allow), e,
{
    match e {
        Expression::Const(v) => op == Operation::Constant(v),
        Expression::Elem(name) => {
            if !has_name(syms, name@) {
                true
            } else {
                let idx = crate::symbol_table::find_idx(syms, name@);
                match find_sym(syms, name@) {
                    SymbolType::Constant(ConstantType::Scalar(v)) => op == Operation::Constant(v),
                    SymbolType::PeriodicColumn(_, _) => op == Operation::SymbolRef(
                        SymbolRefKind::PeriodicColumn,
                        idx as usize,
                        0,
                    ),
                    SymbolType::RandomValuesBinding(_, _) => op == Operation::SymbolRef(
                        SymbolRefKind::RandomValue,
                        idx as usize,
                        0,
                    ),
                    SymbolType::TraceColumns(tc) => op == Operation::TraceAccess(
                        tc.trace_segment,
                        tc.offset,
                        0,
                    ),
                    SymbolType::Variable(VariableType::Scalar(e2)) => allow && root_shape(
                        syms,
                        e2,
                        op,
                        false,
                    ),
                    _ => true,
                }
            }
        },
        Expression::VectorAccess(va) => {
            if !has_name(syms, va.name@) {
                true
            } else {
                let idx = crate::symbol_table::find_idx(syms, va.name@);
                match find_sym(syms, va.name@) {
                    SymbolType::Constant(ConstantType::Vector(v)) => (va.idx as int) < v@.len()
                        ==> op == Operation::Constant(v@[va.idx as int]),
                    SymbolType::PublicInput(_) => op == Operation::SymbolRef(
                        SymbolRefKind::PublicInput,
                        idx as usize,
                        va.idx,
                    ),
                    SymbolType::RandomValuesBinding(_, _) => op == Operation::SymbolRef(
                        SymbolRefKind::RandomValue,
                        idx as usize,
                        va.idx,
                    ),
                    SymbolType::TraceColumns(tc) => op == Operation::TraceAccess(
                        tc.trace_segment,
                        (tc.offset + va.idx) as usize,
                        0,
                    ),
                    SymbolType::Variable(VariableType::Scalar(e2)) => allow && root_shape(
                        syms,
                        e2,
                        op,
                        false,
                    ),
                    SymbolType::Variable(VariableType::Vector(v)) => allow && (va.idx as int)
                        < v@.len() && root_shape(syms, v@[va.idx as int], op, false),
                    _ => true,
                }
            }
        },
        Expression::MatrixAccess(ma) => {
            if !has_name(syms, ma.name@) {
                true
            } else {
                match find_sym(syms, ma.name@) {
                    SymbolType::Constant(ConstantType::Matrix(m)) => ((ma.row_idx as int) < m@.len()
                        && (ma.col_idx as int) < m@[ma.row_idx as int]@.len()) ==> op
                        == Operation::Constant(m@[ma.row_idx as int]@[ma.col_idx as int]),
                    SymbolType::Variable(VariableType::Scalar(e2)) => allow && root_shape(
                        syms,
                        e2,
                        op,
                        false,
                    ),
                    SymbolType::Variable(VariableType::Vector(v)) => allow && (ma.row_idx as int)
                        < v@.len() && root_shape(syms, v@[ma.row_idx as int], op, false),
                    SymbolType::Variable(VariableType::Matrix(m)) => allow && (ma.row_idx as int)
                        < m@.len() && root_shape(
                        syms,
                        m@[ma.row_idx as int]@[ma.col_idx as int],
                        op,
                        false,
                    ),
                    _ => true,
                }
            }
        },
        Expression::NamedTraceAccess(nta) => {
            if !has_name(syms, nta.name@) {
                true
            } else {
                match find_sym(syms, nta.name@) {
                    SymbolType::TraceColumns(tc) => op == Operation::TraceAccess(
                        tc.trace_segment,
                        (tc.offset + nta.idx) as usize,
                        nta.row_offset,
                    ),
                    _ => true,
                }
            }
        },
        Expression::IndexedTraceAccess(ita) => op == Operation::TraceAccess(
            ita.trace_segment,
            ita.col_idx,
            ita.row_offset,
        ),
        Expression::Add(_, _) => op matches Operation::Add(_, _),
        Expression::Sub(_, _) => op matches Operation::Sub(_, _),
        Expression::Mul(_, _) => op matches Operation::Mul(_, _),
        Expression::Exp(_, ex) => match op {
            Operation::Exp(_, x) => x == ex,
            _ => false,
        },
        Expression::ListFolding(lft) => {
            if !has_name(syms, fold_name(lft)) {
                true
            } else {
                let idx = crate::symbol_table::find_idx(syms, fold_name(lft));
                let ty = find_sym(syms, fold_name(lft));
                let n = foldable_len(ty);
                match lft {
                    ListFoldingType::Sum(_) => if n == 0 {
                        op == Operation::Constant(0)
                    } else if n == 1 {
                        op == fold_elem_op(ty, idx, 0)
                    } else {
                        op matches Operation::Add(_, _)
                    },
                    ListFoldingType::Prod(_) => if n == 0 {
                        op == Operation::Constant(1)
                    } else if n == 1 {
                        op == fold_elem_op(ty, idx, 0)
                    } else {
                        op matches Operation::Mul(_, _)
                    },
                }
            }
        },
    }
}

/// What the merged root of a constraint holds: a subtraction whose left
/// and right children are roots for the two lowered sides, carrying the
/// sides' root shapes and degrees.
pub open spec fn merged_root_ok(
    syms: Seq<Symbol>,
    lhs_e: Expression,
    rhs_e: Expression,
    nodes: Seq<Operation>,
    root: int,
) -> bool {
    match nodes[root] {
        Operation::Sub(li, ri) => {
            &&& li.0 < nodes.len()
            &&& ri.0 < nodes.len()
            &&& root_shape(syms, lhs_e, nodes[li.0 as int], true)
            &&& degree_of(nodes, li.0 as int) == expr_degree(syms, lhs_e, true)
            &&& root_shape(syms, rhs_e, nodes[ri.0 as int], true)
            &&& degree_of(nodes, ri.0 as int) == expr_degree(syms, rhs_e, true)
        },
        _ => false,
    }
}

impl AlgebraicGraph {
    /// Lowers one element of a folding iterable to its node.
    fn insert_fold_element(&mut self, symbol: &Symbol, sym_idx: usize, i: usize) -> (r: NodeIndex)
        requires
            old(self).wf(),
            foldable(symbol.symbol_type),
            i < foldable_len(symbol.symbol_type),
            crate::symbol_table::trace_offset_ok(symbol.symbol_type),
        ensures
            final(self).wf(),
            nodes_grow(final(self).nodes(), old(self).nodes()),
            r.0 < final(self).nodes().len(),
            final(self).nodes()[r.0 as int] == fold_elem_op(
                symbol.symbol_type,
                sym_idx as int,
                i as int,
            ),
            degree_of(final(self).nodes(), r.0 as int) == fold_elem_degree(symbol.symbol_type),
    {
        match &symbol.symbol_type {
            SymbolType::Constant(ConstantType::Vector(v)) => self.insert_op(
                Operation::Constant(v[i]),
            ),
            SymbolType::PublicInput(_) => self.insert_op(
                Operation::SymbolRef(SymbolRefKind::PublicInput, sym_idx, i),
            ),
            SymbolType::RandomValuesBinding(_, _) => self.insert_op(
                Operation::SymbolRef(SymbolRefKind::RandomValue, sym_idx, i),
            ),
            SymbolType::TraceColumns(tc) => self.insert_op(
                Operation::TraceAccess(tc.trace_segment, tc.offset + i, 0),
            ),
            _ => self.insert_op(Operation::Constant(0)),
        }
    }

    /// Expands a sum or product over a declared vector into a left-fold
    /// chain of additions or multiplications over its lowered elements; an
    /// empty vector folds to the identity constant.
    fn lower_fold(
        &mut self,
        symbol_table: &SymbolTable,
        name: &String,
        is_sum: bool,
    ) -> (r: Result<(TraceSegment, NodeIndex, usize), SemanticError>)
        requires
            old(self).wf(),
            symbol_table.wf(),
        ensures
            final(self).wf(),
            nodes_grow(final(self).nodes(), old(self).nodes()),
            ({
                let syms = symbol_table.symbols();
                let chk: Result<(), SemanticError> = if !has_name(syms, name@) {
                    Err(SemanticError::UndeclaredIdentifier)
                } else if foldable(find_sym(syms, name@)) {
                    Ok(())
                } else {
                    Err(SemanticError::InvalidAccess)
                };
                &&& (r is Ok <==> chk is Ok)
                &&& (r is Err ==> r->Err_0 == chk->Err_0)
                &&& (r is Ok ==> (r->Ok_0.1).0 < final(self).nodes().len())
                &&& (r is Ok ==> r->Ok_0.0 as int == (match find_sym(syms, name@) {
                    SymbolType::TraceColumns(tc) => if tc.size > 0 {
                        tc.trace_segment as int
                    } else {
                        0
                    },
                    _ => 0,
                }))
                &&& (r is Ok ==> r->Ok_0.2 == 0)
                &&& (r is Ok ==> ({
                    let ty = find_sym(syms, name@);
                    let n = foldable_len(ty);
                    let d = fold_elem_degree(ty);
                    degree_of(final(self).nodes(), (r->Ok_0.1).0 as int) == (if n == 0 {
                        0nat
                    } else if is_sum {
                        d
                    } else {
                        (n as nat) * d
                    })
                }))
                &&& (r is Ok ==> ({
                    let idx = crate::symbol_table::find_idx(syms, name@);
                    let ty = find_sym(syms, name@);
                    let n = foldable_len(ty);
                    let op = final(self).nodes()[(r->Ok_0.1).0 as int];
                    if n == 0 {
                        op == (if is_sum {
                            Operation::Constant(0)
                        } else {
                            Operation::Constant(1)
                        })
                    } else if n == 1 {
                        op == fold_elem_op(ty, idx, 0)
                    } else if is_sum {
                        op matches Operation::Add(_, _)
                    } else {
                        op matches Operation::Mul(_, _)
                    }
                }))
            }),
    {
        let sym_idx = match symbol_table.resolve_idx(name) {
            Ok(v) => v,
            Err(e) => {
                return Err(e);
            },
        };
        let symbol = symbol_table.symbol_at(sym_idx);
        let size: usize = match &symbol.symbol_type {
            SymbolType::Constant(ConstantType::Vector(v)) => v.len(),
            SymbolType::PublicInput(size) => *size,
            SymbolType::RandomValuesBinding(_, size) => *size,
            SymbolType::TraceColumns(tc) => tc.size,
            _ => {
                return Err(SemanticError::InvalidAccess);
            },
        };
        let seg: TraceSegment = match &symbol.symbol_type {
            SymbolType::TraceColumns(tc) => if size > 0 {
                tc.trace_segment
            } else {
                0
            },
            _ => 0,
        };
        if size == 0 {
            let identity: u64 = if is_sum {
                0
            } else {
                1
            };
            let acc = self.insert_op(Operation::Constant(identity));
            return Ok((seg, acc, 0));
        }
        let mut acc = self.insert_fold_element(symbol, sym_idx, 0);
        let mut i: usize = 1;
        while i < size
            invariant
                1 <= i <= size,
                self.wf(),
                symbol_table.wf(),
                sym_idx < symbol_table.symbols().len(),
                sym_idx == crate::symbol_table::find_idx(symbol_table.symbols(), name@),
                *symbol == symbol_table.symbols()[sym_idx as int],
                foldable(symbol.symbol_type),
                size == foldable_len(symbol.symbol_type),
                nodes_grow(self.nodes(), old(self).nodes()),
                acc.0 < self.nodes().len(),
                degree_of(self.nodes(), acc.0 as int) == (if is_sum {
                    fold_elem_degree(symbol.symbol_type)
                } else {
                    (i as nat) * fold_elem_degree(symbol.symbol_type)
                }),
                i == 1 ==> self.nodes()[acc.0 as int] == fold_elem_op(
                    symbol.symbol_type,
                    sym_idx as int,
                    0,
                ),
                i > 1 ==> (if is_sum {
                    self.nodes()[acc.0 as int] matches Operation::Add(_, _)
                } else {
                    self.nodes()[acc.0 as int] matches Operation::Mul(_, _)
                }),
            decreases size - i,
        {
            let ghost n0 = self.nodes();
            let ghost old_acc = acc;
            let el = self.insert_fold_element(symbol, sym_idx, i);
            let ghost n1 = self.nodes();
            let op = if is_sum {
                Operation::Add(acc, el)
            } else {
                Operation::Mul(acc, el)
            };
            acc = self.insert_op(op);
            proof {
                lemma_degree_prefix(n0, n1, old_acc.0 as int);
                lemma_degree_prefix(n1, self.nodes(), old_acc.0 as int);
                lemma_degree_prefix(n1, self.nodes(), el.0 as int);
                assert(op_children_lt(self.nodes()[acc.0 as int], acc.0 as int));
                if !is_sum {
                    assert((i as nat) * fold_elem_degree(symbol.symbol_type) + fold_elem_degree(
                        symbol.symbol_type,
                    ) == ((i + 1) as nat) * fold_elem_degree(symbol.symbol_type))
                        by (nonlinear_arith);
                }
            }
            i += 1;
        }
        Ok((seg, acc, 0))
    }

    /// Recursively lowers an expression into the graph. `allow` is true at
    /// the top level; expressions reached through a variable's stored value
    /// are lowered with further variable references disallowed, so variable
    /// definitions cannot chain.
    /// Lowers a reference to a named scalar symbol. Compile-time constants
    /// are inlined; a scalar variable's stored value is lowered (at the top
    /// level only) and registered under the variable's identity.
    #[verifier::rlimit(100)]
    #[verifier::spinoff_prover]
    fn lower_elem(
        &mut self,
        symbol_table: &SymbolTable,
        name: &String,
        variable_roots: &mut VariableRoots,
        allow: bool,
    ) -> (r: Result<(TraceSegment, NodeIndex, usize), SemanticError>)
        requires
            old(self).wf(),
            symbol_table.wf(),
            old(variable_roots).wf(),
        ensures
            final(self).wf(),
            final(variable_roots).wf(),
            nodes_grow(final(self).nodes(), old(self).nodes()),
            roots_grow(final(variable_roots).entries(), old(variable_roots).entries()),
            new_keys_bound(
                final(variable_roots).entries(),
                old(variable_roots).entries(),
                symbol_table.symbols().len() as int,
            ),
            r is Ok <==> check_expr(symbol_table.symbols(), Expression::Elem(*name), allow) is Ok,
            r is Err ==> r->Err_0 == check_expr(
                symbol_table.symbols(),
                Expression::Elem(*name),
                allow,
            )->Err_0,
            r is Ok ==> (r->Ok_0.1).0 < final(self).nodes().len(),
            r is Ok ==> r->Ok_0.0 as int == seg_of(
                symbol_table.symbols(),
                Expression::Elem(*name),
                allow,
            ),
            r is Ok ==> r->Ok_0.2 as int == off_of(
                symbol_table.symbols(),
                Expression::Elem(*name),
                allow,
            ),
            r is Ok ==> degree_of(final(self).nodes(), (r->Ok_0.1).0 as int) == expr_degree(
                symbol_table.symbols(),
                Expression::Elem(*name),
                allow,
            ),
            r is Ok ==> root_shape(
                symbol_table.symbols(),
                Expression::Elem(*name),
                final(self).nodes()[(r->Ok_0.1).0 as int],
                allow,
            ),
        decreases allow_rank(allow), Expression::Elem(*name), 0int,
    {
        let sym_idx = match symbol_table.resolve_idx(name) {
            Ok(v) => v,
            Err(e) => {
                return Err(e);
            },
        };
        let symbol = symbol_table.symbol_at(sym_idx);
        match &symbol.symbol_type {
            SymbolType::Constant(ConstantType::Scalar(value)) => {
                let idx = self.insert_op(Operation::Constant(*value));
                Ok((0, idx, 0))
            },
            SymbolType::PeriodicColumn(_, _) => {
                let idx = self.insert_op(
                    Operation::SymbolRef(SymbolRefKind::PeriodicColumn, sym_idx, 0),
                );
                Ok((0, idx, 0))
            },
            SymbolType::RandomValuesBinding(_, size) => {
                if *size == 1 {
                    let idx = self.insert_op(
                        Operation::SymbolRef(SymbolRefKind::RandomValue, sym_idx, 0),
                    );
                    Ok((0, idx, 0))
                } else {
                    Err(SemanticError::InvalidAccess)
                }
            },
            SymbolType::TraceColumns(tc) => {
                if tc.size == 1 {
                    let idx = self.insert_op(
                        Operation::TraceAccess(tc.trace_segment, tc.offset, 0),
                    );
                    Ok((tc.trace_segment, idx, 0))
                } else {
                    Err(SemanticError::InvalidAccess)
                }
            },
            SymbolType::Variable(VariableType::Scalar(stored)) => {
                if allow {
                    let d = match self.insert_base_expr(symbol_table, stored, variable_roots) {
                        Ok(v) => v,
                        Err(e) => {
                            return Err(e);
                        },
                    };
                    variable_roots.record(VariableValue::Scalar(sym_idx), d.1);
                    Ok(d)
                } else {
                    Err(SemanticError::InvalidAccess)
                }
            },
            _ => Err(SemanticError::InvalidAccess),
        }
    }

    /// Lowers an access to one element of a vector-typed symbol.
    #[verifier::rlimit(100)]
    #[verifier::spinoff_prover]
    fn lower_vector_access(
        &mut self,
        symbol_table: &SymbolTable,
        va: &VectorAccess,
        variable_roots: &mut VariableRoots,
        allow: bool,
    ) -> (r: Result<(TraceSegment, NodeIndex, usize), SemanticError>)
        requires
            old(self).wf(),
            symbol_table.wf(),
            old(variable_roots).wf(),
        ensures
            final(self).wf(),
            final(variable_roots).wf(),
            nodes_grow(final(self).nodes(), old(self).nodes()),
            roots_grow(final(variable_roots).entries(), old(variable_roots).entries()),
            new_keys_bound(
                final(variable_roots).entries(),
                old(variable_roots).entries(),
                symbol_table.symbols().len() as int,
            ),
            r is Ok <==> check_expr(
                symbol_table.symbols(),
                Expression::VectorAccess(*va),
                allow,
            ) is Ok,
            r is Err ==> r->Err_0 == check_expr(
                symbol_table.symbols(),
                Expression::VectorAccess(*va),
                allow,
            )->Err_0,
            r is Ok ==> (r->Ok_0.1).0 < final(self).nodes().len(),
            r is Ok ==> r->Ok_0.0 as int == seg_of(
                symbol_table.symbols(),
                Expression::VectorAccess(*va),
                allow,
            ),
            r is Ok ==> r->Ok_0.2 as int == off_of(
                symbol_table.symbols(),
                Expression::VectorAccess(*va),
                allow,
            ),
            r is Ok ==> degree_of(final(self).nodes(), (r->Ok_0.1).0 as int) == expr_degree(
                symbol_table.symbols(),
                Expression::VectorAccess(*va),
                allow,
            ),
            r is Ok ==> root_shape(
                symbol_table.symbols(),
                Expression::VectorAccess(*va),
                final(self).nodes()[(r->Ok_0.1).0 as int],
                allow,
            ),
        decreases allow_rank(allow), Expression::VectorAccess(*va), 0int,
    {
        let sym_idx = match symbol_table.resolve_idx(&va.name) {
            Ok(v) => v,
            Err(e) => {
                return Err(e);
            },
        };
        let symbol = symbol_table.symbol_at(sym_idx);
        match va.validate(symbol) {
            Ok(_) => {},
            Err(e) => {
                return Err(e);
            },
        }
        match &symbol.symbol_type {
            SymbolType::Constant(ConstantType::Vector(values)) => {
                let idx = self.insert_op(Operation::Constant(values[va.idx]));
                Ok((0, idx, 0))
            },
            SymbolType::PublicInput(_) => {
                let idx = self.insert_op(
                    Operation::SymbolRef(SymbolRefKind::PublicInput, sym_idx, va.idx),
                );
                Ok((0, idx, 0))
            },
            SymbolType::RandomValuesBinding(_, _) => {
                let idx = self.insert_op(
                    Operation::SymbolRef(SymbolRefKind::RandomValue, sym_idx, va.idx),
                );
                Ok((0, idx, 0))
            },
            SymbolType::TraceColumns(tc) => {
                let idx = self.insert_op(
                    Operation::TraceAccess(tc.trace_segment, tc.offset + va.idx, 0),
                );
                Ok((tc.trace_segment, idx, 0))
            },
            SymbolType::Variable(VariableType::Scalar(stored)) => {
                if allow {
                    let d = match self.insert_base_expr(symbol_table, stored, variable_roots) {
                        Ok(v) => v,
                        Err(e) => {
                            return Err(e);
                        },
                    };
                    variable_roots.record(VariableValue::Scalar(sym_idx), d.1);
                    Ok(d)
                } else {
                    Err(SemanticError::InvalidAccess)
                }
            },
            SymbolType::Variable(VariableType::Vector(stored)) => {
                if allow {
                    let d = match self.insert_base_expr(
                        symbol_table,
                        &stored[va.idx],
                        variable_roots,
                    ) {
                        Ok(v) => v,
                        Err(e) => {
                            return Err(e);
                        },
                    };
                    variable_roots.record(VariableValue::Vector(sym_idx, va.idx), d.1);
                    Ok(d)
                } else {
                    Err(SemanticError::InvalidAccess)
                }
            },
            _ => Err(SemanticError::InvalidAccess),
        }
    }

    /// Lowers an access to one element of a matrix-typed symbol.
    #[verifier::rlimit(100)]
    #[verifier::spinoff_prover]
    fn lower_matrix_access(
        &mut self,
        symbol_table: &SymbolTable,
        ma: &MatrixAccess,
        variable_roots: &mut VariableRoots,
        allow: bool,
    ) -> (r: Result<(TraceSegment, NodeIndex, usize), SemanticError>)
        requires
            old(self).wf(),
            symbol_table.wf(),
            old(variable_roots).wf(),
        ensures
            final(self).wf(),
            final(variable_roots).wf(),
            nodes_grow(final(self).nodes(), old(self).nodes()),
            roots_grow(final(variable_roots).entries(), old(variable_roots).entries()),
            new_keys_bound(
                final(variable_roots).entries(),
                old(variable_roots).entries(),
                symbol_table.symbols().len() as int,
            ),
            r is Ok <==> check_expr(
                symbol_table.symbols(),
                Expression::MatrixAccess(*ma),
                allow,
            ) is Ok,
            r is Err ==> r->Err_0 == check_expr(
                symbol_table.symbols(),
                Expression::MatrixAccess(*ma),
                allow,
            )->Err_0,
            r is Ok ==> (r->Ok_0.1).0 < final(self).nodes().len(),
            r is Ok ==> r->Ok_0.0 as int == seg_of(
                symbol_table.symbols(),
                Expression::MatrixAccess(*ma),
                allow,
            ),
            r is Ok ==> r->Ok_0.2 as int == off_of(
                symbol_table.symbols(),
                Expression::MatrixAccess(*ma),
                allow,
            ),
            r is Ok ==> degree_of(final(self).nodes(), (r->Ok_0.1).0 as int) == expr_degree(
                symbol_table.symbols(),
                Expression::MatrixAccess(*ma),
                allow,
            ),
            r is Ok ==> root_shape(
                symbol_table.symbols(),
                Expression::MatrixAccess(*ma),
                final(self).nodes()[(r->Ok_0.1).0 as int],
                allow,
            ),
        decreases allow_rank(allow), Expression::MatrixAccess(*ma), 0int,
    {
        let sym_idx = match symbol_table.resolve_idx(&ma.name) {
            Ok(v) => v,
            Err(e) => {
                return Err(e);
            },
        };
        let symbol = symbol_table.symbol_at(sym_idx);
        match ma.validate(symbol) {
            Ok(_) => {},
            Err(e) => {
                return Err(e);
            },
        }
        match &symbol.symbol_type {
            SymbolType::Constant(ConstantType::Matrix(values)) => {
                let idx = self.insert_op(Operation::Constant(values[ma.row_idx][ma.col_idx]));
                Ok((0, idx, 0))
            },
            SymbolType::Variable(VariableType::Scalar(stored)) => {
                if allow {
                    let d = match self.insert_base_expr(symbol_table, stored, variable_roots) {
                        Ok(v) => v,
                        Err(e) => {
                            return Err(e);
                        },
                    };
                    variable_roots.record(VariableValue::Scalar(sym_idx), d.1);
                    Ok(d)
                } else {
                    Err(SemanticError::InvalidAccess)
                }
            },
            SymbolType::Variable(VariableType::Vector(stored)) => {
                if !allow {
                    Err(SemanticError::InvalidAccess)
                } else if ma.row_idx < stored.len() {
                    let d = match self.insert_base_expr(
                        symbol_table,
                        &stored[ma.row_idx],
                        variable_roots,
                    ) {
                        Ok(v) => v,
                        Err(e) => {
                            return Err(e);
                        },
                    };
                    variable_roots.record(VariableValue::Vector(sym_idx, ma.row_idx), d.1);
                    Ok(d)
                } else {
                    Err(SemanticError::OutOfBounds)
                }
            },
            SymbolType::Variable(VariableType::Matrix(stored)) => {
                if allow {
                    let d = match self.insert_base_expr(
                        symbol_table,
                        &stored[ma.row_idx][ma.col_idx],
                        variable_roots,
                    ) {
                        Ok(v) => v,
                        Err(e) => {
                            return Err(e);
                        },
                    };
                    variable_roots.record(
                        VariableValue::Matrix(sym_idx, ma.row_idx, ma.col_idx),
                        d.1,
                    );
                    Ok(d)
                } else {
                    Err(SemanticError::InvalidAccess)
                }
            },
            _ => Err(SemanticError::InvalidAccess),
        }
    }

    /// Lowers an access to a named trace column at a row offset.
    #[verifier::rlimit(100)]
    #[verifier::spinoff_prover]
    fn lower_named_trace(
        &mut self,
        symbol_table: &SymbolTable,
        nta: &NamedTraceAccess,
    ) -> (r: Result<(TraceSegment, NodeIndex, usize), SemanticError>)
        requires
            old(self).wf(),
            symbol_table.wf(),
        ensures
            final(self).wf(),
            nodes_grow(final(self).nodes(), old(self).nodes()),
            forall|b: bool|
                (r is Ok <==> check_expr(
                    symbol_table.symbols(),
                    Expression::NamedTraceAccess(*nta),
                    b,
                ) is Ok),
            forall|b: bool|
                r is Err ==> r->Err_0 == check_expr(
                    symbol_table.symbols(),
                    Expression::NamedTraceAccess(*nta),
                    b,
                )->Err_0,
            r is Ok ==> (r->Ok_0.1).0 < final(self).nodes().len(),
            r is Ok ==> degree_of(final(self).nodes(), (r->Ok_0.1).0 as int) == 1,
            r is Ok ==> (match find_sym(symbol_table.symbols(), nta.name@) {
                SymbolType::TraceColumns(tc) => final(self).nodes()[(r->Ok_0.1).0 as int]
                    == Operation::TraceAccess(
                    tc.trace_segment,
                    (tc.offset + nta.idx) as usize,
                    nta.row_offset,
                ),
                _ => false,
            }),
            forall|b: bool|
                r is Ok ==> r->Ok_0.0 as int == seg_of(
                    symbol_table.symbols(),
                    Expression::NamedTraceAccess(*nta),
                    b,
                ),
            forall|b: bool|
                r is Ok ==> r->Ok_0.2 as int == off_of(
                    symbol_table.symbols(),
                    Expression::NamedTraceAccess(*nta),
                    b,
                ),
    {
        let sym_idx = match symbol_table.resolve_idx(&nta.name) {
            Ok(v) => v,
            Err(e) => {
                return Err(e);
            },
        };
        let symbol = symbol_table.symbol_at(sym_idx);
        match nta.validate(symbol) {
            Ok(_) => {},
            Err(e) => {
                return Err(e);
            },
        }
        match &symbol.symbol_type {
            SymbolType::TraceColumns(tc) => {
                let idx = self.insert_op(
                    Operation::TraceAccess(tc.trace_segment, tc.offset + nta.idx, nta.row_offset),
                );
                Ok((tc.trace_segment, idx, nta.row_offset))
            },
            _ => Err(SemanticError::InvalidAccess),
        }
    }

    /// Lowers an expression reached through a variable's stored value:
    /// structurally identical to top-level lowering except that further
    /// variable references are rejected, so variable definitions cannot
    /// chain.
    #[verifier::rlimit(100)]
    #[verifier::spinoff_prover]
    fn insert_base_expr(
        &mut self,
        symbol_table: &SymbolTable,
        expr: &Expression,
        variable_roots: &mut VariableRoots,
    ) -> (r: Result<(TraceSegment, NodeIndex, usize), SemanticError>)
        requires
            old(self).wf(),
            symbol_table.wf(),
            old(variable_roots).wf(),
        ensures
            final(self).wf(),
            final(variable_roots).wf(),
            nodes_grow(final(self).nodes(), old(self).nodes()),
            roots_grow(final(variable_roots).entries(), old(variable_roots).entries()),
            new_keys_bound(
                final(variable_roots).entries(),
                old(variable_roots).entries(),
                symbol_table.symbols().len() as int,
            ),
            r is Ok <==> check_expr(symbol_table.symbols(), *expr, false) is Ok,
            r is Err ==> r->Err_0 == check_expr(symbol_table.symbols(), *expr, false)->Err_0,
            r is Ok ==> (r->Ok_0.1).0 < final(self).nodes().len(),
            r is Ok ==> r->Ok_0.0 as int == seg_of(symbol_table.symbols(), *expr, false),
            r is Ok ==> r->Ok_0.2 as int == off_of(symbol_table.symbols(), *expr, false),
            r is Ok ==> degree_of(final(self).nodes(), (r->Ok_0.1).0 as int) == expr_degree(
                symbol_table.symbols(),
                *expr,
                false,
            ),
            r is Ok ==> root_shape(
                symbol_table.symbols(),
                *expr,
                final(self).nodes()[(r->Ok_0.1).0 as int],
                false,
            ),
        decreases 0int, *expr, 1int,
    {
        match expr {
            Expression::Const(value) => {
                let idx = self.insert_op(Operation::Constant(*value));
                Ok((0, idx, 0))
            },
            Expression::Elem(name) => self.lower_elem(symbol_table, name, variable_roots, false),
            Expression::VectorAccess(va) => self.lower_vector_access(
                symbol_table,
                va,
                variable_roots,
                false,
            ),
            Expression::MatrixAccess(ma) => self.lower_matrix_access(
                symbol_table,
                ma,
                variable_roots,
                false,
            ),
            Expression::NamedTraceAccess(nta) => self.lower_named_trace(symbol_table, nta),
            Expression::IndexedTraceAccess(ita) => {
                let idx = self.insert_op(
                    Operation::TraceAccess(ita.trace_segment, ita.col_idx, ita.row_offset),
                );
                Ok((ita.trace_segment, idx, ita.row_offset))
            },
            Expression::Add(l, r_) => {
                let dl = match self.insert_base_expr(symbol_table, l, variable_roots) {
                    Ok(v) => v,
                    Err(e) => {
                        return Err(e);
                    },
                };
                let ghost n1 = self.nodes();
                let dr = match self.insert_base_expr(symbol_table, r_, variable_roots) {
                    Ok(v) => v,
                    Err(e) => {
                        return Err(e);
                    },
                };
                let ghost n2 = self.nodes();
                let idx = self.insert_op(Operation::Add(dl.1, dr.1));
                proof {
                    lemma_degree_prefix(n1, n2, (dl.1).0 as int);
                    lemma_degree_prefix(n2, self.nodes(), (dl.1).0 as int);
                    lemma_degree_prefix(n2, self.nodes(), (dr.1).0 as int);
                    assert(op_children_lt(self.nodes()[idx.0 as int], idx.0 as int));
                }
                let seg: TraceSegment = if dl.0 >= dr.0 {
                    dl.0
                } else {
                    dr.0
                };
                let off: usize = if dl.2 >= dr.2 {
                    dl.2
                } else {
                    dr.2
                };
                Ok((seg, idx, off))
            },
            Expression::Sub(l, r_) => {
                let dl = match self.insert_base_expr(symbol_table, l, variable_roots) {
                    Ok(v) => v,
                    Err(e) => {
                        return Err(e);
                    },
                };
                let ghost n1 = self.nodes();
                let dr = match self.insert_base_expr(symbol_table, r_, variable_roots) {
                    Ok(v) => v,
                    Err(e) => {
                        return Err(e);
                    },
                };
                let ghost n2 = self.nodes();
                let idx = self.insert_op(Operation::Sub(dl.1, dr.1));
                proof {
                    lemma_degree_prefix(n1, n2, (dl.1).0 as int);
                    lemma_degree_prefix(n2, self.nodes(), (dl.1).0 as int);
                    lemma_degree_prefix(n2, self.nodes(), (dr.1).0 as int);
                    assert(op_children_lt(self.nodes()[idx.0 as int], idx.0 as int));
                }
                let seg: TraceSegment = if dl.0 >= dr.0 {
                    dl.0
                } else {
                    dr.0
                };
                let off: usize = if dl.2 >= dr.2 {
                    dl.2
                } else {
                    dr.2
                };
                Ok((seg, idx, off))
            },
            Expression::Mul(l, r_) => {
                let dl = match self.insert_base_expr(symbol_table, l, variable_roots) {
                    Ok(v) => v,
                    Err(e) => {
                        return Err(e);
                    },
                };
                let ghost n1 = self.nodes();
                let dr = match self.insert_base_expr(symbol_table, r_, variable_roots) {
                    Ok(v) => v,
                    Err(e) => {
                        return Err(e);
                    },
                };
                let ghost n2 = self.nodes();
                let idx = self.insert_op(Operation::Mul(dl.1, dr.1));
                proof {
                    lemma_degree_prefix(n1, n2, (dl.1).0 as int);
                    lemma_degree_prefix(n2, self.nodes(), (dl.1).0 as int);
                    lemma_degree_prefix(n2, self.nodes(), (dr.1).0 as int);
                    assert(op_children_lt(self.nodes()[idx.0 as int], idx.0 as int));
                }
                let seg: TraceSegment = if dl.0 >= dr.0 {
                    dl.0
                } else {
                    dr.0
                };
                let off: usize = if dl.2 >= dr.2 {
                    dl.2
                } else {
                    dr.2
                };
                Ok((seg, idx, off))
            },
            Expression::Exp(b, exponent) => {
                let db = match self.insert_base_expr(symbol_table, b, variable_roots) {
                    Ok(v) => v,
                    Err(e) => {
                        return Err(e);
                    },
                };
                let ghost n2 = self.nodes();
                let idx = self.insert_op(Operation::Exp(db.1, *exponent));
                proof {
                    lemma_degree_prefix(n2, self.nodes(), (db.1).0 as int);
                    assert(op_children_lt(self.nodes()[idx.0 as int], idx.0 as int));
                }
                Ok((db.0, idx, db.2))
            },
            Expression::ListFolding(lft) => {
                match lft {
                    ListFoldingType::Sum(name) => self.lower_fold(symbol_table, name, true),
                    ListFoldingType::Prod(name) => self.lower_fold(symbol_table, name, false),
                }
            },
        }
    }

    /// Recursively lowers a top-level expression into the graph. A
    /// reference to a declared variable lowers the variable's stored value
    /// and registers the materialized element under its identity in the
    /// variable roots.
    #[verifier::rlimit(100)]
    #[verifier::spinoff_prover]
    fn insert_top_expr(
        &mut self,
        symbol_table: &SymbolTable,
        expr: &Expression,
        variable_roots: &mut VariableRoots,
    ) -> (r: Result<(TraceSegment, NodeIndex, usize), SemanticError>)
        requires
            old(self).wf(),
            symbol_table.wf(),
            old(variable_roots).wf(),
        ensures
            final(self).wf(),
            final(variable_roots).wf(),
            nodes_grow(final(self).nodes(), old(self).nodes()),
            roots_grow(final(variable_roots).entries(), old(variable_roots).entries()),
            new_keys_bound(
                final(variable_roots).entries(),
                old(variable_roots).entries(),
                symbol_table.symbols().len() as int,
            ),
            r is Ok <==> check_expr(symbol_table.symbols(), *expr, true) is Ok,
            r is Err ==> r->Err_0 == check_expr(symbol_table.symbols(), *expr, true)->Err_0,
            r is Ok ==> (r->Ok_0.1).0 < final(self).nodes().len(),
            r is Ok ==> r->Ok_0.0 as int == seg_of(symbol_table.symbols(), *expr, true),
            r is Ok ==> r->Ok_0.2 as int == off_of(symbol_table.symbols(), *expr, true),
            r is Ok ==> degree_of(final(self).nodes(), (r->Ok_0.1).0 as int) == expr_degree(
                symbol_table.symbols(),
                *expr,
                true,
            ),
            r is Ok ==> root_shape(
                symbol_table.symbols(),
                *expr,
                final(self).nodes()[(r->Ok_0.1).0 as int],
                true,
            ),
        decreases *expr,
    {
        match expr {
            Expression::Const(value) => {
                let idx = self.insert_op(Operation::Constant(*value));
                Ok((0, idx, 0))
            },
            Expression::Elem(name) => self.lower_elem(symbol_table, name, variable_roots, true),
            Expression::VectorAccess(va) => self.lower_vector_access(
                symbol_table,
                va,
                variable_roots,
                true,
            ),
            Expression::MatrixAccess(ma) => self.lower_matrix_access(
                symbol_table,
                ma,
                variable_roots,
                true,
            ),
            Expression::NamedTraceAccess(nta) => self.lower_named_trace(symbol_table, nta),
            Expression::IndexedTraceAccess(ita) => {
                let idx = self.insert_op(
                    Operation::TraceAccess(ita.trace_segment, ita.col_idx, ita.row_offset),
                );
                Ok((ita.trace_segment, idx, ita.row_offset))
            },
            Expression::Add(l, r_) => {
                let dl = match self.insert_top_expr(symbol_table, l, variable_roots) {
                    Ok(v) => v,
                    Err(e) => {
                        return Err(e);
                    },
                };
                let ghost n1 = self.nodes();
                let dr = match self.insert_top_expr(symbol_table, r_, variable_roots) {
                    Ok(v) => v,
                    Err(e) => {
                        return Err(e);
                    },
                };
                let ghost n2 = self.nodes();
                let idx = self.insert_op(Operation::Add(dl.1, dr.1));
                proof {
                    lemma_degree_prefix(n1, n2, (dl.1).0 as int);
                    lemma_degree_prefix(n2, self.nodes(), (dl.1).0 as int);
                    lemma_degree_prefix(n2, self.nodes(), (dr.1).0 as int);
                    assert(op_children_lt(self.nodes()[idx.0 as int], idx.0 as int));
                }
                let seg: TraceSegment = if dl.0 >= dr.0 {
                    dl.0
                } else {
                    dr.0
                };
                let off: usize = if dl.2 >= dr.2 {
                    dl.2
                } else {
                    dr.2
                };
                Ok((seg, idx, off))
            },
            Expression::Sub(l, r_) => {
                let dl = match self.insert_top_expr(symbol_table, l, variable_roots) {
                    Ok(v) => v,
                    Err(e) => {
                        return Err(e);
                    },
                };
                let ghost n1 = self.nodes();
                let dr = match self.insert_top_expr(symbol_table, r_, variable_roots) {
                    Ok(v) => v,
                    Err(e) => {
                        return Err(e);
                    },
                };
                let ghost n2 = self.nodes();
                let idx = self.insert_op(Operation::Sub(dl.1, dr.1));
                proof {
                    lemma_degree_prefix(n1, n2, (dl.1).0 as int);
                    lemma_degree_prefix(n2, self.nodes(), (dl.1).0 as int);
                    lemma_degree_prefix(n2, self.nodes(), (dr.1).0 as int);
                    assert(op_children_lt(self.nodes()[idx.0 as int], idx.0 as int));
                }
                let seg: TraceSegment = if dl.0 >= dr.0 {
                    dl.0
                } else {
                    dr.0
                };
                let off: usize = if dl.2 >= dr.2 {
                    dl.2
                } else {
                    dr.2
                };
                Ok((seg, idx, off))
            },
            Expression::Mul(l, r_) => {
                let dl = match self.insert_top_expr(symbol_table, l, variable_roots) {
                    Ok(v) => v,
                    Err(e) => {
                        return Err(e);
                    },
                };
                let ghost n1 = self.nodes();
                let dr = match self.insert_top_expr(symbol_table, r_, variable_roots) {
                    Ok(v) => v,
                    Err(e) => {
                        return Err(e);
                    },
                };
                let ghost n2 = self.nodes();
                let idx = self.insert_op(Operation::Mul(dl.1, dr.1));
                proof {
                    lemma_degree_prefix(n1, n2, (dl.1).0 as int);
                    lemma_degree_prefix(n2, self.nodes(), (dl.1).0 as int);
                    lemma_degree_prefix(n2, self.nodes(), (dr.1).0 as int);
                    assert(op_children_lt(self.nodes()[idx.0 as int], idx.0 as int));
                }
                let seg: TraceSegment = if dl.0 >= dr.0 {
                    dl.0
                } else {
                    dr.0
                };
                let off: usize = if dl.2 >= dr.2 {
                    dl.2
                } else {
                    dr.2
                };
                Ok((seg, idx, off))
            },
            Expression::Exp(b, exponent) => {
                let db = match self.insert_top_expr(symbol_table, b, variable_roots) {
                    Ok(v) => v,
                    Err(e) => {
                        return Err(e);
                    },
                };
                let ghost n2 = self.nodes();
                let idx = self.insert_op(Operation::Exp(db.1, *exponent));
                proof {
                    lemma_degree_prefix(n2, self.nodes(), (db.1).0 as int);
                    assert(op_children_lt(self.nodes()[idx.0 as int], idx.0 as int));
                }
                Ok((db.0, idx, db.2))
            },
            Expression::ListFolding(lft) => {
                match lft {
                    ListFoldingType::Sum(name) => self.lower_fold(symbol_table, name, true),
                    ListFoldingType::Prod(name) => self.lower_fold(symbol_table, name, false),
                }
            },
        }
    }

    /// Lowers an expression tree into the graph, reusing structurally equal
    /// nodes, and returns the trace segment the expression is assigned to
    /// (the largest segment its trace accesses touch), the root node of the
    /// lowered subgraph, and the largest row offset it reaches.
    pub fn insert_expr(
        &mut self,
        symbol_table: &SymbolTable,
        expr: &Expression,
        variable_roots: &mut VariableRoots,
    ) -> (r: Result<(TraceSegment, NodeIndex, usize), SemanticError>)
        requires
            old(self).wf(),
            symbol_table.wf(),
            old(variable_roots).wf(),
        ensures
            final(self).wf(),
            final(variable_roots).wf(),
            nodes_grow(final(self).nodes(), old(self).nodes()),
            roots_grow(final(variable_roots).entries(), old(variable_roots).entries()),
            new_keys_bound(
                final(variable_roots).entries(),
                old(variable_roots).entries(),
                symbol_table.symbols().len() as int,
            ),
            r is Ok <==> check_expr(symbol_table.symbols(), *expr, true) is Ok,
            r is Err ==> r->Err_0 == check_expr(symbol_table.symbols(), *expr, true)->Err_0,
            r is Ok ==> (r->Ok_0.1).0 < final(self).nodes().len(),
            r is Ok ==> r->Ok_0.0 as int == seg_of(symbol_table.symbols(), *expr, true),
            r is Ok ==> r->Ok_0.2 as int == off_of(symbol_table.symbols(), *expr, true),
            r is Ok ==> degree_of(final(self).nodes(), (r->Ok_0.1).0 as int) == expr_degree(
                symbol_table.symbols(),
                *expr,
                true,
            ),
            r is Ok ==> root_shape(
                symbol_table.symbols(),
                *expr,
                final(self).nodes()[(r->Ok_0.1).0 as int],
                true,
            ),
    {
        self.insert_top_expr(symbol_table, expr, variable_roots)
    }

    /// Inserts the normalized `lhs - rhs` node that asserts the equality of
    /// two lowered expressions, so every constraint takes the form
    /// "expression equals zero". The merged constraint is assigned the
    /// larger segment and the larger row offset of the two sides.
    pub fn merge_equal_exprs(
        &mut self,
        lhs: (TraceSegment, NodeIndex, usize),
        rhs: (TraceSegment, NodeIndex, usize),
    ) -> (r: (TraceSegment, NodeIndex, usize))
        requires
            old(self).wf(),
            lhs.1.0 < old(self).nodes().len(),
            rhs.1.0 < old(self).nodes().len(),
        ensures
            final(self).wf(),
            nodes_grow(final(self).nodes(), old(self).nodes()),
            r.1.0 < final(self).nodes().len(),
            final(self).nodes()[r.1.0 as int] == Operation::Sub(lhs.1, rhs.1),
            r.0 as int == int_max(lhs.0 as int, rhs.0 as int),
            r.2 as int == int_max(lhs.2 as int, rhs.2 as int),
            degree_of(final(self).nodes(), (r.1).0 as int) == nat_max(
                degree_of(old(self).nodes(), (lhs.1).0 as int),
                degree_of(old(self).nodes(), (rhs.1).0 as int),
            ),
    {
        let idx = self.insert_op(Operation::Sub(lhs.1, rhs.1));
        proof {
            lemma_degree_prefix(old(self).nodes(), self.nodes(), (lhs.1).0 as int);
            lemma_degree_prefix(old(self).nodes(), self.nodes(), (rhs.1).0 as int);
            assert(op_children_lt(self.nodes()[idx.0 as int], idx.0 as int));
        }
        let seg: TraceSegment = if lhs.0 >= rhs.0 {
            lhs.0
        } else {
            rhs.0
        };
        let off: usize = if lhs.2 >= rhs.2 {
            lhs.2
        } else {
            rhs.2
        };
        (seg, idx, off)
    }
}

} // verus!
