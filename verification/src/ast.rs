//! The statement/expression AST consumed by the IR builder. The surface-syntax
//! parser that produces these values sits outside this library; the builder
//! requires them to be syntactically well formed and performs all semantic
//! checking itself.

use vstd::prelude::*;

verus! {

/// An access to a named trace column, `name[idx]`, at a row offset
/// (0 = current row, 1 = next row, ...).
#[derive(Debug)]
pub struct NamedTraceAccess {
    pub name: String,
    pub idx: usize,
    pub row_offset: usize,
}

impl NamedTraceAccess {
    pub fn new(name: String, idx: usize, row_offset: usize) -> (r: Self)
        ensures
            r.name == name && r.idx == idx && r.row_offset == row_offset,
    {
        Self { name, idx, row_offset }
    }

    pub fn idx(&self) -> (r: usize)
        ensures
            r == self.idx,
    {
        self.idx
    }
}

/// A direct access to a trace column by segment and column index.
#[derive(Debug)]
pub struct IndexedTraceAccess {
    pub trace_segment: u8,
    pub col_idx: usize,
    pub row_offset: usize,
}

impl IndexedTraceAccess {
    pub fn new(trace_segment: u8, col_idx: usize, row_offset: usize) -> (r: Self)
        ensures
            r.trace_segment == trace_segment && r.col_idx == col_idx && r.row_offset
                == row_offset,
    {
        Self { trace_segment, col_idx, row_offset }
    }
}

/// An access to one element of a vector-typed symbol, `name[idx]`.
#[derive(Debug)]
pub struct VectorAccess {
    pub name: String,
    pub idx: usize,
}

impl VectorAccess {
    pub fn new(name: String, idx: usize) -> (r: Self)
        ensures
            r.name == name && r.idx == idx,
    {
        Self { name, idx }
    }

    pub fn idx(&self) -> (r: usize)
        ensures
            r == self.idx,
    {
        self.idx
    }
}

/// An access to one element of a matrix-typed symbol, `name[row][col]`.
#[derive(Debug)]
pub struct MatrixAccess {
    pub name: String,
    pub row_idx: usize,
    pub col_idx: usize,
}

impl MatrixAccess {
    pub fn new(name: String, row_idx: usize, col_idx: usize) -> (r: Self)
        ensures
            r.name == name && r.row_idx == row_idx && r.col_idx == col_idx,
    {
        Self { name, row_idx, col_idx }
    }

    pub fn row_idx(&self) -> (r: usize)
        ensures
            r == self.row_idx,
    {
        self.row_idx
    }

    pub fn col_idx(&self) -> (r: usize)
        ensures
            r == self.col_idx,
    {
        self.col_idx
    }
}

/// A list-folding operator: a sum or product over the elements of a declared
/// vector-typed symbol, expanded at lowering time into a chain of additions or
/// multiplications.
#[derive(Debug)]
pub enum ListFoldingType {
    Sum(String),
    Prod(String),
}

/// A parsed constraint expression.
#[derive(Debug)]
pub enum Expression {
    /// An inline constant value.
    Const(u64),
    /// A reference to a named scalar symbol.
    Elem(String),
    /// An access to one element of a vector-typed symbol.
    VectorAccess(VectorAccess),
    /// An access to one element of a matrix-typed symbol.
    MatrixAccess(MatrixAccess),
    /// An access to a named trace column at a row offset.
    NamedTraceAccess(NamedTraceAccess),
    /// A direct access to a trace column by segment and column index.
    IndexedTraceAccess(IndexedTraceAccess),
    Add(Box<Expression>, Box<Expression>),
    Sub(Box<Expression>, Box<Expression>),
    Mul(Box<Expression>, Box<Expression>),
    /// Exponentiation of an expression by a constant power.
    Exp(Box<Expression>, u64),
    /// A sum or product folded over a declared vector.
    ListFolding(ListFoldingType),
}

/// A list comprehension: `[expr for (b0, b1, ...) in (i0, i1, ...)]`, where
/// each binding ranges elementwise over the iterable declared under the name
/// at the same position.
#[derive(Debug)]
pub struct ListComprehension {
    pub expr: Expression,
    pub bindings: Vec<String>,
    pub iterables: Vec<String>,
}

impl ListComprehension {
    pub fn new(expr: Expression, bindings: Vec<String>, iterables: Vec<String>) -> (r: Self)
        ensures
            r.expr == expr && r.bindings == bindings && r.iterables == iterables,
    {
        Self { expr, bindings, iterables }
    }
}

/// The value bound to a declared variable.
#[derive(Debug)]
pub enum VariableType {
    Scalar(Expression),
    Vector(Vec<Expression>),
    Matrix(Vec<Vec<Expression>>),
    ListComprehension(ListComprehension),
}

/// A variable declaration statement.
#[derive(Debug)]
pub struct Variable {
    pub name: String,
    pub value: VariableType,
}

impl Variable {
    pub fn new(name: String, value: VariableType) -> (r: Self)
        ensures
            r.name == name && r.value == value,
    {
        Self { name, value }
    }
}

/// An integrity constraint asserting `lhs = rhs` on every enforced row.
#[derive(Debug)]
pub struct IntegrityConstraint {
    pub lhs: Expression,
    pub rhs: Expression,
}

impl IntegrityConstraint {
    pub fn new(lhs: Expression, rhs: Expression) -> (r: Self)
        ensures
            r.lhs == lhs && r.rhs == rhs,
    {
        Self { lhs, rhs }
    }
}

/// A statement in the integrity-constraints section.
#[derive(Debug)]
pub enum IntegrityStmt {
    Constraint(IntegrityConstraint),
    Variable(Variable),
}

/// The boundary a boundary constraint is asserted at.
#[derive(Clone, Copy, Debug, PartialEq, Eq, Structural)]
pub enum Boundary {
    First,
    Last,
}

/// A boundary constraint asserting that a trace column equals a value at the
/// first or last row of the trace.
#[derive(Debug)]
pub struct BoundaryConstraint {
    pub access: NamedTraceAccess,
    pub boundary: Boundary,
    pub value: Expression,
}

impl BoundaryConstraint {
    pub fn new(access: NamedTraceAccess, boundary: Boundary, value: Expression) -> (r: Self)
        ensures
            r.access == access && r.boundary == boundary && r.value == value,
    {
        Self { access, boundary, value }
    }
}

/// A statement in the boundary-constraints section.
#[derive(Debug)]
pub enum BoundaryStmt {
    Constraint(BoundaryConstraint),
    Variable(Variable),
}

} // verus!
