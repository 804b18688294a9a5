//! Validation of indexed accesses against the declared type and size of the
//! accessed symbol. These checks are pure: they signal errors and change
//! nothing.

use vstd::prelude::*;

use crate::ast::{MatrixAccess, NamedTraceAccess, VariableType, VectorAccess};
use crate::errors::SemanticError;
use crate::symbol_table::{ConstantType, Symbol, SymbolType};

verus! {

/// The outcome of validating a named trace access against a symbol of the
/// given type: only trace columns admit it, and the column index must be
/// within the declared group size.
pub open spec fn named_trace_access_result(ty: SymbolType, idx: int) -> Result<
    (),
    SemanticError,
> {
    match ty {
        SymbolType::TraceColumns(tc) => if idx < tc.size {
            Ok(())
        } else {
            Err(SemanticError::OutOfBounds)
        },
        _ => Err(SemanticError::InvalidAccess),
    }
}

/// The length a vector access is checked against, for the symbol types that
/// admit one.
pub open spec fn declared_vector_length(ty: SymbolType) -> Option<int> {
    match ty {
        SymbolType::Constant(ConstantType::Vector(v)) => Some(v@.len() as int),
        SymbolType::PublicInput(size) => Some(size as int),
        SymbolType::RandomValuesBinding(_, size) => Some(size as int),
        SymbolType::TraceColumns(tc) => Some(tc.size as int),
        SymbolType::Variable(VariableType::Vector(v)) => Some(v@.len() as int),
        _ => None,
    }
}

/// The outcome of validating a vector access against a symbol of the given
/// type. A scalar variable is permitted with no bounds check: its shape may
/// not be inferred yet, a deliberate relaxation kept from the source
/// language's semantics.
pub open spec fn vector_access_result(ty: SymbolType, idx: int) -> Result<(), SemanticError> {
    match ty {
        SymbolType::Variable(VariableType::Scalar(_)) => Ok(()),
        SymbolType::Variable(VariableType::Vector(v)) => if idx < v@.len() {
            Ok(())
        } else {
            Err(SemanticError::OutOfBounds)
        },
        SymbolType::Variable(_) => Err(SemanticError::InvalidAccess),
        _ => match declared_vector_length(ty) {
            Some(len) => if idx < len {
                Ok(())
            } else {
                Err(SemanticError::OutOfBounds)
            },
            None => Err(SemanticError::InvalidAccess),
        },
    }
}

/// The row and column bounds a matrix access is checked against: the row
/// count and the length of the first row.
pub open spec fn matrix_dims<T>(m: Seq<Seq<T>>) -> (int, int) {
    (m.len() as int, if m.len() > 0 {
        m[0].len() as int
    } else {
        0
    })
}

/// The outcome of validating a matrix access against a symbol of the given
/// type. Scalar and vector variables are permitted with no bounds check, the
/// same relaxation as for vector accesses.
pub open spec fn matrix_access_result(ty: SymbolType, row_idx: int, col_idx: int) -> Result<
    (),
    SemanticError,
> {
    match ty {
        SymbolType::Constant(ConstantType::Matrix(m)) => {
            let (rows, cols) = matrix_dims(m@.map_values(|r: Vec<u64>| r@));
            if row_idx < rows && col_idx < cols {
                Ok(())
            } else {
                Err(SemanticError::OutOfBounds)
            }
        },
        SymbolType::Variable(VariableType::Scalar(_)) => Ok(()),
        SymbolType::Variable(VariableType::Vector(_)) => Ok(()),
        SymbolType::Variable(VariableType::Matrix(m)) => {
            let (rows, cols) = matrix_dims(m@.map_values(|r: Vec<crate::ast::Expression>| r@));
            if row_idx < rows && col_idx < cols {
                Ok(())
            } else {
                Err(SemanticError::OutOfBounds)
            }
        },
        _ => Err(SemanticError::InvalidAccess),
    }
}

impl NamedTraceAccess {
    /// Checks this trace-column access against the accessed symbol.
    pub fn validate(&self, symbol: &Symbol) -> (r: Result<(), SemanticError>)
        ensures
            r == named_trace_access_result(symbol.symbol_type, self.idx as int),
    {
        match &symbol.symbol_type {
            SymbolType::TraceColumns(columns) => {
                if self.idx >= columns.size {
                    Err(SemanticError::OutOfBounds)
                } else {
                    Ok(())
                }
            },
            _ => Err(SemanticError::InvalidAccess),
        }
    }
}

impl VectorAccess {
    /// Checks this vector access against the accessed symbol.
    pub fn validate(&self, symbol: &Symbol) -> (r: Result<(), SemanticError>)
        ensures
            r == vector_access_result(symbol.symbol_type, self.idx as int),
    {
        let vector_len: usize = match &symbol.symbol_type {
            SymbolType::Constant(ConstantType::Vector(vector)) => vector.len(),
            SymbolType::PublicInput(size) => *size,
            SymbolType::RandomValuesBinding(_, size) => *size,
            SymbolType::TraceColumns(trace_columns) => trace_columns.size,
            SymbolType::Variable(variable) => {
                match variable {
                    VariableType::Scalar(_) => {
                        return Ok(());
                    },
                    VariableType::Vector(vector) => vector.len(),
                    _ => {
                        return Err(SemanticError::InvalidAccess);
                    },
                }
            },
            _ => {
                return Err(SemanticError::InvalidAccess);
            },
        };
        if self.idx >= vector_len {
            return Err(SemanticError::OutOfBounds);
        }
        Ok(())
    }
}

impl MatrixAccess {
    /// Checks this matrix access against the accessed symbol.
    pub fn validate(&self, symbol: &Symbol) -> (r: Result<(), SemanticError>)
        ensures
            r == matrix_access_result(symbol.symbol_type, self.row_idx as int, self.col_idx as int),
    {
        let (row_len, col_len): (usize, usize) = match &symbol.symbol_type {
            SymbolType::Constant(ConstantType::Matrix(matrix)) => (
                matrix.len(),
                if matrix.len() > 0 {
                    matrix[0].len()
                } else {
                    0
                },
            ),
            SymbolType::Variable(variable) => {
                match variable {
                    VariableType::Scalar(_) | VariableType::Vector(_) => {
                        return Ok(());
                    },
                    VariableType::Matrix(matrix) => (
                        matrix.len(),
                        if matrix.len() > 0 {
                            matrix[0].len()
                        } else {
                            0
                        },
                    ),
                    _ => {
                        return Err(SemanticError::InvalidAccess);
                    },
                }
            },
            _ => {
                return Err(SemanticError::InvalidAccess);
            },
        };
        if self.row_idx >= row_len || self.col_idx >= col_len {
            return Err(SemanticError::OutOfBounds);
        }
        Ok(())
    }
}

/// Bounds rejection: against any symbol type that declares a vector length
/// `len`, a vector access succeeds exactly when its index is below `len`,
/// and an index at or past `len` is rejected as out of bounds.
pub proof fn lemma_vector_access_bounds(ty: SymbolType, idx: int)
    requires
        declared_vector_length(ty) is Some,
    ensures
        vector_access_result(ty, idx) is Ok <==> idx < declared_vector_length(ty)->Some_0,
        idx >= declared_vector_length(ty)->Some_0 ==> vector_access_result(ty, idx) == Err::<
            (),
            SemanticError,
        >(SemanticError::OutOfBounds),
{
}

} // verus!
