use air_ir::ast::{MatrixAccess, NamedTraceAccess, VariableType, VectorAccess};
use air_ir::ast::Expression;
use air_ir::errors::SemanticError;
use air_ir::symbol_table::{ConstantType, Symbol, SymbolTable, SymbolType, TraceColumns};

fn sym(name: &str, ty: SymbolType) -> Symbol {
    Symbol { name: name.to_string(), symbol_type: ty }
}

#[test]
fn vector_access_ok_iff_below_declared_length() {
    let s = sym("pub_in", SymbolType::PublicInput(4));
    for idx in 0..4 {
        assert!(VectorAccess::new("pub_in".to_string(), idx).validate(&s).is_ok());
    }
    assert_eq!(
        VectorAccess::new("pub_in".to_string(), 4).validate(&s),
        Err(SemanticError::OutOfBounds)
    );
    assert_eq!(
        VectorAccess::new("pub_in".to_string(), 17).validate(&s),
        Err(SemanticError::OutOfBounds)
    );
}

#[test]
fn vector_access_against_each_symbol_kind() {
    let cv = sym("cv", SymbolType::Constant(ConstantType::Vector(vec![7, 8, 9])));
    assert!(VectorAccess::new("cv".to_string(), 2).validate(&cv).is_ok());
    assert_eq!(
        VectorAccess::new("cv".to_string(), 3).validate(&cv),
        Err(SemanticError::OutOfBounds)
    );

    let rand = sym("alphas", SymbolType::RandomValuesBinding(0, 2));
    assert!(VectorAccess::new("alphas".to_string(), 1).validate(&rand).is_ok());

    let tc = sym("clk", SymbolType::TraceColumns(TraceColumns::new(0, 0, 2)));
    assert!(VectorAccess::new("clk".to_string(), 1).validate(&tc).is_ok());

    // a scalar constant admits no vector access at all.
    let cs = sym("one", SymbolType::Constant(ConstantType::Scalar(1)));
    assert_eq!(
        VectorAccess::new("one".to_string(), 0).validate(&cs),
        Err(SemanticError::InvalidAccess)
    );

    // a scalar variable is permitted with the bounds check skipped.
    let vs = sym("x", SymbolType::Variable(VariableType::Scalar(Expression::Const(1))));
    assert!(VectorAccess::new("x".to_string(), 99).validate(&vs).is_ok());
}

#[test]
fn named_trace_access_bounds_and_kind() {
    let tc = sym("clk", SymbolType::TraceColumns(TraceColumns::new(0, 0, 2)));
    assert!(NamedTraceAccess::new("clk".to_string(), 1, 0).validate(&tc).is_ok());
    assert_eq!(
        NamedTraceAccess::new("clk".to_string(), 2, 0).validate(&tc),
        Err(SemanticError::OutOfBounds)
    );
    let pi = sym("inputs", SymbolType::PublicInput(4));
    assert_eq!(
        NamedTraceAccess::new("inputs".to_string(), 0, 0).validate(&pi),
        Err(SemanticError::InvalidAccess)
    );
}

#[test]
fn matrix_access_bounds_and_quirks() {
    let cm = sym(
        "m",
        SymbolType::Constant(ConstantType::Matrix(vec![vec![1, 2, 3], vec![4, 5, 6]])),
    );
    assert!(MatrixAccess::new("m".to_string(), 1, 2).validate(&cm).is_ok());
    assert_eq!(
        MatrixAccess::new("m".to_string(), 2, 0).validate(&cm),
        Err(SemanticError::OutOfBounds)
    );
    assert_eq!(
        MatrixAccess::new("m".to_string(), 0, 3).validate(&cm),
        Err(SemanticError::OutOfBounds)
    );
    // scalar and vector variables are permitted with no bounds check.
    let vs = sym("x", SymbolType::Variable(VariableType::Scalar(Expression::Const(1))));
    assert!(MatrixAccess::new("x".to_string(), 9, 9).validate(&vs).is_ok());
    let vv = sym("v", SymbolType::Variable(VariableType::Vector(vec![Expression::Const(1)])));
    assert!(MatrixAccess::new("v".to_string(), 9, 9).validate(&vv).is_ok());
    // a public input admits no matrix access.
    let pi = sym("inputs", SymbolType::PublicInput(4));
    assert_eq!(
        MatrixAccess::new("inputs".to_string(), 0, 0).validate(&pi),
        Err(SemanticError::InvalidAccess)
    );
}

#[test]
fn declare_rejects_duplicates_and_ragged_matrices() {
    let mut table = SymbolTable::new(2);
    assert!(table.declare("a".to_string(), SymbolType::PublicInput(4)).is_ok());
    assert_eq!(
        table.declare("a".to_string(), SymbolType::PublicInput(8)),
        Err(SemanticError::DuplicateIdentifier)
    );
    assert_eq!(
        table.declare(
            "ragged".to_string(),
            SymbolType::Constant(ConstantType::Matrix(vec![vec![1, 2], vec![3]])),
        ),
        Err(SemanticError::DimensionMismatch)
    );
}

#[test]
fn resolve_finds_declared_symbols_only() {
    let mut table = SymbolTable::new(2);
    table
        .declare("clk".to_string(), SymbolType::TraceColumns(TraceColumns::new(0, 0, 1)))
        .unwrap();
    let s = table.resolve(&"clk".to_string()).unwrap();
    assert_eq!(s.name(), "clk");
    match s.symbol_type() {
        SymbolType::TraceColumns(tc) => assert_eq!(tc.size(), 1),
        _ => panic!("expected trace columns"),
    }
    assert_eq!(
        table.resolve(&"missing".to_string()).err(),
        Some(SemanticError::UndeclaredIdentifier)
    );
    assert_eq!(table.num_trace_segments(), 1);
    assert_eq!(table.num_transition_exemptions(), 2);
}

#[test]
fn error_messages_name_their_cause() {
    assert!(SemanticError::OutOfBounds.message().contains("bounds"));
    assert!(SemanticError::DuplicateIdentifier.message().contains("duplicate"));
    assert!(SemanticError::UndeclaredIdentifier.message().contains("undeclared"));
    assert!(SemanticError::InvalidAccess.message().contains("access"));
    assert!(SemanticError::InvalidConstraint.message().contains("constraint"));
    assert!(SemanticError::DimensionMismatch.message().contains("dimension"));
}
