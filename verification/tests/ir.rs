use air_ir::ast::{
    Boundary, BoundaryConstraint, BoundaryStmt, Expression, IntegrityConstraint, IntegrityStmt,
    ListComprehension, ListFoldingType, NamedTraceAccess, Variable, VariableType,
};
use air_ir::constraint_builder::ConstraintBuilder;
use air_ir::errors::SemanticError;
use air_ir::graph::{NodeIndex, Operation};
use air_ir::integrity_stmts::{ConstraintRoot, IntegrityStmts};
use air_ir::symbol_table::{ConstantType, SymbolTable, SymbolType, TraceColumns};

fn nta(name: &str, idx: usize, row_offset: usize) -> Expression {
    Expression::NamedTraceAccess(NamedTraceAccess::new(name.to_string(), idx, row_offset))
}

fn sub(l: Expression, r: Expression) -> Expression {
    Expression::Sub(Box::new(l), Box::new(r))
}

fn constraint(lhs: Expression, rhs: Expression) -> IntegrityStmt {
    IntegrityStmt::Constraint(IntegrityConstraint::new(lhs, rhs))
}

/// Declares main trace columns `a` and `b` (segment 0) and returns the
/// populated table alongside an empty integrity section.
fn main_trace_ab() -> (SymbolTable, IntegrityStmts) {
    let mut table = SymbolTable::new(2);
    table
        .declare("a".to_string(), SymbolType::TraceColumns(TraceColumns::new(0, 0, 1)))
        .unwrap();
    table
        .declare("b".to_string(), SymbolType::TraceColumns(TraceColumns::new(0, 1, 1)))
        .unwrap();
    let stmts = IntegrityStmts::new(table.num_trace_segments());
    (table, stmts)
}

#[test]
fn two_main_transition_constraints_of_degree_one() {
    let (mut table, mut stmts) = main_trace_ab();
    // a' - a - 1 = 0
    let one = sub(sub(nta("a", 0, 1), nta("a", 0, 0)), Expression::Const(1));
    stmts.insert(&mut table, constraint(one, Expression::Const(0))).unwrap();
    // b' - (b - 1) = 0
    let two = sub(nta("b", 0, 1), sub(nta("b", 0, 0), Expression::Const(1)));
    stmts.insert(&mut table, constraint(two, Expression::Const(0))).unwrap();

    let roots = stmts.constraints(0);
    assert_eq!(roots.len(), 2);
    assert_eq!(roots[0].offset(), 1);
    assert_eq!(roots[1].offset(), 1);
    let degrees = stmts.constraint_degrees(0);
    assert_eq!(degrees.len(), 2);
    assert_eq!(degrees[0].base(), 1);
    assert_eq!(degrees[1].base(), 1);
    // no aux segment was declared, so it has no constraints.
    assert_eq!(stmts.constraints(1).len(), 0);
    assert_eq!(stmts.constraint_degrees(1).len(), 0);
}

#[test]
fn inserting_the_same_constraint_twice_adds_no_node() {
    let (mut table, mut stmts) = main_trace_ab();
    let mk = || constraint(sub(nta("a", 0, 1), nta("a", 0, 0)), Expression::Const(0));
    stmts.insert(&mut table, mk()).unwrap();
    let nodes_after_first = stmts.graph().len();
    stmts.insert(&mut table, mk()).unwrap();
    // the whole subgraph is reused: only a new constraint root is recorded.
    assert_eq!(stmts.graph().len(), nodes_after_first);
    assert_eq!(stmts.constraints(0).len(), 2);
}

#[test]
fn segment_inference_follows_the_largest_touched_segment() {
    let mut table = SymbolTable::new(2);
    table
        .declare("main".to_string(), SymbolType::TraceColumns(TraceColumns::new(0, 0, 1)))
        .unwrap();
    table
        .declare("aux".to_string(), SymbolType::TraceColumns(TraceColumns::new(1, 0, 1)))
        .unwrap();
    let mut stmts = IntegrityStmts::new(table.num_trace_segments());

    // only main-trace references: assigned to segment 0.
    stmts
        .insert(&mut table, constraint(nta("main", 0, 0), Expression::Const(0)))
        .unwrap();
    assert_eq!(stmts.constraints(0).len(), 1);
    assert_eq!(stmts.constraints(1).len(), 0);

    // one aux reference reassigns the constraint to segment 1.
    stmts
        .insert(
            &mut table,
            constraint(sub(nta("aux", 0, 0), nta("main", 0, 0)), Expression::Const(0)),
        )
        .unwrap();
    assert_eq!(stmts.constraints(0).len(), 1);
    assert_eq!(stmts.constraints(1).len(), 1);
}

#[test]
fn row_offset_at_the_exemption_boundary_is_accepted_and_past_it_rejected() {
    let (mut table, mut stmts) = main_trace_ab();
    // the configured window is 2: offset 2 is accepted ...
    stmts.insert(&mut table, constraint(nta("a", 0, 2), Expression::Const(0))).unwrap();
    assert_eq!(stmts.constraints(0).len(), 1);
    // ... and offset 3 is rejected, recording nothing.
    assert_eq!(
        stmts.insert(&mut table, constraint(nta("a", 0, 3), Expression::Const(0))),
        Err(SemanticError::InvalidConstraint)
    );
    assert_eq!(stmts.constraints(0).len(), 1);
}

#[test]
fn constraint_against_undeclared_segment_is_rejected() {
    let (mut table, mut stmts) = main_trace_ab();
    let direct = Expression::IndexedTraceAccess(air_ir::ast::IndexedTraceAccess::new(5, 0, 0));
    assert_eq!(
        stmts.insert(&mut table, constraint(direct, Expression::Const(0))),
        Err(SemanticError::InvalidConstraint)
    );
    assert_eq!(stmts.constraints(0).len(), 0);
}

#[test]
fn undeclared_identifier_in_a_constraint_is_rejected() {
    let (mut table, mut stmts) = main_trace_ab();
    assert_eq!(
        stmts.insert(
            &mut table,
            constraint(Expression::Elem("ghostly".to_string()), Expression::Const(0)),
        ),
        Err(SemanticError::UndeclaredIdentifier)
    );
}

#[test]
fn scalar_variable_is_lowered_at_use_and_registered() {
    let (mut table, mut stmts) = main_trace_ab();
    stmts
        .insert(
            &mut table,
            IntegrityStmt::Variable(Variable::new(
                "k".to_string(),
                VariableType::Scalar(Expression::Const(7)),
            )),
        )
        .unwrap();
    stmts
        .insert(
            &mut table,
            constraint(Expression::Elem("k".to_string()), Expression::Const(7)),
        )
        .unwrap();
    assert_eq!(stmts.variable_roots().len(), 1);
    let degrees = stmts.constraint_degrees(0);
    assert_eq!(degrees[0].base(), 0);
}

#[test]
fn list_folding_sums_a_constant_vector_with_degree_zero() {
    let mut table = SymbolTable::new(2);
    table
        .declare("a".to_string(), SymbolType::TraceColumns(TraceColumns::new(0, 0, 1)))
        .unwrap();
    table
        .declare(
            "cv".to_string(),
            SymbolType::Constant(ConstantType::Vector(vec![1, 2, 3])),
        )
        .unwrap();
    let mut stmts = IntegrityStmts::new(table.num_trace_segments());
    stmts
        .insert(
            &mut table,
            constraint(
                Expression::ListFolding(ListFoldingType::Sum("cv".to_string())),
                Expression::Const(6),
            ),
        )
        .unwrap();
    let degrees = stmts.constraint_degrees(0);
    assert_eq!(degrees.len(), 1);
    assert_eq!(degrees[0].base(), 0);
}

#[test]
fn list_folding_over_trace_columns_keeps_trace_degree() {
    let mut table = SymbolTable::new(2);
    table
        .declare("cols".to_string(), SymbolType::TraceColumns(TraceColumns::new(0, 0, 3)))
        .unwrap();
    let mut stmts = IntegrityStmts::new(table.num_trace_segments());
    stmts
        .insert(
            &mut table,
            constraint(
                Expression::ListFolding(ListFoldingType::Prod("cols".to_string())),
                Expression::Const(0),
            ),
        )
        .unwrap();
    let degrees = stmts.constraint_degrees(0);
    // a product of three trace accesses has degree 3.
    assert_eq!(degrees[0].base(), 3);
}

#[test]
fn aux_boundary_constraint_records_one_root_of_degree_zero() {
    let mut builder = ConstraintBuilder::new(2, 2);
    builder
        .declare(
            "stack_inputs".to_string(),
            SymbolType::PublicInput(16),
        )
        .unwrap();
    builder
        .declare("main".to_string(), SymbolType::TraceColumns(TraceColumns::new(0, 0, 1)))
        .unwrap();
    builder
        .declare("aux".to_string(), SymbolType::TraceColumns(TraceColumns::new(1, 0, 1)))
        .unwrap();
    builder
        .insert_boundary_stmt(BoundaryStmt::Constraint(BoundaryConstraint::new(
            NamedTraceAccess::new("aux".to_string(), 0, 0),
            Boundary::First,
            Expression::Const(0),
        )))
        .unwrap();
    let boundary = builder.boundary_stmts();
    assert_eq!(boundary.constraints(1).len(), 1);
    assert_eq!(boundary.constraints(0).len(), 0);
    let degrees = boundary.constraint_degrees(1);
    assert_eq!(degrees.len(), 1);
    assert_eq!(degrees[0].base(), 0);
}

#[test]
fn list_comprehension_unfolds_into_one_node_per_element() {
    let mut builder = ConstraintBuilder::new(1, 2);
    builder
        .declare("v".to_string(), SymbolType::TraceColumns(TraceColumns::new(0, 0, 3)))
        .unwrap();
    // y = [x * 2 for x in v]
    let lc = ListComprehension::new(
        Expression::Mul(
            Box::new(Expression::Elem("x".to_string())),
            Box::new(Expression::Const(2)),
        ),
        vec!["x".to_string()],
        vec!["v".to_string()],
    );
    builder
        .insert_integrity_stmt(IntegrityStmt::Variable(Variable::new(
            "y".to_string(),
            VariableType::ListComprehension(lc),
        )))
        .unwrap();

    let stmts = builder.integrity_stmts();
    // three distinct variable-element roots were registered.
    assert_eq!(stmts.variable_roots().len(), 3);
    // the graph holds one Mul per element, sharing the Constant(2) node:
    // three trace accesses, one constant, three products.
    let graph = stmts.graph();
    assert_eq!(graph.len(), 7);
    let mut muls = 0;
    for i in 0..graph.len() {
        if matches!(graph.node(&NodeIndex(i)), Operation::Mul(_, _)) {
            muls += 1;
        }
    }
    assert_eq!(muls, 3);
    // the unfolded variable was registered as a vector of three elements.
    match builder.symbol_table().resolve(&"y".to_string()).unwrap().symbol_type() {
        SymbolType::Variable(VariableType::Vector(v)) => assert_eq!(v.len(), 3),
        _ => panic!("expected an unfolded vector variable"),
    }
}

#[test]
fn list_comprehension_with_mismatched_arity_is_rejected() {
    let mut builder = ConstraintBuilder::new(1, 2);
    builder
        .declare("v".to_string(), SymbolType::TraceColumns(TraceColumns::new(0, 0, 3)))
        .unwrap();
    let lc = ListComprehension::new(
        Expression::Elem("x".to_string()),
        vec!["x".to_string(), "z".to_string()],
        vec!["v".to_string()],
    );
    assert_eq!(
        builder.insert_integrity_stmt(IntegrityStmt::Variable(Variable::new(
            "y".to_string(),
            VariableType::ListComprehension(lc),
        ))),
        Err(SemanticError::DimensionMismatch)
    );
}

#[test]
fn constraint_root_accessors_return_what_was_stored() {
    let root = ConstraintRoot::new(NodeIndex(4), 1);
    assert_eq!(*root.node_index(), NodeIndex(4));
    assert_eq!(root.offset(), 1);
}

#[test]
fn vector_access_out_of_bounds_is_rejected_during_lowering() {
    let mut table = SymbolTable::new(2);
    table
        .declare("a".to_string(), SymbolType::TraceColumns(TraceColumns::new(0, 0, 1)))
        .unwrap();
    table
        .declare("inputs".to_string(), SymbolType::PublicInput(2))
        .unwrap();
    let mut stmts = IntegrityStmts::new(table.num_trace_segments());
    let access = Expression::VectorAccess(air_ir::ast::VectorAccess::new(
        "inputs".to_string(),
        2,
    ));
    assert_eq!(
        stmts.insert(&mut table, constraint(access, Expression::Const(0))),
        Err(SemanticError::OutOfBounds)
    );
}
