use air_ir::graph::{AlgebraicGraph, NodeIndex, Operation, SymbolRefKind};

#[test]
fn insert_op_dedups_structurally_equal_nodes() {
    let mut g = AlgebraicGraph::new();
    let a = g.insert_op(Operation::Constant(5));
    let b = g.insert_op(Operation::Constant(5));
    assert_eq!(a, b);
    assert_eq!(g.len(), 1);
    let c = g.insert_op(Operation::Constant(6));
    assert_ne!(a, c);
    assert_eq!(g.len(), 2);
}

#[test]
fn insert_op_dedups_compound_nodes_with_same_children() {
    let mut g = AlgebraicGraph::new();
    let t = g.insert_op(Operation::TraceAccess(0, 0, 0));
    let u = g.insert_op(Operation::TraceAccess(0, 1, 0));
    let s1 = g.insert_op(Operation::Add(t, u));
    let before = g.len();
    let s2 = g.insert_op(Operation::Add(t, u));
    assert_eq!(s1, s2);
    assert_eq!(g.len(), before);
    // different children make a different node.
    let s3 = g.insert_op(Operation::Add(u, t));
    assert_ne!(s1, s3);
    assert_eq!(g.len(), before + 1);
}

#[test]
fn node_returns_the_stored_operation() {
    let mut g = AlgebraicGraph::new();
    let t = g.insert_op(Operation::TraceAccess(1, 3, 1));
    assert_eq!(g.node(&t), Operation::TraceAccess(1, 3, 1));
}

#[test]
fn degree_composition_on_concrete_nodes() {
    let mut g = AlgebraicGraph::new();
    let t = g.insert_op(Operation::TraceAccess(0, 0, 0));
    let c = g.insert_op(Operation::Constant(2));
    assert_eq!(g.degree(&t).base(), 1);
    assert_eq!(g.degree(&c).base(), 0);

    // mul adds the child degrees.
    let m = g.insert_op(Operation::Mul(t, t));
    assert_eq!(g.degree(&m).base(), 2);
    let mc = g.insert_op(Operation::Mul(t, c));
    assert_eq!(g.degree(&mc).base(), 1);

    // add and sub take the larger child degree.
    let a = g.insert_op(Operation::Add(m, t));
    assert_eq!(g.degree(&a).base(), 2);
    let s = g.insert_op(Operation::Sub(c, m));
    assert_eq!(g.degree(&s).base(), 2);

    // exp multiplies by the exponent.
    let e = g.insert_op(Operation::Exp(m, 3));
    assert_eq!(g.degree(&e).base(), 6);
    let e0 = g.insert_op(Operation::Exp(t, 0));
    assert_eq!(g.degree(&e0).base(), 0);
}

#[test]
fn symbol_reference_degrees_follow_their_kind() {
    let mut g = AlgebraicGraph::new();
    let p = g.insert_op(Operation::SymbolRef(SymbolRefKind::PublicInput, 0, 0));
    let per = g.insert_op(Operation::SymbolRef(SymbolRefKind::PeriodicColumn, 1, 0));
    let rnd = g.insert_op(Operation::SymbolRef(SymbolRefKind::RandomValue, 2, 0));
    assert_eq!(g.degree(&p).base(), 1);
    assert_eq!(g.degree(&per).base(), 0);
    assert_eq!(g.degree(&rnd).base(), 1);
}

#[test]
fn node_index_is_the_position_in_insertion_order() {
    let mut g = AlgebraicGraph::new();
    let a = g.insert_op(Operation::Constant(1));
    let b = g.insert_op(Operation::Constant(2));
    assert_eq!(a, NodeIndex(0));
    assert_eq!(b, NodeIndex(1));
}
