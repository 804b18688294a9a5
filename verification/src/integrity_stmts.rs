//! Integrity constraints: per-trace-segment constraint roots over a shared
//! algebraic graph, populated statement by statement. Either a whole
//! statement succeeds and its root is appended, or nothing is appended; the
//! graph may keep orphaned shared sub-nodes, which no root ever reaches.

use vstd::prelude::*;

use crate::ast::{IntegrityStmt, Variable};
use crate::degree::{cap_usize, degree_of, lemma_degree_prefix, nat_max, IntegrityConstraintDegree};
use crate::errors::SemanticError;
use crate::graph::{
    has_key, new_keys_bound, nodes_grow, roots_grow, AlgebraicGraph, NodeIndex, Operation,
    VariableRoots, VariableValue,
};
use crate::lowering::{check_expr, expr_degree, int_max, merged_root_ok, off_of, root_shape, seg_of};
use crate::symbol_table::{SymbolTable, SymbolType, TraceSegment};

verus! {

/// The smallest cycle length a periodic column may declare.
pub const MIN_CYCLE_LENGTH: usize = 2;

/// The entry node of the subgraph representing one constraint, together
/// with the largest row offset the constraint's trace accesses reach
/// (0 = current row only, 1 = reaches the next row, ...).
#[derive(Clone, Copy, Debug, PartialEq, Eq, Structural)]
pub struct ConstraintRoot {
    index: NodeIndex,
    offset: usize,
}

impl ConstraintRoot {
    pub closed spec fn spec_index(self) -> NodeIndex {
        self.index
    }

    pub closed spec fn spec_offset(self) -> int {
        self.offset as int
    }

    /// Creates a new constraint root with the given entry node and row
    /// offset.
    pub fn new(index: NodeIndex, offset: usize) -> (r: Self)
        ensures
            r.spec_index() == index,
            r.spec_offset() == offset,
    {
        Self { index, offset }
    }

    /// The entry node of the subgraph representing the constraint.
    pub fn node_index(&self) -> (r: &NodeIndex)
        ensures
            *r == self.spec_index(),
    {
        &self.index
    }

    /// The largest row offset the constraint's trace accesses reach.
    pub fn offset(&self) -> (r: usize)
        ensures
            r == self.spec_offset(),
    {
        self.offset
    }
}

/// Constraint roots stay valid while the shared graph only accumulates
/// nodes and the recorded roots are unchanged.
proof fn lemma_wf_after_growth(pre: IntegrityStmts, post: IntegrityStmts)
    requires
        pre.wf(),
        post.spec_graph().wf(),
        post.spec_variable_roots().wf(),
        crate::graph::nodes_grow(post.spec_graph().nodes(), pre.spec_graph().nodes()),
        post.num_segments() == pre.num_segments(),
        forall|s: int| 0 <= s < post.num_segments() ==> post.seg_roots(s) == pre.seg_roots(s),
    ensures
        post.wf(),
{
    assert forall|s: int, j: int|
        0 <= s < post.num_segments() && 0 <= j < post.seg_roots(s).len() implies (#[trigger] post
        .seg_roots(s)[j]).spec_index().0 < post.spec_graph().nodes().len() by {
        assert(pre.seg_roots(s) == post.seg_roots(s));
        assert((#[trigger] pre.seg_roots(s)[j]).spec_index().0 < pre.spec_graph().nodes().len());
    }
}

/// The integrity-constraints section under construction: one list of
/// constraint roots per declared trace segment, the shared expression
/// graph, and the roots of materialized variable elements.
#[derive(Debug)]
pub struct IntegrityStmts {
    constraint_roots: Vec<Vec<ConstraintRoot>>,
    constraints_graph: AlgebraicGraph,
    variable_roots: VariableRoots,
}

impl IntegrityStmts {
    /// The constraint roots recorded for segment `s`.
    pub closed spec fn seg_roots(self, s: int) -> Seq<ConstraintRoot> {
        self.constraint_roots@[s]@
    }

    /// How many segment buckets were allocated.
    pub closed spec fn num_segments(self) -> int {
        self.constraint_roots@.len() as int
    }

    /// The shared expression graph.
    pub closed spec fn spec_graph(self) -> AlgebraicGraph {
        self.constraints_graph
    }

    /// The registered variable-element roots.
    pub closed spec fn spec_variable_roots(self) -> VariableRoots {
        self.variable_roots
    }

    /// Well-formedness: the graph and variable roots are well formed and
    /// every recorded constraint root points into the graph.
    pub open spec fn wf(self) -> bool {
        &&& self.spec_graph().wf()
        &&& self.spec_variable_roots().wf()
        &&& forall|s: int, j: int|
            0 <= s < self.num_segments() && 0 <= j < self.seg_roots(s).len() ==> (#[trigger] self
                .seg_roots(s)[j]).spec_index().0 < self.spec_graph().nodes().len()
    }

    /// Creates an empty section with one constraint bucket per trace
    /// segment.
    pub fn new(num_trace_segments: usize) -> (r: Self)
        ensures
            r.wf(),
            r.num_segments() == num_trace_segments,
            forall|s: int| 0 <= s < num_trace_segments ==> #[trigger] r.seg_roots(s) =~= Seq::<
                ConstraintRoot,
            >::empty(),
            r.spec_graph().nodes() == Seq::<Operation>::empty(),
            r.spec_variable_roots().entries().len() == 0,
    {
        let mut constraint_roots: Vec<Vec<ConstraintRoot>> = Vec::new();
        let mut i: usize = 0;
        while i < num_trace_segments
            invariant
                0 <= i <= num_trace_segments,
                constraint_roots@.len() == i,
                forall|s: int| 0 <= s < i ==> (#[trigger] constraint_roots@[s])@.len() == 0,
            decreases num_trace_segments - i,
        {
            constraint_roots.push(Vec::new());
            i += 1;
        }
        Self {
            constraint_roots,
            constraints_graph: AlgebraicGraph::new(),
            variable_roots: VariableRoots::new(),
        }
    }

    /// Returns the degrees of the integrity constraints recorded for the
    /// given trace segment, in recording order; an undeclared segment has
    /// none.
    pub fn constraint_degrees(&self, trace_segment: TraceSegment) -> (r: Vec<
        IntegrityConstraintDegree,
    >)
        requires
            self.wf(),
        ensures
            (trace_segment as int) < self.num_segments() ==> r@.len() == self.seg_roots(
                trace_segment as int,
            ).len(),
            (trace_segment as int) >= self.num_segments() ==> r@.len() == 0,
            forall|j: int|
                0 <= j < r@.len() ==> (#[trigger] r@[j]).spec_base() == cap_usize(
                    degree_of(
                        self.spec_graph().nodes(),
                        self.seg_roots(trace_segment as int)[j].spec_index().0 as int,
                    ),
                ),
    {
        let seg = trace_segment as usize;
        if self.constraint_roots.len() <= seg {
            return Vec::new();
        }
        let roots = &self.constraint_roots[seg];
        let n = roots.len();
        let mut degrees: Vec<IntegrityConstraintDegree> = Vec::new();
        let mut j: usize = 0;
        while j < n
            invariant
                0 <= j <= n,
                self.wf(),
                seg < self.constraint_roots@.len(),
                roots == &self.constraint_roots@[seg as int],
                n == roots@.len(),
                degrees@.len() == j,
                forall|k: int|
                    0 <= k < j ==> (#[trigger] degrees@[k]).spec_base() == cap_usize(
                        degree_of(
                            self.spec_graph().nodes(),
                            roots@[k].spec_index().0 as int,
                        ),
                    ),
            decreases n - j,
        {
            proof {
                assert(self.seg_roots(seg as int)[j as int].spec_index().0 < self.spec_graph(
                ).nodes().len());
            }
            let d = self.constraints_graph.degree(roots[j].node_index());
            degrees.push(d);
            j += 1;
        }
        degrees
    }

    /// Returns the constraints recorded for the given trace segment, in
    /// recording order; an undeclared segment has none.
    pub fn constraints(&self, trace_segment: TraceSegment) -> (r: Vec<ConstraintRoot>)
        ensures
            (trace_segment as int) < self.num_segments() ==> r@ == self.seg_roots(
                trace_segment as int,
            ),
            (trace_segment as int) >= self.num_segments() ==> r@.len() == 0,
    {
        let seg = trace_segment as usize;
        if self.constraint_roots.len() <= seg {
            return Vec::new();
        }
        let roots = &self.constraint_roots[seg];
        let n = roots.len();
        let mut out: Vec<ConstraintRoot> = Vec::new();
        let mut j: usize = 0;
        while j < n
            invariant
                0 <= j <= n,
                seg < self.constraint_roots@.len(),
                roots == &self.constraint_roots@[seg as int],
                n == roots@.len(),
                out@ == roots@.subrange(0, j as int),
            decreases n - j,
        {
            out.push(roots[j]);
            j += 1;
        }
        proof {
            assert(out@ =~= roots@);
        }
        out
    }

    /// The shared graph holding every integrity constraint.
    pub fn graph(&self) -> (r: &AlgebraicGraph)
        ensures
            *r == self.spec_graph(),
    {
        &self.constraints_graph
    }

    /// The registered variable-element roots.
    pub fn variable_roots(&self) -> (r: &VariableRoots)
        ensures
            *r == self.spec_variable_roots(),
    {
        &self.variable_roots
    }

    /// Lowers one element of an unfolded list-comprehension variable into
    /// the graph, without registering it yet: registration happens only
    /// after every element of the statement has lowered, so a failed
    /// statement registers nothing.
    pub fn lower_element(
        &mut self,
        symbol_table: &SymbolTable,
        expr: &crate::ast::Expression,
    ) -> (r: Result<NodeIndex, SemanticError>)
        requires
            old(self).wf(),
            symbol_table.wf(),
        ensures
            final(self).wf(),
            final(self).num_segments() == old(self).num_segments(),
            forall|s: int|
                0 <= s < final(self).num_segments() ==> #[trigger] final(self).seg_roots(s) == old(
                    self,
                ).seg_roots(s),
            nodes_grow(final(self).spec_graph().nodes(), old(self).spec_graph().nodes()),
            roots_grow(
                final(self).spec_variable_roots().entries(),
                old(self).spec_variable_roots().entries(),
            ),
            new_keys_bound(
                final(self).spec_variable_roots().entries(),
                old(self).spec_variable_roots().entries(),
                symbol_table.symbols().len() as int,
            ),
            r is Ok <==> check_expr(symbol_table.symbols(), *expr, true) is Ok,
            r is Err ==> r->Err_0 == check_expr(symbol_table.symbols(), *expr, true)->Err_0,
            r is Ok ==> (r->Ok_0).0 < final(self).spec_graph().nodes().len(),
            r is Ok ==> degree_of(final(self).spec_graph().nodes(), (r->Ok_0).0 as int)
                == expr_degree(symbol_table.symbols(), *expr, true),
            r is Ok ==> root_shape(
                symbol_table.symbols(),
                *expr,
                final(self).spec_graph().nodes()[(r->Ok_0).0 as int],
                true,
            ),
    {
        match self.constraints_graph.insert_expr(symbol_table, expr, &mut self.variable_roots) {
            Ok(d) => {
                proof {
                    lemma_wf_after_growth(*old(self), *self);
                }
                Ok(d.1)
            },
            Err(e) => {
                proof {
                    lemma_wf_after_growth(*old(self), *self);
                }
                Err(e)
            },
        }
    }

    /// Registers the root of one lowered variable element under the
    /// element's identity. The element must not be registered yet, so the
    /// entry appended here is exactly the given mapping.
    pub fn register_element(&mut self, sym_idx: usize, elem_idx: usize, index: NodeIndex)
        requires
            old(self).wf(),
            !has_key(
                old(self).spec_variable_roots().entries(),
                VariableValue::Vector(sym_idx, elem_idx),
            ),
        ensures
            final(self).wf(),
            final(self).num_segments() == old(self).num_segments(),
            forall|s: int|
                0 <= s < final(self).num_segments() ==> #[trigger] final(self).seg_roots(s) == old(
                    self,
                ).seg_roots(s),
            final(self).spec_graph() == old(self).spec_graph(),
            final(self).spec_variable_roots().entries() == old(
                self,
            ).spec_variable_roots().entries().push(
                (VariableValue::Vector(sym_idx, elem_idx), index),
            ),
    {
        self.variable_roots.record(VariableValue::Vector(sym_idx, elem_idx), index);
        proof {
            lemma_wf_after_growth(*old(self), *self);
        }
    }

    /// Adds a parsed integrity statement. A variable statement is declared
    /// in the symbol table. A constraint statement has both sides lowered
    /// into the graph and merged into one `lhs - rhs` root, which is
    /// recorded under the trace segment the constraint is inferred to
    /// target; a constraint against an undeclared trace segment, or one
    /// reaching past the transition-exemption window, is rejected with
    /// `InvalidConstraint` and nothing is recorded.
    #[verifier::rlimit(100)]
    #[verifier::spinoff_prover]
    pub fn insert(&mut self, symbol_table: &mut SymbolTable, stmt: IntegrityStmt) -> (r: Result<
        (),
        SemanticError,
    >)
        requires
            old(self).wf(),
            old(symbol_table).wf(),
            old(symbol_table).spec_num_trace_segments() <= old(self).num_segments(),
        ensures
            final(self).wf(),
            final(symbol_table).wf(),
            final(self).num_segments() == old(self).num_segments(),
            nodes_grow(final(self).spec_graph().nodes(), old(self).spec_graph().nodes()),
            roots_grow(
                final(self).spec_variable_roots().entries(),
                old(self).spec_variable_roots().entries(),
            ),
            new_keys_bound(
                final(self).spec_variable_roots().entries(),
                old(self).spec_variable_roots().entries(),
                old(symbol_table).symbols().len() as int,
            ),
            final(symbol_table).spec_num_trace_segments() == old(
                symbol_table,
            ).spec_num_trace_segments(),
            final(symbol_table).spec_num_transition_exemptions() == old(
                symbol_table,
            ).spec_num_transition_exemptions(),
            match stmt {
                IntegrityStmt::Constraint(c) => {
                    let syms = old(symbol_table).symbols();
                    let chk_l = check_expr(syms, c.lhs, true);
                    let chk_r = check_expr(syms, c.rhs, true);
                    let seg = int_max(seg_of(syms, c.lhs, true), seg_of(syms, c.rhs, true));
                    let off = int_max(off_of(syms, c.lhs, true), off_of(syms, c.rhs, true));
                    &&& *final(symbol_table) == *old(symbol_table)
                    &&& (r is Ok <==> chk_l is Ok && chk_r is Ok && seg < old(
                        symbol_table,
                    ).spec_num_trace_segments() && off <= old(
                        symbol_table,
                    ).spec_num_transition_exemptions())
                    &&& (r is Err ==> r->Err_0 == (if chk_l is Err {
                        chk_l->Err_0
                    } else if chk_r is Err {
                        chk_r->Err_0
                    } else {
                        SemanticError::InvalidConstraint
                    }))
                    &&& (r is Err ==> forall|s: int|
                        0 <= s < final(self).num_segments() ==> #[trigger] final(self).seg_roots(s)
                            == old(self).seg_roots(s))
                    &&& (r is Ok ==> {
                        &&& final(self).seg_roots(seg).len() == old(self).seg_roots(seg).len() + 1
                        &&& final(self).seg_roots(seg).last().spec_offset() == off
                        &&& merged_root_ok(
                            syms,
                            c.lhs,
                            c.rhs,
                            final(self).spec_graph().nodes(),
                            final(self).seg_roots(seg).last().spec_index().0 as int,
                        )
                        &&& degree_of(
                            final(self).spec_graph().nodes(),
                            final(self).seg_roots(seg).last().spec_index().0 as int,
                        ) == nat_max(expr_degree(syms, c.lhs, true), expr_degree(syms, c.rhs, true))
                        &&& final(self).seg_roots(seg).drop_last() == old(self).seg_roots(seg)
                        &&& forall|s: int|
                            0 <= s < final(self).num_segments() && s != seg
                                ==> #[trigger] final(self).seg_roots(s) == old(self).seg_roots(s)
                    })
                },
                IntegrityStmt::Variable(v) => {
                    &&& forall|s: int|
                        0 <= s < final(self).num_segments() ==> #[trigger] final(self).seg_roots(s)
                            == old(self).seg_roots(s)
                    &&& final(self).spec_graph() == old(self).spec_graph()
                    &&& final(self).spec_variable_roots() == old(self).spec_variable_roots()
                    &&& (r is Err <==> crate::symbol_table::has_name(
                        old(symbol_table).symbols(),
                        v.name@,
                    ) || !crate::symbol_table::shape_ok(SymbolType::Variable(v.value)))
                    &&& (r is Err ==> r->Err_0 == (if crate::symbol_table::has_name(
                        old(symbol_table).symbols(),
                        v.name@,
                    ) {
                        SemanticError::DuplicateIdentifier
                    } else {
                        SemanticError::DimensionMismatch
                    }))
                    &&& (r is Err ==> *final(symbol_table) == *old(symbol_table))
                    &&& (r is Ok ==> final(symbol_table).symbols() == old(
                        symbol_table,
                    ).symbols().push(
                        crate::symbol_table::Symbol {
                            name: v.name,
                            symbol_type: SymbolType::Variable(v.value),
                        },
                    ))
                },
            },
    {
        match stmt {
            IntegrityStmt::Constraint(constraint) => {
                let lhs = match self.constraints_graph.insert_expr(
                    symbol_table,
                    &constraint.lhs,
                    &mut self.variable_roots,
                ) {
                    Ok(v) => v,
                    Err(e) => {
                        proof {
                            lemma_wf_after_growth(*old(self), *self);
                        }
                        return Err(e);
                    },
                };
                let ghost g1 = self.constraints_graph.nodes();
                let rhs = match self.constraints_graph.insert_expr(
                    symbol_table,
                    &constraint.rhs,
                    &mut self.variable_roots,
                ) {
                    Ok(v) => v,
                    Err(e) => {
                        proof {
                            lemma_wf_after_growth(*old(self), *self);
                        }
                        return Err(e);
                    },
                };
                let ghost g2 = self.constraints_graph.nodes();
                let (trace_segment, root_index, row_offset) =
                    self.constraints_graph.merge_equal_exprs(lhs, rhs);
                proof {
                    lemma_degree_prefix(g1, g2, (lhs.1).0 as int);
                    lemma_degree_prefix(g2, self.constraints_graph.nodes(), (lhs.1).0 as int);
                    lemma_degree_prefix(g2, self.constraints_graph.nodes(), (rhs.1).0 as int);
                }
                // the constraint must not target an undeclared trace segment.
                if symbol_table.num_trace_segments() <= trace_segment as usize {
                    proof {
                        lemma_wf_after_growth(*old(self), *self);
                    }
                    return Err(SemanticError::InvalidConstraint);
                }
                // the constraint must stay within the transition-exemption window.
                if row_offset > symbol_table.num_transition_exemptions() {
                    proof {
                        lemma_wf_after_growth(*old(self), *self);
                    }
                    return Err(SemanticError::InvalidConstraint);
                }
                let constraint_root = ConstraintRoot::new(root_index, row_offset);
                let seg = trace_segment as usize;
                self.constraint_roots[seg].push(constraint_root);
                proof {
                    assert forall|s: int, j: int|
                        0 <= s < self.num_segments() && 0 <= j < self.seg_roots(s).len() implies (
                    #[trigger] self.seg_roots(s)[j]).spec_index().0 < self.spec_graph(
                    ).nodes().len() by {
                        if s != seg as int || j < self.seg_roots(s).len() - 1 {
                            assert((#[trigger] old(self).seg_roots(s)[j]).spec_index().0 < old(
                                self,
                            ).spec_graph().nodes().len());
                        }
                    }
                }
                Ok(())
            },
            IntegrityStmt::Variable(variable) => symbol_table.insert_integrity_variable(variable),
        }
    }
}

impl SymbolTable {
    /// Declares a variable bound in a constraints section.
    pub fn insert_integrity_variable(&mut self, variable: Variable) -> (r: Result<
        (),
        SemanticError,
    >)
        requires
            old(self).wf(),
        ensures
            final(self).wf(),
            r is Err <==> crate::symbol_table::has_name(old(self).symbols(), variable.name@)
                || !crate::symbol_table::shape_ok(SymbolType::Variable(variable.value)),
            r is Err ==> *final(self) == *old(self),
            r is Err ==> r->Err_0 == (if crate::symbol_table::has_name(
                old(self).symbols(),
                variable.name@,
            ) {
                SemanticError::DuplicateIdentifier
            } else {
                SemanticError::DimensionMismatch
            }),
            r is Ok ==> final(self).symbols() == old(self).symbols().push(
                crate::symbol_table::Symbol {
                    name: variable.name,
                    symbol_type: SymbolType::Variable(variable.value),
                },
            ),
            final(self).spec_num_trace_segments() == old(self).spec_num_trace_segments(),
            final(self).spec_num_transition_exemptions() == old(
                self,
            ).spec_num_transition_exemptions(),
    {
        let Variable { name, value } = variable;
        self.declare(name, SymbolType::Variable(value))
    }
}

} // verus!
