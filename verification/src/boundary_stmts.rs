//! Boundary constraints: assertions that a trace column equals a value at
//! the first or last row of the trace. Each accepted constraint records the
//! root of its lowered value expression under the segment of the asserted
//! column.

use vstd::prelude::*;

use crate::ast::{BoundaryStmt, Variable};
use crate::degree::{cap_usize, degree_of, IntegrityConstraintDegree};
use crate::errors::SemanticError;
use crate::graph::{new_keys_bound, nodes_grow, roots_grow, AlgebraicGraph, Operation, VariableRoots};
use crate::integrity_stmts::ConstraintRoot;
use crate::lowering::{check_expr, expr_degree, root_shape};
use crate::symbol_table::{SymbolTable, SymbolType, TraceSegment};

verus! {

/// The boundary-constraints section under construction.
#[derive(Debug)]
pub struct BoundaryStmts {
    constraint_roots: Vec<Vec<ConstraintRoot>>,
    constraints_graph: AlgebraicGraph,
    variable_roots: VariableRoots,
}

/// Constraint roots stay valid while the shared graph only accumulates
/// nodes and the recorded roots are unchanged.
proof fn lemma_wf_after_growth(pre: BoundaryStmts, post: BoundaryStmts)
    requires
        pre.wf(),
        post.spec_graph().wf(),
        post.spec_variable_roots().wf(),
        crate::graph::nodes_grow(post.spec_graph().nodes(), pre.spec_graph().nodes()),
        post.num_segments() == pre.num_segments(),
        forall|s: int| 0 <= s < post.num_segments() ==> post.seg_roots(s) == pre.seg_roots(s),
    ensures
        post.wf(),
{
    assert forall|s: int, j: int|
        0 <= s < post.num_segments() && 0 <= j < post.seg_roots(s).len() implies (#[trigger] post
        .seg_roots(s)[j]).spec_index().0 < post.spec_graph().nodes().len() by {
        assert(pre.seg_roots(s) == post.seg_roots(s));
        assert((#[trigger] pre.seg_roots(s)[j]).spec_index().0 < pre.spec_graph().nodes().len());
    }
}

impl BoundaryStmts {
    /// The constraint roots recorded for segment `s`.
    pub closed spec fn seg_roots(self, s: int) -> Seq<ConstraintRoot> {
        self.constraint_roots@[s]@
    }

    /// How many segment buckets were allocated.
    pub closed spec fn num_segments(self) -> int {
        self.constraint_roots@.len() as int
    }

    /// The shared expression graph of the boundary section.
    pub closed spec fn spec_graph(self) -> AlgebraicGraph {
        self.constraints_graph
    }

    /// The registered variable-element roots.
    pub closed spec fn spec_variable_roots(self) -> VariableRoots {
        self.variable_roots
    }

    /// Well-formedness: the graph and variable roots are well formed and
    /// every recorded constraint root points into the graph.
    pub open spec fn wf(self) -> bool {
        &&& self.spec_graph().wf()
        &&& self.spec_variable_roots().wf()
        &&& forall|s: int, j: int|
            0 <= s < self.num_segments() && 0 <= j < self.seg_roots(s).len() ==> (#[trigger] self
                .seg_roots(s)[j]).spec_index().0 < self.spec_graph().nodes().len()
    }

    /// Creates an empty section with one constraint bucket per trace
    /// segment.
    pub fn new(num_trace_segments: usize) -> (r: Self)
        ensures
            r.wf(),
            r.num_segments() == num_trace_segments,
            forall|s: int| 0 <= s < num_trace_segments ==> #[trigger] r.seg_roots(s) =~= Seq::<
                ConstraintRoot,
            >::empty(),
            r.spec_graph().nodes() == Seq::<Operation>::empty(),
            r.spec_variable_roots().entries().len() == 0,
    {
        let mut constraint_roots: Vec<Vec<ConstraintRoot>> = Vec::new();
        let mut i: usize = 0;
        while i < num_trace_segments
            invariant
                0 <= i <= num_trace_segments,
                constraint_roots@.len() == i,
                forall|s: int| 0 <= s < i ==> (#[trigger] constraint_roots@[s])@.len() == 0,
            decreases num_trace_segments - i,
        {
            constraint_roots.push(Vec::new());
            i += 1;
        }
        Self {
            constraint_roots,
            constraints_graph: AlgebraicGraph::new(),
            variable_roots: VariableRoots::new(),
        }
    }

    /// Returns the degrees of the boundary constraints recorded for the
    /// given trace segment, in recording order; an undeclared segment has
    /// none.
    pub fn constraint_degrees(&self, trace_segment: TraceSegment) -> (r: Vec<
        IntegrityConstraintDegree,
    >)
        requires
            self.wf(),
        ensures
            (trace_segment as int) < self.num_segments() ==> r@.len() == self.seg_roots(
                trace_segment as int,
            ).len(),
            (trace_segment as int) >= self.num_segments() ==> r@.len() == 0,
            forall|j: int|
                0 <= j < r@.len() ==> (#[trigger] r@[j]).spec_base() == cap_usize(
                    degree_of(
                        self.spec_graph().nodes(),
                        self.seg_roots(trace_segment as int)[j].spec_index().0 as int,
                    ),
                ),
    {
        let seg = trace_segment as usize;
        if self.constraint_roots.len() <= seg {
            return Vec::new();
        }
        let roots = &self.constraint_roots[seg];
        let n = roots.len();
        let mut degrees: Vec<IntegrityConstraintDegree> = Vec::new();
        let mut j: usize = 0;
        while j < n
            invariant
                0 <= j <= n,
                self.wf(),
                seg < self.constraint_roots@.len(),
                roots == &self.constraint_roots@[seg as int],
                n == roots@.len(),
                degrees@.len() == j,
                forall|k: int|
                    0 <= k < j ==> (#[trigger] degrees@[k]).spec_base() == cap_usize(
                        degree_of(self.spec_graph().nodes(), roots@[k].spec_index().0 as int),
                    ),
            decreases n - j,
        {
            proof {
                assert(self.seg_roots(seg as int)[j as int].spec_index().0 < self.spec_graph(
                ).nodes().len());
            }
            let d = self.constraints_graph.degree(roots[j].node_index());
            degrees.push(d);
            j += 1;
        }
        degrees
    }

    /// Returns the constraints recorded for the given trace segment, in
    /// recording order; an undeclared segment has none.
    pub fn constraints(&self, trace_segment: TraceSegment) -> (r: Vec<ConstraintRoot>)
        ensures
            (trace_segment as int) < self.num_segments() ==> r@ == self.seg_roots(
                trace_segment as int,
            ),
            (trace_segment as int) >= self.num_segments() ==> r@.len() == 0,
    {
        let seg = trace_segment as usize;
        if self.constraint_roots.len() <= seg {
            return Vec::new();
        }
        let roots = &self.constraint_roots[seg];
        let n = roots.len();
        let mut out: Vec<ConstraintRoot> = Vec::new();
        let mut j: usize = 0;
        while j < n
            invariant
                0 <= j <= n,
                seg < self.constraint_roots@.len(),
                roots == &self.constraint_roots@[seg as int],
                n == roots@.len(),
                out@ == roots@.subrange(0, j as int),
            decreases n - j,
        {
            out.push(roots[j]);
            j += 1;
        }
        proof {
            assert(out@ =~= roots@);
        }
        out
    }

    /// The shared graph holding every boundary constraint value.
    pub fn graph(&self) -> (r: &AlgebraicGraph)
        ensures
            *r == self.spec_graph(),
    {
        &self.constraints_graph
    }

    /// Adds a parsed boundary statement. A variable statement is declared
    /// in the symbol table. A constraint statement has its asserted column
    /// validated against the declared trace columns and its value lowered
    /// into the graph; the value's root is recorded, with row offset 0,
    /// under the segment of the asserted column.
    #[verifier::rlimit(100)]
    #[verifier::spinoff_prover]
    pub fn insert(&mut self, symbol_table: &mut SymbolTable, stmt: BoundaryStmt) -> (r: Result<
        (),
        SemanticError,
    >)
        requires
            old(self).wf(),
            old(symbol_table).wf(),
            old(symbol_table).spec_num_trace_segments() <= old(self).num_segments(),
        ensures
            final(self).wf(),
            final(symbol_table).wf(),
            final(self).num_segments() == old(self).num_segments(),
            nodes_grow(final(self).spec_graph().nodes(), old(self).spec_graph().nodes()),
            roots_grow(
                final(self).spec_variable_roots().entries(),
                old(self).spec_variable_roots().entries(),
            ),
            new_keys_bound(
                final(self).spec_variable_roots().entries(),
                old(self).spec_variable_roots().entries(),
                old(symbol_table).symbols().len() as int,
            ),
            final(symbol_table).spec_num_trace_segments() == old(
                symbol_table,
            ).spec_num_trace_segments(),
            final(symbol_table).spec_num_transition_exemptions() == old(
                symbol_table,
            ).spec_num_transition_exemptions(),
            match stmt {
                BoundaryStmt::Constraint(bc) => {
                    let syms = old(symbol_table).symbols();
                    let chk_a = crate::access_validation::named_trace_access_result(
                        crate::symbol_table::find_sym(syms, bc.access.name@),
                        bc.access.idx as int,
                    );
                    let chk_v = check_expr(syms, bc.value, true);
                    &&& *final(symbol_table) == *old(symbol_table)
                    &&& (r is Ok <==> crate::symbol_table::has_name(syms, bc.access.name@)
                        && chk_a is Ok && chk_v is Ok)
                    &&& (r is Err ==> r->Err_0 == (if !crate::symbol_table::has_name(
                        syms,
                        bc.access.name@,
                    ) {
                        SemanticError::UndeclaredIdentifier
                    } else if chk_a is Err {
                        chk_a->Err_0
                    } else {
                        chk_v->Err_0
                    }))
                    &&& (r is Err ==> forall|s: int|
                        0 <= s < final(self).num_segments() ==> #[trigger] final(self).seg_roots(s)
                            == old(self).seg_roots(s))
                    &&& (r is Ok ==> {
                        let seg = (crate::symbol_table::find_sym(
                            syms,
                            bc.access.name@,
                        )->TraceColumns_0).trace_segment as int;
                        &&& final(self).seg_roots(seg).len() == old(self).seg_roots(seg).len() + 1
                        &&& final(self).seg_roots(seg).last().spec_offset() == 0
                        &&& degree_of(
                            final(self).spec_graph().nodes(),
                            final(self).seg_roots(seg).last().spec_index().0 as int,
                        ) == expr_degree(syms, bc.value, true)
                        &&& root_shape(
                            syms,
                            bc.value,
                            final(self).spec_graph().nodes()[final(self).seg_roots(
                                seg,
                            ).last().spec_index().0 as int],
                            true,
                        )
                        &&& final(self).seg_roots(seg).drop_last() == old(self).seg_roots(seg)
                        &&& forall|s: int|
                            0 <= s < final(self).num_segments() && s != seg
                                ==> #[trigger] final(self).seg_roots(s) == old(self).seg_roots(s)
                    })
                },
                BoundaryStmt::Variable(v) => {
                    &&& forall|s: int|
                        0 <= s < final(self).num_segments() ==> #[trigger] final(self).seg_roots(s)
                            == old(self).seg_roots(s)
                    &&& final(self).spec_graph() == old(self).spec_graph()
                    &&& (r is Err <==> crate::symbol_table::has_name(
                        old(symbol_table).symbols(),
                        v.name@,
                    ) || !crate::symbol_table::shape_ok(SymbolType::Variable(v.value)))
                    &&& (r is Err ==> r->Err_0 == (if crate::symbol_table::has_name(
                        old(symbol_table).symbols(),
                        v.name@,
                    ) {
                        SemanticError::DuplicateIdentifier
                    } else {
                        SemanticError::DimensionMismatch
                    }))
                    &&& (r is Err ==> *final(symbol_table) == *old(symbol_table))
                    &&& (r is Ok ==> final(symbol_table).symbols() == old(
                        symbol_table,
                    ).symbols().push(
                        crate::symbol_table::Symbol {
                            name: v.name,
                            symbol_type: SymbolType::Variable(v.value),
                        },
                    ))
                },
            },
    {
        match stmt {
            BoundaryStmt::Constraint(bc) => {
                let sym_idx = match symbol_table.resolve_idx(&bc.access.name) {
                    Ok(v) => v,
                    Err(e) => {
                        return Err(e);
                    },
                };
                let symbol = symbol_table.symbol_at(sym_idx);
                match bc.access.validate(symbol) {
                    Ok(_) => {},
                    Err(e) => {
                        return Err(e);
                    },
                }
                let trace_segment: TraceSegment = match &symbol.symbol_type {
                    SymbolType::TraceColumns(tc) => tc.trace_segment,
                    _ => {
                        return Err(SemanticError::InvalidAccess);
                    },
                };
                proof {
                    assert(crate::symbol_table::segment_within(
                        symbol_table.symbols()[sym_idx as int],
                        symbol_table.spec_num_trace_segments(),
                    ));
                    assert((trace_segment as int) < old(self).num_segments());
                }
                let value = match self.constraints_graph.insert_expr(
                    symbol_table,
                    &bc.value,
                    &mut self.variable_roots,
                ) {
                    Ok(v) => v,
                    Err(e) => {
                        proof {
                            lemma_wf_after_growth(*old(self), *self);
                        }
                        return Err(e);
                    },
                };
                let constraint_root = ConstraintRoot::new(value.1, 0);
                let seg = trace_segment as usize;
                self.constraint_roots[seg].push(constraint_root);
                proof {
                    assert forall|s: int, j: int|
                        0 <= s < self.num_segments() && 0 <= j < self.seg_roots(s).len() implies (
                    #[trigger] self.seg_roots(s)[j]).spec_index().0 < self.spec_graph(
                    ).nodes().len() by {
                        if s != seg as int || j < self.seg_roots(s).len() - 1 {
                            assert((#[trigger] old(self).seg_roots(s)[j]).spec_index().0 < old(
                                self,
                            ).spec_graph().nodes().len());
                        }
                    }
                }
                Ok(())
            },
            BoundaryStmt::Variable(variable) => symbol_table.insert_boundary_variable(variable),
        }
    }
}

impl SymbolTable {
    /// Declares a variable bound in the boundary-constraints section.
    pub fn insert_boundary_variable(&mut self, variable: Variable) -> (r: Result<
        (),
        SemanticError,
    >)
        requires
            old(self).wf(),
        ensures
            final(self).wf(),
            r is Err <==> crate::symbol_table::has_name(old(self).symbols(), variable.name@)
                || !crate::symbol_table::shape_ok(SymbolType::Variable(variable.value)),
            r is Err ==> *final(self) == *old(self),
            r is Err ==> r->Err_0 == (if crate::symbol_table::has_name(
                old(self).symbols(),
                variable.name@,
            ) {
                SemanticError::DuplicateIdentifier
            } else {
                SemanticError::DimensionMismatch
            }),
            r is Ok ==> final(self).symbols() == old(self).symbols().push(
                crate::symbol_table::Symbol {
                    name: variable.name,
                    symbol_type: SymbolType::Variable(variable.value),
                },
            ),
            final(self).spec_num_trace_segments() == old(self).spec_num_trace_segments(),
            final(self).spec_num_transition_exemptions() == old(
                self,
            ).spec_num_transition_exemptions(),
    {
        self.insert_integrity_variable(variable)
    }
}

} // verus!
