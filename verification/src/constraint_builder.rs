//! The constraint builder: owns the symbol table and both constraint
//! sections, consumes parsed statements one at a time, and unfolds list
//! comprehensions into concrete vectors of lowered elements.

use vstd::prelude::*;

use crate::ast::{
    BoundaryStmt, Expression, IntegrityStmt, ListComprehension, NamedTraceAccess, Variable,
    VariableType, VectorAccess,
};
use crate::boundary_stmts::BoundaryStmts;
use crate::degree::{degree_of, nat_max};
use crate::errors::SemanticError;
use crate::degree::lemma_degree_prefix;
use crate::graph::{
    has_key, key_sym, new_keys_bound, nodes_grow, roots_bound, roots_grow, NodeIndex, Operation,
    VariableValue,
};
use crate::integrity_stmts::IntegrityStmts;
use crate::lowering::{
    check_expr, expr_degree, foldable, foldable_len, int_max, merged_root_ok, off_of, root_shape,
    seg_of,
};
use crate::substitution::{subst, substitute};
use crate::symbol_table::{
    find_sym, has_name, ConstantType, Symbol, SymbolTable, SymbolType, TraceColumns,
};

verus! {

/// Whether a list comprehension is well formed against the declared
/// symbols: one binding ranging over one declared, non-variable vector.
pub open spec fn lc_ok(syms: Seq<Symbol>, lc: ListComprehension) -> bool {
    &&& lc.bindings@.len() == 1
    &&& lc.iterables@.len() == 1
    &&& has_name(syms, lc.iterables@[0]@)
    &&& foldable(find_sym(syms, lc.iterables@[0]@))
}

/// The number of elements a well-formed comprehension unfolds to.
pub open spec fn lc_size(syms: Seq<Symbol>, lc: ListComprehension) -> int {
    foldable_len(find_sym(syms, lc.iterables@[0]@))
}

/// The access expression element `i` of the iterable named `name` is
/// substituted by: a trace access for trace columns, a vector access
/// otherwise.
pub open spec fn lc_access(syms: Seq<Symbol>, name: String, i: int) -> Expression {
    match find_sym(syms, name@) {
        SymbolType::TraceColumns(_) => Expression::NamedTraceAccess(
            NamedTraceAccess { name: name, idx: i as usize, row_offset: 0 },
        ),
        _ => Expression::VectorAccess(VectorAccess { name: name, idx: i as usize }),
    }
}

/// Element `i` of the unfolded comprehension: the body with the bound name
/// replaced by the concrete element access.
pub open spec fn lc_elem(syms: Seq<Symbol>, lc: ListComprehension, i: int) -> Expression {
    subst(lc.expr, lc.bindings@[0]@, lc_access(syms, lc.iterables@[0], i))
}

/// Builds the IR from parsed statements: declarations populate the symbol
/// table, constraints are lowered into the per-section graphs.
#[derive(Debug)]
pub struct ConstraintBuilder {
    symbol_table: SymbolTable,
    integrity_stmts: IntegrityStmts,
    boundary_stmts: BoundaryStmts,
}

impl ConstraintBuilder {
    pub closed spec fn spec_symbol_table(self) -> SymbolTable {
        self.symbol_table
    }

    pub closed spec fn spec_integrity_stmts(self) -> IntegrityStmts {
        self.integrity_stmts
    }

    pub closed spec fn spec_boundary_stmts(self) -> BoundaryStmts {
        self.boundary_stmts
    }

    /// Well-formedness: the parts are well formed and every declared trace
    /// segment has a constraint bucket in both sections.
    pub open spec fn wf(self) -> bool {
        &&& self.spec_symbol_table().wf()
        &&& self.spec_integrity_stmts().wf()
        &&& self.spec_boundary_stmts().wf()
        &&& self.spec_symbol_table().spec_num_trace_segments() <= self.spec_integrity_stmts(
        ).num_segments()
        &&& self.spec_symbol_table().spec_num_trace_segments() <= self.spec_boundary_stmts(
        ).num_segments()
        &&& roots_bound(
            self.spec_integrity_stmts().spec_variable_roots().entries(),
            self.spec_symbol_table().symbols().len() as int,
        )
        &&& roots_bound(
            self.spec_boundary_stmts().spec_variable_roots().entries(),
            self.spec_symbol_table().symbols().len() as int,
        )
    }

    /// Creates a builder with one constraint bucket per trace segment and
    /// the given transition-exemption window.
    pub fn new(num_trace_segments: usize, num_transition_exemptions: usize) -> (r: Self)
        ensures
            r.wf(),
            r.spec_symbol_table().symbols() == Seq::<Symbol>::empty(),
            r.spec_symbol_table().spec_num_transition_exemptions() == num_transition_exemptions,
            r.spec_integrity_stmts().num_segments() == num_trace_segments,
            r.spec_boundary_stmts().num_segments() == num_trace_segments,
    {
        Self {
            symbol_table: SymbolTable::new(num_transition_exemptions),
            integrity_stmts: IntegrityStmts::new(num_trace_segments),
            boundary_stmts: BoundaryStmts::new(num_trace_segments),
        }
    }

    /// The symbol table built so far.
    pub fn symbol_table(&self) -> (r: &SymbolTable)
        ensures
            *r == self.spec_symbol_table(),
    {
        &self.symbol_table
    }

    /// The integrity-constraints section built so far.
    pub fn integrity_stmts(&self) -> (r: &IntegrityStmts)
        ensures
            *r == self.spec_integrity_stmts(),
    {
        &self.integrity_stmts
    }

    /// The boundary-constraints section built so far.
    pub fn boundary_stmts(&self) -> (r: &BoundaryStmts)
        ensures
            *r == self.spec_boundary_stmts(),
    {
        &self.boundary_stmts
    }

    /// Declares an identifier. Trace columns must target a segment with an
    /// allocated constraint bucket, and a trace-column group must stay
    /// within the address space.
    pub fn declare(&mut self, name: String, symbol_type: SymbolType) -> (r: Result<
        (),
        SemanticError,
    >)
        requires
            old(self).wf(),
            crate::symbol_table::trace_offset_ok(symbol_type),
            (match symbol_type {
                SymbolType::TraceColumns(tc) => (tc.trace_segment as int) < old(
                    self,
                ).spec_integrity_stmts().num_segments() && (tc.trace_segment as int) < old(
                    self,
                ).spec_boundary_stmts().num_segments(),
                _ => true,
            }),
        ensures
            final(self).wf(),
            final(self).spec_integrity_stmts() == old(self).spec_integrity_stmts(),
            final(self).spec_boundary_stmts() == old(self).spec_boundary_stmts(),
            r is Err <==> has_name(old(self).spec_symbol_table().symbols(), name@)
                || !crate::symbol_table::shape_ok(symbol_type),
            r is Err ==> final(self).spec_symbol_table() == old(self).spec_symbol_table(),
            r is Ok ==> final(self).spec_symbol_table().symbols() == old(
                self,
            ).spec_symbol_table().symbols().push(Symbol { name: name, symbol_type: symbol_type }),
    {
        self.symbol_table.declare(name, symbol_type)
    }

    /// Unfolds a list comprehension into the concrete vector of expressions
    /// it stands for, substituting the bound name with each element access
    /// of the iterable in turn.
    fn unfold_lc(&self, lc: &ListComprehension) -> (r: Result<Vec<Expression>, SemanticError>)
        requires
            self.wf(),
        ensures
            r is Ok <==> lc_ok(self.spec_symbol_table().symbols(), *lc),
            r is Err ==> r->Err_0 == (if lc.bindings@.len() != 1 || lc.iterables@.len() != 1 {
                SemanticError::DimensionMismatch
            } else if !has_name(self.spec_symbol_table().symbols(), lc.iterables@[0]@) {
                SemanticError::UndeclaredIdentifier
            } else {
                SemanticError::InvalidAccess
            }),
            r is Ok ==> r->Ok_0@.len() == lc_size(self.spec_symbol_table().symbols(), *lc),
            r is Ok ==> forall|i: int|
                0 <= i < r->Ok_0@.len() ==> r->Ok_0@[i] == lc_elem(
                    self.spec_symbol_table().symbols(),
                    *lc,
                    i,
                ),
    {
        if lc.bindings.len() != 1 || lc.iterables.len() != 1 {
            return Err(SemanticError::DimensionMismatch);
        }
        let name = &lc.iterables[0];
        let sym_idx = match self.symbol_table.resolve_idx(name) {
            Ok(v) => v,
            Err(e) => {
                return Err(e);
            },
        };
        let symbol = self.symbol_table.symbol_at(sym_idx);
        let (size, is_trace): (usize, bool) = match &symbol.symbol_type {
            SymbolType::Constant(ConstantType::Vector(v)) => (v.len(), false),
            SymbolType::PublicInput(s) => (*s, false),
            SymbolType::RandomValuesBinding(_, s) => (*s, false),
            SymbolType::TraceColumns(tc) => (tc.size, true),
            _ => {
                return Err(SemanticError::InvalidAccess);
            },
        };
        let mut out: Vec<Expression> = Vec::new();
        let mut i: usize = 0;
        while i < size
            invariant
                0 <= i <= size,
                self.wf(),
                lc_ok(self.spec_symbol_table().symbols(), *lc),
                lc.iterables@.len() == 1,
                name == &lc.iterables@[0],
                sym_idx == crate::symbol_table::find_idx(
                    self.spec_symbol_table().symbols(),
                    name@,
                ),
                size == lc_size(self.spec_symbol_table().symbols(), *lc),
                is_trace == (find_sym(self.spec_symbol_table().symbols(), name@)
                    matches SymbolType::TraceColumns(_)),
                out@.len() == i,
                forall|j: int|
                    0 <= j < i ==> out@[j] == lc_elem(
                        self.spec_symbol_table().symbols(),
                        *lc,
                        j,
                    ),
            decreases size - i,
        {
            let access: Expression = if is_trace {
                Expression::NamedTraceAccess(
                    NamedTraceAccess { name: name.clone(), idx: i, row_offset: 0 },
                )
            } else {
                Expression::VectorAccess(VectorAccess { name: name.clone(), idx: i })
            };
            let elem = substitute(&lc.expr, &lc.bindings[0], &access);
            out.push(elem);
            i += 1;
        }
        Ok(out)
    }

    /// Adds a parsed integrity statement. A constraint is lowered and
    /// recorded in the integrity section; a variable is declared in the
    /// symbol table, with a list comprehension first unfolded into a
    /// concrete vector whose elements are materialized in the graph and
    /// registered in the variable roots.
    #[verifier::rlimit(100)]
    #[verifier::spinoff_prover]
    pub fn insert_integrity_stmt(&mut self, stmt: IntegrityStmt) -> (r: Result<(), SemanticError>)
        requires
            old(self).wf(),
        ensures
            final(self).wf(),
            final(self).spec_boundary_stmts() == old(self).spec_boundary_stmts(),
            final(self).spec_integrity_stmts().num_segments() == old(
                self,
            ).spec_integrity_stmts().num_segments(),
            nodes_grow(
                final(self).spec_integrity_stmts().spec_graph().nodes(),
                old(self).spec_integrity_stmts().spec_graph().nodes(),
            ),
            roots_grow(
                final(self).spec_integrity_stmts().spec_variable_roots().entries(),
                old(self).spec_integrity_stmts().spec_variable_roots().entries(),
            ),
            final(self).spec_symbol_table().spec_num_trace_segments() == old(
                self,
            ).spec_symbol_table().spec_num_trace_segments(),
            final(self).spec_symbol_table().spec_num_transition_exemptions() == old(
                self,
            ).spec_symbol_table().spec_num_transition_exemptions(),
            match stmt {
                IntegrityStmt::Constraint(c) => {
                    let syms = old(self).spec_symbol_table().symbols();
                    let chk_l = check_expr(syms, c.lhs, true);
                    let chk_r = check_expr(syms, c.rhs, true);
                    let seg = int_max(seg_of(syms, c.lhs, true), seg_of(syms, c.rhs, true));
                    let off = int_max(off_of(syms, c.lhs, true), off_of(syms, c.rhs, true));
                    let pre = old(self).spec_integrity_stmts();
                    let post = final(self).spec_integrity_stmts();
                    &&& final(self).spec_symbol_table() == old(self).spec_symbol_table()
                    &&& (r is Ok <==> chk_l is Ok && chk_r is Ok && seg < old(
                        self,
                    ).spec_symbol_table().spec_num_trace_segments() && off <= old(
                        self,
                    ).spec_symbol_table().spec_num_transition_exemptions())
                    &&& (r is Err ==> r->Err_0 == (if chk_l is Err {
                        chk_l->Err_0
                    } else if chk_r is Err {
                        chk_r->Err_0
                    } else {
                        SemanticError::InvalidConstraint
                    }))
                    &&& (r is Err ==> forall|s: int|
                        0 <= s < post.num_segments() ==> #[trigger] post.seg_roots(s)
                            == pre.seg_roots(s))
                    &&& (r is Ok ==> {
                        &&& post.seg_roots(seg).len() == pre.seg_roots(seg).len() + 1
                        &&& post.seg_roots(seg).last().spec_offset() == off
                        &&& merged_root_ok(
                            syms,
                            c.lhs,
                            c.rhs,
                            post.spec_graph().nodes(),
                            post.seg_roots(seg).last().spec_index().0 as int,
                        )
                        &&& degree_of(
                            post.spec_graph().nodes(),
                            post.seg_roots(seg).last().spec_index().0 as int,
                        ) == nat_max(expr_degree(syms, c.lhs, true), expr_degree(syms, c.rhs, true))
                        &&& post.seg_roots(seg).drop_last() == pre.seg_roots(seg)
                        &&& forall|s: int|
                            0 <= s < post.num_segments() && s != seg
                                ==> #[trigger] post.seg_roots(s) == pre.seg_roots(s)
                    })
                },
                IntegrityStmt::Variable(v) => {
                    let syms = old(self).spec_symbol_table().symbols();
                    let pre = old(self).spec_integrity_stmts();
                    let post = final(self).spec_integrity_stmts();
                    &&& (forall|s: int|
                        0 <= s < post.num_segments() ==> #[trigger] post.seg_roots(s)
                            == pre.seg_roots(s))
                    &&& (match v.value {
                        VariableType::ListComprehension(lc) => {
                            &&& (r is Ok <==> !has_name(syms, v.name@) && lc_ok(syms, lc) && (
                            forall|i: int|
                                0 <= i < lc_size(syms, lc) ==> check_expr(
                                    syms,
                                    #[trigger] lc_elem(syms, lc, i),
                                    true,
                                ) is Ok))
                            &&& (r is Err && !lc_ok(syms, lc) ==> r->Err_0 == (if lc.bindings@.len()
                                != 1 || lc.iterables@.len() != 1 {
                                SemanticError::DimensionMismatch
                            } else if !has_name(syms, lc.iterables@[0]@) {
                                SemanticError::UndeclaredIdentifier
                            } else {
                                SemanticError::InvalidAccess
                            }))
                            &&& (r is Err && lc_ok(syms, lc) && has_name(syms, v.name@) ==> r->Err_0
                                == SemanticError::DuplicateIdentifier)
                            &&& (r is Err && lc_ok(syms, lc) && !has_name(syms, v.name@) ==> exists|
                                i: int,
                            |
                                0 <= i < lc_size(syms, lc) && check_expr(
                                    syms,
                                    #[trigger] lc_elem(syms, lc, i),
                                    true,
                                ) is Err && r->Err_0 == check_expr(
                                    syms,
                                    lc_elem(syms, lc, i),
                                    true,
                                )->Err_0)
                            &&& (r is Ok ==> forall|i: int|
                                0 <= i < lc_size(syms, lc) ==> #[trigger] has_key(
                                    post.spec_variable_roots().entries(),
                                    VariableValue::Vector(syms.len() as usize, i as usize),
                                ))
                            &&& (r is Ok ==> {
                                let entries = post.spec_variable_roots().entries();
                                let nodes = post.spec_graph().nodes();
                                let base = entries.len() - lc_size(syms, lc);
                                forall|i: int|
                                    0 <= i < lc_size(syms, lc) ==> {
                                        let e = #[trigger] entries[base + i];
                                        &&& e.0 == VariableValue::Vector(
                                            syms.len() as usize,
                                            i as usize,
                                        )
                                        &&& (e.1).0 < nodes.len()
                                        &&& root_shape(
                                            syms,
                                            lc_elem(syms, lc, i),
                                            nodes[(e.1).0 as int],
                                            true,
                                        )
                                        &&& degree_of(nodes, (e.1).0 as int) == expr_degree(
                                            syms,
                                            lc_elem(syms, lc, i),
                                            true,
                                        )
                                    }
                            })
                            &&& (r is Ok ==> {
                                let pushed = final(self).spec_symbol_table().symbols();
                                &&& pushed.len() == syms.len() + 1
                                &&& pushed.last().name == v.name
                                &&& pushed.last().symbol_type matches SymbolType::Variable(
                                    VariableType::Vector(vec),
                                ) && vec@.len() == lc_size(syms, lc) && (forall|i: int|
                                    0 <= i < vec@.len() ==> vec@[i] == lc_elem(syms, lc, i))
                            })
                        },
                        _ => {
                            &&& (r is Err <==> has_name(syms, v.name@)
                                || !crate::symbol_table::shape_ok(SymbolType::Variable(v.value)))
                            &&& (r is Err ==> r->Err_0 == (if has_name(syms, v.name@) {
                                SemanticError::DuplicateIdentifier
                            } else {
                                SemanticError::DimensionMismatch
                            }))
                            &&& (r is Err ==> final(self).spec_symbol_table() == old(
                                self,
                            ).spec_symbol_table())
                            &&& (r is Ok ==> final(self).spec_symbol_table().symbols()
                                == syms.push(
                                Symbol { name: v.name, symbol_type: SymbolType::Variable(v.value) },
                            ))
                            &&& final(self).spec_integrity_stmts() == old(
                                self,
                            ).spec_integrity_stmts()
                        },
                    })
                },
            },
    {
        match stmt {
            IntegrityStmt::Constraint(constraint) => {
                self.integrity_stmts.insert(
                    &mut self.symbol_table,
                    IntegrityStmt::Constraint(constraint),
                )
            },
            IntegrityStmt::Variable(variable) => {
                let Variable { name, value } = variable;
                match value {
                    VariableType::ListComprehension(lc) => {
                        let vector = match self.unfold_lc(&lc) {
                            Ok(v) => v,
                            Err(e) => {
                                return Err(e);
                            },
                        };
                        // reject a duplicate before materializing anything.
                        match self.symbol_table.resolve_idx(&name) {
                            Ok(_) => {
                                return Err(SemanticError::DuplicateIdentifier);
                            },
                            Err(_) => {},
                        }
                        let sym_idx = self.symbol_table.len();
                        let n = vector.len();
                        let ghost syms = old(self).spec_symbol_table().symbols();
                        let ghost old_entries = old(
                            self,
                        ).integrity_stmts.spec_variable_roots().entries();
                        // first lower every element; nothing is registered
                        // yet, so a failure here registers nothing.
                        let mut node_idxs: Vec<NodeIndex> = Vec::new();
                        let mut i: usize = 0;
                        while i < n
                            invariant
                                0 <= i <= n,
                                self.symbol_table == old(self).symbol_table,
                                self.boundary_stmts == old(self).boundary_stmts,
                                self.symbol_table.wf(),
                                self.integrity_stmts.wf(),
                                self.integrity_stmts.num_segments() == old(
                                    self,
                                ).integrity_stmts.num_segments(),
                                forall|s: int|
                                    0 <= s < self.integrity_stmts.num_segments()
                                        ==> #[trigger] self.integrity_stmts.seg_roots(s) == old(
                                        self,
                                    ).integrity_stmts.seg_roots(s),
                                nodes_grow(
                                    self.integrity_stmts.spec_graph().nodes(),
                                    old(self).integrity_stmts.spec_graph().nodes(),
                                ),
                                roots_grow(
                                    self.integrity_stmts.spec_variable_roots().entries(),
                                    old_entries,
                                ),
                                new_keys_bound(
                                    self.integrity_stmts.spec_variable_roots().entries(),
                                    old_entries,
                                    syms.len() as int,
                                ),
                                old(self).wf(),
                                old_entries == old(
                                    self,
                                ).integrity_stmts.spec_variable_roots().entries(),
                                n == vector@.len(),
                                syms == self.symbol_table.symbols(),
                                sym_idx == syms.len(),
                                stmt == IntegrityStmt::Variable(
                                    Variable {
                                        name: name,
                                        value: VariableType::ListComprehension(lc),
                                    },
                                ),
                                !has_name(syms, name@),
                                lc_ok(syms, lc),
                                n == lc_size(syms, lc),
                                forall|j: int| 0 <= j < n ==> vector@[j] == lc_elem(syms, lc, j),
                                forall|j: int|
                                    0 <= j < i ==> check_expr(
                                        syms,
                                        #[trigger] lc_elem(syms, lc, j),
                                        true,
                                    ) is Ok,
                                node_idxs@.len() == i,
                                forall|j: int|
                                    0 <= j < i ==> (#[trigger] node_idxs@[j]).0
                                        < self.integrity_stmts.spec_graph().nodes().len()
                                        && root_shape(
                                        syms,
                                        lc_elem(syms, lc, j),
                                        self.integrity_stmts.spec_graph().nodes()[node_idxs@[j].0
                                            as int],
                                        true,
                                    ) && degree_of(
                                        self.integrity_stmts.spec_graph().nodes(),
                                        node_idxs@[j].0 as int,
                                    ) == expr_degree(syms, lc_elem(syms, lc, j), true),
                            decreases n - i,
                        {
                            let ghost pre_nodes = self.integrity_stmts.spec_graph().nodes();
                            let idx = match self.integrity_stmts.lower_element(
                                &self.symbol_table,
                                &vector[i],
                            ) {
                                Ok(v) => v,
                                Err(e) => {
                                    return Err(e);
                                },
                            };
                            node_idxs.push(idx);
                            proof {
                                let cur_nodes = self.integrity_stmts.spec_graph().nodes();
                                assert forall|j: int| 0 <= j < i + 1 implies (
                                #[trigger] node_idxs@[j]).0 < cur_nodes.len() && root_shape(
                                    syms,
                                    lc_elem(syms, lc, j),
                                    cur_nodes[node_idxs@[j].0 as int],
                                    true,
                                ) && degree_of(cur_nodes, node_idxs@[j].0 as int) == expr_degree(
                                    syms,
                                    lc_elem(syms, lc, j),
                                    true,
                                ) by {
                                    if j < i {
                                        lemma_degree_prefix(
                                            pre_nodes,
                                            cur_nodes,
                                            node_idxs@[j].0 as int,
                                        );
                                        assert(cur_nodes[node_idxs@[j].0 as int]
                                            == pre_nodes[node_idxs@[j].0 as int]);
                                    }
                                }
                            }
                            i += 1;
                        }
                        // every element lowered: now register each root under
                        // its element identity.
                        let ghost base_entries =
                            self.integrity_stmts.spec_variable_roots().entries();
                        let ghost nodes_fixed = self.integrity_stmts.spec_graph().nodes();
                        let mut k: usize = 0;
                        while k < n
                            invariant
                                0 <= k <= n,
                                self.symbol_table == old(self).symbol_table,
                                self.boundary_stmts == old(self).boundary_stmts,
                                self.symbol_table.wf(),
                                self.integrity_stmts.wf(),
                                self.integrity_stmts.num_segments() == old(
                                    self,
                                ).integrity_stmts.num_segments(),
                                forall|s: int|
                                    0 <= s < self.integrity_stmts.num_segments()
                                        ==> #[trigger] self.integrity_stmts.seg_roots(s) == old(
                                        self,
                                    ).integrity_stmts.seg_roots(s),
                                self.integrity_stmts.spec_graph().nodes() == nodes_fixed,
                                nodes_grow(
                                    nodes_fixed,
                                    old(self).integrity_stmts.spec_graph().nodes(),
                                ),
                                roots_grow(base_entries, old_entries),
                                new_keys_bound(base_entries, old_entries, syms.len() as int),
                                old(self).wf(),
                                old_entries == old(
                                    self,
                                ).integrity_stmts.spec_variable_roots().entries(),
                                n == vector@.len(),
                                syms == self.symbol_table.symbols(),
                                sym_idx == syms.len(),
                                stmt == IntegrityStmt::Variable(
                                    Variable {
                                        name: name,
                                        value: VariableType::ListComprehension(lc),
                                    },
                                ),
                                !has_name(syms, name@),
                                lc_ok(syms, lc),
                                n == lc_size(syms, lc),
                                forall|j: int| 0 <= j < n ==> vector@[j] == lc_elem(syms, lc, j),
                                forall|j: int|
                                    0 <= j < n ==> check_expr(
                                        syms,
                                        #[trigger] lc_elem(syms, lc, j),
                                        true,
                                    ) is Ok,
                                node_idxs@.len() == n,
                                forall|j: int|
                                    0 <= j < n ==> (#[trigger] node_idxs@[j]).0
                                        < nodes_fixed.len() && root_shape(
                                        syms,
                                        lc_elem(syms, lc, j),
                                        nodes_fixed[node_idxs@[j].0 as int],
                                        true,
                                    ) && degree_of(nodes_fixed, node_idxs@[j].0 as int)
                                        == expr_degree(syms, lc_elem(syms, lc, j), true),
                                self.integrity_stmts.spec_variable_roots().entries().len()
                                    == base_entries.len() + k,
                                roots_grow(
                                    self.integrity_stmts.spec_variable_roots().entries(),
                                    base_entries,
                                ),
                                forall|j: int|
                                    base_entries.len() <= j < base_entries.len() + k
                                        ==> #[trigger] self.integrity_stmts.spec_variable_roots(
                                    ).entries()[j] == (
                                        VariableValue::Vector(
                                            sym_idx,
                                            (j - base_entries.len()) as usize,
                                        ),
                                        node_idxs@[j - base_entries.len()],
                                    ),
                            decreases n - k,
                        {
                            proof {
                                let entries = self.integrity_stmts.spec_variable_roots().entries();
                                let key = VariableValue::Vector(sym_idx, k);
                                if has_key(entries, key) {
                                    let j = choose|j: int|
                                        0 <= j < entries.len() && (#[trigger] entries[j]).0 == key;
                                    if j < old_entries.len() {
                                        assert(entries[j] == old_entries[j]);
                                        assert(key_sym(old_entries[j].0) < syms.len() as int);
                                    } else if j < base_entries.len() {
                                        assert(entries[j] == base_entries[j]);
                                        assert(key_sym(base_entries[j].0) < syms.len() as int);
                                    } else {
                                        assert(entries[j].0 == VariableValue::Vector(
                                            sym_idx,
                                            (j - base_entries.len()) as usize,
                                        ));
                                        assert((j - base_entries.len()) as usize != k);
                                    }
                                    assert(false);
                                }
                            }
                            self.integrity_stmts.register_element(sym_idx, k, node_idxs[k]);
                            k += 1;
                        }
                        let declared = self.symbol_table.insert_integrity_variable(
                            Variable { name, value: VariableType::Vector(vector) },
                        );
                        proof {
                            let entries = self.integrity_stmts.spec_variable_roots().entries();
                            let nodes = self.integrity_stmts.spec_graph().nodes();
                            assert forall|j: int| 0 <= j < n implies #[trigger] has_key(
                                entries,
                                VariableValue::Vector(sym_idx, j as usize),
                            ) by {
                                let w = base_entries.len() + j;
                                assert(entries[w] == (
                                    VariableValue::Vector(sym_idx, j as usize),
                                    node_idxs@[j],
                                ));
                            }
                            assert(entries.len() == base_entries.len() + n);
                            assert forall|j: int| 0 <= j < n implies {
                                let e = #[trigger] entries[entries.len() - n + j];
                                &&& e.0 == VariableValue::Vector(syms.len() as usize, j as usize)
                                &&& (e.1).0 < nodes.len()
                                &&& root_shape(
                                    syms,
                                    lc_elem(syms, lc, j),
                                    nodes[(e.1).0 as int],
                                    true,
                                )
                                &&& degree_of(nodes, (e.1).0 as int) == expr_degree(
                                    syms,
                                    lc_elem(syms, lc, j),
                                    true,
                                )
                            } by {
                                let w = base_entries.len() + j;
                                assert(entries[w] == (
                                    VariableValue::Vector(sym_idx, j as usize),
                                    node_idxs@[j],
                                ));
                            }
                            assert forall|j: int|
                                0 <= j < entries.len() implies key_sym(
                                (#[trigger] entries[j]).0,
                            ) < self.symbol_table.symbols().len() as int by {
                                if j < old_entries.len() {
                                    assert(entries[j] == old_entries[j]);
                                    assert(key_sym(old_entries[j].0) < syms.len() as int);
                                } else if j < base_entries.len() {
                                    assert(entries[j] == base_entries[j]);
                                    assert(key_sym(base_entries[j].0) < syms.len() as int);
                                } else {
                                    assert(entries[j].0 == VariableValue::Vector(
                                        sym_idx,
                                        (j - base_entries.len()) as usize,
                                    ));
                                }
                            }
                        }
                        declared
                    },
                    other => {
                        self.symbol_table.insert_integrity_variable(
                            Variable { name, value: other },
                        )
                    },
                }
            },
        }
    }

    /// Adds a parsed boundary statement. A constraint has its asserted
    /// column validated and its value lowered into the boundary section's
    /// graph, recording the value's root under the column's segment; a
    /// variable is declared in the symbol table.
    #[verifier::rlimit(100)]
    #[verifier::spinoff_prover]
    pub fn insert_boundary_stmt(&mut self, stmt: BoundaryStmt) -> (r: Result<(), SemanticError>)
        requires
            old(self).wf(),
        ensures
            final(self).wf(),
            final(self).spec_integrity_stmts() == old(self).spec_integrity_stmts(),
            final(self).spec_boundary_stmts().num_segments() == old(
                self,
            ).spec_boundary_stmts().num_segments(),
            nodes_grow(
                final(self).spec_boundary_stmts().spec_graph().nodes(),
                old(self).spec_boundary_stmts().spec_graph().nodes(),
            ),
            roots_grow(
                final(self).spec_boundary_stmts().spec_variable_roots().entries(),
                old(self).spec_boundary_stmts().spec_variable_roots().entries(),
            ),
            final(self).spec_symbol_table().spec_num_trace_segments() == old(
                self,
            ).spec_symbol_table().spec_num_trace_segments(),
            final(self).spec_symbol_table().spec_num_transition_exemptions() == old(
                self,
            ).spec_symbol_table().spec_num_transition_exemptions(),
            match stmt {
                BoundaryStmt::Constraint(bc) => {
                    let syms = old(self).spec_symbol_table().symbols();
                    let chk_a = crate::access_validation::named_trace_access_result(
                        crate::symbol_table::find_sym(syms, bc.access.name@),
                        bc.access.idx as int,
                    );
                    let chk_v = check_expr(syms, bc.value, true);
                    let pre = old(self).spec_boundary_stmts();
                    let post = final(self).spec_boundary_stmts();
                    &&& final(self).spec_symbol_table() == old(self).spec_symbol_table()
                    &&& (r is Ok <==> has_name(syms, bc.access.name@) && chk_a is Ok
                        && chk_v is Ok)
                    &&& (r is Err ==> r->Err_0 == (if !has_name(syms, bc.access.name@) {
                        SemanticError::UndeclaredIdentifier
                    } else if chk_a is Err {
                        chk_a->Err_0
                    } else {
                        chk_v->Err_0
                    }))
                    &&& (r is Err ==> forall|s: int|
                        0 <= s < post.num_segments() ==> #[trigger] post.seg_roots(s)
                            == pre.seg_roots(s))
                    &&& (r is Ok ==> {
                        let seg = (crate::symbol_table::find_sym(
                            syms,
                            bc.access.name@,
                        )->TraceColumns_0).trace_segment as int;
                        &&& post.seg_roots(seg).len() == pre.seg_roots(seg).len() + 1
                        &&& post.seg_roots(seg).last().spec_offset() == 0
                        &&& degree_of(
                            post.spec_graph().nodes(),
                            post.seg_roots(seg).last().spec_index().0 as int,
                        ) == expr_degree(syms, bc.value, true)
                        &&& root_shape(
                            syms,
                            bc.value,
                            post.spec_graph().nodes()[post.seg_roots(seg).last().spec_index().0
                                as int],
                            true,
                        )
                        &&& post.seg_roots(seg).drop_last() == pre.seg_roots(seg)
                        &&& forall|s: int|
                            0 <= s < post.num_segments() && s != seg
                                ==> #[trigger] post.seg_roots(s) == pre.seg_roots(s)
                    })
                },
                BoundaryStmt::Variable(v) => {
                    let syms = old(self).spec_symbol_table().symbols();
                    &&& (forall|s: int|
                        0 <= s < final(self).spec_boundary_stmts().num_segments()
                            ==> #[trigger] final(self).spec_boundary_stmts().seg_roots(s) == old(
                            self,
                        ).spec_boundary_stmts().seg_roots(s))
                    &&& final(self).spec_boundary_stmts().spec_graph() == old(
                        self,
                    ).spec_boundary_stmts().spec_graph()
                    &&& (r is Err <==> has_name(syms, v.name@) || !crate::symbol_table::shape_ok(
                        SymbolType::Variable(v.value),
                    ))
                    &&& (r is Err ==> r->Err_0 == (if has_name(syms, v.name@) {
                        SemanticError::DuplicateIdentifier
                    } else {
                        SemanticError::DimensionMismatch
                    }))
                    &&& (r is Err ==> final(self).spec_symbol_table() == old(
                        self,
                    ).spec_symbol_table())
                    &&& (r is Ok ==> final(self).spec_symbol_table().symbols() == syms.push(
                        Symbol { name: v.name, symbol_type: SymbolType::Variable(v.value) },
                    ))
                },
            },
    {
        self.boundary_stmts.insert(&mut self.symbol_table, stmt)
    }
}

} // verus!
