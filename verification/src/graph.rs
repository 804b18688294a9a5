//! The deduplicated algebraic expression graph: an append-only arena of
//! arithmetic operation nodes shared across all constraints, with
//! insert-or-reuse keyed on structural equality, and saturating degree
//! computation over it.

use vstd::prelude::*;

use crate::degree::{cap_usize, degree_of, nat_max, IntegrityConstraintDegree};

verus! {

/// A stable handle to a node of the graph: its position in the append-only
/// node sequence. Nodes are never removed, so a handle never dangles.
#[derive(Clone, Copy, Debug, PartialEq, Eq, Structural)]
pub struct NodeIndex(pub usize);

/// The kind of symbol a `SymbolRef` node stands for; the kind decides the
/// base degree the reference contributes.
#[derive(Clone, Copy, Debug, PartialEq, Eq, Structural)]
pub enum SymbolRefKind {
    PublicInput,
    PeriodicColumn,
    RandomValue,
}

/// One arithmetic operation node. Compound operations refer to their
/// children by `NodeIndex`; children always precede their parents in the
/// graph. A symbol reference carries the symbol's position in the symbol
/// table and the accessed element index, so references to distinct declared
/// values stay distinct nodes.
#[derive(Clone, Copy, Debug, PartialEq, Eq, Structural)]
pub enum Operation {
    /// An inline constant value.
    Constant(u64),
    /// A reference to one element of a declared symbol: kind, position of
    /// the symbol in the symbol table, element index.
    SymbolRef(SymbolRefKind, usize, usize),
    /// A trace access: segment, column index, row offset.
    TraceAccess(u8, usize, usize),
    Add(NodeIndex, NodeIndex),
    Sub(NodeIndex, NodeIndex),
    Mul(NodeIndex, NodeIndex),
    /// Exponentiation of a node by a constant power.
    Exp(NodeIndex, u64),
}

/// Whether every child handle in `op` points below position `n`.
pub open spec fn op_children_lt(op: Operation, n: int) -> bool {
    match op {
        Operation::Add(a, b) => a.0 < n && b.0 < n,
        Operation::Sub(a, b) => a.0 < n && b.0 < n,
        Operation::Mul(a, b) => a.0 < n && b.0 < n,
        Operation::Exp(a, _) => a.0 < n,
        _ => true,
    }
}

/// Well-formedness of a node sequence: every node's children precede it.
pub open spec fn nodes_wf(nodes: Seq<Operation>) -> bool {
    forall|i: int| 0 <= i < nodes.len() ==> op_children_lt(#[trigger] nodes[i], i)
}

/// The position of the first node structurally equal to `op`, or
/// `nodes.len()` if none is: exactly the handle `insert_op` hands out.
pub open spec fn find_op_idx(nodes: Seq<Operation>, op: Operation) -> int
    decreases nodes.len(),
{
    if nodes.len() == 0 {
        0
    } else if nodes[0] == op {
        0
    } else {
        1 + find_op_idx(nodes.drop_first(), op)
    }
}

/// Whether a node structurally equal to `op` is already in the graph.
pub open spec fn op_present(nodes: Seq<Operation>, op: Operation) -> bool {
    find_op_idx(nodes, op) < nodes.len()
}

/// The node sequence after an insert-or-reuse of `op`: unchanged when a
/// structurally equal node exists, extended by `op` otherwise.
pub open spec fn inserted_nodes(nodes: Seq<Operation>, op: Operation) -> Seq<Operation> {
    if op_present(nodes, op) {
        nodes
    } else {
        nodes.push(op)
    }
}

pub proof fn lemma_find_op_idx_bounds(nodes: Seq<Operation>, op: Operation)
    ensures
        0 <= find_op_idx(nodes, op) <= nodes.len(),
        find_op_idx(nodes, op) < nodes.len() ==> nodes[find_op_idx(nodes, op)] == op,
        forall|j: int| 0 <= j < find_op_idx(nodes, op) ==> nodes[j] != op,
    decreases nodes.len(),
{
    if nodes.len() != 0 && nodes[0] != op {
        lemma_find_op_idx_bounds(nodes.drop_first(), op);
        assert forall|j: int| 0 <= j < find_op_idx(nodes, op) implies nodes[j] != op by {
            if j > 0 {
                assert(nodes.drop_first()[j - 1] == nodes[j]);
            }
        }
    }
}

/// If position `i` holds `op` and no earlier position does, `find_op_idx`
/// points at `i`.
pub proof fn lemma_find_op_idx_first(nodes: Seq<Operation>, op: Operation, i: int)
    requires
        0 <= i < nodes.len(),
        nodes[i] == op,
        forall|j: int| 0 <= j < i ==> nodes[j] != op,
    ensures
        find_op_idx(nodes, op) == i,
    decreases nodes.len(),
{
    if i > 0 {
        lemma_find_op_idx_first(nodes.drop_first(), op, i - 1);
    }
}

/// Deduplication: once `op` has been inserted, inserting it again hands back
/// the same handle and adds no node.
pub proof fn lemma_insert_op_idempotent(nodes: Seq<Operation>, op: Operation)
    ensures
        op_present(inserted_nodes(nodes, op), op),
        inserted_nodes(inserted_nodes(nodes, op), op) == inserted_nodes(nodes, op),
        find_op_idx(inserted_nodes(nodes, op), op) == find_op_idx(nodes, op),
{
    lemma_find_op_idx_bounds(nodes, op);
    if !op_present(nodes, op) {
        lemma_find_op_idx_first(nodes.push(op), op, nodes.len() as int);
    }
}

/// Identifies one scalar element of a declared variable: the variable's
/// position in the symbol table plus the element indices within its value.
#[derive(Clone, Copy, Debug, PartialEq, Eq, Structural)]
pub enum VariableValue {
    Scalar(usize),
    Vector(usize, usize),
    Matrix(usize, usize, usize),
}

/// Whether some entry carries the key.
pub open spec fn has_key(entries: Seq<(VariableValue, NodeIndex)>, key: VariableValue) -> bool {
    exists|i: int| 0 <= i < entries.len() && (#[trigger] entries[i]).0 == key
}

/// The graph roots of the variable elements materialized so far: each
/// element of a declared vector or matrix variable is lowered at most once,
/// and its root is registered here under the element's identity.
#[derive(Debug)]
pub struct VariableRoots {
    entries: Vec<(VariableValue, NodeIndex)>,
}

impl VariableRoots {
    /// The registered (key, root) pairs, in registration order.
    pub closed spec fn entries(self) -> Seq<(VariableValue, NodeIndex)> {
        self.entries@
    }

    /// Well-formedness: each element is registered at most once.
    pub open spec fn wf(self) -> bool {
        forall|i: int, j: int|
            0 <= i < j < self.entries().len() ==> (#[trigger] self.entries()[i]).0 != (
            #[trigger] self.entries()[j]).0
    }

    pub fn new() -> (r: Self)
        ensures
            r.wf(),
            r.entries() == Seq::<(VariableValue, NodeIndex)>::empty(),
    {
        Self { entries: Vec::new() }
    }

    /// How many distinct variable elements have been registered.
    pub fn len(&self) -> (r: usize)
        ensures
            r == self.entries().len(),
    {
        self.entries.len()
    }

    /// Whether the element is already registered.
    pub fn contains_key(&self, key: VariableValue) -> (r: bool)
        ensures
            r == has_key(self.entries(), key),
    {
        let n = self.entries.len();
        let mut i: usize = 0;
        while i < n
            invariant
                0 <= i <= n,
                n == self.entries@.len(),
                forall|j: int| 0 <= j < i ==> (#[trigger] self.entries@[j]).0 != key,
            decreases n - i,
        {
            if self.entries[i].0 == key {
                return true;
            }
            i += 1;
        }
        false
    }

    /// Registers the root of a variable element, keeping the first
    /// registration when the element is already present.
    pub fn record(&mut self, key: VariableValue, index: NodeIndex)
        requires
            old(self).wf(),
        ensures
            final(self).wf(),
            final(self).entries() == if has_key(old(self).entries(), key) {
                old(self).entries()
            } else {
                old(self).entries().push((key, index))
            },
    {
        if !self.contains_key(key) {
            let ghost old_entries = self.entries@;
            self.entries.push((key, index));
            proof {
                assert forall|i: int, j: int|
                    0 <= i < j < self.entries@.len() implies (#[trigger] self.entries@[i]).0 != (
                #[trigger] self.entries@[j]).0 by {
                    if j == self.entries@.len() - 1 {
                        assert(!has_key(old_entries, key));
                    }
                }
            }
        }
    }
}

/// Entries only accumulate: an earlier registration is never displaced.
pub open spec fn roots_grow(
    new: Seq<(VariableValue, NodeIndex)>,
    old: Seq<(VariableValue, NodeIndex)>,
) -> bool {
    old.len() <= new.len() && forall|j: int| 0 <= j < old.len() ==> new[j] == old[j]
}

/// The symbol-table position a variable-root key names.
pub open spec fn key_sym(key: VariableValue) -> int {
    match key {
        VariableValue::Scalar(i) => i as int,
        VariableValue::Vector(i, _) => i as int,
        VariableValue::Matrix(i, _, _) => i as int,
    }
}

/// Every registered key names a symbol below position `n`.
pub open spec fn roots_bound(entries: Seq<(VariableValue, NodeIndex)>, n: int) -> bool {
    forall|j: int| 0 <= j < entries.len() ==> key_sym((#[trigger] entries[j]).0) < n
}

/// Every key registered on top of `old` names a symbol below position `n`.
pub open spec fn new_keys_bound(
    new: Seq<(VariableValue, NodeIndex)>,
    old: Seq<(VariableValue, NodeIndex)>,
    n: int,
) -> bool {
    forall|j: int| old.len() <= j < new.len() ==> key_sym((#[trigger] new[j]).0) < n
}

/// Nodes only accumulate: handles into the old graph stay valid and keep
/// their operation.
pub open spec fn nodes_grow(new: Seq<Operation>, old: Seq<Operation>) -> bool {
    old.len() <= new.len() && forall|j: int| 0 <= j < old.len() ==> new[j] == old[j]
}

/// A deduplicated DAG of arithmetic operation nodes, shared across all
/// constraints of one section. Append-only: a `NodeIndex` stays valid for
/// the life of the graph.
#[derive(Debug)]
pub struct AlgebraicGraph {
    nodes: Vec<Operation>,
}

impl AlgebraicGraph {
    /// The node sequence, in insertion order.
    pub closed spec fn nodes(self) -> Seq<Operation> {
        self.nodes@
    }

    /// Well-formedness: every node's children precede it.
    pub open spec fn wf(self) -> bool {
        nodes_wf(self.nodes())
    }

    /// Creates an empty graph.
    pub fn new() -> (r: Self)
        ensures
            r.wf(),
            r.nodes() == Seq::<Operation>::empty(),
    {
        Self { nodes: Vec::new() }
    }

    /// The number of nodes in the graph.
    pub fn len(&self) -> (r: usize)
        ensures
            r == self.nodes().len(),
    {
        self.nodes.len()
    }

    /// The operation stored at the given handle.
    pub fn node(&self, index: &NodeIndex) -> (r: Operation)
        requires
            index.0 < self.nodes().len(),
        ensures
            r == self.nodes()[index.0 as int],
    {
        self.nodes[index.0]
    }

    /// Inserts an operation, or reuses the existing node when a structurally
    /// identical one (same operation, same children) is already present; the
    /// returned handle names the first such node. This is the deduplication
    /// that keeps the DAG sub-linear in constraint count.
    pub fn insert_op(&mut self, op: Operation) -> (r: NodeIndex)
        requires
            old(self).wf(),
            op_children_lt(op, old(self).nodes().len() as int),
        ensures
            final(self).wf(),
            final(self).nodes() == inserted_nodes(old(self).nodes(), op),
            r.0 == find_op_idx(old(self).nodes(), op),
            r.0 < final(self).nodes().len(),
            final(self).nodes()[r.0 as int] == op,
    {
        proof {
            lemma_find_op_idx_bounds(self.nodes@, op);
        }
        let n = self.nodes.len();
        let mut i: usize = 0;
        while i < n
            invariant
                0 <= i <= n,
                self.nodes@ == old(self).nodes@,
                nodes_wf(self.nodes@),
                op_children_lt(op, self.nodes@.len() as int),
                n == self.nodes@.len(),
                forall|j: int| 0 <= j < i ==> self.nodes@[j] != op,
            decreases n - i,
        {
            if self.nodes[i] == op {
                proof {
                    lemma_find_op_idx_first(self.nodes@, op, i as int);
                }
                return NodeIndex(i);
            }
            i += 1;
        }
        proof {
            lemma_find_op_idx_bounds(self.nodes@, op);
            if find_op_idx(self.nodes@, op) < n as int {
                assert(self.nodes@[find_op_idx(self.nodes@, op)] == op);
                assert(false);
            }
        }
        self.nodes.push(op);
        NodeIndex(n)
    }

    /// The polynomial degree of the subgraph rooted at `index`, saturating
    /// at the largest machine word.
    pub fn degree(&self, index: &NodeIndex) -> (r: IntegrityConstraintDegree)
        requires
            self.wf(),
            index.0 < self.nodes().len(),
        ensures
            r.spec_base() == cap_usize(degree_of(self.nodes(), index.0 as int)),
    {
        let base = self.accumulate_degree(index.0);
        IntegrityConstraintDegree::new(base)
    }

    /// Recursive descent over the DAG computing the degree rooted at node
    /// `i`, with saturating arithmetic.
    fn accumulate_degree(&self, i: usize) -> (r: usize)
        requires
            self.wf(),
            i < self.nodes().len(),
        ensures
            r == cap_usize(degree_of(self.nodes(), i as int)),
        decreases i,
    {
        let ghost nodes = self.nodes@;
        match self.nodes[i] {
            Operation::Constant(_) => 0,
            Operation::SymbolRef(kind, _, _) => match kind {
                SymbolRefKind::PeriodicColumn => 0,
                _ => 1,
            },
            Operation::TraceAccess(_, _, _) => 1,
            Operation::Add(a, b) => {
                proof {
                    assert(op_children_lt(nodes[i as int], i as int));
                }
                let da = self.accumulate_degree(a.0);
                let db = self.accumulate_degree(b.0);
                if da >= db {
                    da
                } else {
                    db
                }
            },
            Operation::Sub(a, b) => {
                proof {
                    assert(op_children_lt(nodes[i as int], i as int));
                }
                let da = self.accumulate_degree(a.0);
                let db = self.accumulate_degree(b.0);
                if da >= db {
                    da
                } else {
                    db
                }
            },
            Operation::Mul(a, b) => {
                proof {
                    assert(op_children_lt(nodes[i as int], i as int));
                }
                let da = self.accumulate_degree(a.0);
                let db = self.accumulate_degree(b.0);
                da.saturating_add(db)
            },
            Operation::Exp(a, e) => {
                proof {
                    assert(op_children_lt(nodes[i as int], i as int));
                }
                let da = self.accumulate_degree(a.0);
                let ghost dtrue = degree_of(nodes, a.0 as int);
                if e > (usize::MAX as u64) {
                    if da == 0 {
                        proof {
                            assert(dtrue * e == 0) by (nonlinear_arith)
                                requires
                                    dtrue == 0,
                            ;
                        }
                        0
                    } else {
                        proof {
                            assert(dtrue * e > usize::MAX) by (nonlinear_arith)
                                requires
                                    dtrue >= 1 && e > usize::MAX,
                            ;
                        }
                        usize::MAX
                    }
                } else {
                    let eu = e as usize;
                    match da.checked_mul(eu) {
                        Some(v) => {
                            proof {
                                lemma_cap_mul(dtrue, eu as nat);
                            }
                            v
                        },
                        None => {
                            proof {
                                lemma_cap_mul(dtrue, eu as nat);
                            }
                            usize::MAX
                        },
                    }
                }
            },
        }
    }
}

/// Multiplying a capped degree behaves like capping the true product: the
/// saturating computation loses nothing below the cap.
proof fn lemma_cap_mul(d: nat, e: nat)
    requires
        e <= usize::MAX,
    ensures
        cap_usize(d) * e > usize::MAX ==> d * e > usize::MAX,
        cap_usize(d) * e <= usize::MAX ==> cap_usize(cap_usize(d) * e) == cap_usize(d * e),
{
    if d > usize::MAX {
        if e == 0 {
            assert(d * e == 0) by (nonlinear_arith)
                requires
                    e == 0,
            ;
        } else {
            assert(d * e >= d) by (nonlinear_arith)
                requires
                    e >= 1,
                    d >= 0,
            ;
            assert(cap_usize(d) * e >= cap_usize(d)) by (nonlinear_arith)
                requires
                    e >= 1,
                    cap_usize(d) >= 0,
            ;
        }
    }
}

} // verus!
