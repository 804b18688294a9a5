//! Polynomial degrees of constraint subgraphs: the mathematical degree of a
//! graph node, the composition laws it obeys, and the degree value handed to
//! the backend.

use vstd::prelude::*;

use crate::graph::{NodeIndex, Operation, SymbolRefKind};

verus! {

/// The larger of two naturals.
pub open spec fn nat_max(a: nat, b: nat) -> nat {
    if a >= b {
        a
    } else {
        b
    }
}

/// Caps a natural at the largest machine word, the value a saturating
/// computation returns in its place.
pub open spec fn cap_usize(n: nat) -> nat {
    if n <= usize::MAX {
        n
    } else {
        usize::MAX as nat
    }
}

/// The base degree a single non-compound operation contributes: constants
/// contribute 0, a trace access contributes 1, and a symbol reference
/// contributes 1 except for periodic columns, which contribute 0.
pub open spec fn leaf_degree(op: Operation) -> nat {
    match op {
        Operation::Constant(_) => 0,
        Operation::SymbolRef(kind, _, _) => match kind {
            SymbolRefKind::PeriodicColumn => 0,
            _ => 1,
        },
        Operation::TraceAccess(_, _, _) => 1,
        _ => 0,
    }
}

/// The polynomial degree of the subgraph rooted at node `i` of an
/// append-only node sequence whose children always precede their parents:
/// leaves contribute their base degree, addition and subtraction take the
/// larger child degree, multiplication adds the child degrees, and
/// exponentiation multiplies the child degree by the exponent.
pub open spec fn degree_of(nodes: Seq<Operation>, i: int) -> nat
    decreases i,
{
    if 0 <= i < nodes.len() {
        match nodes[i] {
            Operation::Add(a, b) => if a.0 < i && b.0 < i {
                nat_max(degree_of(nodes, a.0 as int), degree_of(nodes, b.0 as int))
            } else {
                0
            },
            Operation::Sub(a, b) => if a.0 < i && b.0 < i {
                nat_max(degree_of(nodes, a.0 as int), degree_of(nodes, b.0 as int))
            } else {
                0
            },
            Operation::Mul(a, b) => if a.0 < i && b.0 < i {
                degree_of(nodes, a.0 as int) + degree_of(nodes, b.0 as int)
            } else {
                0
            },
            Operation::Exp(a, e) => if a.0 < i {
                degree_of(nodes, a.0 as int) * (e as nat)
            } else {
                0
            },
            op => leaf_degree(op),
        }
    } else {
        0
    }
}

/// The degree of one integrity constraint, used by the backend to size the
/// committed constraint-composition polynomial.
#[derive(Clone, Copy, Debug, PartialEq, Eq, Structural)]
pub struct IntegrityConstraintDegree {
    base: usize,
}

impl IntegrityConstraintDegree {
    pub closed spec fn spec_base(self) -> int {
        self.base as int
    }

    pub fn new(base: usize) -> (r: Self)
        ensures
            r.spec_base() == base,
    {
        Self { base }
    }

    /// The degree as a plain number.
    pub fn base(&self) -> (r: usize)
        ensures
            r == self.spec_base(),
    {
        self.base
    }
}

/// Degree composition for products: the degree of a multiplication node is
/// the sum of the degrees of its operands.
pub proof fn lemma_degree_mul(nodes: Seq<Operation>, i: int, a: NodeIndex, b: NodeIndex)
    requires
        0 <= i < nodes.len(),
        nodes[i] == Operation::Mul(a, b),
        a.0 < i,
        b.0 < i,
    ensures
        degree_of(nodes, i) == degree_of(nodes, a.0 as int) + degree_of(nodes, b.0 as int),
{
}

/// Degree composition for sums and differences: the degree of an addition or
/// subtraction node is the larger of the degrees of its operands.
pub proof fn lemma_degree_add_sub(nodes: Seq<Operation>, i: int, a: NodeIndex, b: NodeIndex)
    requires
        0 <= i < nodes.len(),
        nodes[i] == Operation::Add(a, b) || nodes[i] == Operation::Sub(a, b),
        a.0 < i,
        b.0 < i,
    ensures
        degree_of(nodes, i) == nat_max(
            degree_of(nodes, a.0 as int),
            degree_of(nodes, b.0 as int),
        ),
{
}

/// Degree composition for powers: the degree of an exponentiation node is
/// the degree of its operand multiplied by the exponent.
pub proof fn lemma_degree_exp(nodes: Seq<Operation>, i: int, a: NodeIndex, e: u64)
    requires
        0 <= i < nodes.len(),
        nodes[i] == Operation::Exp(a, e),
        a.0 < i,
    ensures
        degree_of(nodes, i) == degree_of(nodes, a.0 as int) * e,
{
}

/// The degree of a node depends only on the nodes at or before it: appending
/// nodes to the graph never changes the degree of an existing node.
pub proof fn lemma_degree_prefix(nodes: Seq<Operation>, longer: Seq<Operation>, i: int)
    requires
        0 <= i < nodes.len(),
        nodes.len() <= longer.len(),
        forall|j: int| 0 <= j < nodes.len() ==> nodes[j] == longer[j],
    ensures
        degree_of(longer, i) == degree_of(nodes, i),
    decreases i,
{
    match nodes[i] {
        Operation::Add(a, b) => {
            if a.0 < i && b.0 < i {
                lemma_degree_prefix(nodes, longer, a.0 as int);
                lemma_degree_prefix(nodes, longer, b.0 as int);
            }
        },
        Operation::Sub(a, b) => {
            if a.0 < i && b.0 < i {
                lemma_degree_prefix(nodes, longer, a.0 as int);
                lemma_degree_prefix(nodes, longer, b.0 as int);
            }
        },
        Operation::Mul(a, b) => {
            if a.0 < i && b.0 < i {
                lemma_degree_prefix(nodes, longer, a.0 as int);
                lemma_degree_prefix(nodes, longer, b.0 as int);
            }
        },
        Operation::Exp(a, _) => {
            if a.0 < i {
                lemma_degree_prefix(nodes, longer, a.0 as int);
            }
        },
        _ => {},
    }
}

} // verus!
