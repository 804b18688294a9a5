//! The symbol table: all declared identifiers with their type metadata, name
//! resolution, and validation of indexed accesses against declared sizes.

use vstd::prelude::*;

use crate::ast::{MatrixAccess, NamedTraceAccess, VariableType, VectorAccess};
use crate::errors::SemanticError;

verus! {

/// Identifies one of the execution-trace segments; segment 0 is the main
/// trace, segments >= 1 are auxiliary traces.
pub type TraceSegment = u8;

/// The value of a declared named constant.
#[derive(Debug)]
pub enum ConstantType {
    Scalar(u64),
    Vector(Vec<u64>),
    Matrix(Vec<Vec<u64>>),
}

/// A group of trace columns declared under one name: `size` consecutive
/// columns of segment `trace_segment`, starting at column `offset`.
#[derive(Clone, Copy, Debug, PartialEq, Eq, Structural)]
pub struct TraceColumns {
    pub trace_segment: TraceSegment,
    pub offset: usize,
    pub size: usize,
}

impl TraceColumns {
    pub fn new(trace_segment: TraceSegment, offset: usize, size: usize) -> (r: Self)
        ensures
            r == (TraceColumns { trace_segment, offset, size }),
    {
        Self { trace_segment, offset, size }
    }

    pub fn size(&self) -> (r: usize)
        ensures
            r == self.size,
    {
        self.size
    }
}

/// The declared type of a symbol.
#[derive(Debug)]
pub enum SymbolType {
    /// A named compile-time constant.
    Constant(ConstantType),
    /// A public input vector of the given size.
    PublicInput(usize),
    /// A periodic column: its index among the periodic columns and its cycle
    /// length.
    PeriodicColumn(usize, usize),
    /// A binding over a range of the random values: offset and size.
    RandomValuesBinding(usize, usize),
    /// A named group of trace columns.
    TraceColumns(TraceColumns),
    /// A variable bound in a constraints section.
    Variable(VariableType),
}

/// A declared identifier together with its type.
#[derive(Debug)]
pub struct Symbol {
    pub name: String,
    pub symbol_type: SymbolType,
}

impl Symbol {
    pub fn name(&self) -> (r: &String)
        ensures
            r == &self.name,
    {
        &self.name
    }

    pub fn symbol_type(&self) -> (r: &SymbolType)
        ensures
            r == &self.symbol_type,
    {
        &self.symbol_type
    }
}

/// The position of the first symbol named `name`, or `syms.len()` if no
/// symbol carries that name.
pub open spec fn find_idx(syms: Seq<Symbol>, name: Seq<char>) -> int
    decreases syms.len(),
{
    if syms.len() == 0 {
        0
    } else if syms[0].name@ == name {
        0
    } else {
        1 + find_idx(syms.drop_first(), name)
    }
}

/// Whether some symbol in `syms` is named `name`.
pub open spec fn has_name(syms: Seq<Symbol>, name: Seq<char>) -> bool {
    find_idx(syms, name) < syms.len()
}

/// The type of the first symbol named `name`; meaningful only when
/// `has_name` holds.
pub open spec fn find_sym(syms: Seq<Symbol>, name: Seq<char>) -> SymbolType {
    syms[find_idx(syms, name)].symbol_type
}

pub proof fn lemma_find_idx_bounds(syms: Seq<Symbol>, name: Seq<char>)
    ensures
        0 <= find_idx(syms, name) <= syms.len(),
        find_idx(syms, name) < syms.len() ==> syms[find_idx(syms, name)].name@ == name,
        forall|j: int| 0 <= j < find_idx(syms, name) ==> syms[j].name@ != name,
    decreases syms.len(),
{
    if syms.len() != 0 && syms[0].name@ != name {
        lemma_find_idx_bounds(syms.drop_first(), name);
        assert forall|j: int| 0 <= j < find_idx(syms, name) implies syms[j].name@ != name by {
            if j > 0 {
                assert(syms.drop_first()[j - 1] == syms[j]);
            }
        }
    }
}

/// If position `i` holds `name` and no earlier position does, then `i` is
/// where `find_idx` points.
pub proof fn lemma_find_idx_first(syms: Seq<Symbol>, name: Seq<char>, i: int)
    requires
        0 <= i < syms.len(),
        syms[i].name@ == name,
        forall|j: int| 0 <= j < i ==> syms[j].name@ != name,
    ensures
        find_idx(syms, name) == i,
    decreases syms.len(),
{
    if i > 0 {
        lemma_find_idx_first(syms.drop_first(), name, i - 1);
    }
}

/// Whether the symbol, if it declares trace columns, stays within the first
/// `num_trace_segments` trace segments.
pub open spec fn segment_within(s: Symbol, num_trace_segments: int) -> bool {
    match s.symbol_type {
        SymbolType::TraceColumns(tc) => (tc.trace_segment as int) < num_trace_segments,
        _ => true,
    }
}

/// Whether every row of a matrix has the length of its first row.
pub open spec fn rows_rect<T>(m: Seq<Vec<T>>) -> bool {
    forall|i: int| 0 <= i < m.len() ==> (#[trigger] m[i])@.len() == m[0]@.len()
}

/// Whether a symbol's declared shape is acceptable: matrices must be
/// rectangular, so that element accesses validated against the first row are
/// meaningful for every row.
pub open spec fn shape_ok(ty: SymbolType) -> bool {
    match ty {
        SymbolType::Constant(ConstantType::Matrix(m)) => rows_rect(m@),
        SymbolType::Variable(VariableType::Matrix(m)) => rows_rect(m@),
        _ => true,
    }
}

/// Whether a trace-column group stays within the address space: the column
/// past its last one must still be representable.
pub open spec fn trace_offset_ok(ty: SymbolType) -> bool {
    match ty {
        SymbolType::TraceColumns(tc) => tc.offset + tc.size <= usize::MAX,
        _ => true,
    }
}

/// Checks that every row of `m` has the length of the first.
fn rows_rectangular<T>(m: &Vec<Vec<T>>) -> (r: bool)
    ensures
        r == rows_rect(m@),
{
    let n = m.len();
    if n == 0 {
        return true;
    }
    let width = m[0].len();
    let mut i: usize = 1;
    while i < n
        invariant
            1 <= i <= n,
            n == m@.len(),
            width == m@[0]@.len(),
            forall|j: int| 0 <= j < i ==> (#[trigger] m@[j])@.len() == width,
        decreases n - i,
    {
        if m[i].len() != width {
            return false;
        }
        i += 1;
    }
    true
}

/// All declared identifiers with their type and scope metadata, plus the
/// configuration the constraint builders check against: how many trace
/// segments have been declared and how many trailing rows are exempt from
/// transition-constraint enforcement.
#[derive(Debug)]
pub struct SymbolTable {
    symbols: Vec<Symbol>,
    num_trace_segments: usize,
    num_transition_exemptions: usize,
}

impl SymbolTable {
    /// The declared symbols, in declaration order.
    pub closed spec fn symbols(self) -> Seq<Symbol> {
        self.symbols@
    }

    pub closed spec fn spec_num_trace_segments(self) -> int {
        self.num_trace_segments as int
    }

    pub closed spec fn spec_num_transition_exemptions(self) -> int {
        self.num_transition_exemptions as int
    }

    /// Well-formedness: declared names are unique, every declared trace
    /// segment is within the tracked segment count, declared matrices are
    /// rectangular, and trace-column groups stay within the address space.
    pub open spec fn wf(self) -> bool {
        &&& forall|i: int, j: int|
            0 <= i < j < self.symbols().len() ==> self.symbols()[i].name@
                != self.symbols()[j].name@
        &&& forall|i: int|
            0 <= i < self.symbols().len() ==> segment_within(
                #[trigger] self.symbols()[i],
                self.spec_num_trace_segments(),
            )
        &&& forall|i: int|
            0 <= i < self.symbols().len() ==> shape_ok((#[trigger] self.symbols()[i]).symbol_type)
                && trace_offset_ok(self.symbols()[i].symbol_type)
    }

    /// Creates an empty table. Trace segments come into existence as trace
    /// columns are declared for them.
    pub fn new(num_transition_exemptions: usize) -> (r: Self)
        ensures
            r.wf(),
            r.symbols() == Seq::<Symbol>::empty(),
            r.spec_num_trace_segments() == 0,
            r.spec_num_transition_exemptions() == num_transition_exemptions,
    {
        Self { symbols: Vec::new(), num_trace_segments: 0, num_transition_exemptions }
    }

    /// The number of trace segments for which columns have been declared.
    pub fn num_trace_segments(&self) -> (r: usize)
        ensures
            r == self.spec_num_trace_segments(),
    {
        self.num_trace_segments
    }

    /// The configured transition-exemption count: the largest row offset a
    /// transition constraint may reach.
    pub fn num_transition_exemptions(&self) -> (r: usize)
        ensures
            r == self.spec_num_transition_exemptions(),
    {
        self.num_transition_exemptions
    }

    /// The position the given name resolves to, if declared.
    fn find(&self, name: &String) -> (r: usize)
        ensures
            r == find_idx(self.symbols(), name@),
    {
        proof {
            lemma_find_idx_bounds(self.symbols@, name@);
        }
        let n = self.symbols.len();
        let mut i: usize = 0;
        while i < n
            invariant
                0 <= i <= n,
                n == self.symbols@.len(),
                forall|j: int| 0 <= j < i ==> self.symbols@[j].name@ != name@,
            decreases n - i,
        {
            if self.symbols[i].name == *name {
                proof {
                    lemma_find_idx_first(self.symbols@, name@, i as int);
                }
                return i;
            }
            i += 1;
        }
        proof {
            lemma_find_idx_bounds(self.symbols@, name@);
            if find_idx(self.symbols@, name@) < n as int {
                assert(self.symbols@[find_idx(self.symbols@, name@)].name@ == name@);
                assert(false);
            }
        }
        n
    }

    /// Declares `name` with the given type. Fails with `DuplicateIdentifier`
    /// if the name is already declared and with `DimensionMismatch` if a
    /// declared matrix is ragged, leaving the table unchanged; otherwise
    /// appends the symbol and, for trace columns, widens the tracked segment
    /// count to cover the declared segment.
    pub fn declare(&mut self, name: String, symbol_type: SymbolType) -> (r: Result<
        (),
        SemanticError,
    >)
        requires
            old(self).wf(),
            trace_offset_ok(symbol_type),
        ensures
            final(self).wf(),
            r is Err <==> has_name(old(self).symbols(), name@) || !shape_ok(symbol_type),
            r is Err ==> *final(self) == *old(self),
            r is Err ==> r == Err::<(), SemanticError>(
                if has_name(old(self).symbols(), name@) {
                    SemanticError::DuplicateIdentifier
                } else {
                    SemanticError::DimensionMismatch
                },
            ),
            r is Ok ==> final(self).symbols() == old(self).symbols().push(
                Symbol { name: name, symbol_type: symbol_type },
            ),
            r is Ok ==> final(self).spec_num_trace_segments() == match symbol_type {
                SymbolType::TraceColumns(tc) => if old(self).spec_num_trace_segments() < tc.trace_segment
                    + 1 {
                    tc.trace_segment + 1
                } else {
                    old(self).spec_num_trace_segments()
                },
                _ => old(self).spec_num_trace_segments(),
            },
            final(self).spec_num_transition_exemptions() == old(
                self,
            ).spec_num_transition_exemptions(),
    {
        let idx = self.find(&name);
        proof {
            lemma_find_idx_bounds(self.symbols@, name@);
        }
        if idx < self.symbols.len() {
            return Err(SemanticError::DuplicateIdentifier);
        }
        let shape_fine: bool = match &symbol_type {
            SymbolType::Constant(ConstantType::Matrix(m)) => rows_rectangular(m),
            SymbolType::Variable(VariableType::Matrix(m)) => rows_rectangular(m),
            _ => true,
        };
        if !shape_fine {
            return Err(SemanticError::DimensionMismatch);
        }
        if let SymbolType::TraceColumns(tc) = &symbol_type {
            let seg_count = (tc.trace_segment as usize) + 1;
            if self.num_trace_segments < seg_count {
                self.num_trace_segments = seg_count;
            }
        }
        let ghost old_syms = self.symbols@;
        self.symbols.push(Symbol { name, symbol_type });
        proof {
            assert forall|i: int, j: int|
                0 <= i < j < self.symbols@.len() implies self.symbols@[i].name@
                != self.symbols@[j].name@ by {
                if j == self.symbols@.len() - 1 {
                    lemma_find_idx_bounds(old_syms, self.symbols@[j].name@);
                    if old_syms[i].name@ == self.symbols@[j].name@ {
                        assert(has_name(old_syms, self.symbols@[j].name@));
                    }
                }
            }
        }
        Ok(())
    }

    /// Resolves `name` to its declared symbol, or fails with
    /// `UndeclaredIdentifier`.
    pub fn resolve(&self, name: &String) -> (r: Result<&Symbol, SemanticError>)
        ensures
            r is Ok <==> has_name(self.symbols(), name@),
            r is Ok ==> *r->Ok_0 == self.symbols()[find_idx(self.symbols(), name@)],
            r is Err ==> r == Err::<&Symbol, SemanticError>(SemanticError::UndeclaredIdentifier),
    {
        let idx = self.find(name);
        proof {
            lemma_find_idx_bounds(self.symbols@, name@);
        }
        if idx < self.symbols.len() {
            Ok(&self.symbols[idx])
        } else {
            Err(SemanticError::UndeclaredIdentifier)
        }
    }

    /// Resolves `name` to its position in the table, or fails with
    /// `UndeclaredIdentifier`.
    pub fn resolve_idx(&self, name: &String) -> (r: Result<usize, SemanticError>)
        ensures
            r is Ok <==> has_name(self.symbols(), name@),
            r is Ok ==> r->Ok_0 == find_idx(self.symbols(), name@),
            r is Err ==> r == Err::<usize, SemanticError>(SemanticError::UndeclaredIdentifier),
    {
        let idx = self.find(name);
        proof {
            lemma_find_idx_bounds(self.symbols@, name@);
        }
        if idx < self.symbols.len() {
            Ok(idx)
        } else {
            Err(SemanticError::UndeclaredIdentifier)
        }
    }

    /// How many identifiers are declared.
    pub fn len(&self) -> (r: usize)
        ensures
            r == self.symbols().len(),
    {
        self.symbols.len()
    }

    /// The symbol at a resolved position.
    pub fn symbol_at(&self, idx: usize) -> (r: &Symbol)
        requires
            idx < self.symbols().len(),
        ensures
            *r == self.symbols()[idx as int],
    {
        &self.symbols[idx]
    }
}

} // verus!
