//! The basic-block graph: abstract instructions, terminators, blocks and the
//! finished program handed to the backend.
//!
//! A block's id is its index in the program's block vector; the ids stored in
//! terminators and loop frames refer to those indices.

use vstd::prelude::*;

verus! {

/// One abstract operation against the pointer/cell memory model. Magnitudes
/// are operands, never unrolled: each operation is O(1) whatever its size.
#[derive(Clone, Copy, Debug, PartialEq, Eq, Structural)]
pub enum Inst {
    /// Advance the cell pointer by `delta` cells (no bounds check; moving the
    /// pointer outside the allocated array is an unchecked precondition of
    /// the source program).
    Move { delta: i64 },
    /// Add `delta`, truncated to the cell's eight-bit width, to the byte at
    /// the pointer; byte wraparound is the intended numeric semantic.
    Add { delta: i64 },
    /// Call the external input primitive, truncate its result to one byte,
    /// and store it at the pointer.
    Read,
    /// Load the byte at the pointer, sign-extend it to the call-convention
    /// width, and pass it to the external output primitive.
    Write,
}

/// The single terminator of a basic block.
#[derive(Clone, Copy, Debug, PartialEq, Eq, Structural)]
pub enum Term {
    /// Unconditional jump to the block `target`.
    Jump { target: usize },
    /// The loop guard: branch on the byte at the pointer, to `nonzero` if it
    /// differs from zero and to `zero` otherwise.
    Branch { nonzero: usize, zero: usize },
    /// Function return (success).
    Ret,
}

/// The three blocks of one loop construct, pushed when the loop opens and
/// popped when its closer arrives.
#[derive(Clone, Copy, Debug, PartialEq, Eq, Structural)]
pub struct LoopFrame {
    /// The guard block: re-evaluated on every iteration.
    pub start: usize,
    /// The block the guard enters while the cell is nonzero.
    pub body: usize,
    /// The block control falls into once the cell is zero.
    pub end: usize,
}

/// A straight-line run of instructions ending, once the block is wired up,
/// in exactly one terminator. `term` is `None` only while the block is still
/// receiving instructions during translation.
pub struct BasicBlock {
    pub insts: Vec<Inst>,
    pub term: Option<Term>,
}

/// Mathematical model of a basic block.
pub ghost struct BlockModel {
    pub insts: Seq<Inst>,
    pub term: Option<Term>,
}

impl View for BasicBlock {
    type V = BlockModel;

    open spec fn view(&self) -> BlockModel {
        BlockModel { insts: self.insts@, term: self.term }
    }
}

/// The finished graph: the entry block id and every block, immutable once
/// the pass completes. This is the sole artifact handed to the backend.
pub struct Program {
    pub entry: usize,
    pub blocks: Vec<BasicBlock>,
}

/// Mathematical model of a finished program.
pub ghost struct ProgramModel {
    pub entry: usize,
    pub blocks: Seq<BlockModel>,
}

impl View for Program {
    type V = ProgramModel;

    open spec fn view(&self) -> ProgramModel {
        ProgramModel { entry: self.entry, blocks: self.blocks@.map_values(|b: BasicBlock| b@) }
    }
}

/// A terminator's targets lie inside a program of `n` blocks.
pub open spec fn term_wf(t: Term, n: int) -> bool {
    match t {
        Term::Jump { target } => target < n,
        Term::Branch { nonzero, zero } => nonzero < n && zero < n,
        Term::Ret => true,
    }
}

/// A block is wired up: it has exactly one terminator, whose targets lie
/// inside a program of `n` blocks.
pub open spec fn block_wf(b: BlockModel, n: int) -> bool {
    match b.term {
        Some(t) => term_wf(t, n),
        None => false,
    }
}

/// Structural correctness of a finished program: a valid entry block and
/// every block wired up with in-range targets.
pub open spec fn program_wf(m: ProgramModel) -> bool {
    &&& m.blocks.len() > 0
    &&& m.entry < m.blocks.len()
    &&& forall|i: int| 0 <= i < m.blocks.len() ==> block_wf(#[trigger] m.blocks[i], m.blocks.len() as int)
}

} // verus!
