//! The translator proper: the loop frame stack, the block-graph builder and
//! the instruction emitter, driven once over the token stream.
//!
//! The whole pass is modelled by the spec functions [`step`], [`run`] and
//! [`finalize`]: one transition per token, starting from a single empty entry
//! block, ending with the cursor block terminated by a function return. The
//! executable [`GraphBuilder`] and [`compile`] are proved to produce exactly
//! that result.

use vstd::prelude::*;

use crate::graph::{BasicBlock, BlockModel, Inst, LoopFrame, Program, ProgramModel, Term};
use crate::token::{MAX_SOURCE_LEN, Token, lemma_tokens_len_le, scan, tokens};

verus! {

/// The fatal errors of a pass. Either one aborts the whole translation: no
/// partial program is ever handed out.
#[derive(Clone, Copy, Debug, PartialEq, Eq, Structural)]
pub enum CompileError {
    /// A `]` arrived while no loop was open.
    UnmatchedCloseBracket,
    /// End of input arrived while at least one loop was still open.
    UnmatchedOpenBracket,
}

/// Mathematical model of the translation state between two tokens: the
/// blocks built so far, the cursor (the id of the block currently receiving
/// instructions) and the stack of open loop frames, most recent last.
#[verifier::ext_equal]
pub ghost struct TransState {
    pub blocks: Seq<BlockModel>,
    pub cursor: usize,
    pub stack: Seq<LoopFrame>,
}

/// The state before the first token: one empty entry block, the cursor on
/// it, no loop open.
pub open spec fn init_state() -> TransState {
    TransState {
        blocks: seq![BlockModel { insts: Seq::empty(), term: None }],
        cursor: 0,
        stack: Seq::empty(),
    }
}

/// Append one instruction to the block at the cursor.
pub open spec fn emit_at_cursor(st: TransState, inst: Inst) -> TransState {
    TransState {
        blocks: st.blocks.update(
            st.cursor as int,
            BlockModel {
                insts: st.blocks[st.cursor as int].insts.push(inst),
                term: st.blocks[st.cursor as int].term,
            },
        ),
        cursor: st.cursor,
        stack: st.stack,
    }
}

/// Give the block at the cursor its terminator.
pub open spec fn terminate_at_cursor(st: TransState, t: Term) -> TransState {
    TransState {
        blocks: st.blocks.update(
            st.cursor as int,
            BlockModel { insts: st.blocks[st.cursor as int].insts, term: Some(t) },
        ),
        cursor: st.cursor,
        stack: st.stack,
    }
}

/// Open a loop: allocate the start (guard), body and end blocks, jump from
/// the cursor block into the guard, wire the guard's branch, push the new
/// frame, and continue emitting into the body.
pub open spec fn open_loop(st: TransState) -> TransState {
    let n = st.blocks.len();
    let start = n as usize;
    let body = (n + 1) as usize;
    let end = (n + 2) as usize;
    let jumped = terminate_at_cursor(st, Term::Jump { target: start });
    TransState {
        blocks: jumped.blocks.push(
            BlockModel { insts: Seq::empty(), term: Some(Term::Branch { nonzero: body, zero: end }) },
        ).push(BlockModel { insts: Seq::empty(), term: None }).push(
            BlockModel { insts: Seq::empty(), term: None },
        ),
        cursor: body,
        stack: st.stack.push(LoopFrame { start, body, end }),
    }
}

/// Close the most recently opened loop: jump from the cursor block back to
/// that loop's guard (re-evaluating it is what makes it a loop), pop its
/// frame, and continue emitting into the frame's end block.
pub open spec fn close_loop(st: TransState) -> TransState
    recommends
        st.stack.len() > 0,
{
    let f = st.stack.last();
    let jumped = terminate_at_cursor(st, Term::Jump { target: f.start });
    TransState { blocks: jumped.blocks, cursor: f.end, stack: st.stack.drop_last() }
}

/// One token's effect on the translation state. Bracket matching is purely
/// positional: a `LoopEnd` always closes the frame pushed most recently, and
/// fails only when no frame is open.
pub open spec fn step(st: TransState, t: Token) -> Result<TransState, CompileError> {
    match t {
        Token::Move { magnitude } => Ok(emit_at_cursor(st, Inst::Move { delta: magnitude })),
        Token::Add { magnitude } => Ok(emit_at_cursor(st, Inst::Add { delta: magnitude })),
        Token::Read => Ok(emit_at_cursor(st, Inst::Read)),
        Token::Write => Ok(emit_at_cursor(st, Inst::Write)),
        Token::LoopStart => Ok(open_loop(st)),
        Token::LoopEnd => if st.stack.len() == 0 {
            Err(CompileError::UnmatchedCloseBracket)
        } else {
            Ok(close_loop(st))
        },
    }
}

/// The translation of a whole token sequence, stopping at the first error.
pub open spec fn run(st: TransState, ts: Seq<Token>) -> Result<TransState, CompileError>
    decreases ts.len(),
{
    if ts.len() == 0 {
        Ok(st)
    } else {
        match step(st, ts[0]) {
            Ok(st1) => run(st1, ts.skip(1)),
            Err(e) => Err(e),
        }
    }
}

/// End of input: every loop must have been closed; the cursor block is
/// terminated with a function return and the graph, entered at block 0,
/// is final.
pub open spec fn finalize(st: TransState) -> Result<ProgramModel, CompileError> {
    if st.stack.len() == 0 {
        Ok(ProgramModel { entry: 0, blocks: terminate_at_cursor(st, Term::Ret).blocks })
    } else {
        Err(CompileError::UnmatchedOpenBracket)
    }
}

/// What compiling a source text yields: the whole pass, from the raw bytes
/// to the finished program or the first error.
pub open spec fn spec_compile(s: Seq<u8>) -> Result<ProgramModel, CompileError> {
    match run(init_state(), tokens(s)) {
        Ok(st) => finalize(st),
        Err(e) => Err(e),
    }
}

/// Number of `LoopStart` tokens in `ts`.
pub open spec fn open_count(ts: Seq<Token>) -> nat
    decreases ts.len(),
{
    if ts.len() == 0 {
        0
    } else {
        (if ts[0] is LoopStart {
            1nat
        } else {
            0nat
        }) + open_count(ts.skip(1))
    }
}

/// Number of `LoopEnd` tokens in `ts`.
pub open spec fn close_count(ts: Seq<Token>) -> nat
    decreases ts.len(),
{
    if ts.len() == 0 {
        0
    } else {
        (if ts[0] is LoopEnd {
            1nat
        } else {
            0nat
        }) + close_count(ts.skip(1))
    }
}

/// Processing `ts` with `d` loops already open never meets a `LoopEnd` with
/// no loop open.
pub open spec fn close_safe(ts: Seq<Token>, d: int) -> bool
    decreases ts.len(),
{
    if ts.len() == 0 {
        true
    } else {
        match ts[0] {
            Token::LoopEnd => d > 0 && close_safe(ts.skip(1), d - 1),
            Token::LoopStart => close_safe(ts.skip(1), d + 1),
            _ => close_safe(ts.skip(1), d),
        }
    }
}

/// A token stream is well-nested when no closer lacks an open loop and every
/// opened loop is closed by the end of input.
pub open spec fn well_nested(ts: Seq<Token>) -> bool {
    close_safe(ts, 0) && open_count(ts) == close_count(ts)
}

/// The cursor and every open frame's continuation lie inside the graph; the
/// builder relies on this to index its block vector.
pub open spec fn st_wf(st: TransState) -> bool {
    &&& st.cursor < st.blocks.len()
    &&& forall|j: int|
        0 <= j < st.stack.len() ==> (#[trigger] st.stack[j]).end < st.blocks.len()
}

/// Splitting a token sequence splits its translation: the second half starts
/// from the state the first half reached, and an error in the first half is
/// the error of the whole.
pub proof fn lemma_run_app(st: TransState, ts1: Seq<Token>, ts2: Seq<Token>)
    ensures
        run(st, ts1 + ts2) == (match run(st, ts1) {
            Ok(st1) => run(st1, ts2),
            Err(e) => Err(e),
        }),
    decreases ts1.len(),
{
    if ts1.len() == 0 {
        assert(ts1 + ts2 =~= ts2);
    } else {
        assert((ts1 + ts2)[0] == ts1[0]);
        assert((ts1 + ts2).skip(1) =~= ts1.skip(1) + ts2);
        match step(st, ts1[0]) {
            Ok(st1) => {
                lemma_run_app(st1, ts1.skip(1), ts2);
            },
            Err(_) => {
                assert((ts1 + ts2).len() != 0);
            },
        }
    }
}

/// Translating a single token is a single step.
pub proof fn lemma_run_one(st: TransState, t: Token)
    ensures
        run(st, seq![t]) == (match step(st, t) {
            Ok(st1) => Ok::<TransState, CompileError>(st1),
            Err(e) => Err(e),
        }),
{
    assert(seq![t][0] == t);
    assert(seq![t].skip(1) =~= Seq::<Token>::empty());
    match step(st, t) {
        Ok(st1) => {
            assert(run(st1, Seq::<Token>::empty()) == Ok::<TransState, CompileError>(st1));
        },
        Err(_) => {},
    }
}

/// The block-graph builder: exclusive owner of the growing graph, the
/// cursor and the loop frame stack, threaded by unique reference through
/// the single pass over the tokens.
pub struct GraphBuilder {
    pub blocks: Vec<BasicBlock>,
    pub cursor: usize,
    pub stack: Vec<LoopFrame>,
}

impl View for GraphBuilder {
    type V = TransState;

    open spec fn view(&self) -> TransState {
        TransState {
            blocks: self.blocks@.map_values(|b: BasicBlock| b@),
            cursor: self.cursor,
            stack: self.stack@,
        }
    }
}

impl GraphBuilder {
    /// A fresh graph: one empty entry block, the cursor on it, no loop open.
    pub fn new() -> (b: GraphBuilder)
        ensures
            b@ == init_state(),
            st_wf(b@),
    {
        let mut blocks: Vec<BasicBlock> = Vec::new();
        blocks.push(BasicBlock { insts: Vec::new(), term: None });
        let b = GraphBuilder { blocks, cursor: 0, stack: Vec::new() };
        proof {
            assert(b@ =~~= init_state());
        }
        b
    }

    /// Append one instruction to the block at the cursor.
    pub fn emit(&mut self, inst: Inst)
        requires
            st_wf(old(self)@),
        ensures
            final(self)@ == emit_at_cursor(old(self)@, inst),
            st_wf(final(self)@),
    {
        let cursor: usize = self.cursor;
        let blk = &mut self.blocks[cursor];
        blk.insts.push(inst);
        proof {
            assert(self@ =~~= emit_at_cursor(old(self)@, inst));
        }
    }

    /// `[`: allocate the loop's start, body and end blocks, wire the guard,
    /// push the new frame and continue emitting into the body.
    pub fn loop_start(&mut self)
        requires
            st_wf(old(self)@),
            old(self)@.blocks.len() + 2 <= usize::MAX,
        ensures
            final(self)@ == open_loop(old(self)@),
            st_wf(final(self)@),
    {
        let n: usize = self.blocks.len();
        let start: usize = n;
        let body: usize = n + 1;
        let end: usize = n + 2;
        let cursor: usize = self.cursor;
        let blk = &mut self.blocks[cursor];
        blk.term = Some(Term::Jump { target: start });
        self.blocks.push(
            BasicBlock { insts: Vec::new(), term: Some(Term::Branch { nonzero: body, zero: end }) },
        );
        self.blocks.push(BasicBlock { insts: Vec::new(), term: None });
        self.blocks.push(BasicBlock { insts: Vec::new(), term: None });
        self.stack.push(LoopFrame { start, body, end });
        self.cursor = body;
        proof {
            assert(self@ =~~= open_loop(old(self)@));
        }
    }

    /// `]`: close the most recently opened loop, or fail when none is open.
    pub fn loop_end(&mut self) -> (r: Result<(), CompileError>)
        requires
            st_wf(old(self)@),
        ensures
            old(self)@.stack.len() == 0 ==> r == Err::<(), CompileError>(
                CompileError::UnmatchedCloseBracket,
            ) && final(self)@ == old(self)@,
            old(self)@.stack.len() > 0 ==> r == Ok::<(), CompileError>(()) && final(self)@ == close_loop(
                old(self)@,
            ) && st_wf(final(self)@),
    {
        match self.stack.pop() {
            Some(f) => {
                let cursor: usize = self.cursor;
                let blk = &mut self.blocks[cursor];
                blk.term = Some(Term::Jump { target: f.start });
                self.cursor = f.end;
                proof {
                    assert(self@ =~~= close_loop(old(self)@));
                }
                Ok(())
            },
            None => Err(CompileError::UnmatchedCloseBracket),
        }
    }

    /// End of input: fails while loops are still open; otherwise terminates
    /// the cursor block with a function return and hands out the finished
    /// program.
    pub fn finish(self) -> (r: Result<Program, CompileError>)
        requires
            st_wf(self@),
        ensures
            match r {
                Ok(p) => finalize(self@) == Ok::<ProgramModel, CompileError>(p@),
                Err(e) => finalize(self@) == Err::<ProgramModel, CompileError>(e),
            },
    {
        let mut this = self;
        if this.stack.is_empty() {
            let cursor: usize = this.cursor;
            let blk = &mut this.blocks[cursor];
            blk.term = Some(Term::Ret);
            let p = Program { entry: 0, blocks: this.blocks };
            proof {
                assert(p@.blocks =~~= terminate_at_cursor(self@, Term::Ret).blocks);
            }
            Ok(p)
        } else {
            Err(CompileError::UnmatchedOpenBracket)
        }
    }
}

/// The whole pass over one source text: scan it, build the graph token by
/// token, and finalize. The result is exactly [`spec_compile`] of the source.
pub fn compile(src: &[u8]) -> (r: Result<Program, CompileError>)
    requires
        src@.len() <= MAX_SOURCE_LEN,
    ensures
        match r {
            Ok(p) => spec_compile(src@) == Ok::<ProgramModel, CompileError>(p@)
                && crate::graph::program_wf(p@),
            Err(e) => spec_compile(src@) == Err::<ProgramModel, CompileError>(e),
        },
        (r matches Ok(_)) <==> well_nested(tokens(src@)),
        (r == Err::<Program, CompileError>(CompileError::UnmatchedCloseBracket)) <==> !close_safe(
            tokens(src@),
            0,
        ),
        (r == Err::<Program, CompileError>(CompileError::UnmatchedOpenBracket)) <==> (close_safe(
            tokens(src@),
            0,
        ) && open_count(tokens(src@)) != close_count(tokens(src@))),
        r matches Ok(p) ==> crate::props::ops_in_blocks(p@.blocks) == crate::token::directional_runs(
            src@,
        ),
{
    let toks = scan(src);
    let mut b = GraphBuilder::new();
    let mut i: usize = 0;
    proof {
        assert(toks@.take(0) =~= Seq::<Token>::empty());
        lemma_tokens_len_le(src@);
        crate::props::lemma_balanced_brackets(src@);
        crate::props::lemma_compile_structure(src@);
        crate::props::lemma_one_op_per_run(src@);
    }
    while i < toks.len()
        invariant
            toks@ == tokens(src@),
            toks@.len() <= MAX_SOURCE_LEN,
            i <= toks@.len(),
            st_wf(b@),
            run(init_state(), toks@.take(i as int)) == Ok::<TransState, CompileError>(b@),
            b@.blocks.len() <= 1 + 3 * i,
        decreases toks@.len() - i,
    {
        let t = toks[i];
        proof {
            assert(toks@.take(i as int + 1) =~= toks@.take(i as int) + seq![t]);
            lemma_run_app(init_state(), toks@.take(i as int), seq![t]);
            lemma_run_one(b@, t);
        }
        match t {
            Token::Move { magnitude } => b.emit(Inst::Move { delta: magnitude }),
            Token::Add { magnitude } => b.emit(Inst::Add { delta: magnitude }),
            Token::Read => b.emit(Inst::Read),
            Token::Write => b.emit(Inst::Write),
            Token::LoopStart => b.loop_start(),
            Token::LoopEnd => {
                match b.loop_end() {
                    Ok(()) => (),
                    Err(e) => {
                        proof {
                            crate::props::lemma_balanced_brackets(src@);
                            assert(toks@ =~= toks@.take(i as int) + toks@.skip(i as int));
                            lemma_run_app(
                                init_state(),
                                toks@.take(i as int),
                                toks@.skip(i as int),
                            );
                            assert(toks@.skip(i as int)[0] == t);
                            assert(toks@.skip(i as int).len() != 0);
                        }
                        return Err(e);
                    },
                }
            },
        }
        i = i + 1;
    }
    proof {
        assert(toks@.take(toks@.len() as int) =~= toks@);
    }
    b.finish()
}

} // verus!
