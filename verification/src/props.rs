//! The translator's global guarantees, proved over the spec-level pass:
//! bracket matching succeeds exactly on well-nested token streams, the
//! emitter produces one operation per maximal directional run, and every
//! finished program is a structurally correct block graph.

use vstd::prelude::*;

use crate::graph::{BlockModel, LoopFrame, ProgramModel, Term, block_wf, program_wf, term_wf};
use crate::token::{
    MAX_SOURCE_LEN, Token, directional_runs, lemma_one_token_per_run, lemma_tokens_len_le,
    move_add_tokens, tokens,
};
use crate::translate::{
    CompileError, TransState, close_count, close_safe, init_state, open_count, run, spec_compile,
    st_wf, step, terminate_at_cursor, well_nested,
};

verus! {

/// A step never touches the frame stack except through `[` and `]`: the
/// whole pass fails with `UnmatchedCloseBracket` exactly when some prefix
/// closes more loops than were open, and otherwise ends with one open frame
/// per unmatched opener.
proof fn lemma_run_brackets(st: TransState, ts: Seq<Token>)
    ensures
        (run(st, ts) matches Ok(_)) <==> close_safe(ts, st.stack.len() as int),
        !close_safe(ts, st.stack.len() as int) ==> run(st, ts) == Err::<
            TransState,
            CompileError,
        >(CompileError::UnmatchedCloseBracket),
        run(st, ts) matches Ok(st2) ==> st2.stack.len() == st.stack.len() + open_count(ts)
            - close_count(ts),
    decreases ts.len(),
{
    if ts.len() != 0 {
        let t = ts[0];
        match step(st, t) {
            Ok(st1) => {
                lemma_run_brackets(st1, ts.skip(1));
            },
            Err(_) => {},
        }
    }
}

/// For all sources: translation succeeds exactly on well-nested token
/// streams — as many `LoopStart` as `LoopEnd` tokens and no prefix with an
/// excess closer — and then the loop frame stack is empty at end of input.
/// A closer with no open loop yields `UnmatchedCloseBracket`; loops still
/// open at end of input yield `UnmatchedOpenBracket`.
pub proof fn lemma_balanced_brackets(s: Seq<u8>)
    ensures
        (spec_compile(s) matches Ok(_)) <==> well_nested(tokens(s)),
        (spec_compile(s) == Err::<ProgramModel, CompileError>(CompileError::UnmatchedCloseBracket))
            <==> !close_safe(tokens(s), 0),
        (spec_compile(s) == Err::<ProgramModel, CompileError>(CompileError::UnmatchedOpenBracket))
            <==> (close_safe(tokens(s), 0) && open_count(tokens(s)) != close_count(tokens(s))),
        well_nested(tokens(s)) ==> (run(init_state(), tokens(s)) matches Ok(st)
            && st.stack.len() == 0),
{
    lemma_run_brackets(init_state(), tokens(s));
}

/// Number of `Move`/`Add` operations in an instruction sequence.
pub open spec fn move_add_insts(is: Seq<crate::graph::Inst>) -> nat
    decreases is.len(),
{
    if is.len() == 0 {
        0
    } else {
        move_add_insts(is.drop_last()) + (if is.last() is Move || is.last() is Add {
            1nat
        } else {
            0nat
        })
    }
}

/// Number of `Move`/`Add` operations in one block.
pub open spec fn ops_in_block(b: BlockModel) -> nat {
    move_add_insts(b.insts)
}

/// Number of `Move`/`Add` operations in a whole block sequence.
pub open spec fn ops_in_blocks(bs: Seq<BlockModel>) -> nat
    decreases bs.len(),
{
    if bs.len() == 0 {
        0
    } else {
        ops_in_blocks(bs.drop_last()) + ops_in_block(bs.last())
    }
}

proof fn lemma_ops_push_inst(is: Seq<crate::graph::Inst>, x: crate::graph::Inst)
    ensures
        move_add_insts(is.push(x)) == move_add_insts(is) + (if x is Move || x is Add {
            1nat
        } else {
            0nat
        }),
{
    assert(is.push(x).drop_last() =~= is);
    assert(is.push(x).last() == x);
}

proof fn lemma_ops_blocks_push(bs: Seq<BlockModel>, b: BlockModel)
    ensures
        ops_in_blocks(bs.push(b)) == ops_in_blocks(bs) + ops_in_block(b),
{
    assert(bs.push(b).drop_last() =~= bs);
    assert(bs.push(b).last() == b);
}

proof fn lemma_ops_blocks_update(bs: Seq<BlockModel>, i: int, b: BlockModel)
    requires
        0 <= i < bs.len(),
    ensures
        ops_in_blocks(bs.update(i, b)) + ops_in_block(bs[i]) == ops_in_blocks(bs) + ops_in_block(
            b,
        ),
    decreases bs.len(),
{
    let n = bs.len() as int;
    if i == n - 1 {
        assert(bs.update(i, b).drop_last() =~= bs.drop_last());
        assert(bs.update(i, b).last() == b);
    } else {
        assert(bs.update(i, b).drop_last() =~= bs.drop_last().update(i, b));
        assert(bs.update(i, b).last() == bs.last());
        assert(bs.drop_last()[i] == bs[i]);
        lemma_ops_blocks_update(bs.drop_last(), i, b);
    }
}

/// Along a successful run the emitter adds exactly one `Move`/`Add`
/// operation per `Move`/`Add` token, and at most three blocks per token.
proof fn lemma_run_ops(st: TransState, ts: Seq<Token>)
    requires
        st_wf(st),
        st.blocks.len() + 3 * ts.len() <= usize::MAX,
    ensures
        run(st, ts) matches Ok(st2) ==> st_wf(st2) && st2.blocks.len() <= st.blocks.len() + 3
            * ts.len() && ops_in_blocks(st2.blocks) == ops_in_blocks(st.blocks) + move_add_tokens(
            ts,
        ),
    decreases ts.len(),
{
    if ts.len() != 0 {
        let t = ts[0];
        match step(st, t) {
            Ok(st1) => {
                match t {
                    Token::Move { magnitude } => {
                        lemma_ops_blocks_update(
                            st.blocks,
                            st.cursor as int,
                            st1.blocks[st.cursor as int],
                        );
                        lemma_ops_push_inst(
                            st.blocks[st.cursor as int].insts,
                            crate::graph::Inst::Move { delta: magnitude },
                        );
                    },
                    Token::Add { magnitude } => {
                        lemma_ops_blocks_update(
                            st.blocks,
                            st.cursor as int,
                            st1.blocks[st.cursor as int],
                        );
                        lemma_ops_push_inst(
                            st.blocks[st.cursor as int].insts,
                            crate::graph::Inst::Add { delta: magnitude },
                        );
                    },
                    Token::Read => {
                        lemma_ops_blocks_update(
                            st.blocks,
                            st.cursor as int,
                            st1.blocks[st.cursor as int],
                        );
                        lemma_ops_push_inst(
                            st.blocks[st.cursor as int].insts,
                            crate::graph::Inst::Read,
                        );
                    },
                    Token::Write => {
                        lemma_ops_blocks_update(
                            st.blocks,
                            st.cursor as int,
                            st1.blocks[st.cursor as int],
                        );
                        lemma_ops_push_inst(
                            st.blocks[st.cursor as int].insts,
                            crate::graph::Inst::Write,
                        );
                    },
                    Token::LoopStart => {
                        let jumped = terminate_at_cursor(st, Term::Jump { target: st.blocks.len() as usize });
                        lemma_ops_blocks_update(
                            st.blocks,
                            st.cursor as int,
                            jumped.blocks[st.cursor as int],
                        );
                        lemma_ops_blocks_push(jumped.blocks, st1.blocks[st.blocks.len() as int]);
                        lemma_ops_blocks_push(
                            jumped.blocks.push(st1.blocks[st.blocks.len() as int]),
                            st1.blocks[st.blocks.len() as int + 1],
                        );
                        lemma_ops_blocks_push(
                            jumped.blocks.push(st1.blocks[st.blocks.len() as int]).push(
                                st1.blocks[st.blocks.len() as int + 1],
                            ),
                            st1.blocks[st.blocks.len() as int + 2],
                        );
                        assert(st1.blocks =~= jumped.blocks.push(
                            st1.blocks[st.blocks.len() as int],
                        ).push(st1.blocks[st.blocks.len() as int + 1]).push(
                            st1.blocks[st.blocks.len() as int + 2],
                        ));
                    },
                    Token::LoopEnd => {
                        lemma_ops_blocks_update(
                            st.blocks,
                            st.cursor as int,
                            st1.blocks[st.cursor as int],
                        );
                    },
                }
                lemma_run_ops(st1, ts.skip(1));
            },
            Err(_) => {},
        }
    }
}

/// One `Move`/`Add` operation per maximal directional run: the number of
/// such operations in a compiled program equals the number of maximal runs
/// of `>`/`<`/`+`/`-` in the source, never the number of characters.
pub proof fn lemma_one_op_per_run(s: Seq<u8>)
    requires
        s.len() <= MAX_SOURCE_LEN,
    ensures
        spec_compile(s) matches Ok(m) ==> ops_in_blocks(m.blocks) == directional_runs(s),
{
    lemma_tokens_len_le(s);
    lemma_one_token_per_run(s);
    let st0 = init_state();
    assert(ops_in_blocks(st0.blocks) == 0) by {
        assert(ops_in_blocks(Seq::<BlockModel>::empty()) == 0);
        assert(st0.blocks.drop_last() =~= Seq::<BlockModel>::empty());
        assert(move_add_insts(Seq::<crate::graph::Inst>::empty()) == 0);
        assert(st0.blocks.last().insts =~= Seq::<crate::graph::Inst>::empty());
        assert(ops_in_blocks(st0.blocks) == ops_in_blocks(st0.blocks.drop_last()) + ops_in_block(
            st0.blocks.last(),
        ));
    }
    lemma_run_ops(st0, tokens(s));
    match run(st0, tokens(s)) {
        Ok(st) => {
            if st.stack.len() == 0 {
                let done = terminate_at_cursor(st, Term::Ret);
                lemma_ops_blocks_update(st.blocks, st.cursor as int, done.blocks[st.cursor as int]);
            }
        },
        Err(_) => {},
    }
}

/// Block `i` is still open: it is the cursor block or the pending end block
/// of an open loop frame.
pub open spec fn open_block(st: TransState, i: int) -> bool {
    i == st.cursor || exists|j: int| 0 <= j < st.stack.len() && (#[trigger] st.stack[j]).end == i
}

/// The pass-wide structural invariant: every stored target stays inside the
/// graph, exactly the cursor block and the end blocks of open frames are
/// still unterminated, and those open positions are pairwise distinct.
pub open spec fn graph_inv(st: TransState) -> bool {
    &&& st_wf(st)
    &&& forall|j: int|
        0 <= j < st.stack.len() ==> (#[trigger] st.stack[j]).start < st.blocks.len()
    &&& forall|i: int|
        0 <= i < st.blocks.len() ==> (match (#[trigger] st.blocks[i]).term {
            Some(t) => term_wf(t, st.blocks.len() as int),
            None => open_block(st, i),
        })
    &&& st.blocks[st.cursor as int].term is None
    &&& forall|j: int|
        0 <= j < st.stack.len() ==> st.blocks[(#[trigger] st.stack[j]).end as int].term is None
    &&& forall|j: int| 0 <= j < st.stack.len() ==> (#[trigger] st.stack[j]).end != st.cursor
    &&& forall|j1: int, j2: int|
        0 <= j1 < j2 < st.stack.len() ==> (#[trigger] st.stack[j1]).end != (
        #[trigger] st.stack[j2]).end
}

/// A state with the same terminators, cursor and stack as an invariant
/// state keeps the invariant.
proof fn lemma_inv_same_shape(st: TransState, st2: TransState)
    requires
        graph_inv(st),
        st2.blocks.len() == st.blocks.len(),
        forall|i: int|
            0 <= i < st.blocks.len() ==> (#[trigger] st2.blocks[i]).term == st.blocks[i].term,
        st2.cursor == st.cursor,
        st2.stack == st.stack,
    ensures
        graph_inv(st2),
{
    assert forall|i: int| 0 <= i < st2.blocks.len() implies (match (
    #[trigger] st2.blocks[i]).term {
        Some(t) => term_wf(t, st2.blocks.len() as int),
        None => open_block(st2, i),
    }) by {
        if st.blocks[i].term is None && i != st.cursor {
            let j = choose|j: int|
                0 <= j < st.stack.len() && (#[trigger] st.stack[j]).end == i;
            assert(0 <= j < st2.stack.len() && st2.stack[j].end == i);
        }
    }
}

/// One successful step keeps the structural invariant and grows the graph
/// by at most the three blocks of a new loop.
proof fn lemma_step_inv(st: TransState, t: Token)
    requires
        graph_inv(st),
        st.blocks.len() + 3 <= usize::MAX,
    ensures
        step(st, t) matches Ok(st2) ==> graph_inv(st2) && st2.blocks.len() <= st.blocks.len() + 3,
{
    let n = st.blocks.len() as int;
    match step(st, t) {
        Ok(st2) => {
            match t {
                Token::Move { .. } | Token::Add { .. } | Token::Read | Token::Write => {
                    assert forall|i: int| 0 <= i < st.blocks.len() implies (
                    #[trigger] st2.blocks[i]).term == st.blocks[i].term by {}
                    lemma_inv_same_shape(st, st2);
                },
                Token::LoopStart => {
                    assert(st2.blocks.len() == n + 3);
                    assert(st2.cursor == n + 1);
                    assert(st2.stack == st.stack.push(
                        LoopFrame { start: (n as usize), body: ((n + 1) as usize), end: ((n
                            + 2) as usize) },
                    ));
                    assert forall|i: int| 0 <= i < st2.blocks.len() implies (match (
                    #[trigger] st2.blocks[i]).term {
                        Some(tm) => term_wf(tm, st2.blocks.len() as int),
                        None => open_block(st2, i),
                    }) by {
                        if i == st.cursor {
                            assert(st2.blocks[i].term == Some(
                                Term::Jump { target: (n as usize) },
                            ));
                        } else if i < n {
                            assert(st2.blocks[i].term == st.blocks[i].term);
                            if st.blocks[i].term is None {
                                let j = choose|j: int|
                                    0 <= j < st.stack.len() && (#[trigger] st.stack[j]).end == i;
                                assert(0 <= j < st2.stack.len() && st2.stack[j].end == i);
                            }
                        } else if i == n + 1 {
                            assert(i == st2.cursor);
                        } else if i == n + 2 {
                            assert(st2.stack[st.stack.len() as int].end == i);
                        }
                    }
                    assert forall|j: int| 0 <= j < st2.stack.len() implies st2.blocks[(
                    #[trigger] st2.stack[j]).end as int].term is None by {
                        if j < st.stack.len() {
                            assert(st2.stack[j] == st.stack[j]);
                            assert(st.stack[j].end != st.cursor);
                        }
                    }
                },
                Token::LoopEnd => {
                    let f = st.stack.last();
                    let last = st.stack.len() as int - 1;
                    assert(st2.cursor == f.end);
                    assert forall|i: int| 0 <= i < st2.blocks.len() implies (match (
                    #[trigger] st2.blocks[i]).term {
                        Some(tm) => term_wf(tm, st2.blocks.len() as int),
                        None => open_block(st2, i),
                    }) by {
                        if i == st.cursor {
                            assert(st2.blocks[i].term == Some(Term::Jump { target: f.start }));
                            assert(f.start < n);
                        } else {
                            assert(st2.blocks[i].term == st.blocks[i].term);
                            if st.blocks[i].term is None {
                                let j = choose|j: int|
                                    0 <= j < st.stack.len() && (#[trigger] st.stack[j]).end == i;
                                if j == last {
                                    assert(i == st2.cursor);
                                } else {
                                    assert(0 <= j < st2.stack.len() && st2.stack[j].end == i);
                                }
                            }
                        }
                    }
                    assert(st.blocks[f.end as int].term is None);
                    assert(f.end != st.cursor);
                    assert(st2.blocks[st2.cursor as int].term is None);
                    assert forall|j: int| 0 <= j < st2.stack.len() implies st2.blocks[(
                    #[trigger] st2.stack[j]).end as int].term is None by {
                        assert(st2.stack[j] == st.stack[j]);
                        assert(st.stack[j].end != st.cursor);
                    }
                    assert forall|j: int| 0 <= j < st2.stack.len() implies (
                    #[trigger] st2.stack[j]).end != st2.cursor by {
                        assert(st2.stack[j] == st.stack[j]);
                        assert(st.stack[j].end != st.stack[last].end);
                    }
                },
            }
        },
        Err(_) => {},
    }
}

/// A successful run keeps the structural invariant.
proof fn lemma_run_inv(st: TransState, ts: Seq<Token>)
    requires
        graph_inv(st),
        st.blocks.len() + 3 * ts.len() <= usize::MAX,
    ensures
        run(st, ts) matches Ok(st2) ==> graph_inv(st2) && st2.blocks.len() <= st.blocks.len() + 3
            * ts.len(),
    decreases ts.len(),
{
    if ts.len() != 0 {
        match step(st, ts[0]) {
            Ok(st1) => {
                lemma_step_inv(st, ts[0]);
                lemma_run_inv(st1, ts.skip(1));
            },
            Err(_) => {},
        }
    }
}

/// Structural correctness of every successful translation: the finished
/// program has a valid entry block and every one of its blocks carries
/// exactly one terminator, whose targets all lie inside the program.
pub proof fn lemma_compile_structure(s: Seq<u8>)
    requires
        s.len() <= MAX_SOURCE_LEN,
    ensures
        spec_compile(s) matches Ok(m) ==> program_wf(m),
{
    lemma_tokens_len_le(s);
    let st0 = init_state();
    assert(graph_inv(st0));
    lemma_run_inv(st0, tokens(s));
    match run(st0, tokens(s)) {
        Ok(st) => {
            if st.stack.len() == 0 {
                let done = terminate_at_cursor(st, Term::Ret);
                assert forall|i: int| 0 <= i < done.blocks.len() implies block_wf(
                    #[trigger] done.blocks[i],
                    done.blocks.len() as int,
                ) by {
                    if i != st.cursor {
                        assert(done.blocks[i].term == st.blocks[i].term);
                        if st.blocks[i].term is None {
                            assert(open_block(st, i));
                        }
                    }
                }
            }
        },
        Err(_) => {},
    }
}

} // verus!

