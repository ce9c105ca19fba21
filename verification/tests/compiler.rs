//! The whole pass on concrete sources: block wiring, loop matching and the
//! two bracket errors.

use bfc::graph::{Inst, Term};
use bfc::translate::{CompileError, compile};

#[test]
fn empty_source_is_one_returning_block() {
    let p = compile(b"").unwrap();
    assert_eq!(p.entry, 0);
    assert_eq!(p.blocks.len(), 1);
    assert_eq!(p.blocks[0].insts, vec![]);
    assert_eq!(p.blocks[0].term, Some(Term::Ret));
}

#[test]
fn run_compiles_to_one_add_operation() {
    let p = compile(b"+++").unwrap();
    assert_eq!(p.blocks.len(), 1);
    assert_eq!(p.blocks[0].insts, vec![Inst::Add { delta: 3 }]);
}

#[test]
fn one_operation_per_maximal_run() {
    let p = compile(b">>>+++<<<---").unwrap();
    let ops: usize = p
        .blocks
        .iter()
        .map(|b| {
            b.insts
                .iter()
                .filter(|i| matches!(i, Inst::Move { .. } | Inst::Add { .. }))
                .count()
        })
        .sum();
    assert_eq!(ops, 4);
    assert_eq!(
        p.blocks[0].insts,
        vec![
            Inst::Move { delta: 3 },
            Inst::Add { delta: 3 },
            Inst::Move { delta: -3 },
            Inst::Add { delta: -3 },
        ]
    );
}

#[test]
fn zeroing_loop_wiring() {
    // "[-]": a guard that tests the cell, a body that decrements it by one
    // and jumps back to the guard, and the end block carrying the return.
    let p = compile(b"[-]").unwrap();
    assert_eq!(p.entry, 0);
    assert_eq!(p.blocks.len(), 4);
    assert_eq!(p.blocks[0].insts, vec![]);
    assert_eq!(p.blocks[0].term, Some(Term::Jump { target: 1 }));
    assert_eq!(p.blocks[1].insts, vec![]);
    assert_eq!(p.blocks[1].term, Some(Term::Branch { nonzero: 2, zero: 3 }));
    assert_eq!(p.blocks[2].insts, vec![Inst::Add { delta: -1 }]);
    assert_eq!(p.blocks[2].term, Some(Term::Jump { target: 1 }));
    assert_eq!(p.blocks[3].insts, vec![]);
    assert_eq!(p.blocks[3].term, Some(Term::Ret));
}

#[test]
fn echo_one_byte() {
    // ",.": read, truncate and store; then load, sign-extend and write.
    let p = compile(b",.").unwrap();
    assert_eq!(p.blocks.len(), 1);
    assert_eq!(p.blocks[0].insts, vec![Inst::Read, Inst::Write]);
    assert_eq!(p.blocks[0].term, Some(Term::Ret));
}

#[test]
fn inner_closer_closes_inner_frame() {
    // "[[-]]": the body of the inner loop must jump back to the inner
    // guard (block 4), not the outer one (block 1).
    let p = compile(b"[[-]]").unwrap();
    assert_eq!(p.blocks.len(), 7);
    assert_eq!(p.blocks[0].term, Some(Term::Jump { target: 1 }));
    assert_eq!(p.blocks[1].term, Some(Term::Branch { nonzero: 2, zero: 3 }));
    assert_eq!(p.blocks[2].term, Some(Term::Jump { target: 4 }));
    assert_eq!(p.blocks[4].term, Some(Term::Branch { nonzero: 5, zero: 6 }));
    assert_eq!(p.blocks[5].insts, vec![Inst::Add { delta: -1 }]);
    assert_eq!(p.blocks[5].term, Some(Term::Jump { target: 4 }));
    assert_eq!(p.blocks[6].term, Some(Term::Jump { target: 1 }));
    assert_eq!(p.blocks[3].term, Some(Term::Ret));
}

#[test]
fn lone_closer_is_fatal() {
    assert!(matches!(
        compile(b"]"),
        Err(CompileError::UnmatchedCloseBracket)
    ));
}

#[test]
fn closer_inside_comments_is_still_fatal() {
    assert!(matches!(
        compile(b"no loop was ever opened ]"),
        Err(CompileError::UnmatchedCloseBracket)
    ));
}

#[test]
fn unclosed_loop_is_fatal_at_end_of_input() {
    assert!(matches!(
        compile(b"[+"),
        Err(CompileError::UnmatchedOpenBracket)
    ));
}

#[test]
fn balanced_nesting_succeeds() {
    assert!(compile(b"+[>,.<-]").is_ok());
    assert!(compile(b"[[[][]]]").is_ok());
}

#[test]
fn every_terminator_stays_in_range() {
    let p = compile(b"++[>+++[-]<,]..").unwrap();
    let n = p.blocks.len();
    for b in &p.blocks {
        match b.term {
            Some(Term::Jump { target }) => assert!(target < n),
            Some(Term::Branch { nonzero, zero }) => {
                assert!(nonzero < n);
                assert!(zero < n);
            }
            Some(Term::Ret) => {}
            None => panic!("unterminated block"),
        }
    }
}
