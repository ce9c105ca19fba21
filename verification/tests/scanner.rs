//! The run-length scanner on concrete sources: compression, run breaks and
//! the comment policy.

use bfc::token::{Token, scan};

#[test]
fn scan_empty_source() {
    assert_eq!(scan(b""), vec![]);
}

#[test]
fn scan_compresses_a_run_into_one_token() {
    assert_eq!(scan(b"+++"), vec![Token::Add { magnitude: 3 }]);
}

#[test]
fn scan_breaks_runs_at_character_changes() {
    assert_eq!(
        scan(b"><"),
        vec![Token::Move { magnitude: 1 }, Token::Move { magnitude: -1 }]
    );
}

#[test]
fn scan_negative_runs() {
    assert_eq!(
        scan(b"<<<---"),
        vec![Token::Move { magnitude: -3 }, Token::Add { magnitude: -3 }]
    );
}

#[test]
fn scan_each_command_once() {
    assert_eq!(
        scan(b"><+-,.[]"),
        vec![
            Token::Move { magnitude: 1 },
            Token::Move { magnitude: -1 },
            Token::Add { magnitude: 1 },
            Token::Add { magnitude: -1 },
            Token::Read,
            Token::Write,
            Token::LoopStart,
            Token::LoopEnd,
        ]
    );
}

#[test]
fn scan_comments_yield_no_tokens() {
    assert_eq!(scan(b"this text has no commands at all"), vec![]);
}

#[test]
fn scan_comments_around_a_run_leave_it_whole() {
    assert_eq!(scan(b"abc+++xyz"), vec![Token::Add { magnitude: 3 }]);
}

#[test]
fn scan_comment_inside_a_run_splits_it() {
    assert_eq!(
        scan(b"++ +"),
        vec![Token::Add { magnitude: 2 }, Token::Add { magnitude: 1 }]
    );
}

#[test]
fn scan_long_run_still_one_token() {
    let src = vec![b'>'; 1000];
    assert_eq!(scan(&src), vec![Token::Move { magnitude: 1000 }]);
}
