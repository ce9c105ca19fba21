//! Run-length scanner: turns the raw source bytes into compressed tokens.
//!
//! A maximal run of `k` identical directional commands (`>`, `<`, `+`, `-`)
//! yields exactly one token whose magnitude is the signed run length
//! (positive for `>`/`+`, negative for `<`/`-`); every other command yields
//! one token of its own, and any byte outside the eight-command set is
//! discarded as a comment.

use vstd::prelude::*;

verus! {

/// The largest source text the translator accepts: run lengths and block ids
/// stay representable far below this bound, whatever the pointer width.
pub const MAX_SOURCE_LEN: usize = 0x4000_0000;

/// One compressed unit of source text. `Move` and `Add` carry the signed
/// length of the maximal run they stand for; the remaining commands carry
/// no magnitude.
#[derive(Clone, Copy, Debug, PartialEq, Eq, Structural)]
pub enum Token {
    /// A run of `>`/`<`: advance the cell pointer by `magnitude` cells.
    Move { magnitude: i64 },
    /// A run of `+`/`-`: add `magnitude` to the byte at the pointer.
    Add { magnitude: i64 },
    /// `,`: read one byte from the input primitive.
    Read,
    /// `.`: write the byte at the pointer to the output primitive.
    Write,
    /// `[`: open a loop.
    LoopStart,
    /// `]`: close the most recently opened loop.
    LoopEnd,
}

/// `>` — advance the cell pointer.
pub const CMD_RIGHT: u8 = 62;

/// `<` — retreat the cell pointer.
pub const CMD_LEFT: u8 = 60;

/// `+` — increment the byte at the pointer.
pub const CMD_INC: u8 = 43;

/// `-` — decrement the byte at the pointer.
pub const CMD_DEC: u8 = 45;

/// `,` — read one byte of input.
pub const CMD_READ: u8 = 44;

/// `.` — write the byte at the pointer.
pub const CMD_WRITE: u8 = 46;

/// `[` — open a loop.
pub const CMD_OPEN: u8 = 91;

/// `]` — close a loop.
pub const CMD_CLOSE: u8 = 93;

/// The four commands whose runs are compressed.
pub open spec fn is_directional(c: u8) -> bool {
    c == CMD_RIGHT || c == CMD_LEFT || c == CMD_INC || c == CMD_DEC
}

/// The eight bytes that carry meaning; everything else is a comment.
pub open spec fn is_command(c: u8) -> bool {
    is_directional(c) || c == CMD_READ || c == CMD_WRITE || c == CMD_OPEN || c == CMD_CLOSE
}

/// Length of the maximal run of byte `c` at the front of `s`.
pub open spec fn leading_run(s: Seq<u8>, c: u8) -> nat
    decreases s.len(),
{
    if s.len() == 0 || s[0] != c {
        0
    } else {
        1 + leading_run(s.skip(1), c)
    }
}

/// A run at the front of `s` never extends past `s` itself.
proof fn lemma_leading_run_le(s: Seq<u8>, c: u8)
    ensures
        leading_run(s, c) <= s.len(),
    decreases s.len(),
{
    if s.len() != 0 && s[0] == c {
        lemma_leading_run_le(s.skip(1), c);
    }
}

/// The token produced by one maximal run of the directional command `c`
/// of length `k`.
pub open spec fn directional_token(c: u8, k: int) -> Token {
    if c == CMD_RIGHT {
        Token::Move { magnitude: k as i64 }
    } else if c == CMD_LEFT {
        Token::Move { magnitude: (-k) as i64 }
    } else if c == CMD_INC {
        Token::Add { magnitude: k as i64 }
    } else {
        Token::Add { magnitude: (-k) as i64 }
    }
}

/// The token produced by one of the four non-directional commands.
pub open spec fn singleton_token(c: u8) -> Token {
    if c == CMD_READ {
        Token::Read
    } else if c == CMD_WRITE {
        Token::Write
    } else if c == CMD_OPEN {
        Token::LoopStart
    } else {
        Token::LoopEnd
    }
}

/// The complete token sequence of a source text: one token per maximal
/// directional run, one per `,`/`.`/`[`/`]`, none for comment bytes.
pub open spec fn tokens(s: Seq<u8>) -> Seq<Token>
    decreases s.len(),
    via tokens_decreases
{
    if s.len() == 0 {
        Seq::empty()
    } else {
        let c = s[0];
        if is_directional(c) {
            let k = 1 + leading_run(s.skip(1), c) as int;
            seq![directional_token(c, k)] + tokens(s.skip(k))
        } else if is_command(c) {
            seq![singleton_token(c)] + tokens(s.skip(1))
        } else {
            tokens(s.skip(1))
        }
    }
}

#[via_fn]
proof fn tokens_decreases(s: Seq<u8>) {
    if s.len() != 0 && is_directional(s[0]) {
        lemma_leading_run_le(s.skip(1), s[0]);
    }
}

/// A run is exactly as long as the stretch of equal bytes at the front.
proof fn lemma_leading_run_exact(s: Seq<u8>, c: u8, k: int)
    requires
        0 <= k <= s.len(),
        forall|t: int| 0 <= t < k ==> s[t] == c,
        k == s.len() || s[k] != c,
    ensures
        leading_run(s, c) == k,
    decreases k,
{
    if k == 0 {
    } else {
        assert(s[0] == c);
        let s1 = s.skip(1);
        assert forall|t: int| 0 <= t < k - 1 implies s1[t] == c by {
            assert(s1[t] == s[t + 1]);
        }
        if k - 1 < s1.len() {
            assert(s1[k - 1] == s[k]);
        }
        lemma_leading_run_exact(s1, c, k - 1);
    }
}

/// Unfolding of `tokens` over one maximal directional run.
proof fn lemma_tokens_run(s: Seq<u8>, k: int)
    requires
        0 < k <= s.len(),
        is_directional(s[0]),
        forall|t: int| 0 <= t < k ==> #[trigger] s[t] == s[0],
        k == s.len() || s[k] != s[0],
    ensures
        tokens(s) == seq![directional_token(s[0], k)] + tokens(s.skip(k)),
{
    lemma_leading_run_exact(s, s[0], k);
    assert(leading_run(s, s[0]) == 1 + leading_run(s.skip(1), s[0]));
}

/// The scanner never yields more tokens than the source has bytes.
pub proof fn lemma_tokens_len_le(s: Seq<u8>)
    ensures
        tokens(s).len() <= s.len(),
    decreases s.len(),
{
    if s.len() != 0 {
        let c = s[0];
        if is_directional(c) {
            lemma_leading_run_le(s.skip(1), c);
            let k: int = 1 + leading_run(s.skip(1), c) as int;
            lemma_tokens_len_le(s.skip(k));
        } else {
            lemma_tokens_len_le(s.skip(1));
        }
    }
}

/// Number of maximal runs of directional commands in a source text.
pub open spec fn directional_runs(s: Seq<u8>) -> nat
    decreases s.len(),
    via directional_runs_decreases
{
    if s.len() == 0 {
        0
    } else if is_directional(s[0]) {
        1 + directional_runs(s.skip(1 + leading_run(s.skip(1), s[0]) as int))
    } else {
        directional_runs(s.skip(1))
    }
}

#[via_fn]
proof fn directional_runs_decreases(s: Seq<u8>) {
    if s.len() != 0 && is_directional(s[0]) {
        lemma_leading_run_le(s.skip(1), s[0]);
    }
}

/// Number of `Move`/`Add` tokens in a token sequence.
pub open spec fn move_add_tokens(ts: Seq<Token>) -> nat
    decreases ts.len(),
{
    if ts.len() == 0 {
        0
    } else {
        (if ts[0] is Move || ts[0] is Add {
            1nat
        } else {
            0nat
        }) + move_add_tokens(ts.skip(1))
    }
}

/// A maximal run of `k` identical directional commands yields one token,
/// independent of `k`: the scanner emits exactly one `Move`/`Add` token per
/// maximal directional run of the source.
pub proof fn lemma_one_token_per_run(s: Seq<u8>)
    ensures
        move_add_tokens(tokens(s)) == directional_runs(s),
    decreases s.len(),
{
    if s.len() != 0 {
        let c = s[0];
        if is_directional(c) {
            lemma_leading_run_le(s.skip(1), c);
            let k: int = 1 + leading_run(s.skip(1), c) as int;
            lemma_one_token_per_run(s.skip(k));
            assert((seq![directional_token(c, k)] + tokens(s.skip(k))).skip(1) =~= tokens(
                s.skip(k),
            ));
        } else if is_command(c) {
            lemma_one_token_per_run(s.skip(1));
            assert((seq![singleton_token(c)] + tokens(s.skip(1))).skip(1) =~= tokens(s.skip(1)));
        } else {
            lemma_one_token_per_run(s.skip(1));
        }
    }
}

/// Comment bytes yield no tokens: stripping a comment prefix leaves the
/// token stream unchanged.
pub proof fn lemma_comment_prefix_ignored(p: Seq<u8>, s: Seq<u8>)
    requires
        forall|t: int| 0 <= t < p.len() ==> !is_command(#[trigger] p[t]),
    ensures
        tokens(p + s) == tokens(s),
    decreases p.len(),
{
    if p.len() == 0 {
        assert(p + s =~= s);
    } else {
        assert((p + s)[0] == p[0]);
        assert((p + s).skip(1) =~= p.skip(1) + s);
        assert forall|t: int| 0 <= t < p.skip(1).len() implies !is_command(
            #[trigger] p.skip(1)[t],
        ) by {
            assert(p.skip(1)[t] == p[t + 1]);
        }
        lemma_comment_prefix_ignored(p.skip(1), s);
    }
}

/// A source made of comments alone yields no tokens at all.
pub proof fn lemma_comments_only(p: Seq<u8>)
    requires
        forall|t: int| 0 <= t < p.len() ==> !is_command(#[trigger] p[t]),
    ensures
        tokens(p) == Seq::<Token>::empty(),
    decreases p.len(),
{
    lemma_comment_prefix_ignored(p, Seq::empty());
    assert(p + Seq::<u8>::empty() =~= p);
}

/// Run the scanner over the whole source: one token per maximal directional
/// run carrying the signed run length, one token per `,`/`.`/`[`/`]`, and
/// nothing for any other byte.
pub fn scan(src: &[u8]) -> (toks: Vec<Token>)
    requires
        src@.len() <= MAX_SOURCE_LEN,
    ensures
        toks@ == tokens(src@),
{
    let n: usize = src.len();
    let mut toks: Vec<Token> = Vec::new();
    let mut i: usize = 0;
    proof {
        assert(src@.skip(0) =~= src@);
        assert(Seq::<Token>::empty() + tokens(src@) =~= tokens(src@));
    }
    while i < n
        invariant
            n == src@.len(),
            n <= MAX_SOURCE_LEN,
            i <= n,
            tokens(src@) == toks@ + tokens(src@.skip(i as int)),
        decreases n - i,
    {
        let c = src[i];
        let ghost s = src@.skip(i as int);
        assert(s[0] == src@[i as int]);
        if c == CMD_RIGHT || c == CMD_LEFT || c == CMD_INC || c == CMD_DEC {
            let mut j: usize = i + 1;
            while j < n && src[j] == c
                invariant
                    n == src@.len(),
                    i < j <= n,
                    src@[i as int] == c,
                    forall|t: int| i <= t < j ==> src@[t] == c,
                decreases n - j,
            {
                j = j + 1;
            }
            let count: i64 = (j - i) as i64;
            let tok = if c == CMD_RIGHT {
                Token::Move { magnitude: count }
            } else if c == CMD_LEFT {
                Token::Move { magnitude: -count }
            } else if c == CMD_INC {
                Token::Add { magnitude: count }
            } else {
                Token::Add { magnitude: -count }
            };
            proof {
                let k: int = j as int - i as int;
                assert forall|t: int| 0 <= t < k implies #[trigger] s[t] == s[0] by {
                    assert(s[t] == src@[i + t]);
                }
                if k < s.len() {
                    assert(s[k] == src@[j as int]);
                }
                lemma_tokens_run(s, k);
                assert(tok == directional_token(s[0], k));
                assert(s.skip(k) =~= src@.skip(j as int));
                assert(toks@.push(tok) + tokens(src@.skip(j as int)) =~= toks@ + (seq![tok]
                    + tokens(src@.skip(j as int))));
            }
            toks.push(tok);
            i = j;
        } else if c == CMD_READ || c == CMD_WRITE || c == CMD_OPEN || c == CMD_CLOSE {
            let tok = if c == CMD_READ {
                Token::Read
            } else if c == CMD_WRITE {
                Token::Write
            } else if c == CMD_OPEN {
                Token::LoopStart
            } else {
                Token::LoopEnd
            };
            proof {
                assert(tokens(s) == seq![singleton_token(s[0])] + tokens(s.skip(1)));
                assert(tok == singleton_token(s[0]));
                assert(s.skip(1) =~= src@.skip(i as int + 1));
                assert(toks@.push(tok) + tokens(src@.skip(i as int + 1)) =~= toks@ + (seq![tok]
                    + tokens(src@.skip(i as int + 1))));
            }
            toks.push(tok);
            i = i + 1;
        } else {
            proof {
                assert(!is_command(s[0]));
                assert(tokens(s) == tokens(s.skip(1)));
                assert(s.skip(1) =~= src@.skip(i as int + 1));
            }
            i = i + 1;
        }
    }
    proof {
        assert(src@.skip(n as int) =~= Seq::<u8>::empty());
        assert(tokens(Seq::<u8>::empty()) == Seq::<Token>::empty());
        assert(toks@ + Seq::<Token>::empty() =~= toks@);
    }
    toks
}

} // verus!
