//! Bracket nesting: depth, balance, and which `[` belongs to which `]`.

use vstd::prelude::*;
use crate::token::Token;

verus! {

/// What an instruction adds to the nesting depth.
pub open spec fn delta(t: Token) -> int {
    match t {
        Token::LBRK => 1,
        Token::RBRK => -1,
        _ => 0,
    }
}

/// The nesting depth in front of position `n`: the number of `[` minus the
/// number of `]` among the first `n` instructions.
pub open spec fn depth(code: Seq<Token>, n: int) -> int
    decreases n,
{
    if n <= 0 {
        0
    } else if n > code.len() {
        depth(code, n - 1)
    } else {
        depth(code, n - 1) + delta(code[n - 1])
    }
}

/// A program is balanced when no `]` comes without an open `[` before it and
/// no `[` is left open at the end.
pub open spec fn balanced(code: Seq<Token>) -> bool {
    &&& forall|n: int| 0 <= n <= code.len() ==> #[trigger] depth(code, n) >= 0
    &&& depth(code, code.len() as int) == 0
}

/// `open` holds a `[`, `close` holds the `]` that ends its loop: the depth
/// stays above that of `open` all the way from just behind `open` up to
/// `close`, and behind `close` it is back where it was in front of `open`.
pub open spec fn is_pair(code: Seq<Token>, open: int, close: int) -> bool {
    &&& 0 <= open < close < code.len()
    &&& code[open] == Token::LBRK
    &&& code[close] == Token::RBRK
    &&& depth(code, close + 1) == depth(code, open)
    &&& forall|k: int| open < k <= close ==> #[trigger] depth(code, k) > depth(code, open)
}

/// The position of the `]` that ends the loop opened at `open`.
pub open spec fn close_of(code: Seq<Token>, open: int) -> int {
    choose|close: int| is_pair(code, open, close)
}

/// The position of the `[` that opens the loop ended at `close`.
pub open spec fn open_of(code: Seq<Token>, close: int) -> int {
    choose|open: int| is_pair(code, open, close)
}

/// How a program fails to be balanced.
#[derive(Clone, Copy, Debug, PartialEq, Eq, Structural)]
pub enum NestingError {
    /// A `]` stands where no `[` is open.
    StrayClose,
    /// No `]` is stray, but a `[` is still open at the end.
    UnclosedOpen,
}

/// Some `]` of the program has no open `[` before it.
pub open spec fn has_stray_close(code: Seq<Token>) -> bool {
    exists|n: int| 0 <= n <= code.len() && #[trigger] depth(code, n) < 0
}

/// Tests whether a program is balanced, and says what is wrong if it is not.
pub fn check_nesting(code: &Vec<Token>) -> (res: Result<(), NestingError>)
    ensures
        res is Ok <==> balanced(code@),
        res == Err::<(), NestingError>(NestingError::StrayClose) <==> has_stray_close(code@),
{
    let mut count: usize = 0;
    let mut i: usize = 0;
    while i < code.len()
        invariant
            0 <= i <= code.len(),
            count == depth(code@, i as int),
            forall|n: int| 0 <= n <= i ==> #[trigger] depth(code@, n) >= 0,
        decreases code.len() - i,
    {
        proof {
            lemma_depth_bound(code@, i as int + 1);
        }
        match code[i] {
            Token::LBRK => {
                count += 1;
            },
            Token::RBRK => {
                if count == 0 {
                    return Err(NestingError::StrayClose);
                }
                count -= 1;
            },
            _ => {},
        }
        i += 1;
    }
    if count != 0 {
        Err(NestingError::UnclosedOpen)
    } else {
        Ok(())
    }
}

/// The depth in front of position `n` lies between `-n` and `n`.
pub proof fn lemma_depth_bound(code: Seq<Token>, n: int)
    requires
        0 <= n,
    ensures
        -n <= depth(code, n) <= n,
    decreases n,
{
    if n > 0 {
        lemma_depth_bound(code, n - 1);
    }
}

/// A `[` has at most one matching `]`.
pub proof fn lemma_close_unique(code: Seq<Token>, open: int, c1: int, c2: int)
    requires
        is_pair(code, open, c1),
        is_pair(code, open, c2),
    ensures
        c1 == c2,
{
    // behind the earlier of two candidates the depth is back down, which the
    // later one does not allow
    if c1 < c2 {
        assert(depth(code, c1 + 1) > depth(code, open));
    } else if c2 < c1 {
        assert(depth(code, c2 + 1) > depth(code, open));
    }
}

/// A `]` has at most one matching `[`.
pub proof fn lemma_open_unique(code: Seq<Token>, o1: int, o2: int, close: int)
    requires
        is_pair(code, o1, close),
        is_pair(code, o2, close),
    ensures
        o1 == o2,
{
    // the later of two candidates lies inside the loop of the earlier one,
    // where the depth is higher than behind `close`
    if o1 < o2 {
        assert(depth(code, o2) > depth(code, o1));
    } else if o2 < o1 {
        assert(depth(code, o1) > depth(code, o2));
    }
}

/// Loops nest: a loop that opens inside another one also closes inside it.
pub proof fn lemma_pairs_nest(code: Seq<Token>, o1: int, c1: int, o2: int, c2: int)
    requires
        is_pair(code, o1, c1),
        is_pair(code, o2, c2),
        o1 < o2 < c1,
    ensures
        c2 < c1,
{
    assert(depth(code, o2) > depth(code, o1));
    if c2 > c1 {
        assert(depth(code, c1 + 1) > depth(code, o2));
    } else if c2 == c1 {
        lemma_open_unique(code, o1, o2, c1);
    }
}

/// Walks right from `k` to the `]` that matches the `[` at `open`.
proof fn lemma_find_close(code: Seq<Token>, open: int, k: int) -> (close: int)
    requires
        balanced(code),
        0 <= open < k <= code.len(),
        code[open] == Token::LBRK,
        forall|j: int| open < j <= k ==> #[trigger] depth(code, j) > depth(code, open),
    ensures
        is_pair(code, open, close),
    decreases code.len() - k,
{
    assert(depth(code, k + 1) == depth(code, k) + delta(code[k]));
    if depth(code, k + 1) == depth(code, open) {
        k
    } else {
        lemma_find_close(code, open, k + 1)
    }
}

/// Walks left from `k` to the `[` that matches the `]` at `close`.
proof fn lemma_find_open(code: Seq<Token>, close: int, k: int) -> (open: int)
    requires
        balanced(code),
        0 <= k <= close < code.len(),
        code[close] == Token::RBRK,
        forall|j: int| k < j <= close ==> #[trigger] depth(code, j) > depth(code, close + 1),
        depth(code, k) >= depth(code, close + 1),
    ensures
        is_pair(code, open, close),
    decreases k,
{
    if depth(code, k) == depth(code, close + 1) {
        assert(depth(code, k + 1) == depth(code, k) + delta(code[k]));
        k
    } else {
        lemma_find_open(code, close, k - 1)
    }
}

/// In a balanced program every `[` has its `]`.
pub proof fn lemma_close_exists(code: Seq<Token>, open: int)
    requires
        balanced(code),
        0 <= open < code.len(),
        code[open] == Token::LBRK,
    ensures
        is_pair(code, open, close_of(code, open)),
{
    let _ = lemma_find_close(code, open, open + 1);
}

/// In a balanced program every `]` has its `[`.
pub proof fn lemma_open_exists(code: Seq<Token>, close: int)
    requires
        balanced(code),
        0 <= close < code.len(),
        code[close] == Token::RBRK,
    ensures
        is_pair(code, open_of(code, close), close),
{
    let _ = lemma_find_open(code, close, close);
}

} // verus!
