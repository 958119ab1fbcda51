//! Pairing of loop brackets into a jump table.
use vstd::prelude::*;
use crate::lexer::Token;

verus! {

/// Why a program's brackets cannot be paired.
#[derive(Debug, Clone, Copy, PartialEq, Eq, Structural)]
pub enum SyntaxError {
    /// A `]` with no open `[` before it.
    UnbalancedBrackets,
    /// A `[` that is never closed.
    MissingClosedBracket,
}

/// What one instruction adds to the bracket nesting depth.
pub open spec fn delta(t: Token) -> int {
    match t {
        Token::Forward => 1,
        Token::Backward => -1,
        _ => 0,
    }
}

/// Whether an instruction is a loop bracket.
pub open spec fn is_bracket(t: Token) -> bool {
    t is Forward || t is Backward
}

/// The nesting depth after the first `n` instructions: opened minus closed.
pub open spec fn depth(p: Seq<Token>, n: int) -> int
    decreases n,
{
    if n <= 0 || p.len() < n {
        0
    } else {
        depth(p, n - 1) + delta(p[n - 1])
    }
}

/// No prefix of the program closes more loops than it opened.
pub open spec fn never_negative(p: Seq<Token>) -> bool {
    forall|n: int| 0 <= n <= p.len() ==> depth(p, n) >= 0
}

/// Every `]` closes an earlier `[` and every `[` is closed.
pub open spec fn balanced(p: Seq<Token>) -> bool {
    never_negative(p) && depth(p, p.len() as int) == 0
}

/// The `[` at `i` is closed by the `]` at `j`: the depth between them stays
/// above the depth before `i` and comes back to it after `j`.
pub open spec fn pairs(p: Seq<Token>, i: int, j: int) -> bool {
    &&& 0 <= i < j < p.len()
    &&& p[i] is Forward
    &&& p[j] is Backward
    &&& depth(p, j + 1) == depth(p, i)
    &&& forall|k: int| i < k <= j ==> depth(p, k) > depth(p, i)
}

/// `t` is the jump table of `p`: one entry per position, holding for each
/// bracket the position of its partner and nothing for other instructions.
pub open spec fn is_jump_table(p: Seq<Token>, t: Seq<Option<usize>>) -> bool {
    &&& t.len() == p.len()
    &&& forall|i: int|
        0 <= i < p.len() ==> {
            &&& (#[trigger] t[i] is Some) == is_bracket(p[i])
            &&& t[i] is Some ==> (pairs(p, i, t[i]->Some_0 as int) || pairs(
                p,
                t[i]->Some_0 as int,
                i,
            ))
        }
}

/// The expected outcome of pairing the brackets of `p`.
pub open spec fn resolve_outcome(p: Seq<Token>) -> Result<(), SyntaxError> {
    if !never_negative(p) {
        Err(SyntaxError::UnbalancedBrackets)
    } else if depth(p, p.len() as int) != 0 {
        Err(SyntaxError::MissingClosedBracket)
    } else {
        Ok(())
    }
}

/// A `[` is closed by at most one `]`.
pub proof fn lemma_pairs_unique_close(p: Seq<Token>, i: int, j1: int, j2: int)
    requires
        pairs(p, i, j1),
        pairs(p, i, j2),
    ensures
        j1 == j2,
{
    if j1 < j2 {
        assert(depth(p, j1 + 1) > depth(p, i));
    } else if j2 < j1 {
        assert(depth(p, j2 + 1) > depth(p, i));
    }
}

/// A `]` closes at most one `[`.
pub proof fn lemma_pairs_unique_open(p: Seq<Token>, i1: int, i2: int, j: int)
    requires
        pairs(p, i1, j),
        pairs(p, i2, j),
    ensures
        i1 == i2,
{
    if i1 < i2 {
        assert(depth(p, i2) > depth(p, i1));
    } else if i2 < i1 {
        assert(depth(p, i1) > depth(p, i2));
    }
}

/// The jump table is symmetric: following the entry of a bracket and then
/// the entry found there leads back to the bracket. Positions that hold no
/// bracket have no entry.
pub proof fn lemma_jump_table_symmetric(p: Seq<Token>, t: Seq<Option<usize>>)
    requires
        is_jump_table(p, t),
    ensures
        forall|i: int|
            0 <= i < p.len() && is_bracket(p[i]) ==> {
                &&& #[trigger] t[i] is Some
                &&& 0 <= t[i]->Some_0 < p.len()
                &&& t[t[i]->Some_0 as int] == Some(i as usize)
            },
        forall|i: int| 0 <= i < p.len() && !is_bracket(p[i]) ==> #[trigger] t[i] is None,
{
    assert forall|i: int| 0 <= i < p.len() && is_bracket(p[i]) implies {
        &&& #[trigger] t[i] is Some
        &&& 0 <= t[i]->Some_0 < p.len()
        &&& t[t[i]->Some_0 as int] == Some(i as usize)
    } by {
        let j = t[i]->Some_0 as int;
        assert(t[j] is Some);
        let k = t[j]->Some_0 as int;
        if pairs(p, i, j) {
            lemma_pairs_unique_open(p, i, k, j);
        } else {
            lemma_pairs_unique_close(p, j, i, k);
        }
    }
}

/// A program has at most one jump table.
pub proof fn lemma_jump_table_unique(p: Seq<Token>, t1: Seq<Option<usize>>, t2: Seq<Option<usize>>)
    requires
        is_jump_table(p, t1),
        is_jump_table(p, t2),
    ensures
        t1 == t2,
{
    assert forall|i: int| 0 <= i < p.len() implies t1[i] == t2[i] by {
        if t1[i] is Some {
            assert(t2[i] is Some);
            let a = t1[i]->Some_0 as int;
            let b = t2[i]->Some_0 as int;
            if p[i] is Forward {
                lemma_pairs_unique_close(p, i, a, b);
            } else {
                lemma_pairs_unique_open(p, a, b, i);
            }
        }
    }
    assert(t1 =~= t2);
}

proof fn lemma_depth_step(p: Seq<Token>, n: int)
    requires
        0 <= n < p.len(),
    ensures
        depth(p, n + 1) == depth(p, n) + delta(p[n]),
{
}

/// Pairs the brackets of a program in one pass with a stack of open
/// positions.
pub fn resolve_jumps(p: &Vec<Token>) -> (r: Result<Vec<Option<usize>>, SyntaxError>)
    ensures
        r.is_ok() == (resolve_outcome(p@) is Ok),
        r matches Err(e) ==> resolve_outcome(p@) == Err::<(), SyntaxError>(e),
        r matches Ok(t) ==> is_jump_table(p@, t@),
{
    let n: usize = p.len();
    let mut table: Vec<Option<usize>> = Vec::new();
    let mut k: usize = 0;
    while k < n
        invariant
            n == p@.len(),
            k <= n,
            table@.len() == k,
            forall|q: int| 0 <= q < k ==> table@[q] is None,
        decreases n - k,
    {
        table.push(None);
        k = k + 1;
    }
    let mut stack: Vec<usize> = Vec::new();
    let mut i: usize = 0;
    while i < n
        invariant
            n == p@.len(),
            i <= n,
            table@.len() == n,
            forall|m: int| 0 <= m <= i ==> depth(p@, m) >= 0,
            stack@.len() == depth(p@, i as int),
            forall|s: int|
                0 <= s < stack@.len() ==> {
                    &&& #[trigger] stack@[s] < i
                    &&& p@[stack@[s] as int] is Forward
                    &&& depth(p@, stack@[s] as int) == s
                    &&& forall|m: int| stack@[s] < m <= i ==> depth(p@, m) > s
                },
            forall|q: int|
                i <= q < n ==> #[trigger] table@[q] is None,
            forall|q: int|
                0 <= q < i ==> {
                    &&& (#[trigger] table@[q] is Some || p@[q] is Forward) == is_bracket(p@[q])
                    &&& p@[q] is Backward ==> table@[q] is Some && pairs(
                        p@,
                        table@[q]->Some_0 as int,
                        q,
                    )
                    &&& (p@[q] is Forward && table@[q] is Some) ==> pairs(
                        p@,
                        q,
                        table@[q]->Some_0 as int,
                    )
                    &&& (p@[q] is Forward && table@[q] is None) ==> (0 <= depth(p@, q)
                        < stack@.len() && stack@[depth(p@, q)] == q)
                },
        decreases n - i,
    {
        proof {
            lemma_depth_step(p@, i as int);
        }
        match p[i] {
            Token::Forward => {
                stack.push(i);
            },
            Token::Backward => {
                match stack.pop() {
                    None => {
                        assert(depth(p@, i + 1) < 0);
                        return Err(SyntaxError::UnbalancedBrackets);
                    },
                    Some(open) => {
                        assert(pairs(p@, open as int, i as int));
                        table.set(i, Some(open));
                        table.set(open, Some(i));
                    },
                }
            },
            _ => {},
        }
        i = i + 1;
    }
    if stack.len() > 0 {
        return Err(SyntaxError::MissingClosedBracket);
    }
    proof {
        assert forall|q: int| 0 <= q < n implies #[trigger] table@[q] is Some == is_bracket(p@[q]) by {
            if p@[q] is Forward && table@[q] is None {
                assert(stack@.len() == 0);
            }
        }
    }
    Ok(table)
}

} // verus!
