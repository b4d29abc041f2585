use vstd::prelude::*;
use crate::operation::Operation;

verus! {

/// How an instruction changes the bracket nesting: a jump-forward opens a
/// level, a jump-back closes one.
pub open spec fn delta(op: Operation) -> int {
    match op {
        Operation::JumpForward => 1,
        Operation::JumpBack => -1,
        _ => 0,
    }
}

/// The nesting level in front of position `i`: jump-forwards minus
/// jump-backs among the first `i` instructions.
pub open spec fn level(s: Seq<Operation>, i: int) -> int
    decreases i,
{
    if i <= 0 {
        0
    } else {
        level(s, i - 1) + delta(s[i - 1])
    }
}

/// Every jump-back closes an earlier jump-forward, and every jump-forward
/// is closed.
pub open spec fn balanced(s: Seq<Operation>) -> bool {
    &&& level(s, s.len() as int) == 0
    &&& forall|i: int| 0 <= i <= s.len() ==> #[trigger] level(s, i) >= 0
}

/// The jump-forward at `open` and the jump-back at `close` match: the
/// nesting level comes back to where it stood before `open` first just
/// after `close`.
pub open spec fn pairs(s: Seq<Operation>, open: int, close: int) -> bool {
    &&& 0 <= open < close < s.len()
    &&& level(s, close + 1) == level(s, open)
    &&& forall|k: int| open < k <= close ==> #[trigger] level(s, k) > level(s, open)
}

/// Between two positions the level moves by at most one per instruction.
pub proof fn lemma_level_step_bound(s: Seq<Operation>, a: int, b: int)
    requires
        0 <= a <= b,
    ensures
        level(s, b) - level(s, a) <= b - a,
        level(s, a) - level(s, b) <= b - a,
    decreases b - a,
{
    if a < b {
        lemma_level_step_bound(s, a, b - 1);
    }
}

/// The level in front of `i` depends only on the first `i` instructions.
pub proof fn lemma_level_prefix(s: Seq<Operation>, t: Seq<Operation>, i: int)
    requires
        0 <= i <= s.len(),
        i <= t.len(),
        forall|j: int| 0 <= j < i ==> s[j] == t[j],
    ensures
        level(s, i) == level(t, i),
    decreases i,
{
    if i > 0 {
        lemma_level_prefix(s, t, i - 1);
    }
}

/// Extending a program with no-ops changes no level and keeps it balanced.
pub proof fn lemma_noop_tail(s: Seq<Operation>, t: Seq<Operation>)
    requires
        s.len() <= t.len(),
        forall|j: int| 0 <= j < s.len() ==> t[j] == s[j],
        forall|j: int| s.len() <= j < t.len() ==> t[j] == Operation::NoOp,
    ensures
        forall|i: int| 0 <= i <= s.len() ==> #[trigger] level(t, i) == level(s, i),
        forall|i: int| s.len() <= i <= t.len() ==> #[trigger] level(t, i) == level(s, s.len() as int),
        balanced(s) ==> balanced(t),
{
    assert forall|i: int| 0 <= i <= s.len() implies #[trigger] level(t, i) == level(s, i) by {
        lemma_level_prefix(s, t, i);
    }
    assert forall|i: int| s.len() <= i <= t.len() implies #[trigger] level(t, i) == level(
        s,
        s.len() as int,
    ) by {
        lemma_noop_tail_level(s, t, i);
    }
    if balanced(s) {
        assert forall|i: int| 0 <= i <= t.len() implies #[trigger] level(t, i) >= 0 by {
            if i > s.len() {
                lemma_noop_tail_level(s, t, i);
            } else {
                lemma_level_prefix(s, t, i);
            }
        }
        lemma_noop_tail_level(s, t, t.len() as int);
    }
}

proof fn lemma_noop_tail_level(s: Seq<Operation>, t: Seq<Operation>, i: int)
    requires
        s.len() <= i <= t.len(),
        forall|j: int| 0 <= j < s.len() ==> t[j] == s[j],
        forall|j: int| s.len() <= j < t.len() ==> t[j] == Operation::NoOp,
    ensures
        level(t, i) == level(s, s.len() as int),
    decreases i,
{
    if i == s.len() {
        lemma_level_prefix(s, t, i);
    } else {
        lemma_noop_tail_level(s, t, i - 1);
    }
}

/// A matched pair runs from a jump-forward to a jump-back.
pub proof fn lemma_pair_brackets(s: Seq<Operation>, open: int, close: int)
    requires
        pairs(s, open, close),
    ensures
        s[open] == Operation::JumpForward,
        s[close] == Operation::JumpBack,
{
    assert(level(s, open + 1) > level(s, open));
    assert(level(s, close) > level(s, open));
}

/// A jump-forward has at most one matching jump-back, and a jump-back at
/// most one matching jump-forward.
pub proof fn lemma_pair_unique(s: Seq<Operation>, o1: int, c1: int, o2: int, c2: int)
    requires
        pairs(s, o1, c1),
        pairs(s, o2, c2),
        o1 == o2 || c1 == c2,
    ensures
        o1 == o2 && c1 == c2,
{
    if o1 == o2 {
        if c1 < c2 {
            assert(level(s, c1 + 1) > level(s, o1));
        } else if c2 < c1 {
            assert(level(s, c2 + 1) > level(s, o1));
        }
    } else {
        if o1 < o2 {
            assert(level(s, o2) > level(s, o1));
        } else {
            assert(level(s, o1) > level(s, o2));
        }
    }
}

/// In a balanced program every jump-forward has a matching jump-back.
pub proof fn lemma_close_exists(s: Seq<Operation>, open: int)
    requires
        balanced(s),
        0 <= open < s.len(),
        s[open] == Operation::JumpForward,
    ensures
        exists|close: int| pairs(s, open, close),
{
    assert(level(s, open) >= 0);
    lemma_close_search(s, open, open + 1);
}

proof fn lemma_close_search(s: Seq<Operation>, open: int, k: int)
    requires
        balanced(s),
        0 <= open < k <= s.len(),
        level(s, open) >= 0,
        forall|j: int| open < j <= k ==> #[trigger] level(s, j) > level(s, open),
    ensures
        exists|close: int| pairs(s, open, close),
    decreases s.len() - k,
{
    assert(k < s.len());
    if level(s, k + 1) == level(s, open) {
        assert(pairs(s, open, k));
    } else {
        assert(level(s, k + 1) == level(s, k) + delta(s[k]));
        assert(level(s, k + 1) > level(s, open));
        lemma_close_search(s, open, k + 1);
    }
}

/// In a balanced program every jump-back has a matching jump-forward.
pub proof fn lemma_open_exists(s: Seq<Operation>, close: int)
    requires
        balanced(s),
        0 <= close < s.len(),
        s[close] == Operation::JumpBack,
    ensures
        exists|open: int| pairs(s, open, close),
{
    assert(level(s, close + 1) >= 0);
    lemma_open_search(s, close, close);
}

proof fn lemma_open_search(s: Seq<Operation>, close: int, k: int)
    requires
        balanced(s),
        0 <= k <= close < s.len(),
        s[close] == Operation::JumpBack,
        level(s, close + 1) >= 0,
        forall|j: int| k < j <= close ==> #[trigger] level(s, j) > level(s, close + 1),
    ensures
        exists|open: int| pairs(s, open, close),
    decreases k,
{
    if k < close {
        assert(level(s, k + 1) > level(s, close + 1));
    }
    if level(s, k) == level(s, close + 1) {
        assert(pairs(s, k, close));
    } else {
        assert(level(s, k) > level(s, close + 1));
        assert(k > 0);
        lemma_open_search(s, close, k - 1);
    }
}

/// Whether the brackets of a program are balanced.
pub fn check_balanced(ops: &[Operation]) -> (r: bool)
    ensures
        r == balanced(ops@),
{
    let ghost s = ops@;
    let mut depth: usize = 0;
    let mut i: usize = 0;
    while i < ops.len()
        invariant
            s == ops@,
            i <= s.len(),
            depth == level(s, i as int),
            forall|j: int| 0 <= j <= i ==> #[trigger] level(s, j) >= 0,
        decreases s.len() - i,
    {
        proof {
            lemma_level_step_bound(s, 0, i + 1);
        }
        match ops[i] {
            Operation::JumpForward => {
                depth = depth + 1;
            },
            Operation::JumpBack => {
                if depth == 0 {
                    assert(level(s, i + 1) < 0);
                    return false;
                }
                depth = depth - 1;
            },
            _ => {},
        }
        i = i + 1;
    }
    depth == 0
}

} // verus!
