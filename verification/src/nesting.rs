use vstd::prelude::*;
use crate::inst::{Inst, InstKind};

verus! {

/// What an instruction adds to the nesting depth: its count for `[`, minus
/// its count for `]`, nothing otherwise.
pub open spec fn weight(inst: Inst) -> int {
    match inst.kind {
        InstKind::LoopStart { .. } => inst.times as int,
        InstKind::LoopEnd { .. } => -(inst.times as int),
        _ => 0,
    }
}

/// The weights of a list of instructions, in order.
pub open spec fn weights(insts: Seq<Inst>) -> Seq<int> {
    Seq::new(insts.len(), |i: int| weight(insts[i]))
}

/// Nesting depth in front of position `k`: the sum of the first `k` weights.
pub open spec fn level(w: Seq<int>, k: int) -> int
    decreases k,
{
    if k <= 0 {
        0
    } else {
        level(w, k - 1) + w[k - 1]
    }
}

/// Number of brackets in front of position `k`: the sum of the first `k`
/// weights without their signs.
pub open spec fn mass(w: Seq<int>, k: int) -> int
    decreases k,
{
    if k <= 0 {
        0
    } else {
        mass(w, k - 1) + if w[k - 1] < 0 {
            -w[k - 1]
        } else {
            w[k - 1]
        }
    }
}

/// The first position at or after `from` behind which the nesting depth is
/// `base` or less; the length of `w` if there is none.
pub open spec fn first_return(w: Seq<int>, base: int, from: int) -> int
    decreases w.len() - from,
{
    if from >= w.len() {
        w.len() as int
    } else if level(w, from + 1) <= base {
        from
    } else {
        first_return(w, base, from + 1)
    }
}

/// The last position at or before `from` in front of which the nesting depth
/// is less than `bound`; -1 if there is none.
pub open spec fn last_below(w: Seq<int>, bound: int, from: int) -> int
    decreases from + 1,
{
    if from < 0 {
        -1
    } else if level(w, from) < bound {
        from
    } else {
        last_below(w, bound, from - 1)
    }
}

/// Position of the `]` that closes the `[` at `i`; the length of the list if
/// nothing closes it.
pub open spec fn loop_end_of(insts: Seq<Inst>, i: int) -> int {
    first_return(weights(insts), level(weights(insts), i), i + 1)
}

/// Position of the `[` that the first `]` at `i` closes; -1 if it closes
/// nothing.
pub open spec fn loop_start_of(insts: Seq<Inst>, i: int) -> int {
    last_below(weights(insts), level(weights(insts), i), i - 1)
}

/// Two lists that agree on their first `k` weights have the same depth and
/// the same number of brackets in front of `k`.
pub proof fn lemma_prefix_agree(a: Seq<int>, b: Seq<int>, k: int)
    requires
        0 <= k <= a.len(),
        k <= b.len(),
        forall|m: int| 0 <= m < k ==> a[m] == b[m],
    ensures
        level(a, k) == level(b, k),
        mass(a, k) == mass(b, k),
    decreases k,
{
    if k > 0 {
        lemma_prefix_agree(a, b, k - 1);
    }
}

/// Between two positions the depth changes by no more than the number of
/// brackets between them.
pub proof fn lemma_level_span(w: Seq<int>, i: int, j: int)
    requires
        0 <= i <= j,
    ensures
        mass(w, i) <= mass(w, j),
        level(w, j) - level(w, i) <= mass(w, j) - mass(w, i),
        level(w, i) - level(w, j) <= mass(w, j) - mass(w, i),
        0 <= mass(w, i),
    decreases j,
{
    if i < j {
        lemma_level_span(w, i, j - 1);
    } else if i > 0 {
        lemma_level_span(w, 0, i - 1);
        lemma_level_span(w, i - 1, i - 1);
    }
}

/// Where `first_return` lands: in range, with every position before it
/// still above `base`, and itself at or below `base` when it is a position.
pub proof fn lemma_first_return(w: Seq<int>, base: int, from: int)
    requires
        0 <= from <= w.len(),
    ensures
        from <= first_return(w, base, from) <= w.len(),
        first_return(w, base, from) < w.len() ==> level(w, first_return(w, base, from) + 1)
            <= base,
        forall|k: int| from < k <= first_return(w, base, from) ==> #[trigger] level(w, k) > base,
    decreases w.len() - from,
{
    if from < w.len() && level(w, from + 1) > base {
        lemma_first_return(w, base, from + 1);
    }
}

/// Where `last_below` lands: in range, with every position after it at
/// `bound` or more, and itself below `bound` when it is a position.
pub proof fn lemma_last_below(w: Seq<int>, bound: int, from: int)
    requires
        -1 <= from,
    ensures
        -1 <= last_below(w, bound, from) <= from,
        last_below(w, bound, from) >= 0 ==> level(w, last_below(w, bound, from)) < bound,
        forall|k: int| last_below(w, bound, from) < k <= from ==> #[trigger] level(w, k) >= bound,
    decreases from + 1,
{
    if from >= 0 && level(w, from) >= bound {
        lemma_last_below(w, bound, from - 1);
    }
}

/// Looks forward from the `[` at `i` for the `]` that closes it and returns
/// the index behind that `]`.
pub(crate) fn seek_loop_end(insts: &Vec<Inst>, i: usize) -> (jmp_idx: Option<usize>)
    requires
        i < insts.len(),
        insts[i as int].kind is LoopStart,
        insts[i as int].times >= 1,
        mass(weights(insts@), insts.len() as int) <= usize::MAX,
    ensures
        match jmp_idx {
            Some(j) => j == loop_end_of(insts@, i as int) + 1 && i + 1 < j <= insts.len(),
            None => loop_end_of(insts@, i as int) == insts.len(),
        },
{
    let ghost w = weights(insts@);
    let ghost base = level(w, i as int);
    let mut loop_starts: usize = insts[i].times;
    let n = insts.len();
    let mut j: usize = i + 1;
    while j < n
        invariant
            i < j <= n == insts.len(),
            w == weights(insts@),
            base == level(w, i as int),
            loop_starts == level(w, j as int) - base,
            loop_starts >= 1,
            first_return(w, base, i + 1) == first_return(w, base, j as int),
            mass(w, n as int) <= usize::MAX,
        decreases n - j,
    {
        proof {
            lemma_level_span(w, i as int, j + 1);
            lemma_level_span(w, j + 1, n as int);
        }
        match insts[j].kind {
            InstKind::LoopEnd { .. } => {
                let loop_ends = insts[j].times;
                loop_starts = loop_starts.saturating_sub(loop_ends);
                if loop_starts == 0 {
                    return Some(j + 1);
                }
            },
            InstKind::LoopStart { .. } => {
                let nested_loop_starts = insts[j].times;
                loop_starts += nested_loop_starts;
            },
            _ => {},
        }
        j += 1;
    }
    None
}

/// Looks backward from the `]` at `i` for the `[` that its first bracket
/// closes and returns the index behind that `[`.
pub(crate) fn seek_loop_start(insts: &Vec<Inst>, i: usize) -> (jmp_idx: Option<usize>)
    requires
        i < insts.len(),
        insts[i as int].kind is LoopEnd,
        insts[i as int].times >= 1,
        mass(weights(insts@), insts.len() as int) <= usize::MAX,
    ensures
        match jmp_idx {
            Some(j) => j == loop_start_of(insts@, i as int) + 1 && 1 <= j <= i,
            None => loop_start_of(insts@, i as int) == -1,
        },
{
    let ghost w = weights(insts@);
    let ghost bound = level(w, i as int);
    let mut loop_ends: usize = 1;
    let mut j: usize = i;
    while j > 0
        invariant
            j <= i < insts.len(),
            w == weights(insts@),
            bound == level(w, i as int),
            loop_ends == 1 + level(w, j as int) - bound,
            loop_ends >= 1,
            last_below(w, bound, i - 1) == last_below(w, bound, j - 1),
            w[i as int] <= -1,
            mass(w, insts.len() as int) <= usize::MAX,
        decreases j,
    {
        j -= 1;
        proof {
            lemma_level_span(w, j as int, i as int);
            lemma_level_span(w, i as int, i + 1);
            lemma_level_span(w, i + 1, insts.len() as int);
            lemma_level_span(w, 0, j as int);
        }
        match insts[j].kind {
            InstKind::LoopStart { .. } => {
                let loop_starts = insts[j].times;
                loop_ends = loop_ends.saturating_sub(loop_starts);
                if loop_ends == 0 {
                    return Some(j + 1);
                }
            },
            InstKind::LoopEnd { .. } => {
                let nested_loop_ends = insts[j].times;
                loop_ends += nested_loop_ends;
            },
            _ => {},
        }
    }
    None
}

} // verus!
