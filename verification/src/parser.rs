use vstd::prelude::*;
use vstd::std_specs::iter::IteratorSpec;
use crate::error::Error;
use crate::inst::{command_kind, is_command, Inst, InstKind};
use crate::nesting::{
    lemma_last_below, lemma_prefix_agree, level, loop_end_of, loop_start_of, mass, seek_loop_end,
    seek_loop_start, weight, weights,
};

verus! {

/// What a character adds to the bracket depth.
pub open spec fn bracket_delta(c: char) -> int {
    if c == '[' {
        1
    } else if c == ']' {
        -1
    } else {
        0
    }
}

/// Bracket depth at the end of a text: the number of `[` minus the number of `]`.
pub open spec fn depth(src: Seq<char>) -> int
    decreases src.len(),
{
    if src.len() == 0 {
        0
    } else {
        depth(src.drop_last()) + bracket_delta(src.last())
    }
}

/// The brackets of a text balance: no `]` comes without an open `[`, and
/// every `[` is closed.
pub open spec fn balanced(src: Seq<char>) -> bool {
    &&& forall|k: int| 0 <= k <= src.len() ==> depth(#[trigger] src.take(k)) >= 0
    &&& depth(src) == 0
}

/// The commands of a text with equal neighbours collapsed into one
/// instruction, jump indices not yet set.
pub open spec fn encode(src: Seq<char>) -> Seq<Inst>
    decreases src.len(),
{
    if src.len() == 0 {
        Seq::empty()
    } else {
        let prev = encode(src.drop_last());
        match command_kind(src.last()) {
            None => prev,
            Some(kind) => if prev.len() > 0 && prev.last().kind == kind {
                prev.update(
                    prev.len() - 1,
                    Inst { times: (prev.last().times + 1) as usize, ..prev.last() },
                )
            } else {
                prev.push(Inst { idx: prev.len() as usize, kind, times: 1 })
            },
        }
    }
}

/// The kind of instruction `i` once its bracket is linked: a `[` jumps behind
/// the `]` that closes it, a `]` jumps behind the `[` that its first bracket
/// closes. A bracket without a partner and every other kind stay as they are.
pub open spec fn linked_kind(insts: Seq<Inst>, i: int) -> InstKind {
    match insts[i].kind {
        InstKind::LoopStart { .. } => {
            let j = loop_end_of(insts, i);
            if j < insts.len() {
                InstKind::LoopStart { end_idx: (j + 1) as usize }
            } else {
                insts[i].kind
            }
        },
        InstKind::LoopEnd { .. } => {
            let j = loop_start_of(insts, i);
            if j >= 0 {
                InstKind::LoopEnd { start_idx: (j + 1) as usize }
            } else {
                insts[i].kind
            }
        },
        other => other,
    }
}

/// A list of instructions with every bracket linked.
pub open spec fn link(insts: Seq<Inst>) -> Seq<Inst> {
    Seq::new(insts.len(), |i: int| Inst { kind: linked_kind(insts, i), ..insts[i] })
}

/// Instruction `k` is a `]` and the instruction before it is a `[`.
pub open spec fn empty_loop_at(insts: Seq<Inst>, k: int) -> bool {
    &&& 0 < k < insts.len()
    &&& insts[k - 1].kind is LoopStart
    &&& insts[k].kind is LoopEnd
}

/// Some `[` is directly followed by a `]`.
pub open spec fn has_empty_loop(insts: Seq<Inst>) -> bool {
    exists|k: int| empty_loop_at(insts, k)
}

/// What holds of every parsed program. Each instruction knows its position
/// and counts at least one occurrence, no two neighbours are the same
/// command, and every bracket is linked to a partner of the other kind: a `[`
/// jumps behind a later `]`, a `]` jumps behind an earlier `[`, neither to
/// the instruction next to it, so that every jump index is at most the length
/// of the list.
pub open spec fn well_formed(insts: Seq<Inst>) -> bool {
    forall|i: int|
        0 <= i < insts.len() ==> {
            &&& (#[trigger] insts[i]).idx == i
            &&& insts[i].times >= 1
            &&& i > 0 ==> insts[i - 1].kind.command() != insts[i].kind.command()
            &&& match insts[i].kind {
                InstKind::LoopStart { end_idx } => {
                    &&& i + 2 < end_idx <= insts.len()
                    &&& insts[end_idx - 1].kind is LoopEnd
                },
                InstKind::LoopEnd { start_idx } => {
                    &&& 1 <= start_idx < i
                    &&& insts[start_idx - 1].kind is LoopStart
                },
                _ => true,
            }
        }
}

/// What parsing a text gives.
pub open spec fn parsed(src: Seq<char>) -> Result<Seq<Inst>, Error> {
    if !balanced(src) {
        Err(Error::UnbalancedBrackets)
    } else if has_empty_loop(encode(src)) {
        Err(Error::InfiniteLoop)
    } else {
        Ok(link(encode(src)))
    }
}

/// Whether a character is one of the eight commands.
fn is_command_char(c: char) -> (b: bool)
    ensures
        b == is_command(c),
{
    c == '>' || c == '<' || c == '+' || c == '-' || c == '.' || c == ',' || c == '[' || c == ']'
}

/// Every text is at least as long in bytes as in characters.
proof fn lemma_utf8_len(chars: Seq<char>)
    ensures
        vstd::utf8::encode_utf8(chars).len() >= chars.len(),
    decreases chars.len(),
{
    if chars.len() > 0 {
        lemma_utf8_len(chars.drop_first());
    }
}

/// Sum of the repeat counts of a list of instructions.
pub open spec fn total_times(insts: Seq<Inst>) -> int
    decreases insts.len(),
{
    if insts.len() == 0 {
        0
    } else {
        total_times(insts.drop_last()) + insts.last().times
    }
}

/// The size of an encoding: it has no more instructions than the text has
/// characters, nor more occurrences in all; every instruction knows its
/// position, and every count is at least one and at most the sum of all.
pub proof fn lemma_encode_shape(src: Seq<char>)
    requires
        src.len() <= usize::MAX,
    ensures
        encode(src).len() <= src.len(),
        total_times(encode(src)) <= src.len(),
        forall|i: int|
            0 <= i < encode(src).len() ==> {
                &&& (#[trigger] encode(src)[i]).idx == i
                &&& 1 <= encode(src)[i].times <= total_times(encode(src))
            },
    decreases src.len(),
{
    if src.len() > 0 {
        let prev = encode(src.drop_last());
        lemma_encode_shape(src.drop_last());
        match command_kind(src.last()) {
            None => {},
            Some(kind) => {
                if prev.len() > 0 && prev.last().kind == kind {
                    let cur = encode(src);
                    assert(cur.drop_last() =~= prev.drop_last());
                    lemma_total_times_bounds(prev.drop_last());
                } else {
                    let cur = encode(src);
                    assert(cur.drop_last() =~= prev);
                }
            },
        }
    }
}

/// No instruction is repeated more often than all of them together.
pub proof fn lemma_total_times_bounds(insts: Seq<Inst>)
    ensures
        forall|i: int| 0 <= i < insts.len() ==> (#[trigger] insts[i]).times <= total_times(insts),
        total_times(insts) >= 0,
    decreases insts.len(),
{
    if insts.len() > 0 {
        lemma_total_times_bounds(insts.drop_last());
        assert forall|i: int| 0 <= i < insts.len() implies (#[trigger] insts[i]).times
            <= total_times(insts) by {
            if i < insts.len() - 1 {
                assert(insts.drop_last()[i] == insts[i]);
            }
        }
    }
}

/// A list holds no more brackets than occurrences of commands.
pub proof fn lemma_mass_le_total(insts: Seq<Inst>)
    ensures
        mass(weights(insts), insts.len() as int) <= total_times(insts),
    decreases insts.len(),
{
    if insts.len() > 0 {
        lemma_mass_le_total(insts.drop_last());
        lemma_prefix_agree(weights(insts), weights(insts.drop_last()), insts.len() - 1);
    }
}

/// Parses a program: keeps the eight command characters, collapses equal
/// neighbours into one instruction with a count, and links each bracket to
/// its partner.
pub fn parse(src: &str) -> (result: Result<Vec<Inst>, Error>)
    ensures
        match result {
            Ok(insts) => parsed(src@) == Ok::<Seq<Inst>, Error>(insts@) && well_formed(insts@),
            Err(e) => parsed(src@) == Err::<Seq<Inst>, Error>(e),
        },
{
    let mut loop_depth: usize = 0;
    let mut insts: Vec<Inst> = Vec::new();
    // The length in bytes bounds every count below: a text has no more
    // characters than bytes.
    let byte_len = src.as_bytes().len();
    proof {
        lemma_utf8_len(src@);
        assert(src@.len() <= byte_len);
    }
    // First pass: characters to instructions, equal neighbours collapsed.
    let mut chars = src.chars();
    let ghost mut k: int = 0;
    loop
        invariant
            0 <= k <= src@.len() <= usize::MAX,
            chars.remaining() == src@.skip(k),
            insts@ == encode(src@.take(k)),
            loop_depth == depth(src@.take(k)),
            loop_depth <= k,
            forall|j: int| 0 <= j <= k ==> depth(#[trigger] src@.take(j)) >= 0,
        ensures
            k == src@.len(),
        decreases src@.len() - k,
    {
        match chars.next() {
            None => {
                break ;
            },
            Some(c) => {
                proof {
                    assert(src@.take(k + 1).drop_last() =~= src@.take(k));
                    assert(src@.take(k + 1).last() == c);
                    lemma_encode_shape(src@.take(k));
                    lemma_encode_shape(src@.take(k + 1));
                }
                if is_command_char(c) {
                    if c == ']' {
                        if loop_depth == 0 {
                            return Err(Error::UnbalancedBrackets);
                        }
                        loop_depth -= 1;
                    } else if c == '[' {
                        loop_depth += 1;
                    }
                    let curr_inst = Inst::new(insts.len(), c);
                    let n = insts.len();
                    if n > 0 && insts[n - 1].kind == curr_inst.kind {
                        insts[n - 1].increment();
                    } else {
                        insts.push(curr_inst);
                    }
                }
                proof {
                    k = k + 1;
                }
            },
        }
    }
    proof {
        assert(src@.take(k) =~= src@);
    }
    if loop_depth > 0 {
        return Err(Error::UnbalancedBrackets);
    }
    // Second pass: link the brackets.
    let ghost e = insts@;
    proof {
        lemma_encode_shape(src@);
        lemma_mass_le_total(e);
    }
    let n = insts.len();
    let mut i: usize = 0;
    while i < n
        invariant
            i <= n == insts.len() == e.len(),
            e == encode(src@),
            balanced(src@),
            weights(insts@) == weights(e),
            mass(weights(e), n as int) <= usize::MAX,
            forall|k: int| 0 <= k < n ==> (#[trigger] e[k]).times >= 1,
            forall|k: int| 0 <= k < i ==> insts@[k] == #[trigger] link(e)[k],
            forall|k: int| i <= k < n ==> #[trigger] insts@[k] == e[k],
            forall|k: int| 0 < k < i ==> !#[trigger] empty_loop_at(e, k),
        decreases n - i,
    {
        let mut update_jmp_idx: Option<usize> = None;
        match insts[i].kind {
            InstKind::LoopStart { .. } => {
                update_jmp_idx = seek_loop_end(&insts, i);
            },
            InstKind::LoopEnd { .. } => {
                update_jmp_idx = seek_loop_start(&insts, i);
                proof {
                    if i > 0 {
                        assert(weights(e)[i - 1] == weight(e[i - 1]));
                    }
                }
                if let Some(jmp_idx) = update_jmp_idx {
                    if i == jmp_idx {
                        proof {
                            lemma_last_below(
                                weights(e),
                                level(weights(e), i as int),
                                i - 1,
                            );
                            assert(empty_loop_at(e, i as int));
                        }
                        return Err(Error::InfiniteLoop);
                    }
                }
            },
            _ => {},
        }
        if let Some(jmp_idx) = update_jmp_idx {
            insts[i].kind.set_jmp_idx(jmp_idx);
        }
        proof {
            assert(weights(insts@) =~= weights(e));
        }
        i += 1;
    }
    proof {
        assert(insts@ =~= link(e));
        crate::laws::lemma_parsed_well_formed(src@);
    }
    Ok(insts)
}

} // verus!
