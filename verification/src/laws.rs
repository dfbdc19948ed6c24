use vstd::prelude::*;
use crate::error::Error;
use crate::inst::{command_kind, is_command, Inst, InstKind, ARRAY_LEN};
use crate::machine::{add_wrapping, sub_wrapping, Action, MachineView};
use crate::nesting::{
    first_return, last_below, lemma_first_return, lemma_last_below, lemma_prefix_agree, level,
    loop_end_of, loop_start_of, weight, weights,
};
use crate::parser::{
    depth, empty_loop_at, encode, has_empty_loop, lemma_encode_shape, link, parsed, well_formed,
};

verus! {

/// The text that a list of instructions stands for: each command written as
/// often as its count says.
pub open spec fn expand(insts: Seq<Inst>) -> Seq<char>
    decreases insts.len(),
{
    if insts.len() == 0 {
        Seq::empty()
    } else {
        expand(insts.drop_last()) + Seq::new(
            insts.last().times as nat,
            |i: int| insts.last().kind.command(),
        )
    }
}

/// The command characters of a text, in order.
pub open spec fn commands(src: Seq<char>) -> Seq<char> {
    src.filter(|c: char| is_command(c))
}

/// Run-length encoding loses nothing and adds nothing: written out again, the
/// encoding of a text is the text without its non-command characters.
pub proof fn lemma_encode_expands_to_commands(src: Seq<char>)
    requires
        src.len() <= usize::MAX,
    ensures
        expand(encode(src)) == commands(src),
    decreases src.len(),
{
    reveal(Seq::filter);
    if src.len() > 0 {
        let prev = encode(src.drop_last());
        let cur = encode(src);
        lemma_encode_expands_to_commands(src.drop_last());
        lemma_encode_shape(src.drop_last());
        match command_kind(src.last()) {
            None => {},
            Some(kind) => {
                if prev.len() > 0 && prev.last().kind == kind {
                    assert(cur.drop_last() =~= prev.drop_last());
                    assert(expand(cur) =~= expand(prev).push(src.last()));
                } else {
                    assert(cur.drop_last() =~= prev);
                    assert(expand(cur) =~= expand(prev).push(src.last()));
                }
            },
        }
    }
}

/// Runs are maximal: in an encoding no two neighbours have the same kind,
/// every count is at least one, and every instruction knows its position.
pub proof fn lemma_encode_runs(src: Seq<char>, i: int)
    requires
        src.len() <= usize::MAX,
        0 <= i < encode(src).len(),
    ensures
        encode(src)[i].idx == i,
        encode(src)[i].times >= 1,
        i > 0 ==> encode(src)[i - 1].kind != encode(src)[i].kind,
        command_kind(encode(src)[i].kind.command()) == Some(encode(src)[i].kind),
    decreases src.len(),
{
    if src.len() > 0 {
        let prev = encode(src.drop_last());
        lemma_encode_shape(src.drop_last());
        if i < prev.len() {
            lemma_encode_runs(src.drop_last(), i);
        }
        if i > 0 && i - 1 < prev.len() {
            lemma_encode_runs(src.drop_last(), i - 1);
        }
    }
}

/// The nesting depth behind an encoding is the bracket depth of its text.
pub proof fn lemma_level_is_depth(src: Seq<char>)
    requires
        src.len() <= usize::MAX,
    ensures
        level(weights(encode(src)), encode(src).len() as int) == depth(src),
    decreases src.len(),
{
    if src.len() > 0 {
        let prev = encode(src.drop_last());
        let cur = encode(src);
        lemma_level_is_depth(src.drop_last());
        lemma_encode_shape(src.drop_last());
        match command_kind(src.last()) {
            None => {},
            Some(kind) => {
                if prev.len() > 0 && prev.last().kind == kind {
                    lemma_prefix_agree(weights(cur), weights(prev), prev.len() - 1);
                } else {
                    lemma_prefix_agree(weights(cur), weights(prev), prev.len() as int);
                }
            },
        }
    }
}

/// In the encoding of a text whose prefixes never close more than they
/// opened, the nesting depth is never negative.
pub proof fn lemma_level_nonnegative(src: Seq<char>, k: int)
    requires
        src.len() <= usize::MAX,
        forall|p: int| 0 <= p <= src.len() ==> depth(#[trigger] src.take(p)) >= 0,
        0 <= k <= encode(src).len(),
    ensures
        level(weights(encode(src)), k) >= 0,
    decreases src.len(),
{
    if src.len() > 0 {
        let prev = encode(src.drop_last());
        let cur = encode(src);
        lemma_encode_shape(src.drop_last());
        if k == cur.len() {
            lemma_level_is_depth(src);
            assert(src.take(src.len() as int) =~= src);
        } else {
            assert forall|p: int| 0 <= p <= src.drop_last().len() implies depth(
                #[trigger] src.drop_last().take(p),
            ) >= 0 by {
                assert(src.drop_last().take(p) =~= src.take(p));
            }
            lemma_level_nonnegative(src.drop_last(), k);
            lemma_prefix_agree(weights(cur), weights(prev), k);
        }
    }
}

/// Every bracket of a parsed program is linked, and linked to the right
/// kind: a `[` jumps behind a later `]`, a `]` jumps behind an earlier `[`,
/// and never to the instruction next to it. Every jump index is at most the
/// length of the program.
pub proof fn lemma_parsed_jumps(src: Seq<char>, i: int)
    requires
        src.len() <= usize::MAX,
        parsed(src) is Ok,
        0 <= i < parsed(src)->Ok_0.len(),
    ensures
        ({
            let insts = parsed(src)->Ok_0;
            match insts[i].kind {
                InstKind::LoopStart { end_idx } => {
                    &&& i + 2 < end_idx <= insts.len()
                    &&& insts[end_idx - 1].kind is LoopEnd
                    &&& end_idx == loop_end_of(encode(src), i) + 1
                },
                InstKind::LoopEnd { start_idx } => {
                    &&& 1 <= start_idx < i
                    &&& insts[start_idx - 1].kind is LoopStart
                    &&& start_idx == loop_start_of(encode(src), i) + 1
                },
                _ => true,
            }
        }),
{
    let e = encode(src);
    let w = weights(e);
    let n = e.len() as int;
    lemma_encode_shape(src);
    lemma_level_is_depth(src);
    lemma_level_nonnegative(src, i);
    lemma_level_nonnegative(src, i + 1);
    assert(w[i] == weight(e[i]));
    match e[i].kind {
        InstKind::LoopStart { .. } => {
            let base = level(w, i);
            lemma_first_return(w, base, i + 1);
            let j = first_return(w, base, i + 1);
            if j == n {
                if n > i + 1 {
                    assert(level(w, n) > base);
                }
            }
            assert(j < n);
            if j > i + 1 {
                assert(level(w, j) > base);
            }
            assert(w[j] == weight(e[j]));
            assert(e[j].kind is LoopEnd);
            if j == i + 1 {
                assert(empty_loop_at(e, i + 1));
            }
        },
        InstKind::LoopEnd { .. } => {
            let bound = level(w, i);
            lemma_last_below(w, bound, i - 1);
            let j = last_below(w, bound, i - 1);
            if j == -1 {
                if i > 0 {
                    assert(level(w, 0) >= bound);
                }
            }
            assert(j >= 0);
            if j + 1 < i {
                assert(level(w, j + 1) >= bound);
            }
            assert(w[j] == weight(e[j]));
            assert(e[j].kind is LoopStart);
            if j == i - 1 {
                assert(empty_loop_at(e, i));
            }
        },
        _ => {},
    }
}

/// A parsed program is well formed.
pub proof fn lemma_parsed_well_formed(src: Seq<char>)
    requires
        src.len() <= usize::MAX,
        parsed(src) is Ok,
    ensures
        well_formed(parsed(src)->Ok_0),
{
    let insts = parsed(src)->Ok_0;
    assert forall|i: int| 0 <= i < insts.len() implies {
        &&& (#[trigger] insts[i]).idx == i
        &&& insts[i].times >= 1
        &&& i > 0 ==> insts[i - 1].kind.command() != insts[i].kind.command()
        &&& match insts[i].kind {
            InstKind::LoopStart { end_idx } => {
                &&& i + 2 < end_idx <= insts.len()
                &&& insts[end_idx - 1].kind is LoopEnd
            },
            InstKind::LoopEnd { start_idx } => {
                &&& 1 <= start_idx < i
                &&& insts[start_idx - 1].kind is LoopStart
            },
            _ => true,
        }
    } by {
        lemma_encode_runs(src, i);
        if i > 0 {
            lemma_encode_runs(src, i - 1);
        }
        lemma_parsed_jumps(src, i);
    }
}

/// `cell` with one added `n` times over, wrapping at each step.
pub open spec fn add_one_by_one(cell: u8, n: nat) -> u8
    decreases n,
{
    if n == 0 {
        cell
    } else {
        add_wrapping(add_one_by_one(cell, (n - 1) as nat), 1)
    }
}

/// `cell` with one subtracted `n` times over, wrapping at each step.
pub open spec fn sub_one_by_one(cell: u8, n: nat) -> u8
    decreases n,
{
    if n == 0 {
        cell
    } else {
        sub_wrapping(sub_one_by_one(cell, (n - 1) as nat), 1)
    }
}

/// Adding `n` in one step gives what adding one `n` times gives, and the same
/// holds of subtracting.
pub proof fn lemma_wrapping_matches_single_steps(cell: u8, n: nat)
    ensures
        add_wrapping(cell, n as int) == add_one_by_one(cell, n),
        sub_wrapping(cell, n as int) == sub_one_by_one(cell, n),
    decreases n,
{
    if n > 0 {
        lemma_wrapping_matches_single_steps(cell, (n - 1) as nat);
        vstd::arithmetic::div_mod::lemma_add_mod_noop(cell + n - 1, 1, 256);
        vstd::arithmetic::div_mod::lemma_sub_mod_noop(cell - (n - 1), 1, 256);
    }
}

/// 256 steps in either direction bring a cell back to where it was, and a
/// subtraction undoes an addition of the same size.
pub proof fn lemma_wrapping_full_turn(cell: u8, n: int)
    ensures
        add_wrapping(cell, 256) == cell,
        sub_wrapping(cell, 256) == cell,
        add_wrapping(cell, n + 256) == add_wrapping(cell, n),
        sub_wrapping(cell, n + 256) == sub_wrapping(cell, n),
        sub_wrapping(add_wrapping(cell, n), n) == cell,
{
}

/// A text that repeats one command that is no bracket parses to a single
/// instruction with the length of the text as its count.
pub proof fn lemma_parse_single_run(src: Seq<char>, c: char)
    requires
        1 <= src.len() <= usize::MAX,
        is_command(c),
        c != '[',
        c != ']',
        forall|i: int| 0 <= i < src.len() ==> src[i] == c,
    ensures
        encode(src) == seq![
            Inst { idx: 0, kind: command_kind(c)->Some_0, times: src.len() as usize },
        ],
        depth(src) == 0,
        parsed(src) == Ok::<Seq<Inst>, Error>(encode(src)),
    decreases src.len(),
{
    let kind = command_kind(c)->Some_0;
    if src.len() > 1 {
        lemma_parse_single_run(src.drop_last(), c);
    } else {
        assert(encode(src.drop_last()) =~= Seq::<Inst>::empty());
        assert(depth(src.drop_last()) == 0);
    }
    assert(encode(src) =~= seq![Inst { idx: 0, kind, times: src.len() as usize }]);
    assert(depth(src) == 0);
    assert forall|k: int| 0 <= k <= src.len() implies depth(#[trigger] src.take(k)) >= 0 by {
        if k == src.len() {
            assert(src.take(k) =~= src);
        } else if k > 0 {
            lemma_parse_single_run(src.take(k), c);
        } else {
            assert(src.take(k).len() == 0);
        }
    }
    assert(!has_empty_loop(encode(src)));
    assert(link(encode(src)) =~= encode(src));
}

/// A program that only moves left fails on its first step, from the initial
/// state, with `PtrBelowZero`.
pub proof fn lemma_only_left_fails(src: Seq<char>)
    requires
        1 <= src.len() <= usize::MAX,
        forall|i: int| 0 <= i < src.len() ==> src[i] == '<',
    ensures
        parsed(src) is Ok,
        MachineView::initial().step(parsed(src)->Ok_0) == (
            MachineView::initial(),
            Err::<Action, Error>(Error::PtrBelowZero),
        ),
{
    lemma_parse_single_run(src, '<');
}

/// A program that only moves right, from the initial state: with as many
/// moves as the tape has cells, or more, its first step fails with
/// `PtrAboveLimit`; with fewer it puts the pointer on the cell of that number.
pub proof fn lemma_only_right(src: Seq<char>)
    requires
        1 <= src.len() <= usize::MAX,
        forall|i: int| 0 <= i < src.len() ==> src[i] == '>',
    ensures
        parsed(src) is Ok,
        src.len() >= ARRAY_LEN ==> MachineView::initial().step(parsed(src)->Ok_0) == (
            MachineView::initial(),
            Err::<Action, Error>(Error::PtrAboveLimit),
        ),
        src.len() < ARRAY_LEN ==> MachineView::initial().step(parsed(src)->Ok_0) == (
            MachineView { ptr: src.len() as int, inst_ptr: 1, ..MachineView::initial() },
            Ok::<Action, Error>(Action::Continue),
        ),
{
    lemma_parse_single_run(src, '>');
}

/// 256 increments in a row, or 256 decrements, leave every cell as it was:
/// the one step that executes them only moves the instruction pointer.
pub proof fn lemma_full_turn_program(src: Seq<char>, c: char, m: MachineView)
    requires
        src.len() == 256,
        c == '+' || c == '-',
        forall|i: int| 0 <= i < src.len() ==> src[i] == c,
        m.wf(),
        m.inst_ptr == 0,
        m.pending == 0,
    ensures
        parsed(src) is Ok,
        m.step(parsed(src)->Ok_0) == (m.advance(), Ok::<Action, Error>(Action::Continue)),
{
    lemma_parse_single_run(src, c);
    lemma_wrapping_full_turn(m.cell(), 0);
    assert(m.tape.update(m.ptr, m.cell()) =~= m.tape);
}

/// The pointer never leaves the tape: a step that would move it off fails
/// and changes nothing, and every other step and every input leaves a well
/// formed state.
pub proof fn lemma_pointer_stays_on_tape(m: MachineView, insts: Seq<Inst>, byte: Option<u8>)
    requires
        m.wf(),
    ensures
        m.step(insts).0.wf(),
        m.input(byte).wf(),
        m.step(insts).1 is Err ==> m.step(insts).0 == m,
        m.step(insts).1 == Err::<Action, Error>(Error::PtrAboveLimit) <==> {
            &&& m.pending == 0
            &&& m.inst_ptr < insts.len()
            &&& insts[m.inst_ptr].kind is IncPtr
            &&& m.ptr + insts[m.inst_ptr].times >= ARRAY_LEN
        },
        m.step(insts).1 == Err::<Action, Error>(Error::PtrBelowZero) <==> {
            &&& m.pending == 0
            &&& m.inst_ptr < insts.len()
            &&& insts[m.inst_ptr].kind is DecPtr
            &&& insts[m.inst_ptr].times > m.ptr
        },
{
}

/// The end of the input is no failure, and it is final. A machine that waits
/// for a byte asks for one, whatever the program. Told that the input has
/// ended, it stores 0 in the current cell, touches nothing else on the tape,
/// gives up the reads that the instruction still wanted, and goes on with the
/// next instruction.
pub proof fn lemma_end_of_input(m: MachineView, insts: Seq<Inst>)
    requires
        m.wf(),
        m.pending > 0,
    ensures
        m.step(insts) == (m, Ok::<Action, Error>(Action::Read)),
        m.input(None).wf(),
        m.input(None).input_ended,
        m.input(None).pending == 0,
        m.input(None).tape == m.tape.update(m.ptr, 0u8),
        m.input(None).cell() == 0,
        m.input(None).ptr == m.ptr,
        m.input(None).inst_ptr == m.inst_ptr + 1,
{
}

/// Once the input has ended, the machine never asks for a byte again: no
/// step returns `Action::Read`, the input stays ended, what is handed to the
/// machine is ignored, and a read of one byte or more stores 0 in the current
/// cell in the one step that executes it.
pub proof fn lemma_input_stays_ended(m: MachineView, insts: Seq<Inst>, byte: Option<u8>)
    requires
        m.wf(),
        m.input_ended,
    ensures
        m.step(insts).1 != Ok::<Action, Error>(Action::Read),
        m.step(insts).0.input_ended,
        m.step(insts).0.wf(),
        m.input(byte) == m,
        m.inst_ptr < insts.len() && insts[m.inst_ptr].kind is ReadByte && insts[m.inst_ptr].times
            >= 1 ==> {
            &&& m.step(insts) == (m.store(0u8).advance(), Ok::<Action, Error>(Action::Flush))
            &&& m.step(insts).0.cell() == 0
            &&& m.step(insts).0.tape == m.tape.update(m.ptr, 0u8)
        },
{
}

/// What a caller does with a machine: take a step, or hand it what the
/// input gave.
pub enum Move {
    /// A call of `step`.
    Step,
    /// A call of `input` with a byte, or with `None` for the end.
    Input(Option<u8>),
}

/// The state of a machine after a series of moves over `insts`.
pub open spec fn after(m: MachineView, insts: Seq<Inst>, moves: Seq<Move>) -> MachineView
    decreases moves.len(),
{
    if moves.len() == 0 {
        m
    } else {
        let before = after(m, insts, moves.drop_last());
        match moves.last() {
            Move::Step => before.step(insts).0,
            Move::Input(byte) => before.input(byte),
        }
    }
}

/// For the rest of a run: whatever a caller does after the input has ended,
/// and whatever it hands over, the input stays ended, no byte is asked for,
/// and no byte handed over reaches the tape.
pub proof fn lemma_end_of_input_is_final(m: MachineView, insts: Seq<Inst>, moves: Seq<Move>)
    requires
        m.wf(),
        m.input_ended,
    ensures
        after(m, insts, moves).wf(),
        after(m, insts, moves).input_ended,
        after(m, insts, moves).pending == 0,
        after(m, insts, moves).step(insts).1 != Ok::<Action, Error>(Action::Read),
        moves.len() > 0 && moves.last() is Input ==> after(m, insts, moves) == after(
            m,
            insts,
            moves.drop_last(),
        ),
    decreases moves.len(),
{
    if moves.len() > 0 {
        lemma_end_of_input_is_final(m, insts, moves.drop_last());
    }
}

/// Jumps stay inside the program: over a parsed program, a machine whose
/// instruction pointer is at most the length of the program keeps it so.
pub proof fn lemma_inst_ptr_stays_in_program(src: Seq<char>, m: MachineView, byte: Option<u8>)
    requires
        src.len() <= usize::MAX,
        parsed(src) is Ok,
        m.wf(),
        m.inst_ptr <= parsed(src)->Ok_0.len(),
        m.pending > 0 ==> m.inst_ptr < parsed(src)->Ok_0.len(),
    ensures
        m.step(parsed(src)->Ok_0).0.inst_ptr <= parsed(src)->Ok_0.len(),
        m.input(byte).inst_ptr <= parsed(src)->Ok_0.len(),
        m.step(parsed(src)->Ok_0).0.pending > 0 ==> m.step(parsed(src)->Ok_0).0.inst_ptr
            < parsed(src)->Ok_0.len(),
        m.input(byte).pending > 0 ==> m.input(byte).inst_ptr < parsed(src)->Ok_0.len(),
{
    let insts = parsed(src)->Ok_0;
    if m.pending == 0 && m.inst_ptr < insts.len() {
        lemma_parsed_jumps(src, m.inst_ptr);
    }
}

} // verus!
