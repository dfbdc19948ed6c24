use brainfuck_compilers::{parse, Error, Inst, InstKind};

fn inst(idx: usize, kind: InstKind, times: usize) -> Inst {
    Inst { idx, kind, times }
}

#[test]
fn equal_neighbours_collapse() {
    let insts = parse("++++").unwrap();
    assert_eq!(insts, vec![inst(0, InstKind::IncByte, 4)]);
}

#[test]
fn different_kinds_do_not_merge() {
    let insts = parse("+-+").unwrap();
    assert_eq!(
        insts,
        vec![
            inst(0, InstKind::IncByte, 1),
            inst(1, InstKind::DecByte, 1),
            inst(2, InstKind::IncByte, 1),
        ]
    );
}

#[test]
fn every_command_has_its_kind() {
    let insts = parse("><+-.,").unwrap();
    assert_eq!(
        insts,
        vec![
            inst(0, InstKind::IncPtr, 1),
            inst(1, InstKind::DecPtr, 1),
            inst(2, InstKind::IncByte, 1),
            inst(3, InstKind::DecByte, 1),
            inst(4, InstKind::WriteByte, 1),
            inst(5, InstKind::ReadByte, 1),
        ]
    );
}

#[test]
fn empty_source_is_an_empty_program() {
    assert_eq!(parse(""), Ok(vec![]));
}

#[test]
fn other_characters_are_ignored() {
    let insts = parse("add two: + and\n+ more \u{e9}\u{4e16} >x>").unwrap();
    assert_eq!(insts, vec![inst(0, InstKind::IncByte, 2), inst(1, InstKind::IncPtr, 2)]);
}

#[test]
fn a_comment_does_not_end_a_run() {
    assert_eq!(parse("--- minus ---"), Ok(vec![inst(0, InstKind::DecByte, 6)]));
}

#[test]
fn lone_close_is_unbalanced() {
    assert_eq!(parse("]"), Err(Error::UnbalancedBrackets));
}

#[test]
fn lone_open_is_unbalanced() {
    assert_eq!(parse("["), Err(Error::UnbalancedBrackets));
}

#[test]
fn close_before_open_is_unbalanced() {
    assert_eq!(parse("]["), Err(Error::UnbalancedBrackets));
    assert_eq!(parse("+]+["), Err(Error::UnbalancedBrackets));
}

#[test]
fn open_left_over_is_unbalanced() {
    assert_eq!(parse("[[+]"), Err(Error::UnbalancedBrackets));
    assert_eq!(parse("[+]["), Err(Error::UnbalancedBrackets));
}

#[test]
fn one_close_too_many_is_unbalanced() {
    assert_eq!(parse("[+]]"), Err(Error::UnbalancedBrackets));
}

#[test]
fn unbalanced_wins_over_infinite_loop() {
    assert_eq!(parse("[][+"), Err(Error::UnbalancedBrackets));
    assert_eq!(parse("[]]"), Err(Error::UnbalancedBrackets));
}

#[test]
fn adjacent_brackets_are_an_infinite_loop() {
    assert_eq!(parse("[]"), Err(Error::InfiniteLoop));
}

#[test]
fn adjacent_brackets_with_a_comment_between_are_an_infinite_loop() {
    assert_eq!(parse("[ nothing ]"), Err(Error::InfiniteLoop));
}

#[test]
fn adjacent_bracket_groups_are_an_infinite_loop() {
    assert_eq!(parse("[[]]"), Err(Error::InfiniteLoop));
    assert_eq!(parse("+[-[]+]"), Err(Error::InfiniteLoop));
}

#[test]
fn loop_with_a_body_parses() {
    let insts = parse("[+]").unwrap();
    assert_eq!(
        insts,
        vec![
            inst(0, InstKind::LoopStart { end_idx: 3 }, 1),
            inst(1, InstKind::IncByte, 1),
            inst(2, InstKind::LoopEnd { start_idx: 1 }, 1),
        ]
    );
}

#[test]
fn brackets_jump_behind_each_other() {
    let insts = parse("[->+<]").unwrap();
    assert_eq!(insts.len(), 6);
    assert_eq!(insts[0].kind, InstKind::LoopStart { end_idx: 6 });
    assert_eq!(insts[5].kind, InstKind::LoopEnd { start_idx: 1 });
    assert_eq!(
        insts,
        vec![
            inst(0, InstKind::LoopStart { end_idx: 6 }, 1),
            inst(1, InstKind::DecByte, 1),
            inst(2, InstKind::IncPtr, 1),
            inst(3, InstKind::IncByte, 1),
            inst(4, InstKind::DecPtr, 1),
            inst(5, InstKind::LoopEnd { start_idx: 1 }, 1),
        ]
    );
}

#[test]
fn bracket_groups_count_with_their_weight() {
    let insts = parse("[[+]]").unwrap();
    assert_eq!(
        insts,
        vec![
            inst(0, InstKind::LoopStart { end_idx: 3 }, 2),
            inst(1, InstKind::IncByte, 1),
            inst(2, InstKind::LoopEnd { start_idx: 1 }, 2),
        ]
    );
}

#[test]
fn inner_open_jumps_behind_the_whole_group_of_closes() {
    let insts = parse("[+[+]]").unwrap();
    assert_eq!(
        insts,
        vec![
            inst(0, InstKind::LoopStart { end_idx: 5 }, 1),
            inst(1, InstKind::IncByte, 1),
            inst(2, InstKind::LoopStart { end_idx: 5 }, 1),
            inst(3, InstKind::IncByte, 1),
            inst(4, InstKind::LoopEnd { start_idx: 3 }, 2),
        ]
    );
}

#[test]
fn group_of_opens_jumps_behind_the_close_that_uses_it_up() {
    let insts = parse("[[+]-]").unwrap();
    assert_eq!(
        insts,
        vec![
            inst(0, InstKind::LoopStart { end_idx: 5 }, 2),
            inst(1, InstKind::IncByte, 1),
            inst(2, InstKind::LoopEnd { start_idx: 1 }, 1),
            inst(3, InstKind::DecByte, 1),
            inst(4, InstKind::LoopEnd { start_idx: 1 }, 1),
        ]
    );
}

#[test]
fn loops_side_by_side_link_separately() {
    let insts = parse("[-]>[+]").unwrap();
    assert_eq!(
        insts,
        vec![
            inst(0, InstKind::LoopStart { end_idx: 3 }, 1),
            inst(1, InstKind::DecByte, 1),
            inst(2, InstKind::LoopEnd { start_idx: 1 }, 1),
            inst(3, InstKind::IncPtr, 1),
            inst(4, InstKind::LoopStart { end_idx: 7 }, 1),
            inst(5, InstKind::IncByte, 1),
            inst(6, InstKind::LoopEnd { start_idx: 5 }, 1),
        ]
    );
}

#[test]
fn positions_count_from_zero_without_gaps() {
    let insts = parse("+>-<.,[+]").unwrap();
    for (i, inst) in insts.iter().enumerate() {
        assert_eq!(inst.idx, i);
        assert!(inst.times >= 1);
    }
}

#[test]
fn written_out_again_the_program_is_its_commands() {
    let src = "++ [ > +++ x [ - ] << ] ,,. y";
    let insts = parse(src).unwrap();
    let mut text = String::new();
    for inst in &insts {
        let c = match inst.kind {
            InstKind::IncPtr => '>',
            InstKind::DecPtr => '<',
            InstKind::IncByte => '+',
            InstKind::DecByte => '-',
            InstKind::WriteByte => '.',
            InstKind::ReadByte => ',',
            InstKind::LoopStart { .. } => '[',
            InstKind::LoopEnd { .. } => ']',
        };
        for _ in 0..inst.times {
            text.push(c);
        }
    }
    assert_eq!(text, "++[>+++[-]<<],,.");
    for pair in insts.windows(2) {
        assert_ne!(
            std::mem::discriminant(&pair[0].kind),
            std::mem::discriminant(&pair[1].kind)
        );
    }
}

#[test]
fn new_instruction_counts_once() {
    assert_eq!(Inst::new(7, '+'), inst(7, InstKind::IncByte, 1));
    assert_eq!(Inst::new(0, '>'), inst(0, InstKind::IncPtr, 1));
    assert_eq!(Inst::new(1, '<'), inst(1, InstKind::DecPtr, 1));
    assert_eq!(Inst::new(2, '-'), inst(2, InstKind::DecByte, 1));
    assert_eq!(Inst::new(3, '.'), inst(3, InstKind::WriteByte, 1));
    assert_eq!(Inst::new(4, ','), inst(4, InstKind::ReadByte, 1));
    assert_eq!(Inst::new(5, '['), inst(5, InstKind::LoopStart { end_idx: 0 }, 1));
    assert_eq!(Inst::new(6, ']'), inst(6, InstKind::LoopEnd { start_idx: 0 }, 1));
}

#[test]
fn increment_adds_one_occurrence() {
    let mut i = Inst::new(3, '-');
    i.increment();
    i.increment();
    assert_eq!(i, inst(3, InstKind::DecByte, 3));
}

#[test]
fn set_jmp_idx_sets_either_bracket() {
    let mut open = InstKind::LoopStart { end_idx: 0 };
    open.set_jmp_idx(9);
    assert_eq!(open, InstKind::LoopStart { end_idx: 9 });
    let mut close = InstKind::LoopEnd { start_idx: 0 };
    close.set_jmp_idx(4);
    assert_eq!(close, InstKind::LoopEnd { start_idx: 4 });
}
