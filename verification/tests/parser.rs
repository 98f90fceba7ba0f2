use brainfuck_riscv::instruction::Instruction;
use brainfuck_riscv::parser::{parse, ParseError};

fn shown(program: &[Instruction]) -> String {
    format!("{:?}", program)
}

fn parsed(source: &str) -> String {
    match parse(source) {
        Ok(program) => shown(&program),
        Err(e) => panic!("{:?} on {:?}", e, source),
    }
}

#[test]
fn end_to_end_example_parses() {
    let expected = vec![
        Instruction::AddByte { count: 2 },
        Instruction::AddPtr { count: 1 },
        Instruction::AddByte { count: 1 },
        Instruction::SubPtr { count: 1 },
        Instruction::LoopStart { end: 6 },
        Instruction::SubByte { count: 1 },
        Instruction::LoopEnd { start: 4 },
    ];
    assert_eq!(parsed("++>+<[-]"), shown(&expected));
}

#[test]
fn single_close_is_unmatched_loop_end() {
    assert_eq!(parse("]").unwrap_err(), ParseError::UnmatchedLoopEnd);
}

#[test]
fn single_open_is_unmatched_loop_start() {
    assert_eq!(parse("[").unwrap_err(), ParseError::UnmatchedLoopStart);
}

#[test]
fn two_opens_one_close_is_unmatched_loop_start() {
    assert_eq!(parse("[[]").unwrap_err(), ParseError::UnmatchedLoopStart);
}

#[test]
fn one_open_two_closes_is_unmatched_loop_end() {
    assert_eq!(parse("[]]").unwrap_err(), ParseError::UnmatchedLoopEnd);
}

#[test]
fn close_before_open_is_unmatched_loop_end() {
    assert_eq!(parse("][").unwrap_err(), ParseError::UnmatchedLoopEnd);
    assert_eq!(parse("+]+[[").unwrap_err(), ParseError::UnmatchedLoopEnd);
}

#[test]
fn empty_source_is_empty_program() {
    assert_eq!(parse("").unwrap().len(), 0);
}

#[test]
fn source_without_commands_is_empty_program() {
    assert_eq!(parse("hello, world? no: the comma counts").unwrap().len(), 1);
    assert_eq!(parse("hello world\n\t é ü 123 ()").unwrap().len(), 0);
}

#[test]
fn repeats_fold_into_one_instruction() {
    assert_eq!(parsed("+"), shown(&[Instruction::AddByte { count: 1 }]));
    assert_eq!(parsed("+++++"), shown(&[Instruction::AddByte { count: 5 }]));
    assert_eq!(parsed("----"), shown(&[Instruction::SubByte { count: 4 }]));
    assert_eq!(parsed(">>>"), shown(&[Instruction::AddPtr { count: 3 }]));
    assert_eq!(parsed("<<"), shown(&[Instruction::SubPtr { count: 2 }]));
    assert_eq!(parsed(",,,,,,"), shown(&[Instruction::Read { count: 6 }]));
    assert_eq!(parsed("......."), shown(&[Instruction::Write { count: 7 }]));
}

#[test]
fn long_run_folds_to_its_length() {
    let source = "+".repeat(1000);
    assert_eq!(parsed(&source), shown(&[Instruction::AddByte { count: 1000 }]));
}

#[test]
fn repeats_fold_across_other_characters() {
    assert_eq!(parsed("+ a + b\n+"), shown(&[Instruction::AddByte { count: 3 }]));
}

#[test]
fn different_commands_do_not_fold() {
    let expected = vec![
        Instruction::AddByte { count: 2 },
        Instruction::SubByte { count: 1 },
        Instruction::AddByte { count: 1 },
    ];
    assert_eq!(parsed("++-+"), shown(&expected));
}

#[test]
fn loop_markers_are_never_folded() {
    let expected = vec![
        Instruction::LoopStart { end: 3 },
        Instruction::LoopStart { end: 2 },
        Instruction::LoopEnd { start: 1 },
        Instruction::LoopEnd { start: 0 },
    ];
    assert_eq!(parsed("[[]]"), shown(&expected));
}

#[test]
fn adjacent_loops_stay_apart() {
    let expected = vec![
        Instruction::LoopStart { end: 1 },
        Instruction::LoopEnd { start: 0 },
        Instruction::LoopStart { end: 3 },
        Instruction::LoopEnd { start: 2 },
    ];
    assert_eq!(parsed("[][]"), shown(&expected));
}

#[test]
fn folding_stops_at_a_loop_boundary() {
    let expected = vec![
        Instruction::AddByte { count: 3 },
        Instruction::LoopStart { end: 3 },
        Instruction::AddByte { count: 1 },
        Instruction::LoopEnd { start: 1 },
        Instruction::AddByte { count: 2 },
    ];
    assert_eq!(parsed("+++[+]++"), shown(&expected));
}

#[test]
fn other_characters_change_nothing() {
    let plain = parsed("++>+<[-]");
    assert_eq!(parsed("+ +\n> + < [ - ] end"), plain);
    assert_eq!(parsed("x++>+<y[-]z"), plain);
    assert_eq!(parsed("é++>+<[ü-]"), plain);
}

#[test]
fn loop_markers_point_at_each_other() {
    let program = parse("+[>[-]<[->+<]>.]").unwrap();
    let mut loops = 0;
    for (i, inst) in program.iter().enumerate() {
        match inst {
            Instruction::LoopStart { end } => {
                loops += 1;
                assert!(i < *end && *end < program.len());
                assert!(matches!(program[*end], Instruction::LoopEnd { start } if start == i));
            }
            Instruction::LoopEnd { start } => {
                assert!(*start < i);
                assert!(matches!(program[*start], Instruction::LoopStart { end } if end == i));
            }
            _ => {}
        }
    }
    assert_eq!(loops, 3);
}

#[test]
fn nested_loops_resolve_innermost_first() {
    let expected = vec![
        Instruction::AddByte { count: 1 },
        Instruction::LoopStart { end: 7 },
        Instruction::AddPtr { count: 1 },
        Instruction::LoopStart { end: 5 },
        Instruction::SubByte { count: 1 },
        Instruction::LoopEnd { start: 3 },
        Instruction::SubPtr { count: 1 },
        Instruction::LoopEnd { start: 1 },
    ];
    assert_eq!(parsed("+[>[-]<]"), shown(&expected));
}

#[test]
fn parsing_twice_gives_the_same_program() {
    assert_eq!(parsed("+[>[-]<]"), parsed("+[>[-]<]"));
}

fn unfolded(program: &[Instruction]) -> String {
    let mut text = String::new();
    for inst in program {
        let (c, n) = match inst {
            Instruction::AddPtr { count } => ('>', *count),
            Instruction::SubPtr { count } => ('<', *count),
            Instruction::AddByte { count } => ('+', *count),
            Instruction::SubByte { count } => ('-', *count),
            Instruction::Read { count } => (',', *count),
            Instruction::Write { count } => ('.', *count),
            Instruction::LoopStart { .. } => ('[', 1),
            Instruction::LoopEnd { .. } => (']', 1),
        };
        for _ in 0..n {
            text.push(c);
        }
    }
    text
}

#[test]
fn program_unfolds_to_the_commands_of_the_source() {
    let source = "read ,, then ++[>+++<-]>. and [[-]<] done..";
    let program = parse(source).unwrap();
    assert_eq!(unfolded(&program), ",,++[>+++<-]>.[[-]<]..");
}

#[test]
fn each_bracket_gives_one_loop_marker() {
    let program = parse("[[[]]][][[][]]").unwrap();
    assert_eq!(program.len(), 14);
    let starts = program.iter().filter(|i| matches!(i, Instruction::LoopStart { .. })).count();
    let ends = program.iter().filter(|i| matches!(i, Instruction::LoopEnd { .. })).count();
    assert_eq!(starts, 7);
    assert_eq!(ends, 7);
}

#[test]
fn no_counted_instruction_follows_one_of_its_variant() {
    let program = parse("++x++[--]>>><<<,.,,..").unwrap();
    for pair in program.windows(2) {
        if pair[1].can_increment() {
            assert!(pair[0] != pair[1]);
        }
    }
    assert_eq!(program.len(), 10);
}
