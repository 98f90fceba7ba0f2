use brainfuck_riscv::compiler::compile_risc_v;
use brainfuck_riscv::instruction::Instruction;
use brainfuck_riscv::parser::{parse, ParseError};
use brainfuck_riscv::compile;

const PROLOGUE: &str = ".data\nmemory: .space 30000\n\n.text\nmain:\nla s0, memory\n";
const EPILOGUE: &str = "li\ta0, 0\nli \ta7, 93\necall\n\n";

fn body(program: &[Instruction]) -> String {
    let text = compile_risc_v(program);
    assert!(text.starts_with(PROLOGUE));
    assert!(text.ends_with(EPILOGUE));
    text[PROLOGUE.len()..text.len() - EPILOGUE.len()].to_string()
}

#[test]
fn empty_program_is_prologue_and_epilogue() {
    assert_eq!(compile_risc_v(&[]), format!("{}{}", PROLOGUE, EPILOGUE));
    assert_eq!(
        compile_risc_v(&[]),
        ".data\nmemory: .space 30000\n\n.text\nmain:\nla s0, memory\nli\ta0, 0\nli \ta7, 93\necall\n\n"
    );
}

#[test]
fn source_without_commands_compiles_to_prologue_and_epilogue() {
    assert_eq!(compile("").unwrap(), format!("{}{}", PROLOGUE, EPILOGUE));
    assert_eq!(compile("no commands here\n").unwrap(), format!("{}{}", PROLOGUE, EPILOGUE));
}

#[test]
fn pointer_moves_are_signed_immediates() {
    assert_eq!(body(&[Instruction::AddPtr { count: 3 }]), "addi s0, s0, 3\n\n");
    assert_eq!(body(&[Instruction::SubPtr { count: 2 }]), "addi s0, s0, -2\n\n");
    assert_eq!(body(&[Instruction::AddPtr { count: 1205 }]), "addi s0, s0, 1205\n\n");
    assert_eq!(body(&[Instruction::SubPtr { count: 90 }]), "addi s0, s0, -90\n\n");
}

#[test]
fn byte_changes_load_add_and_store() {
    assert_eq!(
        body(&[Instruction::AddByte { count: 12 }]),
        "lbu s1, (s0)\naddi s1, s1, 12\nsb s1, (s0)\n\n"
    );
    assert_eq!(
        body(&[Instruction::SubByte { count: 1 }]),
        "lbu s1, (s0)\naddi s1, s1, -1\nsb s1, (s0)\n\n"
    );
    assert_eq!(
        body(&[Instruction::SubByte { count: 300 }]),
        "lbu s1, (s0)\naddi s1, s1, -300\nsb s1, (s0)\n\n"
    );
}

#[test]
fn zero_count_is_written_as_zero() {
    assert_eq!(body(&[Instruction::AddPtr { count: 0 }]), "addi s0, s0, 0\n\n");
    assert_eq!(body(&[Instruction::SubPtr { count: 0 }]), "addi s0, s0, 0\n\n");
}

#[test]
fn largest_count_is_written_in_full() {
    assert_eq!(
        body(&[Instruction::AddPtr { count: usize::MAX }]),
        format!("addi s0, s0, {}\n\n", usize::MAX)
    );
    assert_eq!(
        body(&[Instruction::SubPtr { count: usize::MAX }]),
        format!("addi s0, s0, -{}\n\n", usize::MAX)
    );
}

#[test]
fn read_repeats_the_system_call() {
    assert_eq!(body(&[Instruction::Read { count: 1 }]), "li a7, 12\necall\nsb a0, (s0)\n\n");
    assert_eq!(
        body(&[Instruction::Read { count: 3 }]),
        "li a7, 12\necall\necall\necall\nsb a0, (s0)\n\n"
    );
}

#[test]
fn write_repeats_the_system_call() {
    assert_eq!(body(&[Instruction::Write { count: 1 }]), "lbu a0, (s0)\nli a7, 11\necall\n\n");
    assert_eq!(
        body(&[Instruction::Write { count: 2 }]),
        "lbu a0, (s0)\nli a7, 11\necall\necall\n\n"
    );
}

#[test]
fn loop_markers_jump_to_each_other() {
    let program = [Instruction::LoopStart { end: 1 }, Instruction::LoopEnd { start: 0 }];
    assert_eq!(
        body(&program),
        "lbu s1, (s0)\nbnez s1, start_0\nla t0, end_1\njr t0\nstart_0:\n\n\
         lbu s1, (s0)\nbeqz s1, end_1\nla t0, start_0\njr t0\nend_1:\n\n"
    );
}

#[test]
fn labels_carry_the_position_in_the_program() {
    let mut program = Vec::new();
    for _ in 0..5 {
        program.push(Instruction::AddByte { count: 1 });
        program.push(Instruction::AddPtr { count: 1 });
    }
    program.push(Instruction::LoopStart { end: 12 });
    program.push(Instruction::SubByte { count: 1 });
    program.push(Instruction::LoopEnd { start: 10 });
    let text = compile_risc_v(&program);
    assert!(text.contains("bnez s1, start_10\nla t0, end_12\njr t0\nstart_10:\n\n"));
    assert!(text.contains("beqz s1, end_12\nla t0, start_10\njr t0\nend_12:\n\n"));
}

#[test]
fn loop_targets_are_written_as_they_stand() {
    assert_eq!(
        body(&[Instruction::LoopStart { end: 77 }]),
        "lbu s1, (s0)\nbnez s1, start_0\nla t0, end_77\njr t0\nstart_0:\n\n"
    );
}

#[test]
fn end_to_end_example_compiles() {
    let program = parse("++>+<[-]").unwrap();
    let text = compile_risc_v(&program);
    assert_eq!(
        text,
        ".data\nmemory: .space 30000\n\n.text\nmain:\nla s0, memory\n\
         lbu s1, (s0)\naddi s1, s1, 2\nsb s1, (s0)\n\n\
         addi s0, s0, 1\n\n\
         lbu s1, (s0)\naddi s1, s1, 1\nsb s1, (s0)\n\n\
         addi s0, s0, -1\n\n\
         lbu s1, (s0)\nbnez s1, start_4\nla t0, end_6\njr t0\nstart_4:\n\n\
         lbu s1, (s0)\naddi s1, s1, -1\nsb s1, (s0)\n\n\
         lbu s1, (s0)\nbeqz s1, end_6\nla t0, start_4\njr t0\nend_6:\n\n\
         li\ta0, 0\nli \ta7, 93\necall\n\n"
    );
    assert_eq!(text.matches("bnez s1, start_").count(), 1);
    assert_eq!(text.matches("beqz s1, end_").count(), 1);
    assert_eq!(text.matches("start_4").count(), 3);
    assert_eq!(text.matches("end_6").count(), 3);
    assert_eq!(compile("++>+<[-]").unwrap(), text);
}

#[test]
fn compiling_twice_gives_the_same_text() {
    let source = "++++++++[>++++[>++>+++>+++>+<<<<-]>+>+>->>+[<]<-]>>.";
    assert_eq!(compile(source).unwrap(), compile(source).unwrap());
    let program = parse(source).unwrap();
    assert_eq!(compile_risc_v(&program), compile_risc_v(&program));
}

#[test]
fn compile_passes_parse_errors_on() {
    assert_eq!(compile("]").unwrap_err(), ParseError::UnmatchedLoopEnd);
    assert_eq!(compile("+[").unwrap_err(), ParseError::UnmatchedLoopStart);
}
