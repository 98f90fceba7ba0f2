//! The back end: from a program of instructions to RISC-V assembly text.
//!
//! The text is a fixed prologue, one block per instruction in program
//! order, and a fixed epilogue. [`assembly`] says what the text is;
//! [`compile_risc_v`] writes it.

use vstd::prelude::*;
use vstd::string::StringExecFns;
use crate::instruction::Instruction;

verus! {

/// The character of a decimal digit.
pub open spec fn digit(d: nat) -> char
    recommends
        d < 10,
{
    if d == 0 {
        '0'
    } else if d == 1 {
        '1'
    } else if d == 2 {
        '2'
    } else if d == 3 {
        '3'
    } else if d == 4 {
        '4'
    } else if d == 5 {
        '5'
    } else if d == 6 {
        '6'
    } else if d == 7 {
        '7'
    } else if d == 8 {
        '8'
    } else {
        '9'
    }
}

/// The decimal numeral of `n`, without leading zeros.
pub open spec fn decimal(n: nat) -> Seq<char>
    decreases n,
{
    if n < 10 {
        seq![digit(n)]
    } else {
        decimal(n / 10).push(digit(n % 10))
    }
}

/// The numeral of `-n` as an immediate operand: a minus sign before the
/// numeral of `n`, and plain `0` for zero.
pub open spec fn negated(n: nat) -> Seq<char> {
    if n == 0 {
        decimal(0)
    } else {
        "-"@ + decimal(n)
    }
}

/// `n` system calls, one per line.
pub open spec fn ecalls(n: nat) -> Seq<char>
    decreases n,
{
    if n == 0 {
        Seq::empty()
    } else {
        ecalls((n - 1) as nat) + "ecall\n"@
    }
}

/// The data section with the 30000-byte tape, and the start of the text
/// section, which loads the tape's address into the pointer register `s0`.
pub open spec fn prologue() -> Seq<char> {
    ".data\nmemory: .space 30000\n\n.text\nmain:\nla s0, memory\n"@
}

/// The exit system call with status 0.
pub open spec fn epilogue() -> Seq<char> {
    "li\ta0, 0\nli \ta7, 93\necall\n\n"@
}

/// The block of assembly for the instruction `inst` at position `index`.
///
/// A loop marker defines a label named by its own position (`start_` or
/// `end_` and the position) and jumps to the label of the position it names.
pub open spec fn block(index: nat, inst: Instruction) -> Seq<char> {
    match inst {
        Instruction::AddPtr { count } => "addi s0, s0, "@ + decimal(count as nat) + "\n\n"@,
        Instruction::SubPtr { count } => "addi s0, s0, "@ + negated(count as nat) + "\n\n"@,
        Instruction::AddByte { count } => "lbu s1, (s0)\naddi s1, s1, "@ + decimal(count as nat)
            + "\nsb s1, (s0)\n\n"@,
        Instruction::SubByte { count } => "lbu s1, (s0)\naddi s1, s1, "@ + negated(count as nat)
            + "\nsb s1, (s0)\n\n"@,
        Instruction::Read { count } => "li a7, 12\n"@ + ecalls(count as nat) + "sb a0, (s0)\n\n"@,
        Instruction::Write { count } => "lbu a0, (s0)\nli a7, 11\n"@ + ecalls(count as nat)
            + "\n"@,
        Instruction::LoopStart { end } => "lbu s1, (s0)\nbnez s1, start_"@ + decimal(index)
            + "\nla t0, end_"@ + decimal(end as nat) + "\njr t0\nstart_"@ + decimal(index)
            + ":\n\n"@,
        Instruction::LoopEnd { start } => "lbu s1, (s0)\nbeqz s1, end_"@ + decimal(index)
            + "\nla t0, start_"@ + decimal(start as nat) + "\njr t0\nend_"@ + decimal(index)
            + ":\n\n"@,
    }
}

/// The blocks of all instructions of `program`, in order.
pub open spec fn blocks(program: Seq<Instruction>) -> Seq<char>
    decreases program.len(),
{
    if program.len() == 0 {
        Seq::empty()
    } else {
        blocks(program.drop_last()) + block((program.len() - 1) as nat, program.last())
    }
}

/// The whole assembly text of `program`.
pub open spec fn assembly(program: Seq<Instruction>) -> Seq<char> {
    prologue() + blocks(program) + epilogue()
}

/// Appends the decimal numeral of `n`.
fn push_decimal(output: &mut String, n: usize)
    ensures
        final(output)@ == old(output)@ + decimal(n as nat),
    decreases n,
{
    if n >= 10 {
        push_decimal(output, n / 10);
    }
    let d: usize = n % 10;
    let numeral = if d == 0 {
        "0"
    } else if d == 1 {
        "1"
    } else if d == 2 {
        "2"
    } else if d == 3 {
        "3"
    } else if d == 4 {
        "4"
    } else if d == 5 {
        "5"
    } else if d == 6 {
        "6"
    } else if d == 7 {
        "7"
    } else if d == 8 {
        "8"
    } else {
        "9"
    };
    proof {
        reveal_strlit("0");
        reveal_strlit("1");
        reveal_strlit("2");
        reveal_strlit("3");
        reveal_strlit("4");
        reveal_strlit("5");
        reveal_strlit("6");
        reveal_strlit("7");
        reveal_strlit("8");
        reveal_strlit("9");
        assert(numeral@ =~= seq![digit(d as nat)]);
    }
    output.append(numeral);
    assert(output@ =~= old(output)@ + decimal(n as nat));
}

/// Appends the numeral of `-n`.
fn push_negated(output: &mut String, n: usize)
    ensures
        final(output)@ == old(output)@ + negated(n as nat),
{
    if n != 0 {
        output.append("-");
    }
    push_decimal(output, n);
    assert(output@ =~= old(output)@ + negated(n as nat));
}

/// Appends `n` system calls.
fn push_ecalls(output: &mut String, n: usize)
    ensures
        final(output)@ == old(output)@ + ecalls(n as nat),
{
    let mut done: usize = 0;
    assert(output@ =~= old(output)@ + ecalls(0));
    while done < n
        invariant
            done <= n,
            output@ == old(output)@ + ecalls(done as nat),
        decreases n - done,
    {
        output.append("ecall\n");
        done += 1;
        assert(output@ =~= old(output)@ + ecalls(done as nat));
    }
}

/// Appends the block of the instruction `inst` at position `index`.
fn push_block(output: &mut String, index: usize, inst: Instruction)
    ensures
        final(output)@ == old(output)@ + block(index as nat, inst),
{
    match inst {
        Instruction::AddPtr { count } => {
            output.append("addi s0, s0, ");
            push_decimal(output, count);
            output.append("\n\n");
        },
        Instruction::SubPtr { count } => {
            output.append("addi s0, s0, ");
            push_negated(output, count);
            output.append("\n\n");
        },
        Instruction::AddByte { count } => {
            output.append("lbu s1, (s0)\naddi s1, s1, ");
            push_decimal(output, count);
            output.append("\nsb s1, (s0)\n\n");
        },
        Instruction::SubByte { count } => {
            output.append("lbu s1, (s0)\naddi s1, s1, ");
            push_negated(output, count);
            output.append("\nsb s1, (s0)\n\n");
        },
        Instruction::Read { count } => {
            output.append("li a7, 12\n");
            push_ecalls(output, count);
            output.append("sb a0, (s0)\n\n");
        },
        Instruction::Write { count } => {
            output.append("lbu a0, (s0)\nli a7, 11\n");
            push_ecalls(output, count);
            output.append("\n");
        },
        Instruction::LoopStart { end } => {
            output.append("lbu s1, (s0)\nbnez s1, start_");
            push_decimal(output, index);
            output.append("\nla t0, end_");
            push_decimal(output, end);
            output.append("\njr t0\nstart_");
            push_decimal(output, index);
            output.append(":\n\n");
        },
        Instruction::LoopEnd { start } => {
            output.append("lbu s1, (s0)\nbeqz s1, end_");
            push_decimal(output, index);
            output.append("\nla t0, start_");
            push_decimal(output, start);
            output.append("\njr t0\nend_");
            push_decimal(output, index);
            output.append(":\n\n");
        },
    }
    assert(output@ =~= old(output)@ + block(index as nat, inst));
}

/// Compiles a program into RISC-V assembly text.
///
/// The text is exactly [`assembly`] of the program: the prologue, the block
/// of each instruction in order, and the epilogue. Nothing is asked of the
/// program: the positions that loop markers name are written into labels as
/// they stand.
pub fn compile_risc_v(program: &[Instruction]) -> (output: String)
    ensures
        output@ == assembly(program@),
{
    let mut output = String::new();
    output.append(".data\nmemory: .space 30000\n\n.text\nmain:\nla s0, memory\n");
    let mut index: usize = 0;
    assert(program@.take(0) =~= Seq::<Instruction>::empty());
    assert(output@ =~= prologue() + blocks(program@.take(0)));
    while index < program.len()
        invariant
            index <= program.len(),
            output@ == prologue() + blocks(program@.take(index as int)),
        decreases program.len() - index,
    {
        push_block(&mut output, index, program[index]);
        index += 1;
        proof {
            assert(program@.take(index as int).drop_last() =~= program@.take(index - 1));
            assert(output@ =~= prologue() + blocks(program@.take(index as int)));
        }
    }
    assert(program@.take(index as int) =~= program@);
    output.append("li\ta0, 0\nli \ta7, 93\necall\n\n");
    output
}

} // verus!
