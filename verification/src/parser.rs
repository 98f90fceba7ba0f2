//! The front end: from source text to a program of instructions.
//!
//! The meaning of parsing is given by [`scan`], which reads the source one
//! character at a time, and [`parsed`], which closes the reading. The
//! executable [`parse`] computes exactly that.

use vstd::prelude::*;
use vstd::utf8::{encode_scalar, encode_utf8};
use crate::instruction::{is_command, Instruction};
use crate::laws::{law_outcome, law_program_unfolds_to_commands};

verus! {

/// Why a source text is no program.
#[derive(Debug, Clone, Copy, PartialEq, Eq, Structural)]
pub enum ParseError {
    /// A `]` stands where no loop is open.
    UnmatchedLoopEnd,
    /// The text ends while a loop is still open.
    UnmatchedLoopStart,
}

/// What the parser holds after reading a part of the source.
pub struct Scan {
    /// The instructions produced so far.
    pub program: Seq<Instruction>,
    /// The positions in `program` of the loops that are still open, the
    /// innermost last.
    pub open_loops: Seq<usize>,
}

impl Scan {
    /// The state before the first character.
    pub open spec fn start() -> Scan {
        Scan { program: Seq::empty(), open_loops: Seq::empty() }
    }

    /// Whether reading `inst` next folds it into the last instruction.
    pub open spec fn folds(self, inst: Instruction) -> bool {
        self.program.len() > 0 && self.program.last().same_variant(inst) && inst.is_counted()
    }

    /// The state after reading the character `c`.
    ///
    /// A character that is no command changes nothing. A counted command
    /// that repeats the last instruction raises its count; any other is
    /// appended. A `[` is appended and its position kept as open. A `]`
    /// closes the innermost open loop: both markers get each other's
    /// position. With no loop open it is an error.
    pub open spec fn step(self, c: char) -> Result<Scan, ParseError> {
        match Instruction::of_char(c) {
            None => Ok(self),
            Some(inst) => {
                let here = self.program.len();
                if self.folds(inst) {
                    let last = self.program.last();
                    Ok(
                        Scan {
                            program: self.program.update(
                                here - 1,
                                last.with_field((last.field() + 1) as usize),
                            ),
                            open_loops: self.open_loops,
                        },
                    )
                } else if inst is LoopStart {
                    Ok(
                        Scan {
                            program: self.program.push(inst),
                            open_loops: self.open_loops.push(here as usize),
                        },
                    )
                } else if inst is LoopEnd {
                    if self.open_loops.len() == 0 {
                        Err(ParseError::UnmatchedLoopEnd)
                    } else {
                        let start = self.open_loops.last();
                        Ok(
                            Scan {
                                program: self.program.update(
                                    start as int,
                                    Instruction::LoopStart { end: here as usize },
                                ).push(Instruction::LoopEnd { start }),
                                open_loops: self.open_loops.drop_last(),
                            },
                        )
                    }
                } else {
                    Ok(Scan { program: self.program.push(inst), open_loops: self.open_loops })
                }
            },
        }
    }

    /// What holds of every state that reading `read` characters can reach.
    pub open spec fn valid(self, read: int) -> bool {
        &&& self.program.len() <= read
        &&& forall|i: int|
            0 <= i < self.program.len() && (#[trigger] self.program[i]).is_counted() ==> 1
                <= self.program[i].field() <= read
        &&& forall|k: int|
            0 <= k < self.open_loops.len() ==> (#[trigger] self.open_loops[k])
                < self.program.len() && self.program[self.open_loops[k] as int]
                == (Instruction::LoopStart { end: 0 })
        &&& forall|k: int, l: int|
            0 <= k < l < self.open_loops.len() ==> (#[trigger] self.open_loops[k])
                < (#[trigger] self.open_loops[l])
        &&& forall|i: int|
            0 <= i < self.program.len() && #[trigger] self.program[i] == (Instruction::LoopStart {
                end: 0,
            }) ==> self.open_loops.contains(i as usize)
        &&& forall|i: int, k: int|
            0 <= i < self.program.len() && 0 <= k < self.open_loops.len()
                && (#[trigger] self.program[i]) is LoopStart ==> !(i
                < #[trigger] self.open_loops[k] < self.program[i].field())
        &&& paired(self.program, true)
        &&& nested(self.program)
        &&& folded(self.program)
    }
}

/// Whether loops lie inside each other or apart, never across: a loop that
/// starts inside another one ends inside it.
pub open spec fn nested(program: Seq<Instruction>) -> bool {
    forall|i: int, k: int|
        0 <= i < k < program.len() && (#[trigger] program[i]) is LoopStart
            && (#[trigger] program[k]) is LoopStart && k < program[i].field()
            ==> program[k].field() < program[i].field()
}

/// Whether folding is complete: no counted instruction follows one of its
/// own variant.
pub open spec fn folded(program: Seq<Instruction>) -> bool {
    forall|i: int|
        0 < i < program.len() && (#[trigger] program[i]).is_counted() ==> !program[i
            - 1].same_variant(program[i])
}

/// Whether the loop markers of `program` point at each other: a `LoopStart`
/// at `i` names a later position that holds a `LoopEnd` naming `i`, and a
/// `LoopEnd` at `j` names an earlier position that holds a `LoopStart`
/// naming `j`. With `open_allowed`, a `LoopStart` may still name 0, which no
/// closed one does.
pub open spec fn paired(program: Seq<Instruction>, open_allowed: bool) -> bool {
    forall|i: int|
        0 <= i < program.len() ==> match #[trigger] program[i] {
            Instruction::LoopStart { end } => (open_allowed && end == 0) || (i < end
                < program.len() && program[end as int] == (Instruction::LoopEnd {
                start: i as usize,
            })),
            Instruction::LoopEnd { start } => start < i && program[start as int] == (
            Instruction::LoopStart { end: i as usize }),
            _ => true,
        }
}

/// What holds of every program that the parser produces: every count is at
/// least 1, the loop markers point at each other, loops are nested, and
/// folding is complete.
pub open spec fn well_formed(program: Seq<Instruction>) -> bool {
    &&& forall|i: int|
        0 <= i < program.len() && (#[trigger] program[i]).is_counted() ==> program[i].field() >= 1
    &&& paired(program, false)
    &&& nested(program)
    &&& folded(program)
}

/// The state after reading all of `source`, or the first error met.
pub open spec fn scan(source: Seq<char>) -> Result<Scan, ParseError>
    decreases source.len(),
{
    if source.len() == 0 {
        Ok(Scan::start())
    } else {
        match scan(source.drop_last()) {
            Ok(state) => state.step(source.last()),
            Err(e) => Err(e),
        }
    }
}

/// How a finished reading ends: with the program, or with an error where a
/// loop is still open.
pub open spec fn finish(state: Scan) -> Result<Seq<Instruction>, ParseError> {
    if state.open_loops.len() > 0 {
        Err(ParseError::UnmatchedLoopStart)
    } else {
        Ok(state.program)
    }
}

/// The program that `source` stands for, or the reason why it is none.
pub open spec fn parsed(source: Seq<char>) -> Result<Seq<Instruction>, ParseError> {
    match scan(source) {
        Ok(state) => finish(state),
        Err(e) => Err(e),
    }
}

/// The commands of a source text: what is left when every other character
/// is taken out.
pub open spec fn commands(source: Seq<char>) -> Seq<char> {
    source.filter(|c: char| is_command(c))
}

/// How often the character `c` occurs in `source`.
pub open spec fn occurrences(source: Seq<char>, c: char) -> nat
    decreases source.len(),
{
    if source.len() == 0 {
        0
    } else {
        occurrences(source.drop_last(), c) + if source.last() == c {
            1nat
        } else {
            0nat
        }
    }
}

/// How many instructions of `program` are of the variant of `like`.
pub open spec fn variant_count(program: Seq<Instruction>, like: Instruction) -> nat
    decreases program.len(),
{
    if program.len() == 0 {
        0
    } else {
        variant_count(program.drop_last(), like) + if program.last().same_variant(like) {
            1nat
        } else {
            0nat
        }
    }
}

/// By how many the `[` of `source` exceed its `]`.
pub open spec fn surplus(source: Seq<char>) -> int {
    occurrences(source, '[') - occurrences(source, ']')
}

/// Whether some `]` of `source` stands where no loop is open: up to it
/// there are more `]` than `[`.
pub open spec fn closes_unopened(source: Seq<char>) -> bool {
    exists|n: int| 0 <= n <= source.len() && surplus(#[trigger] source.take(n)) < 0
}

/// The commands that `program` stands for: for each instruction in order,
/// its command character as often as it repeats.
pub open spec fn unfolded(program: Seq<Instruction>) -> Seq<char>
    decreases program.len(),
{
    if program.len() == 0 {
        Seq::empty()
    } else {
        unfolded(program.drop_last()) + Seq::new(
            program.last().repeats(),
            |i: int| program.last().command(),
        )
    }
}

/// One step keeps a state valid.
pub proof fn lemma_step_valid(state: Scan, c: char, read: int)
    requires
        state.valid(read),
        read < usize::MAX,
    ensures
        state.step(c) matches Ok(next) ==> next.valid(read + 1),
{
    if state.step(c) is Ok && Instruction::of_char(c) is Some {
        let next = state.step(c).unwrap();
        let inst = Instruction::of_char(c).unwrap();
        let here = state.program.len() as int;
        if state.folds(inst) {
            assert forall|i: int|
                0 <= i < next.program.len() && #[trigger] next.program[i] == (
                Instruction::LoopStart { end: 0 }) implies next.open_loops.contains(
                i as usize,
            ) by {
                assert(state.program[i] == next.program[i]);
            }
        } else if inst is LoopStart {
            assert forall|i: int|
                0 <= i < next.program.len() && #[trigger] next.program[i] == (
                Instruction::LoopStart { end: 0 }) implies next.open_loops.contains(
                i as usize,
            ) by {
                if i < here {
                    assert(state.program[i] == next.program[i]);
                    let k = choose|k: int|
                        0 <= k < state.open_loops.len() && state.open_loops[k] == i as usize;
                    assert(next.open_loops[k] == i as usize);
                } else {
                    assert(next.open_loops[state.open_loops.len() as int] == i as usize);
                }
            }
        } else if inst is LoopEnd {
            let start = state.open_loops.last();
            assert forall|i: int|
                0 <= i < next.program.len() && #[trigger] next.program[i] == (
                Instruction::LoopStart { end: 0 }) implies next.open_loops.contains(
                i as usize,
            ) by {
                assert(state.program[i] == next.program[i]);
                let k = choose|k: int|
                    0 <= k < state.open_loops.len() && state.open_loops[k] == i as usize;
                assert(next.open_loops[k] == i as usize);
            }
            assert forall|i: int| 0 <= i < next.program.len() implies match #[trigger] next.program[i] {
                Instruction::LoopStart { end } => end == 0 || (i < end < next.program.len()
                    && next.program[end as int] == (Instruction::LoopEnd { start: i as usize })),
                Instruction::LoopEnd { start } => start < i && next.program[start as int] == (
                Instruction::LoopStart { end: i as usize }),
                _ => true,
            } by {
                if i < here && i != start {
                    assert(state.program[i] == next.program[i]);
                }
            }
        } else {
            assert forall|i: int|
                0 <= i < next.program.len() && #[trigger] next.program[i] == (
                Instruction::LoopStart { end: 0 }) implies next.open_loops.contains(
                i as usize,
            ) by {
                assert(state.program[i] == next.program[i]);
            }
        }
    }
}

/// Every state that a reading reaches is valid.
pub proof fn lemma_scan_valid(source: Seq<char>)
    requires
        source.len() <= usize::MAX,
    ensures
        scan(source) matches Ok(state) ==> state.valid(source.len() as int),
    decreases source.len(),
{
    if source.len() > 0 {
        lemma_scan_valid(source.drop_last());
        if let Ok(state) = scan(source.drop_last()) {
            lemma_step_valid(state, source.last(), source.len() - 1);
        }
    }
}

/// A text has at most as many characters as its encoding has bytes.
proof fn lemma_encoding_length(chars: Seq<char>)
    ensures
        chars.len() <= encode_utf8(chars).len(),
    decreases chars.len(),
{
    if chars.len() > 0 {
        lemma_encoding_length(chars.drop_first());
        assert(encode_scalar(chars[0] as u32).len() >= 1);
    }
}

/// Reads one character into the parser's state: `program` and `open_loops`
/// go from a state to its successor under [`Scan::step`], or stay as they
/// are where the step is an error.
fn read_command(
    program: &mut Vec<Instruction>,
    open_loops: &mut Vec<usize>,
    c: char,
    Ghost(read): Ghost<int>,
) -> (result: Result<(), ParseError>)
    requires
        (Scan { program: old(program)@, open_loops: old(open_loops)@ }).valid(read),
        read < usize::MAX,
    ensures
        match (Scan { program: old(program)@, open_loops: old(open_loops)@ }).step(c) {
            Ok(next) => result is Ok && next == (Scan {
                program: final(program)@,
                open_loops: final(open_loops)@,
            }),
            Err(e) => result == Err::<(), ParseError>(e) && final(program)@ == old(program)@
                && final(open_loops)@ == old(open_loops)@,
        },
{
    let ghost before = Scan { program: program@, open_loops: open_loops@ };
    match Instruction::from_char(c) {
        None => Ok(()),
        Some(inst) => {
            let here = program.len();
            if here > 0 && program[here - 1] == inst && inst.can_increment() {
                let mut last = program[here - 1];
                last.increment();
                program.set(here - 1, last);
                assert(program@ =~= before.step(c).unwrap().program);
                Ok(())
            } else {
                match inst {
                    Instruction::LoopStart { .. } => {
                        program.push(inst);
                        open_loops.push(here);
                        Ok(())
                    },
                    Instruction::LoopEnd { .. } => {
                        match open_loops.pop() {
                            None => Err(ParseError::UnmatchedLoopEnd),
                            Some(start) => {
                                let mut closing = inst;
                                closing.set_target(start);
                                let mut opening = program[start];
                                opening.set_target(here);
                                program.set(start, opening);
                                program.push(closing);
                                assert(program@ =~= before.step(c).unwrap().program);
                                assert(open_loops@ =~= before.step(c).unwrap().open_loops);
                                Ok(())
                            },
                        }
                    },
                    _ => {
                        program.push(inst);
                        Ok(())
                    },
                }
            }
        },
    }
}

/// Parses a source text into a program.
///
/// Characters that are no commands are skipped, repeated counted commands
/// are folded into one instruction, and each loop marker gets the position
/// of its partner. The result is what [`parsed`] says of the text.
///
/// Said of the text alone: parsing fails with `UnmatchedLoopEnd` exactly
/// where some `]` stands with no loop open, else with `UnmatchedLoopStart`
/// exactly where `[` are left unclosed. Else it yields a program that
/// unfolds to the commands of the text, folded completely, with its loop
/// markers paired and nested.
pub fn parse(source: &str) -> (result: Result<Vec<Instruction>, ParseError>)
    ensures
        match result {
            Ok(program) => parsed(source@) == Ok::<Seq<Instruction>, ParseError>(program@),
            Err(e) => parsed(source@) == Err::<Seq<Instruction>, ParseError>(e),
        },
        result matches Ok(program) ==> well_formed(program@) && unfolded(program@) == commands(
            source@,
        ),
        (result matches Err(e) && e == ParseError::UnmatchedLoopEnd) <==> closes_unopened(source@),
        (result matches Err(e) && e == ParseError::UnmatchedLoopStart) <==> !closes_unopened(
            source@,
        ) && surplus(source@) > 0,
{
    let mut program: Vec<Instruction> = Vec::new();
    let mut open_loops: Vec<usize> = Vec::new();
    // The encoded text fits in memory, so its characters can be counted
    // in a `usize`: no count and no position overflows.
    let bytes = source.as_bytes();
    proof {
        lemma_encoding_length(source@);
        assert(bytes.len() == bytes@.len());
        assert(source@.take(0) =~= Seq::<char>::empty());
    }
    for c in it: source.chars()
        invariant
            it.seq() == source@,
            source@.len() <= usize::MAX,
            scan(source@.take(it.index())) == Ok::<Scan, ParseError>(
                Scan { program: program@, open_loops: open_loops@ },
            ),
    {
        let ghost read = it.index();
        proof {
            lemma_scan_valid(source@.take(read));
            assert(source@.take(read + 1).drop_last() =~= source@.take(read));
            lemma_scan_prefix_error(source@, read + 1);
            law_outcome(source@);
        }
        match read_command(&mut program, &mut open_loops, c, Ghost(read)) {
            Ok(()) => {},
            Err(e) => {
                return Err(e);
            },
        }
    }
    proof {
        assert(source@.take(source@.len() as int) =~= source@);
        law_outcome(source@);
        law_program_unfolds_to_commands(source@);
    }
    if open_loops.len() > 0 {
        Err(ParseError::UnmatchedLoopStart)
    } else {
        Ok(program)
    }
}

/// An error met while reading a prefix is the error of the whole reading.
proof fn lemma_scan_prefix_error(source: Seq<char>, n: int)
    requires
        0 <= n <= source.len(),
    ensures
        scan(source.take(n)) matches Err(e) ==> scan(source) == Err::<Scan, ParseError>(e),
    decreases source.len(),
{
    if n < source.len() {
        assert(source.drop_last().take(n) =~= source.take(n));
        lemma_scan_prefix_error(source.drop_last(), n);
    } else {
        assert(source.take(n) =~= source);
    }
}

} // verus!
