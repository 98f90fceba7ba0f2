//! What holds of every parse and every compilation, proved from the
//! definitions that the contracts of the parser and the code generator are
//! stated over.
//!
//! A source text has at most `usize::MAX` characters; the laws on parsing
//! ask that of their argument, which is a bare sequence.

use vstd::prelude::*;
use crate::compiler::{assembly, compile_risc_v, epilogue, prologue};
use crate::instruction::{is_command, Instruction};
use crate::parser::{
    closes_unopened, commands, lemma_scan_valid, occurrences, parse, parsed, scan, surplus,
    unfolded, variant_count, well_formed, ParseError, Scan,
};
use crate::{compile, compiled};

verus! {

/// Loop markers are paired: in every program that parsing yields, a
/// `LoopStart` at `i` that names `j` finds at `j` a `LoopEnd` that names
/// `i`, with `i < j`, and the other way round. Moreover loops are nested,
/// every count is at least 1, and folding is complete.
pub proof fn law_loops_paired(source: Seq<char>)
    requires
        source.len() <= usize::MAX,
    ensures
        parsed(source) matches Ok(program) ==> well_formed(program),
{
    lemma_scan_valid(source);
}

/// Characters that are no commands have no effect: a text parses to what
/// its commands alone parse to.
pub proof fn law_only_commands_matter(source: Seq<char>)
    ensures
        scan(source) == scan(commands(source)),
        parsed(source) == parsed(commands(source)),
        compiled(source) == compiled(commands(source)),
    decreases source.len(),
{
    reveal(Seq::filter);
    if source.len() > 0 {
        law_only_commands_matter(source.drop_last());
        let c = source.last();
        if is_command(c) {
            assert(commands(source).drop_last() =~= commands(source.drop_last()));
        }
    }
}

/// `k` copies of one counted command read from the start give one
/// instruction with count `k`.
proof fn lemma_run_folds(c: char, k: nat)
    requires
        1 <= k <= usize::MAX,
        is_command(c),
        c != '[',
        c != ']',
    ensures
        scan(Seq::new(k, |i: int| c)) == Ok::<Scan, ParseError>(
            Scan {
                program: seq![Instruction::of_char(c).unwrap().with_field(k as usize)],
                open_loops: Seq::empty(),
            },
        ),
    decreases k,
{
    let run = Seq::new(k, |i: int| c);
    let inst = Instruction::of_char(c).unwrap();
    if k == 1 {
        assert(run.drop_last() =~= Seq::<char>::empty());
        assert(scan(run.drop_last()) == Ok::<Scan, ParseError>(Scan::start()));
        assert(Scan::start().program.push(inst) =~= seq![inst.with_field(1)]);
    } else {
        lemma_run_folds(c, (k - 1) as nat);
        assert(run.drop_last() =~= Seq::new((k - 1) as nat, |i: int| c));
        let before = seq![inst.with_field((k - 1) as usize)];
        assert(before.update(0, inst.with_field(k as usize)) =~= seq![
            inst.with_field(k as usize),
        ]);
    }
}

/// Folding: a text whose commands are `k >= 1` copies of one counted
/// command parses to exactly one instruction, of that command's variant,
/// with count `k`.
pub proof fn law_repeats_fold(source: Seq<char>, c: char, k: nat)
    requires
        source.len() <= usize::MAX,
        k >= 1,
        is_command(c),
        c != '[',
        c != ']',
        commands(source) == Seq::new(k, |i: int| c),
    ensures
        parsed(source) == Ok::<Seq<Instruction>, ParseError>(
            seq![Instruction::of_char(c).unwrap().with_field(k as usize)],
        ),
{
    law_only_commands_matter(source);
    source.lemma_filter_len(|c: char| is_command(c));
    lemma_run_folds(c, k);
}

/// Reading a text without commands leaves the parser in its first state.
proof fn lemma_no_commands_scan(source: Seq<char>)
    requires
        forall|i: int| 0 <= i < source.len() ==> !is_command(#[trigger] source[i]),
    ensures
        scan(source) == Ok::<Scan, ParseError>(Scan::start()),
    decreases source.len(),
{
    if source.len() > 0 {
        lemma_no_commands_scan(source.drop_last());
        assert(!is_command(source[source.len() - 1]));
    }
}

/// A text without commands parses to the empty program, and the empty
/// program compiles to the prologue followed at once by the epilogue.
pub proof fn law_no_commands(source: Seq<char>)
    requires
        forall|i: int| 0 <= i < source.len() ==> !is_command(#[trigger] source[i]),
    ensures
        parsed(source) == Ok::<Seq<Instruction>, ParseError>(Seq::empty()),
        compiled(source) == Ok::<Seq<char>, ParseError>(prologue() + epilogue()),
{
    lemma_no_commands_scan(source);
    assert(assembly(Seq::empty()) =~= prologue() + epilogue());
}

/// Compiling is deterministic: whatever two runs on one source return,
/// they fail alike or give the same text, character for character.
pub proof fn law_compile_deterministic(
    source: &str,
    first: Result<String, ParseError>,
    second: Result<String, ParseError>,
)
    requires
        call_ensures(compile, (source,), first),
        call_ensures(compile, (source,), second),
    ensures
        match (first, second) {
            (Ok(a), Ok(b)) => a@ == b@,
            (Err(e), Err(f)) => e == f,
            _ => false,
        },
{
}

/// Parsing and compiling are deterministic each by itself: two runs of
/// either on one input return the same.
pub proof fn law_stages_deterministic(
    source: &str,
    parsed_first: Result<Vec<Instruction>, ParseError>,
    parsed_second: Result<Vec<Instruction>, ParseError>,
    program: &[Instruction],
    text_first: String,
    text_second: String,
)
    requires
        call_ensures(parse, (source,), parsed_first),
        call_ensures(parse, (source,), parsed_second),
        call_ensures(compile_risc_v, (program,), text_first),
        call_ensures(compile_risc_v, (program,), text_second),
    ensures
        match (parsed_first, parsed_second) {
            (Ok(a), Ok(b)) => a@ == b@,
            (Err(e), Err(f)) => e == f,
            _ => false,
        },
        text_first@ == text_second@,
{
}

/// Replacing an instruction by one of its own variant changes no count of
/// variants.
proof fn lemma_update_keeps_counts(
    program: Seq<Instruction>,
    at: int,
    inst: Instruction,
    like: Instruction,
)
    requires
        0 <= at < program.len(),
        inst.same_variant(program[at]),
    ensures
        variant_count(program.update(at, inst), like) == variant_count(program, like),
    decreases program.len(),
{
    if at == program.len() - 1 {
        assert(program.update(at, inst).drop_last() =~= program.drop_last());
    } else {
        assert(program.update(at, inst).drop_last() =~= program.drop_last().update(at, inst));
        lemma_update_keeps_counts(program.drop_last(), at, inst, like);
    }
}

/// One step adds a loop marker for a bracket and none for another
/// character, and keeps as many loops open as there are `[` in surplus.
proof fn lemma_step_counts(state: Scan, c: char, read: int)
    requires
        state.valid(read),
    ensures
        state.step(c) matches Ok(next) ==> {
            &&& variant_count(next.program, Instruction::LoopStart { end: 0 }) == variant_count(
                state.program,
                Instruction::LoopStart { end: 0 },
            ) + if c == '[' {
                1nat
            } else {
                0nat
            }
            &&& variant_count(next.program, Instruction::LoopEnd { start: 0 }) == variant_count(
                state.program,
                Instruction::LoopEnd { start: 0 },
            ) + if c == ']' {
                1nat
            } else {
                0nat
            }
            &&& next.open_loops.len() == state.open_loops.len() + if c == '[' {
                1int
            } else if c == ']' {
                -1int
            } else {
                0int
            }
        },
        state.step(c) is Err <==> c == ']' && state.open_loops.len() == 0,
{
    let opening = Instruction::LoopStart { end: 0 };
    let closing = Instruction::LoopEnd { start: 0 };
    if let Ok(next) = state.step(c) {
        if Instruction::of_char(c) is Some {
            let inst = Instruction::of_char(c).unwrap();
            let here = state.program.len() as int;
            if state.folds(inst) {
                let last = state.program.last();
                let raised = last.with_field((last.field() + 1) as usize);
                lemma_update_keeps_counts(state.program, here - 1, raised, opening);
                lemma_update_keeps_counts(state.program, here - 1, raised, closing);
            } else if inst is LoopEnd {
                let start = state.open_loops.last() as int;
                let resolved = Instruction::LoopStart { end: here as usize };
                let updated = state.program.update(start, resolved);
                lemma_update_keeps_counts(state.program, start, resolved, opening);
                lemma_update_keeps_counts(state.program, start, resolved, closing);
                assert(next.program.drop_last() =~= updated);
            } else {
                assert(next.program.drop_last() =~= state.program);
            }
        }
    }
}

/// Loop markers are never folded: the program that a reading has produced
/// holds one `LoopStart` for each `[` read and one `LoopEnd` for each `]`,
/// and as many loops are open as there are `[` in surplus. A reading fails
/// exactly where some `]` stands with no loop open.
pub proof fn law_brackets_never_fold(source: Seq<char>)
    requires
        source.len() <= usize::MAX,
    ensures
        match scan(source) {
            Ok(state) => {
                &&& variant_count(state.program, Instruction::LoopStart { end: 0 })
                    == occurrences(source, '[')
                &&& variant_count(state.program, Instruction::LoopEnd { start: 0 })
                    == occurrences(source, ']')
                &&& state.open_loops.len() == surplus(source)
                &&& !closes_unopened(source)
            },
            Err(e) => e == ParseError::UnmatchedLoopEnd && closes_unopened(source),
        },
    decreases source.len(),
{
    if source.len() == 0 {
        assert forall|n: int| 0 <= n <= source.len() implies surplus(
            #[trigger] source.take(n),
        ) >= 0 by {
            assert(source.take(n) =~= source);
        }
    } else {
        let front = source.drop_last();
        let len = source.len() as int;
        law_brackets_never_fold(front);
        assert(source.take(len) =~= source);
        match scan(front) {
            Ok(state) => {
                lemma_scan_valid(front);
                lemma_step_counts(state, source.last(), len - 1);
                if state.step(source.last()) is Ok {
                    assert forall|n: int| 0 <= n <= len implies surplus(
                        #[trigger] source.take(n),
                    ) >= 0 by {
                        if n < len {
                            assert(source.take(n) =~= front.take(n));
                        }
                    }
                }
            },
            Err(e) => {
                let n = choose|n: int| 0 <= n <= front.len() && surplus(#[trigger] front.take(n)) < 0;
                assert(source.take(n) =~= front.take(n));
            },
        }
    }
}

/// When parsing succeeds and how it fails, said of the text alone: it fails
/// with `UnmatchedLoopEnd` exactly where some `]` stands with no loop open,
/// else with `UnmatchedLoopStart` exactly where the text has more `[` than
/// `]`, and else it yields a program, with one loop marker for each bracket.
pub proof fn law_outcome(source: Seq<char>)
    requires
        source.len() <= usize::MAX,
    ensures
        parsed(source) == Err::<Seq<Instruction>, ParseError>(ParseError::UnmatchedLoopEnd)
            <==> closes_unopened(source),
        parsed(source) == Err::<Seq<Instruction>, ParseError>(ParseError::UnmatchedLoopStart)
            <==> !closes_unopened(source) && surplus(source) > 0,
        parsed(source) is Ok <==> !closes_unopened(source) && surplus(source) == 0,
        parsed(source) matches Ok(program) ==> {
            &&& variant_count(program, Instruction::LoopStart { end: 0 }) == occurrences(
                source,
                '[',
            )
            &&& variant_count(program, Instruction::LoopEnd { start: 0 }) == occurrences(
                source,
                ']',
            )
        },
{
    law_brackets_never_fold(source);
}

/// Giving a loop marker another target changes nothing in what a program
/// unfolds to.
proof fn lemma_retarget_unfolds(program: Seq<Instruction>, at: int, inst: Instruction)
    requires
        0 <= at < program.len(),
        inst.same_variant(program[at]),
        !inst.is_counted(),
    ensures
        unfolded(program.update(at, inst)) == unfolded(program),
    decreases program.len(),
{
    let updated = program.update(at, inst);
    if at == program.len() - 1 {
        assert(updated.drop_last() =~= program.drop_last());
        assert(Seq::new(updated.last().repeats(), |i: int| updated.last().command())
            =~= Seq::new(program.last().repeats(), |i: int| program.last().command()));
    } else {
        assert(updated.drop_last() =~= program.drop_last().update(at, inst));
        lemma_retarget_unfolds(program.drop_last(), at, inst);
    }
}

/// One step on a command adds that command to what the program unfolds to;
/// a step on another character adds nothing.
proof fn lemma_step_unfolds(state: Scan, c: char, read: int)
    requires
        state.valid(read),
        read < usize::MAX,
    ensures
        state.step(c) matches Ok(next) ==> unfolded(next.program) == if is_command(c) {
            unfolded(state.program).push(c)
        } else {
            unfolded(state.program)
        },
{
    if let Ok(next) = state.step(c) {
        if Instruction::of_char(c) is Some {
            let inst = Instruction::of_char(c).unwrap();
            let here = state.program.len() as int;
            if state.folds(inst) {
                assert(next.program.drop_last() =~= state.program.drop_last());
                assert(unfolded(next.program) =~= unfolded(state.program).push(c));
            } else if inst is LoopEnd {
                let start = state.open_loops.last() as int;
                let resolved = Instruction::LoopStart { end: here as usize };
                lemma_retarget_unfolds(state.program, start, resolved);
                assert(next.program.drop_last() =~= state.program.update(start, resolved));
                assert(unfolded(next.program) =~= unfolded(state.program).push(c));
            } else {
                assert(next.program.drop_last() =~= state.program);
                assert(unfolded(next.program) =~= unfolded(state.program).push(c));
            }
        }
    }
}

/// Parsing loses no command and invents none: the program that a text
/// parses to unfolds to exactly the commands of the text, in their order.
/// With complete folding and paired, nested loops this leaves one program
/// only.
pub proof fn law_program_unfolds_to_commands(source: Seq<char>)
    requires
        source.len() <= usize::MAX,
    ensures
        scan(source) matches Ok(state) ==> unfolded(state.program) == commands(source),
        parsed(source) matches Ok(program) ==> unfolded(program) == commands(source)
            && well_formed(program),
    decreases source.len(),
{
    reveal(Seq::filter);
    lemma_scan_valid(source);
    if source.len() > 0 {
        let front = source.drop_last();
        law_program_unfolds_to_commands(front);
        if let Ok(state) = scan(front) {
            lemma_scan_valid(front);
            lemma_step_unfolds(state, source.last(), source.len() - 1);
        }
    }
}

} // verus!
