//! The instruction set shared by the parser and the code generator.

use vstd::prelude::*;
use vstd::std_specs::cmp::PartialEqSpecImpl;

verus! {

/// One operation of a parsed program.
///
/// The six counted variants carry how many times the operation repeats; the
/// two loop markers carry the position of their partner in the program.
#[derive(Debug, Clone, Copy)]
pub enum Instruction {
    /// Move the data pointer forward by `count` cells.
    AddPtr { count: usize },
    /// Move the data pointer backward by `count` cells.
    SubPtr { count: usize },
    /// Add `count` to the byte under the pointer.
    AddByte { count: usize },
    /// Subtract `count` from the byte under the pointer.
    SubByte { count: usize },
    /// Read `count` bytes of input, keeping the last one.
    Read { count: usize },
    /// Write the byte under the pointer `count` times.
    Write { count: usize },
    /// Start of a loop; `end` is the position of the matching `LoopEnd`.
    LoopStart { end: usize },
    /// End of a loop; `start` is the position of the matching `LoopStart`.
    LoopEnd { start: usize },
}

/// Whether `c` is one of the eight command characters.
pub open spec fn is_command(c: char) -> bool {
    c == '>' || c == '<' || c == '+' || c == '-' || c == ',' || c == '.' || c == '[' || c == ']'
}

impl Instruction {
    /// Whether the instruction is one of the six counted variants.
    pub open spec fn is_counted(self) -> bool {
        !(self is LoopStart) && !(self is LoopEnd)
    }

    /// The single field of the instruction: the count of a counted
    /// instruction, the partner position of a loop marker.
    pub open spec fn field(self) -> usize {
        match self {
            Instruction::AddPtr { count } => count,
            Instruction::SubPtr { count } => count,
            Instruction::AddByte { count } => count,
            Instruction::SubByte { count } => count,
            Instruction::Read { count } => count,
            Instruction::Write { count } => count,
            Instruction::LoopStart { end } => end,
            Instruction::LoopEnd { start } => start,
        }
    }

    /// The instruction of the same variant whose field is `value`.
    pub open spec fn with_field(self, value: usize) -> Instruction {
        match self {
            Instruction::AddPtr { .. } => Instruction::AddPtr { count: value },
            Instruction::SubPtr { .. } => Instruction::SubPtr { count: value },
            Instruction::AddByte { .. } => Instruction::AddByte { count: value },
            Instruction::SubByte { .. } => Instruction::SubByte { count: value },
            Instruction::Read { .. } => Instruction::Read { count: value },
            Instruction::Write { .. } => Instruction::Write { count: value },
            Instruction::LoopStart { .. } => Instruction::LoopStart { end: value },
            Instruction::LoopEnd { .. } => Instruction::LoopEnd { start: value },
        }
    }

    /// Whether two instructions are of the same variant, whatever their fields.
    pub open spec fn same_variant(self, other: Instruction) -> bool {
        other == self.with_field(other.field())
    }

    /// The instruction that a single character stands for: a counted
    /// instruction with count 1, a loop marker with target 0, or nothing for
    /// a character that is no command.
    pub open spec fn of_char(c: char) -> Option<Instruction> {
        if c == '>' {
            Some(Instruction::AddPtr { count: 1 })
        } else if c == '<' {
            Some(Instruction::SubPtr { count: 1 })
        } else if c == '+' {
            Some(Instruction::AddByte { count: 1 })
        } else if c == '-' {
            Some(Instruction::SubByte { count: 1 })
        } else if c == ',' {
            Some(Instruction::Read { count: 1 })
        } else if c == '.' {
            Some(Instruction::Write { count: 1 })
        } else if c == '[' {
            Some(Instruction::LoopStart { end: 0 })
        } else if c == ']' {
            Some(Instruction::LoopEnd { start: 0 })
        } else {
            None
        }
    }

    /// The command character of the instruction's variant.
    pub open spec fn command(self) -> char {
        match self {
            Instruction::AddPtr { .. } => '>',
            Instruction::SubPtr { .. } => '<',
            Instruction::AddByte { .. } => '+',
            Instruction::SubByte { .. } => '-',
            Instruction::Read { .. } => ',',
            Instruction::Write { .. } => '.',
            Instruction::LoopStart { .. } => '[',
            Instruction::LoopEnd { .. } => ']',
        }
    }

    /// How many command characters the instruction stands for: its count,
    /// and one for a loop marker.
    pub open spec fn repeats(self) -> nat {
        if self.is_counted() {
            self.field() as nat
        } else {
            1
        }
    }

    /// Adds one to the count of a counted instruction.
    pub fn increment(&mut self)
        requires
            old(self).is_counted(),
            old(self).field() < usize::MAX,
        ensures
            *final(self) == old(self).with_field((old(self).field() + 1) as usize),
    {
        match self {
            Instruction::AddPtr { count } => *count += 1,
            Instruction::SubPtr { count } => *count += 1,
            Instruction::AddByte { count } => *count += 1,
            Instruction::SubByte { count } => *count += 1,
            Instruction::Read { count } => *count += 1,
            Instruction::Write { count } => *count += 1,
            // A loop marker has no count; callers never pass one.
            _ => {},
        }
    }

    /// Tells whether the instruction has a count that can be incremented.
    pub fn can_increment(&self) -> (counted: bool)
        ensures
            counted == self.is_counted(),
    {
        match self {
            Instruction::LoopStart { .. } | Instruction::LoopEnd { .. } => false,
            _ => true,
        }
    }

    /// Builds the instruction that the character `c` stands for, if any.
    pub fn from_char(c: char) -> (inst: Option<Instruction>)
        ensures
            inst == Instruction::of_char(c),
            inst is Some <==> is_command(c),
    {
        match c {
            '>' => Some(Instruction::AddPtr { count: 1 }),
            '<' => Some(Instruction::SubPtr { count: 1 }),
            '+' => Some(Instruction::AddByte { count: 1 }),
            '-' => Some(Instruction::SubByte { count: 1 }),
            ',' => Some(Instruction::Read { count: 1 }),
            '.' => Some(Instruction::Write { count: 1 }),
            '[' => Some(Instruction::LoopStart { end: 0 }),
            ']' => Some(Instruction::LoopEnd { start: 0 }),
            _ => None,
        }
    }

    /// Sets the partner position of a loop marker.
    pub fn set_target(&mut self, target: usize)
        requires
            !old(self).is_counted(),
        ensures
            *final(self) == old(self).with_field(target),
    {
        match self {
            Instruction::LoopStart { end } => *end = target,
            Instruction::LoopEnd { start } => *start = target,
            // A counted instruction has no target; callers never pass one.
            _ => {},
        }
    }
}

impl PartialEq for Instruction {
    /// Compares the variants only: two instructions that differ in their
    /// field alone are equal.
    fn eq(&self, other: &Self) -> (same: bool) {
        match (self, other) {
            (Instruction::AddPtr { .. }, Instruction::AddPtr { .. }) => true,
            (Instruction::SubPtr { .. }, Instruction::SubPtr { .. }) => true,
            (Instruction::AddByte { .. }, Instruction::AddByte { .. }) => true,
            (Instruction::SubByte { .. }, Instruction::SubByte { .. }) => true,
            (Instruction::Read { .. }, Instruction::Read { .. }) => true,
            (Instruction::Write { .. }, Instruction::Write { .. }) => true,
            (Instruction::LoopStart { .. }, Instruction::LoopStart { .. }) => true,
            (Instruction::LoopEnd { .. }, Instruction::LoopEnd { .. }) => true,
            _ => false,
        }
    }
}

impl PartialEqSpecImpl for Instruction {
    open spec fn obeys_eq_spec() -> bool {
        true
    }

    open spec fn eq_spec(&self, other: &Instruction) -> bool {
        self.same_variant(*other)
    }
}

} // verus!
