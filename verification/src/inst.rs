use vstd::prelude::*;

verus! {

/// Number of cells on the tape.
pub const ARRAY_LEN: usize = 30_000;

/// Line feed.
pub const NEWLINE: u8 = 10;

/// The byte stored in a cell when the input stream has ended.
pub const EOF: u8 = 0;

/// What an instruction does. The two loop variants carry the index at which
/// execution goes on when the loop is skipped or repeated.
#[derive(Debug, PartialEq, Eq, Structural)]
pub enum InstKind {
    /// `>`: move the tape pointer right.
    IncPtr,
    /// `<`: move the tape pointer left.
    DecPtr,
    /// `+`: add to the current cell.
    IncByte,
    /// `-`: subtract from the current cell.
    DecByte,
    /// `.`: write the current cell.
    WriteByte,
    /// `,`: read into the current cell.
    ReadByte,
    /// `[`: skip the loop when the current cell is zero.
    LoopStart {
        /// Index of the instruction after the matching `]`.
        end_idx: usize,
    },
    /// `]`: repeat the loop when the current cell is not zero.
    LoopEnd {
        /// Index of the instruction after the matching `[`.
        start_idx: usize,
    },
}

/// One instruction: a command and how many times it stood in a row.
#[derive(Debug, PartialEq, Eq, Structural)]
pub struct Inst {
    /// Position of this instruction in its list.
    pub idx: usize,
    /// The command.
    pub kind: InstKind,
    /// How many times the command is applied.
    pub times: usize,
}

/// The instruction kind a character stands for, with an unlinked jump index
/// for the brackets; `None` for every character that is not a command.
pub open spec fn command_kind(c: char) -> Option<InstKind> {
    if c == '>' {
        Some(InstKind::IncPtr)
    } else if c == '<' {
        Some(InstKind::DecPtr)
    } else if c == '+' {
        Some(InstKind::IncByte)
    } else if c == '-' {
        Some(InstKind::DecByte)
    } else if c == '.' {
        Some(InstKind::WriteByte)
    } else if c == ',' {
        Some(InstKind::ReadByte)
    } else if c == '[' {
        Some(InstKind::LoopStart { end_idx: 0 })
    } else if c == ']' {
        Some(InstKind::LoopEnd { start_idx: 0 })
    } else {
        None
    }
}

/// Whether a character is one of the eight commands.
pub open spec fn is_command(c: char) -> bool {
    command_kind(c) is Some
}

impl InstKind {
    /// Whether this is one of the two bracket kinds.
    pub open spec fn is_loop(self) -> bool {
        self is LoopStart || self is LoopEnd
    }

    /// The character that this kind is written as.
    pub open spec fn command(self) -> char {
        match self {
            InstKind::IncPtr => '>',
            InstKind::DecPtr => '<',
            InstKind::IncByte => '+',
            InstKind::DecByte => '-',
            InstKind::WriteByte => '.',
            InstKind::ReadByte => ',',
            InstKind::LoopStart { .. } => '[',
            InstKind::LoopEnd { .. } => ']',
        }
    }

    /// This kind with `jmp_idx` as its jump index.
    pub open spec fn with_jmp_idx(self, jmp_idx: usize) -> InstKind {
        match self {
            InstKind::LoopStart { .. } => InstKind::LoopStart { end_idx: jmp_idx },
            InstKind::LoopEnd { .. } => InstKind::LoopEnd { start_idx: jmp_idx },
            other => other,
        }
    }

    /// Sets the jump index of a bracket.
    pub fn set_jmp_idx(&mut self, jmp_idx: usize)
        requires
            old(self).is_loop(),
        ensures
            *final(self) == old(self).with_jmp_idx(jmp_idx),
    {
        match self {
            InstKind::LoopStart { end_idx } => *end_idx = jmp_idx,
            InstKind::LoopEnd { start_idx } => *start_idx = jmp_idx,
            _ => {},
        }
    }
}

impl Inst {
    /// The instruction for one occurrence of the command `c`, at position `idx`.
    pub fn new(idx: usize, c: char) -> (inst: Inst)
        requires
            is_command(c),
        ensures
            inst == (Inst { idx, kind: command_kind(c)->Some_0, times: 1 }),
    {
        let kind = match c {
            '>' => InstKind::IncPtr,
            '<' => InstKind::DecPtr,
            '+' => InstKind::IncByte,
            '-' => InstKind::DecByte,
            ',' => InstKind::ReadByte,
            '.' => InstKind::WriteByte,
            '[' => InstKind::LoopStart { end_idx: 0 },
            _ => InstKind::LoopEnd { start_idx: 0 },
        };
        Inst { idx, kind, times: 1 }
    }

    /// Counts one more occurrence of the command.
    pub fn increment(&mut self)
        requires
            old(self).times < usize::MAX,
        ensures
            *final(self) == (Inst { times: (old(self).times + 1) as usize, ..*old(self) }),
    {
        self.times += 1;
    }
}

} // verus!
