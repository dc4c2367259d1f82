//! The syntax tree of an LC-3 program: one `SourceLine` per line of source.
use crate::error::Span;
use crate::lexer::token::BrFlags;
use vstd::prelude::*;

verus! {

/// A single line of LC-3 assembly source.
#[derive(Debug, Clone, PartialEq)]
pub struct SourceLine {
    /// Label defined on this line, upper case.
    pub label: Option<String>,
    /// What the line holds.
    pub content: LineContent,
    /// Line number in the source file, from 1.
    pub line_number: usize,
    /// Where the line starts, for diagnostics.
    pub span: Span,
}

/// Content of a source line: an instruction, a directive, or nothing.
#[derive(Debug, Clone, PartialEq)]
pub enum LineContent {
    /// Blank or comment-only line.
    Empty,
    /// `.ORIG`: the program origin.
    Orig(u16),
    /// `.END`: end of the program.
    End,
    /// `.FILL` with a number.
    FillImmediate(i32),
    /// `.FILL` with a label's address.
    FillLabel(String),
    /// `.BLKW`: reserves N words.
    Blkw(u16),
    /// `.STRINGZ`: a zero-terminated string, one word per character.
    Stringz(String),
    /// A machine instruction.
    Instruction(Instruction),
}

/// An LC-3 instruction with its operands. Registers are 0 to 7.
#[derive(Debug, Clone, PartialEq)]
pub enum Instruction {
    AddReg { dr: u8, sr1: u8, sr2: u8 },
    AddImm { dr: u8, sr1: u8, imm5: i16 },
    AndReg { dr: u8, sr1: u8, sr2: u8 },
    AndImm { dr: u8, sr1: u8, imm5: i16 },
    Not { dr: u8, sr: u8 },
    Ld { dr: u8, label: String },
    Ldi { dr: u8, label: String },
    Ldr { dr: u8, base_r: u8, offset6: i16 },
    Lea { dr: u8, label: String },
    St { sr: u8, label: String },
    Sti { sr: u8, label: String },
    Str { sr: u8, base_r: u8, offset6: i16 },
    Br { flags: BrFlags, label: String },
    Jmp { base_r: u8 },
    Jsr { label: String },
    Jsrr { base_r: u8 },
    Ret,
    Rti,
    Trap { trapvect8: u8 },
    Getc,
    Out,
    Puts,
    In,
    Putsp,
    Halt,
}

/// The number of memory words that a line's content occupies.
pub open spec fn words_of(c: LineContent) -> nat {
    match c {
        LineContent::Empty => 0,
        LineContent::Orig(_) => 0,
        LineContent::End => 0,
        LineContent::FillImmediate(_) => 1,
        LineContent::FillLabel(_) => 1,
        LineContent::Blkw(n) => n as nat,
        LineContent::Stringz(s) => s@.len() + 1,
        LineContent::Instruction(_) => 1,
    }
}

impl LineContent {
    /// How many words this content occupies in memory: a string takes one word
    /// per character and one for its terminator.
    pub fn word_count(&self) -> (r: u32)
        requires
            words_of(*self) <= u32::MAX,
        ensures
            r == words_of(*self),
    {
        match self {
            LineContent::Empty => 0,
            LineContent::Orig(_) => 0,
            LineContent::End => 0,
            LineContent::FillImmediate(_) => 1,
            LineContent::FillLabel(_) => 1,
            LineContent::Blkw(n) => *n as u32,
            LineContent::Stringz(s) => (s.as_str().unicode_len() as u32) + 1,
            LineContent::Instruction(_) => 1,
        }
    }
}

} // verus!
