//! Diagnostics shared by every stage of the assembler.
use crate::text::{chars_of, hex_text, nat_text, push_hex, push_nat, push_str, string_of};
use vstd::prelude::*;

verus! {

/// Source location used for error reporting: the 1-based line and column of
/// the first character of a token.
#[derive(Debug, Clone, Copy, PartialEq, Eq, Structural)]
pub struct Span {
    pub line: usize,
    pub col: usize,
}

/// The span that diagnostics about the whole file point at: its first character.
pub open spec fn file_start_span() -> Span {
    Span { line: 1, col: 1 }
}

/// What went wrong, as a closed set of kinds.
#[derive(Debug, Clone, Copy, PartialEq, Eq, Structural)]
pub enum ErrorKind {
    UnterminatedString,
    InvalidEscapeSequence,
    InvalidDecimalLiteral,
    InvalidHexLiteral,
    InvalidBinaryLiteral,
    InvalidOctalLiteral,
    InvalidRegister,
    UnknownDirective,
    UnexpectedCharacter,
    ExpectedOperand,
    ExpectedRegister,
    ExpectedComma,
    UnexpectedToken,
    TooManyOperands,
    TooFewOperands,
    InvalidOperandType,
    DuplicateLabel,
    MissingOrig,
    MultipleOrig,
    MissingEnd,
    InvalidOrigAddress,
    InvalidBlkwCount,
    AddressOverflow,
    UndefinedLabel,
    OffsetOutOfRange,
    NonAsciiInStringz,
    LabelIsReservedWord,
}

/// A diagnostic as a mathematical value: its kind, its text and where it points.
pub struct Diag {
    pub kind: ErrorKind,
    pub message: Seq<char>,
    pub span: Span,
}

/// A recorded, non-fatal problem: a kind, a human-readable message and a source span.
#[derive(Debug, Clone, PartialEq)]
pub struct AsmError {
    pub kind: ErrorKind,
    pub message: String,
    pub span: Span,
}

impl View for AsmError {
    type V = Diag;

    open spec fn view(&self) -> Diag {
        Diag { kind: self.kind, message: self.message@, span: self.span }
    }
}

/// The diagnostics of a list, as values.
pub open spec fn diags(errors: Seq<AsmError>) -> Seq<Diag> {
    errors.map_values(|e: AsmError| e@)
}

/// The diagnostic built from a kind, a message and a span.
pub open spec fn diag(kind: ErrorKind, message: Seq<char>, span: Span) -> Diag {
    Diag { kind, message, span }
}

pub open spec fn undefined_label_text(label: Seq<char>) -> Seq<char> {
    "Undefined label '"@ + label + "'"@
}

pub open spec fn duplicate_label_text(label: Seq<char>, first_addr: u16) -> Seq<char> {
    "Duplicate label '"@ + label + "' (first defined at x"@ + hex_text(first_addr as nat, 4) + ")"@
}

pub open spec fn non_ascii_text(ch: char) -> Seq<char> {
    "Character '"@ + seq![ch] + "' (U+"@ + hex_text(ch as nat, 4)
        + ") in .STRINGZ is not ASCII; LC-3 only supports characters 0x00–0x7F"@
}

pub open spec fn reserved_word_text(label: Seq<char>) -> Seq<char> {
    "Label '"@ + label + "' shadows an assembler directive name; prefix it with '.' or rename it"@
}

/// Short description of each kind of diagnostic.
pub open spec fn kind_text(kind: ErrorKind) -> Seq<char> {
    match kind {
        ErrorKind::UnterminatedString => "unterminated string"@,
        ErrorKind::InvalidEscapeSequence => "invalid escape sequence"@,
        ErrorKind::InvalidDecimalLiteral => "invalid decimal literal"@,
        ErrorKind::InvalidHexLiteral => "invalid hex literal"@,
        ErrorKind::InvalidBinaryLiteral => "invalid binary literal"@,
        ErrorKind::InvalidOctalLiteral => "invalid octal literal"@,
        ErrorKind::InvalidRegister => "invalid register"@,
        ErrorKind::UnknownDirective => "unknown directive"@,
        ErrorKind::UnexpectedCharacter => "unexpected character"@,
        ErrorKind::ExpectedOperand => "expected operand"@,
        ErrorKind::ExpectedRegister => "expected register"@,
        ErrorKind::ExpectedComma => "expected comma"@,
        ErrorKind::UnexpectedToken => "unexpected token"@,
        ErrorKind::TooManyOperands => "too many operands"@,
        ErrorKind::TooFewOperands => "too few operands"@,
        ErrorKind::InvalidOperandType => "invalid operand type"@,
        ErrorKind::DuplicateLabel => "duplicate label"@,
        ErrorKind::MissingOrig => "missing .ORIG directive"@,
        ErrorKind::MultipleOrig => "multiple .ORIG directives"@,
        ErrorKind::MissingEnd => "missing .END directive"@,
        ErrorKind::InvalidOrigAddress => "invalid .ORIG address"@,
        ErrorKind::InvalidBlkwCount => "invalid .BLKW count"@,
        ErrorKind::AddressOverflow => "address overflow"@,
        ErrorKind::UndefinedLabel => "undefined label"@,
        ErrorKind::OffsetOutOfRange => "PC offset out of range"@,
        ErrorKind::NonAsciiInStringz => "non-ASCII character in .STRINGZ"@,
        ErrorKind::LabelIsReservedWord => "label shadows a reserved word"@,
    }
}

/// The text form of a diagnostic: `ERROR (line L:C): <message>`.
pub open spec fn render_text(d: Diag) -> Seq<char> {
    "ERROR (line "@ + nat_text(d.span.line as nat) + ":"@ + nat_text(d.span.col as nat) + "): "@
        + d.message
}

impl ErrorKind {
    /// Short description of this kind.
    pub fn description(&self) -> (r: &'static str)
        ensures
            r@ == kind_text(*self),
    {
        match self {
            ErrorKind::UnterminatedString => "unterminated string",
            ErrorKind::InvalidEscapeSequence => "invalid escape sequence",
            ErrorKind::InvalidDecimalLiteral => "invalid decimal literal",
            ErrorKind::InvalidHexLiteral => "invalid hex literal",
            ErrorKind::InvalidBinaryLiteral => "invalid binary literal",
            ErrorKind::InvalidOctalLiteral => "invalid octal literal",
            ErrorKind::InvalidRegister => "invalid register",
            ErrorKind::UnknownDirective => "unknown directive",
            ErrorKind::UnexpectedCharacter => "unexpected character",
            ErrorKind::ExpectedOperand => "expected operand",
            ErrorKind::ExpectedRegister => "expected register",
            ErrorKind::ExpectedComma => "expected comma",
            ErrorKind::UnexpectedToken => "unexpected token",
            ErrorKind::TooManyOperands => "too many operands",
            ErrorKind::TooFewOperands => "too few operands",
            ErrorKind::InvalidOperandType => "invalid operand type",
            ErrorKind::DuplicateLabel => "duplicate label",
            ErrorKind::MissingOrig => "missing .ORIG directive",
            ErrorKind::MultipleOrig => "multiple .ORIG directives",
            ErrorKind::MissingEnd => "missing .END directive",
            ErrorKind::InvalidOrigAddress => "invalid .ORIG address",
            ErrorKind::InvalidBlkwCount => "invalid .BLKW count",
            ErrorKind::AddressOverflow => "address overflow",
            ErrorKind::UndefinedLabel => "undefined label",
            ErrorKind::OffsetOutOfRange => "PC offset out of range",
            ErrorKind::NonAsciiInStringz => "non-ASCII character in .STRINGZ",
            ErrorKind::LabelIsReservedWord => "label shadows a reserved word",
        }
    }
}

impl AsmError {
    /// Creates a diagnostic from its parts.
    pub fn new(kind: ErrorKind, message: &str, span: Span) -> (r: Self)
        ensures
            r@ == diag(kind, message@, span),
    {
        AsmError { kind, message: string_of(&chars_of(message)), span }
    }

    /// Creates a diagnostic whose message was assembled character by character.
    pub fn from_chars(kind: ErrorKind, message: &Vec<char>, span: Span) -> (r: Self)
        ensures
            r@ == diag(kind, message@, span),
    {
        AsmError { kind, message: string_of(message), span }
    }

    pub fn too_few_operands(message: &str, span: Span) -> (r: Self)
        ensures
            r@ == diag(ErrorKind::TooFewOperands, message@, span),
    {
        Self::new(ErrorKind::TooFewOperands, message, span)
    }

    pub fn too_many_operands(message: &str, span: Span) -> (r: Self)
        ensures
            r@ == diag(ErrorKind::TooManyOperands, message@, span),
    {
        Self::new(ErrorKind::TooManyOperands, message, span)
    }

    pub fn invalid_operand_type(message: &str, span: Span) -> (r: Self)
        ensures
            r@ == diag(ErrorKind::InvalidOperandType, message@, span),
    {
        Self::new(ErrorKind::InvalidOperandType, message, span)
    }

    pub fn expected_register(message: &str, span: Span) -> (r: Self)
        ensures
            r@ == diag(ErrorKind::ExpectedRegister, message@, span),
    {
        Self::new(ErrorKind::ExpectedRegister, message, span)
    }

    pub fn expected_comma(message: &str, span: Span) -> (r: Self)
        ensures
            r@ == diag(ErrorKind::ExpectedComma, message@, span),
    {
        Self::new(ErrorKind::ExpectedComma, message, span)
    }

    pub fn expected_operand(message: &str, span: Span) -> (r: Self)
        ensures
            r@ == diag(ErrorKind::ExpectedOperand, message@, span),
    {
        Self::new(ErrorKind::ExpectedOperand, message, span)
    }

    pub fn unexpected_token(message: &str, span: Span) -> (r: Self)
        ensures
            r@ == diag(ErrorKind::UnexpectedToken, message@, span),
    {
        Self::new(ErrorKind::UnexpectedToken, message, span)
    }

    /// A reference to a label that no line defines.
    pub fn undefined_label(label: &str, span: Span) -> (r: Self)
        ensures
            r@ == diag(ErrorKind::UndefinedLabel, undefined_label_text(label@), span),
    {
        let mut m = chars_of("Undefined label '");
        push_str(&mut m, label);
        push_str(&mut m, "'");
        Self::from_chars(ErrorKind::UndefinedLabel, &m, span)
    }

    /// A second definition of a label; names the address of the first.
    pub fn duplicate_label(label: &str, first_addr: u16, span: Span) -> (r: Self)
        ensures
            r@ == diag(ErrorKind::DuplicateLabel, duplicate_label_text(label@, first_addr), span),
    {
        let mut m = chars_of("Duplicate label '");
        push_str(&mut m, label);
        push_str(&mut m, "' (first defined at x");
        push_hex(&mut m, first_addr as u32, 4);
        push_str(&mut m, ")");
        proof {
            assert(m@ =~= duplicate_label_text(label@, first_addr));
        }
        Self::from_chars(ErrorKind::DuplicateLabel, &m, span)
    }

    /// A character of a `.STRINGZ` payload outside 7-bit ASCII.
    pub fn non_ascii_in_stringz(ch: char, span: Span) -> (r: Self)
        ensures
            r@ == diag(ErrorKind::NonAsciiInStringz, non_ascii_text(ch), span),
    {
        let mut m = chars_of("Character '");
        m.push(ch);
        push_str(&mut m, "' (U+");
        push_hex(&mut m, ch as u32, 4);
        push_str(&mut m, ") in .STRINGZ is not ASCII; LC-3 only supports characters 0x00–0x7F");
        proof {
            assert(m@ =~= non_ascii_text(ch));
        }
        Self::from_chars(ErrorKind::NonAsciiInStringz, &m, span)
    }

    /// A label spelled like a directive name without its dot.
    pub fn label_is_reserved_word(label: &str, span: Span) -> (r: Self)
        ensures
            r@ == diag(ErrorKind::LabelIsReservedWord, reserved_word_text(label@), span),
    {
        let mut m = chars_of("Label '");
        push_str(&mut m, label);
        push_str(&mut m, "' shadows an assembler directive name; prefix it with '.' or rename it");
        proof {
            assert(m@ =~= reserved_word_text(label@));
        }
        Self::from_chars(ErrorKind::LabelIsReservedWord, &m, span)
    }

    /// The text form of this diagnostic: `ERROR (line L:C): <message>`.
    pub fn render(&self) -> (r: String)
        ensures
            r@ == render_text(self@),
    {
        let mut m = chars_of("ERROR (line ");
        push_nat(&mut m, self.span.line as u128);
        push_str(&mut m, ":");
        push_nat(&mut m, self.span.col as u128);
        push_str(&mut m, "): ");
        push_str(&mut m, self.message.as_str());
        proof {
            assert(m@ =~= render_text(self@));
        }
        string_of(&m)
    }
}

} // verus!
