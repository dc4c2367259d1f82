//! Groups tokens into source lines and checks each line's operands.
//!
//! A line is an optional label followed by an instruction or a directive with
//! its operands separated by commas. Comments are dropped. A malformed line is
//! diagnosed and kept as an empty line, with its label if it had one.
pub mod ast;

use crate::error::{AsmError, ErrorKind, Span};
use crate::lexer::token::{starts_statement, BrFlags, Token, TokenKind};
use crate::text::{chars_of, push_int, push_str};
use ast::{Instruction, LineContent, SourceLine};
use vstd::prelude::*;

verus! {

/// What the parser produces: one line per source line, and the problems found.
pub struct ParseResult {
    pub lines: Vec<SourceLine>,
    pub errors: Vec<AsmError>,
}

/// The number of lines that a token stream holds: one per newline before the
/// end marker, and one for the end marker.
pub open spec fn line_count(tokens: Seq<Token>) -> nat
    decreases tokens.len(),
{
    if tokens.len() == 0 {
        0
    } else if tokens[0].kind is Eof {
        1
    } else if tokens[0].kind is Newline {
        1 + line_count(tokens.drop_first())
    } else {
        line_count(tokens.drop_first())
    }
}

/// The number a token stands for: decimal literals as written, hexadecimal,
/// binary and octal literals as their two's-complement reading.
pub open spec fn number_of(k: TokenKind) -> Option<i32> {
    match k {
        TokenKind::NumDecimal(v) => Some(v),
        TokenKind::NumHex(v) => Some(v),
        TokenKind::NumBinary(v) => Some(v),
        TokenKind::NumOctal(v) => Some(v),
        _ => None,
    }
}

/// Whether a token is a 16-bit pattern literal (hexadecimal, binary, octal).
pub open spec fn is_pattern(k: TokenKind) -> bool {
    k is NumHex || k is NumBinary || k is NumOctal
}

/// The register at position `i`, if that token is one.
pub open spec fn reg_at(t: Seq<&Token>, i: int) -> Option<u8> {
    if 0 <= i < t.len() && t[i].kind is Register {
        Some(t[i].kind->Register_0)
    } else {
        None
    }
}

/// The label named at position `i`, if that token is one.
pub open spec fn label_at(t: Seq<&Token>, i: int) -> Option<String> {
    if 0 <= i < t.len() && t[i].kind is Label {
        Some(t[i].kind->Label_0)
    } else {
        None
    }
}

pub open spec fn comma_at(t: Seq<&Token>, i: int) -> bool {
    0 <= i < t.len() && t[i].kind is Comma
}

/// The number at position `i`, if that token is one.
pub open spec fn num_at(t: Seq<&Token>, i: int) -> Option<i32> {
    if 0 <= i < t.len() {
        number_of(t[i].kind)
    } else {
        None
    }
}

/// The value a number token denotes where a 16-bit word is expected.
pub open spec fn word_value(k: TokenKind) -> Option<i32> {
    if is_pattern(k) {
        Some(((number_of(k)->0) as u16) as i32)
    } else {
        number_of(k)
    }
}

/// `R, LABEL` operands: the register and the label.
pub open spec fn reg_label_operands(t: Seq<&Token>) -> Option<(u8, String)> {
    if t.len() == 4 && reg_at(t, 1) is Some && comma_at(t, 2) && label_at(t, 3) is Some {
        Some((reg_at(t, 1)->0, label_at(t, 3)->0))
    } else {
        None
    }
}

/// `R, R, X` operands with the third one given as an option.
pub open spec fn two_regs_then(t: Seq<&Token>) -> bool {
    t.len() == 6 && reg_at(t, 1) is Some && comma_at(t, 2) && reg_at(t, 3) is Some && comma_at(t, 4)
}

/// The content that a well-formed statement denotes; `None` when its operands
/// are missing, of the wrong kind, out of range, or followed by more tokens.
pub open spec fn content_of(t: Seq<&Token>) -> Option<LineContent> {
    if t.len() == 0 {
        None
    } else {
        let r1 = reg_at(t, 1)->0;
        let r3 = reg_at(t, 3)->0;
        match t[0].kind {
            TokenKind::OpAdd => if two_regs_then(t) && reg_at(t, 5) is Some {
                Some(LineContent::Instruction(Instruction::AddReg { dr: r1, sr1: r3, sr2: reg_at(t, 5)->0 }))
            } else if two_regs_then(t) && num_at(t, 5) is Some && -16 <= num_at(t, 5)->0 <= 15 {
                Some(LineContent::Instruction(Instruction::AddImm { dr: r1, sr1: r3, imm5: (num_at(t, 5)->0) as i16 }))
            } else {
                None
            },
            TokenKind::OpAnd => if two_regs_then(t) && reg_at(t, 5) is Some {
                Some(LineContent::Instruction(Instruction::AndReg { dr: r1, sr1: r3, sr2: reg_at(t, 5)->0 }))
            } else if two_regs_then(t) && num_at(t, 5) is Some && -16 <= num_at(t, 5)->0 <= 15 {
                Some(LineContent::Instruction(Instruction::AndImm { dr: r1, sr1: r3, imm5: (num_at(t, 5)->0) as i16 }))
            } else {
                None
            },
            TokenKind::OpNot => if t.len() == 4 && reg_at(t, 1) is Some && comma_at(t, 2) && reg_at(t, 3) is Some {
                Some(LineContent::Instruction(Instruction::Not { dr: r1, sr: r3 }))
            } else {
                None
            },
            TokenKind::OpBr(flags) => if t.len() == 2 && label_at(t, 1) is Some {
                Some(LineContent::Instruction(Instruction::Br { flags, label: label_at(t, 1)->0 }))
            } else {
                None
            },
            TokenKind::OpLd => match reg_label_operands(t) {
                Some((dr, label)) => Some(LineContent::Instruction(Instruction::Ld { dr, label })),
                None => None,
            },
            TokenKind::OpLdi => match reg_label_operands(t) {
                Some((dr, label)) => Some(LineContent::Instruction(Instruction::Ldi { dr, label })),
                None => None,
            },
            TokenKind::OpLea => match reg_label_operands(t) {
                Some((dr, label)) => Some(LineContent::Instruction(Instruction::Lea { dr, label })),
                None => None,
            },
            TokenKind::OpSt => match reg_label_operands(t) {
                Some((sr, label)) => Some(LineContent::Instruction(Instruction::St { sr, label })),
                None => None,
            },
            TokenKind::OpSti => match reg_label_operands(t) {
                Some((sr, label)) => Some(LineContent::Instruction(Instruction::Sti { sr, label })),
                None => None,
            },
            TokenKind::OpLdr => if two_regs_then(t) && num_at(t, 5) is Some && -32 <= num_at(t, 5)->0 <= 31 {
                Some(LineContent::Instruction(Instruction::Ldr { dr: r1, base_r: r3, offset6: (num_at(t, 5)->0) as i16 }))
            } else {
                None
            },
            TokenKind::OpStr => if two_regs_then(t) && num_at(t, 5) is Some && -32 <= num_at(t, 5)->0 <= 31 {
                Some(LineContent::Instruction(Instruction::Str { sr: r1, base_r: r3, offset6: (num_at(t, 5)->0) as i16 }))
            } else {
                None
            },
            TokenKind::OpJmp => if t.len() == 2 && reg_at(t, 1) is Some {
                Some(LineContent::Instruction(Instruction::Jmp { base_r: r1 }))
            } else {
                None
            },
            TokenKind::OpJsrr => if t.len() == 2 && reg_at(t, 1) is Some {
                Some(LineContent::Instruction(Instruction::Jsrr { base_r: r1 }))
            } else {
                None
            },
            TokenKind::OpJsr => if t.len() == 2 && label_at(t, 1) is Some {
                Some(LineContent::Instruction(Instruction::Jsr { label: label_at(t, 1)->0 }))
            } else {
                None
            },
            TokenKind::OpTrap => if t.len() == 2 && num_at(t, 1) is Some && 0 <= num_at(t, 1)->0 <= 0xFF {
                Some(LineContent::Instruction(Instruction::Trap { trapvect8: (num_at(t, 1)->0) as u8 }))
            } else {
                None
            },
            TokenKind::OpRti => if t.len() == 1 { Some(LineContent::Instruction(Instruction::Rti)) } else { None },
            TokenKind::PseudoRet => if t.len() == 1 { Some(LineContent::Instruction(Instruction::Ret)) } else { None },
            TokenKind::PseudoGetc => if t.len() == 1 { Some(LineContent::Instruction(Instruction::Getc)) } else { None },
            TokenKind::PseudoOut => if t.len() == 1 { Some(LineContent::Instruction(Instruction::Out)) } else { None },
            TokenKind::PseudoPuts => if t.len() == 1 { Some(LineContent::Instruction(Instruction::Puts)) } else { None },
            TokenKind::PseudoIn => if t.len() == 1 { Some(LineContent::Instruction(Instruction::In)) } else { None },
            TokenKind::PseudoPutsp => if t.len() == 1 { Some(LineContent::Instruction(Instruction::Putsp)) } else { None },
            TokenKind::PseudoHalt => if t.len() == 1 { Some(LineContent::Instruction(Instruction::Halt)) } else { None },
            TokenKind::DirEnd => if t.len() == 1 { Some(LineContent::End) } else { None },
            TokenKind::DirOrig => if t.len() == 2 && word_value(t[1].kind) is Some && 0 <= word_value(t[1].kind)->0 <= 0xFFFF {
                Some(LineContent::Orig((word_value(t[1].kind)->0) as u16))
            } else {
                None
            },
            TokenKind::DirFill => if t.len() == 2 && word_value(t[1].kind) is Some {
                Some(LineContent::FillImmediate(word_value(t[1].kind)->0))
            } else if t.len() == 2 && label_at(t, 1) is Some {
                Some(LineContent::FillLabel(label_at(t, 1)->0))
            } else {
                None
            },
            TokenKind::DirBlkw => if t.len() == 2 && num_at(t, 1) is Some {
                Some(LineContent::Blkw((num_at(t, 1)->0) as u16))
            } else {
                None
            },
            TokenKind::DirStringz => if t.len() == 2 && t[1].kind is StringLiteral {
                Some(LineContent::Stringz(t[1].kind->StringLiteral_0))
            } else {
                None
            },
            _ => None,
        }
    }
}

/// A parse result agrees with the content the statement denotes: success
/// exactly on well-formed statements, with their content.
pub open spec fn parsed_as(t: Seq<&Token>, r: Result<LineContent, AsmError>) -> bool {
    match r {
        Ok(c) => content_of(t) == Some(c),
        Err(_) => content_of(t) is None,
    }
}

/// The tokens of a line without its comments.
pub open spec fn drop_comments(t: Seq<&Token>) -> Seq<&Token>
    decreases t.len(),
{
    if t.len() == 0 {
        t
    } else if t.last().kind is Comment {
        drop_comments(t.drop_last())
    } else {
        drop_comments(t.drop_last()).push(t.last())
    }
}

/// The content of a statement, or an empty line when it is malformed.
pub open spec fn content_or_empty(t: Seq<&Token>) -> LineContent {
    match content_of(t) {
        Some(c) => c,
        None => LineContent::Empty,
    }
}

/// The label and content of a line, from its tokens without comments: a
/// leading label is kept when a statement or nothing follows it, and also
/// (with empty content) when something else follows it.
pub open spec fn line_parts(f: Seq<&Token>) -> (Option<String>, LineContent) {
    if f.len() == 0 {
        (None, LineContent::Empty)
    } else if f[0].kind is Label {
        if f.len() == 1 || !starts_statement(f[1].kind) {
            (Some(f[0].kind->Label_0), LineContent::Empty)
        } else {
            (Some(f[0].kind->Label_0), content_or_empty(f.subrange(1, f.len() as int)))
        }
    } else if starts_statement(f[0].kind) {
        (None, content_or_empty(f))
    } else {
        (None, LineContent::Empty)
    }
}

/// Whether a line's tokens fail to parse, which raises exactly one
/// diagnostic: a statement with bad operands, or a first token that starts
/// neither a label nor a statement.
pub open spec fn line_fails(group: Seq<&Token>) -> bool {
    let f = drop_comments(group);
    if f.len() == 0 {
        false
    } else if f[0].kind is Label {
        f.len() > 1 && starts_statement(f[1].kind) && content_of(f.subrange(1, f.len() as int)) is None
    } else if starts_statement(f[0].kind) {
        content_of(f) is None
    } else {
        true
    }
}

/// The number of failing lines among those formed by `tokens[i..]`, after
/// `acc` counted so far; lines are formed as in `split_from`.
pub open spec fn fail_count_from(tokens: Seq<Token>, start: int, i: int, acc: nat) -> nat
    decreases tokens.len() - i,
{
    if i < 0 || i >= tokens.len() {
        acc
    } else if tokens[i].kind is Newline {
        fail_count_from(tokens, i + 1, i + 1, acc + if line_fails(refs(tokens.subrange(start, i))) { 1nat } else { 0nat })
    } else if tokens[i].kind is Eof {
        acc + if line_fails(refs(tokens.subrange(start, i))) { 1nat } else { 0nat }
    } else {
        fail_count_from(tokens, start, i + 1, acc)
    }
}

/// References to each token of a sequence, in order.
pub open spec fn refs<'a>(t: Seq<Token>) -> Seq<&'a Token> {
    Seq::new(t.len(), |i: int| &t[i])
}

/// The source line that a group of tokens forms as line `n`.
pub open spec fn line_from(group: Seq<&Token>, n: nat) -> SourceLine {
    SourceLine {
        label: line_parts(drop_comments(group)).0,
        content: line_parts(drop_comments(group)).1,
        line_number: n as usize,
        span: if group.len() > 0 {
            group[0].span
        } else {
            Span { line: n as usize, col: 1 }
        },
    }
}

/// The lines formed by `tokens[i..]`, after `acc`, when the current line
/// started at `start`: each newline closes a line, the end marker closes the
/// last one, and tokens after a last newline without an end marker form none.
pub open spec fn split_from(tokens: Seq<Token>, start: int, i: int, acc: Seq<SourceLine>) -> Seq<SourceLine>
    decreases tokens.len() - i,
{
    if i < 0 || i >= tokens.len() {
        acc
    } else if tokens[i].kind is Newline {
        split_from(tokens, i + 1, i + 1, acc.push(line_from(refs(tokens.subrange(start, i)), acc.len() + 1)))
    } else if tokens[i].kind is Eof {
        acc.push(line_from(refs(tokens.subrange(start, i)), acc.len() + 1))
    } else {
        split_from(tokens, start, i + 1, acc)
    }
}

/// The lines of a token stream.
pub open spec fn lines_of(tokens: Seq<Token>) -> Seq<SourceLine> {
    split_from(tokens, 0, 0, Seq::empty())
}

/// Splits the tokens into lines at each newline, up to the end marker, and
/// parses each line.
pub fn parse_lines(tokens: &[Token]) -> (r: ParseResult)
    ensures
        r.lines@ == lines_of(tokens@),
        r.errors@.len() == fail_count_from(tokens@, 0, 0, 0),
        r.lines@.len() == line_count(tokens@),
        forall|i: int| 0 <= i < r.lines@.len() ==> (#[trigger] r.lines@[i]).line_number == i + 1,
{
    let mut lines: Vec<SourceLine> = Vec::new();
    let mut errors: Vec<AsmError> = Vec::new();
    let mut current: Vec<&Token> = Vec::new();
    let mut i: usize = 0;
    let ghost mut start: int = 0;
    assert(tokens@.subrange(0, tokens@.len() as int) =~= tokens@);
    assert(current@ =~= refs(tokens@.subrange(0, 0)));
    while i < tokens.len()
        invariant
            i <= tokens@.len(),
            0 <= start <= i,
            current@ == refs(tokens@.subrange(start, i as int)),
            lines_of(tokens@) == split_from(tokens@, start, i as int, lines@),
            fail_count_from(tokens@, 0, 0, 0) == fail_count_from(tokens@, start, i as int, errors@.len()),
            lines@.len() <= i,
            lines@.len() + line_count(tokens@.subrange(i as int, tokens@.len() as int)) == line_count(tokens@),
            forall|j: int| 0 <= j < lines@.len() ==> (#[trigger] lines@[j]).line_number == j + 1,
        decreases tokens@.len() - i,
    {
        let token = &tokens[i];
        let ghost before = lines@;
        proof {
            assert(tokens@.subrange(i as int, tokens@.len() as int).drop_first() =~= tokens@.subrange(i + 1, tokens@.len() as int));
        }
        match token.kind {
            TokenKind::Newline => {
                process_line(&current, lines.len() + 1, &mut lines, &mut errors);
                current.clear();
                proof {
                    start = i + 1;
                    assert(current@ =~= refs(tokens@.subrange(start, i + 1)));
                }
                proof {
                    assert forall|j: int| 0 <= j < lines@.len() implies (#[trigger] lines@[j]).line_number == j + 1 by {
                        if j < before.len() {
                            assert(lines@[j] == lines@.drop_last()[j]);
                        }
                    }
                }
            },
            TokenKind::Eof => {
                process_line(&current, lines.len() + 1, &mut lines, &mut errors);
                proof {
                    assert forall|j: int| 0 <= j < lines@.len() implies (#[trigger] lines@[j]).line_number == j + 1 by {
                        if j < before.len() {
                            assert(lines@[j] == lines@.drop_last()[j]);
                        }
                    }
                }
                return ParseResult { lines, errors };
            },
            _ => {
                current.push(token);
                proof {
                    assert(current@ =~= refs(tokens@.subrange(start, i + 1)));
                }
            },
        }
        i = i + 1;
    }
    proof {
        assert(tokens@.subrange(i as int, tokens@.len() as int) =~= Seq::<Token>::empty());
    }
    ParseResult { lines, errors }
}

/// Parses the tokens of one line and appends exactly one source line.
fn process_line(tokens: &Vec<&Token>, line_number: usize, lines: &mut Vec<SourceLine>, errors: &mut Vec<AsmError>)
    ensures
        final(lines)@ == old(lines)@.push(line_from(tokens@, line_number as nat)),
        final(errors)@.len() == old(errors)@.len() + if line_fails(tokens@) { 1int } else { 0int },
        final(errors)@.subrange(0, old(errors)@.len() as int) == old(errors)@,
        final(lines)@.len() == old(lines)@.len() + 1,
        final(lines)@.drop_last() == old(lines)@,
        final(lines)@.last().line_number == line_number,
{
    let span = line_span(tokens, line_number);
    let mut filtered: Vec<&Token> = Vec::new();
    let mut k: usize = 0;
    while k < tokens.len()
        invariant
            k <= tokens@.len(),
            filtered@.len() <= k,
            filtered@ == drop_comments(tokens@.subrange(0, k as int)),
        decreases tokens@.len() - k,
    {
        proof {
            assert(tokens@.subrange(0, k + 1).drop_last() =~= tokens@.subrange(0, k as int));
        }
        match tokens[k].kind {
            TokenKind::Comment(_) => {},
            _ => {
                filtered.push(tokens[k]);
            },
        }
        k = k + 1;
    }
    proof {
        assert(tokens@.subrange(0, k as int) =~= tokens@);
    }
    let ghost before = lines@;
    if filtered.len() == 0 {
        lines.push(SourceLine { label: None, content: LineContent::Empty, line_number, span });
        proof { assert(lines@.drop_last() =~= before); }
        return;
    }
    let first = filtered[0];
    let mut label: Option<String> = None;
    let content_tokens: &[&Token];
    match &first.kind {
        TokenKind::Label(name) => {
            label = Some(name.clone());
            if filtered.len() == 1 || !filtered[1].kind.is_instruction_or_directive() {
                lines.push(SourceLine { label, content: LineContent::Empty, line_number, span });
                proof { assert(lines@.drop_last() =~= before); }
                return;
            }
            content_tokens = slice_from(&filtered, 1);
        },
        _ => {
            if first.kind.is_instruction_or_directive() {
                content_tokens = filtered.as_slice();
            } else {
                push_err(errors, AsmError::new(ErrorKind::UnexpectedToken, "Unexpected token at start of line", first.span));
                lines.push(SourceLine { label: None, content: LineContent::Empty, line_number, span });
                proof { assert(lines@.drop_last() =~= before); }
                return;
            }
        },
    }
    match parse_content(content_tokens) {
        Ok(content) => {
            lines.push(SourceLine { label, content, line_number, span });
        },
        Err(err) => {
            push_err(errors, err);
            lines.push(SourceLine { label, content: LineContent::Empty, line_number, span });
        },
    }
    proof { assert(lines@.drop_last() =~= before); }
}

fn push_err(errors: &mut Vec<AsmError>, e: AsmError)
    ensures
        final(errors)@ == old(errors)@.push(e),
{
    errors.push(e);
}

/// The tokens of `v` from index `start` on.
fn slice_from<'a, 'b>(v: &'a Vec<&'b Token>, start: usize) -> (r: &'a [&'b Token])
    requires
        start <= v@.len(),
    ensures
        r@ == v@.subrange(start as int, v@.len() as int),
{
    vstd::slice::slice_subrange(v.as_slice(), start, v.len())
}

/// Where a line starts: at its first token, or column 1 of the line when it
/// has none.
fn line_span(tokens: &Vec<&Token>, line_number: usize) -> (r: Span)
    ensures
        tokens@.len() > 0 ==> r == tokens@[0].span,
        tokens@.len() == 0 ==> r == (Span { line: line_number, col: 1 }),
{
    if tokens.len() > 0 {
        let first = tokens[0];
        Span { line: first.span.line, col: first.span.col }
    } else {
        Span { line: line_number, col: 1 }
    }
}

/// Parses the content of a line whose first token is an opcode or a directive.
fn parse_content(tokens: &[&Token]) -> (r: Result<LineContent, AsmError>)
    requires
        tokens@.len() > 0,
    ensures
        parsed_as(tokens@, r),
{
    let first = tokens[0];
    match &first.kind {
        TokenKind::OpAdd => parse_add(tokens),
        TokenKind::OpAnd => parse_and(tokens),
        TokenKind::OpNot => parse_not(tokens),
        TokenKind::OpBr(flags) => parse_br(tokens, *flags),
        TokenKind::OpLd => parse_ld(tokens),
        TokenKind::OpLdi => parse_ldi(tokens),
        TokenKind::OpLdr => parse_ldr(tokens),
        TokenKind::OpLea => parse_lea(tokens),
        TokenKind::OpSt => parse_st(tokens),
        TokenKind::OpSti => parse_sti(tokens),
        TokenKind::OpStr => parse_str(tokens),
        TokenKind::OpJmp => parse_jmp(tokens),
        TokenKind::OpJsr => parse_jsr(tokens),
        TokenKind::OpJsrr => parse_jsrr(tokens),
        TokenKind::OpTrap => parse_trap(tokens),
        TokenKind::OpRti => ensure_no_operands(tokens, LineContent::Instruction(Instruction::Rti), "RTI"),
        TokenKind::PseudoRet => ensure_no_operands(tokens, LineContent::Instruction(Instruction::Ret), "RET"),
        TokenKind::PseudoGetc => ensure_no_operands(tokens, LineContent::Instruction(Instruction::Getc), "GETC"),
        TokenKind::PseudoOut => ensure_no_operands(tokens, LineContent::Instruction(Instruction::Out), "OUT"),
        TokenKind::PseudoPuts => ensure_no_operands(tokens, LineContent::Instruction(Instruction::Puts), "PUTS"),
        TokenKind::PseudoIn => ensure_no_operands(tokens, LineContent::Instruction(Instruction::In), "IN"),
        TokenKind::PseudoPutsp => ensure_no_operands(tokens, LineContent::Instruction(Instruction::Putsp), "PUTSP"),
        TokenKind::PseudoHalt => ensure_no_operands(tokens, LineContent::Instruction(Instruction::Halt), "HALT"),
        TokenKind::DirOrig => parse_orig(tokens),
        TokenKind::DirEnd => ensure_no_operands(tokens, LineContent::End, ".END"),
        TokenKind::DirFill => parse_fill(tokens),
        TokenKind::DirBlkw => parse_blkw(tokens),
        TokenKind::DirStringz => parse_stringz(tokens),
        _ => Err(AsmError::new(ErrorKind::UnexpectedToken, "Unexpected token in line", first.span)),
    }
}

/// ADD or AND: `DR, SR1, SR2` or `DR, SR1, #imm5` with imm5 in [-16, 15].
/// Returns the registers and either the second source register or the immediate.
fn parse_reg_reg_or_imm(tokens: &[&Token], name: &str) -> (r: Result<(u8, u8, Result<u8, i16>), AsmError>)
    requires
        tokens@.len() > 0,
    ensures
        match r {
            Ok((dr, sr1, Ok(sr2))) => two_regs_then(tokens@) && reg_at(tokens@, 1) == Some(dr) && reg_at(tokens@, 3) == Some(sr1)
                && reg_at(tokens@, 5) == Some(sr2),
            Ok((dr, sr1, Err(imm))) => two_regs_then(tokens@) && reg_at(tokens@, 1) == Some(dr) && reg_at(tokens@, 3) == Some(sr1)
                && reg_at(tokens@, 5) is None && num_at(tokens@, 5) is Some && -16 <= num_at(tokens@, 5)->0 <= 15
                && imm == (num_at(tokens@, 5)->0) as i16,
            Err(_) => !(two_regs_then(tokens@) && (reg_at(tokens@, 5) is Some || (num_at(tokens@, 5) is Some && -16
                <= num_at(tokens@, 5)->0 <= 15))),
        },
{
    if tokens.len() < 6 {
        let mut m = chars_of(name);
        push_str(&mut m, " requires 3 operands: ");
        push_str(&mut m, name);
        push_str(&mut m, " DR, SR1, SR2/imm5");
        return Err(AsmError::from_chars(ErrorKind::TooFewOperands, &m, tokens[0].span));
    }
    match expect_comma(tokens, 2, "Expected comma after first operand") {
        Ok(()) => {},
        Err(e) => { return Err(e); },
    }
    match expect_comma(tokens, 4, "Expected comma after second operand") {
        Ok(()) => {},
        Err(e) => { return Err(e); },
    }
    let dr = match expect_register(tokens, 1, name, " first operand must be a register (R0-R7)") {
        Ok(v) => v,
        Err(e) => { return Err(e); },
    };
    let sr1 = match expect_register(tokens, 3, name, " second operand must be a register (R0-R7)") {
        Ok(v) => v,
        Err(e) => { return Err(e); },
    };
    match token_to_register(tokens[5]) {
        Some(sr2) => {
            match ensure_no_extra(tokens, 6) {
                Ok(()) => {},
                Err(e) => { return Err(e); },
            }
            return Ok((dr, sr1, Ok(sr2)));
        },
        None => {},
    }
    match token_to_i32(tokens[5]) {
        Some(imm) => {
            if imm < -16 || imm > 15 {
                let mut m = chars_of(name);
                push_str(&mut m, " immediate value ");
                push_int(&mut m, imm as i64);
                push_str(&mut m, " is out of 5-bit signed range (-16 to 15)");
                return Err(AsmError::from_chars(ErrorKind::InvalidOperandType, &m, tokens[5].span));
            }
            match ensure_no_extra(tokens, 6) {
                Ok(()) => {},
                Err(e) => { return Err(e); },
            }
            Ok((dr, sr1, Err(imm as i16)))
        },
        None => {
            let mut m = chars_of(name);
            push_str(&mut m, " third operand must be a register (R0-R7) or immediate (#n)");
            Err(AsmError::from_chars(ErrorKind::InvalidOperandType, &m, tokens[5].span))
        },
    }
}

fn parse_add(tokens: &[&Token]) -> (r: Result<LineContent, AsmError>)
    requires
        tokens@.len() > 0,
        tokens@[0].kind is OpAdd,
    ensures
        parsed_as(tokens@, r),
{
    match parse_reg_reg_or_imm(tokens, "ADD") {
        Ok((dr, sr1, Ok(sr2))) => Ok(LineContent::Instruction(Instruction::AddReg { dr, sr1, sr2 })),
        Ok((dr, sr1, Err(imm5))) => Ok(LineContent::Instruction(Instruction::AddImm { dr, sr1, imm5 })),
        Err(e) => Err(e),
    }
}

fn parse_and(tokens: &[&Token]) -> (r: Result<LineContent, AsmError>)
    requires
        tokens@.len() > 0,
        tokens@[0].kind is OpAnd,
    ensures
        parsed_as(tokens@, r),
{
    match parse_reg_reg_or_imm(tokens, "AND") {
        Ok((dr, sr1, Ok(sr2))) => Ok(LineContent::Instruction(Instruction::AndReg { dr, sr1, sr2 })),
        Ok((dr, sr1, Err(imm5))) => Ok(LineContent::Instruction(Instruction::AndImm { dr, sr1, imm5 })),
        Err(e) => Err(e),
    }
}

fn parse_not(tokens: &[&Token]) -> (r: Result<LineContent, AsmError>)
    requires
        tokens@.len() > 0,
        tokens@[0].kind is OpNot,
    ensures
        parsed_as(tokens@, r),
{
    if tokens.len() < 4 {
        return Err(AsmError::new(ErrorKind::TooFewOperands, "NOT requires 2 operands: NOT DR, SR", tokens[0].span));
    }
    match expect_comma(tokens, 2, "Expected comma after first operand") {
        Ok(()) => {},
        Err(e) => { return Err(e); },
    }
    let dr = match expect_register(tokens, 1, "NOT", " first operand must be a register (R0-R7)") {
        Ok(v) => v,
        Err(e) => { return Err(e); },
    };
    let sr = match expect_register(tokens, 3, "NOT", " second operand must be a register (R0-R7)") {
        Ok(v) => v,
        Err(e) => { return Err(e); },
    };
    match ensure_no_extra(tokens, 4) {
        Ok(()) => {},
        Err(e) => { return Err(e); },
    }
    Ok(LineContent::Instruction(Instruction::Not { dr, sr }))
}

fn parse_br(tokens: &[&Token], flags: BrFlags) -> (r: Result<LineContent, AsmError>)
    requires
        tokens@.len() > 0,
        tokens@[0].kind == TokenKind::OpBr(flags),
    ensures
        parsed_as(tokens@, r),
{
    if tokens.len() < 2 {
        return Err(AsmError::new(ErrorKind::TooFewOperands, "BR requires a label operand", tokens[0].span));
    }
    let label = match expect_label(tokens, 1, "BR requires a label operand") {
        Ok(v) => v,
        Err(e) => { return Err(e); },
    };
    match ensure_no_extra(tokens, 2) {
        Ok(()) => {},
        Err(e) => { return Err(e); },
    }
    Ok(LineContent::Instruction(Instruction::Br { flags, label }))
}

/// `R, LABEL`: a register and a label operand.
fn parse_reg_label(tokens: &[&Token], name: &str) -> (r: Result<(u8, String), AsmError>)
    requires
        tokens@.len() > 0,
    ensures
        match r {
            Ok(v) => reg_label_operands(tokens@) == Some(v),
            Err(_) => reg_label_operands(tokens@) is None,
        },
{
    if tokens.len() < 4 {
        let mut m = chars_of(name);
        push_str(&mut m, " requires 2 operands: ");
        push_str(&mut m, name);
        push_str(&mut m, " DR, LABEL");
        return Err(AsmError::from_chars(ErrorKind::TooFewOperands, &m, tokens[0].span));
    }
    match expect_comma(tokens, 2, "Expected comma after first operand") {
        Ok(()) => {},
        Err(e) => { return Err(e); },
    }
    let reg = match expect_register(tokens, 1, name, " first operand must be a register (R0-R7)") {
        Ok(v) => v,
        Err(e) => { return Err(e); },
    };
    let mut m = chars_of(name);
    push_str(&mut m, " requires a label operand");
    let label = match expect_label(tokens, 3, crate::text::string_of(&m).as_str()) {
        Ok(v) => v,
        Err(e) => { return Err(e); },
    };
    match ensure_no_extra(tokens, 4) {
        Ok(()) => {},
        Err(e) => { return Err(e); },
    }
    Ok((reg, label))
}

fn parse_ld(tokens: &[&Token]) -> (r: Result<LineContent, AsmError>)
    requires
        tokens@.len() > 0,
        tokens@[0].kind is OpLd,
    ensures
        parsed_as(tokens@, r),
{
    match parse_reg_label(tokens, "LD") {
        Ok((dr, label)) => Ok(LineContent::Instruction(Instruction::Ld { dr, label })),
        Err(e) => Err(e),
    }
}

fn parse_ldi(tokens: &[&Token]) -> (r: Result<LineContent, AsmError>)
    requires
        tokens@.len() > 0,
        tokens@[0].kind is OpLdi,
    ensures
        parsed_as(tokens@, r),
{
    match parse_reg_label(tokens, "LDI") {
        Ok((dr, label)) => Ok(LineContent::Instruction(Instruction::Ldi { dr, label })),
        Err(e) => Err(e),
    }
}

fn parse_lea(tokens: &[&Token]) -> (r: Result<LineContent, AsmError>)
    requires
        tokens@.len() > 0,
        tokens@[0].kind is OpLea,
    ensures
        parsed_as(tokens@, r),
{
    match parse_reg_label(tokens, "LEA") {
        Ok((dr, label)) => Ok(LineContent::Instruction(Instruction::Lea { dr, label })),
        Err(e) => Err(e),
    }
}

fn parse_st(tokens: &[&Token]) -> (r: Result<LineContent, AsmError>)
    requires
        tokens@.len() > 0,
        tokens@[0].kind is OpSt,
    ensures
        parsed_as(tokens@, r),
{
    match parse_reg_label(tokens, "ST") {
        Ok((sr, label)) => Ok(LineContent::Instruction(Instruction::St { sr, label })),
        Err(e) => Err(e),
    }
}

fn parse_sti(tokens: &[&Token]) -> (r: Result<LineContent, AsmError>)
    requires
        tokens@.len() > 0,
        tokens@[0].kind is OpSti,
    ensures
        parsed_as(tokens@, r),
{
    match parse_reg_label(tokens, "STI") {
        Ok((sr, label)) => Ok(LineContent::Instruction(Instruction::Sti { sr, label })),
        Err(e) => Err(e),
    }
}

/// `R, BaseR, #offset6` with the offset in [-32, 31].
fn parse_reg_reg_imm(tokens: &[&Token], name: &str) -> (r: Result<(u8, u8, i16), AsmError>)
    requires
        tokens@.len() > 0,
    ensures
        match r {
            Ok((a, b, off)) => two_regs_then(tokens@) && reg_at(tokens@, 1) == Some(a) && reg_at(tokens@, 3) == Some(b)
                && num_at(tokens@, 5) is Some && -32 <= num_at(tokens@, 5)->0 <= 31 && off == (num_at(tokens@, 5)->0) as i16,
            Err(_) => !(two_regs_then(tokens@) && num_at(tokens@, 5) is Some && -32 <= num_at(tokens@, 5)->0 <= 31),
        },
{
    if tokens.len() < 6 {
        let mut m = chars_of(name);
        push_str(&mut m, " requires 3 operands: ");
        push_str(&mut m, name);
        push_str(&mut m, " DR, BaseR, #offset6");
        return Err(AsmError::from_chars(ErrorKind::TooFewOperands, &m, tokens[0].span));
    }
    match expect_comma(tokens, 2, "Expected comma after first operand") {
        Ok(()) => {},
        Err(e) => { return Err(e); },
    }
    match expect_comma(tokens, 4, "Expected comma after second operand") {
        Ok(()) => {},
        Err(e) => { return Err(e); },
    }
    let r1 = match expect_register(tokens, 1, name, " first operand must be a register (R0-R7)") {
        Ok(v) => v,
        Err(e) => { return Err(e); },
    };
    let r2 = match expect_register(tokens, 3, name, " second operand must be a register (R0-R7)") {
        Ok(v) => v,
        Err(e) => { return Err(e); },
    };
    let value = match token_to_i32(tokens[5]) {
        Some(v) => v,
        None => {
            let mut m = chars_of(name);
            push_str(&mut m, " third operand must be an immediate (#n)");
            return Err(AsmError::from_chars(ErrorKind::InvalidOperandType, &m, tokens[5].span));
        },
    };
    if value < -32 || value > 31 {
        let mut m = chars_of(name);
        push_str(&mut m, " offset value ");
        push_int(&mut m, value as i64);
        push_str(&mut m, " is out of 6-bit signed range (-32 to 31)");
        return Err(AsmError::from_chars(ErrorKind::InvalidOperandType, &m, tokens[5].span));
    }
    match ensure_no_extra(tokens, 6) {
        Ok(()) => {},
        Err(e) => { return Err(e); },
    }
    Ok((r1, r2, value as i16))
}

fn parse_ldr(tokens: &[&Token]) -> (r: Result<LineContent, AsmError>)
    requires
        tokens@.len() > 0,
        tokens@[0].kind is OpLdr,
    ensures
        parsed_as(tokens@, r),
{
    match parse_reg_reg_imm(tokens, "LDR") {
        Ok((dr, base_r, offset6)) => Ok(LineContent::Instruction(Instruction::Ldr { dr, base_r, offset6 })),
        Err(e) => Err(e),
    }
}

fn parse_str(tokens: &[&Token]) -> (r: Result<LineContent, AsmError>)
    requires
        tokens@.len() > 0,
        tokens@[0].kind is OpStr,
    ensures
        parsed_as(tokens@, r),
{
    match parse_reg_reg_imm(tokens, "STR") {
        Ok((sr, base_r, offset6)) => Ok(LineContent::Instruction(Instruction::Str { sr, base_r, offset6 })),
        Err(e) => Err(e),
    }
}

/// A single register operand.
fn parse_single_reg(tokens: &[&Token], name: &str) -> (r: Result<u8, AsmError>)
    requires
        tokens@.len() > 0,
    ensures
        match r {
            Ok(v) => tokens@.len() == 2 && reg_at(tokens@, 1) == Some(v),
            Err(_) => !(tokens@.len() == 2 && reg_at(tokens@, 1) is Some),
        },
{
    if tokens.len() < 2 {
        let mut m = chars_of(name);
        push_str(&mut m, " requires 1 operand: ");
        push_str(&mut m, name);
        push_str(&mut m, " BaseR");
        return Err(AsmError::from_chars(ErrorKind::TooFewOperands, &m, tokens[0].span));
    }
    let base_r = match expect_register(tokens, 1, name, " operand must be a register (R0-R7)") {
        Ok(v) => v,
        Err(e) => { return Err(e); },
    };
    match ensure_no_extra(tokens, 2) {
        Ok(()) => {},
        Err(e) => { return Err(e); },
    }
    Ok(base_r)
}

fn parse_jmp(tokens: &[&Token]) -> (r: Result<LineContent, AsmError>)
    requires
        tokens@.len() > 0,
        tokens@[0].kind is OpJmp,
    ensures
        parsed_as(tokens@, r),
{
    match parse_single_reg(tokens, "JMP") {
        Ok(base_r) => Ok(LineContent::Instruction(Instruction::Jmp { base_r })),
        Err(e) => Err(e),
    }
}

fn parse_jsrr(tokens: &[&Token]) -> (r: Result<LineContent, AsmError>)
    requires
        tokens@.len() > 0,
        tokens@[0].kind is OpJsrr,
    ensures
        parsed_as(tokens@, r),
{
    match parse_single_reg(tokens, "JSRR") {
        Ok(base_r) => Ok(LineContent::Instruction(Instruction::Jsrr { base_r })),
        Err(e) => Err(e),
    }
}

fn parse_jsr(tokens: &[&Token]) -> (r: Result<LineContent, AsmError>)
    requires
        tokens@.len() > 0,
        tokens@[0].kind is OpJsr,
    ensures
        parsed_as(tokens@, r),
{
    if tokens.len() < 2 {
        return Err(AsmError::new(ErrorKind::TooFewOperands, "JSR requires 1 operand: JSR LABEL", tokens[0].span));
    }
    let label = match expect_label(tokens, 1, "JSR requires a label operand") {
        Ok(v) => v,
        Err(e) => { return Err(e); },
    };
    match ensure_no_extra(tokens, 2) {
        Ok(()) => {},
        Err(e) => { return Err(e); },
    }
    Ok(LineContent::Instruction(Instruction::Jsr { label }))
}

/// TRAP with a vector in [0, 255].
fn parse_trap(tokens: &[&Token]) -> (r: Result<LineContent, AsmError>)
    requires
        tokens@.len() > 0,
        tokens@[0].kind is OpTrap,
    ensures
        parsed_as(tokens@, r),
{
    if tokens.len() < 2 {
        return Err(AsmError::new(ErrorKind::TooFewOperands, "TRAP requires a numeric trap vector (e.g., TRAP x25)", tokens[0].span));
    }
    let value = match token_to_i32(tokens[1]) {
        Some(v) => v,
        None => {
            return Err(AsmError::new(ErrorKind::InvalidOperandType, "TRAP requires a numeric trap vector (e.g., TRAP x25)", tokens[1].span));
        },
    };
    if value < 0 || value > 0xFF {
        return Err(AsmError::new(ErrorKind::InvalidOperandType, "TRAP vector must be in the range x00-xFF", tokens[1].span));
    }
    match ensure_no_extra(tokens, 2) {
        Ok(()) => {},
        Err(e) => { return Err(e); },
    }
    Ok(LineContent::Instruction(Instruction::Trap { trapvect8: value as u8 }))
}

/// `.ORIG` with an address: a decimal in [0, 65535] or any 16-bit pattern literal.
fn parse_orig(tokens: &[&Token]) -> (r: Result<LineContent, AsmError>)
    requires
        tokens@.len() > 0,
        tokens@[0].kind is DirOrig,
    ensures
        parsed_as(tokens@, r),
{
    if tokens.len() < 2 {
        return Err(AsmError::new(ErrorKind::TooFewOperands, ".ORIG requires a numeric operand", tokens[0].span));
    }
    let value = match token_to_u16_value(tokens[1]) {
        Some(v) => v,
        None => {
            return Err(AsmError::new(ErrorKind::InvalidOperandType, ".ORIG requires a numeric operand", tokens[1].span));
        },
    };
    if value < 0 || value > 0xFFFF {
        return Err(AsmError::new(ErrorKind::InvalidOrigAddress, ".ORIG address must be 0x0000-0xFFFF", tokens[1].span));
    }
    match ensure_no_extra(tokens, 2) {
        Ok(()) => {},
        Err(e) => { return Err(e); },
    }
    Ok(LineContent::Orig(value as u16))
}

/// `.FILL` with a number or a label. A pattern literal fills in its 16 bits
/// as written: `.FILL xBEEF` holds 0xBEEF.
fn parse_fill(tokens: &[&Token]) -> (r: Result<LineContent, AsmError>)
    requires
        tokens@.len() > 0,
        tokens@[0].kind is DirFill,
    ensures
        parsed_as(tokens@, r),
{
    if tokens.len() < 2 {
        return Err(AsmError::new(ErrorKind::TooFewOperands, ".FILL requires a numeric or label operand", tokens[0].span));
    }
    match token_to_u16_value(tokens[1]) {
        Some(value) => {
            match ensure_no_extra(tokens, 2) {
                Ok(()) => {},
                Err(e) => { return Err(e); },
            }
            return Ok(LineContent::FillImmediate(value));
        },
        None => {},
    }
    match token_to_label(tokens[1]) {
        Some(label) => {
            match ensure_no_extra(tokens, 2) {
                Ok(()) => {},
                Err(e) => { return Err(e); },
            }
            Ok(LineContent::FillLabel(label))
        },
        None => Err(AsmError::new(ErrorKind::InvalidOperandType, ".FILL requires a numeric or label operand", tokens[1].span)),
    }
}

/// `.BLKW` with a word count, taken as its 16-bit pattern.
fn parse_blkw(tokens: &[&Token]) -> (r: Result<LineContent, AsmError>)
    requires
        tokens@.len() > 0,
        tokens@[0].kind is DirBlkw,
    ensures
        parsed_as(tokens@, r),
{
    if tokens.len() < 2 {
        return Err(AsmError::new(ErrorKind::TooFewOperands, ".BLKW requires a numeric operand", tokens[0].span));
    }
    let value = match token_to_i32(tokens[1]) {
        Some(v) => v,
        None => {
            return Err(AsmError::new(ErrorKind::InvalidOperandType, ".BLKW requires a numeric operand", tokens[1].span));
        },
    };
    match ensure_no_extra(tokens, 2) {
        Ok(()) => {},
        Err(e) => { return Err(e); },
    }
    Ok(LineContent::Blkw(value as u16))
}

fn parse_stringz(tokens: &[&Token]) -> (r: Result<LineContent, AsmError>)
    requires
        tokens@.len() > 0,
        tokens@[0].kind is DirStringz,
    ensures
        parsed_as(tokens@, r),
{
    if tokens.len() < 2 {
        return Err(AsmError::new(ErrorKind::TooFewOperands, ".STRINGZ requires a string literal operand", tokens[0].span));
    }
    match &tokens[1].kind {
        TokenKind::StringLiteral(s) => {
            match ensure_no_extra(tokens, 2) {
                Ok(()) => {},
                Err(e) => { return Err(e); },
            }
            Ok(LineContent::Stringz(s.clone()))
        },
        _ => Err(AsmError::new(ErrorKind::InvalidOperandType, ".STRINGZ requires a string literal operand", tokens[1].span)),
    }
}

/// An instruction or directive that takes no operand.
fn ensure_no_operands(tokens: &[&Token], content: LineContent, name: &str) -> (r: Result<LineContent, AsmError>)
    requires
        tokens@.len() > 0,
        content_of(tokens@.subrange(0, 1)) == Some(content),
        tokens@.len() > 1 ==> content_of(tokens@) is None,
    ensures
        parsed_as(tokens@, r),
        r is Ok <==> tokens@.len() == 1,
        r matches Ok(c) ==> c == content,
        r matches Err(e) ==> e.kind == ErrorKind::TooManyOperands,
{
    if tokens.len() > 1 {
        let mut m = chars_of(name);
        push_str(&mut m, " takes no operands");
        return Err(AsmError::from_chars(ErrorKind::TooManyOperands, &m, tokens[1].span));
    }
    Ok(content)
}

/// Nothing may follow the operands.
fn ensure_no_extra(tokens: &[&Token], expected_len: usize) -> (r: Result<(), AsmError>)
    ensures
        r is Ok <==> tokens@.len() <= expected_len,
        r matches Err(e) ==> e.kind == ErrorKind::UnexpectedToken,
{
    if tokens.len() > expected_len {
        return Err(AsmError::new(ErrorKind::UnexpectedToken, "Unexpected token after instruction", tokens[expected_len].span));
    }
    Ok(())
}

fn expect_comma(tokens: &[&Token], idx: usize, message: &str) -> (r: Result<(), AsmError>)
    requires
        tokens@.len() > 0,
    ensures
        r is Ok <==> idx < tokens@.len() && tokens@[idx as int].kind is Comma,
        r matches Err(e) ==> e.kind == ErrorKind::ExpectedComma,
{
    if tokens.len() <= idx {
        return Err(AsmError::new(ErrorKind::ExpectedComma, message, tokens[0].span));
    }
    match tokens[idx].kind {
        TokenKind::Comma => Ok(()),
        _ => Err(AsmError::new(ErrorKind::ExpectedComma, message, tokens[idx].span)),
    }
}

fn expect_register(tokens: &[&Token], idx: usize, name: &str, what: &str) -> (r: Result<u8, AsmError>)
    requires
        tokens@.len() > 0,
    ensures
        r matches Ok(v) ==> idx < tokens@.len() && tokens@[idx as int].kind == TokenKind::Register(v),
        r is Err ==> !(idx < tokens@.len() && tokens@[idx as int].kind is Register),
        r matches Err(e) ==> e.kind == ErrorKind::ExpectedRegister,
{
    let mut m = chars_of(name);
    push_str(&mut m, what);
    if tokens.len() <= idx {
        return Err(AsmError::from_chars(ErrorKind::ExpectedRegister, &m, tokens[0].span));
    }
    match token_to_register(tokens[idx]) {
        Some(v) => Ok(v),
        None => Err(AsmError::from_chars(ErrorKind::ExpectedRegister, &m, tokens[idx].span)),
    }
}

fn expect_label(tokens: &[&Token], idx: usize, message: &str) -> (r: Result<String, AsmError>)
    requires
        tokens@.len() > 0,
    ensures
        r matches Ok(s) ==> idx < tokens@.len() && tokens@[idx as int].kind == TokenKind::Label(s),
        r is Err ==> !(idx < tokens@.len() && tokens@[idx as int].kind is Label),
        r matches Err(e) ==> e.kind == ErrorKind::ExpectedOperand,
{
    if tokens.len() <= idx {
        return Err(AsmError::new(ErrorKind::ExpectedOperand, message, tokens[0].span));
    }
    match token_to_label(tokens[idx]) {
        Some(s) => Ok(s),
        None => Err(AsmError::new(ErrorKind::ExpectedOperand, message, tokens[idx].span)),
    }
}

/// The number a token stands for.
fn token_to_i32(token: &Token) -> (r: Option<i32>)
    ensures
        r == number_of(token.kind),
{
    match &token.kind {
        TokenKind::NumDecimal(v) => Some(*v),
        TokenKind::NumHex(v) => Some(*v),
        TokenKind::NumBinary(v) => Some(*v),
        TokenKind::NumOctal(v) => Some(*v),
        _ => None,
    }
}

/// The value a number token denotes where a 16-bit word is expected: a
/// decimal as written, a pattern literal as its unsigned 16 bits.
fn token_to_u16_value(token: &Token) -> (r: Option<i32>)
    ensures
        number_of(token.kind) is None ==> r is None,
        token.kind is NumDecimal ==> r == number_of(token.kind),
        is_pattern(token.kind) ==> r == Some(((number_of(token.kind)->0) as u16) as i32),
{
    match &token.kind {
        TokenKind::NumDecimal(v) => Some(*v),
        TokenKind::NumHex(v) => Some((*v as u16) as i32),
        TokenKind::NumBinary(v) => Some((*v as u16) as i32),
        TokenKind::NumOctal(v) => Some((*v as u16) as i32),
        _ => None,
    }
}

fn token_to_register(token: &Token) -> (r: Option<u8>)
    ensures
        r is Some <==> token.kind is Register,
        r matches Some(v) ==> token.kind == TokenKind::Register(v),
{
    match &token.kind {
        TokenKind::Register(r) => Some(*r),
        _ => None,
    }
}

fn token_to_label(token: &Token) -> (r: Option<String>)
    ensures
        r is Some <==> token.kind is Label,
        r matches Some(s) ==> token.kind == TokenKind::Label(s),
{
    match &token.kind {
        TokenKind::Label(s) => Some(s.clone()),
        _ => None,
    }
}

} // verus!
