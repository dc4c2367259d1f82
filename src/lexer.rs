//! Turns LC-3 assembly source text into tokens.
//!
//! Numbers are written `#12` or `#-5` (decimal), `x3000` (hexadecimal),
//! `b1010` (binary) or `0o17` (octal). Hexadecimal, binary and octal literals
//! are 16-bit patterns read as two's-complement: `xFFFF` is -1. Words are
//! case-insensitive; labels are kept in upper case.
pub mod cursor;
pub mod token;

use crate::error::{AsmError, ErrorKind, Span};
use crate::text::{chars_eq, chars_of, push_str, string_of};
use cursor::Cursor;
use token::{br_flags_of, BrFlags, Token, TokenKind};
use vstd::prelude::*;

verus! {

/// What the lexer produces: the tokens, ending with `Eof`, and the problems found.
pub struct LexResult {
    pub tokens: Vec<Token>,
    pub errors: Vec<AsmError>,
}

pub open spec fn is_alpha(c: char) -> bool {
    ('a' <= c && c <= 'z') || ('A' <= c && c <= 'Z')
}

pub open spec fn is_dec_digit(c: char) -> bool {
    '0' <= c && c <= '9'
}

/// Characters that may continue a word.
pub open spec fn is_word_char(c: char) -> bool {
    is_alpha(c) || is_dec_digit(c) || c == '_'
}

/// ASCII upper case of a character.
pub open spec fn upper_char(c: char) -> char {
    if 'a' <= c && c <= 'z' {
        ((c as u32) - 32) as char
    } else {
        c
    }
}

pub open spec fn upper_seq(w: Seq<char>) -> Seq<char> {
    w.map_values(|c: char| upper_char(c))
}

/// Whether `c` is a digit of the given radix (upper-case letters for hexadecimal).
pub open spec fn is_radix_digit(c: char, radix: nat) -> bool {
    if radix == 16 {
        is_dec_digit(c) || ('A' <= c && c <= 'F')
    } else if radix == 8 {
        '0' <= c && c <= '7'
    } else if radix == 2 {
        c == '0' || c == '1'
    } else {
        is_dec_digit(c)
    }
}

pub open spec fn digit_value(c: char) -> nat {
    if is_dec_digit(c) {
        ((c as u32) - ('0' as u32)) as nat
    } else {
        ((c as u32) - ('A' as u32) + 10) as nat
    }
}

/// The number that a string of digits denotes in the given radix.
pub open spec fn digits_value(s: Seq<char>, radix: nat) -> nat
    decreases s.len(),
{
    if s.len() == 0 {
        0
    } else {
        digits_value(s.drop_last(), radix) * radix + digit_value(s.last())
    }
}

/// A 16-bit pattern read as a two's-complement number.
pub open spec fn twos_complement(v: nat) -> int {
    if v > 0x7FFF {
        v - 0x10000
    } else {
        v as int
    }
}

/// The keyword that an upper-case word spells, if any.
pub open spec fn keyword_kind(u: Seq<char>) -> Option<TokenKind> {
    if u == "ADD"@ { Some(TokenKind::OpAdd) }
    else if u == "AND"@ { Some(TokenKind::OpAnd) }
    else if u == "NOT"@ { Some(TokenKind::OpNot) }
    else if u == "LD"@ { Some(TokenKind::OpLd) }
    else if u == "LDI"@ { Some(TokenKind::OpLdi) }
    else if u == "LDR"@ { Some(TokenKind::OpLdr) }
    else if u == "LEA"@ { Some(TokenKind::OpLea) }
    else if u == "ST"@ { Some(TokenKind::OpSt) }
    else if u == "STI"@ { Some(TokenKind::OpSti) }
    else if u == "STR"@ { Some(TokenKind::OpStr) }
    else if u == "JMP"@ { Some(TokenKind::OpJmp) }
    else if u == "JSR"@ { Some(TokenKind::OpJsr) }
    else if u == "JSRR"@ { Some(TokenKind::OpJsrr) }
    else if u == "TRAP"@ { Some(TokenKind::OpTrap) }
    else if u == "RTI"@ { Some(TokenKind::OpRti) }
    else if u == "RET"@ { Some(TokenKind::PseudoRet) }
    else if u == "GETC"@ { Some(TokenKind::PseudoGetc) }
    else if u == "OUT"@ { Some(TokenKind::PseudoOut) }
    else if u == "PUTS"@ { Some(TokenKind::PseudoPuts) }
    else if u == "IN"@ { Some(TokenKind::PseudoIn) }
    else if u == "PUTSP"@ { Some(TokenKind::PseudoPutsp) }
    else if u == "HALT"@ { Some(TokenKind::PseudoHalt) }
    else { None }
}

/// A number literal: a prefix, then at least one digit of the radix.
pub open spec fn is_literal(u: Seq<char>, prefix_len: nat, radix: nat) -> bool {
    u.len() > prefix_len && forall|i: int| prefix_len <= i < u.len() ==> is_radix_digit(#[trigger] u[i], radix)
}

/// How an upper-case word classifies: `Ok(Some(kind))` for a keyword, register,
/// branch or number; `Ok(None)` for a label; `Err(kind)` for a malformed word.
pub open spec fn word_class(u: Seq<char>) -> Result<Option<TokenKind>, ErrorKind> {
    if u.len() == 2 && u[0] == 'R' && is_dec_digit(u[1]) && digit_value(u[1]) <= 7 {
        Ok(Some(TokenKind::Register(digit_value(u[1]) as u8)))
    } else if u.len() == 2 && u[0] == 'R' && is_dec_digit(u[1]) {
        Err(ErrorKind::InvalidRegister)
    } else if keyword_kind(u) is Some {
        Ok(keyword_kind(u))
    } else if br_flags_of(u) is Some {
        Ok(Some(TokenKind::OpBr(br_flags_of(u)->0)))
    } else if u.len() > 0 && u[0] == 'X' && is_literal(u, 1, 16) {
        let v = digits_value(u.subrange(1, u.len() as int), 16);
        if v <= 0xFFFF { Ok(Some(TokenKind::NumHex(twos_complement(v) as i32))) } else { Err(ErrorKind::InvalidHexLiteral) }
    } else if u.len() > 0 && u[0] == 'B' && is_literal(u, 1, 2) {
        let v = digits_value(u.subrange(1, u.len() as int), 2);
        if v <= 0xFFFF { Ok(Some(TokenKind::NumBinary(twos_complement(v) as i32))) } else { Err(ErrorKind::InvalidBinaryLiteral) }
    } else if u.len() > 1 && u[0] == '0' && u[1] == 'O' {
        if is_literal(u, 2, 8) {
            let v = digits_value(u.subrange(2, u.len() as int), 8);
            if v <= 0xFFFF { Ok(Some(TokenKind::NumOctal(twos_complement(v) as i32))) } else { Err(ErrorKind::InvalidOctalLiteral) }
        } else {
            Err(ErrorKind::InvalidOctalLiteral)
        }
    } else {
        Ok(None)
    }
}

/// The directive that an upper-case word names after its dot.
pub open spec fn directive_kind(u: Seq<char>) -> Option<TokenKind> {
    if u == "ORIG"@ { Some(TokenKind::DirOrig) }
    else if u == "END"@ { Some(TokenKind::DirEnd) }
    else if u == "FILL"@ { Some(TokenKind::DirFill) }
    else if u == "BLKW"@ { Some(TokenKind::DirBlkw) }
    else if u == "STRINGZ"@ { Some(TokenKind::DirStringz) }
    else { None }
}

/// The character that an escape sequence `\c` stands for.
pub open spec fn escape_of(c: char) -> Option<char> {
    if c == 'n' { Some('\n') }
    else if c == 'r' { Some('\r') }
    else if c == 't' { Some('\t') }
    else if c == '\\' { Some('\\') }
    else if c == '"' { Some('"') }
    else if c == '0' { Some('\0') }
    else { None }
}

/// The cursor moved forward over the same text.
pub open spec fn moved_on(a: Cursor, b: Cursor) -> bool {
    &&& b.wf()
    &&& b.position() <= b.text().len()
    &&& b.text() == a.text()
    &&& b.position() > a.position()
}

/// Reads a 16-bit pattern as a two's-complement number.
pub fn u16_to_twos_complement(v: u32) -> (r: i32)
    requires
        v <= 0xFFFF,
    ensures
        r == twos_complement(v as nat),
{
    if v > 0x7FFF {
        (v as i32) - 0x10000
    } else {
        v as i32
    }
}

/// The character that the escape sequence `\esc` stands for, if it is one.
pub fn process_escape_char(esc: char) -> (r: Option<char>)
    ensures
        r == escape_of(esc),
{
    if esc == 'n' {
        Some('\n')
    } else if esc == 'r' {
        Some('\r')
    } else if esc == 't' {
        Some('\t')
    } else if esc == '\\' {
        Some('\\')
    } else if esc == '"' {
        Some('"')
    } else if esc == '0' {
        Some('\0')
    } else {
        None
    }
}

fn upper(c: char) -> (r: char)
    ensures
        r == upper_char(c),
{
    if 'a' <= c && c <= 'z' {
        ((c as u8) - 32) as char
    } else {
        c
    }
}

fn upper_vec(w: &Vec<char>) -> (r: Vec<char>)
    ensures
        r@ == upper_seq(w@),
{
    let mut r: Vec<char> = Vec::new();
    let mut i: usize = 0;
    while i < w.len()
        invariant
            i <= w@.len(),
            r@ == upper_seq(w@.subrange(0, i as int)),
        decreases w@.len() - i,
    {
        r.push(upper(w[i]));
        proof {
            assert(upper_seq(w@.subrange(0, i + 1)) =~= upper_seq(w@.subrange(0, i as int)).push(upper_char(w@[i as int])));
        }
        i = i + 1;
    }
    proof {
        assert(w@.subrange(0, i as int) =~= w@);
    }
    r
}

proof fn lemma_digits_value_grows(s: Seq<char>, radix: nat)
    requires
        s.len() > 0,
        radix >= 2,
    ensures
        digits_value(s, radix) >= digits_value(s.drop_last(), radix),
{
    assert(digits_value(s.drop_last(), radix) * radix >= digits_value(s.drop_last(), radix)) by (nonlinear_arith)
        requires
            radix >= 2,
    ;
}

/// The value of the digits `s[start..]` in the given radix when it is at most
/// `limit`.
fn digits_up_to(s: &Vec<char>, start: usize, radix: u32, limit: u64) -> (r: Option<u64>)
    requires
        start <= s@.len(),
        radix == 2 || radix == 8 || radix == 10 || radix == 16,
        limit <= 0x1_0000_0000,
        forall|i: int| start <= i < s@.len() ==> is_radix_digit(#[trigger] s@[i], radix as nat),
    ensures
        r == (if digits_value(s@.subrange(start as int, s@.len() as int), radix as nat) <= limit {
            Some(digits_value(s@.subrange(start as int, s@.len() as int), radix as nat) as u64)
        } else {
            None::<u64>
        }),
{
    let mut v: u64 = 0;
    let mut big = false;
    let mut i: usize = start;
    while i < s.len()
        invariant
            start <= i <= s@.len(),
            limit <= 0x1_0000_0000,
            radix == 2 || radix == 8 || radix == 10 || radix == 16,
            forall|k: int| start <= k < s@.len() ==> is_radix_digit(#[trigger] s@[k], radix as nat),
            big == (digits_value(s@.subrange(start as int, i as int), radix as nat) > limit),
            !big ==> v == digits_value(s@.subrange(start as int, i as int), radix as nat),
        decreases s@.len() - i,
    {
        let c = s[i];
        let ghost pre = s@.subrange(start as int, i as int);
        let ghost cur = s@.subrange(start as int, i + 1);
        proof {
            assert(cur.drop_last() =~= pre);
            assert(cur.last() == c);
            lemma_digits_value_grows(cur, radix as nat);
        }
        let d: u64 = if '0' <= c && c <= '9' {
            (c as u32 - '0' as u32) as u64
        } else {
            (c as u32 - 'A' as u32 + 10) as u64
        };
        if !big {
            assert(v * (radix as u64) + d <= 0x1_0000_0000 * 16 + 16) by (nonlinear_arith)
                requires
                    v <= limit,
                    limit <= 0x1_0000_0000,
                    radix <= 16,
                    d < 16,
            ;
            let nv = v * (radix as u64) + d;
            if nv > limit {
                big = true;
            } else {
                v = nv;
            }
        }
        i = i + 1;
    }
    if big {
        None
    } else {
        Some(v)
    }
}

/// Classifies an upper-case word.
fn classify_word(u: &Vec<char>) -> (r: Result<Option<TokenKind>, ErrorKind>)
    ensures
        r == word_class(u@),
{
    if u.len() == 2 && u[0] == 'R' && '0' <= u[1] && u[1] <= '9' {
        let reg = (u[1] as u32 - '0' as u32) as u8;
        if reg <= 7 {
            return Ok(Some(TokenKind::Register(reg)));
        }
        return Err(ErrorKind::InvalidRegister);
    }
    let kw = keyword(u);
    if kw.is_some() {
        return Ok(kw);
    }
    let us = string_of(u);
    match BrFlags::parse(us.as_str()) {
        Some(flags) => {
            return Ok(Some(TokenKind::OpBr(flags)));
        },
        None => {},
    }
    if u.len() > 1 && u[0] == 'X' && all_digits(u, 1, 16) {
        return match digits_up_to(u, 1, 16, 0xFFFF) {
            Some(v) => Ok(Some(TokenKind::NumHex(u16_to_twos_complement(v as u32)))),
            None => Err(ErrorKind::InvalidHexLiteral),
        };
    }
    if u.len() > 1 && u[0] == 'B' && all_digits(u, 1, 2) {
        return match digits_up_to(u, 1, 2, 0xFFFF) {
            Some(v) => Ok(Some(TokenKind::NumBinary(u16_to_twos_complement(v as u32)))),
            None => Err(ErrorKind::InvalidBinaryLiteral),
        };
    }
    if u.len() > 1 && u[0] == '0' && u[1] == 'O' {
        if u.len() > 2 && all_digits(u, 2, 8) {
            return match digits_up_to(u, 2, 8, 0xFFFF) {
                Some(v) => Ok(Some(TokenKind::NumOctal(u16_to_twos_complement(v as u32)))),
                None => Err(ErrorKind::InvalidOctalLiteral),
            };
        }
        return Err(ErrorKind::InvalidOctalLiteral);
    }
    Ok(None)
}

/// Whether every character of `u[start..]` is a digit of the radix.
fn all_digits(u: &Vec<char>, start: usize, radix: u32) -> (r: bool)
    requires
        start <= u@.len(),
    ensures
        r == (forall|i: int| start <= i < u@.len() ==> is_radix_digit(#[trigger] u@[i], radix as nat)),
{
    let mut i: usize = start;
    while i < u.len()
        invariant
            start <= i <= u@.len(),
            forall|k: int| start <= k < i ==> is_radix_digit(#[trigger] u@[k], radix as nat),
        decreases u@.len() - i,
    {
        let c = u[i];
        let ok = if radix == 16 {
            ('0' <= c && c <= '9') || ('A' <= c && c <= 'F')
        } else if radix == 8 {
            '0' <= c && c <= '7'
        } else if radix == 2 {
            c == '0' || c == '1'
        } else {
            '0' <= c && c <= '9'
        };
        if !ok {
            return false;
        }
        i = i + 1;
    }
    true
}

fn is_word(u: &Vec<char>, w: &str) -> (r: bool)
    ensures
        r == (u@ == w@),
{
    chars_eq(u, &chars_of(w))
}

/// The keyword an upper-case word spells, if any.
fn keyword(u: &Vec<char>) -> (r: Option<TokenKind>)
    ensures
        r == keyword_kind(u@),
{
    if is_word(u, "ADD") { Some(TokenKind::OpAdd) }
    else if is_word(u, "AND") { Some(TokenKind::OpAnd) }
    else if is_word(u, "NOT") { Some(TokenKind::OpNot) }
    else if is_word(u, "LD") { Some(TokenKind::OpLd) }
    else if is_word(u, "LDI") { Some(TokenKind::OpLdi) }
    else if is_word(u, "LDR") { Some(TokenKind::OpLdr) }
    else if is_word(u, "LEA") { Some(TokenKind::OpLea) }
    else if is_word(u, "ST") { Some(TokenKind::OpSt) }
    else if is_word(u, "STI") { Some(TokenKind::OpSti) }
    else if is_word(u, "STR") { Some(TokenKind::OpStr) }
    else if is_word(u, "JMP") { Some(TokenKind::OpJmp) }
    else if is_word(u, "JSR") { Some(TokenKind::OpJsr) }
    else if is_word(u, "JSRR") { Some(TokenKind::OpJsrr) }
    else if is_word(u, "TRAP") { Some(TokenKind::OpTrap) }
    else if is_word(u, "RTI") { Some(TokenKind::OpRti) }
    else if is_word(u, "RET") { Some(TokenKind::PseudoRet) }
    else if is_word(u, "GETC") { Some(TokenKind::PseudoGetc) }
    else if is_word(u, "OUT") { Some(TokenKind::PseudoOut) }
    else if is_word(u, "PUTS") { Some(TokenKind::PseudoPuts) }
    else if is_word(u, "IN") { Some(TokenKind::PseudoIn) }
    else if is_word(u, "PUTSP") { Some(TokenKind::PseudoPutsp) }
    else if is_word(u, "HALT") { Some(TokenKind::PseudoHalt) }
    else { None }
}

/// The directive an upper-case word names, if any.
fn directive(u: &Vec<char>) -> (r: Option<TokenKind>)
    ensures
        r == directive_kind(u@),
{
    if is_word(u, "ORIG") { Some(TokenKind::DirOrig) }
    else if is_word(u, "END") { Some(TokenKind::DirEnd) }
    else if is_word(u, "FILL") { Some(TokenKind::DirFill) }
    else if is_word(u, "BLKW") { Some(TokenKind::DirBlkw) }
    else if is_word(u, "STRINGZ") { Some(TokenKind::DirStringz) }
    else { None }
}


/// A token that the lexer produced: never the end marker.
pub open spec fn lexed_token(r: Result<Option<Token>, AsmError>) -> bool {
    r is Ok ==> (r->Ok_0 is Some ==> !(r->Ok_0->Some_0.kind is Eof))
}

fn is_word_char_exec(c: char) -> (r: bool)
    ensures
        r == is_word_char(c),
{
    ('a' <= c && c <= 'z') || ('A' <= c && c <= 'Z') || ('0' <= c && c <= '9') || c == '_'
}

fn token(kind: TokenKind, lexeme: &Vec<char>, span: Span) -> (r: Token)
    ensures
        r.kind == kind,
        r.lexeme@ == lexeme@,
        r.span == span,
{
    Token { kind, lexeme: string_of(lexeme), span }
}

/// The tokens among a run of lexing results, in order.
pub open spec fn tokens_of(res: Seq<Result<Option<Token>, AsmError>>) -> Seq<Token>
    decreases res.len(),
{
    if res.len() == 0 {
        Seq::empty()
    } else {
        match res.last() {
            Ok(Some(tok)) => tokens_of(res.drop_last()).push(tok),
            _ => tokens_of(res.drop_last()),
        }
    }
}

/// The diagnostics among a run of lexing results, in order.
pub open spec fn errors_of(res: Seq<Result<Option<Token>, AsmError>>) -> Seq<AsmError>
    decreases res.len(),
{
    if res.len() == 0 {
        Seq::empty()
    } else {
        match res.last() {
            Err(e) => errors_of(res.drop_last()).push(e),
            _ => errors_of(res.drop_last()),
        }
    }
}

/// A run of token reads that covers the text from `pos[0] = 0` to its end:
/// read `i` starts at `pos[i]`, stops at `pos[i + 1]` and gives `res[i]`.
pub open spec fn covers(t: Seq<char>, pos: Seq<int>, res: Seq<Result<Option<Token>, AsmError>>) -> bool {
    &&& pos.len() == res.len() + 1
    &&& pos[0] == 0
    &&& pos.last() == t.len()
    &&& forall|i: int| 0 <= i < res.len() ==> pos[i] < t.len() && #[trigger] token_lexed(t, pos[i], pos[i + 1], res[i])
}

/// Tokenizes a whole source text: reads one token after another from the
/// start to the end, then appends `Eof`. The tokens and the diagnostics are
/// those of the reads, in order.
pub fn tokenize(source: &str) -> (r: LexResult)
    ensures
        r.tokens@.len() >= 1,
        r.tokens@.last().kind is Eof,
        forall|i: int| 0 <= i < r.tokens@.len() - 1 ==> !(#[trigger] r.tokens@[i].kind is Eof),
        exists|pos: Seq<int>, res: Seq<Result<Option<Token>, AsmError>>|
            covers(source@, pos, res) && r.tokens@.drop_last() == tokens_of(res) && r.errors@ == errors_of(res),
{
    let mut cursor = Cursor::new(source);
    let mut tokens: Vec<Token> = Vec::new();
    let mut errors: Vec<AsmError> = Vec::new();
    let ghost mut pos: Seq<int> = seq![0int];
    let ghost mut res: Seq<Result<Option<Token>, AsmError>> = Seq::empty();
    proof {
        assert(tokens@ =~= tokens_of(res));
        assert(errors@ =~= errors_of(res));
    }
    while !cursor.is_at_end()
        invariant
            cursor.wf(),
            cursor.text() == source@,
            forall|i: int| 0 <= i < tokens@.len() ==> !(#[trigger] tokens@[i].kind is Eof),
            pos.len() == res.len() + 1,
            pos[0] == 0,
            pos.last() == cursor.position(),
            forall|i: int| 0 <= i < res.len() ==> #[trigger] pos[i] < source@.len(),
            forall|i: int| 0 <= i < res.len() ==> #[trigger] token_lexed(source@, pos[i], pos[i + 1], res[i]),
            tokens@ == tokens_of(res),
            errors@ == errors_of(res),
        decreases cursor.text().len() - cursor.position(),
    {
        proof {
            cursor.lemma_in_bounds();
        }
        let ghost p0 = cursor.position() as int;
        let r = lex_token(&mut cursor);
        proof {
            let ghost old_res = res;
            let ghost old_pos = pos;
            res = res.push(r);
            pos = pos.push(cursor.position() as int);
            assert(res.drop_last() =~= old_res);
            assert forall|i: int| 0 <= i < res.len() implies #[trigger] token_lexed(source@, pos[i], pos[i + 1], res[i]) && pos[i] < source@.len() by {
                if i < old_res.len() {
                    assert(pos[i] == old_pos[i] && pos[i + 1] == old_pos[i + 1] && res[i] == old_res[i]);
                    assert(token_lexed(source@, old_pos[i], old_pos[i + 1], old_res[i]));
                } else {
                    assert(i == old_res.len());
                    assert(old_pos.last() == p0);
                    assert(pos[i] == p0);
                    assert(pos[i + 1] == cursor.position() as int);
                    assert(res[i] == r);
                }
            }
        }
        match r {
            Ok(Some(t)) => tokens.push(t),
            Ok(None) => {},
            Err(err) => errors.push(err),
        }
    }
    proof {
        cursor.lemma_in_bounds();
        assert(pos.last() == source@.len());
    }
    let (l, c) = cursor.current_pos();
    tokens.push(Token { kind: TokenKind::Eof, lexeme: string_of(&Vec::new()), span: Span { line: l, col: c } });
    proof {
        assert(tokens@.drop_last() =~= tokens_of(res));
        assert(covers(source@, pos, res));
    }
    LexResult { tokens, errors }
}

/// The index of the first character at or after `i` that is not a space or a tab.
pub open spec fn skip_blanks(t: Seq<char>, i: int) -> int
    decreases t.len() - i,
{
    if 0 <= i < t.len() && (t[i] == ' ' || t[i] == '\t') {
        skip_blanks(t, i + 1)
    } else {
        i
    }
}

/// Whether a word starts at `b`: a letter, an underscore, or the `0o` of an octal literal.
pub open spec fn starts_word(t: Seq<char>, b: int) -> bool {
    is_alpha(t[b]) || t[b] == '_' || (t[b] == '0' && b + 1 < t.len() && (t[b + 1] == 'o' || t[b + 1] == 'O'))
}

/// One token read at `p`: blanks are skipped, and the first other character
/// decides what is read.
pub open spec fn token_lexed(t: Seq<char>, p: int, q: int, r: Result<Option<Token>, AsmError>) -> bool {
    let b = skip_blanks(t, p);
    if b >= t.len() {
        q == b && (r matches Ok(None))
    } else if t[b] == '\n' || t[b] == '\r' {
        newline_lexed(t, b, q, r)
    } else if t[b] == ';' {
        comment_lexed(t, b, q, r)
    } else if t[b] == ',' {
        q == b + 1 && (r matches Ok(Some(tok)) && tok.kind is Comma)
    } else if t[b] == '"' {
        string_lexed(t, b, q, r)
    } else if t[b] == '#' {
        decimal_lexed(t, b, q, r)
    } else if t[b] == '.' {
        directive_lexed(t, b, q, r)
    } else if starts_word(t, b) {
        word_lexed(t, b, q, r)
    } else {
        q == b + 1 && (r matches Err(e) && e.kind == ErrorKind::UnexpectedCharacter)
    }
}

/// Reads the next token after any spaces and tabs. `Ok(None)` when only
/// blanks were left.
fn lex_token(cursor: &mut Cursor) -> (r: Result<Option<Token>, AsmError>)
    requires
        old(cursor).wf(),
        old(cursor).position() < old(cursor).text().len(),
    ensures
        moved_on(*old(cursor), *final(cursor)),
        lexed_token(r),
        token_lexed(old(cursor).text(), old(cursor).position() as int, final(cursor).position() as int, r),
{
    let ghost start = cursor.position();
    let ghost t = cursor.text();
    while cursor.peek() == Some(' ') || cursor.peek() == Some('\t')
        invariant
            cursor.wf(),
            cursor.text() == t,
            t == old(cursor).text(),
            cursor.position() >= start,
            cursor.position() == start || cursor.position() > start,
            cursor.position() == start ==> *cursor == *old(cursor),
            skip_blanks(t, start as int) == skip_blanks(t, cursor.position() as int),
        decreases cursor.text().len() - cursor.position(),
    {
        cursor.advance();
    }
    proof {
        cursor.lemma_in_bounds();
    }
    if cursor.is_at_end() {
        return Ok(None);
    }
    let (sl, sc) = cursor.current_pos();
    let ch = match cursor.peek() {
        Some(c) => c,
        None => ' ',
    };
    if ch == '\n' || ch == '\r' {
        lex_newline(cursor, sl, sc)
    } else if ch == ';' {
        lex_comment(cursor, sl, sc)
    } else if ch == ',' {
        cursor.advance();
        Ok(Some(token(TokenKind::Comma, &chars_of(","), cursor.make_span(sl, sc))))
    } else if ch == '"' {
        lex_string(cursor, sl, sc)
    } else if ch == '#' {
        lex_decimal(cursor, sl, sc)
    } else if ch == '.' {
        lex_directive(cursor, sl, sc)
    } else if ('a' <= ch && ch <= 'z') || ('A' <= ch && ch <= 'Z') || ch == '_' || (ch == '0' && (
    cursor.peek_next() == Some('o') || cursor.peek_next() == Some('O'))) {
        lex_word(cursor, sl, sc)
    } else {
        cursor.advance();
        let mut m = chars_of("Unexpected character: '");
        m.push(ch);
        push_str(&mut m, "'");
        Err(AsmError::from_chars(ErrorKind::UnexpectedCharacter, &m, cursor.make_span(sl, sc)))
    }
}

/// A line break read at `p`: `\r\n` together, or one character.
pub open spec fn newline_lexed(t: Seq<char>, p: int, q: int, r: Result<Option<Token>, AsmError>) -> bool {
    &&& q == (if t[p] == '\r' && p + 1 < t.len() && t[p + 1] == '\n' { p + 2 } else { p + 1 })
    &&& r matches Ok(Some(tok)) && tok.kind is Newline
}

/// A line break: `\n`, `\r`, or `\r\n` together.
fn lex_newline(cursor: &mut Cursor, sl: usize, sc: usize) -> (r: Result<Option<Token>, AsmError>)
    requires
        old(cursor).wf(),
        old(cursor).position() < old(cursor).text().len(),
    ensures
        moved_on(*old(cursor), *final(cursor)),
        newline_lexed(old(cursor).text(), old(cursor).position() as int, final(cursor).position() as int, r),
{
    if cursor.peek() == Some('\r') {
        cursor.advance();
        if cursor.peek() == Some('\n') {
            cursor.advance();
        }
    } else {
        cursor.advance();
    }
    Ok(Some(token(TokenKind::Newline, &chars_of("\n"), cursor.make_span(sl, sc))))
}

/// A comment read at `p`: the text after `;` up to the end of the line.
pub open spec fn comment_lexed(t: Seq<char>, p: int, q: int, r: Result<Option<Token>, AsmError>) -> bool {
    &&& p + 1 <= q
    &&& forall|i: int| p + 1 <= i < q ==> #[trigger] t[i] != '\n' && t[i] != '\r'
    &&& q == t.len() || t[q] == '\n' || t[q] == '\r'
    &&& r matches Ok(Some(tok)) && tok.kind matches TokenKind::Comment(s) && s@ == t.subrange(p + 1, q)
}

/// A comment: from `;` up to the end of the line.
fn lex_comment(cursor: &mut Cursor, sl: usize, sc: usize) -> (r: Result<Option<Token>, AsmError>)
    requires
        old(cursor).wf(),
        old(cursor).position() < old(cursor).text().len(),
    ensures
        moved_on(*old(cursor), *final(cursor)),
        comment_lexed(old(cursor).text(), old(cursor).position() as int, final(cursor).position() as int, r),
{
    cursor.advance();
    let ghost start = cursor.position();
    let mut text: Vec<char> = Vec::new();
    loop
        invariant
            cursor.wf(),
            cursor.text() == old(cursor).text(),
            start <= cursor.position(),
            text@ == cursor.text().subrange(start as int, cursor.position() as int),
            forall|i: int| start <= i < cursor.position() ==> #[trigger] cursor.text()[i] != '\n' && cursor.text()[i] != '\r',
        ensures
            cursor.wf(),
            cursor.text() == old(cursor).text(),
            start <= cursor.position(),
            text@ == cursor.text().subrange(start as int, cursor.position() as int),
            forall|i: int| start <= i < cursor.position() ==> #[trigger] cursor.text()[i] != '\n' && cursor.text()[i] != '\r',
            cursor.position() == cursor.text().len() || cursor.text()[cursor.position() as int] == '\n'
                || cursor.text()[cursor.position() as int] == '\r',
        decreases cursor.text().len() - cursor.position(),
    {
        match cursor.peek() {
            Some(ch) => {
                if ch == '\n' || ch == '\r' {
                    break;
                }
                proof {
                    cursor.lemma_in_bounds();
                }
                cursor.advance();
                text.push(ch);
                proof {
                    assert(text@ =~= cursor.text().subrange(start as int, cursor.position() as int));
                }
            },
            None => {
                proof {
                    cursor.lemma_in_bounds();
                }
                break;
            },
        }
    }
    proof {
        cursor.lemma_in_bounds();
    }
    let mut lexeme = chars_of(";");
    push_chars(&mut lexeme, &text);
    Ok(Some(token(TokenKind::Comment(string_of(&text)), &lexeme, cursor.make_span(sl, sc))))
}

/// Reading the body of a string literal from index `i`, just after its
/// opening quote: the decoded characters and the index after the closing
/// quote, or why the literal is malformed.
pub open spec fn scan_string(t: Seq<char>, i: int) -> Result<(Seq<char>, int), ErrorKind>
    decreases t.len() - i,
{
    if i < 0 || i >= t.len() || t[i] == '\n' || t[i] == '\r' {
        Err(ErrorKind::UnterminatedString)
    } else if t[i] == '"' {
        Ok((Seq::empty(), i + 1))
    } else if t[i] == '\\' {
        if i + 1 >= t.len() {
            Err(ErrorKind::UnterminatedString)
        } else {
            match escape_of(t[i + 1]) {
                Some(c) => prefixed(seq![c], scan_string(t, i + 2)),
                None => Err(ErrorKind::InvalidEscapeSequence),
            }
        }
    } else {
        prefixed(seq![t[i]], scan_string(t, i + 1))
    }
}

/// A scan result with `pre` put in front of its decoded characters.
pub open spec fn prefixed(pre: Seq<char>, r: Result<(Seq<char>, int), ErrorKind>) -> Result<(Seq<char>, int), ErrorKind> {
    match r {
        Ok((s, e)) => Ok((pre + s, e)),
        Err(k) => Err(k),
    }
}

proof fn lemma_prefixed_twice(a: Seq<char>, b: Seq<char>, r: Result<(Seq<char>, int), ErrorKind>)
    ensures
        prefixed(a, prefixed(b, r)) == prefixed(a + b, r),
{
    match r {
        Ok((s, e)) => {
            assert(a + (b + s) =~= (a + b) + s);
        },
        Err(_) => {},
    }
}

/// A string literal read at `p`, as `scan_string` decodes it.
pub open spec fn string_lexed(t: Seq<char>, p: int, q: int, r: Result<Option<Token>, AsmError>) -> bool {
    match r {
        Ok(Some(tok)) => tok.kind matches TokenKind::StringLiteral(s) && scan_string(t, p + 1) == Ok::<
            (Seq<char>, int),
            ErrorKind,
        >((s@, q)),
        Ok(None) => false,
        Err(e) => scan_string(t, p + 1) == Err::<(Seq<char>, int), ErrorKind>(e.kind),
    }
}

/// A string literal in double quotes, with escapes decoded.
fn lex_string(cursor: &mut Cursor, sl: usize, sc: usize) -> (r: Result<Option<Token>, AsmError>)
    requires
        old(cursor).wf(),
        old(cursor).position() < old(cursor).text().len(),
    ensures
        moved_on(*old(cursor), *final(cursor)),
        string_lexed(old(cursor).text(), old(cursor).position() as int, final(cursor).position() as int, r),
{
    cursor.advance();
    let ghost t = cursor.text();
    let ghost start = cursor.position() as int;
    let mut processed: Vec<char> = Vec::new();
    let mut raw: Vec<char> = chars_of("\"");
    proof {
        assert(processed@ + Seq::<char>::empty() =~= Seq::<char>::empty());
        match scan_string(t, start) {
            Ok((s0, e0)) => {
                assert(processed@ + s0 =~= s0);
            },
            Err(_) => {},
        }
    }
    loop
        invariant
            cursor.wf(),
            cursor.text() == t,
            t == old(cursor).text(),
            start == old(cursor).position() + 1int,
            start <= cursor.position(),
            scan_string(t, start) == prefixed(processed@, scan_string(t, cursor.position() as int)),
        decreases cursor.text().len() - cursor.position(),
    {
        proof {
            cursor.lemma_in_bounds();
        }
        let ghost pos = cursor.position() as int;
        let ch = match cursor.peek() {
            Some(c) => c,
            None => {
                return Err(AsmError::new(ErrorKind::UnterminatedString, "Unterminated string literal", cursor.make_span(sl, sc)));
            },
        };
        if ch == '\n' || ch == '\r' {
            return Err(AsmError::new(ErrorKind::UnterminatedString, "Unterminated string literal", cursor.make_span(sl, sc)));
        }
        if ch == '"' {
            cursor.advance();
            raw.push('"');
            proof {
                assert(processed@ + Seq::<char>::empty() =~= processed@);
            }
            return Ok(Some(token(TokenKind::StringLiteral(string_of(&processed)), &raw, cursor.make_span(sl, sc))));
        }
        if ch == '\\' {
            cursor.advance();
            raw.push('\\');
            let esc = match cursor.peek() {
                Some(c) => c,
                None => {
                    proof {
                        cursor.lemma_in_bounds();
                    }
                    return Err(AsmError::new(ErrorKind::UnterminatedString, "Unterminated string literal", cursor.make_span(sl, sc)));
                },
            };
            match process_escape_char(esc) {
                Some(c) => {
                    let ghost pre = processed@;
                    proof {
                        lemma_prefixed_twice(processed@, seq![c], scan_string(t, pos + 2));
                        assert(t[pos] == '\\');
                        assert(t[pos + 1] == esc);
                        assert(scan_string(t, pos) == prefixed(seq![c], scan_string(t, pos + 2)));
                    }
                    processed.push(c);
                    cursor.advance();
                    raw.push(esc);
                    proof {
                        assert(processed@ =~= pre + seq![c]);
                    }
                },
                None => {
                    let mut m = chars_of("Invalid escape sequence: \\");
                    m.push(esc);
                    return Err(AsmError::from_chars(ErrorKind::InvalidEscapeSequence, &m, cursor.make_span(sl, sc)));
                },
            }
        } else {
            let ghost pre = processed@;
            proof {
                lemma_prefixed_twice(processed@, seq![ch], scan_string(t, pos + 1));
                assert(scan_string(t, pos) == prefixed(seq![ch], scan_string(t, pos + 1)));
            }
            cursor.advance();
            processed.push(ch);
            raw.push(ch);
            proof {
                assert(processed@ =~= pre + seq![ch]);
            }
        }
    }
}

/// Whether a decimal literal with these digits, negated or not, fits in 32 bits.
pub open spec fn decimal_fits(d: Seq<char>, negative: bool) -> bool {
    if negative {
        digits_value(d, 10) <= 0x8000_0000
    } else {
        digits_value(d, 10) <= 0x7FFF_FFFF
    }
}

/// The value of a decimal literal.
pub open spec fn decimal_value(d: Seq<char>, negative: bool) -> i32 {
    (if negative {
        -(digits_value(d, 10) as int)
    } else {
        digits_value(d, 10) as int
    }) as i32
}

/// A decimal literal read at `p`: `#`, an optional sign, then a maximal run of digits.
pub open spec fn decimal_lexed(t: Seq<char>, p: int, q: int, r: Result<Option<Token>, AsmError>) -> bool {
    let signed = p + 1 < t.len() && (t[p + 1] == '-' || t[p + 1] == '+');
    let ds = if signed { p + 2 } else { p + 1 };
    let d = t.subrange(ds, q);
    let negative = signed && t[p + 1] == '-';
    &&& ds <= q
    &&& forall|i: int| 0 <= i < d.len() ==> is_dec_digit(#[trigger] d[i])
    &&& q == t.len() || !is_dec_digit(t[q])
    &&& match r {
        Ok(Some(tok)) => d.len() > 0 && decimal_fits(d, negative) && tok.kind == TokenKind::NumDecimal(
            decimal_value(d, negative),
        ),
        Ok(None) => false,
        Err(e) => e.kind == ErrorKind::InvalidDecimalLiteral && !(d.len() > 0 && decimal_fits(d, negative)),
    }
}

/// A decimal literal: `#`, an optional sign, digits; the value must fit in 32 bits.
fn lex_decimal(cursor: &mut Cursor, sl: usize, sc: usize) -> (r: Result<Option<Token>, AsmError>)
    requires
        old(cursor).wf(),
        old(cursor).position() < old(cursor).text().len(),
    ensures
        moved_on(*old(cursor), *final(cursor)),
        decimal_lexed(old(cursor).text(), old(cursor).position() as int, final(cursor).position() as int, r),
{
    cursor.advance();
    let mut raw = chars_of("#");
    let mut negative = false;
    let sign = cursor.peek();
    if sign == Some('-') || sign == Some('+') {
        cursor.advance();
        negative = sign == Some('-');
        raw.push(if negative { '-' } else { '+' });
    }
    let ghost start = cursor.position();
    let mut digits: Vec<char> = Vec::new();
    loop
        invariant
            cursor.wf(),
            cursor.text() == old(cursor).text(),
            start <= cursor.position(),
            digits@ == cursor.text().subrange(start as int, cursor.position() as int),
            forall|i: int| 0 <= i < digits@.len() ==> is_radix_digit(#[trigger] digits@[i], 10),
        ensures
            cursor.wf(),
            cursor.text() == old(cursor).text(),
            start <= cursor.position(),
            digits@ == cursor.text().subrange(start as int, cursor.position() as int),
            forall|i: int| 0 <= i < digits@.len() ==> is_radix_digit(#[trigger] digits@[i], 10),
            cursor.position() == cursor.text().len() || !is_dec_digit(cursor.text()[cursor.position() as int]),
        decreases cursor.text().len() - cursor.position(),
    {
        match cursor.peek() {
            Some(c) => {
                if !('0' <= c && c <= '9') {
                    break;
                }
                proof {
                    cursor.lemma_in_bounds();
                }
                cursor.advance();
                digits.push(c);
                raw.push(c);
                proof {
                    assert(digits@ =~= cursor.text().subrange(start as int, cursor.position() as int));
                }
            },
            None => {
                proof {
                    cursor.lemma_in_bounds();
                }
                break;
            },
        }
    }
    proof {
        cursor.lemma_in_bounds();
        assert(digits@ =~= cursor.text().subrange(start as int, cursor.position() as int).subrange(0, digits@.len() as int));
    }
    if digits.len() == 0 {
        return Err(AsmError::new(ErrorKind::InvalidDecimalLiteral, "Expected digits after #", cursor.make_span(sl, sc)));
    }
    let limit: u64 = if negative { 0x8000_0000 } else { 0x7FFF_FFFF };
    match digits_up_to(&digits, 0, 10, limit) {
        Some(v) => {
            proof {
                assert(digits@.subrange(0, digits@.len() as int) =~= digits@);
            }
            let value: i32 = if negative { (0 - (v as i64)) as i32 } else { v as i32 };
            Ok(Some(token(TokenKind::NumDecimal(value), &raw, cursor.make_span(sl, sc))))
        },
        None => {
            proof {
                assert(digits@.subrange(0, digits@.len() as int) =~= digits@);
            }
            let mut m = chars_of("Invalid decimal literal: ");
            push_chars(&mut m, &raw);
            Err(AsmError::from_chars(ErrorKind::InvalidDecimalLiteral, &m, cursor.make_span(sl, sc)))
        },
    }
}

/// A directive read at `p`: `.` and a maximal run of letters.
pub open spec fn directive_lexed(t: Seq<char>, p: int, q: int, r: Result<Option<Token>, AsmError>) -> bool {
    let w = t.subrange(p + 1, q);
    &&& p + 1 <= q
    &&& forall|i: int| 0 <= i < w.len() ==> is_alpha(#[trigger] w[i])
    &&& q == t.len() || !is_alpha(t[q])
    &&& match r {
        Ok(Some(tok)) => directive_kind(upper_seq(w)) == Some(tok.kind) && tok.lexeme@ == seq!['.'] + w,
        Ok(None) => false,
        Err(e) => directive_kind(upper_seq(w)) is None && e.kind == ErrorKind::UnknownDirective,
    }
}

/// A directive: `.` followed by letters, in any case.
fn lex_directive(cursor: &mut Cursor, sl: usize, sc: usize) -> (r: Result<Option<Token>, AsmError>)
    requires
        old(cursor).wf(),
        old(cursor).position() < old(cursor).text().len(),
    ensures
        moved_on(*old(cursor), *final(cursor)),
        directive_lexed(old(cursor).text(), old(cursor).position() as int, final(cursor).position() as int, r),
{
    cursor.advance();
    let ghost start = cursor.position();
    let mut raw = chars_of(".");
    let mut word: Vec<char> = Vec::new();
    proof {
        reveal_strlit(".");
        assert(raw@ =~= seq!['.'] + word@);
        assert(word@ =~= cursor.text().subrange(start as int, cursor.position() as int));
    }
    loop
        invariant
            cursor.wf(),
            cursor.text() == old(cursor).text(),
            start as int <= cursor.position(),
            word@ == cursor.text().subrange(start as int, cursor.position() as int),
            raw@ == seq!['.'] + word@,
            forall|i: int| 0 <= i < word@.len() ==> is_alpha(#[trigger] word@[i]),
        ensures
            cursor.wf(),
            cursor.text() == old(cursor).text(),
            start as int <= cursor.position(),
            word@ == cursor.text().subrange(start as int, cursor.position() as int),
            raw@ == seq!['.'] + word@,
            forall|i: int| 0 <= i < word@.len() ==> is_alpha(#[trigger] word@[i]),
            cursor.position() == cursor.text().len() || !is_alpha(cursor.text()[cursor.position() as int]),
        decreases cursor.text().len() - cursor.position(),
    {
        match cursor.peek() {
            Some(c) => {
                if !(('a' <= c && c <= 'z') || ('A' <= c && c <= 'Z')) {
                    break;
                }
                let ghost q = cursor.position() as int;
                let ghost before = word@;
                proof {
                    cursor.lemma_in_bounds();
                }
                cursor.advance();
                word.push(c);
                raw.push(c);
                proof {
                    assert(cursor.text()[q] == c);
                    assert(cursor.position() == q + 1);
                    assert(word@ =~= cursor.text().subrange(start as int, cursor.position() as int));
                    assert(raw@ =~= seq!['.'] + word@);
                }
            },
            None => {
                proof {
                    cursor.lemma_in_bounds();
                }
                break;
            },
        }
    }
    proof {
        cursor.lemma_in_bounds();
    }
    let u = upper_vec(&word);
    match directive(&u) {
        Some(kind) => Ok(Some(token(kind, &raw, cursor.make_span(sl, sc)))),
        None => {
            let mut m = chars_of("Unknown directive .");
            push_chars(&mut m, &u);
            Err(AsmError::from_chars(ErrorKind::UnknownDirective, &m, cursor.make_span(sl, sc)))
        },
    }
}

/// A word read at `p`: a maximal run of word characters, classified in upper case.
pub open spec fn word_lexed(t: Seq<char>, p: int, q: int, r: Result<Option<Token>, AsmError>) -> bool {
    let w = t.subrange(p, q);
    let u = upper_seq(w);
    &&& p < q
    &&& forall|i: int| 0 <= i < w.len() ==> is_word_char(#[trigger] w[i])
    &&& q == t.len() || !is_word_char(t[q])
    &&& match r {
        Ok(Some(tok)) => tok.lexeme@ == w && match word_class(u) {
            Ok(Some(k)) => tok.kind == k,
            Ok(None) => match tok.kind {
                TokenKind::Label(s) => s@ == u,
                _ => false,
            },
            Err(_) => false,
        },
        Ok(None) => false,
        Err(e) => word_class(u) == Err::<Option<TokenKind>, ErrorKind>(e.kind),
    }
}

/// A word: letters, digits and underscores. It is read case-insensitively as
/// a register, a keyword, a branch, a number, or else a label in upper case.
fn lex_word(cursor: &mut Cursor, sl: usize, sc: usize) -> (r: Result<Option<Token>, AsmError>)
    requires
        old(cursor).wf(),
        old(cursor).position() < old(cursor).text().len(),
        is_word_char(old(cursor).text()[old(cursor).position() as int]),
    ensures
        moved_on(*old(cursor), *final(cursor)),
        word_lexed(old(cursor).text(), old(cursor).position() as int, final(cursor).position() as int, r),
{
    let ghost start = cursor.position();
    let mut word: Vec<char> = Vec::new();
    loop
        invariant
            cursor.wf(),
            cursor.text() == old(cursor).text(),
            start == old(cursor).position(),
            start <= cursor.position(),
            word@ == cursor.text().subrange(start as int, cursor.position() as int),
            forall|i: int| 0 <= i < word@.len() ==> is_word_char(#[trigger] word@[i]),
        ensures
            cursor.wf(),
            cursor.text() == old(cursor).text(),
            start <= cursor.position(),
            word@ == cursor.text().subrange(start as int, cursor.position() as int),
            forall|i: int| 0 <= i < word@.len() ==> is_word_char(#[trigger] word@[i]),
            cursor.position() == cursor.text().len() || !is_word_char(cursor.text()[cursor.position() as int]),
        decreases cursor.text().len() - cursor.position(),
    {
        match cursor.peek() {
            Some(c) => {
                if !is_word_char_exec(c) {
                    break;
                }
                let ghost p = cursor.position();
                cursor.advance();
                word.push(c);
                proof {
                    assert(word@ =~= cursor.text().subrange(start as int, cursor.position() as int));
                }
            },
            None => {
                proof {
                    cursor.lemma_in_bounds();
                }
                break;
            },
        }
    }
    assert(word@.len() > 0 ==> cursor.position() > start);
    assert(cursor.position() > start) by {
        if cursor.position() == start {
            assert(is_word_char(cursor.text()[start as int]));
        }
    }
    proof {
        cursor.lemma_in_bounds();
    }
    let u = upper_vec(&word);
    let span = cursor.make_span(sl, sc);
    match classify_word(&u) {
        Ok(Some(kind)) => Ok(Some(token(kind, &word, span))),
        Ok(None) => Ok(Some(token(TokenKind::Label(string_of(&u)), &word, span))),
        Err(kind) => {
            let mut m: Vec<char> = Vec::new();
            if kind == ErrorKind::InvalidRegister {
                push_str(&mut m, "Invalid register R");
                if u.len() == 2 {
                    m.push(u[1]);
                }
                push_str(&mut m, " (must be R0-R7)");
            } else if kind == ErrorKind::InvalidOctalLiteral {
                push_str(&mut m, "Invalid octal literal: ");
                push_chars(&mut m, &word);
            } else {
                if kind == ErrorKind::InvalidHexLiteral {
                    push_str(&mut m, "Hex literal ");
                } else {
                    push_str(&mut m, "Binary literal ");
                }
                push_chars(&mut m, &word);
                push_str(&mut m, " exceeds 16 bits");
            }
            Err(AsmError::from_chars(kind, &m, span))
        },
    }
}

fn push_chars(out: &mut Vec<char>, s: &Vec<char>)
    ensures
        final(out)@ == old(out)@ + s@,
{
    let mut i: usize = 0;
    while i < s.len()
        invariant
            i <= s@.len(),
            out@ == old(out)@ + s@.subrange(0, i as int),
        decreases s@.len() - i,
    {
        out.push(s[i]);
        proof {
            assert(old(out)@ + s@.subrange(0, i + 1) =~= (old(out)@ + s@.subrange(0, i as int)).push(s@[i as int]));
        }
        i = i + 1;
    }
    assert(s@.subrange(0, i as int) =~= s@);
}

} // verus!
