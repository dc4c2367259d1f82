use lc3_assembler::encoder::{encode, EncodeResult};
use lc3_assembler::error::{AsmError, ErrorKind, Span};
use lc3_assembler::first_pass::symbol_table::SymbolTable;
use lc3_assembler::first_pass::{first_pass, FirstPassResult};
use lc3_assembler::lexer::cursor::Cursor;
use lc3_assembler::lexer::token::{BrFlags, TokenKind};
use lc3_assembler::lexer::tokenize;
use lc3_assembler::parser::ast::LineContent;
use lc3_assembler::parser::parse_lines;

fn assemble(source: &str) -> (FirstPassResult, EncodeResult, Vec<ErrorKind>) {
    let lexed = tokenize(source);
    let parsed = parse_lines(&lexed.tokens);
    let mut kinds: Vec<ErrorKind> = lexed.errors.iter().map(|e| e.kind).collect();
    kinds.extend(parsed.errors.iter().map(|e| e.kind));
    let first = first_pass(parsed.lines);
    kinds.extend(first.errors.iter().map(|e| e.kind));
    let encoded = encode(&first);
    kinds.extend(encoded.errors.iter().map(|e| e.kind));
    (first, encoded, kinds)
}

fn kinds_of(source: &str) -> Vec<ErrorKind> {
    assemble(source).2
}

#[test]
fn scenario_ld_with_forward_label() {
    let (first, encoded, kinds) =
        assemble(".ORIG x3000\nLD R3, TARGET\nHALT\nHALT\nHALT\nHALT\nTARGET .FILL #7\n.END\n");
    assert!(kinds.is_empty(), "{:?}", kinds);
    assert_eq!(first.symbol_table.get("TARGET"), Some(0x3005));
    assert_eq!(encoded.machine_code[0], 0x2604);
}

#[test]
fn scenario_stringz_hi_at_other_origin() {
    let (_, encoded, kinds) = assemble(".ORIG x4000\n.STRINGZ \"Hi\"\n.END\n");
    assert!(kinds.is_empty());
    assert_eq!(encoded.orig_address, 0x4000);
    assert_eq!(encoded.machine_code, vec![0x0048, 0x0069, 0x0000]);
}

#[test]
fn scenario_missing_origin_uses_default() {
    let (first, encoded, kinds) = assemble("ADD R1, R1, #1\nLOOP ADD R1, R1, #-1\nBRp LOOP\n.END\n");
    assert_eq!(kinds.iter().filter(|k| **k == ErrorKind::MissingOrig).count(), 1);
    assert_eq!(kinds.len(), 1);
    assert_eq!(first.orig_address, 0x3000);
    assert_eq!(first.symbol_table.get("LOOP"), Some(0x3001));
    assert_eq!(encoded.machine_code.len(), 3);
    // BRp at 0x3002, PC 0x3003, LOOP 0x3001: offset -2.
    assert_eq!(encoded.machine_code[2], 0x03FE);
}

#[test]
fn scenario_duplicate_label_keeps_first() {
    let (first, _, _) = assemble(".ORIG x3000\nFOO ADD R0, R0, #1\nFOO ADD R1, R1, #2\n.END\n");
    assert_eq!(first.symbol_table.get("FOO"), Some(0x3000));
    let dups: Vec<&AsmError> = first.errors.iter().filter(|e| e.kind == ErrorKind::DuplicateLabel).collect();
    assert_eq!(dups.len(), 1);
    assert_eq!(dups[0].message, "Duplicate label 'FOO' (first defined at x3000)");
    assert_eq!(dups[0].span.line, 3);
}

#[test]
fn label_address_is_origin_plus_preceding_words() {
    let (first, _, kinds) = assemble(
        ".ORIG x3000\nA .BLKW #3\nB .STRINGZ \"abc\"\nC .FILL #1\nD ADD R0, R0, R0\n.END\n",
    );
    assert!(kinds.is_empty());
    assert_eq!(first.symbol_table.get("A"), Some(0x3000));
    assert_eq!(first.symbol_table.get("B"), Some(0x3003));
    assert_eq!(first.symbol_table.get("C"), Some(0x3007));
    assert_eq!(first.symbol_table.get("D"), Some(0x3008));
}

#[test]
fn counter_at_terminator_is_origin_plus_words() {
    let (first, encoded, kinds) = assemble(".ORIG x3000\n.BLKW #4\n.STRINGZ \"ab\"\nDONE .END\n");
    assert!(kinds.is_empty());
    assert_eq!(first.symbol_table.get("DONE"), Some(0x3007));
    assert_eq!(encoded.machine_code.len(), 7);
}

#[test]
fn overflow_clamps_counter() {
    let (first, _, kinds) = assemble(".ORIG xFFF0\n.BLKW #100\nAFTER HALT\n.END\n");
    assert_eq!(kinds.iter().filter(|k| **k == ErrorKind::AddressOverflow).count(), 1);
    assert_eq!(first.symbol_table.get("AFTER"), Some(0xFFFF));
    let e = first.errors.iter().find(|e| e.kind == ErrorKind::AddressOverflow).unwrap();
    assert_eq!(e.message, "Address overflow: location counter would exceed 0xFFFF (at xFFF0 + 100 words)");
}

#[test]
fn program_filling_to_top_of_memory_is_not_overflow() {
    let kinds = kinds_of(".ORIG xFFFE\n.FILL #1\n.FILL #2\n.END\n");
    assert!(kinds.is_empty(), "{:?}", kinds);
}

#[test]
fn assembling_twice_is_identical() {
    let src = ".ORIG x3000\nLD R0, NOPE\nX .STRINGZ \"h\u{e9}\"\nBR X\n.END\n";
    let (f1, e1, k1) = assemble(src);
    let (f2, e2, k2) = assemble(src);
    assert_eq!(e1.machine_code, e2.machine_code);
    assert_eq!(e1.errors, e2.errors);
    assert_eq!(f1.errors, f2.errors);
    assert_eq!(k1, k2);
}

#[test]
fn offset_over_block_equals_block_size() {
    let (_, encoded, kinds) = assemble(".ORIG x3000\nLD R0, L\n.BLKW #5\nL HALT\n.END\n");
    assert!(kinds.is_empty());
    assert_eq!(encoded.machine_code[0], 0x2005);
    assert_eq!(encoded.machine_code.len(), 7);
}

#[test]
fn label_six_words_ahead_gives_offset_five() {
    let (_, encoded, kinds) = assemble(".ORIG x3000\nLD R0, L\n.BLKW #4\n.FILL #0\nL HALT\n.END\n");
    assert!(kinds.is_empty());
    assert_eq!(encoded.machine_code[0] & 0x1FF, 5);
}

#[test]
fn boundary_offsets_through_pipeline() {
    let ok = kinds_of(".ORIG x3000\nLD R0, FAR\n.BLKW #255\nFAR HALT\n.END\n");
    assert!(ok.is_empty(), "{:?}", ok);
    let bad = kinds_of(".ORIG x3000\nLD R0, FAR\n.BLKW #256\nFAR HALT\n.END\n");
    assert_eq!(bad, vec![ErrorKind::OffsetOutOfRange]);
}

#[test]
fn range_diagnostic_text() {
    let (_, encoded, _) = assemble(".ORIG x3000\nLD R0, FAR\n.BLKW #256\nFAR HALT\n.END\n");
    assert_eq!(
        encoded.errors[0].message,
        "PC offset 256 to label 'FAR' exceeds 9-bit range [-256, 255]"
    );
    assert_eq!(encoded.machine_code[0], 0x2000);
}

#[test]
fn encoder_stops_at_end() {
    let (_, encoded, _) = assemble(".ORIG x3000\nHALT\n.END\nHALT\n.FILL #5\n");
    assert_eq!(encoded.machine_code, vec![0xF025]);
}

#[test]
fn multiple_orig_diagnosed() {
    let kinds = kinds_of(".ORIG x3000\n.ORIG x4000\n.END\n");
    assert_eq!(kinds, vec![ErrorKind::MultipleOrig]);
}

#[test]
fn no_origin_and_no_end() {
    let kinds = kinds_of("; nothing here\n\n");
    assert_eq!(kinds, vec![ErrorKind::MissingOrig, ErrorKind::MissingEnd]);
}

#[test]
fn reserved_label_still_bound() {
    let (first, _, kinds) = assemble(".ORIG x3000\nHALT\nEND .FILL #0\n.END\n");
    assert_eq!(kinds, vec![ErrorKind::LabelIsReservedWord]);
    assert_eq!(first.symbol_table.get("END"), Some(0x3001));
}

#[test]
fn lexer_error_kinds() {
    assert_eq!(kinds_of("#99999999999"), vec![ErrorKind::InvalidDecimalLiteral, ErrorKind::MissingOrig, ErrorKind::MissingEnd]);
    assert_eq!(tokenize("R9").errors[0].kind, ErrorKind::InvalidRegister);
    assert_eq!(tokenize("0o8").errors[0].kind, ErrorKind::InvalidOctalLiteral);
    assert_eq!(tokenize(".WORD").errors[0].message, "Unknown directive .WORD");
    assert_eq!(tokenize("x12345").errors[0].message, "Hex literal x12345 exceeds 16 bits");
    assert_eq!(tokenize("$").errors[0].message, "Unexpected character: '$'");
}

#[test]
fn decimal_extremes() {
    let t = tokenize("#-2147483648 #2147483647");
    assert!(t.errors.is_empty());
    assert_eq!(t.tokens[0].kind, TokenKind::NumDecimal(i32::MIN));
    assert_eq!(t.tokens[1].kind, TokenKind::NumDecimal(i32::MAX));
    assert_eq!(tokenize("#2147483648").errors[0].kind, ErrorKind::InvalidDecimalLiteral);
}

#[test]
fn parser_error_kinds() {
    assert!(kinds_of(".ORIG x3000\nLD R0, R1\n.END\n").contains(&ErrorKind::ExpectedOperand));
    assert!(kinds_of(".ORIG x3000\nNOT #1, R2\n.END\n").contains(&ErrorKind::ExpectedRegister));
    assert!(kinds_of(".ORIG x3000\nNOT R1 R2 R3\n.END\n").contains(&ErrorKind::ExpectedComma));
    assert!(kinds_of(".ORIG x3000\nHALT R1\n.END\n").contains(&ErrorKind::TooManyOperands));
    assert!(kinds_of(".ORIG x3000\n, HALT\n.END\n").contains(&ErrorKind::UnexpectedToken));
    assert!(kinds_of(".ORIG x3000\n.STRINGZ #1\n.END\n").contains(&ErrorKind::InvalidOperandType));
}

#[test]
fn fill_pattern_literal_keeps_bits() {
    let (_, encoded, kinds) = assemble(".ORIG x3000\n.FILL xFFFF\n.FILL #-2\n.FILL b101\n.END\n");
    assert!(kinds.is_empty());
    assert_eq!(encoded.machine_code, vec![0xFFFF, 0xFFFE, 0x0005]);
}

#[test]
fn orig_accepts_high_hex_address() {
    let (first, _, kinds) = assemble(".ORIG xFE00\nX HALT\n.END\n");
    assert!(kinds.is_empty());
    assert_eq!(first.orig_address, 0xFE00);
    assert_eq!(first.symbol_table.get("X"), Some(0xFE00));
}

#[test]
fn non_ascii_message_names_code_point() {
    let (_, encoded, _) = assemble(".ORIG x3000\n.STRINGZ \"\u{e9}\"\n.END\n");
    assert_eq!(
        encoded.errors[0].message,
        "Character '\u{e9}' (U+00E9) in .STRINGZ is not ASCII; LC-3 only supports characters 0x00–0x7F"
    );
    assert_eq!(encoded.machine_code, vec![0x00E9, 0]);
}

#[test]
fn stringz_word_count_counts_characters() {
    assert_eq!(LineContent::Stringz("h\u{e9}".to_string()).word_count(), 3);
    assert_eq!(LineContent::Blkw(7).word_count(), 7);
    assert_eq!(LineContent::Empty.word_count(), 0);
}

#[test]
fn render_diagnostic_text() {
    let e = AsmError::undefined_label("NOWHERE", Span { line: 2, col: 5 });
    assert_eq!(e.render(), "ERROR (line 2:5): Undefined label 'NOWHERE'");
    assert_eq!(ErrorKind::OffsetOutOfRange.description(), "PC offset out of range");
    assert_eq!(AsmError::new(ErrorKind::MissingEnd, "x", Span { line: 1, col: 1 }).message, "x");
}

#[test]
fn symbol_table_first_binding_wins() {
    let mut st = SymbolTable::new();
    assert!(st.is_empty());
    st.insert("B".to_string(), 2);
    st.insert("A".to_string(), 1);
    st.insert("B".to_string(), 9);
    assert_eq!(st.len(), 2);
    assert!(st.contains("A"));
    assert!(!st.contains("C"));
    assert_eq!(st.get("B"), Some(2));
    assert_eq!(st.iter(), vec![("B".to_string(), 2), ("A".to_string(), 1)]);
}

#[test]
fn label_past_end_of_memory_is_diagnosed() {
    let (first, _, kinds) = assemble(".ORIG xFFFF\nHALT\nL .END\n");
    assert_eq!(kinds, vec![ErrorKind::AddressOverflow]);
    assert_eq!(first.symbol_table.get("L"), Some(0xFFFF));
    assert_eq!(first.errors[0].message, "Address overflow: label 'L' lies past xFFFF; bound at xFFFF");
}

#[test]
fn label_after_clamp_never_wraps() {
    let (first, _, kinds) = assemble(".ORIG xFFF0\n.BLKW #100\nHALT\nM HALT\n.END\n");
    assert_eq!(kinds.iter().filter(|k| **k == ErrorKind::AddressOverflow).count(), 3);
    assert_eq!(first.symbol_table.get("M"), Some(0xFFFF));
}

#[test]
fn lines_after_end_leave_result_unchanged() {
    let (a, _, _) = assemble(".ORIG x3000\nB HALT\nA HALT\n.END\n");
    let (b, _, _) = assemble(".ORIG x3000\nB HALT\nA HALT\n.END\nC HALT\nB .FILL #1\n.ORIG x4000\n");
    assert_eq!(a.symbol_table.iter(), b.symbol_table.iter());
    assert_eq!(a.errors, b.errors);
    assert_eq!(a.orig_address, b.orig_address);
}

#[test]
fn one_parse_error_per_failing_line() {
    let lexed = tokenize("ADD R1\nHALT\nLOOP R1\n, HALT\nNOT R1, R2, R3\n");
    let parsed = parse_lines(&lexed.tokens);
    let kinds: Vec<ErrorKind> = parsed.errors.iter().map(|e| e.kind).collect();
    assert_eq!(kinds, vec![ErrorKind::TooFewOperands, ErrorKind::UnexpectedToken, ErrorKind::UnexpectedToken]);
    assert_eq!(parsed.lines.len(), 6);
    assert_eq!(parsed.lines[2].label, Some("LOOP".to_string()));
    assert_eq!(parsed.lines[2].content, LineContent::Empty);
}

#[test]
fn br_flags_text_and_bits() {
    assert_eq!(BrFlags::new(true, false, true).as_u16(), 0b101);
    assert_eq!(BrFlags::new(true, false, true).suffix(), "np");
    assert_eq!(BrFlags::parse("BRX"), None);
    assert_eq!(BrFlags::parse("BR"), Some(BrFlags::new(true, true, true)));
    assert!(TokenKind::DirEnd.is_instruction_or_directive());
    assert!(!TokenKind::Comma.is_instruction_or_directive());
}

#[test]
fn cursor_tracks_lines_and_columns() {
    let mut c = Cursor::new("a\nb");
    assert_eq!(c.peek(), Some('a'));
    assert_eq!(c.peek_next(), Some('\n'));
    assert_eq!(c.advance(), Some('a'));
    assert_eq!(c.current_pos(), (1, 2));
    c.advance();
    assert_eq!(c.current_pos(), (2, 1));
    c.advance();
    assert!(c.is_at_end());
    assert_eq!(c.advance(), None);
    assert_eq!(c.make_span(2, 1), Span { line: 2, col: 1 });
}
