use lc3_assembler::encoder::encode;
use lc3_assembler::error::ErrorKind;
use lc3_assembler::first_pass::first_pass;
use lc3_assembler::lexer::tokenize;
use lc3_assembler::parser::parse_lines;

/// Run the pipeline on a source string and collect all errors from every stage.
fn collect_all_errors(source: &str) -> Vec<ErrorKind> {
    let mut kinds = Vec::new();
    let lexed = tokenize(source);
    kinds.extend(lexed.errors.iter().map(|e| e.kind.clone()));
    let parsed = parse_lines(&lexed.tokens);
    kinds.extend(parsed.errors.iter().map(|e| e.kind.clone()));
    let first = first_pass(parsed.lines);
    kinds.extend(first.errors.iter().map(|e| e.kind.clone()));
    let encoded = encode(&first);
    kinds.extend(encoded.errors.iter().map(|e| e.kind.clone()));
    kinds
}

// ========== ERROR-PATH TESTS ==========

#[test]
fn error_undefined_label() {
    let source = ".ORIG x3000\nLD R0, NOWHERE\n.END\n";
    let errors = collect_all_errors(source);
    assert!(
        errors.contains(&ErrorKind::UndefinedLabel),
        "Expected UndefinedLabel error, got: {:?}",
        errors
    );
}

#[test]
fn error_duplicate_label() {
    let source = ".ORIG x3000\nFOO ADD R0, R0, #1\nFOO ADD R1, R1, #2\n.END\n";
    let errors = collect_all_errors(source);
    assert!(
        errors.contains(&ErrorKind::DuplicateLabel),
        "Expected DuplicateLabel error, got: {:?}",
        errors
    );
}

#[test]
fn error_missing_orig() {
    let source = "ADD R0, R0, #1\n.END\n";
    let errors = collect_all_errors(source);
    assert!(
        errors.contains(&ErrorKind::MissingOrig),
        "Expected MissingOrig error, got: {:?}",
        errors
    );
}

#[test]
fn error_imm5_out_of_range() {
    let source = ".ORIG x3000\nADD R1, R1, #100\n.END\n";
    let errors = collect_all_errors(source);
    assert!(
        errors.contains(&ErrorKind::InvalidOperandType),
        "Expected InvalidOperandType for imm5 out of range, got: {:?}",
        errors
    );
}

#[test]
fn error_offset6_out_of_range() {
    let source = ".ORIG x3000\nLDR R0, R1, #100\n.END\n";
    let errors = collect_all_errors(source);
    assert!(
        errors.contains(&ErrorKind::InvalidOperandType),
        "Expected InvalidOperandType for offset6 out of range, got: {:?}",
        errors
    );
}

#[test]
fn error_too_few_operands() {
    let source = ".ORIG x3000\nADD R1, R2\n.END\n";
    let errors = collect_all_errors(source);
    assert!(
        errors.contains(&ErrorKind::TooFewOperands),
        "Expected TooFewOperands error, got: {:?}",
        errors
    );
}

#[test]
fn error_invalid_orig_address() {
    // x10000 overflows the lexer's 16-bit hex parser, so it's caught as InvalidHexLiteral
    // before the parser ever sees it. This is correct: the lexer rejects it first.
    let source = ".ORIG x10000\n.END\n";
    let errors = collect_all_errors(source);
    assert!(
        errors.contains(&ErrorKind::InvalidHexLiteral),
        "Expected InvalidHexLiteral for oversized hex literal, got: {:?}",
        errors
    );
}

#[test]
fn error_invalid_orig_decimal() {
    // Decimal 70000 is parseable but exceeds the 16-bit .ORIG range.
    let source = ".ORIG #70000\n.END\n";
    let errors = collect_all_errors(source);
    assert!(
        errors.contains(&ErrorKind::InvalidOrigAddress),
        "Expected InvalidOrigAddress for decimal out of range, got: {:?}",
        errors
    );
}

#[test]
fn error_invalid_blkw_count() {
    let source = ".ORIG x3000\n.BLKW #0\n.END\n";
    let errors = collect_all_errors(source);
    assert!(
        errors.contains(&ErrorKind::InvalidBlkwCount),
        "Expected InvalidBlkwCount error, got: {:?}",
        errors
    );
}

#[test]
fn error_trap_vector_out_of_range() {
    let source = ".ORIG x3000\nTRAP x1FF\n.END\n";
    let errors = collect_all_errors(source);
    assert!(
        errors.contains(&ErrorKind::InvalidOperandType),
        "Expected InvalidOperandType for TRAP vector out of range, got: {:?}",
        errors
    );
}
