//! First pass: assigns every label an address and checks program structure.
//!
//! The scan is a three-state machine. Before the origin directive only blank
//! lines are expected; between the origin and `.END` the location counter
//! advances by each line's word count; after `.END` every line is ignored.
pub mod symbol_table;

use crate::error::{
    diag, diags, duplicate_label_text, file_start_span, reserved_word_text, AsmError, Diag,
    ErrorKind, Span,
};
use crate::parser::ast::{words_of, LineContent, SourceLine};
use crate::text::{chars_of, hex_text, nat_text, push_hex, push_nat, push_str, str_eq};
use symbol_table::SymbolTable;
use vstd::prelude::*;

verus! {

/// The origin assumed when body content comes before any origin directive.
pub const DEFAULT_ORIG: u16 = 0x3000;

/// One past the highest address: the location counter never exceeds it.
pub const ADDRESS_SPACE: u32 = 0x10000;

/// What the first pass hands to the encoder.
pub struct FirstPassResult {
    pub symbol_table: SymbolTable,
    pub source_lines: Vec<SourceLine>,
    pub orig_address: u16,
    pub errors: Vec<AsmError>,
}

/// Where the scan stands.
#[derive(Debug, Clone, Copy, PartialEq, Eq, Structural)]
pub enum ScanState {
    /// Nothing seen yet but blank lines.
    AwaitingOrigin,
    /// Between the origin and the terminator.
    InBody,
    /// After the terminator: lines are ignored.
    AfterEnd,
}

/// The state of the first pass after some prefix of the lines.
pub struct Resolution {
    pub phase: ScanState,
    /// The location counter: the address of the next word, at most 0x10000.
    pub lc: nat,
    pub orig: u16,
    pub symbols: Map<Seq<char>, u16>,
    /// The bound labels in the order of their first binding.
    pub order: Seq<Seq<char>>,
    pub diags: Seq<Diag>,
}

/// Labels spelled like a directive without its dot.
pub open spec fn is_reserved(label: Seq<char>) -> bool {
    label == "ORIG"@ || label == "END"@ || label == "FILL"@ || label == "BLKW"@ || label == "STRINGZ"@
}

pub open spec fn overflow_text(lc: nat, words: nat) -> Seq<char> {
    "Address overflow: location counter would exceed 0xFFFF (at x"@ + hex_text(lc, 4) + " + "@
        + nat_text(words) + " words)"@
}

/// The state before the first line.
pub open spec fn initial_resolution() -> Resolution {
    Resolution {
        phase: ScanState::AwaitingOrigin,
        lc: 0,
        orig: 0,
        symbols: Map::empty(),
        order: Seq::empty(),
        diags: Seq::empty(),
    }
}

/// Binding a label at `addr`: a label spelled like a directive is diagnosed,
/// and a label bound before keeps its first address and is diagnosed.
pub open spec fn bind_label(st: Resolution, label: Seq<char>, addr: u16, span: Span) -> Resolution {
    let st1 = if is_reserved(label) {
        Resolution {
            diags: st.diags.push(diag(ErrorKind::LabelIsReservedWord, reserved_word_text(label), span)),
            ..st
        }
    } else {
        st
    };
    if st1.symbols.contains_key(label) {
        Resolution {
            diags: st1.diags.push(
                diag(ErrorKind::DuplicateLabel, duplicate_label_text(label, st1.symbols[label]), span),
            ),
            ..st1
        }
    } else {
        Resolution { symbols: st1.symbols.insert(label, addr), order: st1.order.push(label), ..st1 }
    }
}

/// A label of a line binds at the location counter. The counter reaches
/// 0x10000 only past the last word of memory; a label there binds at the
/// highest address instead, and that is diagnosed (see `body_step`).
pub open spec fn label_address(lc: nat) -> u16 {
    if lc < 0x10000 {
        lc as u16
    } else {
        0xFFFF
    }
}

pub open spec fn label_overflow_text(label: Seq<char>) -> Seq<char> {
    "Address overflow: label '"@ + label + "' lies past xFFFF; bound at xFFFF"@
}

/// A label at the current counter: a counter past the last address is
/// diagnosed before the label is bound.
pub open spec fn bind_at_counter(st: Resolution, label: Seq<char>, span: Span) -> Resolution {
    let st0 = if st.lc >= 0x10000 {
        Resolution {
            diags: st.diags.push(diag(ErrorKind::AddressOverflow, label_overflow_text(label), span)),
            ..st
        }
    } else {
        st
    };
    bind_label(st0, label, label_address(st.lc), span)
}

/// One line between the origin and the terminator.
pub open spec fn body_step(st: Resolution, line: SourceLine) -> Resolution {
    let st1 = match line.label {
        Some(l) => bind_at_counter(st, l@, line.span),
        None => st,
    };
    let st2 = match line.content {
        LineContent::Orig(_) => Resolution {
            diags: st1.diags.push(
                diag(ErrorKind::MultipleOrig, "Multiple .ORIG directives are not supported"@, line.span),
            ),
            ..st1
        },
        LineContent::End => Resolution { phase: ScanState::AfterEnd, ..st1 },
        LineContent::Blkw(n) => if n == 0 {
            Resolution {
                diags: st1.diags.push(
                    diag(ErrorKind::InvalidBlkwCount, ".BLKW count must be positive"@, line.span),
                ),
                ..st1
            }
        } else {
            st1
        },
        _ => st1,
    };
    let words = words_of(line.content);
    if st.lc + words > 0x10000 {
        Resolution {
            lc: 0xFFFF,
            diags: st2.diags.push(
                diag(ErrorKind::AddressOverflow, overflow_text(st.lc, words), line.span),
            ),
            ..st2
        }
    } else {
        Resolution { lc: st.lc + words, ..st2 }
    }
}

/// One line of the scan, in whatever state it stands.
pub open spec fn resolve_step(st: Resolution, line: SourceLine) -> Resolution {
    match st.phase {
        ScanState::AfterEnd => st,
        ScanState::InBody => body_step(st, line),
        ScanState::AwaitingOrigin => match line.content {
            LineContent::Empty => st,
            LineContent::Orig(a) => {
                let st1 = Resolution { phase: ScanState::InBody, lc: a as nat, orig: a, ..st };
                match line.label {
                    Some(l) => bind_label(st1, l@, a, line.span),
                    None => st1,
                }
            },
            _ => body_step(
                Resolution {
                    phase: ScanState::InBody,
                    lc: DEFAULT_ORIG as nat,
                    orig: DEFAULT_ORIG,
                    diags: st.diags.push(
                        diag(ErrorKind::MissingOrig, "Expected .ORIG before any instructions"@, line.span),
                    ),
                    ..st
                },
                line,
            ),
        },
    }
}

/// The state after the first `n` lines.
pub open spec fn resolve_prefix(lines: Seq<SourceLine>, n: nat) -> Resolution
    decreases n,
{
    if n == 0 || n > lines.len() {
        initial_resolution()
    } else {
        resolve_step(resolve_prefix(lines, (n - 1) as nat), lines[n - 1])
    }
}

/// The diagnostics raised once the scan is over: no origin, no terminator.
pub open spec fn finish(st: Resolution) -> Resolution {
    let st1 = if st.phase == ScanState::AwaitingOrigin {
        Resolution {
            diags: st.diags.push(diag(ErrorKind::MissingOrig, "No .ORIG directive found"@, file_start_span())),
            ..st
        }
    } else {
        st
    };
    if st.phase != ScanState::AfterEnd {
        Resolution {
            diags: st1.diags.push(diag(ErrorKind::MissingEnd, "No .END directive found"@, file_start_span())),
            ..st1
        }
    } else {
        st1
    }
}

/// What the first pass computes from the whole line sequence.
pub open spec fn resolve(lines: Seq<SourceLine>) -> Resolution {
    finish(resolve_prefix(lines, lines.len()))
}

/// Whether `label` is spelled like a directive name without its dot.
pub fn is_reserved_word(label: &str) -> (r: bool)
    ensures
        r == is_reserved(label@),
{
    proof {
        reveal_strlit("ORIG");
        reveal_strlit("END");
        reveal_strlit("FILL");
        reveal_strlit("BLKW");
        reveal_strlit("STRINGZ");
    }
    str_eq(label, "ORIG") || str_eq(label, "END") || str_eq(label, "FILL") || str_eq(label, "BLKW")
        || str_eq(label, "STRINGZ")
}

/// Performs the first pass: scans the lines once, binds every label, and
/// collects the structural diagnostics. The lines are handed on unchanged.
pub fn first_pass(lines: Vec<SourceLine>) -> (r: FirstPassResult)
    ensures
        r.symbol_table.wf(),
        r.symbol_table@ == resolve(lines@).symbols,
        r.symbol_table.order() == resolve(lines@).order,
        r.orig_address == resolve(lines@).orig,
        diags(r.errors@) == resolve(lines@).diags,
        r.source_lines@ == lines@,
{
    let mut symbol_table = SymbolTable::new();
    let mut errors: Vec<AsmError> = Vec::new();
    let mut location_counter: u32 = 0;
    let mut orig_address: u16 = 0;
    let mut state = ScanState::AwaitingOrigin;
    let mut i: usize = 0;
    assert(diags(errors@) =~= Seq::<Diag>::empty());
    assert(symbol_table.order() =~= Seq::<Seq<char>>::empty());
    while i < lines.len()
        invariant
            i <= lines@.len(),
            symbol_table.wf(),
            resolve_prefix(lines@, i as nat) == (Resolution {
                phase: state,
                lc: location_counter as nat,
                orig: orig_address,
                symbols: symbol_table@,
                order: symbol_table.order(),
                diags: diags(errors@),
            }),
            location_counter <= ADDRESS_SPACE,
        decreases lines@.len() - i,
    {
        let line = &lines[i];
        match state {
            ScanState::AfterEnd => {},
            ScanState::InBody => {
                scan_body_line(&mut symbol_table, &mut errors, &mut location_counter, &mut state, line);
            },
            ScanState::AwaitingOrigin => {
                match &line.content {
                    LineContent::Empty => {},
                    LineContent::Orig(addr) => {
                        state = ScanState::InBody;
                        orig_address = *addr;
                        location_counter = *addr as u32;
                        match &line.label {
                            Some(label) => {
                                record_label(&mut symbol_table, label.as_str(), *addr, line.span, &mut errors);
                            },
                            None => {},
                        }
                    },
                    _ => {
                        push_error(
                            &mut errors,
                            AsmError::new(ErrorKind::MissingOrig, "Expected .ORIG before any instructions", line.span),
                        );
                        state = ScanState::InBody;
                        orig_address = DEFAULT_ORIG;
                        location_counter = DEFAULT_ORIG as u32;
                        scan_body_line(&mut symbol_table, &mut errors, &mut location_counter, &mut state, line);
                    },
                }
            },
        }
        i = i + 1;
    }
    if state == ScanState::AwaitingOrigin {
        push_error(&mut errors, AsmError::new(ErrorKind::MissingOrig, "No .ORIG directive found", Span { line: 1, col: 1 }));
    }
    if state != ScanState::AfterEnd {
        push_error(&mut errors, AsmError::new(ErrorKind::MissingEnd, "No .END directive found", Span { line: 1, col: 1 }));
    }
    FirstPassResult { symbol_table, source_lines: lines, orig_address, errors }
}

/// Appends a diagnostic to a list.
pub fn push_error(errors: &mut Vec<AsmError>, e: AsmError)
    ensures
        diags(final(errors)@) == diags(old(errors)@).push(e@),
        final(errors)@.len() == old(errors)@.len() + 1,
{
    errors.push(e);
    proof {
        assert(diags(final(errors)@) =~= diags(old(errors)@).push(e@));
    }
}

/// One line between the origin and the terminator: binds its label, handles
/// the directives that change the scan, and advances the location counter.
fn scan_body_line(
    table: &mut SymbolTable,
    errors: &mut Vec<AsmError>,
    lc: &mut u32,
    state: &mut ScanState,
    line: &SourceLine,
)
    requires
        old(table).wf(),
        *old(lc) <= ADDRESS_SPACE,
    ensures
        final(table).wf(),
        *final(lc) <= ADDRESS_SPACE,
        (Resolution {
            phase: *final(state),
            lc: *final(lc) as nat,
            orig: 0,
            symbols: final(table)@,
            order: final(table).order(),
            diags: diags(final(errors)@),
        }) == body_step(
            Resolution {
                phase: *old(state),
                lc: *old(lc) as nat,
                orig: 0,
                symbols: old(table)@,
                order: old(table).order(),
                diags: diags(old(errors)@),
            },
            *line,
        ),
{
    let start = *lc;
    match &line.label {
        Some(label) => {
            if start >= ADDRESS_SPACE {
                let mut m = chars_of("Address overflow: label '");
                push_str(&mut m, label.as_str());
                push_str(&mut m, "' lies past xFFFF; bound at xFFFF");
                push_error(errors, AsmError::from_chars(ErrorKind::AddressOverflow, &m, line.span));
            }
            let addr: u16 = if start < ADDRESS_SPACE { start as u16 } else { 0xFFFF };
            record_label(table, label.as_str(), addr, line.span, errors);
        },
        None => {},
    }
    match &line.content {
        LineContent::Orig(_) => {
            push_error(errors, AsmError::new(ErrorKind::MultipleOrig, "Multiple .ORIG directives are not supported", line.span));
        },
        LineContent::End => {
            *state = ScanState::AfterEnd;
        },
        LineContent::Blkw(n) => {
            if *n == 0 {
                push_error(errors, AsmError::new(ErrorKind::InvalidBlkwCount, ".BLKW count must be positive", line.span));
            }
        },
        _ => {},
    }
    let words = line_words(&line.content);
    let new_lc: u128 = start as u128 + words;
    if new_lc > ADDRESS_SPACE as u128 {
        let mut m = chars_of("Address overflow: location counter would exceed 0xFFFF (at x");
        push_hex(&mut m, start, 4);
        push_str(&mut m, " + ");
        push_nat(&mut m, words);
        push_str(&mut m, " words)");
        proof {
            assert(m@ =~= overflow_text(start as nat, words as nat));
        }
        push_error(errors, AsmError::from_chars(ErrorKind::AddressOverflow, &m, line.span));
        *lc = 0xFFFF;
    } else {
        *lc = new_lc as u32;
    }
}

/// The number of words a line's content occupies, without a bound on its size.
fn line_words(c: &LineContent) -> (r: u128)
    ensures
        r == words_of(*c),
        r <= 0x1_0000_0000_0000_0000,
{
    match c {
        LineContent::Blkw(n) => *n as u128,
        LineContent::Stringz(s) => s.as_str().unicode_len() as u128 + 1,
        LineContent::Empty | LineContent::Orig(_) | LineContent::End => 0,
        LineContent::FillImmediate(_) | LineContent::FillLabel(_) | LineContent::Instruction(_) => 1,
    }
}

/// Binds `label` at `address` unless it is bound already, in which case the
/// first address stays and a duplicate-label diagnostic names it.
fn record_label(table: &mut SymbolTable, label: &str, address: u16, span: Span, errors: &mut Vec<AsmError>)
    requires
        old(table).wf(),
    ensures
        final(table).wf(),
        ({
            let st = bind_label(
                Resolution {
                    phase: ScanState::InBody,
                    lc: 0,
                    orig: 0,
                    symbols: old(table)@,
                    order: old(table).order(),
                    diags: diags(old(errors)@),
                },
                label@,
                address,
                span,
            );
            st.symbols == final(table)@ && st.order == final(table).order() && st.diags == diags(final(errors)@)
        }),
{
    if is_reserved_word(label) {
        push_error(errors, AsmError::label_is_reserved_word(label, span));
    }
    match table.get(label) {
        Some(first_addr) => {
            push_error(errors, AsmError::duplicate_label(label, first_addr, span));
        },
        None => {
            table.insert(string_from(label), address);
        },
    }
}

/// An owned copy of a string slice.
fn string_from(s: &str) -> (r: String)
    ensures
        r@ == s@,
{
    crate::text::string_of(&chars_of(s))
}

} // verus!

verus! {

/// The words that lines `from..to` occupy.
pub open spec fn words_between(lines: Seq<SourceLine>, from: int, to: int) -> nat
    decreases to - from,
{
    if to <= from {
        0
    } else {
        words_between(lines, from, to - 1) + words_of(lines[to - 1].content)
    }
}

/// A program in the expected shape: blank lines, then the origin directive at
/// `p`, then body lines up to the first terminator at `e`.
pub open spec fn well_framed(lines: Seq<SourceLine>, p: int, e: int) -> bool {
    &&& 0 <= p < e < lines.len()
    &&& forall|k: int| 0 <= k < p ==> (#[trigger] lines[k].content) is Empty
    &&& lines[p].content is Orig
    &&& lines[e].content is End
    &&& forall|k: int| p < k < e ==> !((#[trigger] lines[k].content) is End)
}

pub open spec fn origin_of(lines: Seq<SourceLine>, p: int) -> u16 {
    lines[p].content->Orig_0
}

proof fn lemma_words_monotone(lines: Seq<SourceLine>, from: int, mid: int, to: int)
    requires
        from <= mid <= to,
    ensures
        words_between(lines, from, mid) <= words_between(lines, from, to),
    decreases to - mid,
{
    if mid < to {
        lemma_words_monotone(lines, from, mid, to - 1);
    }
}

proof fn lemma_blank_prefix(lines: Seq<SourceLine>, p: int, k: int)
    requires
        0 <= k <= p < lines.len(),
        forall|j: int| 0 <= j < p ==> (#[trigger] lines[j].content) is Empty,
    ensures
        resolve_prefix(lines, k as nat) == initial_resolution(),
    decreases k,
{
    if k > 0 {
        lemma_blank_prefix(lines, p, k - 1);
    }
}

/// Between the origin and the terminator, with no overflow, the scan stays in
/// the body and its counter is the origin plus the words so far.
proof fn lemma_body_counter(lines: Seq<SourceLine>, p: int, e: int, k: int)
    requires
        well_framed(lines, p, e),
        p < k <= e,
        origin_of(lines, p) + words_between(lines, p + 1, e) <= 0x10000,
    ensures
        resolve_prefix(lines, k as nat).phase == ScanState::InBody,
        resolve_prefix(lines, k as nat).lc == origin_of(lines, p) + words_between(lines, p + 1, k),
        resolve_prefix(lines, k as nat).orig == origin_of(lines, p),
    decreases k,
{
    if k == p + 1 {
        lemma_blank_prefix(lines, p, p);
    } else {
        lemma_body_counter(lines, p, e, k - 1);
        lemma_words_monotone(lines, p + 1, k, e);
    }
}

/// Once a label is bound, later lines never change its address.
proof fn lemma_binding_stays(lines: Seq<SourceLine>, label: Seq<char>, j: nat, k: nat)
    requires
        j <= k <= lines.len(),
        resolve_prefix(lines, j).symbols.contains_key(label),
    ensures
        resolve_prefix(lines, k).symbols.contains_key(label),
        resolve_prefix(lines, k).symbols[label] == resolve_prefix(lines, j).symbols[label],
    decreases k,
{
    if k > j {
        lemma_binding_stays(lines, label, j, (k - 1) as nat);
    }
}

/// A label that no line carries is never bound.
proof fn lemma_unbound(lines: Seq<SourceLine>, label: Seq<char>, k: nat)
    requires
        k <= lines.len(),
        forall|i: int| 0 <= i < k ==> !((#[trigger] lines[i].label) matches Some(l) && l@ == label),
    ensures
        !resolve_prefix(lines, k).symbols.contains_key(label),
    decreases k,
{
    if k > 0 {
        lemma_unbound(lines, label, (k - 1) as nat);
    }
}

/// The counter at the terminator is the origin plus the words of the body
/// lines when the body fits the address space; the terminator ends the scan,
/// so no missing-terminator diagnostic is raised.
pub proof fn lemma_counter_at_terminator(lines: Seq<SourceLine>, p: int, e: int)
    requires
        well_framed(lines, p, e),
        origin_of(lines, p) + words_between(lines, p + 1, e) <= 0x10000,
    ensures
        resolve_prefix(lines, (e + 1) as nat).phase == ScanState::AfterEnd,
        resolve_prefix(lines, (e + 1) as nat).lc == origin_of(lines, p) + words_between(lines, p + 1, e),
        forall|k: nat| e + 1 <= k <= lines.len() ==> #[trigger] resolve_prefix(lines, k) == resolve_prefix(lines, (e + 1) as nat),
        resolve(lines).phase == ScanState::AfterEnd,
        resolve(lines).orig == origin_of(lines, p),
{
    lemma_body_counter(lines, p, e, e);
    assert forall|k: nat| e + 1 <= k <= lines.len() implies #[trigger] resolve_prefix(lines, k) == resolve_prefix(lines, (e + 1) as nat) by {
        lemma_after_end(lines, e, k);
    }
    lemma_after_end(lines, e, lines.len());
}

proof fn lemma_after_end(lines: Seq<SourceLine>, e: int, k: nat)
    requires
        0 <= e,
        e + 1 <= k <= lines.len(),
        resolve_prefix(lines, (e + 1) as nat).phase == ScanState::AfterEnd,
    ensures
        resolve_prefix(lines, k) == resolve_prefix(lines, (e + 1) as nat),
    decreases k,
{
    if k > e + 1 {
        lemma_after_end(lines, e, (k - 1) as nat);
    }
}

/// A counter pushed past the address space is clamped to the highest address
/// and the overflow is diagnosed.
pub proof fn lemma_overflow_clamps(st: Resolution, line: SourceLine)
    requires
        st.phase == ScanState::InBody,
        st.lc + words_of(line.content) > 0x10000,
    ensures
        body_step(st, line).lc == 0xFFFF,
        body_step(st, line).diags.last().kind == ErrorKind::AddressOverflow,
{
}

/// Word counts add up over adjacent ranges of lines.
pub proof fn lemma_words_split(lines: Seq<SourceLine>, a: int, m: int, b: int)
    requires
        a <= m <= b,
    ensures
        words_between(lines, a, b) == words_between(lines, a, m) + words_between(lines, m, b),
    decreases b - m,
{
    if m < b {
        lemma_words_split(lines, a, m, b - 1);
    }
}

/// From a point inside the body, with no terminator and no overflow ahead,
/// the counter advances by exactly the words of the lines read.
proof fn lemma_body_run(lines: Seq<SourceLine>, a: int, e: int, k: int)
    requires
        0 <= a <= k <= e < lines.len(),
        resolve_prefix(lines, a as nat).phase == ScanState::InBody,
        forall|i: int| a <= i < e ==> !((#[trigger] lines[i].content) is End),
        resolve_prefix(lines, a as nat).lc + words_between(lines, a, e) <= 0x10000,
    ensures
        resolve_prefix(lines, k as nat).phase == ScanState::InBody,
        resolve_prefix(lines, k as nat).lc == resolve_prefix(lines, a as nat).lc + words_between(lines, a, k),
        resolve_prefix(lines, k as nat).orig == resolve_prefix(lines, a as nat).orig,
    decreases k - a,
{
    if k > a {
        lemma_body_run(lines, a, e, k - 1);
        lemma_words_monotone(lines, a, k, e);
    }
}

/// Without an origin directive, the first line with content starts the body
/// at the default origin; the counter at the terminator is that origin plus
/// the words of every line from there on.
pub proof fn lemma_counter_without_origin(lines: Seq<SourceLine>, p: int, e: int)
    requires
        0 <= p <= e < lines.len(),
        forall|k: int| 0 <= k < p ==> (#[trigger] lines[k].content) is Empty,
        !(lines[p].content is Empty),
        !(lines[p].content is Orig),
        lines[e].content is End,
        forall|k: int| p <= k < e ==> !((#[trigger] lines[k].content) is End),
        DEFAULT_ORIG + words_between(lines, p, e) <= 0x10000,
    ensures
        resolve_prefix(lines, (e + 1) as nat).phase == ScanState::AfterEnd,
        resolve_prefix(lines, (e + 1) as nat).lc == DEFAULT_ORIG + words_between(lines, p, e),
        resolve(lines).phase == ScanState::AfterEnd,
        resolve(lines).orig == DEFAULT_ORIG,
        resolve(lines).diags[0].kind == ErrorKind::MissingOrig,
{
    lemma_blank_prefix(lines, p, p);
    if p == e {
        lemma_after_end(lines, e, lines.len());
    } else {
        lemma_words_split(lines, p, p + 1, e);
        lemma_words_monotone(lines, p, p + 1, e);
        assert(words_between(lines, p, p) == 0);
        assert(words_between(lines, p, p + 1) == words_of(lines[p].content));
        assert(resolve_prefix(lines, (p + 1) as nat) == resolve_step(initial_resolution(), lines[p]));
        assert(resolve_prefix(lines, (p + 1) as nat).lc == DEFAULT_ORIG + words_between(lines, p, p + 1));
        lemma_body_run(lines, p + 1, e, e);
        lemma_words_split(lines, p, p + 1, e);
        lemma_after_end(lines, e, lines.len());
        lemma_diags_grow(lines, (p + 1) as nat, lines.len());
    }
}

proof fn lemma_diags_grow(lines: Seq<SourceLine>, j: nat, k: nat)
    requires
        j <= k <= lines.len(),
    ensures
        resolve_prefix(lines, j).diags.len() <= resolve_prefix(lines, k).diags.len(),
        forall|i: int| 0 <= i < resolve_prefix(lines, j).diags.len() ==> resolve_prefix(lines, k).diags[i] == resolve_prefix(lines, j).diags[i],
    decreases k,
{
    if k > j {
        lemma_diags_grow(lines, j, (k - 1) as nat);
    }
}

/// A label defined exactly once, on the origin line or on a body line
/// (the terminator's line included), is bound to the origin plus the words of
/// the body lines before it, as long as that address lies in memory. Nothing
/// after the label's line matters.
pub proof fn lemma_label_address(lines: Seq<SourceLine>, p: int, j: int, label: Seq<char>)
    requires
        0 <= p <= j < lines.len(),
        forall|k: int| 0 <= k < p ==> (#[trigger] lines[k].content) is Empty,
        lines[p].content is Orig,
        forall|k: int| p < k < j ==> !((#[trigger] lines[k].content) is End),
        lines[j].label matches Some(l) && l@ == label,
        forall|i: int| 0 <= i < lines.len() && i != j ==> !((#[trigger] lines[i].label) matches Some(l) && l@ == label),
        origin_of(lines, p) + words_between(lines, p + 1, j) < 0x10000,
    ensures
        resolve(lines).symbols.contains_key(label),
        resolve(lines).symbols[label] == origin_of(lines, p) + words_between(lines, p + 1, j),
{
    lemma_unbound(lines, label, j as nat);
    lemma_blank_prefix(lines, p, p);
    if j > p {
        assert(resolve_prefix(lines, (p + 1) as nat).lc == origin_of(lines, p));
        lemma_body_run(lines, p + 1, j, j);
    }
    lemma_binding_stays(lines, label, (j + 1) as nat, lines.len());
}

/// After an overflow the counter is clamped at the highest address, so a
/// label on the next line binds there, never at a wrapped address.
pub proof fn lemma_label_after_overflow(st: Resolution, line: SourceLine, label: Seq<char>, span: Span)
    requires
        st.phase == ScanState::InBody,
        st.lc + words_of(line.content) > 0x10000,
        !body_step(st, line).symbols.contains_key(label),
    ensures
        bind_at_counter(body_step(st, line), label, span).symbols[label] == 0xFFFF,
{
}

/// Once the origin is set, later lines never change it, and the scan never
/// goes back to waiting for an origin.
proof fn lemma_orig_stays(lines: Seq<SourceLine>, j: nat, k: nat)
    requires
        j <= k <= lines.len(),
        resolve_prefix(lines, j).phase != ScanState::AwaitingOrigin,
    ensures
        resolve_prefix(lines, k).phase != ScanState::AwaitingOrigin,
        resolve_prefix(lines, k).orig == resolve_prefix(lines, j).orig,
        resolve_prefix(lines, j).diags.len() <= resolve_prefix(lines, k).diags.len(),
        forall|i: int| 0 <= i < resolve_prefix(lines, j).diags.len() ==> resolve_prefix(lines, k).diags[i] == resolve_prefix(lines, j).diags[i],
        forall|i: int| resolve_prefix(lines, j).diags.len() <= i < resolve_prefix(lines, k).diags.len()
            ==> (#[trigger] resolve_prefix(lines, k).diags[i]).kind != ErrorKind::MissingOrig,
    decreases k,
{
    if k > j {
        lemma_orig_stays(lines, j, (k - 1) as nat);
        let a = resolve_prefix(lines, (k - 1) as nat);
        let b = resolve_prefix(lines, k);
        assert(forall|i: int| 0 <= i < a.diags.len() ==> b.diags[i] == a.diags[i]);
        assert(forall|i: int| a.diags.len() <= i < b.diags.len() ==> (#[trigger] b.diags[i]).kind != ErrorKind::MissingOrig);
    }
}

/// Without an origin directive, the program is placed at the default origin,
/// exactly one missing-origin diagnostic is raised (the first), and a label
/// defined exactly once binds at the default origin plus the words of the
/// lines before it, counted from the first line with content.
pub proof fn lemma_label_without_origin(lines: Seq<SourceLine>, p: int, j: int, label: Seq<char>)
    requires
        0 <= p <= j < lines.len(),
        forall|k: int| 0 <= k < p ==> (#[trigger] lines[k].content) is Empty,
        !(lines[p].content is Empty),
        !(lines[p].content is Orig),
        forall|k: int| p <= k < j ==> !((#[trigger] lines[k].content) is End),
        lines[j].label matches Some(l) && l@ == label,
        forall|i: int| 0 <= i < lines.len() && i != j ==> !((#[trigger] lines[i].label) matches Some(l) && l@ == label),
        DEFAULT_ORIG + words_between(lines, p, j) < 0x10000,
    ensures
        resolve(lines).orig == DEFAULT_ORIG,
        resolve(lines).diags[0].kind == ErrorKind::MissingOrig,
        forall|i: int| 0 < i < resolve(lines).diags.len() ==> (#[trigger] resolve(lines).diags[i]).kind != ErrorKind::MissingOrig,
        resolve(lines).symbols.contains_key(label),
        resolve(lines).symbols[label] == DEFAULT_ORIG + words_between(lines, p, j),
{
    lemma_unbound(lines, label, j as nat);
    lemma_blank_prefix(lines, p, p);
    let s1 = resolve_prefix(lines, (p + 1) as nat);
    assert(s1 == resolve_step(initial_resolution(), lines[p]));
    assert(s1.diags[0].kind == ErrorKind::MissingOrig);
    assert(forall|i: int| 0 < i < s1.diags.len() ==> (#[trigger] s1.diags[i]).kind != ErrorKind::MissingOrig);
    lemma_orig_stays(lines, (p + 1) as nat, lines.len());
    if j > p {
        assert(words_between(lines, p, p) == 0);
        assert(words_between(lines, p, p + 1) == words_of(lines[p].content));
        lemma_words_split(lines, p, p + 1, j);
        assert(s1.phase == ScanState::InBody);
        assert(s1.lc == DEFAULT_ORIG + words_between(lines, p, p + 1));
        lemma_body_run(lines, p + 1, j, j);
        lemma_words_split(lines, p, p + 1, j);
    }
    lemma_binding_stays(lines, label, (j + 1) as nat, lines.len());
    let z = resolve_prefix(lines, lines.len());
    assert(forall|i: int| 0 < i < resolve(lines).diags.len() ==> resolve(lines).diags[i] == z.diags[i] || resolve(lines).diags[i].kind == ErrorKind::MissingEnd);
}

/// Before the first terminator the scan has not ended.
proof fn lemma_not_ended(lines: Seq<SourceLine>, k: int)
    requires
        0 <= k <= lines.len(),
        forall|i: int| 0 <= i < k ==> !((#[trigger] lines[i].content) is End),
    ensures
        resolve_prefix(lines, k as nat).phase != ScanState::AfterEnd,
    decreases k,
{
    if k > 0 {
        lemma_not_ended(lines, k - 1);
    }
}

/// Two line sequences that agree on their first `k` lines agree on the scan
/// of those lines.
proof fn lemma_same_prefix(x: Seq<SourceLine>, y: Seq<SourceLine>, k: int)
    requires
        0 <= k <= x.len(),
        k <= y.len(),
        x.subrange(0, k) == y.subrange(0, k),
    ensures
        resolve_prefix(x, k as nat) == resolve_prefix(y, k as nat),
    decreases k,
{
    if k > 0 {
        assert(x.subrange(0, k - 1) =~= x.subrange(0, k).subrange(0, k - 1));
        assert(y.subrange(0, k - 1) =~= y.subrange(0, k).subrange(0, k - 1));
        lemma_same_prefix(x, y, k - 1);
        assert(x[k - 1] == x.subrange(0, k)[k - 1]);
        assert(y[k - 1] == y.subrange(0, k)[k - 1]);
    }
}

/// Lines after the first terminator are ignored: they bind no label, raise
/// no diagnostic and move no counter, so the first pass gives the same
/// result with or without them.
pub proof fn lemma_lines_after_end(lines: Seq<SourceLine>, e: int, extra: Seq<SourceLine>)
    requires
        0 <= e < lines.len(),
        lines[e].content is End,
        forall|i: int| 0 <= i < e ==> !((#[trigger] lines[i].content) is End),
    ensures
        resolve(lines.subrange(0, e + 1) + extra) == resolve(lines.subrange(0, e + 1)),
{
    let a = lines.subrange(0, e + 1);
    let b = a + extra;
    assert(a.subrange(0, e + 1) =~= b.subrange(0, e + 1));
    lemma_not_ended(a, e);
    assert(resolve_prefix(a, (e + 1) as nat).phase == ScanState::AfterEnd);
    lemma_same_prefix(a, b, e + 1);
    lemma_after_end(b, e, b.len());
}

} // verus!
