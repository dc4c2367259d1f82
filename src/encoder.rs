//! Second pass: turns the resolved program into LC-3 machine words.
//!
//! The encoder walks the lines again from the origin, keeping its own
//! location counter, and stops at the terminator exactly where the first pass
//! stopped assigning addresses. Every problem is diagnosed and replaced by a
//! zero field, so the number of words never depends on the diagnostics.
use crate::error::{diag, diags, non_ascii_text, undefined_label_text, AsmError, Diag, ErrorKind, Span};
use crate::first_pass::symbol_table::SymbolTable;
use crate::first_pass::{push_error, resolve, FirstPassResult};
use crate::lexer::token::flag_bits;
use crate::parser::ast::{Instruction, LineContent, SourceLine};
use crate::text::{chars_of, int_text, nat_text, push_int, push_nat, push_str};
use vstd::arithmetic::power2::pow2;
use vstd::prelude::*;

verus! {

// Opcodes: bits 15:12 of every instruction word.
pub const OP_ADD: u16 = 0b0001;
pub const OP_AND: u16 = 0b0101;
pub const OP_NOT: u16 = 0b1001;
pub const OP_LD: u16 = 0b0010;
pub const OP_LDI: u16 = 0b1010;
pub const OP_LEA: u16 = 0b1110;
pub const OP_ST: u16 = 0b0011;
pub const OP_STI: u16 = 0b1011;
pub const OP_LDR: u16 = 0b0110;
pub const OP_STR: u16 = 0b0111;
pub const OP_BR: u16 = 0b0000;
pub const OP_JMP: u16 = 0b1100;
pub const OP_JSR: u16 = 0b0100;
pub const OP_TRAP: u16 = 0b1111;
pub const OP_RTI: u16 = 0b1000;

// The trap aliases as whole instruction words.
pub const TRAP_GETC: u16 = 0xF020;
pub const TRAP_OUT: u16 = 0xF021;
pub const TRAP_PUTS: u16 = 0xF022;
pub const TRAP_IN: u16 = 0xF023;
pub const TRAP_PUTSP: u16 = 0xF024;
pub const TRAP_HALT: u16 = 0xF025;

/// Result of the encoding pass.
pub struct EncodeResult {
    /// The machine words, in order from the origin.
    pub machine_code: Vec<u16>,
    /// Where the program is loaded.
    pub orig_address: u16,
    /// Problems found while encoding.
    pub errors: Vec<AsmError>,
}

impl EncodeResult {
    /// Whether any encoding problem was recorded.
    pub fn has_errors(&self) -> (r: bool)
        ensures
            r == (self.errors@.len() > 0),
    {
        !self.errors.is_empty()
    }
}

/// The low `bits` bits of the 16-bit two's-complement pattern of `value`.
pub open spec fn low_bits(value: i16, bits: nat) -> u16 {
    ((value as u16) as nat % pow2(bits)) as u16
}

/// Half the span of a signed field: offsets lie in [-half, half - 1].
pub open spec fn half_range(bits: u8) -> int {
    if bits == 9 {
        256
    } else {
        1024
    }
}

/// The signed distance from the program counter during execution of the
/// instruction at `addr` (already advanced past it) to `target`.
pub open spec fn pc_offset(target: u16, addr: u16) -> int {
    target as int - ((addr as int + 1) % 0x10000)
}

/// The two's-complement field of an offset that lies in range.
pub open spec fn offset_field(offset: int, bits: u8) -> u16 {
    (if offset >= 0 {
        offset
    } else {
        offset + 2 * half_range(bits)
    }) as u16
}

pub open spec fn range_text(offset: int, label: Seq<char>, bits: u8) -> Seq<char> {
    "PC offset "@ + int_text(offset) + " to label '"@ + label + "' exceeds "@ + nat_text(bits as nat)
        + "-bit range ["@ + int_text(-half_range(bits)) + ", "@ + int_text(half_range(bits) - 1) + "]"@
}

/// The field for a PC-relative reference to `label` from the instruction at
/// `addr`, with the diagnostics it raises: zero and a diagnostic for an
/// undefined label or an offset out of range.
pub open spec fn pc_field(table: Map<Seq<char>, u16>, label: Seq<char>, addr: u16, bits: u8, span: Span) -> (u16, Seq<Diag>) {
    if !table.contains_key(label) {
        (0, seq![diag(ErrorKind::UndefinedLabel, undefined_label_text(label), span)])
    } else {
        let off = pc_offset(table[label], addr);
        if off < -half_range(bits) || off >= half_range(bits) {
            (0, seq![diag(ErrorKind::OffsetOutOfRange, range_text(off, label, bits), span)])
        } else {
            (offset_field(off, bits), Seq::empty())
        }
    }
}

/// opcode | r<<9 | field.
pub open spec fn reg_field_word(op: u16, r: u8, field: u16) -> u16 {
    (op << 12u16) | ((r as u16) << 9u16) | field
}

/// opcode | a<<9 | b<<6 | low.
pub open spec fn three_field_word(op: u16, a: u8, b: u8, low: u16) -> u16 {
    (op << 12u16) | ((a as u16) << 9u16) | ((b as u16) << 6u16) | low
}

/// The word of an instruction at `addr`, with the diagnostics it raises.
pub open spec fn instruction_word(table: Map<Seq<char>, u16>, inst: Instruction, addr: u16, span: Span) -> (u16, Seq<Diag>) {
    match inst {
        Instruction::AddReg { dr, sr1, sr2 } => (three_field_word(OP_ADD, dr, sr1, sr2 as u16), Seq::empty()),
        Instruction::AddImm { dr, sr1, imm5 } => (three_field_word(OP_ADD, dr, sr1, 0x20u16 | low_bits(imm5, 5)), Seq::empty()),
        Instruction::AndReg { dr, sr1, sr2 } => (three_field_word(OP_AND, dr, sr1, sr2 as u16), Seq::empty()),
        Instruction::AndImm { dr, sr1, imm5 } => (three_field_word(OP_AND, dr, sr1, 0x20u16 | low_bits(imm5, 5)), Seq::empty()),
        Instruction::Not { dr, sr } => (three_field_word(OP_NOT, dr, sr, 0x3Fu16), Seq::empty()),
        Instruction::Ld { dr, label } => {
            let f = pc_field(table, label@, addr, 9, span);
            (reg_field_word(OP_LD, dr, f.0), f.1)
        },
        Instruction::Ldi { dr, label } => {
            let f = pc_field(table, label@, addr, 9, span);
            (reg_field_word(OP_LDI, dr, f.0), f.1)
        },
        Instruction::Lea { dr, label } => {
            let f = pc_field(table, label@, addr, 9, span);
            (reg_field_word(OP_LEA, dr, f.0), f.1)
        },
        Instruction::St { sr, label } => {
            let f = pc_field(table, label@, addr, 9, span);
            (reg_field_word(OP_ST, sr, f.0), f.1)
        },
        Instruction::Sti { sr, label } => {
            let f = pc_field(table, label@, addr, 9, span);
            (reg_field_word(OP_STI, sr, f.0), f.1)
        },
        Instruction::Ldr { dr, base_r, offset6 } => (three_field_word(OP_LDR, dr, base_r, low_bits(offset6, 6)), Seq::empty()),
        Instruction::Str { sr, base_r, offset6 } => (three_field_word(OP_STR, sr, base_r, low_bits(offset6, 6)), Seq::empty()),
        Instruction::Br { flags, label } => {
            let f = pc_field(table, label@, addr, 9, span);
            ((OP_BR << 12u16) | (flag_bits(flags) << 9u16) | f.0, f.1)
        },
        Instruction::Jmp { base_r } => ((OP_JMP << 12u16) | ((base_r as u16) << 6u16), Seq::empty()),
        Instruction::Ret => ((OP_JMP << 12u16) | (7u16 << 6u16), Seq::empty()),
        Instruction::Jsr { label } => {
            let f = pc_field(table, label@, addr, 11, span);
            ((OP_JSR << 12u16) | (1u16 << 11u16) | f.0, f.1)
        },
        Instruction::Jsrr { base_r } => ((OP_JSR << 12u16) | ((base_r as u16) << 6u16), Seq::empty()),
        Instruction::Trap { trapvect8 } => ((OP_TRAP << 12u16) | (trapvect8 as u16), Seq::empty()),
        Instruction::Getc => (TRAP_GETC, Seq::empty()),
        Instruction::Out => (TRAP_OUT, Seq::empty()),
        Instruction::Puts => (TRAP_PUTS, Seq::empty()),
        Instruction::In => (TRAP_IN, Seq::empty()),
        Instruction::Putsp => (TRAP_PUTSP, Seq::empty()),
        Instruction::Halt => (TRAP_HALT, Seq::empty()),
        Instruction::Rti => (OP_RTI << 12u16, Seq::empty()),
    }
}

/// The word a string character becomes: its low byte.
pub open spec fn char_word(c: char) -> u16 {
    ((c as u32) % 256) as u16
}

/// The diagnostics for the characters of a string outside 7-bit ASCII, in order.
pub open spec fn string_diags(s: Seq<char>, span: Span) -> Seq<Diag>
    decreases s.len(),
{
    if s.len() == 0 {
        Seq::empty()
    } else if (s.last() as u32) < 128 {
        string_diags(s.drop_last(), span)
    } else {
        string_diags(s.drop_last(), span).push(diag(ErrorKind::NonAsciiInStringz, non_ascii_text(s.last()), span))
    }
}

/// The words and diagnostics of one line placed at `addr`.
pub open spec fn line_output(table: Map<Seq<char>, u16>, line: SourceLine, addr: u16) -> (Seq<u16>, Seq<Diag>) {
    match line.content {
        LineContent::Empty | LineContent::Orig(_) | LineContent::End => (Seq::empty(), Seq::empty()),
        LineContent::FillImmediate(v) => (seq![v as u16], Seq::empty()),
        LineContent::FillLabel(l) => if table.contains_key(l@) {
            (seq![table[l@]], Seq::empty())
        } else {
            (seq![0u16], seq![diag(ErrorKind::UndefinedLabel, undefined_label_text(l@), line.span)])
        },
        LineContent::Blkw(n) => (Seq::new(n as nat, |i: int| 0u16), Seq::empty()),
        LineContent::Stringz(s) => (s@.map_values(|c: char| char_word(c)).push(0u16), string_diags(s@, line.span)),
        LineContent::Instruction(inst) => {
            let w = instruction_word(table, inst, addr, line.span);
            (seq![w.0], w.1)
        },
    }
}

/// Where the encoding stands after some lines.
pub struct Emission {
    pub words: Seq<u16>,
    pub diags: Seq<Diag>,
    /// Address of the next word.
    pub addr: u16,
    /// The terminator has been seen.
    pub done: bool,
}

pub open spec fn emit_step(table: Map<Seq<char>, u16>, st: Emission, line: SourceLine) -> Emission {
    if st.done {
        st
    } else if line.content is End {
        Emission { done: true, ..st }
    } else {
        let out = line_output(table, line, st.addr);
        Emission {
            words: st.words + out.0,
            diags: st.diags + out.1,
            addr: ((st.addr as int + out.0.len()) % 0x10000) as u16,
            done: false,
        }
    }
}

/// The encoding after the first `n` lines, starting at `orig`.
pub open spec fn emit_prefix(table: Map<Seq<char>, u16>, lines: Seq<SourceLine>, orig: u16, n: nat) -> Emission
    decreases n,
{
    if n == 0 || n > lines.len() {
        Emission { words: Seq::empty(), diags: Seq::empty(), addr: orig, done: false }
    } else {
        emit_step(table, emit_prefix(table, lines, orig, (n - 1) as nat), lines[n - 1])
    }
}

/// The whole encoding of a program whose lines start at `orig`.
pub open spec fn emit_all(table: Map<Seq<char>, u16>, lines: Seq<SourceLine>, orig: u16) -> Emission {
    emit_prefix(table, lines, orig, lines.len())
}

/// Encodes the program that the first pass resolved: the words from the
/// origin up to the terminator, and the problems found on the way.
pub fn encode(first_pass: &FirstPassResult) -> (r: EncodeResult)
    requires
        first_pass.symbol_table.wf(),
    ensures
        r.machine_code@ == emit_all(first_pass.symbol_table@, first_pass.source_lines@, first_pass.orig_address).words,
        diags(r.errors@) == emit_all(first_pass.symbol_table@, first_pass.source_lines@, first_pass.orig_address).diags,
        r.orig_address == first_pass.orig_address,
{
    let table = &first_pass.symbol_table;
    let lines = &first_pass.source_lines;
    let mut encoder = Encoder::new(first_pass.orig_address);
    let mut i: usize = 0;
    assert(diags(encoder.errors@) =~= Seq::<Diag>::empty());
    assert(encoder.machine_code@ =~= Seq::<u16>::empty());
    while i < lines.len()
        invariant
            table.wf(),
            i <= lines@.len(),
            encoder.orig_address == first_pass.orig_address,
            emit_prefix(table@, lines@, first_pass.orig_address, i as nat) == (Emission {
                words: encoder.machine_code@,
                diags: diags(encoder.errors@),
                addr: encoder.current_address,
                done: encoder.done,
            }),
        decreases lines@.len() - i,
    {
        encoder.encode_line(table, &lines[i]);
        i = i + 1;
    }
    EncodeResult { machine_code: encoder.machine_code, orig_address: encoder.orig_address, errors: encoder.errors }
}

struct Encoder {
    machine_code: Vec<u16>,
    orig_address: u16,
    current_address: u16,
    errors: Vec<AsmError>,
    done: bool,
}

impl Encoder {
    fn new(orig_address: u16) -> (r: Self)
        ensures
            r.machine_code@.len() == 0,
            r.errors@.len() == 0,
            r.orig_address == orig_address,
            r.current_address == orig_address,
            !r.done,
    {
        Encoder { machine_code: Vec::new(), orig_address, current_address: orig_address, errors: Vec::new(), done: false }
    }

    spec fn emission(&self) -> Emission {
        Emission { words: self.machine_code@, diags: diags(self.errors@), addr: self.current_address, done: self.done }
    }

    fn emit(&mut self, word: u16)
        ensures
            final(self).machine_code@ == old(self).machine_code@.push(word),
            final(self).current_address == ((old(self).current_address as int + 1) % 0x10000) as u16,
            final(self).errors == old(self).errors,
            final(self).orig_address == old(self).orig_address,
            final(self).done == old(self).done,
    {
        self.machine_code.push(word);
        self.current_address = self.current_address.wrapping_add(1);
    }

    fn encode_line(&mut self, table: &SymbolTable, line: &SourceLine)
        requires
            table.wf(),
        ensures
            final(self).emission() == emit_step(table@, old(self).emission(), *line),
            final(self).orig_address == old(self).orig_address,
    {
        if self.done {
            return;
        }
        let ghost start = self.emission();
        let ghost out = line_output(table@, *line, start.addr);
        match &line.content {
            LineContent::Empty => {},
            LineContent::Orig(_) => {},
            LineContent::End => {
                self.done = true;
                return;
            },
            LineContent::FillImmediate(value) => {
                self.emit(*value as u16);
            },
            LineContent::FillLabel(label) => match table.get(label.as_str()) {
                Some(addr) => self.emit(addr),
                None => {
                    push_error(&mut self.errors, AsmError::undefined_label(label.as_str(), line.span));
                    self.emit(0);
                },
            },
            LineContent::Blkw(count) => {
                let mut k: u16 = 0;
                while k < *count
                    invariant
                        k <= *count,
                        self.machine_code@ == start.words + Seq::new(k as nat, |i: int| 0u16),
                        self.current_address == ((start.addr as int + k) % 0x10000) as u16,
                        diags(self.errors@) == start.diags,
                        self.done == start.done,
                        self.orig_address == old(self).orig_address,
                    decreases *count - k,
                {
                    self.emit(0);
                    proof {
                        assert(start.words + Seq::new((k + 1) as nat, |i: int| 0u16) =~= (start.words + Seq::new(k as nat, |i: int| 0u16)).push(0u16));
                    }
                    k = k + 1;
                }
            },
            LineContent::Stringz(s) => {
                self.encode_string(s.as_str(), line.span);
            },
            LineContent::Instruction(inst) => {
                self.encode_instruction(table, inst, line.span);
            },
        }
        proof {
            assert(self.machine_code@ =~= start.words + out.0);
            assert(diags(self.errors@) =~= start.diags + out.1);
        }
    }

    fn encode_string(&mut self, s: &str, span: Span)
        ensures
            final(self).machine_code@ == old(self).machine_code@ + s@.map_values(|c: char| char_word(c)).push(0u16),
            diags(final(self).errors@) == diags(old(self).errors@) + string_diags(s@, span),
            final(self).current_address == ((old(self).current_address as int + s@.len() + 1) % 0x10000) as u16,
            final(self).orig_address == old(self).orig_address,
            final(self).done == old(self).done,
    {
        let cs = chars_of(s);
        let mut i: usize = 0;
        while i < cs.len()
            invariant
                cs@ == s@,
                i <= cs@.len(),
                self.machine_code@ == old(self).machine_code@ + cs@.subrange(0, i as int).map_values(|c: char| char_word(c)),
                diags(self.errors@) == diags(old(self).errors@) + string_diags(cs@.subrange(0, i as int), span),
                self.current_address == ((old(self).current_address as int + i) % 0x10000) as u16,
                self.orig_address == old(self).orig_address,
                self.done == old(self).done,
            decreases cs@.len() - i,
        {
            let ch = cs[i];
            let ghost pre = cs@.subrange(0, i as int);
            proof {
                assert(cs@.subrange(0, i + 1).drop_last() =~= pre);
                assert(cs@.subrange(0, i + 1).last() == ch);
            }
            let code = ch as u32;
            if code >= 128 {
                push_error(&mut self.errors, AsmError::non_ascii_in_stringz(ch, span));
            }
            self.emit((code % 256) as u16);
            proof {
                assert(cs@.subrange(0, i + 1).map_values(|c: char| char_word(c)) =~= pre.map_values(|c: char| char_word(c)).push(char_word(ch)));
                assert(diags(self.errors@) =~= diags(old(self).errors@) + string_diags(cs@.subrange(0, i + 1), span));
            }
            i = i + 1;
        }
        proof {
            assert(cs@.subrange(0, i as int) =~= s@);
        }
        self.emit(0);
        proof {
            assert(self.machine_code@ =~= old(self).machine_code@ + s@.map_values(|c: char| char_word(c)).push(0u16));
        }
    }

    fn encode_instruction(&mut self, table: &SymbolTable, inst: &Instruction, span: Span)
        requires
            table.wf(),
        ensures
            final(self).machine_code@ == old(self).machine_code@.push(instruction_word(table@, *inst, old(self).current_address, span).0),
            diags(final(self).errors@) == diags(old(self).errors@) + instruction_word(table@, *inst, old(self).current_address, span).1,
            final(self).current_address == ((old(self).current_address as int + 1) % 0x10000) as u16,
            final(self).orig_address == old(self).orig_address,
            final(self).done == old(self).done,
    {
        let ghost d0 = diags(self.errors@);
        let encoded = match inst {
            Instruction::AddReg { dr, sr1, sr2 } => (OP_ADD << 12u16) | ((*dr as u16) << 9u16) | ((*sr1 as u16) << 6u16) | (*sr2 as u16),
            Instruction::AddImm { dr, sr1, imm5 } => {
                let imm = sign_extend(*imm5, 5);
                (OP_ADD << 12u16) | ((*dr as u16) << 9u16) | ((*sr1 as u16) << 6u16) | (0x20u16 | imm)
            },
            Instruction::AndReg { dr, sr1, sr2 } => (OP_AND << 12u16) | ((*dr as u16) << 9u16) | ((*sr1 as u16) << 6u16) | (*sr2 as u16),
            Instruction::AndImm { dr, sr1, imm5 } => {
                let imm = sign_extend(*imm5, 5);
                (OP_AND << 12u16) | ((*dr as u16) << 9u16) | ((*sr1 as u16) << 6u16) | (0x20u16 | imm)
            },
            Instruction::Not { dr, sr } => (OP_NOT << 12u16) | ((*dr as u16) << 9u16) | ((*sr as u16) << 6u16) | 0x3Fu16,
            Instruction::Ld { dr, label } => {
                let offset = self.calc_pc_offset(table, label.as_str(), 9, span);
                (OP_LD << 12u16) | ((*dr as u16) << 9u16) | offset
            },
            Instruction::Ldi { dr, label } => {
                let offset = self.calc_pc_offset(table, label.as_str(), 9, span);
                (OP_LDI << 12u16) | ((*dr as u16) << 9u16) | offset
            },
            Instruction::Lea { dr, label } => {
                let offset = self.calc_pc_offset(table, label.as_str(), 9, span);
                (OP_LEA << 12u16) | ((*dr as u16) << 9u16) | offset
            },
            Instruction::St { sr, label } => {
                let offset = self.calc_pc_offset(table, label.as_str(), 9, span);
                (OP_ST << 12u16) | ((*sr as u16) << 9u16) | offset
            },
            Instruction::Sti { sr, label } => {
                let offset = self.calc_pc_offset(table, label.as_str(), 9, span);
                (OP_STI << 12u16) | ((*sr as u16) << 9u16) | offset
            },
            Instruction::Ldr { dr, base_r, offset6 } => {
                let offset = sign_extend(*offset6, 6);
                (OP_LDR << 12u16) | ((*dr as u16) << 9u16) | ((*base_r as u16) << 6u16) | offset
            },
            Instruction::Str { sr, base_r, offset6 } => {
                let offset = sign_extend(*offset6, 6);
                (OP_STR << 12u16) | ((*sr as u16) << 9u16) | ((*base_r as u16) << 6u16) | offset
            },
            Instruction::Br { flags, label } => {
                let offset = self.calc_pc_offset(table, label.as_str(), 9, span);
                (OP_BR << 12u16) | (flags.as_u16() << 9u16) | offset
            },
            Instruction::Jmp { base_r } => (OP_JMP << 12u16) | ((*base_r as u16) << 6u16),
            Instruction::Ret => (OP_JMP << 12u16) | (7u16 << 6u16),
            Instruction::Jsr { label } => {
                let offset = self.calc_pc_offset(table, label.as_str(), 11, span);
                (OP_JSR << 12u16) | (1u16 << 11u16) | offset
            },
            Instruction::Jsrr { base_r } => (OP_JSR << 12u16) | ((*base_r as u16) << 6u16),
            Instruction::Trap { trapvect8 } => (OP_TRAP << 12u16) | (*trapvect8 as u16),
            Instruction::Getc => TRAP_GETC,
            Instruction::Out => TRAP_OUT,
            Instruction::Puts => TRAP_PUTS,
            Instruction::In => TRAP_IN,
            Instruction::Putsp => TRAP_PUTSP,
            Instruction::Halt => TRAP_HALT,
            Instruction::Rti => OP_RTI << 12u16,
        };
        proof {
            let w = instruction_word(table@, *inst, old(self).current_address, span);
            assert(encoded == w.0);
            assert(diags(self.errors@) =~= d0 + w.1);
        }
        self.emit(encoded);
    }

    /// The PC-relative field of a reference to `label` from the current
    /// address, in a field of `bits` bits. An undefined label or an offset
    /// out of range is diagnosed and gives zero.
    fn calc_pc_offset(&mut self, table: &SymbolTable, label: &str, bits: u8, span: Span) -> (r: u16)
        requires
            table.wf(),
            bits == 9 || bits == 11,
        ensures
            r == pc_field(table@, label@, old(self).current_address, bits, span).0,
            diags(final(self).errors@) == diags(old(self).errors@) + pc_field(table@, label@, old(self).current_address, bits, span).1,
            final(self).machine_code == old(self).machine_code,
            final(self).current_address == old(self).current_address,
            final(self).orig_address == old(self).orig_address,
            final(self).done == old(self).done,
    {
        let ghost d0 = diags(self.errors@);
        let half: i32 = if bits == 9 { 256 } else { 1024 };
        match table.get(label) {
            Some(target_addr) => {
                let pc = self.current_address.wrapping_add(1);
                let offset: i32 = (target_addr as i32) - (pc as i32);
                if offset < -half || offset > half - 1 {
                    let mut m = chars_of("PC offset ");
                    push_int(&mut m, offset as i64);
                    push_str(&mut m, " to label '");
                    push_str(&mut m, label);
                    push_str(&mut m, "' exceeds ");
                    push_nat(&mut m, bits as u128);
                    push_str(&mut m, "-bit range [");
                    push_int(&mut m, -half as i64);
                    push_str(&mut m, ", ");
                    push_int(&mut m, (half - 1) as i64);
                    push_str(&mut m, "]");
                    proof {
                        assert(m@ =~= range_text(offset as int, label@, bits));
                    }
                    push_error(&mut self.errors, AsmError::from_chars(ErrorKind::OffsetOutOfRange, &m, span));
                    proof {
                        assert(diags(self.errors@) =~= d0 + pc_field(table@, label@, old(self).current_address, bits, span).1);
                    }
                    0
                } else {
                    proof {
                        assert(diags(self.errors@) =~= d0 + Seq::<Diag>::empty());
                    }
                    if offset >= 0 {
                        offset as u16
                    } else {
                        (offset + 2 * half) as u16
                    }
                }
            },
            None => {
                push_error(&mut self.errors, AsmError::undefined_label(label, span));
                proof {
                    assert(diags(self.errors@) =~= d0 + pc_field(table@, label@, old(self).current_address, bits, span).1);
                }
                0
            },
        }
    }
}

/// The low `bits` bits of the 16-bit two's-complement pattern of `value`:
/// -1 in five bits is 0b11111.
pub fn sign_extend(value: i16, bits: u8) -> (r: u16)
    requires
        bits < 16,
    ensures
        r == low_bits(value, bits as nat),
{
    proof {
        vstd::bits::lemma_u16_pow2_no_overflow(bits as nat);
        vstd::bits::lemma_u16_shl_is_mul(1u16, bits as u16);
    }
    let m: u16 = 1u16 << (bits as u16);
    (value as u16) % m
}

} // verus!

verus! {

/// Offsets at the edges of a 9-bit field: +255 and -256 encode without a
/// diagnostic, +256 and -257 each raise exactly one range diagnostic and leave
/// the field zero.
pub proof fn lemma_nine_bit_boundary(table: Map<Seq<char>, u16>, label: Seq<char>, addr: u16, span: Span)
    requires
        table.contains_key(label),
    ensures
        pc_offset(table[label], addr) == 255 ==> pc_field(table, label, addr, 9, span) == (0xFFu16, Seq::<Diag>::empty()),
        pc_offset(table[label], addr) == -256 ==> pc_field(table, label, addr, 9, span) == (0x100u16, Seq::<Diag>::empty()),
        (pc_offset(table[label], addr) == 256 || pc_offset(table[label], addr) == -257) ==> {
            &&& pc_field(table, label, addr, 9, span).0 == 0
            &&& pc_field(table, label, addr, 9, span).1.len() == 1
            &&& pc_field(table, label, addr, 9, span).1[0].kind == ErrorKind::OffsetOutOfRange
        },
{
}

/// Encoding depends on nothing but the program: the same lines give the same
/// symbols, words and diagnostics every time.
pub proof fn lemma_assembly_deterministic(a: Seq<SourceLine>, b: Seq<SourceLine>)
    requires
        a == b,
    ensures
        resolve(a) == resolve(b),
        emit_all(resolve(a).symbols, a, resolve(a).orig) == emit_all(resolve(b).symbols, b, resolve(b).orig),
{
}

proof fn lemma_words_grow(table: Map<Seq<char>, u16>, lines: Seq<SourceLine>, orig: u16, j: nat, k: nat)
    requires
        j <= k <= lines.len(),
    ensures
        emit_prefix(table, lines, orig, j).words.len() <= emit_prefix(table, lines, orig, k).words.len(),
        emit_prefix(table, lines, orig, j).words == emit_prefix(table, lines, orig, k).words.subrange(
            0,
            emit_prefix(table, lines, orig, j).words.len() as int,
        ),
    decreases k,
{
    if k > j {
        lemma_words_grow(table, lines, orig, j, (k - 1) as nat);
        let a = emit_prefix(table, lines, orig, j).words;
        let b = emit_prefix(table, lines, orig, (k - 1) as nat).words;
        let c = emit_prefix(table, lines, orig, k).words;
        assert(c.subrange(0, b.len() as int) =~= b);
        assert(c.subrange(0, a.len() as int) =~= b.subrange(0, a.len() as int));
    } else {
        let a = emit_prefix(table, lines, orig, j).words;
        assert(a.subrange(0, a.len() as int) =~= a);
    }
}

/// The encoder's address is always the origin plus the words emitted so
/// far: the instruction whose word has index `k` lies at `orig + k`.
pub proof fn lemma_emit_address(table: Map<Seq<char>, u16>, lines: Seq<SourceLine>, orig: u16, k: nat)
    requires
        k <= lines.len(),
    ensures
        emit_prefix(table, lines, orig, k).addr == ((orig as int + emit_prefix(table, lines, orig, k).words.len()) % 0x10000) as u16,
    decreases k,
{
    if k > 0 {
        lemma_emit_address(table, lines, orig, (k - 1) as nat);
        let a = emit_prefix(table, lines, orig, (k - 1) as nat);
        let out = line_output(table, lines[k - 1], a.addr);
        vstd::arithmetic::div_mod::lemma_add_mod_noop_right(out.0.len() as int, orig as int + a.words.len(), 0x10000);
        assert((a.addr as int + out.0.len()) % 0x10000 == (orig as int + a.words.len() + out.0.len()) % 0x10000);
    } else {
        assert(orig as int % 0x10000 == orig as int);
    }
}

/// A label `n` words past the instruction that references it gives a raw
/// offset of `n - 1`, since the program counter has already moved past the
/// instruction; in a 9-bit field that encodes without a diagnostic for
/// every `n` from 1 to 256.
pub proof fn lemma_offset_distance(table: Map<Seq<char>, u16>, label: Seq<char>, addr: u16, n: int, span: Span)
    requires
        table.contains_key(label),
        1 <= n <= 256,
        table[label] == addr + n,
    ensures
        pc_offset(table[label], addr) == n - 1,
        pc_field(table, label, addr, 9, span) == ((n - 1) as u16, Seq::<Diag>::empty()),
{
}

/// Offsets in a whole program: when the word of index `k` comes from a
/// 9-bit PC-relative instruction on line `i` whose label is bound `n` words
/// past it, that word is encoded with offset field `n - 1` and the line adds
/// no diagnostic.
pub proof fn lemma_program_offset(
    table: Map<Seq<char>, u16>,
    lines: Seq<SourceLine>,
    orig: u16,
    i: int,
    label: Seq<char>,
    n: int,
)
    requires
        0 <= i < lines.len(),
        !emit_prefix(table, lines, orig, i as nat).done,
        lines[i].content matches LineContent::Instruction(inst) && pc9_label(inst) == Some(label),
        table.contains_key(label),
        1 <= n <= 256,
        orig as int + emit_prefix(table, lines, orig, i as nat).words.len() + n <= 0xFFFF,
        table[label] == orig as int + emit_prefix(table, lines, orig, i as nat).words.len() + n,
    ensures
        ({
            let k = emit_prefix(table, lines, orig, i as nat).words.len() as int;
            let addr = (orig as int + k) as u16;
            let inst = lines[i].content->Instruction_0;
            &&& emit_all(table, lines, orig).words[k] == instruction_word(table, inst, addr, lines[i].span).0
            &&& pc_field(table, label, addr, 9, lines[i].span) == ((n - 1) as u16, Seq::<Diag>::empty())
            &&& instruction_word(table, inst, addr, lines[i].span).1.len() == 0
        }),
{
    let before = emit_prefix(table, lines, orig, i as nat);
    let k = before.words.len() as int;
    lemma_emit_address(table, lines, orig, i as nat);
    assert((orig as int + k) % 0x10000 == orig as int + k);
    let addr = (orig as int + k) as u16;
    assert(before.addr == addr);
    lemma_offset_distance(table, label, addr, n, lines[i].span);
    let after = emit_prefix(table, lines, orig, (i + 1) as nat);
    assert(after.words[k] == instruction_word(table, lines[i].content->Instruction_0, addr, lines[i].span).0);
    lemma_words_grow(table, lines, orig, (i + 1) as nat, lines.len());
}

/// The label of an instruction with a 9-bit PC-relative field.
pub open spec fn pc9_label(inst: Instruction) -> Option<Seq<char>> {
    match inst {
        Instruction::Ld { label, .. } => Some(label@),
        Instruction::Ldi { label, .. } => Some(label@),
        Instruction::Lea { label, .. } => Some(label@),
        Instruction::St { label, .. } => Some(label@),
        Instruction::Sti { label, .. } => Some(label@),
        Instruction::Br { label, .. } => Some(label@),
        _ => None,
    }
}

} // verus!

verus! {

/// Every line yields exactly as many words as the first pass counts for it,
/// whatever diagnostics it raises.
pub proof fn lemma_line_size(table: Map<Seq<char>, u16>, line: SourceLine, addr: u16)
    ensures
        line_output(table, line, addr).0.len() == crate::parser::ast::words_of(line.content),
{
}

proof fn lemma_prefix_size(table: Map<Seq<char>, u16>, lines: Seq<SourceLine>, orig: u16, k: int)
    requires
        0 <= k <= lines.len(),
        forall|i: int| 0 <= i < k ==> !((#[trigger] lines[i].content) is End),
    ensures
        emit_prefix(table, lines, orig, k as nat).words.len() == crate::first_pass::words_between(lines, 0, k),
        !emit_prefix(table, lines, orig, k as nat).done,
    decreases k,
{
    if k > 0 {
        lemma_prefix_size(table, lines, orig, k - 1);
        lemma_line_size(table, lines[k - 1], emit_prefix(table, lines, orig, (k - 1) as nat).addr);
    }
}

proof fn lemma_blank_words(lines: Seq<SourceLine>, p: int, k: int)
    requires
        0 <= k <= p + 1 <= lines.len(),
        forall|i: int| 0 <= i < p ==> (#[trigger] lines[i].content) is Empty,
        lines[p].content is Orig,
    ensures
        crate::first_pass::words_between(lines, 0, k) == 0,
    decreases k,
{
    if k > 0 {
        lemma_blank_words(lines, p, k - 1);
    }
}

/// Encoding never changes a program's size: for a program framed by its
/// origin and terminator, the encoder emits exactly the words of the body
/// lines, the count by which the first pass advanced its location counter.
pub proof fn lemma_encoded_size(table: Map<Seq<char>, u16>, lines: Seq<SourceLine>, orig: u16, p: int, e: int)
    requires
        crate::first_pass::well_framed(lines, p, e),
    ensures
        emit_all(table, lines, orig).words.len() == crate::first_pass::words_between(lines, p + 1, e),
{
    lemma_prefix_size(table, lines, orig, e);
    lemma_blank_words(lines, p, p + 1);
    crate::first_pass::lemma_words_split(lines, 0, p + 1, e);
    lemma_done_stays(table, lines, orig, e);
}

proof fn lemma_done_stays(table: Map<Seq<char>, u16>, lines: Seq<SourceLine>, orig: u16, e: int)
    requires
        0 <= e < lines.len(),
        lines[e].content is End,
        !emit_prefix(table, lines, orig, e as nat).done,
    ensures
        emit_all(table, lines, orig).words == emit_prefix(table, lines, orig, e as nat).words,
{
    lemma_done_from(table, lines, orig, e, lines.len() as int);
}

proof fn lemma_done_from(table: Map<Seq<char>, u16>, lines: Seq<SourceLine>, orig: u16, e: int, k: int)
    requires
        0 <= e < k <= lines.len(),
        lines[e].content is End,
        !emit_prefix(table, lines, orig, e as nat).done,
    ensures
        emit_prefix(table, lines, orig, k as nat).done,
        emit_prefix(table, lines, orig, k as nat).words == emit_prefix(table, lines, orig, e as nat).words,
    decreases k,
{
    if k > e + 1 {
        lemma_done_from(table, lines, orig, e, k - 1);
    }
}

} // verus!
