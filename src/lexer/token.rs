//! Token types of the LC-3 assembly language.
use crate::error::Span;
use crate::text::chars_of;
use vstd::prelude::*;

verus! {

/// A single lexical token: its kind, its text as written, and where it starts.
#[derive(Debug, Clone, PartialEq)]
pub struct Token {
    pub kind: TokenKind,
    pub lexeme: String,
    pub span: Span,
}

/// Token types of LC-3 assembly.
#[derive(Debug, Clone, PartialEq)]
pub enum TokenKind {
    OpAdd,
    OpAnd,
    OpNot,
    OpBr(BrFlags),
    OpJmp,
    OpJsr,
    OpJsrr,
    OpLd,
    OpLdi,
    OpLdr,
    OpLea,
    OpSt,
    OpSti,
    OpStr,
    OpTrap,
    OpRti,
    PseudoRet,
    PseudoGetc,
    PseudoOut,
    PseudoPuts,
    PseudoIn,
    PseudoPutsp,
    PseudoHalt,
    DirOrig,
    DirEnd,
    DirFill,
    DirBlkw,
    DirStringz,
    Register(u8),
    NumDecimal(i32),
    NumHex(i32),
    NumBinary(i32),
    NumOctal(i32),
    StringLiteral(String),
    Label(String),
    Comma,
    Newline,
    Comment(String),
    Eof,
}

/// Condition flags of a BR instruction: branch on negative, zero, positive.
#[derive(Debug, Clone, Copy, PartialEq, Eq, Structural)]
pub struct BrFlags {
    pub n: bool,
    pub z: bool,
    pub p: bool,
}

/// Whether `c` may follow "BR" in a branch mnemonic.
pub open spec fn is_flag_char(c: char) -> bool {
    c == 'N' || c == 'Z' || c == 'P'
}

/// The flags that an upper-case word names, when it is a branch mnemonic: "BR"
/// followed by any of N, Z, P. A bare "BR" branches always.
pub open spec fn br_flags_of(s: Seq<char>) -> Option<BrFlags> {
    if s.len() >= 2 && s[0] == 'B' && s[1] == 'R' && (forall|i: int|
        2 <= i < s.len() ==> is_flag_char(#[trigger] s[i])) {
        if s.len() == 2 {
            Some(BrFlags { n: true, z: true, p: true })
        } else {
            Some(
                BrFlags {
                    n: s.subrange(2, s.len() as int).contains('N'),
                    z: s.subrange(2, s.len() as int).contains('Z'),
                    p: s.subrange(2, s.len() as int).contains('P'),
                },
            )
        }
    } else {
        None
    }
}

/// The 3-bit field [N][Z][P] of a branch instruction.
pub open spec fn flag_bits(f: BrFlags) -> u16 {
    ((if f.n { 4int } else { 0int }) + (if f.z { 2int } else { 0int }) + (if f.p { 1int } else { 0int })) as u16
}

/// Whether a token kind starts an instruction or a directive.
pub open spec fn starts_statement(k: TokenKind) -> bool {
    match k {
        TokenKind::Register(_) | TokenKind::NumDecimal(_) | TokenKind::NumHex(_)
        | TokenKind::NumBinary(_) | TokenKind::NumOctal(_) | TokenKind::StringLiteral(_)
        | TokenKind::Label(_) | TokenKind::Comma | TokenKind::Newline | TokenKind::Comment(_)
        | TokenKind::Eof => false,
        _ => true,
    }
}

proof fn lemma_push_contains(s: Seq<char>, c: char, x: char)
    ensures
        s.push(c).contains(x) == (s.contains(x) || c == x),
{
    if s.contains(x) {
        let j = choose|j: int| 0 <= j < s.len() && s[j] == x;
        assert(s.push(c)[j] == x);
    }
    if c == x {
        assert(s.push(c)[s.len() as int] == x);
    }
    if s.push(c).contains(x) {
        let j = choose|j: int| 0 <= j < s.push(c).len() && s.push(c)[j] == x;
        if j < s.len() {
            assert(s[j] == x);
        }
    }
}

impl BrFlags {
    pub fn new(n: bool, z: bool, p: bool) -> (r: Self)
        ensures
            r == (BrFlags { n, z, p }),
    {
        BrFlags { n, z, p }
    }

    /// Parses an upper-case branch mnemonic such as "BR", "BRN" or "BRNZP".
    pub fn parse(s: &str) -> (r: Option<Self>)
        ensures
            r == br_flags_of(s@),
    {
        let cs = chars_of(s);
        if cs.len() < 2 || cs[0] != 'B' || cs[1] != 'R' {
            return None;
        }
        if cs.len() == 2 {
            return Some(Self::new(true, true, true));
        }
        let ghost rest = cs@.subrange(2, cs@.len() as int);
        let mut n = false;
        let mut z = false;
        let mut p = false;
        let mut i: usize = 2;
        while i < cs.len()
            invariant
                2 <= i <= cs.len(),
                cs@ == s@,
                rest == cs@.subrange(2, cs@.len() as int),
                forall|j: int| 2 <= j < i ==> is_flag_char(#[trigger] cs@[j]),
                n == cs@.subrange(2, i as int).contains('N'),
                z == cs@.subrange(2, i as int).contains('Z'),
                p == cs@.subrange(2, i as int).contains('P'),
            decreases cs.len() - i,
        {
            let c = cs[i];
            proof {
                assert(cs@.subrange(2, i + 1) =~= cs@.subrange(2, i as int).push(c));
                lemma_push_contains(cs@.subrange(2, i as int), c, 'N');
                lemma_push_contains(cs@.subrange(2, i as int), c, 'Z');
                lemma_push_contains(cs@.subrange(2, i as int), c, 'P');
            }
            if c == 'N' {
                n = true;
            } else if c == 'Z' {
                z = true;
            } else if c == 'P' {
                p = true;
            } else {
                return None;
            }
            i = i + 1;
        }
        proof {
            assert(cs@.subrange(2, i as int) =~= rest);
        }
        Some(Self::new(n, z, p))
    }

    /// The flags as the 3-bit value [N][Z][P].
    pub fn as_u16(&self) -> (r: u16)
        ensures
            r == flag_bits(*self),
            r < 8,
    {
        (if self.n { 4u16 } else { 0u16 }) + (if self.z { 2u16 } else { 0u16 }) + (if self.p { 1u16 } else { 0u16 })
    }

    /// The flags as written after "BR", in lower case: "n", "z", "p" in that order.
    pub fn suffix(&self) -> (r: String)
        ensures
            r@ == (if self.n { seq!['n'] } else { Seq::empty() }) + (if self.z { seq!['z'] } else { Seq::empty() })
                + (if self.p { seq!['p'] } else { Seq::empty() }),
    {
        let mut v: Vec<char> = Vec::new();
        if self.n {
            v.push('n');
        }
        if self.z {
            v.push('z');
        }
        if self.p {
            v.push('p');
        }
        proof {
            assert(v@ =~= (if self.n { seq!['n'] } else { Seq::empty() }) + (if self.z { seq!['z'] } else { Seq::empty() })
                + (if self.p { seq!['p'] } else { Seq::empty() }));
        }
        crate::text::string_of(&v)
    }
}

impl TokenKind {
    /// Whether this kind is an opcode, a pseudo-op or a directive.
    pub fn is_instruction_or_directive(&self) -> (r: bool)
        ensures
            r == starts_statement(*self),
    {
        match self {
            TokenKind::Register(_) | TokenKind::NumDecimal(_) | TokenKind::NumHex(_)
            | TokenKind::NumBinary(_) | TokenKind::NumOctal(_) | TokenKind::StringLiteral(_)
            | TokenKind::Label(_) | TokenKind::Comma | TokenKind::Newline | TokenKind::Comment(_)
            | TokenKind::Eof => false,
            _ => true,
        }
    }
}

} // verus!
