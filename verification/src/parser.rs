//! The recursive-descent parser: one function per grammar production,
//! working by peek/accept/expect over a token cursor and driving the
//! emitter as each instruction is recognized.
//!
//! ```text
//! document := (line)*
//! line     := Newline | label? instr (instr)* Newline
//! instr    := alu_instr | mov_instr | clr_instr | loop_instr | end_instr
//! ```

use crate::emitter::{word_of_bits, CountsModel, InstrType, ProgModel, Program};
use crate::errors::AsmError;
use crate::tokeniser::{models_of, token_model, ScuDspToken};
use vstd::prelude::*;

verus! {

/// A peekable, single-pass view over the lexer's output.
pub struct Cursor<'a> {
    /// The whole token sequence of the document.
    pub tokens: &'a Vec<ScuDspToken>,
    /// Position of the next token to be consumed.
    pub pos: usize,
}

impl<'a> Cursor<'a> {
    /// The token sequence this cursor walks.
    pub open spec fn toks(&self) -> Seq<ScuDspToken> {
        self.tokens@
    }

    /// True while tokens remain.
    pub open spec fn has(&self) -> bool {
        self.pos < self.tokens@.len()
    }

    /// The token at the current position.
    pub open spec fn head(&self) -> ScuDspToken
        recommends
            self.has(),
    {
        self.tokens@[self.pos as int]
    }

    /// A cursor at the start of the given token sequence.
    pub fn new(tokens: &'a Vec<ScuDspToken>) -> (r: Cursor<'a>)
        ensures
            r.toks() == tokens@,
            r.pos == 0,
    {
        Cursor { tokens, pos: 0 }
    }

    /// True when every token has been consumed.
    pub fn at_end(&self) -> (r: bool)
        ensures
            r == !self.has(),
    {
        self.pos >= self.tokens.len()
    }

    /// The token at the current position, without removing it.
    pub fn peek_dup(&self) -> (r: ScuDspToken)
        requires
            self.has(),
        ensures
            r == self.head(),
    {
        self.tokens[self.pos].dup()
    }

    /// Consumes one token.
    pub fn advance(&mut self)
        requires
            old(self).has(),
        ensures
            final (self).toks() == old(self).toks(),
            final (self).pos == old(self).pos + 1,
    {
        if self.pos < self.tokens.len() {
            self.pos = self.pos + 1;
        }
    }

    /// Consumes the current token when it equals `tok`; reports whether it
    /// did.
    pub fn accept(&mut self, tok: &ScuDspToken) -> (r: bool)
        requires
            tok.is_plain(),
        ensures
            final (self).toks() == old(self).toks(),
            old(self).has() && old(self).head() == *tok ==> r
                && final (self).pos == old(self).pos + 1,
            !(old(self).has() && old(self).head() == *tok) ==> !r
                && final (self).pos == old(self).pos,
    {
        if self.pos < self.tokens.len() {
            if self.tokens[self.pos].matches_plain(tok) {
                self.pos = self.pos + 1;
                return true;
            }
        }
        false
    }

    /// Requires the current token to equal `tok` and consumes it; anything
    /// else is a syntax error naming both tokens, and an exhausted stream is
    /// reported as such.
    pub fn expect(&mut self, tok: &ScuDspToken) -> (r: Result<(), AsmError>)
        requires
            tok.is_plain(),
        ensures
            final (self).toks() == old(self).toks(),
            ({
                let (np, res) = expect_outcome(old(self).toks(), old(self).pos as int, *tok);
                final (self).pos == np && r == res
            }),
    {
        if self.accept(tok) {
            return Ok(());
        }
        if self.pos >= self.tokens.len() {
            return Err(AsmError::UnexpectedEnd);
        }
        Err(AsmError::ExpectedToken { expected: tok.dup(), found: self.tokens[self.pos].dup() })
    }

    /// Returns, and removes, the token at the current position.
    pub fn token_pop(&mut self) -> (r: Result<ScuDspToken, AsmError>)
        ensures
            final (self).toks() == old(self).toks(),
            old(self).has() ==> r == Ok::<ScuDspToken, AsmError>(old(self).head())
                && final (self).pos == old(self).pos + 1,
            !old(self).has() ==> r == Err::<ScuDspToken, AsmError>(AsmError::UnexpectedEnd)
                && final (self).pos == old(self).pos,
    {
        if self.pos < self.tokens.len() {
            let t = self.tokens[self.pos].dup();
            self.pos = self.pos + 1;
            Ok(t)
        } else {
            Err(AsmError::UnexpectedEnd)
        }
    }
}

/// What `expect` does: consume a matching head token, or report the
/// mismatch (or the end of the stream) without consuming.
pub open spec fn expect_outcome(toks: Seq<ScuDspToken>, p: int, tok: ScuDspToken) -> (
    int,
    Result<(), AsmError>,
) {
    if p < toks.len() && toks[p] == tok {
        (p + 1, Ok(()))
    } else if p >= toks.len() {
        (p, Err(AsmError::UnexpectedEnd))
    } else {
        (p, Err(AsmError::ExpectedToken { expected: tok, found: toks[p] }))
    }
}

/// The ALU mnemonics.
pub open spec fn is_alu_token(t: ScuDspToken) -> bool {
    ||| t is Nop
    ||| t is And
    ||| t is Or
    ||| t is Xor
    ||| t is Add
    ||| t is Sub
    ||| t is Ad2
    ||| t is Sr
    ||| t is Rr
    ||| t is Sl
    ||| t is Rl
    ||| t is Rl8
}

/// The fixed bit pattern of each ALU mnemonic: its operation code in bits
/// 26 to 29 of the bundle word. `NOP` sets no bits at all.
pub open spec fn alu_word(t: ScuDspToken) -> u32
    recommends
        is_alu_token(t),
{
    match t {
        ScuDspToken::Nop => 0x0000_0000,
        ScuDspToken::And => 0x0400_0000,  // bit 26
        ScuDspToken::Or => 0x0800_0000,  // bit 27
        ScuDspToken::Xor => 0x0C00_0000,  // bits 26, 27
        ScuDspToken::Add => 0x1000_0000,  // bit 28
        ScuDspToken::Sub => 0x1400_0000,  // bits 26, 28
        ScuDspToken::Ad2 => 0x1800_0000,  // bits 27, 28
        ScuDspToken::Sr => 0x2000_0000,  // bit 29
        ScuDspToken::Rr => 0x2400_0000,  // bits 26, 29
        ScuDspToken::Sl => 0x2800_0000,  // bits 27, 29
        ScuDspToken::Rl => 0x2C00_0000,  // bits 26, 27, 29
        ScuDspToken::Rl8 => 0x3C00_0000,  // bits 26, 27, 28, 29
        _ => 0,
    }
}

/// The eight memory-operand tokens.
pub open spec fn is_mem_token(t: ScuDspToken) -> bool {
    ||| t is M0
    ||| t is M1
    ||| t is M2
    ||| t is M3
    ||| t is Mc0
    ||| t is Mc1
    ||| t is Mc2
    ||| t is Mc3
}

/// The 3-bit field value of a memory operand: its ordinal in the listed
/// order, `M0` = 0 through `MC3` = 7.
pub open spec fn mem_ordinal(t: ScuDspToken) -> u32
    recommends
        is_mem_token(t),
{
    match t {
        ScuDspToken::M0 => 0,
        ScuDspToken::M1 => 1,
        ScuDspToken::M2 => 2,
        ScuDspToken::M3 => 3,
        ScuDspToken::Mc0 => 4,
        ScuDspToken::Mc1 => 5,
        ScuDspToken::Mc2 => 6,
        ScuDspToken::Mc3 => 7,
        _ => 0,
    }
}

/// The destination bus of a memory-operand MOV.
#[derive(PartialEq, Eq, Structural, Clone, Copy, Debug)]
pub enum MovDestination {
    X,
    P,
    Y,
}

/// The destination-specific base bits of a memory-operand MOV: `X` sets
/// bit 25, `P` sets bits 23 and 24, and `Y` sets bit 19.
pub open spec fn mov_dest_base(d: MovDestination) -> u32 {
    match d {
        MovDestination::X => 0x0200_0000,  // bit 25
        MovDestination::P => 0x0180_0000,  // bits 23, 24
        MovDestination::Y => 0x0008_0000,  // bit 19
    }
}

/// The bit offset of a memory operand's 3-bit field, which depends on the
/// destination bus: `X` and `P` place it at bit 20, `Y` at bit 14.
pub open spec fn mov_dest_offset(d: MovDestination) -> u32 {
    match d {
        MovDestination::X => 20,
        MovDestination::P => 20,
        MovDestination::Y => 14,
    }
}

/// The full word a memory-operand MOV contributes: the destination base
/// bits with the operand's ordinal placed at the destination's bit offset.
pub open spec fn mov_word(d: MovDestination, t: ScuDspToken) -> u32
    recommends
        is_mem_token(t),
{
    mov_dest_base(d) | (mem_ordinal(t) << mov_dest_offset(d))
}

/// The value a numeric-literal digit denotes, if it is a digit of the
/// radix: `0`-`9`, and for hexadecimal also `a`-`f` and `A`-`F`.
pub open spec fn digit_value(c: char, radix: u32) -> Option<u32>
    recommends
        2 <= radix <= 16,
{
    let cv = c as u32;
    let d: u32 = if 48 <= cv && cv <= 57 {
        (cv - 48) as u32
    } else if 97 <= cv && cv <= 102 {
        (cv - 87) as u32
    } else if 65 <= cv && cv <= 70 {
        (cv - 55) as u32
    } else {
        255u32
    };
    if d < radix {
        Some(d)
    } else {
        None
    }
}

/// The value of a digit string in the given radix, most significant digit
/// first; `None` when the string is empty or holds a non-digit.
pub open spec fn digits_value(digits: Seq<char>, radix: u32) -> Option<int>
    recommends
        2 <= radix <= 16,
    decreases digits.len(),
{
    if digits.len() == 0 {
        None
    } else if digits.len() == 1 {
        match digit_value(digits[0], radix) {
            Some(d) => Some(d as int),
            None => None,
        }
    } else {
        match (digits_value(digits.drop_last(), radix), digit_value(digits.last(), radix)) {
            (Some(v), Some(d)) => Some(v * radix + d),
            _ => None,
        }
    }
}

/// The value a numeric-literal token denotes: `$` marks hexadecimal, `#`
/// decimal, `%` binary, and a bare literal is decimal. `None` when the
/// digits are malformed or the value does not fit in 32 bits.
pub open spec fn num_value(s: Seq<char>) -> Option<u32> {
    if s.len() > 0 && s[0] == '$' {
        num_digits_value(s.drop_first(), 16)
    } else if s.len() > 0 && s[0] == '#' {
        num_digits_value(s.drop_first(), 10)
    } else if s.len() > 0 && s[0] == '%' {
        num_digits_value(s.drop_first(), 2)
    } else {
        num_digits_value(s, 10)
    }
}

/// The value of a digit string, if well-formed and within 32 bits.
pub open spec fn num_digits_value(digits: Seq<char>, radix: u32) -> Option<u32> {
    match digits_value(digits, radix) {
        Some(v) => if v <= u32::MAX {
            Some(v as u32)
        } else {
            None
        },
        None => None,
    }
}

/// The emitter can take one more instruction: accumulation is active and no
/// counter is at its machine limit.
pub open spec fn can_issue(m: ProgModel) -> bool {
    &&& m.is_emitting
    &&& m.emitted < usize::MAX
    &&& m.counts.alu < usize::MAX
    &&& m.counts.xbus < usize::MAX
    &&& m.counts.ybus < usize::MAX
    &&& m.counts.flow < usize::MAX
}

/// What parsing an ALU instruction does: consume the mnemonic, OR its fixed
/// pattern into the bundle, and register the ALU slot.
pub open spec fn alu_outcome(toks: Seq<ScuDspToken>, p: int, m: ProgModel) -> (
    int,
    ProgModel,
    Result<(), AsmError>,
) {
    if p >= toks.len() {
        (p, m, Err(AsmError::UnexpectedEnd))
    } else if is_alu_token(toks[p]) {
        (p + 1, m.m_emit(alu_word(toks[p])).m_register(InstrType::Alu), Ok(()))
    } else {
        (p, m, Err(AsmError::BadAluInstruction { found: toks[p] }))
    }
}

/// What parsing a numeric literal does: consume the token and resolve its
/// text, without touching the emitter.
pub open spec fn num_outcome(toks: Seq<ScuDspToken>, p: int) -> (int, Result<u32, AsmError>) {
    if p >= toks.len() {
        (p, Err(AsmError::UnexpectedEnd))
    } else {
        match toks[p] {
            ScuDspToken::Num(s) => (
                p + 1,
                match num_value(s@) {
                    Some(v) => Ok(v),
                    None => Err(AsmError::MalformedNumber),
                },
            ),
            _ => (p, Err(AsmError::ExpectedNumber)),
        }
    }
}

/// What parsing a signed-immediate MOV source does: the literal must fit
/// the 8-bit signed range; the bit-field emission itself awaits hardware
/// documentation, so nothing is contributed to the bundle.
pub open spec fn simm_outcome(toks: Seq<ScuDspToken>, p: int) -> (int, Result<(), AsmError>) {
    let (np, nr) = num_outcome(toks, p);
    match nr {
        Err(e) => (np, Err(e)),
        Ok(v) => if v >= 127 {
            (np, Err(AsmError::ImmediateOutOfRange { value: v }))
        } else {
            (np, Ok(()))
        },
    }
}

/// What parsing `CLR A` does: consume both tokens, set bit 17, and register
/// the ALU slot (it shares the ALU issue slot).
pub open spec fn clr_outcome(toks: Seq<ScuDspToken>, p: int, m: ProgModel) -> (
    int,
    ProgModel,
    Result<(), AsmError>,
) {
    let (p1, r1) = expect_outcome(toks, p, ScuDspToken::Clr);
    if r1 is Err {
        (p1, m, r1)
    } else {
        let (p2, r2) = expect_outcome(toks, p1, ScuDspToken::A);
        if r2 is Err {
            (p2, m, r2)
        } else {
            (p2, m.m_emit(0x0002_0000).m_register(InstrType::Alu), Ok(()))  // bit 17
        }
    }
}

/// What parsing a loop instruction does: `BTM` sets bits 29-31, `LPS` adds
/// bit 27; both occupy the flow-control slot and must be followed
/// immediately by a line break, which is left unconsumed for the line
/// driver.
pub open spec fn loop_outcome(toks: Seq<ScuDspToken>, p: int, m: ProgModel) -> (
    int,
    ProgModel,
    Result<(), AsmError>,
) {
    if p >= toks.len() {
        (p, m, Err(AsmError::UnexpectedEnd))
    } else if toks[p] is Btm || toks[p] is Lps {
        let w: u32 = if toks[p] is Btm {
            0xE000_0000
        } else {
            0xE800_0000
        };
        let m2 = m.m_emit(w).m_register(InstrType::FlowControl);
        if p + 1 < toks.len() && toks[p + 1] is Newline {
            (p + 1, m2, Ok(()))
        } else {
            (p + 1, m2, Err(AsmError::ExpectedNewlineAfterLoop))
        }
    } else {
        (p, m, Err(AsmError::BadLoopInstruction { found: toks[p] }))
    }
}

/// What parsing an end instruction does: `END` sets bits 28-31, `ENDI` adds
/// bit 27; both occupy the flow-control slot and must be followed
/// immediately by a line break, which is left unconsumed for the line
/// driver.
pub open spec fn end_outcome(toks: Seq<ScuDspToken>, p: int, m: ProgModel) -> (
    int,
    ProgModel,
    Result<(), AsmError>,
) {
    if p >= toks.len() {
        (p, m, Err(AsmError::UnexpectedEnd))
    } else if toks[p] is End || toks[p] is Endi {
        let w: u32 = if toks[p] is End {
            0xF000_0000
        } else {
            0xF800_0000
        };
        let m2 = m.m_emit(w).m_register(InstrType::FlowControl);
        if p + 1 < toks.len() && toks[p + 1] is Newline {
            (p + 1, m2, Ok(()))
        } else {
            (p + 1, m2, Err(AsmError::ExpectedNewlineAfterEnd))
        }
    } else {
        (p, m, Err(AsmError::BadEndInstruction { found: toks[p] }))
    }
}

/// What parsing a MOV instruction does. After the mnemonic there are these
/// forms: `MUL, P` (bit 24, X-Bus), `ALU, A` (bit 18, Y-Bus), and
/// `<mem>, <X|P|Y>` (the memory operand's ordinal at the destination's bit
/// offset with the destination's base bits; X and P occupy the X-Bus slot,
/// Y the Y-Bus slot). A numeric literal in source position is the
/// signed-immediate form `SImm, <X|P|Y>`: the literal is range-checked but
/// contributes no bits.
pub open spec fn mov_outcome(toks: Seq<ScuDspToken>, p: int, m: ProgModel) -> (
    int,
    ProgModel,
    Result<(), AsmError>,
) {
    if p >= toks.len() {
        (p, m, Err(AsmError::UnexpectedEnd))
    } else if !(toks[p] is Mov) {
        (p, m, Err(AsmError::BadMovInstruction { found: toks[p] }))
    } else if p + 1 < toks.len() && toks[p + 1] is Mul {
        let (p2, r2) = expect_outcome(toks, p + 2, ScuDspToken::Comma);
        if r2 is Err {
            (p2, m, r2)
        } else {
            let (p3, r3) = expect_outcome(toks, p2, ScuDspToken::P);
            if r3 is Err {
                (p3, m, r3)
            } else {
                (p3, m.m_emit(0x0100_0000).m_register(InstrType::XBus), Ok(()))  // bit 24
            }
        }
    } else if p + 1 < toks.len() && toks[p + 1] is Alu {
        let (p2, r2) = expect_outcome(toks, p + 2, ScuDspToken::Comma);
        if r2 is Err {
            (p2, m, r2)
        } else {
            let (p3, r3) = expect_outcome(toks, p2, ScuDspToken::A);
            if r3 is Err {
                (p3, m, r3)
            } else {
                (p3, m.m_emit(0x0004_0000).m_register(InstrType::YBus), Ok(()))  // bit 18
            }
        }
    } else if p + 1 >= toks.len() {
        (p + 1, m, Err(AsmError::UnexpectedEnd))
    } else if toks[p + 1] is Num {
        // MOV SImm, [d]: the literal is range-checked; the bit emission
        // itself awaits hardware documentation, so nothing is contributed
        let (p2, r2) = simm_outcome(toks, p + 1);
        if r2 is Err {
            (p2, m, r2)
        } else {
            let (p3, r3) = expect_outcome(toks, p2, ScuDspToken::Comma);
            if r3 is Err {
                (p3, m, r3)
            } else if p3 < toks.len() && (toks[p3] is X || toks[p3] is P || toks[p3] is Y) {
                (p3 + 1, m, Ok(()))
            } else if p3 >= toks.len() {
                (p3, m, Err(AsmError::UnexpectedEnd))
            } else {
                (p3, m, Err(AsmError::IllegalMovDestination { found: toks[p3] }))
            }
        }
    } else {
        let src = toks[p + 1];
        let (p2, r2) = expect_outcome(toks, p + 2, ScuDspToken::Comma);
        if r2 is Err {
            (p2, m, r2)
        } else if p2 < toks.len() && toks[p2] is X {
            if is_mem_token(src) {
                (p2 + 1, m.m_emit(mov_word(MovDestination::X, src)).m_register(InstrType::XBus), Ok(()))
            } else {
                (p2 + 1, m, Err(AsmError::IllegalMovAddress { found: src }))
            }
        } else if p2 < toks.len() && toks[p2] is P {
            if is_mem_token(src) {
                (p2 + 1, m.m_emit(mov_word(MovDestination::P, src)).m_register(InstrType::XBus), Ok(()))
            } else {
                (p2 + 1, m, Err(AsmError::IllegalMovAddress { found: src }))
            }
        } else if p2 < toks.len() && toks[p2] is Y {
            if is_mem_token(src) {
                (p2 + 1, m.m_emit(mov_word(MovDestination::Y, src)).m_register(InstrType::YBus), Ok(()))
            } else {
                (p2 + 1, m, Err(AsmError::IllegalMovAddress { found: src }))
            }
        } else if p2 >= toks.len() {
            (p2, m, Err(AsmError::UnexpectedEnd))
        } else {
            (p2, m, Err(AsmError::IllegalMovSource { found: toks[p2] }))
        }
    }
}

/// The tokens that may start an instruction; `MVI`, `DMA` and `JMP` are
/// recognized at statement position but not yet implemented, so they fall
/// through to a syntax error inside `instr`.
pub open spec fn is_instr_token(t: ScuDspToken) -> bool {
    ||| is_alu_token(t)
    ||| t is Mov
    ||| t is Mvi
    ||| t is Dma
    ||| t is Jmp
    ||| t is Clr
    ||| t is Btm
    ||| t is Lps
    ||| t is End
    ||| t is Endi
}

/// What parsing one instruction does: dispatch on the head token.
pub open spec fn instr_outcome(toks: Seq<ScuDspToken>, p: int, m: ProgModel) -> (
    int,
    ProgModel,
    Result<(), AsmError>,
) {
    if p >= toks.len() {
        (p, m, Err(AsmError::UnexpectedEnd))
    } else if is_alu_token(toks[p]) {
        alu_outcome(toks, p, m)
    } else if toks[p] is Mov {
        mov_outcome(toks, p, m)
    } else if toks[p] is Clr {
        clr_outcome(toks, p, m)
    } else if toks[p] is Btm || toks[p] is Lps {
        loop_outcome(toks, p, m)
    } else if toks[p] is End || toks[p] is Endi {
        end_outcome(toks, p, m)
    } else {
        (p, m, Err(AsmError::BadInstruction { found: toks[p] }))
    }
}

/// Each per-category count is covered by the bundle's emitted-instruction
/// count; the parser pairs every registration with an emission.
pub open spec fn counts_le_emitted(m: ProgModel) -> bool {
    &&& m.counts.alu <= m.emitted
    &&& m.counts.xbus <= m.emitted
    &&& m.counts.ybus <= m.emitted
    &&& m.counts.d1bus <= m.emitted
    &&& m.counts.flow <= m.emitted
}

/// What parsing a whole document does, line by line: line breaks commit the
/// bundle in progress and advance the line counter, a label (legal only
/// before the first instruction of its line) records the current program
/// counter, and instructions accumulate into the bundle, which is begun
/// implicitly at the line's first instruction. The first error aborts the
/// pass.
pub open spec fn doc_spec(toks: Seq<ScuDspToken>, p: int, m: ProgModel) -> (
    ProgModel,
    Result<(), AsmError>,
)
    decreases toks.len() - p,
{
    if p < 0 || p >= toks.len() {
        (m, Ok(()))
    } else if toks[p] is Newline {
        let mf = m.m_flush();
        if m.m_flush_result() is Err {
            (mf, m.m_flush_result())
        } else {
            doc_spec(toks, p + 1, mf.m_next_line())
        }
    } else if toks[p] is Label {
        if m.is_emitting {
            (m, Err(AsmError::BadInstruction { found: toks[p] }))
        } else {
            doc_spec(toks, p + 1, m.m_add_label(toks[p]->Label_0@))
        }
    } else if is_instr_token(toks[p]) {
        let m1 = m.m_begin_if_not_begun();
        let stepped = instr_outcome(toks, p, m1);
        if stepped.2 is Err {
            (stepped.1, stepped.2)
        } else if p < stepped.0 <= toks.len() {
            doc_spec(toks, stepped.0, stepped.1)
        } else {
            (stepped.1, stepped.2)
        }
    } else {
        (m, Err(AsmError::BadInstruction { found: toks[p] }))
    }
}

/// Parsing one instruction consumes at least one token (when it succeeds),
/// never more than remain, only adds to the bundle in step with the tokens
/// it consumes, and touches nothing but the bundle-accumulation state.
proof fn lemma_instr_outcome_bounds(toks: Seq<ScuDspToken>, p: int, m: ProgModel)
    requires
        0 <= p < toks.len(),
    ensures
        ({
            let (np, nm, res) = instr_outcome(toks, p, m);
            &&& p <= np <= toks.len()
            &&& (res is Ok ==> np > p)
            &&& nm.emitted <= m.emitted + (np - p)
            &&& (counts_le_emitted(m) ==> counts_le_emitted(nm))
            &&& nm.words == m.words
            &&& nm.pc == m.pc
            &&& nm.labels == m.labels
            &&& nm.line == m.line
            &&& nm.is_emitting == m.is_emitting
        }),
{
}

/// The fixed bit patterns the parser emits, written out both as bit lists
/// and as the words they denote.
proof fn lemma_pattern_words()
    ensures
        1u32 << 17u32 == 0x0002_0000u32,
        1u32 << 18u32 == 0x0004_0000u32,
        1u32 << 24u32 == 0x0100_0000u32,
        1u32 << 26u32 == 0x0400_0000u32,
        1u32 << 27u32 == 0x0800_0000u32,
        1u32 << 28u32 == 0x1000_0000u32,
        1u32 << 29u32 == 0x2000_0000u32,
        word_of_bits(seq![26u32, 27u32]) == 0x0C00_0000u32,
        word_of_bits(seq![26u32, 28u32]) == 0x1400_0000u32,
        word_of_bits(seq![27u32, 28u32]) == 0x1800_0000u32,
        word_of_bits(seq![26u32, 29u32]) == 0x2400_0000u32,
        word_of_bits(seq![27u32, 29u32]) == 0x2800_0000u32,
        word_of_bits(seq![26u32, 27u32, 29u32]) == 0x2C00_0000u32,
        word_of_bits(seq![26u32, 27u32, 28u32, 29u32]) == 0x3C00_0000u32,
        word_of_bits(seq![31u32, 30u32, 29u32]) == 0xE000_0000u32,
        word_of_bits(seq![31u32, 30u32, 29u32, 27u32]) == 0xE800_0000u32,
        word_of_bits(seq![31u32, 30u32, 29u32, 28u32]) == 0xF000_0000u32,
        word_of_bits(seq![31u32, 30u32, 29u32, 28u32, 27u32]) == 0xF800_0000u32,
{
    reveal_with_fuel(word_of_bits, 6);
    assert(seq![26u32].drop_last() =~= Seq::<u32>::empty());
    assert(seq![27u32].drop_last() =~= Seq::<u32>::empty());
    assert(seq![31u32].drop_last() =~= Seq::<u32>::empty());
    assert(seq![26u32, 27u32].drop_last() =~= seq![26u32]);
    assert(seq![26u32, 28u32].drop_last() =~= seq![26u32]);
    assert(seq![27u32, 28u32].drop_last() =~= seq![27u32]);
    assert(seq![26u32, 29u32].drop_last() =~= seq![26u32]);
    assert(seq![27u32, 29u32].drop_last() =~= seq![27u32]);
    assert(seq![26u32, 27u32, 29u32].drop_last() =~= seq![26u32, 27u32]);
    assert(seq![26u32, 27u32, 28u32].drop_last() =~= seq![26u32, 27u32]);
    assert(seq![26u32, 27u32, 28u32, 29u32].drop_last() =~= seq![26u32, 27u32, 28u32]);
    assert(seq![31u32, 30u32].drop_last() =~= seq![31u32]);
    assert(seq![31u32, 30u32, 29u32].drop_last() =~= seq![31u32, 30u32]);
    assert(seq![31u32, 30u32, 29u32, 27u32].drop_last() =~= seq![31u32, 30u32, 29u32]);
    assert(seq![31u32, 30u32, 29u32, 28u32].drop_last() =~= seq![31u32, 30u32, 29u32]);
    assert(seq![31u32, 30u32, 29u32, 28u32, 27u32].drop_last() =~= seq![
        31u32,
        30u32,
        29u32,
        28u32,
    ]);
    assert((1u32 << 17u32) == 0x0002_0000u32 && (1u32 << 18u32) == 0x0004_0000u32 && (1u32
        << 24u32) == 0x0100_0000u32 && (1u32 << 26u32) == 0x0400_0000u32 && (1u32 << 27u32)
        == 0x0800_0000u32 && (1u32 << 28u32) == 0x1000_0000u32 && (1u32 << 29u32)
        == 0x2000_0000u32 && (1u32 << 30u32) == 0x4000_0000u32 && (1u32 << 31u32)
        == 0x8000_0000u32) by (bit_vector);
    assert((0u32 | (1u32 << 26u32)) | (1u32 << 27u32) == 0x0C00_0000u32 && (0u32 | (1u32
        << 26u32)) | (1u32 << 28u32) == 0x1400_0000u32 && (0u32 | (1u32 << 27u32)) | (1u32
        << 28u32) == 0x1800_0000u32 && (0u32 | (1u32 << 26u32)) | (1u32 << 29u32)
        == 0x2400_0000u32 && (0u32 | (1u32 << 27u32)) | (1u32 << 29u32) == 0x2800_0000u32 && ((
    0u32 | (1u32 << 26u32)) | (1u32 << 27u32)) | (1u32 << 29u32) == 0x2C00_0000u32 && (((0u32 | (
    1u32 << 26u32)) | (1u32 << 27u32)) | (1u32 << 28u32)) | (1u32 << 29u32) == 0x3C00_0000u32 && (
    0u32 | (1u32 << 31u32)) | (1u32 << 30u32) == 0xC000_0000u32 && ((0u32 | (1u32 << 31u32)) | (
    1u32 << 30u32)) | (1u32 << 29u32) == 0xE000_0000u32 && (((0u32 | (1u32 << 31u32)) | (1u32
        << 30u32)) | (1u32 << 29u32)) | (1u32 << 27u32) == 0xE800_0000u32 && (((0u32 | (1u32
        << 31u32)) | (1u32 << 30u32)) | (1u32 << 29u32)) | (1u32 << 28u32) == 0xF000_0000u32 && ((((
    0u32 | (1u32 << 31u32)) | (1u32 << 30u32)) | (1u32 << 29u32)) | (1u32 << 28u32)) | (1u32
        << 27u32) == 0xF800_0000u32) by (bit_vector);
}

/// A prefix of a digit string with a value denotes no more than the whole
/// string does.
proof fn lemma_digits_value_prefix(digits: Seq<char>, radix: u32, i: int)
    requires
        1 <= radix,
        1 <= i <= digits.len(),
    ensures
        digits_value(digits, radix) is Some ==> digits_value(digits.take(i), radix) is Some
            && digits_value(digits.take(i), radix).unwrap() <= digits_value(
            digits,
            radix,
        ).unwrap() && digits_value(digits, radix).unwrap() >= 0,
    decreases digits.len(),
{
    if digits_value(digits, radix) is Some {
        if digits.len() == 1 {
            assert(digits.take(1) =~= digits);
        } else if i == digits.len() {
            assert(digits.take(i) =~= digits);
            lemma_digits_value_prefix(digits.drop_last(), radix, digits.len() - 1);
        } else {
            assert(digits.take(i) =~= digits.drop_last().take(i));
            lemma_digits_value_prefix(digits.drop_last(), radix, i);
            let v = digits_value(digits.drop_last(), radix).unwrap();
            let d = digit_value(digits.last(), radix).unwrap();
            assert(v * radix >= v) by (nonlinear_arith)
                requires
                    v >= 0,
                    radix >= 1,
            ;
        }
    }
}

/// Resolves the text of a numeric literal to its 32-bit value, or reports
/// it malformed. The radix prefix (`$` hex, `#` decimal, `%` binary, none
/// for decimal) is part of the text.
pub fn parse_num_literal(s: &String) -> (r: Result<u32, AsmError>)
    ensures
        r == match num_value(s@) {
            Some(v) => Ok::<u32, AsmError>(v),
            None => Err::<u32, AsmError>(AsmError::MalformedNumber),
        },
{
    let st = s.as_str();
    let n = st.unicode_len();
    let mut start: usize = 0;
    let mut radix: u32 = 10;
    if n > 0 {
        let c0 = st.get_char(0);
        if c0 == '$' {
            start = 1;
            radix = 16;
        } else if c0 == '#' {
            start = 1;
            radix = 10;
        } else if c0 == '%' {
            start = 1;
            radix = 2;
        }
    }
    let ghost digits = if start == 1 {
        s@.drop_first()
    } else {
        s@
    };
    proof {
        assert(digits =~= s@.subrange(start as int, n as int));
    }
    if start >= n {
        // no digits at all
        return Err(AsmError::MalformedNumber);
    }
    let mut val: u64 = 0;
    let mut i: usize = start;
    while i < n
        invariant
            start <= i <= n,
            n == s@.len(),
            st@ == s@,
            digits == s@.subrange(start as int, n as int),
            radix == 2 || radix == 10 || radix == 16,
            val <= u32::MAX,
            i > start ==> digits_value(digits.take(i - start), radix) == Some(val as int),
            i == start ==> val == 0,
            num_value(s@) == num_digits_value(digits, radix),
        decreases n - i,
    {
        let c = st.get_char(i);
        let cv = c as u32;
        let d: u32 = if 48 <= cv && cv <= 57 {
            cv - 48
        } else if 97 <= cv && cv <= 102 {
            cv - 87
        } else if 65 <= cv && cv <= 70 {
            cv - 55
        } else {
            255
        };
        let ghost prev_prefix = digits.take(i - start);
        proof {
            assert(digits.take(i + 1 - start).drop_last() =~= prev_prefix);
            assert(digits.take(i + 1 - start).last() == s@[i as int]);
        }
        if d >= radix {
            // the digit is invalid, so every extension of this prefix is too
            proof {
                assert(digits_value(digits.take(i + 1 - start), radix) is None);
                if digits_value(digits, radix) is Some {
                    lemma_digits_value_prefix(digits, radix, i + 1 - start);
                }
            }
            return Err(AsmError::MalformedNumber);
        }
        let next: u64 = val * (radix as u64) + (d as u64);
        proof {
            if i == start {
                assert(digits.take(1) =~= seq![digits[0]]);
            }
            assert(digits_value(digits.take(i + 1 - start), radix) == Some(next as int));
        }
        if next > 0xFFFF_FFFFu64 {
            // the value already exceeds 32 bits, and more digits cannot
            // shrink it
            proof {
                if digits_value(digits, radix) is Some {
                    lemma_digits_value_prefix(digits, radix, i + 1 - start);
                }
            }
            return Err(AsmError::MalformedNumber);
        }
        val = next;
        i = i + 1;
    }
    proof {
        assert(digits.take(n - start) =~= digits);
    }
    Ok(val as u32)
}

/// Parses a numeric literal at the cursor: the token must be a `Num`, whose
/// text is then resolved to its 32-bit value.
pub fn num(cur: &mut Cursor) -> (r: Result<u32, AsmError>)
    ensures
        final (cur).toks() == old(cur).toks(),
        ({
            let (np, res) = num_outcome(old(cur).toks(), old(cur).pos as int);
            final (cur).pos == np && r == res
        }),
{
    if cur.at_end() {
        return Err(AsmError::UnexpectedEnd);
    }
    let t = cur.peek_dup();
    match t {
        ScuDspToken::Num(s) => {
            cur.advance();
            parse_num_literal(&s)
        }
        _ => Err(AsmError::ExpectedNumber),
    }
}

/// Parses one ALU instruction, emitting its fixed bit pattern.
pub fn alu(cur: &mut Cursor, prog: &mut Program) -> (r: Result<(), AsmError>)
    requires
        can_issue(old(prog).model()),
    ensures
        final (cur).toks() == old(cur).toks(),
        ({
            let (np, nm, res) = alu_outcome(
                old(cur).toks(),
                old(cur).pos as int,
                old(prog).model(),
            );
            final (cur).pos == np && final (prog).model() == nm && r == res
        }),
{
    if cur.accept(&ScuDspToken::Nop) {
        prog.emit(0);
    } else if cur.accept(&ScuDspToken::And) {
        prog.emit_bit(26);
        proof {
            lemma_pattern_words();
        }
    } else if cur.accept(&ScuDspToken::Or) {
        prog.emit_bit(27);
        proof {
            lemma_pattern_words();
        }
    } else if cur.accept(&ScuDspToken::Xor) {
        prog.emit_bits(vec![26, 27]);
        proof {
            lemma_pattern_words();
        }
    } else if cur.accept(&ScuDspToken::Add) {
        prog.emit_bit(28);
        proof {
            lemma_pattern_words();
        }
    } else if cur.accept(&ScuDspToken::Sub) {
        prog.emit_bits(vec![26, 28]);
        proof {
            lemma_pattern_words();
        }
    } else if cur.accept(&ScuDspToken::Ad2) {
        prog.emit_bits(vec![27, 28]);
        proof {
            lemma_pattern_words();
        }
    } else if cur.accept(&ScuDspToken::Sr) {
        prog.emit_bit(29);
        proof {
            lemma_pattern_words();
        }
    } else if cur.accept(&ScuDspToken::Rr) {
        prog.emit_bits(vec![26, 29]);
        proof {
            lemma_pattern_words();
        }
    } else if cur.accept(&ScuDspToken::Sl) {
        prog.emit_bits(vec![27, 29]);
        proof {
            lemma_pattern_words();
        }
    } else if cur.accept(&ScuDspToken::Rl) {
        prog.emit_bits(vec![26, 27, 29]);
        proof {
            lemma_pattern_words();
        }
    } else if cur.accept(&ScuDspToken::Rl8) {
        prog.emit_bits(vec![26, 27, 28, 29]);
        proof {
            lemma_pattern_words();
        }
    } else {
        if cur.at_end() {
            return Err(AsmError::UnexpectedEnd);
        }
        return Err(AsmError::BadAluInstruction { found: cur.peek_dup() });
    }
    prog.register_emitted(InstrType::Alu);
    Ok(())
}

/// Emits the word of a memory-operand MOV: the operand's 3-bit ordinal at
/// the destination's bit offset, OR'd with the destination's base bits.
/// Any other source token is a syntax error naming it.
pub fn emit_mov(address: &ScuDspToken, mov: MovDestination, prog: &mut Program) -> (r: Result<
    (),
    AsmError,
>)
    requires
        old(prog).is_emitting,
        old(prog).emitted < usize::MAX,
    ensures
        is_mem_token(*address) ==> r is Ok && final (prog).model() == old(prog).model().m_emit(
            mov_word(mov, *address),
        ),
        !is_mem_token(*address) ==> r == Err::<(), AsmError>(
            AsmError::IllegalMovAddress { found: *address },
        ) && final (prog).model() == old(prog).model(),
{
    let opcode: u32 = match mov {
        MovDestination::X => 0x0200_0000,  // bit 25
        MovDestination::P => 0x0180_0000,  // bits 23, 24
        MovDestination::Y => 0x0008_0000,  // bit 19
    };
    let offset: u32 = match mov {
        MovDestination::X => 20,
        MovDestination::P => 20,
        MovDestination::Y => 14,
    };
    match address {
        ScuDspToken::M0 => prog.emit(opcode),  // 000
        ScuDspToken::M1 => prog.emit(opcode | (1u32 << offset)),  // 001
        ScuDspToken::M2 => prog.emit(opcode | (2u32 << offset)),  // 010
        ScuDspToken::M3 => prog.emit(opcode | (3u32 << offset)),  // 011
        ScuDspToken::Mc0 => prog.emit(opcode | (4u32 << offset)),  // 100
        ScuDspToken::Mc1 => prog.emit(opcode | (5u32 << offset)),  // 101
        ScuDspToken::Mc2 => prog.emit(opcode | (6u32 << offset)),  // 110
        ScuDspToken::Mc3 => prog.emit(opcode | (7u32 << offset)),  // 111
        _ => {
            return Err(AsmError::IllegalMovAddress { found: address.dup() });
        }
    }
    proof {
        assert(opcode | (0u32 << offset) == opcode) by (bit_vector);
    }
    Ok(())
}

/// Parses the signed-immediate MOV source: the literal must fit the 8-bit
/// signed range. The bit-field emission for this form awaits hardware
/// documentation, so nothing is contributed to the bundle yet.
pub fn emit_mov_simm(cur: &mut Cursor) -> (r: Result<(), AsmError>)
    ensures
        final (cur).toks() == old(cur).toks(),
        ({
            let (np, res) = simm_outcome(old(cur).toks(), old(cur).pos as int);
            final (cur).pos == np && r == res
        }),
{
    let value = num(cur)?;
    if value >= 127 {
        return Err(AsmError::ImmediateOutOfRange { value });
    }
    Ok(())
}

/// Parses one MOV instruction and emits the bits of its recognized form.
pub fn mov(cur: &mut Cursor, prog: &mut Program) -> (r: Result<(), AsmError>)
    requires
        can_issue(old(prog).model()),
    ensures
        final (cur).toks() == old(cur).toks(),
        ({
            let (np, nm, res) = mov_outcome(
                old(cur).toks(),
                old(cur).pos as int,
                old(prog).model(),
            );
            final (cur).pos == np && final (prog).model() == nm && r == res
        }),
{
    if cur.accept(&ScuDspToken::Mov) {
        // MOV MUL, P
        if cur.accept(&ScuDspToken::Mul) {
            cur.expect(&ScuDspToken::Comma)?;
            cur.expect(&ScuDspToken::P)?;
            prog.emit_bit(24);
            proof {
                lemma_pattern_words();
            }
            prog.register_emitted(InstrType::XBus);
            return Ok(());
        }
        // MOV ALU, A
        if cur.accept(&ScuDspToken::Alu) {
            cur.expect(&ScuDspToken::Comma)?;
            cur.expect(&ScuDspToken::A)?;
            prog.emit_bit(18);
            proof {
                lemma_pattern_words();
            }
            prog.register_emitted(InstrType::YBus);
            return Ok(());
        }
        // MOV SImm, [d]: a numeric literal in source position
        if cur.at_end() {
            return Err(AsmError::UnexpectedEnd);
        }
        let head = cur.peek_dup();
        if head.is_number() {
            emit_mov_simm(cur)?;
            cur.expect(&ScuDspToken::Comma)?;
            if cur.accept(&ScuDspToken::X) {
                return Ok(());
            }
            if cur.accept(&ScuDspToken::P) {
                return Ok(());
            }
            if cur.accept(&ScuDspToken::Y) {
                return Ok(());
            }
            if cur.at_end() {
                return Err(AsmError::UnexpectedEnd);
            }
            return Err(AsmError::IllegalMovDestination { found: cur.peek_dup() });
        }
        // otherwise a memory operand; it is checked inside emit_mov
        let tok = cur.token_pop()?;
        cur.expect(&ScuDspToken::Comma)?;
        // MOV [s], X
        if cur.accept(&ScuDspToken::X) {
            emit_mov(&tok, MovDestination::X, prog)?;
            prog.register_emitted(InstrType::XBus);
            return Ok(());
        }
        // MOV [s], P
        if cur.accept(&ScuDspToken::P) {
            emit_mov(&tok, MovDestination::P, prog)?;
            prog.register_emitted(InstrType::XBus);
            return Ok(());
        }
        // MOV [s], Y
        if cur.accept(&ScuDspToken::Y) {
            emit_mov(&tok, MovDestination::Y, prog)?;
            prog.register_emitted(InstrType::YBus);
            return Ok(());
        }
        if cur.at_end() {
            return Err(AsmError::UnexpectedEnd);
        }
        Err(AsmError::IllegalMovSource { found: cur.peek_dup() })
    } else {
        if cur.at_end() {
            return Err(AsmError::UnexpectedEnd);
        }
        Err(AsmError::BadMovInstruction { found: cur.peek_dup() })
    }
}

/// Parses `CLR A`, which sets bit 17 and shares the ALU issue slot.
pub fn clr(cur: &mut Cursor, prog: &mut Program) -> (r: Result<(), AsmError>)
    requires
        can_issue(old(prog).model()),
    ensures
        final (cur).toks() == old(cur).toks(),
        ({
            let (np, nm, res) = clr_outcome(
                old(cur).toks(),
                old(cur).pos as int,
                old(prog).model(),
            );
            final (cur).pos == np && final (prog).model() == nm && r == res
        }),
{
    cur.expect(&ScuDspToken::Clr)?;
    cur.expect(&ScuDspToken::A)?;
    prog.emit_bit(17);
    proof {
        lemma_pattern_words();
    }
    prog.register_emitted(InstrType::Alu);
    Ok(())
}

/// Parses a loop instruction (`BTM` or `LPS`). These must be issued on
/// their own: anything but a line break after them is a syntax error. The
/// line break itself is left for the line driver.
pub fn loop_cmd(cur: &mut Cursor, prog: &mut Program) -> (r: Result<(), AsmError>)
    requires
        can_issue(old(prog).model()),
    ensures
        final (cur).toks() == old(cur).toks(),
        ({
            let (np, nm, res) = loop_outcome(
                old(cur).toks(),
                old(cur).pos as int,
                old(prog).model(),
            );
            final (cur).pos == np && final (prog).model() == nm && r == res
        }),
{
    if cur.accept(&ScuDspToken::Btm) {
        prog.emit_bits(vec![31, 30, 29]);
        proof {
            lemma_pattern_words();
        }
    } else if cur.accept(&ScuDspToken::Lps) {
        prog.emit_bits(vec![31, 30, 29, 27]);
        proof {
            lemma_pattern_words();
        }
    } else {
        if cur.at_end() {
            return Err(AsmError::UnexpectedEnd);
        }
        return Err(AsmError::BadLoopInstruction { found: cur.peek_dup() });
    }
    prog.register_emitted(InstrType::FlowControl);
    if cur.at_end() {
        return Err(AsmError::ExpectedNewlineAfterLoop);
    }
    let head = cur.peek_dup();
    if !matches!(head, ScuDspToken::Newline) {
        return Err(AsmError::ExpectedNewlineAfterLoop);
    }
    Ok(())
}

/// Parses an end instruction (`END` or `ENDI`). These must be issued on
/// their own: anything but a line break after them is a syntax error. The
/// line break itself is left for the line driver.
pub fn end(cur: &mut Cursor, prog: &mut Program) -> (r: Result<(), AsmError>)
    requires
        can_issue(old(prog).model()),
    ensures
        final (cur).toks() == old(cur).toks(),
        ({
            let (np, nm, res) = end_outcome(
                old(cur).toks(),
                old(cur).pos as int,
                old(prog).model(),
            );
            final (cur).pos == np && final (prog).model() == nm && r == res
        }),
{
    if cur.accept(&ScuDspToken::End) {
        prog.emit_bits(vec![31, 30, 29, 28]);
        proof {
            lemma_pattern_words();
        }
    } else if cur.accept(&ScuDspToken::Endi) {
        prog.emit_bits(vec![31, 30, 29, 28, 27]);
        proof {
            lemma_pattern_words();
        }
    } else {
        if cur.at_end() {
            return Err(AsmError::UnexpectedEnd);
        }
        return Err(AsmError::BadEndInstruction { found: cur.peek_dup() });
    }
    prog.register_emitted(InstrType::FlowControl);
    if cur.at_end() {
        return Err(AsmError::ExpectedNewlineAfterEnd);
    }
    let head = cur.peek_dup();
    if !matches!(head, ScuDspToken::Newline) {
        return Err(AsmError::ExpectedNewlineAfterEnd);
    }
    Ok(())
}

/// Parses one instruction, dispatching on the head token.
pub fn instr(cur: &mut Cursor, prog: &mut Program) -> (r: Result<(), AsmError>)
    requires
        can_issue(old(prog).model()),
    ensures
        final (cur).toks() == old(cur).toks(),
        ({
            let (np, nm, res) = instr_outcome(
                old(cur).toks(),
                old(cur).pos as int,
                old(prog).model(),
            );
            final (cur).pos == np && final (prog).model() == nm && r == res
        }),
{
    if cur.at_end() {
        return Err(AsmError::UnexpectedEnd);
    }
    let tok = cur.peek_dup();
    match tok {
        ScuDspToken::Nop
        | ScuDspToken::And
        | ScuDspToken::Or
        | ScuDspToken::Xor
        | ScuDspToken::Add
        | ScuDspToken::Sub
        | ScuDspToken::Ad2
        | ScuDspToken::Sr
        | ScuDspToken::Rr
        | ScuDspToken::Sl
        | ScuDspToken::Rl
        | ScuDspToken::Rl8 => alu(cur, prog),
        ScuDspToken::Mov => mov(cur, prog),
        ScuDspToken::Clr => clr(cur, prog),
        ScuDspToken::Btm | ScuDspToken::Lps => loop_cmd(cur, prog),
        ScuDspToken::End | ScuDspToken::Endi => end(cur, prog),
        _ => Err(AsmError::BadInstruction { found: tok }),
    }
}

/// True of the tokens that may start an instruction.
fn is_instr_start(tok: &ScuDspToken) -> (r: bool)
    ensures
        r == is_instr_token(*tok),
{
    matches!(
        tok,
        ScuDspToken::Nop
        | ScuDspToken::And
        | ScuDspToken::Or
        | ScuDspToken::Xor
        | ScuDspToken::Add
        | ScuDspToken::Sub
        | ScuDspToken::Ad2
        | ScuDspToken::Sr
        | ScuDspToken::Rr
        | ScuDspToken::Sl
        | ScuDspToken::Rl
        | ScuDspToken::Rl8
        | ScuDspToken::Mov
        | ScuDspToken::Mvi
        | ScuDspToken::Dma
        | ScuDspToken::Jmp
        | ScuDspToken::Clr
        | ScuDspToken::Btm
        | ScuDspToken::Lps
        | ScuDspToken::End
        | ScuDspToken::Endi
    )
}

/// Parses a whole document, driving the program through `doc_spec`: bundles
/// accumulate per line, commit at each line break, and labels record the
/// program counter in effect where they appear. The first error aborts the
/// pass, leaving the program in the state the specification gives it.
pub fn document(tokens: &Vec<ScuDspToken>, prog: &mut Program) -> (r: Result<(), AsmError>)
    requires
        old(prog).quiescent(),
    ensures
        ({
            let (mf, res) = doc_spec(tokens@, 0, old(prog).model());
            final (prog).model() == mf && r == res
        }),
{
    let ghost m0 = prog.model();
    let n: usize = tokens.len();
    let mut cur = Cursor::new(tokens);
    while !cur.at_end()
        invariant
            m0 == old(prog).model(),
            cur.toks() == tokens@,
            cur.pos <= tokens@.len(),
            tokens@.len() == n,
            prog.model().emitted <= cur.pos,
            counts_le_emitted(prog.model()),
            !prog.model().is_emitting ==> prog.model().emitted == 0 && prog.model().counts
                == CountsModel::zero(),
            doc_spec(tokens@, 0, m0) == doc_spec(tokens@, cur.pos as int, prog.model()),
        decreases tokens@.len() - cur.pos,
    {
        let tok = cur.peek_dup();
        match tok {
            ScuDspToken::Newline => {
                cur.advance();
                match prog.flush() {
                    Err(e) => {
                        return Err(e);
                    }
                    Ok(()) => {}
                }
                prog.next_line();
            }
            ScuDspToken::Label(name) => {
                if prog.is_emitting {
                    return Err(AsmError::BadInstruction { found: ScuDspToken::Label(name) });
                }
                cur.advance();
                prog.add_label(name);
            }
            _ => {
                if is_instr_start(&tok) {
                    prog.begin_if_not_begun();
                    proof {
                        lemma_instr_outcome_bounds(tokens@, cur.pos as int, prog.model());
                    }
                    match instr(&mut cur, prog) {
                        Err(e) => {
                            return Err(e);
                        }
                        Ok(()) => {}
                    }
                } else {
                    return Err(AsmError::BadInstruction { found: tok });
                }
            }
        }
    }
    Ok(())
}

/// An ALU mnemonic alone on a line assembles, from a fresh program, to
/// exactly its documented fixed bit pattern and nothing else: the one
/// committed word is `alu_word` of the mnemonic, and the program counter
/// has advanced by one word.
pub proof fn lemma_alu_mnemonic_word(t: ScuDspToken)
    requires
        is_alu_token(t),
    ensures
        ({
            let (mf, res) = doc_spec(seq![t, ScuDspToken::Newline], 0, ProgModel::init());
            res is Ok && mf.words == seq![alu_word(t)] && mf.pc == 4
        }),
{
    let toks = seq![t, ScuDspToken::Newline];
    let m0 = ProgModel::init();
    let m1 = m0.m_begin_if_not_begun();
    let m2 = m1.m_emit(alu_word(t)).m_register(InstrType::Alu);
    let w = alu_word(t);
    assert(0u32 | w == w) by (bit_vector);
    assert(instr_outcome(toks, 0, m1) == (1int, m2, Ok::<(), AsmError>(())));
    assert(m2.m_flush().words =~= seq![alu_word(t)]);
    let mf = m2.m_flush().m_next_line();
    assert(doc_spec(toks, 2, mf) == (mf, Ok::<(), AsmError>(())));
    assert(doc_spec(toks, 1, m2) == (mf, Ok::<(), AsmError>(())));
    assert(doc_spec(toks, 0, m0) == (mf, Ok::<(), AsmError>(())));
}

/// `NOP` is accepted and contributes no bits to the bundle word, but still
/// counts as one issued instruction, occupying the ALU slot.
pub proof fn lemma_nop_counts_without_bits(toks: Seq<ScuDspToken>, p: int, m: ProgModel)
    requires
        0 <= p < toks.len(),
        toks[p] is Nop,
    ensures
        ({
            let (np, nm, res) = instr_outcome(toks, p, m);
            &&& res is Ok
            &&& np == p + 1
            &&& nm.word == m.word
            &&& nm.emitted == m.emitted + 1
            &&& nm.counts.alu == m.counts.alu + 1
        }),
{
    let w = m.word;
    assert(w | 0u32 == w) by (bit_vector);
}

/// `BTM`, `LPS`, `END` and `ENDI` must be issued on their own: followed by
/// anything but a line break they are rejected, followed immediately by a
/// line break they are accepted — and either way each occupies one
/// flow-control slot, so the counting rule stands even where the own-line
/// rule already decides.
pub proof fn lemma_flow_control_alone(toks: Seq<ScuDspToken>, p: int, m: ProgModel)
    requires
        0 <= p < toks.len(),
        toks[p] is Btm || toks[p] is Lps || toks[p] is End || toks[p] is Endi,
    ensures
        ({
            let (np, nm, res) = instr_outcome(toks, p, m);
            &&& (res is Ok <==> (p + 1 < toks.len() && toks[p + 1] is Newline))
            &&& nm.counts.flow == m.counts.flow + 1
            &&& nm.emitted == m.emitted + 1
        }),
{
}

/// Memory-operand encoding is a total, order-preserving function from the
/// eight memory operands onto 0 through 7 in the listed order, placed at
/// the destination's bit offset and OR'd with the destination's base bits.
pub proof fn lemma_mem_operand_encoding()
    ensures
        mem_ordinal(ScuDspToken::M0) == 0,
        mem_ordinal(ScuDspToken::M1) == 1,
        mem_ordinal(ScuDspToken::M2) == 2,
        mem_ordinal(ScuDspToken::M3) == 3,
        mem_ordinal(ScuDspToken::Mc0) == 4,
        mem_ordinal(ScuDspToken::Mc1) == 5,
        mem_ordinal(ScuDspToken::Mc2) == 6,
        mem_ordinal(ScuDspToken::Mc3) == 7,
        forall|d: MovDestination, t: ScuDspToken|
            is_mem_token(t) ==> #[trigger] mov_word(d, t) == mov_dest_base(d) | (mem_ordinal(t)
                << mov_dest_offset(d)),
{
}

/// The two decimal literal forms agree on every digit string: a bare
/// literal and the same text behind the `#` marker denote the same value.
pub proof fn lemma_decimal_forms_agree(s: Seq<char>)
    requires
        s.len() == 0 || (s[0] != '$' && s[0] != '#' && s[0] != '%'),
    ensures
        num_value(seq!['#'] + s) == num_value(s),
{
    assert((seq!['#'] + s)[0] == '#');
    assert((seq!['#'] + s).drop_first() =~= s);
}

/// A document of line breaks alone — what a source of blank and
/// comment-only lines lexes to — assembles to an empty word sequence and
/// leaves the program counter at 0.
pub proof fn lemma_blank_document(toks: Seq<ScuDspToken>, p: int, m: ProgModel)
    requires
        forall|j: int| 0 <= j < toks.len() ==> toks[j] is Newline,
        0 <= p <= toks.len(),
        m.words == Seq::<u32>::empty(),
        m.pc == 0,
        m.emitted == 0,
    ensures
        ({
            let (mf, res) = doc_spec(toks, p, m);
            res is Ok && mf.words == Seq::<u32>::empty() && mf.pc == 0
        }),
    decreases toks.len() - p,
{
    if p < toks.len() {
        lemma_blank_document(toks, p + 1, m.m_flush().m_next_line());
    }
}

/// A label registers the program counter in effect where it appears:
/// parsing continues in a state that differs only in the label table,
/// which now takes the label's name to the current program counter — the
/// address at which the next committed bundle will land, since nothing has
/// advanced it yet.
pub proof fn lemma_label_records_pc(toks: Seq<ScuDspToken>, p: int, m: ProgModel)
    requires
        0 <= p < toks.len(),
        toks[p] is Label,
        !m.is_emitting,
    ensures
        doc_spec(toks, p, m) == doc_spec(
            toks,
            p + 1,
            ProgModel { labels: m.labels.insert(toks[p]->Label_0@, m.pc), ..m },
        ),
{
    assert(m.m_add_label(toks[p]->Label_0@) == (ProgModel {
        labels: m.labels.insert(toks[p]->Label_0@, m.pc),
        ..m
    }));
}

/// Two tokens of the same shape are equal when payload-free, and carry
/// equal payload views otherwise.
proof fn lemma_model_eq_tokens(x: ScuDspToken, y: ScuDspToken)
    requires
        token_model(x) == token_model(y),
    ensures
        x.is_plain() ==> x == y,
        x is Ident <==> y is Ident,
        x is Num <==> y is Num,
        x is Label <==> y is Label,
        x is Num ==> x->Num_0@ == y->Num_0@,
        x is Label ==> x->Label_0@ == y->Label_0@,
        x is Ident ==> x->Ident_0@ == y->Ident_0@,
{
}

/// Parsing one instruction is determined by the token shapes: two token
/// sequences of equal shape consume the same tokens, drive the emitter to
/// the same state, and agree on success.
proof fn lemma_instr_outcome_aligned(
    a: Seq<ScuDspToken>,
    b: Seq<ScuDspToken>,
    p: int,
    m: ProgModel,
)
    requires
        a.len() == b.len(),
        forall|i: int| 0 <= i < a.len() ==> token_model(a[i]) == token_model(b[i]),
        0 <= p < a.len(),
    ensures
        ({
            let (npa, nma, ra) = instr_outcome(a, p, m);
            let (npb, nmb, rb) = instr_outcome(b, p, m);
            npa == npb && nma == nmb && (ra is Ok <==> rb is Ok)
        }),
{
    lemma_model_eq_tokens(a[p], b[p]);
    if p + 1 < a.len() {
        lemma_model_eq_tokens(a[p + 1], b[p + 1]);
    }
    if p + 2 < a.len() {
        lemma_model_eq_tokens(a[p + 2], b[p + 2]);
    }
    if p + 3 < a.len() {
        lemma_model_eq_tokens(a[p + 3], b[p + 3]);
    }
}

/// What a document assembles to is determined by its token shapes — and so,
/// through the lexer's specification, by the source text alone: any two
/// token sequences of equal shape drive the program to the same final
/// state and agree on success. (The error values may differ only in which
/// equal-viewed token they carry.)
pub proof fn lemma_assembly_shape_determined(
    a: Seq<ScuDspToken>,
    b: Seq<ScuDspToken>,
    p: int,
    m: ProgModel,
)
    requires
        models_of(a) == models_of(b),
        0 <= p,
    ensures
        doc_spec(a, p, m).0 == doc_spec(b, p, m).0,
        doc_spec(a, p, m).1 is Ok <==> doc_spec(b, p, m).1 is Ok,
    decreases a.len() - p,
{
    assert(a.len() == b.len()) by {
        assert(models_of(a).len() == a.len());
        assert(models_of(b).len() == b.len());
    }
    assert forall|i: int| 0 <= i < a.len() implies token_model(a[i]) == token_model(
        b[i],
    ) by {
        assert(models_of(a)[i] == token_model(a[i]));
        assert(models_of(b)[i] == token_model(b[i]));
    }
    if p < a.len() {
        lemma_model_eq_tokens(a[p], b[p]);
        if a[p] is Newline {
            if m.m_flush_result() is Ok {
                lemma_assembly_shape_determined(a, b, p + 1, m.m_flush().m_next_line());
            }
        } else if a[p] is Label {
            if !m.is_emitting {
                lemma_assembly_shape_determined(a, b, p + 1, m.m_add_label(a[p]->Label_0@));
            }
        } else if is_instr_token(a[p]) {
            let m1 = m.m_begin_if_not_begun();
            lemma_instr_outcome_aligned(a, b, p, m1);
            let (np, nm, res) = instr_outcome(a, p, m1);
            if res is Ok && p < np <= a.len() {
                lemma_assembly_shape_determined(a, b, np, nm);
            }
        }
    }
}

} // verus!
