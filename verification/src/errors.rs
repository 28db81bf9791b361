//! The error taxonomy of the assembler. Every failure of a pass is one of
//! these values; rendering them as text is left to the caller, which also
//! attaches source-line context.

use crate::tokeniser::ScuDspToken;
use vstd::prelude::*;

verus! {

/// A failure of an assembly pass: lexical, syntactic, semantic, or a
/// bundle-validation failure. The first error encountered aborts the pass.
#[derive(Clone, Debug, PartialEq, Eq)]
pub enum AsmError {
    /// A byte sequence at the given character position matches no token rule.
    Lexical { position: usize },
    /// The token stream ended where a token was required.
    UnexpectedEnd,
    /// A specific token was required and something else was found.
    ExpectedToken { expected: ScuDspToken, found: ScuDspToken },
    /// A numeric literal was required and something else was found.
    ExpectedNumber,
    /// A numeric literal has no digits, an out-of-radix digit, or does not
    /// fit in 32 bits.
    MalformedNumber,
    /// No ALU mnemonic at the head of an ALU instruction.
    BadAluInstruction { found: ScuDspToken },
    /// No MOV mnemonic at the head of a MOV instruction.
    BadMovInstruction { found: ScuDspToken },
    /// The source operand of a bus MOV is not one of the eight memory
    /// operands.
    IllegalMovAddress { found: ScuDspToken },
    /// The source of a MOV is neither a memory operand nor a valid bus
    /// destination form.
    IllegalMovSource { found: ScuDspToken },
    /// The destination of a signed-immediate MOV is not one of the bus
    /// destinations.
    IllegalMovDestination { found: ScuDspToken },
    /// A signed-immediate MOV value at or above the 8-bit signed bound.
    ImmediateOutOfRange { value: u32 },
    /// No loop mnemonic at the head of a loop instruction.
    BadLoopInstruction { found: ScuDspToken },
    /// A loop instruction (BTM/LPS) was not followed by a line break; these
    /// must be issued on their own.
    ExpectedNewlineAfterLoop,
    /// No end mnemonic at the head of an end instruction.
    BadEndInstruction { found: ScuDspToken },
    /// An end instruction (END/ENDI) was not followed by a line break; these
    /// must be issued on their own.
    ExpectedNewlineAfterEnd,
    /// The token at instruction position starts no recognized instruction.
    BadInstruction { found: ScuDspToken },
    /// A bundle contains more than one flow control instruction.
    TooManyFlowControl,
    /// A bundle contains more than one ALU instruction.
    TooManyAlu,
    /// A bundle contains more than 2 X-Bus instructions.
    TooManyXBus,
    /// A bundle contains more than 2 Y-Bus instructions.
    TooManyYBus,
    /// More than 6 instructions issued in a single bundle.
    TooManyInstructions,
    /// Committing one more word would advance the program counter past the
    /// 32-bit address space.
    ProgramTooLarge,
}

} // verus!
