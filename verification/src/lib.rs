//! SoCUte: an assembler for the Sega Saturn SCU DSP.
//!
//! The crate turns mnemonic source text into packed 32-bit machine words in
//! three verified stages: a lexer over the source characters, a
//! recursive-descent parser over the token stream, and a bundle emitter that
//! accumulates each source line's instructions into one word and validates
//! the line's issue-slot usage before committing it.

pub mod emitter;
pub mod errors;
pub mod parser;
pub mod tokeniser;
