//! Lexical analysis: turns raw source text into a sequence of typed tokens.
//!
//! Keyword matching is case-insensitive and maximal-munch: an alphanumeric
//! run is one token, a keyword exactly when the whole run matches one.
//! Whitespace separates tokens, `;` starts a comment that runs to the end of
//! the line, and line breaks are significant.

use crate::errors::AsmError;
use vstd::prelude::*;

verus! {

/// One lexical token of SCU DSP assembly source. Mnemonic and operand
/// keywords are matched case-insensitively; `Ident`, `Num` and `Label`
/// carry their source text (`Num` keeps its radix prefix for later
/// resolution, `Label` has its trailing colon stripped).
#[derive(Clone, Debug, PartialEq, Eq)]
pub enum ScuDspToken {
    // Generic instructions
    Nop,
    Mov,
    Alh,
    All,
    M0,
    M1,
    M2,
    M3,
    Mc0,
    Mc1,
    Mc2,
    Mc3,
    Rx,
    Pl,
    Ra0,
    Wa0,
    Lop,
    Top,
    Ct0,
    Ct1,
    Ct2,
    Ct3,
    // ALU control
    And,
    Or,
    Xor,
    Add,
    Sub,
    Ad2,
    Sr,
    Rr,
    Sl,
    Rl,
    Rl8,
    // X-Bus control
    X,
    P,
    Mul,
    // Y-Bus control
    Y,
    Clr,
    Alu,
    A,
    // Load immediate and conditions
    Mvi,
    Z,
    Nz,
    S,
    Ns,
    C,
    Nc,
    T0,
    Nt0,
    Zs,
    Nzs,
    // DMA
    Dma,
    Dmah,
    D0,
    // Jump
    Jmp,
    // Loop
    Btm,
    Lps,
    // End
    End,
    Endi,
    // Directives
    Equ,
    Org,
    Ends,
    If,
    Ifdef,
    Endif,
    Equals,
    // Generic tokens
    Ident(String),
    Num(String),
    Label(String),
    Comma,
    Backslash,
    Newline,
}

impl ScuDspToken {
    /// True of a numeric-literal token.
    pub fn is_number(&self) -> (r: bool)
        ensures
            r == (self matches ScuDspToken::Num(_)),
    {
        matches!(self, ScuDspToken::Num(_))
    }

    /// True of a label token.
    pub fn is_label(&self) -> (r: bool)
        ensures
            r == (self matches ScuDspToken::Label(_)),
    {
        matches!(self, ScuDspToken::Label(_))
    }

    /// True of a bare-identifier token.
    pub fn is_ident(&self) -> (r: bool)
        ensures
            r == (self matches ScuDspToken::Ident(_)),
    {
        matches!(self, ScuDspToken::Ident(_))
    }

    /// An equal copy of this token. (Verus gives no specification to the
    /// derived `Clone`, so duplication is spelled out here.)
    pub fn dup(&self) -> (r: ScuDspToken)
        ensures
            r == *self,
    {
        match self {
            ScuDspToken::Nop => ScuDspToken::Nop,
            ScuDspToken::Mov => ScuDspToken::Mov,
            ScuDspToken::Alh => ScuDspToken::Alh,
            ScuDspToken::All => ScuDspToken::All,
            ScuDspToken::M0 => ScuDspToken::M0,
            ScuDspToken::M1 => ScuDspToken::M1,
            ScuDspToken::M2 => ScuDspToken::M2,
            ScuDspToken::M3 => ScuDspToken::M3,
            ScuDspToken::Mc0 => ScuDspToken::Mc0,
            ScuDspToken::Mc1 => ScuDspToken::Mc1,
            ScuDspToken::Mc2 => ScuDspToken::Mc2,
            ScuDspToken::Mc3 => ScuDspToken::Mc3,
            ScuDspToken::Rx => ScuDspToken::Rx,
            ScuDspToken::Pl => ScuDspToken::Pl,
            ScuDspToken::Ra0 => ScuDspToken::Ra0,
            ScuDspToken::Wa0 => ScuDspToken::Wa0,
            ScuDspToken::Lop => ScuDspToken::Lop,
            ScuDspToken::Top => ScuDspToken::Top,
            ScuDspToken::Ct0 => ScuDspToken::Ct0,
            ScuDspToken::Ct1 => ScuDspToken::Ct1,
            ScuDspToken::Ct2 => ScuDspToken::Ct2,
            ScuDspToken::Ct3 => ScuDspToken::Ct3,
            ScuDspToken::And => ScuDspToken::And,
            ScuDspToken::Or => ScuDspToken::Or,
            ScuDspToken::Xor => ScuDspToken::Xor,
            ScuDspToken::Add => ScuDspToken::Add,
            ScuDspToken::Sub => ScuDspToken::Sub,
            ScuDspToken::Ad2 => ScuDspToken::Ad2,
            ScuDspToken::Sr => ScuDspToken::Sr,
            ScuDspToken::Rr => ScuDspToken::Rr,
            ScuDspToken::Sl => ScuDspToken::Sl,
            ScuDspToken::Rl => ScuDspToken::Rl,
            ScuDspToken::Rl8 => ScuDspToken::Rl8,
            ScuDspToken::X => ScuDspToken::X,
            ScuDspToken::P => ScuDspToken::P,
            ScuDspToken::Mul => ScuDspToken::Mul,
            ScuDspToken::Y => ScuDspToken::Y,
            ScuDspToken::Clr => ScuDspToken::Clr,
            ScuDspToken::Alu => ScuDspToken::Alu,
            ScuDspToken::A => ScuDspToken::A,
            ScuDspToken::Mvi => ScuDspToken::Mvi,
            ScuDspToken::Z => ScuDspToken::Z,
            ScuDspToken::Nz => ScuDspToken::Nz,
            ScuDspToken::S => ScuDspToken::S,
            ScuDspToken::Ns => ScuDspToken::Ns,
            ScuDspToken::C => ScuDspToken::C,
            ScuDspToken::Nc => ScuDspToken::Nc,
            ScuDspToken::T0 => ScuDspToken::T0,
            ScuDspToken::Nt0 => ScuDspToken::Nt0,
            ScuDspToken::Zs => ScuDspToken::Zs,
            ScuDspToken::Nzs => ScuDspToken::Nzs,
            ScuDspToken::Dma => ScuDspToken::Dma,
            ScuDspToken::Dmah => ScuDspToken::Dmah,
            ScuDspToken::D0 => ScuDspToken::D0,
            ScuDspToken::Jmp => ScuDspToken::Jmp,
            ScuDspToken::Btm => ScuDspToken::Btm,
            ScuDspToken::Lps => ScuDspToken::Lps,
            ScuDspToken::End => ScuDspToken::End,
            ScuDspToken::Endi => ScuDspToken::Endi,
            ScuDspToken::Equ => ScuDspToken::Equ,
            ScuDspToken::Org => ScuDspToken::Org,
            ScuDspToken::Ends => ScuDspToken::Ends,
            ScuDspToken::If => ScuDspToken::If,
            ScuDspToken::Ifdef => ScuDspToken::Ifdef,
            ScuDspToken::Endif => ScuDspToken::Endif,
            ScuDspToken::Equals => ScuDspToken::Equals,
            ScuDspToken::Ident(s) => ScuDspToken::Ident(s.clone()),
            ScuDspToken::Num(s) => ScuDspToken::Num(s.clone()),
            ScuDspToken::Label(s) => ScuDspToken::Label(s.clone()),
            ScuDspToken::Comma => ScuDspToken::Comma,
            ScuDspToken::Backslash => ScuDspToken::Backslash,
            ScuDspToken::Newline => ScuDspToken::Newline,
        }
    }

    /// True of the tokens that carry no source-text payload: everything but
    /// `Ident`, `Num` and `Label`.
    pub open spec fn is_plain(self) -> bool {
        !(self is Ident || self is Num || self is Label)
    }

    /// Structural equality against an expected payload-free token.
    pub fn matches_plain(&self, expected: &ScuDspToken) -> (r: bool)
        requires
            expected.is_plain(),
        ensures
            r == (*self == *expected),
    {
        match (self, expected) {
            (ScuDspToken::Nop, ScuDspToken::Nop) => true,
            (ScuDspToken::Mov, ScuDspToken::Mov) => true,
            (ScuDspToken::Alh, ScuDspToken::Alh) => true,
            (ScuDspToken::All, ScuDspToken::All) => true,
            (ScuDspToken::M0, ScuDspToken::M0) => true,
            (ScuDspToken::M1, ScuDspToken::M1) => true,
            (ScuDspToken::M2, ScuDspToken::M2) => true,
            (ScuDspToken::M3, ScuDspToken::M3) => true,
            (ScuDspToken::Mc0, ScuDspToken::Mc0) => true,
            (ScuDspToken::Mc1, ScuDspToken::Mc1) => true,
            (ScuDspToken::Mc2, ScuDspToken::Mc2) => true,
            (ScuDspToken::Mc3, ScuDspToken::Mc3) => true,
            (ScuDspToken::Rx, ScuDspToken::Rx) => true,
            (ScuDspToken::Pl, ScuDspToken::Pl) => true,
            (ScuDspToken::Ra0, ScuDspToken::Ra0) => true,
            (ScuDspToken::Wa0, ScuDspToken::Wa0) => true,
            (ScuDspToken::Lop, ScuDspToken::Lop) => true,
            (ScuDspToken::Top, ScuDspToken::Top) => true,
            (ScuDspToken::Ct0, ScuDspToken::Ct0) => true,
            (ScuDspToken::Ct1, ScuDspToken::Ct1) => true,
            (ScuDspToken::Ct2, ScuDspToken::Ct2) => true,
            (ScuDspToken::Ct3, ScuDspToken::Ct3) => true,
            (ScuDspToken::And, ScuDspToken::And) => true,
            (ScuDspToken::Or, ScuDspToken::Or) => true,
            (ScuDspToken::Xor, ScuDspToken::Xor) => true,
            (ScuDspToken::Add, ScuDspToken::Add) => true,
            (ScuDspToken::Sub, ScuDspToken::Sub) => true,
            (ScuDspToken::Ad2, ScuDspToken::Ad2) => true,
            (ScuDspToken::Sr, ScuDspToken::Sr) => true,
            (ScuDspToken::Rr, ScuDspToken::Rr) => true,
            (ScuDspToken::Sl, ScuDspToken::Sl) => true,
            (ScuDspToken::Rl, ScuDspToken::Rl) => true,
            (ScuDspToken::Rl8, ScuDspToken::Rl8) => true,
            (ScuDspToken::X, ScuDspToken::X) => true,
            (ScuDspToken::P, ScuDspToken::P) => true,
            (ScuDspToken::Mul, ScuDspToken::Mul) => true,
            (ScuDspToken::Y, ScuDspToken::Y) => true,
            (ScuDspToken::Clr, ScuDspToken::Clr) => true,
            (ScuDspToken::Alu, ScuDspToken::Alu) => true,
            (ScuDspToken::A, ScuDspToken::A) => true,
            (ScuDspToken::Mvi, ScuDspToken::Mvi) => true,
            (ScuDspToken::Z, ScuDspToken::Z) => true,
            (ScuDspToken::Nz, ScuDspToken::Nz) => true,
            (ScuDspToken::S, ScuDspToken::S) => true,
            (ScuDspToken::Ns, ScuDspToken::Ns) => true,
            (ScuDspToken::C, ScuDspToken::C) => true,
            (ScuDspToken::Nc, ScuDspToken::Nc) => true,
            (ScuDspToken::T0, ScuDspToken::T0) => true,
            (ScuDspToken::Nt0, ScuDspToken::Nt0) => true,
            (ScuDspToken::Zs, ScuDspToken::Zs) => true,
            (ScuDspToken::Nzs, ScuDspToken::Nzs) => true,
            (ScuDspToken::Dma, ScuDspToken::Dma) => true,
            (ScuDspToken::Dmah, ScuDspToken::Dmah) => true,
            (ScuDspToken::D0, ScuDspToken::D0) => true,
            (ScuDspToken::Jmp, ScuDspToken::Jmp) => true,
            (ScuDspToken::Btm, ScuDspToken::Btm) => true,
            (ScuDspToken::Lps, ScuDspToken::Lps) => true,
            (ScuDspToken::End, ScuDspToken::End) => true,
            (ScuDspToken::Endi, ScuDspToken::Endi) => true,
            (ScuDspToken::Equ, ScuDspToken::Equ) => true,
            (ScuDspToken::Org, ScuDspToken::Org) => true,
            (ScuDspToken::Ends, ScuDspToken::Ends) => true,
            (ScuDspToken::If, ScuDspToken::If) => true,
            (ScuDspToken::Ifdef, ScuDspToken::Ifdef) => true,
            (ScuDspToken::Endif, ScuDspToken::Endif) => true,
            (ScuDspToken::Equals, ScuDspToken::Equals) => true,
            (ScuDspToken::Comma, ScuDspToken::Comma) => true,
            (ScuDspToken::Backslash, ScuDspToken::Backslash) => true,
            (ScuDspToken::Newline, ScuDspToken::Newline) => true,
            _ => false,
        }
    }
}

/// Space and tab: insignificant between tokens.
pub open spec fn is_space_char(c: char) -> bool {
    c == ' ' || c == '\t'
}

/// ASCII letters: the first character of an identifier or label.
pub open spec fn is_alpha_char(c: char) -> bool {
    (97 <= c as u32 && c as u32 <= 122) || (65 <= c as u32 && c as u32 <= 90)
}

/// ASCII decimal digits.
pub open spec fn is_digit_char(c: char) -> bool {
    48 <= c as u32 && c as u32 <= 57
}

/// ASCII hexadecimal digits, either case.
pub open spec fn is_hex_char(c: char) -> bool {
    is_digit_char(c) || (97 <= c as u32 && c as u32 <= 102) || (65 <= c as u32 && c as u32
        <= 70)
}

/// The characters an identifier may continue with.
pub open spec fn is_ident_char(c: char) -> bool {
    is_alpha_char(c) || is_digit_char(c) || c == '_'
}

/// ASCII lowercasing of one character; keyword matching is
/// case-insensitive.
pub open spec fn to_lower_char(c: char) -> char {
    if 65 <= c as u32 && c as u32 <= 90 {
        (((c as u32) + 32) as u8) as char
    } else {
        c
    }
}

/// ASCII lowercasing of a character sequence.
pub open spec fn lower_seq(s: Seq<char>) -> Seq<char> {
    s.map_values(|c: char| to_lower_char(c))
}

/// A token as the lexing specification describes it: payload-free tokens
/// stand for themselves, and the three payload-carrying kinds hold the view
/// of their source text.
#[verifier::ext_equal]
pub ghost enum LexTok {
    Kw(ScuDspToken),
    Ident(Seq<char>),
    Num(Seq<char>),
    Label(Seq<char>),
}

/// The specification-level shape of a produced token.
pub open spec fn token_model(t: ScuDspToken) -> LexTok {
    match t {
        ScuDspToken::Ident(s) => LexTok::Ident(s@),
        ScuDspToken::Num(s) => LexTok::Num(s@),
        ScuDspToken::Label(s) => LexTok::Label(s@),
        _ => LexTok::Kw(t),
    }
}

/// The specification-level shapes of a token sequence.
pub open spec fn models_of(ts: Seq<ScuDspToken>) -> Seq<LexTok> {
    ts.map_values(|t: ScuDspToken| token_model(t))
}

/// The keyword a lowercased identifier run denotes, if any.
pub open spec fn keyword_of(r: Seq<char>) -> Option<ScuDspToken> {
    if r == seq!['n', 'o', 'p'] {
        Some(ScuDspToken::Nop)
    } else if r == seq!['m', 'o', 'v'] {
        Some(ScuDspToken::Mov)
    } else if r == seq!['a', 'l', 'h'] {
        Some(ScuDspToken::Alh)
    } else if r == seq!['a', 'l', 'l'] {
        Some(ScuDspToken::All)
    } else if r == seq!['m', '0'] {
        Some(ScuDspToken::M0)
    } else if r == seq!['m', '1'] {
        Some(ScuDspToken::M1)
    } else if r == seq!['m', '2'] {
        Some(ScuDspToken::M2)
    } else if r == seq!['m', '3'] {
        Some(ScuDspToken::M3)
    } else if r == seq!['m', 'c', '0'] {
        Some(ScuDspToken::Mc0)
    } else if r == seq!['m', 'c', '1'] {
        Some(ScuDspToken::Mc1)
    } else if r == seq!['m', 'c', '2'] {
        Some(ScuDspToken::Mc2)
    } else if r == seq!['m', 'c', '3'] {
        Some(ScuDspToken::Mc3)
    } else if r == seq!['r', 'x'] {
        Some(ScuDspToken::Rx)
    } else if r == seq!['p', 'l'] {
        Some(ScuDspToken::Pl)
    } else if r == seq!['r', 'a', '0'] {
        Some(ScuDspToken::Ra0)
    } else if r == seq!['w', 'a', '0'] {
        Some(ScuDspToken::Wa0)
    } else if r == seq!['l', 'o', 'p'] {
        Some(ScuDspToken::Lop)
    } else if r == seq!['t', 'o', 'p'] {
        Some(ScuDspToken::Top)
    } else if r == seq!['c', 't', '0'] {
        Some(ScuDspToken::Ct0)
    } else if r == seq!['c', 't', '1'] {
        Some(ScuDspToken::Ct1)
    } else if r == seq!['c', 't', '2'] {
        Some(ScuDspToken::Ct2)
    } else if r == seq!['c', 't', '3'] {
        Some(ScuDspToken::Ct3)
    } else if r == seq!['a', 'n', 'd'] {
        Some(ScuDspToken::And)
    } else if r == seq!['o', 'r'] {
        Some(ScuDspToken::Or)
    } else if r == seq!['x', 'o', 'r'] {
        Some(ScuDspToken::Xor)
    } else if r == seq!['a', 'd', 'd'] {
        Some(ScuDspToken::Add)
    } else if r == seq!['s', 'u', 'b'] {
        Some(ScuDspToken::Sub)
    } else if r == seq!['a', 'd', '2'] {
        Some(ScuDspToken::Ad2)
    } else if r == seq!['s', 'r'] {
        Some(ScuDspToken::Sr)
    } else if r == seq!['r', 'r'] {
        Some(ScuDspToken::Rr)
    } else if r == seq!['s', 'l'] {
        Some(ScuDspToken::Sl)
    } else if r == seq!['r', 'l'] {
        Some(ScuDspToken::Rl)
    } else if r == seq!['r', 'l', '8'] {
        Some(ScuDspToken::Rl8)
    } else if r == seq!['x'] {
        Some(ScuDspToken::X)
    } else if r == seq!['p'] {
        Some(ScuDspToken::P)
    } else if r == seq!['m', 'u', 'l'] {
        Some(ScuDspToken::Mul)
    } else if r == seq!['y'] {
        Some(ScuDspToken::Y)
    } else if r == seq!['c', 'l', 'r'] {
        Some(ScuDspToken::Clr)
    } else if r == seq!['a', 'l', 'u'] {
        Some(ScuDspToken::Alu)
    } else if r == seq!['a'] {
        Some(ScuDspToken::A)
    } else if r == seq!['m', 'v', 'i'] {
        Some(ScuDspToken::Mvi)
    } else if r == seq!['z'] {
        Some(ScuDspToken::Z)
    } else if r == seq!['n', 'z'] {
        Some(ScuDspToken::Nz)
    } else if r == seq!['s'] {
        Some(ScuDspToken::S)
    } else if r == seq!['n', 's'] {
        Some(ScuDspToken::Ns)
    } else if r == seq!['c'] {
        Some(ScuDspToken::C)
    } else if r == seq!['n', 'c'] {
        Some(ScuDspToken::Nc)
    } else if r == seq!['t', '0'] {
        Some(ScuDspToken::T0)
    } else if r == seq!['n', 't', '0'] {
        Some(ScuDspToken::Nt0)
    } else if r == seq!['z', 's'] {
        Some(ScuDspToken::Zs)
    } else if r == seq!['n', 'z', 's'] {
        Some(ScuDspToken::Nzs)
    } else if r == seq!['d', 'm', 'a'] {
        Some(ScuDspToken::Dma)
    } else if r == seq!['d', 'm', 'a', 'h'] {
        Some(ScuDspToken::Dmah)
    } else if r == seq!['d', '0'] {
        Some(ScuDspToken::D0)
    } else if r == seq!['j', 'm', 'p'] {
        Some(ScuDspToken::Jmp)
    } else if r == seq!['b', 't', 'm'] {
        Some(ScuDspToken::Btm)
    } else if r == seq!['l', 'p', 's'] {
        Some(ScuDspToken::Lps)
    } else if r == seq!['e', 'n', 'd'] {
        Some(ScuDspToken::End)
    } else if r == seq!['e', 'n', 'd', 'i'] {
        Some(ScuDspToken::Endi)
    } else if r == seq!['e', 'q', 'u'] {
        Some(ScuDspToken::Equ)
    } else if r == seq!['o', 'r', 'g'] {
        Some(ScuDspToken::Org)
    } else if r == seq!['e', 'n', 'd', 's'] {
        Some(ScuDspToken::Ends)
    } else if r == seq!['i', 'f'] {
        Some(ScuDspToken::If)
    } else if r == seq!['i', 'f', 'd', 'e', 'f'] {
        Some(ScuDspToken::Ifdef)
    } else if r == seq!['e', 'n', 'd', 'i', 'f'] {
        Some(ScuDspToken::Endif)
    } else {
        None
    }
}

/// The index just past a comment starting at `i`: the next line break, or
/// the end of the text.
pub open spec fn comment_end(s: Seq<char>, i: int) -> int
    decreases s.len() - i,
{
    if 0 <= i < s.len() && s[i] != '\n' {
        comment_end(s, i + 1)
    } else {
        i
    }
}

/// The index just past a run of line-break characters starting at `i`.
pub open spec fn newline_end(s: Seq<char>, i: int) -> int
    decreases s.len() - i,
{
    if 0 <= i < s.len() && s[i] == '\n' {
        newline_end(s, i + 1)
    } else {
        i
    }
}

/// The index just past an identifier run starting at `i`.
pub open spec fn word_end(s: Seq<char>, i: int) -> int
    decreases s.len() - i,
{
    if 0 <= i < s.len() && is_ident_char(s[i]) {
        word_end(s, i + 1)
    } else {
        i
    }
}

/// The index just past a decimal-digit run starting at `i`.
pub open spec fn digit_end(s: Seq<char>, i: int) -> int
    decreases s.len() - i,
{
    if 0 <= i < s.len() && is_digit_char(s[i]) {
        digit_end(s, i + 1)
    } else {
        i
    }
}

/// The index just past a hexadecimal-digit run starting at `i`.
pub open spec fn hex_end(s: Seq<char>, i: int) -> int
    decreases s.len() - i,
{
    if 0 <= i < s.len() && is_hex_char(s[i]) {
        hex_end(s, i + 1)
    } else {
        i
    }
}

/// Prepends one token shape to a lexing outcome.
pub open spec fn lex_cons(t: LexTok, rest: Result<Seq<LexTok>, int>) -> Result<
    Seq<LexTok>,
    int,
> {
    match rest {
        Ok(ts) => Ok(seq![t] + ts),
        Err(p) => Err(p),
    }
}

/// What lexing from position `i` yields: the token shapes in order, or the
/// position of the first character run matching no token rule. Whitespace
/// is dropped, a `;` comment runs to the end of the line, consecutive line
/// breaks collapse into one `Newline` token, an identifier run equal
/// (case-insensitively) to a keyword is that keyword, an identifier run
/// followed by `:` is a label with the colon stripped, and a numeric
/// literal keeps its radix prefix (`$` hex, `#` decimal, `%` binary, bare
/// decimal).
pub open spec fn lex_spec(s: Seq<char>, i: int) -> Result<Seq<LexTok>, int>
    decreases s.len() - i,
{
    if i < 0 || i >= s.len() {
        Ok(Seq::empty())
    } else {
        let c = s[i];
        if is_space_char(c) {
            lex_spec(s, i + 1)
        } else if c == ';' {
            let e = comment_end(s, i);
            if i < e <= s.len() {
                lex_spec(s, e)
            } else {
                Err(i)
            }
        } else if c == ',' {
            lex_cons(LexTok::Kw(ScuDspToken::Comma), lex_spec(s, i + 1))
        } else if c == '\\' {
            lex_cons(LexTok::Kw(ScuDspToken::Backslash), lex_spec(s, i + 1))
        } else if c == '=' {
            lex_cons(LexTok::Kw(ScuDspToken::Equals), lex_spec(s, i + 1))
        } else if c == '\n' {
            let e = newline_end(s, i);
            if i < e <= s.len() {
                lex_cons(LexTok::Kw(ScuDspToken::Newline), lex_spec(s, e))
            } else {
                Err(i)
            }
        } else if c == '\r' {
            if i + 1 < s.len() && s[i + 1] == '\n' {
                let e = newline_end(s, i + 1);
                if i < e <= s.len() {
                    lex_cons(LexTok::Kw(ScuDspToken::Newline), lex_spec(s, e))
                } else {
                    Err(i)
                }
            } else {
                Err(i)
            }
        } else if is_alpha_char(c) {
            let e = word_end(s, i + 1);
            if i < e <= s.len() {
                if e < s.len() && s[e] == ':' {
                    lex_cons(LexTok::Label(s.subrange(i, e)), lex_spec(s, e + 1))
                } else {
                    match keyword_of(lower_seq(s.subrange(i, e))) {
                        Some(k) => lex_cons(LexTok::Kw(k), lex_spec(s, e)),
                        None => lex_cons(LexTok::Ident(s.subrange(i, e)), lex_spec(s, e)),
                    }
                }
            } else {
                Err(i)
            }
        } else if c == '$' {
            if i + 1 < s.len() && is_hex_char(s[i + 1]) {
                let e = hex_end(s, i + 1);
                if i < e <= s.len() {
                    lex_cons(LexTok::Num(s.subrange(i, e)), lex_spec(s, e))
                } else {
                    Err(i)
                }
            } else {
                Err(i)
            }
        } else if c == '#' || c == '%' {
            if i + 1 < s.len() && is_digit_char(s[i + 1]) {
                let e = digit_end(s, i + 1);
                if i < e <= s.len() {
                    lex_cons(LexTok::Num(s.subrange(i, e)), lex_spec(s, e))
                } else {
                    Err(i)
                }
            } else {
                Err(i)
            }
        } else if is_digit_char(c) {
            let e = digit_end(s, i + 1);
            if i < e <= s.len() {
                lex_cons(LexTok::Num(s.subrange(i, e)), lex_spec(s, e))
            } else {
                Err(i)
            }
        } else {
            Err(i)
        }
    }
}

/// Appends an already-lexed prefix to a lexing outcome.
pub open spec fn lex_combine(acc: Seq<LexTok>, rest: Result<Seq<LexTok>, int>) -> Result<
    Seq<LexTok>,
    int,
> {
    match rest {
        Ok(ts) => Ok(acc + ts),
        Err(p) => Err(p),
    }
}

/// Appending one more lexed token to the prefix commutes with prepending
/// its shape to the remainder.
proof fn lemma_lex_compose(toks: Seq<ScuDspToken>, t: ScuDspToken, rest: Result<Seq<LexTok>, int>)
    ensures
        lex_combine(models_of(toks), lex_cons(token_model(t), rest)) == lex_combine(
            models_of(toks.push(t)),
            rest,
        ),
{
    assert(models_of(toks.push(t)) =~= models_of(toks).push(token_model(t)));
    match rest {
        Ok(ts) => {
            assert(models_of(toks) + (seq![token_model(t)] + ts) =~= models_of(toks.push(t))
                + ts);
        }
        Err(_) => {}
    }
}

/// Whether one character is an ASCII letter.
fn alpha(c: char) -> (r: bool)
    ensures
        r == is_alpha_char(c),
{
    let cv = c as u32;
    (97 <= cv && cv <= 122) || (65 <= cv && cv <= 90)
}

/// Whether one character is an ASCII decimal digit.
fn digit(c: char) -> (r: bool)
    ensures
        r == is_digit_char(c),
{
    let cv = c as u32;
    48 <= cv && cv <= 57
}

/// Whether one character is an ASCII hexadecimal digit.
fn hex_digit(c: char) -> (r: bool)
    ensures
        r == is_hex_char(c),
{
    let cv = c as u32;
    (48 <= cv && cv <= 57) || (97 <= cv && cv <= 102) || (65 <= cv && cv <= 70)
}

/// Whether one character may continue an identifier.
fn ident_char(c: char) -> (r: bool)
    ensures
        r == is_ident_char(c),
{
    alpha(c) || digit(c) || c == '_'
}

/// ASCII lowercasing of one character.
fn lower_char(c: char) -> (r: char)
    ensures
        r == to_lower_char(c),
{
    let cv = c as u32;
    if 65 <= cv && cv <= 90 {
        ((cv + 32) as u8) as char
    } else {
        c
    }
}

/// Scans past a comment: everything up to the next line break.
fn scan_comment(st: &str, n: usize, from: usize) -> (e: usize)
    requires
        n == st@.len(),
        from <= n,
    ensures
        from <= e <= n,
        e == comment_end(st@, from as int),
    decreases n - from,
{
    let mut j = from;
    loop
        invariant
            from <= j <= n,
            n == st@.len(),
            comment_end(st@, from as int) == comment_end(st@, j as int),
        ensures
            from <= j <= n && j == comment_end(st@, from as int),
        decreases n - j,
    {
        if j >= n {
            break ;
        }
        if st.get_char(j) == '\n' {
            break ;
        }
        j = j + 1;
    }
    j
}

/// Scans past a run of line-break characters.
fn scan_newlines(st: &str, n: usize, from: usize) -> (e: usize)
    requires
        n == st@.len(),
        from <= n,
    ensures
        from <= e <= n,
        e == newline_end(st@, from as int),
{
    let mut j = from;
    loop
        invariant
            from <= j <= n,
            n == st@.len(),
            newline_end(st@, from as int) == newline_end(st@, j as int),
        ensures
            from <= j <= n && j == newline_end(st@, from as int),
        decreases n - j,
    {
        if j >= n {
            break ;
        }
        if st.get_char(j) != '\n' {
            break ;
        }
        j = j + 1;
    }
    j
}

/// Scans past an identifier run.
fn scan_word(st: &str, n: usize, from: usize) -> (e: usize)
    requires
        n == st@.len(),
        from <= n,
    ensures
        from <= e <= n,
        e == word_end(st@, from as int),
{
    let mut j = from;
    loop
        invariant
            from <= j <= n,
            n == st@.len(),
            word_end(st@, from as int) == word_end(st@, j as int),
        ensures
            from <= j <= n && j == word_end(st@, from as int),
        decreases n - j,
    {
        if j >= n {
            break ;
        }
        if !ident_char(st.get_char(j)) {
            break ;
        }
        j = j + 1;
    }
    j
}

/// Scans past a decimal-digit run.
fn scan_digits(st: &str, n: usize, from: usize) -> (e: usize)
    requires
        n == st@.len(),
        from <= n,
    ensures
        from <= e <= n,
        e == digit_end(st@, from as int),
{
    let mut j = from;
    loop
        invariant
            from <= j <= n,
            n == st@.len(),
            digit_end(st@, from as int) == digit_end(st@, j as int),
        ensures
            from <= j <= n && j == digit_end(st@, from as int),
        decreases n - j,
    {
        if j >= n {
            break ;
        }
        if !digit(st.get_char(j)) {
            break ;
        }
        j = j + 1;
    }
    j
}

/// Scans past a hexadecimal-digit run.
fn scan_hex(st: &str, n: usize, from: usize) -> (e: usize)
    requires
        n == st@.len(),
        from <= n,
    ensures
        from <= e <= n,
        e == hex_end(st@, from as int),
{
    let mut j = from;
    loop
        invariant
            from <= j <= n,
            n == st@.len(),
            hex_end(st@, from as int) == hex_end(st@, j as int),
        ensures
            from <= j <= n && j == hex_end(st@, from as int),
        decreases n - j,
    {
        if j >= n {
            break ;
        }
        if !hex_digit(st.get_char(j)) {
            break ;
        }
        j = j + 1;
    }
    j
}

/// Whether a character vector is exactly the one given character.
fn eq1(v: &Vec<char>, a: char) -> (r: bool)
    ensures
        r == (v@ == seq![a]),
{
    if v.len() == 1 && *v.get(0).unwrap() == a {
        proof {
            assert(v@ =~= seq![a]);
        }
        true
    } else {
        false
    }
}

/// Whether a character vector is exactly the two given characters.
fn eq2(v: &Vec<char>, a: char, b: char) -> (r: bool)
    ensures
        r == (v@ == seq![a, b]),
{
    if v.len() == 2 && *v.get(0).unwrap() == a && *v.get(1).unwrap() == b {
        proof {
            assert(v@ =~= seq![a, b]);
        }
        true
    } else {
        false
    }
}

/// Whether a character vector is exactly the three given characters.
fn eq3(v: &Vec<char>, a: char, b: char, c: char) -> (r: bool)
    ensures
        r == (v@ == seq![a, b, c]),
{
    if v.len() == 3 && *v.get(0).unwrap() == a && *v.get(1).unwrap() == b && *v.get(2).unwrap()
        == c {
        proof {
            assert(v@ =~= seq![a, b, c]);
        }
        true
    } else {
        false
    }
}

/// Whether a character vector is exactly the four given characters.
fn eq4(v: &Vec<char>, a: char, b: char, c: char, d: char) -> (r: bool)
    ensures
        r == (v@ == seq![a, b, c, d]),
{
    if v.len() == 4 && *v.get(0).unwrap() == a && *v.get(1).unwrap() == b && *v.get(2).unwrap()
        == c && *v.get(3).unwrap() == d {
        proof {
            assert(v@ =~= seq![a, b, c, d]);
        }
        true
    } else {
        false
    }
}

/// Whether a character vector is exactly the five given characters.
fn eq5(v: &Vec<char>, a: char, b: char, c: char, d: char, e: char) -> (r: bool)
    ensures
        r == (v@ == seq![a, b, c, d, e]),
{
    if v.len() == 5 && *v.get(0).unwrap() == a && *v.get(1).unwrap() == b && *v.get(2).unwrap()
        == c && *v.get(3).unwrap() == d && *v.get(4).unwrap() == e {
        proof {
            assert(v@ =~= seq![a, b, c, d, e]);
        }
        true
    } else {
        false
    }
}

/// Looks a lowercased identifier run up in the keyword table.
fn keyword_lookup(v: &Vec<char>) -> (r: Option<ScuDspToken>)
    ensures
        r == keyword_of(v@),
        r matches Some(k) ==> k.is_plain(),
{
    if eq3(v, 'n', 'o', 'p') {
        Some(ScuDspToken::Nop)
    } else if eq3(v, 'm', 'o', 'v') {
        Some(ScuDspToken::Mov)
    } else if eq3(v, 'a', 'l', 'h') {
        Some(ScuDspToken::Alh)
    } else if eq3(v, 'a', 'l', 'l') {
        Some(ScuDspToken::All)
    } else if eq2(v, 'm', '0') {
        Some(ScuDspToken::M0)
    } else if eq2(v, 'm', '1') {
        Some(ScuDspToken::M1)
    } else if eq2(v, 'm', '2') {
        Some(ScuDspToken::M2)
    } else if eq2(v, 'm', '3') {
        Some(ScuDspToken::M3)
    } else if eq3(v, 'm', 'c', '0') {
        Some(ScuDspToken::Mc0)
    } else if eq3(v, 'm', 'c', '1') {
        Some(ScuDspToken::Mc1)
    } else if eq3(v, 'm', 'c', '2') {
        Some(ScuDspToken::Mc2)
    } else if eq3(v, 'm', 'c', '3') {
        Some(ScuDspToken::Mc3)
    } else if eq2(v, 'r', 'x') {
        Some(ScuDspToken::Rx)
    } else if eq2(v, 'p', 'l') {
        Some(ScuDspToken::Pl)
    } else if eq3(v, 'r', 'a', '0') {
        Some(ScuDspToken::Ra0)
    } else if eq3(v, 'w', 'a', '0') {
        Some(ScuDspToken::Wa0)
    } else if eq3(v, 'l', 'o', 'p') {
        Some(ScuDspToken::Lop)
    } else if eq3(v, 't', 'o', 'p') {
        Some(ScuDspToken::Top)
    } else if eq3(v, 'c', 't', '0') {
        Some(ScuDspToken::Ct0)
    } else if eq3(v, 'c', 't', '1') {
        Some(ScuDspToken::Ct1)
    } else if eq3(v, 'c', 't', '2') {
        Some(ScuDspToken::Ct2)
    } else if eq3(v, 'c', 't', '3') {
        Some(ScuDspToken::Ct3)
    } else if eq3(v, 'a', 'n', 'd') {
        Some(ScuDspToken::And)
    } else if eq2(v, 'o', 'r') {
        Some(ScuDspToken::Or)
    } else if eq3(v, 'x', 'o', 'r') {
        Some(ScuDspToken::Xor)
    } else if eq3(v, 'a', 'd', 'd') {
        Some(ScuDspToken::Add)
    } else if eq3(v, 's', 'u', 'b') {
        Some(ScuDspToken::Sub)
    } else if eq3(v, 'a', 'd', '2') {
        Some(ScuDspToken::Ad2)
    } else if eq2(v, 's', 'r') {
        Some(ScuDspToken::Sr)
    } else if eq2(v, 'r', 'r') {
        Some(ScuDspToken::Rr)
    } else if eq2(v, 's', 'l') {
        Some(ScuDspToken::Sl)
    } else if eq2(v, 'r', 'l') {
        Some(ScuDspToken::Rl)
    } else if eq3(v, 'r', 'l', '8') {
        Some(ScuDspToken::Rl8)
    } else if eq1(v, 'x') {
        Some(ScuDspToken::X)
    } else if eq1(v, 'p') {
        Some(ScuDspToken::P)
    } else if eq3(v, 'm', 'u', 'l') {
        Some(ScuDspToken::Mul)
    } else if eq1(v, 'y') {
        Some(ScuDspToken::Y)
    } else if eq3(v, 'c', 'l', 'r') {
        Some(ScuDspToken::Clr)
    } else if eq3(v, 'a', 'l', 'u') {
        Some(ScuDspToken::Alu)
    } else if eq1(v, 'a') {
        Some(ScuDspToken::A)
    } else if eq3(v, 'm', 'v', 'i') {
        Some(ScuDspToken::Mvi)
    } else if eq1(v, 'z') {
        Some(ScuDspToken::Z)
    } else if eq2(v, 'n', 'z') {
        Some(ScuDspToken::Nz)
    } else if eq1(v, 's') {
        Some(ScuDspToken::S)
    } else if eq2(v, 'n', 's') {
        Some(ScuDspToken::Ns)
    } else if eq1(v, 'c') {
        Some(ScuDspToken::C)
    } else if eq2(v, 'n', 'c') {
        Some(ScuDspToken::Nc)
    } else if eq2(v, 't', '0') {
        Some(ScuDspToken::T0)
    } else if eq3(v, 'n', 't', '0') {
        Some(ScuDspToken::Nt0)
    } else if eq2(v, 'z', 's') {
        Some(ScuDspToken::Zs)
    } else if eq3(v, 'n', 'z', 's') {
        Some(ScuDspToken::Nzs)
    } else if eq3(v, 'd', 'm', 'a') {
        Some(ScuDspToken::Dma)
    } else if eq4(v, 'd', 'm', 'a', 'h') {
        Some(ScuDspToken::Dmah)
    } else if eq2(v, 'd', '0') {
        Some(ScuDspToken::D0)
    } else if eq3(v, 'j', 'm', 'p') {
        Some(ScuDspToken::Jmp)
    } else if eq3(v, 'b', 't', 'm') {
        Some(ScuDspToken::Btm)
    } else if eq3(v, 'l', 'p', 's') {
        Some(ScuDspToken::Lps)
    } else if eq3(v, 'e', 'n', 'd') {
        Some(ScuDspToken::End)
    } else if eq4(v, 'e', 'n', 'd', 'i') {
        Some(ScuDspToken::Endi)
    } else if eq3(v, 'e', 'q', 'u') {
        Some(ScuDspToken::Equ)
    } else if eq3(v, 'o', 'r', 'g') {
        Some(ScuDspToken::Org)
    } else if eq4(v, 'e', 'n', 'd', 's') {
        Some(ScuDspToken::Ends)
    } else if eq2(v, 'i', 'f') {
        Some(ScuDspToken::If)
    } else if eq5(v, 'i', 'f', 'd', 'e', 'f') {
        Some(ScuDspToken::Ifdef)
    } else if eq5(v, 'e', 'n', 'd', 'i', 'f') {
        Some(ScuDspToken::Endif)
    } else {
        None
    }
}

/// Lexes an assembly document into its token sequence, or reports the
/// position of the first character run that matches no token rule. The
/// outcome is exactly what `lex_spec` describes.
pub fn lex(document: &str) -> (r: Result<Vec<ScuDspToken>, AsmError>)
    ensures
        ({
            match lex_spec(document@, 0) {
                Ok(models) => r matches Ok(toks) && models_of(toks@) == models,
                Err(p) => r matches Err(e) && e == (AsmError::Lexical { position: p as usize }),
            }
        }),
{
    let ghost s = document@;
    let n = document.unicode_len();
    let mut toks: Vec<ScuDspToken> = Vec::new();
    let mut i: usize = 0;
    proof {
        assert(models_of(Seq::<ScuDspToken>::empty()) =~= Seq::<LexTok>::empty());
        match lex_spec(s, 0) {
            Ok(ts) => {
                assert(Seq::<LexTok>::empty() + ts =~= ts);
            }
            Err(_) => {}
        }
    }
    while i < n
        invariant
            s == document@,
            n == s.len(),
            i <= n,
            lex_spec(s, 0) == lex_combine(models_of(toks@), lex_spec(s, i as int)),
        decreases n - i,
    {
        let ghost prev_toks = toks@;
        let ghost ii = i as int;
        let c = document.get_char(i);
        if c == ' ' || c == '\t' {
            i = i + 1;
        } else if c == ';' {
            let e = scan_comment(document, n, i + 1);
            i = e;
        } else if c == ',' {
            toks.push(ScuDspToken::Comma);
            proof {
                lemma_lex_compose(prev_toks, ScuDspToken::Comma, lex_spec(s, ii + 1));
            }
            i = i + 1;
        } else if c == '\\' {
            toks.push(ScuDspToken::Backslash);
            proof {
                lemma_lex_compose(prev_toks, ScuDspToken::Backslash, lex_spec(s, ii + 1));
            }
            i = i + 1;
        } else if c == '=' {
            toks.push(ScuDspToken::Equals);
            proof {
                lemma_lex_compose(prev_toks, ScuDspToken::Equals, lex_spec(s, ii + 1));
            }
            i = i + 1;
        } else if c == '\n' {
            let e = scan_newlines(document, n, i + 1);
            toks.push(ScuDspToken::Newline);
            proof {
                lemma_lex_compose(prev_toks, ScuDspToken::Newline, lex_spec(s, e as int));
            }
            i = e;
        } else if c == '\r' {
            if i + 1 < n && document.get_char(i + 1) == '\n' {
                let e = scan_newlines(document, n, i + 1);
                toks.push(ScuDspToken::Newline);
                proof {
                    lemma_lex_compose(prev_toks, ScuDspToken::Newline, lex_spec(s, e as int));
                }
                i = e;
            } else {
                return Err(AsmError::Lexical { position: i });
            }
        } else if alpha(c) {
            let e = scan_word(document, n, i + 1);
            if e < n && document.get_char(e) == ':' {
                let run = document.substring_char(i, e);
                let name = String::from_str(run);
                let tok = ScuDspToken::Label(name);
                proof {
                    lemma_lex_compose(prev_toks, tok, lex_spec(s, e + 1));
                }
                toks.push(tok);
                i = e + 1;
            } else {
                let mut low: Vec<char> = Vec::new();
                let mut j = i;
                let ghost run_chars = s.subrange(i as int, e as int);
                while j < e
                    invariant
                        s == document@,
                        n == s.len(),
                        ii <= j <= e <= n,
                        ii == i,
                        run_chars == s.subrange(ii, e as int),
                        low@ == lower_seq(run_chars).take(j - ii),
                    decreases e - j,
                {
                    let lc = lower_char(document.get_char(j));
                    low.push(lc);
                    proof {
                        assert(lower_seq(run_chars).take(j + 1 - ii) =~= lower_seq(
                            run_chars,
                        ).take(j - ii).push(to_lower_char(run_chars[j - ii])));
                    }
                    j = j + 1;
                }
                proof {
                    assert(low@ =~= lower_seq(run_chars));
                }
                match keyword_lookup(&low) {
                    Some(k) => {
                        proof {
                            lemma_lex_compose(prev_toks, k, lex_spec(s, e as int));
                        }
                        toks.push(k);
                        i = e;
                    }
                    None => {
                        let run = document.substring_char(i, e);
                        let tok = ScuDspToken::Ident(String::from_str(run));
                        proof {
                            lemma_lex_compose(prev_toks, tok, lex_spec(s, e as int));
                        }
                        toks.push(tok);
                        i = e;
                    }
                }
            }
        } else if c == '$' {
            if i + 1 < n && hex_digit(document.get_char(i + 1)) {
                let e = scan_hex(document, n, i + 1);
                let run = document.substring_char(i, e);
                let tok = ScuDspToken::Num(String::from_str(run));
                proof {
                    lemma_lex_compose(prev_toks, tok, lex_spec(s, e as int));
                }
                toks.push(tok);
                i = e;
            } else {
                return Err(AsmError::Lexical { position: i });
            }
        } else if c == '#' || c == '%' {
            if i + 1 < n && digit(document.get_char(i + 1)) {
                let e = scan_digits(document, n, i + 1);
                let run = document.substring_char(i, e);
                let tok = ScuDspToken::Num(String::from_str(run));
                proof {
                    lemma_lex_compose(prev_toks, tok, lex_spec(s, e as int));
                }
                toks.push(tok);
                i = e;
            } else {
                return Err(AsmError::Lexical { position: i });
            }
        } else if digit(c) {
            let e = scan_digits(document, n, i + 1);
            let run = document.substring_char(i, e);
            let tok = ScuDspToken::Num(String::from_str(run));
            proof {
                lemma_lex_compose(prev_toks, tok, lex_spec(s, e as int));
            }
            toks.push(tok);
            i = e;
        } else {
            return Err(AsmError::Lexical { position: i });
        }
    }
    proof {
        match lex_spec(s, 0) {
            Ok(ts) => {
                assert(models_of(toks@) + Seq::<LexTok>::empty() =~= models_of(toks@));
            }
            Err(_) => {}
        }
    }
    Ok(toks)
}

} // verus!
