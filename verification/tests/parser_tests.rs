use socute::emitter::Program;
use socute::errors::AsmError;
use socute::parser::{document, instr, num, parse_num_literal, Cursor};
use socute::tokeniser::{lex, ScuDspToken};

/// Lexes and parses a whole document into a fresh program.
fn assemble(src: &str) -> Result<Program, AsmError> {
    let toks = lex(src)?;
    let mut prog = Program::default();
    document(&toks, &mut prog)?;
    Ok(prog)
}

/// The committed words of a document that must assemble cleanly.
fn words_of(src: &str) -> Vec<u32> {
    assemble(src).unwrap().prog
}

#[test]
fn test_parse_alu() {
    let document = r#"xor ; another one"#;
    let tokens = lex(document).unwrap();
    let mut cur = Cursor::new(&tokens);
    let mut prog = Program::default();
    prog.begin();
    instr(&mut cur, &mut prog).unwrap();
}

#[test]
fn test_mov_mul_p() {
    let document = r#"mov mul, p ;;; another other one"#;
    let tokens = lex(document).unwrap();
    let mut cur = Cursor::new(&tokens);
    let mut prog = Program::default();
    prog.begin();
    instr(&mut cur, &mut prog).unwrap();
}

#[test]
fn test_mov_s_p() {
    let doc = r#"
            MOV MC3,X
            MOV M3,P
            CLR A
        "#;
    let toks = lex(doc).unwrap();
    let mut prog = Program::default();
    document(&toks, &mut prog).unwrap();
}

#[test]
fn test_with_end() {
    let doc = r#"
            MOV MC3,X       MOV M3,P    MOV M0, Y
            CLR A
            ENDI

            CLR A
        "#;
    let toks = lex(doc).unwrap();
    let mut prog = Program::default();
    document(&toks, &mut prog).unwrap();
    let dump = prog.debug_dump();
    assert_eq!(dump.len(), 4);
}

#[test]
fn test_end_must_be_on_its_own() {
    let doc = r#"
            CLR A
            ENDI    CLR A
        "#;
    let toks = lex(doc).unwrap();
    let mut prog = Program::default();
    let res = document(&toks, &mut prog);
    assert!(res.is_err());
}

#[test]
fn test_btm_must_be_on_its_own() {
    let doc = r#"
            CLR A
            BTM     CLR A
        "#;
    let toks = lex(doc).unwrap();
    let mut prog = Program::default();
    let res = document(&toks, &mut prog);
    assert!(res.is_err());
}

#[test]
fn test_alu_words() {
    // each ALU mnemonic alone on a line yields exactly its fixed pattern
    assert_eq!(words_of("nop\n"), vec![0x0000_0000]);
    assert_eq!(words_of("and\n"), vec![0x0400_0000]);
    assert_eq!(words_of("or\n"), vec![0x0800_0000]);
    assert_eq!(words_of("xor\n"), vec![0x0C00_0000]);
    assert_eq!(words_of("add\n"), vec![0x1000_0000]);
    assert_eq!(words_of("sub\n"), vec![0x1400_0000]);
    assert_eq!(words_of("ad2\n"), vec![0x1800_0000]);
    assert_eq!(words_of("sr\n"), vec![0x2000_0000]);
    assert_eq!(words_of("rr\n"), vec![0x2400_0000]);
    assert_eq!(words_of("sl\n"), vec![0x2800_0000]);
    assert_eq!(words_of("rl\n"), vec![0x2C00_0000]);
    assert_eq!(words_of("rl8\n"), vec![0x3C00_0000]);
}

#[test]
fn test_clr_a_word() {
    assert_eq!(words_of("CLR A\n"), vec![0x0002_0000]);
}

#[test]
fn test_flow_control_words() {
    assert_eq!(words_of("BTM\n"), vec![0xE000_0000]);
    assert_eq!(words_of("LPS\n"), vec![0xE800_0000]);
    assert_eq!(words_of("END\n"), vec![0xF000_0000]);
    assert_eq!(words_of("ENDI\n"), vec![0xF800_0000]);
}

#[test]
fn test_mov_special_forms() {
    assert_eq!(words_of("MOV MUL, P\n"), vec![0x0100_0000]);
    assert_eq!(words_of("MOV ALU, A\n"), vec![0x0004_0000]);
}

#[test]
fn test_mov_memory_operand_encoding() {
    // every memory operand against every destination: the operand's
    // ordinal at the destination's offset (bit 20 for X and P, bit 14 for
    // Y), OR'd with the destination's base bits
    let operands = ["M0", "M1", "M2", "M3", "MC0", "MC1", "MC2", "MC3"];
    for (ord, name) in operands.iter().enumerate() {
        let x = words_of(&format!("MOV {}, X\n", name));
        assert_eq!(x, vec![0x0200_0000 | ((ord as u32) << 20)]);
        let p = words_of(&format!("MOV {}, P\n", name));
        assert_eq!(p, vec![0x0180_0000 | ((ord as u32) << 20)]);
        let y = words_of(&format!("MOV {}, Y\n", name));
        assert_eq!(y, vec![0x0008_0000 | ((ord as u32) << 14)]);
    }
}

#[test]
fn test_mov_bad_address() {
    let res = assemble("MOV Z, X\n");
    assert!(matches!(
        res,
        Err(AsmError::IllegalMovAddress { found: ScuDspToken::Z })
    ));
}

#[test]
fn test_mov_bad_source() {
    let res = assemble("MOV M0, M1\n");
    assert!(matches!(res, Err(AsmError::IllegalMovSource { .. })));
}

#[test]
fn test_two_alu_rejected() {
    // two ALU-slot instructions in one bundle violate the ALU limit even
    // with every other slot empty
    assert!(matches!(assemble("and or\n"), Err(AsmError::TooManyAlu)));
    assert!(matches!(assemble("nop nop\n"), Err(AsmError::TooManyAlu)));
}

#[test]
fn test_two_xbus_accepted_three_rejected() {
    let two = words_of("MOV M0, X MOV M1, X\n");
    assert_eq!(two, vec![0x0200_0000 | 0x0210_0000]);
    assert!(matches!(
        assemble("MOV M0, X MOV M1, X MOV M2, X\n"),
        Err(AsmError::TooManyXBus)
    ));
}

#[test]
fn test_two_ybus_accepted_three_rejected() {
    let two = words_of("MOV M0, Y MOV M1, Y\n");
    assert_eq!(two, vec![0x0008_0000 | 0x0008_4000]);
    assert!(matches!(
        assemble("MOV M0, Y MOV M1, Y MOV M2, Y\n"),
        Err(AsmError::TooManyYBus)
    ));
}

#[test]
fn test_full_bundle() {
    // one ALU, two X-Bus and two Y-Bus instructions may share a bundle
    let w = words_of("CLR A MOV M0, X MOV M1, X MOV M2, Y MOV M3, Y\n");
    assert_eq!(
        w,
        vec![0x0002_0000 | 0x0200_0000 | 0x0210_0000 | 0x0008_8000 | 0x0008_C000]
    );
}

#[test]
fn test_end_to_end_scenario() {
    let prog = assemble("MOV MC3,X       MOV M3,P    MOV M0, Y\nCLR A\nENDI\n\nCLR A\n").unwrap();
    assert_eq!(
        prog.prog,
        vec![0x0270_0000 | 0x01B0_0000 | 0x0008_0000, 0x0002_0000, 0xF800_0000, 0x0002_0000]
    );
    assert_eq!(prog.pc, 16);
}

#[test]
fn test_blank_and_comment_document() {
    // blank lines and comments produce no words and leave the program
    // counter at 0
    let prog = assemble("; a comment\n\n\n   ; another\n").unwrap();
    assert_eq!(prog.prog, Vec::<u32>::new());
    assert_eq!(prog.pc, 0);
}

#[test]
fn test_label_before_instruction() {
    let prog = assemble("start: CLR A\nloop1: CLR A\n").unwrap();
    assert_eq!(prog.lookup_label("start"), Some(0));
    assert_eq!(prog.lookup_label("loop1"), Some(4));
    assert_eq!(prog.lookup_label("absent"), None);
}

#[test]
fn test_label_on_its_own_line() {
    // a label with no instructions on its line registers against the next
    // committed bundle
    let prog = assemble("CLR A\nhere:\n\nCLR A\n").unwrap();
    assert_eq!(prog.lookup_label("here"), Some(4));
    assert_eq!(prog.prog.len(), 2);
}

#[test]
fn test_label_redefinition_overwrites() {
    let prog = assemble("a:\nCLR A\na:\nCLR A\n").unwrap();
    assert_eq!(prog.lookup_label("a"), Some(4));
}

#[test]
fn test_label_after_instruction_rejected() {
    let res = assemble("CLR A foo: CLR A\n");
    assert!(matches!(res, Err(AsmError::BadInstruction { .. })));
}

#[test]
fn test_unrecognized_instruction() {
    let res = assemble("frobnicate\n");
    assert!(matches!(
        res,
        Err(AsmError::BadInstruction { found: ScuDspToken::Ident(ref s) }) if s == "frobnicate"
    ));
}

#[test]
fn test_unimplemented_mnemonic_rejected() {
    // JMP is recognized by the lexer but not yet implemented
    assert!(matches!(
        assemble("jmp nt0\n"),
        Err(AsmError::BadInstruction { found: ScuDspToken::Jmp })
    ));
}

#[test]
fn test_missing_comma() {
    let res = assemble("MOV MUL P\n");
    assert!(matches!(
        res,
        Err(AsmError::ExpectedToken { expected: ScuDspToken::Comma, found: ScuDspToken::P })
    ));
}

#[test]
fn test_unexpected_end_of_input() {
    let toks = lex("MOV MUL,").unwrap();
    let mut prog = Program::default();
    let res = document(&toks, &mut prog);
    assert_eq!(res, Err(AsmError::UnexpectedEnd));
}

#[test]
fn test_num_forms_agree() {
    // all four textual forms denote the same value
    assert_eq!(parse_num_literal(&"$1F".to_string()), Ok(31));
    assert_eq!(parse_num_literal(&"#31".to_string()), Ok(31));
    assert_eq!(parse_num_literal(&"%11111".to_string()), Ok(31));
    assert_eq!(parse_num_literal(&"31".to_string()), Ok(31));
}

#[test]
fn test_num_malformed() {
    assert_eq!(
        parse_num_literal(&"%12".to_string()),
        Err(AsmError::MalformedNumber)
    );
    assert_eq!(
        parse_num_literal(&"".to_string()),
        Err(AsmError::MalformedNumber)
    );
    assert_eq!(
        parse_num_literal(&"4294967296".to_string()),
        Err(AsmError::MalformedNumber)
    );
    assert_eq!(parse_num_literal(&"4294967295".to_string()), Ok(0xFFFF_FFFF));
}

#[test]
fn test_num_through_cursor() {
    let toks = lex("$ff").unwrap();
    let mut cur = Cursor::new(&toks);
    assert_eq!(num(&mut cur), Ok(255));

    let toks = lex("mov").unwrap();
    let mut cur = Cursor::new(&toks);
    assert_eq!(num(&mut cur), Err(AsmError::ExpectedNumber));
}

#[test]
fn test_immediate_range() {
    // the signed-immediate MOV form takes the literal in source position;
    // it is range-checked but contributes no bits yet
    let prog = assemble("MOV 126, X\n").unwrap();
    assert_eq!(prog.prog, Vec::<u32>::new());
    assert!(matches!(
        assemble("MOV 127, X\n"),
        Err(AsmError::ImmediateOutOfRange { value: 127 })
    ));
    assert!(matches!(
        assemble("MOV $7F, Y\n"),
        Err(AsmError::ImmediateOutOfRange { value: 127 })
    ));
}

#[test]
fn test_immediate_destination_checked() {
    let res = assemble("MOV 42, M0\n");
    assert!(matches!(
        res,
        Err(AsmError::IllegalMovDestination { found: ScuDspToken::M0 })
    ));
}

#[test]
fn test_literal_after_comma_rejected() {
    // a numeric literal is the immediate form's source, not a destination
    let res = assemble("MOV M0, 42\n");
    assert!(matches!(
        res,
        Err(AsmError::IllegalMovSource { found: ScuDspToken::Num(ref s) }) if s == "42"
    ));
}

#[test]
fn test_line_counter() {
    let mut prog = Program::default();
    let toks = lex("CLR A\nCLR A\nand or\n").unwrap();
    let res = document(&toks, &mut prog);
    assert!(res.is_err());
    // the failing bundle is flushed at the line break of line 2 (0-based)
    assert_eq!(prog.line, 2);
}
