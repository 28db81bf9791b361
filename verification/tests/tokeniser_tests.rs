use socute::errors::AsmError;
use socute::tokeniser::{lex, ScuDspToken};

#[test]
fn test_comment() {
    let toks = lex("; comment").unwrap();
    assert_eq!(toks, Vec::<ScuDspToken>::new());
}

#[test]
fn test_mov_comment() {
    let toks = lex("mov ; comment").unwrap();
    assert_eq!(toks, vec![ScuDspToken::Mov]);
}

#[test]
fn test_mov_comment_case_sensitive() {
    let toks = lex("MOV ; coMMeNT").unwrap();
    assert_eq!(toks, vec![ScuDspToken::Mov]);
}

#[test]
fn test_label_or_ident() {
    let toks = lex("x:").unwrap();
    assert_eq!(toks, vec![ScuDspToken::Label("x".into())]);

    let toks = lex("xident").unwrap();
    assert_eq!(toks, vec![ScuDspToken::Ident("xident".into())]);
}

#[test]
fn test_clr_a() {
    let toks = lex("CLR A").unwrap();
    assert_eq!(toks, vec![ScuDspToken::Clr, ScuDspToken::A]);

    let toks = lex("clr   a").unwrap();
    assert_eq!(toks, vec![ScuDspToken::Clr, ScuDspToken::A]);

    let toks = lex("clra").unwrap();
    assert_ne!(toks.first(), Some(&ScuDspToken::Clr));
}

#[test]
fn test_full_document() {
    let doc = r#"; comment
            MOV $1, ident       MOV $2, ALU
            label:
                jmp nt0 ; inline comment
        "#;

    let toks = lex(doc).unwrap();
    assert_eq!(
        toks,
        vec![
            ScuDspToken::Newline,
            ScuDspToken::Mov,
            ScuDspToken::Num("$1".into()),
            ScuDspToken::Comma,
            ScuDspToken::Ident("ident".into()),
            ScuDspToken::Mov,
            ScuDspToken::Num("$2".into()),
            ScuDspToken::Comma,
            ScuDspToken::Alu,
            ScuDspToken::Newline,
            ScuDspToken::Label("label".into()),
            ScuDspToken::Newline,
            ScuDspToken::Jmp,
            ScuDspToken::Nt0,
            ScuDspToken::Newline,
        ]
    );
}

#[test]
fn test_keywords_case_insensitive() {
    let toks = lex("XoR eNdI Mc3").unwrap();
    assert_eq!(
        toks,
        vec![ScuDspToken::Xor, ScuDspToken::Endi, ScuDspToken::Mc3]
    );
}

#[test]
fn test_keyword_prefix_is_ident() {
    // a run that merely begins with a keyword is an identifier
    let toks = lex("xor2 nops").unwrap();
    assert_eq!(
        toks,
        vec![
            ScuDspToken::Ident("xor2".into()),
            ScuDspToken::Ident("nops".into()),
        ]
    );
}

#[test]
fn test_keyword_label() {
    // an identifier run followed by a colon is a label even if it spells a
    // keyword
    let toks = lex("nop:").unwrap();
    assert_eq!(toks, vec![ScuDspToken::Label("nop".into())]);
}

#[test]
fn test_newlines_collapse() {
    let toks = lex("nop\n\n\nnop").unwrap();
    assert_eq!(
        toks,
        vec![
            ScuDspToken::Nop,
            ScuDspToken::Newline,
            ScuDspToken::Nop,
        ]
    );
}

#[test]
fn test_carriage_return_newline() {
    let toks = lex("nop\r\nnop").unwrap();
    assert_eq!(
        toks,
        vec![
            ScuDspToken::Nop,
            ScuDspToken::Newline,
            ScuDspToken::Nop,
        ]
    );
}

#[test]
fn test_number_forms_lex() {
    let toks = lex("$1F #31 %11111 31").unwrap();
    assert_eq!(
        toks,
        vec![
            ScuDspToken::Num("$1F".into()),
            ScuDspToken::Num("#31".into()),
            ScuDspToken::Num("%11111".into()),
            ScuDspToken::Num("31".into()),
        ]
    );
}

#[test]
fn test_punctuation() {
    let toks = lex("= , \\").unwrap();
    assert_eq!(
        toks,
        vec![
            ScuDspToken::Equals,
            ScuDspToken::Comma,
            ScuDspToken::Backslash,
        ]
    );
}

#[test]
fn test_lex_error_position() {
    match lex("nop ~") {
        Err(AsmError::Lexical { position }) => assert_eq!(position, 4),
        other => panic!("expected a lexical error, got {:?}", other),
    }
}

#[test]
fn test_lex_error_bare_carriage_return() {
    assert!(matches!(
        lex("a\rb"),
        Err(AsmError::Lexical { position: 1 })
    ));
}

#[test]
fn test_lex_error_bare_dollar() {
    assert!(matches!(lex("$"), Err(AsmError::Lexical { position: 0 })));
    assert!(matches!(lex("$ 1"), Err(AsmError::Lexical { position: 0 })));
}

#[test]
fn test_lex_error_underscore_start() {
    assert!(matches!(
        lex("_x"),
        Err(AsmError::Lexical { position: 0 })
    ));
}

#[test]
fn test_token_predicates() {
    assert!(ScuDspToken::Num("42".into()).is_number());
    assert!(!ScuDspToken::Mov.is_number());
    assert!(ScuDspToken::Label("a".into()).is_label());
    assert!(!ScuDspToken::Ident("a".into()).is_label());
    assert!(ScuDspToken::Ident("a".into()).is_ident());
    assert!(!ScuDspToken::Num("1".into()).is_ident());
}
