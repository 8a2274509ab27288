use stnx::lexer::indent::{compute_indent, is_blank_or_comment_line, run};
use stnx::lexer::prepare::prepare;
use stnx::lexer::{tokenize, Token, TokenKind};
use stnx::lexer::render::kind_text_of;

fn lex(src: &str) -> Vec<Token> {
    tokenize(src).expect("lex")
}

fn lex_kinds(src: &str) -> Vec<TokenKind> {
    lex(src).into_iter().map(|t| t.kind).collect()
}

fn kinds(toks: &[Token]) -> Vec<TokenKind> {
    toks.iter().map(|t| t.kind.clone()).collect()
}

#[test]
fn test_mod_keyword() {
    assert_eq!(lex_kinds("mod"), vec![TokenKind::Mod]);
}

#[test]
fn test_use_keyword() {
    assert_eq!(lex_kinds("use"), vec![TokenKind::Use]);
}

#[test]
fn test_pub_keyword() {
    assert_eq!(lex_kinds("pub"), vec![TokenKind::Pub]);
}

#[test]
fn test_as_keyword_is_reserved() {
    assert_eq!(lex_kinds("as"), vec![TokenKind::As]);
}

#[test]
fn test_mod_decl_tokens() {
    assert_eq!(lex_kinds("mod io"), vec![TokenKind::Mod, TokenKind::Ident("io".to_string())]);
}

#[test]
fn test_pub_mod_tokens() {
    assert_eq!(
        lex_kinds("pub mod io"),
        vec![TokenKind::Pub, TokenKind::Mod, TokenKind::Ident("io".to_string())]
    );
}

#[test]
fn test_use_path_tokens() {
    assert_eq!(
        lex_kinds("use io::println"),
        vec![
            TokenKind::Use,
            TokenKind::Ident("io".to_string()),
            TokenKind::DoubleColon,
            TokenKind::Println,
        ]
    );
}

#[test]
fn test_all_module_keywords_are_distinct() {
    assert_eq!(
        lex_kinds("mod use pub as"),
        vec![TokenKind::Mod, TokenKind::Use, TokenKind::Pub, TokenKind::As]
    );
}

#[test]
fn test_mod_not_confused_with_identifier() {
    assert_eq!(lex_kinds("modern"), vec![TokenKind::Ident("modern".to_string())]);
}

#[test]
fn lex_literals_and_spans() {
    let toks = lex("let x = 42");
    assert_eq!(
        kinds(&toks),
        vec![
            TokenKind::Let,
            TokenKind::Ident("x".to_string()),
            TokenKind::Assign,
            TokenKind::Integer(42),
        ]
    );
    assert_eq!(toks[0].span.start, 0);
    assert_eq!(toks[0].span.end, 3);
    assert_eq!(toks[3].span.start, 8);
    assert_eq!(toks[3].span.end, 10);
}

#[test]
fn lex_longest_operator_wins() {
    assert_eq!(
        lex_kinds("a += 1 -> b == c"),
        vec![
            TokenKind::Ident("a".to_string()),
            TokenKind::PlusAssign,
            TokenKind::Integer(1),
            TokenKind::RArrow,
            TokenKind::Ident("b".to_string()),
            TokenKind::EqEq,
            TokenKind::Ident("c".to_string()),
        ]
    );
}

#[test]
fn lex_float_keeps_text() {
    assert_eq!(lex_kinds("3.25"), vec![TokenKind::Float("3.25".to_string())]);
}

#[test]
fn lex_string_literal_content() {
    assert_eq!(lex_kinds("\"hi\""), vec![TokenKind::StrLit("hi".to_string())]);
}

#[test]
fn lex_skips_comments() {
    assert_eq!(lex_kinds("x // note\ny"), vec![
        TokenKind::Ident("x".to_string()),
        TokenKind::Ident("y".to_string()),
    ]);
}

#[test]
fn lex_error_on_unknown_character() {
    let err = tokenize("a $ b").unwrap_err();
    assert_eq!(err.offset, 2);
}

#[test]
fn test_no_indent_emits_no_synthetic_tokens() {
    let src = "fn f() -> i64 { 0 }";
    let toks = lex(src);
    let out = run(src, toks).unwrap().tokens;
    assert!(!out.iter().any(|t| matches!(t.kind, TokenKind::Indent)));
    assert!(!out.iter().any(|t| matches!(t.kind, TokenKind::Dedent)));
}

#[test]
fn test_two_lines_emits_newline_and_indent() {
    let src = "fn a():\n    pass\n";
    let toks = lex(src);
    let out = run(src, toks).unwrap().tokens;
    assert!(out.iter().any(|t| matches!(t.kind, TokenKind::Newline)));
    assert!(out.iter().any(|t| matches!(t.kind, TokenKind::Indent)));
    assert!(out.iter().any(|t| matches!(t.kind, TokenKind::Dedent)));
}

#[test]
fn test_balanced_indent_dedent() {
    let src = "fn a():\n    x = 1\n    y = 2\nfn b():\n    pass\n";
    let toks = lex(src);
    let out = run(src, toks).unwrap().tokens;
    let k = kinds(&out);
    let indent_count = k.iter().filter(|x| matches!(x, TokenKind::Indent)).count();
    let dedent_count = k.iter().filter(|x| matches!(x, TokenKind::Dedent)).count();
    assert_eq!(indent_count, 2);
    assert_eq!(dedent_count, 2);
}

#[test]
fn test_blank_lines_ignored() {
    let src = "fn a():\n\n    x = 1\n";
    let toks = lex(src);
    let out = run(src, toks).unwrap().tokens;
    let k = kinds(&out);
    let indent_count = k.iter().filter(|x| matches!(x, TokenKind::Indent)).count();
    assert_eq!(indent_count, 1);
}

#[test]
fn indent_mismatch_is_an_error() {
    let src = "fn a():\n    x = 1\n  y = 2\n";
    let toks = lex(src);
    assert!(run(src, toks).is_err());
}

#[test]
fn blank_and_comment_lines() {
    assert!(is_blank_or_comment_line(""));
    assert!(is_blank_or_comment_line("   \t "));
    assert!(is_blank_or_comment_line("  // note"));
    assert!(!is_blank_or_comment_line("  x // note"));
    assert!(!is_blank_or_comment_line("/ x"));
}

#[test]
fn indent_counts_spaces_and_tabs() {
    assert_eq!(compute_indent(""), 0);
    assert_eq!(compute_indent("    x"), 4);
    assert_eq!(compute_indent("\t  y"), 3);
}

#[test]
fn prepare_leaves_no_layout_tokens() {
    let toks = prepare("fn a():\n    x = 1\n").expect("prepare");
    let k = kinds(&toks);
    assert!(!k.iter().any(|x| matches!(x, TokenKind::Indent | TokenKind::Dedent | TokenKind::Newline)));
    assert!(k.contains(&TokenKind::LBrace));
    assert!(k.contains(&TokenKind::RBrace));
}

#[test]
fn prepare_brace_source_unchanged() {
    let src = "fn f() -> i64 { 0 }";
    let toks = prepare(src).expect("prepare");
    assert_eq!(kinds(&toks), lex_kinds(src));
}

#[test]
fn prepare_colon_without_body_fails() {
    assert!(prepare("fn a():\n").is_err());
    // A second header before any body replaces the pending block.
    assert!(prepare("fn a():\nfn b():\n    pass\n").is_ok());
}

#[test]
fn test_kind_text_of_variants() {
    assert_eq!(kind_text_of(&TokenKind::Fn), "Fn");
    assert_eq!(kind_text_of(&TokenKind::Ident("x".to_string())), "Ident(\"x\")");
    assert_eq!(kind_text_of(&TokenKind::Integer(-5)), "Integer(-5)");
    assert_eq!(kind_text_of(&TokenKind::Integer(i64::MIN)), "Integer(-9223372036854775808)");
    assert_eq!(kind_text_of(&TokenKind::Float("1.5".to_string())), "Float(\"1.5\")");
    assert_eq!(
        kind_text_of(&TokenKind::StrLit("a\"b\n".to_string())),
        "StrLit(\"a\\\"b\\n\")"
    );
    assert_eq!(kind_text_of(&TokenKind::Integer(42)), format!("{:?}", TokenKind::Integer(42)));
}
