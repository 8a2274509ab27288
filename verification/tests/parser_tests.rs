use stnx::ast::{BinOp, Expr, ItemKind, Program, Stmt, Type, UnOp, Visibility};
use stnx::error::CompilerError;
use stnx::lexer::{tokenize, Token};
use stnx::parser::parse;

fn parse_src(src: &str) -> Program {
    let tokens: Vec<Token> = tokenize(src).expect("lexing should succeed");
    parse(src, tokens).expect("parsing should succeed")
}

fn parse_fail(src: &str) -> CompilerError {
    let tokens: Vec<Token> = tokenize(src).expect("lexing should succeed");
    match parse(src, tokens) {
        Ok(_) => panic!("expected parse error for:\n{}", src),
        Err(e) => e,
    }
}

fn parse_message(err: &CompilerError) -> String {
    match err {
        CompilerError::Parse(p) => p.message.clone(),
        other => panic!("expected a parse error, got {:?}", other),
    }
}

fn main_body(prog: &Program) -> &Vec<Stmt> {
    &prog.functions[0].body
}

#[test]
fn test_parse_mod_decl() {
    let prog = parse_src("mod io\n");
    assert_eq!(prog.items.len(), 1);
    assert_eq!(prog.items[0].name, "io");
    assert_eq!(prog.items[0].visibility, Visibility::Private);
    assert!(matches!(prog.items[0].kind, ItemKind::ModDecl));
}

#[test]
fn test_parse_pub_mod_decl() {
    let prog = parse_src("pub mod io\n");
    assert_eq!(prog.items.len(), 1);
    assert_eq!(prog.items[0].name, "io");
    assert_eq!(prog.items[0].visibility, Visibility::Public);
    assert!(matches!(prog.items[0].kind, ItemKind::ModDecl));
}

#[test]
fn test_parse_mod_decl_preserves_function_backwards_compat() {
    let prog = parse_src("mod io\nfn main() -> i64 { 0 }\n");
    assert_eq!(prog.items.len(), 2);
    assert_eq!(prog.functions.len(), 1);
    assert_eq!(prog.functions[0].name, "main");
}

#[test]
fn test_parse_use_simple_path() {
    let prog = parse_src("use io::println\n");
    assert_eq!(prog.items.len(), 1);
    assert_eq!(prog.items[0].name, "println");
    assert_eq!(prog.items[0].visibility, Visibility::Private);
    match &prog.items[0].kind {
        ItemKind::UseDecl { path, alias } => {
            assert_eq!(path, &vec!["io".to_string(), "println".to_string()]);
            assert_eq!(*alias, None);
        }
        other => panic!("expected UseDecl, got {:?}", other),
    }
}

#[test]
fn test_parse_use_deep_path() {
    let prog = parse_src("use utils::math::add\n");
    assert_eq!(prog.items.len(), 1);
    match &prog.items[0].kind {
        ItemKind::UseDecl { path, alias } => {
            assert_eq!(path, &vec!["utils".to_string(), "math".to_string(), "add".to_string(),]);
            assert_eq!(*alias, None);
        }
        other => panic!("expected UseDecl, got {:?}", other),
    }
}

#[test]
fn test_parse_pub_use_decl() {
    let prog = parse_src("pub use io::writer\n");
    assert_eq!(prog.items.len(), 1);
    assert_eq!(prog.items[0].visibility, Visibility::Public);
    match &prog.items[0].kind {
        ItemKind::UseDecl { path, alias: _ } => {
            assert_eq!(path, &vec!["io".to_string(), "writer".to_string()]);
        }
        other => panic!("expected UseDecl, got {:?}", other),
    }
}

#[test]
fn test_parse_use_with_as_alias() {
    let prog = parse_src("use io::writer as w\n");
    assert_eq!(prog.items.len(), 1);
    match &prog.items[0].kind {
        ItemKind::UseDecl { path, alias } => {
            assert_eq!(path, &vec!["io".to_string(), "writer".to_string()]);
            assert_eq!(alias, &Some("w".to_string()));
            assert_eq!(prog.items[0].name, "writer");
        }
        other => panic!("expected UseDecl, got {:?}", other),
    }
}

#[test]
fn test_parse_pub_fn() {
    let prog = parse_src("pub fn greet(n: i64) -> i64 { return n }\n");
    assert_eq!(prog.items.len(), 1);
    assert_eq!(prog.items[0].name, "greet");
    assert_eq!(prog.items[0].visibility, Visibility::Public);
    assert!(matches!(prog.items[0].kind, ItemKind::Function(_)));
}

#[test]
fn test_parse_pub_struct() {
    let prog = parse_src("pub struct Point { x: i64, y: i64 }\n");
    assert_eq!(prog.items.len(), 1);
    assert_eq!(prog.items[0].name, "Point");
    assert_eq!(prog.items[0].visibility, Visibility::Public);
    match &prog.items[0].kind {
        ItemKind::StructDef { name, fields, .. } => {
            assert_eq!(name, "Point");
            assert_eq!(fields.len(), 2);
        }
        other => panic!("expected StructDef, got {:?}", other),
    }
}

#[test]
fn test_parse_pub_enum() {
    let prog = parse_src("pub enum Color { Red, Green, Blue }\n");
    assert_eq!(prog.items.len(), 1);
    assert_eq!(prog.items[0].name, "Color");
    assert_eq!(prog.items[0].visibility, Visibility::Public);
    match &prog.items[0].kind {
        ItemKind::EnumDef { name, variants, .. } => {
            assert_eq!(name, "Color");
            assert_eq!(variants.len(), 3);
        }
        other => panic!("expected EnumDef, got {:?}", other),
    }
}

#[test]
fn test_parse_mixed_program() {
    let src = "mod io\nuse io::println\npub fn greet(n: i64) -> i64 { return n }\nfn main() -> i64 { return 0 }\n";
    let prog = parse_src(src);
    assert_eq!(prog.items.len(), 4);
    assert_eq!(prog.functions.len(), 2);

    assert_eq!(prog.items[0].name, "io");
    assert!(matches!(prog.items[0].kind, ItemKind::ModDecl));

    assert_eq!(prog.items[1].name, "println");
    assert!(matches!(prog.items[1].kind, ItemKind::UseDecl { .. }));

    assert_eq!(prog.items[2].name, "greet");
    assert_eq!(prog.items[2].visibility, Visibility::Public);
    assert!(matches!(prog.items[2].kind, ItemKind::Function(_)));

    assert_eq!(prog.items[3].name, "main");
    assert_eq!(prog.items[3].visibility, Visibility::Private);
    assert!(matches!(prog.items[3].kind, ItemKind::Function(_)));
}

#[test]
fn test_parse_struct_and_enum_with_pub_and_private() {
    let src = "pub struct Point { x: i64, y: i64 }\nenum Color { Red, Green }\n";
    let prog = parse_src(src);
    assert_eq!(prog.items.len(), 2);

    assert_eq!(prog.items[0].name, "Point");
    assert_eq!(prog.items[0].visibility, Visibility::Public);
    assert!(matches!(prog.items[0].kind, ItemKind::StructDef { .. }));

    assert_eq!(prog.items[1].name, "Color");
    assert_eq!(prog.items[1].visibility, Visibility::Private);
    assert!(matches!(prog.items[1].kind, ItemKind::EnumDef { .. }));
}

#[test]
fn test_parse_mod_without_name_errors() {
    let err = parse_fail("mod\n");
    assert!(
        err.to_string().contains("unexpected") || err.to_string().contains("expected"),
        "expected error for `mod` without name, got: {}",
        err.to_string()
    );
}

#[test]
fn test_parse_use_without_path_errors() {
    let err = parse_fail("use\n");
    assert!(
        err.to_string().contains("unexpected") || err.to_string().contains("expected"),
        "expected error for `use` without path, got: {}",
        err.to_string()
    );
}

#[test]
fn test_parse_pub_alone_errors() {
    let err = parse_fail("pub\n");
    assert!(
        err.to_string().contains("unexpected") || err.to_string().contains("expected"),
        "expected error for `pub` without item, got: {}",
        err.to_string()
    );
}

#[test]
fn test_parse_mod_inside_function_is_error() {
    let tokens: Vec<Token> = tokenize("fn main() -> i64 { mod foo }").unwrap();
    let result = parse("fn main() -> i64 { mod foo }", tokens);
    assert!(result.is_err(), "mod inside a function body should be a parse error");
}

#[test]
fn parse_error_names_found_token_and_its_bytes() {
    let err = parse_fail("fn main() -> i64 { 1 } }");
    match err {
        CompilerError::Parse(p) => {
            assert_eq!(p.src, "fn main() -> i64 { 1 } }");
            assert_eq!(p.message, "unexpected token: RBrace");
            assert_eq!(p.offset, 23);
            assert_eq!(p.len, 1);
        }
        other => panic!("expected a parse error, got {:?}", other),
    }
}

#[test]
fn parse_error_at_end_of_input() {
    let err = parse_fail("fn main() -> i64 {");
    assert_eq!(parse_message(&err), "unexpected token: end of input");
}

#[test]
fn parse_empty_program() {
    let prog = parse_src("");
    assert_eq!(prog.items.len(), 0);
    assert_eq!(prog.functions.len(), 0);
}

#[test]
fn parse_function_signature() {
    let prog = parse_src("fn pair<T, U>(a: T, b: i64) -> bool { true }");
    let f = &prog.functions[0];
    assert_eq!(f.name, "pair");
    assert_eq!(f.generic_params, vec!["T".to_string(), "U".to_string()]);
    assert_eq!(f.params.len(), 2);
    assert_eq!(f.params[0].0, "a");
    assert_eq!(f.params[0].1, Type::Struct("T".to_string()));
    assert_eq!(f.params[1].1, Type::I64);
    assert_eq!(f.return_type, Type::Bool);
    assert_eq!(f.span, 3..7);
}

#[test]
fn parse_missing_return_type_is_unit() {
    let prog = parse_src("fn f() { }");
    assert_eq!(prog.functions[0].return_type, Type::Unit);
    assert_eq!(prog.functions[0].body.len(), 0);
}

#[test]
fn parse_operator_precedence_and_left_fold() {
    let prog = parse_src("fn main() -> i64 { 1 + 2 * 3 - 4 }");
    match &main_body(&prog)[0] {
        Stmt::Expr(Expr::Binary { op: BinOp::Sub, lhs, rhs, span }, _) => {
            assert_eq!(*span, 19..32);
            assert!(matches!(**rhs, Expr::Integer(4, _)));
            match &**lhs {
                Expr::Binary { op: BinOp::Add, lhs: a, rhs: b, .. } => {
                    assert!(matches!(**a, Expr::Integer(1, _)));
                    assert!(matches!(**b, Expr::Binary { op: BinOp::Mul, .. }));
                }
                other => panic!("expected an addition, got {:?}", other),
            }
        }
        other => panic!("expected a subtraction, got {:?}", other),
    }
}

#[test]
fn parse_comparison_binds_looser_than_sum_and_tighter_than_and() {
    let prog = parse_src("fn main() -> bool { a + 1 < b && c }");
    match &main_body(&prog)[0] {
        Stmt::Expr(Expr::Binary { op: BinOp::And, lhs, .. }, _) => {
            assert!(matches!(**lhs, Expr::Binary { op: BinOp::Lt, .. }));
        }
        other => panic!("expected a conjunction, got {:?}", other),
    }
}

#[test]
fn parse_let_mut_with_type() {
    let prog = parse_src("fn main() -> i64 { let mut x: i64 = 5\n x }");
    match &main_body(&prog)[0] {
        Stmt::Let { name, mutable, ty, value, span } => {
            assert_eq!(name, "x");
            assert!(*mutable);
            assert_eq!(*ty, Some(Type::I64));
            assert!(matches!(value, Expr::Integer(5, _)));
            assert_eq!(*span, 27..37);
        }
        other => panic!("expected a let, got {:?}", other),
    }
    assert!(matches!(main_body(&prog)[1], Stmt::Expr(Expr::Var(_, _), _)));
}

#[test]
fn parse_if_elif_else() {
    let prog = parse_src("fn main() -> i64 { if a { 1 } elif b { 2 } elif c { 3 } else { 4 } }");
    match &main_body(&prog)[0] {
        Stmt::Expr(Expr::If { then_branch, elif_branches, else_branch, .. }, _) => {
            assert_eq!(then_branch.len(), 1);
            assert_eq!(elif_branches.len(), 2);
            assert_eq!(else_branch.as_ref().map(|b| b.len()), Some(1));
        }
        other => panic!("expected an if, got {:?}", other),
    }
}

#[test]
fn parse_for_over_inclusive_range() {
    let prog = parse_src("fn main() -> unit { for i in 0...10 { println(i) } }");
    match &main_body(&prog)[0] {
        Stmt::Expr(Expr::For { var, iter, body, .. }, _) => {
            assert_eq!(var, "i");
            assert!(matches!(**iter, Expr::Range { is_inclusive: true, .. }));
            assert!(matches!(body[0], Stmt::Println(Expr::Var(_, _), _)));
        }
        other => panic!("expected a for loop, got {:?}", other),
    }
}

#[test]
fn parse_while_with_compound_assignment() {
    let prog = parse_src("fn main() -> unit { while x < 3 { x += 1 } }");
    match &main_body(&prog)[0] {
        Stmt::Expr(Expr::While { body, .. }, _) => {
            assert!(matches!(body[0], Stmt::Expr(Expr::AugAssign { .. }, _)));
        }
        other => panic!("expected a while loop, got {:?}", other),
    }
}

#[test]
fn parse_call_with_turbofish_and_args() {
    let prog = parse_src("fn main() -> i64 { id::<i64>(1, x) }");
    match &main_body(&prog)[0] {
        Stmt::Expr(Expr::Call { func, args, type_args, .. }, _) => {
            assert_eq!(func, "id");
            assert_eq!(args.len(), 2);
            assert_eq!(type_args, &vec![Type::I64]);
        }
        other => panic!("expected a call, got {:?}", other),
    }
}

#[test]
fn parse_struct_literal_field_access_and_enum_constructor() {
    let prog = parse_src("fn main() -> i64 { let p = Point { x: 1, y: 2 }\n let c = Color::Red\n p.x }");
    let body = main_body(&prog);
    match &body[0] {
        Stmt::Let { value: Expr::StructLiteral { name, fields, .. }, .. } => {
            assert_eq!(name, "Point");
            assert_eq!(fields.len(), 2);
            assert_eq!(fields[1].0, "y");
        }
        other => panic!("expected a struct literal, got {:?}", other),
    }
    assert!(matches!(&body[1], Stmt::Let { value: Expr::EnumConstructor { .. }, .. }));
    match &body[2] {
        Stmt::Expr(Expr::FieldAccess { field, .. }, _) => assert_eq!(field, "x"),
        other => panic!("expected a field access, got {:?}", other),
    }
}

#[test]
fn parse_unary_and_return_without_value() {
    let prog = parse_src("fn main() -> unit { let a = -x\n let b = !y\n return }");
    let body = main_body(&prog);
    assert!(matches!(&body[0], Stmt::Let { value: Expr::Unary { op: UnOp::Neg, .. }, .. }));
    assert!(matches!(&body[1], Stmt::Let { value: Expr::Unary { op: UnOp::Not, .. }, .. }));
    assert!(matches!(&body[2], Stmt::Return(None, _)));
}

#[test]
fn parse_literals_and_unit() {
    let prog = parse_src("fn main() -> unit { 2.5\n \"hi\"\n false\n {} }");
    let body = main_body(&prog);
    match &body[0] {
        Stmt::Expr(Expr::Float(text, _), _) => assert_eq!(text, "2.5"),
        other => panic!("expected a float, got {:?}", other),
    }
    assert!(matches!(&body[1], Stmt::Expr(Expr::StrLit(_, _), _)));
    assert!(matches!(&body[2], Stmt::Expr(Expr::Bool(false, _), _)));
    assert!(matches!(&body[3], Stmt::Expr(Expr::Unit(_), _)));
}

#[test]
fn parse_local_struct_definition_statement() {
    let prog = parse_src("fn main() -> unit { struct P { a: i64 } }");
    assert!(matches!(&main_body(&prog)[0], Stmt::StructDef { .. }));
}

#[test]
fn program_copy_keeps_items_and_functions() {
    let prog = parse_src("mod io\nuse io::println\npub fn greet(n: i64) -> i64 { return n }\n");
    let copy = prog.deep_clone();
    assert_eq!(copy.items.len(), 3);
    assert_eq!(copy.functions.len(), 1);
    assert_eq!(copy.items[2].name, "greet");
    assert_eq!(copy.items[2].visibility, Visibility::Public);
    assert_eq!(copy.functions[0].params, prog.functions[0].params);
    match (&copy.items[1].kind, &prog.items[1].kind) {
        (ItemKind::UseDecl { path: a, .. }, ItemKind::UseDecl { path: b, .. }) => assert_eq!(a, b),
        _ => panic!("expected use declarations"),
    }
    let empty = Program::empty();
    assert_eq!(empty.items.len(), 0);
}


#[test]
fn error_texts_follow_their_kind() {
    let err = parse_fail("fn main() -> i64 {");
    assert_eq!(err.to_string(), "Parse error: unexpected token: end of input");
    assert_eq!(CompilerError::semantic("x".to_string()).to_string(), "semantic error: x");
    assert_eq!(CompilerError::codegen("y".to_string()).to_string(), "code generation error: y");
    assert_eq!(CompilerError::config("z".to_string()).to_string(), "config error: z");
    let lex = tokenize("fn $").unwrap_err();
    assert!(lex.to_string().starts_with("Lexing error: "));
    assert_eq!(CompilerError::Lexer(lex).to_string(), "lexer error");
}
