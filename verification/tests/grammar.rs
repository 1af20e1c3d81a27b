use gears_lang::ast::{BinOpAst, ExprAst, ModStmtAst, StmtAst};
use gears_lang::errors::GearsError;
use gears_lang::lexer::{lex, LexicalError, Span, Token};
use gears_lang::parse_str;
use gears_lang::parser::{parse_tokens, same_token, SyntaxError};

const FULL_GRAMMAR_EXAMPLE: &str = r#"
# Top Level Comment
def example(a: int, b: int | bool) -> int | None {
    sub(6 - 2);   # This is a function that is not bound
    # This is a new binding
    let a: int = 4 - 3;
    let b: int = a * 9;
    let c: int = sub(a - b);
    c = 12 * add(a + 4 - add_two(5), b) + c;
    let d: [int] = [1, 2, 3 + 4 * 8 + b];
    let g: [int | bool] = [1, 2, 3 + 4 * 8 + b, true];

    let d: bool = false;
    let e: bool = true;
    let string: str = "Test";
}

def branching() {
    if false {
        let other_variable: int = 4;
    } else {
        let other_variable: int = 5;
    };

    let x: int = 3;
    while x > 5 {
        x = x + 1;
    };

    for x in 0 to 10 {
        let c: int = x + 1;
    }; 
    
    if true {
        let a: int = 4 - 3;
    } 
}
"#;

#[test]
fn test_grammar() {
    let result = parse_str(FULL_GRAMMAR_EXAMPLE);

    match result {
        Err(e) => {
            match e {
                SyntaxError::UnrecognizedToken { token, expected } => {
                    match token {
                        Some(tok) => {
                            println!("At Character: {} Found: '{:?}'", tok.0.to_string(), tok.1);

                            for (line_num, line) in FULL_GRAMMAR_EXAMPLE.lines().enumerate() {
                                if line_num + 1 == tok.0.line() {
                                    println!("{}", line);
                                    for _ in 0..(tok.0.column() - 1) {
                                        println!(" ")
                                    }
                                    for _ in 0..(tok.2.column() - tok.0.column()) {
                                        println!("-")
                                    }
                                }
                            }
                        }
                        None => {
                            println!("Unexpected EOF token");
                        }
                    };
                    println!("\nExpected: ");
                    for exp_token in expected {
                        println!("{}, ", exp_token);
                    }
                    println!("{}", '\n');
                }
                _ => println!("Unexpected Error: {:?}", e),
            }
            panic!("Grammar Error. Please review output.")
        }
        _ => {}
    }
}

fn only_function(source: &str) -> (String, Vec<(String, Vec<String>)>, Vec<StmtAst>, Option<StmtAst>, Vec<String>) {
    let mut defs = parse_str(source).expect("parses");
    assert_eq!(defs.len(), 1);
    match *defs.remove(0) {
        ModStmtAst::FunctionDef { name, args, exprs, return_type } => (
            name,
            args.iter().map(|a| (a.name().clone(), a.arg_types().clone())).collect(),
            exprs.0.into_iter().map(|b| *b).collect(),
            exprs.1.map(|b| *b),
            return_type,
        ),
    }
}

fn tail_text(source: &str) -> String {
    let (_, _, _, tail, _) = only_function(source);
    format!("{:?}", tail.expect("has a final statement"))
}

#[test]
fn a_definition_has_a_name_arguments_and_return_types() {
    let (name, args, stmts, tail, return_type) =
        only_function("def f(a: int, b: int | bool) -> str | none { }");
    assert_eq!(name, "f");
    assert_eq!(
        args,
        vec![
            ("a".to_string(), vec!["int".to_string()]),
            ("b".to_string(), vec!["int".to_string(), "bool".to_string()]),
        ]
    );
    assert!(stmts.is_empty());
    assert!(tail.is_none());
    assert_eq!(return_type, vec!["str".to_string(), "none".to_string()]);
}

#[test]
fn without_an_arrow_a_function_returns_none() {
    let (_, args, _, _, return_type) = only_function("def f() { }");
    assert!(args.is_empty());
    assert_eq!(return_type, vec!["none".to_string()]);
}

#[test]
fn a_type_in_square_brackets_is_a_list() {
    let (_, args, _, _, _) = only_function("def f(a: [int | bool] | int) { }");
    assert_eq!(args, vec![("a".to_string(), vec!["list".to_string(), "int".to_string()])]);
}

#[test]
fn products_bind_tighter_than_sums() {
    assert_eq!(
        tail_text("def f() { 4 + 3 * 5 - 42 / 6 }"),
        "Expr(Op(Op(Integer(4), Add, Op(Integer(3), Mul, Integer(5))), Sub, Op(Integer(42), Div, Integer(6))))"
    );
}

#[test]
fn sums_bind_tighter_than_comparisons() {
    assert_eq!(
        tail_text("def f() { 1 + 2 < 3 * 4 == true }"),
        "Expr(Op(Op(Op(Integer(1), Add, Integer(2)), LessThan, Op(Integer(3), Mul, Integer(4))), EqEq, Bool(true)))"
    );
}

#[test]
fn operators_group_from_the_left() {
    assert_eq!(
        tail_text("def f() { 1 - 2 - 3 }"),
        "Expr(Op(Op(Integer(1), Sub, Integer(2)), Sub, Integer(3)))"
    );
}

#[test]
fn parentheses_group() {
    assert_eq!(
        tail_text("def f() { 2 * (3 + 4) }"),
        "Expr(Op(Integer(2), Mul, Op(Integer(3), Add, Integer(4))))"
    );
}

#[test]
fn statements_and_the_final_statement() {
    let (_, _, stmts, tail, _) = only_function("def f() { let a: int = 1; a = 2; g(a, 1); a }");
    assert_eq!(stmts.len(), 3);
    match &stmts[0] {
        StmtAst::Assignment { new, name, types, .. } => {
            assert!(*new);
            assert_eq!(name, "a");
            assert_eq!(types, &Some(vec!["int".to_string()]));
        }
        other => panic!("unexpected {:?}", other),
    }
    match &stmts[1] {
        StmtAst::Assignment { new, name, types, .. } => {
            assert!(!*new);
            assert_eq!(name, "a");
            assert_eq!(types, &None);
        }
        other => panic!("unexpected {:?}", other),
    }
    match &stmts[2] {
        StmtAst::Expr(ExprAst::FunctionCall { name, args }) => {
            assert_eq!(name, "g");
            assert_eq!(args.len(), 2);
        }
        other => panic!("unexpected {:?}", other),
    }
    match tail {
        Some(StmtAst::Expr(ExprAst::Variable(name))) => assert_eq!(name, "a"),
        other => panic!("unexpected {:?}", other),
    }
}

#[test]
fn control_flow_expressions() {
    assert_eq!(
        tail_text("def f() { if a { 1 } else { 2 } }"),
        "Expr(If { cond_expr: Variable(\"a\"), exprs: ([], Some(Expr(Integer(1)))), else_exprs: Some(([], Some(Expr(Integer(2))))) })"
    );
    assert_eq!(
        tail_text("def f() { while a { 1; } }"),
        "Expr(While { cond_expr: Variable(\"a\"), exprs: ([Expr(Integer(1))], None) })"
    );
    assert_eq!(
        tail_text("def f() { for i in 0 to 10 { } }"),
        "Expr(For { name: \"i\", range: RangeAst { start: 0, end: 10 }, exprs: ([], None) })"
    );
    assert_eq!(
        tail_text("def f() { [1, \"a\", []] }"),
        "Expr(List([Integer(1), Str(\"a\"), List([])]))"
    );
}

#[test]
fn an_unexpected_token_is_reported_with_what_was_expected() {
    match parse_str("def f( { }") {
        Err(SyntaxError::UnrecognizedToken { token, expected }) => {
            assert_eq!(token, Some((Span::new(1, 8), Token::LBracket, Span::new(1, 9))));
            assert_eq!(expected, vec!["Name".to_string()]);
        }
        other => panic!("unexpected {:?}", other),
    }
    match parse_str("def f() { 1 2 }") {
        Err(SyntaxError::UnrecognizedToken { token, expected }) => {
            assert_eq!(token, Some((Span::new(1, 13), Token::Integer(2), Span::new(1, 14))));
            assert_eq!(expected, vec!["SemiColon".to_string(), "RBracket".to_string()]);
        }
        other => panic!("unexpected {:?}", other),
    }
    match parse_str("def f() { g(1 }") {
        Err(SyntaxError::UnrecognizedToken { token, expected }) => {
            assert_eq!(token, Some((Span::new(1, 15), Token::RBracket, Span::new(1, 16))));
            assert_eq!(expected, vec!["Comma".to_string(), "RParen".to_string()]);
        }
        other => panic!("unexpected {:?}", other),
    }
    match parse_str("let") {
        Err(SyntaxError::UnrecognizedToken { token, expected }) => {
            assert_eq!(token, Some((Span::new(1, 1), Token::Let, Span::new(1, 4))));
            assert_eq!(expected, vec!["Def".to_string()]);
        }
        other => panic!("unexpected {:?}", other),
    }
}

#[test]
fn an_early_end_is_reported_without_a_token() {
    match parse_str("def f() { 1 +") {
        Err(SyntaxError::UnrecognizedToken { token, expected }) => {
            assert_eq!(token, None);
            assert_eq!(expected, vec!["expression".to_string()]);
        }
        other => panic!("unexpected {:?}", other),
    }
}

#[test]
fn an_error_of_the_lexer_comes_first() {
    assert_eq!(
        parse_str("def f( { $ }").err(),
        Some(SyntaxError::User { error: LexicalError::UnknownToken('$', Span::new(1, 10)) })
    );
}

#[test]
fn an_empty_text_is_an_empty_program() {
    assert_eq!(parse_str("").map(|defs| defs.len()).ok(), Some(0));
    assert_eq!(parse_str("# nothing\n").map(|defs| defs.len()).ok(), Some(0));
    assert_eq!(parse_tokens(lex("  ")).map(|defs| defs.len()).ok(), Some(0));
}

#[test]
fn tokens_compare_by_kind_and_payload() {
    assert!(same_token(&Token::Comma, &Token::Comma));
    assert!(!same_token(&Token::Comma, &Token::Colon));
    assert!(same_token(&Token::Name("a".to_string()), &Token::Name("a".to_string())));
    assert!(!same_token(&Token::Name("a".to_string()), &Token::Name("b".to_string())));
    assert!(!same_token(&Token::Name("a".to_string()), &Token::Str("a".to_string())));
    assert!(same_token(&Token::Integer(3), &Token::Integer(3)));
    assert!(!same_token(&Token::Integer(3), &Token::Integer(4)));
}

#[test]
fn syntax_errors_become_parse_errors() {
    assert!(matches!(
        GearsError::from(SyntaxError::InvalidToken { location: Span::new(3, 4) }),
        GearsError::ParseError { location, message }
            if location == Span::new(3, 4) && message == "Invalid token found at Line: 3, Char: 4"
    ));
    assert!(matches!(
        GearsError::from(SyntaxError::UnrecognizedToken {
            token: Some((Span::new(1, 2), Token::Name("x".to_string()), Span::new(1, 3))),
            expected: vec!["Comma".to_string(), "RParen".to_string()],
        }),
        GearsError::ParseError { location, message }
            if location == Span::new(1, 2)
                && message == "Unexpected token (Name(\"x\")) at Line: 1, Char: 2. Expected one of: [\"Comma\", \"RParen\"]"
    ));
    assert!(matches!(
        GearsError::from(SyntaxError::UnrecognizedToken { token: None, expected: vec![] }),
        GearsError::ParseError { location, message }
            if location == Span::new(0, 0) && message == "Unexpected EOF token. Expected one of: []"
    ));
    assert!(matches!(
        GearsError::from(SyntaxError::ExtraToken {
            token: (Span::new(5, 6), Token::Def, Span::new(5, 9)),
        }),
        GearsError::ParseError { location, message }
            if location == Span::new(5, 6) && message == "Extra token (Def) at Line: 5, Char: 6"
    ));
    assert!(matches!(
        GearsError::from(SyntaxError::User {
            error: LexicalError::UnknownToken('$', Span::new(7, 8)),
        }),
        GearsError::LexError { location, message }
            if location == Span::new(7, 8) && message == "Unknown character: $"
    ));
}

#[test]
fn errors_of_a_generated_parser_become_parse_errors() {
    let invalid: lalrpop_util::ParseError<Span, Token, LexicalError> =
        lalrpop_util::ParseError::InvalidToken { location: Span::new(3, 4) };
    assert!(matches!(
        GearsError::from(invalid),
        GearsError::ParseError { location, message }
            if location == Span::new(3, 4) && message == "Invalid token found at Line: 3, Char: 4"
    ));
    let unrecognized: lalrpop_util::ParseError<Span, Token, LexicalError> =
        lalrpop_util::ParseError::UnrecognizedToken {
            token: Some((Span::new(1, 2), Token::Plus, Span::new(1, 3))),
            expected: vec!["Name".to_string()],
        };
    assert!(matches!(
        GearsError::from(unrecognized),
        GearsError::ParseError { location, message }
            if location == Span::new(1, 2)
                && message == "Unexpected token (Plus) at Line: 1, Char: 2. Expected one of: [\"Name\"]"
    ));
    let extra: lalrpop_util::ParseError<Span, Token, LexicalError> =
        lalrpop_util::ParseError::ExtraToken { token: (Span::new(2, 1), Token::Def, Span::new(2, 4)) };
    assert!(matches!(
        GearsError::from(extra),
        GearsError::ParseError { location, message }
            if location == Span::new(2, 1) && message == "Extra token (Def) at Line: 2, Char: 1"
    ));
    let user: lalrpop_util::ParseError<Span, Token, LexicalError> =
        lalrpop_util::ParseError::User { error: LexicalError::UnknownToken('?', Span::new(9, 9)) };
    assert!(matches!(
        GearsError::from(user),
        GearsError::LexError { location, message }
            if location == Span::new(9, 9) && message == "Unknown character: ?"
    ));
}

#[test]
fn syntax_error_reaches_the_host_through_compile() {
    match gears_lang::compiler::compile_str("def f() { 1 2 }", "t") {
        Err(GearsError::ParseError { location, message }) => {
            assert_eq!(location, Span::new(1, 13));
            assert_eq!(
                message,
                "Unexpected token (Integer(2)) at Line: 1, Char: 13. Expected one of: [\"SemiColon\", \"RBracket\"]"
            );
        }
        other => panic!("unexpected {:?}", other),
    }
    match gears_lang::compiler::compile_str("def f() { ? }", "t") {
        Err(GearsError::LexError { location, message }) => {
            assert_eq!(location, Span::new(1, 11));
            assert_eq!(message, "Unknown character: ?");
        }
        other => panic!("unexpected {:?}", other),
    }
}

#[test]
fn operators_have_symbols() {
    assert_eq!(BinOpAst::Mul.symbol(), "*");
    assert_eq!(BinOpAst::Div.symbol(), "/");
    assert_eq!(BinOpAst::Add.symbol(), "+");
    assert_eq!(BinOpAst::Sub.symbol(), "-");
    assert_eq!(BinOpAst::EqEq.symbol(), "==");
    assert_eq!(BinOpAst::NotEq.symbol(), "!=");
    assert_eq!(BinOpAst::LessThan.symbol(), "<");
    assert_eq!(BinOpAst::LessThanEq.symbol(), "<=");
    assert_eq!(BinOpAst::GreaterThan.symbol(), ">");
    assert_eq!(BinOpAst::GreaterThanEq.symbol(), ">=");
}
