use gears_lang::lexer::{lex, LexicalError, Span, Token};

fn tokens_of(input: &str) -> Vec<Token> {
    lex(input).into_iter().map(|r| r.unwrap().1).collect()
}

fn expect(input: &str, expected: Vec<Token>) {
    let result = tokens_of(input);
    if result.len() != expected.len() {
        panic!("Uneven length of tokens:\nLeft: {:?}\nRight:{:?}", result, expected);
    }
    for (index, tok) in result.iter().enumerate() {
        if expected[index] != *tok {
            panic!(
                "Tokens did not match at index: {}. Found: {:?}, Expected: {:?}",
                index, tok, expected[index]
            );
        }
    }
}

fn ident_test(string: &str) {
    expect(string, vec![Token::Name(string.to_string())]);
}

#[test]
fn test_single_token() {
    expect(",", vec![Token::Comma]);
    expect("(", vec![Token::LParen]);
    expect(")", vec![Token::RParen]);
    expect("{", vec![Token::LBracket]);
    expect("}", vec![Token::RBracket]);
    expect(";", vec![Token::SemiColon]);
    expect(":", vec![Token::Colon]);
    expect("=", vec![Token::Eq]);
    expect("==", vec![Token::EqEq]);
    expect("!=", vec![Token::NotEq]);
    expect("<", vec![Token::LessThan]);
    expect("<=", vec![Token::LessThanEq]);
    expect(">", vec![Token::GreaterThan]);
    expect(">=", vec![Token::GreaterThanEq]);
    expect("+", vec![Token::Plus]);
    expect("-", vec![Token::Minus]);
    expect("*", vec![Token::Star]);
    expect("/", vec![Token::Slash]);
}

#[test]
fn test_keywords() {
    expect("def", vec![Token::Def]);
    expect("let", vec![Token::Let]);
    expect("if", vec![Token::If]);
    expect("else", vec![Token::Else]);
    expect("true", vec![Token::True]);
    expect("false", vec![Token::False]);
}

#[test]
fn test_ident() {
    ident_test("test");
    ident_test("t");
    ident_test("_tes");
    ident_test("_");
    ident_test("TEST");
    ident_test("Test");
    ident_test("tesT");
    ident_test("abcdefghijklmnopqrstuvwxyz0123456789");
    ident_test("t3st");
}

#[test]
fn test_comments() {
    expect("()#Test", vec![Token::LParen, Token::RParen]);
}

fn get_token(
    token: Token,
    line: usize,
    start: usize,
    end: usize,
) -> Result<(Span, Token, Span), LexicalError> {
    Ok((Span::new(line, start), token, Span::new(line, end)))
}

#[test]
fn test_spanning() {
    assert_eq!(
        lex("( )\n() def"),
        vec![
            get_token(Token::LParen, 1, 1, 2),
            get_token(Token::RParen, 1, 3, 4),
            get_token(Token::LParen, 2, 1, 2),
            get_token(Token::RParen, 2, 2, 3),
            get_token(Token::Def, 2, 4, 7),
        ]
    );
}

#[test]
fn more_keywords_and_punctuation() {
    expect("while", vec![Token::While]);
    expect("for", vec![Token::For]);
    expect("in", vec![Token::In]);
    expect("to", vec![Token::To]);
    expect("->", vec![Token::Arrow]);
    expect("|", vec![Token::Pipe]);
    expect("[", vec![Token::LSquare]);
    expect("]", vec![Token::RSquare]);
    expect("a-b", vec![Token::Name("a".to_string()), Token::Minus, Token::Name("b".to_string())]);
    expect("a=b", vec![Token::Name("a".to_string()), Token::Eq, Token::Name("b".to_string())]);
    expect("a<b", vec![Token::Name("a".to_string()), Token::LessThan, Token::Name("b".to_string())]);
}

#[test]
fn integers_and_texts() {
    expect("0", vec![Token::Integer(0)]);
    expect("42", vec![Token::Integer(42)]);
    expect("007", vec![Token::Integer(7)]);
    expect("9223372036854775807", vec![Token::Integer(i64::MAX)]);
    expect("\"hello world\"", vec![Token::Str("hello world".to_string())]);
    expect("\"\"", vec![Token::Str(String::new())]);
    expect("\"a\" + \"b\"", vec![
        Token::Str("a".to_string()),
        Token::Plus,
        Token::Str("b".to_string()),
    ]);
}

#[test]
fn text_spans_count_the_quotes() {
    assert_eq!(
        lex("\"ab\" x"),
        vec![
            get_token(Token::Str("ab".to_string()), 1, 1, 5),
            get_token(Token::Name("x".to_string()), 1, 6, 7),
        ]
    );
}

#[test]
fn integer_too_large_is_an_error() {
    assert_eq!(
        lex("9223372036854775808 1"),
        vec![
            Err(LexicalError::UnknownToken('9', Span::new(1, 1))),
            get_token(Token::Integer(1), 1, 21, 22),
        ]
    );
}

#[test]
fn unknown_character_carries_its_span() {
    assert_eq!(
        lex("a\n  $"),
        vec![
            get_token(Token::Name("a".to_string()), 1, 1, 2),
            Err(LexicalError::UnknownToken('$', Span::new(2, 3))),
        ]
    );
}

#[test]
fn lone_bang_is_an_error_and_lexing_goes_on() {
    assert_eq!(
        lex("!a"),
        vec![
            Err(LexicalError::UnknownToken('!', Span::new(1, 1))),
            get_token(Token::Name("a".to_string()), 1, 2, 3),
        ]
    );
}

#[test]
fn unterminated_text_is_an_error() {
    assert_eq!(
        lex("\"abc\nx"),
        vec![
            Err(LexicalError::UnknownToken('"', Span::new(1, 1))),
            get_token(Token::Name("x".to_string()), 2, 1, 2),
        ]
    );
}

#[test]
fn comments_run_to_the_end_of_the_line() {
    expect("a # b c\nd", vec![Token::Name("a".to_string()), Token::Name("d".to_string())]);
}

#[test]
fn tabs_and_carriage_returns_are_blank() {
    expect("a\t\r\nb", vec![Token::Name("a".to_string()), Token::Name("b".to_string())]);
}

#[test]
fn unicode_letters_make_names() {
    ident_test("größe");
}

#[test]
fn span_text() {
    assert_eq!(Span::new(12, 3).to_string(), "Line: 12, Char: 3");
    assert_eq!(Span::new(0, 0).to_string(), "Line: 0, Char: 0");
    assert_eq!(Span::default(), Span::new(0, 0));
    assert_eq!(Span::new(4, 9).line(), 4);
    assert_eq!(Span::new(4, 9).column(), 9);
}

#[test]
fn token_descriptions() {
    assert_eq!(Token::Comma.describe(), "Comma");
    assert_eq!(Token::Name("ab".to_string()).describe(), "Name(\"ab\")");
    assert_eq!(Token::Integer(-5).describe(), "Integer(-5)");
    assert_eq!(Token::Integer(i64::MIN).describe(), "Integer(-9223372036854775808)");
    assert_eq!(Token::Integer(120).describe(), "Integer(120)");
    assert_eq!(Token::Str("x".to_string()).describe(), "Str(\"x\")");
}

#[test]
fn blank_space_line_breaks_and_comments_give_no_token() {
    let tokens = lex(" \t\r\n# a comment with words and 123\n  \n");
    assert!(tokens.is_empty());
    let tokens = lex("a\n  b # c\n_d1");
    assert_eq!(tokens.len(), 3);
    assert_eq!(
        tokens[1],
        Ok((Span::new(2, 3), Token::Name("b".to_string()), Span::new(2, 4)))
    );
    assert_eq!(
        tokens[2],
        Ok((Span::new(3, 1), Token::Name("_d1".to_string()), Span::new(3, 4)))
    );
}
