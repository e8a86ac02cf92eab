use compiler::lexer::Lexer;
use compiler::token::{Keyword, Token};

fn check_next_tokens(input: &str, expected: Vec<(Token, &str)>) {
    let mut l = Lexer::new(input);
    let mut tokens = vec![];

    for (i, tt) in expected.iter().enumerate() {
        let token = l.next_token();
        tokens.push(token.clone());

        if token != tt.0 {
            panic!(
                "tests[{}] - tokentype wrong. expected={:?}, got={:?}, {:?}",
                i, tt.0, token, tokens
            );
        }

        if token.to_string() != tt.1 {
            panic!(
                "tests[{}] - literal wrong. expected={}, got={}, {:?}",
                i,
                tt.1,
                token.to_string(),
                tokens
            )
        }
    }
}

#[test]
fn test_next_token_cases_simple_one_character_tokens() {
    check_next_tokens(
        "=+(){},;",
        vec![
            (Token::ASSIGN, "="),
            (Token::PLUS, "+"),
            (Token::LPAREN, "("),
            (Token::RPAREN, ")"),
            (Token::LBRACE, "{"),
            (Token::RBRACE, "}"),
            (Token::COMMA, ","),
            (Token::SEMICOLON, ";"),
            (Token::EOF, ""),
        ],
    );
}

#[test]
fn test_next_token_cases_long_number() {
    check_next_tokens(
        "100",
        vec![(Token::INT("100".to_owned()), "100"), (Token::EOF, "")],
    );
}

#[test]
fn test_next_token_cases_keywords_identifiers_numbers() {
    check_next_tokens(
        "let a = 1;",
        vec![
            (Token::KEYWORD(Keyword::LET), "LET"),
            (Token::IDENTIFIER("a".to_owned()), "a"),
            (Token::ASSIGN, "="),
            (Token::INT("1".to_owned()), "1"),
            (Token::SEMICOLON, ";"),
            (Token::EOF, ""),
        ],
    );
}

#[test]
fn test_next_token_cases_more_keywords() {
    check_next_tokens(
        "if 1 < 2 { return 3; }",
        vec![
            (Token::IF, "IF"),
            (Token::INT("1".to_owned()), "1"),
            (Token::LT, "<"),
            (Token::INT("2".to_owned()), "2"),
            (Token::LBRACE, "{"),
            (Token::KEYWORD(Keyword::RETURN), "RETURN"),
            (Token::INT("3".to_owned()), "3"),
            (Token::SEMICOLON, ";"),
            (Token::RBRACE, "}"),
            (Token::EOF, ""),
        ],
    );
}

#[test]
fn test_next_token_cases_more_tokens() {
    check_next_tokens(
        "let a = 1; !-/*5; 5 < 10 > 5;",
        vec![
            (Token::KEYWORD(Keyword::LET), "LET"),
            (Token::IDENTIFIER("a".to_owned()), "a"),
            (Token::ASSIGN, "="),
            (Token::INT("1".to_owned()), "1"),
            (Token::SEMICOLON, ";"),
            (Token::BANG, "!"),
            (Token::MINUS, "-"),
            (Token::SLASH, "/"),
            (Token::ASTERISK, "*"),
            (Token::INT("5".to_owned()), "5"),
            (Token::SEMICOLON, ";"),
            (Token::INT("5".to_owned()), "5"),
            (Token::LT, "<"),
            (Token::INT("10".to_owned()), "10"),
            (Token::GT, ">"),
            (Token::INT("5".to_owned()), "5"),
            (Token::SEMICOLON, ";"),
            (Token::EOF, ""),
        ],
    );
}

#[test]
fn test_next_token_cases_multiline_input() {
    check_next_tokens(
        "{
        let a = 1;
        }",
        vec![
            (Token::LBRACE, "{"),
            (Token::KEYWORD(Keyword::LET), "LET"),
            (Token::IDENTIFIER("a".to_owned()), "a"),
            (Token::ASSIGN, "="),
            (Token::INT("1".to_owned()), "1"),
            (Token::SEMICOLON, ";"),
            (Token::RBRACE, "}"),
            (Token::EOF, ""),
        ],
    );
}

#[test]
fn test_next_token_cases_two_char_tokens() {
    check_next_tokens(
        "10 == 10; 9 != 9;",
        vec![
            (Token::INT("10".to_owned()), "10"),
            (Token::EQ, "=="),
            (Token::INT("10".to_owned()), "10"),
            (Token::SEMICOLON, ";"),
            (Token::INT("9".to_owned()), "9"),
            (Token::NOTEQ, "!="),
            (Token::INT("9".to_owned()), "9"),
            (Token::SEMICOLON, ";"),
            (Token::EOF, ""),
        ],
    );
}

#[test]
fn test_keywords_fn_else_and_words_with_underscores() {
    check_next_tokens(
        "fn else my_var true",
        vec![
            (Token::FUNCTION, "FUNCTION"),
            (Token::ELSE, "ELSE"),
            (Token::IDENTIFIER("my_var".to_owned()), "my_var"),
            (Token::IDENTIFIER("true".to_owned()), "true"),
            (Token::EOF, ""),
        ],
    );
}

#[test]
fn test_eof_repeats_after_end() {
    let mut l = Lexer::new("  x  ");
    assert_eq!(l.next_token(), Token::IDENTIFIER("x".to_owned()));
    assert_eq!(l.next_token(), Token::EOF);
    assert_eq!(l.next_token(), Token::EOF);
    assert_eq!(l.next_token(), Token::EOF);
}

#[test]
fn test_empty_input_is_eof() {
    let mut l = Lexer::new("");
    assert_eq!(l.next_token(), Token::EOF);
    assert_eq!(l.next_token(), Token::EOF);
}

#[test]
fn test_illegal_character_is_not_passed() {
    let mut l = Lexer::new("a ? b");
    assert_eq!(l.next_token(), Token::IDENTIFIER("a".to_owned()));
    let t = l.next_token();
    assert_eq!(t, Token::ILLEGAL("?".to_owned()));
    assert_eq!(t.to_string(), "?");
    assert_eq!(l.next_token(), Token::ILLEGAL("?".to_owned()));
    assert_eq!(l.next_token(), Token::ILLEGAL("?".to_owned()));
}

#[test]
fn test_digits_and_letters_split() {
    check_next_tokens(
        "12ab 3",
        vec![
            (Token::INT("12".to_owned()), "12"),
            (Token::IDENTIFIER("ab".to_owned()), "ab"),
            (Token::INT("3".to_owned()), "3"),
            (Token::EOF, ""),
        ],
    );
}

#[test]
fn test_nul_character_ends_the_stream() {
    check_next_tokens(
        "a\0b",
        vec![(Token::IDENTIFIER("a".to_owned()), "a"), (Token::EOF, "")],
    );
}

#[test]
fn test_read_keyword() {
    assert_eq!(Keyword::read_keyword("if"), Token::IF);
    assert_eq!(Keyword::read_keyword("else"), Token::ELSE);
    assert_eq!(Keyword::read_keyword("fn"), Token::FUNCTION);
    assert_eq!(Keyword::read_keyword("let"), Token::KEYWORD(Keyword::LET));
    assert_eq!(Keyword::read_keyword("return"), Token::KEYWORD(Keyword::RETURN));
    assert_eq!(Keyword::read_keyword("lets"), Token::IDENTIFIER("lets".to_owned()));
    assert_eq!(Keyword::read_keyword("LET"), Token::IDENTIFIER("LET".to_owned()));
}

#[test]
fn test_token_literals() {
    assert_eq!(Token::TRUE.to_string(), "TRUE");
    assert_eq!(Token::FALSE.to_string(), "FALSE");
    assert_eq!(Token::EOF.to_string(), "");
    assert_eq!(Token::KEYWORD(Keyword::RETURN).to_string(), "RETURN");
    assert_eq!(Keyword::LET.to_string(), "LET");
    assert_eq!(Token::INT("42".to_owned()).to_string(), "42");
}

#[test]
fn test_token_kinds() {
    assert_eq!(Token::ASSIGN.kind(), Token::ASSIGN.kind());
    assert_eq!(Token::INT("1".to_owned()).kind(), Token::INT("2".to_owned()).kind());
    assert_ne!(Token::INT("1".to_owned()).kind(), Token::IDENTIFIER("1".to_owned()).kind());
    assert_ne!(Token::EQ.kind(), Token::ASSIGN.kind());
}

#[test]
fn test_lexer_primitives() {
    let mut l = Lexer::new("ab12  c");
    assert_eq!(l.peek_char(), b'b');
    assert_eq!(l.read_identifier(), "ab");
    assert_eq!(l.read_number(), "12");
    l.skip_whitespace();
    assert_eq!(l.peek_char(), 0);
    l.read_char();
    assert_eq!(l.next_token(), Token::EOF);
}
