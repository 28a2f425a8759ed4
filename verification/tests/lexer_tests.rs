use rlang::lexer::Lexer;
use rlang::token::Token;
use rlang::token::TokenType;

fn token(ttype: TokenType, lexeme: &str, line: usize, col: usize) -> Token {
    Token { ttype, lexeme: lexeme.to_owned(), line, col }
}

#[test]
fn single_number() {
    let input = "2";

    let mut lexer = Lexer::new(input);

    let tokens = lexer.lex();

    let expected_tokens: Vec<Token> = vec![
        Token { ttype: TokenType::Number, lexeme: "2".to_owned(), line: 1, col: 1 },
    ];

    assert_eq!(tokens, expected_tokens);
}

#[test]
fn constant_addition() {
    let input = "(+ 2 2)";

    let mut lexer = Lexer::new(input);

    let tokens = lexer.lex();

    let expected_tokens: Vec<Token> = vec![
        Token { ttype: TokenType::Lparen, lexeme: "(".to_owned(), line: 1, col: 1 },
        Token { ttype: TokenType::Add, lexeme: "+".to_owned(), line: 1, col: 2 },
        Token { ttype: TokenType::Number, lexeme: "2".to_owned(), line: 1, col: 4 },
        Token { ttype: TokenType::Number, lexeme: "2".to_owned(), line: 1, col: 6 },
        Token { ttype: TokenType::Rparen, lexeme: ")".to_owned(), line: 1, col: 7 },
    ];

    assert_eq!(tokens, expected_tokens);
}

#[test]
fn let_statement() {
    let input = "(let ([x 10]) x)";

    let mut lexer = Lexer::new(input);

    let tokens = lexer.lex();

    let expected_tokens: Vec<Token> = vec![
        Token { ttype: TokenType::Lparen, lexeme: "(".to_owned(), line: 1, col: 1 },
        Token { ttype: TokenType::Identifier, lexeme: "let".to_owned(), line: 1, col: 2 },
        Token { ttype: TokenType::Lparen, lexeme: "(".to_owned(), line: 1, col: 6 },
        Token { ttype: TokenType::Lbracket, lexeme: "[".to_owned(), line: 1, col: 7 },
        Token { ttype: TokenType::Identifier, lexeme: "x".to_owned(), line: 1, col: 8 },
        Token { ttype: TokenType::Number, lexeme: "10".to_owned(), line: 1, col: 10 },
        Token { ttype: TokenType::Rbracket, lexeme: "]".to_owned(), line: 1, col: 12 },
        Token { ttype: TokenType::Rparen, lexeme: ")".to_owned(), line: 1, col: 13 },
        Token { ttype: TokenType::Identifier, lexeme: "x".to_owned(), line: 1, col: 15 },
        Token { ttype: TokenType::Rparen, lexeme: ")".to_owned(), line: 1, col: 16 },
    ];

    assert_eq!(tokens, expected_tokens);
}

#[test]
fn error_unknown_caret() {
    let input = "^";

    let mut lexer = Lexer::new(input);

    let tokens = lexer.lex();

    let expected_tokens: Vec<Token> = vec![
        Token { ttype: TokenType::Error, lexeme: "^".to_owned(), line: 1, col: 1 },
    ];

    assert_eq!(tokens, expected_tokens);
}

#[test]
fn lex_empty_text_has_no_tokens() {
    assert_eq!(Lexer::new("").lex(), Vec::<Token>::new());
    assert_eq!(Lexer::new(" \t\r\n ").lex(), Vec::<Token>::new());
}

#[test]
fn lex_tab_counts_as_one_column() {
    let tokens = Lexer::new("\tx").lex();
    assert_eq!(tokens, vec![token(TokenType::Identifier, "x", 1, 2)]);
}

#[test]
fn lex_line_break_starts_next_line() {
    let tokens = Lexer::new("a\nbc d").lex();
    assert_eq!(
        tokens,
        vec![
            token(TokenType::Identifier, "a", 1, 1),
            token(TokenType::Identifier, "bc", 2, 2),
            token(TokenType::Identifier, "d", 2, 5),
        ]
    );
}

#[test]
fn lex_identifier_may_hold_digits_and_hyphens() {
    let tokens = Lexer::new("show-x64 -7").lex();
    assert_eq!(
        tokens,
        vec![
            token(TokenType::Identifier, "show-x64", 1, 1),
            token(TokenType::Negate, "-", 1, 10),
            token(TokenType::Number, "7", 1, 11),
        ]
    );
}

#[test]
fn lex_number_ends_at_a_letter() {
    let tokens = Lexer::new("12ab]").lex();
    assert_eq!(
        tokens,
        vec![
            token(TokenType::Number, "12", 1, 1),
            token(TokenType::Identifier, "ab", 1, 3),
            token(TokenType::Rbracket, "]", 1, 5),
        ]
    );
}

#[test]
fn lex_is_done_once() {
    let mut lexer = Lexer::new("(1)");
    assert_eq!(lexer.lex().len(), 3);
    assert_eq!(lexer.lex().len(), 0);
}
