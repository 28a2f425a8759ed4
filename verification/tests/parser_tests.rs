use rlang::ast::AstNode;
use rlang::ast::LetBinding;
use rlang::ast::Program;
use rlang::lexer::Lexer;
use rlang::parser::Parser;
use rlang::token::TokenType;

fn var(name: &str) -> AstNode {
    AstNode::Var { name: name.to_owned() }
}

fn prim(op: &str, args: Vec<AstNode>) -> AstNode {
    AstNode::Prim { op: op.to_owned(), args }
}

fn error_message(source: &str) -> String {
    let mut parser = Parser::new(Lexer::new(source).lex());
    let ast = parser.parse();
    assert!(!parser.parse_success());
    assert_eq!(parser.error_list().len(), 1);
    assert_eq!(parser.error_list()[0], ast.exp);
    match ast.exp {
        AstNode::Error { msg, .. } => msg,
        _ => panic!(),
    }
}

#[test]
fn parse_constant() {
    let mut parser = Parser::new(Lexer::new("(2)").lex());

    let ast = parser.parse();

    let expected = Program { info: (), exp: AstNode::Int(2) };

    assert_eq!(ast, expected);
}

#[test]
fn parse_add_with_negate() {
    let mut parser = Parser::new(Lexer::new("(+ 2 (-1))").lex());

    let ast = parser.parse();

    let expected = Program {
        info: (),
        exp: AstNode::Prim {
            op: "+".to_owned(),
            args: vec![
                AstNode::Int(2),
                AstNode::Prim { op: "-".to_owned(), args: vec![AstNode::Int(1)] },
            ],
        },
    };

    assert_eq!(ast, expected);
}

#[test]
fn parse_let() {
    let mut parser = Parser::new(Lexer::new("(let ([x 10]) x)").lex());

    let ast = parser.parse();

    let expected = Program {
        info: (),
        exp: AstNode::Let {
            bindings: vec![LetBinding { identifier: "x".to_owned(), expr: AstNode::Int(10) }],
            body: Box::new(AstNode::Var { name: "x".to_owned() }),
        },
    };

    assert_eq!(ast, expected);
}

#[test]
fn parse_nested_let() {
    let mut parser = Parser::new(Lexer::new("(let ([x (let ([y 42]) y)]) x)").lex());

    let ast = parser.parse();

    let var_x = "x".to_owned();
    let var_y = "y".to_owned();

    let expected = Program {
        info: (),
        exp: AstNode::Let {
            bindings: vec![LetBinding {
                identifier: var_x.clone(),
                expr: AstNode::Let {
                    bindings: vec![LetBinding {
                        identifier: var_y.clone(),
                        expr: AstNode::Int(42),
                    }],
                    body: Box::new(AstNode::Var { name: var_y.clone() }),
                },
            }],
            body: Box::new(AstNode::Var { name: "x".to_owned() }),
        },
    };

    assert_eq!(ast, expected);
}

#[test]
fn parse_fail_expect_leftparen() {
    let mut parser = Parser::new(Lexer::new("2").lex());

    let ast = parser.parse();

    match ast.exp {
        AstNode::Error { msg, .. } => {
            assert_eq!("Expected '(', found '2'".to_owned(), msg)
        }

        _ => panic!(),
    }
}

#[test]
fn parse_fail_expect_rightbracket() {
    let mut parser = Parser::new(Lexer::new("(let ([x 10) x)").lex());

    let ast = parser.parse();

    match ast.exp {
        AstNode::Error { msg, .. } => {
            assert_eq!("Expected ']', found ')'".to_owned(), msg)
        }

        _ => panic!(),
    }
}

#[test]
fn parse_success_is_kept() {
    let mut parser = Parser::new(Lexer::new("(read)").lex());
    let ast = parser.parse();
    assert!(parser.parse_success());
    assert!(parser.error_list().is_empty());
    assert_eq!(ast.exp, prim("read", vec![]));
}

#[test]
fn parse_error_names_its_token() {
    let mut parser = Parser::new(Lexer::new("(+ 1 ^)").lex());
    let ast = parser.parse();
    match ast.exp {
        AstNode::Error { msg, token } => {
            assert_eq!(msg, "Expected an expression, found '^'");
            assert_eq!(token.ttype, TokenType::Error);
            assert_eq!(token.lexeme, "^");
            assert_eq!((token.line, token.col), (1, 6));
        }
        _ => panic!(),
    }
}

#[test]
fn parse_missing_closing_parenthesis() {
    assert_eq!(error_message("(+ 1 2"), "Expected ')', found end of input");
    assert_eq!(error_message("(+ 1 (- 2)"), "Expected ')', found end of input");
    assert_eq!(error_message("(let ([x 1]) (+ x x)"), "Expected ')', found end of input");
}

#[test]
fn parse_empty_input() {
    assert_eq!(error_message(""), "Expected '(', found end of input");
    assert_eq!(error_message("("), "Expected an expression, found end of input");
}

#[test]
fn parse_arity_mismatch() {
    assert_eq!(error_message("(+ 1)"), "Expected an expression, found ')'");
    assert_eq!(error_message("(+ 1 2 3)"), "Expected ')', found '3'");
    assert_eq!(error_message("(- )"), "Expected an expression, found ')'");
    assert_eq!(error_message("((read 1))"), "Expected ')', found '1'");
}

#[test]
fn parse_let_errors() {
    assert_eq!(error_message("(let [x 1] x)"), "Expected '(', found '['");
    assert_eq!(error_message("(let () x)"), "Expected '[', found ')'");
    assert_eq!(error_message("(let ([1 2]) x)"), "Expected a variable name, found '1'");
    assert_eq!(error_message("(let ([x 1] x)"), "Expected ')', found 'x'");
    assert_eq!(error_message("(let ([x]) x)"), "Expected an expression, found ']'");
}

#[test]
fn parse_number_out_of_range() {
    assert_eq!(
        error_message("(9223372036854775808)"),
        "Expected a 64-bit integer, found '9223372036854775808'"
    );
    let mut parser = Parser::new(Lexer::new("(9223372036854775807)").lex());
    assert_eq!(parser.parse().exp, AstNode::Int(i64::MAX));
}

#[test]
fn parse_ignores_what_follows_the_program() {
    let mut parser = Parser::new(Lexer::new("(x) y )").lex());
    assert_eq!(parser.parse().exp, var("x"));
    assert!(parser.parse_success());
}

#[test]
fn parse_parentheses_group() {
    let mut parser = Parser::new(Lexer::new("(((+ (x) ((read)))))").lex());
    assert_eq!(parser.parse().exp, prim("+", vec![var("x"), prim("read", vec![])]));
}

#[test]
fn parse_two_bindings() {
    let mut parser = Parser::new(Lexer::new("(let ([x 1][y (- x)]) y)").lex());
    let expected = AstNode::Let {
        bindings: vec![
            LetBinding { identifier: "x".to_owned(), expr: AstNode::Int(1) },
            LetBinding { identifier: "y".to_owned(), expr: prim("-", vec![var("x")]) },
        ],
        body: Box::new(var("y")),
    };
    assert_eq!(parser.parse().exp, expected);
}
