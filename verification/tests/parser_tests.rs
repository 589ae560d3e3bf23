use sil_frontend::lexer::lex;
use sil_frontend::lexer::LoggedToken;
use sil_frontend::lexer::Token;
use sil_frontend::parser::Expected;
use sil_frontend::parser::ExprAST;
use sil_frontend::parser::ParseError;
use sil_frontend::parser::Parser;

fn parse_source(text: &str) -> Result<Vec<ExprAST>, ParseError> {
    let tokens = lex(&text.to_string()).unwrap();
    let parser = Parser { tokens };
    parser.parse()
}

// `*` binds tighter than `+`, which binds tighter than `>=`.
#[test]
fn parse_operator_precedence() {
    let program = parse_source("8 >= 3 + 4 * 5").unwrap();
    let expected = ExprAST::BinaryExpr(
        LoggedToken::new(Token::GreaterThanEqual(">=".to_string()), 0, 2),
        Box::new(ExprAST::NumberLiteral("8".to_string())),
        Box::new(ExprAST::BinaryExpr(
            LoggedToken::new(Token::Plus('+'), 0, 7),
            Box::new(ExprAST::NumberLiteral("3".to_string())),
            Box::new(ExprAST::BinaryExpr(
                LoggedToken::new(Token::Times('*'), 0, 11),
                Box::new(ExprAST::NumberLiteral("4".to_string())),
                Box::new(ExprAST::NumberLiteral("5".to_string())),
            )),
        )),
    );
    assert_eq!(program, vec![expected]);
}

// All binary operators are left-associative.
#[test]
fn parse_left_associativity() {
    let program = parse_source("8 - 3 - 2").unwrap();
    let expected = ExprAST::BinaryExpr(
        LoggedToken::new(Token::Minus('-'), 0, 6),
        Box::new(ExprAST::BinaryExpr(
            LoggedToken::new(Token::Minus('-'), 0, 2),
            Box::new(ExprAST::NumberLiteral("8".to_string())),
            Box::new(ExprAST::NumberLiteral("3".to_string())),
        )),
        Box::new(ExprAST::NumberLiteral("2".to_string())),
    );
    assert_eq!(program, vec![expected]);
}

// Parentheses override precedence.
#[test]
fn parse_parenthesized_grouping() {
    let program = parse_source("(8 + 3) * 2").unwrap();
    let expected = ExprAST::BinaryExpr(
        LoggedToken::new(Token::Times('*'), 0, 8),
        Box::new(ExprAST::BinaryExpr(
            LoggedToken::new(Token::Plus('+'), 0, 3),
            Box::new(ExprAST::NumberLiteral("8".to_string())),
            Box::new(ExprAST::NumberLiteral("3".to_string())),
        )),
        Box::new(ExprAST::NumberLiteral("2".to_string())),
    );
    assert_eq!(program, vec![expected]);
}

// The fibonacci definition parses to one FunctionDef with the documented
// shape.
#[test]
fn parse_fibonacci_function() {
    let program =
        parse_source("def fib(x) { if (x < 3) { return 1 } else { return fib(x-1) + fib(x-2) } }")
            .unwrap();
    assert_eq!(program.len(), 1);
    match &program[0] {
        ExprAST::FunctionDef(name, params, body) => {
            assert_eq!(name, "fib");
            assert_eq!(params, &vec!["x".to_string()]);
            assert_eq!(body.len(), 1);
            match &body[0] {
                ExprAST::Conditional(cond, then_branch, else_branch) => {
                    match cond.as_ref() {
                        ExprAST::BinaryExpr(op, left, right) => {
                            assert_eq!(op.token, Token::LessThan('<'));
                            assert_eq!(
                                left.as_ref(),
                                &ExprAST::Variable("x".to_string())
                            );
                            assert_eq!(
                                right.as_ref(),
                                &ExprAST::NumberLiteral("3".to_string())
                            );
                        }
                        other => panic!("expected a comparison, got {:?}", other),
                    }
                    assert_eq!(
                        then_branch,
                        &vec![ExprAST::Return(Some(Box::new(ExprAST::NumberLiteral(
                            "1".to_string()
                        ))))]
                    );
                    let else_branch = else_branch.as_ref().unwrap();
                    assert_eq!(else_branch.len(), 1);
                    match &else_branch[0] {
                        ExprAST::Return(Some(value)) => match value.as_ref() {
                            ExprAST::BinaryExpr(op, left, right) => {
                                assert_eq!(op.token, Token::Plus('+'));
                                assert!(matches!(left.as_ref(), ExprAST::Call(n, _) if n == "fib"));
                                assert!(
                                    matches!(right.as_ref(), ExprAST::Call(n, _) if n == "fib")
                                );
                            }
                            other => panic!("expected an addition, got {:?}", other),
                        },
                        other => panic!("expected a return, got {:?}", other),
                    }
                }
                other => panic!("expected a conditional, got {:?}", other),
            }
        }
        other => panic!("expected a function definition, got {:?}", other),
    }
}

// An unmatched `(` exhausts the input mid-construct.
#[test]
fn parse_unmatched_paren_fails() {
    let result = parse_source("(1 + 2");
    assert_eq!(result, Err(ParseError::UnexpectedEnd { expected: Expected::CloseParen }));
}

#[test]
fn parse_let_and_assignment() {
    let program = parse_source("let x = 5.237 \n x = 6").unwrap();
    assert_eq!(
        program,
        vec![
            ExprAST::LetBinding(
                "x".to_string(),
                Box::new(ExprAST::NumberLiteral("5.237".to_string())),
            ),
            ExprAST::Assignment(
                "x".to_string(),
                Box::new(ExprAST::NumberLiteral("6".to_string())),
            ),
        ]
    );
}

#[test]
fn parse_while_loop() {
    let program = parse_source("while (x > 0) { x = x - 1 }").unwrap();
    assert_eq!(program.len(), 1);
    match &program[0] {
        ExprAST::WhileLoop(cond, body) => {
            assert!(matches!(cond.as_ref(), ExprAST::BinaryExpr(_, _, _)));
            assert_eq!(body.len(), 1);
            assert!(matches!(&body[0], ExprAST::Assignment(n, _) if n == "x"));
        }
        other => panic!("expected a while loop, got {:?}", other),
    }
}

#[test]
fn parse_conditional_without_else() {
    let program = parse_source("if (x) { break }").unwrap();
    assert_eq!(
        program,
        vec![ExprAST::Conditional(
            Box::new(ExprAST::Variable("x".to_string())),
            vec![ExprAST::Break],
            None,
        )]
    );
}

#[test]
fn parse_return_break_continue() {
    let program = parse_source("return 5 \n return \n break \n continue").unwrap();
    assert_eq!(
        program,
        vec![
            ExprAST::Return(Some(Box::new(ExprAST::NumberLiteral("5".to_string())))),
            ExprAST::Return(None),
            ExprAST::Break,
            ExprAST::Continue,
        ]
    );
}

#[test]
fn parse_boolean_literals() {
    let program = parse_source("true \n false").unwrap();
    assert_eq!(
        program,
        vec![ExprAST::BooleanLiteral(true), ExprAST::BooleanLiteral(false)]
    );
}

#[test]
fn parse_calls() {
    let program = parse_source("f() \n g(a, b + 1)").unwrap();
    assert_eq!(program.len(), 2);
    assert_eq!(program[0], ExprAST::Call("f".to_string(), vec![]));
    match &program[1] {
        ExprAST::Call(name, args) => {
            assert_eq!(name, "g");
            assert_eq!(args.len(), 2);
            assert_eq!(args[0], ExprAST::Variable("a".to_string()));
            assert!(matches!(&args[1], ExprAST::BinaryExpr(_, _, _)));
        }
        other => panic!("expected a call, got {:?}", other),
    }
}

#[test]
fn parse_function_with_several_parameters() {
    let program = parse_source("def add3(a, b, c) { return a + b + c }").unwrap();
    assert_eq!(program.len(), 1);
    match &program[0] {
        ExprAST::FunctionDef(name, params, body) => {
            assert_eq!(name, "add3");
            assert_eq!(
                params,
                &vec!["a".to_string(), "b".to_string(), "c".to_string()]
            );
            assert_eq!(body.len(), 1);
        }
        other => panic!("expected a function definition, got {:?}", other),
    }
}

#[test]
fn parse_empty_token_sequence() {
    let parser = Parser { tokens: vec![] };
    assert_eq!(parser.parse(), Ok(vec![]));
}

#[test]
fn parse_error_let_without_identifier() {
    let result = parse_source("let 5 = 3");
    assert_eq!(
        result,
        Err(ParseError::UnexpectedToken {
            expected: Expected::Identifier,
            found: Token::Number("5".to_string()),
            line: 0,
        })
    );
}

#[test]
fn parse_error_if_without_paren() {
    let result = parse_source("if x > 1 { }");
    assert_eq!(
        result,
        Err(ParseError::UnexpectedToken {
            expected: Expected::OpenParen,
            found: Token::Identifier("x".to_string()),
            line: 0,
        })
    );
}

#[test]
fn parse_error_parameters_without_comma() {
    let result = parse_source("def f(x y) { }");
    assert_eq!(
        result,
        Err(ParseError::UnexpectedToken {
            expected: Expected::CommaOrCloseParen,
            found: Token::Identifier("y".to_string()),
            line: 0,
        })
    );
}

#[test]
fn parse_error_trailing_comma_in_parameters() {
    let result = parse_source("def f(x,) { }");
    assert_eq!(
        result,
        Err(ParseError::UnexpectedToken {
            expected: Expected::ParameterName,
            found: Token::CloseParen(')'),
            line: 0,
        })
    );
}

#[test]
fn parse_error_stray_semicolon() {
    let result = parse_source(";");
    assert_eq!(
        result,
        Err(ParseError::UnexpectedToken {
            expected: Expected::Expression,
            found: Token::Semicolon(';'),
            line: 0,
        })
    );
}

#[test]
fn parse_error_operand_missing() {
    let result = parse_source("5 +");
    assert_eq!(result, Err(ParseError::UnexpectedEnd { expected: Expected::Expression }));
}

#[test]
fn parse_error_unclosed_block() {
    let result = parse_source("while (1) { x");
    assert_eq!(result, Err(ParseError::UnexpectedEnd { expected: Expected::CloseCurly }));
}

#[test]
fn parse_error_def_at_end() {
    let result = parse_source("def");
    assert_eq!(result, Err(ParseError::UnexpectedEnd { expected: Expected::Identifier }));
}

// parseExpr reads one expression from the front of the tokens and leaves
// the rest unconsumed.
#[test]
fn parse_expr_reads_one_expression() {
    let tokens = lex(&"1 + 2 3".to_string()).unwrap();
    let parser = Parser { tokens };
    let expr = parser.parseExpr().unwrap();
    assert_eq!(
        expr,
        ExprAST::BinaryExpr(
            LoggedToken::new(Token::Plus('+'), 0, 2),
            Box::new(ExprAST::NumberLiteral("1".to_string())),
            Box::new(ExprAST::NumberLiteral("2".to_string())),
        )
    );
}

// parsePrimaryExpr reads only a primary expression: no operator climbing.
#[test]
fn parse_primary_expr_reads_primary_only() {
    let tokens = lex(&"7 + 1".to_string()).unwrap();
    let parser = Parser { tokens };
    let expr = parser.parsePrimaryExpr().unwrap();
    assert_eq!(expr, ExprAST::NumberLiteral("7".to_string()));
}

// Parsing is deterministic: the same tokens give the same tree.
#[test]
fn parse_is_deterministic() {
    let first = parse_source("def f(x) { return x * x } f(3)");
    let second = parse_source("def f(x) { return x * x } f(3)");
    assert_eq!(first, second);
}
