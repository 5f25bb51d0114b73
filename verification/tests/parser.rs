use monkey::lexer::tokens::Token;
use monkey::lexer::Lexer;
use monkey::parser::ast::{Expression, Let, Program, Return, Statement};
use monkey::parser::Parser;

fn messages(parser: &Parser) -> Vec<String> {
    parser.errors().iter().map(|error| error.message().to_string()).collect()
}

#[test]
fn test_let_statements() {
    let input = "let x = 5;
let y = 10;
let foobar = 838383;";

    let lexer = Lexer::new(input);
    let mut parser = Parser::new(lexer);

    let program = parser.parse_program().expect("Failed to parse program");

    assert_eq!(program.statements.len(), 3);

    let ident_names = vec!["x", "y", "foobar"];

    for (i, t) in ident_names.iter().enumerate() {
        let stmt = &program.statements[i];

        if let Statement::Let(let_stmt) = stmt {
            let Expression::Identifier(ident) = &let_stmt.identifier;
            if let Token::Ident { raw, .. } = ident {
                assert_eq!(raw, t.to_owned());
            } else {
                panic!("Binding target is not an identifier");
            }
        } else {
            panic!("Statement is not a let statement");
        }
    }
    assert_eq!(parser.errors().len(), 0);
}

#[test]
fn test_failing_let_statements() {
    let input = "let x 5;
let = 10;
let 838383;";
    let lexer = Lexer::new(input);
    let mut parser = Parser::new(lexer);

    let program = parser.parse_program().expect("Failed to parse program");

    assert_eq!(parser.errors().len(), 3);
    assert!(program.statements.len() < 3);
}

#[test]
fn test_return_statements() {
    let input = "return 5;
return 10;
return 993322;";

    let lexer = Lexer::new(input);
    let mut parser = Parser::new(lexer);

    let program = parser.parse_program().expect("Failed to parse program");

    assert_eq!(program.statements.len(), 3);

    assert_eq!(parser.errors().len(), 0);

    for stmt in program.statements.iter() {
        if let Statement::Return(_) = stmt {
        } else {
            panic!("Statement should be a return statement");
        }
    }
}

#[test]
fn let_statement_is_built_from_its_tokens() {
    let mut parser = Parser::new(Lexer::new("let x = 5;"));
    let program = parser.parse_program().expect("a program");
    assert_eq!(
        program,
        Program {
            statements: vec![Statement::Let(Let {
                token: Token::Let { location: 0 },
                identifier: Expression::Identifier(Token::Ident {
                    location: 4,
                    raw: "x".to_string()
                }),
                value: Expression::Identifier(Token::Int { location: 8, value: 5 }),
            })]
        }
    );
    assert!(parser.errors().is_empty());
}

#[test]
fn return_statement_is_built_from_its_tokens() {
    let mut parser = Parser::new(Lexer::new("return 993322;"));
    let program = parser.parse_program().expect("a program");
    assert_eq!(
        program,
        Program {
            statements: vec![Statement::Return(Return {
                token: Token::Return { location: 0 },
                return_value: Expression::Identifier(Token::Int { location: 7, value: 993322 }),
            })]
        }
    );
    assert!(parser.errors().is_empty());
}

#[test]
fn value_is_the_token_behind_the_assignment_even_a_semicolon() {
    let mut parser = Parser::new(Lexer::new("let x = ; return ;"));
    let program = parser.parse_program().expect("a program");
    assert_eq!(program.statements.len(), 2);
    match &program.statements[0] {
        Statement::Let(node) => {
            assert_eq!(node.value, Expression::Identifier(Token::Semicolon { location: 8 }))
        }
        _ => panic!("expected a let statement"),
    }
    match &program.statements[1] {
        Statement::Return(node) => assert_eq!(
            node.return_value,
            Expression::Identifier(Token::Semicolon { location: 17 })
        ),
        _ => panic!("expected a return statement"),
    }
}

#[test]
fn scan_to_semicolon_passes_over_the_rest_of_the_expression() {
    let mut parser = Parser::new(Lexer::new("let x = 1 + 2 * y; return a == b;"));
    let program = parser.parse_program().expect("a program");
    assert_eq!(program.statements.len(), 2);
    match &program.statements[0] {
        Statement::Let(node) => {
            assert_eq!(node.value, Expression::Identifier(Token::Int { location: 8, value: 1 }))
        }
        _ => panic!("expected a let statement"),
    }
    match &program.statements[1] {
        Statement::Return(node) => assert_eq!(
            node.return_value,
            Expression::Identifier(Token::Ident { location: 26, raw: "a".to_string() })
        ),
        _ => panic!("expected a return statement"),
    }
    assert!(parser.errors().is_empty());
}

#[test]
fn missing_identifier_message_names_the_token_found() {
    let mut parser = Parser::new(Lexer::new("let = 10;"));
    let program = parser.parse_program().expect("a program");
    assert!(program.statements.is_empty());
    assert_eq!(
        messages(&parser),
        vec!["Unexpected Token 'Assign { location: 4 }'. Expected identifier".to_string()]
    );
}

#[test]
fn missing_assignment_message_names_the_token_found() {
    let mut parser = Parser::new(Lexer::new("let x 5;"));
    let program = parser.parse_program().expect("a program");
    assert!(program.statements.is_empty());
    assert_eq!(
        messages(&parser),
        vec![
            "Unexpected Token 'Int { location: 6, value: 5 }'. Expected assignment operator"
                .to_string()
        ]
    );
}

#[test]
fn failing_let_statements_report_in_order() {
    let mut parser = Parser::new(Lexer::new("let x 5;\nlet = 10;\nlet 838383;"));
    let program = parser.parse_program().expect("a program");
    assert!(program.statements.is_empty());
    assert_eq!(
        messages(&parser),
        vec![
            "Unexpected Token 'Int { location: 6, value: 5 }'. Expected assignment operator"
                .to_string(),
            "Unexpected Token 'Assign { location: 13 }'. Expected identifier".to_string(),
            "Unexpected Token 'Int { location: 23, value: 838383 }'. Expected identifier"
                .to_string(),
        ]
    );
}

#[test]
fn statement_without_semicolon_is_reported_and_left_out() {
    let mut parser = Parser::new(Lexer::new("let x = 5"));
    let program = parser.parse_program().expect("a program");
    assert!(program.statements.is_empty());
    assert_eq!(
        messages(&parser),
        vec!["Unexpected Token 'EOF'. Expected semicolon".to_string()]
    );

    let mut parser = Parser::new(Lexer::new("return 5; return 6"));
    let program = parser.parse_program().expect("a program");
    assert_eq!(program.statements.len(), 1);
    assert_eq!(
        messages(&parser),
        vec!["Unexpected Token 'EOF'. Expected semicolon".to_string()]
    );
}

#[test]
fn let_at_the_end_of_input_reports_missing_identifier() {
    let mut parser = Parser::new(Lexer::new("let"));
    let program = parser.parse_program().expect("a program");
    assert!(program.statements.is_empty());
    assert_eq!(messages(&parser), vec!["Unexpected Token 'EOF'. Expected identifier".to_string()]);
}

#[test]
fn empty_input_gives_empty_program_and_no_errors() {
    for input in ["", "   ", "\n\t\r "] {
        let mut parser = Parser::new(Lexer::new(input));
        let program = parser.parse_program().expect("a program");
        assert!(program.statements.is_empty());
        assert!(parser.errors().is_empty());
    }
}

#[test]
fn unrecognized_leading_tokens_are_passed_in_silence() {
    let mut parser = Parser::new(Lexer::new("5 + 5; @ foo let y = 2; )"));
    let program = parser.parse_program().expect("a program");
    assert_eq!(program.statements.len(), 1);
    match &program.statements[0] {
        Statement::Let(node) => assert_eq!(
            node.identifier,
            Expression::Identifier(Token::Ident { location: 17, raw: "y".to_string() })
        ),
        _ => panic!("expected a let statement"),
    }
    assert!(parser.errors().is_empty());
}

#[test]
fn parsing_goes_on_behind_a_malformed_statement() {
    let mut parser = Parser::new(Lexer::new("let 1 = 2; let a = 3; return a;"));
    let program = parser.parse_program().expect("a program");
    assert_eq!(program.statements.len(), 2);
    assert!(matches!(program.statements[0], Statement::Let(_)));
    assert!(matches!(program.statements[1], Statement::Return(_)));
    assert_eq!(
        messages(&parser),
        vec!["Unexpected Token 'Int { location: 4, value: 1 }'. Expected identifier".to_string()]
    );
}

#[test]
fn statement_at_the_last_token_is_attempted() {
    let mut parser = Parser::new(Lexer::new("return 5; return"));
    let program = parser.parse_program().expect("a program");
    assert_eq!(program.statements.len(), 1);
    assert_eq!(
        messages(&parser),
        vec!["Unexpected Token 'EOF'. Expected semicolon".to_string()]
    );
}

#[test]
fn trailing_let_behind_a_semicolon_is_reported() {
    let mut parser = Parser::new(Lexer::new("; let"));
    let program = parser.parse_program().expect("a program");
    assert!(program.statements.is_empty());
    assert_eq!(messages(&parser), vec!["Unexpected Token 'EOF'. Expected identifier".to_string()]);
}

#[test]
fn semicolon_that_ends_a_statement_is_not_attempted_again() {
    let mut parser = Parser::new(Lexer::new("let a = 1;let b = 2;"));
    let program = parser.parse_program().expect("a program");
    assert_eq!(program.statements.len(), 2);
    assert!(parser.errors().is_empty());
}

#[test]
fn nothing_is_left_to_read_behind_a_parse() {
    let mut parser = Parser::new(Lexer::new("let a = 1; x y"));
    let program = parser.parse_program().expect("a program");
    assert_eq!(program.statements.len(), 1);
    // Both tokens in view are `EOF` now: a further attempt finds nothing,
    // and a `let` production finds no identifier.
    assert_eq!(parser.parse_statement(), None);
    let error = parser
        .parse_let_statement(Token::Let { location: 0 })
        .expect_err("no identifier is left");
    assert_eq!(error.message(), "Unexpected Token 'EOF'. Expected identifier");
}

#[test]
fn parsing_twice_gives_the_same_program_and_errors() {
    let input = "let x = 5; let 7; return x; let y 3; return";
    let mut first = Parser::new(Lexer::new(input));
    let mut second = Parser::new(Lexer::new(input));
    let one = first.parse_program();
    let two = second.parse_program();
    assert_eq!(one, two);
    assert_eq!(messages(&first), messages(&second));
    assert_eq!(
        messages(&first),
        vec![
            "Unexpected Token 'Int { location: 15, value: 7 }'. Expected identifier".to_string(),
            "Unexpected Token 'Int { location: 34, value: 3 }'. Expected assignment operator"
                .to_string(),
            "Unexpected Token 'EOF'. Expected semicolon".to_string(),
        ]
    );
}

#[test]
fn next_token_moves_one_token_on() {
    let mut parser = Parser::new(Lexer::new("return 5;"));
    parser.next_token();
    // The current token is now `5`: a return statement parsed from here
    // takes the semicolon, the token after it, as its value.
    let node = parser
        .parse_return_statement(Token::Return { location: 0 })
        .expect("a return statement");
    assert_eq!(node.return_value, Expression::Identifier(Token::Semicolon { location: 8 }));
}

#[test]
fn parse_statement_records_the_error_of_its_production() {
    let mut parser = Parser::new(Lexer::new("let 5"));
    assert_eq!(parser.parse_statement(), None);
    assert_eq!(parser.errors().len(), 1);
    let mut parser = Parser::new(Lexer::new("x = 5;"));
    assert_eq!(parser.parse_statement(), None);
    assert_eq!(parser.errors().len(), 0);
}

#[test]
fn parse_let_statement_keeps_the_token_it_is_given() {
    let mut parser = Parser::new(Lexer::new("let foobar = 838383;"));
    let node = parser.parse_let_statement(Token::Let { location: 0 }).expect("a let statement");
    assert_eq!(node.token, Token::Let { location: 0 });
    assert_eq!(
        node.identifier,
        Expression::Identifier(Token::Ident { location: 4, raw: "foobar".to_string() })
    );
    assert_eq!(node.value, Expression::Identifier(Token::Int { location: 13, value: 838383 }));
    assert!(parser.errors().is_empty());
}
