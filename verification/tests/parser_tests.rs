use zeno::ast::BinaryOperator;
use zeno::ast::Expr;
use zeno::ast::Program;
use zeno::ast::Statement;
use zeno::ast::UnaryOperator;
use zeno::lexer::Lexer;
use zeno::lexer::Token;
use zeno::parser::Parser;

// Runs the parser and checks the error and statement counts.
fn run_parser_test(input: &str, expected_stmts: usize, expected_errors: usize) -> Program {
    let l = Lexer::new(input);
    let mut p = Parser::new(l);
    let program_result = p.parse_program();

    if expected_errors > 0 {
        assert!(
            program_result.is_err(),
            "Expected parsing errors, but got Ok for input: '{}'",
            input
        );
        let errors = program_result.unwrap_err();
        assert_eq!(
            errors.len(),
            expected_errors,
            "Wrong number of parsing errors for input: '{}'. Got: {:?}, Expected: {}",
            input,
            errors,
            expected_errors
        );
        Program { statements: vec![] }
    } else {
        assert!(
            program_result.is_ok(),
            "Expected successful parse for input: '{}', but got errors: {:?}",
            input,
            program_result.unwrap_err()
        );
        let program = program_result.unwrap();
        assert_eq!(
            program.statements.len(),
            expected_stmts,
            "Wrong number of statements for input: '{}'. Got: {}, Expected: {}",
            input,
            program.statements.len(),
            expected_stmts
        );
        assert!(
            p.errors().is_empty(),
            "Parser reported errors unexpectedly for input: '{}': {:?}",
            input,
            p.errors()
        );
        program
    }
}

#[test]
fn test_let_statements() {
    let tests = vec![
        ("let x = 5;", "x", None, false, Expr::Integer(5)),
        ("let y = 10.5", "y", None, false, Expr::Float("10.5".to_string())),
        ("let z = true", "z", None, false, Expr::Boolean(true)),
        (
            "let s = \"hello\";",
            "s",
            None,
            false,
            Expr::StringLiteral("hello".to_string()),
        ),
    ];

    for (input, name, type_ann_opt, mutable_expected, value_expr_expected) in tests {
        let program = run_parser_test(input, 1, 0);
        match &program.statements[0] {
            Statement::LetDecl {
                name: n,
                type_ann,
                mutable,
                value_expr,
            } => {
                assert_eq!(n, name);
                let expected_ann: Option<&str> = type_ann_opt;
                assert_eq!(*type_ann, expected_ann.map(String::from));
                assert_eq!(*mutable, mutable_expected);
                assert_eq!(*value_expr, value_expr_expected);
            }
            _ => panic!("Expected LetDecl, got {:?}", program.statements[0]),
        }
    }
}

#[test]
fn test_mut_statements() {
    let tests = vec![
        ("mut x = 5;", "x", None, true, Expr::Integer(5)),
        ("mut y = 10.5", "y", None, true, Expr::Float("10.5".to_string())),
        ("mut z: bool = true", "z", Some("bool"), true, Expr::Boolean(true)),
        (
            "mut s: string = \"hello\";",
            "s",
            Some("string"),
            true,
            Expr::StringLiteral("hello".to_string()),
        ),
    ];

    for (input, name, type_ann_opt, mutable_expected, value_expr_expected) in tests {
        let program = run_parser_test(input, 1, 0);
        match &program.statements[0] {
            Statement::LetDecl {
                name: n,
                type_ann,
                mutable,
                value_expr,
            } => {
                assert_eq!(n, name);
                assert_eq!(*type_ann, type_ann_opt.map(String::from));
                assert_eq!(*mutable, mutable_expected);
                assert_eq!(*value_expr, value_expr_expected);
            }
            _ => panic!("Expected LetDecl (for mut), got {:?}", program.statements[0]),
        }
    }
}

#[test]
fn test_let_statement_with_type() {
    let program = run_parser_test("let x: int = 5", 1, 0);
    match &program.statements[0] {
        Statement::LetDecl {
            name,
            type_ann,
            mutable,
            value_expr,
        } => {
            assert_eq!(name, "x");
            assert_eq!(*type_ann, Some("int".to_string()));
            assert!(!*mutable);
            assert_eq!(*value_expr, Expr::Integer(5));
        }
        _ => panic!("Expected LetDecl"),
    }

    let program_float = run_parser_test("let y: float = 3.14;", 1, 0);
    match &program_float.statements[0] {
        Statement::LetDecl {
            name,
            type_ann,
            mutable,
            value_expr,
        } => {
            assert_eq!(name, "y");
            assert_eq!(*type_ann, Some("float".to_string()));
            assert!(!*mutable);
            assert_eq!(*value_expr, Expr::Float("3.14".to_string()));
        }
        _ => panic!("Expected LetDecl"),
    }
}

#[test]
fn test_let_statement_errors() {
    run_parser_test("let = 5;", 0, 1);
    run_parser_test("let x 5;", 0, 1);
    run_parser_test("let x = ;", 0, 1);
    run_parser_test("mut y : int = ;", 0, 1);
    run_parser_test("let z : = 10;", 0, 1);
    run_parser_test("mut w : float 20.0;", 0, 1);
}

#[test]
fn test_assignment_statement() {
    let tests = vec![
        (
            "val = 100 + 20",
            "val",
            Expr::BinaryOp {
                left: Box::new(Expr::Integer(100)),
                op: BinaryOperator::Plus,
                right: Box::new(Expr::Integer(20)),
            },
        ),
        (
            "another = \"text\";",
            "another",
            Expr::StringLiteral("text".to_string()),
        ),
        ("flag = true", "flag", Expr::Boolean(true)),
    ];
    for (input, expected_name, expected_expr) in tests {
        let program = run_parser_test(input, 1, 0);
        match &program.statements[0] {
            Statement::Assignment { name, value_expr } => {
                assert_eq!(name, expected_name);
                assert_eq!(*value_expr, expected_expr);
            }
            _ => panic!("Expected Assignment statement for input: {}", input),
        }
    }

    let full_input = "val = 1\n a = val";
    let program_seq = run_parser_test(full_input, 2, 0);
    assert!(matches!(&program_seq.statements[0], Statement::Assignment { .. }));
    assert!(matches!(&program_seq.statements[1], Statement::Assignment { .. }));
}

#[test]
fn test_assignment_errors() {
    run_parser_test("x = ;", 0, 1);
    run_parser_test("x = ", 0, 1);
}

#[test]
fn test_print_statements() {
    run_parser_test("print(x)", 1, 0);
    run_parser_test("println(y + 2);", 1, 0);
    let full_input = "print(1)\nprintln(2)";
    run_parser_test(full_input, 2, 0);
}

#[test]
fn test_expression_statement_literals() {
    run_parser_test("5", 1, 0);
    run_parser_test("true;", 1, 0);
    run_parser_test("\"test_string\"", 1, 0);
    let program = run_parser_test("3.14", 1, 0);
    assert_eq!(
        program.statements[0],
        Statement::ExprStatement {
            expr: Expr::Float("3.14".to_string())
        }
    );
    let full_input = "3.14\nfalse";
    run_parser_test(full_input, 2, 0);
}

#[test]
fn test_prefix_expressions() {
    run_parser_test("!true", 1, 0);
    let program = run_parser_test("-15.5", 1, 0);
    match &program.statements[0] {
        Statement::ExprStatement {
            expr:
                Expr::UnaryOp {
                    op: UnaryOperator::Negate,
                    expr: inner_expr,
                },
        } => {
            assert_eq!(**inner_expr, Expr::Float("15.5".to_string()));
        }
        _ => panic!("Not a prefix negation of float. Got {:?}", program.statements[0]),
    }
}

#[test]
fn test_infix_expressions_simple_arithmetic() {
    run_parser_test("5 + 5", 1, 0);
    let program = run_parser_test("10 - 2.0", 1, 0);
    match &program.statements[0] {
        Statement::ExprStatement {
            expr: Expr::BinaryOp { left, op, right },
        } => {
            assert_eq!(**left, Expr::Integer(10));
            assert_eq!(*op, BinaryOperator::Minus);
            assert_eq!(**right, Expr::Float("2.0".to_string()));
        }
        _ => panic!("Not a binary op with float. Got {:?}", program.statements[0]),
    }
    run_parser_test("3 * 8", 1, 0);
}

#[test]
fn test_operator_precedence_parsing() {
    let tests = vec![
        "-a * b",
        "!-a",
        "a + b + c",
        "a + b / c",
        "3 > 5 == false",
        "(1 + 2) * 3",
        "a + add(b * c) + d",
    ];
    for input in tests {
        run_parser_test(input, 1, 0);
    }
    run_parser_test("let val = 1 + 2 * 3", 1, 0);
}

#[test]
fn test_call_expression_parsing() {
    let program = run_parser_test("myFunction(arg1, 2.5, arg3 + 4)", 1, 0);
    match &program.statements[0] {
        Statement::ExprStatement {
            expr: Expr::Call { callee, args },
        } => {
            assert_eq!(callee, "myFunction");
            assert_eq!(args.len(), 3);
            assert!(matches!(&args[0], Expr::Identifier(id) if id == "arg1"));
            assert_eq!(args[1], Expr::Float("2.5".to_string()));
            assert!(matches!(
                &args[2],
                Expr::BinaryOp {
                    op: BinaryOperator::Plus,
                    ..
                }
            ));
        }
        _ => panic!("Not a call expression statement. Got {:?}", program.statements[0]),
    }
    run_parser_test("anotherCall();", 1, 0);
}

#[test]
fn test_parse_malformed_float_string() {
    // A float token whose lexeme is not a number can only be planted by
    // hand; the parser must reject it with a diagnostic.
    let lexer = Lexer::new("");
    let mut parser = Parser::new(lexer);
    parser.current_token = Token::Float("not-a-float".to_string());

    let expr_result = parser.parse_float_literal();
    assert!(expr_result.is_none());
    assert_eq!(parser.errors().len(), 1);
    assert!(parser.errors()[0].contains("Could not parse float string 'not-a-float'"));
}

#[test]
fn test_if_statement_no_else() {
    let input = "if x < y { x = 1\n print(x) }";
    let program = run_parser_test(input, 1, 0);
    match &program.statements[0] {
        Statement::If {
            condition,
            then_block,
            else_if_blocks,
            else_block,
        } => {
            assert!(matches!(
                condition,
                Expr::BinaryOp {
                    op: BinaryOperator::Lt,
                    ..
                }
            ));
            assert_eq!(then_block.statements.len(), 2, "Then block should have 2 statements");
            assert!(else_if_blocks.is_empty());
            assert!(else_block.is_none());
        }
        _ => panic!("Not an if statement. Got {:?}", program.statements[0]),
    }
}

#[test]
fn test_if_empty_block() {
    let input = "if x {}";
    let program = run_parser_test(input, 1, 0);
    match &program.statements[0] {
        Statement::If { then_block, .. } => {
            assert!(then_block.statements.is_empty(), "Then block should be empty");
        }
        _ => panic!("Not an if statement"),
    }
}

#[test]
fn test_if_else_statement_parsing() {
    let input = "if x > y { 1 } else { 0; }";
    let program = run_parser_test(input, 1, 0);
    match &program.statements[0] {
        Statement::If { else_block, .. } => {
            assert!(else_block.is_some());
            assert_eq!(else_block.as_ref().unwrap().statements.len(), 1);
        }
        _ => panic!("Not an if statement. Got {:?}", program.statements[0]),
    }
}

#[test]
fn test_if_else_if_else_complex() {
    let input = "if a == 1 { print(1) } else if a == 2 { print(2); } else { print(3) }";
    let program = run_parser_test(input, 1, 0);
    match &program.statements[0] {
        Statement::If {
            else_if_blocks,
            else_block,
            ..
        } => {
            assert_eq!(else_if_blocks.len(), 1);
            assert!(else_block.is_some());
            assert_eq!(else_block.as_ref().unwrap().statements.len(), 1);
        }
        _ => panic!("Not an if-elseif-else statement. Got {:?}", program.statements[0]),
    }
}

#[test]
fn test_if_block_with_semicolons_only() {
    let input = "if true { ;;; }";
    let program = run_parser_test(input, 1, 0);
    match &program.statements[0] {
        Statement::If { then_block, .. } => {
            assert!(
                then_block.statements.is_empty(),
                "Block with only semicolons should be empty of actual statements."
            );
        }
        _ => panic!("Not an if statement"),
    }
}

#[test]
fn test_loop_statement_parsing() {
    let input = "loop { print(1)\n break }";
    let program = run_parser_test(input, 1, 0);
    match &program.statements[0] {
        Statement::Loop { body_block } => {
            assert_eq!(body_block.statements.len(), 2);
        }
        _ => panic!("Not a loop statement. Got {:?}", program.statements[0]),
    }

    let empty_loop = "loop {}";
    let program_empty = run_parser_test(empty_loop, 1, 0);
    match &program_empty.statements[0] {
        Statement::Loop { body_block } => {
            assert!(body_block.statements.is_empty());
        }
        _ => panic!("Not an empty loop statement"),
    }
}

#[test]
fn test_while_statement_parsing() {
    let input = "while count < 10 { count = count + 1\n continue; }";
    let program = run_parser_test(input, 1, 0);
    match &program.statements[0] {
        Statement::While {
            condition,
            body_block,
        } => {
            assert!(matches!(
                condition,
                Expr::BinaryOp {
                    op: BinaryOperator::Lt,
                    ..
                }
            ));
            assert_eq!(body_block.statements.len(), 2);
            assert!(matches!(&body_block.statements[1], Statement::Continue));
        }
        _ => panic!("Not a while statement. Got {:?}", program.statements[0]),
    }
}

#[test]
fn test_for_statement_complete() {
    let input = "for let i = 0; i < 10; i = i + 1 { print(i)\n print(i*2) }";
    let program = run_parser_test(input, 1, 0);
    match &program.statements[0] {
        Statement::For {
            initializer,
            condition,
            increment,
            body_block,
        } => {
            assert!(initializer.is_some());
            assert!(matches!(
                initializer.as_ref().unwrap().as_ref(),
                Statement::LetDecl { .. }
            ));
            assert!(condition.is_some());
            assert!(matches!(
                condition.as_ref().unwrap(),
                Expr::BinaryOp {
                    op: BinaryOperator::Lt,
                    ..
                }
            ));
            assert!(increment.is_some());
            assert_eq!(body_block.statements.len(), 2);
        }
        _ => panic!("Not a for statement. Got {:?}", program.statements[0]),
    }
}

#[test]
fn test_for_statement_minimal() {
    let input = "for ;; { break }";
    let program = run_parser_test(input, 1, 0);
    match &program.statements[0] {
        Statement::For {
            initializer,
            condition,
            increment,
            body_block,
        } => {
            assert!(initializer.is_none());
            assert!(condition.is_none());
            assert!(increment.is_none());
            assert_eq!(body_block.statements.len(), 1);
        }
        _ => panic!("Not a for statement. Got {:?}", program.statements[0]),
    }
}

#[test]
fn test_for_statement_only_condition() {
    let input = "for ; i < 10 ; { i = i + 1 }";
    let program = run_parser_test(input, 1, 0);
    match &program.statements[0] {
        Statement::For {
            initializer,
            condition,
            increment,
            body_block,
        } => {
            assert!(initializer.is_none());
            assert!(condition.is_some());
            assert!(increment.is_none());
            assert_eq!(body_block.statements.len(), 1);
        }
        _ => panic!("Not a for statement. Got {:?}", program.statements[0]),
    }
}

#[test]
fn test_break_and_continue_optional_semicolon() {
    run_parser_test("loop { break }", 1, 0);
    run_parser_test("loop { continue; }", 1, 0);
    let input = "loop { if (x) {break} else {continue;} }";
    run_parser_test(input, 1, 0);
}

#[test]
fn test_sequence_of_statements_mixed_semicolons() {
    let input = r#"
            let x = 10
            let y = 20;
            x = x + y
            print(x);
            let z = "done"
        "#;
    run_parser_test(input, 5, 0);
}

#[test]
fn test_empty_statements_still_parse() {
    run_parser_test("", 0, 0);
    run_parser_test("   \n\n   ", 0, 0);
    run_parser_test(";;;", 0, 0);
}

#[test]
fn test_statements_in_block_mixed_semicolons() {
    let input = r#"
        if true {
            let a = 1
            print(a);
            let b = 2
            a = a + b
        }
        "#;
    let program = run_parser_test(input, 1, 0);
    match &program.statements[0] {
        Statement::If { then_block, .. } => {
            assert_eq!(then_block.statements.len(), 4, "Block should contain 4 statements");
        }
        _ => panic!("Not an if statement"),
    }
}

#[test]
fn test_unterminated_block_error() {
    let input = "if true { let x = 1";
    run_parser_test(input, 0, 1);
}

#[test]
fn test_error_let_missing_equals() {
    let input = "let x 5";
    run_parser_test(input, 0, 1);
}

#[test]
fn test_error_unclosed_parenthesis_in_expression() {
    let input = "let x = (5 + 2";
    run_parser_test(input, 0, 1);
}

#[test]
fn test_error_if_missing_condition_parentheses() {
    run_parser_test("if x print(x)", 0, 1);
}

#[test]
fn test_error_if_missing_body_braces() {
    let input = "if x < 10 print(x)";
    run_parser_test(input, 0, 1);
}

#[test]
fn test_error_for_loop_missing_internal_semicolons() {
    let input = "for let i = 0 i < 10 i = i + 1 {}";
    run_parser_test(input, 0, 2);
}

#[test]
fn test_for_loop_statement_no_brace() {
    let input = "for let i = 0; i < 1; i = i + 1 print(i)";
    run_parser_test(input, 0, 1);
}

#[test]
fn test_error_unexpected_token_in_statement() {
    let input = "let x = 5 +";
    run_parser_test(input, 1, 1);
}
