use zeno::generator::generate;
use zeno::lexer::Lexer;
use zeno::parser::Parser;

// Parses the source, emits it, checks the expected fragments and that the
// emitted braces balance.
fn run_generator_test(input_source: &str, expected_fragments: Vec<&str>) -> String {
    let l = Lexer::new(input_source);
    let mut p = Parser::new(l);
    let program_result = p.parse_program();
    assert!(
        program_result.is_ok(),
        "Parser failed for input:\n{}\nErrors: {:?}",
        input_source,
        program_result.unwrap_err()
    );

    let program = program_result.unwrap();
    let code_result = generate(&program);
    assert!(code_result.is_ok(), "Generator failed");

    let code = code_result.unwrap();
    for sub in &expected_fragments {
        assert!(
            code.contains(sub),
            "Generated code does not contain expected fragment: '{}'.\nFull code:\n{}",
            sub,
            code
        );
    }

    let mut brace_count: i64 = 0;
    for c in code.chars() {
        if c == '{' {
            brace_count += 1;
        } else if c == '}' {
            brace_count -= 1;
        }
    }
    assert_eq!(
        brace_count, 0,
        "Unbalanced braces in generated code for input:\n{}",
        input_source
    );
    code
}

#[test]
fn test_generate_let_and_assign() {
    run_generator_test("let x = 10; let mut y: float = 20.0; y = x + 15.5;", vec![
        "let x = 10_i64;",
        "let mut y: f64 = 20.0_f64;",
        "y = (x + 15.5_f64);",
    ]);
    run_generator_test("let z = 1 + 2", vec!["let z = (1_i64 + 2_i64);"]);
    run_generator_test("mut count = 0", vec!["let mut count = 0_i64;"]);
}

#[test]
fn test_for_loop_only_initializer() {
    let code = "for (let i = 10;;) { print(i); break; }";
    run_generator_test(code, vec![
        "let i = 10_i64;",
        "while true {",
        "print!(\"{}\", i);",
        "break;",
        "}",
    ]);

    let code_mut = "for (let mut i = 0;;) { print(i); break; }";
    run_generator_test(code_mut, vec![
        "let mut i = 0_i64;",
        "while true {",
        "print!(\"{}\", i);",
        "break;",
        "}",
    ]);
}

#[test]
fn test_generate_print_statements() {
    run_generator_test("print(123); println(\"hello\"); print(true);", vec![
        "print!(\"{}\", 123_i64);",
        "println!(\"{}\", \"hello\");",
        "print!(\"{}\", true);",
    ]);
}

#[test]
fn test_generate_arithmetic_and_boolean_expressions() {
    // `%` binds tighter than `-`, so the right-hand side of the subtraction
    // is the whole `(4 / 2) % 3`.
    run_generator_test("let v = (1 + 2) * 3 - 4 / 2 % 3;", vec![
        "let v = (((1_i64 + 2_i64) * 3_i64) - ((4_i64 / 2_i64) % 3_i64));",
    ]);
    run_generator_test("let b = !true && (false || (1 < 2));", vec![
        "let b = ((!true) && (false || (1_i64 < 2_i64)));",
    ]);
}

#[test]
fn test_generate_if_else_if_else() {
    let code = "if (x > 10) { print(1); } else if (x < 5) { print(2); } else { print(3); }";
    run_generator_test(code, vec![
        "if (x > 10_i64) {",
        "print!(\"{}\", 1_i64);",
        "} else if (x < 5_i64) {",
        "print!(\"{}\", 2_i64);",
        "} else {",
        "print!(\"{}\", 3_i64);",
        "}",
    ]);
}

#[test]
fn test_generate_loop_with_break_continue() {
    let code = "let mut i = 0; loop { i = i + 1; if (i == 2) { continue; } if (i > 3) { break; } print(i); }";
    run_generator_test(code, vec![
        "loop {",
        "i = (i + 1_i64);",
        "if (i == 2_i64) {",
        "continue;",
        "if (i > 3_i64) {",
        "break;",
        "print!(\"{}\", i);",
    ]);
}

#[test]
fn test_generate_while_loop() {
    let code = "let mut counter = 10; while (counter > 0) { print(counter); counter = counter - 1; }";
    run_generator_test(code, vec![
        "let mut counter = 10_i64;",
        "while (counter > 0_i64) {",
        "print!(\"{}\", counter);",
        "counter = (counter - 1_i64);",
        "}",
    ]);
}

#[test]
fn test_generate_for_loop_as_while() {
    let code = "for (let i = 0; i < 3; i = i + 1) { println(i); }";
    run_generator_test(code, vec![
        "let i = 0_i64;",
        "while (i < 3_i64) {",
        "println!(\"{}\", i);",
        "i = (i + 1_i64);",
        "}",
    ]);
}

#[test]
fn test_for_loop_empty_parts() {
    let code = "for (;;) { if check() { break; } }";
    run_generator_test(code, vec![
        "while true {",
        "if check() {",
        "break;",
        "}",
    ]);
}

#[test]
fn test_generate_string_escaping() {
    run_generator_test("let a = \"Hello\\nWorld\\t\\\"Quoted\\\"\";", vec![
        "let a = \"Hello\\nWorld\\t\\\"Quoted\\\"\";",
    ]);
}

#[test]
fn test_generate_call_expression() {
    run_generator_test(
        "let res = some_external_function(arg1, 10 + 2, \"str_arg\");",
        vec!["let res = some_external_function(arg1, (10_i64 + 2_i64), \"str_arg\");"],
    );
}

#[test]
fn test_nested_blocks_and_indentation() {
    let code = r#"
        let x = 1;
        if (x == 1) {
            let y = 2;
            if (y == 2) {
                print(3);
                loop {
                    break;
                }
            } else {
                print(4);
            }
        } else {
            print(0);
        }
        "#;
    let generated_code = run_generator_test(code, vec![
        "fn main() {\n",
        "    let x = 1_i64;\n",
        "    if (x == 1_i64) {\n",
        "        let y = 2_i64;\n",
        "        if (y == 2_i64) {\n",
        "            print!(\"{}\", 3_i64);\n",
        "            loop {\n",
        "                break;\n",
        "            }\n",
        "        } else {\n",
        "            print!(\"{}\", 4_i64);\n",
        "        }\n",
        "    } else {\n",
        "        print!(\"{}\", 0_i64);\n",
        "    }\n",
        "}\n",
    ]);
    assert!(generated_code.contains("        if (y == 2_i64) {\n"));
    assert!(generated_code.contains("            loop {\n"));
    assert!(generated_code.contains("                break;\n"));
}
