use zeno::lexer::Lexer;
use zeno::lexer::Token;

fn test_lexer(input: &str, expected_tokens: Vec<Token>) {
    let mut lexer = Lexer::new(input);
    let mut tokens = Vec::new();
    loop {
        let token = lexer.next_token();
        if token == Token::Eof {
            break;
        }
        tokens.push(token);
    }
    assert_eq!(tokens, expected_tokens);
}

#[test]
fn it_works() {
    let result = zeno::add(2, 2);
    assert_eq!(result, 4);
}

#[test]
fn test_simple_tokens() {
    let input = "=+-*/%(){},;:!";
    let expected = vec![
        Token::Assign,
        Token::Plus,
        Token::Minus,
        Token::Multiply,
        Token::Divide,
        Token::Modulo,
        Token::LParen,
        Token::RParen,
        Token::LBrace,
        Token::RBrace,
        Token::Comma,
        Token::Semicolon,
        Token::Colon,
        Token::Bang,
    ];
    test_lexer(input, expected);
}

#[test]
fn test_operators_and_delimiters() {
    let input = "== != <= >= && ||";
    let expected = vec![
        Token::Eq,
        Token::NotEq,
        Token::Lte,
        Token::Gte,
        Token::And,
        Token::Or,
    ];
    test_lexer(input, expected);
}

#[test]
fn test_keywords_and_identifiers() {
    let input = "let mut x = 5; fn main() { return x; }";
    let expected = vec![
        Token::Let,
        Token::Mut,
        Token::Identifier("x".to_string()),
        Token::Assign,
        Token::Integer(5),
        Token::Semicolon,
        Token::Fn,
        Token::Identifier("main".to_string()),
        Token::LParen,
        Token::RParen,
        Token::LBrace,
        Token::Return,
        Token::Identifier("x".to_string()),
        Token::Semicolon,
        Token::RBrace,
    ];
    test_lexer(input, expected);
}

#[test]
fn test_numbers() {
    let input = "123 45.67 0.5";
    let expected = vec![
        Token::Integer(123),
        Token::Float("45.67".to_string()),
        Token::Float("0.5".to_string()),
    ];
    test_lexer(input, expected);
}

#[test]
fn test_float_without_leading_zero() {
    // A trailing dot with no fractional digit is not a float: the digits are
    // an integer and the dot is an illegal character of its own.
    let input = "42.";
    let mut lexer = Lexer::new(input);
    assert_eq!(lexer.next_token(), Token::Integer(42));
    assert_eq!(lexer.next_token(), Token::Illegal('.'));
    assert_eq!(lexer.next_token(), Token::Eof);
}

#[test]
fn test_string_literal() {
    let input = r#""hello"" "#;
    // The first literal closes; the lone quote after it never does.
    let expected = vec![Token::String("hello".to_string()), Token::Illegal('"')];
    test_lexer(input, expected);
}

#[test]
fn test_string_with_escapes() {
    let input = r#""line1\nline2\t\"quote\\end""#;
    let expected = vec![Token::String("line1\nline2\t\"quote\\end".to_string())];
    test_lexer(input, expected);
}

#[test]
fn test_unterminated_string() {
    let input = r#""hello"#;
    let mut lexer = Lexer::new(input);
    assert_eq!(lexer.next_token(), Token::Illegal('"'));
    assert_eq!(lexer.next_token(), Token::Eof);
}

#[test]
fn test_skip_whitespace_and_comments() {
    let input = r#"
            // This is a comment
            let x = 10; // another comment
            /* multi-line
               comment */
            let y = 20;
            /* unterminated
        "#;
    let mut lexer_for_test = Lexer::new(input);
    assert_eq!(lexer_for_test.next_token(), Token::Let);
    assert_eq!(
        lexer_for_test.next_token(),
        Token::Identifier("x".to_string())
    );
    assert_eq!(lexer_for_test.next_token(), Token::Assign);
    assert_eq!(lexer_for_test.next_token(), Token::Integer(10));
    assert_eq!(lexer_for_test.next_token(), Token::Semicolon);
    assert_eq!(lexer_for_test.next_token(), Token::Let);
    assert_eq!(
        lexer_for_test.next_token(),
        Token::Identifier("y".to_string())
    );
    assert_eq!(lexer_for_test.next_token(), Token::Assign);
    assert_eq!(lexer_for_test.next_token(), Token::Integer(20));
    assert_eq!(lexer_for_test.next_token(), Token::Semicolon);
    // The unterminated block comment swallows the rest of the input.
    assert_eq!(lexer_for_test.next_token(), Token::Eof);
}

#[test]
fn test_complex_mix() {
    let input = r#"
            let five = 5;
            let ten = 10.5;
            let add = fn(x, y) {
              x + y;
            };
            let result = add(five, ten);
            if (result > 15) {
                print "greater";
            } else {
                println "smaller or equal";
            }
            // Check operators
            !true == false;
            1 < 2; 2 <= 2; 3 > 1; 4 >= 3;
            true && false || true;
            10 % 3;
            /* Loop test
               for (let i = 0; i < 3; i = i + 1) {
                 if (i == 1) { continue; }
                 print i;
                 if (i == 2) { break; }
               }
            */
            while (false) {}
            loop { break; }
        "#;
    let expected = vec![
        Token::Let,
        Token::Identifier("five".to_string()),
        Token::Assign,
        Token::Integer(5),
        Token::Semicolon,
        Token::Let,
        Token::Identifier("ten".to_string()),
        Token::Assign,
        Token::Float("10.5".to_string()),
        Token::Semicolon,
        Token::Let,
        Token::Identifier("add".to_string()),
        Token::Assign,
        Token::Fn,
        Token::LParen,
        Token::Identifier("x".to_string()),
        Token::Comma,
        Token::Identifier("y".to_string()),
        Token::RParen,
        Token::LBrace,
        Token::Identifier("x".to_string()),
        Token::Plus,
        Token::Identifier("y".to_string()),
        Token::Semicolon,
        Token::RBrace,
        Token::Semicolon,
        Token::Let,
        Token::Identifier("result".to_string()),
        Token::Assign,
        Token::Identifier("add".to_string()),
        Token::LParen,
        Token::Identifier("five".to_string()),
        Token::Comma,
        Token::Identifier("ten".to_string()),
        Token::RParen,
        Token::Semicolon,
        Token::If,
        Token::LParen,
        Token::Identifier("result".to_string()),
        Token::Gt,
        Token::Integer(15),
        Token::RParen,
        Token::LBrace,
        Token::Print,
        Token::String("greater".to_string()),
        Token::Semicolon,
        Token::RBrace,
        Token::Else,
        Token::LBrace,
        Token::Println,
        Token::String("smaller or equal".to_string()),
        Token::Semicolon,
        Token::RBrace,
        Token::Bang,
        Token::True,
        Token::Eq,
        Token::False,
        Token::Semicolon,
        Token::Integer(1),
        Token::Lt,
        Token::Integer(2),
        Token::Semicolon,
        Token::Integer(2),
        Token::Lte,
        Token::Integer(2),
        Token::Semicolon,
        Token::Integer(3),
        Token::Gt,
        Token::Integer(1),
        Token::Semicolon,
        Token::Integer(4),
        Token::Gte,
        Token::Integer(3),
        Token::Semicolon,
        Token::True,
        Token::And,
        Token::False,
        Token::Or,
        Token::True,
        Token::Semicolon,
        Token::Integer(10),
        Token::Modulo,
        Token::Integer(3),
        Token::Semicolon,
        Token::While,
        Token::LParen,
        Token::False,
        Token::RParen,
        Token::LBrace,
        Token::RBrace,
        Token::Loop,
        Token::LBrace,
        Token::Break,
        Token::Semicolon,
        Token::RBrace,
    ];
    test_lexer(input, expected);
}

#[test]
fn test_illegal_char() {
    let input = "let a = @;";
    let expected = vec![
        Token::Let,
        Token::Identifier("a".to_string()),
        Token::Assign,
        Token::Illegal('@'),
        Token::Semicolon,
    ];
    test_lexer(input, expected);
}

#[test]
fn test_unterminated_multiline_comment_at_eof() {
    let input = "/* this is not closed";
    let mut lexer = Lexer::new(input);
    assert_eq!(lexer.next_token(), Token::Eof);
}

#[test]
fn test_tokenize_function_normal() {
    let input = "let x = 10;";
    let mut lexer = Lexer::new(input);
    let tokens = lexer.tokenize().unwrap();
    assert_eq!(
        tokens,
        vec![
            Token::Let,
            Token::Identifier("x".to_string()),
            Token::Assign,
            Token::Integer(10),
            Token::Semicolon,
            Token::Eof
        ]
    );
}

#[test]
fn test_tokenize_function_unterminated_string() {
    let input = r#"let name = "Test;"#;
    let mut lexer = Lexer::new(input);
    let result = lexer.tokenize();
    assert!(result.is_err());
    assert_eq!(result.unwrap_err(), "Unterminated string literal");
}
