use rlox::error::{CompilationError, ErrorOrEarlyReturn};
use rlox::scanner::{
    comment, identifier_or_keyword, number, scan_token, scan_tokens, string, Token, TokenType,
};

#[test]
fn test_comment() {
    let (token, after, line) = comment("// this is a comment\ntest = 10;", 10);
    assert_eq!(
        token,
        Token::new(TokenType::Comment, "// this is a comment\n", 10)
    );
    assert_eq!(after, "test = 10;");
    assert_eq!(line, 11);
}

#[test]
fn test_comment_at_line_end() {
    let (token, after, line) = comment("//\ntest = 10;", 10);
    assert_eq!(token, Token::new(TokenType::Comment, "//\n", 10));
    assert_eq!(after, "test = 10;");
    assert_eq!(line, 11);
}

#[test]
fn test_comment_end_of_file() {
    let (token, after, line) = comment("// this is a comment", 10);
    assert_eq!(
        token,
        Token::new(TokenType::Comment, "// this is a comment", 10)
    );
    assert_eq!(after, "");
    assert_eq!(line, 10);
}

#[test]
fn test_string() {
    let result = string(r#""hello, world"; x = 10;"#, 10);
    assert!(result.is_ok());
    let (token, after, line) = result.unwrap();
    assert_eq!(
        token,
        Token::new(TokenType::String, r#""hello, world""#, 10)
    );
    assert_eq!(after, "; x = 10;");
    assert_eq!(line, 10);
}

#[test]
fn test_string_not_ended() {
    let result = string(r#""hello, world; x = 10;"#, 10);
    assert!(result.is_err());
    assert_eq!(
        result.unwrap_err(),
        ErrorOrEarlyReturn::CompilationError(CompilationError::UnterminatedString)
    );
}

#[test]
fn test_multiline_string() {
    let result = string("\"hello\nworld\"; x = 10;", 10);
    assert!(result.is_ok());
    let (token, after, line) = result.unwrap();
    assert_eq!(token, Token::new(TokenType::String, "\"hello\nworld\"", 10));
    assert_eq!(after, "; x = 10;");
    assert_eq!(line, 11);
}

#[test]
fn test_unicode_string() {
    let result = string(r#""hello, Bráulio"; x = 10;"#, 10);
    assert!(result.is_ok());
    let (token, after, line) = result.unwrap();
    assert_eq!(
        token,
        Token::new(TokenType::String, r#""hello, Bráulio""#, 10)
    );
    assert_eq!(after, "; x = 10;");
    assert_eq!(line, 10);
}

#[test]
fn test_number_integer() {
    let (token, after, line) = number("123; test = 10;", 10);
    assert_eq!(token, Token::new(TokenType::NumberLiteral, "123", 10));
    assert_eq!(after, "; test = 10;");
    assert_eq!(line, 10);
}

#[test]
fn test_number_float() {
    let (token, after, line) = number("123.321; test = 10;", 10);
    assert_eq!(token, Token::new(TokenType::NumberLiteral, "123.321", 10));
    assert_eq!(after, "; test = 10;");
    assert_eq!(line, 10);
}

#[test]
fn test_number_integer_dot() {
    let (token, after, line) = number("123.; test = 10;", 10);
    assert_eq!(token, Token::new(TokenType::NumberLiteral, "123", 10));
    assert_eq!(after, ".; test = 10;");
    assert_eq!(line, 10);
}

#[test]
fn test_keywords() {
    let keywords = vec![
        ("and", TokenType::And),
        ("class", TokenType::Class),
        ("else", TokenType::Else),
        ("false", TokenType::False),
        ("for", TokenType::For),
        ("fun", TokenType::Fun),
        ("if", TokenType::If),
        ("nil", TokenType::Nil),
        ("or", TokenType::Or),
        ("print", TokenType::Print),
        ("return", TokenType::Return),
        ("super", TokenType::Super),
        ("this", TokenType::This),
        ("true", TokenType::True),
        ("var", TokenType::Var),
    ];

    for (keyword, token_type) in keywords {
        let src = keyword.to_owned() + "; test = 10;";
        assert_eq!(
            identifier_or_keyword(&src, 10),
            (Token::new(token_type, keyword, 10), "; test = 10;", 10)
        );
    }
}

#[test]
fn test_identifier_start_with_letter() {
    let (token, rest, line) = identifier_or_keyword("identifier = 10;", 10);
    assert_eq!(token, Token::new(TokenType::Identifier, "identifier", 10));
    assert_eq!(line, 10);
    assert_eq!(rest, " = 10;");
}

#[test]
fn test_identifier_start_with_underscore() {
    let (token, rest, line) = identifier_or_keyword("__identifier = 10;", 10);
    assert_eq!(token, Token::new(TokenType::Identifier, "__identifier", 10));
    assert_eq!(line, 10);
    assert_eq!(rest, " = 10;");
}

#[test]
fn test_identifier_start_with_uppercase() {
    let (token, rest, line) = identifier_or_keyword("MyIdentifier = 10;", 10);
    assert_eq!(token, Token::new(TokenType::Identifier, "MyIdentifier", 10));
    assert_eq!(line, 10);
    assert_eq!(rest, " = 10;");
}

#[test]
fn test_identifier_with_number() {
    let (token, rest, line) = identifier_or_keyword("identifier20 = 10;", 10);
    assert_eq!(token, Token::new(TokenType::Identifier, "identifier20", 10));
    assert_eq!(line, 10);
    assert_eq!(rest, " = 10;");
}

#[test]
fn test_identifier_with_keyword_prefix() {
    let (token, rest, line) = identifier_or_keyword("class_ = 10;", 10);
    assert_eq!(token, Token::new(TokenType::Identifier, "class_", 10));
    assert_eq!(line, 10);
    assert_eq!(rest, " = 10;");
}

#[test]
fn test_scan_tokens_hello_world() {
    let src = r##"print "Hello, World";"##;
    let result = scan_tokens(src);

    assert!(result.is_ok());
    assert_eq!(
        result.unwrap(),
        vec![
            Token::new(TokenType::Print, "print", 1),
            Token::new(TokenType::String, "\"Hello, World\"", 1),
            Token::new(TokenType::Semicolon, ";", 1),
        ]
    );
}

#[test]
fn test_scan_tokens_newline() {
    let src = r##"print
        "Hello, World";"##;
    let result = scan_tokens(src);

    assert!(result.is_ok());
    assert_eq!(
        result.unwrap(),
        vec![
            Token::new(TokenType::Print, "print", 1),
            Token::new(TokenType::String, "\"Hello, World\"", 2),
            Token::new(TokenType::Semicolon, ";", 2),
        ]
    );
}

#[test]
fn test_scan_tokens_newline_bug() {
    let src = r##"1 + 1"##;
    let result = scan_tokens(src);

    assert!(result.is_ok());
    assert_eq!(
        result.unwrap(),
        vec![
            Token::new(TokenType::NumberLiteral, "1", 1),
            Token::new(TokenType::Plus, "+", 1),
            Token::new(TokenType::NumberLiteral, "1", 1),
        ]
    );
}

#[test]
fn test_all_tokens() {
    let src = r#"
        (){},.+-;/*
        ! != = == > >= < <=
        identifier "string" 12345.123
        and class else false fun for if nil or print return super this true var while
        
        // comment
        "#;

    let result = scan_tokens(src);

    assert!(result.is_ok());
    assert_eq!(
        result.unwrap(),
        vec![
            Token::new(TokenType::LeftParen, "(", 2),
            Token::new(TokenType::RightParen, ")", 2),
            Token::new(TokenType::LeftBrace, "{", 2),
            Token::new(TokenType::RightBrace, "}", 2),
            Token::new(TokenType::Comma, ",", 2),
            Token::new(TokenType::Dot, ".", 2),
            Token::new(TokenType::Plus, "+", 2),
            Token::new(TokenType::Minus, "-", 2),
            Token::new(TokenType::Semicolon, ";", 2),
            Token::new(TokenType::Slash, "/", 2),
            Token::new(TokenType::Star, "*", 2),
            Token::new(TokenType::Bang, "!", 3),
            Token::new(TokenType::BangEqual, "!=", 3),
            Token::new(TokenType::Equal, "=", 3),
            Token::new(TokenType::EqualEqual, "==", 3),
            Token::new(TokenType::Greater, ">", 3),
            Token::new(TokenType::GreaterEqual, ">=", 3),
            Token::new(TokenType::Less, "<", 3),
            Token::new(TokenType::LessEqual, "<=", 3),
            Token::new(TokenType::Identifier, "identifier", 4),
            Token::new(TokenType::String, "\"string\"", 4),
            Token::new(TokenType::NumberLiteral, "12345.123", 4),
            Token::new(TokenType::And, "and", 5),
            Token::new(TokenType::Class, "class", 5),
            Token::new(TokenType::Else, "else", 5),
            Token::new(TokenType::False, "false", 5),
            Token::new(TokenType::Fun, "fun", 5),
            Token::new(TokenType::For, "for", 5),
            Token::new(TokenType::If, "if", 5),
            Token::new(TokenType::Nil, "nil", 5),
            Token::new(TokenType::Or, "or", 5),
            Token::new(TokenType::Print, "print", 5),
            Token::new(TokenType::Return, "return", 5),
            Token::new(TokenType::Super, "super", 5),
            Token::new(TokenType::This, "this", 5),
            Token::new(TokenType::True, "true", 5),
            Token::new(TokenType::Var, "var", 5),
            Token::new(TokenType::While, "while", 5),
        ]
    );
}

#[test]
fn test_scan_token_end_of_input() {
    let (token, rest, line) = scan_token("", 7).unwrap();
    assert_eq!(token, Token::new(TokenType::Eof, "", 7));
    assert_eq!(rest, "");
    assert_eq!(line, 7);
}

#[test]
fn test_scan_token_two_byte_operators_win() {
    let cases = vec![
        ("!=1", TokenType::BangEqual, "!="),
        ("!1", TokenType::Bang, "!"),
        ("==1", TokenType::EqualEqual, "=="),
        ("=1", TokenType::Equal, "="),
        (">=1", TokenType::GreaterEqual, ">="),
        (">1", TokenType::Greater, ">"),
        ("<=1", TokenType::LessEqual, "<="),
        ("<", TokenType::Less, "<"),
        ("/1", TokenType::Slash, "/"),
    ];
    for (src, kind, lexeme) in cases {
        let (token, rest, line) = scan_token(src, 1).unwrap();
        assert_eq!(token, Token::new(kind, lexeme, 1));
        assert_eq!(rest, &src[lexeme.len()..]);
        assert_eq!(line, 1);
    }
}

#[test]
fn test_scan_token_newline_counts_a_line() {
    let (token, rest, line) = scan_token("\nx", 3).unwrap();
    assert_eq!(token, Token::new(TokenType::Whitespace, "\n", 3));
    assert_eq!(rest, "x");
    assert_eq!(line, 4);
    let (token, _, line) = scan_token("\r\n", 3).unwrap();
    assert_eq!(token, Token::new(TokenType::Whitespace, "\r", 3));
    assert_eq!(line, 3);
}

#[test]
fn test_unexpected_character() {
    assert_eq!(
        scan_tokens("var a = #;").unwrap_err(),
        ErrorOrEarlyReturn::CompilationError(CompilationError::UnexpectedCharacter('#'))
    );
    assert_eq!(
        scan_tokens("é").unwrap_err(),
        ErrorOrEarlyReturn::CompilationError(CompilationError::UnexpectedCharacter('é'))
    );
}

#[test]
fn test_unterminated_string_in_source() {
    assert_eq!(
        scan_tokens("print \"abc;\n").unwrap_err(),
        ErrorOrEarlyReturn::CompilationError(CompilationError::UnterminatedString)
    );
}

#[test]
fn test_number_followed_by_other_text() {
    let (token, rest, _) = number("12é", 1);
    assert_eq!(token, Token::new(TokenType::NumberLiteral, "12", 1));
    assert_eq!(rest, "é");
    let (token, rest, _) = number("1.5.2", 1);
    assert_eq!(token, Token::new(TokenType::NumberLiteral, "1.5", 1));
    assert_eq!(rest, ".2");
    let (token, rest, _) = number("7", 1);
    assert_eq!(token, Token::new(TokenType::NumberLiteral, "7", 1));
    assert_eq!(rest, "");
}

#[test]
fn test_comment_and_token_lines() {
    let tokens = scan_tokens("// one\n// two\na \"x\ny\" b").unwrap();
    assert_eq!(
        tokens,
        vec![
            Token::new(TokenType::Identifier, "a", 3),
            Token::new(TokenType::String, "\"x\ny\"", 3),
            Token::new(TokenType::Identifier, "b", 4),
        ]
    );
}

#[test]
fn test_lexemes_rebuild_the_source() {
    let source = "var a = 1; // note\n\tprint \"é\n\" + a;\r\n";
    let mut rest = source;
    let mut line = 1;
    let mut rebuilt = String::new();
    loop {
        let (token, next, next_line) = scan_token(rest, line).unwrap();
        if token.type_ == TokenType::Eof {
            break;
        }
        rebuilt.push_str(token.lexeme);
        rest = next;
        line = next_line;
    }
    assert_eq!(rebuilt, source);
    assert_eq!(line, 4);
}
