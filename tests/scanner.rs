use loxr::scanner::{scan, LexicalErrorKind, Scanner};
use loxr::token::{Token, TokenLiteral, TokenType};

fn ok_tokens(source: &str) -> Vec<Token> {
    match scan(source.to_string()) {
        Ok(t) => t,
        Err(e) => panic!("unexpected errors: {:?}", e),
    }
}

fn types(tokens: &[Token]) -> Vec<TokenType> {
    tokens.iter().map(|t| t.token_type).collect()
}

#[test]
fn empty_input_gives_only_eof() {
    let tokens = ok_tokens("");
    assert_eq!(tokens.len(), 1);
    assert_eq!(tokens[0].token_type, TokenType::EOF);
    assert_eq!(tokens[0].lexeme, "");
    assert_eq!(tokens[0].literal, TokenLiteral::Absent);
    assert_eq!(tokens[0].line, 1);
}

#[test]
fn last_token_is_eof() {
    for source in ["", "var x = 1;", "(){}", "\"s\" 12.5 foo", "// only a comment"] {
        let tokens = ok_tokens(source);
        let last = tokens.last().unwrap();
        assert_eq!(last.token_type, TokenType::EOF);
        assert_eq!(last.lexeme, "");
        assert_eq!(last.literal, TokenLiteral::Absent);
        let eofs = tokens.iter().filter(|t| t.token_type == TokenType::EOF).count();
        assert_eq!(eofs, 1);
    }
}

#[test]
fn line_comment_then_number() {
    let tokens = ok_tokens("// comment\n1");
    assert_eq!(types(&tokens), vec![TokenType::Number, TokenType::EOF]);
    assert_eq!(tokens[0].lexeme, "1");
    assert_eq!(tokens[0].line, 2);
    assert_eq!(tokens[0].literal, TokenLiteral::Number { mantissa: 1, scale: 0 });
}

#[test]
fn string_literal_excludes_quotes() {
    let tokens = ok_tokens("\"abc\"");
    assert_eq!(types(&tokens), vec![TokenType::String, TokenType::EOF]);
    assert_eq!(tokens[0].lexeme, "\"abc\"");
    assert_eq!(tokens[0].literal, TokenLiteral::String("abc".to_string()));
}

#[test]
fn unterminated_string_is_one_error() {
    let errors = scan("\"abc".to_string()).unwrap_err();
    assert_eq!(errors.len(), 1);
    assert_eq!(errors[0].kind, LexicalErrorKind::UnterminatedString);
    assert_eq!(errors[0].line, 1);
    assert_eq!(errors[0].message(), "Unterminated string");
}

#[test]
fn lone_quote_is_unterminated_string() {
    let errors = scan("\"".to_string()).unwrap_err();
    assert_eq!(errors.len(), 1);
    assert_eq!(errors[0].kind, LexicalErrorKind::UnterminatedString);
}

#[test]
fn fractional_number() {
    let tokens = ok_tokens("12.5");
    assert_eq!(types(&tokens), vec![TokenType::Number, TokenType::EOF]);
    assert_eq!(tokens[0].lexeme, "12.5");
    assert_eq!(tokens[0].literal, TokenLiteral::Number { mantissa: 125, scale: 1 });
}

#[test]
fn number_value_exact() {
    let tokens = ok_tokens("3.1415 42");
    assert_eq!(tokens[0].literal, TokenLiteral::Number { mantissa: 31415, scale: 4 });
    assert_eq!(tokens[1].literal, TokenLiteral::Number { mantissa: 42, scale: 0 });
}

#[test]
fn trailing_dot_is_not_part_of_number() {
    let tokens = ok_tokens("12.");
    assert_eq!(types(&tokens), vec![TokenType::Number, TokenType::Dot, TokenType::EOF]);
    assert_eq!(tokens[0].lexeme, "12");
    assert_eq!(tokens[1].lexeme, ".");
}

#[test]
fn number_too_large_is_an_error() {
    let errors = scan("99999999999999999999999999".to_string()).unwrap_err();
    assert_eq!(errors.len(), 1);
    assert_eq!(errors[0].kind, LexicalErrorKind::NumberTooLarge);
}

#[test]
fn largest_number_fits() {
    let text = usize::MAX.to_string();
    let tokens = ok_tokens(&text);
    assert_eq!(tokens[0].literal, TokenLiteral::Number { mantissa: usize::MAX, scale: 0 });
}

#[test]
fn identifier_and_keyword() {
    let tokens = ok_tokens("foo");
    assert_eq!(types(&tokens), vec![TokenType::Identifier, TokenType::EOF]);
    assert_eq!(tokens[0].lexeme, "foo");
    assert_eq!(tokens[0].literal, TokenLiteral::Absent);
    let tokens = ok_tokens("while");
    assert_eq!(types(&tokens), vec![TokenType::While, TokenType::EOF]);
    assert_eq!(tokens[0].lexeme, "while");
}

#[test]
fn keywords_are_case_sensitive() {
    let tokens = ok_tokens("While WHILE whiles _while");
    assert_eq!(
        types(&tokens),
        vec![
            TokenType::Identifier,
            TokenType::Identifier,
            TokenType::Identifier,
            TokenType::Identifier,
            TokenType::EOF
        ]
    );
}

#[test]
fn every_keyword() {
    let table = [
        ("and", TokenType::And),
        ("class", TokenType::Class),
        ("else", TokenType::Else),
        ("false", TokenType::False),
        ("for", TokenType::For),
        ("fun", TokenType::Fun),
        ("if", TokenType::If),
        ("nil", TokenType::Nil),
        ("or", TokenType::Or),
        ("print", TokenType::Print),
        ("return", TokenType::Return),
        ("super", TokenType::Super),
        ("this", TokenType::This),
        ("true", TokenType::True),
        ("var", TokenType::Var),
        ("while", TokenType::While),
    ];
    for (word, t) in table {
        assert_eq!(TokenType::parse(word.to_string()), Some(t));
        let tokens = ok_tokens(word);
        assert_eq!(types(&tokens), vec![t, TokenType::EOF]);
    }
    assert_eq!(TokenType::parse("foo".to_string()), None);
    assert_eq!(TokenType::parse(String::new()), None);
}

#[test]
fn one_and_two_character_operators() {
    let table = [
        ("!=", TokenType::BangEqual),
        ("!", TokenType::Bang),
        ("==", TokenType::EqualEqual),
        ("=", TokenType::Equal),
        ("<=", TokenType::LessEqual),
        ("<", TokenType::Less),
        (">=", TokenType::GreaterEqual),
        (">", TokenType::Greater),
    ];
    for (text, t) in table {
        let tokens = ok_tokens(text);
        assert_eq!(types(&tokens), vec![t, TokenType::EOF]);
        assert_eq!(tokens[0].lexeme, text);
    }
}

#[test]
fn single_character_punctuation() {
    let tokens = ok_tokens("(){},.-+;*/");
    assert_eq!(
        types(&tokens),
        vec![
            TokenType::LeftParen,
            TokenType::RightParen,
            TokenType::LeftBrace,
            TokenType::RightBrace,
            TokenType::Comma,
            TokenType::Dot,
            TokenType::Minus,
            TokenType::Plus,
            TokenType::Semicolon,
            TokenType::Star,
            TokenType::Slash,
            TokenType::EOF
        ]
    );
}

#[test]
fn block_comment_spanning_two_lines() {
    let tokens = ok_tokens("/* a\nb */");
    assert_eq!(types(&tokens), vec![TokenType::EOF]);
    assert_eq!(tokens[0].line, 2);
}

#[test]
fn block_comment_then_token() {
    let tokens = ok_tokens("/* x */+");
    assert_eq!(types(&tokens), vec![TokenType::Plus, TokenType::EOF]);
}

#[test]
fn unterminated_block_comment() {
    let errors = scan("/* a\nb".to_string()).unwrap_err();
    assert_eq!(errors.len(), 1);
    assert_eq!(errors[0].kind, LexicalErrorKind::UnterminatedBlockComment);
    assert_eq!(errors[0].line, 2);
    assert_eq!(errors[0].message(), "Unterminated block comment");
}

#[test]
fn unrecognized_character() {
    let errors = scan("@".to_string()).unwrap_err();
    assert_eq!(errors.len(), 1);
    assert_eq!(errors[0].kind, LexicalErrorKind::UnrecognizedCharacter);
    assert_eq!(errors[0].line, 1);
    assert_eq!(errors[0].message(), "Unrecognized character");
}

#[test]
fn errors_are_collected_in_order() {
    let errors = scan("@\n1 # 2\n\"open".to_string()).unwrap_err();
    let kinds: Vec<LexicalErrorKind> = errors.iter().map(|e| e.kind).collect();
    assert_eq!(
        kinds,
        vec![
            LexicalErrorKind::UnrecognizedCharacter,
            LexicalErrorKind::UnrecognizedCharacter,
            LexicalErrorKind::UnterminatedString
        ]
    );
    let lines: Vec<usize> = errors.iter().map(|e| e.line).collect();
    assert_eq!(lines, vec![1, 2, 3]);
}

#[test]
fn lone_slash_at_end() {
    let tokens = ok_tokens("/");
    assert_eq!(types(&tokens), vec![TokenType::Slash, TokenType::EOF]);
}

#[test]
fn multi_line_string_keeps_its_first_line() {
    let tokens = ok_tokens("\"a\nb\" x");
    assert_eq!(tokens[0].token_type, TokenType::String);
    assert_eq!(tokens[0].line, 1);
    assert_eq!(tokens[0].literal, TokenLiteral::String("a\nb".to_string()));
    assert_eq!(tokens[1].lexeme, "x");
    assert_eq!(tokens[1].line, 2);
    assert_eq!(tokens[2].line, 2);
}

#[test]
fn whitespace_is_skipped() {
    let tokens = ok_tokens(" \t\r\n+");
    assert_eq!(types(&tokens), vec![TokenType::Plus, TokenType::EOF]);
    assert_eq!(tokens[0].line, 2);
}

#[test]
fn statement_lexemes() {
    let tokens = ok_tokens("var x_1 = (a >= 10);");
    let lexemes: Vec<&str> = tokens.iter().map(|t| t.lexeme.as_str()).collect();
    assert_eq!(lexemes, vec!["var", "x_1", "=", "(", "a", ">=", "10", ")", ";", ""]);
}

#[test]
fn non_ascii_text_in_string() {
    let tokens = ok_tokens("\"h\u{e9}llo\" x");
    assert_eq!(tokens[0].lexeme, "\"h\u{e9}llo\"");
    assert_eq!(tokens[0].literal, TokenLiteral::String("h\u{e9}llo".to_string()));
    assert_eq!(tokens[1].lexeme, "x");
    let errors = scan("\u{fc}".to_string()).unwrap_err();
    assert_eq!(errors[0].kind, LexicalErrorKind::UnrecognizedCharacter);
}

#[test]
fn scanning_twice_gives_the_same_output() {
    let source = "var a = \"x\";\n// c\n/* d */ 1.5 != b";
    let mut scanner = Scanner::new(source.to_string());
    let first: Vec<Token> = scanner.scan_tokens().unwrap().clone();
    let second: Vec<Token> = scanner.scan_tokens().unwrap().clone();
    assert_eq!(first, second);
    assert_eq!(first, scan(source.to_string()).unwrap());
    assert_eq!(scan(source.to_string()), scan(source.to_string()));

    let bad = "@ \"open";
    let mut scanner = Scanner::new(bad.to_string());
    let e1 = scanner.scan_tokens().unwrap_err().clone();
    let e2 = scanner.scan_tokens().unwrap_err().clone();
    assert_eq!(e1, e2);
    assert_eq!(e1.len(), 2);
}
