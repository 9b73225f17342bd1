use json_parser::ast::JsonValue;
use json_parser::error::Error;
use json_parser::lexer::Lexer;
use json_parser::parse_json;
use json_parser::parser::Parser;
use json_parser::token::Token;

#[test]
fn test_empty_object() {
    let result = parse_json("{}");
    assert_eq!(result, Ok(JsonValue::Object(Vec::new())));
}

#[test]
fn test_invalid_object() {
    let result = parse_json("{");
    let expected_result = String::from("Parse error: Unexpected token 'EOF' at position 1");
    assert_eq!(result, Err(expected_result));
}

#[test]
fn test_lexer_empty_object() {
    let mut lexer = Lexer::new("{}");
    let tokens = lexer.tokenize().unwrap();

    assert_eq!(tokens.len(), 3); // LBrace, RBrace, EOF
    match &tokens[0] {
        Token::LBrace => {}
        _ => panic!("Expected LBrace"),
    }
    match &tokens[1] {
        Token::RBrace => {}
        _ => panic!("Expected RBrace"),
    }
    match &tokens[2] {
        Token::EOF => {}
        _ => panic!("Expected EOF"),
    }
}

#[test]
fn test_string_value() {
    let result = parse_json("\"hello world\"");
    assert_eq!(result, Ok(JsonValue::String("hello world".to_string())));
}

#[test]
fn test_nested_object() {
    // one key "k" mapping to an empty object
    let result = parse_json("{\"k\":{}}");
    let expected = JsonValue::Object(vec![(
        "k".to_string(),
        JsonValue::Object(Vec::new()),
    )]);
    assert_eq!(result, Ok(expected));
}

#[test]
fn test_duplicate_keys_last_write_wins() {
    let result = parse_json("{\"a\":\"x\",\"a\":\"y\"}");
    let expected = JsonValue::Object(vec![(
        "a".to_string(),
        JsonValue::String("y".to_string()),
    )]);
    assert_eq!(result, Ok(expected));
}

#[test]
fn test_keys_come_out_sorted() {
    let result = parse_json("{\"b\":\"2\",\"a\":\"1\",\"c\":\"3\"}");
    let expected = JsonValue::Object(vec![
        ("a".to_string(), JsonValue::String("1".to_string())),
        ("b".to_string(), JsonValue::String("2".to_string())),
        ("c".to_string(), JsonValue::String("3".to_string())),
    ]);
    assert_eq!(result, Ok(expected));
}

#[test]
fn test_whitespace_is_skipped() {
    let result = parse_json(" {\t\"a\" :\n \"b\" ,\r\"c\" : {} } ");
    let expected = JsonValue::Object(vec![
        ("a".to_string(), JsonValue::String("b".to_string())),
        ("c".to_string(), JsonValue::Object(Vec::new())),
    ]);
    assert_eq!(result, Ok(expected));
}

#[test]
fn test_unterminated_string() {
    let result = parse_json("\"abc");
    let expected = String::from("Lexer error: Unterminated string starting at position 0");
    assert_eq!(result, Err(expected));
}

#[test]
fn test_missing_colon() {
    let result = parse_json("{\"k\" \"v\"}");
    let expected = String::from("Parse error: Expected token 'Colon' at position 2");
    assert_eq!(result, Err(expected));
}

#[test]
fn test_unexpected_character() {
    let result = parse_json("{1}");
    let expected = String::from("Lexer error: Unexpected character '1' at position 1");
    assert_eq!(result, Err(expected));
}

#[test]
fn test_reparsing_gives_same_error() {
    let first = parse_json("{\"a\":}");
    let second = parse_json("{\"a\":}");
    assert!(first.is_err());
    assert_eq!(first, second);
}

#[test]
fn test_empty_input() {
    let result = parse_json("");
    let expected = String::from("Parse error: Unexpected end of input");
    assert_eq!(result, Err(expected));
}

#[test]
fn test_trailing_tokens_ignored() {
    // only the single top-level value is read; what follows is not checked
    let result = parse_json("{} \"rest\"");
    assert_eq!(result, Ok(JsonValue::Object(Vec::new())));
}

#[test]
fn test_missing_comma() {
    let result = parse_json("{\"a\":\"1\" \"b\":\"2\"}");
    let expected =
        String::from("Parse error: Unexpected token 'StringLit(\"b\")' at position 4");
    assert_eq!(result, Err(expected));
}

#[test]
fn test_value_at_top_level_rbrace() {
    let result = parse_json("}");
    let expected = String::from("Parse error: Unexpected token 'RBrace' at position 0");
    assert_eq!(result, Err(expected));
}

#[test]
fn test_error_render_variants() {
    assert_eq!(
        Error::UnexpectedChar('x', 7).render(),
        "Unexpected character 'x' at position 7"
    );
    assert_eq!(
        Error::UnterminatedString(12).render(),
        "Unterminated string starting at position 12"
    );
    assert_eq!(
        Error::UnexpectedToken("EOF".to_string(), 3).render(),
        "Unexpected token 'EOF' at position 3"
    );
    assert_eq!(
        Error::ExpectedToken("Colon".to_string(), 205).render(),
        "Expected token 'Colon' at position 205"
    );
    assert_eq!(Error::UnexpectedEOF.render(), "Unexpected end of input");
}

#[test]
fn test_lexer_string_with_spaces() {
    let mut lexer = Lexer::new("\"a b\" : ,");
    let tokens = lexer.tokenize().unwrap();
    assert_eq!(
        tokens,
        vec![
            Token::StringLit("a b".to_string()),
            Token::Colon,
            Token::Comma,
            Token::EOF
        ]
    );
}

#[test]
fn test_parser_over_handmade_tokens() {
    let tokens = vec![
        Token::LBrace,
        Token::StringLit("k".to_string()),
        Token::Colon,
        Token::StringLit("v".to_string()),
        Token::RBrace,
        Token::EOF,
    ];
    let mut parser = Parser::new(tokens);
    let value = parser.parse_value().unwrap();
    let expected = JsonValue::Object(vec![(
        "k".to_string(),
        JsonValue::String("v".to_string()),
    )]);
    assert_eq!(value, expected);
}

#[test]
fn test_positions_count_characters() {
    // a two-byte character still occupies one position
    let result = parse_json("\u{e9}\u{e9}");
    let expected = String::from("Lexer error: Unexpected character '\u{e9}' at position 0");
    assert_eq!(result, Err(expected));
    let result = parse_json("{\u{e9}}");
    let expected = String::from("Lexer error: Unexpected character '\u{e9}' at position 1");
    assert_eq!(result, Err(expected));
}
