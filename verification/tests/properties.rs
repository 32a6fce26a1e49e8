use rlox::Lexer;
use rlox::Token;

fn scan(source: &str) -> (Vec<Token>, bool, Vec<String>) {
    let mut lexer = Lexer::new(source.to_string());
    let tokens = lexer.scan();
    (tokens, lexer.has_error, lexer.errors)
}

#[test]
fn test_whitespace_only_inputs_scan_to_eof_alone() {
    for source in ["\0", " \0", "\n\0", "  \n \n   \0", "\0\0\0"] {
        let (tokens, has_error, errors) = scan(source);
        assert_eq!(tokens, vec![Token::Eof]);
        assert!(!has_error);
        assert!(errors.is_empty());
    }
}

#[test]
fn test_each_reserved_word_scans_to_its_keyword_token() {
    let table = [
        ("and", Token::And),
        ("class", Token::Class),
        ("else", Token::Else),
        ("false", Token::False),
        ("fun", Token::Fun),
        ("for", Token::For),
        ("if", Token::If),
        ("nil", Token::Nil),
        ("or", Token::Or),
        ("print", Token::Print),
        ("return", Token::Return),
        ("super", Token::Super),
        ("this", Token::This),
        ("true", Token::True),
        ("var", Token::Var),
        ("while", Token::While),
    ];
    for (word, token) in table {
        let source = format!("{}\0", word);
        let (tokens, has_error, _) = scan(&source);
        assert_eq!(tokens, vec![token, Token::Eof]);
        assert!(!has_error);
    }
}

#[test]
fn test_unreserved_spelling_scans_to_identifier() {
    for word in ["_foo123", "variable", "Printer", "x", "andover", "trueish"] {
        let source = format!("{}\0", word);
        let (tokens, _, _) = scan(&source);
        assert_eq!(
            tokens,
            vec![Token::Identifier(String::from(word)), Token::Eof]
        );
    }
}

#[test]
fn test_decimal_number_keeps_its_spelling() {
    let (tokens, _, _) = scan("3.14159\0");
    assert_eq!(
        tokens,
        vec![Token::Number(String::from("3.14159")), Token::Eof]
    );
}

#[test]
fn test_trailing_dot_stays_out_of_the_number() {
    let (tokens, _, _) = scan("10.\0");
    assert_eq!(
        tokens,
        vec![Token::Number(String::from("10")), Token::Dot, Token::Eof]
    );
}

#[test]
fn test_dot_between_numbers() {
    let (tokens, _, _) = scan("1.2.3\0");
    assert_eq!(
        tokens,
        vec![
            Token::Number(String::from("1.2")),
            Token::Dot,
            Token::Number(String::from("3")),
            Token::Eof
        ]
    );
}

#[test]
fn test_quoted_string_is_captured_without_quotes() {
    let (tokens, has_error, _) = scan("\"John Doe\"\0");
    assert_eq!(
        tokens,
        vec![Token::String(String::from("John Doe")), Token::Eof]
    );
    assert!(!has_error);
}

#[test]
fn test_unterminated_string_records_exactly_one_diagnostic() {
    let (tokens, has_error, errors) = scan("\"abc\0");
    assert!(has_error);
    assert_eq!(errors.len(), 1);
    assert_eq!(errors[0], "[0:5] Unterminated string");
    assert_eq!(
        tokens,
        vec![Token::String(String::from("abc")), Token::Eof]
    );
}

#[test]
fn test_single_character_operator_forms() {
    let (tokens, _, _) = scan("! = < >\0");
    assert_eq!(
        tokens,
        vec![
            Token::Bang,
            Token::Equal,
            Token::Less,
            Token::Greater,
            Token::Eof
        ]
    );
}

#[test]
fn test_var_statement_token_sequence() {
    let (tokens, has_error, _) = scan("var x = 10;\0");
    assert_eq!(
        tokens,
        vec![
            Token::Var,
            Token::Identifier(String::from("x")),
            Token::Equal,
            Token::Number(String::from("10")),
            Token::Semicolon,
            Token::Eof
        ]
    );
    assert!(!has_error);
}

#[test]
fn test_scanning_continues_past_unknown_character() {
    let (tokens, has_error, errors) = scan("@ x\0");
    assert!(has_error);
    assert_eq!(errors.len(), 1);
    assert_eq!(errors[0], "[0:1] Unknown token found @");
    assert_eq!(
        tokens,
        vec![Token::Identifier(String::from("x")), Token::Eof]
    );
}

#[test]
fn test_unterminated_block_comment_message_and_position() {
    let (tokens, has_error, errors) = scan("/*x\0");
    assert!(has_error);
    assert_eq!(errors.len(), 1);
    assert_eq!(errors[0], "[0:4] Unterminated multiline comment");
    assert_eq!(tokens, vec![Token::Eof]);
}

#[test]
fn test_block_comment_leaves_no_tokens() {
    let (tokens, has_error, errors) = scan("/* line1\nline2 */\0");
    assert_eq!(tokens, vec![Token::Eof]);
    assert!(!has_error);
    assert!(errors.is_empty());
}

#[test]
fn test_lone_slash_keeps_the_next_character() {
    let (tokens, has_error, _) = scan("1/2\0");
    assert_eq!(
        tokens,
        vec![
            Token::Number(String::from("1")),
            Token::Slash,
            Token::Number(String::from("2")),
            Token::Eof
        ]
    );
    assert!(!has_error);
}

#[test]
fn test_single_operator_keeps_the_next_character() {
    let (tokens, _, _) = scan("a<b\0");
    assert_eq!(
        tokens,
        vec![
            Token::Identifier(String::from("a")),
            Token::Less,
            Token::Identifier(String::from("b")),
            Token::Eof
        ]
    );
    let (tokens, _, _) = scan("x=y\0");
    assert_eq!(
        tokens,
        vec![
            Token::Identifier(String::from("x")),
            Token::Equal,
            Token::Identifier(String::from("y")),
            Token::Eof
        ]
    );
}

#[test]
fn test_unterminated_empty_string_still_reports() {
    let (tokens, has_error, errors) = scan("\"\0");
    assert!(has_error);
    assert_eq!(errors.len(), 1);
    assert_eq!(errors[0], "[0:2] Unterminated string");
    assert_eq!(tokens, vec![Token::String(String::from("")), Token::Eof]);
}

#[test]
fn test_multi_line_string_keeps_its_newlines() {
    let (tokens, has_error, errors) = scan("\"a\nb\"\0");
    assert_eq!(
        tokens,
        vec![Token::String(String::from("a\nb")), Token::Eof]
    );
    assert!(!has_error);
    assert!(errors.is_empty());
}

#[test]
fn test_unterminated_string_after_newline_reports_on_its_line() {
    let (tokens, has_error, errors) = scan("\"a\n\0");
    assert!(has_error);
    assert_eq!(errors.len(), 1);
    assert_eq!(errors[0], "[1:4] Unterminated string");
    assert_eq!(tokens, vec![Token::String(String::from("a\n")), Token::Eof]);
}

#[test]
fn test_diagnostic_position_counts_lines() {
    let (_, has_error, errors) = scan("\n\n@\0");
    assert!(has_error);
    assert_eq!(errors[0], "[2:1] Unknown token found @");
}
