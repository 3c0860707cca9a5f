use nlang::Token;
use nlang::tokenizer::tokenize;

#[test]
fn empty_input_yields_end_of_file() {
    assert_eq!(tokenize(""), vec![Token::EndOfFile]);
}

#[test]
fn whitespace_is_skipped() {
    assert_eq!(tokenize(" \t\r\n "), vec![Token::EndOfFile]);
}

#[test]
fn declaration_tokens() {
    assert_eq!(
        tokenize("let x = 5;"),
        vec![
            Token::Let,
            Token::Identifier("x".to_string()),
            Token::Equal,
            Token::Number(5),
            Token::SemiColon,
            Token::EndOfFile,
        ]
    );
}

#[test]
fn double_equals_is_consumed_greedily() {
    assert_eq!(
        tokenize("a == b"),
        vec![
            Token::Identifier("a".to_string()),
            Token::EqualEqual,
            Token::Identifier("b".to_string()),
            Token::EndOfFile,
        ]
    );
}

#[test]
fn separated_equals_are_two_assignment_markers() {
    assert_eq!(
        tokenize("= ="),
        vec![Token::Equal, Token::Equal, Token::EndOfFile]
    );
}

#[test]
fn bang_equals_is_not_equal_and_lone_bang_is_unknown() {
    assert_eq!(tokenize("!="), vec![Token::NotEqual, Token::EndOfFile]);
    assert_eq!(tokenize("!"), vec![Token::Unknown, Token::EndOfFile]);
}

#[test]
fn single_character_punctuation() {
    assert_eq!(
        tokenize("+-*/%(){}[]<>,;"),
        vec![
            Token::Plus,
            Token::Minus,
            Token::Asterisk,
            Token::Slash,
            Token::Modulo,
            Token::LeftParenthesis,
            Token::RightParenthesis,
            Token::LeftBrace,
            Token::RightBrace,
            Token::LeftBracket,
            Token::RightBracket,
            Token::LessThan,
            Token::GreaterThan,
            Token::Comma,
            Token::SemiColon,
            Token::EndOfFile,
        ]
    );
}

#[test]
fn string_literal_captures_content_verbatim() {
    assert_eq!(
        tokenize("\"hi there\""),
        vec![Token::StringLiteral("hi there".to_string()), Token::EndOfFile]
    );
}

#[test]
fn unterminated_string_captures_remainder() {
    assert_eq!(
        tokenize("\"open end"),
        vec![Token::StringLiteral("open end".to_string()), Token::EndOfFile]
    );
}

#[test]
fn keywords_and_identifiers() {
    assert_eq!(
        tokenize("let print if else letter print_it x1_y"),
        vec![
            Token::Let,
            Token::Print,
            Token::If,
            Token::Else,
            Token::Identifier("letter".to_string()),
            Token::Identifier("print_it".to_string()),
            Token::Identifier("x1_y".to_string()),
            Token::EndOfFile,
        ]
    );
}

#[test]
fn number_literals() {
    assert_eq!(
        tokenize("0 7 2147483647"),
        vec![
            Token::Number(0),
            Token::Number(7),
            Token::Number(2147483647),
            Token::EndOfFile,
        ]
    );
}

#[test]
fn number_beyond_i32_range_is_unknown() {
    assert_eq!(
        tokenize("2147483648"),
        vec![Token::Unknown, Token::EndOfFile]
    );
    assert_eq!(
        tokenize("99999999999999999999"),
        vec![Token::Unknown, Token::EndOfFile]
    );
}

#[test]
fn unrecognized_characters_become_unknown() {
    assert_eq!(
        tokenize("@ #"),
        vec![Token::Unknown, Token::Unknown, Token::EndOfFile]
    );
}

#[test]
fn scan_always_ends_with_end_of_file() {
    for source in ["", "let", "\"unterminated", "3 +", "@@@"] {
        let tokens = tokenize(source);
        assert!(!tokens.is_empty());
        assert_eq!(tokens.last(), Some(&Token::EndOfFile));
    }
}
