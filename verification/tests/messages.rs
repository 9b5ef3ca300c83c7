use sql_syntax::message::{
    describe_keyword, describe_token, expected_closing_message, expected_comma_or_from_message,
    expected_keyword_message, expected_primary_message, expected_semicolon_message,
    expected_token_message, kind_with_payload, push_decimal, unterminated_string_message,
};
use sql_syntax::token::{Keyword, Token};

#[test]
fn describe_token_matches_debug_formatting() {
    let tokens = vec![
        Token::LeftParentheses,
        Token::RightParentheses,
        Token::Comma,
        Token::Semicolon,
        Token::Plus,
        Token::Minus,
        Token::Star,
        Token::Divide,
        Token::Equal,
        Token::NotEqual,
        Token::GreaterThan,
        Token::GreaterThanOrEqual,
        Token::LessThan,
        Token::LessThanOrEqual,
        Token::Number(0),
        Token::Number(10),
        Token::Number(18446744073709551615),
        Token::String(String::new()),
        Token::String("it's \"quoted\"\n\t\\".to_string()),
        Token::Identifier("users".to_string()),
        Token::Keyword(Keyword::Varchar),
        Token::Invalid('#'),
        Token::Invalid('\''),
        Token::Invalid('\r'),
        Token::Invalid('é'),
        Token::Eof,
    ];
    for token in tokens {
        assert_eq!(describe_token(&token), format!("{:?}", token));
    }
}

#[test]
fn describe_token_examples() {
    assert_eq!(describe_token(&Token::Eof), "Eof");
    assert_eq!(describe_token(&Token::Number(42)), "Number(42)");
    assert_eq!(describe_token(&Token::String("a'b".to_string())), "String(\"a'b\")");
    assert_eq!(describe_token(&Token::String("a\"b".to_string())), "String(\"a\\\"b\")");
    assert_eq!(describe_token(&Token::Identifier("t".to_string())), "Identifier(\"t\")");
    assert_eq!(describe_token(&Token::Keyword(Keyword::From)), "Keyword(From)");
    assert_eq!(describe_token(&Token::Invalid('#')), "Invalid('#')");
    assert_eq!(describe_token(&Token::Invalid('\'')), "Invalid('\\'')");
}

#[test]
fn describe_keyword_matches_debug_formatting() {
    let keywords = vec![
        Keyword::Select,
        Keyword::Create,
        Keyword::Table,
        Keyword::Where,
        Keyword::Order,
        Keyword::By,
        Keyword::Asc,
        Keyword::Desc,
        Keyword::From,
        Keyword::And,
        Keyword::Or,
        Keyword::Not,
        Keyword::True,
        Keyword::False,
        Keyword::Primary,
        Keyword::Key,
        Keyword::Check,
        Keyword::Int,
        Keyword::Bool,
        Keyword::Varchar,
        Keyword::Null,
    ];
    for keyword in keywords {
        assert_eq!(describe_keyword(keyword), format!("{:?}", keyword));
    }
    assert_eq!(describe_keyword(Keyword::Null), "Null");
}

#[test]
fn push_decimal_appends_the_digits() {
    let mut text = String::from("n=");
    push_decimal(&mut text, 0);
    assert_eq!(text, "n=0");
    push_decimal(&mut text, 907);
    assert_eq!(text, "n=0907");
    let mut text = String::new();
    push_decimal(&mut text, u64::MAX);
    assert_eq!(text, "18446744073709551615");
    let mut text = String::new();
    push_decimal(&mut text, 10);
    assert_eq!(text, "10");
}

#[test]
fn kind_with_payload_wraps_in_parentheses() {
    assert_eq!(kind_with_payload("Number", "7"), "Number(7)");
    assert_eq!(kind_with_payload("String", "\"\""), "String(\"\")");
    assert_eq!(kind_with_payload("", ""), "()");
}

#[test]
fn unterminated_string_message_names_quote_and_content() {
    assert_eq!(
        unterminated_string_message('\'', "abc"),
        "Unterminated string starting with 'abc"
    );
    assert_eq!(unterminated_string_message('"', ""), "Unterminated string starting with \"");
}

#[test]
fn parser_messages_name_what_was_found() {
    let found = Token::Identifier("x".to_string());
    assert_eq!(
        expected_comma_or_from_message(&found),
        "Expected ',' or FROM, found Identifier(\"x\")"
    );
    assert_eq!(
        expected_token_message(&Token::LeftParentheses, &found),
        "Expected token LeftParentheses, got Identifier(\"x\")"
    );
    assert_eq!(
        expected_token_message(&Token::Number(0), &Token::Eof),
        "Expected token Number(0), got Eof"
    );
    assert_eq!(
        expected_keyword_message(Keyword::By, &found),
        "Expected keyword By, got Identifier(\"x\")"
    );
    assert_eq!(
        expected_semicolon_message(&Token::Keyword(Keyword::Where)),
        "Expected semicolon, found Keyword(Where)"
    );
    assert_eq!(
        expected_closing_message(&Token::Comma),
        "Expected ')' after expression, found Comma"
    );
    assert_eq!(
        expected_primary_message(&Token::Invalid('$')),
        "Unexpected token Invalid('$') - expected primary expression"
    );
}
