use sql_syntax::token::{Keyword, Token};
use sql_syntax::tokenizer::{match_keyword, tokenize};

fn ident(name: &str) -> Token {
    Token::Identifier(name.to_string())
}

#[test]
fn empty_input_yields_only_eof() {
    assert_eq!(tokenize(""), Ok(vec![Token::Eof]));
    assert_eq!(tokenize(" \t\n "), Ok(vec![Token::Eof]));
}

#[test]
fn punctuation_and_arithmetic_operators() {
    assert_eq!(
        tokenize("( ) , ; + - * /"),
        Ok(vec![
            Token::LeftParentheses,
            Token::RightParentheses,
            Token::Comma,
            Token::Semicolon,
            Token::Plus,
            Token::Minus,
            Token::Star,
            Token::Divide,
            Token::Eof,
        ])
    );
}

#[test]
fn tokens_need_no_space_between_them() {
    assert_eq!(
        tokenize("(a+1)*b;"),
        Ok(vec![
            Token::LeftParentheses,
            ident("a"),
            Token::Plus,
            Token::Number(1),
            Token::RightParentheses,
            Token::Star,
            ident("b"),
            Token::Semicolon,
            Token::Eof,
        ])
    );
}

#[test]
fn single_and_double_equal_are_the_same_token() {
    assert_eq!(tokenize("="), Ok(vec![Token::Equal, Token::Eof]));
    assert_eq!(tokenize("=="), Ok(vec![Token::Equal, Token::Eof]));
    assert_eq!(tokenize("==="), Ok(vec![Token::Equal, Token::Equal, Token::Eof]));
    assert_eq!(
        tokenize("a = b == c"),
        Ok(vec![ident("a"), Token::Equal, ident("b"), Token::Equal, ident("c"), Token::Eof])
    );
}

#[test]
fn comparison_operators() {
    assert_eq!(
        tokenize("!= > >= < <="),
        Ok(vec![
            Token::NotEqual,
            Token::GreaterThan,
            Token::GreaterThanOrEqual,
            Token::LessThan,
            Token::LessThanOrEqual,
            Token::Eof,
        ])
    );
    assert_eq!(tokenize("<>"), Ok(vec![Token::LessThan, Token::GreaterThan, Token::Eof]));
    assert_eq!(tokenize("> ="), Ok(vec![Token::GreaterThan, Token::Equal, Token::Eof]));
}

#[test]
fn lone_bang_is_a_lexical_error() {
    assert_eq!(tokenize("!"), Err("Unexpected character '!'".to_string()));
    assert_eq!(tokenize("a ! b"), Err("Unexpected character '!'".to_string()));
    assert_eq!(tokenize("a ! = b"), Err("Unexpected character '!'".to_string()));
}

#[test]
fn quoted_strings_in_both_quote_styles() {
    assert_eq!(tokenize("'abc'"), Ok(vec![Token::String("abc".to_string()), Token::Eof]));
    assert_eq!(tokenize("\"abc\""), Ok(vec![Token::String("abc".to_string()), Token::Eof]));
    assert_eq!(tokenize("''"), Ok(vec![Token::String(String::new()), Token::Eof]));
}

#[test]
fn the_other_quote_and_backslashes_are_taken_literally() {
    assert_eq!(
        tokenize("'say \"hi\"'"),
        Ok(vec![Token::String("say \"hi\"".to_string()), Token::Eof])
    );
    assert_eq!(tokenize("\"it's\""), Ok(vec![Token::String("it's".to_string()), Token::Eof]));
    assert_eq!(
        tokenize("'a\\' b"),
        Ok(vec![Token::String("a\\".to_string()), ident("b"), Token::Eof])
    );
    assert_eq!(
        tokenize("'select 1;\n'"),
        Ok(vec![Token::String("select 1;\n".to_string()), Token::Eof])
    );
}

#[test]
fn unterminated_string_reports_the_partial_content() {
    assert_eq!(
        tokenize("'abc"),
        Err("Unterminated string starting with 'abc".to_string())
    );
    assert_eq!(
        tokenize("x = \"it's"),
        Err("Unterminated string starting with \"it's".to_string())
    );
    assert_eq!(tokenize("'"), Err("Unterminated string starting with '".to_string()));
}

#[test]
fn numbers_are_decimal_and_unsigned() {
    assert_eq!(tokenize("0"), Ok(vec![Token::Number(0), Token::Eof]));
    assert_eq!(tokenize("007"), Ok(vec![Token::Number(7), Token::Eof]));
    assert_eq!(tokenize("12345"), Ok(vec![Token::Number(12345), Token::Eof]));
    assert_eq!(
        tokenize("18446744073709551615"),
        Ok(vec![Token::Number(u64::MAX), Token::Eof])
    );
    assert_eq!(tokenize("-5"), Ok(vec![Token::Minus, Token::Number(5), Token::Eof]));
}

#[test]
fn number_that_overflows_is_a_lexical_error() {
    assert_eq!(tokenize("18446744073709551616"), Err("Invalid number".to_string()));
    assert_eq!(tokenize("99999999999999999999999"), Err("Invalid number".to_string()));
    assert_eq!(tokenize("a + 184467440737095516150"), Err("Invalid number".to_string()));
}

#[test]
fn a_word_right_after_digits_is_a_token_of_its_own() {
    assert_eq!(tokenize("12ab"), Ok(vec![Token::Number(12), ident("ab"), Token::Eof]));
    assert_eq!(tokenize("ab12"), Ok(vec![ident("ab12"), Token::Eof]));
}

#[test]
fn keywords_are_matched_whatever_their_case() {
    assert_eq!(tokenize("SELECT"), Ok(vec![Token::Keyword(Keyword::Select), Token::Eof]));
    assert_eq!(tokenize("select"), Ok(vec![Token::Keyword(Keyword::Select), Token::Eof]));
    assert_eq!(tokenize("SeLeCt"), Ok(vec![Token::Keyword(Keyword::Select), Token::Eof]));
}

#[test]
fn every_keyword_is_recognised() {
    let source = "select create table where order by asc desc from and or not true false \
                  primary key check int bool varchar null";
    let expected = vec![
        Keyword::Select,
        Keyword::Create,
        Keyword::Table,
        Keyword::Where,
        Keyword::Order,
        Keyword::By,
        Keyword::Asc,
        Keyword::Desc,
        Keyword::From,
        Keyword::And,
        Keyword::Or,
        Keyword::Not,
        Keyword::True,
        Keyword::False,
        Keyword::Primary,
        Keyword::Key,
        Keyword::Check,
        Keyword::Int,
        Keyword::Bool,
        Keyword::Varchar,
        Keyword::Null,
    ];
    let mut tokens: Vec<Token> = Vec::new();
    for keyword in expected {
        tokens.push(Token::Keyword(keyword));
    }
    tokens.push(Token::Eof);
    assert_eq!(tokenize(source), Ok(tokens));
}

#[test]
fn identifiers_keep_their_casing() {
    assert_eq!(tokenize("Users"), Ok(vec![ident("Users"), Token::Eof]));
    assert_eq!(tokenize("_tmp_1"), Ok(vec![ident("_tmp_1"), Token::Eof]));
    assert_eq!(tokenize("selects"), Ok(vec![ident("selects"), Token::Eof]));
    assert_eq!(tokenize("order_by"), Ok(vec![ident("order_by"), Token::Eof]));
    assert_eq!(tokenize("int8"), Ok(vec![ident("int8"), Token::Eof]));
}

#[test]
fn other_characters_become_invalid_tokens() {
    assert_eq!(tokenize("#"), Ok(vec![Token::Invalid('#'), Token::Eof]));
    assert_eq!(
        tokenize("a.b"),
        Ok(vec![ident("a"), Token::Invalid('.'), ident("b"), Token::Eof])
    );
    assert_eq!(tokenize("\r"), Ok(vec![Token::Invalid('\r'), Token::Eof]));
    assert_eq!(
        tokenize("é1"),
        Ok(vec![Token::Invalid('é'), Token::Number(1), Token::Eof])
    );
}

#[test]
fn the_first_error_wins() {
    assert_eq!(tokenize("! 'abc"), Err("Unexpected character '!'".to_string()));
    assert_eq!(
        tokenize("'abc !"),
        Err("Unterminated string starting with 'abc !".to_string())
    );
}

#[test]
fn tokenizing_twice_gives_the_same_tokens() {
    let source = "SELECT a, b + 1 FROM t WHERE c >= 'x' ORDER BY a DESC;";
    let first = tokenize(source);
    let second = tokenize(source);
    assert!(first.is_ok());
    assert_eq!(first, second);
    let broken = "SELECT 'abc";
    assert_eq!(tokenize(broken), tokenize(broken));
}

#[test]
fn output_always_ends_with_eof() {
    for source in ["", "a", "a b c", "1 + 2", "select * from t;", "# $ %"] {
        let tokens = tokenize(source).unwrap();
        assert_eq!(tokens.last(), Some(&Token::Eof));
        let eofs = tokens.iter().filter(|t| **t == Token::Eof).count();
        assert_eq!(eofs, 1);
    }
}

#[test]
fn match_keyword_wants_upper_case() {
    assert_eq!(match_keyword("SELECT"), Some(Keyword::Select));
    assert_eq!(match_keyword("VARCHAR"), Some(Keyword::Varchar));
    assert_eq!(match_keyword("NULL"), Some(Keyword::Null));
    assert_eq!(match_keyword("select"), None);
    assert_eq!(match_keyword("SELECTS"), None);
    assert_eq!(match_keyword("SELEC"), None);
    assert_eq!(match_keyword(""), None);
}
