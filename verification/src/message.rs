//! The wording of every error the tokenizer and the parser report, and how
//! tokens are spelled inside those messages.

use crate::std_text::{char_debug_text, debug_char, debug_str, str_debug_text};
use crate::token::{Keyword, SpecToken, Token};
use vstd::prelude::*;
use vstd::string::*;

verus! {

/// The character for a decimal digit.
pub open spec fn digit_char(d: nat) -> char
    recommends
        d < 10,
{
    (('0' as nat) + d) as char
}

/// A number in decimal, without sign or leading zeros.
pub open spec fn decimal_text(n: nat) -> Seq<char>
    decreases n,
{
    if n < 10 {
        seq![digit_char(n)]
    } else {
        decimal_text(n / 10).push(digit_char(n % 10))
    }
}

/// Appends the decimal spelling of `n` to `out`.
pub fn push_decimal(out: &mut String, n: u64)
    ensures
        final(out)@ == old(out)@ + decimal_text(n as nat),
    decreases n,
{
    if n >= 10 {
        push_decimal(out, n / 10);
    }
    let d: u8 = (n % 10) as u8;
    out.push((48u8 + d) as char);
}

/// The name of a keyword as messages show it.
pub open spec fn keyword_text(k: Keyword) -> Seq<char> {
    match k {
        Keyword::Select => "Select"@,
        Keyword::Create => "Create"@,
        Keyword::Table => "Table"@,
        Keyword::Where => "Where"@,
        Keyword::Order => "Order"@,
        Keyword::By => "By"@,
        Keyword::Asc => "Asc"@,
        Keyword::Desc => "Desc"@,
        Keyword::From => "From"@,
        Keyword::And => "And"@,
        Keyword::Or => "Or"@,
        Keyword::Not => "Not"@,
        Keyword::True => "True"@,
        Keyword::False => "False"@,
        Keyword::Primary => "Primary"@,
        Keyword::Key => "Key"@,
        Keyword::Check => "Check"@,
        Keyword::Int => "Int"@,
        Keyword::Bool => "Bool"@,
        Keyword::Varchar => "Varchar"@,
        Keyword::Null => "Null"@,
    }
}

/// The name of a keyword as messages show it.
pub fn describe_keyword(k: Keyword) -> (name: &'static str)
    ensures
        name@ == keyword_text(k),
{
    match k {
        Keyword::Select => "Select",
        Keyword::Create => "Create",
        Keyword::Table => "Table",
        Keyword::Where => "Where",
        Keyword::Order => "Order",
        Keyword::By => "By",
        Keyword::Asc => "Asc",
        Keyword::Desc => "Desc",
        Keyword::From => "From",
        Keyword::And => "And",
        Keyword::Or => "Or",
        Keyword::Not => "Not",
        Keyword::True => "True",
        Keyword::False => "False",
        Keyword::Primary => "Primary",
        Keyword::Key => "Key",
        Keyword::Check => "Check",
        Keyword::Int => "Int",
        Keyword::Bool => "Bool",
        Keyword::Varchar => "Varchar",
        Keyword::Null => "Null",
    }
}

/// The name of a token's kind, followed in parentheses by what the token
/// carries.
pub open spec fn with_payload(kind: Seq<char>, payload: Seq<char>) -> Seq<char> {
    kind + "("@ + payload + ")"@
}

/// The name of a token's kind, followed in parentheses by what the token
/// carries.
pub fn kind_with_payload(kind: &str, payload: &str) -> (text: String)
    ensures
        text@ == with_payload(kind@, payload@),
{
    let mut text = String::from_str(kind);
    text.append("(");
    text.append(payload);
    text.append(")");
    text
}

/// A token as messages show it: the name of its kind, followed in
/// parentheses by what it carries. Numbers are in decimal; strings and
/// characters are quoted and escaped as std's `Debug` formatting does it.
pub open spec fn token_text(t: SpecToken) -> Seq<char> {
    match t {
        SpecToken::LeftParentheses => "LeftParentheses"@,
        SpecToken::RightParentheses => "RightParentheses"@,
        SpecToken::Comma => "Comma"@,
        SpecToken::Semicolon => "Semicolon"@,
        SpecToken::Plus => "Plus"@,
        SpecToken::Minus => "Minus"@,
        SpecToken::Star => "Star"@,
        SpecToken::Divide => "Divide"@,
        SpecToken::Equal => "Equal"@,
        SpecToken::NotEqual => "NotEqual"@,
        SpecToken::GreaterThan => "GreaterThan"@,
        SpecToken::GreaterThanOrEqual => "GreaterThanOrEqual"@,
        SpecToken::LessThan => "LessThan"@,
        SpecToken::LessThanOrEqual => "LessThanOrEqual"@,
        SpecToken::Number(n) => with_payload("Number"@, decimal_text(n as nat)),
        SpecToken::String(s) => with_payload("String"@, str_debug_text(s)),
        SpecToken::Identifier(s) => with_payload("Identifier"@, str_debug_text(s)),
        SpecToken::Keyword(k) => with_payload("Keyword"@, keyword_text(k)),
        SpecToken::Invalid(c) => with_payload("Invalid"@, char_debug_text(c)),
        SpecToken::Eof => "Eof"@,
    }
}

/// A token as messages show it.
pub fn describe_token(t: &Token) -> (text: String)
    ensures
        text@ == token_text(t@),
{
    match t {
        Token::LeftParentheses => String::from_str("LeftParentheses"),
        Token::RightParentheses => String::from_str("RightParentheses"),
        Token::Comma => String::from_str("Comma"),
        Token::Semicolon => String::from_str("Semicolon"),
        Token::Plus => String::from_str("Plus"),
        Token::Minus => String::from_str("Minus"),
        Token::Star => String::from_str("Star"),
        Token::Divide => String::from_str("Divide"),
        Token::Equal => String::from_str("Equal"),
        Token::NotEqual => String::from_str("NotEqual"),
        Token::GreaterThan => String::from_str("GreaterThan"),
        Token::GreaterThanOrEqual => String::from_str("GreaterThanOrEqual"),
        Token::LessThan => String::from_str("LessThan"),
        Token::LessThanOrEqual => String::from_str("LessThanOrEqual"),
        Token::Number(n) => {
            let mut digits = String::new();
            push_decimal(&mut digits, *n);
            proof {
                assert(digits@ =~= decimal_text(*n as nat));
            }
            kind_with_payload("Number", digits.as_str())
        },
        Token::String(s) => kind_with_payload("String", debug_str(s.as_str()).as_str()),
        Token::Identifier(s) => kind_with_payload("Identifier", debug_str(s.as_str()).as_str()),
        Token::Keyword(k) => kind_with_payload("Keyword", describe_keyword(*k)),
        Token::Invalid(c) => kind_with_payload("Invalid", debug_char(*c).as_str()),
        Token::Eof => String::from_str("Eof"),
    }
}

/// The complaint about a quoted string that the input ends inside of: it
/// names the opening quote and what followed it.
#[verifier::opaque]
pub open spec fn unterminated_string_text(quote: char, partial: Seq<char>) -> Seq<char> {
    "Unterminated string starting with "@.push(quote) + partial
}

/// Builds the complaint about a quoted string that is not closed.
pub fn unterminated_string_message(quote: char, partial: &str) -> (text: String)
    ensures
        text@ == unterminated_string_text(quote, partial@),
{
    proof {
        reveal(unterminated_string_text);
    }
    let mut text = String::from_str("Unterminated string starting with ");
    text.push(quote);
    text.append(partial);
    text
}

/// The complaint about what follows a column of a `SELECT` list.
#[verifier::opaque]
pub open spec fn expected_comma_or_from_text(found: SpecToken) -> Seq<char> {
    "Expected ',' or FROM, found "@ + token_text(found)
}

/// Builds the complaint about what follows a column of a `SELECT` list.
pub fn expected_comma_or_from_message(found: &Token) -> (text: String)
    ensures
        text@ == expected_comma_or_from_text(found@),
{
    proof {
        reveal(expected_comma_or_from_text);
    }
    let mut text = String::from_str("Expected ',' or FROM, found ");
    text.append(describe_token(found).as_str());
    text
}

/// The complaint about a token of the wrong kind.
#[verifier::opaque]
pub open spec fn expected_token_text(expected: SpecToken, found: SpecToken) -> Seq<char> {
    "Expected token "@ + token_text(expected) + ", got "@ + token_text(found)
}

/// Builds the complaint about a token of the wrong kind.
pub fn expected_token_message(expected: &Token, found: &Token) -> (text: String)
    ensures
        text@ == expected_token_text(expected@, found@),
{
    proof {
        reveal(expected_token_text);
    }
    let mut text = String::from_str("Expected token ");
    text.append(describe_token(expected).as_str());
    text.append(", got ");
    text.append(describe_token(found).as_str());
    text
}

/// The complaint about a missing keyword.
#[verifier::opaque]
pub open spec fn expected_keyword_text(expected: Keyword, found: SpecToken) -> Seq<char> {
    "Expected keyword "@ + keyword_text(expected) + ", got "@ + token_text(found)
}

/// Builds the complaint about a missing keyword.
pub fn expected_keyword_message(expected: Keyword, found: &Token) -> (text: String)
    ensures
        text@ == expected_keyword_text(expected, found@),
{
    proof {
        reveal(expected_keyword_text);
    }
    let mut text = String::from_str("Expected keyword ");
    text.append(describe_keyword(expected));
    text.append(", got ");
    text.append(describe_token(found).as_str());
    text
}

/// The complaint about a statement that does not end in `;`.
#[verifier::opaque]
pub open spec fn expected_semicolon_text(found: SpecToken) -> Seq<char> {
    "Expected semicolon, found "@ + token_text(found)
}

/// Builds the complaint about a statement that does not end in `;`.
pub fn expected_semicolon_message(found: &Token) -> (text: String)
    ensures
        text@ == expected_semicolon_text(found@),
{
    proof {
        reveal(expected_semicolon_text);
    }
    let mut text = String::from_str("Expected semicolon, found ");
    text.append(describe_token(found).as_str());
    text
}

/// The complaint about a parenthesis that is not closed.
#[verifier::opaque]
pub open spec fn expected_closing_text(found: SpecToken) -> Seq<char> {
    "Expected ')' after expression, found "@ + token_text(found)
}

/// Builds the complaint about a parenthesis that is not closed.
pub fn expected_closing_message(found: &Token) -> (text: String)
    ensures
        text@ == expected_closing_text(found@),
{
    proof {
        reveal(expected_closing_text);
    }
    let mut text = String::from_str("Expected ')' after expression, found ");
    text.append(describe_token(found).as_str());
    text
}

/// The complaint about a token that cannot start an operand.
#[verifier::opaque]
pub open spec fn expected_primary_text(found: SpecToken) -> Seq<char> {
    "Unexpected token "@ + token_text(found) + " - expected primary expression"@
}

/// Builds the complaint about a token that cannot start an operand.
pub fn expected_primary_message(found: &Token) -> (text: String)
    ensures
        text@ == expected_primary_text(found@),
{
    proof {
        reveal(expected_primary_text);
    }
    let mut text = String::from_str("Unexpected token ");
    text.append(describe_token(found).as_str());
    text.append(" - expected primary expression");
    text
}

} // verus!
