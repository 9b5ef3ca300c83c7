//! The expression parser: precedence climbing over the token cursor.

use crate::grammar::{
    binary, binary_operator_of, binary_tail, expression, first_token, precedence, primary, unary,
};
use crate::message::{expected_closing_message, expected_primary_message};
use crate::remaining::{lemma_rest_after_twice, rest_after};
use crate::sql_parser::Parser;
use crate::statement::{BinaryOperator, Expression, SpecExpression, UnaryOperator};
use crate::token::{Keyword, Token};
use vstd::prelude::*;

verus! {

/// What the result of parsing an expression stands for.
pub open spec fn expression_view(r: Result<Expression, String>) -> Result<
    SpecExpression,
    Seq<char>,
> {
    match r {
        Ok(e) => Ok(e@),
        Err(message) => Err(message@),
    }
}

/// Parses a whole expression, from the loosest binding operators down.
pub fn parse_expression(parser: &mut Parser) -> (res: Result<Expression, String>)
    ensures
        expression_view(res) == expression(old(parser)@).result,
        final(parser)@ == rest_after(old(parser)@, expression(old(parser)@).consumed),
    decreases old(parser)@.len(), 4nat,
{
    proof {
        reveal(expression);
    }
    parse_binary_expression(parser, 0)
}

/// Parses an operand under its signs: each `-` wraps what follows in a
/// negation, a `+` is read and dropped.
pub fn parse_unary_expression(parser: &mut Parser) -> (res: Result<Expression, String>)
    ensures
        expression_view(res) == unary(old(parser)@).result,
        final(parser)@ == rest_after(old(parser)@, unary(old(parser)@).consumed),
    decreases old(parser)@.len(), 1nat,
{
    let ghost start = parser@;
    match parser.peek() {
        Token::Minus => {
            parser.advance();
            let operand = parse_unary_expression(parser);
            proof {
                lemma_rest_after_twice(start, 1, unary(rest_after(start, 1)).consumed);
            }
            match operand {
                Ok(e) => Ok(
                    Expression::UnaryOperation {
                        operator: UnaryOperator::Minus,
                        operand: Box::new(e),
                    },
                ),
                Err(message) => Err(message),
            }
        },
        Token::Plus => {
            parser.advance();
            let operand = parse_unary_expression(parser);
            proof {
                lemma_rest_after_twice(start, 1, unary(rest_after(start, 1)).consumed);
            }
            operand
        },
        _ => parse_primary_expression(parser),
    }
}

/// Parses one operand: an identifier, a number, a string, `TRUE`, `FALSE`,
/// or an expression in parentheses. The first token is consumed whatever
/// it is.
pub fn parse_primary_expression(parser: &mut Parser) -> (res: Result<Expression, String>)
    ensures
        expression_view(res) == primary(old(parser)@).result,
        final(parser)@ == rest_after(old(parser)@, primary(old(parser)@).consumed),
    decreases old(parser)@.len(), 0nat,
{
    let ghost start = parser@;
    proof {
        reveal(expression);
    }
    match parser.advance() {
        Token::LeftParentheses => {
            let inner = parse_expression(parser);
            let ghost n = expression(rest_after(start, 1)).consumed;
            proof {
                lemma_rest_after_twice(start, 1, n);
            }
            match inner {
                Err(message) => Err(message),
                Ok(e) => {
                    let closing = parser.advance();
                    proof {
                        lemma_rest_after_twice(start, 1 + n, 1);
                    }
                    match closing {
                        Token::RightParentheses => Ok(e),
                        other => Err(expected_closing_message(other)),
                    }
                },
            }
        },
        Token::Identifier(name) => Ok(Expression::Identifier(name.clone())),
        Token::Number(n) => Ok(Expression::Number(*n)),
        Token::String(s) => Ok(Expression::String(s.clone())),
        Token::Keyword(Keyword::True) => Ok(Expression::Bool(true)),
        Token::Keyword(Keyword::False) => Ok(Expression::Bool(false)),
        other => Err(expected_primary_message(other)),
    }
}

/// Parses an operand and the binary operators after it that bind at least
/// as tightly as `min_prec`. Operators of one precedence group to the left.
pub fn parse_binary_expression(parser: &mut Parser, min_prec: u8) -> (res: Result<
    Expression,
    String,
>)
    ensures
        expression_view(res) == binary(old(parser)@, min_prec as nat).result,
        final(parser)@ == rest_after(old(parser)@, binary(old(parser)@, min_prec as nat).consumed),
    decreases old(parser)@.len(), 3nat,
{
    let ghost start = parser@;
    let mut left = match parse_unary_expression(parser) {
        Ok(e) => e,
        Err(message) => {
            return Err(message);
        },
    };
    let ghost mut consumed: nat = unary(start).consumed;
    loop
        invariant
            start == old(parser)@,
            parser@ == rest_after(start, consumed),
            binary(start, min_prec as nat) == binary_tail(parser@, min_prec as nat, left@).later(
                consumed,
            ),
        ensures
            binary(start, min_prec as nat).result == Ok::<SpecExpression, Seq<char>>(left@),
            parser@ == rest_after(start, binary(start, min_prec as nat).consumed),
        decreases parser@.len(),
    {
        let ghost here = parser@;
        let op = match peek_binary_operator(parser) {
            Some(op) => op,
            None => {
                break ;
            },
        };
        let prec = get_precedence(&op);
        if prec < min_prec {
            break ;
        }
        parser.advance();
        let right = match parse_binary_expression(parser, prec + 1) {
            Ok(e) => e,
            Err(message) => {
                proof {
                    let n = binary(rest_after(here, 1), (prec + 1) as nat).consumed;
                    lemma_rest_after_twice(here, 1, n);
                    lemma_rest_after_twice(start, consumed, 1 + n);
                }
                return Err(message);
            },
        };
        proof {
            let n = binary(rest_after(here, 1), (prec + 1) as nat).consumed;
            lemma_rest_after_twice(here, 1, n);
            lemma_rest_after_twice(start, consumed, 1 + n);
            consumed = consumed + 1 + n;
        }
        left =
        Expression::BinaryOperation {
            left_operand: Box::new(left),
            operator: op,
            right_operand: Box::new(right),
        };
    }
    Ok(left)
}

/// The binary operator under the cursor, if there is one. The cursor stays
/// where it is.
pub fn peek_binary_operator(parser: &Parser) -> (op: Option<BinaryOperator>)
    ensures
        op == binary_operator_of(first_token(parser@)),
{
    match parser.peek() {
        Token::Equal => Some(BinaryOperator::Equal),
        Token::NotEqual => Some(BinaryOperator::NotEqual),
        Token::GreaterThan => Some(BinaryOperator::GreaterThan),
        Token::GreaterThanOrEqual => Some(BinaryOperator::GreaterThanOrEqual),
        Token::LessThan => Some(BinaryOperator::LessThan),
        Token::LessThanOrEqual => Some(BinaryOperator::LessThanOrEqual),
        Token::Plus => Some(BinaryOperator::Plus),
        Token::Minus => Some(BinaryOperator::Minus),
        Token::Star => Some(BinaryOperator::Multiply),
        Token::Divide => Some(BinaryOperator::Divide),
        Token::Keyword(Keyword::And) => Some(BinaryOperator::And),
        Token::Keyword(Keyword::Or) => Some(BinaryOperator::Or),
        _ => None,
    }
}

/// How tightly a binary operator binds, from 1 for `OR` to 6 for `*` and
/// `/`.
pub fn get_precedence(op: &BinaryOperator) -> (p: u8)
    ensures
        p == precedence(*op),
{
    match op {
        BinaryOperator::Or => 1,
        BinaryOperator::And => 2,
        BinaryOperator::Equal | BinaryOperator::NotEqual => 3,
        BinaryOperator::GreaterThan
        | BinaryOperator::GreaterThanOrEqual
        | BinaryOperator::LessThan
        | BinaryOperator::LessThanOrEqual => 4,
        BinaryOperator::Plus | BinaryOperator::Minus => 5,
        BinaryOperator::Multiply | BinaryOperator::Divide => 6,
    }
}

} // verus!
