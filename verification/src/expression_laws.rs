//! What holds of every expression the grammar yields: the cursor moves
//! forward, an expression ends where the operators end, and the tree
//! follows precedence and left associativity.

use crate::grammar::{
    binary, binary_node, binary_operator_of, binary_tail, expression, first_token, precedence,
    primary, unary, unary_node,
};
use crate::remaining::{lemma_rest_after_twice, rest_after};
use crate::statement::{SpecExpression, UnaryOperator};
use crate::token::SpecToken;
use vstd::prelude::*;

verus! {

/// An operand that is read takes at least one token, and no more than
/// there are.
pub proof fn lemma_primary_consumes(tokens: Seq<SpecToken>)
    ensures
        primary(tokens).result is Ok ==> 1 <= primary(tokens).consumed <= tokens.len(),
    decreases tokens.len(), 0nat,
{
    if first_token(tokens) == SpecToken::LeftParentheses {
        lemma_binary_consumes(rest_after(tokens, 1), 0);
    }
}

/// A signed operand that is read takes at least one token, and no more
/// than there are.
pub proof fn lemma_unary_consumes(tokens: Seq<SpecToken>)
    ensures
        unary(tokens).result is Ok ==> 1 <= unary(tokens).consumed <= tokens.len(),
    decreases tokens.len(), 1nat,
{
    match first_token(tokens) {
        SpecToken::Minus => lemma_unary_consumes(rest_after(tokens, 1)),
        SpecToken::Plus => lemma_unary_consumes(rest_after(tokens, 1)),
        _ => lemma_primary_consumes(tokens),
    }
}

/// The operators and operands after a left operand take no more tokens
/// than there are.
pub proof fn lemma_binary_tail_consumes(tokens: Seq<SpecToken>, min_prec: nat, left: SpecExpression)
    ensures
        binary_tail(tokens, min_prec, left).result is Ok ==> binary_tail(
            tokens,
            min_prec,
            left,
        ).consumed <= tokens.len(),
    decreases tokens.len(), 2nat,
{
    if let Some(op) = binary_operator_of(first_token(tokens)) {
        if precedence(op) >= min_prec {
            let right = binary(rest_after(tokens, 1), precedence(op) + 1);
            lemma_binary_consumes(rest_after(tokens, 1), precedence(op) + 1);
            if let Ok(r) = right.result {
                lemma_binary_tail_consumes(
                    rest_after(tokens, 1 + right.consumed),
                    min_prec,
                    binary_node(left, op, r),
                );
            }
        }
    }
}

/// An expression that is read takes at least one token, and no more than
/// there are.
pub proof fn lemma_binary_consumes(tokens: Seq<SpecToken>, min_prec: nat)
    ensures
        binary(tokens, min_prec).result is Ok ==> 1 <= binary(tokens, min_prec).consumed
            <= tokens.len(),
    decreases tokens.len(), 3nat,
{
    let left = unary(tokens);
    lemma_unary_consumes(tokens);
    if let Ok(e) = left.result {
        lemma_binary_tail_consumes(rest_after(tokens, left.consumed), min_prec, e);
    }
}

/// A whole expression that is read takes at least one token, and no more
/// than there are.
pub proof fn lemma_expression_consumes(tokens: Seq<SpecToken>)
    ensures
        expression(tokens).result is Ok ==> 1 <= expression(tokens).consumed <= tokens.len(),
{
    reveal(expression);
    lemma_binary_consumes(tokens, 0);
}

/// Whether an expression read with the threshold `min_prec` may end before
/// `tokens`: they begin with no binary operator, or with one that binds
/// more loosely than `min_prec`.
pub open spec fn ends_expression(tokens: Seq<SpecToken>, min_prec: nat) -> bool {
    match binary_operator_of(first_token(tokens)) {
        None => true,
        Some(op) => precedence(op) < min_prec,
    }
}

/// The operators after a left operand are read until one binds more loosely
/// than the threshold, or none follows.
pub proof fn lemma_binary_tail_ends(tokens: Seq<SpecToken>, min_prec: nat, left: SpecExpression)
    ensures
        binary_tail(tokens, min_prec, left).result is Ok ==> ends_expression(
            rest_after(tokens, binary_tail(tokens, min_prec, left).consumed),
            min_prec,
        ),
    decreases tokens.len(),
{
    if let Some(op) = binary_operator_of(first_token(tokens)) {
        if precedence(op) >= min_prec {
            let right = binary(rest_after(tokens, 1), precedence(op) + 1);
            if let Ok(r) = right.result {
                let after = rest_after(tokens, 1 + right.consumed);
                let node = binary_node(left, op, r);
                lemma_binary_tail_ends(after, min_prec, node);
                lemma_rest_after_twice(
                    tokens,
                    1 + right.consumed,
                    binary_tail(after, min_prec, node).consumed,
                );
            }
        }
    }
}

/// An expression is read until an operator binds more loosely than the
/// threshold, or none follows.
pub proof fn lemma_binary_ends(tokens: Seq<SpecToken>, min_prec: nat)
    ensures
        binary(tokens, min_prec).result is Ok ==> ends_expression(
            rest_after(tokens, binary(tokens, min_prec).consumed),
            min_prec,
        ),
{
    let left = unary(tokens);
    if let Ok(e) = left.result {
        let after = rest_after(tokens, left.consumed);
        lemma_binary_tail_ends(after, min_prec, e);
        lemma_rest_after_twice(tokens, left.consumed, binary_tail(after, min_prec, e).consumed);
    }
}

/// A whole expression is read until no binary operator follows.
pub proof fn lemma_expression_ends(tokens: Seq<SpecToken>)
    ensures
        expression(tokens).result is Ok ==> binary_operator_of(
            first_token(rest_after(tokens, expression(tokens).consumed)),
        ) is None,
{
    reveal(expression);
    lemma_binary_ends(tokens, 0);
}

/// Whether the operator at the top of `e`, if `e` is a binary operation,
/// binds at least as tightly as `prec`.
pub open spec fn binds_at_least(e: SpecExpression, prec: nat) -> bool {
    match e {
        SpecExpression::BinaryOperation { operator, .. } => precedence(operator) >= prec,
        _ => true,
    }
}

/// Whether a tree is grouped as precedence and left associativity group an
/// expression without parentheses:
/// - the left operand of a binary operator is no operation that binds more
///   loosely than the operator;
/// - its right operand is no operation that binds more loosely, or as
///   tightly;
/// - what a negation applies to is no binary operation.
pub open spec fn respects_precedence(e: SpecExpression) -> bool
    decreases e,
{
    match e {
        SpecExpression::BinaryOperation { left_operand, operator, right_operand } => {
            &&& respects_precedence(*left_operand)
            &&& respects_precedence(*right_operand)
            &&& binds_at_least(*left_operand, precedence(operator))
            &&& binds_at_least(*right_operand, precedence(operator) + 1)
        },
        SpecExpression::UnaryOperation { operator: UnaryOperator::Minus, operand } => {
            &&& respects_precedence(*operand)
            &&& !(*operand is BinaryOperation)
        },
        SpecExpression::UnaryOperation { operator, operand } => respects_precedence(*operand),
        _ => true,
    }
}

/// Whether none of the first `n` tokens opens a parenthesis.
pub open spec fn parenthesis_free(tokens: Seq<SpecToken>, n: nat) -> bool {
    forall|i: int| 0 <= i < n && i < tokens.len() ==> tokens[i] != SpecToken::LeftParentheses
}

/// What is free of parentheses stays so from any token on.
pub proof fn lemma_parenthesis_free_later(tokens: Seq<SpecToken>, a: nat, b: nat)
    requires
        parenthesis_free(tokens, a + b),
    ensures
        parenthesis_free(tokens, a),
        parenthesis_free(rest_after(tokens, a), b),
{
    let rest = rest_after(tokens, a);
    assert forall|i: int| 0 <= i < b && i < rest.len() implies rest[i]
        != SpecToken::LeftParentheses by {
        assert(rest[i] == tokens[a + i]);
    }
}

/// A signed operand without parentheses is a leaf under negations.
pub proof fn lemma_unary_respects_precedence(tokens: Seq<SpecToken>)
    requires
        unary(tokens).result is Ok,
        parenthesis_free(tokens, unary(tokens).consumed),
    ensures
        respects_precedence(unary(tokens).result->Ok_0),
        !(unary(tokens).result->Ok_0 is BinaryOperation),
    decreases tokens.len(),
{
    let rest = rest_after(tokens, 1);
    match first_token(tokens) {
        SpecToken::Minus => {
            lemma_parenthesis_free_later(tokens, 1, unary(rest).consumed);
            lemma_unary_respects_precedence(rest);
        },
        SpecToken::Plus => {
            lemma_parenthesis_free_later(tokens, 1, unary(rest).consumed);
            lemma_unary_respects_precedence(rest);
        },
        _ => {
            lemma_primary_consumes(tokens);
            assert(tokens.len() > 0 ==> tokens[0] != SpecToken::LeftParentheses);
        },
    }
}

/// Joining operands without parentheses to a left operand that respects
/// precedence, and that the next operator may take as its left operand,
/// gives a tree that respects precedence.
pub proof fn lemma_binary_tail_respects_precedence(
    tokens: Seq<SpecToken>,
    min_prec: nat,
    left: SpecExpression,
)
    requires
        binary_tail(tokens, min_prec, left).result is Ok,
        parenthesis_free(tokens, binary_tail(tokens, min_prec, left).consumed),
        respects_precedence(left),
        binds_at_least(left, min_prec),
        binary_operator_of(first_token(tokens)) matches Some(op) ==> binds_at_least(
            left,
            precedence(op),
        ),
    ensures
        respects_precedence(binary_tail(tokens, min_prec, left).result->Ok_0),
        binds_at_least(binary_tail(tokens, min_prec, left).result->Ok_0, min_prec),
    decreases tokens.len(), 0nat,
{
    if let Some(op) = binary_operator_of(first_token(tokens)) {
        if precedence(op) >= min_prec {
            let operands = rest_after(tokens, 1);
            let right = binary(operands, precedence(op) + 1);
            let r = right.result->Ok_0;
            let after = rest_after(tokens, 1 + right.consumed);
            let node = binary_node(left, op, r);
            let more = binary_tail(after, min_prec, node);
            lemma_parenthesis_free_later(tokens, 1 + right.consumed, more.consumed);
            lemma_parenthesis_free_later(tokens, 1, right.consumed);
            lemma_binary_respects_precedence(operands, precedence(op) + 1);
            lemma_binary_ends(operands, precedence(op) + 1);
            lemma_rest_after_twice(tokens, 1, right.consumed);
            lemma_binary_tail_respects_precedence(after, min_prec, node);
        }
    }
}

/// An expression without parentheses respects precedence, and no operator
/// at its top binds more loosely than the threshold it was read with.
pub proof fn lemma_binary_respects_precedence(tokens: Seq<SpecToken>, min_prec: nat)
    requires
        binary(tokens, min_prec).result is Ok,
        parenthesis_free(tokens, binary(tokens, min_prec).consumed),
    ensures
        respects_precedence(binary(tokens, min_prec).result->Ok_0),
        binds_at_least(binary(tokens, min_prec).result->Ok_0, min_prec),
    decreases tokens.len(), 1nat,
{
    let left = unary(tokens);
    let e = left.result->Ok_0;
    let after = rest_after(tokens, left.consumed);
    lemma_parenthesis_free_later(tokens, left.consumed, binary_tail(after, min_prec, e).consumed);
    lemma_unary_respects_precedence(tokens);
    lemma_binary_tail_respects_precedence(after, min_prec, e);
}

/// Precedence and left associativity: an expression written without
/// parentheses is read as a tree in which tighter operators stand below
/// looser ones, and operators of one precedence group to the left.
pub proof fn lemma_expression_respects_precedence(tokens: Seq<SpecToken>)
    requires
        expression(tokens).result is Ok,
        parenthesis_free(tokens, expression(tokens).consumed),
    ensures
        respects_precedence(expression(tokens).result->Ok_0),
{
    reveal(expression);
    lemma_binary_respects_precedence(tokens, 0);
}

/// `e` under `n` negations.
pub open spec fn negated(e: SpecExpression, n: nat) -> SpecExpression
    decreases n,
{
    if n == 0 {
        e
    } else {
        unary_node(UnaryOperator::Minus, negated(e, (n - 1) as nat))
    }
}

/// `n` times the token `sign`.
pub open spec fn signs(sign: SpecToken, n: nat) -> Seq<SpecToken> {
    Seq::new(n, |i: int| sign)
}

/// Every `-` before an operand is kept: `n` of them put the operand under
/// `n` negations, none of which cancels another.
pub proof fn lemma_minus_signs_stack(n: nat, tokens: Seq<SpecToken>)
    requires
        unary(tokens).result is Ok,
    ensures
        unary(signs(SpecToken::Minus, n) + tokens).result == Ok::<SpecExpression, Seq<char>>(
            negated(unary(tokens).result->Ok_0, n),
        ),
        unary(signs(SpecToken::Minus, n) + tokens).consumed == n + unary(tokens).consumed,
    decreases n,
{
    let all = signs(SpecToken::Minus, n) + tokens;
    if n == 0 {
        assert(all =~= tokens);
    } else {
        let fewer = signs(SpecToken::Minus, (n - 1) as nat) + tokens;
        assert(rest_after(all, 1) =~= fewer);
        lemma_minus_signs_stack((n - 1) as nat, tokens);
    }
}

/// Every `+` before an operand is dropped.
pub proof fn lemma_plus_signs_vanish(n: nat, tokens: Seq<SpecToken>)
    ensures
        unary(signs(SpecToken::Plus, n) + tokens).result == unary(tokens).result,
        unary(signs(SpecToken::Plus, n) + tokens).consumed == n + unary(tokens).consumed,
    decreases n,
{
    let all = signs(SpecToken::Plus, n) + tokens;
    if n == 0 {
        assert(all =~= tokens);
    } else {
        let fewer = signs(SpecToken::Plus, (n - 1) as nat) + tokens;
        assert(rest_after(all, 1) =~= fewer);
        lemma_plus_signs_vanish((n - 1) as nat, tokens);
    }
}

} // verus!
