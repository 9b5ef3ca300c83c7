//! Writing an expression tree out as tokens, with parentheses only where
//! precedence asks for them, and the proof that reading the tokens gives
//! the tree back.

use crate::expression_laws::{
    binds_at_least, ends_expression, lemma_binary_consumes, lemma_binary_tail_consumes,
    lemma_parenthesis_free_later, lemma_unary_consumes, parenthesis_free,
};
use crate::grammar::{
    accept, binary, binary_node, binary_operator_of, binary_tail, expression, first_token,
    precedence, primary, unary, unary_node,
};
use crate::remaining::{lemma_rest_after_twice, rest_after};
use crate::statement::{BinaryOperator, SpecExpression, UnaryOperator};
use crate::token::{Keyword, SpecToken};
use vstd::prelude::*;

verus! {

/// The token that denotes a binary operator.
pub open spec fn operator_token(op: BinaryOperator) -> SpecToken {
    match op {
        BinaryOperator::Or => SpecToken::Keyword(Keyword::Or),
        BinaryOperator::And => SpecToken::Keyword(Keyword::And),
        BinaryOperator::Equal => SpecToken::Equal,
        BinaryOperator::NotEqual => SpecToken::NotEqual,
        BinaryOperator::GreaterThan => SpecToken::GreaterThan,
        BinaryOperator::GreaterThanOrEqual => SpecToken::GreaterThanOrEqual,
        BinaryOperator::LessThan => SpecToken::LessThan,
        BinaryOperator::LessThanOrEqual => SpecToken::LessThanOrEqual,
        BinaryOperator::Plus => SpecToken::Plus,
        BinaryOperator::Minus => SpecToken::Minus,
        BinaryOperator::Multiply => SpecToken::Star,
        BinaryOperator::Divide => SpecToken::Divide,
    }
}

/// Whether a tree is made of what expressions are made of: identifiers,
/// literals, negations and binary operations, without the wildcard and
/// without sort directions.
pub open spec fn is_plain(e: SpecExpression) -> bool
    decreases e,
{
    match e {
        SpecExpression::AllColumns => false,
        SpecExpression::UnaryOperation { operator, operand } => operator == UnaryOperator::Minus
            && is_plain(*operand),
        SpecExpression::BinaryOperation { left_operand, operator, right_operand } => is_plain(
            *left_operand,
        ) && is_plain(*right_operand),
        _ => true,
    }
}

/// The tokens that spell a plain tree.
pub open spec fn spelling(e: SpecExpression) -> Seq<SpecToken>
    decreases e, 0nat,
{
    match e {
        SpecExpression::Identifier(name) => seq![SpecToken::Identifier(name)],
        SpecExpression::Number(n) => seq![SpecToken::Number(n)],
        SpecExpression::String(s) => seq![SpecToken::String(s)],
        SpecExpression::Bool(b) => seq![
            SpecToken::Keyword(
                if b {
                    Keyword::True
                } else {
                    Keyword::False
                },
            ),
        ],
        SpecExpression::UnaryOperation { operator, operand } => seq![SpecToken::Minus]
            + operand_spelling(*operand, 7),
        SpecExpression::BinaryOperation {
            left_operand,
            operator,
            right_operand,
        } => operand_spelling(*left_operand, precedence(operator)) + (seq![
            operator_token(operator),
        ] + operand_spelling(*right_operand, precedence(operator) + 1)),
        SpecExpression::AllColumns => seq![SpecToken::Star],
    }
}

/// The tokens that spell a tree where an operand is wanted whose operator,
/// if it has one at the top, binds at least as tightly as `prec`: the
/// tree's spelling, in parentheses if its operator binds more loosely.
pub open spec fn operand_spelling(e: SpecExpression, prec: nat) -> Seq<SpecToken>
    decreases e, 1nat,
{
    if binds_at_least(e, prec) {
        spelling(e)
    } else {
        seq![SpecToken::LeftParentheses] + (spelling(e) + seq![SpecToken::RightParentheses])
    }
}

/// Whether a token can begin an expression that is spelled from a tree.
pub open spec fn starts_operand(token: SpecToken) -> bool {
    match token {
        SpecToken::Identifier(_) => true,
        SpecToken::Number(_) => true,
        SpecToken::String(_) => true,
        SpecToken::Keyword(Keyword::True) => true,
        SpecToken::Keyword(Keyword::False) => true,
        SpecToken::Minus => true,
        SpecToken::LeftParentheses => true,
        _ => false,
    }
}

/// The spelling of a plain tree is not empty, and begins like an operand.
pub proof fn lemma_spelling_starts_operand(e: SpecExpression)
    requires
        is_plain(e),
    ensures
        spelling(e).len() >= 1,
        starts_operand(spelling(e)[0]),
    decreases e,
{
    match e {
        SpecExpression::BinaryOperation { left_operand, operator, right_operand } => {
            lemma_spelling_starts_operand(*left_operand);
        },
        _ => {},
    }
}

/// Each operator's token denotes that operator.
pub proof fn lemma_operator_token_is_read(op: BinaryOperator)
    ensures
        binary_operator_of(operator_token(op)) == Some(op),
{
}

/// What is left of `head + tail` after `head` is `tail`, and the first
/// token is that of `head` if it has one.
pub proof fn lemma_after_head(head: Seq<SpecToken>, tail: Seq<SpecToken>)
    ensures
        rest_after(head + tail, head.len()) == tail,
        head.len() > 0 ==> first_token(head + tail) == head[0],
        head.len() > 0 ==> rest_after(head + tail, 1) == head.skip(1) + tail,
{
    assert(rest_after(head + tail, head.len()) =~= tail);
    if head.len() > 0 {
        assert(rest_after(head + tail, 1) =~= head.skip(1) + tail);
    }
}

/// A `-` before a signed operand that is read puts it under a negation.
proof fn lemma_minus_then_operand(operand: Seq<SpecToken>, e: SpecExpression, n: nat)
    requires
        unary(operand) == accept(e, n),
    ensures
        unary(seq![SpecToken::Minus] + operand) == accept(
            unary_node(UnaryOperator::Minus, e),
            1 + n,
        ),
{
    let sign = seq![SpecToken::Minus];
    lemma_after_head(sign, operand);
    assert(sign.skip(1) + operand =~= operand);
}

/// An expression that is read up to a closing parenthesis is, with the
/// parentheses around it, read as an operand.
proof fn lemma_parentheses_make_operand(
    inner: Seq<SpecToken>,
    rest: Seq<SpecToken>,
    e: SpecExpression,
)
    requires
        binary(inner + (seq![SpecToken::RightParentheses] + rest), 0) == accept(e, inner.len()),
    ensures
        unary(
            seq![SpecToken::LeftParentheses] + (inner + (seq![SpecToken::RightParentheses] + rest)),
        ) == accept(e, inner.len() + 2),
{
    let open = seq![SpecToken::LeftParentheses];
    let close = seq![SpecToken::RightParentheses] + rest;
    let tokens = open + (inner + close);
    assert(first_token(tokens) == SpecToken::LeftParentheses && rest_after(tokens, 1) == inner
        + close) by {
        lemma_after_head(open, inner + close);
        assert(open.skip(1) + (inner + close) =~= inner + close);
    }
    assert(first_token(rest_after(tokens, 1 + inner.len())) == SpecToken::RightParentheses) by {
        lemma_after_head(inner, close);
        lemma_rest_after_twice(tokens, 1, inner.len());
        lemma_after_head(seq![SpecToken::RightParentheses], rest);
    }
    assert(primary(tokens) == accept(e, inner.len() + 2));
}

/// After a signed operand that is read, an expression goes on with what
/// follows the operand.
proof fn lemma_operand_then_tail(tokens: Seq<SpecToken>, min_prec: nat, e: SpecExpression, n: nat)
    requires
        unary(tokens) == accept(e, n),
    ensures
        binary(tokens, min_prec) == binary_tail(rest_after(tokens, n), min_prec, e).later(n),
{
}

/// An operator that binds tightly enough, and a right operand that is read
/// after it, are joined to what stands to the left.
proof fn lemma_operator_then_operand(
    op: BinaryOperator,
    operand: Seq<SpecToken>,
    rest: Seq<SpecToken>,
    min_prec: nat,
    left: SpecExpression,
    right: SpecExpression,
)
    requires
        precedence(op) >= min_prec,
        binary(operand + rest, precedence(op) + 1) == accept(right, operand.len()),
    ensures
        binary_tail(seq![operator_token(op)] + (operand + rest), min_prec, left) == binary_tail(
            rest,
            min_prec,
            binary_node(left, op, right),
        ).later(1 + operand.len()),
{
    let o = seq![operator_token(op)];
    let tokens = o + (operand + rest);
    lemma_operator_token_is_read(op);
    assert(first_token(tokens) == operator_token(op) && rest_after(tokens, 1) == operand + rest)
        by {
        lemma_after_head(o, operand + rest);
        assert(o.skip(1) + (operand + rest) =~= operand + rest);
    }
    assert(rest_after(tokens, 1 + operand.len()) == rest) by {
        lemma_after_head(operand, rest);
        lemma_rest_after_twice(tokens, 1, operand.len());
    }
}

/// A tree spelled as an operand of a sign, and read as one, is the tree.
pub proof fn lemma_unary_reads_operand(e: SpecExpression, rest: Seq<SpecToken>)
    requires
        is_plain(e),
    ensures
        unary(operand_spelling(e, 7) + rest) == accept(e, operand_spelling(e, 7).len()),
    decreases e,
        (if e is BinaryOperation {
            1nat
        } else {
            0nat
        }),
{
    let tokens = operand_spelling(e, 7) + rest;
    match e {
        SpecExpression::UnaryOperation { operator, operand } => {
            let inner = operand_spelling(*operand, 7);
            lemma_unary_reads_operand(*operand, rest);
            lemma_minus_then_operand(inner + rest, *operand, inner.len());
            assert(e == unary_node(UnaryOperator::Minus, *operand));
            assert(tokens =~= seq![SpecToken::Minus] + (inner + rest));
        },
        SpecExpression::BinaryOperation { left_operand, operator, right_operand } => {
            let inner = spelling(e);
            let close = seq![SpecToken::RightParentheses] + rest;
            assert(binary(inner + close, 0) == accept(e, inner.len())) by {
                lemma_after_head(seq![SpecToken::RightParentheses], rest);
                lemma_binary_reads_spelling(e, 0, close);
            }
            lemma_parentheses_make_operand(inner, rest, e);
            assert(tokens =~= seq![SpecToken::LeftParentheses] + (inner + close));
        },
        _ => {
            assert(tokens[0] == spelling(e)[0]);
            assert(primary(tokens) == accept(e, 1));
        },
    }
}

/// Reading a spelled tree comes to the point where the tree stands to the
/// left and operators may follow, provided that no operator follows which
/// the tree's own right operand would take.
pub proof fn lemma_binary_reads_spelling(e: SpecExpression, min_prec: nat, rest: Seq<SpecToken>)
    requires
        is_plain(e),
        binds_at_least(e, min_prec),
        e matches SpecExpression::BinaryOperation { operator, .. } ==> ends_expression(
            rest,
            precedence(operator) + 1,
        ),
    ensures
        binary(spelling(e) + rest, min_prec) == binary_tail(rest, min_prec, e).later(
            spelling(e).len(),
        ),
    decreases e,
        (if e is BinaryOperation {
            0nat
        } else {
            1nat
        }),
{
    let tokens = spelling(e) + rest;
    match e {
        SpecExpression::BinaryOperation { left_operand, operator, right_operand } => {
            let l = *left_operand;
            let r = *right_operand;
            let p = precedence(operator);
            let left = operand_spelling(l, p);
            let right = operand_spelling(r, p + 1);
            let from_operator = seq![operator_token(operator)] + (right + rest);
            // The left operand is read, and the operator is next.
            assert(binary(left + from_operator, min_prec) == binary_tail(
                from_operator,
                min_prec,
                l,
            ).later(left.len())) by {
                if binds_at_least(l, p) {
                    lemma_operator_token_is_read(operator);
                    lemma_after_head(seq![operator_token(operator)], right + rest);
                    lemma_binary_reads_spelling(l, min_prec, from_operator);
                } else {
                    lemma_unary_reads_operand(l, from_operator);
                    lemma_operand_then_tail(left + from_operator, min_prec, l, left.len());
                    lemma_after_head(left, from_operator);
                }
            }
            // The operator is read, and the right operand after it.
            assert(binary_tail(from_operator, min_prec, l) == binary_tail(rest, min_prec, e).later(
                1 + right.len(),
            )) by {
                lemma_binary_reads_operand(r, p + 1, rest);
                lemma_operator_then_operand(operator, right, rest, min_prec, l, r);
            }
            assert(tokens =~= left + from_operator);
            assert(spelling(e).len() == left.len() + 1 + right.len());
        },
        _ => {
            lemma_unary_reads_operand(e, rest);
            lemma_operand_then_tail(tokens, min_prec, e, spelling(e).len());
            lemma_after_head(spelling(e), rest);
        },
    }
}

/// A tree spelled as an operand, and read with the threshold it was
/// spelled for, is the tree, provided that what follows ends an expression
/// read with that threshold.
pub proof fn lemma_binary_reads_operand(e: SpecExpression, prec: nat, rest: Seq<SpecToken>)
    requires
        is_plain(e),
        ends_expression(rest, prec),
    ensures
        binary(operand_spelling(e, prec) + rest, prec) == accept(
            e,
            operand_spelling(e, prec).len(),
        ),
    decreases e, 2nat,
{
    if binds_at_least(e, prec) {
        lemma_binary_reads_spelling(e, prec, rest);
    } else {
        lemma_unary_reads_operand(e, rest);
        lemma_after_head(operand_spelling(e, prec), rest);
    }
}

/// An operand that is read is a plain tree.
pub proof fn lemma_primary_is_plain(tokens: Seq<SpecToken>)
    ensures
        primary(tokens).result matches Ok(e) ==> is_plain(e),
    decreases tokens.len(), 0nat,
{
    if first_token(tokens) == SpecToken::LeftParentheses {
        lemma_binary_is_plain(rest_after(tokens, 1), 0);
    }
}

/// A signed operand that is read is a plain tree.
pub proof fn lemma_unary_is_plain(tokens: Seq<SpecToken>)
    ensures
        unary(tokens).result matches Ok(e) ==> is_plain(e),
    decreases tokens.len(), 1nat,
{
    match first_token(tokens) {
        SpecToken::Minus => lemma_unary_is_plain(rest_after(tokens, 1)),
        SpecToken::Plus => lemma_unary_is_plain(rest_after(tokens, 1)),
        _ => lemma_primary_is_plain(tokens),
    }
}

/// Operands joined to a plain tree make a plain tree.
pub proof fn lemma_binary_tail_is_plain(tokens: Seq<SpecToken>, min_prec: nat, left: SpecExpression)
    requires
        is_plain(left),
    ensures
        binary_tail(tokens, min_prec, left).result matches Ok(e) ==> is_plain(e),
    decreases tokens.len(), 2nat,
{
    if let Some(op) = binary_operator_of(first_token(tokens)) {
        if precedence(op) >= min_prec {
            let right = binary(rest_after(tokens, 1), precedence(op) + 1);
            lemma_binary_is_plain(rest_after(tokens, 1), precedence(op) + 1);
            if let Ok(r) = right.result {
                lemma_binary_tail_is_plain(
                    rest_after(tokens, 1 + right.consumed),
                    min_prec,
                    binary_node(left, op, r),
                );
            }
        }
    }
}

/// An expression that is read is a plain tree.
pub proof fn lemma_binary_is_plain(tokens: Seq<SpecToken>, min_prec: nat)
    ensures
        binary(tokens, min_prec).result matches Ok(e) ==> is_plain(e),
    decreases tokens.len(), 3nat,
{
    let left = unary(tokens);
    lemma_unary_is_plain(tokens);
    if let Ok(e) = left.result {
        lemma_binary_tail_is_plain(rest_after(tokens, left.consumed), min_prec, e);
    }
}

/// Every expression that is read is a plain tree: it holds neither the
/// wildcard nor a sort direction.
pub proof fn lemma_expression_is_plain(tokens: Seq<SpecToken>)
    ensures
        expression(tokens).result matches Ok(e) ==> is_plain(e),
{
    reveal(expression);
    lemma_binary_is_plain(tokens, 0);
}

/// Reading what a tree is spelled as gives the tree: every tree made of
/// identifiers, literals, negations and binary operations is the parse of
/// its spelling, whatever follows that is no binary operator.
pub proof fn lemma_expression_reads_spelling(e: SpecExpression, rest: Seq<SpecToken>)
    requires
        is_plain(e),
        binary_operator_of(first_token(rest)) is None,
    ensures
        expression(spelling(e) + rest) == accept(e, spelling(e).len()),
{
    reveal(expression);
    lemma_binary_reads_operand(e, 0, rest);
}

/// The tokens of a plain tree from left to right: its leaves, signs and
/// operators in the order in which they stand, without parentheses.
pub open spec fn walk(e: SpecExpression) -> Seq<SpecToken>
    decreases e,
{
    match e {
        SpecExpression::UnaryOperation { operator, operand } => seq![SpecToken::Minus] + walk(
            *operand,
        ),
        SpecExpression::BinaryOperation { left_operand, operator, right_operand } => walk(
            *left_operand,
        ) + (seq![operator_token(operator)] + walk(*right_operand)),
        _ => spelling(e),
    }
}

/// Whether every `+` among the first `n` tokens, but for the very first
/// token, stands after a token that is no operator, and so joins two
/// operands.
pub open spec fn plus_joins(tokens: Seq<SpecToken>, n: nat) -> bool {
    forall|i: int|
        1 <= i < n && i < tokens.len() && #[trigger] tokens[i] == SpecToken::Plus
            ==> binary_operator_of(tokens[i - 1]) is None
}

/// Whether none of the first `n` tokens is a `+` before an operand: the
/// first token is no `+`, and every later `+` joins two operands.
pub open spec fn sign_plus_free(tokens: Seq<SpecToken>, n: nat) -> bool {
    first_token(tokens) != SpecToken::Plus && plus_joins(tokens, n)
}

/// Where every `+` joins two operands, it does so from any token on.
pub proof fn lemma_plus_joins_later(tokens: Seq<SpecToken>, a: nat, b: nat)
    requires
        plus_joins(tokens, a + b),
    ensures
        plus_joins(rest_after(tokens, a), b),
{
    let rest = rest_after(tokens, a);
    assert forall|i: int|
        1 <= i < b && i < rest.len() && #[trigger] rest[i]
            == SpecToken::Plus implies binary_operator_of(rest[i - 1]) is None by {
        assert(rest[i] == tokens[a + i]);
        assert(rest[i - 1] == tokens[a + i - 1]);
    }
}

/// After an operator, or a sign, no `+` comes next where every `+` joins
/// two operands.
proof fn lemma_no_plus_after_operator(tokens: Seq<SpecToken>, n: nat)
    requires
        plus_joins(tokens, n),
        2 <= n <= tokens.len(),
        binary_operator_of(tokens[0]) is Some,
    ensures
        first_token(rest_after(tokens, 1)) != SpecToken::Plus,
{
    assert(rest_after(tokens, 1)[0] == tokens[1]);
}

/// A token that denotes an operator is that operator's token.
pub proof fn lemma_operator_token_is_unique(token: SpecToken)
    ensures
        binary_operator_of(token) matches Some(op) ==> operator_token(op) == token,
{
}

/// A signed operand that is read without parentheses and without a `+` as
/// a sign is, from left to right, the tokens it was read from.
pub proof fn lemma_unary_walk(tokens: Seq<SpecToken>)
    requires
        unary(tokens).result is Ok,
        parenthesis_free(tokens, unary(tokens).consumed),
        sign_plus_free(tokens, unary(tokens).consumed),
    ensures
        walk(unary(tokens).result->Ok_0) == tokens.take(unary(tokens).consumed as int),
    decreases tokens.len(),
{
    let n = unary(tokens).consumed;
    lemma_unary_consumes(tokens);
    if first_token(tokens) == SpecToken::Minus {
        let rest = rest_after(tokens, 1);
        let operand = unary(rest);
        lemma_unary_consumes(rest);
        lemma_parenthesis_free_later(tokens, 1, operand.consumed);
        lemma_plus_joins_later(tokens, 1, operand.consumed);
        lemma_no_plus_after_operator(tokens, n);
        lemma_unary_walk(rest);
        assert(seq![SpecToken::Minus] + rest.take(operand.consumed as int) =~= tokens.take(
            n as int,
        ));
    } else {
        assert(tokens[0] != SpecToken::LeftParentheses);
        assert(primary(tokens).consumed == 1);
        assert(tokens.take(1) =~= seq![tokens[0]]);
    }
}

/// The operands that are joined to a left operand, read without
/// parentheses and without a `+` as a sign, are, from left to right, the
/// tokens they were read from.
pub proof fn lemma_binary_tail_walk(tokens: Seq<SpecToken>, min_prec: nat, left: SpecExpression)
    requires
        binary_tail(tokens, min_prec, left).result is Ok,
        parenthesis_free(tokens, binary_tail(tokens, min_prec, left).consumed),
        plus_joins(tokens, binary_tail(tokens, min_prec, left).consumed),
    ensures
        walk(binary_tail(tokens, min_prec, left).result->Ok_0) == walk(left) + tokens.take(
            binary_tail(tokens, min_prec, left).consumed as int,
        ),
    decreases tokens.len(), 0nat,
{
    let n = binary_tail(tokens, min_prec, left).consumed;
    lemma_binary_tail_consumes(tokens, min_prec, left);
    let taken = match binary_operator_of(first_token(tokens)) {
        Some(op) => precedence(op) >= min_prec,
        None => false,
    };
    if taken {
        let op = binary_operator_of(first_token(tokens))->Some_0;
        let operands = rest_after(tokens, 1);
        let right = binary(operands, precedence(op) + 1);
        let r = right.result->Ok_0;
        let after = rest_after(tokens, 1 + right.consumed);
        let node = binary_node(left, op, r);
        let more = binary_tail(after, min_prec, node);
        lemma_binary_consumes(operands, precedence(op) + 1);
        lemma_binary_tail_consumes(after, min_prec, node);
        lemma_operator_token_is_unique(tokens[0]);
        // The right operand.
        lemma_parenthesis_free_later(tokens, 1 + right.consumed, more.consumed);
        lemma_parenthesis_free_later(tokens, 1, right.consumed);
        lemma_plus_joins_later(tokens, 1, right.consumed);
        lemma_no_plus_after_operator(tokens, n);
        lemma_binary_walk(operands, precedence(op) + 1);
        // What follows it.
        lemma_plus_joins_later(tokens, 1 + right.consumed, more.consumed);
        lemma_binary_tail_walk(after, min_prec, node);
        assert(walk(left) + (seq![tokens[0]] + operands.take(right.consumed as int)) + after.take(
            more.consumed as int,
        ) =~= walk(left) + tokens.take(n as int));
    } else {
        assert(walk(left) + tokens.take(0) =~= walk(left));
    }
}

/// An expression that is read without parentheses and without a `+` as a
/// sign is, from left to right, the tokens it was read from.
pub proof fn lemma_binary_walk(tokens: Seq<SpecToken>, min_prec: nat)
    requires
        binary(tokens, min_prec).result is Ok,
        parenthesis_free(tokens, binary(tokens, min_prec).consumed),
        sign_plus_free(tokens, binary(tokens, min_prec).consumed),
    ensures
        walk(binary(tokens, min_prec).result->Ok_0) == tokens.take(
            binary(tokens, min_prec).consumed as int,
        ),
    decreases tokens.len(), 1nat,
{
    let left = unary(tokens);
    let e = left.result->Ok_0;
    let after = rest_after(tokens, left.consumed);
    let more = binary_tail(after, min_prec, e);
    lemma_unary_consumes(tokens);
    lemma_binary_tail_consumes(after, min_prec, e);
    lemma_parenthesis_free_later(tokens, left.consumed, more.consumed);
    lemma_plus_joins_later(tokens, left.consumed, more.consumed);
    lemma_unary_walk(tokens);
    lemma_binary_tail_walk(after, min_prec, e);
    assert(tokens.take(left.consumed as int) + after.take(more.consumed as int) =~= tokens.take(
        (left.consumed + more.consumed) as int,
    ));
}

/// The tree of an expression keeps the order of the tokens: read from left
/// to right, the leaves, signs and operators of a tree are the tokens that
/// the expression was read from, where these hold no parentheses and no
/// `+` as a sign (which the tree does not keep).
pub proof fn lemma_expression_walk(tokens: Seq<SpecToken>)
    requires
        expression(tokens).result is Ok,
        parenthesis_free(tokens, expression(tokens).consumed),
        sign_plus_free(tokens, expression(tokens).consumed),
    ensures
        walk(expression(tokens).result->Ok_0) == tokens.take(expression(tokens).consumed as int),
{
    reveal(expression);
    lemma_binary_walk(tokens, 0);
}

} // verus!
